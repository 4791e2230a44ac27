use vstd::prelude::*;

use crate::app::{
    count_true, first_named, paste_pairs, reselected, selected_entry_of, selected_path_of,
    marks_cleared, ClipOp,
    action_targets, delete_cancelled, delete_requested, mark_toggled, moved_down, moved_up,
    paste_tally, selection_in_range, AppView, PasteOutcome,
};
use crate::keys::{key_step, Command, Key, KeyCode, Modifiers};
use crate::screen::{status_line_of, StatusStyle};
use crate::text::decimal;
use crate::listing::{
    is_hidden, is_listing_of, listing_key, listing_keys, lowercase, row_of, visible_entries,
    EntryView, RawEntry,
};
use crate::order::stable_sort_of;
use crate::order::{chars_less, lemma_parts_order, parts_less, strictly_ascending, ascending_list};

verus! {

/// Toggling the mark of the highlighted row twice leaves the state as it was.
pub proof fn lemma_toggle_mark_twice(v: AppView)
    ensures
        mark_toggled(mark_toggled(v)) == v,
{
    let w = mark_toggled(v);
    if let Some(p) = crate::app::selected_path_of(v) {
        if v.marks.contains(p) {
            assert(w.marks.insert(p) =~= v.marks);
        } else {
            assert(w.marks.remove(p) =~= v.marks);
        }
        assert(mark_toggled(w).marks =~= v.marks);
    }
}

/// Moving the cursor down and then up returns it to where it was, unless it
/// was on the last row.
pub proof fn lemma_down_then_up(v: AppView, i: usize)
    requires
        v.selected == Some(i),
        i + 1 < v.entries.len() <= usize::MAX,
    ensures
        moved_up(moved_down(v)) == v,
{
}

/// Every key keeps the cursor on a row (or at row 0 of an empty listing).
pub proof fn lemma_key_keeps_selection(v: AppView, key: Key)
    requires
        selection_in_range(v),
    ensures
        selection_in_range(key_step(v, key).0),
{
}

/// Directories come before other entries; entries of the same kind are
/// ordered by their lower-cased names.
pub proof fn lemma_listing_order(a: RawEntry, b: RawEntry)
    ensures
        parts_less(listing_key(a.name@, a.is_dir), listing_key(b.name@, b.is_dir)) == (
        (a.is_dir && !b.is_dir) || (a.is_dir == b.is_dir && chars_less(
            lowercase(a.name@),
            lowercase(b.name@),
        ))),
{
    let ka = listing_key(a.name@, a.is_dir);
    let kb = listing_key(b.name@, b.is_dir);
    reveal_with_fuel(crate::order::parts_less_from, 3);
    reveal_with_fuel(crate::order::chars_less_from, 2);
    assert(ka[0] =~= (if a.is_dir { seq!['0'] } else { seq!['1'] }));
    assert(kb[0] =~= (if b.is_dir { seq!['0'] } else { seq!['1'] }));
    if a.is_dir == b.is_dir {
        assert(ka[0] == kb[0]);
        if lowercase(a.name@) == lowercase(b.name@) {
            lemma_parts_order(ka, ka, ka);
            assert(ka =~= kb);
            crate::order::lemma_chars_order(lowercase(a.name@), lowercase(a.name@), lowercase(a.name@));
        }
    } else {
        assert(ka[0][0] != kb[0][0]);
        assert(ka[0] != kb[0]);
    }
}

/// Without hidden entries shown, no listed entry is a dot file.
pub proof fn lemma_hidden_left_out(raw: Seq<RawEntry>, i: int)
    requires
        0 <= i < visible_entries(raw, false).len(),
    ensures
        !is_hidden(visible_entries(raw, false)[i].name@),
    decreases raw.len(),
{
    if raw.len() > 0 {
        let rest = visible_entries(raw.drop_last(), false);
        if i < rest.len() {
            lemma_hidden_left_out(raw.drop_last(), i);
        }
    }
}

/// With hidden entries shown, every entry read is listed.
pub proof fn lemma_all_shown(raw: Seq<RawEntry>)
    ensures
        visible_entries(raw, true) == raw,
    decreases raw.len(),
{
    if raw.len() > 0 {
        lemma_all_shown(raw.drop_last());
        assert(raw.drop_last().push(raw.last()) =~= raw);
    }
}

/// Every transfer of a paste counts once: as done, skipped or failed.
pub proof fn lemma_paste_tally_total(
    items: Seq<(Seq<Seq<char>>, Seq<Seq<char>>)>,
    outcomes: Seq<PasteOutcome>,
)
    requires
        items.len() == outcomes.len(),
    ensures
        paste_tally(items, outcomes).0 + paste_tally(items, outcomes).1 + paste_tally(
            items,
            outcomes,
        ).2 == items.len(),
    decreases items.len(),
{
    if items.len() > 0 {
        lemma_paste_tally_total(items.drop_last(), outcomes.drop_last());
    }
}

/// Cancelling a requested deletion leaves nothing pending, and the marks,
/// the clipboard, the cursor and the directory as they were.
pub proof fn lemma_request_then_cancel(v: AppView)
    requires
        v.pending_delete is None,
    ensures
        delete_cancelled(delete_requested(v)) == (AppView {
            status: Some("Delete cancelled"@),
            ..v
        }),
{
}

/// With paths marked, an operation acts on each marked path exactly once,
/// in ascending path order.
pub proof fn lemma_targets_are_marks(v: AppView)
    requires
        v.marks.finite(),
        v.marks != Set::<Seq<Seq<char>>>::empty(),
    ensures
        strictly_ascending(action_targets(v)),
        action_targets(v).to_set() == v.marks,
        action_targets(v).no_duplicates(),
{
    crate::order::lemma_ascending_list(v.marks);
    let t = action_targets(v);
    assert forall|i: int, j: int| 0 <= i < t.len() && 0 <= j < t.len() && i != j implies t[i] != t[j] by {
        if i < j {
            lemma_parts_order(t[i], t[j], t[i]);
        } else {
            lemma_parts_order(t[j], t[i], t[j]);
        }
    }
}

/// While a deletion awaits confirmation, a key either carries it out,
/// cancels it, or changes nothing.
pub proof fn lemma_pending_keys(v: AppView, key: Key)
    requires
        v.pending_delete is Some,
    ensures
        ({
            let (w, cmd) = key_step(v, key);
            ||| w == v && cmd == Command::Continue
            ||| w == v && cmd == Command::Delete
            ||| w == delete_cancelled(v) && cmd == Command::Continue
        }),
{
}

/// A directory read has exactly one listing.
pub proof fn lemma_listing_unique(
    raw: Seq<RawEntry>,
    show_hidden: bool,
    a: Seq<EntryView>,
    b: Seq<EntryView>,
)
    requires
        is_listing_of(raw, show_hidden, a),
        is_listing_of(raw, show_hidden, b),
    ensures
        a == b,
{
    let vis = visible_entries(raw, show_hidden);
    let keys = listing_keys(vis);
    let pa = choose|perm: Seq<usize>| #[trigger] stable_sort_of(keys, perm) && forall|i: int|
        0 <= i < a.len() ==> #[trigger] a[i] == row_of(vis[perm[i] as int]);
    let pb = choose|perm: Seq<usize>| #[trigger] stable_sort_of(keys, perm) && forall|i: int|
        0 <= i < b.len() ==> #[trigger] b[i] == row_of(vis[perm[i] as int]);
    crate::order::lemma_stable_sort_unique(keys, pa, pb);
    assert forall|i: int| 0 <= i < a.len() implies a[i] == b[i] by {
        assert(a[i] == row_of(vis[pa[i] as int]));
        assert(b[i] == row_of(vis[pb[i] as int]));
    }
    assert(a =~= b);
}

/// Among rows with distinct names, the first row named like row `i` is row
/// `i`.
proof fn lemma_first_named_distinct(es: Seq<EntryView>, i: int)
    requires
        0 <= i < es.len(),
        forall|j: int, k: int| 0 <= j < k < es.len() ==> es[j].name != es[k].name,
    ensures
        first_named(es, es[i].name) == Some(i as nat),
    decreases es.len(),
{
    if i < es.len() - 1 {
        let rest = es.drop_last();
        lemma_first_named_distinct(rest, i);
        assert(rest[i] == es[i]);
    } else {
        let rest = es.drop_last();
        lemma_none_named(rest, es[i].name);
    }
}

proof fn lemma_none_named(es: Seq<EntryView>, name: Seq<char>)
    requires
        forall|j: int| 0 <= j < es.len() ==> es[j].name != name,
    ensures
        first_named(es, name) is None,
    decreases es.len(),
{
    if es.len() > 0 {
        lemma_none_named(es.drop_last(), name);
    }
}

/// Entering the highlighted directory and going back up, with the parent
/// directory read unchanged and its names distinct, returns to the same
/// directory, the same rows and the cursor on the directory entered; marks,
/// clipboard, pending deletion and status are kept.
///
/// `entering` is the state after `App::enter_selected`, `inside` after
/// `App::entered` with the read `inner`, `leaving` after `App::go_up`
/// (which returned `child`), and `back` after `App::went_up` with the read
/// `outer`, of which `before` shows the listing.
pub proof fn lemma_enter_then_up(
    before: AppView,
    i: usize,
    entering: AppView,
    inner: Seq<RawEntry>,
    inside: AppView,
    leaving: AppView,
    child: Seq<char>,
    outer: Seq<RawEntry>,
    back: AppView,
)
    requires
        before.selected == Some(i),
        selected_entry_of(before) matches Some(e) && e.is_dir,
        forall|j: int, k: int|
            0 <= j < k < before.entries.len() ==> before.entries[j].name != before.entries[k].name,
        is_listing_of(outer, before.show_hidden, before.entries),
        entering == (AppView { cwd: before.cwd.push(before.entries[i as int].name), ..before }),
        is_listing_of(inner, entering.show_hidden, inside.entries),
        inside == (AppView { entries: inside.entries, selected: Some(0usize), ..entering }),
        child == inside.cwd.last(),
        leaving == (AppView { cwd: inside.cwd.drop_last(), ..inside }),
        is_listing_of(outer, leaving.show_hidden, back.entries),
        back == (AppView {
            entries: back.entries,
            selected: Some(
                match first_named(back.entries, child) {
                    Some(k) => k as usize,
                    None => 0usize,
                },
            ),
            ..leaving
        }),
    ensures
        back == (AppView { selected: Some(i), ..before }),
{
    lemma_listing_unique(outer, before.show_hidden, before.entries, back.entries);
    lemma_first_named_distinct(before.entries, i as int);
    assert(before.cwd.push(before.entries[i as int].name).drop_last() =~= before.cwd);
}

/// Counting a paste: a transfer onto itself adds one skipped; any other
/// transfer adds one done when it was done, one skipped when its
/// destination existed, and one error when it failed; nothing else changes.
pub proof fn lemma_paste_tally_step(
    items: Seq<(Seq<Seq<char>>, Seq<Seq<char>>)>,
    outcomes: Seq<PasteOutcome>,
    src: Seq<Seq<char>>,
    dest: Seq<Seq<char>>,
    outcome: PasteOutcome,
)
    requires
        items.len() == outcomes.len(),
    ensures
        ({
            let t = paste_tally(items, outcomes);
            let u = paste_tally(items.push((src, dest)), outcomes.push(outcome));
            &&& src == dest ==> u == (t.0, t.1 + 1, t.2)
            &&& src != dest && outcome == PasteOutcome::Done ==> u == (t.0 + 1, t.1, t.2)
            &&& src != dest && outcome == PasteOutcome::Skipped ==> u == (t.0, t.1 + 1, t.2)
            &&& src != dest && outcome == PasteOutcome::Failed ==> u == (t.0, t.1, t.2 + 1)
        }),
{
    assert(items.push((src, dest)).drop_last() =~= items);
    assert(outcomes.push(outcome).drop_last() =~= outcomes);
}

/// Nothing to paste counts nothing.
pub proof fn lemma_paste_tally_empty()
    ensures
        paste_tally(Seq::empty(), Seq::empty()) == (0nat, 0nat, 0nat),
{
}

/// The paste message reports the verb of the operation and the three counts
/// in the order done, skipped, errors.
pub proof fn lemma_paste_message(op: ClipOp, done: nat, skipped: nat, errors: nat)
    ensures
        crate::app::paste_message(op, (done, skipped, errors)) == (if op == ClipOp::Copy {
            "Copied"@
        } else {
            "Moved"@
        }) + " "@ + decimal(done) + ", skipped "@ + decimal(skipped) + " (already exists), errors "@
            + decimal(errors),
{
}

/// The transfers of a paste are the clipboard's paths other than the root,
/// in order, each going into the directory under its last component.
pub proof fn lemma_paste_pairs(cwd: Seq<Seq<char>>, paths: Seq<Seq<Seq<char>>>)
    ensures
        paste_pairs(cwd, paths) == paths.filter(|p: Seq<Seq<char>>| p.len() > 0).map_values(
            |p: Seq<Seq<char>>| (p, cwd.push(p.last())),
        ),
    decreases paths.len(),
{
    reveal(Seq::filter);
    if paths.len() > 0 {
        lemma_paste_pairs(cwd, paths.drop_last());
        let f = |p: Seq<Seq<char>>| p.len() > 0;
        let g = |p: Seq<Seq<char>>| (p, cwd.push(p.last()));
        let rest = paths.drop_last().filter(f);
        if f(paths.last()) {
            assert(rest.push(paths.last()).map_values(g) =~= rest.map_values(g).push(
                g(paths.last()),
            ));
        }
    }
}

/// The number of removed paths is the number of `true` flags.
pub proof fn lemma_count_true(flags: Seq<bool>)
    ensures
        count_true(flags) == flags.filter(|b: bool| b).len(),
        count_true(flags) <= flags.len(),
    decreases flags.len(),
{
    reveal(Seq::filter);
    if flags.len() > 0 {
        lemma_count_true(flags.drop_last());
    }
}

/// A cursor on a row of the new listing stays there; one past the end, or
/// an absent one on an empty listing, goes to the last row (row 0 when
/// there are none); an absent one on a non-empty listing stays absent.
pub proof fn lemma_reselected(selected: Option<usize>, len: nat)
    requires
        len <= usize::MAX,
    ensures
        match selected {
            Some(i) => if i < len {
                reselected(selected, len) == selected
            } else {
                reselected(selected, len) == Some(if len > 0 { (len - 1) as usize } else { 0 })
            },
            None => true,
        },
        len == 0 ==> reselected(selected, len) == Some(0usize),
        selected is None && len > 0 ==> reselected(selected, len) is None,
{
}

/// What the status line shows, by priority: the confirmation prompt of a
/// pending deletion, whatever message there is; else the message; else the
/// clipboard; else the number of marks; else nothing.
pub proof fn lemma_status_line_priority(v: AppView)
    ensures
        v.pending_delete matches Some(p) ==> status_line_of(v) == (
            "Delete "@ + decimal(p.len()) + " item(s)? This cannot be undone. (y/n)"@,
            StatusStyle::Confirm,
        ),
        v.pending_delete is None ==> (v.status matches Some(s) ==> status_line_of(v) == (
            s,
            StatusStyle::Message,
        )),
        v.pending_delete is None && v.status is None ==> (v.clipboard matches Some((op, paths))
            ==> status_line_of(v) == (
            "Clipboard: "@ + decimal(paths.len()) + (if paths.len() == 1 {
                " item"@
            } else {
                " items"@
            }) + " staged to "@ + (if op == ClipOp::Copy { "copy"@ } else { "move"@ }),
            StatusStyle::Clipboard,
        )),
        v.pending_delete is None && v.status is None && v.clipboard is None && v.marks != Set::<
            Seq<Seq<char>>,
        >::empty() ==> status_line_of(v) == (
            "selected "@ + decimal(v.marks.len()) + (if v.marks.len() == 1 {
                " item"@
            } else {
                " items"@
            }),
            StatusStyle::Selection,
        ),
        v.pending_delete is None && v.status is None && v.clipboard is None && v.marks == Set::<
            Seq<Seq<char>>,
        >::empty() ==> status_line_of(v) == (Seq::<char>::empty(), StatusStyle::Blank),
{
    reveal_strlit(" item");
    reveal_strlit(" items");
    if let Some((op, paths)) = v.clipboard {
        assert(" item"@ + crate::screen::plural(paths.len()) =~= (if paths.len() == 1 {
            " item"@
        } else {
            " items"@
        }));
    }
    assert(" item"@ + crate::screen::plural(v.marks.len()) =~= (if v.marks.len() == 1 {
        " item"@
    } else {
        " items"@
    }));
}

/// While a deletion is pending, a pressed `y` or `Y` carries it out, `n`,
/// `N` or Esc cancels it, and any other key does nothing, whatever the
/// modifiers.
pub proof fn lemma_confirm_keys(v: AppView, key: Key)
    requires
        v.pending_delete is Some,
        key.pressed,
    ensures
        key.code == KeyCode::Char('y') || key.code == KeyCode::Char('Y') ==> key_step(v, key) == (
            v,
            Command::Delete,
        ),
        key.code == KeyCode::Char('n') || key.code == KeyCode::Char('N') || key.code
            == KeyCode::Esc ==> key_step(v, key) == (delete_cancelled(v), Command::Continue),
        !(key.code == KeyCode::Char('y') || key.code == KeyCode::Char('Y') || key.code
            == KeyCode::Char('n') || key.code == KeyCode::Char('N') || key.code == KeyCode::Esc)
            ==> key_step(v, key) == (v, Command::Continue),
{
}

/// The key map with nothing pending: what each binding does.
pub proof fn lemma_key_map(v: AppView, key: Key)
    requires
        v.pending_delete is None,
        key.pressed,
    ensures
        key.modifiers == Modifiers::Plain && (key.code == KeyCode::Char('q') || key.code
            == KeyCode::Esc) ==> key_step(v, key) == (v, Command::Quit),
        key.modifiers == Modifiers::Plain && (key.code == KeyCode::Char('j') || key.code
            == KeyCode::Down) ==> key_step(v, key) == (moved_down(v), Command::Continue),
        key.modifiers == Modifiers::Plain && (key.code == KeyCode::Char('k') || key.code
            == KeyCode::Up) ==> key_step(v, key) == (moved_up(v), Command::Continue),
        key.modifiers == Modifiers::Plain && (key.code == KeyCode::Enter || key.code
            == KeyCode::Right) ==> key_step(v, key) == (v, Command::Enter),
        key.modifiers == Modifiers::Plain && (key.code == KeyCode::Backspace || key.code
            == KeyCode::Left) ==> key_step(v, key) == (v, Command::GoUp),
        key.modifiers == Modifiers::Plain && key.code == KeyCode::Char('r') ==> key_step(v, key)
            == (v, Command::Reload),
        key.modifiers == Modifiers::Plain && key.code == KeyCode::Char('.') ==> key_step(v, key)
            == (AppView { show_hidden: !v.show_hidden, ..v }, Command::Reload),
        key.modifiers == Modifiers::Plain && key.code == KeyCode::Char('!') ==> key_step(v, key)
            == (v, Command::Shell),
        key.modifiers == Modifiers::Plain && key.code == KeyCode::Char(' ') ==> key_step(v, key)
            == (mark_toggled(v), Command::Continue),
        key.modifiers == Modifiers::Plain && key.code == KeyCode::Char('u') ==> key_step(v, key)
            == (marks_cleared(v), Command::Continue),
        key.modifiers == Modifiers::Plain && key.code == KeyCode::Char('d') ==> key_step(v, key)
            == (delete_requested(v), Command::Continue),
        key.modifiers == Modifiers::Shift && (key.code == KeyCode::Char('k') || key.code
            == KeyCode::Up) ==> key_step(v, key) == (moved_up(mark_toggled(v)), Command::Continue),
        key.modifiers == Modifiers::Shift && (key.code == KeyCode::Char('j') || key.code
            == KeyCode::Down) ==> key_step(v, key) == (
            moved_down(mark_toggled(v)),
            Command::Continue,
        ),
        key.modifiers == Modifiers::Control && key.code == KeyCode::Char('c') ==> key_step(v, key)
            == (crate::app::copied_to_clipboard(v), Command::Continue),
        key.modifiers == Modifiers::Control && key.code == KeyCode::Char('x') ==> key_step(v, key)
            == (crate::app::cut_to_clipboard(v), Command::Continue),
        key.modifiers == Modifiers::Control && key.code == KeyCode::Char('v') ==> key_step(v, key)
            == (v, Command::Paste),
        key.modifiers == Modifiers::Other ==> key_step(v, key) == (v, Command::Continue),
{
}

/// A key that is not a press changes nothing.
pub proof fn lemma_release_ignored(v: AppView, key: Key)
    requires
        !key.pressed,
    ensures
        key_step(v, key) == (v, Command::Continue),
{
}

/// The cursor moves one row down, stopping on the last row, and starts on
/// row 0 when absent; nothing moves in an empty listing.
pub proof fn lemma_moved_down(v: AppView)
    requires
        v.entries.len() <= usize::MAX,
    ensures
        v.entries.len() == 0 ==> moved_down(v) == v,
        v.entries.len() > 0 ==> moved_down(v).selected == Some(
            match v.selected {
                Some(i) => if i + 1 < v.entries.len() {
                    (i + 1) as usize
                } else {
                    (v.entries.len() - 1) as usize
                },
                None => 0usize,
            },
        ),
        moved_down(v) == (AppView { selected: moved_down(v).selected, ..v }),
{
}

/// The cursor moves one row up, stopping on row 0, and starts on row 0 when
/// absent.
pub proof fn lemma_moved_up(v: AppView)
    ensures
        moved_up(v).selected == Some(
            match v.selected {
                Some(i) => if i > 0 {
                    (i - 1) as usize
                } else {
                    0usize
                },
                None => 0usize,
            },
        ),
        moved_up(v) == (AppView { selected: moved_up(v).selected, ..v }),
{
}

/// Toggling flips whether the highlighted row's path is marked and leaves
/// every other path as it was; without a highlighted row nothing changes.
pub proof fn lemma_mark_toggled(v: AppView, q: Seq<Seq<char>>)
    ensures
        selected_path_of(v) matches Some(p) ==> mark_toggled(v).marks.contains(p)
            == !v.marks.contains(p),
        selected_path_of(v) matches Some(p) && q != p ==> mark_toggled(v).marks.contains(q)
            == v.marks.contains(q),
        selected_path_of(v) is None ==> mark_toggled(v) == v,
        mark_toggled(v) == (AppView { marks: mark_toggled(v).marks, ..v }),
{
}

/// The first row named `name`: it has that name and no earlier row has.
pub proof fn lemma_first_named(es: Seq<EntryView>, name: Seq<char>)
    ensures
        first_named(es, name) matches Some(k) ==> k < es.len() && es[k as int].name == name
            && forall|j: int| 0 <= j < k ==> es[j].name != name,
        first_named(es, name) is None ==> forall|j: int| 0 <= j < es.len() ==> es[j].name != name,
    decreases es.len(),
{
    if es.len() > 0 {
        let rest = es.drop_last();
        lemma_first_named(rest, name);
        assert(forall|j: int| 0 <= j < rest.len() ==> rest[j] == es[j]);
    }
}

/// The listed entries are the entries read that are shown, in the order of
/// the read.
pub proof fn lemma_visible_entries(raw: Seq<RawEntry>, show_hidden: bool)
    ensures
        visible_entries(raw, show_hidden) == raw.filter(
            |r: RawEntry| crate::listing::is_shown(r, show_hidden),
        ),
    decreases raw.len(),
{
    reveal(Seq::filter);
    if raw.len() > 0 {
        lemma_visible_entries(raw.drop_last(), show_hidden);
    }
}

/// Without marks, an operation acts on the highlighted row's path alone, or
/// on nothing when no row is highlighted.
pub proof fn lemma_targets_without_marks(v: AppView)
    requires
        v.marks == Set::<Seq<Seq<char>>>::empty(),
    ensures
        selected_path_of(v) matches Some(p) ==> action_targets(v) == seq![p],
        selected_path_of(v) is None ==> action_targets(v).len() == 0,
{
}

/// Copying stages the targets for copying and reports their number; with
/// no target only the status changes. Cutting does the same for moving.
pub proof fn lemma_clipboard_staging(v: AppView)
    ensures
        ({
            let t = action_targets(v);
            let c = crate::app::copied_to_clipboard(v);
            let x = crate::app::cut_to_clipboard(v);
            &&& t.len() > 0 ==> c == (AppView {
                clipboard: Some((ClipOp::Copy, t)),
                status: Some(
                    "Copied "@ + decimal(t.len()) + " item(s) to clipboard \u{2014} ctrl-C to paste"@,
                ),
                ..v
            })
            &&& t.len() > 0 ==> x == (AppView {
                clipboard: Some((ClipOp::Move, t)),
                status: Some(
                    "Cut "@ + decimal(t.len()) + " item(s) to clipboard \u{2014} press p to paste"@,
                ),
                ..v
            })
            &&& t.len() == 0 ==> c == (AppView { status: Some("Nothing to copy"@), ..v })
            &&& t.len() == 0 ==> x == (AppView { status: Some("Nothing to cut"@), ..v })
        }),
{
}

/// Requesting a deletion puts the targets up for confirmation without
/// touching the status; with no target it only says so. Cancelling drops
/// the pending deletion and says so. Clearing marks drops every mark.
pub proof fn lemma_delete_and_marks_messages(v: AppView)
    ensures
        action_targets(v).len() > 0 ==> delete_requested(v) == (AppView {
            pending_delete: Some(action_targets(v)),
            ..v
        }),
        action_targets(v).len() == 0 ==> delete_requested(v) == (AppView {
            status: Some("Nothing to delete"@),
            ..v
        }),
        delete_cancelled(v) == (AppView {
            pending_delete: None,
            status: Some("Delete cancelled"@),
            ..v
        }),
        marks_cleared(v).marks.len() == 0,
        marks_cleared(v) == (AppView {
            marks: marks_cleared(v).marks,
            status: Some("Marks cleared"@),
            ..v
        }),
{
    assert(marks_cleared(v).marks =~= Set::<Seq<Seq<char>>>::empty());
}

/// A row is highlighted as marked when its path is marked, else as a
/// directory when it is one; its name cell is the mark (`*` or a space),
/// the name, and `/` after a directory.
pub proof fn lemma_row_text(v: AppView, e: EntryView)
    ensures
        crate::screen::row_marked(v, e) == v.marks.contains(v.cwd.push(e.name)),
        crate::screen::row_style(v, e) == (if v.marks.contains(v.cwd.push(e.name)) {
            crate::screen::RowStyle::Marked
        } else if e.is_dir {
            crate::screen::RowStyle::Directory
        } else {
            crate::screen::RowStyle::Plain
        }),
        crate::screen::name_cell(true, e)[0] == '*',
        crate::screen::name_cell(false, e)[0] == ' ',
        crate::screen::name_cell(true, e).subrange(1, e.name.len() + 1int) == e.name,
        crate::screen::name_cell(false, e).subrange(1, e.name.len() + 1int) == e.name,
        crate::screen::name_cell(true, e).len() == e.name.len() + 1 + (if e.is_dir { 1int } else { 0int }),
        crate::screen::name_cell(false, e).len() == e.name.len() + 1 + (if e.is_dir { 1int } else { 0int }),
        e.is_dir ==> crate::screen::name_cell(true, e).last() == '/' && crate::screen::name_cell(false, e).last() == '/',
        crate::screen::row_cells(v, e).len() == 7,
        crate::screen::row_cells(v, e)[0] == e.mode_str,
        crate::screen::row_cells(v, e)[1] == decimal(e.nlink as nat),
        crate::screen::row_cells(v, e)[2] == decimal(e.uid as nat),
        crate::screen::row_cells(v, e)[3] == decimal(e.gid as nat),
        crate::screen::row_cells(v, e)[4] == crate::format::size_text(e.size),
        crate::screen::row_cells(v, e)[5] == e.mtime,
        crate::screen::row_cells(v, e)[6] == crate::screen::name_cell(crate::screen::row_marked(v, e), e),
{
    assert(crate::screen::name_cell(true, e).subrange(1, e.name.len() + 1int) =~= e.name);
    assert(crate::screen::name_cell(false, e).subrange(1, e.name.len() + 1int) =~= e.name);
}

} // verus!
