use vstd::prelude::*;

use crate::listing::{build_listing, entries_view, is_listing_of, Entry, EntryView, RawEntry};
use crate::order::{
    ascending_list, lemma_ascending_unique, lemma_parts_order, parts_less, stable_sort_indices,
    strictly_ascending,
};
use crate::path::{paths_view, FsPath};
use crate::text::{decimal, push_decimal};

verus! {

/// The operation staged in the clipboard.
#[derive(PartialEq, Eq, Structural, Clone, Copy, Debug)]
pub enum ClipOp {
    Copy,
    Move,
}

/// An action awaiting a yes/no confirmation.
pub enum PendingConfirm {
    Delete(Vec<FsPath>),
}

/// The browser's state: the directory shown and its rows, the cursor, the
/// marked paths, the clipboard, a pending deletion and the status message.
pub struct App {
    cwd: FsPath,
    entries: Vec<Entry>,
    show_hidden: bool,
    selected: Option<usize>,
    marked: Vec<FsPath>,
    clipboard: Option<(ClipOp, Vec<FsPath>)>,
    confirm: Option<PendingConfirm>,
    status: Option<String>,
}

/// The abstract state of an [`App`].
pub struct AppView {
    /// The directory shown.
    pub cwd: Seq<Seq<char>>,
    /// Its rows, in display order.
    pub entries: Seq<EntryView>,
    pub show_hidden: bool,
    /// The highlighted row.
    pub selected: Option<usize>,
    /// The marked paths.
    pub marks: Set<Seq<Seq<char>>>,
    /// The staged operation and the paths it applies to.
    pub clipboard: Option<(ClipOp, Seq<Seq<Seq<char>>>)>,
    /// The paths of a deletion awaiting confirmation.
    pub pending_delete: Option<Seq<Seq<Seq<char>>>>,
    /// The message of the status line.
    pub status: Option<Seq<char>>,
}

/// The set of paths held by a vector of paths.
pub open spec fn path_set(paths: Seq<FsPath>) -> Set<Seq<Seq<char>>> {
    paths_view(paths).to_set()
}

impl View for App {
    type V = AppView;

    closed spec fn view(&self) -> AppView {
        AppView {
            cwd: self.cwd@,
            entries: entries_view(self.entries@),
            show_hidden: self.show_hidden,
            selected: self.selected,
            marks: path_set(self.marked@),
            clipboard: match self.clipboard {
                Some((op, paths)) => Some((op, paths_view(paths@))),
                None => None,
            },
            pending_delete: match self.confirm {
                Some(PendingConfirm::Delete(paths)) => Some(paths_view(paths@)),
                None => None,
            },
            status: match self.status {
                Some(s) => Some(s@),
                None => None,
            },
        }
    }
}

/// The highlighted row, when the cursor is on one.
pub open spec fn selected_entry_of(v: AppView) -> Option<EntryView> {
    match v.selected {
        Some(i) => if i < v.entries.len() {
            Some(v.entries[i as int])
        } else {
            None
        },
        None => None,
    }
}

/// The full path of the highlighted row.
pub open spec fn selected_path_of(v: AppView) -> Option<Seq<Seq<char>>> {
    match selected_entry_of(v) {
        Some(e) => Some(v.cwd.push(e.name)),
        None => None,
    }
}

/// The cursor is on a row, or at row 0 of an empty listing, or absent.
pub open spec fn selection_in_range(v: AppView) -> bool {
    v.selected matches Some(i) ==> (i < v.entries.len() || i == 0)
}

/// The cursor one row down, stopping at the last row; no move in an empty
/// listing.
pub open spec fn moved_down(v: AppView) -> AppView {
    let len = v.entries.len();
    if len == 0 {
        v
    } else {
        AppView {
            selected: Some(
                match v.selected {
                    Some(i) => if i + 1 < len {
                        (i + 1) as usize
                    } else {
                        (len - 1) as usize
                    },
                    None => 0,
                },
            ),
            ..v
        }
    }
}

/// The cursor one row up, stopping at the first row.
pub open spec fn moved_up(v: AppView) -> AppView {
    AppView {
        selected: Some(
            match v.selected {
                Some(i) => if i > 0 {
                    (i - 1) as usize
                } else {
                    0
                },
                None => 0,
            },
        ),
        ..v
    }
}

/// The highlighted row's path unmarked if it was marked, marked otherwise.
pub open spec fn mark_toggled(v: AppView) -> AppView {
    match selected_path_of(v) {
        Some(p) => AppView {
            marks: if v.marks.contains(p) {
                v.marks.remove(p)
            } else {
                v.marks.insert(p)
            },
            ..v
        },
        None => v,
    }
}

/// All marks dropped.
pub open spec fn marks_cleared(v: AppView) -> AppView {
    AppView { marks: Set::empty(), status: Some("Marks cleared"@), ..v }
}

/// The paths an operation acts on: the marked paths in ascending order if
/// any are marked, otherwise the highlighted row's path, otherwise none.
pub open spec fn action_targets(v: AppView) -> Seq<Seq<Seq<char>>> {
    if v.marks != Set::<Seq<Seq<char>>>::empty() {
        ascending_list(v.marks)
    } else {
        match selected_path_of(v) {
            Some(p) => seq![p],
            None => Seq::empty(),
        }
    }
}

/// The targets staged for copying.
pub open spec fn copied_to_clipboard(v: AppView) -> AppView {
    let t = action_targets(v);
    if t.len() == 0 {
        AppView { status: Some("Nothing to copy"@), ..v }
    } else {
        AppView {
            clipboard: Some((ClipOp::Copy, t)),
            status: Some(
                "Copied "@ + decimal(t.len()) + " item(s) to clipboard \u{2014} ctrl-C to paste"@,
            ),
            ..v
        }
    }
}

/// The targets staged for moving.
pub open spec fn cut_to_clipboard(v: AppView) -> AppView {
    let t = action_targets(v);
    if t.len() == 0 {
        AppView { status: Some("Nothing to cut"@), ..v }
    } else {
        AppView {
            clipboard: Some((ClipOp::Move, t)),
            status: Some(
                "Cut "@ + decimal(t.len()) + " item(s) to clipboard \u{2014} press p to paste"@,
            ),
            ..v
        }
    }
}

/// The targets staged for deletion, awaiting confirmation.
pub open spec fn delete_requested(v: AppView) -> AppView {
    let t = action_targets(v);
    if t.len() == 0 {
        AppView { status: Some("Nothing to delete"@), ..v }
    } else {
        AppView { pending_delete: Some(t), ..v }
    }
}

/// The pending deletion dropped.
pub open spec fn delete_cancelled(v: AppView) -> AppView {
    AppView { pending_delete: None, status: Some("Delete cancelled"@), ..v }
}

/// The cursor after the rows were replaced by `len` new ones: kept if it
/// is on a row, otherwise put on the last row (row 0 when there is none).
pub open spec fn reselected(selected: Option<usize>, len: nat) -> Option<usize> {
    let at = match selected {
        Some(i) => i as nat,
        None => 0,
    };
    if at >= len {
        Some(if len > 0 { (len - 1) as usize } else { 0 })
    } else {
        selected
    }
}

/// No path is marked twice.
pub open spec fn distinct_paths(paths: Seq<FsPath>) -> bool {
    forall|i: int, j: int| 0 <= i < j < paths.len() ==> paths[i]@ != paths[j]@
}

impl App {
    /// The internal invariant: marks held once each, and the cursor in range.
    pub closed spec fn wf(&self) -> bool {
        &&& distinct_paths(self.marked@)
        &&& selection_in_range(self@)
    }

    /// A well-formed state has its cursor in range and finitely many marks.
    pub proof fn lemma_wf(&self)
        requires
            self.wf(),
        ensures
            selection_in_range(self@),
            self@.marks.finite(),
    {
        assert(paths_view(self.marked@).to_set().finite()) by {
            vstd::seq_lib::seq_to_set_is_finite(paths_view(self.marked@));
        }
    }

    /// The state of a new browser on `start` whose first read gave `raw`: hidden
    /// files shown, the cursor on the first row, nothing marked or staged.
    pub fn new(start: FsPath, raw: &Vec<RawEntry>) -> (app: App)
        ensures
            app.wf(),
            app@.cwd == start@,
            is_listing_of(raw@, true, app@.entries),
            app@.show_hidden,
            app@.selected == Some(0usize),
            app@.marks == Set::<Seq<Seq<char>>>::empty(),
            app@.clipboard is None,
            app@.pending_delete is None,
            app@.status is None,
    {
        let mut app = App {
            cwd: start,
            entries: Vec::new(),
            show_hidden: true,
            selected: None,
            marked: Vec::new(),
            clipboard: None,
            confirm: None,
            status: None,
        };
        app.reload(raw);
        app.selected = Some(0);
        assert(path_set(app.marked@) =~= Set::<Seq<Seq<char>>>::empty());
        app
    }

    /// Replaces the rows with the listing of a new read of the directory,
    /// and brings the cursor back in range.
    pub fn reload(&mut self, raw: &Vec<RawEntry>)
        requires
            old(self).wf(),
        ensures
            final(self).wf(),
            is_listing_of(raw@, old(self)@.show_hidden, final(self)@.entries),
            final(self)@ == (AppView {
                entries: final(self)@.entries,
                selected: reselected(old(self)@.selected, final(self)@.entries.len()),
                ..old(self)@
            }),
    {
        self.entries = build_listing(raw, self.show_hidden);
        let len = self.entries.len();
        let at = match self.selected {
            Some(i) => i,
            None => 0,
        };
        if at >= len {
            self.selected = Some(if len > 0 { len - 1 } else { 0 });
        }
    }

    /// The highlighted row, if the cursor is on one.
    pub fn selected_entry(&self) -> (e: Option<&Entry>)
        ensures
            match e {
                Some(e) => selected_entry_of(self@) == Some(e@),
                None => selected_entry_of(self@) is None,
            },
    {
        match self.selected {
            Some(i) => if i < self.entries.len() {
                Some(&self.entries[i])
            } else {
                None
            },
            None => None,
        }
    }

    /// Whether the highlighted row is a directory.
    pub fn selected_is_dir(&self) -> (b: bool)
        ensures
            b == (selected_entry_of(self@) matches Some(e) && e.is_dir),
    {
        match self.selected_entry() {
            Some(e) => e.is_dir,
            None => false,
        }
    }

    /// Moves the cursor one row down.
    pub fn move_down(&mut self)
        requires
            old(self).wf(),
        ensures
            final(self).wf(),
            final(self)@ == moved_down(old(self)@),
    {
        let len = self.entries.len();
        if len == 0 {
            return;
        }
        let next = match self.selected {
            Some(i) => if i + 1 < len {
                i + 1
            } else {
                len - 1
            },
            None => 0,
        };
        self.selected = Some(next);
    }

    /// Moves the cursor one row up.
    pub fn move_up(&mut self)
        requires
            old(self).wf(),
        ensures
            final(self).wf(),
            final(self)@ == moved_up(old(self)@),
    {
        let next = match self.selected {
            Some(i) => if i > 0 {
                i - 1
            } else {
                0
            },
            None => 0,
        };
        self.selected = Some(next);
    }

    /// Takes over the cursor as the table widget left it while drawing.
    pub fn sync_selection(&mut self, selected: Option<usize>)
        requires
            old(self).wf(),
            selected matches Some(i) ==> (i < old(self)@.entries.len() || i == 0),
        ensures
            final(self).wf(),
            final(self)@ == (AppView { selected, ..old(self)@ }),
    {
        self.selected = selected;
    }

    /// The full path of the highlighted row.
    fn selected_path(&self) -> (p: Option<FsPath>)
        ensures
            match p {
                Some(p) => selected_path_of(self@) == Some(p@),
                None => selected_path_of(self@) is None,
            },
    {
        match self.selected_entry() {
            Some(e) => Some(self.cwd.join(&e.name)),
            None => None,
        }
    }

    /// The position of `p` among the marks.
    fn find_mark(&self, p: &FsPath) -> (i: Option<usize>)
        ensures
            match i {
                Some(i) => i < self.marked.len() && self.marked@[i as int]@ == p@,
                None => !self@.marks.contains(p@),
            },
    {
        let mut i: usize = 0;
        while i < self.marked.len()
            invariant
                i <= self.marked.len(),
                forall|j: int| 0 <= j < i ==> self.marked@[j]@ != p@,
            decreases self.marked.len() - i,
        {
            if self.marked[i].same_as(p) {
                return Some(i);
            }
            i = i + 1;
        }
        proof {
            if self@.marks.contains(p@) {
                let j = choose|j: int| 0 <= j < paths_view(self.marked@).len() && paths_view(self.marked@)[j] == p@;
                assert(self.marked@[j]@ == p@);
            }
        }
        None
    }

    /// Marks the highlighted row's path, or unmarks it if it was marked.
    pub fn toggle_mark(&mut self)
        requires
            old(self).wf(),
        ensures
            final(self).wf(),
            final(self)@ == mark_toggled(old(self)@),
    {
        if let Some(path) = self.selected_path() {
            let ghost before = self.marked@;
            match self.find_mark(&path) {
                Some(i) => {
                    assert(paths_view(before)[i as int] == path@);
                    assert(path_set(before).contains(path@));
                    self.marked.remove(i);
                    proof {
                        let after = self.marked@;
                        assert forall|x: Seq<Seq<char>>| path_set(after).contains(x) <==> path_set(before).remove(path@).contains(x) by {
                            if path_set(after).contains(x) {
                                let k = choose|k: int| 0 <= k < paths_view(after).len() && paths_view(after)[k] == x;
                                if k < i {
                                    assert(paths_view(before)[k] == x);
                                } else {
                                    assert(paths_view(before)[k + 1] == x);
                                }
                            }
                            if path_set(before).remove(path@).contains(x) {
                                let k = choose|k: int| 0 <= k < paths_view(before).len() && paths_view(before)[k] == x;
                                if k < i {
                                    assert(paths_view(after)[k] == x);
                                } else {
                                    assert(k != i);
                                    assert(paths_view(after)[k - 1] == x);
                                }
                            }
                        }
                        assert(path_set(after) =~= path_set(before).remove(path@));
                    }
                },
                None => {
                    self.marked.push(path);
                    proof {
                        let after = self.marked@;
                        assert(paths_view(after) =~= paths_view(before).push(path@));
                        paths_view(before).lemma_push_to_set_commute(path@);
                        assert(path_set(after) =~= path_set(before).insert(path@));
                        assert forall|j: int| 0 <= j < before.len() implies before[j]@ != path@ by {
                            assert(paths_view(before)[j] == before[j]@);
                            if before[j]@ == path@ {
                                assert(path_set(before).contains(path@));
                            }
                        }
                    }
                },
            }
        }
    }

    /// Drops all marks.
    pub fn clear_marks(&mut self)
        requires
            old(self).wf(),
        ensures
            final(self).wf(),
            final(self)@ == marks_cleared(old(self)@),
    {
        self.marked.clear();
        self.status = Some(String::from_str("Marks cleared"));
        assert(path_set(self.marked@) =~= Set::<Seq<Seq<char>>>::empty());
    }

    /// The marks in ascending order.
    fn sorted_marks(&self) -> (v: Vec<FsPath>)
        requires
            self.wf(),
        ensures
            paths_view(v@) == ascending_list(self@.marks),
    {
        let mut keys: Vec<Vec<Vec<char>>> = Vec::new();
        let mut i: usize = 0;
        while i < self.marked.len()
            invariant
                i <= self.marked.len(),
                keys.len() == i,
                forall|j: int| 0 <= j < i ==> crate::order::parts_view(#[trigger] keys@[j]@) == self.marked@[j]@,
            decreases self.marked.len() - i,
        {
            keys.push(self.marked[i].parts_chars());
            i = i + 1;
        }
        let perm = stable_sort_indices(&keys);
        let ghost kv = keys@.map_values(|k: Vec<Vec<char>>| crate::order::parts_view(k@));
        assert(kv =~= paths_view(self.marked@));
        let mut v: Vec<FsPath> = Vec::new();
        let mut k: usize = 0;
        while k < perm.len()
            invariant
                k <= perm.len(),
                perm.len() == self.marked.len(),
                forall|j: int| 0 <= j < perm.len() ==> perm[j] < self.marked.len(),
                v.len() == k,
                forall|j: int| 0 <= j < k ==> #[trigger] v@[j]@ == self.marked@[perm[j] as int]@,
            decreases perm.len() - k,
        {
            v.push(self.marked[perm[k]].duplicate());
            k = k + 1;
        }
        proof {
            let vv = paths_view(v@);
            let mv = paths_view(self.marked@);
            assert forall|i: int, j: int| 0 <= i < j < vv.len() implies parts_less(vv[i], vv[j]) by {
                assert(vv[i] == mv[perm[i] as int]);
                assert(vv[j] == mv[perm[j] as int]);
                assert(perm[i] != perm[j]);
                lemma_parts_order(vv[i], vv[j], vv[i]);
            }
            assert forall|x: Seq<Seq<char>>| vv.to_set().contains(x) <==> mv.to_set().contains(x) by {
                if vv.to_set().contains(x) {
                    let i = choose|i: int| 0 <= i < vv.len() && vv[i] == x;
                    assert(mv[perm[i] as int] == x);
                }
                if mv.to_set().contains(x) {
                    let j = choose|j: int| 0 <= j < mv.len() && mv[j] == x;
                    assert(perm@.contains(j as usize));
                    let i = choose|i: int| 0 <= i < perm.len() && perm@[i] == j as usize;
                    assert(vv[i] == x);
                }
            }
            assert(vv.to_set() =~= mv.to_set());
            let c = ascending_list(self@.marks);
            assert(strictly_ascending(c) && c.to_set() == self@.marks);
            lemma_ascending_unique(c, vv);
        }
        v
    }

    /// The paths an operation acts on: the marked paths in ascending order if
    /// any are marked, otherwise the highlighted row's path.
    pub fn marked_or_selected(&self) -> (v: Vec<FsPath>)
        requires
            self.wf(),
        ensures
            paths_view(v@) == action_targets(self@),
    {
        if self.marked.len() > 0 {
            assert(paths_view(self.marked@)[0] == self.marked@[0]@);
            assert(self@.marks.contains(self.marked@[0]@));
            self.sorted_marks()
        } else {
            assert(path_set(self.marked@) =~= Set::<Seq<Seq<char>>>::empty());
            match self.selected_path() {
                Some(p) => {
                    let mut v: Vec<FsPath> = Vec::new();
                    v.push(p);
                    assert(paths_view(v@) =~= action_targets(self@));
                    v
                },
                None => {
                    let v: Vec<FsPath> = Vec::new();
                    assert(paths_view(v@) =~= action_targets(self@));
                    v
                },
            }
        }
    }

    /// Stages the action targets for copying.
    pub fn copy_to_clipboard(&mut self)
        requires
            old(self).wf(),
        ensures
            final(self).wf(),
            final(self)@ == copied_to_clipboard(old(self)@),
    {
        let paths = self.marked_or_selected();
        if paths.len() == 0 {
            self.status = Some(String::from_str("Nothing to copy"));
            return;
        }
        let n = paths.len();
        self.clipboard = Some((ClipOp::Copy, paths));
        self.status = Some(count_message("Copied ", n, " item(s) to clipboard \u{2014} ctrl-C to paste"));
    }

    /// Stages the action targets for moving.
    pub fn cut_to_clipboard(&mut self)
        requires
            old(self).wf(),
        ensures
            final(self).wf(),
            final(self)@ == cut_to_clipboard(old(self)@),
    {
        let paths = self.marked_or_selected();
        if paths.len() == 0 {
            self.status = Some(String::from_str("Nothing to cut"));
            return;
        }
        let n = paths.len();
        self.clipboard = Some((ClipOp::Move, paths));
        self.status = Some(count_message("Cut ", n, " item(s) to clipboard \u{2014} press p to paste"));
    }

    /// Stages a deletion of the action targets for confirmation.
    pub fn request_delete(&mut self)
        requires
            old(self).wf(),
        ensures
            final(self).wf(),
            final(self)@ == delete_requested(old(self)@),
    {
        let paths = self.marked_or_selected();
        if paths.len() == 0 {
            self.status = Some(String::from_str("Nothing to delete"));
            return;
        }
        self.confirm = Some(PendingConfirm::Delete(paths));
    }

    /// Drops the pending deletion.
    pub fn confirm_no(&mut self)
        requires
            old(self).wf(),
        ensures
            final(self).wf(),
            final(self)@ == delete_cancelled(old(self)@),
    {
        self.confirm = None;
        self.status = Some(String::from_str("Delete cancelled"));
    }
}

/// `prefix`, the decimal notation of `n`, then `suffix`.
pub fn count_message(prefix: &str, n: usize, suffix: &str) -> (s: String)
    ensures
        s@ == prefix@ + decimal(n as nat) + suffix@,
{
    let mut s = String::from_str(prefix);
    push_decimal(&mut s, n as u64);
    s.append(suffix);
    s
}

/// The first row named `name`.
pub open spec fn first_named(entries: Seq<EntryView>, name: Seq<char>) -> Option<nat>
    decreases entries.len(),
{
    if entries.len() == 0 {
        None
    } else {
        match first_named(entries.drop_last(), name) {
            Some(i) => Some(i),
            None => if entries.last().name == name {
                Some((entries.len() - 1) as nat)
            } else {
                None
            },
        }
    }
}

/// One transfer of a paste: a source path and the path it goes to.
pub struct PasteItem {
    pub src: FsPath,
    pub dest: FsPath,
    /// The destination is the source itself: the transfer is skipped.
    pub onto_itself: bool,
}

/// The transfers that pasting the clipboard involves.
pub struct PastePlan {
    pub op: ClipOp,
    pub items: Vec<PasteItem>,
}

/// What became of one transfer whose destination differs from its source.
#[derive(PartialEq, Eq, Structural, Clone, Copy, Debug)]
pub enum PasteOutcome {
    /// Not attempted: the destination already exists.
    Skipped,
    /// Copied or moved.
    Done,
    /// The copy or move failed.
    Failed,
}

/// The source and destination paths of the items of a plan.
pub open spec fn plan_view(items: Seq<PasteItem>) -> Seq<(Seq<Seq<char>>, Seq<Seq<char>>)> {
    items.map_values(|it: PasteItem| (it.src@, it.dest@))
}

/// Each item knows whether it goes onto itself.
pub open spec fn plan_flags_ok(items: Seq<PasteItem>) -> bool {
    forall|i: int| 0 <= i < items.len() ==> (#[trigger] items[i]).onto_itself == (items[i].src@ == items[i].dest@)
}

/// The transfers for pasting `paths` into `cwd`: each path that has a last
/// component goes to `cwd` under that name; the root is left out.
pub open spec fn paste_pairs(cwd: Seq<Seq<char>>, paths: Seq<Seq<Seq<char>>>) -> Seq<
    (Seq<Seq<char>>, Seq<Seq<char>>),
>
    decreases paths.len(),
{
    if paths.len() == 0 {
        Seq::empty()
    } else {
        let rest = paste_pairs(cwd, paths.drop_last());
        let p = paths.last();
        if p.len() == 0 {
            rest
        } else {
            rest.push((p, cwd.push(p.last())))
        }
    }
}

/// Transfers done, skipped (onto itself or onto an existing path) and failed.
pub open spec fn paste_tally(
    items: Seq<(Seq<Seq<char>>, Seq<Seq<char>>)>,
    outcomes: Seq<PasteOutcome>,
) -> (nat, nat, nat)
    decreases items.len(),
{
    if items.len() == 0 || outcomes.len() != items.len() {
        (0, 0, 0)
    } else {
        let (d, s, e) = paste_tally(items.drop_last(), outcomes.drop_last());
        if items.last().0 == items.last().1 {
            (d, s + 1, e)
        } else {
            match outcomes.last() {
                PasteOutcome::Skipped => (d, s + 1, e),
                PasteOutcome::Done => (d + 1, s, e),
                PasteOutcome::Failed => (d, s, e + 1),
            }
        }
    }
}

/// The status after a paste.
pub open spec fn paste_message(op: ClipOp, tally: (nat, nat, nat)) -> Seq<char> {
    (if op == ClipOp::Copy { "Copied"@ } else { "Moved"@ }) + " "@ + decimal(tally.0) + ", skipped "@
        + decimal(tally.1) + " (already exists), errors "@ + decimal(tally.2)
}

/// Number of `true` values.
pub open spec fn count_true(flags: Seq<bool>) -> nat
    decreases flags.len(),
{
    if flags.len() == 0 {
        0
    } else {
        count_true(flags.drop_last()) + if flags.last() { 1nat } else { 0nat }
    }
}

/// The paths among `paths` whose flag is set.
pub open spec fn flagged_paths(paths: Seq<Seq<Seq<char>>>, flags: Seq<bool>) -> Set<Seq<Seq<char>>> {
    Set::new(|p: Seq<Seq<char>>| exists|i: int| 0 <= i < paths.len() && i < flags.len() && flags[i] && paths[i] == p)
}

impl App {
    /// Enters the highlighted row if it is a directory; `true` when the
    /// directory changed and must be read.
    pub fn enter_selected(&mut self) -> (changed: bool)
        requires
            old(self).wf(),
        ensures
            final(self).wf(),
            match selected_entry_of(old(self)@) {
                Some(e) => if e.is_dir {
                    changed && final(self)@ == (AppView { cwd: old(self)@.cwd.push(e.name), ..old(self)@ })
                } else {
                    !changed && final(self)@ == old(self)@
                },
                None => !changed && final(self)@ == old(self)@,
            },
    {
        let name = match self.selected_entry() {
            Some(e) => if e.is_dir {
                e.name.clone()
            } else {
                return false;
            },
            None => {
                return false;
            },
        };
        let ghost before = self.cwd@;
        self.cwd.parts.push(name);
        assert(self.cwd@ =~= before.push(name@));
        true
    }

    /// Shows the directory just entered: its listing, the cursor on row 0.
    pub fn entered(&mut self, raw: &Vec<RawEntry>)
        requires
            old(self).wf(),
        ensures
            final(self).wf(),
            is_listing_of(raw@, old(self)@.show_hidden, final(self)@.entries),
            final(self)@ == (AppView {
                entries: final(self)@.entries,
                selected: Some(0usize),
                ..old(self)@
            }),
    {
        self.reload(raw);
        self.selected = Some(0);
    }

    /// Whether the directory shown is the root.
    pub fn at_root(&self) -> (b: bool)
        ensures
            b == (self@.cwd.len() == 0),
    {
        self.cwd.parts.len() == 0
    }

    /// Leaves for the parent directory; the name of the directory left, or
    /// `None` at the root, where nothing changes.
    pub fn go_up(&mut self) -> (child: Option<String>)
        requires
            old(self).wf(),
        ensures
            final(self).wf(),
            old(self)@.cwd.len() == 0 ==> child is None && final(self)@ == old(self)@,
            old(self)@.cwd.len() > 0 ==> (child matches Some(c) && c@ == old(self)@.cwd.last()),
            old(self)@.cwd.len() > 0 ==> final(self)@ == (AppView {
                cwd: old(self)@.cwd.drop_last(),
                ..old(self)@
            }),
    {
        let ghost before = self.cwd@;
        let child = self.cwd.parts.pop();
        proof {
            if before.len() > 0 {
                assert(self.cwd@ =~= before.drop_last());
            }
        }
        child
    }

    /// Shows the parent directory just entered, the cursor on the directory
    /// that was left (row 0 if it is not listed).
    pub fn went_up(&mut self, raw: &Vec<RawEntry>, child: &String)
        requires
            old(self).wf(),
        ensures
            final(self).wf(),
            is_listing_of(raw@, old(self)@.show_hidden, final(self)@.entries),
            final(self)@ == (AppView {
                entries: final(self)@.entries,
                selected: Some(
                    match first_named(final(self)@.entries, child@) {
                        Some(i) => i as usize,
                        None => 0usize,
                    },
                ),
                ..old(self)@
            }),
    {
        self.reload(raw);
        let idx = match position_named(&self.entries, child) {
            Some(i) => i,
            None => 0,
        };
        self.selected = Some(idx);
    }

    /// The directory shown.
    pub fn cwd(&self) -> (p: &FsPath)
        ensures
            p@ == self@.cwd,
    {
        &self.cwd
    }

    /// The rows shown.
    pub fn entries(&self) -> (e: &Vec<Entry>)
        ensures
            entries_view(e@) == self@.entries,
    {
        &self.entries
    }

    /// The highlighted row's position.
    pub fn selected(&self) -> (s: Option<usize>)
        ensures
            s == self@.selected,
    {
        self.selected
    }

    /// Whether dot files are listed.
    pub fn show_hidden(&self) -> (b: bool)
        ensures
            b == self@.show_hidden,
    {
        self.show_hidden
    }

    /// The status message.
    pub fn status(&self) -> (s: Option<&String>)
        ensures
            match s {
                Some(t) => self@.status == Some(t@),
                None => self@.status is None,
            },
    {
        match &self.status {
            Some(t) => Some(t),
            None => None,
        }
    }

    /// Whether `p` is marked.
    pub fn is_marked(&self, p: &FsPath) -> (b: bool)
        ensures
            b == self@.marks.contains(p@),
    {
        match self.find_mark(p) {
            Some(i) => {
                assert(paths_view(self.marked@)[i as int] == p@);
                true
            },
            None => false,
        }
    }

    /// Number of marked paths.
    pub fn mark_count(&self) -> (n: usize)
        requires
            self.wf(),
        ensures
            n == self@.marks.len(),
    {
        proof {
            let pv = paths_view(self.marked@);
            assert(pv.no_duplicates()) by {
                assert forall|i: int, j: int| 0 <= i < pv.len() && 0 <= j < pv.len() && i != j implies pv[i] != pv[j] by {
                    if i < j {
                        assert(self.marked@[i]@ != self.marked@[j]@);
                    } else {
                        assert(self.marked@[j]@ != self.marked@[i]@);
                    }
                }
            }
            pv.unique_seq_to_set();
        }
        self.marked.len()
    }

    /// The staged operation and the number of paths it applies to.
    pub fn clipboard_summary(&self) -> (c: Option<(ClipOp, usize)>)
        ensures
            match c {
                Some((op, n)) => self@.clipboard matches Some((o, paths)) && o == op && paths.len() == n,
                None => self@.clipboard is None,
            },
    {
        match &self.clipboard {
            Some((op, paths)) => Some((*op, paths.len())),
            None => None,
        }
    }

    /// The number of paths of the deletion awaiting confirmation.
    pub fn pending_delete_count(&self) -> (c: Option<usize>)
        ensures
            match c {
                Some(n) => self@.pending_delete matches Some(paths) && paths.len() == n,
                None => self@.pending_delete is None,
            },
    {
        match &self.confirm {
            Some(PendingConfirm::Delete(paths)) => Some(paths.len()),
            None => None,
        }
    }

    /// Whether a deletion awaits confirmation.
    pub fn has_pending_delete(&self) -> (b: bool)
        ensures
            b == (self@.pending_delete is Some),
    {
        self.confirm.is_some()
    }

    /// Shows or hides dot files (the directory must be read again).
    pub fn toggle_hidden(&mut self)
        requires
            old(self).wf(),
        ensures
            final(self).wf(),
            final(self)@ == (AppView { show_hidden: !old(self)@.show_hidden, ..old(self)@ }),
    {
        self.show_hidden = !self.show_hidden;
    }
}

impl App {
    /// Starts pasting the clipboard into the directory shown: the transfers
    /// to make, or `None` (with a status saying so) when the clipboard is
    /// empty.
    pub fn paste(&mut self) -> (plan: Option<PastePlan>)
        requires
            old(self).wf(),
        ensures
            final(self).wf(),
            match old(self)@.clipboard {
                None => plan is None && final(self)@ == (AppView {
                    status: Some("Clipboard is empty"@),
                    ..old(self)@
                }),
                Some((op, paths)) => plan matches Some(p) && p.op == op && plan_view(p.items@)
                    == paste_pairs(old(self)@.cwd, paths) && plan_flags_ok(p.items@) && final(self)@ == old(self)@,
            },
    {
        match &self.clipboard {
            None => {
                self.status = Some(String::from_str("Clipboard is empty"));
                None
            },
            Some((op, paths)) => {
                let mut items: Vec<PasteItem> = Vec::new();
                let mut i: usize = 0;
                while i < paths.len()
                    invariant
                        i <= paths.len(),
                        plan_view(items@) == paste_pairs(self.cwd@, paths_view(paths@).take(i as int)),
                        plan_flags_ok(items@),
                    decreases paths.len() - i,
                {
                    let ghost pv = paths_view(paths@);
                    assert(pv.take(i as int + 1).drop_last() =~= pv.take(i as int));
                    assert(pv.take(i as int + 1).last() == paths@[i as int]@);
                    if let Some(name) = paths[i].file_name() {
                        let dest = self.cwd.join(&name);
                        let src = paths[i].duplicate();
                        let onto_itself = src.same_as(&dest);
                        items.push(PasteItem { src, dest, onto_itself });
                    }
                    i = i + 1;
                    assert(plan_view(items@) =~= paste_pairs(self.cwd@, pv.take(i as int)));
                }
                assert(paths_view(paths@).take(paths.len() as int) =~= paths_view(paths@));
                Some(PastePlan { op: *op, items })
            },
        }
    }

    /// Records the outcome of a paste: with each transfer onto itself
    /// counted as skipped, and the others as the outcome reported for them.
    /// A move empties the clipboard and drops all marks.
    pub fn pasted(&mut self, plan: &PastePlan, outcomes: &Vec<PasteOutcome>)
        requires
            old(self).wf(),
            outcomes.len() == plan.items.len(),
        ensures
            final(self).wf(),
            final(self)@ == (AppView {
                marks: if plan.op == ClipOp::Move {
                    Set::empty()
                } else {
                    old(self)@.marks
                },
                clipboard: if plan.op == ClipOp::Move {
                    None
                } else {
                    old(self)@.clipboard
                },
                status: Some(paste_message(plan.op, paste_tally(plan_view(plan.items@), outcomes@))),
                ..old(self)@
            }),
    {
        let mut done: usize = 0;
        let mut skipped: usize = 0;
        let mut errors: usize = 0;
        let mut i: usize = 0;
        let ghost items = plan_view(plan.items@);
        while i < plan.items.len()
            invariant
                i <= plan.items.len(),
                outcomes.len() == plan.items.len(),
                items == plan_view(plan.items@),
                (done as nat, skipped as nat, errors as nat) == paste_tally(
                    items.take(i as int),
                    outcomes@.take(i as int),
                ),
                done + skipped + errors == i,
            decreases plan.items.len() - i,
        {
            assert(items.take(i as int + 1).drop_last() =~= items.take(i as int));
            assert(outcomes@.take(i as int + 1).drop_last() =~= outcomes@.take(i as int));
            let item = &plan.items[i];
            if item.src.same_as(&item.dest) {
                skipped = skipped + 1;
            } else {
                match outcomes[i] {
                    PasteOutcome::Skipped => skipped = skipped + 1,
                    PasteOutcome::Done => done = done + 1,
                    PasteOutcome::Failed => errors = errors + 1,
                }
            }
            i = i + 1;
        }
        assert(items.take(items.len() as int) =~= items);
        assert(outcomes@.take(outcomes.len() as int) =~= outcomes@);
        if plan.op == ClipOp::Move {
            self.marked.clear();
            self.clipboard = None;
            assert(path_set(self.marked@) =~= Set::<Seq<Seq<char>>>::empty());
        }
        let mut msg = String::from_str(if plan.op == ClipOp::Copy { "Copied" } else { "Moved" });
        msg.append(" ");
        push_decimal(&mut msg, done as u64);
        msg.append(", skipped ");
        push_decimal(&mut msg, skipped as u64);
        msg.append(" (already exists), errors ");
        push_decimal(&mut msg, errors as u64);
        self.status = Some(msg);
    }

    /// Takes the pending deletion for carrying out.
    pub fn confirm_yes(&mut self) -> (paths: Option<Vec<FsPath>>)
        requires
            old(self).wf(),
        ensures
            final(self).wf(),
            match paths {
                Some(p) => old(self)@.pending_delete == Some(paths_view(p@)),
                None => old(self)@.pending_delete is None,
            },
            final(self)@ == (AppView { pending_delete: None, ..old(self)@ }),
    {
        match self.confirm.take() {
            Some(PendingConfirm::Delete(paths)) => Some(paths),
            None => None,
        }
    }

    /// Records the outcome of a deletion: `removed[i]` tells whether
    /// `paths[i]` was removed; removed paths are unmarked.
    pub fn deleted(&mut self, paths: &Vec<FsPath>, removed: &Vec<bool>)
        requires
            old(self).wf(),
            removed.len() == paths.len(),
        ensures
            final(self).wf(),
            final(self)@ == (AppView {
                marks: old(self)@.marks.difference(flagged_paths(paths_view(paths@), removed@)),
                status: Some(
                    "Deleted "@ + decimal(count_true(removed@)) + ", errors "@ + decimal(
                        (paths.len() - count_true(removed@)) as nat,
                    ),
                ),
                ..old(self)@
            }),
    {
        let ghost start = self@;
        let ghost pv = paths_view(paths@);
        let mut n_removed: usize = 0;
        let mut n_errors: usize = 0;
        let mut i: usize = 0;
        assert(flagged_paths(pv, removed@.take(0)) =~= Set::<Seq<Seq<char>>>::empty());
        assert(start.marks.difference(flagged_paths(pv, removed@.take(0))) =~= start.marks);
        while i < paths.len()
            invariant
                i <= paths.len(),
                removed.len() == paths.len(),
                pv == paths_view(paths@),
                self.wf(),
                n_removed == count_true(removed@.take(i as int)),
                n_removed + n_errors == i,
                self@ == (AppView {
                    marks: start.marks.difference(flagged_paths(pv, removed@.take(i as int))),
                    ..start
                }),
            decreases paths.len() - i,
        {
            assert(removed@.take(i as int + 1).drop_last() =~= removed@.take(i as int));
            let ghost marks_before = self@.marks;
            proof {
                let f0 = flagged_paths(pv, removed@.take(i as int));
                let f1 = flagged_paths(pv, removed@.take(i as int + 1));
                assert forall|x: Seq<Seq<char>>| f1.contains(x) <==> (f0.contains(x) || (removed@[i as int] && x == pv[i as int])) by {
                    if f1.contains(x) {
                        let j = choose|j: int| 0 <= j < pv.len() && j < removed@.take(i as int + 1).len() && removed@.take(i as int + 1)[j] && pv[j] == x;
                        if j < i {
                            assert(removed@.take(i as int)[j]);
                        }
                    }
                    if f0.contains(x) {
                        let j = choose|j: int| 0 <= j < pv.len() && j < removed@.take(i as int).len() && removed@.take(i as int)[j] && pv[j] == x;
                        assert(removed@.take(i as int + 1)[j]);
                    }
                    if removed@[i as int] && x == pv[i as int] {
                        assert(removed@.take(i as int + 1)[i as int]);
                    }
                }
            }
            if removed[i] {
                n_removed = n_removed + 1;
                if let Some(k) = self.find_mark(&paths[i]) {
                    self.remove_mark_at(k);
                }
            } else {
                n_errors = n_errors + 1;
            }
            assert(paths@[i as int]@ == pv[i as int]);
            i = i + 1;
            assert(self@.marks =~= start.marks.difference(flagged_paths(pv, removed@.take(i as int))));
        }
        assert(removed@.take(paths.len() as int) =~= removed@);
        let mut msg = String::from_str("Deleted ");
        push_decimal(&mut msg, n_removed as u64);
        msg.append(", errors ");
        push_decimal(&mut msg, n_errors as u64);
        self.status = Some(msg);
    }

    /// Unmarks the mark at position `k`.
    fn remove_mark_at(&mut self, k: usize)
        requires
            old(self).wf(),
            k < old(self).marked.len(),
        ensures
            final(self).wf(),
            final(self)@ == (AppView {
                marks: old(self)@.marks.remove(old(self).marked@[k as int]@),
                ..old(self)@
            }),
    {
        let ghost before = self.marked@;
        let ghost gone = before[k as int]@;
        self.marked.remove(k);
        proof {
            let after = self.marked@;
            assert forall|x: Seq<Seq<char>>| path_set(after).contains(x) <==> path_set(before).remove(gone).contains(x) by {
                if path_set(after).contains(x) {
                    let j = choose|j: int| 0 <= j < paths_view(after).len() && paths_view(after)[j] == x;
                    if j < k {
                        assert(paths_view(before)[j] == x);
                    } else {
                        assert(paths_view(before)[j + 1] == x);
                    }
                }
                if path_set(before).remove(gone).contains(x) {
                    let j = choose|j: int| 0 <= j < paths_view(before).len() && paths_view(before)[j] == x;
                    if j < k {
                        assert(paths_view(after)[j] == x);
                    } else {
                        assert(j != k);
                        assert(paths_view(after)[j - 1] == x);
                    }
                }
            }
            assert(path_set(after) =~= path_set(before).remove(gone));
        }
    }
}

/// The position of the first row named `name`.
fn position_named(entries: &Vec<Entry>, name: &String) -> (r: Option<usize>)
    ensures
        match first_named(entries_view(entries@), name@) {
            Some(i) => r == Some(i as usize) && i < entries.len(),
            None => r is None,
        },
{
    let ghost es = entries_view(entries@);
    let mut i: usize = 0;
    while i < entries.len()
        invariant
            i <= entries.len(),
            es == entries_view(entries@),
            first_named(es.take(i as int), name@) is None,
        decreases entries.len() - i,
    {
        assert(es.take(i as int + 1).drop_last() =~= es.take(i as int));
        if entries[i].name == *name {
            assert(first_named(es.take(i as int + 1), name@) == Some(i as nat));
            proof {
                lemma_first_named_prefix(es, name@, i as int + 1);
            }
            return Some(i);
        }
        i = i + 1;
    }
    assert(es.take(es.len() as int) =~= es);
    None
}

/// A match in a prefix is the first match of the whole sequence.
proof fn lemma_first_named_prefix(es: Seq<EntryView>, name: Seq<char>, n: int)
    requires
        0 <= n <= es.len(),
        first_named(es.take(n), name) is Some,
    ensures
        first_named(es, name) == first_named(es.take(n), name),
    decreases es.len() - n,
{
    if n < es.len() {
        assert(es.take(n + 1).drop_last() =~= es.take(n));
        lemma_first_named_prefix(es, name, n + 1);
    } else {
        assert(es.take(n) =~= es);
    }
}

} // verus!
