use lsal::app::{App, ClipOp, PasteOutcome};
use lsal::keys::{Command, Key, KeyCode, Modifiers};
use lsal::listing::{build_listing, RawEntry};
use lsal::path::FsPath;
use lsal::screen::{
    header_text, row_text, slide_left_source, slide_right_source, status_line, Frame, RowStyle,
    StatusStyle,
};

fn raw(name: &str, is_dir: bool) -> RawEntry {
    RawEntry {
        name: name.to_string(),
        is_dir,
        mode: if is_dir { 0o755 } else { 0o644 },
        nlink: 1,
        uid: 1000,
        gid: 100,
        size: 2048,
        mtime: 0,
    }
}

fn path(parts: &[&str]) -> FsPath {
    FsPath { parts: parts.iter().map(|s| s.to_string()).collect() }
}

fn home() -> FsPath {
    path(&["home", "ann"])
}

fn sample() -> Vec<RawEntry> {
    vec![
        raw("b.txt", false),
        raw("Zeta", true),
        raw(".hidden", false),
        raw("alpha", true),
        raw("A.txt", false),
    ]
}

fn names(app: &App) -> Vec<String> {
    app.entries().iter().map(|e| e.name.clone()).collect()
}

fn key(code: KeyCode, modifiers: Modifiers) -> Key {
    Key { code, modifiers, pressed: true }
}

fn plain(c: char) -> Key {
    key(KeyCode::Char(c), Modifiers::Plain)
}

fn paths_text(v: &[FsPath]) -> Vec<String> {
    v.iter().map(|p| p.to_text()).collect()
}

#[test]
fn listing_puts_directories_first_then_names_ignoring_case() {
    let app = App::new(home(), &sample());
    assert_eq!(names(&app), vec!["alpha", "Zeta", ".hidden", "A.txt", "b.txt"]);
    assert_eq!(app.selected(), Some(0));
    assert!(app.show_hidden());
}

#[test]
fn listing_without_hidden_entries() {
    let entries = build_listing(&sample(), false);
    let got: Vec<String> = entries.iter().map(|e| e.name.clone()).collect();
    assert_eq!(got, vec!["alpha", "Zeta", "A.txt", "b.txt"]);
}

#[test]
fn listing_keeps_read_order_among_equal_keys() {
    let mut a = raw("Same", false);
    a.size = 1;
    let mut b = raw("same", false);
    b.size = 2;
    let mut c = raw("SAME", false);
    c.size = 3;
    let entries = build_listing(&vec![a, b, c], true);
    let sizes: Vec<u64> = entries.iter().map(|e| e.size).collect();
    assert_eq!(sizes, vec![1, 2, 3]);
}

#[test]
fn listing_formats_columns() {
    let mut r = raw("notes", false);
    r.mtime = 1_700_000_000;
    let entries = build_listing(&vec![r], true);
    assert_eq!(entries[0].mode_str, "-rw-r--r--");
    assert_eq!(entries[0].mtime, "2023-11-14 22:13");
}

#[test]
fn cursor_moves_and_stops_at_ends() {
    let mut app = App::new(home(), &sample());
    app.move_up();
    assert_eq!(app.selected(), Some(0));
    for _ in 0..10 {
        app.move_down();
    }
    assert_eq!(app.selected(), Some(4));
    app.move_up();
    assert_eq!(app.selected(), Some(3));
}

#[test]
fn empty_directory_keeps_cursor_at_zero() {
    let mut app = App::new(home(), &Vec::new());
    assert_eq!(app.selected(), Some(0));
    app.move_down();
    assert_eq!(app.selected(), Some(0));
    assert!(app.selected_entry().is_none());
}

#[test]
fn reload_clamps_cursor() {
    let mut app = App::new(home(), &sample());
    for _ in 0..4 {
        app.move_down();
    }
    app.reload(&vec![raw("only", false)]);
    assert_eq!(app.selected(), Some(0));
    app.reload(&Vec::new());
    assert_eq!(app.selected(), Some(0));
}

#[test]
fn toggle_mark_twice_unmarks() {
    let mut app = App::new(home(), &sample());
    app.toggle_mark();
    assert!(app.is_marked(&path(&["home", "ann", "alpha"])));
    assert_eq!(app.mark_count(), 1);
    app.toggle_mark();
    assert!(!app.is_marked(&path(&["home", "ann", "alpha"])));
    assert_eq!(app.mark_count(), 0);
}

#[test]
fn marked_paths_come_sorted() {
    let mut app = App::new(home(), &sample());
    app.move_down();
    app.move_down();
    app.move_down();
    app.move_down();
    app.toggle_mark(); // b.txt
    app.move_up();
    app.move_up();
    app.toggle_mark(); // .hidden
    app.move_up();
    app.toggle_mark(); // Zeta
    let got = paths_text(&app.marked_or_selected());
    assert_eq!(got, vec!["/home/ann/.hidden", "/home/ann/Zeta", "/home/ann/b.txt"]);
}

#[test]
fn without_marks_the_selection_is_the_target() {
    let mut app = App::new(home(), &sample());
    app.move_down();
    assert_eq!(paths_text(&app.marked_or_selected()), vec!["/home/ann/Zeta"]);
    let empty = App::new(home(), &Vec::new());
    assert!(empty.marked_or_selected().is_empty());
}

#[test]
fn copy_and_cut_messages() {
    let mut app = App::new(home(), &sample());
    app.copy_to_clipboard();
    assert_eq!(
        app.status().unwrap(),
        "Copied 1 item(s) to clipboard \u{2014} ctrl-C to paste"
    );
    assert_eq!(app.clipboard_summary(), Some((ClipOp::Copy, 1)));
    app.toggle_mark();
    app.move_down();
    app.toggle_mark();
    app.cut_to_clipboard();
    assert_eq!(app.status().unwrap(), "Cut 2 item(s) to clipboard \u{2014} press p to paste");
    assert_eq!(app.clipboard_summary(), Some((ClipOp::Move, 2)));
}

#[test]
fn nothing_to_copy_cut_or_delete() {
    let mut app = App::new(home(), &Vec::new());
    app.copy_to_clipboard();
    assert_eq!(app.status().unwrap(), "Nothing to copy");
    app.cut_to_clipboard();
    assert_eq!(app.status().unwrap(), "Nothing to cut");
    app.request_delete();
    assert_eq!(app.status().unwrap(), "Nothing to delete");
    assert_eq!(app.pending_delete_count(), None);
    assert_eq!(app.clipboard_summary(), None);
}

#[test]
fn clear_marks_reports() {
    let mut app = App::new(home(), &sample());
    app.toggle_mark();
    app.clear_marks();
    assert_eq!(app.mark_count(), 0);
    assert_eq!(app.status().unwrap(), "Marks cleared");
}

#[test]
fn paste_with_empty_clipboard() {
    let mut app = App::new(home(), &sample());
    assert!(app.paste().is_none());
    assert_eq!(app.status().unwrap(), "Clipboard is empty");
}

#[test]
fn paste_plan_and_tally_for_a_copy() {
    let mut app = App::new(home(), &sample());
    app.toggle_mark(); // alpha
    app.move_down();
    app.toggle_mark(); // Zeta
    app.copy_to_clipboard();
    let plan = app.paste().unwrap();
    assert_eq!(plan.op, ClipOp::Copy);
    assert_eq!(plan.items.len(), 2);
    // Pasting into the same directory targets the sources themselves.
    for item in &plan.items {
        assert!(item.src.same_as(&item.dest));
    }
    app.pasted(&plan, &vec![PasteOutcome::Done, PasteOutcome::Done]);
    assert_eq!(app.status().unwrap(), "Copied 0, skipped 2 (already exists), errors 0");
    assert_eq!(app.mark_count(), 2);
    assert!(app.clipboard_summary().is_some());
}

#[test]
fn paste_of_a_move_elsewhere() {
    let mut app = App::new(home(), &sample());
    app.toggle_mark(); // alpha
    app.move_down();
    app.toggle_mark(); // Zeta
    app.move_down();
    app.toggle_mark(); // .hidden
    app.cut_to_clipboard();
    assert!(app.enter_selected() == false);
    app.move_up();
    app.move_up();
    assert!(app.enter_selected());
    assert_eq!(app.cwd().to_text(), "/home/ann/alpha");
    app.entered(&vec![raw("x", false)]);
    let plan = app.paste().unwrap();
    let dests: Vec<String> = plan.items.iter().map(|i| i.dest.to_text()).collect();
    assert_eq!(dests, vec![
        "/home/ann/alpha/.hidden",
        "/home/ann/alpha/Zeta",
        "/home/ann/alpha/alpha",
    ]);
    app.pasted(&plan, &vec![PasteOutcome::Done, PasteOutcome::Failed, PasteOutcome::Skipped]);
    assert_eq!(app.status().unwrap(), "Moved 1, skipped 1 (already exists), errors 1");
    assert_eq!(app.mark_count(), 0);
    assert!(app.clipboard_summary().is_none());
}

#[test]
fn paste_leaves_out_the_root() {
    let mut app = App::new(FsPath { parts: Vec::new() }, &vec![raw("etc", true)]);
    app.copy_to_clipboard();
    app.go_up();
    let plan = app.paste().unwrap();
    assert_eq!(plan.items.len(), 1);
    let mut root_app = App::new(FsPath { parts: Vec::new() }, &Vec::new());
    assert!(root_app.go_up().is_none());
    assert!(root_app.at_root());
}

#[test]
fn delete_flow() {
    let mut app = App::new(home(), &sample());
    app.toggle_mark();
    app.move_down();
    app.toggle_mark();
    app.request_delete();
    assert_eq!(app.pending_delete_count(), Some(2));
    let (text, style) = status_line(&app);
    assert_eq!(text, "Delete 2 item(s)? This cannot be undone. (y/n)");
    assert_eq!(style, StatusStyle::Confirm);
    let paths = app.confirm_yes().unwrap();
    assert_eq!(paths_text(&paths), vec!["/home/ann/Zeta", "/home/ann/alpha"]);
    assert_eq!(app.pending_delete_count(), None);
    app.deleted(&paths, &vec![true, false]);
    assert_eq!(app.status().unwrap(), "Deleted 1, errors 1");
    assert!(!app.is_marked(&path(&["home", "ann", "Zeta"])));
    assert!(app.is_marked(&path(&["home", "ann", "alpha"])));
    assert!(app.confirm_yes().is_none());
}

#[test]
fn delete_cancelled() {
    let mut app = App::new(home(), &sample());
    app.request_delete();
    app.confirm_no();
    assert_eq!(app.pending_delete_count(), None);
    assert_eq!(app.status().unwrap(), "Delete cancelled");
}

#[test]
fn go_up_selects_the_directory_left() {
    let mut app = App::new(home(), &Vec::new());
    let child = app.go_up().unwrap();
    assert_eq!(child, "ann");
    assert_eq!(app.cwd().to_text(), "/home");
    app.went_up(&vec![raw("bob", true), raw("ann", true), raw("zed", false)], &child);
    assert_eq!(app.selected(), Some(0));
    assert_eq!(names(&app)[0], "ann");
    let mut other = App::new(home(), &Vec::new());
    let child = other.go_up().unwrap();
    other.went_up(&vec![raw("bob", true), raw("carl", true)], &child);
    assert_eq!(other.selected(), Some(0));
    let mut third = App::new(home(), &Vec::new());
    let child = third.go_up().unwrap();
    third.went_up(&vec![raw("aaa", true), raw("ann", true)], &child);
    assert_eq!(third.selected(), Some(1));
}

#[test]
fn keys_drive_the_state() {
    let mut app = App::new(home(), &sample());
    assert_eq!(app.handle_key(plain('j')), Command::Continue);
    assert_eq!(app.selected(), Some(1));
    assert_eq!(app.handle_key(key(KeyCode::Down, Modifiers::Plain)), Command::Continue);
    assert_eq!(app.selected(), Some(2));
    assert_eq!(app.handle_key(plain('k')), Command::Continue);
    assert_eq!(app.selected(), Some(1));
    assert_eq!(app.handle_key(key(KeyCode::Up, Modifiers::Shift)), Command::Continue);
    assert_eq!(app.selected(), Some(0));
    assert_eq!(app.mark_count(), 1);
    assert_eq!(app.handle_key(key(KeyCode::Char('j'), Modifiers::Shift)), Command::Continue);
    assert_eq!(app.mark_count(), 2);
    assert_eq!(app.selected(), Some(1));
    assert_eq!(app.handle_key(plain('u')), Command::Continue);
    assert_eq!(app.mark_count(), 0);
    assert_eq!(app.handle_key(plain(' ')), Command::Continue);
    assert_eq!(app.mark_count(), 1);
    assert_eq!(app.handle_key(plain('r')), Command::Reload);
    assert_eq!(app.handle_key(plain('!')), Command::Shell);
    assert_eq!(app.handle_key(plain('.')), Command::Reload);
    assert!(!app.show_hidden());
    assert_eq!(app.handle_key(key(KeyCode::Enter, Modifiers::Plain)), Command::Enter);
    assert_eq!(app.handle_key(key(KeyCode::Right, Modifiers::Plain)), Command::Enter);
    assert_eq!(app.handle_key(key(KeyCode::Left, Modifiers::Plain)), Command::GoUp);
    assert_eq!(app.handle_key(key(KeyCode::Backspace, Modifiers::Plain)), Command::GoUp);
    assert_eq!(app.handle_key(key(KeyCode::Char('c'), Modifiers::Control)), Command::Continue);
    assert_eq!(app.clipboard_summary(), Some((ClipOp::Copy, 1)));
    assert_eq!(app.handle_key(key(KeyCode::Char('x'), Modifiers::Control)), Command::Continue);
    assert_eq!(app.clipboard_summary(), Some((ClipOp::Move, 1)));
    assert_eq!(app.handle_key(key(KeyCode::Char('v'), Modifiers::Control)), Command::Paste);
    assert_eq!(app.handle_key(key(KeyCode::Char('z'), Modifiers::Other)), Command::Continue);
    assert_eq!(app.handle_key(Key { code: KeyCode::Char('q'), modifiers: Modifiers::Plain, pressed: false }), Command::Continue);
    assert_eq!(app.handle_key(plain('q')), Command::Quit);
    assert_eq!(app.handle_key(key(KeyCode::Esc, Modifiers::Plain)), Command::Quit);
}

#[test]
fn keys_while_a_deletion_is_pending() {
    let mut app = App::new(home(), &sample());
    assert_eq!(app.handle_key(plain('d')), Command::Continue);
    assert_eq!(app.pending_delete_count(), Some(1));
    assert_eq!(app.handle_key(plain('q')), Command::Continue);
    assert_eq!(app.handle_key(plain('j')), Command::Continue);
    assert_eq!(app.selected(), Some(0));
    assert_eq!(app.handle_key(plain('Y')), Command::Delete);
    assert_eq!(app.handle_key(key(KeyCode::Esc, Modifiers::Plain)), Command::Continue);
    assert_eq!(app.pending_delete_count(), None);
    assert_eq!(app.status().unwrap(), "Delete cancelled");
    app.handle_key(plain('d'));
    assert_eq!(app.handle_key(plain('N')), Command::Continue);
    assert_eq!(app.pending_delete_count(), None);
}

#[test]
fn rows_show_marks_and_directories() {
    let mut app = App::new(home(), &sample());
    app.toggle_mark();
    let row = row_text(&app, 0);
    let cells: Vec<&str> = row.cells.iter().map(|c| c.as_str()).collect();
    assert_eq!(cells, vec!["drwxr-xr-x", "1", "1000", "100", "2.0K", "1970-01-01 00:00", "*alpha/"]);
    assert_eq!(row.style, RowStyle::Marked);
    let row = row_text(&app, 1);
    assert_eq!(row.cells[6], " Zeta/");
    assert_eq!(row.style, RowStyle::Directory);
    let row = row_text(&app, 4);
    assert_eq!(row.cells[6], " b.txt");
    assert_eq!(row.style, RowStyle::Plain);
}

#[test]
fn status_line_priorities() {
    let mut app = App::new(home(), &sample());
    assert_eq!(status_line(&app), (String::new(), StatusStyle::Blank));
    app.toggle_mark();
    assert_eq!(status_line(&app), ("selected 1 item".to_string(), StatusStyle::Selection));
    app.move_down();
    app.toggle_mark();
    assert_eq!(status_line(&app), ("selected 2 items".to_string(), StatusStyle::Selection));
    app.copy_to_clipboard();
    assert_eq!(status_line(&app).1, StatusStyle::Message);
}

#[test]
fn status_message_takes_precedence_over_clipboard() {
    let mut app = App::new(home(), &sample());
    app.handle_key(key(KeyCode::Char('x'), Modifiers::Control));
    // Staging the clipboard always leaves a message, and messages are never
    // cleared, so the message line is what shows.
    assert_eq!(status_line(&app).1, StatusStyle::Message);
    app.move_down();
    assert_eq!(status_line(&app).1, StatusStyle::Message);
}

#[test]
fn header_is_the_directory() {
    let app = App::new(home(), &sample());
    assert_eq!(header_text(&app), "/home/ann");
    let root = App::new(FsPath { parts: Vec::new() }, &sample());
    assert_eq!(header_text(&root), "/");
}

#[test]
fn slide_left_mapping() {
    assert_eq!(slide_left_source(3, 0, 10), (Frame::Old, 3));
    assert_eq!(slide_left_source(3, 4, 10), (Frame::Old, 7));
    assert_eq!(slide_left_source(7, 4, 10), (Frame::New, 1));
    assert_eq!(slide_left_source(3, 10, 10), (Frame::New, 3));
}

#[test]
fn slide_right_mapping() {
    assert_eq!(slide_right_source(3, 0, 10), (Frame::Old, 3));
    assert_eq!(slide_right_source(2, 4, 10), (Frame::New, 8));
    assert_eq!(slide_right_source(7, 4, 10), (Frame::Old, 3));
    assert_eq!(slide_right_source(3, 10, 10), (Frame::New, 3));
}

#[test]
fn entering_and_going_up_returns_to_the_directory() {
    let mut app = App::new(home(), &sample());
    app.move_down(); // Zeta
    app.toggle_mark();
    assert!(app.enter_selected());
    app.entered(&vec![raw("inner", false)]);
    assert_eq!(app.selected(), Some(0));
    let child = app.go_up().unwrap();
    app.went_up(&sample(), &child);
    assert_eq!(app.cwd().to_text(), "/home/ann");
    assert_eq!(app.selected(), Some(1));
    assert_eq!(names(&app)[1], "Zeta");
    assert!(app.is_marked(&path(&["home", "ann", "Zeta"])));
}
