use vstd::prelude::*;

use crate::app::{App, AppView, ClipOp};
use crate::format::{format_size, size_text};
use crate::listing::{entries_view, EntryView};
use crate::path::path_text;
use crate::text::{decimal, push_char, push_decimal};

verus! {

/// How a table row is highlighted.
#[derive(PartialEq, Eq, Structural, Clone, Copy, Debug)]
pub enum RowStyle {
    /// The row's path is marked.
    Marked,
    /// The row is a directory.
    Directory,
    Plain,
}

/// The cells of a table row and its highlighting.
pub struct RowText {
    /// Permissions, links, owner, group, size, modification time, name.
    pub cells: Vec<String>,
    pub style: RowStyle,
}

/// Whether row `e` of the directory shown is marked.
pub open spec fn row_marked(v: AppView, e: EntryView) -> bool {
    v.marks.contains(v.cwd.push(e.name))
}

/// The name cell: `*` or a space for the mark, the name, and `/` after a
/// directory.
pub open spec fn name_cell(marked: bool, e: EntryView) -> Seq<char> {
    (if marked { seq!['*'] } else { seq![' '] }) + e.name + (if e.is_dir {
        seq!['/']
    } else {
        Seq::empty()
    })
}

/// The cells of a row.
pub open spec fn row_cells(v: AppView, e: EntryView) -> Seq<Seq<char>> {
    seq![
        e.mode_str,
        decimal(e.nlink as nat),
        decimal(e.uid as nat),
        decimal(e.gid as nat),
        size_text(e.size),
        e.mtime,
        name_cell(row_marked(v, e), e),
    ]
}

/// The highlighting of a row.
pub open spec fn row_style(v: AppView, e: EntryView) -> RowStyle {
    if row_marked(v, e) {
        RowStyle::Marked
    } else if e.is_dir {
        RowStyle::Directory
    } else {
        RowStyle::Plain
    }
}

fn decimal_string(n: u64) -> (s: String)
    ensures
        s@ == decimal(n as nat),
{
    let mut s = String::new();
    push_decimal(&mut s, n);
    s
}

/// The cells and highlighting of row `i`.
pub fn row_text(app: &App, i: usize) -> (r: RowText)
    requires
        i < app@.entries.len(),
    ensures
        r.cells@.map_values(|c: String| c@) == row_cells(app@, app@.entries[i as int]),
        r.style == row_style(app@, app@.entries[i as int]),
{
    let entries = app.entries();
    let e = &entries[i];
    assert(entries_view(entries@)[i as int] == e@);
    let path = app.cwd().join(&e.name);
    let marked = app.is_marked(&path);
    let mut name = String::new();
    push_char(&mut name, if marked { '*' } else { ' ' });
    name.append(e.name.as_str());
    if e.is_dir {
        push_char(&mut name, '/');
    }
    let mut cells: Vec<String> = Vec::new();
    cells.push(e.mode_str.clone());
    cells.push(decimal_string(e.nlink));
    cells.push(decimal_string(e.uid as u64));
    cells.push(decimal_string(e.gid as u64));
    cells.push(format_size(e.size));
    cells.push(e.mtime.clone());
    cells.push(name);
    let style = if marked {
        RowStyle::Marked
    } else if e.is_dir {
        RowStyle::Directory
    } else {
        RowStyle::Plain
    };
    assert(name@ =~= name_cell(marked, e@));
    assert(cells@.map_values(|c: String| c@) =~= row_cells(app@, e@));
    RowText { cells, style }
}

/// How the status line is highlighted.
#[derive(PartialEq, Eq, Structural, Clone, Copy, Debug)]
pub enum StatusStyle {
    /// A deletion awaits confirmation.
    Confirm,
    /// The message of the last operation.
    Message,
    /// What the clipboard holds.
    Clipboard,
    /// How many paths are marked.
    Selection,
    /// Nothing to say.
    Blank,
}

/// `""` for one item, `"s"` otherwise.
pub open spec fn plural(n: nat) -> Seq<char> {
    if n == 1 { Seq::empty() } else { seq!['s'] }
}

/// The status line: the confirmation prompt of a pending deletion, else the
/// last message, else what the clipboard holds, else how many paths are
/// marked, else nothing.
pub open spec fn status_line_of(v: AppView) -> (Seq<char>, StatusStyle) {
    if let Some(paths) = v.pending_delete {
        (
            "Delete "@ + decimal(paths.len()) + " item(s)? This cannot be undone. (y/n)"@,
            StatusStyle::Confirm,
        )
    } else if let Some(s) = v.status {
        (s, StatusStyle::Message)
    } else if let Some((op, paths)) = v.clipboard {
        (
            "Clipboard: "@ + decimal(paths.len()) + " item"@ + plural(paths.len()) + " staged to "@
                + (if op == ClipOp::Copy { "copy"@ } else { "move"@ }),
            StatusStyle::Clipboard,
        )
    } else if v.marks != Set::<Seq<Seq<char>>>::empty() {
        (
            "selected "@ + decimal(v.marks.len()) + " item"@ + plural(v.marks.len()),
            StatusStyle::Selection,
        )
    } else {
        (Seq::empty(), StatusStyle::Blank)
    }
}

fn push_plural(s: &mut String, n: usize)
    ensures
        final(s)@ == old(s)@ + plural(n as nat),
{
    if n != 1 {
        push_char(s, 's');
    } else {
        assert(old(s)@ + plural(n as nat) =~= old(s)@);
    }
}

/// The text and highlighting of the status line.
pub fn status_line(app: &App) -> (r: (String, StatusStyle))
    requires
        app.wf(),
    ensures
        (r.0@, r.1) == status_line_of(app@),
{
    if let Some(n) = app.pending_delete_count() {
        let mut s = String::from_str("Delete ");
        push_decimal(&mut s, n as u64);
        s.append(" item(s)? This cannot be undone. (y/n)");
        return (s, StatusStyle::Confirm);
    }
    if let Some(msg) = app.status() {
        return (msg.clone(), StatusStyle::Message);
    }
    if let Some((op, n)) = app.clipboard_summary() {
        let mut s = String::from_str("Clipboard: ");
        push_decimal(&mut s, n as u64);
        s.append(" item");
        push_plural(&mut s, n);
        s.append(" staged to ");
        s.append(if op == ClipOp::Copy { "copy" } else { "move" });
        return (s, StatusStyle::Clipboard);
    }
    let n = app.mark_count();
    proof {
        app.lemma_wf();
    }
    if n != 0 {
        assert(app@.marks != Set::<Seq<Seq<char>>>::empty());
        let mut s = String::from_str("selected ");
        push_decimal(&mut s, n as u64);
        s.append(" item");
        push_plural(&mut s, n);
        (s, StatusStyle::Selection)
    } else {
        assert(app@.marks =~= Set::<Seq<Seq<char>>>::empty());
        (String::new(), StatusStyle::Blank)
    }
}

/// The header line: the directory shown.
pub fn header_text(app: &App) -> (s: String)
    ensures
        s@ == path_text(app@.cwd),
{
    app.cwd().to_text()
}

/// The screen an animation frame takes a cell from.
#[derive(PartialEq, Eq, Structural, Clone, Copy, Debug)]
pub enum Frame {
    /// The screen before the change.
    Old,
    /// The screen after it.
    New,
}

/// Where column `col` of a slide-to-the-left frame shifted by `offset` comes
/// from: the old screen moves out to the left while the new one enters from
/// the right.
pub fn slide_left_source(col: u32, offset: u32, width: u32) -> (src: (Frame, u32))
    requires
        col < width,
        offset <= width,
    ensures
        src == (if col + offset < width {
            (Frame::Old, (col + offset) as u32)
        } else {
            (Frame::New, (col + offset - width) as u32)
        }),
        src.1 < width,
        offset == 0 ==> src == (Frame::Old, col),
        offset == width ==> src == (Frame::New, col),
{
    if (col as u64) + (offset as u64) < width as u64 {
        (Frame::Old, col + offset)
    } else {
        (Frame::New, ((col as u64) + (offset as u64) - (width as u64)) as u32)
    }
}

/// Where column `col` of a slide-to-the-right frame shifted by `offset`
/// comes from: the old screen moves out to the right while the new one
/// enters from the left.
pub fn slide_right_source(col: u32, offset: u32, width: u32) -> (src: (Frame, u32))
    requires
        col < width,
        offset <= width,
    ensures
        src == (if col < offset {
            (Frame::New, (width - offset + col) as u32)
        } else {
            (Frame::Old, (col - offset) as u32)
        }),
        src.1 < width,
        offset == 0 ==> src == (Frame::Old, col),
        offset == width ==> src == (Frame::New, col),
{
    if col < offset {
        (Frame::New, width - offset + col)
    } else {
        (Frame::Old, col - offset)
    }
}

} // verus!
