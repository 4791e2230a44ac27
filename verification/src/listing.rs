use vstd::prelude::*;

use crate::format::{format_mode, format_time, mode_text, time_text};
use crate::order::{parts_view, stable_sort_indices, stable_sort_of};
use crate::text::chars_of;

verus! {

/// What a directory read reports of one entry.
pub struct RawEntry {
    /// The entry's file name, as text.
    pub name: String,
    pub is_dir: bool,
    /// Permission and file-type bits.
    pub mode: u32,
    pub nlink: u64,
    pub uid: u32,
    pub gid: u32,
    /// Length in bytes.
    pub size: u64,
    /// Modification time, seconds since 1970-01-01 UTC.
    pub mtime: i64,
}

/// One row of the listing.
pub struct Entry {
    pub name: String,
    pub is_dir: bool,
    /// Permission column, such as `drwxr-xr-x`.
    pub mode_str: String,
    pub nlink: u64,
    pub uid: u32,
    pub gid: u32,
    pub size: u64,
    /// Modification time column, `YYYY-MM-DD HH:MM`.
    pub mtime: String,
}

/// The content of a row.
pub struct EntryView {
    pub name: Seq<char>,
    pub is_dir: bool,
    pub mode_str: Seq<char>,
    pub nlink: u64,
    pub uid: u32,
    pub gid: u32,
    pub size: u64,
    pub mtime: Seq<char>,
}

impl View for Entry {
    type V = EntryView;

    open spec fn view(&self) -> EntryView {
        EntryView {
            name: self.name@,
            is_dir: self.is_dir,
            mode_str: self.mode_str@,
            nlink: self.nlink,
            uid: self.uid,
            gid: self.gid,
            size: self.size,
            mtime: self.mtime@,
        }
    }
}

/// The views of a sequence of rows.
pub open spec fn entries_view(entries: Seq<Entry>) -> Seq<EntryView> {
    entries.map_values(|e: Entry| e@)
}

/// A dot file: its name begins with `.`.
pub open spec fn is_hidden(name: Seq<char>) -> bool {
    name.len() > 0 && name[0] == '.'
}

/// An entry is listed unless it is hidden while hidden entries are not shown.
pub open spec fn is_shown(r: RawEntry, show_hidden: bool) -> bool {
    show_hidden || !is_hidden(r.name@)
}

/// The entries of `raw` that are listed, in the order of the read.
pub open spec fn visible_entries(raw: Seq<RawEntry>, show_hidden: bool) -> Seq<RawEntry>
    decreases raw.len(),
{
    if raw.len() == 0 {
        Seq::empty()
    } else {
        let rest = visible_entries(raw.drop_last(), show_hidden);
        if is_shown(raw.last(), show_hidden) {
            rest.push(raw.last())
        } else {
            rest
        }
    }
}

/// What `str::to_lowercase` returns for a string.
pub uninterp spec fn lowercase(s: Seq<char>) -> Seq<char>;

/// Calls `str::to_lowercase`, the Unicode lower-case mapping of a string; its
/// result is named, not described.
#[verifier::external_body]
fn to_lowercase(s: &str) -> (r: String)
    ensures
        r@ == lowercase(s@),
{
    s.to_lowercase()
}

/// The sort key of an entry: directories (`"0"`) before everything else
/// (`"1"`), then the lower-cased name.
pub open spec fn listing_key(name: Seq<char>, is_dir: bool) -> Seq<Seq<char>> {
    seq![if is_dir { seq!['0'] } else { seq!['1'] }, lowercase(name)]
}

/// The sort keys of a sequence of entries.
pub open spec fn listing_keys(entries: Seq<RawEntry>) -> Seq<Seq<Seq<char>>> {
    entries.map_values(|r: RawEntry| listing_key(r.name@, r.is_dir))
}

/// The row shown for the directory entry `r`.
pub open spec fn row_of(r: RawEntry) -> EntryView {
    EntryView {
        name: r.name@,
        is_dir: r.is_dir,
        mode_str: mode_text(r.mode, r.is_dir),
        nlink: r.nlink,
        uid: r.uid,
        gid: r.gid,
        size: r.size,
        mtime: time_text(r.mtime),
    }
}

/// `entries` is the listing of the directory read `raw`: one row for each
/// shown entry, directories first, then by lower-cased name, entries with
/// equal keys in the order of the read.
pub open spec fn is_listing_of(raw: Seq<RawEntry>, show_hidden: bool, entries: Seq<EntryView>) -> bool {
    let vis = visible_entries(raw, show_hidden);
    &&& entries.len() == vis.len()
    &&& exists|perm: Seq<usize>|
        {
            &&& #[trigger] stable_sort_of(listing_keys(vis), perm)
            &&& forall|i: int| 0 <= i < entries.len() ==> #[trigger] entries[i] == row_of(vis[perm[i] as int])
        }
}

/// Whether an entry named `name` is listed: always when hidden entries are
/// shown, otherwise unless it is a dot file.
pub fn is_listed(name: &String, show_hidden: bool) -> (b: bool)
    ensures
        b == (show_hidden || !is_hidden(name@)),
{
    if show_hidden {
        true
    } else {
        let cs = chars_of(name.as_str());
        !(cs.len() > 0 && cs[0] == '.')
    }
}

fn sort_key(r: &RawEntry) -> (k: Vec<Vec<char>>)
    ensures
        parts_view(k@) == listing_key(r.name@, r.is_dir),
{
    let mut k: Vec<Vec<char>> = Vec::new();
    let mut flag: Vec<char> = Vec::new();
    flag.push(if r.is_dir { '0' } else { '1' });
    assert(flag@ =~= (if r.is_dir { seq!['0'] } else { seq!['1'] }));
    k.push(flag);
    let lower = to_lowercase(r.name.as_str());
    k.push(chars_of(lower.as_str()));
    assert(parts_view(k@) =~= listing_key(r.name@, r.is_dir));
    k
}

fn make_row(r: &RawEntry) -> (e: Entry)
    ensures
        e@ == row_of(*r),
{
    Entry {
        name: r.name.clone(),
        is_dir: r.is_dir,
        mode_str: format_mode(r.mode, r.is_dir),
        nlink: r.nlink,
        uid: r.uid,
        gid: r.gid,
        size: r.size,
        mtime: format_time(r.mtime),
    }
}

/// Builds the rows of a directory listing from what the directory read
/// reported: hidden entries dropped unless `show_hidden`, directories first,
/// then by case-insensitive name, the order of the read kept among equals.
pub fn build_listing(raw: &Vec<RawEntry>, show_hidden: bool) -> (entries: Vec<Entry>)
    ensures
        is_listing_of(raw@, show_hidden, entries_view(entries@)),
{
    let mut idxs: Vec<usize> = Vec::new();
    let mut keys: Vec<Vec<Vec<char>>> = Vec::new();
    let mut i: usize = 0;
    while i < raw.len()
        invariant
            i <= raw.len(),
            idxs.len() == keys.len(),
            forall|j: int| 0 <= j < idxs.len() ==> idxs[j] < raw.len(),
            visible_entries(raw@.take(i as int), show_hidden) == idxs@.map_values(
                |j: usize| raw@[j as int],
            ),
            forall|j: int|
                0 <= j < keys.len() ==> parts_view(#[trigger] keys@[j]@) == listing_key(
                    raw@[idxs[j] as int].name@,
                    raw@[idxs[j] as int].is_dir,
                ),
        decreases raw.len() - i,
    {
        let r = &raw[i];
        let shown = is_listed(&r.name, show_hidden);
        assert(raw@.take(i as int + 1).drop_last() =~= raw@.take(i as int));
        if shown {
            idxs.push(i);
            keys.push(sort_key(r));
        }
        i = i + 1;
        assert(visible_entries(raw@.take(i as int), show_hidden) =~= idxs@.map_values(
            |j: usize| raw@[j as int],
        ));
    }
    assert(raw@.take(raw.len() as int) =~= raw@);
    let ghost vis = visible_entries(raw@, show_hidden);
    let perm = stable_sort_indices(&keys);
    assert(keys@.map_values(|k: Vec<Vec<char>>| parts_view(k@)) =~= listing_keys(vis));
    let mut entries: Vec<Entry> = Vec::new();
    let mut k: usize = 0;
    while k < perm.len()
        invariant
            k <= perm.len(),
            perm.len() == idxs.len(),
            vis == idxs@.map_values(|j: usize| raw@[j as int]),
            forall|j: int| 0 <= j < idxs.len() ==> idxs[j] < raw.len(),
            forall|j: int| 0 <= j < perm.len() ==> perm[j] < idxs.len(),
            entries.len() == k,
            forall|j: int| 0 <= j < k ==> #[trigger] entries@[j]@ == row_of(vis[perm[j] as int]),
        decreases perm.len() - k,
    {
        let e = make_row(&raw[idxs[perm[k]]]);
        entries.push(e);
        k = k + 1;
    }
    assert(stable_sort_of(listing_keys(vis), perm@));
    assert(forall|j: int| 0 <= j < entries.len() ==> entries_view(entries@)[j] == #[trigger] entries@[j]@);
    entries
}

} // verus!
