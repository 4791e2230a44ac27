use vstd::prelude::*;

use crate::order::parts_view;
use crate::text::{chars_of, push_char};

verus! {

/// An absolute path, held as its components below the root directory: `/`
/// is the empty sequence, `/home/ann` is `["home", "ann"]`.
pub struct FsPath {
    pub parts: Vec<String>,
}

impl View for FsPath {
    type V = Seq<Seq<char>>;

    open spec fn view(&self) -> Seq<Seq<char>> {
        self.parts@.map_values(|s: String| s@)
    }
}

/// The views of a sequence of paths.
pub open spec fn paths_view(paths: Seq<FsPath>) -> Seq<Seq<Seq<char>>> {
    paths.map_values(|p: FsPath| p@)
}

/// The text of a path: `/` followed by its components separated by `/`.
pub open spec fn path_text(parts: Seq<Seq<char>>) -> Seq<char>
    decreases parts.len(),
{
    if parts.len() == 0 {
        seq!['/']
    } else if parts.len() == 1 {
        seq!['/'] + parts[0]
    } else {
        path_text(parts.drop_last()) + seq!['/'] + parts.last()
    }
}

impl FsPath {
    /// The root directory.
    pub fn root() -> (p: FsPath)
        ensures
            p@ == Seq::<Seq<char>>::empty(),
    {
        let p = FsPath { parts: Vec::new() };
        assert(p@ =~= Seq::<Seq<char>>::empty());
        p
    }

    /// A copy of the path.
    pub fn duplicate(&self) -> (p: FsPath)
        ensures
            p@ == self@,
    {
        let mut parts: Vec<String> = Vec::new();
        let mut i: usize = 0;
        while i < self.parts.len()
            invariant
                i <= self.parts.len(),
                parts.len() == i,
                parts@.map_values(|s: String| s@) == self@.take(i as int),
            decreases self.parts.len() - i,
        {
            let c = self.parts[i].clone();
            let ghost before = parts@;
            assert(c@ == self@[i as int]);
            parts.push(c);
            assert forall|j: int| 0 <= j < i implies parts@[j]@ == self@[j] by {
                assert(parts@[j] == before[j]);
                assert(before.map_values(|s: String| s@)[j] == self@.take(i as int)[j]);
            }
            i = i + 1;
            assert(parts@.map_values(|s: String| s@) =~= self@.take(i as int));
        }
        let p = FsPath { parts };
        assert(p@ =~= self@);
        p
    }

    /// The path of the entry `name` inside this directory.
    pub fn join(&self, name: &String) -> (p: FsPath)
        ensures
            p@ == self@.push(name@),
    {
        let mut p = self.duplicate();
        p.parts.push(name.clone());
        assert(p@ =~= self@.push(name@));
        p
    }

    /// The last component, if the path is not the root.
    pub fn file_name(&self) -> (n: Option<String>)
        ensures
            n matches Some(s) ==> self@.len() > 0 && s@ == self@.last(),
            n is None ==> self@.len() == 0,
    {
        if self.parts.len() == 0 {
            None
        } else {
            Some(self.parts[self.parts.len() - 1].clone())
        }
    }

    /// Whether two paths are equal.
    pub fn same_as(&self, other: &FsPath) -> (b: bool)
        ensures
            b == (self@ == other@),
    {
        if self.parts.len() != other.parts.len() {
            assert(self@.len() != other@.len());
            return false;
        }
        let mut i: usize = 0;
        while i < self.parts.len()
            invariant
                i <= self.parts.len(),
                self.parts.len() == other.parts.len(),
                forall|j: int| 0 <= j < i ==> self@[j] == other@[j],
            decreases self.parts.len() - i,
        {
            if self.parts[i] != other.parts[i] {
                assert(self@[i as int] != other@[i as int]);
                return false;
            }
            i = i + 1;
        }
        assert(self@ =~= other@);
        true
    }

    /// The components as character vectors.
    pub fn parts_chars(&self) -> (v: Vec<Vec<char>>)
        ensures
            parts_view(v@) == self@,
    {
        let mut v: Vec<Vec<char>> = Vec::new();
        let mut i: usize = 0;
        while i < self.parts.len()
            invariant
                i <= self.parts.len(),
                v.len() == i,
                parts_view(v@) == self@.take(i as int),
            decreases self.parts.len() - i,
        {
            let c = chars_of(self.parts[i].as_str());
            let ghost before = v@;
            assert(c@ == self@[i as int]);
            v.push(c);
            assert forall|j: int| 0 <= j < i implies v@[j]@ == self@[j] by {
                assert(v@[j] == before[j]);
                assert(parts_view(before)[j] == self@.take(i as int)[j]);
            }
            i = i + 1;
            assert(parts_view(v@) =~= self@.take(i as int));
        }
        assert(parts_view(v@) =~= self@);
        v
    }

    /// The path as text, such as `/home/ann`.
    pub fn to_text(&self) -> (s: String)
        ensures
            s@ == path_text(self@),
    {
        let mut s = String::new();
        if self.parts.len() == 0 {
            push_char(&mut s, '/');
            return s;
        }
        let mut i: usize = 0;
        while i < self.parts.len()
            invariant
                i <= self.parts.len(),
                i > 0 ==> s@ == path_text(self@.take(i as int)),
                i == 0 ==> s@ == Seq::<char>::empty(),
            decreases self.parts.len() - i,
        {
            push_char(&mut s, '/');
            s.append(self.parts[i].as_str());
            assert(self@.take(i as int + 1).drop_last() =~= self@.take(i as int));
            i = i + 1;
            assert(s@ =~= path_text(self@.take(i as int)));
        }
        assert(self@.take(self.parts.len() as int) =~= self@);
        s
    }
}

} // verus!
