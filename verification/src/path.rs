//! Paths relative to the root of a traversal, held as their components.

use vstd::prelude::*;
use vstd::string::StringExecFns;

verus! {

/// A path as its components, the root as none.
pub type PathView = Seq<Seq<char>>;

/// The text of a path: the marker `.` for the root itself, otherwise the
/// components joined by `/`.
pub open spec fn render_path(parts: PathView) -> Seq<char>
    decreases parts.len(),
{
    if parts.len() == 0 {
        "."@
    } else if parts.len() == 1 {
        parts[0]
    } else {
        render_path(parts.drop_last()) + "/"@ + parts.last()
    }
}

/// The directory that holds the entry at `parts`; the root for the root.
pub open spec fn parent_of(parts: PathView) -> PathView {
    if parts.len() == 0 {
        parts
    } else {
        parts.drop_last()
    }
}

/// A path below the root of a traversal. The root is the empty path, and the
/// number of components of an entry is the depth at which it lies.
#[derive(Debug, PartialEq, Eq)]
pub struct RelPath {
    pub parts: Vec<String>,
}

impl View for RelPath {
    type V = PathView;

    open spec fn view(&self) -> PathView {
        Seq::new(self.parts@.len(), |i: int| self.parts@[i]@)
    }
}

impl Clone for RelPath {
    fn clone(&self) -> (out: Self)
        ensures
            out@ == self@,
    {
        let mut parts: Vec<String> = Vec::new();
        let mut i: usize = 0;
        while i < self.parts.len()
            invariant
                i <= self.parts.len(),
                parts@.len() == i,
                forall|k: int| 0 <= k < i ==> parts@[k]@ == self.parts@[k]@,
            decreases self.parts.len() - i,
        {
            parts.push(self.parts[i].clone());
            i += 1;
        }
        RelPath { parts }
    }
}

impl RelPath {
    /// The root of the traversal.
    pub fn root() -> (out: RelPath)
        ensures
            out@ == PathView::empty(),
    {
        RelPath { parts: Vec::new() }
    }

    /// The number of components.
    pub fn depth(&self) -> (n: usize)
        ensures
            n == self@.len(),
    {
        self.parts.len()
    }

    /// The entry called `name` in the directory `self`.
    pub fn child(&self, name: &str) -> (out: RelPath)
        ensures
            out@ == self@.push(name@),
    {
        let mut out = self.clone();
        out.parts.push(String::from_str(name));
        out
    }

    /// The last component: the entry's own name. The root has none.
    pub fn file_name(&self) -> (out: Option<&String>)
        ensures
            out is Some <==> self@.len() > 0,
            out matches Some(name) ==> name@ == self@.last(),
    {
        let n: usize = self.parts.len();
        if n == 0 {
            None
        } else {
            Some(&self.parts[n - 1])
        }
    }

    /// The directory that holds this entry. The root is its own parent.
    pub fn parent(&self) -> (out: RelPath)
        ensures
            out@ == parent_of(self@),
    {
        let mut parts: Vec<String> = Vec::new();
        let mut i: usize = 0;
        while i + 1 < self.parts.len()
            invariant
                parts@.len() == i,
                i + 1 <= self.parts.len() || i == 0,
                forall|k: int| 0 <= k < i ==> parts@[k]@ == self.parts@[k]@,
            decreases self.parts.len() - i,
        {
            parts.push(self.parts[i].clone());
            i += 1;
        }
        RelPath { parts }
    }

    /// The path as text, `.` for the root.
    pub fn render(&self) -> (out: String)
        ensures
            out@ == render_path(self@),
    {
        if self.parts.len() == 0 {
            return String::from_str(".");
        }
        let mut out = self.parts[0].clone();
        let mut i: usize = 1;
        while i < self.parts.len()
            invariant
                1 <= i <= self.parts.len(),
                out@ == render_path(self@.take(i as int)),
            decreases self.parts.len() - i,
        {
            out.append("/");
            out.append(self.parts[i].as_str());
            assert(self@.take(i + 1).drop_last() =~= self@.take(i as int));
            i += 1;
        }
        assert(self@.take(i as int) =~= self@);
        out
    }
}

} // verus!
