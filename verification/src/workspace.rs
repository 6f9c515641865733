//! The workspace roots of the language server: the package paths of the workspace folders
//! that the editor has opened, each once. A folder is given by a `file` URI.

use vstd::prelude::*;
use crate::dependency::distinct;

verus! {

/// Why a workspace folder is refused.
#[derive(Debug, Clone, Copy, PartialEq, Eq, Structural)]
pub enum FolderError {
    /// The folder's URI is not a `file` URI.
    InvalidUri,
}

/// The package path of the workspace folder whose URI has scheme `scheme` and path `path`:
/// the path, where the URI is a `file` URI.
pub fn folder_path(scheme: &str, path: &str) -> (r: Result<String, FolderError>)
    ensures
        scheme@ == "file"@ ==> (r matches Ok(p) && p@ == path@),
        scheme@ != "file"@ ==> r == Err::<String, FolderError>(FolderError::InvalidUri),
{
    if scheme.to_owned() == "file".to_owned() {
        Ok(path.to_owned())
    } else {
        Err(FolderError::InvalidUri)
    }
}

/// The workspace roots, each once.
#[derive(Debug)]
pub struct WorkspaceRoots {
    roots: Vec<String>,
}

impl View for WorkspaceRoots {
    type V = Set<Seq<char>>;

    closed spec fn view(&self) -> Set<Seq<char>> {
        self.texts().to_set()
    }
}

impl WorkspaceRoots {
    /// The roots, in the order they were added.
    pub closed spec fn texts(&self) -> Seq<Seq<char>> {
        self.roots@.map_values(|r: String| r@)
    }

    /// No root is held twice.
    pub closed spec fn wf(&self) -> bool {
        distinct(self.texts())
    }

    /// No roots.
    pub fn new() -> (r: WorkspaceRoots)
        ensures
            r.wf(),
            r@ == Set::<Seq<char>>::empty(),
    {
        let r = WorkspaceRoots { roots: Vec::new() };
        assert(r.texts() =~= Seq::<Seq<char>>::empty());
        assert(r@ =~= Set::<Seq<char>>::empty());
        r
    }

    /// The position of `path` among the roots.
    fn position(&self, path: &str) -> (r: Option<usize>)
        ensures
            match r {
                Some(i) => i < self.texts().len() && self.texts()[i as int] == path@,
                None => !self.texts().contains(path@),
            },
    {
        let target = path.to_owned();
        let mut i: usize = 0;
        while i < self.roots.len()
            invariant
                i <= self.roots@.len(),
                target@ == path@,
                forall|j: int| 0 <= j < i ==> self.texts()[j] != path@,
            decreases self.roots@.len() - i,
        {
            assert(self.texts()[i as int] == self.roots@[i as int]@);
            if self.roots[i] == target {
                return Some(i);
            }
            i = i + 1;
        }
        None
    }

    /// Whether `path` is a root.
    pub fn contains(&self, path: &str) -> (r: bool)
        ensures
            r == self@.contains(path@),
    {
        self.position(path).is_some()
    }

    /// Adds `path` to the roots.
    pub fn insert(&mut self, path: &str)
        requires
            old(self).wf(),
        ensures
            final(self).wf(),
            final(self)@ == old(self)@.insert(path@),
    {
        if self.position(path).is_none() {
            let ghost before = self.texts();
            self.roots.push(path.to_owned());
            proof {
                let t = self.texts();
                assert(t =~= before.push(path@));
                assert forall|i: int, j: int| 0 <= i < t.len() && 0 <= j < t.len() && i != j
                    implies t[i] != t[j] by {
                    if i == before.len() as int {
                        assert(t[j] == before[j]);
                    } else if j == before.len() as int {
                        assert(t[i] == before[i]);
                    } else {
                        assert(t[i] == before[i] && t[j] == before[j]);
                    }
                }
                assert forall|x: Seq<char>| #[trigger] t.contains(x) == (before.contains(x) || x == path@) by {
                    if t.contains(x) {
                        let k = choose|k: int| 0 <= k < t.len() && t[k] == x;
                        if k < before.len() {
                            assert(before[k] == x);
                        }
                    }
                    if before.contains(x) {
                        let k = choose|k: int| 0 <= k < before.len() && before[k] == x;
                        assert(t[k] == x);
                    }
                    if x == path@ {
                        assert(t[before.len() as int] == x);
                    }
                }
                assert(self@ =~= old(self)@.insert(path@));
            }
        } else {
            assert(old(self)@.contains(path@));
            assert(self@ =~= old(self)@.insert(path@));
        }
    }

    /// Removes `path` from the roots.
    pub fn remove(&mut self, path: &str)
        requires
            old(self).wf(),
        ensures
            final(self).wf(),
            final(self)@ == old(self)@.remove(path@),
    {
        match self.position(path) {
            None => {
                assert(self@ =~= old(self)@.remove(path@));
            },
            Some(i) => {
                let ghost before = self.texts();
                self.roots.remove(i);
                proof {
                    assert(self.texts() =~= before.remove(i as int));
                    assert forall|x: Seq<char>| #[trigger] self@.contains(x) == old(self)@.remove(path@).contains(x) by {
                        if self@.contains(x) {
                            let k = choose|k: int| 0 <= k < self.texts().len() && self.texts()[k] == x;
                            if k < i {
                                assert(before[k] == x);
                                assert(k != i as int);
                            } else {
                                assert(before[k + 1] == x);
                                assert(k + 1 != i as int);
                            }
                            assert(before.contains(x));
                        }
                        if old(self)@.remove(path@).contains(x) {
                            let k = choose|k: int| 0 <= k < before.len() && before[k] == x;
                            assert(k != i as int);
                            if k < i {
                                assert(self.texts()[k] == x);
                            } else {
                                assert(self.texts()[k - 1] == x);
                            }
                        }
                    }
                    assert(self@ =~= old(self)@.remove(path@));
                }
            },
        }
    }
}

} // verus!
