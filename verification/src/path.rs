//! Repository paths: either the repository root or a directory path.
//! Equality is structural.

use vstd::prelude::*;

verus! {

/// Mathematical model of a repository path.
pub ghost enum RepoPathView {
    Root,
    Dir(Seq<u8>),
}

/// Either the repository root or a directory path.
pub enum RepoPath {
    Root,
    Dir(Vec<u8>),
}

impl View for RepoPath {
    type V = RepoPathView;

    open spec fn view(&self) -> RepoPathView {
        match self {
            RepoPath::Root => RepoPathView::Root,
            RepoPath::Dir(name) => RepoPathView::Dir(name@),
        }
    }
}

impl RepoPath {
    /// Well-formedness: a directory path is never empty.
    pub open spec fn wf(&self) -> bool {
        match self {
            RepoPath::Root => true,
            RepoPath::Dir(name) => name@.len() > 0,
        }
    }

    /// The repository root.
    pub fn root() -> (r: RepoPath)
        ensures
            r@ == RepoPathView::Root,
            r.wf(),
    {
        RepoPath::Root
    }

    /// A directory path; the name must be non-empty.
    pub fn dir(name: Vec<u8>) -> (r: Result<RepoPath, ()>)
        ensures
            name@.len() > 0 ==> (r matches Ok(p) && p@ == RepoPathView::Dir(name@) && p.wf()),
            name@.len() == 0 ==> r is Err,
    {
        if name.len() == 0 {
            Err(())
        } else {
            Ok(RepoPath::Dir(name))
        }
    }

    /// Structural equality of two paths.
    pub fn eq_path(&self, other: &RepoPath) -> (r: bool)
        ensures
            r == (self@ == other@),
    {
        match (self, other) {
            (RepoPath::Root, RepoPath::Root) => true,
            (RepoPath::Dir(a), RepoPath::Dir(b)) => {
                let r = a == b;
                proof {
                    if r {
                        assert(a@ =~= b@);
                    } else {
                        if a@ == b@ {
                            assert(forall|i: int| 0 <= i < a@.len() ==> a@[i] == b@[i]);
                        }
                    }
                }
                r
            },
            _ => false,
        }
    }
}

impl Clone for RepoPath {
    fn clone(&self) -> (r: Self)
        ensures
            r@ == self@,
    {
        match self {
            RepoPath::Root => RepoPath::Root,
            RepoPath::Dir(name) => {
                let copied = name.clone();
                proof {
                    assert(copied@ =~= name@);
                }
                RepoPath::Dir(copied)
            },
        }
    }
}

impl PartialEq for RepoPath {
    fn eq(&self, other: &Self) -> (r: bool) {
        self.eq_path(other)
    }
}

impl Eq for RepoPath {}

impl vstd::std_specs::cmp::PartialEqSpecImpl for RepoPath {
    open spec fn obeys_eq_spec() -> bool {
        true
    }

    open spec fn eq_spec(&self, other: &Self) -> bool {
        self@ == other@
    }
}

} // verus!
