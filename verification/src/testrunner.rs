//! Decisions of the multithreaded runner.  Spawning workers, pinning them
//! to cores, bracketing the run with a profiler and joining are the host
//! program's work; what is decided here — and verified — is the dispatch
//! from a tree name to the implementation under test, and how the total
//! operation count is divided across threads.
use vstd::prelude::*;

verus! {

use crate::digits::str_eq;
use crate::errors::BenchError;

/// The tree implementations the runner can put under test: the engine of
/// this crate, or one of the adapters over third-party structures.
#[derive(Debug, Clone, Copy, PartialEq, Eq, Structural)]
pub enum TreeKind {
    Bst,
    SkipList,
    BpTree,
    AvlTree,
    Art,
}

/// Map a tree name to the implementation under test.  An unknown name is a
/// fatal configuration error, surfaced as a value for the runner to abort
/// on.
pub fn find_tree(name: &str) -> (r: Result<TreeKind, BenchError>)
    ensures
        name@ == "bst"@ ==> r == Ok::<TreeKind, BenchError>(TreeKind::Bst),
        name@ == "skiplist"@ ==> r == Ok::<TreeKind, BenchError>(TreeKind::SkipList),
        name@ == "bptree"@ ==> r == Ok::<TreeKind, BenchError>(TreeKind::BpTree),
        name@ == "avltree"@ ==> r == Ok::<TreeKind, BenchError>(TreeKind::AvlTree),
        name@ == "art"@ ==> r == Ok::<TreeKind, BenchError>(TreeKind::Art),
        (name@ != "bst"@ && name@ != "skiplist"@ && name@ != "bptree"@ && name@ != "avltree"@
            && name@ != "art"@) ==> r == Err::<TreeKind, BenchError>(BenchError::UnknownTree),
{
    proof {
        reveal_strlit("bst");
        reveal_strlit("skiplist");
        reveal_strlit("bptree");
        reveal_strlit("avltree");
        reveal_strlit("art");
        assert("bst"@[0] == 'b' && "art"@[0] == 'a');
        assert("bst"@ != "art"@);
        assert("bst"@.len() == 3 && "skiplist"@.len() == 8 && "bptree"@.len() == 6 && "avltree"@
            .len() == 7 && "art"@.len() == 3);
    }
    if str_eq(name, "bst") {
        Ok(TreeKind::Bst)
    } else if str_eq(name, "skiplist") {
        Ok(TreeKind::SkipList)
    } else if str_eq(name, "bptree") {
        Ok(TreeKind::BpTree)
    } else if str_eq(name, "avltree") {
        Ok(TreeKind::AvlTree)
    } else if str_eq(name, "art") {
        Ok(TreeKind::Art)
    } else {
        Err(BenchError::UnknownTree)
    }
}

/// Each of the `nthreads` workers runs this many operations.
pub fn ops_per_thread(size: usize, nthreads: usize) -> (r: usize)
    requires
        nthreads >= 1,
    ensures
        r == size as int / nthreads as int,
{
    size / nthreads
}

} // verus!
