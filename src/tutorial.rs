use vstd::prelude::*;
use crate::error::LedgerError;

verus! {

/// File name of the tutorial ledger, in the ledgers directory and among the
/// bundled resources.
pub const TUTORIAL_FILE_NAME: &'static str = "tutorial.ledger.json";

/// Directory, under the packaged resources and under the working directory,
/// that holds the bundled tutorial ledger.
pub const RESOURCES_DIR_NAME: &'static str = "resources";

/// A place where the bundled tutorial ledger may be, and whether it is there.
pub struct ResourceCandidate {
    pub path: String,
    pub exists: bool,
}

/// The `i`-th candidate of `c` is the first one that exists.
pub open spec fn is_first_existing(c: Seq<ResourceCandidate>, i: int) -> bool {
    &&& 0 <= i < c.len()
    &&& c[i].exists
    &&& forall|j: int| 0 <= j < i ==> !c[j].exists
}

/// No candidate of `c` exists.
pub open spec fn none_exists(c: Seq<ResourceCandidate>) -> bool {
    forall|j: int| 0 <= j < c.len() ==> !c[j].exists
}

/// The path of the bundled tutorial ledger: the first of `candidates`, tried
/// in order, that exists; `ResourceMissing` where none does.
pub fn locate_tutorial(candidates: &Vec<ResourceCandidate>) -> (r: Result<String, LedgerError>)
    ensures
        match r {
            Ok(p) => exists|i: int| is_first_existing(candidates@, i) && p@ == candidates@[i].path@,
            Err(e) => e == LedgerError::ResourceMissing && none_exists(candidates@),
        },
        r is Err <==> none_exists(candidates@),
{
    let mut i: usize = 0;
    while i < candidates.len()
        invariant
            i <= candidates@.len(),
            forall|j: int| 0 <= j < i ==> !candidates@[j].exists,
        decreases candidates@.len() - i,
    {
        if candidates[i].exists {
            let p = candidates[i].path.clone();
            assert(is_first_existing(candidates@, i as int));
            return Ok(p);
        }
        i = i + 1;
    }
    Err(LedgerError::ResourceMissing)
}

/// Where the tutorial ledger is seeded from at startup: nowhere if
/// `tutorial_exists` (a ledger already there is never overwritten), else the
/// first existing candidate, if any.
pub fn seed_source(tutorial_exists: bool, candidates: &Vec<ResourceCandidate>) -> (r: Option<String>)
    ensures
        tutorial_exists ==> r is None,
        !tutorial_exists ==> match r {
            Some(p) => exists|i: int| is_first_existing(candidates@, i) && p@ == candidates@[i].path@,
            None => none_exists(candidates@),
        },
{
    if tutorial_exists {
        return None;
    }
    match locate_tutorial(candidates) {
        Ok(p) => Some(p),
        Err(_) => None,
    }
}

} // verus!
