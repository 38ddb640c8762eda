use vstd::prelude::*;
use crate::errors::LogError;
use crate::model::{HistoryEntry, entry_has_addr, hist_has_addr};

verus! {

/// Scans the existing history for an address collision: fails with
/// `DuplicateContract` (carrying the address) exactly when some
/// contract record anywhere in history already has the candidate
/// address, and succeeds with no side effect otherwise.
#[verifier::loop_isolation(false)]
pub fn detect_duplicate(history: &Vec<HistoryEntry>, address: &String) -> (r: Result<
    (),
    LogError,
>)
    ensures
        r is Ok <==> !hist_has_addr(history@, address@),
        r matches Err(e) ==> e matches LogError::DuplicateContract(a) && a@ == address@,
{
    let mut i: usize = 0;
    while i < history.len()
        invariant
            i <= history@.len(),
            forall|k: int| 0 <= k < i ==> !entry_has_addr(#[trigger] history@[k], address@),
        decreases history@.len() - i,
    {
        let entry = &history[i];
        let mut j: usize = 0;
        while j < entry.contracts.len()
            invariant
                j <= entry.contracts@.len(),
                forall|k: int|
                    0 <= k < j ==> (#[trigger] entry.contracts@[k]).1.address@ != address@,
            decreases entry.contracts@.len() - j,
        {
            if entry.contracts[j].1.address.eq(address) {
                proof {
                    assert(entry_has_addr(history@[i as int], address@));
                }
                return Err(LogError::DuplicateContract(address.clone()));
            }
            j = j + 1;
        }
        proof {
            assert(!entry_has_addr(history@[i as int], address@));
        }
        i = i + 1;
    }
    Ok(())
}

} // verus!
