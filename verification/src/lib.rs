//! Deterministic state-transition engine for an EVM-compatible chain:
//! versioned transaction encoding and recovery, receipt encoding, precompile
//! dispatch, fee allocation, hardfork gating, and the block executor.

pub mod bloom;
pub mod crypto;
pub mod decode;
pub mod executor;
pub mod memory;
pub mod precompile;
pub mod hardfork;
pub mod rlp;
pub mod transaction;
pub mod types;

use vstd::prelude::*;

verus! {

/// Bytewise equality of two byte vectors.
pub fn bytes_eq(a: &Vec<u8>, b: &Vec<u8>) -> (r: bool)
    ensures
        r <==> a@ == b@,
{
    if a.len() != b.len() {
        assert(a@.len() != b@.len());
        return false;
    }
    let n = a.len();
    let mut i: usize = 0;
    while i < n
        invariant
            n == a@.len() == b@.len(),
            i <= n,
            forall|j: int| 0 <= j < i ==> a@[j] == b@[j],
        decreases n - i,
    {
        if a[i] != b[i] {
            assert(a@[i as int] != b@[i as int]);
            return false;
        }
        i += 1;
    }
    assert(a@ =~= b@);
    true
}

} // verus!
