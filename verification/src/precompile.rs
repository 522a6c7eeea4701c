//! The precompile dispatch framework: fixed reserved addresses, a minimum
//! gas cost plus a linear cost in the input length, and inline execution
//! bypassing bytecode interpretation.

use vstd::prelude::*;

use crate::types::{clone_bytes, Amount, ExitSucceed, H160};

verus! {

/// The call context a precompile sees.
pub struct Context {
    pub address: H160,
    pub caller: H160,
    pub apparent_value: Amount,
}

/// A precompile's failure: the supplied gas limit is below its cost.
#[derive(Debug)]
pub enum PrecompileFailure {
    OutOfGas,
}

/// A precompile's successful result.
pub struct PrecompileOutput {
    pub exit_status: ExitSucceed,
    pub output: Vec<u8>,
}

/// A reserved address: 19 zero bytes and a distinguishing tag.
pub open spec fn precompile_address_spec(tag: u8) -> Seq<u8> {
    Seq::new(20, |i: int| if i == 19 { tag } else { 0u8 })
}

pub fn precompile_address(tag: u8) -> (r: H160)
    ensures
        r@ == precompile_address_spec(tag),
        r.wf(),
{
    let mut v: Vec<u8> = Vec::new();
    let mut i: usize = 0;
    while i < 19
        invariant
            i <= 19,
            v@.len() == i,
            forall|j: int| 0 <= j < i ==> v@[j] == 0u8,
        decreases 19 - i,
    {
        v.push(0u8);
        i += 1;
    }
    v.push(tag);
    let r = H160 { v };
    assert(r@ =~= precompile_address_spec(tag));
    r
}

/// The cell-lookup precompile: fixed-plus-linear cost, output echoes input.
pub struct GetCell;

impl GetCell {
    pub const MIN_GAS: u64 = 15;

    /// This precompile's reserved address.
    pub fn address() -> (r: H160)
        ensures
            r@ == precompile_address_spec(4),
            r.wf(),
    {
        precompile_address(0x04)
    }

    /// Minimum cost plus three gas per started 32-byte word of input.
    pub open spec fn gas_cost_spec(len: nat) -> nat {
        ((len + 31) / 32) * 3 + 15
    }

    pub fn gas_cost(input: &Vec<u8>) -> (r: u64)
        requires
            input@.len() + 31 <= u64::MAX,
        ensures
            r == Self::gas_cost_spec(input@.len()),
    {
        let data_word_size = (input.len() as u64 + 31) / 32;
        data_word_size * 3 + Self::MIN_GAS
    }

    /// Echo the input; fail exactly when a supplied gas limit is below the
    /// computed cost.
    pub fn exec_fn(
        input: &Vec<u8>,
        gas_limit: Option<u64>,
        _context: &Context,
        _is_static: bool,
    ) -> (r: Result<(PrecompileOutput, u64), PrecompileFailure>)
        requires
            input@.len() + 31 <= u64::MAX,
        ensures
            (match r {
                Ok((out, g)) => g == Self::gas_cost_spec(input@.len()) && out.output@ == input@
                    && out.exit_status is Returned && (gas_limit matches Some(l) ==> g <= l),
                Err(_) => (gas_limit matches Some(l) && Self::gas_cost_spec(input@.len()) > l),
            }),
    {
        let gas = Self::gas_cost(input);
        if let Some(limit) = gas_limit {
            if gas > limit {
                return Err(PrecompileFailure::OutOfGas);
            }
        }
        Ok((PrecompileOutput { exit_status: ExitSucceed::Returned, output: clone_bytes(input) }, gas))
    }
}

/// The fixed table of precompile addresses handed to the machine.
pub struct PrecompileSet {
    pub addresses: Vec<H160>,
}

pub fn build_precompile_set() -> (r: PrecompileSet)
    ensures
        r.addresses@.len() == 1,
        r.addresses@[0]@ == precompile_address_spec(4),
{
    let mut addresses: Vec<H160> = Vec::new();
    addresses.push(GetCell::address());
    PrecompileSet { addresses }
}

} // verus!
