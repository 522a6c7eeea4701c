//! The hardfork gate: a process-wide feature-bit snapshot, replaced
//! atomically as a whole and read without locks. The snapshot lives in an
//! atomically swappable cell; readers always see the most recently completed
//! swap and never a partial update.

use vstd::prelude::*;

verus! {

/// Named protocol rule changes, each gated by one feature bit.
pub enum HardforkName {
    Andromeda,
}

impl HardforkName {
    /// The feature bit of this hardfork.
    pub open spec fn flag_spec(&self) -> u64 {
        match self {
            HardforkName::Andromeda => 1,
        }
    }

    pub fn flag(&self) -> (r: u64)
        ensures
            r == self.flag_spec(),
    {
        match self {
            HardforkName::Andromeda => 1,
        }
    }
}

/// Holds the atomically swappable snapshot cell. The cell's concrete
/// strategy type is crate-private in arc_swap, so the holder is opaque and
/// its contents are named by `gate_bits`.
#[verifier::external_body]
pub struct HardforkGate {
    cell: arc_swap::ArcSwap<u64>,
}

pub uninterp spec fn gate_bits(g: HardforkGate) -> u64;

impl HardforkGate {
    /// Relies on arc_swap::ArcSwapAny::from_pointee: the cell starts out
    /// holding exactly the given value.
    #[verifier::external_body]
    pub fn new(bits: u64) -> (g: Self)
        ensures
            gate_bits(g) == bits,
    {
        HardforkGate { cell: arc_swap::ArcSwap::from_pointee(bits) }
    }

    /// Relies on arc_swap::ArcSwapAny::store: the whole snapshot is replaced
    /// atomically; no reader observes a partial update.
    #[verifier::external_body]
    pub fn swap(&mut self, bits: u64)
        ensures
            gate_bits(*final(self)) == bits,
    {
        self.cell.store(std::sync::Arc::new(bits));
    }

    /// Relies on arc_swap::ArcSwapAny::load_full: a read returns the value
    /// of the most recently completed store.
    #[verifier::external_body]
    pub fn load(&self) -> (r: u64)
        ensures
            r == gate_bits(*self),
    {
        *self.cell.load_full()
    }
}

/// Whether the snapshot has the hardfork's feature bit set.
pub open spec fn hardfork_enabled(bits: u64, name: HardforkName) -> bool {
    bits & name.flag_spec() == name.flag_spec()
}

/// Test one hardfork's bit against the current snapshot.
pub fn enable_hardfork(gate: &HardforkGate, name: HardforkName) -> (r: bool)
    ensures
        r == hardfork_enabled(gate_bits(*gate), name),
{
    let flag = name.flag();
    (gate.load() & flag) == flag
}

} // verus!
