//! The plain values that the leasing system works on.

use vstd::prelude::*;

verus! {

/// Unique identifier of a para, that is of a parachain or parathread.
pub type ParaId = u32;

/// The number of a block; also the unit in which lease periods are counted.
pub type BlockNumber = u32;

/// The index of a lease period.
pub type LeasePeriod = BlockNumber;

/// An amount of the currency that leases are paid for with.
pub type Balance = u128;

/// An additional ID by which one account can have several logical bidders.
pub type SubId = u32;

/// The cost of executing a call.
pub type Weight = u64;

/// A parachain's validation code, as Wasm.
#[derive(Clone, PartialEq, Eq, Debug)]
pub struct ValidationCode(pub Vec<u8>);

impl View for ValidationCode {
    type V = Seq<u8>;

    open spec fn view(&self) -> Seq<u8> {
        self.0@
    }
}

impl From<Vec<u8>> for ValidationCode {
    fn from(code: Vec<u8>) -> (result: Self) {
        ValidationCode(code)
    }
}

impl vstd::std_specs::convert::FromSpecImpl<Vec<u8>> for ValidationCode {
    open spec fn obeys_from_spec() -> bool {
        true
    }

    open spec fn from_spec(code: Vec<u8>) -> Self {
        ValidationCode(code)
    }
}

/// A parachain's head data.
#[derive(Clone, PartialEq, Eq, Debug)]
pub struct HeadData(pub Vec<u8>);

impl View for HeadData {
    type V = Seq<u8>;

    open spec fn view(&self) -> Seq<u8> {
        self.0@
    }
}

impl From<Vec<u8>> for HeadData {
    fn from(data: Vec<u8>) -> (result: Self) {
        HeadData(data)
    }
}

impl vstd::std_specs::convert::FromSpecImpl<Vec<u8>> for HeadData {
    open spec fn obeys_from_spec() -> bool {
        true
    }

    open spec fn from_spec(data: Vec<u8>) -> Self {
        HeadData(data)
    }
}

} // verus!
