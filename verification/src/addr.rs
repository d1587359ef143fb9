//! Fixed-width ledger addresses and the well-known address constants.

use vstd::prelude::*;

verus! {

/// The address of this program on the host ledger.
pub const PROGRAM_ID: [u8; 32] = [
    10, 251, 215, 83, 224, 97, 119, 253, 35, 144, 181, 136, 199, 104, 250, 56, 24, 48, 221, 240,
    217, 209, 241, 197, 157, 68, 33, 198, 161, 50, 153, 41,
];

/// The well-known address of the host's default (system) program. Accounts
/// not yet claimed by any program are owned by it.
pub const SYSTEM_PROGRAM_ID: [u8; 32] = [
    0, 0, 0, 0, 0, 0, 0, 0, 0, 0, 0, 0, 0, 0, 0, 0, 0, 0, 0, 0, 0, 0, 0, 0, 0, 0, 0, 0, 0, 0, 0,
    0,
];

/// A fixed-width identifier locating a record in the host ledger's storage.
#[derive(Clone, Copy, Debug)]
pub struct Address {
    pub bytes: [u8; 32],
}

impl View for Address {
    type V = Seq<u8>;

    open spec fn view(&self) -> Seq<u8> {
        self.bytes@
    }
}

impl Address {
    pub fn new(bytes: [u8; 32]) -> (r: Address)
        ensures
            r@ == bytes@,
    {
        Address { bytes }
    }

    /// The program's own address.
    pub fn program_id() -> (r: Address)
        ensures
            r@ == PROGRAM_ID@,
    {
        Address { bytes: PROGRAM_ID }
    }

    /// The host's default (system) program address.
    pub fn system_program_id() -> (r: Address)
        ensures
            r@ == SYSTEM_PROGRAM_ID@,
    {
        Address { bytes: SYSTEM_PROGRAM_ID }
    }
}

/// Byte-for-byte equality of two addresses.
pub fn addr_eq(a: &Address, b: &Address) -> (r: bool)
    ensures
        r == (a@ == b@),
{
    let mut i: usize = 0;
    while i < 32
        invariant
            0 <= i <= 32,
            forall|j: int| 0 <= j < i ==> a.bytes@[j] == b.bytes@[j],
        decreases 32 - i,
    {
        if a.bytes[i] != b.bytes[i] {
            assert(a@ != b@);
            return false;
        }
        i += 1;
    }
    proof {
        assert(a@ =~= b@);
    }
    true
}

} // verus!
