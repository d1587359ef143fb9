//! The model of ledger accounts as the processor sees them, and the
//! primitive lifecycle operations on their buffers.
//!
//! An account is an address-keyed byte buffer with an owning program and a
//! signer flag, the part of the host's account state that this program's
//! logic reads and writes. The host's funding of each buffer is its own
//! bookkeeping and stays outside the model.

use vstd::prelude::*;

use crate::addr::{Address, PROGRAM_ID, SYSTEM_PROGRAM_ID};

verus! {

/// One account handed to the processor: its address, the program owning it,
/// its byte buffer, and whether its signature was verified by the host.
pub struct Account {
    pub key: Address,
    pub owner: Address,
    pub data: Vec<u8>,
    pub is_signer: bool,
}

/// The account is unowned (held by the system program) and empty: the state
/// a record has before initialization and after closing.
pub open spec fn is_fresh(a: Account) -> bool {
    a.owner@ == SYSTEM_PROGRAM_ID@ && a.data@.len() == 0
}

/// Everything about the account but its buffer and owner is unchanged.
pub open spec fn same_identity(a: Account, b: Account) -> bool {
    a.key == b.key && a.is_signer == b.is_signer
}

/// Claims a fresh account for this program with a zero-filled buffer of
/// `size` bytes, funded by the payer to the host's minimum balance.
pub fn create_funded(a: &mut Account, size: usize)
    requires
        is_fresh(*old(a)),
    ensures
        same_identity(*final(a), *old(a)),
        final(a).owner@ == PROGRAM_ID@,
        final(a).data@ == Seq::new(size as nat, |i: int| 0u8),
{
    a.owner = Address::program_id();
    let mut buf: Vec<u8> = Vec::new();
    let mut i: usize = 0;
    while i < size
        invariant
            0 <= i <= size,
            buf@ =~= Seq::new(i as nat, |j: int| 0u8),
        decreases size - i,
    {
        buf.push(0);
        proof {
            assert(buf@ =~= Seq::new((i + 1) as nat, |j: int| 0u8));
        }
        i += 1;
    }
    a.data = buf;
}

/// Grows or shrinks the account's buffer to exactly `new_size` bytes,
/// keeping the prefix and zero-filling new bytes, the payer topping up or
/// reclaiming the host's minimum balance as needed.
#[verifier::loop_isolation(false)]
pub fn resize_record(a: &mut Account, new_size: usize)
    ensures
        same_identity(*final(a), *old(a)),
        final(a).owner == old(a).owner,
        final(a).data@.len() == new_size,
        forall|i: int|
            0 <= i < new_size ==> final(a).data@[i] == (if i < old(a).data@.len() {
                old(a).data@[i]
            } else {
                0u8
            }),
{
    if new_size <= a.data.len() {
        a.data.truncate(new_size);
    } else {
        while a.data.len() < new_size
            invariant
                old(a).data@.len() <= a.data@.len() <= new_size,
                a.key == old(a).key,
                a.owner == old(a).owner,
                a.is_signer == old(a).is_signer,
                forall|i: int|
                    0 <= i < a.data@.len() ==> a.data@[i] == (if i < old(a).data@.len() {
                        old(a).data@[i]
                    } else {
                        0u8
                    }),
            decreases new_size - a.data@.len(),
        {
            a.data.push(0);
        }
    }
}

/// Overwrites the account's buffer with `bytes`, which must fill it.
#[verifier::loop_isolation(false)]
pub fn overwrite_data(a: &mut Account, bytes: &Vec<u8>)
    requires
        old(a).data@.len() == bytes@.len(),
    ensures
        same_identity(*final(a), *old(a)),
        final(a).owner == old(a).owner,
        final(a).data@ == bytes@,
{
    let mut i: usize = 0;
    while i < bytes.len()
        invariant
            0 <= i <= bytes@.len(),
            a.data@.len() == bytes@.len(),
            a.key == old(a).key,
            a.owner == old(a).owner,
            a.is_signer == old(a).is_signer,
            forall|j: int| 0 <= j < i ==> a.data@[j] == bytes@[j],
        decreases bytes@.len() - i,
    {
        let b = bytes[i];
        a.data.set(i, b);
        i += 1;
    }
    proof {
        assert(a.data@ =~= bytes@);
    }
}

/// Zeroes and releases the account: its buffer becomes empty, its backing
/// funds go to the beneficiary, and ownership returns to the system program.
pub fn close_and_reclaim(a: &mut Account)
    ensures
        same_identity(*final(a), *old(a)),
        final(a).owner@ == SYSTEM_PROGRAM_ID@,
        final(a).data@.len() == 0,
        is_fresh(*final(a)),
{
    a.data = Vec::new();
    a.owner = Address::system_program_id();
}

} // verus!
