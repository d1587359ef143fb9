//! The tagged operations the processor dispatches, and their wire encoding:
//! a one-byte tag followed by the payload — a length-prefixed UTF-8 string
//! for the value-setting operations, a 32-byte address for the authority
//! operations.

use vstd::prelude::*;

use crate::addr::Address;
use crate::codec::copy_range;
use vstd::utf8::valid_utf8;

verus! {

pub struct SetValueArgs {
    pub value: String,
}

pub struct AppendValueArgs {
    pub value: String,
}

pub struct AddAuthorityArgs {
    pub new_authority: Address,
}

pub struct RemoveAuthorityArgs {
    pub authority: Address,
}

/// The six operations of the store.
pub enum OnchainMetadataInstructions {
    Initialize,
    Close,
    SetValue(SetValueArgs),
    AppendValue(AppendValueArgs),
    AddAuthority(AddAuthorityArgs),
    RemoveAuthority(RemoveAuthorityArgs),
}

/// The shape of an operation: each payload as its bytes on the wire.
#[verifier::ext_equal]
pub enum InstructionV {
    Initialize,
    Close,
    SetValue(Seq<u8>),
    AppendValue(Seq<u8>),
    AddAuthority(Seq<u8>),
    RemoveAuthority(Seq<u8>),
}

/// The shape of an operation value; a value payload is its UTF-8 bytes.
pub open spec fn iv(i: OnchainMetadataInstructions) -> InstructionV {
    match i {
        OnchainMetadataInstructions::Initialize => InstructionV::Initialize,
        OnchainMetadataInstructions::Close => InstructionV::Close,
        OnchainMetadataInstructions::SetValue(a) => InstructionV::SetValue(
            vstd::utf8::encode_utf8(a.value@),
        ),
        OnchainMetadataInstructions::AppendValue(a) => InstructionV::AppendValue(
            vstd::utf8::encode_utf8(a.value@),
        ),
        OnchainMetadataInstructions::AddAuthority(a) => InstructionV::AddAuthority(
            a.new_authority@,
        ),
        OnchainMetadataInstructions::RemoveAuthority(a) => InstructionV::RemoveAuthority(
            a.authority@,
        ),
    }
}

/// Four little-endian bytes of `n`.
pub open spec fn le4(n: int) -> Seq<u8> {
    seq![
        (n % 256) as u8,
        ((n / 256) % 256) as u8,
        ((n / 65536) % 256) as u8,
        ((n / 16777216) % 256) as u8,
    ]
}

/// The wire encoding of an operation.
pub open spec fn instr_enc(i: InstructionV) -> Seq<u8> {
    match i {
        InstructionV::Initialize => seq![0u8],
        InstructionV::Close => seq![1u8],
        InstructionV::SetValue(b) => seq![2u8] + le4(b.len() as int) + b,
        InstructionV::AppendValue(b) => seq![3u8] + le4(b.len() as int) + b,
        InstructionV::AddAuthority(k) => seq![4u8] + k,
        InstructionV::RemoveAuthority(k) => seq![5u8] + k,
    }
}

/// Reads an operation back from its wire encoding: string payloads must be
/// valid UTF-8 of the prefixed length, address payloads exactly 32 bytes.
pub open spec fn instr_dec(d: Seq<u8>) -> Option<InstructionV> {
    if d.len() == 0 {
        None
    } else if d[0] == 0 {
        if d.len() == 1 {
            Some(InstructionV::Initialize)
        } else {
            None
        }
    } else if d[0] == 1 {
        if d.len() == 1 {
            Some(InstructionV::Close)
        } else {
            None
        }
    } else if d[0] == 2 || d[0] == 3 {
        if d.len() < 5 {
            None
        } else {
            let n = d[1] as int + 256 * (d[2] as int) + 65536 * (d[3] as int) + 16777216 * (
            d[4] as int);
            if d.len() != 5 + n || !valid_utf8(d.skip(5)) {
                None
            } else if d[0] == 2 {
                Some(InstructionV::SetValue(d.skip(5)))
            } else {
                Some(InstructionV::AppendValue(d.skip(5)))
            }
        }
    } else if d[0] == 4 || d[0] == 5 {
        if d.len() != 33 {
            None
        } else if d[0] == 4 {
            Some(InstructionV::AddAuthority(d.skip(1)))
        } else {
            Some(InstructionV::RemoveAuthority(d.skip(1)))
        }
    } else {
        None
    }
}

/// Relies on `String::from_utf8` of std: it succeeds exactly on valid UTF-8
/// bytes and the string keeps those bytes.
#[verifier::external_body]
fn bytes_to_string(v: Vec<u8>) -> (r: Option<String>)
    ensures
        match r {
            Some(s) => vstd::utf8::encode_utf8(s@) == v@ && valid_utf8(v@),
            None => !valid_utf8(v@),
        },
{
    String::from_utf8(v).ok()
}

/// Copies 32 bytes starting at `at` into an address.
#[verifier::loop_isolation(false)]
fn read_address(d: &Vec<u8>, at: usize) -> (r: Address)
    requires
        at + 32 <= d@.len(),
    ensures
        r@ == d@.subrange(at as int, at + 32),
{
    let mut bytes = [0u8; 32];
    let dlen = d.len();
    let mut q: usize = 0;
    while q < 32
        invariant
            0 <= q <= 32,
            at + 32 <= dlen == d@.len(),
            bytes@.len() == 32,
            forall|p: int| 0 <= p < q ==> bytes@[p] == d@[at + p],
        decreases 32 - q,
    {
        bytes[q] = d[at + q];
        q += 1;
    }
    let a = Address { bytes };
    proof {
        assert(a@ =~= d@.subrange(at as int, at + 32));
    }
    a
}

/// Reads an operation from its wire encoding, exactly as [`instr_dec`] says.
pub fn decode_instruction(data: &Vec<u8>) -> (r: Option<OnchainMetadataInstructions>)
    ensures
        match r {
            Some(i) => instr_dec(data@) == Some(iv(i)),
            None => instr_dec(data@) is None,
        },
{
    if data.len() == 0 {
        return None;
    }
    let tag = data[0];
    if tag == 0 {
        if data.len() == 1 {
            Some(OnchainMetadataInstructions::Initialize)
        } else {
            None
        }
    } else if tag == 1 {
        if data.len() == 1 {
            Some(OnchainMetadataInstructions::Close)
        } else {
            None
        }
    } else if tag == 2 || tag == 3 {
        if data.len() < 5 {
            return None;
        }
        let n64: u64 = data[1] as u64 + 256 * (data[2] as u64) + 65536 * (data[3] as u64)
            + 16777216 * (data[4] as u64);
        if (data.len() as u64) - 5 != n64 {
            proof {
                assert(data@.len() != 5 + (n64 as int));
            }
            return None;
        }
        let payload = copy_range(data, 5, data.len());
        proof {
            assert(payload@ =~= data@.skip(5));
        }
        match bytes_to_string(payload) {
            None => None,
            Some(s) => {
                if tag == 2 {
                    Some(
                        OnchainMetadataInstructions::SetValue(SetValueArgs { value: s }),
                    )
                } else {
                    Some(
                        OnchainMetadataInstructions::AppendValue(
                            AppendValueArgs { value: s },
                        ),
                    )
                }
            },
        }
    } else if tag == 4 || tag == 5 {
        if data.len() != 33 {
            return None;
        }
        let k = read_address(data, 1);
        proof {
            assert(k@ =~= data@.skip(1));
        }
        if tag == 4 {
            Some(
                OnchainMetadataInstructions::AddAuthority(
                    AddAuthorityArgs { new_authority: k },
                ),
            )
        } else {
            Some(
                OnchainMetadataInstructions::RemoveAuthority(
                    RemoveAuthorityArgs { authority: k },
                ),
            )
        }
    } else {
        None
    }
}

/// Writes an operation in its wire encoding; nothing when a value payload
/// is too long for its four-byte length field.
#[verifier::loop_isolation(false)]
pub fn encode_instruction(i: &OnchainMetadataInstructions) -> (r: Option<Vec<u8>>)
    ensures
        match r {
            Some(v) => v@ == instr_enc(iv(*i)),
            None => match iv(*i) {
                InstructionV::SetValue(b) => b.len() >= 4294967296,
                InstructionV::AppendValue(b) => b.len() >= 4294967296,
                _ => false,
            },
        },
{
    let mut out: Vec<u8> = Vec::new();
    match i {
        OnchainMetadataInstructions::Initialize => {
            out.push(0);
            proof {
                assert(out@ =~= instr_enc(iv(*i)));
            }
            Some(out)
        },
        OnchainMetadataInstructions::Close => {
            out.push(1);
            proof {
                assert(out@ =~= instr_enc(iv(*i)));
            }
            Some(out)
        },
        OnchainMetadataInstructions::SetValue(a) => {
            out.push(2);
            match push_value_payload(&a.value, &mut out) {
                true => {
                    proof {
                        assert(out@ =~= instr_enc(iv(*i)));
                    }
                    Some(out)
                },
                false => None,
            }
        },
        OnchainMetadataInstructions::AppendValue(a) => {
            out.push(3);
            match push_value_payload(&a.value, &mut out) {
                true => {
                    proof {
                        assert(out@ =~= instr_enc(iv(*i)));
                    }
                    Some(out)
                },
                false => None,
            }
        },
        OnchainMetadataInstructions::AddAuthority(a) => {
            out.push(4);
            push_address(&a.new_authority, &mut out);
            proof {
                assert(out@ =~= instr_enc(iv(*i)));
            }
            Some(out)
        },
        OnchainMetadataInstructions::RemoveAuthority(a) => {
            out.push(5);
            push_address(&a.authority, &mut out);
            proof {
                assert(out@ =~= instr_enc(iv(*i)));
            }
            Some(out)
        },
    }
}

/// Appends the length-prefixed UTF-8 bytes of `value`; false when the
/// length does not fit four bytes.
#[verifier::loop_isolation(false)]
fn push_value_payload(value: &String, out: &mut Vec<u8>) -> (ok: bool)
    ensures
        ok ==> final(out)@ == old(out)@ + le4(vstd::utf8::encode_utf8(value@).len() as int)
            + vstd::utf8::encode_utf8(value@),
        !ok ==> vstd::utf8::encode_utf8(value@).len() >= 4294967296 && final(out)@ == old(
            out,
        )@,
{
    let bytes = value.as_str().as_bytes_vec();
    if (bytes.len() as u64) >= 4294967296 {
        return false;
    }
    let n = bytes.len();
    out.push((n % 256) as u8);
    out.push(((n / 256) % 256) as u8);
    out.push(((n / 65536) % 256) as u8);
    out.push(((n / 16777216) % 256) as u8);
    let mut i: usize = 0;
    while i < bytes.len()
        invariant
            0 <= i <= bytes@.len(),
            out@ == old(out)@ + le4(bytes@.len() as int) + bytes@.subrange(0, i as int),
        decreases bytes@.len() - i,
    {
        out.push(bytes[i]);
        proof {
            assert(out@ =~= old(out)@ + le4(bytes@.len() as int) + bytes@.subrange(
                0,
                i + 1 as int,
            ));
        }
        i += 1;
    }
    proof {
        assert(out@ =~= old(out)@ + le4(bytes@.len() as int) + bytes@);
    }
    true
}

/// Appends the 32 bytes of an address.
#[verifier::loop_isolation(false)]
fn push_address(a: &Address, out: &mut Vec<u8>)
    ensures
        final(out)@ == old(out)@ + a@,
{
    let mut q: usize = 0;
    while q < 32
        invariant
            0 <= q <= 32,
            out@ == old(out)@ + a@.subrange(0, q as int),
        decreases 32 - q,
    {
        out.push(a.bytes[q]);
        proof {
            assert(out@ =~= old(out)@ + a@.subrange(0, q + 1 as int));
        }
        q += 1;
    }
    proof {
        assert(out@ =~= old(out)@ + a@);
    }
}

} // verus!
