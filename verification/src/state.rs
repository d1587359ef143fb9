//! The persisted metadata record and its fixed binary layout.
//!
//! A metadata record is stored as `bump` (one byte), `mutable` (one byte,
//! `0` or `1`), the authority count (four bytes, little endian) and the
//! authorities themselves, 32 bytes each, in grant order.

use vstd::prelude::*;

use crate::addr::Address;

verus! {

/// The metadata record bound to a JSON record: the derivation bump seed, a
/// reserved mutability toggle, and the addresses permitted to mutate the
/// pair, in grant order, duplicates allowed.
pub struct JsonMetadata {
    pub bump: u8,
    pub mutable: bool,
    pub authorities: Vec<Address>,
}

/// The shape of a metadata record.
#[verifier::ext_equal]
pub struct JsonMetadataV {
    pub bump: u8,
    pub mutable: bool,
    pub authorities: Seq<Seq<u8>>,
}

impl View for JsonMetadata {
    type V = JsonMetadataV;

    open spec fn view(&self) -> JsonMetadataV {
        JsonMetadataV {
            bump: self.bump,
            mutable: self.mutable,
            authorities: Seq::new(self.authorities@.len(), |i: int| self.authorities@[i]@),
        }
    }
}

/// The 32-byte keys of `ks`, laid end to end.
pub open spec fn keys_bytes(ks: Seq<Seq<u8>>) -> Seq<u8> {
    Seq::new(32 * ks.len(), |b: int| ks[b / 32][b % 32])
}

/// The byte layout of a metadata record.
pub open spec fn meta_enc(m: JsonMetadataV) -> Seq<u8> {
    seq![
        m.bump,
        if m.mutable {
            1u8
        } else {
            0u8
        },
        (m.authorities.len() % 256) as u8,
        ((m.authorities.len() / 256) % 256) as u8,
        ((m.authorities.len() / 65536) % 256) as u8,
        ((m.authorities.len() / 16777216) % 256) as u8,
    ] + keys_bytes(m.authorities)
}

/// Reads a metadata record back from its byte layout: the one record whose
/// layout the bytes are, or nothing when they are no record's layout.
pub open spec fn meta_dec(d: Seq<u8>) -> Option<JsonMetadataV> {
    if d.len() < 6 {
        None
    } else if d[1] != 0 && d[1] != 1 {
        None
    } else {
        let n = d[2] as int + 256 * (d[3] as int) + 65536 * (d[4] as int) + 16777216 * (
        d[5] as int);
        if d.len() != 6 + 32 * n {
            None
        } else {
            Some(
                JsonMetadataV {
                    bump: d[0],
                    mutable: d[1] == 1,
                    authorities: Seq::new(
                        n as nat,
                        |i: int| d.subrange(6 + 32 * i, 6 + 32 * i + 32),
                    ),
                },
            )
        }
    }
}

/// Every authority is a 32-byte address and the count fits its four-byte
/// field. Views of [`JsonMetadata`] values always satisfy the first part;
/// decoded records satisfy both.
pub open spec fn wf_meta(m: JsonMetadataV) -> bool {
    &&& m.authorities.len() < 4294967296
    &&& forall|i: int|
        0 <= i < m.authorities.len() ==> (#[trigger] m.authorities[i]).len() == 32
}

/// Encoding then decoding a well-formed record gives the record back.
pub proof fn lemma_meta_round_trip(m: JsonMetadataV)
    requires
        wf_meta(m),
    ensures
        meta_dec(meta_enc(m)) == Some(m),
{
    let d = meta_enc(m);
    let n = m.authorities.len() as int;
    assert(keys_bytes(m.authorities).len() == 32 * n);
    assert(d.len() == 6 + 32 * n);
    assert(d[2] as int + 256 * (d[3] as int) + 65536 * (d[4] as int) + 16777216 * (
    d[5] as int) == n) by {
        assert(d[2] == (n % 256) as u8);
        assert(d[3] == ((n / 256) % 256) as u8);
        assert(d[4] == ((n / 65536) % 256) as u8);
        assert(d[5] == ((n / 16777216) % 256) as u8);
        assert(n == n % 256 + 256 * ((n / 256) % 256) + 65536 * ((n / 65536) % 256) + 16777216
            * ((n / 16777216) % 256)) by (nonlinear_arith)
            requires
                0 <= n < 4294967296,
        ;
    }
    let m2 = meta_dec(d).unwrap();
    assert(m2.authorities =~~= m.authorities) by {
        assert forall|i: int| 0 <= i < n implies m2.authorities[i] =~= m.authorities[i] by {
            assert forall|q: int| 0 <= q < 32 implies d.subrange(6 + 32 * i, 6 + 32 * i + 32)[q]
                == m.authorities[i][q] by {
                assert(d[6 + 32 * i + q] == keys_bytes(m.authorities)[32 * i + q]);
                assert((32 * i + q) / 32 == i && (32 * i + q) % 32 == q) by (nonlinear_arith)
                    requires
                        0 <= i && 0 <= q < 32,
                ;
            }
        }
    }
    assert(m2 =~~= m);
}

/// A decoded record is well formed and encodes back to the same bytes.
pub proof fn lemma_meta_dec_exact(d: Seq<u8>, m: JsonMetadataV)
    requires
        meta_dec(d) == Some(m),
    ensures
        wf_meta(m),
        meta_enc(m) == d,
{
    let n = d[2] as int + 256 * (d[3] as int) + 65536 * (d[4] as int) + 16777216 * (
    d[5] as int);
    assert(n < 4294967296);
    assert(m.authorities.len() == n);
    assert(meta_enc(m) =~= d) by {
        assert((m.authorities.len() % 256) as u8 == d[2] && ((m.authorities.len() / 256)
            % 256) as u8 == d[3] && ((m.authorities.len() / 65536) % 256) as u8 == d[4] && ((
        m.authorities.len() / 16777216) % 256) as u8 == d[5]) by {
            assert(n % 256 == d[2] as int && (n / 256) % 256 == d[3] as int && (n / 65536) % 256
                == d[4] as int && (n / 16777216) % 256 == d[5] as int) by (nonlinear_arith)
                requires
                    n == d[2] as int + 256 * (d[3] as int) + 65536 * (d[4] as int) + 16777216 * (
                    d[5] as int),
                    0 <= (d[2] as int) && (d[2] as int) < 256,
                    0 <= (d[3] as int) && (d[3] as int) < 256,
                    0 <= (d[4] as int) && (d[4] as int) < 256,
                    0 <= (d[5] as int) && (d[5] as int) < 256,
            ;
        }
        assert forall|b: int| 0 <= b < 32 * n implies keys_bytes(m.authorities)[b] == d[6 + b] by {
            let i = b / 32;
            let q = b % 32;
            assert(0 <= i < n && 0 <= q < 32 && b == 32 * i + q) by (nonlinear_arith)
                requires
                    0 <= b < 32 * n,
                    i == b / 32,
                    q == b % 32,
            ;
            assert(m.authorities[i] == d.subrange(6 + 32 * i, 6 + 32 * i + 32));
            assert(m.authorities[i][q] == d[6 + 32 * i + q]);
        }
    }
}

/// Writes a metadata record in its byte layout.
#[verifier::loop_isolation(false)]
pub fn serialize_metadata(m: &JsonMetadata) -> (r: Vec<u8>)
    requires
        m.authorities@.len() < 4294967296,
    ensures
        r@ == meta_enc(m@),
{
    let mut out: Vec<u8> = Vec::new();
    out.push(m.bump);
    out.push(if m.mutable { 1 } else { 0 });
    let n = m.authorities.len();
    out.push((n % 256) as u8);
    out.push(((n / 256) % 256) as u8);
    out.push(((n / 65536) % 256) as u8);
    out.push(((n / 16777216) % 256) as u8);
    let ghost head = out@;
    let mut i: usize = 0;
    while i < n
        invariant
            0 <= i <= n,
            n == m.authorities@.len(),
            out@.len() == head.len() + 32 * i,
            out@ == head + keys_bytes(m@.authorities).subrange(0, 32 * i as int),
        decreases n - i,
    {
        let a = &m.authorities[i];
        let mut q: usize = 0;
        while q < 32
            invariant
                0 <= q <= 32,
                0 <= i < n,
                out@.len() == head.len() + 32 * i + q,
                out@ == head + keys_bytes(m@.authorities).subrange(0, 32 * i + q as int),
                a == &m.authorities@[i as int],
            decreases 32 - q,
        {
            out.push(a.bytes[q]);
            proof {
                let kb = keys_bytes(m@.authorities);
                assert((32 * i + q as int) / 32 == i as int && (32 * i + q as int) % 32
                    == q as int) by (nonlinear_arith)
                    requires
                        0 <= i,
                        0 <= q < 32,
                ;
                assert(kb[32 * i + q as int] == m@.authorities[i as int][q as int]);
                assert(out@ =~= head + kb.subrange(0, 32 * i + (q + 1) as int));
            }
            q += 1;
        }
        i += 1;
    }
    proof {
        assert(out@ =~= meta_enc(m@));
    }
    out
}

/// Reads a metadata record from its byte layout, exactly as [`meta_dec`]
/// says: the record whose layout `d` is, or nothing.
#[verifier::loop_isolation(false)]
pub fn deserialize_metadata(d: &Vec<u8>) -> (r: Option<JsonMetadata>)
    ensures
        match r {
            Some(m) => meta_dec(d@) == Some(m@) && m.authorities@.len() < 4294967296,
            None => meta_dec(d@) is None,
        },
{
    if d.len() < 6 {
        return None;
    }
    if d[1] != 0 && d[1] != 1 {
        return None;
    }
    let n64: u64 = d[2] as u64 + 256 * (d[3] as u64) + 65536 * (d[4] as u64) + 16777216 * (
    d[5] as u64);
    if (d.len() as u64) < 6 || (d.len() as u64) - 6 != 32 * n64 {
        proof {
            assert(d@.len() != 6 + 32 * (n64 as int));
        }
        return None;
    }
    let n = (d.len() - 6) / 32;
    proof {
        assert(n == n64) by (nonlinear_arith)
            requires
                d@.len() == 6 + 32 * (n64 as int),
                n == ((d@.len() - 6) as int) / 32,
        ;
    }
    let mut authorities: Vec<Address> = Vec::new();
    let mut i: usize = 0;
    while i < n
        invariant
            0 <= i <= n,
            6 + 32 * n <= d@.len(),
            authorities@.len() == i,
            forall|m: int|
                0 <= m < i ==> (#[trigger] authorities@[m])@ == d@.subrange(
                    6 + 32 * m,
                    6 + 32 * m + 32,
                ),
        decreases n - i,
    {
        let mut bytes = [0u8; 32];
        let mut q: usize = 0;
        proof {
            assert(32 * i + 32 <= 32 * n) by (nonlinear_arith)
                requires
                    i < n,
            ;
        }
        while q < 32
            invariant
                0 <= q <= 32,
                0 <= i < n,
                6 + 32 * i + 32 <= d@.len(),
                bytes@.len() == 32,
                forall|p: int| 0 <= p < q ==> bytes@[p] == d@[6 + 32 * i + p],
            decreases 32 - q,
        {
            bytes[q] = d[6 + 32 * i + q];
            q += 1;
        }
        let a = Address { bytes };
        proof {
            assert(a@ =~= d@.subrange(6 + 32 * i as int, 6 + 32 * i + 32 as int));
        }
        authorities.push(a);
        i += 1;
    }
    let m = JsonMetadata { bump: d[0], mutable: d[1] == 1, authorities };
    proof {
        let spec_m = meta_dec(d@).unwrap();
        assert(m@.authorities =~~= spec_m.authorities);
        assert(m@ =~~= spec_m);
    }
    Some(m)
}

} // verus!
