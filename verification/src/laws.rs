//! The general laws of the store, each proved from the contracts in the
//! other modules: the merge-patch laws, the authorization gate, the
//! lifecycle laws of Initialize and Close, and the authority round trip.

use vstd::prelude::*;

use crate::codec::{
    lemma_parse_inverts_serialize, ser_v, spec_parse, uniq_keys, wf_entries, wf_str, wf_v,
};
use crate::error::{OnchainMetadataError, ProgramFailure};
use crate::json::{
    get_or_null, has_key, key_idx, lemma_key_idx, merge_entries, merge_v, remove_key, set_key,
    JsonV,
};
use crate::processor::{
    add_authority_err, auth_guard_err, derivation_ok, guard_err, init_err, init_meta_v,
    is_fresh_v, is_live_v, remove_all, set_value_err, AccountV,
};
use crate::state::{meta_dec, meta_enc, wf_meta};

verus! {

/// `key_idx` is the only index satisfying the first-occurrence description.
proof fn lemma_key_idx_is(es: Seq<(Seq<u8>, JsonV)>, k: Seq<u8>, r: int)
    requires
        0 <= r < es.len(),
        es[r].0 == k,
        forall|m: int| 0 <= m < r ==> es[m].0 != k,
    ensures
        key_idx(es, k) == r,
    decreases es.len(),
{
    if r > 0 {
        let tail = es.drop_first();
        assert(forall|i: int| 1 <= i < es.len() ==> es[i] == #[trigger] tail[i - 1]);
        assert(forall|m: int| 0 <= m < r - 1 ==> tail[m].0 == es[m + 1].0);
        lemma_key_idx_is(tail, k, r - 1);
    }
}

/// No entry has key `k`, so `key_idx` finds nothing.
proof fn lemma_key_idx_none(es: Seq<(Seq<u8>, JsonV)>, k: Seq<u8>)
    requires
        forall|m: int| 0 <= m < es.len() ==> (#[trigger] es[m]).0 != k,
    ensures
        key_idx(es, k) == -1,
{
    lemma_key_idx(es, k);
}

/// What storing under `k` does to lookups: `k` now holds `v`, every other
/// key is untouched; uniqueness of keys is kept.
pub proof fn lemma_set_key_get(es: Seq<(Seq<u8>, JsonV)>, k: Seq<u8>, v: JsonV)
    ensures
        has_key(set_key(es, k, v), k),
        get_or_null(set_key(es, k, v), k) == v,
        forall|k2: Seq<u8>|
            k2 != k ==> #[trigger] get_or_null(set_key(es, k, v), k2) == get_or_null(es, k2),
        forall|k2: Seq<u8>|
            k2 != k ==> (#[trigger] has_key(set_key(es, k, v), k2) <==> has_key(es, k2)),
        uniq_keys(es) ==> uniq_keys(set_key(es, k, v)),
{
    lemma_key_idx(es, k);
    let es2 = set_key(es, k, v);
    if has_key(es, k) {
        let r = key_idx(es, k);
        lemma_key_idx_is(es2, k, r);
    } else {
        lemma_key_idx_is(es2, k, es.len() as int);
    }
    assert forall|k2: Seq<u8>| k2 != k implies #[trigger] get_or_null(es2, k2) == get_or_null(
        es,
        k2,
    ) by {
        lemma_key_idx(es, k2);
        if has_key(es, k2) {
            lemma_key_idx_is(es2, k2, key_idx(es, k2));
        } else {
            lemma_key_idx_none(es2, k2);
        }
    }
    assert forall|k2: Seq<u8>| k2 != k implies (#[trigger] has_key(es2, k2) <==> has_key(
        es,
        k2,
    )) by {
        lemma_key_idx(es, k2);
        if has_key(es, k2) {
            lemma_key_idx_is(es2, k2, key_idx(es, k2));
        } else {
            lemma_key_idx_none(es2, k2);
        }
    }
}

/// What removing `k` does to lookups: with unique keys `k` is gone, every
/// other key is untouched; uniqueness of keys is kept.
pub proof fn lemma_remove_key_get(es: Seq<(Seq<u8>, JsonV)>, k: Seq<u8>)
    ensures
        uniq_keys(es) ==> !has_key(remove_key(es, k), k),
        forall|k2: Seq<u8>|
            k2 != k ==> #[trigger] get_or_null(remove_key(es, k), k2) == get_or_null(es, k2),
        forall|k2: Seq<u8>|
            k2 != k ==> (#[trigger] has_key(remove_key(es, k), k2) <==> has_key(es, k2)),
        uniq_keys(es) ==> uniq_keys(remove_key(es, k)),
{
    lemma_key_idx(es, k);
    let es2 = remove_key(es, k);
    if has_key(es, k) {
        let r = key_idx(es, k);
        assert(forall|m: int|
            0 <= m < es2.len() ==> (#[trigger] es2[m]) == (if m < r {
                es[m]
            } else {
                es[m + 1]
            }));
        if uniq_keys(es) {
            assert forall|m: int| 0 <= m < es2.len() implies (#[trigger] es2[m]).0 != k by {
                if m >= r {
                    assert(es[r].0 == k && es[m + 1].0 == es2[m].0);
                }
            }
            lemma_key_idx_none(es2, k);
        }
        assert forall|k2: Seq<u8>| k2 != k implies #[trigger] get_or_null(es2, k2)
            == get_or_null(es, k2) by {
            lemma_remove_key_one(es, k, k2);
        }
        assert forall|k2: Seq<u8>| k2 != k implies (#[trigger] has_key(es2, k2) <==> has_key(
            es,
            k2,
        )) by {
            lemma_remove_key_one(es, k, k2);
        }
    }
}

/// Lookup of one other key after removing `k`.
proof fn lemma_remove_key_one(es: Seq<(Seq<u8>, JsonV)>, k: Seq<u8>, k2: Seq<u8>)
    requires
        k2 != k,
        has_key(es, k),
    ensures
        get_or_null(remove_key(es, k), k2) == get_or_null(es, k2),
        has_key(remove_key(es, k), k2) <==> has_key(es, k2),
{
    lemma_key_idx(es, k);
    lemma_key_idx(es, k2);
    let es2 = remove_key(es, k);
    let r = key_idx(es, k);
    assert(forall|m: int|
        0 <= m < es2.len() ==> (#[trigger] es2[m]) == (if m < r {
            es[m]
        } else {
            es[m + 1]
        }));
    if has_key(es, k2) {
        let r2 = key_idx(es, k2);
        if r2 < r {
            lemma_key_idx_is(es2, k2, r2);
        } else {
            assert(r2 != r);
            assert(es2[r2 - 1] == es[r2]);
            lemma_key_idx_is(es2, k2, r2 - 1);
        }
    } else {
        assert(forall|m: int| 0 <= m < es2.len() ==> (#[trigger] es2[m]).0 != k2);
        lemma_key_idx_none(es2, k2);
    }
}

/// Merging an empty object patch into an object changes nothing.
pub proof fn lemma_merge_empty_patch(x: JsonV)
    requires
        x is Obj,
    ensures
        merge_v(x, JsonV::Obj(Seq::empty())) == x,
{
    assert(merge_entries(x->Obj_0, Seq::empty(), 0) == x->Obj_0);
}

/// Merging a one-entry null patch removes that key (with unique keys) and
/// leaves the lookup of every other key as it was.
pub proof fn lemma_merge_null_deletes(x: JsonV, k: Seq<u8>)
    requires
        x is Obj,
    ensures
        merge_v(x, JsonV::Obj(seq![(k, JsonV::Null)])) == JsonV::Obj(remove_key(x->Obj_0, k)),
        uniq_keys(x->Obj_0) ==> !has_key(
            merge_v(x, JsonV::Obj(seq![(k, JsonV::Null)]))->Obj_0,
            k,
        ),
        forall|k2: Seq<u8>|
            k2 != k ==> #[trigger] get_or_null(
                merge_v(x, JsonV::Obj(seq![(k, JsonV::Null)]))->Obj_0,
                k2,
            ) == get_or_null(x->Obj_0, k2),
{
    let ys = seq![(k, JsonV::Null)];
    assert(merge_entries(x->Obj_0, ys, 0) == merge_entries(remove_key(x->Obj_0, k), ys, 1));
    assert(merge_entries(remove_key(x->Obj_0, k), ys, 1) == remove_key(x->Obj_0, k));
    lemma_remove_key_get(x->Obj_0, k);
}

/// Keys the patch does not mention keep their values: merging touches no
/// other entry and never reorders what it keeps.
pub proof fn lemma_merge_untouched(
    xs: Seq<(Seq<u8>, JsonV)>,
    ys: Seq<(Seq<u8>, JsonV)>,
    i: int,
    k: Seq<u8>,
)
    requires
        forall|m: int| i <= m < ys.len() ==> (#[trigger] ys[m]).0 != k,
    ensures
        get_or_null(merge_entries(xs, ys, i), k) == get_or_null(xs, k),
        has_key(merge_entries(xs, ys, i), k) <==> has_key(xs, k),
    decreases ys.len() - i,
{
    if 0 <= i < ys.len() {
        let k0 = ys[i].0;
        let v0 = ys[i].1;
        let xs2 = if v0 is Null {
            remove_key(xs, k0)
        } else {
            set_key(xs, k0, merge_v(get_or_null(xs, k0), v0))
        };
        if v0 is Null {
            lemma_remove_key_get(xs, k0);
        } else {
            lemma_set_key_get(xs, k0, merge_v(get_or_null(xs, k0), v0));
        }
        lemma_merge_untouched(xs2, ys, i + 1, k);
    }
}

/// Merge is right-biased per key: with unique patch keys, the entry under
/// the patched key `ys[m].0` becomes the recursive merge of what was stored
/// under it with the patch's value — and is deleted where that value is
/// null.
pub proof fn lemma_merge_right_biased(
    xs: Seq<(Seq<u8>, JsonV)>,
    ys: Seq<(Seq<u8>, JsonV)>,
    i: int,
    m: int,
)
    requires
        uniq_keys(ys),
        0 <= i <= m < ys.len(),
    ensures
        ({
            let k = ys[m].0;
            let v = ys[m].1;
            if v is Null {
                uniq_keys(xs) ==> !has_key(merge_entries(xs, ys, i), k) && get_or_null(
                    merge_entries(xs, ys, i),
                    k,
                ) == JsonV::Null
            } else {
                get_or_null(merge_entries(xs, ys, i), k) == merge_v(get_or_null(xs, k), v)
            }
        }),
    decreases ys.len() - i,
{
    let k = ys[m].0;
    let v = ys[m].1;
    let k0 = ys[i].0;
    let v0 = ys[i].1;
    let xs2 = if v0 is Null {
        remove_key(xs, k0)
    } else {
        set_key(xs, k0, merge_v(get_or_null(xs, k0), v0))
    };
    if v0 is Null {
        lemma_remove_key_get(xs, k0);
    } else {
        lemma_set_key_get(xs, k0, merge_v(get_or_null(xs, k0), v0));
    }
    if m == i {
        assert forall|p: int| i + 1 <= p < ys.len() implies (#[trigger] ys[p]).0 != k by {
            assert(ys[i].0 == k && (ys[p]).0 != (ys[i]).0);
        }
        lemma_merge_untouched(xs2, ys, i + 1, k);
    } else {
        assert(k0 != k) by {
            assert((ys[i]).0 != (ys[m]).0);
        }
        lemma_merge_right_biased(xs2, ys, i + 1, m);
    }
}

/// Initialize cannot be repeated: where it succeeds, its own effect makes a
/// second Initialize on the same pair fail with `AlreadyInitialized` — and
/// the first call leaves exactly the payer as authority.
pub proof fn lemma_initialize_once(json: AccountV, meta: AccountV, payer: AccountV, system: AccountV)
    requires
        init_err(json, meta, payer, system) is None,
        payer.key.len() == 32,
    ensures
        ({
            let json2 = AccountV { owner: crate::addr::PROGRAM_ID@, data: ser_v(JsonV::Null), ..json };
            let meta2 = AccountV {
                owner: crate::addr::PROGRAM_ID@,
                data: meta_enc(
                    init_meta_v(payer.key, crate::pda::derived_of(json.key).unwrap().1),
                ),
                ..meta
            };
            &&& init_err(json2, meta2, payer, system) == Some(
                ProgramFailure::Custom(OnchainMetadataError::AlreadyInitialized),
            )
            &&& meta_dec(meta2.data) == Some(
                init_meta_v(payer.key, crate::pda::derived_of(json.key).unwrap().1),
            )
        }),
{
    let bump = crate::pda::derived_of(json.key).unwrap().1;
    let m = init_meta_v(payer.key, bump);
    assert(wf_meta(m)) by {
        assert(m.authorities.len() == 1);
        assert(m.authorities[0] == payer.key);
    }
    crate::state::lemma_meta_round_trip(m);
    assert(ser_v(JsonV::Null).len() == 4);
}

/// The authorization gate: once a record pair passes ownership, decoding,
/// derivation and signing, an operation fails with `InvalidAuthority`
/// exactly when the payer is no authority; with the payer an authority and
/// the system account right, the guard passes.
pub proof fn lemma_authorization_gate(
    json: AccountV,
    meta: AccountV,
    payer: AccountV,
    system: AccountV,
)
    requires
        is_live_v(json),
        is_live_v(meta),
        meta_dec(meta.data) is Some,
        derivation_ok(json.key, meta.key, meta_dec(meta.data).unwrap().bump),
        payer.is_signer,
    ensures
        !meta_dec(meta.data).unwrap().authorities.contains(payer.key) ==> guard_err(
            json,
            meta,
            payer,
            system,
        ) == Some(ProgramFailure::Custom(OnchainMetadataError::InvalidAuthority)),
        meta_dec(meta.data).unwrap().authorities.contains(payer.key) && system.key
            == crate::addr::SYSTEM_PROGRAM_ID@ ==> guard_err(json, meta, payer, system) is None,
        !meta_dec(meta.data).unwrap().authorities.contains(payer.key) ==> auth_guard_err(
            meta,
            payer,
            system,
        ) == Some(ProgramFailure::Custom(OnchainMetadataError::InvalidAuthority)),
        meta_dec(meta.data).unwrap().authorities.contains(payer.key) && system.key
            == crate::addr::SYSTEM_PROGRAM_ID@ ==> auth_guard_err(meta, payer, system) is None,
{
}

/// The value-setting chain owes success exactly on parseable payloads once
/// the guard passes.
pub proof fn lemma_set_value_success(
    json: AccountV,
    meta: AccountV,
    payer: AccountV,
    system: AccountV,
    vb: Seq<u8>,
)
    requires
        guard_err(json, meta, payer, system) is None,
    ensures
        spec_parse(vb) is Some ==> set_value_err(json, meta, payer, system, vb) is None,
        spec_parse(vb) is None ==> set_value_err(json, meta, payer, system, vb) == Some(
            ProgramFailure::Custom(OnchainMetadataError::InvalidJson),
        ),
{
}

/// Close finality: a closed pair is fresh again, so Initialize succeeds on
/// it anew (under the same derivation, signer and system conditions) and
/// every other operation fails with `NotInitialized`.
pub proof fn lemma_close_finality(
    json: AccountV,
    meta: AccountV,
    payer: AccountV,
    system: AccountV,
    vb: Seq<u8>,
)
    requires
        is_fresh_v(json),
        is_fresh_v(meta),
        crate::pda::derived_of(json.key) is Some,
        crate::pda::derived_of(json.key).unwrap().0 == meta.key,
        payer.is_signer,
        system.key == crate::addr::SYSTEM_PROGRAM_ID@,
    ensures
        init_err(json, meta, payer, system) is None,
        guard_err(json, meta, payer, system) == Some(
            ProgramFailure::Custom(OnchainMetadataError::NotInitialized),
        ),
        set_value_err(json, meta, payer, system, vb) == Some(
            ProgramFailure::Custom(OnchainMetadataError::NotInitialized),
        ),
        auth_guard_err(meta, payer, system) == Some(
            ProgramFailure::Custom(OnchainMetadataError::NotInitialized),
        ),
        add_authority_err(meta, payer, system) == Some(
            ProgramFailure::Custom(OnchainMetadataError::NotInitialized),
        ),
{
    assert(crate::addr::PROGRAM_ID@ != crate::addr::SYSTEM_PROGRAM_ID@) by {
        assert(crate::addr::PROGRAM_ID@[0] == 10);
        assert(crate::addr::SYSTEM_PROGRAM_ID@[0] == 0);
    }
}

/// Granting an authority and then revoking it restores the exact prior
/// list, whenever that authority was not already present.
pub proof fn lemma_add_remove_restores(ks: Seq<Seq<u8>>, a: Seq<u8>)
    requires
        !ks.contains(a),
    ensures
        remove_all(ks.push(a), a, 0) == ks,
{
    lemma_remove_all_push(ks, a, 0);
}

proof fn lemma_remove_all_push(ks: Seq<Seq<u8>>, a: Seq<u8>, i: int)
    requires
        !ks.contains(a),
        0 <= i <= ks.len(),
    ensures
        remove_all(ks.push(a), a, i) == ks.skip(i),
    decreases ks.len() - i,
{
    let p = ks.push(a);
    if i == ks.len() {
        assert(p[i] == a);
        assert(remove_all(p, a, i + 1) =~= Seq::<Seq<u8>>::empty());
        assert(ks.skip(i) =~= Seq::<Seq<u8>>::empty());
    } else {
        assert(p[i] == ks[i]);
        assert(ks[i] != a);
        lemma_remove_all_push(ks, a, i + 1);
        assert(seq![ks[i]] + ks.skip(i + 1) =~= ks.skip(i));
    }
}


/// Every entry from `i` on has a well-formed key and value.
pub open spec fn entries_all_wf(es: Seq<(Seq<u8>, JsonV)>, i: int) -> bool {
    forall|m: int|
        i <= m < es.len() ==> wf_str((#[trigger] es[m]).0) && wf_v(es[m].1)
}

/// The recursive and the pointwise readings of entry well-formedness agree.
proof fn lemma_wf_entries_iff(ms: Seq<(Seq<u8>, JsonV)>, i: int)
    requires
        0 <= i <= ms.len(),
    ensures
        wf_entries(ms, i) <==> entries_all_wf(ms, i),
    decreases ms.len() - i,
{
    if i < ms.len() {
        lemma_wf_entries_iff(ms, i + 1);
    }
}

/// Storing a well-formed entry keeps every entry well formed.
proof fn lemma_set_key_wf(es: Seq<(Seq<u8>, JsonV)>, k: Seq<u8>, v: JsonV)
    requires
        entries_all_wf(es, 0),
        wf_str(k),
        wf_v(v),
    ensures
        entries_all_wf(set_key(es, k, v), 0),
{
    lemma_key_idx(es, k);
}

/// Removing an entry keeps every entry well formed.
proof fn lemma_remove_key_wf(es: Seq<(Seq<u8>, JsonV)>, k: Seq<u8>)
    requires
        entries_all_wf(es, 0),
    ensures
        entries_all_wf(remove_key(es, k), 0),
{
    lemma_key_idx(es, k);
    if has_key(es, k) {
        let r = key_idx(es, k);
        let es2 = remove_key(es, k);
        assert forall|m: int| 0 <= m < es2.len() implies wf_str((#[trigger] es2[m]).0) && wf_v(
            es2[m].1,
        ) by {
            if m < r {
                assert(es2[m] == es[m]);
            } else {
                assert(es2[m] == es[m + 1]);
            }
        }
    }
}

/// Merging two well-formed documents gives a well-formed document.
pub proof fn lemma_merge_wf(a: JsonV, b: JsonV)
    requires
        wf_v(a),
        wf_v(b),
    ensures
        wf_v(merge_v(a, b)),
    decreases b, 1nat, 0nat,
{
    if a is Obj && b is Obj {
        let xs = a->Obj_0;
        let ys = b->Obj_0;
        lemma_wf_entries_iff(xs, 0);
        lemma_wf_entries_iff(ys, 0);
        lemma_merge_entries_wf(xs, ys, 0, b);
        lemma_wf_entries_iff(merge_entries(xs, ys, 0), 0);
    }
}

/// One fold step at a time, merging keeps entries well formed and keys
/// unique. The patch value `b` only carries the termination measure.
proof fn lemma_merge_entries_wf(
    xs: Seq<(Seq<u8>, JsonV)>,
    ys: Seq<(Seq<u8>, JsonV)>,
    i: int,
    b: JsonV,
)
    requires
        uniq_keys(xs),
        entries_all_wf(xs, 0),
        entries_all_wf(ys, 0),
        b == JsonV::Obj(ys),
    ensures
        uniq_keys(merge_entries(xs, ys, i)),
        entries_all_wf(merge_entries(xs, ys, i), 0),
    decreases b, 0nat, ys.len() - i,
{
    if 0 <= i < ys.len() {
        let k = ys[i].0;
        let v = ys[i].1;
        let xs2 = if v is Null {
            remove_key(xs, k)
        } else {
            set_key(xs, k, merge_v(get_or_null(xs, k), v))
        };
        if v is Null {
            lemma_remove_key_get(xs, k);
            lemma_remove_key_wf(xs, k);
        } else {
            let old_v = get_or_null(xs, k);
            assert(wf_v(old_v)) by {
                lemma_key_idx(xs, k);
            }
            match b {
                JsonV::Obj(ys2) => {
                    assert(ys2 == ys);
                    assert(decreases_to!(b => ys2));
                    assert(decreases_to!(ys2 => ys2[i]));
                    assert(decreases_to!(ys2[i] => ys2[i].1));
                },
                _ => {
                    assert(false);
                },
            }
            assert(wf_v(merge_v(old_v, v))) by {
                lemma_merge_wf(old_v, v);
            }
            lemma_set_key_get(xs, k, merge_v(old_v, v));
            lemma_set_key_wf(xs, k, merge_v(old_v, v));
        }
        lemma_merge_entries_wf(xs2, ys, i + 1, b);
    }
}

/// Round trip through storage: the serialization of any merge of
/// well-formed documents parses back to exactly that merge.
pub proof fn lemma_merge_round_trip(x: JsonV, p: JsonV)
    requires
        wf_v(x),
        wf_v(p),
    ensures
        spec_parse(ser_v(merge_v(x, p))) == Some(merge_v(x, p)),
{
    lemma_merge_wf(x, p);
    lemma_parse_inverts_serialize(merge_v(x, p));
}

} // verus!
