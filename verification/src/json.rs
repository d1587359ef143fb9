//! The JSON document model and the recursive merge-patch engine.
//!
//! A document is modelled syntactically: numbers and string contents are kept
//! as the raw bytes of their tokens, so that a stored document serializes back
//! to exactly the bytes it was parsed from. Object entries keep insertion
//! order; merging never reorders untouched keys.

use vstd::prelude::*;

verus! {

/// A JSON value. `Num` holds the raw bytes of a number token; `Str` and
/// object keys hold the raw bytes of the string's content between its
/// quotes, with escape sequences kept as written.
pub enum Json {
    Null,
    Bool(bool),
    Num(Vec<u8>),
    Str(Vec<u8>),
    Arr(Vec<Json>),
    Obj(Vec<(Vec<u8>, Json)>),
}

/// The mathematical shape of a [`Json`] value.
#[verifier::ext_equal]
pub enum JsonV {
    Null,
    Bool(bool),
    Num(Seq<u8>),
    Str(Seq<u8>),
    Arr(Seq<JsonV>),
    Obj(Seq<(Seq<u8>, JsonV)>),
}

/// The shape of a vector of object entries.
pub open spec fn entries_v(s: Seq<(Vec<u8>, Json)>) -> Seq<(Seq<u8>, JsonV)> {
    Seq::new(s.len(), |i: int| (s[i].0@, jv(s[i].1)))
}

/// The shape of a [`Json`] value.
pub open spec fn jv(j: Json) -> JsonV
    decreases j,
{
    match j {
        Json::Null => JsonV::Null,
        Json::Bool(b) => JsonV::Bool(b),
        Json::Num(t) => JsonV::Num(t@),
        Json::Str(s) => JsonV::Str(s@),
        Json::Arr(es) => JsonV::Arr(
            Seq::new(
                es@.len(),
                |i: int|
                    if 0 <= i < es@.len() {
                        jv(es@[i])
                    } else {
                        JsonV::Null
                    },
            ),
        ),
        Json::Obj(ms) => JsonV::Obj(
            Seq::new(
                ms@.len(),
                |i: int|
                    if 0 <= i < ms@.len() {
                        (ms@[i].0@, jv(ms@[i].1))
                    } else {
                        (Seq::empty(), JsonV::Null)
                    },
            ),
        ),
    }
}

impl View for Json {
    type V = JsonV;

    open spec fn view(&self) -> JsonV {
        jv(*self)
    }
}

/// The index of the first entry with key `k`, or `-1` if there is none.
pub open spec fn key_idx(es: Seq<(Seq<u8>, JsonV)>, k: Seq<u8>) -> int
    decreases es.len(),
{
    if es.len() == 0 {
        -1
    } else if es[0].0 == k {
        0
    } else {
        let r = key_idx(es.drop_first(), k);
        if r == -1 {
            -1
        } else {
            r + 1
        }
    }
}

pub open spec fn has_key(es: Seq<(Seq<u8>, JsonV)>, k: Seq<u8>) -> bool {
    key_idx(es, k) >= 0
}

/// The value stored under `k`, or `Null` if the key is absent.
pub open spec fn get_or_null(es: Seq<(Seq<u8>, JsonV)>, k: Seq<u8>) -> JsonV {
    if has_key(es, k) {
        es[key_idx(es, k)].1
    } else {
        JsonV::Null
    }
}

/// Stores `v` under `k`: in place if the key is present, appended otherwise.
pub open spec fn set_key(es: Seq<(Seq<u8>, JsonV)>, k: Seq<u8>, v: JsonV) -> Seq<
    (Seq<u8>, JsonV),
> {
    if has_key(es, k) {
        es.update(key_idx(es, k), (k, v))
    } else {
        es.push((k, v))
    }
}

/// Removes the first entry with key `k`, if any.
pub open spec fn remove_key(es: Seq<(Seq<u8>, JsonV)>, k: Seq<u8>) -> Seq<(Seq<u8>, JsonV)> {
    if has_key(es, k) {
        es.remove(key_idx(es, k))
    } else {
        es
    }
}

/// `key_idx` finds the first matching entry.
pub proof fn lemma_key_idx(es: Seq<(Seq<u8>, JsonV)>, k: Seq<u8>)
    ensures
        key_idx(es, k) == -1 ==> forall|i: int| 0 <= i < es.len() ==> es[i].0 != k,
        key_idx(es, k) != -1 ==> {
            let r = key_idx(es, k);
            &&& 0 <= r < es.len()
            &&& es[r].0 == k
            &&& forall|i: int| 0 <= i < r ==> es[i].0 != k
        },
    decreases es.len(),
{
    if es.len() == 0 {
    } else if es[0].0 == k {
    } else {
        let tail = es.drop_first();
        lemma_key_idx(tail, k);
        assert(forall|i: int| 1 <= i < es.len() ==> es[i] == #[trigger] tail[i - 1]);
        if key_idx(tail, k) == -1 {
            assert(forall|i: int| 0 <= i < es.len() ==> es[i].0 != k) by {
                assert(forall|i: int| 1 <= i < es.len() ==> (#[trigger] es[i]).0 == tail[i
                    - 1].0);
            }
        } else {
            let r = key_idx(tail, k);
            assert(key_idx(es, k) == r + 1);
            assert(es[r + 1] == tail[r]);
            assert(forall|i: int| 1 <= i < r + 1 ==> (#[trigger] es[i]).0 == tail[i - 1].0);
        }
    }
}

/// Applies a merge patch `b` to `a`: when both are objects, each patch entry
/// updates, recursively merges or (when the patch value is `Null`) deletes
/// the entry of the same key; in every other case `b` replaces `a` wholly.
pub open spec fn merge_v(a: JsonV, b: JsonV) -> JsonV
    decreases b, 1nat,
{
    match (a, b) {
        (JsonV::Obj(xs), JsonV::Obj(ys)) => JsonV::Obj(merge_entries(xs, ys, 0)),
        _ => b,
    }
}

/// Folds the patch entries `ys[i..]` into `xs`, one key at a time.
pub open spec fn merge_entries(
    xs: Seq<(Seq<u8>, JsonV)>,
    ys: Seq<(Seq<u8>, JsonV)>,
    i: int,
) -> Seq<(Seq<u8>, JsonV)>
    decreases ys, ys.len() - i,
{
    if i < 0 || i >= ys.len() {
        xs
    } else {
        let k = ys[i].0;
        let v = ys[i].1;
        let xs2 = if v is Null {
            remove_key(xs, k)
        } else {
            set_key(xs, k, merge_v(get_or_null(xs, k), v))
        };
        merge_entries(xs2, ys, i + 1)
    }
}

/// Byte-for-byte equality of two byte vectors.
pub fn bytes_eq(a: &Vec<u8>, b: &Vec<u8>) -> (r: bool)
    ensures
        r == (a@ == b@),
{
    if a.len() != b.len() {
        return false;
    }
    let mut i: usize = 0;
    while i < a.len()
        invariant
            0 <= i <= a.len(),
            a.len() == b.len(),
            forall|j: int| 0 <= j < i ==> a@[j] == b@[j],
        decreases a.len() - i,
    {
        if a[i] != b[i] {
            return false;
        }
        i += 1;
    }
    proof {
        assert(a@ =~= b@);
    }
    true
}

/// A structurally equal copy of `v`.
#[verifier::loop_isolation(false)]
pub fn deep_clone(v: &Json) -> (r: Json)
    ensures
        jv(r) == jv(*v),
    decreases *v,
{
    match v {
        Json::Null => Json::Null,
        Json::Bool(b) => Json::Bool(*b),
        Json::Num(t) => Json::Num(clone_bytes(t)),
        Json::Str(s) => Json::Str(clone_bytes(s)),
        Json::Arr(es) => {
            let mut out: Vec<Json> = Vec::new();
            let mut i: usize = 0;
            while i < es.len()
                invariant
                    0 <= i <= es.len(),
                    out@.len() == i,
                    forall|j: int| 0 <= j < i ==> jv(out@[j]) == jv(es@[j]),
                decreases es.len() - i,
            {
                proof {
                    assert(*v == Json::Arr(*es));
                    assert(decreases_to!(Json::Arr(*es) => *es));
                    assert(decreases_to!(*es => es@[i as int]));
                }
                let c = deep_clone(&es[i]);
                out.push(c);
                i += 1;
            }
            proof {
                assert(*v == Json::Arr(*es));
                let s1 = jv(Json::Arr(out))->Arr_0;
                let s2 = jv(*v)->Arr_0;
                assert(jv(Json::Arr(out)) is Arr);
                assert(jv(*v) is Arr);
                assert(s1.len() == s2.len());
                assert(forall|j: int| 0 <= j < s1.len() ==> s1[j] == s2[j]);
                assert(s1 =~~= s2);
                assert(jv(Json::Arr(out)) =~~= jv(*v));
            }
            Json::Arr(out)
        },
        Json::Obj(ms) => {
            let mut out: Vec<(Vec<u8>, Json)> = Vec::new();
            let mut i: usize = 0;
            while i < ms.len()
                invariant
                    0 <= i <= ms.len(),
                    out@.len() == i,
                    forall|j: int| 0 <= j < i ==> out@[j].0@ == ms@[j].0@ && jv(out@[j].1)
                        == jv(ms@[j].1),
                decreases ms.len() - i,
            {
                proof {
                    assert(*v == Json::Obj(*ms));
                    assert(decreases_to!(Json::Obj(*ms) => *ms));
                    assert(decreases_to!(*ms => ms@[i as int]));
                    assert(decreases_to!(ms@[i as int] => ms@[i as int].1));
                }
                let k = clone_bytes(&ms[i].0);
                let c = deep_clone(&ms[i].1);
                out.push((k, c));
                i += 1;
            }
            proof {
                assert(*v == Json::Obj(*ms));
                let s1 = jv(Json::Obj(out))->Obj_0;
                let s2 = jv(*v)->Obj_0;
                assert(jv(Json::Obj(out)) is Obj);
                assert(jv(*v) is Obj);
                assert(s1.len() == s2.len());
                assert(forall|j: int| 0 <= j < s1.len() ==> s1[j] == s2[j]);
                assert(s1 =~~= s2);
                assert(jv(Json::Obj(out)) =~~= jv(*v));
            }
            Json::Obj(out)
        },
    }
}

/// A copy of a byte vector.
pub fn clone_bytes(v: &Vec<u8>) -> (r: Vec<u8>)
    ensures
        r@ == v@,
{
    let mut out: Vec<u8> = Vec::new();
    let mut i: usize = 0;
    while i < v.len()
        invariant
            0 <= i <= v.len(),
            out@ == v@.subrange(0, i as int),
        decreases v.len() - i,
    {
        out.push(v[i]);
        i += 1;
    }
    proof {
        assert(out@ =~= v@);
    }
    out
}

/// The index of the first entry of `xs` whose key is `k`.
pub fn find_key(xs: &Vec<(Vec<u8>, Json)>, k: &Vec<u8>) -> (r: Option<usize>)
    ensures
        match r {
            Some(i) => i < xs@.len() && key_idx(entries_v(xs@), k@) == i as int,
            None => !has_key(entries_v(xs@), k@),
        },
{
    let mut i: usize = 0;
    while i < xs.len()
        invariant
            0 <= i <= xs.len(),
            forall|j: int| 0 <= j < i ==> entries_v(xs@)[j].0 != k@,
        decreases xs.len() - i,
    {
        if bytes_eq(&xs[i].0, k) {
            proof {
                let es = entries_v(xs@);
                assert(es[i as int].0 == k@);
                lemma_key_idx(es, k@);
                let r = key_idx(es, k@);
                assert(r != -1);
                assert(!(r < i as int));
                assert(!(r > i as int));
            }
            return Some(i);
        }
        i += 1;
    }
    proof {
        lemma_key_idx(entries_v(xs@), k@);
    }
    None
}

/// Applies the merge patch `b` to `a` (RFC 7396 style): two objects merge
/// key by key, a `Null` patch value deletes its key, and in every other case
/// the patch replaces the existing value wholly.
#[verifier::loop_isolation(false)]
pub fn merge_values(a: Json, b: &Json) -> (r: Json)
    ensures
        jv(r) == merge_v(jv(a), jv(*b)),
    decreases *b,
{
    let ghost a0 = a;
    let a_is_obj = matches!(&a, Json::Obj(_));
    let b_is_obj = matches!(b, Json::Obj(_));
    if !(a_is_obj && b_is_obj) {
        return deep_clone(b);
    }
    match (a, b) {
        (Json::Obj(mut xs), Json::Obj(ys)) => {
            let ghost xs0 = entries_v(xs@);
            let ghost ysv = entries_v(ys@);
            proof {
                assert(*b == Json::Obj(*ys));
                assert(jv(*b) is Obj);
                assert(forall|j: int|
                    0 <= j < ysv.len() ==> jv(*b)->Obj_0[j] == #[trigger] ysv[j]);
                assert(jv(*b)->Obj_0 =~~= ysv);
                assert(jv(*b) =~~= JsonV::Obj(ysv));
                assert(a0 == Json::Obj(xs));
                assert(jv(a0) is Obj);
                assert(forall|j: int|
                    0 <= j < xs0.len() ==> jv(a0)->Obj_0[j] == #[trigger] xs0[j]);
                assert(jv(a0)->Obj_0 =~~= xs0);
                assert(jv(a0) =~~= JsonV::Obj(xs0));
            }
            let mut j: usize = 0;
            while j < ys.len()
                invariant
                    0 <= j <= ys.len(),
                    merge_entries(xs0, ysv, 0) == merge_entries(entries_v(xs@), ysv, j as int),
                decreases ys.len() - j,
            {
                let ghost xs_pre = entries_v(xs@);
                let k = &ys[j].0;
                let v_is_null = matches!(&ys[j].1, Json::Null);
                if v_is_null {
                    match find_key(&xs, k) {
                        Some(idx) => {
                            proof {
                                lemma_key_idx(xs_pre, k@);
                            }
                            xs.remove(idx);
                            proof {
                                assert(entries_v(xs@) =~~= remove_key(xs_pre, k@));
                            }
                        },
                        None => {
                            proof {
                                assert(entries_v(xs@) =~~= remove_key(xs_pre, k@));
                            }
                        },
                    }
                } else {
                    match find_key(&xs, k) {
                        Some(idx) => {
                            proof {
                                lemma_key_idx(xs_pre, k@);
                                assert(decreases_to!(Json::Obj(*ys) => *ys));
                                assert(decreases_to!(*ys => ys@[j as int]));
                                assert(decreases_to!(ys@[j as int] => ys@[j as int].1));
                            }
                            let (k0, v0) = xs.remove(idx);
                            let merged = merge_values(v0, &ys[j].1);
                            xs.insert(idx, (k0, merged));
                            proof {
                                assert(entries_v(xs@) =~~= set_key(
                                    xs_pre,
                                    k@,
                                    merge_v(get_or_null(xs_pre, k@), ysv[j as int].1),
                                ));
                            }
                        },
                        None => {
                            let kc = clone_bytes(k);
                            let vc = deep_clone(&ys[j].1);
                            xs.push((kc, vc));
                            proof {
                                assert(entries_v(xs@) =~~= set_key(
                                    xs_pre,
                                    k@,
                                    merge_v(get_or_null(xs_pre, k@), ysv[j as int].1),
                                ));
                            }
                        },
                    }
                }
                j += 1;
            }
            proof {
                assert(merge_entries(entries_v(xs@), ysv, ysv.len() as int) == entries_v(
                    xs@,
                ));
                assert(entries_v(xs@) == merge_entries(xs0, ysv, 0));
                let rv = jv(Json::Obj(xs));
                assert(rv is Obj);
                assert(forall|m: int|
                    0 <= m < entries_v(xs@).len() ==> rv->Obj_0[m] == #[trigger] entries_v(
                        xs@,
                    )[m]);
                assert(rv->Obj_0 =~~= entries_v(xs@));
                assert(rv =~~= JsonV::Obj(entries_v(xs@)));
            }
            Json::Obj(xs)
        },
        (x, _) => {
            proof {
                assert(false);
            }
            x
        },
    }
}

/// Applies the merge patch `b` to `a` in place.
pub fn merge(a: &mut Json, b: &Json)
    ensures
        jv(*final(a)) == merge_v(jv(*old(a)), jv(*b)),
{
    let mut taken = Json::Null;
    core::mem::swap(a, &mut taken);
    let merged = merge_values(taken, b);
    *a = merged;
}

} // verus!
