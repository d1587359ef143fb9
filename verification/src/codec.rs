//! Serialization and parsing of JSON documents as raw bytes.
//!
//! The serializer emits compact JSON text (no whitespace). The parser is a
//! recursive-descent reader of the same grammar, tolerant of whitespace
//! between tokens; number tokens are taken by maximal munch and string
//! contents are kept in their escaped form, so parsing is exactly inverse to
//! serialization for well-formed documents.

use vstd::prelude::*;

use crate::json::{
    entries_v, find_key, has_key, jv, key_idx, lemma_key_idx, remove_key, Json, JsonV,
};

verus! {

pub open spec fn is_ws(b: u8) -> bool {
    b == 32 || b == 9 || b == 10 || b == 13
}

pub open spec fn is_digit(b: u8) -> bool {
    48 <= b <= 57
}

/// Bytes that may appear in a number token: digits, `+`, `-`, `.`, `e`, `E`.
pub open spec fn is_num_byte(b: u8) -> bool {
    is_digit(b) || b == 43 || b == 45 || b == 46 || b == 101 || b == 69
}

pub open spec fn tok_null() -> Seq<u8> {
    seq![110u8, 117u8, 108u8, 108u8]
}

pub open spec fn tok_true() -> Seq<u8> {
    seq![116u8, 114u8, 117u8, 101u8]
}

pub open spec fn tok_false() -> Seq<u8> {
    seq![102u8, 97u8, 108u8, 115u8, 101u8]
}

/// A well-formed number token: nonempty, starting with a digit or `-`, made
/// of number bytes only.
pub open spec fn wf_num(t: Seq<u8>) -> bool {
    &&& t.len() > 0
    &&& (is_digit(t[0]) || t[0] == 45)
    &&& forall|i: int| 0 <= i < t.len() ==> is_num_byte(#[trigger] t[i])
}

/// Well-formed string content in escaped form: every backslash is followed
/// by one more byte and no quote stands unescaped.
pub open spec fn wf_str(s: Seq<u8>) -> bool
    decreases s.len(),
{
    if s.len() == 0 {
        true
    } else if s[0] == 92 {
        s.len() >= 2 && wf_str(s.skip(2))
    } else {
        s[0] != 34 && wf_str(s.skip(1))
    }
}

/// Keys of an object are pairwise distinct.
pub open spec fn uniq_keys(ms: Seq<(Seq<u8>, JsonV)>) -> bool {
    forall|i: int, j: int|
        0 <= i < j < ms.len() ==> (#[trigger] ms[i]).0 != (#[trigger] ms[j]).0
}

/// A well-formed document: every token is valid and object keys are unique.
pub open spec fn wf_v(v: JsonV) -> bool
    decreases v, 1nat,
{
    match v {
        JsonV::Null => true,
        JsonV::Bool(_) => true,
        JsonV::Num(t) => wf_num(t),
        JsonV::Str(s) => wf_str(s),
        JsonV::Arr(es) => wf_elems(es, 0),
        JsonV::Obj(ms) => uniq_keys(ms) && wf_entries(ms, 0),
    }
}

pub open spec fn wf_elems(es: Seq<JsonV>, i: int) -> bool
    decreases es, es.len() - i,
{
    if i < 0 || i >= es.len() {
        true
    } else {
        wf_v(es[i]) && wf_elems(es, i + 1)
    }
}

pub open spec fn wf_entries(ms: Seq<(Seq<u8>, JsonV)>, i: int) -> bool
    decreases ms, ms.len() - i,
{
    if i < 0 || i >= ms.len() {
        true
    } else {
        wf_str(ms[i].0) && wf_v(ms[i].1) && wf_entries(ms, i + 1)
    }
}

/// The compact serialization of a document.
pub open spec fn ser_v(v: JsonV) -> Seq<u8>
    decreases v, 1nat,
{
    match v {
        JsonV::Null => tok_null(),
        JsonV::Bool(b) => if b {
            tok_true()
        } else {
            tok_false()
        },
        JsonV::Num(t) => t,
        JsonV::Str(s) => seq![34u8] + s + seq![34u8],
        JsonV::Arr(es) => seq![91u8] + ser_elems(es, 0) + seq![93u8],
        JsonV::Obj(ms) => seq![123u8] + ser_entries(ms, 0) + seq![125u8],
    }
}

/// The serialization of the array elements `es[i..]`, joined by commas.
pub open spec fn ser_elems(es: Seq<JsonV>, i: int) -> Seq<u8>
    decreases es, es.len() - i,
{
    if i < 0 || i >= es.len() {
        Seq::empty()
    } else if i == es.len() - 1 {
        ser_v(es[i])
    } else {
        ser_v(es[i]) + seq![44u8] + ser_elems(es, i + 1)
    }
}

/// The serialization of the object entries `ms[i..]`, joined by commas.
pub open spec fn ser_entries(ms: Seq<(Seq<u8>, JsonV)>, i: int) -> Seq<u8>
    decreases ms, ms.len() - i,
{
    if i < 0 || i >= ms.len() {
        Seq::empty()
    } else {
        let one = seq![34u8] + ms[i].0 + seq![34u8, 58u8] + ser_v(ms[i].1);
        if i == ms.len() - 1 {
            one
        } else {
            one + seq![44u8] + ser_entries(ms, i + 1)
        }
    }
}

/// The first position at or after `i` that holds no whitespace.
pub open spec fn skip_ws(s: Seq<u8>, i: int) -> int
    decreases s.len() - i,
{
    if 0 <= i < s.len() && is_ws(s[i]) {
        skip_ws(s, i + 1)
    } else {
        i
    }
}

/// The position of the closing quote of string content starting at `i`.
pub open spec fn scan_str(s: Seq<u8>, i: int) -> Option<int>
    decreases s.len() - i,
{
    if !(0 <= i < s.len()) {
        None
    } else if s[i] == 34 {
        Some(i)
    } else if s[i] == 92 {
        if i + 2 <= s.len() {
            scan_str(s, i + 2)
        } else {
            None
        }
    } else {
        scan_str(s, i + 1)
    }
}

/// The end of the maximal run of number bytes starting at `i`.
pub open spec fn scan_num(s: Seq<u8>, i: int) -> int
    decreases s.len() - i,
{
    if 0 <= i < s.len() && is_num_byte(s[i]) {
        scan_num(s, i + 1)
    } else {
        i
    }
}

/// Places `(k, v)` in front of the later entries `rest`; a later entry with
/// the same key wins, standing at the front position.
pub open spec fn entry_insert(
    k: Seq<u8>,
    v: JsonV,
    rest: Seq<(Seq<u8>, JsonV)>,
) -> Seq<(Seq<u8>, JsonV)> {
    if has_key(rest, k) {
        seq![(k, rest[key_idx(rest, k)].1)] + remove_key(rest, k)
    } else {
        seq![(k, v)] + rest
    }
}

/// Parses one document starting at `i`, after optional whitespace, returning
/// the document and the position just past it.
pub open spec fn parse_value_at(s: Seq<u8>, i: int) -> Option<(JsonV, int)>
    decreases s.len() - i, 0nat,
{
    let j = skip_ws(s, i);
    if j < i || j >= s.len() {
        None
    } else {
        let c = s[j];
        if c == 110 {
            if j + 4 <= s.len() && s.subrange(j, j + 4) == tok_null() {
                Some((JsonV::Null, j + 4))
            } else {
                None
            }
        } else if c == 116 {
            if j + 4 <= s.len() && s.subrange(j, j + 4) == tok_true() {
                Some((JsonV::Bool(true), j + 4))
            } else {
                None
            }
        } else if c == 102 {
            if j + 5 <= s.len() && s.subrange(j, j + 5) == tok_false() {
                Some((JsonV::Bool(false), j + 5))
            } else {
                None
            }
        } else if c == 34 {
            match scan_str(s, j + 1) {
                Some(e) => Some((JsonV::Str(s.subrange(j + 1, e)), e + 1)),
                None => None,
            }
        } else if c == 91 {
            let k = skip_ws(s, j + 1);
            if k < j + 1 || k >= s.len() {
                None
            } else if s[k] == 93 {
                Some((JsonV::Arr(Seq::empty()), k + 1))
            } else {
                match parse_elems_at(s, j + 1) {
                    Some((es, e)) => Some((JsonV::Arr(es), e)),
                    None => None,
                }
            }
        } else if c == 123 {
            let k = skip_ws(s, j + 1);
            if k < j + 1 || k >= s.len() {
                None
            } else if s[k] == 125 {
                Some((JsonV::Obj(Seq::empty()), k + 1))
            } else {
                match parse_entries_at(s, j + 1) {
                    Some((ms, e)) => Some((JsonV::Obj(ms), e)),
                    None => None,
                }
            }
        } else if c == 45 || is_digit(c) {
            let e = scan_num(s, j);
            if e <= s.len() {
                Some((JsonV::Num(s.subrange(j, e)), e))
            } else {
                None
            }
        } else {
            None
        }
    }
}

/// Parses the remaining comma-separated elements of an array, up to and past
/// the closing bracket.
pub open spec fn parse_elems_at(s: Seq<u8>, i: int) -> Option<(Seq<JsonV>, int)>
    decreases s.len() - i, 1nat,
{
    if !(0 <= i <= s.len()) {
        None
    } else {
        match parse_value_at(s, i) {
            None => None,
            Some((v, m)) => {
                if m <= i || m > s.len() {
                    None
                } else {
                    let k = skip_ws(s, m);
                    if k < m || k >= s.len() {
                        None
                    } else if s[k] == 44 {
                        match parse_elems_at(s, k + 1) {
                            None => None,
                            Some((rest, e)) => Some((seq![v] + rest, e)),
                        }
                    } else if s[k] == 93 {
                        Some((seq![v], k + 1))
                    } else {
                        None
                    }
                }
            },
        }
    }
}

/// Parses the remaining key/value entries of an object, up to and past the
/// closing brace.
pub open spec fn parse_entries_at(s: Seq<u8>, i: int) -> Option<
    (Seq<(Seq<u8>, JsonV)>, int),
>
    decreases s.len() - i, 1nat,
{
    if !(0 <= i <= s.len()) {
        None
    } else {
        let j = skip_ws(s, i);
        if j < i || j >= s.len() || s[j] != 34 {
            None
        } else {
            match scan_str(s, j + 1) {
                None => None,
                Some(e) => {
                    let key = s.subrange(j + 1, e);
                    let c = skip_ws(s, e + 1);
                    if e < j + 1 || c < e + 1 || c >= s.len() || s[c] != 58 {
                        None
                    } else {
                        match parse_value_at(s, c + 1) {
                            None => None,
                            Some((v, m)) => {
                                if m <= c || m > s.len() {
                                    None
                                } else {
                                    let k2 = skip_ws(s, m);
                                    if k2 < m || k2 >= s.len() {
                                        None
                                    } else if s[k2] == 44 {
                                        match parse_entries_at(s, k2 + 1) {
                                            None => None,
                                            Some((rest, e2)) => Some(
                                                (entry_insert(key, v, rest), e2),
                                            ),
                                        }
                                    } else if s[k2] == 125 {
                                        Some((seq![(key, v)], k2 + 1))
                                    } else {
                                        None
                                    }
                                }
                            },
                        }
                    }
                }
            }
        }
    }
}

/// Parses a whole byte string as one JSON document.
pub open spec fn spec_parse(s: Seq<u8>) -> Option<JsonV> {
    match parse_value_at(s, 0) {
        None => None,
        Some((v, e)) => if skip_ws(s, e) == s.len() {
            Some(v)
        } else {
            None
        },
    }
}


/// A number scan never moves backward.
pub proof fn lemma_scan_num_ge(s: Seq<u8>, i: int)
    ensures
        scan_num(s, i) >= i,
    decreases s.len() - i,
{
    if 0 <= i < s.len() && is_num_byte(s[i]) {
        lemma_scan_num_ge(s, i + 1);
    }
}

/// The first position at or after `i` without whitespace.
#[verifier::loop_isolation(false)]
fn ws_end(s: &Vec<u8>, i: usize) -> (r: usize)
    requires
        i <= s@.len(),
    ensures
        r as int == skip_ws(s@, i as int),
        i <= r <= s@.len(),
{
    let mut r = i;
    while r < s.len() && (s[r] == 32 || s[r] == 9 || s[r] == 10 || s[r] == 13)
        invariant
            i <= r <= s@.len(),
            skip_ws(s@, i as int) == skip_ws(s@, r as int),
        decreases s@.len() - r,
    {
        r += 1;
    }
    r
}

/// The position of the closing quote of string content starting at `i`.
#[verifier::loop_isolation(false)]
fn str_end(s: &Vec<u8>, i: usize) -> (r: Option<usize>)
    requires
        i <= s@.len(),
    ensures
        match r {
            Some(e) => scan_str(s@, i as int) == Some(e as int) && i <= e < s@.len(),
            None => scan_str(s@, i as int) is None,
        },
{
    let mut j = i;
    loop
        invariant
            i <= j <= s@.len(),
            scan_str(s@, i as int) == scan_str(s@, j as int),
        decreases s@.len() - j,
    {
        if j >= s.len() {
            return None;
        }
        if s[j] == 34 {
            return Some(j);
        }
        if s[j] == 92 {
            if s.len() - j >= 2 {
                j += 2;
            } else {
                return None;
            }
        } else {
            j += 1;
        }
    }
}

/// The end of the maximal run of number bytes starting at `i`.
#[verifier::loop_isolation(false)]
fn num_end(s: &Vec<u8>, i: usize) -> (r: usize)
    requires
        i <= s@.len(),
    ensures
        r as int == scan_num(s@, i as int),
        i <= r <= s@.len(),
{
    let mut r = i;
    while r < s.len() && ((48 <= s[r] && s[r] <= 57) || s[r] == 43 || s[r] == 45 || s[r] == 46
        || s[r] == 101 || s[r] == 69)
        invariant
            i <= r <= s@.len(),
            scan_num(s@, i as int) == scan_num(s@, r as int),
        decreases s@.len() - r,
    {
        r += 1;
    }
    r
}

/// A copy of the bytes `s[a..b]`.
#[verifier::loop_isolation(false)]
pub(crate) fn copy_range(s: &Vec<u8>, a: usize, b: usize) -> (r: Vec<u8>)
    requires
        a <= b <= s@.len(),
    ensures
        r@ == s@.subrange(a as int, b as int),
{
    let mut out: Vec<u8> = Vec::new();
    let mut i = a;
    while i < b
        invariant
            a <= i <= b,
            out@ == s@.subrange(a as int, i as int),
        decreases b - i,
    {
        out.push(s[i]);
        proof {
            assert(out@ =~= s@.subrange(a as int, i + 1 as int));
        }
        i += 1;
    }
    out
}

/// Reads one document starting at `i`, exactly as [`parse_value_at`] says.
#[verifier::loop_isolation(false)]
fn p_value(s: &Vec<u8>, i: usize) -> (r: Option<(Json, usize)>)
    requires
        i <= s@.len(),
    ensures
        match r {
            Some(p) => parse_value_at(s@, i as int) == Some((jv(p.0), p.1 as int)) && i < p.1
                <= s@.len(),
            None => parse_value_at(s@, i as int) is None,
        },
    decreases s@.len() - i, 0nat,
{
    let j = ws_end(s, i);
    if j >= s.len() {
        return None;
    }
    let c = s[j];
    if c == 110 {
        if s.len() - j >= 4 && s[j + 1] == 117 && s[j + 2] == 108 && s[j + 3] == 108 {
            proof {
                assert(s@.subrange(j as int, j + 4 as int) =~= tok_null());
            }
            Some((Json::Null, j + 4))
        } else {
            proof {
                assert(j + 4 <= s@.len() ==> s@.subrange(j as int, j + 4 as int)
                    != tok_null()) by {
                    if j + 4 <= s@.len() {
                        assert(s@.subrange(j as int, j + 4 as int)[1] == s@[j + 1]);
                        assert(s@.subrange(j as int, j + 4 as int)[2] == s@[j + 2]);
                        assert(s@.subrange(j as int, j + 4 as int)[3] == s@[j + 3]);
                    }
                }
            }
            None
        }
    } else if c == 116 {
        if s.len() - j >= 4 && s[j + 1] == 114 && s[j + 2] == 117 && s[j + 3] == 101 {
            proof {
                assert(s@.subrange(j as int, j + 4 as int) =~= tok_true());
            }
            Some((Json::Bool(true), j + 4))
        } else {
            proof {
                assert(j + 4 <= s@.len() ==> s@.subrange(j as int, j + 4 as int)
                    != tok_true()) by {
                    if j + 4 <= s@.len() {
                        assert(s@.subrange(j as int, j + 4 as int)[1] == s@[j + 1]);
                        assert(s@.subrange(j as int, j + 4 as int)[2] == s@[j + 2]);
                        assert(s@.subrange(j as int, j + 4 as int)[3] == s@[j + 3]);
                    }
                }
            }
            None
        }
    } else if c == 102 {
        if s.len() - j >= 5 && s[j + 1] == 97 && s[j + 2] == 108 && s[j + 3] == 115 && s[j + 4]
            == 101 {
            proof {
                assert(s@.subrange(j as int, j + 5 as int) =~= tok_false());
            }
            Some((Json::Bool(false), j + 5))
        } else {
            proof {
                assert(j + 5 <= s@.len() ==> s@.subrange(j as int, j + 5 as int)
                    != tok_false()) by {
                    if j + 5 <= s@.len() {
                        assert(s@.subrange(j as int, j + 5 as int)[1] == s@[j + 1]);
                        assert(s@.subrange(j as int, j + 5 as int)[2] == s@[j + 2]);
                        assert(s@.subrange(j as int, j + 5 as int)[3] == s@[j + 3]);
                        assert(s@.subrange(j as int, j + 5 as int)[4] == s@[j + 4]);
                    }
                }
            }
            None
        }
    } else if c == 34 {
        match str_end(s, j + 1) {
            Some(e) => {
                let raw = copy_range(s, j + 1, e);
                Some((Json::Str(raw), e + 1))
            },
            None => None,
        }
    } else if c == 91 {
        let k = ws_end(s, j + 1);
        if k >= s.len() {
            None
        } else if s[k] == 93 {
            let empty: Vec<Json> = Vec::new();
            proof {
                assert(jv(Json::Arr(empty)) is Arr);
                assert(jv(Json::Arr(empty))->Arr_0 =~~= Seq::<JsonV>::empty());
                assert(jv(Json::Arr(empty)) =~~= JsonV::Arr(Seq::empty()));
            }
            Some((Json::Arr(empty), k + 1))
        } else {
            match p_elems(s, j + 1) {
                Some((vs, e)) => {
                    proof {
                        assert(jv(Json::Arr(vs)) is Arr);
                        assert(jv(Json::Arr(vs)) == JsonV::Arr(jv(Json::Arr(vs))->Arr_0));
                    }
                    Some((Json::Arr(vs), e))
                },
                None => None,
            }
        }
    } else if c == 123 {
        let k = ws_end(s, j + 1);
        if k >= s.len() {
            None
        } else if s[k] == 125 {
            let empty: Vec<(Vec<u8>, Json)> = Vec::new();
            proof {
                assert(jv(Json::Obj(empty)) is Obj);
                assert(jv(Json::Obj(empty))->Obj_0 =~~= Seq::<(Seq<u8>, JsonV)>::empty());
                assert(jv(Json::Obj(empty)) =~~= JsonV::Obj(Seq::empty()));
            }
            Some((Json::Obj(empty), k + 1))
        } else {
            match p_entries(s, j + 1) {
                Some((ms, e)) => {
                    proof {
                        assert(jv(Json::Obj(ms)) is Obj);
                        assert(jv(Json::Obj(ms)) == JsonV::Obj(jv(Json::Obj(ms))->Obj_0));
                    }
                    Some((Json::Obj(ms), e))
                },
                None => None,
            }
        }
    } else if c == 45 || (48 <= c && c <= 57) {
        let e = num_end(s, j);
        proof {
            assert(is_num_byte(s@[j as int]));
            assert(scan_num(s@, j as int) == scan_num(s@, j + 1));
            lemma_scan_num_ge(s@, j + 1);
        }
        let raw = copy_range(s, j, e);
        Some((Json::Num(raw), e))
    } else {
        None
    }
}

/// Reads the remaining elements of an array, as [`parse_elems_at`] says.
#[verifier::loop_isolation(false)]
fn p_elems(s: &Vec<u8>, i: usize) -> (r: Option<(Vec<Json>, usize)>)
    requires
        i <= s@.len(),
    ensures
        match r {
            Some(p) => parse_elems_at(s@, i as int) == Some(
                (jv(Json::Arr(p.0))->Arr_0, p.1 as int),
            ) && i < p.1 <= s@.len(),
            None => parse_elems_at(s@, i as int) is None,
        },
    decreases s@.len() - i, 1nat,
{
    match p_value(s, i) {
        None => None,
        Some((v, m)) => {
            let k = ws_end(s, m);
            if k >= s.len() {
                None
            } else if s[k] == 44 {
                match p_elems(s, k + 1) {
                    None => None,
                    Some((rest, e)) => {
                        let mut vs = rest;
                        let ghost restv = jv(Json::Arr(vs))->Arr_0;
                        vs.insert(0, v);
                        proof {
                            assert(jv(Json::Arr(vs))->Arr_0 =~~= seq![jv(v)] + restv);
                        }
                        Some((vs, e))
                    },
                }
            } else if s[k] == 93 {
                let mut vs: Vec<Json> = Vec::new();
                vs.push(v);
                proof {
                    assert(jv(Json::Arr(vs))->Arr_0 =~~= seq![jv(v)]);
                }
                Some((vs, k + 1))
            } else {
                None
            }
        },
    }
}

/// Reads the remaining entries of an object, as [`parse_entries_at`] says.
#[verifier::loop_isolation(false)]
fn p_entries(s: &Vec<u8>, i: usize) -> (r: Option<(Vec<(Vec<u8>, Json)>, usize)>)
    requires
        i <= s@.len(),
    ensures
        match r {
            Some(p) => parse_entries_at(s@, i as int) == Some(
                (jv(Json::Obj(p.0))->Obj_0, p.1 as int),
            ) && i < p.1 <= s@.len(),
            None => parse_entries_at(s@, i as int) is None,
        },
    decreases s@.len() - i, 1nat,
{
    let j = ws_end(s, i);
    if j >= s.len() {
        return None;
    }
    if s[j] != 34 {
        return None;
    }
    match str_end(s, j + 1) {
        None => None,
        Some(e) => {
            let key = copy_range(s, j + 1, e);
            let c = ws_end(s, e + 1);
            if c >= s.len() {
                return None;
            }
            if s[c] != 58 {
                return None;
            }
            match p_value(s, c + 1) {
                None => None,
                Some((v, m)) => {
                    let k2 = ws_end(s, m);
                    if k2 >= s.len() {
                        None
                    } else if s[k2] == 44 {
                        match p_entries(s, k2 + 1) {
                            None => None,
                            Some((rest, e2)) => {
                                let mut ms = rest;
                                let ghost restv = jv(Json::Obj(ms))->Obj_0;
                                let ghost keyg = key@;
                                proof {
                                    assert(entries_v(ms@) =~~= restv);
                                }
                                let found = find_key(&ms, &key);
                                match found {
                                    Some(idx) => {
                                        proof {
                                            lemma_key_idx(restv, keyg);
                                        }
                                        let prev = ms.remove(idx);
                                        ms.insert(0, (key, prev.1));
                                        proof {
                                            assert(jv(Json::Obj(ms))->Obj_0 =~~= entry_insert(
                                                keyg,
                                                jv(v),
                                                restv,
                                            ));
                                        }
                                    },
                                    None => {
                                        ms.insert(0, (key, v));
                                        proof {
                                            assert(jv(Json::Obj(ms))->Obj_0 =~~= entry_insert(
                                                keyg,
                                                jv(v),
                                                restv,
                                            ));
                                        }
                                    },
                                }
                                Some((ms, e2))
                            },
                        }
                    } else if s[k2] == 125 {
                        let mut ms: Vec<(Vec<u8>, Json)> = Vec::new();
                        ms.push((key, v));
                        Some((ms, k2 + 1))
                    } else {
                        None
                    }
                },
            }
        },
    }
}

/// Parses a whole byte string as one JSON document, exactly as
/// [`spec_parse`] says.
pub fn parse_json(data: &Vec<u8>) -> (r: Option<Json>)
    ensures
        match r {
            Some(v) => spec_parse(data@) == Some(jv(v)),
            None => spec_parse(data@) is None,
        },
{
    match p_value(data, 0) {
        None => None,
        Some((v, e)) => {
            let t = ws_end(data, e);
            if t == data.len() {
                Some(v)
            } else {
                None
            }
        },
    }
}

/// Appends the compact serialization of `v` to `out`.
#[verifier::loop_isolation(false)]
pub fn write_json(v: &Json, out: &mut Vec<u8>)
    ensures
        final(out)@ == old(out)@ + ser_v(jv(*v)),
    decreases *v, 0nat,
{
    match v {
        Json::Null => {
            out.push(110);
            out.push(117);
            out.push(108);
            out.push(108);
            proof {
                assert(out@ =~= old(out)@ + ser_v(jv(*v)));
            }
        },
        Json::Bool(b) => {
            if *b {
                out.push(116);
                out.push(114);
                out.push(117);
                out.push(101);
            } else {
                out.push(102);
                out.push(97);
                out.push(108);
                out.push(115);
                out.push(101);
            }
            proof {
                assert(out@ =~= old(out)@ + ser_v(jv(*v)));
            }
        },
        Json::Num(t) => {
            push_all(out, t);
            proof {
                assert(out@ =~= old(out)@ + ser_v(jv(*v)));
            }
        },
        Json::Str(sv) => {
            out.push(34);
            push_all(out, sv);
            out.push(34);
            proof {
                assert(out@ =~= old(out)@ + ser_v(jv(*v)));
            }
        },
        Json::Arr(es) => {
            out.push(91);
            write_elems(es, 0, out);
            out.push(93);
            proof {
                assert(out@ =~= old(out)@ + ser_v(jv(*v)));
            }
        },
        Json::Obj(ms) => {
            out.push(123);
            write_entries(ms, 0, out);
            out.push(125);
            proof {
                assert(out@ =~= old(out)@ + ser_v(jv(*v)));
            }
        },
    }
}

/// Appends the serialization of the array elements `es[i..]`.
#[verifier::loop_isolation(false)]
fn write_elems(es: &Vec<Json>, i: usize, out: &mut Vec<u8>)
    requires
        i <= es@.len(),
    ensures
        final(out)@ == old(out)@ + ser_elems(jv(Json::Arr(*es))->Arr_0, i as int),
    decreases *es, es@.len() - i, 0nat,
{
    let ghost sq = jv(Json::Arr(*es))->Arr_0;
    if i < es.len() {
        proof {
            assert(decreases_to!(*es => es@[i as int]));
            assert(sq[i as int] == jv(es@[i as int]));
        }
        write_json(&es[i], out);
        if i + 1 < es.len() {
            out.push(44);
            write_elems(es, i + 1, out);
        }
        proof {
            assert(out@ =~= old(out)@ + ser_elems(sq, i as int));
        }
    } else {
        proof {
            assert(out@ =~= old(out)@ + ser_elems(sq, i as int));
        }
    }
}

/// Appends the serialization of the object entries `ms[i..]`.
#[verifier::loop_isolation(false)]
fn write_entries(ms: &Vec<(Vec<u8>, Json)>, i: usize, out: &mut Vec<u8>)
    requires
        i <= ms@.len(),
    ensures
        final(out)@ == old(out)@ + ser_entries(jv(Json::Obj(*ms))->Obj_0, i as int),
    decreases *ms, ms@.len() - i, 0nat,
{
    let ghost sq = jv(Json::Obj(*ms))->Obj_0;
    if i < ms.len() {
        proof {
            assert(decreases_to!(*ms => ms@[i as int]));
            assert(decreases_to!(ms@[i as int] => ms@[i as int].1));
            assert(sq[i as int] == (ms@[i as int].0@, jv(ms@[i as int].1)));
        }
        out.push(34);
        push_all(out, &ms[i].0);
        out.push(34);
        out.push(58);
        write_json(&ms[i].1, out);
        if i + 1 < ms.len() {
            out.push(44);
            write_entries(ms, i + 1, out);
        }
        proof {
            assert(out@ =~= old(out)@ + ser_entries(sq, i as int));
        }
    } else {
        proof {
            assert(out@ =~= old(out)@ + ser_entries(sq, i as int));
        }
    }
}

/// Appends all of `t` to `out`.
#[verifier::loop_isolation(false)]
fn push_all(out: &mut Vec<u8>, t: &Vec<u8>)
    ensures
        final(out)@ == old(out)@ + t@,
{
    let mut i: usize = 0;
    while i < t.len()
        invariant
            0 <= i <= t@.len(),
            out@ == old(out)@ + t@.subrange(0, i as int),
        decreases t@.len() - i,
    {
        out.push(t[i]);
        proof {
            assert(out@ =~= old(out)@ + t@.subrange(0, i + 1 as int));
        }
        i += 1;
    }
    proof {
        assert(out@ =~= old(out)@ + t@);
    }
}

/// The compact serialization of `v` as a byte vector.
pub fn json_to_bytes(v: &Json) -> (r: Vec<u8>)
    ensures
        r@ == ser_v(jv(*v)),
{
    let mut out: Vec<u8> = Vec::new();
    write_json(v, &mut out);
    proof {
        assert(out@ =~= ser_v(jv(*v)));
    }
    out
}



/// The bytes `t` stand in `s` at position `i`.
pub open spec fn bytes_at(s: Seq<u8>, i: int, t: Seq<u8>) -> bool {
    0 <= i && i + t.len() <= s.len() && forall|p: int|
        0 <= p < t.len() ==> s[i + p] == #[trigger] t[p]
}

/// One byte of an embedded byte string.
proof fn lemma_byte_at(s: Seq<u8>, i: int, t: Seq<u8>, p: int)
    requires
        bytes_at(s, i, t),
        0 <= p < t.len(),
    ensures
        s[i + p] == t[p],
{
}

/// A suffix of an embedded byte string is itself embedded.
proof fn lemma_bytes_at_skip(s: Seq<u8>, i: int, t: Seq<u8>, off: int)
    requires
        bytes_at(s, i, t),
        0 <= off <= t.len(),
    ensures
        bytes_at(s, i + off, t.skip(off)),
{
    assert forall|p: int| 0 <= p < t.skip(off).len() implies s[i + off + p] == #[trigger] t.skip(
        off,
    )[p] by {
        lemma_byte_at(s, i, t, off + p);
        assert(t.skip(off)[p] == t[off + p]);
    }
}

/// A prefix of an embedded byte string is itself embedded, as is anything
/// embedded in it.
proof fn lemma_bytes_at_part(s: Seq<u8>, i: int, t: Seq<u8>, off: int, part: Seq<u8>)
    requires
        bytes_at(s, i, t),
        0 <= off,
        off + part.len() <= t.len(),
        forall|p: int| 0 <= p < part.len() ==> t[off + p] == #[trigger] part[p],
    ensures
        bytes_at(s, i + off, part),
{
    assert forall|p: int| 0 <= p < part.len() implies s[i + off + p] == #[trigger] part[p] by {
        lemma_byte_at(s, i, t, off + p);
    }
}

/// The first byte of a well-formed document's serialization names its shape,
/// and is no whitespace, separator or closer.
proof fn lemma_ser_shape(v: JsonV)
    requires
        wf_v(v),
    ensures
        ser_v(v).len() >= 1,
        !is_ws(ser_v(v)[0]),
        ser_v(v)[0] != 44 && ser_v(v)[0] != 58 && ser_v(v)[0] != 93 && ser_v(v)[0] != 125,
        v is Null <==> ser_v(v)[0] == 110,
        v == JsonV::Bool(true) <==> ser_v(v)[0] == 116,
        v == JsonV::Bool(false) <==> ser_v(v)[0] == 102,
        v is Str <==> ser_v(v)[0] == 34,
        v is Arr <==> ser_v(v)[0] == 91,
        v is Obj <==> ser_v(v)[0] == 123,
        v is Num <==> is_num_byte(ser_v(v)[0]),
        v is Num ==> (is_digit(ser_v(v)[0]) || ser_v(v)[0] == 45),
{
}

/// Scanning well-formed string content stops exactly at the closing quote.
proof fn lemma_scan_str_content(s: Seq<u8>, i: int, raw: Seq<u8>)
    requires
        wf_str(raw),
        bytes_at(s, i, raw + seq![34u8]),
    ensures
        scan_str(s, i) == Some(i + raw.len()),
    decreases raw.len(),
{
    let t = raw + seq![34u8];
    lemma_byte_at(s, i, t, 0);
    if raw.len() == 0 {
        assert(t[0] == 34);
        assert(s[i] == 34);
    } else {
        assert(t[0] == raw[0]);
        assert(s[i] == raw[0]);
        if raw[0] == 92 {
            lemma_bytes_at_skip(s, i, t, 2);
            assert(t.skip(2) =~= raw.skip(2) + seq![34u8]);
            lemma_scan_str_content(s, i + 2, raw.skip(2));
        } else {
            lemma_bytes_at_skip(s, i, t, 1);
            assert(t.skip(1) =~= raw.skip(1) + seq![34u8]);
            lemma_scan_str_content(s, i + 1, raw.skip(1));
        }
    }
}

/// Maximal munch over a number token stops exactly where the token does.
proof fn lemma_scan_num_token(s: Seq<u8>, i: int, t: Seq<u8>)
    requires
        forall|p: int| 0 <= p < t.len() ==> is_num_byte(#[trigger] t[p]),
        bytes_at(s, i, t),
        i + t.len() == s.len() || !is_num_byte(s[i + t.len()]),
    ensures
        scan_num(s, i) == i + t.len(),
    decreases t.len(),
{
    if t.len() == 0 {
    } else {
        lemma_byte_at(s, i, t, 0);
        assert(is_num_byte(s[i]));
        lemma_bytes_at_skip(s, i, t, 1);
        assert(forall|p: int|
            0 <= p < t.skip(1).len() ==> is_num_byte(#[trigger] t.skip(1)[p]));
        lemma_scan_num_token(s, i + 1, t.skip(1));
    }
}

/// Parsing reads back exactly what serialization wrote: one well-formed
/// document standing at `i`, ending where its serialization ends.
proof fn lemma_rt_value(s: Seq<u8>, i: int, v: JsonV)
    requires
        wf_v(v),
        bytes_at(s, i, ser_v(v)),
        v is Num ==> (i + ser_v(v).len() == s.len() || !is_num_byte(s[i + ser_v(v).len()])),
    ensures
        parse_value_at(s, i) == Some((v, i + ser_v(v).len() as int)),
    decreases v, 0nat, 0nat,
{
    lemma_ser_shape(v);
    let t = ser_v(v);
    lemma_byte_at(s, i, t, 0);
    assert(s[i] == t[0]);
    assert(skip_ws(s, i) == i);
    match v {
        JsonV::Null => {
            assert forall|p: int| 0 <= p < 4 implies s.subrange(i, i + 4)[p] == tok_null()[p] by {
                lemma_byte_at(s, i, t, p);
            }
            assert(s.subrange(i, i + 4) =~= tok_null());
        },
        JsonV::Bool(b) => {
            if b {
                assert forall|p: int| 0 <= p < 4 implies s.subrange(i, i + 4)[p] == tok_true()[p]
                    by {
                    lemma_byte_at(s, i, t, p);
                }
                assert(s.subrange(i, i + 4) =~= tok_true());
            } else {
                assert forall|p: int| 0 <= p < 5 implies s.subrange(i, i + 5)[p]
                    == tok_false()[p] by {
                    lemma_byte_at(s, i, t, p);
                }
                assert(s.subrange(i, i + 5) =~= tok_false());
            }
        },
        JsonV::Num(tok) => {
            lemma_scan_num_token(s, i, tok);
            assert forall|p: int| 0 <= p < tok.len() implies s.subrange(
                i,
                i + tok.len(),
            )[p] == tok[p] by {
                lemma_byte_at(s, i, t, p);
            }
            assert(s.subrange(i, i + tok.len()) =~= tok);
        },
        JsonV::Str(raw) => {
            assert(t =~= seq![34u8] + (raw + seq![34u8]));
            lemma_bytes_at_part(s, i, t, 1, raw + seq![34u8]);
            lemma_scan_str_content(s, i + 1, raw);
            assert forall|p: int| 0 <= p < raw.len() implies s.subrange(
                i + 1,
                i + 1 + raw.len(),
            )[p] == raw[p] by {
                lemma_byte_at(s, i, t, 1 + p);
            }
            assert(s.subrange(i + 1, i + 1 + raw.len()) =~= raw);
        },
        JsonV::Arr(es) => {
            let inner = ser_elems(es, 0);
            assert(t == seq![91u8] + inner + seq![93u8]);
            if es.len() == 0 {
                assert(inner =~= Seq::<u8>::empty());
                lemma_byte_at(s, i, t, 1);
                assert(s[i + 1] == 93);
                assert(skip_ws(s, i + 1) == i + 1);
            } else {
                lemma_bytes_at_part(s, i, t, 1, inner + seq![93u8]);
                lemma_rt_elems(s, i + 1, es, 0);
                lemma_ser_shape(es[0]);
                assert(inner[0] == ser_v(es[0])[0]);
                lemma_byte_at(s, i, t, 1);
                assert(s[i + 1] == ser_v(es[0])[0]);
                assert(skip_ws(s, i + 1) == i + 1);
                assert(s[i + 1] != 93);
                assert(es.skip(0) =~= es);
            }
        },
        JsonV::Obj(ms) => {
            let inner = ser_entries(ms, 0);
            assert(t == seq![123u8] + inner + seq![125u8]);
            if ms.len() == 0 {
                assert(inner =~= Seq::<u8>::empty());
                lemma_byte_at(s, i, t, 1);
                assert(s[i + 1] == 125);
                assert(skip_ws(s, i + 1) == i + 1);
            } else {
                lemma_bytes_at_part(s, i, t, 1, inner + seq![125u8]);
                lemma_rt_entries(s, i + 1, ms, 0);
                lemma_byte_at(s, i, t, 1);
                assert(s[i + 1] == inner[0] == 34);
                assert(skip_ws(s, i + 1) == i + 1);
                assert(ms.skip(0) =~= ms);
            }
        },
    }
    let pv = parse_value_at(s, i);
    assert(pv is Some);
    if v is Arr {
        assert(pv.unwrap().0 is Arr);
        assert(pv.unwrap().0->Arr_0 =~~= v->Arr_0);
        assert(pv.unwrap().0 =~~= v);
    } else if v is Obj {
        assert(pv.unwrap().0 is Obj);
        assert(pv.unwrap().0->Obj_0 =~~= v->Obj_0);
        assert(pv.unwrap().0 =~~= v);
    } else {
        assert(pv.unwrap().0 =~~= v);
    }
    assert(pv.unwrap().1 == i + ser_v(v).len());
    assert(pv.unwrap() == (v, i + ser_v(v).len() as int));
    assert(pv == Some(pv.unwrap()));
}

/// The remaining elements of an array parse back to exactly themselves, up
/// to and past the closing bracket.
proof fn lemma_rt_elems(s: Seq<u8>, i: int, es: Seq<JsonV>, j: int)
    requires
        0 <= j < es.len(),
        wf_elems(es, j),
        bytes_at(s, i, ser_elems(es, j) + seq![93u8]),
    ensures
        parse_elems_at(s, i) == Some((es.skip(j), i + ser_elems(es, j).len() + 1)),
    decreases es, es.len() - j, 1nat,
{
    let t = ser_elems(es, j) + seq![93u8];
    let v = es[j];
    let sv = ser_v(v);
    lemma_ser_shape(v);
    let m = i + sv.len();
    if j == es.len() - 1 {
        assert(ser_elems(es, j) == sv);
        lemma_bytes_at_part(s, i, t, 0, sv);
        lemma_byte_at(s, i, t, sv.len() as int);
        assert(s[m] == 93);
        lemma_rt_value(s, i, v);
        assert(skip_ws(s, m) == m);
        assert(es.skip(j) =~= seq![v]);
    } else {
        assert(ser_elems(es, j) == sv + seq![44u8] + ser_elems(es, j + 1));
        lemma_bytes_at_part(s, i, t, 0, sv);
        lemma_byte_at(s, i, t, sv.len() as int);
        assert(s[m] == 44);
        lemma_rt_value(s, i, v);
        assert(skip_ws(s, m) == m);
        let rest = ser_elems(es, j + 1) + seq![93u8];
        assert(forall|p: int|
            0 <= p < rest.len() ==> t[sv.len() + 1 + p] == #[trigger] rest[p]);
        lemma_bytes_at_part(s, i, t, sv.len() + 1 as int, rest);
        lemma_rt_elems(s, m + 1, es, j + 1);
        assert(es.skip(j) =~= seq![v] + es.skip(j + 1));
    }
}

/// The remaining entries of an object parse back to exactly themselves, up
/// to and past the closing brace.
proof fn lemma_rt_entries(s: Seq<u8>, i: int, ms: Seq<(Seq<u8>, JsonV)>, j: int)
    requires
        0 <= j < ms.len(),
        uniq_keys(ms),
        wf_entries(ms, j),
        bytes_at(s, i, ser_entries(ms, j) + seq![125u8]),
        ser_entries(ms, j)[0] == 34,
    ensures
        parse_entries_at(s, i) == Some((ms.skip(j), i + ser_entries(ms, j).len() + 1)),
    decreases ms, ms.len() - j, 1nat,
{
    let t = ser_entries(ms, j) + seq![125u8];
    let key = ms[j].0;
    let v = ms[j].1;
    let sv = ser_v(v);
    let one = seq![34u8] + key + seq![34u8, 58u8] + sv;
    lemma_ser_shape(v);
    lemma_byte_at(s, i, t, 0);
    assert(s[i] == 34);
    assert(skip_ws(s, i) == i);
    assert(forall|p: int|
        0 <= p < key.len() + 1 ==> t[1 + p] == #[trigger] (key + seq![34u8])[p]);
    lemma_bytes_at_part(s, i, t, 1, key + seq![34u8]);
    lemma_scan_str_content(s, i + 1, key);
    let e = i + 1 + key.len();
    assert forall|p: int| 0 <= p < key.len() implies s.subrange(i + 1, e)[p] == key[p] by {
        lemma_byte_at(s, i, t, 1 + p);
        assert(t[1 + p] == key[p]);
    }
    assert(s.subrange(i + 1, e) =~= key);
    lemma_byte_at(s, i, t, key.len() + 2 as int);
    assert(t[key.len() + 2 as int] == one[key.len() + 2 as int] == 58);
    assert(s[e + 1] == 58);
    assert(skip_ws(s, e + 1) == e + 1);
    let c = e + 1;
    assert(forall|p: int|
        0 <= p < sv.len() ==> t[key.len() + 3 + p] == #[trigger] sv[p]);
    lemma_bytes_at_part(s, i, t, key.len() + 3 as int, sv);
    let m = c + 1 + sv.len();
    lemma_byte_at(s, i, t, one.len() as int);
    if j == ms.len() - 1 {
        assert(ser_entries(ms, j) == one);
        assert(t[one.len() as int] == 125);
        assert(s[m] == 125);
        lemma_rt_value(s, c + 1, v);
        assert(skip_ws(s, m) == m);
        assert(ms.skip(j) =~= seq![(key, v)]);
    } else {
        assert(ser_entries(ms, j) == one + seq![44u8] + ser_entries(ms, j + 1));
        assert(t[one.len() as int] == 44);
        assert(s[m] == 44);
        lemma_rt_value(s, c + 1, v);
        assert(skip_ws(s, m) == m);
        let rest_bytes = ser_entries(ms, j + 1) + seq![125u8];
        assert(forall|p: int|
            0 <= p < rest_bytes.len() ==> t[one.len() + 1 + p] == #[trigger] rest_bytes[p]);
        lemma_bytes_at_part(s, i, t, one.len() + 1 as int, rest_bytes);
        assert(ser_entries(ms, j + 1)[0] == 34);
        lemma_rt_entries(s, m + 1, ms, j + 1);
        let rest = ms.skip(j + 1);
        assert(!has_key(rest, key)) by {
            crate::json::lemma_key_idx(rest, key);
            if has_key(rest, key) {
                let r = key_idx(rest, key);
                assert(rest[r] == ms[j + 1 + r]);
                assert(ms[j].0 == ms[j + 1 + r].0);
            }
        }
        assert(entry_insert(key, v, rest) =~= ms.skip(j));
    }
}

/// Round trip: parsing the serialization of any well-formed document gives
/// exactly that document back.
pub proof fn lemma_parse_inverts_serialize(v: JsonV)
    requires
        wf_v(v),
    ensures
        spec_parse(ser_v(v)) == Some(v),
{
    let s = ser_v(v);
    lemma_ser_shape(v);
    assert(bytes_at(s, 0, s));
    lemma_rt_value(s, 0, v);
    assert(skip_ws(s, s.len() as int) == s.len());
}

} // verus!
