//! The ordered byte-keyed maps that hold the data, and the library's error type.
use vstd::prelude::*;
use vstd::utf8::*;
use crate::keys::has_prefix;

verus! {

#[verifier::external_type_specification]
#[verifier::external_body]
pub struct ExTree(sled::Tree);

#[verifier::external_type_specification]
#[verifier::external_body]
pub struct ExSledError(sled::Error);

/// What a map holds: each key with its value.
pub uninterp spec fn entries(t: sled::Tree) -> Map<Seq<u8>, Seq<u8>>;

/// Lexicographic order of byte strings, the order in which a map keeps its keys.
pub open spec fn bytes_lt(a: Seq<u8>, b: Seq<u8>) -> bool
    decreases a.len(),
{
    if a.len() == 0 {
        b.len() > 0
    } else if b.len() == 0 {
        false
    } else if a[0] != b[0] {
        a[0] < b[0]
    } else {
        bytes_lt(a.subrange(1, a.len() as int), b.subrange(1, b.len() as int))
    }
}

/// The pairs are exactly the entries of `m` whose key starts with `p`,
/// each once, with the keys ascending.
pub open spec fn is_ascending_scan(v: Seq<(Seq<u8>, Seq<u8>)>, m: Map<Seq<u8>, Seq<u8>>, p: Seq<u8>) -> bool {
    &&& forall|i: int| 0 <= i < v.len() ==> has_prefix(#[trigger] v[i].0, p) && m.contains_key(v[i].0) && m[v[i].0] == v[i].1
    &&& forall|k: Seq<u8>| #[trigger] m.contains_key(k) && has_prefix(k, p) ==> exists|i: int| 0 <= i < v.len() && v[i].0 == k
    &&& forall|i: int, j: int| 0 <= i < j < v.len() ==> bytes_lt(#[trigger] v[i].0, #[trigger] v[j].0)
}

/// Errors of the store.
#[derive(Debug, Clone, Copy, PartialEq, Eq, Structural)]
pub enum StoreError {
    /// The underlying engine failed to read or write.
    Io,
    /// A key that had to be present is absent.
    NotFound,
    /// Stored bytes are present but cannot be decoded.
    Corrupt,
    /// Hashing a password failed.
    Crypto,
    /// The password does not match the stored hash.
    IncorrectPassword,
}

pub fn io_error(_e: sled::Error) -> (r: StoreError)
    ensures
        r == StoreError::Io,
{
    StoreError::Io
}

/// Relies on sled::Tree::contains_key: whether the map holds the key.
#[verifier::external_body]
pub(crate) fn tree_contains(t: &sled::Tree, k: &Vec<u8>) -> (r: Result<bool, sled::Error>)
    ensures
        r matches Ok(b) ==> b == entries(*t).contains_key(k@),
{
    t.contains_key(k)
}

/// Relies on sled::Tree::get: the value stored under the key, if any.
#[verifier::external_body]
pub(crate) fn tree_get(t: &sled::Tree, k: &Vec<u8>) -> (r: Result<Option<Vec<u8>>, sled::Error>)
    ensures
        r matches Ok(o) ==> (o matches Some(v) <==> entries(*t).contains_key(k@)),
        r matches Ok(Some(v)) ==> v@ == entries(*t)[k@],
{
    t.get(k).map(|o| o.map(|v| v.to_vec()))
}

/// Relies on sled::Tree::insert: after it succeeds the key maps to the value,
/// and every other key is left as it was.
#[verifier::external_body]
pub(crate) fn tree_insert(t: &mut sled::Tree, k: &Vec<u8>, v: &[u8]) -> (r: Result<(), sled::Error>)
    ensures
        r is Ok ==> entries(*final(t)) == entries(*old(t)).insert(k@, v@),
{
    t.insert(k, v).map(|_| ())
}

/// Relies on sled::Tree::remove: after it succeeds the key is absent, and
/// every other key is left as it was.
#[verifier::external_body]
pub(crate) fn tree_remove(t: &mut sled::Tree, k: &Vec<u8>) -> (r: Result<(), sled::Error>)
    ensures
        r is Ok ==> entries(*final(t)) == entries(*old(t)).remove(k@),
{
    t.remove(k).map(|_| ())
}

/// Relies on sled::Tree::scan_prefix: every entry whose key starts with the
/// prefix, in ascending key order.
#[verifier::external_body]
pub(crate) fn tree_scan(t: &sled::Tree, p: &Vec<u8>) -> (r: Result<Vec<(Vec<u8>, Vec<u8>)>, sled::Error>)
    ensures
        r matches Ok(v) ==> is_ascending_scan(pair_views(v@), entries(*t), p@),
{
    t.scan_prefix(p).map(|e| e.map(|(k, v)| (k.to_vec(), v.to_vec()))).collect()
}

/// Relies on String::from_utf8: the string whose UTF-8 encoding the bytes are,
/// or none when they are not valid UTF-8.
#[verifier::external_body]
pub(crate) fn utf8_string(b: Vec<u8>) -> (r: Option<String>)
    ensures
        r is Some <==> exists|c: Seq<char>| #[trigger] encode_utf8(c) == b@,
        r matches Some(s) ==> encode_utf8(s@) == b@,
{
    String::from_utf8(b).ok()
}

/// The pairs are exactly the entries of `m` whose key starts with `p`,
/// each once, with the keys descending.
pub open spec fn is_descending_scan(v: Seq<(Seq<u8>, Seq<u8>)>, m: Map<Seq<u8>, Seq<u8>>, p: Seq<u8>) -> bool {
    &&& forall|i: int| 0 <= i < v.len() ==> has_prefix(#[trigger] v[i].0, p) && m.contains_key(v[i].0) && m[v[i].0] == v[i].1
    &&& forall|k: Seq<u8>| #[trigger] m.contains_key(k) && has_prefix(k, p) ==> exists|i: int| 0 <= i < v.len() && v[i].0 == k
    &&& forall|i: int, j: int| 0 <= i < j < v.len() ==> bytes_lt(#[trigger] v[j].0, #[trigger] v[i].0)
}

/// `vals` are the values of the entries of `m` under prefix `p`, most recent key first.
pub open spec fn values_desc(vals: Seq<Seq<u8>>, m: Map<Seq<u8>, Seq<u8>>, p: Seq<u8>) -> bool {
    exists|kv: Seq<(Seq<u8>, Seq<u8>)>|
        is_descending_scan(kv, m, p) && #[trigger] kv.len() == vals.len()
            && forall|i: int| 0 <= i < kv.len() ==> #[trigger] kv[i].1 == vals[i]
}

/// The text whose UTF-8 encoding is `b`, when there is one.
pub open spec fn decoded(b: Seq<u8>) -> Seq<char> {
    choose|c: Seq<char>| encode_utf8(c) == b
}

pub open spec fn is_utf8(b: Seq<u8>) -> bool {
    exists|c: Seq<char>| encode_utf8(c) == b
}

/// The texts that the byte strings encode, in order, leaving out those that are not UTF-8.
pub open spec fn decode_all(bs: Seq<Seq<u8>>) -> Seq<Seq<char>>
    decreases bs.len(),
{
    if bs.len() == 0 {
        seq![]
    } else {
        let rest = decode_all(bs.drop_last());
        if is_utf8(bs.last()) {
            rest.push(decoded(bs.last()))
        } else {
            rest
        }
    }
}

pub open spec fn byte_views(v: Seq<Vec<u8>>) -> Seq<Seq<u8>> {
    v.map_values(|b: Vec<u8>| b@)
}

pub open spec fn string_views(v: Seq<String>) -> Seq<Seq<char>> {
    v.map_values(|s: String| s@)
}

/// `ks` are the keys of `m` that start with `p`, each once, descending.
pub open spec fn keys_desc(ks: Seq<Seq<u8>>, m: Map<Seq<u8>, Seq<u8>>, p: Seq<u8>) -> bool {
    exists|kv: Seq<(Seq<u8>, Seq<u8>)>|
        is_descending_scan(kv, m, p) && #[trigger] kv.len() == ks.len()
            && forall|i: int| 0 <= i < kv.len() ==> #[trigger] kv[i].0 == ks[i]
}

pub open spec fn pair_views(v: Seq<(Vec<u8>, Vec<u8>)>) -> Seq<(Seq<u8>, Seq<u8>)> {
    v.map_values(|e: (Vec<u8>, Vec<u8>)| (e.0@, e.1@))
}

/// The same pairs in reverse order.
pub open spec fn reverse_pairs(v: Seq<(Seq<u8>, Seq<u8>)>) -> Seq<(Seq<u8>, Seq<u8>)> {
    Seq::new(v.len(), |i: int| v[v.len() - 1 - i])
}

/// A scan read backwards is a descending scan.
pub proof fn lemma_reverse_scan(asc: Seq<(Seq<u8>, Seq<u8>)>, m: Map<Seq<u8>, Seq<u8>>, p: Seq<u8>)
    requires
        is_ascending_scan(asc, m, p),
    ensures
        is_descending_scan(reverse_pairs(asc), m, p),
{
    let n = asc.len() as int;
    let kv = reverse_pairs(asc);
    assert forall|k: Seq<u8>| #[trigger] m.contains_key(k) && has_prefix(k, p) implies exists|i: int| 0 <= i < kv.len() && kv[i].0 == k by {
        let i0 = choose|i: int| 0 <= i < asc.len() && asc[i].0 == k;
        assert(kv[n - 1 - i0].0 == k);
    }
    assert forall|i: int, j: int| 0 <= i < j < kv.len() implies bytes_lt(#[trigger] kv[j].0, #[trigger] kv[i].0) by {
        assert(kv[j] == asc[n - 1 - j]);
        assert(kv[i] == asc[n - 1 - i]);
    }
    assert forall|i: int| 0 <= i < kv.len() implies has_prefix(#[trigger] kv[i].0, p) && m.contains_key(kv[i].0) && m[kv[i].0] == kv[i].1 by {
        assert(kv[i] == asc[n - 1 - i]);
    }
}

/// Every entry under prefix `p`, in ascending key order.
pub fn scan_pairs(t: &sled::Tree, p: &Vec<u8>) -> (r: Result<Vec<(Vec<u8>, Vec<u8>)>, StoreError>)
    ensures
        r matches Ok(v) ==> is_ascending_scan(pair_views(v@), entries(*t), p@),
        r matches Err(e) ==> e == StoreError::Io,
{
    match tree_scan(t, p) {
        Ok(v) => Ok(v),
        Err(e) => Err(io_error(e)),
    }
}

/// The values of the pairs, last pair first.
pub fn values_descending(asc: Vec<(Vec<u8>, Vec<u8>)>) -> (r: Vec<Vec<u8>>)
    ensures
        byte_views(r@) == Seq::new(asc@.len(), |i: int| asc@[asc@.len() - 1 - i].1@),
{
    let ghost o = asc@;
    let ghost n = o.len();
    let mut rest = asc;
    let mut out: Vec<Vec<u8>> = Vec::new();
    while rest.len() > 0
        invariant
            rest@ == o.subrange(0, rest@.len() as int),
            rest@.len() + out@.len() == n,
            n == o.len(),
            forall|j: int| 0 <= j < out@.len() ==> #[trigger] out@[j]@ == o[n - 1 - j].1@,
        decreases rest@.len(),
    {
        let e = rest.pop().unwrap();
        proof {
            assert(rest@ =~= o.subrange(0, rest@.len() as int));
        }
        out.push(e.1);
    }
    proof {
        assert(byte_views(out@) =~= Seq::new(n, |i: int| o[n - 1 - i].1@));
    }
    out
}

/// The keys of the pairs, last pair first.
pub fn keys_descending(asc: Vec<(Vec<u8>, Vec<u8>)>) -> (r: Vec<Vec<u8>>)
    ensures
        byte_views(r@) == Seq::new(asc@.len(), |i: int| asc@[asc@.len() - 1 - i].0@),
{
    let ghost o = asc@;
    let ghost n = o.len();
    let mut rest = asc;
    let mut out: Vec<Vec<u8>> = Vec::new();
    while rest.len() > 0
        invariant
            rest@ == o.subrange(0, rest@.len() as int),
            rest@.len() + out@.len() == n,
            n == o.len(),
            forall|j: int| 0 <= j < out@.len() ==> #[trigger] out@[j]@ == o[n - 1 - j].0@,
        decreases rest@.len(),
    {
        let e = rest.pop().unwrap();
        proof {
            assert(rest@ =~= o.subrange(0, rest@.len() as int));
        }
        out.push(e.0);
    }
    proof {
        assert(byte_views(out@) =~= Seq::new(n, |i: int| o[n - 1 - i].0@));
    }
    out
}

/// The values stored under keys that start with `p`, in descending key order.
pub fn scan_values_desc(t: &sled::Tree, p: &Vec<u8>) -> (r: Result<Vec<Vec<u8>>, StoreError>)
    ensures
        r matches Ok(v) ==> values_desc(byte_views(v@), entries(*t), p@),
        r matches Err(e) ==> e == StoreError::Io,
{
    let asc = scan_pairs(t, p)?;
    let ghost pv = pair_views(asc@);
    let v = values_descending(asc);
    proof {
        lemma_reverse_scan(pv, entries(*t), p@);
        let kv = reverse_pairs(pv);
        assert(forall|i: int| 0 <= i < kv.len() ==> #[trigger] kv[i].1 == byte_views(v@)[i]);
    }
    Ok(v)
}

/// The keys that start with `p`, in descending order.
pub fn scan_keys_desc(t: &sled::Tree, p: &Vec<u8>) -> (r: Result<Vec<Vec<u8>>, StoreError>)
    ensures
        r matches Ok(v) ==> keys_desc(byte_views(v@), entries(*t), p@),
        r matches Err(e) ==> e == StoreError::Io,
{
    let asc = scan_pairs(t, p)?;
    let ghost pv = pair_views(asc@);
    let v = keys_descending(asc);
    proof {
        lemma_reverse_scan(pv, entries(*t), p@);
        let kv = reverse_pairs(pv);
        assert(forall|i: int| 0 <= i < kv.len() ==> #[trigger] kv[i].0 == byte_views(v@)[i]);
    }
    Ok(v)
}

/// What map `m` holds under key `k`, if anything.
pub open spec fn stored_at(m: Map<Seq<u8>, Seq<u8>>, k: Seq<u8>) -> Option<Seq<u8>> {
    if m.contains_key(k) {
        Some(m[k])
    } else {
        None
    }
}

pub open spec fn opt_bytes(o: Option<Vec<u8>>) -> Option<Seq<u8>> {
    match o {
        Some(v) => Some(v@),
        None => None,
    }
}

/// What reading optional stored text owes: none for nothing stored, the
/// text that the bytes encode, or `Corrupt` when they encode none.
pub open spec fn text_outcome(r: Result<Option<String>, StoreError>, stored: Option<Seq<u8>>) -> bool {
    match stored {
        None => r == Ok::<Option<String>, StoreError>(None),
        Some(b) => if is_utf8(b) {
            r matches Ok(Some(s)) && s@ == decoded(b)
        } else {
            r == Err::<Option<String>, StoreError>(StoreError::Corrupt)
        },
    }
}

/// Decodes optional stored bytes as UTF-8 text.
pub fn text_of(stored: Option<Vec<u8>>) -> (r: Result<Option<String>, StoreError>)
    ensures
        text_outcome(r, opt_bytes(stored)),
{
    match stored {
        None => Ok(None),
        Some(b) => {
            let ghost bv = b@;
            match utf8_string(b) {
                Some(s) => {
                    proof {
                        lemma_encoding_injective(s@, decoded(bv));
                    }
                    Ok(Some(s))
                },
                None => Err(StoreError::Corrupt),
            }
        },
    }
}

/// Decodes each value as UTF-8 text, leaving out those that are not.
pub fn decode_strings(v: Vec<Vec<u8>>) -> (r: Vec<String>)
    ensures
        string_views(r@) == decode_all(byte_views(v@)),
{
    let ghost bs = byte_views(v@);
    let mut rest = v;
    let mut rev: Vec<Vec<u8>> = Vec::new();
    while rest.len() > 0
        invariant
            rev@.len() + rest@.len() == bs.len(),
            byte_views(rest@) == bs.subrange(0, rest@.len() as int),
            forall|j: int| 0 <= j < rev@.len() ==> #[trigger] rev@[j]@ == bs[bs.len() - 1 - j],
        decreases rest@.len(),
    {
        let ghost before = rest@;
        let b = rest.pop().unwrap();
        proof {
            let k = rest@.len() as int;
            assert(byte_views(before)[k] == bs[k]);
            assert(byte_views(rest@) =~= bs.subrange(0, k));
        }
        rev.push(b);
    }
    let mut out: Vec<String> = Vec::new();
    while rev.len() > 0
        invariant
            rev@.len() <= bs.len(),
            forall|j: int| 0 <= j < rev@.len() ==> #[trigger] rev@[j]@ == bs[bs.len() - 1 - j],
            string_views(out@) == decode_all(bs.subrange(0, bs.len() - rev@.len())),
        decreases rev@.len(),
    {
        let ghost before = rev@;
        let ghost k = bs.len() - rev@.len();
        let b = rev.pop().unwrap();
        let ghost bv = b@;
        let ghost s2 = bs.subrange(0, k + 1);
        proof {
            assert(before[before.len() - 1]@ == bs[k]);
            assert(s2.drop_last() =~= bs.subrange(0, k));
            assert(s2.last() == bv);
        }
        match utf8_string(b) {
            Some(s) => {
                proof {
                    assert(encode_utf8(s@) == bv);
                    assert(is_utf8(bv));
                    lemma_encoding_injective(s@, decoded(bv));
                }
                out.push(s);
                proof {
                    assert(string_views(out@) =~= decode_all(s2));
                }
            },
            None => {
                proof {
                    assert(!is_utf8(bv));
                    assert(string_views(out@) =~= decode_all(s2));
                }
            },
        }
    }
    proof {
        assert(bs.subrange(0, bs.len() as int) =~= bs);
    }
    out
}

/// Two texts with the same UTF-8 encoding are the same text.
pub proof fn lemma_encoding_injective(a: Seq<char>, b: Seq<char>)
    ensures
        encode_utf8(a) == encode_utf8(b) ==> a == b,
{
    encode_utf8_decode_utf8(a);
    encode_utf8_decode_utf8(b);
}

/// A text is what its own UTF-8 encoding decodes to.
pub proof fn lemma_decoded_of_encoding(c: Seq<char>)
    ensures
        is_utf8(encode_utf8(c)),
        decoded(encode_utf8(c)) == c,
{
    assert(encode_utf8(c) == encode_utf8(c));
    let d = decoded(encode_utf8(c));
    lemma_encoding_injective(c, d);
}
} // verus!
