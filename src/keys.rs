//! Composite keys: identifier segments, each followed by a separator byte.
use vstd::prelude::*;
use vstd::string::*;
use vstd::utf8::*;

verus! {

/// The byte that ends every segment of a composite key.
pub const SEPARATOR: u8 = 0xff;

/// A segment: the UTF-8 bytes of an identifier.
pub open spec fn seg(s: Seq<char>) -> Seq<u8> {
    encode_utf8(s)
}

/// True when the bytes never hold the separator.
pub open spec fn no_separator(b: Seq<u8>) -> bool {
    forall|i: int| 0 <= i < b.len() ==> b[i] != SEPARATOR
}

/// The prefix that bounds a scan over everything below one segment.
pub open spec fn prefix_of(a: Seq<u8>) -> Seq<u8> {
    a.push(SEPARATOR)
}

/// Key of a pair of identifiers, as stored: `a ++ 0xff ++ b`.
pub open spec fn key_of(a: Seq<u8>, b: Seq<u8>) -> Seq<u8> {
    prefix_of(a) + b
}

/// Key of three identifiers: `a ++ 0xff ++ b ++ 0xff ++ c`.
pub open spec fn key3_of(a: Seq<u8>, b: Seq<u8>, c: Seq<u8>) -> Seq<u8> {
    prefix_of(a) + prefix_of(b) + c
}

pub open spec fn has_prefix(k: Seq<u8>, p: Seq<u8>) -> bool {
    p.len() <= k.len() && k.subrange(0, p.len() as int) == p
}

/// Appends the bytes of `s` to `v`.
fn push_bytes(v: &mut Vec<u8>, s: &str)
    ensures
        final(v)@ == old(v)@ + seg(s@),
{
    let b = s.as_bytes();
    let ghost start = v@;
    let mut i: usize = 0;
    while i < b.len()
        invariant
            b@ == seg(s@),
            0 <= i <= b@.len(),
            v@ == start + b@.subrange(0, i as int),
        decreases b@.len() - i,
    {
        v.push(b[i]);
        i = i + 1;
        proof {
            assert(b@.subrange(0, i as int) == b@.subrange(0, i - 1) .push(b@[i - 1]));
        }
    }
    proof {
        assert(b@.subrange(0, b@.len() as int) == b@);
    }
}

/// The key of a single identifier: its bytes.
pub fn name_key(a: &str) -> (r: Vec<u8>)
    ensures
        r@ == seg(a@),
{
    let mut v: Vec<u8> = Vec::new();
    push_bytes(&mut v, a);
    v
}

/// The scan prefix `a ++ 0xff`, which bounds every key that starts with segment `a`.
pub fn key_prefix(a: &str) -> (r: Vec<u8>)
    ensures
        r@ == prefix_of(seg(a@)),
{
    let mut v: Vec<u8> = Vec::new();
    push_bytes(&mut v, a);
    v.push(SEPARATOR);
    v
}

/// The composite key `a ++ 0xff ++ b`.
pub fn key(a: &str, b: &str) -> (r: Vec<u8>)
    ensures
        r@ == key_of(seg(a@), seg(b@)),
{
    let mut v = key_prefix(a);
    push_bytes(&mut v, b);
    v
}

/// The composite key `a ++ 0xff ++ b ++ 0xff ++ c`.
pub fn key3(a: &str, b: &str, c: &str) -> (r: Vec<u8>)
    ensures
        r@ == key3_of(seg(a@), seg(b@), seg(c@)),
{
    let mut v = key_prefix(a);
    push_bytes(&mut v, b);
    v.push(SEPARATOR);
    push_bytes(&mut v, c);
    proof {
        assert(v@ == key3_of(seg(a@), seg(b@), seg(c@)));
    }
    v
}

/// The composite key `a ++ 0xff ++ b ++ 0xff ++ c`, with `b` given as raw bytes.
pub fn key3_raw(a: &str, b: &Vec<u8>, c: &str) -> (r: Vec<u8>)
    ensures
        r@ == key3_of(seg(a@), b@, seg(c@)),
{
    let mut v = key_prefix(a);
    let ghost start = v@;
    let mut i: usize = 0;
    while i < b.len()
        invariant
            0 <= i <= b@.len(),
            v@ == start + b@.subrange(0, i as int),
        decreases b@.len() - i,
    {
        v.push(b[i]);
        i = i + 1;
        proof {
            assert(b@.subrange(0, i as int) == b@.subrange(0, i - 1).push(b@[i - 1]));
        }
    }
    proof {
        assert(b@.subrange(0, b@.len() as int) == b@);
    }
    v.push(SEPARATOR);
    push_bytes(&mut v, c);
    proof {
        assert(v@ == key3_of(seg(a@), b@, seg(c@)));
    }
    v
}

/// A key of account `a` never starts with the prefix of another account `b`,
/// as long as neither name holds the separator byte.
pub proof fn lemma_prefix_isolation(a: Seq<u8>, b: Seq<u8>, rest: Seq<u8>)
    requires
        no_separator(a),
        no_separator(b),
        a != b,
    ensures
        !has_prefix(prefix_of(a) + rest, prefix_of(b)),
{
    let k = prefix_of(a) + rest;
    let p = prefix_of(b);
    if has_prefix(k, p) {
        if a.len() < b.len() {
            assert(k[a.len() as int] == SEPARATOR);
            assert(p[a.len() as int] == b[a.len() as int]);
        } else if a.len() > b.len() {
            assert(p[b.len() as int] == SEPARATOR);
            assert(k[b.len() as int] == a[b.len() as int]);
        } else {
            assert forall|i: int| 0 <= i < a.len() implies a[i] == b[i] by {
                assert(k[i] == p[i]);
            }
            assert(a == b);
        }
    }
}

/// Three-segment keys that share the outer segments are equal exactly when
/// the middle segments are.
pub proof fn lemma_key3_injective(a: Seq<u8>, b1: Seq<u8>, b2: Seq<u8>, c: Seq<u8>)
    ensures
        key3_of(a, b1, c) == key3_of(a, b2, c) <==> b1 == b2,
{
    if key3_of(a, b1, c) == key3_of(a, b2, c) {
        let s = a.len() as int + 1;
        assert(key3_of(a, b1, c).len() == s + b1.len() + 1 + c.len());
        assert(key3_of(a, b2, c).len() == s + b2.len() + 1 + c.len());
        assert(b1.len() == b2.len());
        assert(b1 =~= key3_of(a, b1, c).subrange(s, s + b1.len()));
        assert(b2 =~= key3_of(a, b2, c).subrange(s, s + b2.len()));
    }
}
proof fn lemma_scalar_no_separator(x: u32)
    ensures
        no_separator(encode_scalar(x)),
{
    assert(((x & 0x7F) as u8) != 0xff) by (bit_vector);
    assert((0xC0u8 | ((x >> 6u32) & 0x1F) as u8) != 0xff) by (bit_vector);
    assert((0xE0u8 | ((x >> 12u32) & 0x0F) as u8) != 0xff) by (bit_vector);
    assert((0xF0u8 | ((x >> 18u32) & 0x7) as u8) != 0xff) by (bit_vector);
    assert((0x80u8 | (x & 0x3F) as u8) != 0xff) by (bit_vector);
    assert((0x80u8 | ((x >> 6u32) & 0x3F) as u8) != 0xff) by (bit_vector);
    assert((0x80u8 | ((x >> 12u32) & 0x3F) as u8) != 0xff) by (bit_vector);
}

/// UTF-8 text never holds the separator byte.
pub proof fn lemma_seg_no_separator(c: Seq<char>)
    ensures
        no_separator(seg(c)),
    decreases c.len(),
{
    if c.len() > 0 {
        lemma_scalar_no_separator(c[0] as u32);
        lemma_seg_no_separator(c.drop_first());
        let a = encode_scalar(c[0] as u32);
        let b = encode_utf8(c.drop_first());
        assert(seg(c) == a + b);
        assert forall|i: int| 0 <= i < (a + b).len() implies (a + b)[i] != SEPARATOR by {
            if i >= a.len() {
                assert((a + b)[i] == b[i - a.len()]);
            }
        }
    }
}

/// Keys of two text segments are equal only when both segments are.
pub proof fn lemma_key_split(a1: Seq<char>, b1: Seq<char>, a2: Seq<char>, b2: Seq<char>)
    ensures
        key_of(seg(a1), seg(b1)) == key_of(seg(a2), seg(b2)) ==> seg(a1) == seg(a2) && seg(b1) == seg(b2),
{
    lemma_seg_no_separator(a1);
    lemma_seg_no_separator(a2);
    let (x1, x2) = (seg(a1), seg(a2));
    let (k1, k2) = (key_of(x1, seg(b1)), key_of(x2, seg(b2)));
    if k1 == k2 {
        if x1.len() < x2.len() {
            assert(k1[x1.len() as int] == SEPARATOR);
            assert(k2[x1.len() as int] == x2[x1.len() as int]);
        } else if x2.len() < x1.len() {
            assert(k2[x2.len() as int] == SEPARATOR);
            assert(k1[x2.len() as int] == x1[x2.len() as int]);
        } else {
            assert(x1 =~= k1.subrange(0, x1.len() as int));
            assert(x2 =~= k2.subrange(0, x2.len() as int));
            let n = x1.len() as int + 1;
            assert(seg(b1) =~= k1.subrange(n, k1.len() as int));
            assert(seg(b2) =~= k2.subrange(n, k2.len() as int));
        }
    }
}
} // verus!
