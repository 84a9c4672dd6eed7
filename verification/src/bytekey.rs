//! Fixed-width big-endian byte keys for 64-bit identifiers.
//!
//! The store keeps every entity under a byte-string key in an ordered
//! key-value tree. Identifiers are laid out as 8 big-endian bytes so that
//! the tree's lexicographic key order coincides with numeric id order.

use vstd::prelude::*;

verus! {

/// The 8 big-endian bytes of `x`, most significant first.
pub open spec fn be8(x: u64) -> Seq<u8> {
    seq![
        (x >> 56) as u8,
        (x >> 48) as u8,
        (x >> 40) as u8,
        (x >> 32) as u8,
        (x >> 24) as u8,
        (x >> 16) as u8,
        (x >> 8) as u8,
        x as u8,
    ]
}

/// Reads a 64-bit value back out of 8 big-endian bytes.
pub open spec fn be8_decode(s: Seq<u8>) -> u64
    recommends
        s.len() == 8,
{
    (((s[0] as u64) << 56) | ((s[1] as u64) << 48) | ((s[2] as u64) << 40) | ((s[3] as u64) << 32)
        | ((s[4] as u64) << 24) | ((s[5] as u64) << 16) | ((s[6] as u64) << 8) | (s[7] as u64))
}

pub proof fn lemma_be8_decode_encode(x: u64)
    ensures
        be8_decode(be8(x)) == x,
{
    assert((((((x >> 56) as u8) as u64) << 56) | ((((x >> 48) as u8) as u64) << 48) | ((((x
        >> 40) as u8) as u64) << 40) | ((((x >> 32) as u8) as u64) << 32) | ((((x
        >> 24) as u8) as u64) << 24) | ((((x >> 16) as u8) as u64) << 16) | ((((x
        >> 8) as u8) as u64) << 8) | ((x as u8) as u64)) == x) by (bit_vector);
}

/// Distinct identifiers have distinct byte keys.
pub proof fn lemma_be8_injective(x: u64, y: u64)
    ensures
        be8(x) == be8(y) ==> x == y,
{
    if be8(x) == be8(y) {
        lemma_be8_decode_encode(x);
        lemma_be8_decode_encode(y);
        assert(be8(x)[0] == be8(y)[0]);
        assert(be8(x)[1] == be8(y)[1]);
        assert(be8(x)[2] == be8(y)[2]);
        assert(be8(x)[3] == be8(y)[3]);
        assert(be8(x)[4] == be8(y)[4]);
        assert(be8(x)[5] == be8(y)[5]);
        assert(be8(x)[6] == be8(y)[6]);
        assert(be8(x)[7] == be8(y)[7]);
    }
}

/// Encodes an identifier as its 8 big-endian bytes.
pub fn u64_to_be8(x: u64) -> (r: Vec<u8>)
    ensures
        r@ == be8(x),
{
    let mut v: Vec<u8> = Vec::new();
    v.push((x >> 56) as u8);
    v.push((x >> 48) as u8);
    v.push((x >> 40) as u8);
    v.push((x >> 32) as u8);
    v.push((x >> 24) as u8);
    v.push((x >> 16) as u8);
    v.push((x >> 8) as u8);
    v.push(x as u8);
    proof {
        assert(v@ =~= be8(x));
    }
    v
}

/// Reads an identifier back out of its 8 big-endian bytes.
pub fn u64_from_be8(s: &[u8]) -> (r: u64)
    requires
        s@.len() == 8,
    ensures
        r == be8_decode(s@),
        be8(r) == s@,
{
    let b0 = s[0];
    let b1 = s[1];
    let b2 = s[2];
    let b3 = s[3];
    let b4 = s[4];
    let b5 = s[5];
    let b6 = s[6];
    let b7 = s[7];
    let r = ((b0 as u64) << 56) | ((b1 as u64) << 48) | ((b2 as u64) << 40) | ((b3 as u64) << 32)
        | ((b4 as u64) << 24) | ((b5 as u64) << 16) | ((b6 as u64) << 8) | (b7 as u64);
    proof {
        lemma_be8_encode_decode(s@);
    }
    r
}

/// Strict lexicographic order on byte strings: `a` comes before `b` when `a`
/// is a proper prefix of `b`, or when the two agree up to some position at
/// which `a` holds the smaller byte. This is the order in which an ordered
/// byte-keyed tree stores and iterates its keys.
pub open spec fn lex_lt(a: Seq<u8>, b: Seq<u8>) -> bool {
    ||| (a.len() < b.len() && a == b.take(a.len() as int))
    ||| (exists|i: int|
        0 <= i < a.len() && i < b.len() && a.take(i) == b.take(i) && a[i] < b[i])
}

/// `p` is a prefix of `k`.
pub open spec fn has_prefix(k: Seq<u8>, p: Seq<u8>) -> bool {
    p.len() <= k.len() && k.take(p.len() as int) == p
}

/// The lexicographic order is irreflexive.
pub proof fn lemma_lex_lt_irreflexive(a: Seq<u8>)
    ensures
        !lex_lt(a, a),
{
    assert(forall|i: int| 0 <= i < a.len() ==> !(a[i] < a[i]));
}

/// On 8-byte keys the lexicographic order agrees with the numeric order of
/// the identifiers they encode.
pub proof fn lemma_be8_lex(x: u64, y: u64)
    ensures
        lex_lt(be8(x), be8(y)) <==> x < y,
{
    let a = be8(x);
    let b = be8(y);
    if x < y {
        lemma_be8_byte_order(x, y);
        let i = choose|i: int| bytes_smaller_at(x, y, i);
        assert(a.take(i) =~= b.take(i));
        assert(lex_lt(a, b));
    }
    if lex_lt(a, b) {
        lemma_be8_lex_to_num(x, y);
    }
}

/// Whether the bytes of `x` and `y` agree strictly before position `i` of
/// their big-endian layout and `x`'s byte at `i` is the smaller one.
pub open spec fn bytes_smaller_at(x: u64, y: u64, i: int) -> bool {
    &&& forall|k: int| 0 <= k < i ==> be8(x)[k] == be8(y)[k]
    &&& 0 <= i < 8
    &&& be8(x)[i] < be8(y)[i]
}

/// A numerically smaller identifier has the smaller byte at the first
/// position where the two 8-byte layouts differ.
proof fn lemma_be8_byte_order(x: u64, y: u64)
    requires
        x < y,
    ensures
        exists|i: int| bytes_smaller_at(x, y, i),
{
    let c0 = (x >> 56) as u8 == (y >> 56) as u8;
    let c1 = (x >> 48) as u8 == (y >> 48) as u8;
    let c2 = (x >> 40) as u8 == (y >> 40) as u8;
    let c3 = (x >> 32) as u8 == (y >> 32) as u8;
    let c4 = (x >> 24) as u8 == (y >> 24) as u8;
    let c5 = (x >> 16) as u8 == (y >> 16) as u8;
    let c6 = (x >> 8) as u8 == (y >> 8) as u8;
    let l0 = ((x >> 56) as u8) < ((y >> 56) as u8);
    let l1 = ((x >> 48) as u8) < ((y >> 48) as u8);
    let l2 = ((x >> 40) as u8) < ((y >> 40) as u8);
    let l3 = ((x >> 32) as u8) < ((y >> 32) as u8);
    let l4 = ((x >> 24) as u8) < ((y >> 24) as u8);
    let l5 = ((x >> 16) as u8) < ((y >> 16) as u8);
    let l6 = ((x >> 8) as u8) < ((y >> 8) as u8);
    let l7 = (x as u8) < (y as u8);
    assert(x < y ==> (((x >> 56) as u8) < ((y >> 56) as u8)) || (((x >> 56) as u8) == ((y >> 56) as u8) && ((x >> 48) as u8) < ((y >> 48) as u8)) || (((x >> 56) as u8) == ((y >> 56) as u8) && ((x >> 48) as u8) == ((y >> 48) as u8) && ((x >> 40) as u8) < ((y >> 40) as u8)) || (((x >> 56) as u8) == ((y >> 56) as u8) && ((x >> 48) as u8) == ((y >> 48) as u8) && ((x >> 40) as u8) == ((y >> 40) as u8) && ((x >> 32) as u8) < ((y >> 32) as u8)) || (((x >> 56) as u8) == ((y >> 56) as u8) && ((x >> 48) as u8) == ((y >> 48) as u8) && ((x >> 40) as u8) == ((y >> 40) as u8) && ((x >> 32) as u8) == ((y >> 32) as u8) && ((x >> 24) as u8) < ((y >> 24) as u8)) || (((x >> 56) as u8) == ((y >> 56) as u8) && ((x >> 48) as u8) == ((y >> 48) as u8) && ((x >> 40) as u8) == ((y >> 40) as u8) && ((x >> 32) as u8) == ((y >> 32) as u8) && ((x >> 24) as u8) == ((y >> 24) as u8) && ((x >> 16) as u8) < ((y >> 16) as u8)) || (((x >> 56) as u8) == ((y >> 56) as u8) && ((x >> 48) as u8) == ((y >> 48) as u8) && ((x >> 40) as u8) == ((y >> 40) as u8) && ((x >> 32) as u8) == ((y >> 32) as u8) && ((x >> 24) as u8) == ((y >> 24) as u8) && ((x >> 16) as u8) == ((y >> 16) as u8) && ((x >> 8) as u8) < ((y >> 8) as u8)) || (((x >> 56) as u8) == ((y >> 56) as u8) && ((x >> 48) as u8) == ((y >> 48) as u8) && ((x >> 40) as u8) == ((y >> 40) as u8) && ((x >> 32) as u8) == ((y >> 32) as u8) && ((x >> 24) as u8) == ((y >> 24) as u8) && ((x >> 16) as u8) == ((y >> 16) as u8) && ((x >> 8) as u8) == ((y >> 8) as u8) && (x as u8) < (y as u8))) by (bit_vector);
    if l0 {
        assert(bytes_smaller_at(x, y, 0));
    } else if c0 && l1 {
        assert(bytes_smaller_at(x, y, 1));
    } else if c0 && c1 && l2 {
        assert(bytes_smaller_at(x, y, 2));
    } else if c0 && c1 && c2 && l3 {
        assert(bytes_smaller_at(x, y, 3));
    } else if c0 && c1 && c2 && c3 && l4 {
        assert(bytes_smaller_at(x, y, 4));
    } else if c0 && c1 && c2 && c3 && c4 && l5 {
        assert(bytes_smaller_at(x, y, 5));
    } else if c0 && c1 && c2 && c3 && c4 && c5 && l6 {
        assert(bytes_smaller_at(x, y, 6));
    } else {
        assert(bytes_smaller_at(x, y, 7));
    }
}

/// The converse: a smaller byte at the first differing position of the
/// big-endian layouts makes the identifier numerically smaller.
proof fn lemma_be8_byte_order_rev(x: u64, y: u64, i: int)
    requires
        bytes_smaller_at(x, y, i),
    ensures
        x < y,
{
    let c0 = (x >> 56) as u8 == (y >> 56) as u8;
    let c1 = (x >> 48) as u8 == (y >> 48) as u8;
    let c2 = (x >> 40) as u8 == (y >> 40) as u8;
    let c3 = (x >> 32) as u8 == (y >> 32) as u8;
    let c4 = (x >> 24) as u8 == (y >> 24) as u8;
    let c5 = (x >> 16) as u8 == (y >> 16) as u8;
    let c6 = (x >> 8) as u8 == (y >> 8) as u8;
    let l0 = ((x >> 56) as u8) < ((y >> 56) as u8);
    let l1 = ((x >> 48) as u8) < ((y >> 48) as u8);
    let l2 = ((x >> 40) as u8) < ((y >> 40) as u8);
    let l3 = ((x >> 32) as u8) < ((y >> 32) as u8);
    let l4 = ((x >> 24) as u8) < ((y >> 24) as u8);
    let l5 = ((x >> 16) as u8) < ((y >> 16) as u8);
    let l6 = ((x >> 8) as u8) < ((y >> 8) as u8);
    let l7 = (x as u8) < (y as u8);
    assert(((((x >> 56) as u8) < ((y >> 56) as u8)) || (((x >> 56) as u8) == ((y >> 56) as u8) && ((x >> 48) as u8) < ((y >> 48) as u8)) || (((x >> 56) as u8) == ((y >> 56) as u8) && ((x >> 48) as u8) == ((y >> 48) as u8) && ((x >> 40) as u8) < ((y >> 40) as u8)) || (((x >> 56) as u8) == ((y >> 56) as u8) && ((x >> 48) as u8) == ((y >> 48) as u8) && ((x >> 40) as u8) == ((y >> 40) as u8) && ((x >> 32) as u8) < ((y >> 32) as u8)) || (((x >> 56) as u8) == ((y >> 56) as u8) && ((x >> 48) as u8) == ((y >> 48) as u8) && ((x >> 40) as u8) == ((y >> 40) as u8) && ((x >> 32) as u8) == ((y >> 32) as u8) && ((x >> 24) as u8) < ((y >> 24) as u8)) || (((x >> 56) as u8) == ((y >> 56) as u8) && ((x >> 48) as u8) == ((y >> 48) as u8) && ((x >> 40) as u8) == ((y >> 40) as u8) && ((x >> 32) as u8) == ((y >> 32) as u8) && ((x >> 24) as u8) == ((y >> 24) as u8) && ((x >> 16) as u8) < ((y >> 16) as u8)) || (((x >> 56) as u8) == ((y >> 56) as u8) && ((x >> 48) as u8) == ((y >> 48) as u8) && ((x >> 40) as u8) == ((y >> 40) as u8) && ((x >> 32) as u8) == ((y >> 32) as u8) && ((x >> 24) as u8) == ((y >> 24) as u8) && ((x >> 16) as u8) == ((y >> 16) as u8) && ((x >> 8) as u8) < ((y >> 8) as u8)) || (((x >> 56) as u8) == ((y >> 56) as u8) && ((x >> 48) as u8) == ((y >> 48) as u8) && ((x >> 40) as u8) == ((y >> 40) as u8) && ((x >> 32) as u8) == ((y >> 32) as u8) && ((x >> 24) as u8) == ((y >> 24) as u8) && ((x >> 16) as u8) == ((y >> 16) as u8) && ((x >> 8) as u8) == ((y >> 8) as u8) && (x as u8) < (y as u8))) ==> x < y) by (bit_vector);
    if i == 0 {
        assert(l0);
    } else if i == 1 {
        assert(c0 && l1);
    } else if i == 2 {
        assert(c0 && c1 && l2);
    } else if i == 3 {
        assert(c0 && c1 && c2 && l3);
    } else if i == 4 {
        assert(c0 && c1 && c2 && c3 && l4);
    } else if i == 5 {
        assert(c0 && c1 && c2 && c3 && c4 && l5);
    } else {
        if i == 6 {
            assert(c0 && c1 && c2 && c3 && c4 && c5 && l6);
        } else {
            assert(c0 && c1 && c2 && c3 && c4 && c5 && c6 && l7);
        }
    }
}

/// If `x`'s key comes lexicographically before `y`'s, then `x` is smaller.
proof fn lemma_be8_lex_to_num(x: u64, y: u64)
    requires
        lex_lt(be8(x), be8(y)),
    ensures
        x < y,
{
    let a = be8(x);
    let b = be8(y);
    let i = choose|i: int|
        0 <= i < a.len() && i < b.len() && a.take(i) == b.take(i) && a[i] < b[i];
    assert forall|k: int| 0 <= k < i implies a[k] == b[k] by {
        assert(a.take(i)[k] == b.take(i)[k]);
    }
    assert(bytes_smaller_at(x, y, i));
    lemma_be8_byte_order_rev(x, y, i);
}

/// Encoding inverts decoding on any 8-byte key.
pub proof fn lemma_be8_encode_decode(s: Seq<u8>)
    requires
        s.len() == 8,
    ensures
        be8(be8_decode(s)) == s,
{
    let b0 = s[0];
    let b1 = s[1];
    let b2 = s[2];
    let b3 = s[3];
    let b4 = s[4];
    let b5 = s[5];
    let b6 = s[6];
    let b7 = s[7];
    let x = be8_decode(s);
    assert({
        let y = (((b0 as u64) << 56) | ((b1 as u64) << 48) | ((b2 as u64) << 40) | ((
        b3 as u64) << 32) | ((b4 as u64) << 24) | ((b5 as u64) << 16) | ((b6 as u64) << 8) | (
        b7 as u64));
        (y >> 56) as u8 == b0 && (y >> 48) as u8 == b1 && (y >> 40) as u8 == b2 && (y >> 32) as u8
            == b3 && (y >> 24) as u8 == b4 && (y >> 16) as u8 == b5 && (y >> 8) as u8 == b6
            && y as u8 == b7
    }) by (bit_vector);
    assert(be8(x) =~= s);
}

} // verus!
