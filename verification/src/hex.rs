//! Lowercase hex codec: each byte becomes two digits from `0123456789abcdef`.

use vstd::prelude::*;

verus! {

/// The digit standing for a nibble value: `0..=9` map to `'0'..='9'`,
/// `10..=15` map to `'a'..='f'`.
pub open spec fn hex_digit(n: u8) -> u8 {
    if n < 10 {
        (48 + n) as u8
    } else {
        (87 + n) as u8
    }
}

/// Whether `c` is a digit the codec emits: `'0'..='9'` or `'a'..='f'`.
pub open spec fn is_hex_digit(c: u8) -> bool {
    (48 <= c && c <= 57) || (97 <= c && c <= 102)
}

/// The nibble value of a digit.
pub open spec fn hex_value(c: u8) -> u8 {
    if c <= 57 {
        (c - 48) as u8
    } else {
        (c - 87) as u8
    }
}

/// The hex encoding of a byte sequence: for each input byte, the digit of its
/// high nibble and then the digit of its low nibble.
pub open spec fn hex_of(s: Seq<u8>) -> Seq<u8> {
    Seq::new(
        2 * s.len(),
        |i: int| if i % 2 == 0 { hex_digit(s[i / 2] / 16) } else { hex_digit(s[i / 2] % 16) },
    )
}

/// Whether `s` is a sequence the codec could have produced: even length, every
/// byte a lowercase hex digit.
pub open spec fn is_hex_seq(s: Seq<u8>) -> bool {
    &&& s.len() % 2 == 0
    &&& forall|i: int| 0 <= i < s.len() ==> is_hex_digit(#[trigger] s[i])
}

/// The byte sequence a hex sequence stands for: each pair of digits folds back
/// into one byte, high nibble first.
pub open spec fn unhex(s: Seq<u8>) -> Seq<u8> {
    Seq::new(s.len() / 2, |i: int| (16 * hex_value(s[2 * i]) + hex_value(s[2 * i + 1])) as u8)
}

/// Encodes `src` as lowercase hex, two digits per input byte.
pub fn hex_encode(src: &Vec<u8>) -> (r: Vec<u8>)
    requires
        src@.len() <= usize::MAX / 2,
    ensures
        r@ == hex_of(src@),
        r@.len() == 2 * src@.len(),
{
    let mut out: Vec<u8> = Vec::new();
    let mut i: usize = 0;
    while i < src.len()
        invariant
            0 <= i <= src@.len(),
            src@.len() <= usize::MAX / 2,
            out@ == hex_of(src@.subrange(0, i as int)),
        decreases src@.len() - i,
    {
        let b = src[i];
        let hi = b / 16;
        let lo = b % 16;
        out.push(if hi < 10 { 48 + hi } else { 87 + hi });
        out.push(if lo < 10 { 48 + lo } else { 87 + lo });
        i = i + 1;
        proof {
            assert(out@ =~= hex_of(src@.subrange(0, i as int)));
        }
    }
    proof {
        assert(src@.subrange(0, src@.len() as int) =~= src@);
    }
    out
}

/// Decodes a lowercase hex sequence back into bytes.
///
/// Returns `None` exactly when `src` is not a well-formed lowercase hex
/// sequence (odd length, or a byte outside `0-9a-f`).
pub fn hex_decode(src: &Vec<u8>) -> (r: Option<Vec<u8>>)
    ensures
        r is Some <==> is_hex_seq(src@),
        r is Some ==> r->Some_0@ == unhex(src@),
{
    if src.len() % 2 != 0 {
        return None;
    }
    let mut out: Vec<u8> = Vec::new();
    let mut i: usize = 0;
    while i < src.len()
        invariant
            src@.len() % 2 == 0,
            i % 2 == 0,
            0 <= i <= src@.len(),
            forall|j: int| 0 <= j < i ==> is_hex_digit(#[trigger] src@[j]),
            out@ == unhex(src@.subrange(0, i as int)),
        decreases src@.len() - i,
    {
        let c0 = src[i];
        let c1 = src[i + 1];
        let v0 = if 48 <= c0 && c0 <= 57 {
            c0 - 48
        } else if 97 <= c0 && c0 <= 102 {
            c0 - 87
        } else {
            return None;
        };
        let v1 = if 48 <= c1 && c1 <= 57 {
            c1 - 48
        } else if 97 <= c1 && c1 <= 102 {
            c1 - 87
        } else {
            return None;
        };
        out.push(16 * v0 + v1);
        i = i + 2;
        proof {
            assert(out@ =~= unhex(src@.subrange(0, i as int)));
        }
    }
    proof {
        assert(src@.subrange(0, src@.len() as int) =~= src@);
    }
    Some(out)
}

/// Law: decoding inverts encoding, and the encoding of `b` is a well-formed
/// hex sequence of exactly twice `b`'s length.
pub proof fn lemma_hex_round_trip(b: Seq<u8>)
    ensures
        hex_of(b).len() == 2 * b.len(),
        is_hex_seq(hex_of(b)),
        unhex(hex_of(b)) == b,
{
    assert forall|i: int| 0 <= i < hex_of(b).len() implies is_hex_digit(#[trigger] hex_of(b)[i]) by {
        let n = if i % 2 == 0 { b[i / 2] / 16 } else { b[i / 2] % 16 };
        assert(n < 16);
    }
    assert forall|i: int| 0 <= i < b.len() implies unhex(hex_of(b))[i] == b[i] by {
        let hi = b[i] / 16;
        let lo = b[i] % 16;
        assert(hex_of(b)[2 * i] == hex_digit(hi));
        assert(hex_of(b)[2 * i + 1] == hex_digit(lo));
        assert(hex_value(hex_digit(hi)) == hi);
        assert(hex_value(hex_digit(lo)) == lo);
        assert(16 * hi + lo == b[i]) by {
            assert(b[i] == 16 * (b[i] / 16) + b[i] % 16);
        }
    }
    assert(unhex(hex_of(b)) =~= b);
}

/// Law: the encoding pins the input down — two byte sequences with the same
/// hex encoding are equal.
pub proof fn lemma_hex_injective(a: Seq<u8>, b: Seq<u8>)
    requires
        hex_of(a) == hex_of(b),
    ensures
        a == b,
{
    lemma_hex_round_trip(a);
    lemma_hex_round_trip(b);
}

} // verus!
