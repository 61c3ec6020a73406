//! Canonical lowercase hex rendering of identifier bytes, and its strict
//! inverse. The codec signs the hex form, so both directions carry exact
//! contracts: encoding is injective, and decoding accepts only the canonical
//! spelling.

use vstd::prelude::*;

verus! {

/// The lowercase hex digit (as an ASCII byte) for a nibble.
pub open spec fn hex_digit(n: u8) -> u8
    recommends
        n < 16,
{
    if n < 10 {
        (48 + n) as u8
    } else {
        (87 + n) as u8
    }
}

/// Two lowercase hex digits per byte, high nibble first.
pub open spec fn hex_of(b: Seq<u8>) -> Seq<u8> {
    Seq::new(
        b.len() * 2,
        |i: int| if i % 2 == 0 { hex_digit(b[i / 2] >> 4) } else { hex_digit(b[i / 2] & 0xf) },
    )
}

/// The nibble a lowercase hex digit stands for, if it is one.
pub open spec fn hex_val(c: u8) -> Option<u8> {
    if 48 <= c <= 57 {
        Some((c - 48) as u8)
    } else if 97 <= c <= 102 {
        Some((c - 87) as u8)
    } else {
        None
    }
}

proof fn lemma_hex_digit_val(n: u8)
    requires
        n < 16,
    ensures
        hex_val(hex_digit(n)) == Some(n),
        hex_digit(n) != 46,
{
}

/// Hex digits never collide: the digit determines the nibble.
proof fn lemma_hex_digit_injective(a: u8, b: u8)
    requires
        a < 16,
        b < 16,
        hex_digit(a) == hex_digit(b),
    ensures
        a == b,
{
}

/// No byte of a hex rendering is an ASCII dot, so the token separator can
/// never be confused with the identifier part.
pub proof fn lemma_hex_no_dot(b: Seq<u8>)
    ensures
        forall|i: int| 0 <= i < hex_of(b).len() ==> hex_of(b)[i] != 46,
{
    assert forall|i: int| 0 <= i < hex_of(b).len() implies hex_of(b)[i] != 46 by {
        let x = b[i / 2];
        assert((x >> 4) < 16 && (x & 0xf) < 16) by (bit_vector);
    }
}

/// Every byte of a hex rendering is printable ASCII.
pub proof fn lemma_hex_ascii(b: Seq<u8>, i: int)
    requires
        0 <= i < hex_of(b).len(),
    ensures
        hex_of(b)[i] < 128,
{
    let x = b[i / 2];
    assert((x >> 4) < 16 && (x & 0xf) < 16) by (bit_vector);
}

/// Hex encoding is injective on byte strings.
pub proof fn lemma_hex_of_injective(a: Seq<u8>, b: Seq<u8>)
    requires
        hex_of(a) == hex_of(b),
    ensures
        a == b,
{
    assert(hex_of(a).len() == 2 * a.len());
    assert(hex_of(b).len() == 2 * b.len());
    assert(a.len() == b.len());
    assert forall|i: int| 0 <= i < a.len() implies a[i] == b[i] by {
        let x = a[i];
        let y = b[i];
        assert((2 * i) % 2 == 0 && (2 * i) / 2 == i && (2 * i + 1) % 2 == 1 && (2 * i + 1) / 2
            == i);
        assert(hex_of(a)[2 * i] == hex_digit(x >> 4) && hex_of(b)[2 * i] == hex_digit(y >> 4));
        assert(hex_of(a)[2 * i + 1] == hex_digit(x & 0xf) && hex_of(b)[2 * i + 1] == hex_digit(
            y & 0xf,
        ));
        assert((x >> 4) < 16 && (y >> 4) < 16 && (x & 0xf) < 16 && (y & 0xf) < 16) by (bit_vector);
        lemma_hex_digit_injective(x >> 4, y >> 4);
        lemma_hex_digit_injective(x & 0xf, y & 0xf);
        assert(x >> 4 == y >> 4 && x & 0xf == y & 0xf ==> x == y) by (bit_vector);
    }
    assert(a =~= b);
}

/// Renders bytes as canonical lowercase hex.
pub fn hex_encode(b: &Vec<u8>) -> (r: Vec<u8>)
    ensures
        r@ == hex_of(b@),
{
    let mut r: Vec<u8> = Vec::new();
    let mut i: usize = 0;
    while i < b.len()
        invariant
            i <= b@.len(),
            r@.len() == 2 * i,
            forall|j: int| 0 <= j < r@.len() ==> r@[j] == hex_of(b@)[j],
        decreases b@.len() - i,
    {
        let x = b[i];
        assert(x >> 4 < 16 && x & 0xf < 16) by (bit_vector);
        let hi = x >> 4;
        let lo = x & 0xf;
        let d_hi = if hi < 10 { 48 + hi } else { 87 + hi };
        let d_lo = if lo < 10 { 48 + lo } else { 87 + lo };
        r.push(d_hi);
        r.push(d_lo);
        i = i + 1;
    }
    assert(r@ =~= hex_of(b@));
    r
}

/// Reads back a canonical lowercase hex spelling; any other input is
/// rejected. Succeeds exactly on images of `hex_of`, and then returns the
/// unique preimage.
pub fn hex_decode(s: &Vec<u8>) -> (r: Option<Vec<u8>>)
    ensures
        r matches Some(b) ==> s@ == hex_of(b@) && b@.len() * 2 == s@.len(),
        forall|b: Seq<u8>| s@ == hex_of(b) ==> (r matches Some(d) && d@ == b),
{
    if s.len() % 2 != 0 {
        assert forall|b: Seq<u8>| s@ != hex_of(b) by {}
        return None;
    }
    let n = s.len() / 2;
    let mut out: Vec<u8> = Vec::new();
    let mut i: usize = 0;
    while i < n
        invariant
            s@.len() == 2 * n,
            2 * n <= usize::MAX,
            i <= n,
            out@.len() == i,
            forall|j: int| 0 <= j < i ==> (#[trigger] hex_val(s@[2 * j]) matches Some(hi)
                && hex_val(s@[2 * j + 1]) matches Some(lo)
                && out@[j] == (hi * 16 + lo) as u8),
        decreases n - i,
    {
        let c_hi = s[2 * i];
        let c_lo = s[2 * i + 1];
        let hi = match hex_nibble(c_hi) {
            Some(v) => v,
            None => {
                assert forall|b: Seq<u8>| s@ == hex_of(b) implies false by {
                    let x = b[i as int];
                    assert(s@[2 * i] == hex_digit(x >> 4));
                    assert((x >> 4) < 16) by (bit_vector);
                    lemma_hex_digit_val(x >> 4);
                }
                return None;
            },
        };
        let lo = match hex_nibble(c_lo) {
            Some(v) => v,
            None => {
                assert forall|b: Seq<u8>| s@ == hex_of(b) implies false by {
                    let x = b[i as int];
                    assert(s@[2 * i + 1] == hex_digit(x & 0xf));
                    assert((x & 0xf) < 16) by (bit_vector);
                    lemma_hex_digit_val(x & 0xf);
                }
                return None;
            },
        };
        out.push(hi * 16 + lo);
        i = i + 1;
    }
    proof {
        lemma_hex_decode_post(s@, out@);
    }
    Some(out)
}

/// From the loop's element-wise facts to the two decode postconditions.
proof fn lemma_hex_decode_post(s: Seq<u8>, out: Seq<u8>)
    requires
        s.len() == 2 * out.len(),
        forall|j: int| 0 <= j < out.len() ==> (#[trigger] hex_val(s[2 * j]) matches Some(hi)
            && hex_val(s[2 * j + 1]) matches Some(lo)
            && out[j] == (hi * 16 + lo) as u8),
    ensures
        s == hex_of(out),
        forall|b: Seq<u8>| s == hex_of(b) ==> b == out,
{
    assert forall|i: int| 0 <= i < s.len() implies s[i] == hex_of(out)[i] by {
        let j = i / 2;
        let x = out[j];
        let hi = hex_val(s[2 * j]).unwrap();
        let lo = hex_val(s[2 * j + 1]).unwrap();
        assert(hi < 16 && lo < 16);
        assert(x == hi * 16 + lo);
        assert(hi == x >> 4 && lo == x & 0xf) by (bit_vector)
            requires
                hi < 16 && lo < 16 && x == hi * 16 + lo,
        ;
        lemma_hex_digit_val(hi);
        lemma_hex_digit_val(lo);
        assert(hex_val(s[2 * j]) == Some(hex_val(s[2 * j]).unwrap()));
    }
    assert(s =~= hex_of(out));
    assert forall|b: Seq<u8>| s == hex_of(b) implies b == out by {
        lemma_hex_of_injective(b, out);
    }
}

/// The executable twin of `hex_val`.
fn hex_nibble(c: u8) -> (r: Option<u8>)
    ensures
        r == hex_val(c),
{
    if 48 <= c && c <= 57 {
        Some(c - 48)
    } else if 97 <= c && c <= 102 {
        Some(c - 87)
    } else {
        None
    }
}

} // verus!
