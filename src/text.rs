//! Byte-level text helpers shared by the editing code.

use vstd::prelude::*;
use vstd::utf8::*;

verus! {

broadcast use encode_utf8_valid_utf8;

/// The UTF-8 bytes of a text.
pub open spec fn text_bytes(s: Seq<char>) -> Seq<u8> {
    encode_utf8(s)
}

/// The bytes `[a, b)` lie on character boundaries of valid UTF-8 `src`.
pub open spec fn on_boundaries(src: Seq<u8>, a: int, b: int) -> bool {
    a <= b && partial_valid_utf8(src, a) && partial_valid_utf8(src, b)
}

/// Between two character boundaries lies valid UTF-8.
pub proof fn lemma_valid_between(src: Seq<u8>, a: int, b: int)
    requires
        on_boundaries(src, a, b),
    ensures
        valid_utf8(src.subrange(a, b)),
{
    let t = src.subrange(0, b);
    assert(t.subrange(0, a) =~= src.subrange(0, a));
    assert(t.subrange(a, t.len() as int) =~= src.subrange(a, b));
    if !valid_utf8(src.subrange(a, b)) {
        partial_valid_partial_invalid_utf8(t, a);
    }
}

/// Relies on `String::from_utf8`: valid UTF-8 bytes become the string they encode.
#[verifier::external_body]
pub(crate) fn string_from_utf8(bytes: Vec<u8>) -> (r: String)
    requires
        valid_utf8(bytes@),
    ensures
        r@ == decode_utf8(bytes@),
{
    match String::from_utf8(bytes) {
        Ok(s) => s,
        Err(_) => String::new(),
    }
}

/// The string whose UTF-8 bytes are `bytes`.
pub fn string_of_bytes(bytes: Vec<u8>) -> (r: String)
    requires
        valid_utf8(bytes@),
    ensures
        text_bytes(r@) == bytes@,
{
    let r = string_from_utf8(bytes);
    proof {
        decode_utf8_encode_utf8(bytes@);
    }
    r
}

/// Appends `src[a..b)` to `out`.
pub fn push_range(out: &mut Vec<u8>, src: &[u8], a: usize, b: usize)
    requires
        a <= b <= src@.len(),
    ensures
        final(out)@ == old(out)@ + src@.subrange(a as int, b as int),
{
    let mut i = a;
    while i < b
        invariant
            a <= i <= b <= src@.len(),
            out@ == old(out)@ + src@.subrange(a as int, i as int),
        decreases b - i,
    {
        out.push(src[i]);
        i += 1;
        assert(out@ =~= old(out)@ + src@.subrange(a as int, i as int));
    }
}

/// Appends all of `src` to `out`.
pub fn push_all(out: &mut Vec<u8>, src: &[u8])
    ensures
        final(out)@ == old(out)@ + src@,
{
    push_range(out, src, 0, src.len());
    assert(src@.subrange(0, src@.len() as int) =~= src@);
}

pub open spec fn is_ascii_bytes(b: Seq<u8>) -> bool {
    forall|i: int| 0 <= i < b.len() ==> #[trigger] b[i] <= 0x7f
}

/// A sequence of ASCII bytes is valid UTF-8.
pub proof fn lemma_ascii_valid(b: Seq<u8>)
    requires
        is_ascii_bytes(b),
    ensures
        valid_utf8(b),
{
    assert(b.subrange(0, 0) =~= Seq::<u8>::empty());
    assert forall|i: int| 0 <= 0 <= i < b.len() <= b.len() implies #[trigger] is_leading_byte_width_1(b[i]) by {
        assert(b[i] <= 0x7f);
    }
    partial_valid_utf8_extend_ascii_block(b, 0, b.len() as int);
    assert(b.subrange(0, b.len() as int) =~= b);
}

/// In valid UTF-8, an ASCII byte starts a character.
pub proof fn lemma_ascii_boundary(s: Seq<u8>, i: int)
    requires
        valid_utf8(s),
        0 <= i < s.len(),
        s[i] <= 0x7f,
    ensures
        partial_valid_utf8(s, i),
        partial_valid_utf8(s, i + 1),
    decreases s.len(),
{
    assert(s.subrange(0, 0) =~= Seq::<u8>::empty());
    if i > 0 {
        let k = length_of_first_scalar(s);
        assert(s.subrange(0, s.len() as int) =~= s);
        partial_valid_utf8_extend(s, 0);
        assert(partial_valid_utf8(s, k));
        assert(i >= k);
        let rest = pop_first_scalar(s);
        assert(rest[i - k] == s[i]);
        lemma_ascii_boundary(rest, i - k);
        valid_utf8_concat(s.subrange(0, k), rest.subrange(0, i - k));
        assert(s.subrange(0, k) + rest.subrange(0, i - k) =~= s.subrange(0, i));
    }
    assert(is_leading_byte_width_1(s[i]));
    assert forall|j: int| 0 <= i <= j < i + 1 <= s.len() implies #[trigger] is_leading_byte_width_1(s[j]) by {
        assert(j == i);
    }
    partial_valid_utf8_extend_ascii_block(s, i, i + 1);
}

/// The string of the ASCII bytes `bytes`.
pub fn ascii_string(bytes: Vec<u8>) -> (r: String)
    requires
        is_ascii_bytes(bytes@),
    ensures
        text_bytes(r@) == bytes@,
{
    proof {
        lemma_ascii_valid(bytes@);
    }
    string_of_bytes(bytes)
}

/// Whether two texts are equal, compared byte by byte.
pub fn bytes_eq(a: &[u8], b: &[u8]) -> (r: bool)
    ensures
        r == (a@ == b@),
{
    if a.len() != b.len() {
        return false;
    }
    let mut i: usize = 0;
    while i < a.len()
        invariant
            a@.len() == b@.len(),
            i <= a@.len(),
            forall|k: int| 0 <= k < i ==> a@[k] == b@[k],
        decreases a@.len() - i,
    {
        if a[i] != b[i] {
            return false;
        }
        i += 1;
    }
    assert(a@ =~= b@);
    true
}

/// Whether two strings are equal.
pub fn str_eq(a: &str, b: &str) -> (r: bool)
    ensures
        r == (a@ == b@),
{
    let r = bytes_eq(a.as_bytes(), b.as_bytes());
    proof {
        encode_utf8_decode_utf8(a@);
        encode_utf8_decode_utf8(b@);
    }
    r
}

/// Appends valid text to valid text.
pub fn push_valid(out: &mut Vec<u8>, piece: &[u8])
    requires
        valid_utf8(old(out)@),
        valid_utf8(piece@),
    ensures
        final(out)@ == old(out)@ + piece@,
        valid_utf8(final(out)@),
{
    let ghost before = out@;
    push_all(out, piece);
    proof {
        valid_utf8_concat(before, piece@);
    }
}

/// Appends the bytes of a string to valid text.
pub fn push_str(out: &mut Vec<u8>, s: &str)
    requires
        valid_utf8(old(out)@),
    ensures
        final(out)@ == old(out)@ + text_bytes(s@),
        valid_utf8(final(out)@),
{
    push_valid(out, s.as_bytes());
}

/// The decimal digits of `n`.
pub open spec fn decimal_bytes(n: nat) -> Seq<u8>
    decreases n,
{
    if n < 10 {
        seq![(0x30 + n) as u8]
    } else {
        decimal_bytes(n / 10).push((0x30 + n % 10) as u8)
    }
}

proof fn lemma_decimal_ascii(n: nat)
    ensures
        is_ascii_bytes(decimal_bytes(n)),
    decreases n,
{
    if n >= 10 {
        lemma_decimal_ascii(n / 10);
    }
}

/// Appends the decimal digits of `n` to valid text.
pub fn push_decimal(out: &mut Vec<u8>, n: usize)
    requires
        valid_utf8(old(out)@),
    ensures
        final(out)@ == old(out)@ + decimal_bytes(n as nat),
        valid_utf8(final(out)@),
    decreases n,
{
    let ghost before = out@;
    if n >= 10 {
        push_decimal(out, n / 10);
    }
    let d: u8 = (n % 10) as u8;
    let ghost mid = out@;
    out.push(0x30 + d);
    proof {
        lemma_decimal_ascii(n as nat);
        lemma_ascii_valid(decimal_bytes(n as nat));
        assert(out@ =~= before + decimal_bytes(n as nat));
        valid_utf8_concat(before, decimal_bytes(n as nat));
    }
}

} // verus!
