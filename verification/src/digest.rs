//! BLAKE3 digests and their hexadecimal form.

use vstd::prelude::*;

use crate::text::push_char;

verus! {

/// The BLAKE3 digest of a byte string, 32 bytes: an outside algorithm whose
/// result is only named here.
pub uninterp spec fn blake3_digest(input: Seq<u8>) -> Seq<u8>;

/// `blake3::hash`: the default 32-byte BLAKE3 digest of `input`. The contract
/// claims only that the result depends on the input alone, through
/// `blake3_digest`. BLAKE3 is a hash of the whole byte stream, so feeding the
/// pieces one after the other to a `Hasher` comes to hashing them
/// concatenated; callers build that concatenation and hash it once.
#[verifier::external_body]
pub(crate) fn blake3_hash(input: &[u8]) -> (digest: [u8; 32])
    ensures
        digest@ == blake3_digest(input@),
{
    *blake3::hash(input).as_bytes()
}

/// Lowercase hexadecimal digit for a value below sixteen.
pub open spec fn hex_digit(v: u8) -> char {
    if v < 10 {
        (48 + v) as char
    } else {
        (87 + v) as char
    }
}

/// Lowercase hexadecimal encoding, two digits per byte, high nibble first.
pub open spec fn lower_hex(bytes: Seq<u8>) -> Seq<char>
    decreases bytes.len(),
{
    if bytes.len() == 0 {
        seq![]
    } else {
        seq![hex_digit(bytes[0] / 16), hex_digit(bytes[0] % 16)] + lower_hex(bytes.drop_first())
    }
}

/// The value of a lowercase hexadecimal digit.
pub open spec fn hex_value(c: char) -> int {
    if '0' <= c <= '9' {
        c as int - 48
    } else {
        c as int - 87
    }
}

/// The hexadecimal encoding uses the digits `0`-`9` and the lowercase letters
/// `a`-`f` only, and reading its digits back two by two, high nibble first,
/// gives the bytes again.
pub proof fn lower_hex_reads_back(bytes: Seq<u8>)
    ensures
        lower_hex(bytes).len() == 2 * bytes.len(),
        forall|i: int|
            0 <= i < lower_hex(bytes).len() ==> ('0' <= #[trigger] lower_hex(bytes)[i] <= '9' || 'a'
                <= lower_hex(bytes)[i] <= 'f'),
        forall|i: int|
            0 <= i < bytes.len() ==> 16 * hex_value(lower_hex(bytes)[2 * i]) + hex_value(
                lower_hex(bytes)[2 * i + 1],
            ) == #[trigger] bytes[i],
    decreases bytes.len(),
{
    if bytes.len() > 0 {
        let rest = bytes.drop_first();
        lower_hex_reads_back(rest);
        let hi = bytes[0] / 16;
        let lo = bytes[0] % 16;
        let head = seq![hex_digit(hi), hex_digit(lo)];
        let h = lower_hex(bytes);
        assert(h == head + lower_hex(rest));
        assert(hex_digit(hi) as int == (if hi < 10 { 48 + hi } else { 87 + hi }));
        assert(hex_digit(lo) as int == (if lo < 10 { 48 + lo } else { 87 + lo }));
        assert forall|i: int| 0 <= i < h.len() implies ('0' <= #[trigger] h[i] <= '9' || 'a' <= h[i]
            <= 'f') by {
            if i >= 2 {
                assert(h[i] == lower_hex(rest)[i - 2]);
            }
        }
        assert forall|i: int| 0 <= i < bytes.len() implies 16 * hex_value(h[2 * i]) + hex_value(
            h[2 * i + 1],
        ) == #[trigger] bytes[i] by {
            if i > 0 {
                assert(bytes[i] == rest[i - 1]);
                assert(h[2 * i] == lower_hex(rest)[2 * (i - 1)]);
                assert(h[2 * i + 1] == lower_hex(rest)[2 * (i - 1) + 1]);
            }
        }
    }
}

/// The lowercase hexadecimal digit for a value below sixteen.
fn hex_char(v: u8) -> (c: char)
    requires
        v < 16,
    ensures
        c == hex_digit(v),
{
    if v < 10 {
        ((48 + v) as u8) as char
    } else {
        ((87 + v) as u8) as char
    }
}

/// A digest in lowercase hexadecimal, two digits per byte, high nibble first,
/// as `blake3::Hash::to_hex` writes it.
pub(crate) fn digest_hex(digest: &[u8; 32]) -> (hex: String)
    ensures
        hex@ == lower_hex(digest@),
        hex@.len() == 64,
{
    let mut hex = String::new();
    let mut i: usize = 0;
    assert(digest@.skip(0) =~= digest@);
    while i < 32
        invariant
            i <= 32,
            digest@.len() == 32,
            lower_hex(digest@) == hex@ + lower_hex(digest@.skip(i as int)),
        decreases 32 - i,
    {
        let b = digest[i];
        let ghost rest = digest@.skip(i as int);
        assert(rest[0] == b);
        assert(rest.drop_first() =~= digest@.skip(i + 1));
        push_char(&mut hex, hex_char(b / 16));
        push_char(&mut hex, hex_char(b % 16));
        assert(lower_hex(rest) == seq![hex_digit(b / 16), hex_digit(b % 16)] + lower_hex(
            digest@.skip(i + 1),
        ));
        assert(hex@ + lower_hex(digest@.skip(i + 1)) =~= lower_hex(digest@));
        i = i + 1;
    }
    assert(digest@.skip(32) =~= Seq::<u8>::empty());
    assert(lower_hex(Seq::<u8>::empty()) =~= Seq::<char>::empty());
    assert(hex@ =~= lower_hex(digest@));
    proof {
        lemma_lower_hex_ascii(digest@);
    }
    hex
}

/// A hexadecimal encoding is made of ASCII digits and letters, two per byte.
pub proof fn lemma_lower_hex_ascii(bytes: Seq<u8>)
    ensures
        lower_hex(bytes).len() == 2 * bytes.len(),
        vstd::utf8::is_ascii_chars(lower_hex(bytes)),
    decreases bytes.len(),
{
    if bytes.len() > 0 {
        lemma_lower_hex_ascii(bytes.drop_first());
        let head = seq![hex_digit(bytes[0] / 16), hex_digit(bytes[0] % 16)];
        assert(lower_hex(bytes) == head + lower_hex(bytes.drop_first()));
        assert forall|i: int| 0 <= i < lower_hex(bytes).len() implies '\0' <= #[trigger] lower_hex(
            bytes,
        )[i] <= '\u{7f}' by {
            if i >= 2 {
                assert(lower_hex(bytes)[i] == lower_hex(bytes.drop_first())[i - 2]);
            }
        }
    }
}

} // verus!
