//! Small text operations the tables and signatures are built from.
//!
//! `trim`, `eq_ignore_ascii_case` and decimal formatting are stated here in
//! full; Unicode lowercasing is the one whose result is only named.

use vstd::prelude::*;
use vstd::string::*;
use vstd::utf8::*;

verus! {

/// The characters that carry the Unicode `White_Space` property, which is how
/// `char::is_whitespace` and therefore `str::trim` decide what to strip.
pub open spec fn is_white_space(c: char) -> bool {
    let u = c as u32;
    ||| 0x09 <= u <= 0x0d
    ||| u == 0x20
    ||| u == 0x85
    ||| u == 0xa0
    ||| u == 0x1680
    ||| 0x2000 <= u <= 0x200a
    ||| u == 0x2028
    ||| u == 0x2029
    ||| u == 0x202f
    ||| u == 0x205f
    ||| u == 0x3000
}

/// `s` without its leading white space.
pub open spec fn trim_start_spec(s: Seq<char>) -> Seq<char>
    decreases s.len(),
{
    if s.len() > 0 && is_white_space(s[0]) {
        trim_start_spec(s.drop_first())
    } else {
        s
    }
}

/// `s` without its trailing white space.
pub open spec fn trim_end_spec(s: Seq<char>) -> Seq<char>
    decreases s.len(),
{
    if s.len() > 0 && is_white_space(s.last()) {
        trim_end_spec(s.drop_last())
    } else {
        s
    }
}

/// `s` without white space at either end.
pub open spec fn trim_spec(s: Seq<char>) -> Seq<char> {
    trim_end_spec(trim_start_spec(s))
}

/// `t` is `s[i..j]`, everything of `s` before `i` and from `j` on is white
/// space, and `t` neither starts nor ends with white space.
pub open spec fn trimmed_at(t: Seq<char>, s: Seq<char>, i: int, j: int) -> bool {
    &&& 0 <= i <= j <= s.len()
    &&& t == s.subrange(i, j)
    &&& forall|k: int| 0 <= k < i ==> is_white_space(#[trigger] s[k])
    &&& forall|k: int| j <= k < s.len() ==> is_white_space(#[trigger] s[k])
    &&& t.len() > 0 ==> !is_white_space(t[0]) && !is_white_space(t.last())
}

/// `t` is `s` with the white space at both ends cut away and every other
/// character kept as written.
pub open spec fn is_trim_of(t: Seq<char>, s: Seq<char>) -> bool {
    exists|i: int, j: int| #[trigger] trimmed_at(t, s, i, j)
}

/// `s` holds white space only.
pub open spec fn is_blank(s: Seq<char>) -> bool {
    forall|k: int| 0 <= k < s.len() ==> is_white_space(#[trigger] s[k])
}

/// Where `trim_start_spec` cuts: the leading white space is `s[..a]`.
proof fn lemma_trim_start_cut(s: Seq<char>) -> (a: int)
    ensures
        0 <= a <= s.len(),
        trim_start_spec(s) == s.subrange(a, s.len() as int),
        forall|k: int| 0 <= k < a ==> is_white_space(#[trigger] s[k]),
        a < s.len() ==> !is_white_space(s[a]),
    decreases s.len(),
{
    if s.len() > 0 && is_white_space(s[0]) {
        let rest = s.drop_first();
        let b = lemma_trim_start_cut(rest);
        assert(rest.subrange(b, rest.len() as int) =~= s.subrange(b + 1, s.len() as int));
        assert forall|k: int| 0 <= k < b + 1 implies is_white_space(#[trigger] s[k]) by {
            if k > 0 {
                assert(s[k] == rest[k - 1]);
            }
        }
        if b + 1 < s.len() {
            assert(s[b + 1] == rest[b]);
        }
        b + 1
    } else {
        assert(s.subrange(0, s.len() as int) =~= s);
        0
    }
}

/// Where `trim_end_spec` cuts: the trailing white space is `s[b..]`.
proof fn lemma_trim_end_cut(s: Seq<char>) -> (b: int)
    ensures
        0 <= b <= s.len(),
        trim_end_spec(s) == s.subrange(0, b),
        forall|k: int| b <= k < s.len() ==> is_white_space(#[trigger] s[k]),
        b > 0 ==> !is_white_space(s[b - 1]),
    decreases s.len(),
{
    if s.len() > 0 && is_white_space(s.last()) {
        let rest = s.drop_last();
        let c = lemma_trim_end_cut(rest);
        assert(rest.subrange(0, c) =~= s.subrange(0, c));
        assert forall|k: int| c <= k < s.len() implies is_white_space(#[trigger] s[k]) by {
            if k < s.len() - 1 {
                assert(s[k] == rest[k]);
            }
        }
        if c > 0 {
            assert(s[c - 1] == rest[c - 1]);
        }
        c
    } else {
        assert(s.subrange(0, s.len() as int) =~= s);
        s.len() as int
    }
}

/// Trimming cuts the white space away at both ends of a string and changes
/// nothing else: the result is a run of the original, every character cut
/// away is white space, and the run neither starts nor ends with white space.
pub proof fn trim_keeps_the_inner_text(s: Seq<char>)
    ensures
        is_trim_of(trim_spec(s), s),
{
    let a = lemma_trim_start_cut(s);
    let u = trim_start_spec(s);
    let b = lemma_trim_end_cut(u);
    let t = trim_spec(s);
    assert(t =~= s.subrange(a, a + b));
    assert forall|k: int| a + b <= k < s.len() implies is_white_space(#[trigger] s[k]) by {
        assert(s[k] == u[k - a]);
    }
    if t.len() > 0 {
        assert(t[0] == u[0]);
        assert(u[0] == s[a]);
        assert(t.last() == u[b - 1]);
    }
    assert(trimmed_at(t, s, a, a + b));
}

/// A trimmed string is empty exactly when the original is blank.
pub proof fn trim_is_empty_iff_blank(s: Seq<char>)
    ensures
        trim_spec(s).len() == 0 <==> is_blank(s),
{
    trim_keeps_the_inner_text(s);
    let t = trim_spec(s);
    let (i, j) = choose|i: int, j: int| #[trigger] trimmed_at(t, s, i, j);
    if t.len() == 0 {
        assert forall|k: int| 0 <= k < s.len() implies is_white_space(#[trigger] s[k]) by {
            if i <= k < j {
                assert(t.len() == j - i);
            }
        }
    } else if is_blank(s) {
        assert(t[0] == s[i]);
    }
}

/// `str::trim`: strips leading and trailing white space, as defined by the
/// Unicode `White_Space` property, and returns what is left.
#[verifier::external_body]
pub(crate) fn trim(s: &str) -> (t: &str)
    ensures
        t@ == trim_spec(s@),
{
    s.trim()
}

/// Result of `str::to_lowercase` on a string: the full Unicode lowercase
/// mapping, which takes pages of tables to state.
pub uninterp spec fn unicode_lowercase(s: Seq<char>) -> Seq<char>;

/// `str::to_lowercase`: returns the string mapped to lowercase by the Unicode
/// rules; the contract only ties the result to the argument through
/// `unicode_lowercase`.
#[verifier::external_body]
pub(crate) fn to_lowercase(s: &str) -> (l: String)
    ensures
        l@ == unicode_lowercase(s@),
{
    s.to_lowercase()
}

/// `String::push`: appends one character.
#[verifier::external_body]
pub(crate) fn push_char(s: &mut String, c: char)
    ensures
        final(s)@ == old(s)@.push(c),
{
    s.push(c)
}

/// `u8::to_ascii_lowercase`.
pub open spec fn ascii_lower(b: u8) -> u8 {
    if 65 <= b <= 90 {
        (b + 32) as u8
    } else {
        b
    }
}

/// `<[u8]>::eq_ignore_ascii_case`: same length, and the same bytes once ASCII
/// letters are folded to lowercase.
pub open spec fn bytes_eq_ignore_ascii_case(a: Seq<u8>, b: Seq<u8>) -> bool {
    &&& a.len() == b.len()
    &&& forall|i: int| 0 <= i < a.len() ==> ascii_lower(#[trigger] a[i]) == ascii_lower(b[i])
}

/// `<[u8]>::eq_ignore_ascii_case`: same length, and the same bytes once ASCII
/// letters are folded to lowercase.
pub(crate) fn bytes_eq_ignore_ascii_case_exec(x: &[u8], y: &[u8]) -> (same: bool)
    ensures
        same == bytes_eq_ignore_ascii_case(x@, y@),
{
    if x.len() != y.len() {
        return false;
    }
    let mut i: usize = 0;
    while i < x.len()
        invariant
            x@.len() == y@.len(),
            i <= x@.len(),
            forall|k: int| 0 <= k < i ==> ascii_lower(#[trigger] x@[k]) == ascii_lower(y@[k]),
        decreases x@.len() - i,
    {
        let p = if 65 <= x[i] && x[i] <= 90 { x[i] + 32 } else { x[i] };
        let q = if 65 <= y[i] && y[i] <= 90 { y[i] + 32 } else { y[i] };
        if p != q {
            assert(ascii_lower(x@[i as int]) != ascii_lower(y@[i as int]));
            return false;
        }
        i = i + 1;
    }
    true
}

/// `str::eq_ignore_ascii_case`: compares the UTF-8 bytes of both strings,
/// ignoring the case of ASCII letters only.
pub(crate) fn eq_ignore_ascii_case(a: &str, b: &str) -> (same: bool)
    ensures
        same == bytes_eq_ignore_ascii_case(a.spec_bytes(), b.spec_bytes()),
{
    bytes_eq_ignore_ascii_case_exec(a.as_bytes(), b.as_bytes())
}

/// Whether two strings hold the same characters.
pub(crate) fn same_text(a: &str, b: &str) -> (same: bool)
    ensures
        same == (a@ == b@),
{
    let x = a.as_bytes();
    let y = b.as_bytes();
    if x.len() != y.len() {
        return false;
    }
    let mut i: usize = 0;
    while i < x.len()
        invariant
            x@ == a.spec_bytes(),
            y@ == b.spec_bytes(),
            x@.len() == y@.len(),
            i <= x@.len(),
            forall|k: int| 0 <= k < i ==> #[trigger] x@[k] == y@[k],
        decreases x@.len() - i,
    {
        if x[i] != y[i] {
            return false;
        }
        i = i + 1;
    }
    proof {
        assert(x@ =~= y@);
        encode_utf8_decode_utf8(a@);
        encode_utf8_decode_utf8(b@);
    }
    true
}

/// The decimal digit for `d`, which is below ten.
pub open spec fn digit_char(d: nat) -> char {
    (48 + d) as char
}

/// Decimal representation of `n`, as `Display` writes an unsigned integer.
pub open spec fn decimal_spec(n: nat) -> Seq<char>
    decreases n,
{
    if n < 10 {
        seq![digit_char(n)]
    } else {
        decimal_spec(n / 10).push(digit_char(n % 10))
    }
}

/// Decimal representation of `n`, without leading zeros.
pub(crate) fn decimal(n: u32) -> (s: String)
    ensures
        s@ == decimal_spec(n as nat),
    decreases n,
{
    let d = n % 10;
    let c = ((48 + d) as u8) as char;
    assert(c == digit_char((n % 10) as nat));
    if n < 10 {
        let mut s = String::new();
        push_char(&mut s, c);
        assert(s@ =~= seq![digit_char(n as nat)]);
        s
    } else {
        let mut s = decimal(n / 10);
        push_char(&mut s, c);
        s
    }
}

} // verus!
