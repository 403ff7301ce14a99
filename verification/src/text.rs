//! Text primitives over characters: whitespace, trimming, line and word
//! splitting, decimal numbers.
//!
//! Every parser in the crate is written against these, so the behaviour of
//! `str::lines`, `str::trim`, `str::split_whitespace`, `str::split_once` and
//! `str::parse` that the parsers rely on is stated once, here, as spec
//! functions over `Seq<char>`, and each executable helper is proved against
//! its spec.
use vstd::prelude::*;
use vstd::string::StringExecFns;
use vstd::utf8::{
    encode_scalar, has_width_1_encoding, leading_byte_width_1, leading_byte_width_2,
    leading_byte_width_3, leading_byte_width_4,
};

verus! {

broadcast use vstd::string::group_string_axioms;

// ---------------------------------------------------------------------------
// Character classes
// ---------------------------------------------------------------------------

/// Unicode `White_Space`, the set `char::is_whitespace` tests for.
pub open spec fn is_ws(c: char) -> bool {
    ||| c == '\t'
    ||| c == '\n'
    ||| c == '\u{0B}'
    ||| c == '\u{0C}'
    ||| c == '\r'
    ||| c == ' '
    ||| c == '\u{85}'
    ||| c == '\u{A0}'
    ||| c == '\u{1680}'
    ||| ('\u{2000}' <= c && c <= '\u{200A}')
    ||| c == '\u{2028}'
    ||| c == '\u{2029}'
    ||| c == '\u{202F}'
    ||| c == '\u{205F}'
    ||| c == '\u{3000}'
}

pub fn is_whitespace(c: char) -> (b: bool)
    ensures
        b == is_ws(c),
{
    c == '\t' || c == '\n' || c == '\u{0B}' || c == '\u{0C}' || c == '\r' || c == ' ' || c
        == '\u{85}' || c == '\u{A0}' || c == '\u{1680}' || ('\u{2000}' <= c && c <= '\u{200A}')
        || c == '\u{2028}' || c == '\u{2029}' || c == '\u{202F}' || c == '\u{205F}' || c
        == '\u{3000}'
}

pub open spec fn is_digit(c: char) -> bool {
    '0' <= c && c <= '9'
}

/// What a scan stops at.
pub enum Stop {
    /// One particular character.
    At(char),
    /// Any whitespace character.
    Space,
    /// Any character that is not whitespace.
    Ink,
    /// Any character other than this one.
    Not(char),
    /// Any character that is neither an ASCII digit nor `.`.
    NotNumeric,
}

pub open spec fn stops(c: char, stop: Stop) -> bool {
    match stop {
        Stop::At(d) => c == d,
        Stop::Space => is_ws(c),
        Stop::Ink => !is_ws(c),
        Stop::Not(d) => c != d,
        Stop::NotNumeric => !(is_digit(c) || c == '.'),
    }
}

/// Index of the first character of `s` that `stop` stops at, or `s.len()`
/// when there is none.
pub open spec fn find(s: Seq<char>, stop: Stop) -> int
    decreases s.len(),
{
    if s.len() == 0 {
        0
    } else if stops(s[0], stop) {
        0
    } else {
        find(s.drop_first(), stop) + 1
    }
}

pub proof fn lemma_find(s: Seq<char>, stop: Stop)
    ensures
        0 <= find(s, stop) <= s.len(),
        forall|j: int| 0 <= j < find(s, stop) ==> !stops(#[trigger] s[j], stop),
        find(s, stop) < s.len() ==> stops(s[find(s, stop)], stop),
    decreases s.len(),
{
    if s.len() > 0 && !stops(s[0], stop) {
        lemma_find(s.drop_first(), stop);
        assert forall|j: int| 0 <= j < find(s, stop) implies !stops(#[trigger] s[j], stop) by {
            if j > 0 {
                assert(s[j] == s.drop_first()[j - 1]);
            }
        }
    }
}

/// The scan result is determined by where the first stopping character is.
pub proof fn lemma_find_at(s: Seq<char>, stop: Stop, k: int)
    requires
        0 <= k <= s.len(),
        forall|j: int| 0 <= j < k ==> !stops(#[trigger] s[j], stop),
        k < s.len() ==> stops(s[k], stop),
    ensures
        find(s, stop) == k,
{
    lemma_find(s, stop);
    let f = find(s, stop);
    if f < k {
        assert(!stops(s[f], stop));
    } else if k < f {
        assert(!stops(s[k], stop));
    }
}

// ---------------------------------------------------------------------------
// Trimming
// ---------------------------------------------------------------------------

/// `str::trim_start`.
pub open spec fn trim_start(s: Seq<char>) -> Seq<char> {
    s.skip(find(s, Stop::Ink))
}

/// `str::trim_end`.
pub open spec fn trim_end(s: Seq<char>) -> Seq<char>
    decreases s.len(),
{
    if s.len() > 0 && is_ws(s.last()) {
        trim_end(s.drop_last())
    } else {
        s
    }
}

/// `str::trim`.
pub open spec fn trim(s: Seq<char>) -> Seq<char> {
    trim_end(trim_start(s))
}

/// `str::strip_prefix` for a single character, as used on `\r`.
pub open spec fn strip_cr(s: Seq<char>) -> Seq<char> {
    if s.len() > 0 && s.last() == '\r' {
        s.drop_last()
    } else {
        s
    }
}

// ---------------------------------------------------------------------------
// Splitting
// ---------------------------------------------------------------------------

/// `str::lines`: split on `\n`, drop one `\r` before each `\n`, and produce
/// no final empty line for a trailing `\n`.
pub open spec fn lines(s: Seq<char>) -> Seq<Seq<char>>
    decreases s.len(),
{
    if s.len() == 0 {
        seq![]
    } else {
        let k = find(s, Stop::At('\n'));
        if k >= s.len() {
            seq![s]
        } else {
            proof {
                lemma_find(s, Stop::At('\n'));
            }
            seq![strip_cr(s.take(k))] + lines(s.skip(k + 1))
        }
    }
}

/// `str::split_whitespace`: the maximal runs of non-whitespace characters.
pub open spec fn words(s: Seq<char>) -> Seq<Seq<char>>
    decreases s.len(),
{
    let a = find(s, Stop::Ink);
    if a >= s.len() {
        seq![]
    } else {
        proof {
            lemma_find(s, Stop::Ink);
            lemma_find(s.skip(a), Stop::Space);
        }
        let rest = s.skip(a);
        let b = find(rest, Stop::Space);
        seq![rest.take(b)] + words(rest.skip(b))
    }
}

/// `str::split_once` on a single character.
pub open spec fn split_once(s: Seq<char>, c: char) -> Option<(Seq<char>, Seq<char>)> {
    let k = find(s, Stop::At(c));
    if k < s.len() {
        Some((s.take(k), s.skip(k + 1)))
    } else {
        None
    }
}

/// The spec view of a vector of character vectors.
pub open spec fn views(v: Seq<Vec<char>>) -> Seq<Seq<char>> {
    v.map_values(|x: Vec<char>| x@)
}

// ---------------------------------------------------------------------------
// Decimal numbers
// ---------------------------------------------------------------------------

pub open spec fn digit_value(c: char) -> nat {
    (c as int - '0' as int) as nat
}

pub open spec fn all_digits(s: Seq<char>) -> bool {
    forall|i: int| 0 <= i < s.len() ==> is_digit(#[trigger] s[i])
}

/// The value of a run of decimal digits.
pub open spec fn digits_value(s: Seq<char>) -> nat
    decreases s.len(),
{
    if s.len() == 0 {
        0
    } else {
        digits_value(s.drop_last()) * 10 + digit_value(s.last())
    }
}

/// What `str::parse` accepts for an unsigned integer, before the range
/// check: an optional `+` followed by at least one decimal digit.
pub open spec fn parse_nat(s: Seq<char>) -> Option<nat> {
    let d = if s.len() > 0 && s[0] == '+' {
        s.drop_first()
    } else {
        s
    };
    if d.len() > 0 && all_digits(d) {
        Some(digits_value(d))
    } else {
        None
    }
}

/// `str::parse::<u64>().ok()`.
pub open spec fn parse_u64(s: Seq<char>) -> Option<u64> {
    match parse_nat(s) {
        Some(n) => if n <= u64::MAX {
            Some(n as u64)
        } else {
            None
        },
        None => None,
    }
}

/// `str::parse::<u32>().ok()`.
pub open spec fn parse_u32(s: Seq<char>) -> Option<u32> {
    match parse_nat(s) {
        Some(n) => if n <= u32::MAX {
            Some(n as u32)
        } else {
            None
        },
        None => None,
    }
}

pub open spec fn digit_char(d: nat) -> char {
    ((d % 10) + '0' as nat) as char
}

/// The shortest decimal rendering of `n`, as `Display` writes it.
pub open spec fn decimal(n: nat) -> Seq<char>
    decreases n,
{
    if n < 10 {
        seq![digit_char(n)]
    } else {
        decimal(n / 10).push(digit_char(n % 10))
    }
}

/// `Display` for a signed integer.
pub open spec fn signed_decimal(n: int) -> Seq<char> {
    if n < 0 {
        seq!['-'] + decimal((-n) as nat)
    } else {
        decimal(n as nat)
    }
}

// ---------------------------------------------------------------------------
// Executable helpers
// ---------------------------------------------------------------------------

/// The characters of a string slice, collected.
pub fn chars_of(s: &str) -> (v: Vec<char>)
    ensures
        v@ == s@,
{
    let mut v: Vec<char> = Vec::new();
    for c in it: s.chars()
        invariant
            it.seq() == s@,
            v@ == it.seq().take(it.index()),
    {
        v.push(c);
    }
    v
}

/// `String::push`.
#[verifier::external_body]
pub(crate) fn push_char(s: &mut String, c: char)
    ensures
        final(s)@ == old(s)@.push(c),
{
    s.push(c);
}

// ---------------------------------------------------------------------------
// Bytes
// ---------------------------------------------------------------------------

/// The UTF-8 encoding of text `s`: the bytes that spell it. Kept opaque;
/// the lemmas below give what the rest of the crate uses of it.
#[verifier::opaque]
pub open spec fn bytes(s: Seq<char>) -> Seq<u8> {
    vstd::utf8::encode_utf8(s)
}

/// Spelling text that is joined is joining the spellings.
pub proof fn lemma_bytes_concat(a: Seq<char>, b: Seq<char>)
    ensures
        bytes(a + b) == bytes(a) + bytes(b),
    decreases a.len(),
{
    reveal(bytes);
    if a.len() == 0 {
        assert(a + b =~= b);
    } else {
        assert((a + b).drop_first() =~= a.drop_first() + b);
        lemma_bytes_concat(a.drop_first(), b);
        assert((a + b)[0] == a[0]);
    }
}

/// Text that is not empty is spelled starting with the bytes of its first
/// character: the character's code when it is ASCII, and otherwise a byte of
/// `0x80` or more, which is never the code of an ASCII character.
pub proof fn lemma_bytes_first(s: Seq<char>)
    requires
        s.len() > 0,
    ensures
        bytes(s).len() > 0,
        bytes(s) == encode_scalar(s[0] as u32) + bytes(s.drop_first()),
        (s[0] as u32) < 128 ==> bytes(s)[0] as u32 == s[0] as u32,
        (s[0] as u32) >= 128 ==> bytes(s)[0] >= 128,
{
    reveal(bytes);
    let c = s[0] as u32;
    assert(has_width_1_encoding(c) ==> leading_byte_width_1(c) as u32 == c) by (bit_vector);
    assert(leading_byte_width_2(c) >= 128) by (bit_vector);
    assert(leading_byte_width_3(c) >= 128) by (bit_vector);
    assert(leading_byte_width_4(c) >= 128) by (bit_vector);
    assert(bytes(s)[0] == encode_scalar(c)[0]);
}

/// ASCII text is spelled one byte per character, each byte the character's
/// code.
pub proof fn lemma_bytes_ascii(s: Seq<char>)
    requires
        vstd::utf8::is_ascii_chars(s),
    ensures
        bytes(s).len() == s.len(),
        forall|i: int| 0 <= i < s.len() ==> #[trigger] bytes(s)[i] == s[i] as u8,
        forall|i: int| 0 <= i < s.len() ==> #[trigger] bytes(s)[i] as int == s[i] as int,
{
    reveal(bytes);
    vstd::utf8::is_ascii_chars_encode_utf8(s);
    assert forall|i: int| 0 <= i < s.len() implies #[trigger] bytes(s)[i] as int == s[i] as int by {
        assert(bytes(s)[i] == s[i] as u8);
        assert('\0' <= s[i] <= '\u{7f}');
    }
}

/// The bytes that spell `s`.
pub fn bytes_of(s: &str) -> (r: Vec<u8>)
    ensures
        r@ == bytes(s@),
{
    proof {
        reveal(bytes);
    }
    bytes_from(s.as_bytes())
}

/// Append the bytes that spell `s`.
pub fn push_text(v: &mut Vec<u8>, s: &str)
    ensures
        final(v)@ == old(v)@ + bytes(s@),
{
    proof {
        reveal(bytes);
    }
    push_bytes(v, s.as_bytes());
}

/// Append the bytes `s`.
pub fn push_bytes(v: &mut Vec<u8>, s: &[u8])
    ensures
        final(v)@ == old(v)@ + s@,
{
    let mut i: usize = 0;
    while i < s.len()
        invariant
            i <= s@.len(),
            v@ == old(v)@ + s@.take(i as int),
        decreases s@.len() - i,
    {
        v.push(s[i]);
        assert(s@.take(i + 1) =~= s@.take(i as int).push(s@[i as int]));
        i += 1;
    }
    assert(s@.take(s@.len() as int) =~= s@);
}

/// A vector holding the bytes `s`.
pub fn bytes_from(s: &[u8]) -> (r: Vec<u8>)
    ensures
        r@ == s@,
{
    let mut r: Vec<u8> = Vec::new();
    push_bytes(&mut r, s);
    assert(r@ =~= s@);
    r
}

/// The bytes `s[lo..hi]`, copied.
pub fn slice_bytes(s: &[u8], lo: usize, hi: usize) -> (r: Vec<u8>)
    requires
        lo <= hi <= s@.len(),
    ensures
        r@ == s@.subrange(lo as int, hi as int),
{
    let mut r: Vec<u8> = Vec::new();
    let mut i: usize = lo;
    while i < hi
        invariant
            lo <= i <= hi <= s@.len(),
            r@ == s@.subrange(lo as int, i as int),
        decreases hi - i,
    {
        r.push(s[i]);
        assert(s@.subrange(lo as int, i + 1) =~= s@.subrange(lo as int, i as int).push(s@[i as int]));
        i += 1;
    }
    r
}

/// The byte sequences a list of byte vectors holds.
pub open spec fn byte_views(v: Seq<Vec<u8>>) -> Seq<Seq<u8>> {
    v.map_values(|b: Vec<u8>| b@)
}

/// What `String::from_utf8_lossy` decodes `bytes` to.
pub uninterp spec fn utf8_lossy(bytes: Seq<u8>) -> Seq<char>;

/// `String::from_utf8_lossy`: the bytes decoded as UTF-8, with each invalid
/// sequence replaced by U+FFFD. Its result is given a name only; the decoding
/// itself is not stated.
#[verifier::external_body]
pub(crate) fn decode_lossy(bytes: &[u8]) -> (s: String)
    ensures
        s@ == utf8_lossy(bytes@),
{
    String::from_utf8_lossy(bytes).into_owned()
}

/// Append `t` to `s`.
pub fn push_str(s: &mut String, t: &str)
    ensures
        final(s)@ == old(s)@ + t@,
{
    s.append(t);
}

/// A `String` holding `s`.
pub fn owned(s: &str) -> (r: String)
    ensures
        r@ == s@,
{
    s.to_owned()
}

/// The characters `v[lo..hi]` as a `String`.
pub fn string_of(v: &Vec<char>, lo: usize, hi: usize) -> (s: String)
    requires
        lo <= hi <= v@.len(),
    ensures
        s@ == v@.subrange(lo as int, hi as int),
{
    let mut s = String::new();
    let mut i = lo;
    while i < hi
        invariant
            lo <= i <= hi <= v@.len(),
            s@ == v@.subrange(lo as int, i as int),
        decreases hi - i,
    {
        push_char(&mut s, v[i]);
        assert(s@ =~= v@.subrange(lo as int, i + 1));
        i += 1;
    }
    s
}

/// The characters `v[lo..hi]` as a vector.
pub fn slice_of(v: &Vec<char>, lo: usize, hi: usize) -> (r: Vec<char>)
    requires
        lo <= hi <= v@.len(),
    ensures
        r@ == v@.subrange(lo as int, hi as int),
{
    let mut r: Vec<char> = Vec::new();
    let mut i = lo;
    while i < hi
        invariant
            lo <= i <= hi <= v@.len(),
            r@ == v@.subrange(lo as int, i as int),
        decreases hi - i,
    {
        r.push(v[i]);
        assert(r@ =~= v@.subrange(lo as int, i + 1));
        i += 1;
    }
    r
}

/// Whether `v[lo..hi]` spells `s`.
pub fn range_eq(v: &Vec<char>, lo: usize, hi: usize, s: &str) -> (b: bool)
    requires
        lo <= hi <= v@.len(),
    ensures
        b == (v@.subrange(lo as int, hi as int) == s@),
{
    let w = chars_of(s);
    if hi - lo != w.len() {
        return false;
    }
    let mut i: usize = 0;
    while i < w.len()
        invariant
            lo <= hi <= v@.len(),
            hi - lo == w@.len(),
            w@ == s@,
            0 <= i <= w@.len(),
            forall|j: int| 0 <= j < i ==> v@[lo + j] == w@[j],
        decreases w@.len() - i,
    {
        if v[lo + i] != w[i] {
            assert(v@.subrange(lo as int, hi as int)[i as int] != s@[i as int]);
            return false;
        }
        i += 1;
    }
    assert(v@.subrange(lo as int, hi as int) =~= s@);
    true
}

/// Whether `v` spells `s`.
pub fn vec_eq(v: &Vec<char>, s: &str) -> (b: bool)
    ensures
        b == (v@ == s@),
{
    let b = range_eq(v, 0, v.len(), s);
    assert(v@.subrange(0, v@.len() as int) =~= v@);
    b
}

fn stops_exec(c: char, stop: &Stop) -> (b: bool)
    ensures
        b == stops(c, *stop),
{
    match stop {
        Stop::At(d) => c == *d,
        Stop::Space => is_whitespace(c),
        Stop::Ink => !is_whitespace(c),
        Stop::Not(d) => c != *d,
        Stop::NotNumeric => !(('0' <= c && c <= '9') || c == '.'),
    }
}

/// Index of the first stopping character in `v[lo..hi]`, as an absolute
/// index, or `hi`.
pub fn find_in(v: &Vec<char>, lo: usize, hi: usize, stop: &Stop) -> (k: usize)
    requires
        lo <= hi <= v@.len(),
    ensures
        lo <= k <= hi,
        k - lo == find(v@.subrange(lo as int, hi as int), *stop),
{
    let mut i = lo;
    while i < hi && !stops_exec(v[i], stop)
        invariant
            lo <= i <= hi <= v@.len(),
            forall|j: int| lo <= j < i ==> !stops(#[trigger] v@[j], *stop),
        decreases hi - i,
    {
        i += 1;
    }
    proof {
        let s = v@.subrange(lo as int, hi as int);
        assert forall|j: int| 0 <= j < i - lo implies !stops(#[trigger] s[j], *stop) by {
            assert(s[j] == v@[lo + j]);
        }
        if i < hi {
            assert(s[i - lo] == v@[i as int]);
        }
        lemma_find_at(s, *stop, i - lo);
    }
    i
}

/// `trim` of `v[lo..hi]`, as the absolute bounds of the trimmed range.
pub fn trim_range(v: &Vec<char>, lo: usize, hi: usize) -> (r: (usize, usize))
    requires
        lo <= hi <= v@.len(),
    ensures
        lo <= r.0 <= r.1 <= hi,
        v@.subrange(r.0 as int, r.1 as int) == trim(v@.subrange(lo as int, hi as int)),
{
    let a = find_in(v, lo, hi, &Stop::Ink);
    let ghost s = v@.subrange(lo as int, hi as int);
    assert(trim_start(s) =~= v@.subrange(a as int, hi as int));
    let mut b = hi;
    while b > a && is_whitespace(v[b - 1])
        invariant
            lo <= a <= b <= hi <= v@.len(),
            trim_end(v@.subrange(a as int, hi as int)) == trim_end(v@.subrange(a as int, b as int)),
        decreases b - a,
    {
        proof {
            let t = v@.subrange(a as int, b as int);
            assert(t.drop_last() =~= v@.subrange(a as int, b - 1));
            assert(t.last() == v@[b - 1]);
        }
        b -= 1;
    }
    proof {
        let t = v@.subrange(a as int, b as int);
        if b > a {
            assert(t.last() == v@[b - 1]);
        }
    }
    (a, b)
}

/// `str::trim`, as a `String`.
pub fn trim_string(v: &Vec<char>, lo: usize, hi: usize) -> (s: String)
    requires
        lo <= hi <= v@.len(),
    ensures
        s@ == trim(v@.subrange(lo as int, hi as int)),
{
    let (a, b) = trim_range(v, lo, hi);
    string_of(v, a, b)
}

proof fn lemma_lines_step(s: Seq<char>, start: int, i: int)
    requires
        0 <= start <= i < s.len(),
        s[i] == '\n',
        forall|j: int| start <= j < i ==> s[j] != '\n',
    ensures
        lines(s.skip(start)) == seq![strip_cr(s.subrange(start, i))] + lines(s.skip(i + 1)),
{
    let t = s.skip(start);
    assert forall|j: int| 0 <= j < i - start implies !stops(#[trigger] t[j], Stop::At('\n')) by {
        assert(t[j] == s[start + j]);
    }
    lemma_find_at(t, Stop::At('\n'), i - start);
    assert(t.take(i - start) =~= s.subrange(start, i));
    assert(t.skip(i - start + 1) =~= s.skip(i + 1));
}

proof fn lemma_lines_last(s: Seq<char>, start: int)
    requires
        0 <= start < s.len(),
        forall|j: int| start <= j < s.len() ==> s[j] != '\n',
    ensures
        lines(s.skip(start)) == seq![s.skip(start)],
{
    let t = s.skip(start);
    assert forall|j: int| 0 <= j < t.len() implies !stops(#[trigger] t[j], Stop::At('\n')) by {
        assert(t[j] == s[start + j]);
    }
    lemma_find_at(t, Stop::At('\n'), t.len() as int);
}

/// `str::lines`, each line as a character vector.
pub fn lines_of(v: &Vec<char>) -> (r: Vec<Vec<char>>)
    ensures
        views(r@) == lines(v@),
{
    let mut r: Vec<Vec<char>> = Vec::new();
    let mut start: usize = 0;
    let mut i: usize = 0;
    assert(v@.skip(0) =~= v@);
    while i < v.len()
        invariant
            0 <= start <= i <= v@.len(),
            forall|j: int| start <= j < i ==> v@[j] != '\n',
            lines(v@) == views(r@) + lines(v@.skip(start as int)),
        decreases v@.len() - i,
    {
        if v[i] == '\n' {
            proof {
                lemma_lines_step(v@, start as int, i as int);
            }
            let mut end = i;
            if end > start && v[end - 1] == '\r' {
                end -= 1;
            }
            let line = slice_of(v, start, end);
            proof {
                let whole = v@.subrange(start as int, i as int);
                if i > start && v@[i - 1] == '\r' {
                    assert(whole.last() == v@[i - 1]);
                    assert(whole.drop_last() =~= line@);
                } else {
                    if i > start {
                        assert(whole.last() == v@[i - 1]);
                    }
                    assert(whole =~= line@);
                }
                assert(strip_cr(whole) == line@);
            }
            let ghost old_r = r@;
            r.push(line);
            proof {
                assert(views(r@) =~= views(old_r).push(line@));
                assert(views(r@) + lines(v@.skip(i + 1)) =~= views(old_r) + (seq![line@]
                    + lines(v@.skip(i + 1))));
            }
            start = i + 1;
        }
        i += 1;
    }
    if start < v.len() {
        proof {
            lemma_lines_last(v@, start as int);
        }
        let line = slice_of(v, start, v.len());
        let ghost old_r = r@;
        r.push(line);
        proof {
            assert(line@ =~= v@.skip(start as int));
            assert(views(r@) =~= views(old_r).push(line@));
            assert(views(r@) =~= views(old_r) + seq![line@]);
        }
    } else {
        assert(views(r@) + lines(v@.skip(start as int)) =~= views(r@));
    }
    r
}

proof fn lemma_words_step(s: Seq<char>, a: int, b: int)
    requires
        0 <= a < b <= s.len(),
        forall|j: int| 0 <= j < a ==> is_ws(#[trigger] s[j]),
        !is_ws(s[a]),
        forall|j: int| a <= j < b ==> !is_ws(#[trigger] s[j]),
        b < s.len() ==> is_ws(s[b]),
    ensures
        words(s) == seq![s.subrange(a, b)] + words(s.skip(b)),
{
    assert forall|j: int| 0 <= j < a implies !stops(#[trigger] s[j], Stop::Ink) by {}
    lemma_find_at(s, Stop::Ink, a);
    let rest = s.skip(a);
    assert forall|j: int| 0 <= j < b - a implies !stops(#[trigger] rest[j], Stop::Space) by {
        assert(rest[j] == s[a + j]);
    }
    if b < s.len() {
        assert(rest[b - a] == s[b]);
    }
    lemma_find_at(rest, Stop::Space, b - a);
    assert(rest.take(b - a) =~= s.subrange(a, b));
    assert(rest.skip(b - a) =~= s.skip(b));
}

proof fn lemma_words_none(s: Seq<char>)
    requires
        forall|j: int| 0 <= j < s.len() ==> is_ws(#[trigger] s[j]),
    ensures
        words(s) == Seq::<Seq<char>>::empty(),
{
    assert forall|j: int| 0 <= j < s.len() implies !stops(#[trigger] s[j], Stop::Ink) by {}
    lemma_find_at(s, Stop::Ink, s.len() as int);
}

/// `str::split_whitespace` over `v[lo..hi]`, as absolute bounds of each word.
pub fn words_of(v: &Vec<char>, lo: usize, hi: usize) -> (r: Vec<(usize, usize)>)
    requires
        lo <= hi <= v@.len(),
    ensures
        r@.len() == words(v@.subrange(lo as int, hi as int)).len(),
        forall|k: int|
            0 <= k < r@.len() ==> {
                &&& lo <= (#[trigger] r@[k]).0 <= r@[k].1 <= hi
                &&& v@.subrange(r@[k].0 as int, r@[k].1 as int) == words(
                    v@.subrange(lo as int, hi as int),
                )[k]
            },
{
    let ghost s = v@.subrange(lo as int, hi as int);
    let mut r: Vec<(usize, usize)> = Vec::new();
    let mut i = lo;
    let ghost mut done: Seq<Seq<char>> = seq![];
    while i < hi
        invariant
            lo <= i <= hi <= v@.len(),
            s == v@.subrange(lo as int, hi as int),
            words(s) == done + words(v@.subrange(i as int, hi as int)),
            r@.len() == done.len(),
            forall|k: int|
                0 <= k < r@.len() ==> {
                    &&& lo <= (#[trigger] r@[k]).0 <= r@[k].1 <= i
                    &&& v@.subrange(r@[k].0 as int, r@[k].1 as int) == done[k]
                },
        decreases hi - i,
    {
        let a = find_in(v, i, hi, &Stop::Ink);
        if a == hi {
            proof {
                let t = v@.subrange(i as int, hi as int);
                lemma_find(t, Stop::Ink);
                assert forall|j: int| 0 <= j < t.len() implies is_ws(#[trigger] t[j]) by {
                    assert(!stops(t[j], Stop::Ink));
                }
                lemma_words_none(t);
                assert(words(s) =~= done);
                assert(v@.subrange(hi as int, hi as int).len() == 0);
                assert(words(v@.subrange(hi as int, hi as int)) =~= Seq::<Seq<char>>::empty()) by {
                    lemma_words_none(v@.subrange(hi as int, hi as int));
                }
                assert(words(s) =~= done + words(v@.subrange(hi as int, hi as int)));
            }
            i = hi;
        } else {
        let b = find_in(v, a, hi, &Stop::Space);
        proof {
            let t = v@.subrange(i as int, hi as int);
            lemma_find(t, Stop::Ink);
            let u = v@.subrange(a as int, hi as int);
            lemma_find(u, Stop::Space);
            assert forall|j: int| 0 <= j < a - i implies is_ws(#[trigger] t[j]) by {
                assert(!stops(t[j], Stop::Ink));
            }
            assert(!is_ws(t[a - i]));
            assert forall|j: int| a - i <= j < b - i implies !is_ws(#[trigger] t[j]) by {
                assert(t[j] == u[j - (a - i)]);
                assert(!stops(u[j - (a - i)], Stop::Space));
            }
            if b < hi {
                assert(t[b - i] == u[b - a]);
            }
            assert(a < b) by {
                assert(u[0] == t[a - i]);
            }
            lemma_words_step(t, a - i, b - i);
            assert(t.subrange(a - i, b - i) =~= v@.subrange(a as int, b as int));
            assert(t.skip(b - i) =~= v@.subrange(b as int, hi as int));
            assert(words(s) =~= done.push(v@.subrange(a as int, b as int)) + words(
                v@.subrange(b as int, hi as int),
            ));
            done = done.push(v@.subrange(a as int, b as int));
        }
        r.push((a, b));
        i = b;
        }
    }
    proof {
        lemma_words_none(v@.subrange(i as int, hi as int));
        assert(words(s) =~= done);
    }
    r
}

/// Scan a run of decimal digits `v[lo..hi]` (already checked to be digits)
/// into a `u64`, or `None` when it overflows.
fn digits_u64(v: &Vec<char>, lo: usize, hi: usize) -> (r: Option<u64>)
    requires
        lo <= hi <= v@.len(),
        all_digits(v@.subrange(lo as int, hi as int)),
    ensures
        r == (if digits_value(v@.subrange(lo as int, hi as int)) <= u64::MAX {
            Some(digits_value(v@.subrange(lo as int, hi as int)) as u64)
        } else {
            None::<u64>
        }),
{
    let mut acc: u64 = 0;
    let mut i = lo;
    while i < hi
        invariant
            lo <= i <= hi <= v@.len(),
            all_digits(v@.subrange(lo as int, hi as int)),
            acc == digits_value(v@.subrange(lo as int, i as int)),
        decreases hi - i,
    {
        let c = v[i];
        proof {
            assert(v@.subrange(lo as int, hi as int)[i - lo] == c);
        }
        let d = (c as u32 - '0' as u32) as u64;
        proof {
            let pre = v@.subrange(lo as int, i + 1);
            assert(pre.drop_last() =~= v@.subrange(lo as int, i as int));
            assert(pre.last() == c);
        }
        if acc > (u64::MAX - d) / 10 {
            proof {
                let pre = v@.subrange(lo as int, i + 1);
                assert(digits_value(pre) > u64::MAX) by (nonlinear_arith)
                    requires
                        digits_value(pre) == acc * 10 + d,
                        acc > (u64::MAX - d) / 10,
                        d <= 9,
                ;
                lemma_digits_grow(v@.subrange(lo as int, hi as int), i + 1 - lo);
                assert(v@.subrange(lo as int, hi as int).take(i + 1 - lo) =~= pre);
            }
            return None;
        }
        proof {
            assert(acc * 10 + d <= u64::MAX) by (nonlinear_arith)
                requires
                    acc <= (u64::MAX - d) / 10,
                    d <= 9,
            ;
        }
        acc = acc * 10 + d;
        i += 1;
    }
    Some(acc)
}

/// A longer run of digits never has a smaller value.
pub proof fn lemma_digits_grow(s: Seq<char>, k: int)
    requires
        0 <= k <= s.len(),
        all_digits(s),
    ensures
        digits_value(s.take(k)) <= digits_value(s),
    decreases s.len() - k,
{
    if k < s.len() {
        lemma_digits_grow(s, k + 1);
        let t = s.take(k + 1);
        assert(t.drop_last() =~= s.take(k));
        assert(digits_value(t) == digits_value(s.take(k)) * 10 + digit_value(t.last()));
    } else {
        assert(s.take(k) =~= s);
    }
}

fn digits_range(v: &Vec<char>, lo: usize, hi: usize) -> (b: bool)
    requires
        lo <= hi <= v@.len(),
    ensures
        b == all_digits(v@.subrange(lo as int, hi as int)),
{
    let mut i = lo;
    while i < hi
        invariant
            lo <= i <= hi <= v@.len(),
            forall|j: int| lo <= j < i ==> is_digit(#[trigger] v@[j]),
        decreases hi - i,
    {
        let c = v[i];
        if !('0' <= c && c <= '9') {
            proof {
                let d = v@.subrange(lo as int, hi as int);
                assert(d[i - lo] == c);
            }
            return false;
        }
        i += 1;
    }
    proof {
        let d = v@.subrange(lo as int, hi as int);
        assert forall|j: int| 0 <= j < d.len() implies is_digit(#[trigger] d[j]) by {
            assert(d[j] == v@[lo + j]);
        }
    }
    true
}

/// `str::parse::<u64>().ok()` over `v[lo..hi]`.
pub fn parse_u64_range(v: &Vec<char>, lo: usize, hi: usize) -> (r: Option<u64>)
    requires
        lo <= hi <= v@.len(),
    ensures
        r == parse_u64(v@.subrange(lo as int, hi as int)),
{
    let ghost s = v@.subrange(lo as int, hi as int);
    let mut start = lo;
    if lo < hi && v[lo] == '+' {
        start = lo + 1;
    }
    proof {
        if lo < hi && v@[lo as int] == '+' {
            assert(s[0] == v@[lo as int]);
            assert(s.drop_first() =~= v@.subrange(start as int, hi as int));
        } else {
            if lo < hi {
                assert(s[0] == v@[lo as int]);
            }
            assert(s =~= v@.subrange(start as int, hi as int));
        }
    }
    if start == hi {
        return None;
    }
    if !digits_range(v, start, hi) {
        return None;
    }
    digits_u64(v, start, hi)
}

/// `str::parse::<u32>().ok()` over `v[lo..hi]`.
pub fn parse_u32_range(v: &Vec<char>, lo: usize, hi: usize) -> (r: Option<u32>)
    requires
        lo <= hi <= v@.len(),
    ensures
        r == parse_u32(v@.subrange(lo as int, hi as int)),
{
    match parse_u64_range(v, lo, hi) {
        Some(n) => if n <= u32::MAX as u64 {
            Some(n as u32)
        } else {
            None
        },
        None => {
            proof {
                let s = v@.subrange(lo as int, hi as int);
                if let Some(n) = parse_nat(s) {
                    assert(n > u64::MAX);
                }
            }
            None
        },
    }
}

/// Append the decimal rendering of `n`.
pub fn push_decimal(s: &mut String, n: u64)
    ensures
        final(s)@ == old(s)@ + decimal(n as nat),
    decreases n,
{
    if n >= 10 {
        push_decimal(s, n / 10);
    }
    let d = (n % 10) as u32;
    let c = char_from_digit(d);
    push_char(s, c);
    proof {
        if n >= 10 {
            assert(old(s)@ + decimal(n as nat) =~= old(s)@ + decimal((n / 10) as nat) + seq![
                digit_char((n % 10) as nat),
            ]);
        } else {
            assert((n % 10) as nat == n as nat);
        }
    }
}

fn char_from_digit(d: u32) -> (c: char)
    requires
        d < 10,
    ensures
        c == digit_char(d as nat),
{
    if d == 0 {
        '0'
    } else if d == 1 {
        '1'
    } else if d == 2 {
        '2'
    } else if d == 3 {
        '3'
    } else if d == 4 {
        '4'
    } else if d == 5 {
        '5'
    } else if d == 6 {
        '6'
    } else if d == 7 {
        '7'
    } else if d == 8 {
        '8'
    } else {
        '9'
    }
}

/// The decimal rendering of `n`.
pub fn decimal_string(n: u64) -> (s: String)
    ensures
        s@ == decimal(n as nat),
{
    let mut s = String::new();
    push_decimal(&mut s, n);
    assert(s@ =~= decimal(n as nat));
    s
}

/// Append the decimal rendering of a signed `n`.
pub fn push_signed_decimal(s: &mut String, n: i64)
    ensures
        final(s)@ == old(s)@ + signed_decimal(n as int),
{
    if n < 0 {
        push_char(s, '-');
        let m: u64 = if n == i64::MIN {
            9223372036854775808u64
        } else {
            (-n) as u64
        };
        push_decimal(s, m);
        assert(final(s)@ =~= old(s)@ + signed_decimal(n as int));
    } else {
        push_decimal(s, n as u64);
    }
}

/// `decimal` spells `n` in digits, and the digits read back as `n`.
pub proof fn lemma_decimal_reads_back(n: nat)
    ensures
        decimal(n).len() > 0,
        all_digits(decimal(n)),
        digits_value(decimal(n)) == n,
    decreases n,
{
    let d = decimal(n);
    assert(digit_char(n) as int == n % 10 + 48);
    if n >= 10 {
        lemma_decimal_reads_back(n / 10);
        let p = decimal(n / 10);
        assert(d.drop_last() =~= p);
        assert(digit_char(n % 10) as int == n % 10 + 48);
        assert forall|i: int| 0 <= i < d.len() implies is_digit(#[trigger] d[i]) by {
            if i < p.len() {
                assert(d[i] == p[i]);
            }
        }
        assert(digit_value(d.last()) == n % 10);
        assert(digits_value(d) == digits_value(p) * 10 + digit_value(d.last()));
        assert(n == (n / 10) * 10 + n % 10);
    } else {
        assert(digit_value(d.last()) == n);
        assert(d.drop_last() =~= Seq::<char>::empty());
        assert(digits_value(d.drop_last()) == 0);
        assert(digits_value(d) == digits_value(d.drop_last()) * 10 + digit_value(d.last()));
    }
}

/// `str::parse` reads back what `Display` wrote.
pub proof fn lemma_parse_u32_decimal(a: u32)
    ensures
        parse_u32(decimal(a as nat)) == Some(a),
{
    lemma_decimal_reads_back(a as nat);
    assert(is_digit(decimal(a as nat)[0]));
}

/// Whitespace in front does not change the words.
pub proof fn lemma_words_skip_space(c: char, r: Seq<char>)
    requires
        is_ws(c),
    ensures
        words(seq![c] + r) == words(r),
{
    let x = seq![c] + r;
    assert(x.drop_first() =~= r);
    lemma_find(r, Stop::Ink);
    lemma_find(x, Stop::Ink);
    assert(find(x, Stop::Ink) == find(r, Stop::Ink) + 1);
    assert(x.skip(find(x, Stop::Ink)) =~= r.skip(find(r, Stop::Ink)));
}

/// A word followed by whitespace is the first word.
pub proof fn lemma_words_first(w: Seq<char>, c: char, r: Seq<char>)
    requires
        w.len() > 0,
        forall|i: int| 0 <= i < w.len() ==> !is_ws(#[trigger] w[i]),
        is_ws(c),
    ensures
        words(w + (seq![c] + r)) == seq![w] + words(r),
{
    let s = w + (seq![c] + r);
    assert(s[0] == w[0]);
    lemma_find_at(s, Stop::Ink, 0);
    assert(s.skip(0) =~= s);
    assert forall|j: int| 0 <= j < w.len() implies !stops(#[trigger] s[j], Stop::Space) by {
        assert(s[j] == w[j]);
    }
    assert(s[w.len() as int] == c);
    lemma_find_at(s, Stop::Space, w.len() as int);
    assert(s.take(w.len() as int) =~= w);
    assert(s.skip(w.len() as int) =~= seq![c] + r);
    lemma_words_skip_space(c, r);
}

/// A single word is its own only word.
pub proof fn lemma_words_one(w: Seq<char>)
    requires
        w.len() > 0,
        forall|i: int| 0 <= i < w.len() ==> !is_ws(#[trigger] w[i]),
    ensures
        words(w) == seq![w],
{
    lemma_find_at(w, Stop::Ink, 0);
    assert(w.skip(0) =~= w);
    lemma_find_at(w, Stop::Space, w.len() as int);
    assert(w.take(w.len() as int) =~= w);
    assert(w.skip(w.len() as int) =~= Seq::<char>::empty());
    lemma_find(Seq::<char>::empty(), Stop::Ink);
    assert(words(Seq::<char>::empty()) =~= Seq::<Seq<char>>::empty());
}

} // verus!
