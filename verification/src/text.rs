//! Character-level building blocks shared by the whole library: conversion
//! between `String` and `Vec<char>`, decimal and hexadecimal numbers, the
//! Unicode whitespace class and the lower-case mapping.
use vstd::prelude::*;
use vstd::std_specs::iter::IteratorSpec;

verus! {

// ── conversions between `str` and character vectors ───────────────────────

/// The characters of `s`, in order.
pub(crate) fn chars_of(s: &str) -> (v: Vec<char>)
    ensures
        v@ == s@,
{
    broadcast use vstd::string::axiom_spec_iter, vstd::string::next_postcondition;
    let mut v: Vec<char> = Vec::new();
    let mut it = s.chars();
    loop
        invariant_except_break
            v@ + it.remaining() == s@,
            it.decrease() is Some,
        ensures
            v@ == s@,
        decreases it.decrease()->0,
    {
        let ghost before = it.remaining();
        match it.next() {
            Some(c) => {
                v.push(c);
                assert(v@ + it.remaining() =~= s@) by {
                    assert(before =~= seq![c] + before.drop_first());
                }
            },
            None => {
                assert(v@ =~= s@);
                break;
            },
        }
    }
    v
}

/// `String: FromIterator<char>`: the string made of the characters of `v`.
#[verifier::external_body]
pub(crate) fn string_of(v: &[char]) -> (s: String)
    ensures
        s@ == v@,
{
    v.iter().collect()
}

/// The result of `str::to_lowercase` (Unicode lower-case mapping of a whole string).
pub uninterp spec fn lowercase_of(s: Seq<char>) -> Seq<char>;

/// An ASCII character (code point below 128).
pub open spec fn is_ascii_char(c: char) -> bool {
    (c as u32) < 128
}

/// Every character of `s` is ASCII.
pub open spec fn all_ascii(s: Seq<char>) -> bool {
    forall|i: int| 0 <= i < s.len() ==> is_ascii_char(#[trigger] s[i])
}

/// `char::to_ascii_lowercase`: `A`..=`Z` become `a`..=`z`, other characters stay.
pub open spec fn ascii_lower(c: char) -> char {
    if 'A' <= c && c <= 'Z' {
        ((c as u32) + 32) as char
    } else {
        c
    }
}

/// Each character of `s` through `ascii_lower`.
pub open spec fn ascii_lower_seq(s: Seq<char>) -> Seq<char> {
    Seq::new(s.len(), |i: int| ascii_lower(s[i]))
}

/// `str::to_lowercase`. The Unicode mapping is not restated here; the result is
/// named by `lowercase_of`, a function of the input alone. On ASCII text it
/// maps `A`..=`Z` to `a`..=`z` and leaves every other character.
#[verifier::external_body]
pub(crate) fn to_lowercase(s: &str) -> (r: String)
    ensures
        r@ == lowercase_of(s@),
        all_ascii(s@) ==> r@ == ascii_lower_seq(s@),
{
    s.to_lowercase()
}

/// `to_lowercase` on a character vector.
pub fn lowercase_chars(v: &[char]) -> (r: Vec<char>)
    ensures
        r@ == lowercase_of(v@),
        all_ascii(v@) ==> r@ == ascii_lower_seq(v@),
{
    let s = string_of(v);
    let l = to_lowercase(s.as_str());
    chars_of(l.as_str())
}

/// Appends all characters of `src` to `dst`.
pub fn push_all(dst: &mut Vec<char>, src: &[char])
    ensures
        final(dst)@ == old(dst)@ + src@,
{
    let mut i: usize = 0;
    while i < src.len()
        invariant
            i <= src@.len(),
            dst@ == old(dst)@ + src@.subrange(0, i as int),
        decreases src@.len() - i,
    {
        dst.push(src[i]);
        i = i + 1;
        assert(src@.subrange(0, i as int) == src@.subrange(0, i - 1).push(src@[i - 1]));
    }
    assert(src@.subrange(0, src@.len() as int) == src@);
}

/// Appends the characters of `s` to `dst`.
pub fn push_str(dst: &mut Vec<char>, s: &str)
    ensures
        final(dst)@ == old(dst)@ + s@,
{
    let v = chars_of(s);
    push_all(dst, v.as_slice());
}

/// Whether two character slices are equal.
pub fn chars_eq(a: &[char], b: &[char]) -> (r: bool)
    ensures
        r == (a@ == b@),
{
    if a.len() != b.len() {
        return false;
    }
    let mut i: usize = 0;
    while i < a.len()
        invariant
            i <= a@.len(),
            a@.len() == b@.len(),
            forall|j: int| 0 <= j < i ==> a@[j] == b@[j],
        decreases a@.len() - i,
    {
        if a[i] != b[i] {
            return false;
        }
        i = i + 1;
    }
    assert(a@ =~= b@);
    true
}

/// Whether `s` equals the string `lit`.
pub fn chars_eq_str(s: &[char], lit: &str) -> (r: bool)
    ensures
        r == (s@ == lit@),
{
    let l = chars_of(lit);
    chars_eq(s, l.as_slice())
}

/// Whether `p` is a prefix of `s`.
pub open spec fn is_prefix(p: Seq<char>, s: Seq<char>) -> bool {
    p.len() <= s.len() && s.subrange(0, p.len() as int) == p
}

/// Whether `p` is a suffix of `s`.
pub open spec fn is_suffix(p: Seq<char>, s: Seq<char>) -> bool {
    p.len() <= s.len() && s.subrange(s.len() - p.len(), s.len() as int) == p
}

/// Whether `p` occurs in `s` as a contiguous block.
pub open spec fn contains_block(s: Seq<char>, p: Seq<char>) -> bool {
    exists|i: int| 0 <= i && i + p.len() <= s.len() && #[trigger] s.subrange(i, i + p.len()) == p
}

/// `str::starts_with` on character slices.
pub fn starts_with(s: &[char], p: &[char]) -> (r: bool)
    ensures
        r == is_prefix(p@, s@),
{
    if p.len() > s.len() {
        return false;
    }
    let mut i: usize = 0;
    while i < p.len()
        invariant
            i <= p@.len(),
            p@.len() <= s@.len(),
            forall|j: int| 0 <= j < i ==> s@[j] == p@[j],
        decreases p@.len() - i,
    {
        if s[i] != p[i] {
            assert(s@.subrange(0, p@.len() as int)[i as int] != p@[i as int]);
            return false;
        }
        i = i + 1;
    }
    assert(s@.subrange(0, p@.len() as int) =~= p@);
    true
}

/// `str::ends_with` on character slices.
pub fn ends_with(s: &[char], p: &[char]) -> (r: bool)
    ensures
        r == is_suffix(p@, s@),
{
    if p.len() > s.len() {
        return false;
    }
    let off = s.len() - p.len();
    let n = s.len();
    let mut i: usize = 0;
    while i < p.len()
        invariant
            n == s@.len(),
            i <= p@.len(),
            p@.len() <= s@.len(),
            off == s@.len() - p@.len(),
            forall|j: int| 0 <= j < i ==> s@[off + j] == p@[j],
        decreases p@.len() - i,
    {
        assert(off + i < s@.len());
        if s[off + i] != p[i] {
            assert(s@.subrange(off as int, s@.len() as int)[i as int] != p@[i as int]);
            return false;
        }
        i = i + 1;
    }
    assert(s@.subrange(off as int, s@.len() as int) =~= p@);
    true
}

/// Whether `s[i..]` starts with `p`.
pub fn matches_at(s: &[char], i: usize, p: &[char]) -> (r: bool)
    requires
        i <= s@.len(),
    ensures
        r == (i + p@.len() <= s@.len() && s@.subrange(i as int, i + p@.len()) == p@),
{
    if p.len() > s.len() - i {
        return false;
    }
    let n = s.len();
    let mut k: usize = 0;
    while k < p.len()
        invariant
            n == s@.len(),
            k <= p@.len(),
            i + p@.len() <= s@.len(),
            forall|j: int| 0 <= j < k ==> s@[i + j] == p@[j],
        decreases p@.len() - k,
    {
        assert(i + k < s@.len());
        if s[i + k] != p[k] {
            assert(s@.subrange(i as int, i + p@.len())[k as int] != p@[k as int]);
            return false;
        }
        k = k + 1;
    }
    assert(s@.subrange(i as int, i + p@.len()) =~= p@);
    true
}

/// `str::contains` with a string pattern, on character slices.
pub fn contains(s: &[char], p: &[char]) -> (r: bool)
    ensures
        r == contains_block(s@, p@),
{
    let mut i: usize = 0;
    while i < s.len()
        invariant
            i <= s@.len(),
            forall|j: int|
                0 <= j < i && j + p@.len() <= s@.len() ==> #[trigger] s@.subrange(j, j + p@.len())
                    != p@,
        decreases s@.len() - i,
    {
        if matches_at(s, i, p) {
            return true;
        }
        i = i + 1;
    }
    if matches_at(s, i, p) {
        return true;
    }
    assert forall|j: int|
        0 <= j && j + p@.len() <= s@.len() implies #[trigger] s@.subrange(j, j + p@.len()) != p@ by {
        if j == s@.len() {
        }
    }
    false
}

/// Whether the character occurs in the sequence.
pub fn contains_char(s: &[char], c: char) -> (r: bool)
    ensures
        r == s@.contains(c),
{
    let mut i: usize = 0;
    while i < s.len()
        invariant
            i <= s@.len(),
            forall|j: int| 0 <= j < i ==> s@[j] != c,
        decreases s@.len() - i,
    {
        if s[i] == c {
            return true;
        }
        i = i + 1;
    }
    false
}

/// A copy of `s[from..to]`.
pub fn slice_chars(s: &[char], from: usize, to: usize) -> (r: Vec<char>)
    requires
        from <= to <= s@.len(),
    ensures
        r@ == s@.subrange(from as int, to as int),
{
    let mut r: Vec<char> = Vec::new();
    let mut i = from;
    while i < to
        invariant
            from <= i <= to,
            to <= s@.len(),
            r@ == s@.subrange(from as int, i as int),
        decreases to - i,
    {
        r.push(s[i]);
        i = i + 1;
        assert(s@.subrange(from as int, i as int) == s@.subrange(from as int, i - 1).push(
            s@[i - 1],
        ));
    }
    r
}

// ── ASCII digits and decimal numbers ──────────────────────────────────────

/// `char::is_ascii_digit`.
pub open spec fn is_digit(c: char) -> bool {
    '0' <= c && c <= '9'
}

/// The value of an ASCII digit.
pub open spec fn digit_value(c: char) -> nat {
    (c as int - '0' as int) as nat
}

/// The ASCII digit of a value below ten.
pub open spec fn digit_char(d: nat) -> char {
    (d + '0' as int) as char
}

/// `char::is_ascii_digit`.
pub fn is_ascii_digit(c: char) -> (r: bool)
    ensures
        r == is_digit(c),
{
    '0' <= c && c <= '9'
}

/// Whether every character is an ASCII digit.
pub open spec fn all_digits(s: Seq<char>) -> bool {
    forall|i: int| 0 <= i < s.len() ==> is_digit(#[trigger] s[i])
}

/// Whether every character of the slice is an ASCII digit.
pub fn all_ascii_digits(s: &[char]) -> (r: bool)
    ensures
        r == all_digits(s@),
{
    let mut i: usize = 0;
    while i < s.len()
        invariant
            i <= s@.len(),
            forall|j: int| 0 <= j < i ==> is_digit(#[trigger] s@[j]),
        decreases s@.len() - i,
    {
        if !is_ascii_digit(s[i]) {
            return false;
        }
        i = i + 1;
    }
    true
}

/// The number written by a run of decimal digits (most significant first).
pub open spec fn digits_value(s: Seq<char>) -> nat
    decreases s.len(),
{
    if s.len() == 0 {
        0
    } else {
        digits_value(s.drop_last()) * 10 + digit_value(s.last())
    }
}

/// The decimal representation of `n`, without leading zeros.
pub open spec fn dec(n: nat) -> Seq<char>
    decreases n,
{
    if n < 10 {
        seq![digit_char(n)]
    } else {
        dec(n / 10).push(digit_char(n % 10))
    }
}

/// `s` padded on the left with zeros up to `width` characters (`{:0width}`).
pub open spec fn zero_pad(s: Seq<char>, width: nat) -> Seq<char> {
    if s.len() >= width {
        s
    } else {
        Seq::new((width - s.len()) as nat, |_i: int| '0') + s
    }
}

/// The decimal representation of a signed integer (`i64::to_string`).
pub open spec fn dec_int(n: int) -> Seq<char> {
    if n < 0 {
        seq!['-'] + dec((-n) as nat)
    } else {
        dec(n as nat)
    }
}

/// The value parsed by `FromStr` for an unsigned integer type whose largest
/// value is `max`: an optional `+`, then at least one decimal digit, and the
/// value must not exceed `max`.
pub open spec fn parse_unsigned(s: Seq<char>, max: nat) -> Option<nat> {
    let body = if s.len() > 0 && s[0] == '+' { s.drop_first() } else { s };
    if body.len() == 0 || !all_digits(body) || digits_value(body) > max {
        None
    } else {
        Some(digits_value(body))
    }
}

proof fn lemma_digit_char(d: nat)
    requires
        d < 10,
    ensures
        is_digit(digit_char(d)),
        digit_value(digit_char(d)) == d,
{
}

/// Every character of `dec(n)` is a digit, and it reads back as `n`.
pub proof fn lemma_dec_digits(n: nat)
    ensures
        all_digits(dec(n)),
        digits_value(dec(n)) == n,
        dec(n).len() >= 1,
    decreases n,
{
    if n < 10 {
        lemma_digit_char(n);
        assert(dec(n).drop_last() =~= Seq::<char>::empty());
        assert(digits_value(Seq::<char>::empty()) == 0);
        assert(dec(n).last() == digit_char(n));
        assert(digits_value(dec(n)) == digits_value(dec(n).drop_last()) * 10 + digit_value(dec(n).last()));
    } else {
        lemma_dec_digits(n / 10);
        lemma_digit_char(n % 10);
        assert(dec(n).drop_last() =~= dec(n / 10));
        assert(dec(n).last() == digit_char(n % 10));
        assert(digits_value(dec(n)) == digits_value(dec(n / 10)) * 10 + n % 10);
        assert(all_digits(dec(n))) by {
            assert forall|i: int| 0 <= i < dec(n).len() implies is_digit(#[trigger] dec(n)[i]) by {
                if i < dec(n).len() - 1 {
                    assert(dec(n)[i] == dec(n / 10)[i]);
                }
            }
        }
    }
}

/// The character of a digit value.
pub fn digit_to_char(d: u64) -> (c: char)
    requires
        d < 10,
    ensures
        c == digit_char(d as nat),
{
    let b: u8 = (d as u8) + 48u8;
    b as char
}

/// `u64::to_string`.
pub fn fmt_u64(n: u64) -> (r: Vec<char>)
    ensures
        r@ == dec(n as nat),
    decreases n,
{
    if n < 10 {
        let mut r: Vec<char> = Vec::new();
        r.push(digit_to_char(n));
        r
    } else {
        let mut r = fmt_u64(n / 10);
        r.push(digit_to_char(n % 10));
        r
    }
}

/// `i64::to_string`.
pub fn fmt_i64(n: i64) -> (r: Vec<char>)
    ensures
        r@ == dec_int(n as int),
{
    if n < 0 {
        let m: u64 = if n == i64::MIN {
            9223372036854775808u64
        } else {
            (-n) as u64
        };
        let mut r: Vec<char> = Vec::new();
        r.push('-');
        let d = fmt_u64(m);
        push_all(&mut r, d.as_slice());
        r
    } else {
        fmt_u64(n as u64)
    }
}

/// Left-pads with zeros up to `width` characters.
pub fn pad_zeros(s: &[char], width: usize) -> (r: Vec<char>)
    ensures
        r@ == zero_pad(s@, width as nat),
{
    let mut r: Vec<char> = Vec::new();
    if s.len() < width {
        let mut i: usize = 0;
        while i < width - s.len()
            invariant
                s@.len() < width,
                i <= width - s@.len(),
                r@ == Seq::new(i as nat, |_i: int| '0'),
            decreases width - s@.len() - i,
        {
            r.push('0');
            i = i + 1;
            assert(r@ =~= Seq::new(i as nat, |_i: int| '0'));
        }
    }
    push_all(&mut r, s);
    assert(s@.len() >= width ==> r@ =~= s@);
    r
}

/// `format!("{:0width$}", n)` for an unsigned number.
pub fn fmt_u64_padded(n: u64, width: usize) -> (r: Vec<char>)
    ensures
        r@ == zero_pad(dec(n as nat), width as nat),
{
    let d = fmt_u64(n);
    pad_zeros(d.as_slice(), width)
}

/// `str::parse::<u64>()` (decimal, optional leading `+`).
pub fn parse_u64(s: &[char]) -> (r: Option<u64>)
    ensures
        r matches Some(v) ==> parse_unsigned(s@, u64::MAX as nat) == Some(v as nat),
        r is None ==> parse_unsigned(s@, u64::MAX as nat) is None,
{
    let start: usize = if s.len() > 0 && s[0] == '+' { 1 } else { 0 };
    let ghost body = if s@.len() > 0 && s@[0] == '+' { s@.drop_first() } else { s@ };
    assert(body =~= s@.subrange(start as int, s@.len() as int));
    if start == s.len() {
        return None;
    }
    let mut acc: u64 = 0;
    let mut i = start;
    while i < s.len()
        invariant
            start <= i <= s@.len(),
            body == s@.subrange(start as int, s@.len() as int),
            body == (if s@.len() > 0 && s@[0] == '+' { s@.drop_first() } else { s@ }),
            all_digits(s@.subrange(start as int, i as int)),
            acc as nat == digits_value(s@.subrange(start as int, i as int)),
        decreases s@.len() - i,
    {
        let c = s[i];
        if !is_ascii_digit(c) {
            assert(body[i - start] == c);
            assert(!is_digit(body[i - start]));
            assert(!all_digits(body));
            assert(body.len() > 0);
            return None;
        }
        let d = (c as u32 - 48u32) as u64;
        let ghost pre = s@.subrange(start as int, i + 1);
        assert(pre.drop_last() =~= s@.subrange(start as int, i as int));
        assert(pre.last() == c);
        assert(digits_value(pre) == acc * 10 + d);
        if acc > (u64::MAX - d) / 10 {
            proof {
                assert(acc * 10 + d > u64::MAX) by (nonlinear_arith)
                    requires
                        acc > (u64::MAX - d) / 10,
                        d < 10,
                ;
                assert(pre =~= body.subrange(0, i + 1 - start));
                if all_digits(body) {
                    lemma_digits_value_mono(body, (i + 1 - start) as int);
                    assert(digits_value(body) > u64::MAX);
                }
                assert(body.len() > 0);
            }
            return None;
        }
        assert(all_digits(pre)) by {
            assert forall|j: int| 0 <= j < pre.len() implies is_digit(#[trigger] pre[j]) by {
                if j < pre.len() - 1 {
                    assert(pre[j] == s@.subrange(start as int, i as int)[j]);
                }
            }
        }
        acc = acc * 10 + d;
        i = i + 1;
    }
    assert(s@.subrange(start as int, s@.len() as int) == body);
    Some(acc)
}


/// The value parsed by `FromStr` for `i64`: an optional sign, at least one
/// decimal digit, and a value in range.
pub open spec fn parse_signed(s: Seq<char>) -> Option<int> {
    if s.len() > 0 && s[0] == '-' {
        let body = s.drop_first();
        if body.len() == 0 || !all_digits(body) || digits_value(body) > 0x8000_0000_0000_0000 {
            None
        } else {
            Some(-(digits_value(body) as int))
        }
    } else {
        match parse_unsigned(s, i64::MAX as nat) {
            Some(v) => Some(v as int),
            None => None,
        }
    }
}

/// `str::parse::<i64>()`.
pub fn parse_i64(s: &[char]) -> (r: Option<i64>)
    ensures
        match r {
            Some(v) => parse_signed(s@) == Some(v as int),
            None => parse_signed(s@) is None,
        },
{
    if s.len() > 0 && s[0] == '-' {
        let body = slice_chars(s, 1, s.len());
        assert(body@ =~= s@.drop_first());
        if body.len() == 0 || body[0] == '+' {
            proof {
                if body@.len() > 0 {
                    assert(!is_digit(body@[0]));
                }
            }
            return None;
        }
        match parse_u64(body.as_slice()) {
            Some(v) => {
                if v <= 0x8000_0000_0000_0000u64 {
                    let w: i128 = -(v as i128);
                    Some(w as i64)
                } else {
                    None
                }
            },
            None => None,
        }
    } else {
        match parse_u64(s) {
            Some(v) => {
                if v <= i64::MAX as u64 {
                    Some(v as i64)
                } else {
                    None
                }
            },
            None => None,
        }
    }
}

/// The value of a prefix of a digit run never exceeds the value of the run.
pub proof fn lemma_digits_value_mono(s: Seq<char>, k: int)
    requires
        0 <= k <= s.len(),
        all_digits(s),
    ensures
        digits_value(s.subrange(0, k)) <= digits_value(s),
    decreases s.len() - k,
{
    if k < s.len() {
        lemma_digits_value_mono(s, k + 1);
        assert(s.subrange(0, k + 1).drop_last() =~= s.subrange(0, k));
    } else {
        assert(s.subrange(0, k) =~= s);
    }
}

/// `str::parse::<u32>()` (decimal, optional leading `+`).
pub fn parse_u32(s: &[char]) -> (r: Option<u32>)
    ensures
        r matches Some(v) ==> parse_unsigned(s@, u32::MAX as nat) == Some(v as nat),
        r is None ==> parse_unsigned(s@, u32::MAX as nat) is None,
{
    match parse_u64(s) {
        Some(v) => {
            if v <= 4294967295u64 {
                Some(v as u32)
            } else {
                None
            }
        },
        None => {
            proof {
                let body = if s@.len() > 0 && s@[0] == '+' { s@.drop_first() } else { s@ };
                if body.len() > 0 && all_digits(body) {
                    assert(digits_value(body) > u64::MAX);
                }
            }
            None
        },
    }
}

/// `str::parse::<usize>()` (decimal, optional leading `+`).
pub fn parse_usize(s: &[char]) -> (r: Option<usize>)
    ensures
        r matches Some(v) ==> parse_unsigned(s@, usize::MAX as nat) == Some(v as nat),
        r is None ==> parse_unsigned(s@, usize::MAX as nat) is None,
{
    match parse_u64(s) {
        Some(v) => {
            if v as u128 <= usize::MAX as u128 {
                Some(v as usize)
            } else {
                None
            }
        },
        None => {
            proof {
                let body = if s@.len() > 0 && s@[0] == '+' { s@.drop_first() } else { s@ };
                if body.len() > 0 && all_digits(body) {
                    assert(digits_value(body) > u64::MAX);
                }
            }
            None
        },
    }
}

// ── whitespace ────────────────────────────────────────────────────────────

/// `char::is_whitespace`: the Unicode `White_Space` property.
pub open spec fn is_space(c: char) -> bool {
    ||| ('\t' <= c && c <= '\r')
    ||| c == ' '
    ||| c == '\u{85}'
    ||| c == '\u{a0}'
    ||| c == '\u{1680}'
    ||| ('\u{2000}' <= c && c <= '\u{200a}')
    ||| c == '\u{2028}'
    ||| c == '\u{2029}'
    ||| c == '\u{202f}'
    ||| c == '\u{205f}'
    ||| c == '\u{3000}'
}

/// `char::is_whitespace`.
pub fn is_whitespace(c: char) -> (r: bool)
    ensures
        r == is_space(c),
{
    ('\t' <= c && c <= '\r') || c == ' ' || c == '\u{85}' || c == '\u{a0}' || c == '\u{1680}'
        || ('\u{2000}' <= c && c <= '\u{200a}') || c == '\u{2028}' || c == '\u{2029}' || c
        == '\u{202f}' || c == '\u{205f}' || c == '\u{3000}'
}

} // verus!
