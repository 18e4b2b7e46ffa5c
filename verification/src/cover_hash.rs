//! Perceptual difference hashes (dHash) of covers, their hexadecimal form and
//! the Hamming distance between them.
//!
//! A cover is reduced to a 9×8 grey image; bit `k = 8·y + x` of the hash is set
//! when pixel `(x, y)` is brighter than its right neighbour `(x + 1, y)`.
use vstd::prelude::*;
use crate::thumbnail::ReaderFilter;
use crate::text::{chars_of, string_of, fmt_u64, dec, push_all, push_str};

verus! {

// ── bits ──────────────────────────────────────────────────────────────────

/// Bit `k` of `h` is set.
pub open spec fn bit_set(h: u64, k: u64) -> bool {
    (h >> k) & 1u64 == 1u64
}

proof fn lemma_bit_or(h: u64, k: u64, j: u64)
    requires
        k < 64,
        j < 64,
    ensures
        bit_set(h | (1u64 << k), j) == (bit_set(h, j) || j == k),
{
    assert((((h | (1u64 << k)) >> j) & 1u64 == 1u64) == ((((h >> j) & 1u64) == 1u64) || j == k))
        by (bit_vector)
        requires
            k < 64,
            j < 64,
    ;
}

proof fn lemma_bit_zero(j: u64)
    requires
        j < 64,
    ensures
        !bit_set(0u64, j),
{
    assert(((0u64 >> j) & 1u64) != 1u64) by (bit_vector);
}

proof fn lemma_bit_xor(a: u64, b: u64, j: u64)
    requires
        j < 64,
    ensures
        bit_set(a ^ b, j) == (bit_set(a, j) != bit_set(b, j)),
{
    assert(((((a ^ b) >> j) & 1u64) == 1u64) == ((((a >> j) & 1u64) == 1u64) != (((b >> j) & 1u64)
        == 1u64))) by (bit_vector);
}

/// The comparison that decides bit `k` of a hash of 9×8 grey pixels:
/// pixel `(x, y)` brighter than pixel `(x + 1, y)`, with `k = 8·y + x`.
pub open spec fn brighter_than_right(pixels: Seq<u8>, k: int) -> bool {
    pixels[(k / 8) * 9 + k % 8] > pixels[(k / 8) * 9 + k % 8 + 1]
}

/// The difference hash of 9×8 grey pixels (row-major): the bits of the result
/// are exactly the pixel comparisons.
pub fn dhash_bits(pixels: &[u8]) -> (r: u64)
    requires
        pixels@.len() == 72,
    ensures
        forall|k: u64| k < 64 ==> (#[trigger] bit_set(r, k) <==> brighter_than_right(pixels@, k as int)),
{
    let mut hash: u64 = 0;
    let mut y: u64 = 0;
    proof {
        assert forall|j: u64| j < 64 implies !#[trigger] bit_set(hash, j) by {
            lemma_bit_zero(j);
        }
    }
    while y < 8
        invariant
            y <= 8,
            pixels@.len() == 72,
            forall|j: u64| j < 64 ==> (#[trigger] bit_set(hash, j) <==> (j < y * 8 && brighter_than_right(pixels@, j as int))),
        decreases 8 - y,
    {
        let mut x: u64 = 0;
        while x < 8
            invariant
                y < 8,
                x <= 8,
                pixels@.len() == 72,
                forall|j: u64| j < 64 ==> (#[trigger] bit_set(hash, j) <==> (j < y * 8 + x && brighter_than_right(pixels@, j as int))),
            decreases 8 - x,
        {
            let k: u64 = y * 8 + x;
            let left = pixels[(y * 9 + x) as usize];
            let right = pixels[(y * 9 + x + 1) as usize];
            assert(k / 8 == y && k % 8 == x);
            let ghost before = hash;
            if left > right {
                hash = hash | (1u64 << k);
                proof {
                    assert forall|j: u64| j < 64 implies (#[trigger] bit_set(hash, j) <==> (j < y * 8 + x + 1 && brighter_than_right(pixels@, j as int))) by {
                        lemma_bit_or(before, k, j);
                    }
                }
            }
            x = x + 1;
        }
        y = y + 1;
    }
    hash
}

// ── hexadecimal ───────────────────────────────────────────────────────────

/// The lower-case hexadecimal digit of a value below sixteen.
pub open spec fn hex_char(d: nat) -> char {
    if d < 10 {
        (d + 48) as char
    } else {
        (d + 87) as char
    }
}

/// The last `n` hexadecimal digits of `x`, most significant first.
pub open spec fn hex_digits(x: nat, n: nat) -> Seq<char>
    decreases n,
{
    if n == 0 {
        Seq::empty()
    } else {
        hex_digits(x / 16, (n - 1) as nat).push(hex_char(x % 16))
    }
}

/// `format!("{:016x}", h)`.
pub open spec fn hex16(h: u64) -> Seq<char> {
    hex_digits(h as nat, 16)
}

/// The value of a hexadecimal digit (either case).
pub open spec fn hex_digit_value(c: char) -> Option<nat> {
    if '0' <= c && c <= '9' {
        Some((c as int - 48) as nat)
    } else if 'a' <= c && c <= 'f' {
        Some((c as int - 87) as nat)
    } else if 'A' <= c && c <= 'F' {
        Some((c as int - 55) as nat)
    } else {
        None
    }
}

/// The value of a run of hexadecimal digits, if every character is one.
pub open spec fn hex_value(s: Seq<char>) -> Option<nat>
    decreases s.len(),
{
    if s.len() == 0 {
        Some(0)
    } else {
        match (hex_value(s.drop_last()), hex_digit_value(s.last())) {
            (Some(v), Some(d)) => Some(v * 16 + d),
            _ => None,
        }
    }
}

/// `u64::from_str_radix(s, 16)`: an optional `+`, at least one hexadecimal
/// digit, and a value that fits in 64 bits.
pub open spec fn parse_hex(s: Seq<char>) -> Option<u64> {
    let body = if s.len() > 0 && s[0] == '+' { s.drop_first() } else { s };
    if body.len() == 0 {
        None
    } else {
        match hex_value(body) {
            Some(v) => if v <= u64::MAX { Some(v as u64) } else { None },
            None => None,
        }
    }
}

fn hex_char_of(d: u64) -> (c: char)
    requires
        d < 16,
    ensures
        c == hex_char(d as nat),
{
    if d < 10 {
        ((d as u8) + 48u8) as char
    } else {
        ((d as u8) + 87u8) as char
    }
}

fn hex_digits_exec(x: u64, n: usize) -> (r: Vec<char>)
    ensures
        r@ == hex_digits(x as nat, n as nat),
    decreases n,
{
    if n == 0 {
        Vec::new()
    } else {
        let mut v = hex_digits_exec(x / 16, n - 1);
        v.push(hex_char_of(x % 16));
        v
    }
}

/// `format!("{:016x}", h)`: sixteen lower-case hexadecimal digits.
pub fn format_hex16(h: u64) -> (r: String)
    ensures
        r@ == hex16(h),
{
    let v = hex_digits_exec(h, 16);
    string_of(v.as_slice())
}

fn hex_digit_of(c: char) -> (r: Option<u64>)
    ensures
        match r {
            Some(d) => hex_digit_value(c) == Some(d as nat) && d < 16,
            None => hex_digit_value(c) is None,
        },
{
    if '0' <= c && c <= '9' {
        Some((c as u32 - 48) as u64)
    } else if 'a' <= c && c <= 'f' {
        Some((c as u32 - 87) as u64)
    } else if 'A' <= c && c <= 'F' {
        Some((c as u32 - 55) as u64)
    } else {
        None
    }
}

proof fn lemma_hex_value_prefix(s: Seq<char>, k: int)
    requires
        0 <= k <= s.len(),
        hex_value(s) is Some,
    ensures
        hex_value(s.subrange(0, k)) is Some,
        hex_value(s.subrange(0, k)).unwrap() <= hex_value(s).unwrap(),
    decreases s.len() - k,
{
    if k == s.len() {
        assert(s.subrange(0, k) =~= s);
    } else {
        assert(s.drop_last() =~= s.subrange(0, s.len() - 1));
        lemma_hex_value_prefix(s.drop_last(), k);
        assert(s.drop_last().subrange(0, k) =~= s.subrange(0, k));
    }
}

/// `u64::from_str_radix(s, 16)`.
pub fn parse_hex_u64(s: &str) -> (r: Option<u64>)
    ensures
        r == parse_hex(s@),
{
    let v = chars_of(s);
    let start: usize = if v.len() > 0 && v[0] == '+' { 1 } else { 0 };
    let ghost body = if s@.len() > 0 && s@[0] == '+' { s@.drop_first() } else { s@ };
    assert(body =~= v@.subrange(start as int, v@.len() as int));
    if start == v.len() {
        return None;
    }
    let mut acc: u64 = 0;
    let mut i = start;
    assert(v@.subrange(start as int, start as int) =~= Seq::<char>::empty());
    while i < v.len()
        invariant
            start <= i <= v@.len(),
            start < v@.len(),
            v@ == s@,
            body == v@.subrange(start as int, v@.len() as int),
            body == (if s@.len() > 0 && s@[0] == '+' { s@.drop_first() } else { s@ }),
            hex_value(v@.subrange(start as int, i as int)) == Some(acc as nat),
        decreases v@.len() - i,
    {
        let ghost pre = v@.subrange(start as int, i + 1);
        assert(pre.drop_last() =~= v@.subrange(start as int, i as int));
        assert(pre.last() == v@[i as int]);
        match hex_digit_of(v[i]) {
            None => {
                proof {
                    assert(hex_value(pre) is None);
                    if hex_value(body) is Some {
                        assert(pre =~= body.subrange(0, i + 1 - start));
                        lemma_hex_value_prefix(body, i + 1 - start);
                    }
                }
                return None;
            },
            Some(d) => {
                if acc > (u64::MAX - d) / 16 {
                    proof {
                        assert(acc * 16 + d > u64::MAX) by (nonlinear_arith)
                            requires
                                acc > (u64::MAX - d) / 16,
                                d < 16,
                        ;
                        assert(pre =~= body.subrange(0, i + 1 - start));
                        if hex_value(body) is Some {
                            lemma_hex_value_prefix(body, i + 1 - start);
                        }
                    }
                    return None;
                }
                acc = acc * 16 + d;
            },
        }
        i = i + 1;
    }
    Some(acc)
}

// ── Hamming distance ──────────────────────────────────────────────────────

/// Number of set bits among the lowest `n` bits of `x`.
pub open spec fn ones(x: u64, n: nat) -> nat
    decreases n,
{
    if n == 0 {
        0
    } else {
        ones(x, (n - 1) as nat) + if bit_set(x, (n - 1) as u64) {
            1nat
        } else {
            0nat
        }
    }
}

/// `u64::count_ones`.
pub fn count_ones(x: u64) -> (r: u32)
    ensures
        r == ones(x, 64),
{
    let mut c: u32 = 0;
    let mut k: u64 = 0;
    while k < 64
        invariant
            k <= 64,
            c == ones(x, k as nat),
            c <= k,
        decreases 64 - k,
    {
        if (x >> k) & 1 == 1 {
            c = c + 1;
        }
        k = k + 1;
    }
    c
}

/// The Hamming distance between two hex hashes, when both parse.
pub open spec fn hash_distance(a: Seq<char>, b: Seq<char>) -> Option<nat> {
    match (parse_hex(a), parse_hex(b)) {
        (Some(x), Some(y)) => Some(ones(x ^ y, 64)),
        _ => None,
    }
}

/// Hamming distance between two hex hashes; `None` when either is invalid.
/// 0 means identical covers, 64 completely different ones.
pub fn distance(a: &str, b: &str) -> (r: Option<u32>)
    ensures
        match r {
            Some(d) => hash_distance(a@, b@) == Some(d as nat),
            None => hash_distance(a@, b@) is None,
        },
{
    let a_bits = match parse_hex_u64(a) {
        Some(v) => v,
        None => return None,
    };
    let b_bits = match parse_hex_u64(b) {
        Some(v) => v,
        None => return None,
    };
    Some(count_ones(a_bits ^ b_bits))
}

// ── hashing an image ──────────────────────────────────────────────────────

/// The grey pixels (row-major, `width × height`) that the `image` crate
/// produces for the encoded image `bytes`: decoded, converted to 8-bit luma
/// and resized with `filter`; `None` when the bytes do not decode.
pub uninterp spec fn grey_pixels_of(bytes: Seq<u8>, width: u32, height: u32, filter: ReaderFilter) -> Option<Seq<u8>>;

/// `image::load_from_memory`, then `into_luma8` and `imageops::resize` to
/// `width × height` with the given filter. The result is named by
/// `grey_pixels_of`; the resized buffer has one byte per pixel, as
/// `imageops::resize` builds it with the requested dimensions.
#[verifier::external_body]
fn decode_grey(bytes: &[u8], width: u32, height: u32, filter: ReaderFilter) -> (r: Option<Vec<u8>>)
    ensures
        match r {
            Some(v) => grey_pixels_of(bytes@, width, height, filter) == Some(v@) && v@.len() == width * height,
            None => grey_pixels_of(bytes@, width, height, filter) is None,
        },
{
    let f = match filter {
        ReaderFilter::Nearest => image::imageops::FilterType::Nearest,
        ReaderFilter::Triangle => image::imageops::FilterType::Triangle,
        ReaderFilter::CatmullRom => image::imageops::FilterType::CatmullRom,
        ReaderFilter::Lanczos3 => image::imageops::FilterType::Lanczos3,
    };
    let grey = image::load_from_memory(bytes).ok()?.into_luma8();
    Some(image::imageops::resize(&grey, width, height, f).into_raw())
}

/// The 9×8 grey pixels a cover is hashed from (triangle filter).
pub open spec fn grey_9x8_of(bytes: Seq<u8>) -> Option<Seq<u8>> {
    grey_pixels_of(bytes, 9, 8, ReaderFilter::Triangle)
}

/// `s` is the hex form of the difference hash of the 9×8 grey pixels `px`.
pub open spec fn is_hash_of(s: Seq<char>, px: Seq<u8>) -> bool {
    exists|h: u64| s == hex16(h) && forall|k: u64| k < 64 ==> (#[trigger] bit_set(h, k) <==> brighter_than_right(px, k as int))
}

/// The difference hash of an encoded image as sixteen lower-case hex digits;
/// `None` when the image does not decode.
pub fn compute_hash(bytes: &[u8]) -> (r: Option<String>)
    ensures
        match grey_9x8_of(bytes@) {
            Some(px) => r matches Some(s) && is_hash_of(s@, px),
            None => r is None,
        },
{
    let px = match decode_grey(bytes, 9, 8, ReaderFilter::Triangle) {
        Some(v) => v,
        None => return None,
    };
    let h = dhash_bits(px.as_slice());
    Some(format_hex16(h))
}

// ── laws ──────────────────────────────────────────────────────────────────

proof fn lemma_hex_char_value(d: nat)
    requires
        d < 16,
    ensures
        hex_digit_value(hex_char(d)) == Some(d),
{
}

/// 16 to the power `n`.
pub open spec fn pow16(n: nat) -> nat
    decreases n,
{
    if n == 0 {
        1
    } else {
        16 * pow16((n - 1) as nat)
    }
}

proof fn lemma_hex_digits_value(x: nat, n: nat)
    ensures
        hex_value(hex_digits(x, n)) == Some(x % pow16(n)),
        hex_digits(x, n).len() == n,
    decreases n,
{
    if n > 0 {
        lemma_hex_digits_value(x / 16, (n - 1) as nat);
        lemma_hex_char_value(x % 16);
        let s = hex_digits(x, n);
        assert(s.drop_last() =~= hex_digits(x / 16, (n - 1) as nat));
        let p = pow16((n - 1) as nat);
        assert(p >= 1) by {
            lemma_pow16_pos((n - 1) as nat);
        }
        assert((x / 16) % p * 16 + x % 16 == x % (16 * p)) by (nonlinear_arith)
            requires
                p >= 1,
        {
            lemma_mod_split(x, p);
        }
    }
}

proof fn lemma_pow16_pos(n: nat)
    ensures
        pow16(n) >= 1,
    decreases n,
{
    if n > 0 {
        lemma_pow16_pos((n - 1) as nat);
    }
}

proof fn lemma_mod_split(x: nat, p: nat)
    requires
        p >= 1,
    ensures
        (x / 16) % p * 16 + x % 16 == x % (16 * p),
{
    let q = x / 16;
    let r = x % 16;
    assert(x == q * 16 + r);
    let q2 = q / p;
    let r2 = q % p;
    assert(q == q2 * p + r2) by (nonlinear_arith)
        requires
            p >= 1,
            q2 == q / p,
            r2 == q % p,
    ;
    assert(x == q2 * (16 * p) + (r2 * 16 + r)) by (nonlinear_arith)
        requires
            x == q * 16 + r,
            q == q2 * p + r2,
    ;
    assert(0 <= r2 * 16 + r < 16 * p) by (nonlinear_arith)
        requires
            0 <= r2 < p,
            0 <= r < 16,
    ;
    vstd::arithmetic::div_mod::lemma_fundamental_div_mod_converse(x as int, (16 * p) as int, q2 as int, (r2 * 16 + r) as int);
}

/// A formatted hash always parses back to the same 64 bits.
pub proof fn hex16_parses_back(h: u64)
    ensures
        parse_hex(hex16(h)) == Some(h),
{
    lemma_hex_digits_value(h as nat, 16);
    assert(pow16(16) == 0x1_0000_0000_0000_0000) by {
        reveal_with_fuel(pow16, 17);
    }
    let s = hex16(h);
    assert(s.len() == 16);
    assert(s[0] != '+') by {
        assert(s =~= hex_digits(h as nat / 16, 15).push(hex_char(h as nat % 16)));
        lemma_hex_digits_first(h as nat, 16);
    }
}

proof fn lemma_hex_digits_first(x: nat, n: nat)
    requires
        n >= 1,
    ensures
        hex_digit_value(hex_digits(x, n)[0]) is Some,
    decreases n,
{
    if n == 1 {
        assert(hex_digits(x / 16, 0) =~= Seq::<char>::empty());
        assert(hex_digits(x, n)[0] == hex_char(x % 16));
        lemma_hex_char_value(x % 16);
    } else {
        lemma_hex_digits_first(x / 16, (n - 1) as nat);
        lemma_hex_digits_value(x / 16, (n - 1) as nat);
        assert(hex_digits(x, n)[0] == hex_digits(x / 16, (n - 1) as nat)[0]);
    }
}

proof fn lemma_ones_zero(n: nat)
    requires
        n <= 64,
    ensures
        ones(0u64, n) == 0,
    decreases n,
{
    if n > 0 {
        lemma_ones_zero((n - 1) as nat);
        lemma_bit_zero((n - 1) as u64);
    }
}

proof fn lemma_ones_xor_comm(a: u64, b: u64, n: nat)
    requires
        n <= 64,
    ensures
        ones(a ^ b, n) == ones(b ^ a, n),
    decreases n,
{
    if n > 0 {
        lemma_ones_xor_comm(a, b, (n - 1) as nat);
        lemma_bit_xor(a, b, (n - 1) as u64);
        lemma_bit_xor(b, a, (n - 1) as u64);
    }
}

/// A valid hash is at distance 0 from itself.
pub proof fn distance_to_itself_is_zero(a: Seq<char>)
    requires
        parse_hex(a) is Some,
    ensures
        hash_distance(a, a) == Some(0nat),
{
    let x = parse_hex(a).unwrap();
    assert(x ^ x == 0u64) by (bit_vector);
    lemma_ones_zero(64);
}

/// The distance does not depend on the order of the two hashes.
pub proof fn distance_is_symmetric(a: Seq<char>, b: Seq<char>)
    ensures
        hash_distance(a, b) == hash_distance(b, a),
{
    if parse_hex(a) is Some && parse_hex(b) is Some {
        lemma_ones_xor_comm(parse_hex(a).unwrap(), parse_hex(b).unwrap(), 64);
    }
}

/// The distance between two valid hashes is at most 64.
pub proof fn distance_at_most_64(x: u64)
    ensures
        ones(x, 64) <= 64,
{
    lemma_ones_le(x, 64);
}

proof fn lemma_ones_triangle(a: u64, b: u64, c: u64, n: nat)
    requires
        n <= 64,
    ensures
        ones(a ^ c, n) <= ones(a ^ b, n) + ones(b ^ c, n),
    decreases n,
{
    if n > 0 {
        lemma_ones_triangle(a, b, c, (n - 1) as nat);
        lemma_bit_xor(a, c, (n - 1) as u64);
        lemma_bit_xor(a, b, (n - 1) as u64);
        lemma_bit_xor(b, c, (n - 1) as u64);
    }
}

/// The distance obeys the triangle inequality: going through a third hash
/// is never shorter.
pub proof fn distance_triangle(a: Seq<char>, b: Seq<char>, c: Seq<char>)
    requires
        parse_hex(a) is Some,
        parse_hex(b) is Some,
        parse_hex(c) is Some,
    ensures
        hash_distance(a, c).unwrap() <= hash_distance(a, b).unwrap() + hash_distance(b, c).unwrap(),
{
    lemma_ones_triangle(parse_hex(a).unwrap(), parse_hex(b).unwrap(), parse_hex(c).unwrap(), 64);
}

proof fn lemma_ones_le(x: u64, n: nat)
    ensures
        ones(x, n) <= n,
    decreases n,
{
    if n > 0 {
        lemma_ones_le(x, (n - 1) as nat);
    }
}

// ── labels ────────────────────────────────────────────────────────────────

/// The label shown for a hash distance.
pub open spec fn similarity_label_of(distance: u32) -> Seq<char> {
    if distance <= 5 {
        "Coincidencia exacta"@
    } else if distance <= 15 {
        "Muy similar"@
    } else if distance <= 25 {
        "Similar"@
    } else if distance <= 35 {
        "Posible coincidencia"@
    } else {
        "Similitud baja (distancia "@ + dec(distance as nat) + ")"@
    }
}

/// The label shown for a hash distance: from exact match to low similarity.
pub fn similarity_label(distance: u32) -> (r: String)
    ensures
        r@ == similarity_label_of(distance),
{
    if distance <= 5 {
        "Coincidencia exacta".to_owned()
    } else if distance <= 15 {
        "Muy similar".to_owned()
    } else if distance <= 25 {
        "Similar".to_owned()
    } else if distance <= 35 {
        "Posible coincidencia".to_owned()
    } else {
        let mut v = chars_of("Similitud baja (distancia ");
        let d = fmt_u64(distance as u64);
        push_all(&mut v, d.as_slice());
        push_str(&mut v, ")");
        string_of(v.as_slice())
    }
}

} // verus!
