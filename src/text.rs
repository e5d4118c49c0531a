//! The text height-field format.
//!
//! ```text
//! <width>,<height>
//! <scale_x>,<scale_y>
//! <sample>        one line per sample, row by row
//! ```
//! Lines end at `\n`; every field is read with surrounding white space removed.
use vstd::prelude::*;
use vstd::slice::slice_subrange;
use crate::error::ReadError;
use crate::float_bits::{
    is_finite, is_finite_bits, is_nan, number_token, parse_float, QUIET_NAN_BITS,
};
use crate::heightmap::Heightmap;

verus! {

/// An ASCII blank: space, tab, line feed, vertical tab, form feed, carriage return.
pub open spec fn is_blank(b: u8) -> bool {
    b == 0x20 || (0x09 <= b && b <= 0x0D)
}

/// The bytes `a b c` encode a three-byte white-space character: U+1680,
/// U+2000 to U+200A, U+2028, U+2029, U+202F, U+205F or U+3000.
pub open spec fn is_wide_blank(a: u8, b: u8, c: u8) -> bool {
    ||| (a == 0xE1 && b == 0x9A && c == 0x80)
    ||| (a == 0xE2 && b == 0x80 && ((0x80 <= c && c <= 0x8A) || c == 0xA8 || c == 0xA9 || c == 0xAF))
    ||| (a == 0xE2 && b == 0x81 && c == 0x9F)
    ||| (a == 0xE3 && b == 0x80 && c == 0x80)
}

/// The bytes `a b` encode a two-byte white-space character: U+0085 or U+00A0.
pub open spec fn is_narrow_blank(a: u8, b: u8) -> bool {
    a == 0xC2 && (b == 0x85 || b == 0xA0)
}

/// Length of the white-space character whose UTF-8 encoding begins `s`, or 0.
/// The white space is Unicode's, the characters for which `char::is_whitespace` holds.
pub open spec fn leading_blank(s: Seq<u8>) -> int {
    if s.len() >= 1 && is_blank(s[0]) {
        1
    } else if s.len() >= 2 && is_narrow_blank(s[0], s[1]) {
        2
    } else if s.len() >= 3 && is_wide_blank(s[0], s[1], s[2]) {
        3
    } else {
        0
    }
}

/// Length of the white-space character whose UTF-8 encoding ends `s`, or 0.
pub open spec fn trailing_blank(s: Seq<u8>) -> int {
    let n = s.len() as int;
    if n >= 1 && is_blank(s[n - 1]) {
        1
    } else if n >= 2 && is_narrow_blank(s[n - 2], s[n - 1]) {
        2
    } else if n >= 3 && is_wide_blank(s[n - 3], s[n - 2], s[n - 1]) {
        3
    } else {
        0
    }
}

/// `s` without its leading white space.
pub open spec fn trim_start(s: Seq<u8>) -> Seq<u8>
    decreases s.len(),
{
    if leading_blank(s) > 0 {
        trim_start(s.subrange(leading_blank(s), s.len() as int))
    } else {
        s
    }
}

/// `s` without its trailing white space.
pub open spec fn trim_end(s: Seq<u8>) -> Seq<u8>
    decreases s.len(),
{
    if trailing_blank(s) > 0 {
        trim_end(s.subrange(0, s.len() - trailing_blank(s)))
    } else {
        s
    }
}

/// `s` without white space at either end.
pub open spec fn trim(s: Seq<u8>) -> Seq<u8> {
    trim_end(trim_start(s))
}

/// The lines of `t[s..]` for a scan at `k` whose current line began at `s`:
/// each `\n` ends a line, and a last line is kept only where it is not empty.
pub open spec fn split_from(t: Seq<u8>, k: int, s: int) -> Seq<Seq<u8>>
    decreases t.len() - k,
{
    if k >= t.len() {
        if s < t.len() {
            seq![t.subrange(s, t.len() as int)]
        } else {
            Seq::empty()
        }
    } else if t[k] == 0x0A {
        seq![t.subrange(s, k)] + split_from(t, k + 1, k + 1)
    } else {
        split_from(t, k + 1, s)
    }
}

/// The lines of `t`, without their `\n`.
pub open spec fn lines(t: Seq<u8>) -> Seq<Seq<u8>> {
    split_from(t, 0, 0)
}

/// The first comma of `s` at or after `k`, or `s.len()`.
pub open spec fn comma_from(s: Seq<u8>, k: int) -> int
    decreases s.len() - k,
{
    if k >= s.len() {
        s.len() as int
    } else if s[k] == 0x2C {
        k
    } else {
        comma_from(s, k + 1)
    }
}

/// The text before the first comma.
pub open spec fn first_field(s: Seq<u8>) -> Seq<u8> {
    s.subrange(0, comma_from(s, 0))
}

/// The text between the first comma and the next, if there is a first comma.
pub open spec fn second_field(s: Seq<u8>) -> Option<Seq<u8>> {
    let c = comma_from(s, 0);
    if c >= s.len() {
        None
    } else {
        Some(s.subrange(c + 1, comma_from(s, c + 1)))
    }
}

pub open spec fn is_digit(b: u8) -> bool {
    0x30 <= b && b <= 0x39
}

/// The value of the decimal digits `d`.
pub open spec fn decimal(d: Seq<u8>) -> int
    decreases d.len(),
{
    if d.len() == 0 {
        0
    } else {
        decimal(d.drop_last()) * 10 + (d.last() - 0x30)
    }
}

/// The value of `d` where it is one or more decimal digits.
pub open spec fn magnitude(d: Seq<u8>) -> Option<int> {
    if d.len() > 0 && forall|k: int| 0 <= k < d.len() ==> is_digit(#[trigger] d[k]) {
        Some(decimal(d))
    } else {
        None
    }
}

/// The value of `t`: digits after an optional `+` or `-`.
pub open spec fn signed_value(t: Seq<u8>) -> Option<int> {
    if t.len() > 0 && t[0] == 0x2D {
        match magnitude(t.drop_first()) {
            Some(v) => Some(-v),
            None => None,
        }
    } else if t.len() > 0 && t[0] == 0x2B {
        magnitude(t.drop_first())
    } else {
        magnitude(t)
    }
}

/// The `i32` that `t` writes, or `None` where `t` is no integer or one out of range.
pub open spec fn int_token(t: Seq<u8>) -> Option<i32> {
    match signed_value(t) {
        Some(v) => if i32::MIN <= v <= i32::MAX { Some(v as i32) } else { None },
        None => None,
    }
}

/// The grid size on a size line: two non-negative integers.
pub open spec fn size_fields(line: Seq<u8>) -> Option<(i32, i32)> {
    match (int_token(trim(first_field(line))), second_field(line)) {
        (Some(w), Some(f)) => match int_token(trim(f)) {
            Some(h) => if w >= 0 && h >= 0 { Some((w, h)) } else { None },
            None => None,
        },
        _ => None,
    }
}

/// The scales on a scale line: two finite numbers. The first field is read
/// first: where it is no number the line fails with `ParseFloat`; where it is
/// one but the second field is missing, with `ParseInt`, as for any missing
/// field count. A second field that is no number, or a scale that is infinite
/// or a NaN, fails with `ParseFloat`.
pub open spec fn scale_fields(line: Seq<u8>) -> Result<(u32, u32), ReadError> {
    match number_token(trim(first_field(line))) {
        None => Err(ReadError::ParseFloat),
        Some(x) => match second_field(line) {
            None => Err(ReadError::ParseInt),
            Some(f) => match number_token(trim(f)) {
                Some(y) => if is_finite_bits(x) && is_finite_bits(y) {
                    Ok((x, y))
                } else {
                    Err(ReadError::ParseFloat)
                },
                None => Err(ReadError::ParseFloat),
            },
        },
    }
}

/// `line`, as line `m` of a text, reads as what its place asks for: a size
/// line, a scale line, or a sample.
pub open spec fn line_reads(m: int, line: Seq<u8>) -> bool {
    if m == 0 {
        size_fields(line).is_some()
    } else if m == 1 {
        scale_fields(line).is_ok()
    } else {
        number_token(trim(line)).is_some()
    }
}

/// How line `m` fails where it does not read: `ParseInt` for the size line,
/// the scale line's own error, `ParseFloat` for a sample.
pub open spec fn line_error(m: int, line: Seq<u8>) -> ReadError {
    if m == 0 {
        ReadError::ParseInt
    } else if m == 1 {
        match scale_fields(line) {
            Err(e) => e,
            Ok(_) => ReadError::ParseFloat,
        }
    } else {
        ReadError::ParseFloat
    }
}

/// Line `m` of `ls` reads as what its place asks for.
pub open spec fn line_ok(ls: Seq<Seq<u8>>, m: int) -> bool {
    line_reads(m, ls[m])
}

/// The grid size the size line declares.
pub open spec fn text_size(ls: Seq<Seq<u8>>) -> (i32, i32) {
    size_fields(ls[0]).unwrap()
}

/// The scales the scale line declares.
pub open spec fn text_scale(ls: Seq<Seq<u8>>) -> (u32, u32) {
    scale_fields(ls[1]).unwrap()
}

/// The samples of lines `2 .. n`.
pub open spec fn text_samples(ls: Seq<Seq<u8>>, n: int) -> Seq<u32> {
    Seq::new(if n > 2 { (n - 2) as nat } else { 0 }, |m: int| number_token(trim(ls[m + 2])).unwrap())
}

/// How reading the text fails, if it does: the first line that does not read
/// gives its `line_error`; a missing size or scale line gives `ParseInt`, as a
/// missing field does; then a number of samples other than `width * height`
/// gives `ParseFloat`.
pub open spec fn text_error(t: Seq<u8>) -> Option<ReadError> {
    let ls = lines(t);
    if ls.len() == 0 || !line_ok(ls, 0) {
        Some(ReadError::ParseInt)
    } else if ls.len() == 1 {
        Some(ReadError::ParseInt)
    } else if !line_ok(ls, 1) {
        Some(line_error(1, ls[1]))
    } else if exists|m: int| 2 <= m < ls.len() && !#[trigger] line_ok(ls, m) {
        Some(ReadError::ParseFloat)
    } else if text_samples(ls, ls.len() as int).len() != text_size(ls).0 as int * text_size(ls).1 as int {
        Some(ReadError::ParseFloat)
    } else {
        None
    }
}


fn is_blank_byte(b: u8) -> (r: bool)
    ensures
        r == is_blank(b),
{
    b == 0x20 || (0x09 <= b && b <= 0x0D)
}

fn is_wide_blank_bytes(a: u8, b: u8, c: u8) -> (r: bool)
    ensures
        r == is_wide_blank(a, b, c),
{
    (a == 0xE1 && b == 0x9A && c == 0x80)
        || (a == 0xE2 && b == 0x80 && ((0x80 <= c && c <= 0x8A) || c == 0xA8 || c == 0xA9 || c == 0xAF))
        || (a == 0xE2 && b == 0x81 && c == 0x9F)
        || (a == 0xE3 && b == 0x80 && c == 0x80)
}

/// `leading_blank` of `t[a..hi]`.
fn leading_blank_at(t: &[u8], a: usize, hi: usize) -> (w: usize)
    requires
        a <= hi <= t@.len(),
    ensures
        w as int == leading_blank(t@.subrange(a as int, hi as int)),
{
    let ghost s = t@.subrange(a as int, hi as int);
    let n = hi - a;
    if n >= 1 && is_blank_byte(t[a]) {
        assert(s[0] == t@[a as int]);
        1
    } else if n >= 2 && t[a] == 0xC2 && (t[a + 1] == 0x85 || t[a + 1] == 0xA0) {
        assert(s[0] == t@[a as int] && s[1] == t@[a + 1]);
        2
    } else if n >= 3 && is_wide_blank_bytes(t[a], t[a + 1], t[a + 2]) {
        assert(s[0] == t@[a as int] && s[1] == t@[a + 1] && s[2] == t@[a + 2]);
        3
    } else {
        proof {
            if n >= 1 {
                assert(s[0] == t@[a as int]);
            }
            if n >= 2 {
                assert(s[1] == t@[a + 1]);
            }
            if n >= 3 {
                assert(s[2] == t@[a + 2]);
            }
        }
        0
    }
}

/// `trailing_blank` of `t[lo..b]`.
fn trailing_blank_at(t: &[u8], lo: usize, b: usize) -> (w: usize)
    requires
        lo <= b <= t@.len(),
    ensures
        w as int == trailing_blank(t@.subrange(lo as int, b as int)),
{
    let ghost s = t@.subrange(lo as int, b as int);
    let n = b - lo;
    proof {
        if n >= 1 {
            assert(s[n - 1] == t@[b - 1]);
        }
        if n >= 2 {
            assert(s[n - 2] == t@[b - 2]);
        }
        if n >= 3 {
            assert(s[n - 3] == t@[b - 3]);
        }
    }
    if n >= 1 && is_blank_byte(t[b - 1]) {
        1
    } else if n >= 2 && t[b - 2] == 0xC2 && (t[b - 1] == 0x85 || t[b - 1] == 0xA0) {
        2
    } else if n >= 3 && is_wide_blank_bytes(t[b - 3], t[b - 2], t[b - 1]) {
        3
    } else {
        0
    }
}

/// The bounds of `t[lo..hi]` without white space at either end.
fn trim_range(t: &[u8], lo: usize, hi: usize) -> (r: (usize, usize))
    requires
        lo <= hi <= t@.len(),
    ensures
        lo <= r.0 <= r.1 <= hi,
        t@.subrange(r.0 as int, r.1 as int) == trim(t@.subrange(lo as int, hi as int)),
{
    let mut a: usize = lo;
    let mut w = leading_blank_at(t, a, hi);
    while w > 0
        invariant
            lo <= a <= hi <= t@.len(),
            w as int == leading_blank(t@.subrange(a as int, hi as int)),
            trim_start(t@.subrange(lo as int, hi as int)) == trim_start(t@.subrange(a as int, hi as int)),
        decreases hi - a,
    {
        let ghost sub = t@.subrange(a as int, hi as int);
        assert(sub.subrange(w as int, sub.len() as int) =~= t@.subrange(a + w, hi as int));
        a = a + w;
        w = leading_blank_at(t, a, hi);
    }
    let mut b: usize = hi;
    let mut v = trailing_blank_at(t, a, b);
    while v > 0
        invariant
            lo <= a <= b <= hi <= t@.len(),
            v as int == trailing_blank(t@.subrange(a as int, b as int)),
            trim(t@.subrange(lo as int, hi as int)) == trim_end(t@.subrange(a as int, b as int)),
        decreases b - a,
    {
        let ghost sub = t@.subrange(a as int, b as int);
        assert(sub.subrange(0, sub.len() - v) =~= t@.subrange(a as int, b - v));
        b = b - v;
        v = trailing_blank_at(t, a, b);
    }
    (a, b)
}

/// The first comma of `t[k..e]`, or `e`; as an offset into the line `t[s..e]`
/// it is `comma_from`.
fn find_comma(t: &[u8], s: usize, k: usize, e: usize) -> (c: usize)
    requires
        s <= k <= e <= t@.len(),
    ensures
        k <= c <= e,
        c - s == comma_from(t@.subrange(s as int, e as int), k - s),
{
    let ghost line = t@.subrange(s as int, e as int);
    let mut c: usize = k;
    while c < e && t[c] != 0x2C
        invariant
            s <= k <= c <= e <= t@.len(),
            line == t@.subrange(s as int, e as int),
            comma_from(line, c - s) == comma_from(line, k - s),
        decreases e - c,
    {
        assert(line[c - s] == t@[c as int]);
        c = c + 1;
    }
    proof {
        if c < e {
            assert(line[c - s] == t@[c as int]);
        }
    }
    c
}

proof fn lemma_decimal_nonneg(d: Seq<u8>)
    requires
        forall|k: int| 0 <= k < d.len() ==> is_digit(#[trigger] d[k]),
    ensures
        decimal(d) >= 0,
    decreases d.len(),
{
    if d.len() > 0 {
        let init = d.drop_last();
        assert forall|k: int| 0 <= k < init.len() implies is_digit(#[trigger] init[k]) by {
            assert(init[k] == d[k]);
        }
        lemma_decimal_nonneg(init);
        assert(is_digit(d[d.len() - 1]));
    }
}

/// Digits only add to a decimal value: a prefix never reads as more than the whole.
proof fn lemma_decimal_prefix(d: Seq<u8>, k: int)
    requires
        0 <= k <= d.len(),
        forall|m: int| 0 <= m < d.len() ==> is_digit(#[trigger] d[m]),
    ensures
        decimal(d.subrange(0, k)) <= decimal(d),
    decreases d.len(),
{
    if k == d.len() {
        assert(d.subrange(0, k) =~= d);
    } else {
        let init = d.drop_last();
        assert forall|m: int| 0 <= m < init.len() implies is_digit(#[trigger] init[m]) by {
            assert(init[m] == d[m]);
        }
        lemma_decimal_prefix(init, k);
        lemma_decimal_nonneg(init);
        assert(init.subrange(0, k) =~= d.subrange(0, k));
        assert(is_digit(d[d.len() - 1]));
    }
}

/// Reads `t[lo..hi]` as an `i32`: an optional sign and one or more decimal digits.
pub fn parse_int(t: &[u8], lo: usize, hi: usize) -> (r: Option<i32>)
    requires
        lo <= hi <= t@.len(),
    ensures
        r == int_token(t@.subrange(lo as int, hi as int)),
{
    let ghost tok = t@.subrange(lo as int, hi as int);
    let mut k: usize = lo;
    let neg = k < hi && t[k] == 0x2D;
    if k < hi && (t[k] == 0x2D || t[k] == 0x2B) {
        k = k + 1;
        assert(tok.drop_first() =~= t@.subrange(k as int, hi as int));
    } else {
        assert(tok =~= t@.subrange(k as int, hi as int));
    }
    let start: usize = k;
    let ghost d = t@.subrange(start as int, hi as int);
    proof {
        if neg {
            assert(tok.drop_first() =~= d);
        } else if tok.len() > 0 && tok[0] == 0x2B {
            assert(tok.drop_first() =~= d);
        } else {
            assert(tok =~= d);
        }
    }
    if start == hi {
        return None;
    }
    let mut acc: u64 = 0;
    while k < hi
        invariant
            lo <= start <= k <= hi <= t@.len(),
            d == t@.subrange(start as int, hi as int),
            tok == t@.subrange(lo as int, hi as int),
            neg ==> signed_value(tok) == match magnitude(d) { Some(v) => Some(-v), None => None },
            !neg ==> signed_value(tok) == magnitude(d),
            acc == decimal(t@.subrange(start as int, k as int)),
            acc <= 0x8000_0000,
            forall|m: int| start <= m < k ==> is_digit(#[trigger] t@[m]),
        decreases hi - k,
    {
        let b = t[k];
        if b < 0x30 || b > 0x39 {
            assert(!is_digit(d[k - start]));
            return None;
        }
        acc = acc * 10 + (b - 0x30) as u64;
        k = k + 1;
        assert(t@.subrange(start as int, k as int).drop_last() =~= t@.subrange(start as int, k - 1));
        if acc > 0x8000_0000 {
            proof {
                if forall|m: int| 0 <= m < d.len() ==> is_digit(#[trigger] d[m]) {
                    lemma_decimal_prefix(d, k - start);
                    assert(d.subrange(0, k - start) =~= t@.subrange(start as int, k as int));
                }
            }
            return None;
        }
    }
    assert(t@.subrange(start as int, k as int) =~= d);
    assert forall|m: int| 0 <= m < d.len() implies is_digit(#[trigger] d[m]) by {
        assert(d[m] == t@[start + m]);
    }
    if neg {
        Some((0 - acc as i64) as i32)
    } else if acc > 0x7FFF_FFFF {
        None
    } else {
        Some(acc as i32)
    }
}


/// Reads `t[lo..hi]`, without its blanks, as a single-precision number.
fn parse_float_field(t: &[u8], lo: usize, hi: usize) -> (r: Option<u32>)
    requires
        lo <= hi <= t@.len(),
    ensures
        r == number_token(trim(t@.subrange(lo as int, hi as int))),
{
    let (a, b) = trim_range(t, lo, hi);
    match parse_float(slice_subrange(t, a, b)) {
        Some(v) => Some(if is_nan(v) { QUIET_NAN_BITS } else { v }),
        None => None,
    }
}

/// Reads the size line `t[s..e]`.
fn read_size(t: &[u8], s: usize, e: usize) -> (r: Option<(i32, i32)>)
    requires
        s <= e <= t@.len(),
    ensures
        r == size_fields(t@.subrange(s as int, e as int)),
{
    let ghost line = t@.subrange(s as int, e as int);
    let c = find_comma(t, s, s, e);
    assert(t@.subrange(s as int, c as int) =~= first_field(line));
    let (a, b) = trim_range(t, s, c);
    let w = parse_int(t, a, b);
    if c == e {
        return None;
    }
    let c2 = find_comma(t, s, c + 1, e);
    assert(t@.subrange(c + 1, c2 as int) =~= line.subrange(c - s + 1, comma_from(line, c - s + 1)));
    let (a2, b2) = trim_range(t, c + 1, c2);
    let h = parse_int(t, a2, b2);
    match (w, h) {
        (Some(w), Some(h)) => if w >= 0 && h >= 0 { Some((w, h)) } else { None },
        _ => None,
    }
}

/// Reads the scale line `t[s..e]`.
fn read_scale(t: &[u8], s: usize, e: usize) -> (r: Result<(u32, u32), ReadError>)
    requires
        s <= e <= t@.len(),
    ensures
        r == scale_fields(t@.subrange(s as int, e as int)),
{
    let ghost line = t@.subrange(s as int, e as int);
    let c = find_comma(t, s, s, e);
    assert(t@.subrange(s as int, c as int) =~= first_field(line));
    let x = match parse_float_field(t, s, c) {
        Some(x) => x,
        None => return Err(ReadError::ParseFloat),
    };
    if c == e {
        return Err(ReadError::ParseInt);
    }
    let c2 = find_comma(t, s, c + 1, e);
    assert(t@.subrange(c + 1, c2 as int) =~= line.subrange(c - s + 1, comma_from(line, c - s + 1)));
    match parse_float_field(t, c + 1, c2) {
        Some(y) => if is_finite(x) && is_finite(y) {
            Ok((x, y))
        } else {
            Err(ReadError::ParseFloat)
        },
        None => Err(ReadError::ParseFloat),
    }
}

/// What the first `n` lines of `ls` leave behind: the size, the scales and the samples.
pub open spec fn read_state(
    ls: Seq<Seq<u8>>,
    n: int,
    w: i32,
    h: i32,
    sx: u32,
    sy: u32,
    samples: Seq<u32>,
) -> bool {
    &&& (w, h) == (if n > 0 { size_fields(ls[0]).unwrap() } else { (0i32, 0i32) })
    &&& (sx, sy) == (if n > 1 { scale_fields(ls[1]).unwrap() } else { (0u32, 0u32) })
    &&& samples == text_samples(ls, n)
}

/// Takes in line `n`, `t[s..e]`: a size, scales or a sample, by its place.
/// Fails with the line's error where it does not read as it should.
fn take_line(
    t: &[u8],
    s: usize,
    e: usize,
    n: usize,
    w: &mut i32,
    h: &mut i32,
    sx: &mut u32,
    sy: &mut u32,
    samples: &mut Vec<u32>,
) -> (r: Result<(), ReadError>)
    requires
        s <= e <= t@.len(),
    ensures
        r.is_ok() == line_reads(n as int, t@.subrange(s as int, e as int)),
        r matches Err(err) ==> err == line_error(n as int, t@.subrange(s as int, e as int)),
        r.is_ok() && n == 0 ==> (*final(w), *final(h)) == size_fields(t@.subrange(s as int, e as int)).unwrap()
            && *final(sx) == *old(sx) && *final(sy) == *old(sy) && final(samples)@ == old(samples)@,
        r.is_ok() && n == 1 ==> (*final(sx), *final(sy)) == scale_fields(t@.subrange(s as int, e as int)).unwrap()
            && *final(w) == *old(w) && *final(h) == *old(h) && final(samples)@ == old(samples)@,
        r.is_ok() && n >= 2 ==> final(samples)@ == old(samples)@.push(
            number_token(trim(t@.subrange(s as int, e as int))).unwrap())
            && *final(w) == *old(w) && *final(h) == *old(h)
            && *final(sx) == *old(sx) && *final(sy) == *old(sy),
{
    if n == 0 {
        match read_size(t, s, e) {
            Some((a, b)) => {
                *w = a;
                *h = b;
                Ok(())
            },
            None => Err(ReadError::ParseInt),
        }
    } else if n == 1 {
        match read_scale(t, s, e) {
            Ok((a, b)) => {
                *sx = a;
                *sy = b;
                Ok(())
            },
            Err(err) => Err(err),
        }
    } else {
        match parse_float_field(t, s, e) {
            Some(v) => {
                samples.push(v);
                Ok(())
            },
            None => Err(ReadError::ParseFloat),
        }
    }
}

/// Reads a height field from the text format (see the module documentation).
///
/// The size line must hold two non-negative integers and the scale line two
/// finite numbers; fields after the second are ignored. Every further line is
/// one sample, and there must be `width * height` of them; a sample reading as
/// a NaN is stored as `QUIET_NAN_BITS`. The first line that does not read
/// decides the error (see `line_error`): a missing field or a bad integer gives
/// `ParseInt`, a bad number `ParseFloat`. A text without a size or scale line
/// fails with `ParseInt`; then a wrong number of samples gives `ParseFloat`. Rows are stored in
/// reading order (`invert_y` is false).
pub fn read_heightmap(text: &[u8]) -> (r: Result<Heightmap, ReadError>)
    ensures
        r.is_err() <==> text_error(text@).is_some(),
        r matches Err(e) ==> text_error(text@) == Some(e),
        r matches Ok(hm) ==> {
            let ls = lines(text@);
            &&& hm.wf()
            &&& !hm.invert_y
            &&& (hm.width, hm.height) == text_size(ls)
            &&& (hm.scale_x, hm.scale_y) == text_scale(ls)
            &&& hm.samples@ == text_samples(ls, ls.len() as int)
        },
{
    let ghost ls = lines(text@);
    let len = text.len();
    let mut width: i32 = 0;
    let mut height: i32 = 0;
    let mut sx: u32 = 0;
    let mut sy: u32 = 0;
    let mut samples: Vec<u32> = Vec::new();
    let mut n: usize = 0;
    let mut s: usize = 0;
    let mut k: usize = 0;
    assert(ls.subrange(0, ls.len() as int) =~= ls);
    assert(text_samples(ls, 0) =~= Seq::<u32>::empty());
    while k < len
        invariant
            len == text@.len(),
            ls == lines(text@),
            n <= s <= k <= len,
            n <= ls.len(),
            ls.subrange(n as int, ls.len() as int) == split_from(text@, k as int, s as int),
            forall|m: int| 0 <= m < n ==> #[trigger] line_ok(ls, m),
            read_state(ls, n as int, width, height, sx, sy, samples@),
        decreases len - k,
    {
        if text[k] == 0x0A {
            proof {
                let rest = ls.subrange(n as int, ls.len() as int);
                assert(rest[0] == text@.subrange(s as int, k as int));
                assert(rest.len() == ls.len() - n);
                assert(ls[n as int] == rest[0]);
                assert(ls.subrange(n + 1, ls.len() as int) =~= rest.drop_first());
                assert(rest.drop_first() =~= split_from(text@, k + 1, k + 1));
            }
            let taken = take_line(text, s, k, n, &mut width, &mut height, &mut sx, &mut sy, &mut samples);
            if let Err(err) = taken {
                assert(!line_ok(ls, n as int));
                return Err(err);
            }
            assert(text_samples(ls, n + 1) =~= if n >= 2 { text_samples(ls, n as int).push(
                number_token(trim(ls[n as int])).unwrap()) } else { text_samples(ls, n as int) });
            n = n + 1;
            s = k + 1;
        }
        k = k + 1;
    }
    if s < len {
        proof {
            let rest = ls.subrange(n as int, ls.len() as int);
            assert(rest =~= seq![text@.subrange(s as int, len as int)]);
            assert(rest.len() == ls.len() - n);
            assert(ls[n as int] == rest[0]);
        }
        let taken = take_line(text, s, len, n, &mut width, &mut height, &mut sx, &mut sy, &mut samples);
        if let Err(err) = taken {
            assert(!line_ok(ls, n as int));
            return Err(err);
        }
        assert(text_samples(ls, n + 1) =~= if n >= 2 { text_samples(ls, n as int).push(
            number_token(trim(ls[n as int])).unwrap()) } else { text_samples(ls, n as int) });
        n = n + 1;
    }
    assert(n == ls.len());
    if n < 2 {
        return Err(ReadError::ParseInt);
    }
    assert(!(exists|m: int| 2 <= m < ls.len() && !#[trigger] line_ok(ls, m)));
    match Heightmap::new(width, height, sx, sy, samples, false) {
        Some(hm) => Ok(hm),
        None => Err(ReadError::ParseFloat),
    }
}

} // verus!
