//! Viewport coordinates.
//!
//! A coordinate pair string has the shape `x1,y1;x2,y2`.  Each number is
//! a plain decimal with an optional sign and fraction, and is held
//! exactly as a fixed-point integer in units of `1/COORD_SCALE`
//! (fraction digits beyond the ninth are truncated).  The viewport is
//! valid when the first corner lies strictly below and left of the
//! second.

use vstd::prelude::*;
use vstd::string::StringSliceAdditionalSpecFns;

verus! {

/// Fixed-point units per 1.0 of a viewport coordinate.
pub const COORD_SCALE: i64 = 1_000_000_000;

/// Largest coordinate magnitude, in units, that is accepted.
pub const COORD_LIMIT: i64 = 4_000_000_000_000_000_000;

/// An ASCII decimal digit.
pub open spec fn is_digit(b: u8) -> bool {
    48 <= b <= 57
}

/// An ASCII whitespace byte, as trimmed around each number.
pub open spec fn is_space(b: u8) -> bool {
    b == 32 || b == 9 || b == 10 || b == 13
}

/// The first position of `sep` in `[pos, hi)`, if any.
pub open spec fn spec_find(s: Seq<u8>, pos: int, hi: int, sep: u8) -> Option<int>
    decreases hi - pos,
{
    if pos < 0 || pos >= hi || hi > s.len() {
        None
    } else if s[pos] == sep {
        Some(pos)
    } else {
        spec_find(s, pos + 1, hi, sep)
    }
}

/// The start of the range `[lo, hi)` after leading whitespace.
pub open spec fn spec_trim_lo(s: Seq<u8>, lo: int, hi: int) -> int
    decreases hi - lo,
{
    if 0 <= lo < hi <= s.len() && is_space(s[lo]) {
        spec_trim_lo(s, lo + 1, hi)
    } else {
        lo
    }
}

/// The end of the range `[lo, hi)` before trailing whitespace.
pub open spec fn spec_trim_hi(s: Seq<u8>, lo: int, hi: int) -> int
    decreases hi - lo,
{
    if 0 <= lo < hi <= s.len() && is_space(s[hi - 1]) {
        spec_trim_hi(s, lo, hi - 1)
    } else {
        hi
    }
}

/// Scans integer digits in `[pos, hi)`: their value, their count, and
/// the position where they stop, which is `hi` or a decimal point.
pub open spec fn spec_int_digits(s: Seq<u8>, pos: int, hi: int, acc: int, cnt: int) -> Option<
    (int, int, int),
>
    decreases hi - pos,
{
    if pos < 0 || hi > s.len() || pos >= hi {
        if pos == hi {
            Some((acc, cnt, pos))
        } else {
            None
        }
    } else if is_digit(s[pos]) {
        spec_int_digits(s, pos + 1, hi, if cnt < 18 {
            acc * 10 + (s[pos] - 48)
        } else {
            acc
        }, cnt + 1)
    } else if s[pos] == 46 {
        Some((acc, cnt, pos))
    } else {
        None
    }
}

/// Scans fraction digits in `[pos, hi)`: the value of the first nine
/// and the total count.
pub open spec fn spec_frac_digits(s: Seq<u8>, pos: int, hi: int, acc: int, cnt: int) -> Option<
    (int, int),
>
    decreases hi - pos,
{
    if pos < 0 || hi > s.len() || pos >= hi {
        if pos == hi {
            Some((acc, cnt))
        } else {
            None
        }
    } else if !is_digit(s[pos]) {
        None
    } else if cnt < 9 {
        spec_frac_digits(s, pos + 1, hi, acc * 10 + (s[pos] - 48), cnt + 1)
    } else {
        spec_frac_digits(s, pos + 1, hi, acc, cnt + 1)
    }
}

/// Ten to the `e`.
pub open spec fn spec_pow10(e: int) -> int
    decreases e,
{
    if e <= 0 {
        1
    } else {
        10 * spec_pow10(e - 1)
    }
}

/// The fixed-point value of the decimal literal in the trimmed range
/// `[lo, hi)`: an optional sign, one to eighteen integer digits, and an
/// optional fraction whose digits beyond the ninth are truncated.
/// `None` when the text is not such a literal or the value leaves
/// `COORD_LIMIT`.
pub open spec fn spec_fixed(s: Seq<u8>, lo: int, hi: int) -> Option<int> {
    if !(0 <= lo < hi <= s.len()) {
        None
    } else {
        let neg = s[lo] == 45;
        let body = if s[lo] == 45 || s[lo] == 43 {
            lo + 1
        } else {
            lo
        };
        match spec_int_digits(s, body, hi, 0, 0) {
            Some((iv, icnt, stop)) => if icnt < 1 || icnt > 18 {
                None
            } else {
                let frac = if stop == hi {
                    Some((0int, 0int))
                } else {
                    spec_frac_digits(s, stop + 1, hi, 0, 0)
                };
                match frac {
                    Some((fv, fcnt)) => {
                        let fval = fv * spec_pow10(9 - (if fcnt < 9 {
                            fcnt
                        } else {
                            9
                        }));
                        let mag = iv * (COORD_SCALE as int) + fval;
                        if mag > COORD_LIMIT as int {
                            None
                        } else if neg {
                            Some(-mag)
                        } else {
                            Some(mag)
                        }
                    }
                    None => None,
                }
            },
            None => None,
        }
    }
}

/// The number in `[lo, hi)` after trimming surrounding whitespace.
pub open spec fn spec_number(s: Seq<u8>, lo: int, hi: int) -> Option<int> {
    spec_fixed(s, spec_trim_lo(s, lo, hi), spec_trim_hi(s, spec_trim_lo(s, lo, hi), hi))
}

/// Whether the string splits into exactly two parts at `sep` inside
/// `[lo, hi)`; the split position when it does.
pub open spec fn spec_split2(s: Seq<u8>, lo: int, hi: int, sep: u8) -> Option<int> {
    match spec_find(s, lo, hi, sep) {
        Some(i) => if spec_find(s, i + 1, hi, sep) is None {
            Some(i)
        } else {
            None
        },
        None => None,
    }
}

/// Whether the string has the `a,b;c,d` shape, numbers aside.
pub open spec fn spec_coord_shape(s: Seq<u8>) -> bool {
    match spec_split2(s, 0, s.len() as int, 59) {
        Some(i) => spec_split2(s, 0, i, 44) is Some && spec_split2(s, i + 1, s.len() as int, 44)
            is Some,
        None => false,
    }
}

/// The four corner values of a coordinate string of shape `x1,y1;x2,y2`.
pub open spec fn spec_parse_coord(s: Seq<u8>) -> Option<(int, int, int, int)> {
    match spec_split2(s, 0, s.len() as int, 59) {
        Some(i) => match (spec_split2(s, 0, i, 44), spec_split2(s, i + 1, s.len() as int, 44)) {
            (Some(c1), Some(c2)) => match (
                spec_number(s, 0, c1),
                spec_number(s, c1 + 1, i),
                spec_number(s, i + 1, c2),
                spec_number(s, c2 + 1, s.len() as int),
            ) {
                (Some(x1), Some(y1), Some(x2), Some(y2)) => Some((x1, y1, x2, y2)),
                _ => None,
            },
            _ => None,
        },
        None => None,
    }
}

/// Finds `sep` in `[pos, hi)`.
fn find_sep(b: &[u8], pos: usize, hi: usize, sep: u8) -> (r: Option<usize>)
    requires
        pos <= hi <= b@.len(),
    ensures
        match r {
            Some(i) => spec_find(b@, pos as int, hi as int, sep) == Some(i as int) && pos <= i
                < hi,
            None => spec_find(b@, pos as int, hi as int, sep) is None,
        },
    decreases hi - pos,
{
    if pos >= hi {
        None
    } else if b[pos] == sep {
        Some(pos)
    } else {
        find_sep(b, pos + 1, hi, sep)
    }
}

/// Splits `[lo, hi)` at a single `sep`.
fn split2(b: &[u8], lo: usize, hi: usize, sep: u8) -> (r: Option<usize>)
    requires
        lo <= hi <= b@.len(),
    ensures
        match r {
            Some(i) => spec_split2(b@, lo as int, hi as int, sep) == Some(i as int) && lo <= i
                < hi,
            None => spec_split2(b@, lo as int, hi as int, sep) is None,
        },
{
    match find_sep(b, lo, hi, sep) {
        Some(i) => match find_sep(b, i + 1, hi, sep) {
            Some(_) => None,
            None => Some(i),
        },
        None => None,
    }
}

fn trim_lo(b: &[u8], lo: usize, hi: usize) -> (r: usize)
    requires
        lo <= hi <= b@.len(),
    ensures
        r == spec_trim_lo(b@, lo as int, hi as int),
        lo <= r <= hi,
    decreases hi - lo,
{
    if lo < hi && (b[lo] == 32 || b[lo] == 9 || b[lo] == 10 || b[lo] == 13) {
        trim_lo(b, lo + 1, hi)
    } else {
        lo
    }
}

fn trim_hi(b: &[u8], lo: usize, hi: usize) -> (r: usize)
    requires
        lo <= hi <= b@.len(),
    ensures
        r == spec_trim_hi(b@, lo as int, hi as int),
        lo <= r <= hi,
    decreases hi - lo,
{
    if lo < hi && (b[hi - 1] == 32 || b[hi - 1] == 9 || b[hi - 1] == 10 || b[hi - 1] == 13) {
        trim_hi(b, lo, hi - 1)
    } else {
        hi
    }
}

proof fn lemma_pow10_pos(e: int)
    ensures
        spec_pow10(e) >= 1,
    decreases e,
{
    if e > 0 {
        lemma_pow10_pos(e - 1);
    }
}

proof fn lemma_pow10_le(a: int, b: int)
    requires
        a <= b,
    ensures
        spec_pow10(a) <= spec_pow10(b),
    decreases b,
{
    if a < b && b > 0 {
        lemma_pow10_le(a, b - 1);
        lemma_pow10_pos(b - 1);
    }
}

proof fn lemma_pow10_vals()
    ensures
        spec_pow10(9) == 1_000_000_000,
        spec_pow10(17) == 100_000_000_000_000_000,
        spec_pow10(18) == 1_000_000_000_000_000_000,
{
    reveal_with_fuel(spec_pow10, 20);
}

fn int_digits(b: &[u8], pos: usize, hi: usize, acc: i64, cnt: usize) -> (r: Option<
    (i64, usize, usize),
>)
    requires
        pos <= hi <= b@.len(),
        cnt <= pos,
        0 <= acc,
        acc < spec_pow10(
            if cnt < 18 {
                cnt as int
            } else {
                18
            },
        ),
    ensures
        match r {
            Some((v, c, stop)) => spec_int_digits(b@, pos as int, hi as int, acc as int, cnt as int)
                == Some((v as int, c as int, stop as int)) && 0 <= v < spec_pow10(18) && stop <= hi,
            None => spec_int_digits(b@, pos as int, hi as int, acc as int, cnt as int) is None,
        },
    decreases hi - pos,
{
    proof {
        lemma_pow10_vals();
        lemma_pow10_le(
            if cnt < 18 {
                cnt as int
            } else {
                18
            },
            18,
        );
    }
    if pos >= hi {
        Some((acc, cnt, pos))
    } else if 48 <= b[pos] && b[pos] <= 57 {
        if cnt < 18 {
            proof {
                lemma_pow10_le(cnt as int, 17);
            }
            int_digits(b, pos + 1, hi, acc * 10 + (b[pos] - 48) as i64, cnt + 1)
        } else {
            int_digits(b, pos + 1, hi, acc, cnt + 1)
        }
    } else if b[pos] == 46 {
        Some((acc, cnt, pos))
    } else {
        None
    }
}

fn frac_digits(b: &[u8], pos: usize, hi: usize, acc: i64, cnt: usize) -> (r: Option<(i64, usize)>)
    requires
        pos <= hi <= b@.len(),
        cnt <= pos,
        0 <= acc,
        acc < spec_pow10(
            if cnt < 9 {
                cnt as int
            } else {
                9
            },
        ),
    ensures
        match r {
            Some((v, c)) => spec_frac_digits(b@, pos as int, hi as int, acc as int, cnt as int)
                == Some((v as int, c as int)) && 0 <= v < spec_pow10(9),
            None => spec_frac_digits(b@, pos as int, hi as int, acc as int, cnt as int) is None,
        },
    decreases hi - pos,
{
    proof {
        lemma_pow10_vals();
        lemma_pow10_le(
            if cnt < 9 {
                cnt as int
            } else {
                9
            },
            9,
        );
    }
    if pos >= hi {
        Some((acc, cnt))
    } else if !(48 <= b[pos] && b[pos] <= 57) {
        None
    } else if cnt < 9 {
        proof {
            lemma_pow10_le(cnt as int, 8);
            reveal_with_fuel(spec_pow10, 10);
        }
        frac_digits(b, pos + 1, hi, acc * 10 + (b[pos] - 48) as i64, cnt + 1)
    } else {
        frac_digits(b, pos + 1, hi, acc, cnt + 1)
    }
}

fn pow10(e: usize) -> (r: i64)
    requires
        e <= 9,
    ensures
        r == spec_pow10(e as int),
        1 <= r <= 1_000_000_000,
{
    proof {
        reveal_with_fuel(spec_pow10, 11);
    }
    if e == 0 {
        1
    } else if e == 1 {
        10
    } else if e == 2 {
        100
    } else if e == 3 {
        1_000
    } else if e == 4 {
        10_000
    } else if e == 5 {
        100_000
    } else if e == 6 {
        1_000_000
    } else if e == 7 {
        10_000_000
    } else if e == 8 {
        100_000_000
    } else {
        1_000_000_000
    }
}

/// Parses the decimal literal in the trimmed range `[lo, hi)`.
fn fixed(b: &[u8], lo: usize, hi: usize) -> (r: Option<i64>)
    requires
        lo <= hi <= b@.len(),
    ensures
        match r {
            Some(v) => spec_fixed(b@, lo as int, hi as int) == Some(v as int),
            None => spec_fixed(b@, lo as int, hi as int) is None,
        },
{
    if lo >= hi {
        return None;
    }
    let neg = b[lo] == 45;
    let body = if b[lo] == 45 || b[lo] == 43 {
        lo + 1
    } else {
        lo
    };
    match int_digits(b, body, hi, 0, 0) {
        Some((iv, icnt, stop)) => {
            if icnt < 1 || icnt > 18 {
                return None;
            }
            let frac: Option<(i64, usize)> = if stop == hi {
                Some((0, 0))
            } else {
                frac_digits(b, stop + 1, hi, 0, 0)
            };
            match frac {
                Some((fv, fcnt)) => {
                    let scale_digits = if fcnt < 9 {
                        9 - fcnt
                    } else {
                        0
                    };
                    let p = pow10(scale_digits);
                    proof {
                        lemma_pow10_vals();
                        assert(0 <= fv as int * (p as int) <= 999_999_999 * 1_000_000_000)
                            by (nonlinear_arith)
                            requires
                                0 <= fv <= 999_999_999,
                                1 <= p <= 1_000_000_000,
                        ;
                    }
                    let fval: i64 = fv * p;
                    let mag: i128 = iv as i128 * COORD_SCALE as i128 + fval as i128;
                    if mag > COORD_LIMIT as i128 {
                        None
                    } else if neg {
                        Some((-mag) as i64)
                    } else {
                        Some(mag as i64)
                    }
                }
                None => None,
            }
        }
        None => None,
    }
}

/// Parses the number in `[lo, hi)`, whitespace trimmed.
fn number(b: &[u8], lo: usize, hi: usize) -> (r: Option<i64>)
    requires
        lo <= hi <= b@.len(),
    ensures
        match r {
            Some(v) => spec_number(b@, lo as int, hi as int) == Some(v as int),
            None => spec_number(b@, lo as int, hi as int) is None,
        },
{
    let l = trim_lo(b, lo, hi);
    let h = trim_hi(b, l, hi);
    fixed(b, l, h)
}

/// Parses a coordinate string `x1,y1;x2,y2` into its four fixed-point
/// corner values.
pub fn parse_coord(s: &str) -> (r: Option<(i64, i64, i64, i64)>)
    ensures
        match r {
            Some((x1, y1, x2, y2)) => spec_parse_coord(s.spec_bytes()) == Some(
                (x1 as int, y1 as int, x2 as int, y2 as int),
            ),
            None => spec_parse_coord(s.spec_bytes()) is None,
        },
{
    let b = s.as_bytes();
    let n = b.len();
    match split2(b, 0, n, 59) {
        Some(i) => match (split2(b, 0, i, 44), split2(b, i + 1, n, 44)) {
            (Some(c1), Some(c2)) => {
                let x1 = number(b, 0, c1);
                let y1 = number(b, c1 + 1, i);
                let x2 = number(b, i + 1, c2);
                let y2 = number(b, c2 + 1, n);
                match (x1, y1, x2, y2) {
                    (Some(a), Some(bb), Some(c), Some(d)) => Some((a, bb, c, d)),
                    _ => None,
                }
            }
            _ => None,
        },
        None => None,
    }
}

/// Whether a coordinate string parses and its corners are ordered.
pub open spec fn spec_coord_valid(b: Seq<u8>) -> bool {
    match spec_parse_coord(b) {
        Some(t) => t.0 < t.2 && t.1 < t.3,
        None => false,
    }
}

/// Validates a coordinate string: it must have the `x1,y1;x2,y2` shape,
/// all four parts must be decimal numbers, and the second corner must
/// lie strictly above and to the right of the first.  Each failure is
/// reported with its own message.
pub fn validate_coord(coord: String) -> (r: Result<(), String>)
    ensures
        r is Ok <==> spec_coord_valid(vstd::utf8::encode_utf8(coord@)),
        !spec_coord_shape(vstd::utf8::encode_utf8(coord@)) ==> (r matches Err(m) && m@ == (
        "Неправильный формат координат")@),
        spec_coord_shape(vstd::utf8::encode_utf8(coord@)) && spec_parse_coord(
            vstd::utf8::encode_utf8(coord@),
        ) is None ==> (r matches Err(m) && m@ == ("Координаты должны быть числами")@),
        spec_parse_coord(vstd::utf8::encode_utf8(coord@)) is Some && !spec_coord_valid(
            vstd::utf8::encode_utf8(coord@),
        ) ==> (r matches Err(m) && m@ == ("Конечные координаты должны быть больше начальных")@),
{
    let b = coord.as_str().as_bytes();
    let n = b.len();
    let shape_ok = match split2(b, 0, n, 59) {
        Some(i) => {
            let l = split2(b, 0, i, 44);
            let rr = split2(b, i + 1, n, 44);
            l.is_some() && rr.is_some()
        }
        None => false,
    };
    if !shape_ok {
        return Err(String::from_str("Неправильный формат координат"));
    }
    match parse_coord(coord.as_str()) {
        Some((x1, y1, x2, y2)) => {
            if x1 >= x2 || y1 >= y2 {
                Err(String::from_str("Конечные координаты должны быть больше начальных"))
            } else {
                Ok(())
            }
        }
        None => Err(String::from_str("Координаты должны быть числами")),
    }
}

} // verus!
