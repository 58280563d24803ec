//! The expression parser.
//!
//! An infix grammar with three precedence levels: additive (`+`, `-`,
//! left associative) below multiplicative (`*`, `/`, left associative)
//! below power (`^`, right associative).  Primaries are decimal
//! literals, the variable `x`, the constants `pi` and `e`, the
//! imaginary unit `i`, unary minus, calls of the elementary functions,
//! and parenthesised expressions.  The right operand of `^` must reduce
//! to a numeric constant; anything else is rejected.  Whitespace may
//! stand between tokens.  Everything parsed flows through the smart
//! constructors, so the resulting tree is normalized.

use vstd::prelude::*;
use vstd::string::StringSliceAdditionalSpecFns;

use crate::func::Func;
use crate::rat::Rat;

verus! {

/// Skips spaces and tabs.
pub open spec fn spec_skip(s: Seq<u8>, pos: int) -> int
    decreases s.len() - pos,
{
    if 0 <= pos < s.len() && (s[pos] == 32 || s[pos] == 9) {
        spec_skip(s, pos + 1)
    } else {
        pos
    }
}

/// Scans digits, accumulating at most eighteen of them.
pub open spec fn spec_digits(s: Seq<u8>, pos: int, acc: int, cnt: int) -> (int, int, int)
    decreases s.len() - pos,
{
    if 0 <= pos < s.len() && 48 <= s[pos] <= 57 {
        spec_digits(s, pos + 1, if cnt < 18 {
            acc * 10 + (s[pos] - 48)
        } else {
            acc
        }, cnt + 1)
    } else {
        (acc, cnt, pos)
    }
}

/// Ten to the `e`.
pub open spec fn spec_p10(e: int) -> int
    decreases e,
{
    if e <= 0 {
        1
    } else {
        10 * spec_p10(e - 1)
    }
}

/// Parses a decimal literal at `pos`: digits with an optional fraction,
/// at most eighteen digits in all, as an exact rational.
pub open spec fn spec_num_at(s: Seq<u8>, pos: int) -> Option<(Rat, int)> {
    let (iv, icnt, p1) = spec_digits(s, pos, 0, 0);
    if icnt < 1 {
        None
    } else if p1 < s.len() && s[p1] == 46 {
        let (fv, fcnt, p2) = spec_digits(s, p1 + 1, 0, 0);
        if fcnt < 1 || icnt + fcnt > 18 {
            None
        } else {
            Some((Rat { n: (iv * spec_p10(fcnt) + fv) as i64, d: spec_p10(fcnt) as i64 }, p2))
        }
    } else if icnt > 18 {
        None
    } else {
        Some((Rat { n: iv as i64, d: 1 }, p1))
    }
}

/// Whether the bytes at `pos` spell the given word.
pub open spec fn spec_word(s: Seq<u8>, pos: int, w: Seq<u8>) -> bool {
    0 <= pos && pos + w.len() <= s.len() && (forall|i: int|
        0 <= i < w.len() ==> s[pos + i] == #[trigger] w[i])
}

/// Parses a primary at `pos`: a literal, a name, a function call, a
/// negation, or a parenthesised expression.
pub open spec fn spec_primary(s: Seq<u8>, pos: int) -> Option<(Func, int)>
    decreases s.len() - pos, 4int,
{
    if !(0 <= pos < s.len()) {
        None
    } else if 48 <= s[pos] <= 57 {
        match spec_num_at(s, pos) {
            Some((r, p)) => Some((Func::Num(r), p)),
            None => None,
        }
    } else if s[pos] == 45 {
        match spec_primary(s, pos + 1) {
            Some((f, p)) => Some(
                (Func::Sub(Box::new(Func::Num(Rat { n: 0, d: 1 })), Box::new(f)), p),
            ),
            None => None,
        }
    } else if s[pos] == 40 {
        if !(pos < spec_skip(s, pos + 1) <= s.len()) {
            None
        } else {
        match spec_expr(s, spec_skip(s, pos + 1)) {
            Some((f, p)) => {
                let q = spec_skip(s, p);
                if q < s.len() && s[q] == 41 {
                    Some((f, q + 1))
                } else {
                    None
                }
            }
            None => None,
        }
        }
    } else if spec_word(s, pos, seq![115u8, 113u8, 114u8, 116u8]) {
        spec_call(s, pos + 4, 0)
    } else if spec_word(s, pos, seq![101u8, 120u8, 112u8]) {
        spec_call(s, pos + 3, 1)
    } else if spec_word(s, pos, seq![108u8, 110u8]) {
        spec_call(s, pos + 2, 2)
    } else if spec_word(s, pos, seq![115u8, 105u8, 110u8]) {
        spec_call(s, pos + 3, 3)
    } else if spec_word(s, pos, seq![99u8, 111u8, 115u8]) {
        spec_call(s, pos + 3, 4)
    } else if spec_word(s, pos, seq![116u8, 97u8, 110u8]) {
        spec_call(s, pos + 3, 5)
    } else if spec_word(s, pos, seq![112u8, 105u8]) {
        Some((Func::Num(Rat { n: 884279719003555, d: 281474976710656 }), pos + 2))
    } else if s[pos] == 101 {
        Some((Func::Num(Rat { n: 6121026514868073, d: 2251799813685248 }), pos + 1))
    } else if s[pos] == 120 {
        Some((Func::Arg, pos + 1))
    } else if s[pos] == 105 {
        Some((Func::Im, pos + 1))
    } else {
        None
    }
}

/// Parses the parenthesised argument of the elementary function `k` and
/// applies that function's constructor.
pub open spec fn spec_call(s: Seq<u8>, pos: int, k: int) -> Option<(Func, int)>
    decreases s.len() - pos, 5int,
{
    if !(0 <= pos <= s.len()) {
        None
    } else {
        let q = spec_skip(s, pos);
        if q < s.len() && s[q] == 40 && pos < spec_skip(s, q + 1) <= s.len() {
            match spec_expr(s, spec_skip(s, q + 1)) {
                Some((f, p)) => {
                    let q2 = spec_skip(s, p);
                    if q2 < s.len() && s[q2] == 41 {
                        let g = if k == 0 {
                            Func::Sqrt(Box::new(f))
                        } else if k == 1 {
                            Func::Exp(Box::new(f))
                        } else if k == 2 {
                            Func::Ln(Box::new(f))
                        } else if k == 3 {
                            Func::Sin(Box::new(f))
                        } else if k == 4 {
                            Func::Cos(Box::new(f))
                        } else {
                            Func::Tan(Box::new(f))
                        };
                        Some((g, q2 + 1))
                    } else {
                        None
                    }
                }
                None => None,
            }
        } else {
            None
        }
    }
}

/// Parses a power at `pos`: a primary, optionally raised to a power
/// whose right operand must itself reduce to a numeric constant.
pub open spec fn spec_pw(s: Seq<u8>, pos: int) -> Option<(Func, int)>
    decreases s.len() - pos, 5int,
{
    match spec_primary(s, pos) {
        Some((f, p)) => {
            let q = spec_skip(s, p);
            if q < s.len() && s[q] == 94 && pos < spec_skip(s, q + 1) <= s.len() {
                match spec_pw(s, spec_skip(s, q + 1)) {
                    Some((rhs, p2)) => match rhs {
                        Func::Num(r) => Some((f.spec_powc(r), p2)),
                        _ => None,
                    },
                    None => None,
                }
            } else {
                Some((f, p))
            }
        }
        None => None,
    }
}

/// Folds the remaining `*`/`/` chain onto `acc`.
pub open spec fn spec_term_rest(s: Seq<u8>, pos: int, acc: Func) -> Option<(Func, int)>
    decreases s.len() - pos, 6int,
{
    if !(0 <= pos <= s.len()) {
        None
    } else {
        let q = spec_skip(s, pos);
        if q < s.len() && (s[q] == 42 || s[q] == 47) && pos <= spec_skip(s, q + 1) <= s.len() {
            match spec_pw(s, spec_skip(s, q + 1)) {
                Some((rhs, p)) => if pos < p <= s.len() {
                    spec_term_rest(s, p, if s[q] == 42 {
                        acc.spec_mul(rhs)
                    } else {
                        acc.spec_quot(rhs)
                    })
                } else {
                    None
                },
                None => None,
            }
        } else {
            Some((acc, pos))
        }
    }
}

/// Parses a multiplicative term at `pos`.
pub open spec fn spec_term(s: Seq<u8>, pos: int) -> Option<(Func, int)>
    decreases s.len() - pos, 7int,
{
    match spec_pw(s, pos) {
        Some((f, p)) => if pos <= p <= s.len() {
            spec_term_rest(s, p, f)
        } else {
            None
        },
        None => None,
    }
}

/// Folds the remaining `+`/`-` chain onto `acc`.
pub open spec fn spec_expr_rest(s: Seq<u8>, pos: int, acc: Func) -> Option<(Func, int)>
    decreases s.len() - pos, 8int,
{
    if !(0 <= pos <= s.len()) {
        None
    } else {
        let q = spec_skip(s, pos);
        if q < s.len() && (s[q] == 43 || s[q] == 45) && pos <= spec_skip(s, q + 1) <= s.len() {
            match spec_term(s, spec_skip(s, q + 1)) {
                Some((rhs, p)) => if pos < p <= s.len() {
                    spec_expr_rest(s, p, if s[q] == 43 {
                        acc.spec_add(rhs)
                    } else {
                        acc.spec_sub(rhs)
                    })
                } else {
                    None
                },
                None => None,
            }
        } else {
            Some((acc, pos))
        }
    }
}

/// Parses an additive expression at `pos`.
pub open spec fn spec_expr(s: Seq<u8>, pos: int) -> Option<(Func, int)>
    decreases s.len() - pos, 9int,
{
    match spec_term(s, pos) {
        Some((f, p)) => if pos <= p <= s.len() {
            spec_expr_rest(s, p, f)
        } else {
            None
        },
        None => None,
    }
}

/// Parses a whole function string: one expression with nothing but
/// whitespace around it.
pub open spec fn spec_function(s: Seq<u8>) -> Option<Func> {
    match spec_expr(s, spec_skip(s, 0)) {
        Some((f, p)) => if spec_skip(s, p) == s.len() {
            Some(f)
        } else {
            None
        },
        None => None,
    }
}


/// A syntax error, with the byte position where parsing stopped.
#[derive(Clone, Copy, Debug, PartialEq, Eq, Structural)]
pub struct ParseError {
    pub pos: usize,
}

/// Skips spaces and tabs.
fn skip(b: &[u8], pos: usize) -> (r: usize)
    requires
        pos <= b@.len(),
    ensures
        r == spec_skip(b@, pos as int),
        pos <= r <= b@.len(),
    decreases b@.len() - pos,
{
    if pos < b.len() && (b[pos] == 32 || b[pos] == 9) {
        skip(b, pos + 1)
    } else {
        pos
    }
}

/// Scans digits, accumulating at most eighteen of them.
fn scan_digits(b: &[u8], pos: usize, acc: i64, cnt: usize) -> (r: (i64, usize, usize))
    requires
        pos <= b@.len(),
        cnt <= pos,
        0 <= acc,
        acc < spec_p10(
            if cnt < 18 {
                cnt as int
            } else {
                18
            },
        ),
    ensures
        spec_digits(b@, pos as int, acc as int, cnt as int) == (r.0 as int, r.1 as int, r.2 as int),
        0 <= r.0 < spec_p10(18),
        r.0 < spec_p10(
            if r.1 < 18 {
                r.1 as int
            } else {
                18
            },
        ),
        pos <= r.2 <= b@.len(),
        cnt <= r.1,
        r.2 - pos == r.1 - cnt,
    decreases b@.len() - pos,
{
    proof {
        lemma_p10_vals();
        lemma_p10_le(
            if cnt < 18 {
                cnt as int
            } else {
                18
            },
            18,
        );
    }
    if pos < b.len() && 48 <= b[pos] && b[pos] <= 57 {
        if cnt < 18 {
            proof {
                lemma_p10_le(cnt as int, 17);
            }
            scan_digits(b, pos + 1, acc * 10 + (b[pos] - 48) as i64, cnt + 1)
        } else {
            scan_digits(b, pos + 1, acc, cnt + 1)
        }
    } else {
        (acc, cnt, pos)
    }
}

proof fn lemma_p10_pos(e: int)
    ensures
        spec_p10(e) >= 1,
    decreases e,
{
    if e > 0 {
        lemma_p10_pos(e - 1);
    }
}

proof fn lemma_p10_le(a: int, b: int)
    requires
        a <= b,
    ensures
        spec_p10(a) <= spec_p10(b),
    decreases b,
{
    if a < b && b > 0 {
        lemma_p10_le(a, b - 1);
        lemma_p10_pos(b - 1);
    }
}

proof fn lemma_p10_vals()
    ensures
        spec_p10(17) == 100_000_000_000_000_000,
        spec_p10(18) == 1_000_000_000_000_000_000,
{
    reveal_with_fuel(spec_p10, 20);
}

/// Parses a decimal literal at `pos`.
fn num_at(b: &[u8], pos: usize) -> (r: Option<(Rat, usize)>)
    requires
        pos <= b@.len(),
    ensures
        match r {
            Some((v, p)) => spec_num_at(b@, pos as int) == Some((v, p as int)) && pos < p
                <= b@.len() && v.wf(),
            None => spec_num_at(b@, pos as int) is None,
        },
{
    proof {
        lemma_p10_vals();
    }
    let (iv, icnt, p1) = scan_digits(b, pos, 0, 0);
    if icnt < 1 {
        None
    } else if p1 < b.len() && b[p1] == 46 {
        let (fv, fcnt, p2) = scan_digits(b, p1 + 1, 0, 0);
        if fcnt < 1 || icnt + fcnt > 18 {
            None
        } else {
            let scale = p10(fcnt);
            proof {
                lemma_p10_le(fcnt as int, 18);
                lemma_p10_le(icnt as int, 18);
                lemma_digits_bound(iv as int, fv as int, icnt as int, fcnt as int);
            }
            Some((Rat { n: iv * scale + fv, d: scale }, p2))
        }
    } else if icnt > 18 {
        None
    } else {
        Some((Rat { n: iv, d: 1 }, p1))
    }
}

/// A literal of `a` digits scaled past one of `c` digits stays inside
/// eighteen digits in all.
proof fn lemma_digits_bound(iv: int, fv: int, icnt: int, fcnt: int)
    requires
        0 <= iv < spec_p10(if icnt < 18 { icnt } else { 18 }),
        0 <= fv < spec_p10(if fcnt < 18 { fcnt } else { 18 }),
        icnt >= 1,
        fcnt >= 1,
        icnt + fcnt <= 18,
    ensures
        0 <= iv * spec_p10(fcnt) + fv < spec_p10(18),
        iv * spec_p10(fcnt) + fv < 1_000_000_000_000_000_000,
        1 <= spec_p10(fcnt) <= 1_000_000_000_000_000_000,
{
    lemma_p10_vals();
    lemma_p10_pos(fcnt);
    lemma_p10_le(fcnt, 18);
    lemma_p10_mul(icnt, fcnt);
    assert(iv * spec_p10(fcnt) + fv < spec_p10(icnt) * spec_p10(fcnt)) by (nonlinear_arith)
        requires
            0 <= iv <= spec_p10(icnt) - 1,
            0 <= fv < spec_p10(fcnt),
            spec_p10(fcnt) >= 1,
    ;
    lemma_p10_le(icnt + fcnt, 18);
    assert(iv * spec_p10(fcnt) >= 0) by (nonlinear_arith)
        requires
            iv >= 0,
            spec_p10(fcnt) >= 1,
    ;
}

/// Powers of ten multiply by adding exponents.
proof fn lemma_p10_mul(a: int, c: int)
    requires
        a >= 0,
        c >= 0,
    ensures
        spec_p10(a) * spec_p10(c) == spec_p10(a + c),
    decreases a,
{
    if a == 0 {
    } else {
        lemma_p10_mul(a - 1, c);
        assert(spec_p10(a) * spec_p10(c) == 10 * (spec_p10(a - 1) * spec_p10(c)))
            by (nonlinear_arith)
            requires
                spec_p10(a) == 10 * spec_p10(a - 1),
        ;
    }
}

fn p10(e: usize) -> (r: i64)
    requires
        e <= 18,
    ensures
        r == spec_p10(e as int),
        1 <= r <= 1_000_000_000_000_000_000,
{
    proof {
        reveal_with_fuel(spec_p10, 20);
    }
    let mut r: i64 = 1;
    let mut t: usize = 0;
    while t < e
        invariant
            0 <= t <= e <= 18,
            r == spec_p10(t as int),
            1 <= r <= 1_000_000_000_000_000_000,
        decreases e - t,
    {
        proof {
            lemma_p10_le(t + 1, 18);
            lemma_p10_vals();
        }
        r = r * 10;
        t = t + 1;
    }
    r
}

/// Whether the two bytes at `pos` spell a word.
fn word2(b: &[u8], pos: usize, a0: u8, a1: u8) -> (r: bool)
    requires
        pos < b@.len(),
    ensures
        r == spec_word(b@, pos as int, seq![a0, a1]),
{
    let r = b.len() - pos >= 2 && b[pos] == a0 && b[pos + 1] == a1;
    proof {
        let w = seq![a0, a1];
        if r {
            assert forall|i: int| 0 <= i < w.len() implies b@[pos + i] == #[trigger] w[i] by {}
        } else if pos + 2 <= b@.len() {
            assert(!(b@[pos as int] == w[0] && b@[pos + 1] == w[1]));
        }
    }
    r
}

/// Whether the three bytes at `pos` spell a word.
fn word3(b: &[u8], pos: usize, a0: u8, a1: u8, a2: u8) -> (r: bool)
    requires
        pos < b@.len(),
    ensures
        r == spec_word(b@, pos as int, seq![a0, a1, a2]),
{
    let r = b.len() - pos >= 3 && b[pos] == a0 && b[pos + 1] == a1 && b[pos + 2] == a2;
    proof {
        let w = seq![a0, a1, a2];
        if r {
            assert forall|i: int| 0 <= i < w.len() implies b@[pos + i] == #[trigger] w[i] by {}
        } else if pos + 3 <= b@.len() {
            assert(!(b@[pos as int] == w[0] && b@[pos + 1] == w[1] && b@[pos + 2] == w[2]));
        }
    }
    r
}

/// Whether the four bytes at `pos` spell a word.
fn word4(b: &[u8], pos: usize, a0: u8, a1: u8, a2: u8, a3: u8) -> (r: bool)
    requires
        pos < b@.len(),
    ensures
        r == spec_word(b@, pos as int, seq![a0, a1, a2, a3]),
{
    let r = b.len() - pos >= 4 && b[pos] == a0 && b[pos + 1] == a1 && b[pos + 2] == a2 && b[pos
        + 3] == a3;
    proof {
        let w = seq![a0, a1, a2, a3];
        if r {
            assert forall|i: int| 0 <= i < w.len() implies b@[pos + i] == #[trigger] w[i] by {}
        } else if pos + 4 <= b@.len() {
            assert(!(b@[pos as int] == w[0] && b@[pos + 1] == w[1] && b@[pos + 2] == w[2] && b@[pos
                + 3] == w[3]));
        }
    }
    r
}

/// Parses a primary at `pos`.
fn primary(b: &[u8], pos: usize) -> (r: Option<(Func, usize)>)
    requires
        pos <= b@.len(),
    ensures
        match r {
            Some((f, p)) => spec_primary(b@, pos as int) == Some((f, p as int)) && pos < p
                <= b@.len() && f.wf(),
            None => spec_primary(b@, pos as int) is None,
        },
    decreases b@.len() - pos, 4int,
{
    if pos >= b.len() {
        None
    } else if 48 <= b[pos] && b[pos] <= 57 {
        match num_at(b, pos) {
            Some((v, p)) => Some((Func::Num(v), p)),
            None => None,
        }
    } else if b[pos] == 45 {
        match primary(b, pos + 1) {
            Some((f, p)) => {
                proof {
                    assert(Func::Num(Rat { n: 0, d: 1 }).wf());
                }
                Some((Func::Sub(Box::new(Func::Num(Rat { n: 0, d: 1 })), Box::new(f)), p))
            }
            None => None,
        }
    } else if b[pos] == 40 {
        let start = skip(b, pos + 1);
        match expr(b, start) {
            Some((f, p)) => {
                let q = skip(b, p);
                if q < b.len() && b[q] == 41 {
                    Some((f, q + 1))
                } else {
                    None
                }
            }
            None => None,
        }
    } else if word4(b, pos, 115, 113, 114, 116) {
        call_fn(b, pos + 4, 0)
    } else if word3(b, pos, 101, 120, 112) {
        call_fn(b, pos + 3, 1)
    } else if word2(b, pos, 108, 110) {
        call_fn(b, pos + 2, 2)
    } else if word3(b, pos, 115, 105, 110) {
        call_fn(b, pos + 3, 3)
    } else if word3(b, pos, 99, 111, 115) {
        call_fn(b, pos + 3, 4)
    } else if word3(b, pos, 116, 97, 110) {
        call_fn(b, pos + 3, 5)
    } else if word2(b, pos, 112, 105) {
        Some((Func::Num(Rat { n: 884279719003555, d: 281474976710656 }), pos + 2))
    } else if b[pos] == 101 {
        Some((Func::Num(Rat { n: 6121026514868073, d: 2251799813685248 }), pos + 1))
    } else if b[pos] == 120 {
        Some((Func::Arg, pos + 1))
    } else if b[pos] == 105 {
        Some((Func::Im, pos + 1))
    } else {
        None
    }
}

/// Parses the parenthesised argument of elementary function `k`.
fn call_fn(b: &[u8], pos: usize, k: u8) -> (r: Option<(Func, usize)>)
    requires
        pos <= b@.len(),
        k <= 5,
    ensures
        match r {
            Some((f, p)) => spec_call(b@, pos as int, k as int) == Some((f, p as int)) && pos < p
                <= b@.len() && f.wf(),
            None => spec_call(b@, pos as int, k as int) is None,
        },
    decreases b@.len() - pos, 5int,
{
    let q = skip(b, pos);
    if q < b.len() && b[q] == 40 {
        let start = skip(b, q + 1);
        match expr(b, start) {
            Some((f, p)) => {
                let q2 = skip(b, p);
                if q2 < b.len() && b[q2] == 41 {
                    let g = if k == 0 {
                        Func::Sqrt(Box::new(f))
                    } else if k == 1 {
                        Func::Exp(Box::new(f))
                    } else if k == 2 {
                        Func::Ln(Box::new(f))
                    } else if k == 3 {
                        Func::Sin(Box::new(f))
                    } else if k == 4 {
                        Func::Cos(Box::new(f))
                    } else {
                        Func::Tan(Box::new(f))
                    };
                    Some((g, q2 + 1))
                } else {
                    None
                }
            }
            None => None,
        }
    } else {
        None
    }
}

/// Parses a power at `pos`.
fn pw(b: &[u8], pos: usize) -> (r: Option<(Func, usize)>)
    requires
        pos <= b@.len(),
    ensures
        match r {
            Some((f, p)) => spec_pw(b@, pos as int) == Some((f, p as int)) && pos < p <= b@.len()
                && f.wf(),
            None => spec_pw(b@, pos as int) is None,
        },
    decreases b@.len() - pos, 5int,
{
    match primary(b, pos) {
        Some((f, p)) => {
            let q = skip(b, p);
            if q < b.len() && b[q] == 94 {
                let start = skip(b, q + 1);
                match pw(b, start) {
                    Some((rhs, p2)) => match rhs {
                        Func::Num(rr) => Some((f.powc(rr), p2)),
                        _ => None,
                    },
                    None => None,
                }
            } else {
                Some((f, p))
            }
        }
        None => None,
    }
}

/// Folds the remaining `*`/`/` chain onto `acc`.
fn term_rest(b: &[u8], pos: usize, acc: Func) -> (r: Option<(Func, usize)>)
    requires
        pos <= b@.len(),
        acc.wf(),
    ensures
        match r {
            Some((f, p)) => spec_term_rest(b@, pos as int, acc) == Some((f, p as int)) && pos <= p
                <= b@.len() && f.wf(),
            None => spec_term_rest(b@, pos as int, acc) is None,
        },
    decreases b@.len() - pos, 6int,
{
    let q = skip(b, pos);
    if q < b.len() && (b[q] == 42 || b[q] == 47) {
        let start = skip(b, q + 1);
        let mul = b[q] == 42;
        match pw(b, start) {
            Some((rhs, p)) => {
                let folded = if mul {
                    acc.mul(rhs)
                } else {
                    acc.div(rhs)
                };
                term_rest(b, p, folded)
            }
            None => None,
        }
    } else {
        Some((acc, pos))
    }
}

/// Parses a multiplicative term at `pos`.
fn term(b: &[u8], pos: usize) -> (r: Option<(Func, usize)>)
    requires
        pos <= b@.len(),
    ensures
        match r {
            Some((f, p)) => spec_term(b@, pos as int) == Some((f, p as int)) && pos < p <= b@.len()
                && f.wf(),
            None => spec_term(b@, pos as int) is None,
        },
    decreases b@.len() - pos, 7int,
{
    match pw(b, pos) {
        Some((f, p)) => term_rest(b, p, f),
        None => None,
    }
}

/// Folds the remaining `+`/`-` chain onto `acc`.
fn expr_rest(b: &[u8], pos: usize, acc: Func) -> (r: Option<(Func, usize)>)
    requires
        pos <= b@.len(),
        acc.wf(),
    ensures
        match r {
            Some((f, p)) => spec_expr_rest(b@, pos as int, acc) == Some((f, p as int)) && pos <= p
                <= b@.len() && f.wf(),
            None => spec_expr_rest(b@, pos as int, acc) is None,
        },
    decreases b@.len() - pos, 8int,
{
    let q = skip(b, pos);
    if q < b.len() && (b[q] == 43 || b[q] == 45) {
        let start = skip(b, q + 1);
        let add = b[q] == 43;
        match term(b, start) {
            Some((rhs, p)) => {
                let folded = if add {
                    acc.add(rhs)
                } else {
                    acc.sub(rhs)
                };
                expr_rest(b, p, folded)
            }
            None => None,
        }
    } else {
        Some((acc, pos))
    }
}

/// Parses an additive expression at `pos`.
fn expr(b: &[u8], pos: usize) -> (r: Option<(Func, usize)>)
    requires
        pos <= b@.len(),
    ensures
        match r {
            Some((f, p)) => spec_expr(b@, pos as int) == Some((f, p as int)) && pos < p <= b@.len()
                && f.wf(),
            None => spec_expr(b@, pos as int) is None,
        },
    decreases b@.len() - pos, 9int,
{
    match term(b, pos) {
        Some((f, p)) => expr_rest(b, p, f),
        None => None,
    }
}

/// Parses a function string into its normalized tree, or reports the
/// byte position where parsing stopped.
pub fn parse_func(func_str: &str) -> (r: Result<Func, ParseError>)
    ensures
        match r {
            Ok(f) => spec_function(func_str.spec_bytes()) == Some(f) && f.wf(),
            Err(_) => spec_function(func_str.spec_bytes()) is None,
        },
{
    let b = func_str.as_bytes();
    let start = skip(b, 0);
    match expr(b, start) {
        Some((f, p)) => {
            let q = skip(b, p);
            if q == b.len() {
                Ok(f)
            } else {
                Err(ParseError { pos: q })
            }
        }
        None => Err(ParseError { pos: start }),
    }
}

} // verus!
