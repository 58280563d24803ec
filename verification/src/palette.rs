//! The palette language.
//!
//! A palette expression is a chain of color terms joined by separators
//! of equal precedence, folded left to right:
//!
//! * a color literal `#RRGGBB`, or a hidden color `[#RRGGBB]`, which
//!   anchors gradients but does not enter the final table;
//! * the simple separator `>`, which concatenates;
//! * the full separator `-(k)>` with `k >= 1`, which inserts `k`
//!   linearly interpolated colors between its two anchors;
//! * the default separator `|>`, whose right color becomes the
//!   palette's default color for non-converging pixels.
//!
//! Without a default separator the default color is black.  The
//! alternate `gradient` rule, a chain of colors joined only by full
//! separators, is accepted by validation alone.

use vstd::prelude::*;

use vstd::string::StringSliceAdditionalSpecFns;

use crate::color;
use crate::color::Color;

verus! {

/// An ASCII hexadecimal digit.
pub open spec fn is_hex(b: u8) -> bool {
    (48 <= b <= 57) || (97 <= b <= 102) || (65 <= b <= 70)
}

/// The value of one hexadecimal digit.
pub open spec fn hexval(b: u8) -> int {
    if 48 <= b <= 57 {
        b - 48
    } else if 97 <= b <= 102 {
        b - 87
    } else {
        b - 55
    }
}

/// A palette separator.
#[derive(Clone, Copy, Debug, PartialEq, Eq, Structural)]
pub enum Sep {
    /// `>`: concatenation.
    Simple,
    /// `-(k)>`: `k` interpolated colors.
    Full(u16),
    /// `|>`: the right color becomes the default.
    Default,
}

/// Skips spaces and tabs.
pub open spec fn spec_ws(s: Seq<u8>, pos: int) -> int
    decreases s.len() - pos,
{
    if 0 <= pos < s.len() && (s[pos] == 32 || s[pos] == 9) {
        spec_ws(s, pos + 1)
    } else {
        pos
    }
}

/// Parses `#RRGGBB` at `pos`: the color and the next position.
pub open spec fn spec_color_at(s: Seq<u8>, pos: int) -> Option<(Color, int)> {
    if 0 <= pos && pos + 7 <= s.len() && s[pos] == 35 && is_hex(s[pos + 1]) && is_hex(s[pos + 2])
        && is_hex(s[pos + 3]) && is_hex(s[pos + 4]) && is_hex(s[pos + 5]) && is_hex(s[pos + 6]) {
        Some(
            (
                Color(
                    (hexval(s[pos + 1]) * 16 + hexval(s[pos + 2])) as u8,
                    (hexval(s[pos + 3]) * 16 + hexval(s[pos + 4])) as u8,
                    (hexval(s[pos + 5]) * 16 + hexval(s[pos + 6])) as u8,
                ),
                pos + 7,
            ),
        )
    } else {
        None
    }
}

/// Parses a term at `pos`: a color, or a hidden color in brackets.
pub open spec fn spec_term_at(s: Seq<u8>, pos: int) -> Option<((Color, bool), int)> {
    if 0 <= pos < s.len() && s[pos] == 91 {
        match spec_color_at(s, pos + 1) {
            Some((c, p2)) => if p2 < s.len() && s[p2] == 93 {
                Some(((c, true), p2 + 1))
            } else {
                None
            },
            None => None,
        }
    } else {
        match spec_color_at(s, pos) {
            Some((c, p2)) => Some(((c, false), p2)),
            None => None,
        }
    }
}

/// Scans the digits of a full separator's count, up to `)`.
pub open spec fn spec_sep_digits(s: Seq<u8>, pos: int, acc: int, cnt: int) -> Option<(int, int)>
    decreases s.len() - pos,
{
    if !(0 <= pos < s.len()) {
        None
    } else if 48 <= s[pos] <= 57 {
        if cnt >= 5 {
            None
        } else {
            spec_sep_digits(s, pos + 1, acc * 10 + (s[pos] - 48), cnt + 1)
        }
    } else if s[pos] == 41 && cnt >= 1 {
        Some((acc, pos + 1))
    } else {
        None
    }
}

/// Parses a separator at `pos`.
pub open spec fn spec_sep_at(s: Seq<u8>, pos: int) -> Option<(Sep, int)> {
    if !(0 <= pos < s.len()) {
        None
    } else if s[pos] == 62 {
        Some((Sep::Simple, pos + 1))
    } else if s[pos] == 124 {
        if pos + 2 <= s.len() && s[pos + 1] == 62 {
            Some((Sep::Default, pos + 2))
        } else {
            None
        }
    } else if s[pos] == 45 {
        if pos + 2 <= s.len() && s[pos + 1] == 40 {
            match spec_sep_digits(s, pos + 2, 0, 0) {
                Some((k, p2)) => if 1 <= k <= 65535 && p2 < s.len() && s[p2] == 62 {
                    Some((Sep::Full(k as u16), p2 + 1))
                } else {
                    None
                },
                None => None,
            }
        } else {
            None
        }
    } else {
        None
    }
}

/// The `k` interpolated colors between two anchors.
pub open spec fn spec_interps(l: Color, r: Color, k: int) -> Seq<(Color, bool)> {
    Seq::new(
        k as nat,
        |i: int|
            (
                Color(
                    color::spec_interp_channel(l.0 as int, r.0 as int, k, i + 1) as u8,
                    color::spec_interp_channel(l.1 as int, r.1 as int, k, i + 1) as u8,
                    color::spec_interp_channel(l.2 as int, r.2 as int, k, i + 1) as u8,
                ),
                false,
            ),
    )
}

/// Applies one separator and its right term to the running fold.
pub open spec fn spec_apply(
    acc: Seq<(Color, bool)>,
    def: Option<(Color, bool)>,
    sep: Sep,
    t: (Color, bool),
) -> (Seq<(Color, bool)>, Option<(Color, bool)>) {
    match sep {
        Sep::Simple => (acc + seq![t], None),
        Sep::Full(k) => (
            acc + spec_interps(acc[acc.len() - 1].0, t.0, k as int) + seq![t],
            None,
        ),
        Sep::Default => (acc, Some(t)),
    }
}

/// Folds the rest of a palette chain from `pos`.
pub open spec fn spec_chain(
    s: Seq<u8>,
    pos: int,
    acc: Seq<(Color, bool)>,
    def: Option<(Color, bool)>,
) -> Option<(Seq<(Color, bool)>, Option<(Color, bool)>)>
    decreases s.len() - pos,
{
    if !(0 <= pos <= s.len()) {
        None
    } else {
        let p = spec_ws(s, pos);
        if p == s.len() {
            Some((acc, def))
        } else {
            match spec_sep_at(s, p) {
                Some((sep, p2)) => {
                    let p3 = spec_ws(s, p2);
                    match spec_term_at(s, p3) {
                        Some((t, p4)) => if p4 > pos {
                            let folded = spec_apply(acc, def, sep, t);
                            spec_chain(s, p4, folded.0, folded.1)
                        } else {
                            None
                        },
                        None => None,
                    }
                }
                None => None,
            }
        }
    }
}

/// The parsed palette: the folded terms and the default term.
pub open spec fn spec_palette(s: Seq<u8>) -> Option<(Seq<(Color, bool)>, Option<(Color, bool)>)> {
    let p = spec_ws(s, 0);
    match spec_term_at(s, p) {
        Some((t, p2)) => spec_chain(s, p2, seq![t], None),
        None => None,
    }
}

/// The visible colors of a folded palette, in order.
pub open spec fn spec_visible(acc: Seq<(Color, bool)>) -> Seq<Color>
    decreases acc.len(),
{
    if acc.len() == 0 {
        Seq::empty()
    } else {
        spec_visible(acc.drop_last()) + (if !acc.last().1 {
            seq![acc.last().0]
        } else {
            Seq::empty()
        })
    }
}

/// The default color of a folded palette: black when none was named.
pub open spec fn spec_default(def: Option<(Color, bool)>) -> Color {
    match def {
        Some((c, _)) => c,
        None => Color(0, 0, 0),
    }
}

/// The alternate `gradient` rule: colors joined by full separators only.
pub open spec fn spec_gradient_chain(s: Seq<u8>, pos: int) -> bool
    decreases s.len() - pos,
{
    if !(0 <= pos <= s.len()) {
        false
    } else {
        let p = spec_ws(s, pos);
        if p == s.len() {
            true
        } else {
            match spec_sep_at(s, p) {
                Some((sep, p2)) => {
                    let p3 = spec_ws(s, p2);
                    match spec_color_at(s, p3) {
                        Some((_, p4)) => sep matches Sep::Full(_) && p4 > pos
                            && spec_gradient_chain(s, p4),
                        None => false,
                    }
                }
                None => false,
            }
        }
    }
}

/// Whether the string matches the `gradient` rule.
pub open spec fn spec_gradient(s: Seq<u8>) -> bool {
    let p = spec_ws(s, 0);
    match spec_color_at(s, p) {
        Some((_, p2)) => spec_gradient_chain(s, p2),
        None => false,
    }
}


/// Relies on `hex::decode`: on six hexadecimal digits it returns three
/// bytes, each the value of two digits, high digit first.
#[verifier::external_body]
fn hex6_to_rgb(b: &[u8]) -> (r: (u8, u8, u8))
    requires
        b@.len() == 6,
        forall|i: int| 0 <= i < 6 ==> is_hex(#[trigger] b@[i]),
    ensures
        r.0 == hexval(b@[0]) * 16 + hexval(b@[1]),
        r.1 == hexval(b@[2]) * 16 + hexval(b@[3]),
        r.2 == hexval(b@[4]) * 16 + hexval(b@[5]),
{
    let v = hex::decode(b).unwrap();
    (v[0], v[1], v[2])
}

/// Skips spaces and tabs.
fn ws(b: &[u8], pos: usize) -> (r: usize)
    requires
        pos <= b@.len(),
    ensures
        r == spec_ws(b@, pos as int),
        pos <= r <= b@.len(),
    decreases b@.len() - pos,
{
    if pos < b.len() && (b[pos] == 32 || b[pos] == 9) {
        ws(b, pos + 1)
    } else {
        pos
    }
}

/// Parses `#RRGGBB` at `pos`.
fn color_at(b: &[u8], pos: usize) -> (r: Option<(Color, usize)>)
    requires
        pos <= b@.len(),
    ensures
        match r {
            Some((c, p2)) => spec_color_at(b@, pos as int) == Some((c, p2 as int)) && pos < p2
                <= b@.len(),
            None => spec_color_at(b@, pos as int) is None,
        },
{
    if pos < b.len() && b.len() - pos >= 7 && b[pos] == 35 {
        let mut ok = true;
        let mut t: usize = 1;
        while t < 7
            invariant
                1 <= t <= 7,
                pos + 7 <= b@.len() <= usize::MAX,
                ok <==> (forall|i: int| 1 <= i < t ==> is_hex(#[trigger] b@[pos + i])),
            decreases 7 - t,
        {
            let d = b[pos + t];
            if !((48 <= d && d <= 57) || (97 <= d && d <= 102) || (65 <= d && d <= 70)) {
                ok = false;
            }
            t = t + 1;
        }
        if ok {
            let digits = &b[pos + 1..pos + 7];
            proof {
                assert(digits@ =~= b@.subrange(pos + 1, pos + 7));
                assert forall|i: int| 0 <= i < 6 implies is_hex(#[trigger] digits@[i]) by {
                    assert(digits@[i] == b@[pos + 1 + i]);
                }
            }
            let (r0, g0, b0) = hex6_to_rgb(digits);
            proof {
                assert(digits@[0] == b@[pos + 1]);
                assert(digits@[1] == b@[pos + 2]);
                assert(digits@[2] == b@[pos + 3]);
                assert(digits@[3] == b@[pos + 4]);
                assert(digits@[4] == b@[pos + 5]);
                assert(digits@[5] == b@[pos + 6]);
            }
            Some((Color(r0, g0, b0), pos + 7))
        } else {
            None
        }
    } else {
        None
    }
}

/// Parses a term at `pos`: a color, or a hidden color in brackets.
fn term_at(b: &[u8], pos: usize) -> (r: Option<((Color, bool), usize)>)
    requires
        pos <= b@.len(),
    ensures
        match r {
            Some((t, p2)) => spec_term_at(b@, pos as int) == Some((t, p2 as int)) && pos < p2
                <= b@.len(),
            None => spec_term_at(b@, pos as int) is None,
        },
{
    if pos < b.len() && b[pos] == 91 {
        match color_at(b, pos + 1) {
            Some((c, p2)) => {
                if p2 < b.len() && b[p2] == 93 {
                    Some(((c, true), p2 + 1))
                } else {
                    None
                }
            }
            None => None,
        }
    } else {
        match color_at(b, pos) {
            Some((c, p2)) => Some(((c, false), p2)),
            None => None,
        }
    }
}

/// Scans the digits of a full separator's count.
fn sep_digits(b: &[u8], pos: usize, acc: u32, cnt: usize) -> (r: Option<(u32, usize)>)
    requires
        pos <= b@.len(),
        cnt <= 5,
        acc < 100_000,
        cnt <= 4 ==> acc < 10_000,
        cnt <= 3 ==> acc < 1_000,
        cnt <= 2 ==> acc < 100,
        cnt <= 1 ==> acc < 10,
        cnt == 0 ==> acc == 0,
    ensures
        match r {
            Some((k, p2)) => spec_sep_digits(b@, pos as int, acc as int, cnt as int) == Some(
                (k as int, p2 as int),
            ) && pos < p2 <= b@.len() && k < 1_000_000,
            None => spec_sep_digits(b@, pos as int, acc as int, cnt as int) is None,
        },
    decreases b@.len() - pos,
{
    if pos >= b.len() {
        None
    } else if 48 <= b[pos] && b[pos] <= 57 {
        if cnt >= 5 {
            None
        } else {
            sep_digits(b, pos + 1, acc * 10 + (b[pos] - 48) as u32, cnt + 1)
        }
    } else if b[pos] == 41 && cnt >= 1 {
        Some((acc, pos + 1))
    } else {
        None
    }
}

/// Parses a separator at `pos`.
fn sep_at(b: &[u8], pos: usize) -> (r: Option<(Sep, usize)>)
    requires
        pos <= b@.len(),
    ensures
        match r {
            Some((sep, p2)) => spec_sep_at(b@, pos as int) == Some((sep, p2 as int)) && pos < p2
                <= b@.len(),
            None => spec_sep_at(b@, pos as int) is None,
        },
{
    if pos >= b.len() {
        None
    } else if b[pos] == 62 {
        Some((Sep::Simple, pos + 1))
    } else if b[pos] == 124 {
        if b.len() - pos >= 2 && b[pos + 1] == 62 {
            Some((Sep::Default, pos + 2))
        } else {
            None
        }
    } else if b[pos] == 45 {
        if b.len() - pos >= 2 && b[pos + 1] == 40 {
            match sep_digits(b, pos + 2, 0, 0) {
                Some((k, p2)) => {
                    if 1 <= k && k <= 65535 && p2 < b.len() && b[p2] == 62 {
                        Some((Sep::Full(k as u16), p2 + 1))
                    } else {
                        None
                    }
                }
                None => None,
            }
        } else {
            None
        }
    } else {
        None
    }
}

/// Builds the `k` interpolated colors between two anchors.
fn interps(l: Color, r: Color, k: u16) -> (out: Vec<(Color, bool)>)
    ensures
        out@ == spec_interps(l, r, k as int),
{
    let mut out: Vec<(Color, bool)> = Vec::new();
    let mut i: u16 = 0;
    while i < k
        invariant
            0 <= i <= k,
            out@.len() == i as int,
            forall|t: int| 0 <= t < i ==> out@[t] == spec_interps(l, r, k as int)[t],
        decreases k - i,
    {
        let c = Color(
            color::interp_channel(l.0, r.0, k, i + 1),
            color::interp_channel(l.1, r.1, k, i + 1),
            color::interp_channel(l.2, r.2, k, i + 1),
        );
        out.push((c, false));
        i = i + 1;
    }
    proof {
        assert(out@ =~= spec_interps(l, r, k as int));
    }
    out
}

/// Applies one separator and its right term to the running fold.
fn apply_sep(acc: &mut Vec<(Color, bool)>, def: &mut Option<(Color, bool)>, sep: Sep, t: (
    Color,
    bool,
))
    requires
        old(acc)@.len() >= 1,
    ensures
        (final(acc)@, *final(def)) == spec_apply(old(acc)@, *old(def), sep, t),
        final(acc)@.len() >= 1,
{
    match sep {
        Sep::Simple => {
            acc.push(t);
            *def = None;
        }
        Sep::Full(k) => {
            let last = acc[acc.len() - 1].0;
            let mut mid = interps(last, t.0, k);
            let ghost pre = acc@;
            acc.append(&mut mid);
            acc.push(t);
            proof {
                assert(acc@ =~= pre + spec_interps(last, t.0, k as int) + seq![t]);
            }
            *def = None;
        }
        Sep::Default => {
            *def = Some(t);
        }
    }
}

/// Parses and folds a full palette expression.
fn parse_palette(b: &[u8]) -> (r: Option<(Vec<(Color, bool)>, Option<(Color, bool)>)>)
    ensures
        match r {
            Some((acc, def)) => spec_palette(b@) == Some((acc@, def)) && acc@.len() >= 1,
            None => spec_palette(b@) is None,
        },
{
    let p = ws(b, 0);
    match term_at(b, p) {
        Some((t, p2)) => {
            let mut acc: Vec<(Color, bool)> = Vec::new();
            acc.push(t);
            let mut def: Option<(Color, bool)> = None;
            let mut pos: usize = p2;
            proof {
                assert(acc@ =~= seq![t]);
            }
            loop
                invariant
                    pos <= b@.len(),
                    acc@.len() >= 1,
                    spec_palette(b@) == spec_chain(b@, pos as int, acc@, def),
                decreases b@.len() - pos,
            {
                let q = ws(b, pos);
                if q == b.len() {
                    return Some((acc, def));
                }
                match sep_at(b, q) {
                    Some((sep, q2)) => {
                        let q3 = ws(b, q2);
                        match term_at(b, q3) {
                            Some((t2, q4)) => {
                                apply_sep(&mut acc, &mut def, sep, t2);
                                pos = q4;
                            }
                            None => {
                                return None;
                            }
                        }
                    }
                    None => {
                        return None;
                    }
                }
            }
        }
        None => None,
    }
}

/// Whether the bytes match the `gradient` rule.
fn gradient_ok(b: &[u8]) -> (r: bool)
    ensures
        r == spec_gradient(b@),
{
    let p = ws(b, 0);
    match color_at(b, p) {
        Some((_, p2)) => {
            let mut pos: usize = p2;
            loop
                invariant
                    pos <= b@.len(),
                    spec_gradient(b@) == spec_gradient_chain(b@, pos as int),
                decreases b@.len() - pos,
            {
                let q = ws(b, pos);
                if q == b.len() {
                    return true;
                }
                match sep_at(b, q) {
                    Some((sep, q2)) => {
                        let full = matches!(sep, Sep::Full(_));
                        let q3 = ws(b, q2);
                        match color_at(b, q3) {
                            Some((_, q4)) => {
                                if !full {
                                    return false;
                                }
                                pos = q4;
                            }
                            None => {
                                return false;
                            }
                        }
                    }
                    None => {
                        return false;
                    }
                }
            }
        }
        None => false,
    }
}

/// Validates a palette expression: it must match the palette rule or
/// the alternate gradient rule.
pub fn validate_palette(palette: String) -> (r: Result<(), String>)
    ensures
        r is Ok <==> (spec_palette(vstd::utf8::encode_utf8(palette@)) is Some || spec_gradient(
            vstd::utf8::encode_utf8(palette@),
        )),
{
    let b = palette.as_str().as_bytes();
    match parse_palette(b) {
        Some(_) => Ok(()),
        None => {
            if gradient_ok(b) {
                Ok(())
            } else {
                Err(
                    String::from_str(
                        "Палитра не соответствует ни правилу палитры, ни правилу градиента",
                    ),
                )
            }
        }
    }
}

/// Builds the color table and the default color of a palette
/// expression: the folded visible colors, and the named default or
/// black.
pub fn get_palette(palette_string: &str) -> (r: (Vec<Color>, Color))
    requires
        spec_palette(palette_string.spec_bytes()) is Some,
    ensures
        ({
            let parsed = spec_palette(palette_string.spec_bytes())->0;
            r.0@ == spec_visible(parsed.0) && r.1 == spec_default(parsed.1)
        }),
{
    let b = palette_string.as_bytes();
    match parse_palette(b) {
        Some((acc, def)) => {
            let mut visible: Vec<Color> = Vec::new();
            let mut i: usize = 0;
            proof {
                assert(acc@.take(0) =~= Seq::<(Color, bool)>::empty());
            }
            while i < acc.len()
                invariant
                    0 <= i <= acc@.len(),
                    visible@ == spec_visible(acc@.take(i as int)),
                decreases acc@.len() - i,
            {
                let t = acc[i];
                proof {
                    assert(acc@.take(i + 1).drop_last() =~= acc@.take(i as int));
                    assert(acc@.take(i + 1).last() == acc@[i as int]);
                }
                if !t.1 {
                    visible.push(t.0);
                }
                i = i + 1;
            }
            proof {
                assert(acc@.take(acc@.len() as int) =~= acc@);
            }
            let defcol = match def {
                Some(t) => t.0,
                None => Color(0, 0, 0),
            };
            (visible, defcol)
        }
        None => (Vec::new(), Color(0, 0, 0)),
    }
}

} // verus!
