//! The render kernel.
//!
//! Every pixel's Newton iteration yields an outcome: divergence, or
//! convergence after some number of steps with an endpoint.  The kernel
//! turns an outcome grid into row-major RGB bytes: diverging pixels get
//! black or the palette's default color, converging pixels get a
//! grayscale level from their step count or the color of their root in
//! the registry, blended toward the default by the shadow weight.

use vstd::prelude::*;

use crate::color;
use crate::color::{Color, Weight, ROOT_ITER};
use crate::coord::COORD_LIMIT;
use crate::point::Point;

verus! {

/// The result of the Newton iteration at one pixel.
#[derive(Clone, Copy, Debug)]
pub enum Outcome {
    /// The iteration did not converge within `ROOT_ITER` steps.
    Diverged,
    /// The iteration converged after the given number of steps; the
    /// endpoint is carried when it is representable as a fixed-point
    /// point (a non-finite endpoint is not).
    Converged(u16, Option<Point>),
}

impl Outcome {
    /// The step count stays below the iteration cap.
    pub open spec fn wf(self) -> bool {
        match self {
            Outcome::Diverged => true,
            Outcome::Converged(n, _) => n < ROOT_ITER,
        }
    }
}

/// The index of the first registry root within `ROOT_PRECISION` of `p`,
/// searching from `from`.
pub open spec fn spec_root_index(roots: Seq<Point>, p: Point, from: int) -> Option<int>
    decreases roots.len() - from,
{
    if from < 0 || from >= roots.len() {
        None
    } else if roots[from].spec_near(p) {
        Some(from)
    } else {
        spec_root_index(roots, p, from + 1)
    }
}

/// Finds the first registry root within `ROOT_PRECISION` of `p`.
pub fn find_root_index(roots: &Vec<Point>, p: &Point) -> (r: Option<usize>)
    ensures
        match r {
            Some(k) => spec_root_index(roots@, *p, 0) == Some(k as int) && k < roots@.len(),
            None => spec_root_index(roots@, *p, 0) is None,
        },
{
    let mut k: usize = 0;
    while k < roots.len()
        invariant
            0 <= k <= roots@.len(),
            spec_root_index(roots@, *p, 0) == spec_root_index(roots@, *p, k as int),
        decreases roots@.len() - k,
    {
        if roots[k].near(p) {
            return Some(k);
        }
        k = k + 1;
    }
    None
}

/// Whether a palette is present with at least one visible color.
pub open spec fn spec_palette_nonempty(palette: Option<&(Vec<Color>, Color)>) -> bool {
    match palette {
        Some(p) => p.0@.len() > 0,
        None => false,
    }
}

/// The color of one pixel before negation: black or the default for a
/// diverging pixel, a grayscale level or a shadow-blended palette color
/// for a converging one.
pub open spec fn spec_find_newton(
    outcome: Outcome,
    roots: Option<Seq<Point>>,
    palette: Option<(Seq<Color>, Color)>,
    shadow: Weight,
) -> Color {
    match outcome {
        Outcome::Diverged => match palette {
            Some((_, def)) => def,
            None => Color(0, 0, 0),
        },
        Outcome::Converged(dep, ep) => match palette {
            Some((pal, def)) => match ep {
                Some(p) => match spec_root_index(roots->0, p, 0) {
                    Some(k) => Color(
                        color::spec_blend_channel(
                            pal[k % (pal.len() as int)].0 as int,
                            def.0 as int,
                            shadow.num as int,
                        ) as u8,
                        color::spec_blend_channel(
                            pal[k % (pal.len() as int)].1 as int,
                            def.1 as int,
                            shadow.num as int,
                        ) as u8,
                        color::spec_blend_channel(
                            pal[k % (pal.len() as int)].2 as int,
                            def.2 as int,
                            shadow.num as int,
                        ) as u8,
                    ),
                    None => def,
                },
                None => def,
            },
            None => {
                let g = color::spec_gray_level(dep as int) as u8;
                Color(g, g, g)
            }
        },
    }
}

/// Selects the color of one pixel from its iteration outcome.
pub fn find_newton(
    outcome: &Outcome,
    roots: &Option<Vec<Point>>,
    palette: Option<&(Vec<Color>, Color)>,
    shadow: Weight,
) -> (c: Color)
    requires
        outcome.wf(),
        shadow.wf(),
        palette is Some ==> roots is Some && spec_palette_nonempty(palette),
    ensures
        c == spec_find_newton(
            *outcome,
            match roots {
                Some(rs) => Some(rs@),
                None => None,
            },
            match palette {
                Some(p) => Some((p.0@, p.1)),
                None => None,
            },
            shadow,
        ),
{
    match outcome {
        Outcome::Diverged => match palette {
            Some(p) => p.1,
            None => Color(0, 0, 0),
        },
        Outcome::Converged(dep, ep) => match palette {
            Some(p) => {
                let def = p.1;
                match ep {
                    Some(pt) => match roots {
                        Some(rs) => match find_root_index(rs, pt) {
                            Some(k) => {
                                let idx = k % p.0.len();
                                color::blend(p.0[idx], def, shadow)
                            }
                            None => def,
                        },
                        None => def,
                    },
                    None => def,
                }
            }
            None => color::gray_color(*dep),
        },
    }
}

/// The color of pixel `p` of the image, negation applied.
pub open spec fn spec_pixel_color(
    outcomes: Seq<Outcome>,
    roots: Option<Seq<Point>>,
    palette: Option<(Seq<Color>, Color)>,
    shadows: Option<Seq<Weight>>,
    negate: bool,
    p: int,
) -> Color {
    let w = match shadows {
        Some(ws) => ws[p],
        None => Weight { num: 0 },
    };
    let c = spec_find_newton(outcomes[p], roots, palette, w);
    if negate {
        Color((255 - c.0) as u8, (255 - c.1) as u8, (255 - c.2) as u8)
    } else {
        c
    }
}

/// Renders the outcome grid to row-major RGB bytes.
pub fn render_image(
    outcomes: &Vec<Outcome>,
    roots: &Option<Vec<Point>>,
    palette: Option<&(Vec<Color>, Color)>,
    shadows: Option<&Vec<Weight>>,
    negate: bool,
    width: usize,
    height: usize,
) -> (img: Vec<u8>)
    requires
        outcomes@.len() == width * height,
        width * height * 3 <= usize::MAX,
        forall|p: int| 0 <= p < outcomes@.len() ==> (#[trigger] outcomes@[p]).wf(),
        palette is Some ==> roots is Some && spec_palette_nonempty(palette),
        shadows matches Some(ws) ==> ws@.len() == width * height && forall|p: int|
            0 <= p < ws@.len() ==> (#[trigger] ws@[p]).wf(),
    ensures
        img@.len() == 3 * outcomes@.len(),
        forall|p: int|
            #![trigger img@[3 * p]]
            0 <= p < width * height ==> {
                let c = spec_pixel_color(
                    outcomes@,
                    match roots {
                        Some(rs) => Some(rs@),
                        None => None,
                    },
                    match palette {
                        Some(pl) => Some((pl.0@, pl.1)),
                        None => None,
                    },
                    match shadows {
                        Some(ws) => Some(ws@),
                        None => None,
                    },
                    negate,
                    p,
                );
                img@[3 * p] == c.0 && img@[3 * p + 1] == c.1 && img@[3 * p + 2] == c.2
            },
{
    let ghost grs = match roots {
        Some(rs) => Some(rs@),
        None => None,
    };
    let ghost gpal = match palette {
        Some(pl) => Some((pl.0@, pl.1)),
        None => None,
    };
    let ghost gsh = match shadows {
        Some(ws) => Some(ws@),
        None => None,
    };
    let n = outcomes.len();
    let mut img: Vec<u8> = Vec::new();
    let mut p: usize = 0;
    while p < n
        invariant
            0 <= p <= n,
            n == outcomes@.len(),
            n == width * height,
            n * 3 <= usize::MAX,
            img@.len() == 3 * p,
            forall|q: int| 0 <= q < outcomes@.len() ==> (#[trigger] outcomes@[q]).wf(),
            palette is Some ==> roots is Some && spec_palette_nonempty(palette),
            shadows matches Some(ws) ==> ws@.len() == n && forall|q: int|
                0 <= q < ws@.len() ==> (#[trigger] ws@[q]).wf(),
            grs == (match roots {
                Some(rs) => Some(rs@),
                None => None,
            }),
            gpal == (match palette {
                Some(pl) => Some((pl.0@, pl.1)),
                None => None,
            }),
            gsh == (match shadows {
                Some(ws) => Some(ws@),
                None => None,
            }),
            forall|q: int|
                #![trigger img@[3 * q]]
                0 <= q < p ==> {
                    let c = spec_pixel_color(outcomes@, grs, gpal, gsh, negate, q);
                    img@[3 * q] == c.0 && img@[3 * q + 1] == c.1 && img@[3 * q + 2] == c.2
                },
        decreases n - p,
    {
        let w = match shadows {
            Some(ws) => ws[p],
            None => Weight { num: 0 },
        };
        let c = find_newton(&outcomes[p], roots, palette, w);
        let c = if negate {
            Color(255 - c.0, 255 - c.1, 255 - c.2)
        } else {
            c
        };
        let ghost pre = img@;
        img.push(c.0);
        img.push(c.1);
        img.push(c.2);
        proof {
            assert(img@ =~= pre + seq![c.0, c.1, c.2]);
        }
        p = p + 1;
    }
    img
}

/// The output image width: the height scaled by the viewport's aspect
/// ratio, floored, at least 1, saturated at the `u32` range.
pub open spec fn spec_calc_width(x1: int, y1: int, x2: int, y2: int, h: int) -> int {
    let q = (x2 - x1) * h / (y2 - y1);
    if q < 1 {
        1
    } else if q > u32::MAX {
        u32::MAX as int
    } else {
        q
    }
}

/// Computes the output width from the viewport corners (in coordinate
/// units) and the image height.
pub fn calculate_width(x1: i64, y1: i64, x2: i64, y2: i64, height: u32) -> (w: u32)
    requires
        x1 < x2,
        y1 < y2,
        -COORD_LIMIT <= x1 && x2 <= COORD_LIMIT,
        -COORD_LIMIT <= y1 && y2 <= COORD_LIMIT,
    ensures
        w as int == spec_calc_width(x1 as int, y1 as int, x2 as int, y2 as int, height as int),
{
    let dx: u128 = (x2 as i128 - x1 as i128) as u128;
    let dy: u128 = (y2 as i128 - y1 as i128) as u128;
    proof {
        assert(dx * (height as u128) <= 8_000_000_000_000_000_000 * 4_294_967_295)
            by (nonlinear_arith)
            requires
                0 <= dx <= 8_000_000_000_000_000_000u128,
                0 <= height as u128 <= 4_294_967_295u128,
        ;
    }
    let q: u128 = dx * (height as u128) / dy;
    if q < 1 {
        1
    } else if q > u32::MAX as u128 {
        u32::MAX
    } else {
        q as u32
    }
}

/// An exact rational coordinate of a pixel seed: the value is
/// `num / den` in coordinate units.
#[derive(Clone, Copy, Debug)]
pub struct SeedCoord {
    pub num: i128,
    pub den: i128,
}

/// The seed point of pixel `(i, j)`: the viewport corner plus the
/// pixel's fraction of the viewport's extent on each axis.
pub fn complex_by_coord(
    i: u32,
    h: u32,
    j: u32,
    w: u32,
    x1: i64,
    y1: i64,
    x2: i64,
    y2: i64,
) -> (r: (SeedCoord, SeedCoord))
    requires
        w >= 1,
        h >= 1,
        j <= w,
        i <= h,
        -COORD_LIMIT <= x1 <= COORD_LIMIT,
        -COORD_LIMIT <= x2 <= COORD_LIMIT,
        -COORD_LIMIT <= y1 <= COORD_LIMIT,
        -COORD_LIMIT <= y2 <= COORD_LIMIT,
    ensures
        r.0.num == x1 * w + (x2 - x1) * j,
        r.0.den == w as int,
        r.1.num == y1 * h + (y2 - y1) * i,
        r.1.den == h as int,
{
    proof {
        lemma_seed_bounds(x1 as int, x2 as int, j as int, w as int);
        lemma_seed_bounds(y1 as int, y2 as int, i as int, h as int);
    }
    let re = SeedCoord {
        num: x1 as i128 * w as i128 + (x2 as i128 - x1 as i128) * j as i128,
        den: w as i128,
    };
    let im = SeedCoord {
        num: y1 as i128 * h as i128 + (y2 as i128 - y1 as i128) * i as i128,
        den: h as i128,
    };
    (re, im)
}

/// The seed coordinate arithmetic stays far inside `i128`.
proof fn lemma_seed_bounds(a: int, b: int, p: int, n: int)
    by (nonlinear_arith)
    requires
        -COORD_LIMIT <= a <= COORD_LIMIT,
        -COORD_LIMIT <= b <= COORD_LIMIT,
        0 <= p <= n,
        1 <= n <= 4_294_967_295,
    ensures
        -40_000_000_000_000_000_000_000_000_000 <= a * n <= 40_000_000_000_000_000_000_000_000_000,
        -80_000_000_000_000_000_000_000_000_000 <= (b - a) * p <= 80_000_000_000_000_000_000_000_000_000,
{
}

} // verus!
