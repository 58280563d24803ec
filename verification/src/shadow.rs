//! The shadow field.
//!
//! Every pixel gets the length of a shortest 4-connected path to a
//! diverging pixel: diverging pixels themselves are at distance 0 and a
//! multi-source breadth-first search expands to orthogonal neighbors,
//! one level per step, with the image boundary as a wall.  When no pixel
//! diverges the field is empty.
//!
//! The contract pins the field through its local laws: a pixel is at
//! distance 0 exactly when it diverges, every neighbor of a reached
//! pixel is reached, adjacent distances differ by at most one, and every
//! pixel at a positive distance has a neighbor one step closer.  Those
//! laws determine the field uniquely as the minimum path distance.

use vstd::prelude::*;
use vstd::pervasive::VecAdditionalExecFns;

verus! {

/// A pixel of the grid, by row and column.
pub open spec fn in_grid(h: int, w: int, i: int, j: int) -> bool {
    0 <= i < h && 0 <= j < w
}

/// Orthogonal 4-adjacency of two pixels.
pub open spec fn spec_adj(i1: int, j1: int, i2: int, j2: int) -> bool {
    (i1 == i2 && (j2 == j1 + 1 || j2 == j1 - 1)) || (j1 == j2 && (i2 == i1 + 1 || i2 == i1
        - 1))
}

/// The field value of pixel `(i, j)` in a row-major grid of width `w`.
pub open spec fn pix(d: Seq<Option<u32>>, w: int, i: int, j: int) -> Option<u32> {
    d[i * w + j]
}

/// Whether pixel `(i, j)` diverges.
pub open spec fn divpix(dv: Seq<bool>, w: int, i: int, j: int) -> bool {
    dv[i * w + j]
}

/// Every reached pixel keeps its value from `d0` to `d1`.
pub open spec fn some_preserved(d0: Seq<Option<u32>>, d1: Seq<Option<u32>>, h: int, w: int) -> bool {
    forall|i: int, j: int|
        in_grid(h, w, i, j) && #[trigger] pix(d0, w, i, j) is Some ==> pix(d1, w, i, j) == pix(
            d0,
            w,
            i,
            j,
        )
}

/// A pixel is at distance zero exactly when it diverges.
#[verifier::opaque]
pub open spec fn shadow_zero_iff(d: Seq<Option<u32>>, dv: Seq<bool>, h: int, w: int) -> bool {
    forall|i: int, j: int|
        in_grid(h, w, i, j) ==> (divpix(dv, w, i, j) <==> #[trigger] pix(d, w, i, j)
            == Some(0u32))
}

/// Adjacent reached pixels differ by at most one level.
#[verifier::opaque]
pub open spec fn shadow_step(d: Seq<Option<u32>>, h: int, w: int) -> bool {
    forall|i1: int, j1: int, i2: int, j2: int|
        #![trigger pix(d, w, i1, j1), pix(d, w, i2, j2)]
        in_grid(h, w, i1, j1) && in_grid(h, w, i2, j2) && spec_adj(i1, j1, i2, j2) && pix(
            d,
            w,
            i1,
            j1,
        ) is Some && pix(d, w, i2, j2) is Some ==> pix(d, w, i2, j2)->0 <= pix(
            d,
            w,
            i1,
            j1,
        )->0 + 1
}

/// Every neighbor of a reached pixel below `bound` is reached.
#[verifier::opaque]
pub open spec fn shadow_closed_below(d: Seq<Option<u32>>, h: int, w: int, bound: int) -> bool {
    forall|i1: int, j1: int, i2: int, j2: int|
        #![trigger pix(d, w, i1, j1), pix(d, w, i2, j2)]
        in_grid(h, w, i1, j1) && in_grid(h, w, i2, j2) && spec_adj(i1, j1, i2, j2) && pix(
            d,
            w,
            i1,
            j1,
        ) is Some && pix(d, w, i1, j1)->0 < bound ==> pix(d, w, i2, j2) is Some
}

/// Every neighbor of a reached pixel is reached.
#[verifier::opaque]
pub open spec fn shadow_closed(d: Seq<Option<u32>>, h: int, w: int) -> bool {
    forall|i1: int, j1: int, i2: int, j2: int|
        #![trigger pix(d, w, i1, j1), pix(d, w, i2, j2)]
        in_grid(h, w, i1, j1) && in_grid(h, w, i2, j2) && spec_adj(i1, j1, i2, j2) && pix(
            d,
            w,
            i1,
            j1,
        ) is Some ==> pix(d, w, i2, j2) is Some
}

/// Every pixel at a positive distance has a neighbor one step closer.
#[verifier::opaque]
pub open spec fn shadow_parent(d: Seq<Option<u32>>, h: int, w: int) -> bool {
    forall|i: int, j: int|
        in_grid(h, w, i, j) && #[trigger] pix(d, w, i, j) is Some && pix(d, w, i, j)->0 >= 1
            ==> exists|i2: int, j2: int|
            in_grid(h, w, i2, j2) && spec_adj(i, j, i2, j2) && #[trigger] pix(d, w, i2, j2)
                == Some((pix(d, w, i, j)->0 - 1) as u32)
}

/// All values at most `bound`.
#[verifier::opaque]
pub open spec fn shadow_at_most(d: Seq<Option<u32>>, h: int, w: int, bound: int) -> bool {
    forall|i: int, j: int|
        in_grid(h, w, i, j) && #[trigger] pix(d, w, i, j) is Some ==> pix(d, w, i, j)->0
            <= bound
}

/// The number of reached entries.
pub closed spec fn count_some(s: Seq<Option<u32>>) -> int
    decreases s.len(),
{
    if s.len() == 0 {
        0
    } else {
        (if s[0] is Some {
            1int
        } else {
            0int
        }) + count_some(s.drop_first())
    }
}

proof fn lemma_count_some_le_len(s: Seq<Option<u32>>)
    ensures
        0 <= count_some(s) <= s.len(),
    decreases s.len(),
{
    if s.len() > 0 {
        lemma_count_some_le_len(s.drop_first());
    }
}

proof fn lemma_count_some_update(s: Seq<Option<u32>>, i: int, v: u32)
    requires
        0 <= i < s.len(),
        s[i] is None,
    ensures
        count_some(s.update(i, Some(v))) == count_some(s) + 1,
    decreases s.len(),
{
    if i == 0 {
        assert(s.update(0, Some(v)).drop_first() =~= s.drop_first());
    } else {
        assert(s.update(i, Some(v)).drop_first() =~= s.drop_first().update(i - 1, Some(v)));
        lemma_count_some_update(s.drop_first(), i - 1, v);
    }
}

/// Expands the search to pixel `(qi, qj)`, a neighbor of the frontier
/// pixel `(pi, pj)` at the current level: an unreached neighbor is
/// assigned the next level and queued, a reached one is left alone.
#[verifier::rlimit(100)]
#[verifier::spinoff_prover]
fn visit(
    dist: &mut Vec<Option<u32>>,
    next: &mut Vec<(usize, usize)>,
    dv: &Vec<bool>,
    h: usize,
    w: usize,
    level: u32,
    pi: usize,
    pj: usize,
    qi: usize,
    qj: usize,
)
    requires
        old(dist)@.len() == h * w,
        dv@.len() == h * w,
        level < 0xFFFF_FFFFu32,
        in_grid(h as int, w as int, pi as int, pj as int),
        in_grid(h as int, w as int, qi as int, qj as int),
        spec_adj(pi as int, pj as int, qi as int, qj as int),
        pix(old(dist)@, w as int, pi as int, pj as int) == Some(level),
        shadow_zero_iff(old(dist)@, dv@, h as int, w as int),
        shadow_at_most(old(dist)@, h as int, w as int, level + 1),
        shadow_step(old(dist)@, h as int, w as int),
        shadow_closed_below(old(dist)@, h as int, w as int, level as int),
        shadow_parent(old(dist)@, h as int, w as int),
    ensures
        final(dist)@.len() == h * w,
        ({
            let qidx = qi as int * (w as int) + qj as int;
            if old(dist)@[qidx] is None {
                final(dist)@ == old(dist)@.update(qidx, Some((level + 1) as u32))
                    && final(next)@ == old(next)@.push((qi, qj)) && count_some(final(dist)@)
                    == count_some(old(dist)@) + 1
            } else {
                final(dist)@ == old(dist)@ && final(next)@ == old(next)@
            }
        }),
        pix(final(dist)@, w as int, qi as int, qj as int) is Some,
        some_preserved(old(dist)@, final(dist)@, h as int, w as int),
        shadow_zero_iff(final(dist)@, dv@, h as int, w as int),
        shadow_at_most(final(dist)@, h as int, w as int, level + 1),
        shadow_step(final(dist)@, h as int, w as int),
        shadow_closed_below(final(dist)@, h as int, w as int, level as int),
        shadow_parent(final(dist)@, h as int, w as int),
{
    proof {
        lemma_grid_idx(h as int, w as int, qi as int, qj as int);
    }
    let n = dist.len();
    let qidx = qi * w + qj;
    let unreached = match dist[qidx] {
        Option::None => true,
        Option::Some(_) => false,
    };
    if unreached {
        let ghost d0 = dist@;
        dist.set(qidx, Some(level + 1));
        next.push((qi, qj));
        proof {
            let hh = h as int;
            let ww = w as int;
            let d1 = dist@;
            let qdx = qi as int * ww + qj as int;
            lemma_count_some_update(d0, qdx, (level + 1) as u32);
            lemma_visit_frame(d0, d1, hh, ww, (level + 1) as u32, qi as int, qj as int);
            assert forall|i: int, j: int|
                in_grid(hh, ww, i, j) && #[trigger] pix(d0, ww, i, j) is Some implies pix(
                d1,
                ww,
                i,
                j,
            ) == pix(d0, ww, i, j) by {
                if !(i == qi as int && j == qj as int) {
                    assert(pix(d1, ww, i, j) == pix(d0, ww, i, j));
                }
            }
            lemma_visit_zero_iff(d0, d1, dv@, hh, ww, level, qi as int, qj as int);
            lemma_visit_at_most(d0, d1, hh, ww, level, qi as int, qj as int);
            lemma_visit_step(d0, d1, hh, ww, level, qi as int, qj as int);
            lemma_visit_closed(d0, d1, hh, ww, level, qi as int, qj as int);
            lemma_visit_parent(d0, d1, hh, ww, level, qi as int, qj as int, pi as int, pj as int);
        }
    }
}

/// The update of one pixel leaves every other pixel's value unchanged.
proof fn lemma_visit_frame(
    d0: Seq<Option<u32>>,
    d1: Seq<Option<u32>>,
    hh: int,
    ww: int,
    v: u32,
    qi: int,
    qj: int,
)
    requires
        d0.len() == hh * ww,
        in_grid(hh, ww, qi, qj),
        d1 == d0.update(qi * ww + qj, Some(v)),
    ensures
        d1.len() == d0.len(),
        pix(d1, ww, qi, qj) == Some(v),
        forall|i: int, j: int|
            in_grid(hh, ww, i, j) && !(i == qi && j == qj) ==> #[trigger] pix(d1, ww, i, j) == pix(
                d0,
                ww,
                i,
                j,
            ),
{
    lemma_grid_idx(hh, ww, qi, qj);
    assert forall|i: int, j: int|
        in_grid(hh, ww, i, j) && !(i == qi && j == qj) implies #[trigger] pix(d1, ww, i, j) == pix(
        d0,
        ww,
        i,
        j,
    ) by {
        lemma_grid_idx(hh, ww, i, j);
        if i * ww + j == qi * ww + qj {
            lemma_grid_inj(ww, i, j, qi, qj);
        }
    }
}

proof fn lemma_visit_zero_iff(
    d0: Seq<Option<u32>>,
    d1: Seq<Option<u32>>,
    dv: Seq<bool>,
    hh: int,
    ww: int,
    level: u32,
    qi: int,
    qj: int,
)
    requires
        d0.len() == hh * ww,
        in_grid(hh, ww, qi, qj),
        level < 0xFFFF_FFFFu32,
        d0[qi * ww + qj] is None,
        d1 == d0.update(qi * ww + qj, Some((level + 1) as u32)),
        shadow_zero_iff(d0, dv, hh, ww),
    ensures
        shadow_zero_iff(d1, dv, hh, ww),
{
    reveal(shadow_zero_iff);
    lemma_visit_frame(d0, d1, hh, ww, (level + 1) as u32, qi, qj);
    assert forall|i: int, j: int| in_grid(hh, ww, i, j) implies (divpix(dv, ww, i, j)
        <==> #[trigger] pix(d1, ww, i, j) == Some(0u32)) by {
        if i == qi && j == qj {
            assert(!(pix(d0, ww, i, j) == Some(0u32)));
            assert(pix(d1, ww, i, j) == Some((level + 1) as u32));
        } else {
            assert(pix(d1, ww, i, j) == pix(d0, ww, i, j));
        }
    }
}

proof fn lemma_visit_at_most(
    d0: Seq<Option<u32>>,
    d1: Seq<Option<u32>>,
    hh: int,
    ww: int,
    level: u32,
    qi: int,
    qj: int,
)
    requires
        d0.len() == hh * ww,
        in_grid(hh, ww, qi, qj),
        level < 0xFFFF_FFFFu32,
        d1 == d0.update(qi * ww + qj, Some((level + 1) as u32)),
        shadow_at_most(d0, hh, ww, level + 1),
    ensures
        shadow_at_most(d1, hh, ww, level + 1),
{
    reveal(shadow_at_most);
    lemma_visit_frame(d0, d1, hh, ww, (level + 1) as u32, qi, qj);
    assert forall|i: int, j: int|
        in_grid(hh, ww, i, j) && #[trigger] pix(d1, ww, i, j) is Some implies pix(d1, ww, i, j)->0
        <= level + 1 by {
        if !(i == qi && j == qj) {
            assert(pix(d1, ww, i, j) == pix(d0, ww, i, j));
        }
    }
}

proof fn lemma_visit_step(
    d0: Seq<Option<u32>>,
    d1: Seq<Option<u32>>,
    hh: int,
    ww: int,
    level: u32,
    qi: int,
    qj: int,
)
    requires
        d0.len() == hh * ww,
        in_grid(hh, ww, qi, qj),
        level < 0xFFFF_FFFFu32,
        d0[qi * ww + qj] is None,
        d1 == d0.update(qi * ww + qj, Some((level + 1) as u32)),
        shadow_at_most(d0, hh, ww, level + 1),
        shadow_step(d0, hh, ww),
        shadow_closed_below(d0, hh, ww, level as int),
    ensures
        shadow_step(d1, hh, ww),
{
    reveal(shadow_at_most);
    reveal(shadow_step);
    reveal(shadow_closed_below);
    lemma_visit_frame(d0, d1, hh, ww, (level + 1) as u32, qi, qj);
    assert forall|i1: int, j1: int, i2: int, j2: int|
        in_grid(hh, ww, i1, j1) && in_grid(hh, ww, i2, j2) && spec_adj(i1, j1, i2, j2)
            && #[trigger] pix(d1, ww, i1, j1) is Some && #[trigger] pix(d1, ww, i2, j2) is Some
        implies pix(d1, ww, i2, j2)->0 <= pix(d1, ww, i1, j1)->0 + 1 by {
        let at_q1 = i1 == qi && j1 == qj;
        let at_q2 = i2 == qi && j2 == qj;
        if at_q1 && !at_q2 {
            // the new pixel is the lower end: its neighbor is at most level + 1
            assert(pix(d1, ww, i2, j2) == pix(d0, ww, i2, j2));
        } else if !at_q1 && at_q2 {
            // the new pixel is the upper end: its neighbor cannot be below the
            // current level, else the new pixel would have been reached already
            assert(pix(d1, ww, i1, j1) == pix(d0, ww, i1, j1));
            if pix(d0, ww, i1, j1)->0 < level {
                assert(pix(d0, ww, i2, j2) is Some);
                assert(false);
            }
        } else if !at_q1 && !at_q2 {
            assert(pix(d1, ww, i1, j1) == pix(d0, ww, i1, j1));
            assert(pix(d1, ww, i2, j2) == pix(d0, ww, i2, j2));
        }
    }
}

proof fn lemma_visit_closed(
    d0: Seq<Option<u32>>,
    d1: Seq<Option<u32>>,
    hh: int,
    ww: int,
    level: u32,
    qi: int,
    qj: int,
)
    requires
        d0.len() == hh * ww,
        in_grid(hh, ww, qi, qj),
        level < 0xFFFF_FFFFu32,
        d1 == d0.update(qi * ww + qj, Some((level + 1) as u32)),
        shadow_closed_below(d0, hh, ww, level as int),
    ensures
        shadow_closed_below(d1, hh, ww, level as int),
{
    reveal(shadow_closed_below);
    lemma_visit_frame(d0, d1, hh, ww, (level + 1) as u32, qi, qj);
    assert forall|i1: int, j1: int, i2: int, j2: int|
        in_grid(hh, ww, i1, j1) && in_grid(hh, ww, i2, j2) && spec_adj(i1, j1, i2, j2)
            && #[trigger] pix(d1, ww, i1, j1) is Some && pix(d1, ww, i1, j1)->0 < level as int
        implies #[trigger] pix(d1, ww, i2, j2) is Some by {
        if i1 == qi && j1 == qj {
            assert(pix(d1, ww, i1, j1)->0 == level + 1);
        } else {
            assert(pix(d1, ww, i1, j1) == pix(d0, ww, i1, j1));
            assert(pix(d0, ww, i2, j2) is Some);
            if !(i2 == qi && j2 == qj) {
                assert(pix(d1, ww, i2, j2) == pix(d0, ww, i2, j2));
            }
        }
    }
}

proof fn lemma_visit_parent(
    d0: Seq<Option<u32>>,
    d1: Seq<Option<u32>>,
    hh: int,
    ww: int,
    level: u32,
    qi: int,
    qj: int,
    pi: int,
    pj: int,
)
    requires
        d0.len() == hh * ww,
        in_grid(hh, ww, qi, qj),
        in_grid(hh, ww, pi, pj),
        spec_adj(pi, pj, qi, qj),
        level < 0xFFFF_FFFFu32,
        d0[qi * ww + qj] is None,
        pix(d0, ww, pi, pj) == Some(level),
        d1 == d0.update(qi * ww + qj, Some((level + 1) as u32)),
        shadow_parent(d0, hh, ww),
    ensures
        shadow_parent(d1, hh, ww),
{
    reveal(shadow_parent);
    lemma_visit_frame(d0, d1, hh, ww, (level + 1) as u32, qi, qj);
    assert forall|i: int, j: int|
        in_grid(hh, ww, i, j) && #[trigger] pix(d1, ww, i, j) is Some && pix(d1, ww, i, j)->0 >= 1
        implies exists|i2: int, j2: int|
        in_grid(hh, ww, i2, j2) && spec_adj(i, j, i2, j2) && #[trigger] pix(d1, ww, i2, j2) == Some(
            (pix(d1, ww, i, j)->0 - 1) as u32,
        ) by {
        if i == qi && j == qj {
            // the queued pixel's parent is the frontier pixel
            assert(pix(d1, ww, pi, pj) == Some(level));
            assert(in_grid(hh, ww, pi, pj) && spec_adj(i, j, pi, pj) && pix(d1, ww, pi, pj)
                == Some((pix(d1, ww, i, j)->0 - 1) as u32));
        } else {
            assert(pix(d1, ww, i, j) == pix(d0, ww, i, j));
            let (i2, j2) = choose|i2: int, j2: int|
                in_grid(hh, ww, i2, j2) && spec_adj(i, j, i2, j2) && #[trigger] pix(d0, ww, i2, j2)
                    == Some((pix(d0, ww, i, j)->0 - 1) as u32);
            if i2 == qi && j2 == qj {
                assert(pix(d0, ww, i2, j2) is None);
                assert(false);
            }
            assert(pix(d1, ww, i2, j2) == Some((pix(d1, ww, i, j)->0 - 1) as u32));
        }
    }
}

/// Any Some value below the bound keeps the bound when it is raised.
proof fn lemma_at_most_weaken(d: Seq<Option<u32>>, h: int, w: int, b1: int, b2: int)
    requires
        shadow_at_most(d, h, w, b1),
        b1 <= b2,
    ensures
        shadow_at_most(d, h, w, b2),
{
    reveal(shadow_at_most);
}

/// A field whose reached pixels all sit at level zero satisfies the
/// step, parent and bounded-closure laws outright.
proof fn lemma_initial_props(d: Seq<Option<u32>>, h: int, w: int)
    requires
        shadow_at_most(d, h, w, 0),
    ensures
        shadow_step(d, h, w),
        shadow_parent(d, h, w),
        shadow_closed_below(d, h, w, 0),
{
    reveal(shadow_at_most);
    reveal(shadow_step);
    reveal(shadow_parent);
    reveal(shadow_closed_below);
}

/// Seeds the search: every diverging pixel is put at distance zero and
/// queued; everything else is unreached.
fn seed_shadow(dv: &Vec<bool>, height: usize, width: usize) -> (r: (
    Vec<Option<u32>>,
    Vec<(usize, usize)>,
))
    requires
        height >= 1,
        width >= 1,
        dv@.len() == height * width,
    ensures
        r.0@.len() == height * width,
        shadow_zero_iff(r.0@, dv@, height as int, width as int),
        shadow_at_most(r.0@, height as int, width as int, 0),
        forall|m: int|
            0 <= m < r.1@.len() ==> in_grid(
                height as int,
                width as int,
                #[trigger] r.1@[m].0 as int,
                r.1@[m].1 as int,
            ) && pix(r.0@, width as int, r.1@[m].0 as int, r.1@[m].1 as int) == Some(0u32),
        forall|i: int, j: int|
            in_grid(height as int, width as int, i, j) && #[trigger] pix(
                r.0@,
                width as int,
                i,
                j,
            ) is Some ==> r.1@.contains((i as usize, j as usize)),
        count_some(r.0@) == r.1@.len(),
{
    let n = dv.len();
    let mut dist: Vec<Option<u32>> = Vec::new();
    let mut t: usize = 0;
    while t < n
        invariant
            0 <= t <= n,
            dist@.len() == t,
            forall|p: int| 0 <= p < t ==> dist@[p] is None,
        decreases n - t,
    {
        dist.push(None);
        t = t + 1;
    }
    proof {
        lemma_count_none(dist@);
        assert forall|a: int, b: int|
            in_grid(height as int, width as int, a, b) implies #[trigger] pix(
            dist@,
            width as int,
            a,
            b,
        ) is None by {
            lemma_grid_idx(height as int, width as int, a, b);
        }
    }
    let mut frontier: Vec<(usize, usize)> = Vec::new();
    let ghost hh = height as int;
    let ghost ww = width as int;
    let mut i: usize = 0;
    while i < height
        invariant
            0 <= i <= height,
            height >= 1,
            width >= 1,
            dv@.len() == height * width,
            dist@.len() == height * width,
            forall|a: int, b: int|
                in_grid(height as int, width as int, a, b) && a < i ==> ((divpix(
                    dv@,
                    width as int,
                    a,
                    b,
                ) <==> #[trigger] pix(dist@, width as int, a, b) == Some(0u32)) && (pix(
                    dist@,
                    width as int,
                    a,
                    b,
                ) is Some ==> pix(dist@, width as int, a, b) == Some(0u32))),
            forall|a: int, b: int|
                in_grid(height as int, width as int, a, b) && a >= i ==> #[trigger] pix(
                    dist@,
                    width as int,
                    a,
                    b,
                ) is None,
            forall|m: int|
                0 <= m < frontier@.len() ==> in_grid(
                    height as int,
                    width as int,
                    #[trigger] frontier@[m].0 as int,
                    frontier@[m].1 as int,
                ) && pix(dist@, width as int, frontier@[m].0 as int, frontier@[m].1 as int)
                    == Some(0u32),
            forall|a: int, b: int|
                in_grid(height as int, width as int, a, b) && #[trigger] pix(
                    dist@,
                    width as int,
                    a,
                    b,
                ) is Some ==> frontier@.contains((a as usize, b as usize)),
            count_some(dist@) == frontier@.len(),
        decreases height - i,
    {
        let mut j: usize = 0;
        while j < width
            invariant
                0 <= i < height,
                0 <= j <= width,
                height >= 1,
                width >= 1,
                dv@.len() == height * width,
                dist@.len() == height * width,
                forall|a: int, b: int|
                    in_grid(height as int, width as int, a, b) && (a < i || (a == i && b < j))
                        ==> ((divpix(dv@, width as int, a, b) <==> #[trigger] pix(
                        dist@,
                        width as int,
                        a,
                        b,
                    ) == Some(0u32)) && (pix(dist@, width as int, a, b) is Some ==> pix(
                        dist@,
                        width as int,
                        a,
                        b,
                    ) == Some(0u32))),
                forall|a: int, b: int|
                    in_grid(height as int, width as int, a, b) && (a > i || (a == i && b >= j))
                        ==> #[trigger] pix(dist@, width as int, a, b) is None,
                forall|m: int|
                    0 <= m < frontier@.len() ==> in_grid(
                        height as int,
                        width as int,
                        #[trigger] frontier@[m].0 as int,
                        frontier@[m].1 as int,
                    ) && pix(dist@, width as int, frontier@[m].0 as int, frontier@[m].1 as int)
                        == Some(0u32),
                forall|a: int, b: int|
                    in_grid(height as int, width as int, a, b) && #[trigger] pix(
                        dist@,
                        width as int,
                        a,
                        b,
                    ) is Some ==> frontier@.contains((a as usize, b as usize)),
                count_some(dist@) == frontier@.len(),
            decreases width - j,
        {
            proof {
                lemma_grid_idx(height as int, width as int, i as int, j as int);
            }
            let nn = dv.len();
            let idx = i * width + j;
            if dv[idx] {
                let ghost d0 = dist@;
                let ghost f0 = frontier@;
                dist.set(idx, Some(0));
                frontier.push((i, j));
                proof {
                    let hh2 = height as int;
                    let ww2 = width as int;
                    lemma_grid_idx(hh2, ww2, i as int, j as int);
                    assert(pix(d0, ww2, i as int, j as int) is None);
                    lemma_count_some_update(d0, i as int * ww2 + j as int, 0u32);
                    lemma_visit_frame(d0, dist@, hh2, ww2, 0u32, i as int, j as int);
                    assert forall|a: int, b: int|
                        in_grid(hh2, ww2, a, b) && #[trigger] pix(dist@, ww2, a, b) is Some
                        implies frontier@.contains((a as usize, b as usize)) by {
                        if a == i as int && b == j as int {
                            assert(frontier@[frontier@.len() - 1] == (i, j));
                            assert((a as usize, b as usize) == (i, j));
                        } else {
                            assert(pix(dist@, ww2, a, b) == pix(d0, ww2, a, b));
                            assert(f0.contains((a as usize, b as usize)));
                            let m = choose|m: int|
                                0 <= m < f0.len() && f0[m] == (a as usize, b as usize);
                            assert(frontier@[m] == (a as usize, b as usize));
                        }
                    }
                }
            }
            j = j + 1;
        }
        i = i + 1;
    }
    proof {
        reveal(shadow_zero_iff);
        reveal(shadow_at_most);
    }
    (dist, frontier)
}

/// An all-`None` field has no reached entries.
proof fn lemma_count_none(s: Seq<Option<u32>>)
    requires
        forall|p: int| 0 <= p < s.len() ==> s[p] is None,
    ensures
        count_some(s) == 0,
    decreases s.len(),
{
    if s.len() > 0 {
        lemma_count_none(s.drop_first());
    }
}


/// Neighbors of pixel `(i, j)` that lie in the grid are all reached.
#[verifier::opaque]
pub open spec fn neighbors_done(d: Seq<Option<u32>>, h: int, w: int, i: int, j: int) -> bool {
    forall|i2: int, j2: int|
        in_grid(h, w, i2, j2) && spec_adj(i, j, i2, j2) ==> #[trigger] pix(d, w, i2, j2) is Some
}

/// Reached neighbors stay reached when reached pixels keep their values.
proof fn lemma_done_keep(
    d0: Seq<Option<u32>>,
    d1: Seq<Option<u32>>,
    h: int,
    w: int,
    i: int,
    j: int,
)
    requires
        some_preserved(d0, d1, h, w),
        neighbors_done(d0, h, w, i, j),
    ensures
        neighbors_done(d1, h, w, i, j),
{
    reveal(neighbors_done);
    assert forall|i2: int, j2: int|
        in_grid(h, w, i2, j2) && spec_adj(i, j, i2, j2) implies #[trigger] pix(
        d1,
        w,
        i2,
        j2,
    ) is Some by {
        assert(pix(d0, w, i2, j2) is Some);
    }
}

/// One `visit` keeps the characterization of the next frontier: its
/// members sit exactly one level up, and every pixel one level up is a
/// member.
proof fn lemma_next_update(
    d0: Seq<Option<u32>>,
    d1: Seq<Option<u32>>,
    n0: Seq<(usize, usize)>,
    n1: Seq<(usize, usize)>,
    h: int,
    w: int,
    level: u32,
    qi: int,
    qj: int,
)
    requires
        d0.len() == h * w,
        in_grid(h, w, qi, qj),
        qi <= usize::MAX,
        qj <= usize::MAX,
        level < 0xFFFF_FFFFu32,
        0 <= qi * w + qj < d0.len(),
        (if d0[qi * w + qj] is None {
            d1 == d0.update(qi * w + qj, Some((level + 1) as u32)) && n1 == n0.push(
                (qi as usize, qj as usize),
            )
        } else {
            d1 == d0 && n1 == n0
        }),
        forall|m: int|
            0 <= m < n0.len() ==> in_grid(h, w, #[trigger] n0[m].0 as int, n0[m].1 as int) && pix(
                d0,
                w,
                n0[m].0 as int,
                n0[m].1 as int,
            ) == Some((level + 1) as u32),
        forall|a: int, b: int|
            in_grid(h, w, a, b) && #[trigger] pix(d0, w, a, b) == Some((level + 1) as u32)
                ==> n0.contains((a as usize, b as usize)),
    ensures
        forall|m: int|
            0 <= m < n1.len() ==> in_grid(h, w, #[trigger] n1[m].0 as int, n1[m].1 as int) && pix(
                d1,
                w,
                n1[m].0 as int,
                n1[m].1 as int,
            ) == Some((level + 1) as u32),
        forall|a: int, b: int|
            in_grid(h, w, a, b) && #[trigger] pix(d1, w, a, b) == Some((level + 1) as u32)
                ==> n1.contains((a as usize, b as usize)),
{
    if d0[qi * w + qj] is None {
        lemma_visit_frame(d0, d1, h, w, (level + 1) as u32, qi, qj);
        assert forall|m: int|
            0 <= m < n1.len() implies in_grid(h, w, #[trigger] n1[m].0 as int, n1[m].1 as int)
            && pix(d1, w, n1[m].0 as int, n1[m].1 as int) == Some((level + 1) as u32) by {
            if m < n0.len() {
                assert(n1[m] == n0[m]);
                if !(n0[m].0 as int == qi && n0[m].1 as int == qj) {
                    assert(pix(d1, w, n0[m].0 as int, n0[m].1 as int) == pix(
                        d0,
                        w,
                        n0[m].0 as int,
                        n0[m].1 as int,
                    ));
                }
            } else {
                assert(n1[m] == (qi as usize, qj as usize));
            }
        }
        assert forall|a: int, b: int|
            in_grid(h, w, a, b) && #[trigger] pix(d1, w, a, b) == Some((level + 1) as u32)
            implies n1.contains((a as usize, b as usize)) by {
            if a == qi && b == qj {
                assert(n1[n1.len() - 1] == (qi as usize, qj as usize));
            } else {
                assert(pix(d1, w, a, b) == pix(d0, w, a, b));
                assert(n0.contains((a as usize, b as usize)));
                let m = choose|m: int| 0 <= m < n0.len() && n0[m] == (a as usize, b as usize);
                assert(n1[m] == (a as usize, b as usize));
            }
        }
    }
}

/// A pixel reached by one `visit` carries the next level.
proof fn lemma_new_pixels(
    d0: Seq<Option<u32>>,
    d1: Seq<Option<u32>>,
    h: int,
    w: int,
    level: u32,
    qi: int,
    qj: int,
)
    requires
        d0.len() == h * w,
        in_grid(h, w, qi, qj),
        qi <= usize::MAX,
        qj <= usize::MAX,
        level < 0xFFFF_FFFFu32,
        0 <= qi * w + qj < d0.len(),
        (if d0[qi * w + qj] is None {
            d1 == d0.update(qi * w + qj, Some((level + 1) as u32))
        } else {
            d1 == d0
        }),
    ensures
        forall|a: int, b: int|
            in_grid(h, w, a, b) && #[trigger] pix(d0, w, a, b) is None && #[trigger] pix(
                d1,
                w,
                a,
                b,
            ) is Some ==> pix(d1, w, a, b) == Some((level + 1) as u32),
{
    if d0[qi * w + qj] is None {
        lemma_visit_frame(d0, d1, h, w, (level + 1) as u32, qi, qj);
        assert forall|a: int, b: int|
            in_grid(h, w, a, b) && #[trigger] pix(d0, w, a, b) is None && #[trigger] pix(
                d1,
                w,
                a,
                b,
            ) is Some implies pix(d1, w, a, b) == Some((level + 1) as u32) by {
            if !(a == qi && b == qj) {
                assert(pix(d1, w, a, b) == pix(d0, w, a, b));
            }
        }
    }
}

/// Expands one frontier pixel into all of its in-grid neighbors.
#[verifier::rlimit(100)]
#[verifier::spinoff_prover]
fn expand(
    dist: &mut Vec<Option<u32>>,
    next: &mut Vec<(usize, usize)>,
    dv: &Vec<bool>,
    h: usize,
    w: usize,
    level: u32,
    pi: usize,
    pj: usize,
)
    requires
        old(dist)@.len() == h * w,
        dv@.len() == h * w,
        level < 0xFFFF_FFFFu32,
        in_grid(h as int, w as int, pi as int, pj as int),
        pix(old(dist)@, w as int, pi as int, pj as int) == Some(level),
        shadow_zero_iff(old(dist)@, dv@, h as int, w as int),
        shadow_at_most(old(dist)@, h as int, w as int, level + 1),
        shadow_step(old(dist)@, h as int, w as int),
        shadow_closed_below(old(dist)@, h as int, w as int, level as int),
        shadow_parent(old(dist)@, h as int, w as int),
        forall|m: int|
            0 <= m < old(next)@.len() ==> in_grid(
                h as int,
                w as int,
                #[trigger] old(next)@[m].0 as int,
                old(next)@[m].1 as int,
            ) && pix(old(dist)@, w as int, old(next)@[m].0 as int, old(next)@[m].1 as int)
                == Some((level + 1) as u32),
        forall|a: int, b: int|
            in_grid(h as int, w as int, a, b) && #[trigger] pix(old(dist)@, w as int, a, b)
                == Some((level + 1) as u32) ==> old(next)@.contains((a as usize, b as usize)),
    ensures
        final(dist)@.len() == h * w,
        some_preserved(old(dist)@, final(dist)@, h as int, w as int),
        shadow_zero_iff(final(dist)@, dv@, h as int, w as int),
        shadow_at_most(final(dist)@, h as int, w as int, level + 1),
        shadow_step(final(dist)@, h as int, w as int),
        shadow_closed_below(final(dist)@, h as int, w as int, level as int),
        shadow_parent(final(dist)@, h as int, w as int),
        forall|m: int|
            0 <= m < final(next)@.len() ==> in_grid(
                h as int,
                w as int,
                #[trigger] final(next)@[m].0 as int,
                final(next)@[m].1 as int,
            ) && pix(final(dist)@, w as int, final(next)@[m].0 as int, final(next)@[m].1 as int)
                == Some((level + 1) as u32),
        forall|a: int, b: int|
            in_grid(h as int, w as int, a, b) && #[trigger] pix(final(dist)@, w as int, a, b)
                == Some((level + 1) as u32) ==> final(next)@.contains((a as usize, b as usize)),
        neighbors_done(final(dist)@, h as int, w as int, pi as int, pj as int),
        count_some(final(dist)@) == count_some(old(dist)@) + final(next)@.len() - old(next)@.len(),
        final(next)@.len() >= old(next)@.len(),
        forall|a: int, b: int|
            in_grid(h as int, w as int, a, b) && #[trigger] pix(old(dist)@, w as int, a, b) is None
                && #[trigger] pix(final(dist)@, w as int, a, b) is Some ==> pix(
                final(dist)@,
                w as int,
                a,
                b,
            ) == Some((level + 1) as u32),
{
    let ghost hh = h as int;
    let ghost ww = w as int;
    let ghost g0 = dist@;
    let ghost n0 = next@;
    if pi > 0 {
        visit(dist, next, dv, h, w, level, pi, pj, pi - 1, pj);
        proof {
            lemma_grid_idx(hh, ww, pi as int - 1, pj as int);
            lemma_next_update(g0, dist@, n0, next@, hh, ww, level, pi as int - 1, pj as int);
            lemma_new_pixels(g0, dist@, hh, ww, level, pi as int - 1, pj as int);
        }
    }
    let ghost g1 = dist@;
    let ghost n1 = next@;
    if pj > 0 {
        visit(dist, next, dv, h, w, level, pi, pj, pi, pj - 1);
        proof {
            lemma_grid_idx(hh, ww, pi as int, pj as int - 1);
            lemma_next_update(g1, dist@, n1, next@, hh, ww, level, pi as int, pj as int - 1);
            lemma_new_pixels(g1, dist@, hh, ww, level, pi as int, pj as int - 1);
        }
    }
    let ghost g2 = dist@;
    let ghost n2 = next@;
    if pi + 1 < h {
        visit(dist, next, dv, h, w, level, pi, pj, pi + 1, pj);
        proof {
            lemma_grid_idx(hh, ww, pi as int + 1, pj as int);
            lemma_next_update(g2, dist@, n2, next@, hh, ww, level, pi as int + 1, pj as int);
            lemma_new_pixels(g2, dist@, hh, ww, level, pi as int + 1, pj as int);
        }
    }
    let ghost g3 = dist@;
    let ghost n3 = next@;
    if pj + 1 < w {
        visit(dist, next, dv, h, w, level, pi, pj, pi, pj + 1);
        proof {
            lemma_grid_idx(hh, ww, pi as int, pj as int + 1);
            lemma_next_update(g3, dist@, n3, next@, hh, ww, level, pi as int, pj as int + 1);
            lemma_new_pixels(g3, dist@, hh, ww, level, pi as int, pj as int + 1);
        }
    }
    proof {
        let g4 = dist@;
        assert(some_preserved(g0, g4, hh, ww)) by {
            assert forall|i: int, j: int|
                in_grid(hh, ww, i, j) && #[trigger] pix(g0, ww, i, j) is Some implies pix(
                g4,
                ww,
                i,
                j,
            ) == pix(g0, ww, i, j) by {
                assert(pix(g1, ww, i, j) == pix(g0, ww, i, j));
                assert(pix(g2, ww, i, j) == pix(g1, ww, i, j));
                assert(pix(g3, ww, i, j) == pix(g2, ww, i, j));
                assert(pix(g4, ww, i, j) == pix(g3, ww, i, j));
            }
        }
        reveal(neighbors_done);
        assert forall|i2: int, j2: int|
            in_grid(hh, ww, i2, j2) && spec_adj(pi as int, pj as int, i2, j2) implies #[trigger] pix(
            g4,
            ww,
            i2,
            j2,
        ) is Some by {
            if i2 == pi as int - 1 && j2 == pj as int {
                assert(pix(g1, ww, i2, j2) is Some);
                assert(pix(g2, ww, i2, j2) == pix(g1, ww, i2, j2));
                assert(pix(g3, ww, i2, j2) == pix(g2, ww, i2, j2));
                assert(pix(g4, ww, i2, j2) == pix(g3, ww, i2, j2));
            } else if i2 == pi as int && j2 == pj as int - 1 {
                assert(pix(g2, ww, i2, j2) is Some);
                assert(pix(g3, ww, i2, j2) == pix(g2, ww, i2, j2));
                assert(pix(g4, ww, i2, j2) == pix(g3, ww, i2, j2));
            } else if i2 == pi as int + 1 && j2 == pj as int {
                assert(pix(g3, ww, i2, j2) is Some);
                assert(pix(g4, ww, i2, j2) == pix(g3, ww, i2, j2));
            } else {
                assert(i2 == pi as int && j2 == pj as int + 1);
                assert(pix(g4, ww, i2, j2) is Some);
            }
        }
        assert forall|a: int, b: int|
            in_grid(hh, ww, a, b) && #[trigger] pix(g0, ww, a, b) is None && #[trigger] pix(
                g4,
                ww,
                a,
                b,
            ) is Some implies pix(g4, ww, a, b) == Some((level + 1) as u32) by {
            if pix(g1, ww, a, b) is Some {
                assert(pix(g1, ww, a, b) == Some((level + 1) as u32));
                assert(pix(g2, ww, a, b) == pix(g1, ww, a, b));
                assert(pix(g3, ww, a, b) == pix(g2, ww, a, b));
                assert(pix(g4, ww, a, b) == pix(g3, ww, a, b));
            } else if pix(g2, ww, a, b) is Some {
                assert(pix(g2, ww, a, b) == Some((level + 1) as u32));
                assert(pix(g3, ww, a, b) == pix(g2, ww, a, b));
                assert(pix(g4, ww, a, b) == pix(g3, ww, a, b));
            } else if pix(g3, ww, a, b) is Some {
                assert(pix(g3, ww, a, b) == Some((level + 1) as u32));
                assert(pix(g4, ww, a, b) == pix(g3, ww, a, b));
            } else {
                assert(pix(g4, ww, a, b) == Some((level + 1) as u32));
            }
        }
    }
}


/// Builds the shadow field of a grid of `height` rows and `width`
/// columns from the per-pixel divergence flags, in row-major order.
///
/// The result maps every pixel to its search level: 0 exactly at the
/// diverging pixels, each further level one orthogonal step out.  The
/// returned field obeys the local laws stated by the `shadow_*`
/// predicates, which pin it to the minimum path distance.
#[verifier::rlimit(100)]
#[verifier::spinoff_prover]
pub fn get_shadow(dv: &Vec<bool>, height: usize, width: usize) -> (dist: Vec<Option<u32>>)
    requires
        height >= 1,
        width >= 1,
        dv@.len() == height * width,
        height * width <= 0xFFFF_FFFF,
    ensures
        dist@.len() == height * width,
        shadow_zero_iff(dist@, dv@, height as int, width as int),
        shadow_step(dist@, height as int, width as int),
        shadow_closed(dist@, height as int, width as int),
        shadow_parent(dist@, height as int, width as int),
{
    let seeded = seed_shadow(dv, height, width);
    let mut dist = seeded.0;
    let mut frontier = seeded.1;
    proof {
        lemma_initial_props(dist@, height as int, width as int);
        lemma_at_most_weaken(dist@, height as int, width as int, 0, 0);
        lemma_count_some_le_len(dist@);
        assert(frontier@.len() <= count_some(dist@));
    }
    let mut level: u32 = 0;
    while frontier.len() > 0
        invariant
            height >= 1,
            width >= 1,
            dv@.len() == height * width,
            height * width <= 0xFFFF_FFFF,
            dist@.len() == height * width,
            shadow_zero_iff(dist@, dv@, height as int, width as int),
            shadow_step(dist@, height as int, width as int),
            shadow_closed_below(dist@, height as int, width as int, level as int),
            shadow_parent(dist@, height as int, width as int),
            shadow_at_most(dist@, height as int, width as int, level as int),
            forall|m: int|
                0 <= m < frontier@.len() ==> in_grid(
                    height as int,
                    width as int,
                    #[trigger] frontier@[m].0 as int,
                    frontier@[m].1 as int,
                ) && pix(dist@, width as int, frontier@[m].0 as int, frontier@[m].1 as int)
                    == Some(level),
            forall|a: int, b: int|
                in_grid(height as int, width as int, a, b) && #[trigger] pix(
                    dist@,
                    width as int,
                    a,
                    b,
                ) == Some(level) ==> frontier@.contains((a as usize, b as usize)),
            level as int + frontier@.len() <= count_some(dist@),
            count_some(dist@) <= height * width,
        decreases height * width - level,
    {
        let ghost cs0 = count_some(dist@);
        let ghost fsnap = frontier@;
        proof {
            lemma_at_most_weaken(
                dist@,
                height as int,
                width as int,
                level as int,
                level as int + 1,
            );
        }
        proof {
            assert(level as int + 1 <= height * width);
            assert(forall|a: int, b: int|
                in_grid(height as int, width as int, a, b) ==> !(#[trigger] pix(
                    dist@,
                    width as int,
                    a,
                    b,
                ) == Some((level + 1) as u32))) by {
                reveal(shadow_at_most);
            }
        }
        let mut next: Vec<(usize, usize)> = Vec::new();
        let mut k: usize = 0;
        while k < frontier.len()
            invariant
                0 <= k <= frontier@.len(),
                height >= 1,
                width >= 1,
                dv@.len() == height * width,
                height * width <= 0xFFFF_FFFF,
                dist@.len() == height * width,
                level as int + frontier@.len() <= cs0,
                cs0 <= height * width,
                count_some(dist@) == cs0 + next@.len(),
                frontier@ == fsnap,
                shadow_zero_iff(dist@, dv@, height as int, width as int),
                shadow_step(dist@, height as int, width as int),
                shadow_closed_below(dist@, height as int, width as int, level as int),
                shadow_parent(dist@, height as int, width as int),
                shadow_at_most(dist@, height as int, width as int, level as int + 1),
                forall|m: int|
                    0 <= m < frontier@.len() ==> in_grid(
                        height as int,
                        width as int,
                        #[trigger] frontier@[m].0 as int,
                        frontier@[m].1 as int,
                    ) && pix(dist@, width as int, frontier@[m].0 as int, frontier@[m].1 as int)
                        == Some(level),
                forall|a: int, b: int|
                    in_grid(height as int, width as int, a, b) && #[trigger] pix(
                        dist@,
                        width as int,
                        a,
                        b,
                    ) == Some(level) ==> frontier@.contains((a as usize, b as usize)),
                forall|m: int|
                    0 <= m < next@.len() ==> in_grid(
                        height as int,
                        width as int,
                        #[trigger] next@[m].0 as int,
                        next@[m].1 as int,
                    ) && pix(dist@, width as int, next@[m].0 as int, next@[m].1 as int) == Some(
                        (level + 1) as u32,
                    ),
                forall|a: int, b: int|
                    in_grid(height as int, width as int, a, b) && #[trigger] pix(
                        dist@,
                        width as int,
                        a,
                        b,
                    ) == Some((level + 1) as u32) ==> next@.contains((a as usize, b as usize)),
                forall|m: int|
                    0 <= m < k ==> neighbors_done(
                        dist@,
                        height as int,
                        width as int,
                        #[trigger] frontier@[m].0 as int,
                        frontier@[m].1 as int,
                    ),
            decreases frontier@.len() - k,
        {
            let pr = frontier[k];
            let pi = pr.0;
            let pj = pr.1;
            let ghost dpre = dist@;
            expand(&mut dist, &mut next, dv, height, width, level, pi, pj);
            proof {
                assert forall|m: int| 0 <= m < k + 1 implies neighbors_done(
                    dist@,
                    height as int,
                    width as int,
                    #[trigger] frontier@[m].0 as int,
                    frontier@[m].1 as int,
                ) by {
                    if m < k {
                        lemma_done_keep(
                            dpre,
                            dist@,
                            height as int,
                            width as int,
                            frontier@[m].0 as int,
                            frontier@[m].1 as int,
                        );
                    }
                }
                // no pixel joins the current level
                assert forall|a: int, b: int|
                    in_grid(height as int, width as int, a, b) && #[trigger] pix(
                        dist@,
                        width as int,
                        a,
                        b,
                    ) == Some(level) implies frontier@.contains((a as usize, b as usize)) by {
                    if pix(dpre, width as int, a, b) is Some {
                        assert(pix(dist@, width as int, a, b) == pix(dpre, width as int, a, b));
                    } else {
                        assert(pix(dist@, width as int, a, b) == Some((level + 1) as u32));
                    }
                }
                // frontier pixels keep their level
                assert forall|m: int| 0 <= m < frontier@.len() implies in_grid(
                    height as int,
                    width as int,
                    #[trigger] frontier@[m].0 as int,
                    frontier@[m].1 as int,
                ) && pix(dist@, width as int, frontier@[m].0 as int, frontier@[m].1 as int)
                    == Some(level) by {
                    assert(pix(dpre, width as int, frontier@[m].0 as int, frontier@[m].1 as int)
                        == Some(level));
                }
            }
            k = k + 1;
        }
        proof {
            lemma_count_some_le_len(dist@);
        }
        frontier = next;
        level = level + 1;
        proof {
            // every pixel of the finished level has all neighbors reached,
            // so the closure bound moves up one level
            assert(shadow_closed_below(dist@, height as int, width as int, level as int)) by {
                reveal(shadow_closed_below);
                reveal(neighbors_done);
                assert forall|i1: int, j1: int, i2: int, j2: int|
                    in_grid(height as int, width as int, i1, j1) && in_grid(
                        height as int,
                        width as int,
                        i2,
                        j2,
                    ) && spec_adj(i1, j1, i2, j2) && #[trigger] pix(
                        dist@,
                        width as int,
                        i1,
                        j1,
                    ) is Some && pix(dist@, width as int, i1, j1)->0 < level as int
                    implies #[trigger] pix(dist@, width as int, i2, j2) is Some by {
                    if pix(dist@, width as int, i1, j1)->0 < level as int - 1 {
                    } else {
                        // the pixel sits on the just-finished level
                        assert(pix(dist@, width as int, i1, j1) == Some((level - 1) as u32));
                        assert(fsnap.contains((i1 as usize, j1 as usize)));
                        let m = choose|m: int|
                            0 <= m < fsnap.len() && fsnap[m] == (i1 as usize, j1 as usize);
                        assert(neighbors_done(
                            dist@,
                            height as int,
                            width as int,
                            fsnap[m].0 as int,
                            fsnap[m].1 as int,
                        ));
                    }
                }
            }
        }
    }
    proof {
        // an empty frontier means nothing sits at the top level, so the
        // field is closed outright
        assert(shadow_closed(dist@, height as int, width as int)) by {
            reveal(shadow_closed);
            reveal(shadow_closed_below);
            reveal(shadow_at_most);
            assert forall|i1: int, j1: int, i2: int, j2: int|
                in_grid(height as int, width as int, i1, j1) && in_grid(
                    height as int,
                    width as int,
                    i2,
                    j2,
                ) && spec_adj(i1, j1, i2, j2) && #[trigger] pix(
                    dist@,
                    width as int,
                    i1,
                    j1,
                ) is Some implies #[trigger] pix(dist@, width as int, i2, j2) is Some by {
                if pix(dist@, width as int, i1, j1)->0 >= level as int {
                    assert(pix(dist@, width as int, i1, j1) == Some(level));
                    assert(frontier@.contains((i1 as usize, j1 as usize)));
                    assert(false);
                }
            }
        }
    }
    dist
}


/// The Manhattan distance between two pixels.
pub open spec fn manhattan(i1: int, j1: int, i2: int, j2: int) -> int {
    (if i1 >= i2 {
        i1 - i2
    } else {
        i2 - i1
    }) + (if j1 >= j2 {
        j1 - j2
    } else {
        j2 - j1
    })
}

/// Under the local laws, every pixel is reached and lies within the
/// Manhattan distance of any diverging pixel.
proof fn lemma_shadow_upper(
    d: Seq<Option<u32>>,
    dv: Seq<bool>,
    h: int,
    w: int,
    pi: int,
    pj: int,
    qi: int,
    qj: int,
)
    requires
        d.len() == h * w,
        shadow_zero_iff(d, dv, h, w),
        shadow_step(d, h, w),
        shadow_closed(d, h, w),
        in_grid(h, w, pi, pj),
        in_grid(h, w, qi, qj),
        divpix(dv, w, qi, qj),
    ensures
        pix(d, w, pi, pj) is Some,
        pix(d, w, pi, pj)->0 <= manhattan(pi, pj, qi, qj),
    decreases manhattan(pi, pj, qi, qj),
{
    reveal(shadow_zero_iff);
    reveal(shadow_step);
    reveal(shadow_closed);
    if pi == qi && pj == qj {
        assert(pix(d, w, pi, pj) == Some(0u32));
    } else {
        // one step from `p` toward `q`
        let (ni, nj) = if pi < qi {
            (pi + 1, pj)
        } else if pi > qi {
            (pi - 1, pj)
        } else if pj < qj {
            (pi, pj + 1)
        } else {
            (pi, pj - 1)
        };
        lemma_shadow_upper(d, dv, h, w, ni, nj, qi, qj);
        assert(spec_adj(ni, nj, pi, pj));
        assert(pix(d, w, pi, pj) is Some);
        assert(pix(d, w, pi, pj)->0 <= pix(d, w, ni, nj)->0 + 1);
    }
}

/// Under the local laws, a pixel at level `k` has a diverging pixel
/// within Manhattan distance `k`.
proof fn lemma_shadow_lower(d: Seq<Option<u32>>, dv: Seq<bool>, h: int, w: int, pi: int, pj: int)
    requires
        d.len() == h * w,
        shadow_zero_iff(d, dv, h, w),
        shadow_parent(d, h, w),
        in_grid(h, w, pi, pj),
        pix(d, w, pi, pj) is Some,
    ensures
        exists|qi: int, qj: int|
            in_grid(h, w, qi, qj) && #[trigger] divpix(dv, w, qi, qj) && manhattan(pi, pj, qi, qj)
                <= pix(d, w, pi, pj)->0,
    decreases pix(d, w, pi, pj)->0,
{
    reveal(shadow_zero_iff);
    reveal(shadow_parent);
    let k = pix(d, w, pi, pj)->0;
    if k == 0 {
        assert(divpix(dv, w, pi, pj));
        assert(in_grid(h, w, pi, pj) && divpix(dv, w, pi, pj) && manhattan(pi, pj, pi, pj)
            <= k);
    } else {
        let (i2, j2) = choose|i2: int, j2: int|
            in_grid(h, w, i2, j2) && spec_adj(pi, pj, i2, j2) && #[trigger] pix(d, w, i2, j2)
                == Some((k - 1) as u32);
        lemma_shadow_lower(d, dv, h, w, i2, j2);
        let (qi, qj) = choose|qi: int, qj: int|
            in_grid(h, w, qi, qj) && #[trigger] divpix(dv, w, qi, qj) && manhattan(i2, j2, qi, qj)
                <= pix(d, w, i2, j2)->0;
        assert(manhattan(pi, pj, qi, qj) <= manhattan(i2, j2, qi, qj) + 1);
        assert(in_grid(h, w, qi, qj) && divpix(dv, w, qi, qj) && manhattan(pi, pj, qi, qj) <= k);
    }
}

/// Law: a field obeying the four local laws is exactly the minimum
/// Manhattan distance to the diverging set.  Every pixel lies within
/// the distance of each diverging pixel, and no closer diverging pixel
/// exists than the pixel's own level.
pub proof fn law_shadow_min_distance(d: Seq<Option<u32>>, dv: Seq<bool>, h: int, w: int)
    requires
        d.len() == h * w,
        shadow_zero_iff(d, dv, h, w),
        shadow_step(d, h, w),
        shadow_closed(d, h, w),
        shadow_parent(d, h, w),
    ensures
        forall|pi: int, pj: int, qi: int, qj: int|
            #![trigger pix(d, w, pi, pj), divpix(dv, w, qi, qj)]
            in_grid(h, w, pi, pj) && in_grid(h, w, qi, qj) && divpix(dv, w, qi, qj) ==> pix(
                d,
                w,
                pi,
                pj,
            ) is Some && pix(d, w, pi, pj)->0 <= manhattan(pi, pj, qi, qj),
        forall|pi: int, pj: int|
            in_grid(h, w, pi, pj) && #[trigger] pix(d, w, pi, pj) is Some ==> exists|
                qi: int,
                qj: int,
            |
                in_grid(h, w, qi, qj) && #[trigger] divpix(dv, w, qi, qj) && manhattan(
                    pi,
                    pj,
                    qi,
                    qj,
                ) <= pix(d, w, pi, pj)->0,
{
    assert forall|pi: int, pj: int, qi: int, qj: int|
        in_grid(h, w, pi, pj) && in_grid(h, w, qi, qj) && #[trigger] divpix(dv, w, qi, qj)
        implies #[trigger] pix(d, w, pi, pj) is Some && pix(d, w, pi, pj)->0 <= manhattan(
        pi,
        pj,
        qi,
        qj,
    ) by {
        lemma_shadow_upper(d, dv, h, w, pi, pj, qi, qj);
    }
    assert forall|pi: int, pj: int|
        in_grid(h, w, pi, pj) && #[trigger] pix(d, w, pi, pj) is Some implies exists|
        qi: int,
        qj: int,
    |
        in_grid(h, w, qi, qj) && #[trigger] divpix(dv, w, qi, qj) && manhattan(pi, pj, qi, qj)
            <= pix(d, w, pi, pj)->0 by {
        lemma_shadow_lower(d, dv, h, w, pi, pj);
    }
}

/// A pixel's flat index lies inside the grid's flat range.
proof fn lemma_grid_idx(h: int, w: int, i: int, j: int)
    by (nonlinear_arith)
    requires
        in_grid(h, w, i, j),
    ensures
        0 <= i * w + j < h * w,
{
}

/// Flat indices are distinct for distinct pixels.
proof fn lemma_grid_inj(w: int, i1: int, j1: int, i2: int, j2: int)
    by (nonlinear_arith)
    requires
        0 <= j1 < w,
        0 <= j2 < w,
        0 <= i1,
        0 <= i2,
        i1 * w + j1 == i2 * w + j2,
    ensures
        i1 == i2 && j1 == j2,
{
}

} // verus!
