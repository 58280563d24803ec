//! The root registry.
//!
//! Convergence endpoints sampled across the viewport are reduced to an
//! ordered, deduplicated list of the distinct attractors.  Each row's
//! endpoints are deduplicated on their own, the rows are flattened, and
//! the whole list is deduplicated twice: once in the lexicographic order
//! (real part first) and once in the inverse order (imaginary part
//! first), because a single pass can miss neighbors that project
//! differently on each axis.  The final list is sorted by the
//! lexicographic order, which defines the palette index of each root.

use vstd::prelude::*;
use vstd::relations::{sorted_by, total_ordering};
use vstd::seq_lib::lemma_sorted_unique;

use crate::point::Point;

verus! {

/// The registry's order: primary key the real part.
pub open spec fn le_points() -> spec_fn(Point, Point) -> bool {
    |a: Point, b: Point| a.spec_le(b)
}

/// The inverse order: primary key the imaginary part.
pub open spec fn le_points_rev() -> spec_fn(Point, Point) -> bool {
    |a: Point, b: Point| a.spec_le_rev(b)
}

/// Both orders are total.
pub proof fn lemma_orders_total()
    ensures
        total_ordering(le_points()),
        total_ordering(le_points_rev()),
{
}

/// One deduplication pass: a point within `ROOT_PRECISION` of the point
/// seen just before it is dropped, and every point becomes the new
/// reference, kept or not.
pub open spec fn spec_dedup(s: Seq<Point>, last: Option<Point>) -> Seq<Point>
    decreases s.len(),
{
    if s.len() == 0 {
        Seq::empty()
    } else {
        let keep = match last {
            Option::None => true,
            Option::Some(p) => !s[0].spec_near(p),
        };
        let rest = spec_dedup(s.drop_first(), Some(s[0]));
        if keep {
            seq![s[0]] + rest
        } else {
            rest
        }
    }
}

/// Sorting followed by one pass in each order.
pub open spec fn spec_uniq_vec(s: Seq<Point>) -> Seq<Point> {
    let pass1 = spec_dedup(s.sort_by(le_points()), None);
    spec_dedup(pass1.sort_by(le_points_rev()), None)
}

/// Per-row deduplicated endpoints, flattened in row order.
pub open spec fn spec_rows_concat(rows: Seq<Seq<Point>>) -> Seq<Point>
    decreases rows.len(),
{
    if rows.len() == 0 {
        Seq::empty()
    } else {
        spec_uniq_vec(rows[0]) + spec_rows_concat(rows.drop_first())
    }
}

/// The registry of a sampled viewport: per-row deduplication, global
/// deduplication, final sort.
pub open spec fn spec_find_roots(rows: Seq<Seq<Point>>) -> Seq<Point> {
    spec_uniq_vec(spec_rows_concat(rows)).sort_by(le_points())
}

/// The mathematical rows of a vector of row vectors.
pub open spec fn rows_view(rows: Vec<Vec<Point>>) -> Seq<Seq<Point>> {
    rows@.map_values(|rv: Vec<Point>| rv@)
}

/// Sorts points by the lexicographic order (real part first).
pub fn sort_float(v: Vec<Point>) -> (r: Vec<Point>)
    ensures
        r@ == v@.sort_by(le_points()),
{
    sort_points(v, false)
}

/// Sorts points by the inverse lexicographic order (imaginary part
/// first).
pub fn sort_float_rev(v: Vec<Point>) -> (r: Vec<Point>)
    ensures
        r@ == v@.sort_by(le_points_rev()),
{
    sort_points(v, true)
}

/// Insertion sort under either order.
fn sort_points(v: Vec<Point>, rev: bool) -> (r: Vec<Point>)
    ensures
        r@ == v@.sort_by(if rev {
            le_points_rev()
        } else {
            le_points()
        }),
{
    let ghost leq = if rev {
        le_points_rev()
    } else {
        le_points()
    };
    let mut out: Vec<Point> = Vec::new();
    let mut idx: usize = 0;
    proof {
        assert(v@.subrange(0, 0) =~= out@);
    }
    while idx < v.len()
        invariant
            0 <= idx <= v@.len(),
            sorted_by(out@, leq),
            out@.to_multiset() == v@.subrange(0, idx as int).to_multiset(),
            leq == (if rev {
                le_points_rev()
            } else {
                le_points()
            }),
        decreases v@.len() - idx,
    {
        insert_sorted(&mut out, v[idx], rev);
        proof {
            broadcast use vstd::seq_lib::group_to_multiset_ensures;

            assert(v@.subrange(0, idx + 1) =~= v@.subrange(0, idx as int).push(v@[idx as int]));
        }
        idx = idx + 1;
    }
    proof {
        lemma_orders_total();
        assert(v@.subrange(0, v@.len() as int) =~= v@);
        v@.lemma_sort_by_ensures(leq);
        lemma_sorted_unique(out@, v@.sort_by(leq), leq);
    }
    out
}

/// Inserts one point into a sorted vector, keeping it sorted.
fn insert_sorted(out: &mut Vec<Point>, x: Point, rev: bool)
    requires
        sorted_by(old(out)@, if rev {
            le_points_rev()
        } else {
            le_points()
        }),
    ensures
        sorted_by(final(out)@, if rev {
            le_points_rev()
        } else {
            le_points()
        }),
        final(out)@.to_multiset() == old(out)@.to_multiset().insert(x),
        final(out)@.len() == old(out)@.len() + 1,
{
    let ghost leq = if rev {
        le_points_rev()
    } else {
        le_points()
    };
    let mut p: usize = 0;
    if rev {
        while p < out.len() && out[p].le_rev(&x)
            invariant
                0 <= p <= out@.len(),
                out@ =~= old(out)@,
                rev,
                leq == le_points_rev(),
                sorted_by(out@, leq),
                forall|i: int| 0 <= i < p ==> #[trigger] leq(out@[i], x),
            decreases out@.len() - p,
        {
            p = p + 1;
        }
    } else {
        while p < out.len() && out[p].le(&x)
            invariant
                0 <= p <= out@.len(),
                out@ =~= old(out)@,
                !rev,
                leq == le_points(),
                sorted_by(out@, leq),
                forall|i: int| 0 <= i < p ==> #[trigger] leq(out@[i], x),
            decreases out@.len() - p,
        {
            p = p + 1;
        }
    }
    proof {
        // what follows the insertion point is at least `x`
        assert forall|j: int| p <= j < out@.len() implies #[trigger] leq(x, out@[j]) by {
            assert(!leq(out@[p as int], x));
            assert(leq(x, out@[p as int]));
            if p < j {
                assert(leq(out@[p as int], out@[j]));
            }
        }
    }
    let ghost pre = out@;
    out.insert(p, x);
    proof {
        assert(out@ == pre.insert(p as int, x));
        lemma_insert_multiset(pre, p as int, x);
        assert forall|i: int, j: int| 0 <= i < j < out@.len() implies #[trigger] leq(
            out@[i],
            out@[j],
        ) by {
            if j < p {
                assert(out@[i] == pre[i] && out@[j] == pre[j]);
            } else if i > p {
                assert(out@[i] == pre[i - 1] && out@[j] == pre[j - 1]);
            } else if i == p {
                assert(out@[i] == x && out@[j] == pre[j - 1]);
            } else if j == p {
                assert(out@[i] == pre[i] && out@[j] == x);
            } else {
                // i < p < j
                assert(out@[i] == pre[i] && out@[j] == pre[j - 1]);
            }
        }
    }
}

/// Inserting into the middle of a sequence inserts into its multiset.
proof fn lemma_insert_multiset(s: Seq<Point>, i: int, x: Point)
    requires
        0 <= i <= s.len(),
    ensures
        s.insert(i, x).to_multiset() == s.to_multiset().insert(x),
{
    broadcast use vstd::seq_lib::group_to_multiset_ensures;
    broadcast use vstd::multiset::group_multiset_axioms;

    let t = s.insert(i, x);
    assert(t.remove(i) =~= s);
    assert(t[i] == x);
    assert(t.remove(i).to_multiset() =~= t.to_multiset().remove(t[i]));
    assert(t.to_multiset().contains(x));
    assert(t.to_multiset().remove(x).insert(x) =~= t.to_multiset());
}

/// One deduplication pass over a vector, folding each point into the one
/// seen just before it when they are within `ROOT_PRECISION`.
pub fn uniq_points(v: &Vec<Point>) -> (r: Vec<Point>)
    ensures
        r@ == spec_dedup(v@, None),
{
    let mut out: Vec<Point> = Vec::new();
    let mut last: Option<Point> = None;
    let mut i: usize = 0;
    proof {
        assert(v@.skip(0) =~= v@);
        assert(out@ + spec_dedup(v@, None) =~= spec_dedup(v@, None));
    }
    while i < v.len()
        invariant
            0 <= i <= v@.len(),
            spec_dedup(v@, None) == out@ + spec_dedup(v@.skip(i as int), last),
        decreases v@.len() - i,
    {
        let n = v[i];
        let keep = match &last {
            Option::None => true,
            Option::Some(p) => !n.near(p),
        };
        proof {
            assert(v@.skip(i as int).drop_first() =~= v@.skip(i + 1));
            assert(v@.skip(i as int)[0] == v@[i as int]);
        }
        if keep {
            let ghost pre = out@;
            out.push(n);
            proof {
                assert(pre + (seq![v@[i as int]] + spec_dedup(v@.skip(i + 1), Some(v@[i as int])))
                    =~= out@ + spec_dedup(v@.skip(i + 1), Some(v@[i as int])));
            }
        }
        last = Some(n);
        i = i + 1;
    }
    proof {
        assert(v@.skip(v@.len() as int).len() == 0);
        assert(out@ + Seq::<Point>::empty() =~= out@);
    }
    out
}

/// Sorts and deduplicates in both orders: the registry's global
/// clustering pass.
pub fn uniq_vec(v: Vec<Point>) -> (r: Vec<Point>)
    ensures
        r@ == spec_uniq_vec(v@),
{
    let s1 = sort_float(v);
    let d1 = uniq_points(&s1);
    let s2 = sort_float_rev(d1);
    uniq_points(&s2)
}

/// Builds the root registry from the convergence endpoints of every
/// sampled row: each row is deduplicated, the rows are flattened and
/// deduplicated globally, and the result is sorted by the registry
/// order, which defines each root's palette index.
pub fn find_roots(rows: Vec<Vec<Point>>) -> (r: Vec<Point>)
    ensures
        r@ == spec_find_roots(rows_view(rows)),
        sorted_by(r@, le_points()),
{
    let ghost rws = rows_view(rows);
    let mut acc: Vec<Point> = Vec::new();
    let mut i: usize = 0;
    proof {
        assert(rws.skip(0) =~= rws);
        assert(acc@ + spec_rows_concat(rws) =~= spec_rows_concat(rws));
    }
    while i < rows.len()
        invariant
            0 <= i <= rows@.len(),
            rws == rows_view(rows),
            rws.len() == rows@.len(),
            forall|k: int| 0 <= k < rows@.len() ==> rws[k] == rows@[k]@,
            spec_rows_concat(rws) == acc@ + spec_rows_concat(rws.skip(i as int)),
        decreases rows@.len() - i,
    {
        let row = rows[i].clone();
        proof {
            assert(row@ == rws[i as int]);
            assert(rws.skip(i as int).drop_first() =~= rws.skip(i + 1));
            assert(rws.skip(i as int)[0] == rws[i as int]);
        }
        let mut part = uniq_vec(row);
        let ghost pre = acc@;
        acc.append(&mut part);
        proof {
            assert(pre + (spec_uniq_vec(rws[i as int]) + spec_rows_concat(rws.skip(i + 1)))
                =~= acc@ + spec_rows_concat(rws.skip(i + 1)));
        }
        i = i + 1;
    }
    proof {
        assert(rws.skip(rws.len() as int).len() == 0);
        assert(acc@ + Seq::<Point>::empty() =~= acc@);
    }
    let merged = uniq_vec(acc);
    let r = sort_float(merged);
    proof {
        lemma_orders_total();
        spec_uniq_vec(spec_rows_concat(rws)).lemma_sort_by_ensures(le_points());
    }
    r
}


/// A deduplication pass only keeps points of its input.
proof fn lemma_dedup_subset(s: Seq<Point>, last: Option<Point>)
    ensures
        forall|x: Point| #[trigger] spec_dedup(s, last).contains(x) ==> s.contains(x),
    decreases s.len(),
{
    if s.len() > 0 {
        lemma_dedup_subset(s.drop_first(), Some(s[0]));
        assert forall|x: Point| #[trigger] spec_dedup(s, last).contains(x) implies s.contains(
            x,
        ) by {
            let out = spec_dedup(s, last);
            let rest = spec_dedup(s.drop_first(), Some(s[0]));
            let m = choose|m: int| 0 <= m < out.len() && out[m] == x;
            if rest.contains(x) {
                assert(s.drop_first().contains(x));
                let t = choose|t: int| 0 <= t < s.drop_first().len() && s.drop_first()[t] == x;
                assert(s[t + 1] == x);
            } else {
                assert(x == s[0]);
            }
        }
    }
}

/// Sorting keeps the set of points.
proof fn lemma_sort_subset(s: Seq<Point>, leq: spec_fn(Point, Point) -> bool)
    requires
        total_ordering(leq),
    ensures
        forall|x: Point| #[trigger] s.sort_by(leq).contains(x) ==> s.contains(x),
{
    s.lemma_sort_by_ensures(leq);
}

/// The global clustering pass only keeps points of its input.
proof fn lemma_uniq_vec_subset(s: Seq<Point>)
    ensures
        forall|x: Point| #[trigger] spec_uniq_vec(s).contains(x) ==> s.contains(x),
{
    lemma_orders_total();
    let s1 = s.sort_by(le_points());
    let d1 = spec_dedup(s1, None);
    let s2 = d1.sort_by(le_points_rev());
    lemma_sort_subset(s, le_points());
    lemma_dedup_subset(s1, None);
    lemma_sort_subset(d1, le_points_rev());
    lemma_dedup_subset(s2, None);
}

/// A point of the flattened per-row passes comes from one of the rows.
proof fn lemma_rows_concat_subset(rows: Seq<Seq<Point>>)
    ensures
        forall|x: Point|
            #[trigger] spec_rows_concat(rows).contains(x) ==> exists|r: int|
                0 <= r < rows.len() && #[trigger] rows[r].contains(x),
    decreases rows.len(),
{
    if rows.len() > 0 {
        lemma_rows_concat_subset(rows.drop_first());
        lemma_uniq_vec_subset(rows[0]);
        assert forall|x: Point| #[trigger] spec_rows_concat(rows).contains(x) implies exists|
            r: int,
        | 0 <= r < rows.len() && #[trigger] rows[r].contains(x) by {
            let left = spec_uniq_vec(rows[0]);
            let right = spec_rows_concat(rows.drop_first());
            let m = choose|m: int|
                0 <= m < spec_rows_concat(rows).len() && spec_rows_concat(rows)[m] == x;
            if m < left.len() {
                assert(left.contains(x));
                assert(rows[0].contains(x));
            } else {
                assert(right[m - left.len()] == x);
                assert(right.contains(x));
                let r = choose|r: int|
                    0 <= r < rows.drop_first().len() && #[trigger] rows.drop_first()[r].contains(
                        x,
                    );
                assert(rows[r + 1].contains(x));
            }
        }
    }
}

/// Law: the registry invents no attractors.  Every root of the final
/// registry is one of the convergence endpoints that the rows sampled.
pub proof fn law_registry_from_samples(rows: Seq<Seq<Point>>)
    ensures
        forall|x: Point|
            #[trigger] spec_find_roots(rows).contains(x) ==> exists|r: int|
                0 <= r < rows.len() && #[trigger] rows[r].contains(x),
{
    lemma_orders_total();
    let merged = spec_uniq_vec(spec_rows_concat(rows));
    lemma_sort_subset(merged, le_points());
    lemma_uniq_vec_subset(spec_rows_concat(rows));
    lemma_rows_concat_subset(rows);
}

} // verus!
