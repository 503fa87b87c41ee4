//! Intersection of a probe line against a face's polygonal boundary.
//!
//! Crossing parameters are exact rational numbers (a cross product divided by
//! a cross product), kept as numerator/denominator pairs with a positive
//! denominator and compared by cross-multiplication, so sorting, coincidence
//! deduplication and pairing are decided exactly.

use vstd::prelude::*;
use vstd::multiset::Multiset;

use crate::geometry::{doubled_area2, point2_bounded, Curve, Line2, Point2, COORD_LIMIT};
use crate::topology::{
    boundary_edges, edge_end, edge_start, edge_supported, interior_edges, Edge, Face,
};
use crate::approx::all_edges_supported;
use crate::GeometryError;

verus! {

/// A position along the probe line, as the exact rational `num / den`.
#[derive(Clone, Copy, Debug, PartialEq, Eq, Structural)]
pub struct Param {
    pub num: i64,
    pub den: i64,
}

/// A well-formed parameter has a strictly positive denominator.
pub open spec fn param_wf(p: Param) -> bool {
    p.den > 0
}

/// Every parameter of a sequence is well-formed.
pub open spec fn params_wf(s: Seq<Param>) -> bool {
    forall|i: int| 0 <= i < s.len() ==> param_wf(#[trigger] s[i])
}

/// `a <= b` as rational values, by cross-multiplication.
pub open spec fn rat_le(a: Param, b: Param) -> bool
    recommends
        param_wf(a),
        param_wf(b),
{
    a.num * b.den <= b.num * a.den
}

/// `a < b` as rational values.
pub open spec fn rat_lt(a: Param, b: Param) -> bool
    recommends
        param_wf(a),
        param_wf(b),
{
    a.num * b.den < b.num * a.den
}

/// `a == b` as rational values: two coincident crossing parameters may have
/// different representations.
pub open spec fn rat_eq(a: Param, b: Param) -> bool
    recommends
        param_wf(a),
        param_wf(b),
{
    a.num * b.den == b.num * a.den
}

/// A parameter at most equal to one value and at least equal to an equal
/// value is strictly between unequal neighbours.
pub proof fn lemma_rat_eq_le_lt(a: Param, b: Param, c: Param)
    requires
        param_wf(a),
        param_wf(b),
        param_wf(c),
        rat_eq(a, b),
        rat_le(b, c),
        !rat_eq(a, c),
    ensures
        rat_lt(a, c),
{
    assert(a.num * c.den <= c.num * a.den) by (nonlinear_arith)
        requires
            a.den > 0,
            b.den > 0,
            c.den > 0,
            a.num * b.den == b.num * a.den,
            b.num * c.den <= c.num * b.den,
    ;
}

/// Products of two 64-bit integers fit in 128 bits.
proof fn lemma_i64_product_fits(x: int, y: int)
    requires
        -0x8000_0000_0000_0000 <= x < 0x8000_0000_0000_0000,
        -0x8000_0000_0000_0000 <= y < 0x8000_0000_0000_0000,
    ensures
        -0x4000_0000_0000_0000_0000_0000_0000_0000 <= x * y
            <= 0x4000_0000_0000_0000_0000_0000_0000_0000,
{
    assert(-0x4000_0000_0000_0000_0000_0000_0000_0000 <= x * y
        <= 0x4000_0000_0000_0000_0000_0000_0000_0000) by (nonlinear_arith)
        requires
            -0x8000_0000_0000_0000 <= x <= 0x8000_0000_0000_0000,
            -0x8000_0000_0000_0000 <= y <= 0x8000_0000_0000_0000,
    ;
}

/// Compare two parameters as rational values, exactly.
fn rat_le_exec(a: &Param, b: &Param) -> (r: bool)
    ensures
        r == rat_le(*a, *b),
{
    proof {
        lemma_i64_product_fits(a.num as int, b.den as int);
        lemma_i64_product_fits(b.num as int, a.den as int);
    }
    (a.num as i128) * (b.den as i128) <= (b.num as i128) * (a.den as i128)
}

/// Decide whether two parameters are the same rational value.
fn rat_eq_exec(a: &Param, b: &Param) -> (r: bool)
    ensures
        r == rat_eq(*a, *b),
{
    proof {
        lemma_i64_product_fits(a.num as int, b.den as int);
        lemma_i64_product_fits(b.num as int, a.den as int);
    }
    (a.num as i128) * (b.den as i128) == (b.num as i128) * (a.den as i128)
}

/// A sequence sorted ascending by rational value.
pub open spec fn sorted_params(s: Seq<Param>) -> bool {
    forall|i: int| 0 <= i < s.len() - 1 ==> rat_le(#[trigger] s[i], s[i + 1])
}

/// `x` inserted into `s` before the first element strictly greater than it.
pub open spec fn insert_sorted_spec(x: Param, s: Seq<Param>) -> Seq<Param>
    decreases s.len(),
{
    if s.len() == 0 {
        seq![x]
    } else if rat_le(s[0], x) {
        seq![s[0]] + insert_sorted_spec(x, s.drop_first())
    } else {
        seq![x] + s
    }
}

/// The ascending sort of a parameter sequence, by repeated insertion.
pub open spec fn sort_params_spec(s: Seq<Param>) -> Seq<Param>
    decreases s.len(),
{
    if s.len() == 0 {
        Seq::empty()
    } else {
        insert_sorted_spec(s.last(), sort_params_spec(s.drop_last()))
    }
}

/// Insertion keeps a sequence sorted and adds exactly the new element.
pub proof fn lemma_insert_sorted(x: Param, s: Seq<Param>)
    requires
        sorted_params(s),
    ensures
        sorted_params(insert_sorted_spec(x, s)),
        insert_sorted_spec(x, s).len() == s.len() + 1,
        insert_sorted_spec(x, s).to_multiset() == s.to_multiset().insert(x),
        params_wf(s) && param_wf(x) ==> params_wf(insert_sorted_spec(x, s)),
    decreases s.len(),
{
    broadcast use vstd::seq_lib::group_to_multiset_ensures;

    if s.len() == 0 {
        assert(insert_sorted_spec(x, s) =~= Seq::empty().push(x));
        assert(Seq::<Param>::empty().push(x).to_multiset() == Seq::<
            Param,
        >::empty().to_multiset().insert(x));
    } else if rat_le(s[0], x) {
        let rest = s.drop_first();
        assert(sorted_params(rest)) by {
            assert(forall|i: int|
                0 <= i < rest.len() - 1 ==> rat_le(#[trigger] rest[i], rest[i + 1]) && rest[i]
                    == s[i + 1] && rest[i + 1] == s[i + 2]);
        }
        lemma_insert_sorted(x, rest);
        let inner = insert_sorted_spec(x, rest);
        let whole = insert_sorted_spec(x, s);
        assert(whole == seq![s[0]] + inner);
        assert forall|i: int| 0 <= i < whole.len() - 1 implies rat_le(
            #[trigger] whole[i],
            whole[i + 1],
        ) by {
            if i == 0 {
                assert(whole[0] == s[0] && whole[1] == inner[0]);
                if rest.len() == 0 || rat_le(rest[0], x) {
                    if rest.len() == 0 {
                        assert(inner[0] == x);
                    } else {
                        assert(inner[0] == rest[0] && rat_le(s[0], rest[0]));
                    }
                } else {
                    assert(inner[0] == x);
                }
            } else {
                assert(whole[i] == inner[i - 1] && whole[i + 1] == inner[i]);
            }
        }
        assert(whole.to_multiset() == s.to_multiset().insert(x)) by {
            vstd::seq_lib::lemma_multiset_commutative(seq![s[0]], inner);
            vstd::seq_lib::lemma_multiset_commutative(seq![s[0]], rest);
            assert(s == seq![s[0]] + rest);
            assert(seq![s[0]].to_multiset() == Multiset::<Param>::empty().insert(s[0])) by {
                assert(seq![s[0]] == Seq::<Param>::empty().push(s[0]));
            }
        }
    } else {
        let whole = insert_sorted_spec(x, s);
        assert(whole == seq![x] + s);
        assert forall|i: int| 0 <= i < whole.len() - 1 implies rat_le(
            #[trigger] whole[i],
            whole[i + 1],
        ) by {
            if i == 0 {
                assert(whole[0] == x && whole[1] == s[0]);
            } else {
                assert(whole[i] == s[i - 1] && whole[i + 1] == s[i]);
            }
        }
        assert(whole.to_multiset() == s.to_multiset().insert(x)) by {
            vstd::seq_lib::lemma_multiset_commutative(seq![x], s);
            assert(seq![x].to_multiset() == Multiset::<Param>::empty().insert(x)) by {
                assert(seq![x] == Seq::<Param>::empty().push(x));
            }
        }
    }
}

/// Sorting yields an ascending sequence with the same elements.
pub proof fn lemma_sort_params(s: Seq<Param>)
    ensures
        sorted_params(sort_params_spec(s)),
        sort_params_spec(s).len() == s.len(),
        sort_params_spec(s).to_multiset() == s.to_multiset(),
        params_wf(s) ==> params_wf(sort_params_spec(s)),
    decreases s.len(),
{
    broadcast use vstd::seq_lib::group_to_multiset_ensures;

    if s.len() > 0 {
        lemma_sort_params(s.drop_last());
        lemma_insert_sorted(s.last(), sort_params_spec(s.drop_last()));
        assert(s.drop_last().push(s.last()) =~= s);
        assert(params_wf(s) ==> params_wf(s.drop_last()) && param_wf(s.last()));
    }
}

/// Where the spec inserts a new element, in terms of the scan that the
/// executable insertion performs: before the first element strictly greater
/// than it.
proof fn lemma_insert_sorted_at(x: Param, s: Seq<Param>, i: int)
    requires
        0 <= i <= s.len(),
        forall|k: int| 0 <= k < i ==> rat_le(#[trigger] s[k], x),
        i < s.len() ==> !rat_le(s[i], x),
    ensures
        insert_sorted_spec(x, s) == s.take(i) + seq![x] + s.skip(i),
    decreases s.len(),
{
    if s.len() == 0 {
        assert(insert_sorted_spec(x, s) =~= s.take(i) + seq![x] + s.skip(i));
    } else if i == 0 {
        assert(!rat_le(s[0], x));
        assert(insert_sorted_spec(x, s) =~= s.take(0) + seq![x] + s.skip(0));
    } else {
        let rest = s.drop_first();
        lemma_insert_sorted_at(x, rest, i - 1);
        assert(rat_le(s[0], x));
        assert(insert_sorted_spec(x, s) == seq![s[0]] + insert_sorted_spec(x, rest));
        assert(insert_sorted_spec(x, s) =~= s.take(i) + seq![x] + s.skip(i));
    }
}

/// Insert one parameter into a sorted vector, keeping it sorted.
fn insert_sorted_exec(v: &mut Vec<Param>, x: Param)
    ensures
        final(v)@ == insert_sorted_spec(x, old(v)@),
{
    let mut i: usize = 0;
    let n: usize = v.len();
    while i < n
        invariant_except_break
            n == v@.len(),
            0 <= i <= n,
            forall|k: int| 0 <= k < i ==> rat_le(#[trigger] v@[k], x),
        ensures
            n == v@.len(),
            0 <= i <= n,
            forall|k: int| 0 <= k < i ==> rat_le(#[trigger] v@[k], x),
            i < n ==> !rat_le(v@[i as int], x),
        decreases n - i,
    {
        if !rat_le_exec(&v[i], &x) {
            break ;
        }
        i = i + 1;
    }
    proof {
        lemma_insert_sorted_at(x, v@, i as int);
    }
    v.insert(i, x);
    assert(v@ =~= old(v)@.take(i as int) + seq![x] + old(v)@.skip(i as int));
}

/// Sort a parameter vector ascending by rational value.
pub fn sort_params(v: &Vec<Param>) -> (r: Vec<Param>)
    ensures
        r@ == sort_params_spec(v@),
{
    let mut out: Vec<Param> = Vec::new();
    let n: usize = v.len();
    for i in 0..n
        invariant
            n == v@.len(),
            out@ == sort_params_spec(v@.take(i as int)),
    {
        assert(v@.take(i + 1).drop_last() == v@.take(i as int));
        insert_sorted_exec(&mut out, v[i]);
    }
    assert(v@.take(n as int) == v@);
    out
}

/// The sorted sequence with coincident (rationally equal) neighbours merged:
/// of every run of equal values, the first representative is kept.
pub open spec fn dedup_params_spec(s: Seq<Param>) -> Seq<Param>
    decreases s.len(),
{
    if s.len() == 0 {
        Seq::empty()
    } else {
        let rest = dedup_params_spec(s.drop_last());
        if rest.len() > 0 && rat_eq(rest.last(), s.last()) {
            rest
        } else {
            rest.push(s.last())
        }
    }
}

/// Merging coincident neighbours of a sorted sequence yields a strictly
/// ascending sequence whose last value coincides with the source's last.
pub proof fn lemma_dedup_params_sorted(s: Seq<Param>)
    requires
        params_wf(s),
        sorted_params(s),
    ensures
        params_wf(dedup_params_spec(s)),
        dedup_params_spec(s).len() <= s.len(),
        s.len() > 0 ==> dedup_params_spec(s).len() > 0 && rat_eq(
            dedup_params_spec(s).last(),
            s.last(),
        ),
        forall|i: int|
            0 <= i < dedup_params_spec(s).len() - 1 ==> rat_lt(
                #[trigger] dedup_params_spec(s)[i],
                dedup_params_spec(s)[i + 1],
            ),
    decreases s.len(),
{
    if s.len() > 0 {
        let prefix = s.drop_last();
        assert(params_wf(prefix) && sorted_params(prefix)) by {
            assert(forall|i: int| 0 <= i < prefix.len() ==> #[trigger] prefix[i] == s[i]);
        }
        lemma_dedup_params_sorted(prefix);
        let rest = dedup_params_spec(prefix);
        let whole = dedup_params_spec(s);
        if rest.len() > 0 && rat_eq(rest.last(), s.last()) {
            assert(whole == rest);
        } else {
            assert(whole == rest.push(s.last()));
            assert forall|i: int| 0 <= i < whole.len() - 1 implies rat_lt(
                #[trigger] whole[i],
                whole[i + 1],
            ) by {
                if i < rest.len() - 1 {
                    assert(whole[i] == rest[i] && whole[i + 1] == rest[i + 1]);
                } else {
                    assert(whole[i] == rest.last() && whole[i + 1] == s.last());
                    assert(prefix.len() > 0);
                    assert(rat_eq(rest.last(), prefix.last()));
                    assert(rat_le(prefix.last(), s.last())) by {
                        assert(prefix.last() == s[s.len() - 2] && s.last() == s[s.len() - 1]);
                    }
                    lemma_rat_eq_le_lt(rest.last(), prefix.last(), s.last());
                }
            }
            assert(rat_eq(whole.last(), s.last())) by {
                assert(whole.last() == s.last());
                assert(s.last().num * s.last().den == s.last().num * s.last().den);
            }
        }
    }
}

/// Merge coincident neighbours of a sorted parameter vector.
pub fn dedup_params(v: &Vec<Param>) -> (r: Vec<Param>)
    ensures
        r@ == dedup_params_spec(v@),
{
    let mut out: Vec<Param> = Vec::new();
    let n: usize = v.len();
    for i in 0..n
        invariant
            n == v@.len(),
            out@ == dedup_params_spec(v@.take(i as int)),
    {
        assert(v@.take(i + 1).drop_last() == v@.take(i as int));
        let keep = if out.len() == 0 {
            true
        } else {
            !rat_eq_exec(&out[out.len() - 1], &v[i])
        };
        if keep {
            out.push(v[i]);
        }
    }
    assert(v@.take(n as int) == v@);
    out
}

/// A closed interval of probe-line parameters lying inside the face.
#[derive(Clone, Copy, Debug, PartialEq, Eq, Structural)]
pub struct Interval {
    pub start: Param,
    pub end: Param,
}

/// Consecutive pairing of an ascending parameter sequence into closed
/// intervals.
pub open spec fn pair_up_spec(s: Seq<Param>) -> Seq<Interval>
    decreases s.len(),
{
    if s.len() < 2 {
        Seq::empty()
    } else {
        seq![Interval { start: s[0], end: s[1] }] + pair_up_spec(s.skip(2))
    }
}

/// Index characterization of consecutive pairing.
pub proof fn lemma_pair_up_index(s: Seq<Param>)
    ensures
        pair_up_spec(s).len() == s.len() / 2,
        forall|i: int|
            0 <= i < pair_up_spec(s).len() ==> #[trigger] pair_up_spec(s)[i] == (Interval {
                start: s[2 * i],
                end: s[2 * i + 1],
            }),
    decreases s.len(),
{
    if s.len() >= 2 {
        lemma_pair_up_index(s.skip(2));
        let whole = pair_up_spec(s);
        let rest = pair_up_spec(s.skip(2));
        assert(whole == seq![Interval { start: s[0], end: s[1] }] + rest);
        assert forall|i: int| 0 <= i < whole.len() implies #[trigger] whole[i] == (Interval {
            start: s[2 * i],
            end: s[2 * i + 1],
        }) by {
            if i > 0 {
                assert(whole[i] == rest[i - 1]);
                assert(s.skip(2)[2 * (i - 1)] == s[2 * i]);
                assert(s.skip(2)[2 * (i - 1) + 1] == s[2 * i + 1]);
            }
        }
    }
}

/// The paired intervals of a strictly ascending parameter sequence are
/// themselves ascending and pairwise disjoint: each interval's start lies
/// strictly before its end, and each interval ends strictly before the next
/// one starts.
pub proof fn lemma_intervals_ascending_disjoint(s: Seq<Param>)
    requires
        forall|i: int| 0 <= i < s.len() - 1 ==> rat_lt(#[trigger] s[i], s[i + 1]),
    ensures
        forall|i: int|
            0 <= i < pair_up_spec(s).len() ==> rat_lt(
                (#[trigger] pair_up_spec(s)[i]).start,
                pair_up_spec(s)[i].end,
            ),
        forall|i: int|
            0 <= i < pair_up_spec(s).len() - 1 ==> rat_lt(
                (#[trigger] pair_up_spec(s)[i]).end,
                pair_up_spec(s)[i + 1].start,
            ),
{
    lemma_pair_up_index(s);
}

/// Pair a sorted, deduplicated parameter vector of even length into closed
/// intervals.
fn pair_up(v: &Vec<Param>) -> (r: Vec<Interval>)
    requires
        v@.len() % 2 == 0,
    ensures
        r@ == pair_up_spec(v@),
{
    proof {
        lemma_pair_up_index(v@);
    }
    let mut out: Vec<Interval> = Vec::new();
    let n: usize = v.len();
    let half: usize = n / 2;
    for i in 0..half
        invariant
            n == v@.len(),
            half == v@.len() / 2,
            v@.len() % 2 == 0,
            out@.len() == i,
            forall|j: int|
                0 <= j < i ==> #[trigger] out@[j] == (Interval {
                    start: v@[2 * j],
                    end: v@[2 * j + 1],
                }),
    {
        assert(2 * i + 1 < v@.len());
        out.push(Interval { start: v[2 * i], end: v[2 * i + 1] });
    }
    assert(out@ =~= pair_up_spec(v@));
    out
}


/// The cross product of the probe direction with the segment vector `q - p`.
pub open spec fn cross_dir(d: Point2, p: Point2, q: Point2) -> int {
    d.u * (q.v - p.v) - d.v * (q.u - p.u)
}

/// The crossing parameter of the probe line against the segment from `a` to
/// `b`, if the two cross.
///
/// With direction `d` and origin `o`, the line reaches the segment's
/// supporting line at parameter `t = ((a - o) x (b - a)) / (d x (b - a))`,
/// at the fraction `s = ((a - o) x d) / (d x (b - a))` along the segment. A
/// crossing contributes exactly when the denominator is nonzero (a parallel
/// or colinear segment contributes nothing) and `s` lies in `[0, 1]`
/// (endpoint touches included). The parameter is normalized to a positive
/// denominator.
pub open spec fn seg_param(line: Line2, a: Point2, b: Point2) -> Option<Param> {
    let den = cross_dir(line.direction, a, b);
    let sn = -cross_dir(line.direction, line.origin, a);
    let tn = doubled_area2(line.origin, a, b);
    if den > 0 && 0 <= sn <= den {
        Some(Param { num: tn as i64, den: den as i64 })
    } else if den < 0 && den <= sn <= 0 {
        Some(Param { num: (-tn) as i64, den: (-den) as i64 })
    } else {
        None
    }
}

/// All crossing parameters of the probe line against the segments of the
/// given boundary edges, in edge order.
pub open spec fn raw_params_spec(line: Line2, edges: Seq<Edge>) -> Seq<Param>
    decreases edges.len(),
{
    if edges.len() == 0 {
        Seq::empty()
    } else {
        let rest = raw_params_spec(line, edges.drop_last());
        match seg_param(line, edge_start(edges.last()).local, edge_end(edges.last()).local) {
            Some(p) => rest.push(p),
            None => rest,
        }
    }
}

/// Whether a probe curve and a face are of the shape the intersection
/// routine supports: the probe is a line and the face's whole boundary
/// consists of line-segment edges with explicit bounding vertices.
pub open spec fn face_supported(curve: Curve, face: Face) -> bool {
    curve is Line && all_edges_supported(boundary_edges(face))
}

/// Whether a probe line's coordinates are within the accepted range.
pub open spec fn line_bounded(line: Line2) -> bool {
    point2_bounded(line.origin) && point2_bounded(line.direction)
}

/// Whether the local coordinates of every bounded edge of the sequence are
/// within the accepted range.
pub open spec fn edges_locals_bounded(edges: Seq<Edge>) -> bool {
    forall|i: int|
        0 <= i < edges.len() ==> ((#[trigger] edges[i]).vertices is Some ==> point2_bounded(
            edge_start(edges[i]).local,
        ) && point2_bounded(edge_end(edges[i]).local))
}

/// The crossing parameters of a probe line against a face's whole boundary:
/// collected over every boundary segment, sorted ascending, with coincident
/// parameters (a probe through a shared vertex) merged.
pub open spec fn intersection_params(line: Line2, face: Face) -> Seq<Param> {
    dedup_params_spec(sort_params_spec(raw_params_spec(line, boundary_edges(face))))
}

/// A product of bounded factors is bounded.
proof fn lemma_mul_bound(x: int, y: int, bx: int, by: int)
    requires
        bx >= 0,
        by >= 0,
        -bx <= x <= bx,
        -by <= y <= by,
    ensures
        -(bx * by) <= x * y <= bx * by,
{
    assert(-(bx * by) <= x * y <= bx * by) by (nonlinear_arith)
        requires
            bx >= 0,
            by >= 0,
            -bx <= x <= bx,
            -by <= y <= by,
    ;
}

/// Bounds of the cross products entering a crossing parameter, for bounded
/// coordinates.
proof fn lemma_seg_param_bounds(line: Line2, a: Point2, b: Point2)
    requires
        line_bounded(line),
        point2_bounded(a),
        point2_bounded(b),
    ensures
        -4 * COORD_LIMIT * COORD_LIMIT <= cross_dir(line.direction, a, b) <= 4 * COORD_LIMIT
            * COORD_LIMIT,
        -4 * COORD_LIMIT * COORD_LIMIT <= cross_dir(line.direction, line.origin, a) <= 4
            * COORD_LIMIT * COORD_LIMIT,
        -8 * COORD_LIMIT * COORD_LIMIT <= doubled_area2(line.origin, a, b) <= 8 * COORD_LIMIT
            * COORD_LIMIT,
{
    let c = COORD_LIMIT as int;
    let du = line.direction.u as int;
    let dv = line.direction.v as int;
    let ox = line.origin.u as int;
    let oy = line.origin.v as int;
    let ax = a.u as int;
    let ay = a.v as int;
    let bx = b.u as int;
    let bw = b.v as int;
    lemma_mul_bound(du, bw - ay, c, 2 * c);
    lemma_mul_bound(dv, bx - ax, c, 2 * c);
    assert(cross_dir(line.direction, a, b) == du * (bw - ay) - dv * (bx - ax));
    lemma_mul_bound(du, ay - oy, c, 2 * c);
    lemma_mul_bound(dv, ax - ox, c, 2 * c);
    assert(cross_dir(line.direction, line.origin, a) == du * (ay - oy) - dv * (ax - ox));
    assert(-8 * c * c <= (ax - ox) * (bw - oy) - (ay - oy) * (bx - ox) <= 8 * c * c)
        by (nonlinear_arith)
        requires
            -c <= ax <= c,
            -c <= ay <= c,
            -c <= bx <= c,
            -c <= bw <= c,
            -c <= ox <= c,
            -c <= oy <= c,
    ;
    assert(doubled_area2(line.origin, a, b) == (ax - ox) * (bw - oy) - (ay - oy) * (bx - ox));
}

/// A crossing parameter of bounded inputs is well-formed: its denominator is
/// strictly positive.
pub proof fn lemma_seg_param_wf(line: Line2, a: Point2, b: Point2)
    requires
        line_bounded(line),
        point2_bounded(a),
        point2_bounded(b),
    ensures
        seg_param(line, a, b) matches Some(p) ==> param_wf(p),
{
    lemma_seg_param_bounds(line, a, b);
}

/// Every crossing parameter collected over bounded boundary edges is
/// well-formed.
pub proof fn lemma_raw_params_wf(line: Line2, edges: Seq<Edge>)
    requires
        line_bounded(line),
        edges_locals_bounded(edges),
        all_edges_supported(edges),
    ensures
        params_wf(raw_params_spec(line, edges)),
    decreases edges.len(),
{
    if edges.len() > 0 {
        let prefix = edges.drop_last();
        assert(edges_locals_bounded(prefix) && all_edges_supported(prefix)) by {
            assert(forall|i: int| 0 <= i < prefix.len() ==> #[trigger] prefix[i] == edges[i]);
        }
        lemma_raw_params_wf(line, prefix);
        lemma_seg_param_wf(line, edge_start(edges.last()).local, edge_end(edges.last()).local);
        let rest = raw_params_spec(line, prefix);
        match seg_param(line, edge_start(edges.last()).local, edge_end(edges.last()).local) {
            Some(p) => {
                assert(raw_params_spec(line, edges) == rest.push(p));
                assert(forall|i: int|
                    0 <= i < rest.len() ==> #[trigger] rest.push(p)[i] == rest[i]);
            },
            None => {},
        }
    }
}

/// Even-crossing invariant: for any collection of well-formed raw crossing
/// parameters, the intervals paired from the sorted, deduplicated sequence
/// are strictly ascending and pairwise disjoint.
pub proof fn lemma_paired_intervals_ascending_disjoint(raw: Seq<Param>)
    requires
        params_wf(raw),
    ensures
        forall|i: int|
            0 <= i < pair_up_spec(dedup_params_spec(sort_params_spec(raw))).len() ==> rat_lt(
                (#[trigger] pair_up_spec(dedup_params_spec(sort_params_spec(raw)))[i]).start,
                pair_up_spec(dedup_params_spec(sort_params_spec(raw)))[i].end,
            ),
        forall|i: int|
            0 <= i < pair_up_spec(dedup_params_spec(sort_params_spec(raw))).len() - 1 ==> rat_lt(
                (#[trigger] pair_up_spec(dedup_params_spec(sort_params_spec(raw)))[i]).end,
                pair_up_spec(dedup_params_spec(sort_params_spec(raw)))[i + 1].start,
            ),
{
    lemma_sort_params(raw);
    lemma_dedup_params_sorted(sort_params_spec(raw));
    lemma_intervals_ascending_disjoint(dedup_params_spec(sort_params_spec(raw)));
}

/// Even-crossing invariant, at the face: the intervals that a successful
/// intersection of a probe line with a supported face returns are strictly
/// ascending and pairwise disjoint.
pub proof fn lemma_curve_face_intervals(line: Line2, face: Face)
    requires
        line_bounded(line),
        edges_locals_bounded(boundary_edges(face)),
        all_edges_supported(boundary_edges(face)),
    ensures
        forall|i: int|
            0 <= i < pair_up_spec(intersection_params(line, face)).len() ==> rat_lt(
                (#[trigger] pair_up_spec(intersection_params(line, face))[i]).start,
                pair_up_spec(intersection_params(line, face))[i].end,
            ),
        forall|i: int|
            0 <= i < pair_up_spec(intersection_params(line, face)).len() - 1 ==> rat_lt(
                (#[trigger] pair_up_spec(intersection_params(line, face))[i]).end,
                pair_up_spec(intersection_params(line, face))[i + 1].start,
            ),
{
    lemma_raw_params_wf(line, boundary_edges(face));
    lemma_paired_intervals_ascending_disjoint(raw_params_spec(line, boundary_edges(face)));
}

/// Compute the crossing parameter of the probe line against one boundary
/// segment, exactly.
fn seg_param_exec(line: &Line2, a: Point2, b: Point2) -> (r: Option<Param>)
    requires
        line_bounded(*line),
        point2_bounded(a),
        point2_bounded(b),
    ensures
        r == seg_param(*line, a, b),
{
    proof {
        let c = COORD_LIMIT as int;
        lemma_seg_param_bounds(*line, a, b);
        lemma_mul_bound(line.direction.u as int, b.v - a.v, c, 2 * c);
        lemma_mul_bound(line.direction.v as int, b.u - a.u, c, 2 * c);
        lemma_mul_bound(line.direction.u as int, a.v - line.origin.v, c, 2 * c);
        lemma_mul_bound(line.direction.v as int, a.u - line.origin.u, c, 2 * c);
        lemma_mul_bound(a.u - line.origin.u, b.v - line.origin.v, 2 * c, 2 * c);
        lemma_mul_bound(a.v - line.origin.v, b.u - line.origin.u, 2 * c, 2 * c);
    }
    let den: i64 = line.direction.u * (b.v - a.v) - line.direction.v * (b.u - a.u);
    let sn: i64 = -(line.direction.u * (a.v - line.origin.v) - line.direction.v * (a.u
        - line.origin.u));
    let tn: i64 = (a.u - line.origin.u) * (b.v - line.origin.v) - (a.v - line.origin.v) * (b.u
        - line.origin.u);
    if den > 0 && 0 <= sn && sn <= den {
        Some(Param { num: tn, den })
    } else if den < 0 && den <= sn && sn <= 0 {
        Some(Param { num: -tn, den: -den })
    } else {
        None
    }
}


/// Determine the intersection between a probe curve and a face.
///
/// The face's whole boundary — the exterior cycle and every interior (hole)
/// cycle, as one unordered collection of edges — is flattened into 2D line
/// segments in the face's local coordinates. Every crossing of the probe
/// line against a boundary segment contributes one parameter; the collected
/// parameters are sorted ascending, coincident parameters (the probe passing
/// through a shared vertex of two edges) are counted once, and the remaining
/// parameters are paired consecutively into the closed intervals of the
/// probe that lie inside the face. Holes fall out naturally: their crossings
/// take part in the same pairing.
///
/// Fails with `Unimplemented` if and only if the probe is not a line or some
/// boundary edge is not a line segment with explicit bounding vertices;
/// fails with `BoundaryInconsistency` if and only if the boundary is
/// supported but yields an odd number of distinct crossings (an open or
/// tangentially touched boundary), which must not be silently repaired.
pub fn curve_face(curve: &Curve, face: &Face) -> (r: Result<Vec<Interval>, GeometryError>)
    requires
        curve matches Curve::Line(line) ==> line_bounded(*line),
        edges_locals_bounded(boundary_edges(*face)),
    ensures
        r is Ok <==> (face_supported(*curve, *face) && intersection_params(
            curve->Line_0,
            *face,
        ).len() % 2 == 0),
        r matches Ok(intervals) ==> intervals@ == pair_up_spec(
            intersection_params(curve->Line_0, *face),
        ),
        r == Err::<Vec<Interval>, GeometryError>(GeometryError::Unimplemented) <==> !face_supported(
            *curve,
            *face,
        ),
        r == Err::<Vec<Interval>, GeometryError>(GeometryError::BoundaryInconsistency) <==> (
        face_supported(*curve, *face) && intersection_params(curve->Line_0, *face).len() % 2 == 1),
{
    let line = match curve {
        Curve::Line(line) => *line,
        _ => {
            return Err(GeometryError::Unimplemented);
        },
    };

    let mut edges: Vec<Edge> = Vec::new();
    let ne: usize = face.exterior.edges.len();
    for i in 0..ne
        invariant
            ne == face.exterior.edges@.len(),
            edges@ == face.exterior.edges@.take(i as int),
    {
        edges.push(face.exterior.edges[i]);
    }
    assert(edges@ =~= face.exterior.edges@);
    let ni: usize = face.interiors.len();
    for i in 0..ni
        invariant
            ni == face.interiors@.len(),
            edges@ == face.exterior.edges@ + interior_edges(face.interiors@.take(i as int)),
    {
        assert(face.interiors@.take(i + 1).drop_last() == face.interiors@.take(i as int));
        let nc: usize = face.interiors[i].edges.len();
        for j in 0..nc
            invariant
                ni == face.interiors@.len(),
                i < ni,
                nc == face.interiors@[i as int].edges@.len(),
                edges@ == face.exterior.edges@ + interior_edges(face.interiors@.take(i as int))
                    + face.interiors@[i as int].edges@.take(j as int),
        {
            edges.push(face.interiors[i].edges[j]);
        }
        assert(face.interiors@[i as int].edges@.take(nc as int) == face.interiors@[i as int].edges@);
        assert(edges@ =~= face.exterior.edges@ + interior_edges(face.interiors@.take(i + 1)));
    }
    assert(face.interiors@.take(ni as int) == face.interiors@);
    assert(edges@ == boundary_edges(*face));

    let mut params: Vec<Param> = Vec::new();
    let n: usize = edges.len();
    for i in 0..n
        invariant
            n == edges@.len(),
            edges@ == boundary_edges(*face),
            curve matches Curve::Line(l) && l == line,
            forall|j: int| 0 <= j < i ==> edge_supported(#[trigger] edges@[j]),
            params@ == raw_params_spec(line, edges@.take(i as int)),
            edges_locals_bounded(boundary_edges(*face)),
            line_bounded(line),
    {
        assert(edges@.take(i + 1).drop_last() == edges@.take(i as int));
        let edge = &edges[i];
        match edge.curve {
            Curve::Line(_) => {},
            _ => {
                assert(!edge_supported(edges@[i as int]));
                return Err(GeometryError::Unimplemented);
            },
        }
        match &edge.vertices {
            Some((v0, v1)) => {
                match seg_param_exec(&line, v0.point.local, v1.point.local) {
                    Some(p) => {
                        params.push(p);
                    },
                    None => {},
                }
            },
            None => {
                assert(!edge_supported(edges@[i as int]));
                return Err(GeometryError::Unimplemented);
            },
        }
        assert(params@ =~= raw_params_spec(line, edges@.take(i + 1)));
    }
    assert(edges@.take(n as int) == edges@);
    assert(all_edges_supported(boundary_edges(*face)));

    let sorted = sort_params(&params);
    let deduped = dedup_params(&sorted);
    if deduped.len() % 2 == 1 {
        return Err(GeometryError::BoundaryInconsistency);
    }
    let intervals = pair_up(&deduped);
    Ok(intervals)
}

} // verus!
