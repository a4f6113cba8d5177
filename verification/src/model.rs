//! The mathematical model of the curve: a recursive sequence of grid
//! coordinates, mirroring the quasi-square decomposition, together with the
//! predicates the contracts and laws are stated over.

use vstd::prelude::*;

use crate::hilbertcurve::Orientation;

verus! {

/// First part of a dimension when a rectangle is halved. Orientations `A`/`B`
/// keep the first part even, `C`/`D` keep the second part even, by swapping
/// the two halves when the relevant half is odd.
pub open spec fn part1(o: Orientation, d: nat) -> nat {
    let h = d / 2;
    match o {
        Orientation::A | Orientation::B => {
            if h % 2 == 1 {
                (d - h) as nat
            } else {
                h
            }
        },
        Orientation::C | Orientation::D => {
            if (d - h) % 2 == 1 {
                (d - h) as nat
            } else {
                h
            }
        },
    }
}

/// Second part of a halved dimension; the two parts add up to the whole.
pub open spec fn part2(o: Orientation, d: nat) -> nat {
    (d - part1(o, d)) as nat
}

/// A rectangle small enough to be laid out directly, without recursion.
pub open spec fn is_base(n: nat, m: nat) -> bool {
    (n == 1 && m == 1) || (n == 1 && m == 2) || (n == 2 && m == 1) || (n == 2 && m == 2)
}

/// The coordinates visited by the curve over the rectangle of height `n` and
/// width `m` whose lower-left cell is `(x, y)`, in visiting order. A
/// rectangle with a zero dimension contributes nothing.
pub open spec fn curve_seq(o: Orientation, x: int, y: int, n: nat, m: nat) -> Seq<(int, int)>
    decreases n + m,
{
    if n == 0 || m == 0 {
        Seq::empty()
    } else if n == 1 && m == 1 {
        seq![(x, y)]
    } else if n == 1 && m == 2 {
        match o {
            Orientation::A | Orientation::B => seq![(x, y), (x + 1, y)],
            Orientation::C | Orientation::D => seq![(x + 1, y), (x, y)],
        }
    } else if n == 2 && m == 1 {
        match o {
            Orientation::A | Orientation::B => seq![(x, y), (x, y + 1)],
            Orientation::C | Orientation::D => seq![(x, y + 1), (x, y)],
        }
    } else if n == 2 && m == 2 {
        match o {
            Orientation::A => seq![(x, y), (x, y + 1), (x + 1, y + 1), (x + 1, y)],
            Orientation::B => seq![(x, y), (x + 1, y), (x + 1, y + 1), (x, y + 1)],
            Orientation::C => seq![(x + 1, y + 1), (x + 1, y), (x, y), (x, y + 1)],
            Orientation::D => seq![(x + 1, y + 1), (x, y + 1), (x, y), (x + 1, y)],
        }
    } else {
        let n1 = part1(o, n);
        let n2 = part2(o, n);
        let m1 = part1(o, m);
        let m2 = part2(o, m);
        match o {
            Orientation::A => curve_seq(Orientation::B, x, y, n1, m1) + curve_seq(
                Orientation::A,
                x,
                y + n1,
                n2,
                m1,
            ) + curve_seq(Orientation::A, x + m1, y + n1, n2, m2) + curve_seq(
                Orientation::D,
                x + m1,
                y,
                n1,
                m2,
            ),
            Orientation::B => curve_seq(Orientation::A, x, y, n1, m1) + curve_seq(
                Orientation::B,
                x + m1,
                y,
                n1,
                m2,
            ) + curve_seq(Orientation::B, x + m1, y + n1, n2, m2) + curve_seq(
                Orientation::C,
                x,
                y + n1,
                n2,
                m1,
            ),
            Orientation::C => curve_seq(Orientation::D, x + m1, y + n1, n2, m2) + curve_seq(
                Orientation::C,
                x + m1,
                y,
                n1,
                m2,
            ) + curve_seq(Orientation::C, x, y, n1, m1) + curve_seq(
                Orientation::B,
                x,
                y + n1,
                n2,
                m1,
            ),
            Orientation::D => curve_seq(Orientation::C, x + m1, y + n1, n2, m2) + curve_seq(
                Orientation::D,
                x,
                y + n1,
                n2,
                m1,
            ) + curve_seq(Orientation::D, x, y, n1, m1) + curve_seq(
                Orientation::A,
                x + m1,
                y,
                n1,
                m2,
            ),
        }
    }
}

/// The rectangles whose decomposition reaches a base case along every
/// branch without ever producing an empty sub-rectangle. The builder
/// handles every rectangle (an empty split contributes nothing); within
/// this set the splits are also exhaustive in the stronger sense that the
/// near-square adjacency analysis builds on.
pub open spec fn region_ok(o: Orientation, n: nat, m: nat) -> bool
    decreases n + m,
{
    if n == 0 || m == 0 {
        false
    } else if is_base(n, m) {
        true
    } else {
        let n1 = part1(o, n);
        let n2 = part2(o, n);
        let m1 = part1(o, m);
        let m2 = part2(o, m);
        match o {
            Orientation::A => region_ok(Orientation::B, n1, m1) && region_ok(
                Orientation::A,
                n2,
                m1,
            ) && region_ok(Orientation::A, n2, m2) && region_ok(Orientation::D, n1, m2),
            Orientation::B => region_ok(Orientation::A, n1, m1) && region_ok(
                Orientation::B,
                n1,
                m2,
            ) && region_ok(Orientation::B, n2, m2) && region_ok(Orientation::C, n2, m1),
            Orientation::C => region_ok(Orientation::D, n2, m2) && region_ok(
                Orientation::C,
                n1,
                m2,
            ) && region_ok(Orientation::C, n1, m1) && region_ok(Orientation::B, n2, m1),
            Orientation::D => region_ok(Orientation::C, n2, m2) && region_ok(
                Orientation::D,
                n2,
                m1,
            ) && region_ok(Orientation::D, n1, m1) && region_ok(Orientation::A, n1, m2),
        }
    }
}

/// The near-square rectangles: equal sides, or sides differing by one where
/// the dimension the orientation class splits oddly is the odd one. On these
/// the curve is a closed-form space-filling traversal; on other rectangles
/// the coordinates are still a bijection but two consecutive points can sit
/// apart, diagonally or farther.
pub open spec fn balanced(o: Orientation, n: nat, m: nat) -> bool {
    (n == 1 && m == 2) || (n == 2 && m == 1) || match o {
        Orientation::A | Orientation::C => m == n || (n % 2 == 1 && (m == n + 1 || m + 1 == n)),
        Orientation::B | Orientation::D => n == m || (m % 2 == 1 && (n == m + 1 || n + 1 == m)),
    }
}

/// Where the curve enters its rectangle: `A`/`B` start at the lower-left
/// corner, `C`/`D` at the upper-right corner.
pub open spec fn curve_entry(o: Orientation, x: int, y: int, n: nat, m: nat) -> (int, int) {
    match o {
        Orientation::A | Orientation::B => (x, y),
        Orientation::C | Orientation::D => (x + m - 1, y + n - 1),
    }
}

/// Where the curve leaves its rectangle; a single row or column bends the
/// exit onto the only cells there are.
pub open spec fn curve_exit(o: Orientation, x: int, y: int, n: nat, m: nat) -> (int, int) {
    match o {
        Orientation::A => if m == 1 {
            (x, y + n - 1)
        } else {
            (x + m - 1, y)
        },
        Orientation::B => if n == 1 {
            (x + m - 1, y)
        } else {
            (x, y + n - 1)
        },
        Orientation::C => if m == 1 {
            (x, y)
        } else {
            (x, y + n - 1)
        },
        Orientation::D => if n == 1 {
            (x, y)
        } else {
            (x + m - 1, y)
        },
    }
}

/// The coordinate lies in the rectangle of height `n`, width `m` at `(x, y)`.
pub open spec fn in_rect(p: (int, int), x: int, y: int, n: nat, m: nat) -> bool {
    x <= p.0 < x + m && y <= p.1 < y + n
}

/// Exactly one axis differs, by exactly 1: the two cells are grid-adjacent.
pub open spec fn adjacent_step(p: (int, int), q: (int, int)) -> bool {
    (p.0 == q.0 && (q.1 == p.1 + 1 || p.1 == q.1 + 1)) || (p.1 == q.1 && (q.0 == p.0 + 1 || p.0
        == q.0 + 1))
}

/// No coordinate occurs twice in the sequence.
pub open spec fn pairwise_distinct(s: Seq<(int, int)>) -> bool {
    forall|k: int, l: int| 0 <= k < l < s.len() ==> s[k] !== s[l]
}

/// No coordinate of `a` occurs in `b`.
pub open spec fn cross_distinct(a: Seq<(int, int)>, b: Seq<(int, int)>) -> bool {
    forall|k: int, l: int| 0 <= k < a.len() && 0 <= l < b.len() ==> a[k] !== b[l]
}

/// Every coordinate of the sequence lies in the rectangle.
pub open spec fn all_in_rect(s: Seq<(int, int)>, x: int, y: int, n: nat, m: nat) -> bool {
    forall|k: int| 0 <= k < s.len() ==> in_rect(#[trigger] s[k], x, y, n, m)
}

/// Every cell of the rectangle occurs in the sequence.
pub open spec fn covers_rect(s: Seq<(int, int)>, x: int, y: int, n: nat, m: nat) -> bool {
    forall|u: int, v: int| x <= u < x + m && y <= v < y + n ==> s.contains((u, v))
}

/// Consecutive coordinates are always grid-adjacent.
pub open spec fn adjacent_seq(s: Seq<(int, int)>) -> bool {
    forall|k: int| 0 <= k < s.len() - 1 ==> adjacent_step(#[trigger] s[k], s[k + 1])
}

/// The curve visits exactly `n * m` cells, whatever the dimensions: an
/// empty rectangle contributes nothing, and the four sub-rectangles of a
/// split tile their parent.
pub proof fn lemma_curve_len(o: Orientation, x: int, y: int, n: nat, m: nat)
    ensures
        curve_seq(o, x, y, n, m).len() == n * m,
    decreases n + m,
{
    if n == 0 || m == 0 {
        assert(n * m == 0) by (nonlinear_arith)
            requires
                n == 0 || m == 0,
        ;
        reveal_with_fuel(curve_seq, 1);
        assert(curve_seq(o, x, y, n, m) =~= Seq::empty());
        assert(curve_seq(o, x, y, n, m).len() == n * m);
    } else if is_base(n, m) {
        assert(n * m == if n == 1 && m == 1 {
            1nat
        } else if n == 2 && m == 2 {
            4nat
        } else {
            2nat
        }) by (nonlinear_arith)
            requires
                is_base(n, m),
        ;
    } else {
        let n1 = part1(o, n);
        let n2 = part2(o, n);
        let m1 = part1(o, m);
        let m2 = part2(o, m);
        assert((n1 + n2) * (m1 + m2) == n1 * m1 + n2 * m1 + n2 * m2 + n1 * m2)
            by (nonlinear_arith);
        match o {
            Orientation::A => {
                lemma_curve_len(Orientation::B, x, y, n1, m1);
                lemma_curve_len(Orientation::A, x, y + n1, n2, m1);
                lemma_curve_len(Orientation::A, x + m1, y + n1, n2, m2);
                lemma_curve_len(Orientation::D, x + m1, y, n1, m2);
            },
            Orientation::B => {
                lemma_curve_len(Orientation::A, x, y, n1, m1);
                lemma_curve_len(Orientation::B, x + m1, y, n1, m2);
                lemma_curve_len(Orientation::B, x + m1, y + n1, n2, m2);
                lemma_curve_len(Orientation::C, x, y + n1, n2, m1);
            },
            Orientation::C => {
                lemma_curve_len(Orientation::D, x + m1, y + n1, n2, m2);
                lemma_curve_len(Orientation::C, x + m1, y, n1, m2);
                lemma_curve_len(Orientation::C, x, y, n1, m1);
                lemma_curve_len(Orientation::B, x, y + n1, n2, m1);
            },
            Orientation::D => {
                lemma_curve_len(Orientation::C, x + m1, y + n1, n2, m2);
                lemma_curve_len(Orientation::D, x, y + n1, n2, m1);
                lemma_curve_len(Orientation::D, x, y, n1, m1);
                lemma_curve_len(Orientation::A, x + m1, y, n1, m2);
            },
        }
        assert(curve_seq(o, x, y, n, m).len() == n * m);
    }
}

/// The two rectangles share no cell.
pub open spec fn rect_disjoint(
    x1: int,
    y1: int,
    n1: nat,
    m1: nat,
    x2: int,
    y2: int,
    n2: nat,
    m2: nat,
) -> bool {
    x1 + m1 <= x2 || x2 + m2 <= x1 || y1 + n1 <= y2 || y2 + n2 <= y1
}

proof fn lemma_concat_distinct(a: Seq<(int, int)>, b: Seq<(int, int)>)
    requires
        pairwise_distinct(a),
        pairwise_distinct(b),
        cross_distinct(a, b),
    ensures
        pairwise_distinct(a + b),
{
    assert forall|k: int, l: int| 0 <= k < l < (a + b).len() implies (a + b)[k] !== (a
        + b)[l] by {
        if l < a.len() {
            assert((a + b)[k] == a[k] && (a + b)[l] == a[l]);
        } else if k >= a.len() {
            assert((a + b)[k] == b[k - a.len()] && (a + b)[l] == b[l - a.len()]);
        } else {
            assert((a + b)[k] == a[k] && (a + b)[l] == b[l - a.len()]);
        }
    }
}

proof fn lemma_cross_concat(a: Seq<(int, int)>, b: Seq<(int, int)>, c: Seq<(int, int)>)
    requires
        cross_distinct(a, c),
        cross_distinct(b, c),
    ensures
        cross_distinct(a + b, c),
{
    assert forall|k: int, l: int| 0 <= k < (a + b).len() && 0 <= l < c.len() implies (a
        + b)[k] !== c[l] by {
        if k < a.len() {
            assert((a + b)[k] == a[k]);
        } else {
            assert((a + b)[k] == b[k - a.len()]);
        }
    }
}

proof fn lemma_rect_cross(
    a: Seq<(int, int)>,
    x1: int,
    y1: int,
    n1: nat,
    m1: nat,
    b: Seq<(int, int)>,
    x2: int,
    y2: int,
    n2: nat,
    m2: nat,
)
    requires
        all_in_rect(a, x1, y1, n1, m1),
        all_in_rect(b, x2, y2, n2, m2),
        rect_disjoint(x1, y1, n1, m1, x2, y2, n2, m2),
    ensures
        cross_distinct(a, b),
{
}

proof fn lemma_contains_concat(a: Seq<(int, int)>, b: Seq<(int, int)>, p: (int, int))
    requires
        a.contains(p) || b.contains(p),
    ensures
        (a + b).contains(p),
{
    if a.contains(p) {
        let k = choose|k: int| 0 <= k < a.len() && a[k] == p;
        assert((a + b)[k] == p);
    } else {
        let k = choose|k: int| 0 <= k < b.len() && b[k] == p;
        assert((a + b)[k + a.len()] == p);
    }
}

/// Four sequences that each enumerate one of four disjoint rectangles tiling
/// a larger rectangle enumerate, concatenated, the larger rectangle.
proof fn lemma_union_four(
    sa: Seq<(int, int)>,
    xa: int,
    ya: int,
    na: nat,
    ma: nat,
    sb: Seq<(int, int)>,
    xb: int,
    yb: int,
    nb: nat,
    mb: nat,
    sc: Seq<(int, int)>,
    xc: int,
    yc: int,
    nc: nat,
    mc: nat,
    sd: Seq<(int, int)>,
    xd: int,
    yd: int,
    nd: nat,
    md: nat,
    x: int,
    y: int,
    n: nat,
    m: nat,
)
    requires
        pairwise_distinct(sa) && all_in_rect(sa, xa, ya, na, ma) && covers_rect(sa, xa, ya, na, ma),
        pairwise_distinct(sb) && all_in_rect(sb, xb, yb, nb, mb) && covers_rect(sb, xb, yb, nb, mb),
        pairwise_distinct(sc) && all_in_rect(sc, xc, yc, nc, mc) && covers_rect(sc, xc, yc, nc, mc),
        pairwise_distinct(sd) && all_in_rect(sd, xd, yd, nd, md) && covers_rect(sd, xd, yd, nd, md),
        rect_disjoint(xa, ya, na, ma, xb, yb, nb, mb),
        rect_disjoint(xa, ya, na, ma, xc, yc, nc, mc),
        rect_disjoint(xa, ya, na, ma, xd, yd, nd, md),
        rect_disjoint(xb, yb, nb, mb, xc, yc, nc, mc),
        rect_disjoint(xb, yb, nb, mb, xd, yd, nd, md),
        rect_disjoint(xc, yc, nc, mc, xd, yd, nd, md),
        forall|u: int, v: int|
            x <= u < x + m && y <= v < y + n ==> in_rect((u, v), xa, ya, na, ma) || in_rect(
                (u, v),
                xb,
                yb,
                nb,
                mb,
            ) || in_rect((u, v), xc, yc, nc, mc) || in_rect((u, v), xd, yd, nd, md),
        x <= xa && xa + ma <= x + m && y <= ya && ya + na <= y + n,
        x <= xb && xb + mb <= x + m && y <= yb && yb + nb <= y + n,
        x <= xc && xc + mc <= x + m && y <= yc && yc + nc <= y + n,
        x <= xd && xd + md <= x + m && y <= yd && yd + nd <= y + n,
    ensures
        pairwise_distinct(sa + sb + sc + sd),
        all_in_rect(sa + sb + sc + sd, x, y, n, m),
        covers_rect(sa + sb + sc + sd, x, y, n, m),
{
    lemma_rect_cross(sa, xa, ya, na, ma, sb, xb, yb, nb, mb);
    lemma_rect_cross(sa, xa, ya, na, ma, sc, xc, yc, nc, mc);
    lemma_rect_cross(sa, xa, ya, na, ma, sd, xd, yd, nd, md);
    lemma_rect_cross(sb, xb, yb, nb, mb, sc, xc, yc, nc, mc);
    lemma_rect_cross(sb, xb, yb, nb, mb, sd, xd, yd, nd, md);
    lemma_rect_cross(sc, xc, yc, nc, mc, sd, xd, yd, nd, md);
    lemma_concat_distinct(sa, sb);
    lemma_cross_concat(sa, sb, sc);
    lemma_concat_distinct(sa + sb, sc);
    lemma_cross_concat(sa, sb, sd);
    lemma_cross_concat(sa + sb, sc, sd);
    lemma_concat_distinct(sa + sb + sc, sd);
    let s = sa + sb + sc + sd;
    assert forall|k: int| 0 <= k < s.len() implies in_rect(#[trigger] s[k], x, y, n, m) by {
        if k < sa.len() {
            assert(s[k] == sa[k]);
        } else if k < sa.len() + sb.len() {
            assert(s[k] == sb[k - sa.len()]);
        } else if k < sa.len() + sb.len() + sc.len() {
            assert(s[k] == sc[k - sa.len() - sb.len()]);
        } else {
            assert(s[k] == sd[k - sa.len() - sb.len() - sc.len()]);
        }
    }
    assert forall|u: int, v: int| x <= u < x + m && y <= v < y + n implies s.contains(
        (u, v),
    ) by {
        let p = (u, v);
        if in_rect(p, xa, ya, na, ma) {
            assert(sa.contains(p));
            lemma_contains_concat(sa, sb, p);
        } else if in_rect(p, xb, yb, nb, mb) {
            assert(sb.contains(p));
            lemma_contains_concat(sa, sb, p);
        } else if in_rect(p, xc, yc, nc, mc) {
            assert(sc.contains(p));
        } else {
            assert(sd.contains(p));
        }
        if in_rect(p, xa, ya, na, ma) || in_rect(p, xb, yb, nb, mb) {
            lemma_contains_concat(sa + sb, sc, p);
        } else if in_rect(p, xc, yc, nc, mc) {
            lemma_contains_concat(sa + sb, sc, p);
        }
        lemma_contains_concat(sa + sb + sc, sd, p);
    }
}

/// Bijection: the curve visits exactly the cells of its rectangle, each
/// exactly once, whatever the dimensions.
#[verifier::rlimit(90)]
pub proof fn lemma_curve_bijection(o: Orientation, x: int, y: int, n: nat, m: nat)
    ensures
        curve_seq(o, x, y, n, m).len() == n * m,
        all_in_rect(curve_seq(o, x, y, n, m), x, y, n, m),
        pairwise_distinct(curve_seq(o, x, y, n, m)),
        covers_rect(curve_seq(o, x, y, n, m), x, y, n, m),
    decreases n + m,
{
    lemma_curve_len(o, x, y, n, m);
    let s = curve_seq(o, x, y, n, m);
    if n == 0 || m == 0 {
        assert(n * m == 0) by (nonlinear_arith)
            requires
                n == 0 || m == 0,
        ;
    } else if is_base(n, m) {
        assert(n * m == if n == 1 && m == 1 {
            1nat
        } else if n == 2 && m == 2 {
            4nat
        } else {
            2nat
        }) by (nonlinear_arith)
            requires
                is_base(n, m),
        ;
        assert forall|u: int, v: int| x <= u < x + m && y <= v < y + n implies s.contains(
            (u, v),
        ) by {
            if n == 1 && m == 1 {
                assert(s[0] == (u, v));
            } else if n * m == 2 {
                assert(s[0] == (u, v) || s[1] == (u, v));
            } else {
                assert(s[0] == (u, v) || s[1] == (u, v) || s[2] == (u, v) || s[3] == (u, v));
            }
        }
    } else {
        let n1 = part1(o, n);
        let n2 = part2(o, n);
        let m1 = part1(o, m);
        let m2 = part2(o, m);
        match o {
            Orientation::A => {
                lemma_curve_bijection(Orientation::B, x, y, n1, m1);
                lemma_curve_bijection(Orientation::A, x, y + n1, n2, m1);
                lemma_curve_bijection(Orientation::A, x + m1, y + n1, n2, m2);
                lemma_curve_bijection(Orientation::D, x + m1, y, n1, m2);
                lemma_union_four(
                    curve_seq(Orientation::B, x, y, n1, m1),
                    x,
                    y,
                    n1,
                    m1,
                    curve_seq(Orientation::A, x, y + n1, n2, m1),
                    x,
                    y + n1,
                    n2,
                    m1,
                    curve_seq(Orientation::A, x + m1, y + n1, n2, m2),
                    x + m1,
                    y + n1,
                    n2,
                    m2,
                    curve_seq(Orientation::D, x + m1, y, n1, m2),
                    x + m1,
                    y,
                    n1,
                    m2,
                    x,
                    y,
                    n,
                    m,
                );
            },
            Orientation::B => {
                lemma_curve_bijection(Orientation::A, x, y, n1, m1);
                lemma_curve_bijection(Orientation::B, x + m1, y, n1, m2);
                lemma_curve_bijection(Orientation::B, x + m1, y + n1, n2, m2);
                lemma_curve_bijection(Orientation::C, x, y + n1, n2, m1);
                lemma_union_four(
                    curve_seq(Orientation::A, x, y, n1, m1),
                    x,
                    y,
                    n1,
                    m1,
                    curve_seq(Orientation::B, x + m1, y, n1, m2),
                    x + m1,
                    y,
                    n1,
                    m2,
                    curve_seq(Orientation::B, x + m1, y + n1, n2, m2),
                    x + m1,
                    y + n1,
                    n2,
                    m2,
                    curve_seq(Orientation::C, x, y + n1, n2, m1),
                    x,
                    y + n1,
                    n2,
                    m1,
                    x,
                    y,
                    n,
                    m,
                );
            },
            Orientation::C => {
                lemma_curve_bijection(Orientation::D, x + m1, y + n1, n2, m2);
                lemma_curve_bijection(Orientation::C, x + m1, y, n1, m2);
                lemma_curve_bijection(Orientation::C, x, y, n1, m1);
                lemma_curve_bijection(Orientation::B, x, y + n1, n2, m1);
                lemma_union_four(
                    curve_seq(Orientation::D, x + m1, y + n1, n2, m2),
                    x + m1,
                    y + n1,
                    n2,
                    m2,
                    curve_seq(Orientation::C, x + m1, y, n1, m2),
                    x + m1,
                    y,
                    n1,
                    m2,
                    curve_seq(Orientation::C, x, y, n1, m1),
                    x,
                    y,
                    n1,
                    m1,
                    curve_seq(Orientation::B, x, y + n1, n2, m1),
                    x,
                    y + n1,
                    n2,
                    m1,
                    x,
                    y,
                    n,
                    m,
                );
            },
            Orientation::D => {
                lemma_curve_bijection(Orientation::C, x + m1, y + n1, n2, m2);
                lemma_curve_bijection(Orientation::D, x, y + n1, n2, m1);
                lemma_curve_bijection(Orientation::D, x, y, n1, m1);
                lemma_curve_bijection(Orientation::A, x + m1, y, n1, m2);
                lemma_union_four(
                    curve_seq(Orientation::C, x + m1, y + n1, n2, m2),
                    x + m1,
                    y + n1,
                    n2,
                    m2,
                    curve_seq(Orientation::D, x, y + n1, n2, m1),
                    x,
                    y + n1,
                    n2,
                    m1,
                    curve_seq(Orientation::D, x, y, n1, m1),
                    x,
                    y,
                    n1,
                    m1,
                    curve_seq(Orientation::A, x + m1, y, n1, m2),
                    x + m1,
                    y,
                    n1,
                    m2,
                    x,
                    y,
                    n,
                    m,
                );
            },
        }
    }
}

/// The second sequence is the first one shifted by `(dx, dy)`, cell for cell.
pub open spec fn offset_rel(s1: Seq<(int, int)>, s2: Seq<(int, int)>, dx: int, dy: int) -> bool {
    s1.len() == s2.len() && forall|k: int|
        0 <= k < s1.len() ==> (#[trigger] s1[k]).0 == s2[k].0 + dx && s1[k].1 == s2[k].1 + dy
}

proof fn lemma_offset_concat(
    a1: Seq<(int, int)>,
    b1: Seq<(int, int)>,
    a2: Seq<(int, int)>,
    b2: Seq<(int, int)>,
    dx: int,
    dy: int,
)
    requires
        offset_rel(a1, a2, dx, dy),
        offset_rel(b1, b2, dx, dy),
    ensures
        offset_rel(a1 + b1, a2 + b2, dx, dy),
{
    assert forall|k: int| 0 <= k < (a1 + b1).len() implies (#[trigger] (a1 + b1)[k]).0 == (a2
        + b2)[k].0 + dx && (a1 + b1)[k].1 == (a2 + b2)[k].1 + dy by {
        if k < a1.len() {
            assert((a1 + b1)[k] == a1[k] && (a2 + b2)[k] == a2[k]);
        } else {
            assert((a1 + b1)[k] == b1[k - a1.len()] && (a2 + b2)[k] == b2[k - a1.len()]);
        }
    }
}

/// Translation invariance: moving the origin shifts every visited cell by
/// the same vector and changes nothing else about the traversal.
#[verifier::rlimit(60)]
pub proof fn lemma_curve_translation(
    o: Orientation,
    x1: int,
    y1: int,
    x2: int,
    y2: int,
    n: nat,
    m: nat,
)
    ensures
        offset_rel(curve_seq(o, x1, y1, n, m), curve_seq(o, x2, y2, n, m), x1 - x2, y1 - y2),
    decreases n + m,
{
    if n == 0 || m == 0 || is_base(n, m) {
    } else {
        let n1 = part1(o, n);
        let n2 = part2(o, n);
        let m1 = part1(o, m);
        let m2 = part2(o, m);
        let dx = x1 - x2;
        let dy = y1 - y2;
        match o {
            Orientation::A => {
                lemma_curve_translation(Orientation::B, x1, y1, x2, y2, n1, m1);
                lemma_curve_translation(Orientation::A, x1, y1 + n1, x2, y2 + n1, n2, m1);
                lemma_curve_translation(Orientation::A, x1 + m1, y1 + n1, x2 + m1, y2 + n1, n2, m2);
                lemma_curve_translation(Orientation::D, x1 + m1, y1, x2 + m1, y2, n1, m2);
                lemma_offset_concat(
                    curve_seq(Orientation::B, x1, y1, n1, m1),
                    curve_seq(Orientation::A, x1, y1 + n1, n2, m1),
                    curve_seq(Orientation::B, x2, y2, n1, m1),
                    curve_seq(Orientation::A, x2, y2 + n1, n2, m1),
                    dx,
                    dy,
                );
                lemma_offset_concat(
                    curve_seq(Orientation::B, x1, y1, n1, m1) + curve_seq(
                        Orientation::A,
                        x1,
                        y1 + n1,
                        n2,
                        m1,
                    ),
                    curve_seq(Orientation::A, x1 + m1, y1 + n1, n2, m2),
                    curve_seq(Orientation::B, x2, y2, n1, m1) + curve_seq(
                        Orientation::A,
                        x2,
                        y2 + n1,
                        n2,
                        m1,
                    ),
                    curve_seq(Orientation::A, x2 + m1, y2 + n1, n2, m2),
                    dx,
                    dy,
                );
                lemma_offset_concat(
                    curve_seq(Orientation::B, x1, y1, n1, m1) + curve_seq(
                        Orientation::A,
                        x1,
                        y1 + n1,
                        n2,
                        m1,
                    ) + curve_seq(Orientation::A, x1 + m1, y1 + n1, n2, m2),
                    curve_seq(Orientation::D, x1 + m1, y1, n1, m2),
                    curve_seq(Orientation::B, x2, y2, n1, m1) + curve_seq(
                        Orientation::A,
                        x2,
                        y2 + n1,
                        n2,
                        m1,
                    ) + curve_seq(Orientation::A, x2 + m1, y2 + n1, n2, m2),
                    curve_seq(Orientation::D, x2 + m1, y2, n1, m2),
                    dx,
                    dy,
                );
            },
            Orientation::B => {
                lemma_curve_translation(Orientation::A, x1, y1, x2, y2, n1, m1);
                lemma_curve_translation(Orientation::B, x1 + m1, y1, x2 + m1, y2, n1, m2);
                lemma_curve_translation(Orientation::B, x1 + m1, y1 + n1, x2 + m1, y2 + n1, n2, m2);
                lemma_curve_translation(Orientation::C, x1, y1 + n1, x2, y2 + n1, n2, m1);
                lemma_offset_concat(
                    curve_seq(Orientation::A, x1, y1, n1, m1),
                    curve_seq(Orientation::B, x1 + m1, y1, n1, m2),
                    curve_seq(Orientation::A, x2, y2, n1, m1),
                    curve_seq(Orientation::B, x2 + m1, y2, n1, m2),
                    dx,
                    dy,
                );
                lemma_offset_concat(
                    curve_seq(Orientation::A, x1, y1, n1, m1) + curve_seq(
                        Orientation::B,
                        x1 + m1,
                        y1,
                        n1,
                        m2,
                    ),
                    curve_seq(Orientation::B, x1 + m1, y1 + n1, n2, m2),
                    curve_seq(Orientation::A, x2, y2, n1, m1) + curve_seq(
                        Orientation::B,
                        x2 + m1,
                        y2,
                        n1,
                        m2,
                    ),
                    curve_seq(Orientation::B, x2 + m1, y2 + n1, n2, m2),
                    dx,
                    dy,
                );
                lemma_offset_concat(
                    curve_seq(Orientation::A, x1, y1, n1, m1) + curve_seq(
                        Orientation::B,
                        x1 + m1,
                        y1,
                        n1,
                        m2,
                    ) + curve_seq(Orientation::B, x1 + m1, y1 + n1, n2, m2),
                    curve_seq(Orientation::C, x1, y1 + n1, n2, m1),
                    curve_seq(Orientation::A, x2, y2, n1, m1) + curve_seq(
                        Orientation::B,
                        x2 + m1,
                        y2,
                        n1,
                        m2,
                    ) + curve_seq(Orientation::B, x2 + m1, y2 + n1, n2, m2),
                    curve_seq(Orientation::C, x2, y2 + n1, n2, m1),
                    dx,
                    dy,
                );
            },
            Orientation::C => {
                lemma_curve_translation(Orientation::D, x1 + m1, y1 + n1, x2 + m1, y2 + n1, n2, m2);
                lemma_curve_translation(Orientation::C, x1 + m1, y1, x2 + m1, y2, n1, m2);
                lemma_curve_translation(Orientation::C, x1, y1, x2, y2, n1, m1);
                lemma_curve_translation(Orientation::B, x1, y1 + n1, x2, y2 + n1, n2, m1);
                lemma_offset_concat(
                    curve_seq(Orientation::D, x1 + m1, y1 + n1, n2, m2),
                    curve_seq(Orientation::C, x1 + m1, y1, n1, m2),
                    curve_seq(Orientation::D, x2 + m1, y2 + n1, n2, m2),
                    curve_seq(Orientation::C, x2 + m1, y2, n1, m2),
                    dx,
                    dy,
                );
                lemma_offset_concat(
                    curve_seq(Orientation::D, x1 + m1, y1 + n1, n2, m2) + curve_seq(
                        Orientation::C,
                        x1 + m1,
                        y1,
                        n1,
                        m2,
                    ),
                    curve_seq(Orientation::C, x1, y1, n1, m1),
                    curve_seq(Orientation::D, x2 + m1, y2 + n1, n2, m2) + curve_seq(
                        Orientation::C,
                        x2 + m1,
                        y2,
                        n1,
                        m2,
                    ),
                    curve_seq(Orientation::C, x2, y2, n1, m1),
                    dx,
                    dy,
                );
                lemma_offset_concat(
                    curve_seq(Orientation::D, x1 + m1, y1 + n1, n2, m2) + curve_seq(
                        Orientation::C,
                        x1 + m1,
                        y1,
                        n1,
                        m2,
                    ) + curve_seq(Orientation::C, x1, y1, n1, m1),
                    curve_seq(Orientation::B, x1, y1 + n1, n2, m1),
                    curve_seq(Orientation::D, x2 + m1, y2 + n1, n2, m2) + curve_seq(
                        Orientation::C,
                        x2 + m1,
                        y2,
                        n1,
                        m2,
                    ) + curve_seq(Orientation::C, x2, y2, n1, m1),
                    curve_seq(Orientation::B, x2, y2 + n1, n2, m1),
                    dx,
                    dy,
                );
            },
            Orientation::D => {
                lemma_curve_translation(Orientation::C, x1 + m1, y1 + n1, x2 + m1, y2 + n1, n2, m2);
                lemma_curve_translation(Orientation::D, x1, y1 + n1, x2, y2 + n1, n2, m1);
                lemma_curve_translation(Orientation::D, x1, y1, x2, y2, n1, m1);
                lemma_curve_translation(Orientation::A, x1 + m1, y1, x2 + m1, y2, n1, m2);
                lemma_offset_concat(
                    curve_seq(Orientation::C, x1 + m1, y1 + n1, n2, m2),
                    curve_seq(Orientation::D, x1, y1 + n1, n2, m1),
                    curve_seq(Orientation::C, x2 + m1, y2 + n1, n2, m2),
                    curve_seq(Orientation::D, x2, y2 + n1, n2, m1),
                    dx,
                    dy,
                );
                lemma_offset_concat(
                    curve_seq(Orientation::C, x1 + m1, y1 + n1, n2, m2) + curve_seq(
                        Orientation::D,
                        x1,
                        y1 + n1,
                        n2,
                        m1,
                    ),
                    curve_seq(Orientation::D, x1, y1, n1, m1),
                    curve_seq(Orientation::C, x2 + m1, y2 + n1, n2, m2) + curve_seq(
                        Orientation::D,
                        x2,
                        y2 + n1,
                        n2,
                        m1,
                    ),
                    curve_seq(Orientation::D, x2, y2, n1, m1),
                    dx,
                    dy,
                );
                lemma_offset_concat(
                    curve_seq(Orientation::C, x1 + m1, y1 + n1, n2, m2) + curve_seq(
                        Orientation::D,
                        x1,
                        y1 + n1,
                        n2,
                        m1,
                    ) + curve_seq(Orientation::D, x1, y1, n1, m1),
                    curve_seq(Orientation::A, x1 + m1, y1, n1, m2),
                    curve_seq(Orientation::C, x2 + m1, y2 + n1, n2, m2) + curve_seq(
                        Orientation::D,
                        x2,
                        y2 + n1,
                        n2,
                        m1,
                    ) + curve_seq(Orientation::D, x2, y2, n1, m1),
                    curve_seq(Orientation::A, x2 + m1, y2, n1, m2),
                    dx,
                    dy,
                );
            },
        }
    }
}

proof fn lemma_adjacent_concat(a: Seq<(int, int)>, b: Seq<(int, int)>)
    requires
        adjacent_seq(a),
        adjacent_seq(b),
        a.len() >= 1,
        b.len() >= 1,
        adjacent_step(a.last(), b.first()),
    ensures
        adjacent_seq(a + b),
{
    assert forall|k: int| 0 <= k < (a + b).len() - 1 implies adjacent_step(
        #[trigger] (a + b)[k],
        (a + b)[k + 1],
    ) by {
        if k < a.len() - 1 {
            assert((a + b)[k] == a[k] && (a + b)[k + 1] == a[k + 1]);
        } else if k == a.len() - 1 {
            assert((a + b)[k] == a[a.len() - 1] && (a + b)[k + 1] == b[0]);
        } else {
            assert((a + b)[k] == b[k - a.len()] && (a + b)[k + 1] == b[k + 1 - a.len()]);
        }
    }
}

/// The partition of a near-square rectangle yields four near-square
/// sub-rectangles: the parity correction hands every child an orientation
/// whose odd-split dimension is the child's odd one.
proof fn lemma_balanced_children(o: Orientation, n: nat, m: nat)
    requires
        1 <= n,
        1 <= m,
        balanced(o, n, m),
        !is_base(n, m),
    ensures
        1 <= part1(o, n) && 1 <= part2(o, n) && 1 <= part1(o, m) && 1 <= part2(o, m),
        match o {
            Orientation::A => balanced(Orientation::B, part1(o, n), part1(o, m)) && balanced(
                Orientation::A,
                part2(o, n),
                part1(o, m),
            ) && balanced(Orientation::A, part2(o, n), part2(o, m)) && balanced(
                Orientation::D,
                part1(o, n),
                part2(o, m),
            ),
            Orientation::B => balanced(Orientation::A, part1(o, n), part1(o, m)) && balanced(
                Orientation::B,
                part1(o, n),
                part2(o, m),
            ) && balanced(Orientation::B, part2(o, n), part2(o, m)) && balanced(
                Orientation::C,
                part2(o, n),
                part1(o, m),
            ),
            Orientation::C => balanced(Orientation::D, part2(o, n), part2(o, m)) && balanced(
                Orientation::C,
                part1(o, n),
                part2(o, m),
            ) && balanced(Orientation::C, part1(o, n), part1(o, m)) && balanced(
                Orientation::B,
                part2(o, n),
                part1(o, m),
            ),
            Orientation::D => balanced(Orientation::C, part2(o, n), part2(o, m)) && balanced(
                Orientation::D,
                part2(o, n),
                part1(o, m),
            ) && balanced(Orientation::D, part1(o, n), part1(o, m)) && balanced(
                Orientation::A,
                part1(o, n),
                part2(o, m),
            ),
        },
{
}

/// The exit corner of each sub-rectangle sits next to the entry corner of
/// the sub-rectangle visited after it, and the outer corners are inherited
/// from the first and last sub-rectangle.
#[verifier::rlimit(60)]
proof fn lemma_seams_a(x: int, y: int, n: nat, m: nat)
    requires
        1 <= n,
        1 <= m,
        balanced(Orientation::A, n, m),
        !is_base(n, m),
    ensures
        adjacent_step(
            curve_exit(Orientation::B, x, y, part1(Orientation::A, n), part1(Orientation::A, m)),
            curve_entry(Orientation::A, x, y + part1(Orientation::A, n), part2(Orientation::A, n), part1(Orientation::A, m)),
        ),
        adjacent_step(
            curve_exit(Orientation::A, x, y + part1(Orientation::A, n), part2(Orientation::A, n), part1(Orientation::A, m)),
            curve_entry(Orientation::A, x + part1(Orientation::A, m), y + part1(Orientation::A, n), part2(Orientation::A, n), part2(Orientation::A, m)),
        ),
        adjacent_step(
            curve_exit(Orientation::A, x + part1(Orientation::A, m), y + part1(Orientation::A, n), part2(Orientation::A, n), part2(Orientation::A, m)),
            curve_entry(Orientation::D, x + part1(Orientation::A, m), y, part1(Orientation::A, n), part2(Orientation::A, m)),
        ),
        curve_entry(Orientation::A, x, y, n, m)
            == curve_entry(Orientation::B, x, y, part1(Orientation::A, n), part1(Orientation::A, m)),
        curve_exit(Orientation::A, x, y, n, m)
            == curve_exit(Orientation::D, x + part1(Orientation::A, m), y, part1(Orientation::A, n), part2(Orientation::A, m)),
{
    lemma_balanced_children(Orientation::A, n, m);
}

/// The exit corner of each sub-rectangle sits next to the entry corner of
/// the sub-rectangle visited after it, and the outer corners are inherited
/// from the first and last sub-rectangle.
#[verifier::rlimit(60)]
proof fn lemma_seams_b(x: int, y: int, n: nat, m: nat)
    requires
        1 <= n,
        1 <= m,
        balanced(Orientation::B, n, m),
        !is_base(n, m),
    ensures
        adjacent_step(
            curve_exit(Orientation::A, x, y, part1(Orientation::B, n), part1(Orientation::B, m)),
            curve_entry(Orientation::B, x + part1(Orientation::B, m), y, part1(Orientation::B, n), part2(Orientation::B, m)),
        ),
        adjacent_step(
            curve_exit(Orientation::B, x + part1(Orientation::B, m), y, part1(Orientation::B, n), part2(Orientation::B, m)),
            curve_entry(Orientation::B, x + part1(Orientation::B, m), y + part1(Orientation::B, n), part2(Orientation::B, n), part2(Orientation::B, m)),
        ),
        adjacent_step(
            curve_exit(Orientation::B, x + part1(Orientation::B, m), y + part1(Orientation::B, n), part2(Orientation::B, n), part2(Orientation::B, m)),
            curve_entry(Orientation::C, x, y + part1(Orientation::B, n), part2(Orientation::B, n), part1(Orientation::B, m)),
        ),
        curve_entry(Orientation::B, x, y, n, m)
            == curve_entry(Orientation::A, x, y, part1(Orientation::B, n), part1(Orientation::B, m)),
        curve_exit(Orientation::B, x, y, n, m)
            == curve_exit(Orientation::C, x, y + part1(Orientation::B, n), part2(Orientation::B, n), part1(Orientation::B, m)),
{
    lemma_balanced_children(Orientation::B, n, m);
}

/// The exit corner of each sub-rectangle sits next to the entry corner of
/// the sub-rectangle visited after it, and the outer corners are inherited
/// from the first and last sub-rectangle.
#[verifier::rlimit(60)]
proof fn lemma_seams_c(x: int, y: int, n: nat, m: nat)
    requires
        1 <= n,
        1 <= m,
        balanced(Orientation::C, n, m),
        !is_base(n, m),
    ensures
        adjacent_step(
            curve_exit(Orientation::D, x + part1(Orientation::C, m), y + part1(Orientation::C, n), part2(Orientation::C, n), part2(Orientation::C, m)),
            curve_entry(Orientation::C, x + part1(Orientation::C, m), y, part1(Orientation::C, n), part2(Orientation::C, m)),
        ),
        adjacent_step(
            curve_exit(Orientation::C, x + part1(Orientation::C, m), y, part1(Orientation::C, n), part2(Orientation::C, m)),
            curve_entry(Orientation::C, x, y, part1(Orientation::C, n), part1(Orientation::C, m)),
        ),
        adjacent_step(
            curve_exit(Orientation::C, x, y, part1(Orientation::C, n), part1(Orientation::C, m)),
            curve_entry(Orientation::B, x, y + part1(Orientation::C, n), part2(Orientation::C, n), part1(Orientation::C, m)),
        ),
        curve_entry(Orientation::C, x, y, n, m)
            == curve_entry(Orientation::D, x + part1(Orientation::C, m), y + part1(Orientation::C, n), part2(Orientation::C, n), part2(Orientation::C, m)),
        curve_exit(Orientation::C, x, y, n, m)
            == curve_exit(Orientation::B, x, y + part1(Orientation::C, n), part2(Orientation::C, n), part1(Orientation::C, m)),
{
    lemma_balanced_children(Orientation::C, n, m);
}

/// The exit corner of each sub-rectangle sits next to the entry corner of
/// the sub-rectangle visited after it, and the outer corners are inherited
/// from the first and last sub-rectangle.
#[verifier::rlimit(60)]
proof fn lemma_seams_d(x: int, y: int, n: nat, m: nat)
    requires
        1 <= n,
        1 <= m,
        balanced(Orientation::D, n, m),
        !is_base(n, m),
    ensures
        adjacent_step(
            curve_exit(Orientation::C, x + part1(Orientation::D, m), y + part1(Orientation::D, n), part2(Orientation::D, n), part2(Orientation::D, m)),
            curve_entry(Orientation::D, x, y + part1(Orientation::D, n), part2(Orientation::D, n), part1(Orientation::D, m)),
        ),
        adjacent_step(
            curve_exit(Orientation::D, x, y + part1(Orientation::D, n), part2(Orientation::D, n), part1(Orientation::D, m)),
            curve_entry(Orientation::D, x, y, part1(Orientation::D, n), part1(Orientation::D, m)),
        ),
        adjacent_step(
            curve_exit(Orientation::D, x, y, part1(Orientation::D, n), part1(Orientation::D, m)),
            curve_entry(Orientation::A, x + part1(Orientation::D, m), y, part1(Orientation::D, n), part2(Orientation::D, m)),
        ),
        curve_entry(Orientation::D, x, y, n, m)
            == curve_entry(Orientation::C, x + part1(Orientation::D, m), y + part1(Orientation::D, n), part2(Orientation::D, n), part2(Orientation::D, m)),
        curve_exit(Orientation::D, x, y, n, m)
            == curve_exit(Orientation::A, x + part1(Orientation::D, m), y, part1(Orientation::D, n), part2(Orientation::D, m)),
{
    lemma_balanced_children(Orientation::D, n, m);
}

/// Adjacency: on a near-square rectangle consecutive points of the curve
/// always differ in exactly one axis, by exactly 1, and the curve enters and
/// leaves the rectangle at the corners given by `curve_entry` / `curve_exit`.
pub proof fn lemma_curve_adjacency(o: Orientation, x: int, y: int, n: nat, m: nat)
    requires
        1 <= n,
        1 <= m,
        balanced(o, n, m),
    ensures
        region_ok(o, n, m),
        curve_seq(o, x, y, n, m).len() == n * m,
        curve_seq(o, x, y, n, m).first() == curve_entry(o, x, y, n, m),
        curve_seq(o, x, y, n, m).last() == curve_exit(o, x, y, n, m),
        adjacent_seq(curve_seq(o, x, y, n, m)),
{
    match o {
        Orientation::A => lemma_adjacency_a(x, y, n, m),
        Orientation::B => lemma_adjacency_b(x, y, n, m),
        Orientation::C => lemma_adjacency_c(x, y, n, m),
        Orientation::D => lemma_adjacency_d(x, y, n, m),
    }
}

#[verifier::rlimit(90)]
proof fn lemma_adjacency_a(x: int, y: int, n: nat, m: nat)
    requires
        1 <= n,
        1 <= m,
        balanced(Orientation::A, n, m),
    ensures
        region_ok(Orientation::A, n, m),
        curve_seq(Orientation::A, x, y, n, m).len() == n * m,
        curve_seq(Orientation::A, x, y, n, m).first() == curve_entry(Orientation::A, x, y, n, m),
        curve_seq(Orientation::A, x, y, n, m).last() == curve_exit(Orientation::A, x, y, n, m),
        adjacent_seq(curve_seq(Orientation::A, x, y, n, m)),
    decreases n + m,
{
    let o = Orientation::A;
    let s = curve_seq(o, x, y, n, m);
    if is_base(n, m) {
        lemma_curve_len(o, x, y, n, m);
        if n * m == 2 {
            assert(adjacent_step(s[0], s[1]));
        } else if n == 2 && m == 2 {
            assert(adjacent_step(s[0], s[1]));
            assert(adjacent_step(s[1], s[2]));
            assert(adjacent_step(s[2], s[3]));
        }
    } else {
        let n1 = part1(o, n);
        let n2 = part2(o, n);
        let m1 = part1(o, m);
        let m2 = part2(o, m);
        lemma_balanced_children(o, n, m);
        lemma_seams_a(x, y, n, m);
        let sa = curve_seq(Orientation::B, x, y, n1, m1);
        let sb = curve_seq(Orientation::A, x, y + n1, n2, m1);
        let sc = curve_seq(Orientation::A, x + m1, y + n1, n2, m2);
        let sd = curve_seq(Orientation::D, x + m1, y, n1, m2);
        lemma_adjacency_b(x, y, n1, m1);
        lemma_adjacency_a(x, y + n1, n2, m1);
        lemma_adjacency_a(x + m1, y + n1, n2, m2);
        lemma_adjacency_d(x + m1, y, n1, m2);
        assert(sa.len() >= 1 && sb.len() >= 1 && sc.len() >= 1 && sd.len() >= 1)
            by (nonlinear_arith)
            requires
                sa.len() == n1 * m1,
                sb.len() == n2 * m1,
                sc.len() == n2 * m2,
                sd.len() == n1 * m2,
                1 <= n1 && 1 <= n2 && 1 <= m1 && 1 <= m2,
        ;
        lemma_adjacent_concat(sa, sb);
        assert((sa + sb).last() == sb.last());
        lemma_adjacent_concat(sa + sb, sc);
        assert((sa + sb + sc).last() == sc.last());
        lemma_adjacent_concat(sa + sb + sc, sd);
        assert(s.first() == sa.first());
        assert(s.last() == sd.last());
        lemma_curve_len(o, x, y, n, m);
    }
}

#[verifier::rlimit(90)]
proof fn lemma_adjacency_b(x: int, y: int, n: nat, m: nat)
    requires
        1 <= n,
        1 <= m,
        balanced(Orientation::B, n, m),
    ensures
        region_ok(Orientation::B, n, m),
        curve_seq(Orientation::B, x, y, n, m).len() == n * m,
        curve_seq(Orientation::B, x, y, n, m).first() == curve_entry(Orientation::B, x, y, n, m),
        curve_seq(Orientation::B, x, y, n, m).last() == curve_exit(Orientation::B, x, y, n, m),
        adjacent_seq(curve_seq(Orientation::B, x, y, n, m)),
    decreases n + m,
{
    let o = Orientation::B;
    let s = curve_seq(o, x, y, n, m);
    if is_base(n, m) {
        lemma_curve_len(o, x, y, n, m);
        if n * m == 2 {
            assert(adjacent_step(s[0], s[1]));
        } else if n == 2 && m == 2 {
            assert(adjacent_step(s[0], s[1]));
            assert(adjacent_step(s[1], s[2]));
            assert(adjacent_step(s[2], s[3]));
        }
    } else {
        let n1 = part1(o, n);
        let n2 = part2(o, n);
        let m1 = part1(o, m);
        let m2 = part2(o, m);
        lemma_balanced_children(o, n, m);
        lemma_seams_b(x, y, n, m);
        let sa = curve_seq(Orientation::A, x, y, n1, m1);
        let sb = curve_seq(Orientation::B, x + m1, y, n1, m2);
        let sc = curve_seq(Orientation::B, x + m1, y + n1, n2, m2);
        let sd = curve_seq(Orientation::C, x, y + n1, n2, m1);
        lemma_adjacency_a(x, y, n1, m1);
        lemma_adjacency_b(x + m1, y, n1, m2);
        lemma_adjacency_b(x + m1, y + n1, n2, m2);
        lemma_adjacency_c(x, y + n1, n2, m1);
        assert(sa.len() >= 1 && sb.len() >= 1 && sc.len() >= 1 && sd.len() >= 1)
            by (nonlinear_arith)
            requires
                sa.len() == n1 * m1,
                sb.len() == n1 * m2,
                sc.len() == n2 * m2,
                sd.len() == n2 * m1,
                1 <= n1 && 1 <= n2 && 1 <= m1 && 1 <= m2,
        ;
        lemma_adjacent_concat(sa, sb);
        assert((sa + sb).last() == sb.last());
        lemma_adjacent_concat(sa + sb, sc);
        assert((sa + sb + sc).last() == sc.last());
        lemma_adjacent_concat(sa + sb + sc, sd);
        assert(s.first() == sa.first());
        assert(s.last() == sd.last());
        lemma_curve_len(o, x, y, n, m);
    }
}

#[verifier::rlimit(90)]
proof fn lemma_adjacency_c(x: int, y: int, n: nat, m: nat)
    requires
        1 <= n,
        1 <= m,
        balanced(Orientation::C, n, m),
    ensures
        region_ok(Orientation::C, n, m),
        curve_seq(Orientation::C, x, y, n, m).len() == n * m,
        curve_seq(Orientation::C, x, y, n, m).first() == curve_entry(Orientation::C, x, y, n, m),
        curve_seq(Orientation::C, x, y, n, m).last() == curve_exit(Orientation::C, x, y, n, m),
        adjacent_seq(curve_seq(Orientation::C, x, y, n, m)),
    decreases n + m,
{
    let o = Orientation::C;
    let s = curve_seq(o, x, y, n, m);
    if is_base(n, m) {
        lemma_curve_len(o, x, y, n, m);
        if n * m == 2 {
            assert(adjacent_step(s[0], s[1]));
        } else if n == 2 && m == 2 {
            assert(adjacent_step(s[0], s[1]));
            assert(adjacent_step(s[1], s[2]));
            assert(adjacent_step(s[2], s[3]));
        }
    } else {
        let n1 = part1(o, n);
        let n2 = part2(o, n);
        let m1 = part1(o, m);
        let m2 = part2(o, m);
        lemma_balanced_children(o, n, m);
        lemma_seams_c(x, y, n, m);
        let sa = curve_seq(Orientation::D, x + m1, y + n1, n2, m2);
        let sb = curve_seq(Orientation::C, x + m1, y, n1, m2);
        let sc = curve_seq(Orientation::C, x, y, n1, m1);
        let sd = curve_seq(Orientation::B, x, y + n1, n2, m1);
        lemma_adjacency_d(x + m1, y + n1, n2, m2);
        lemma_adjacency_c(x + m1, y, n1, m2);
        lemma_adjacency_c(x, y, n1, m1);
        lemma_adjacency_b(x, y + n1, n2, m1);
        assert(sa.len() >= 1 && sb.len() >= 1 && sc.len() >= 1 && sd.len() >= 1)
            by (nonlinear_arith)
            requires
                sa.len() == n2 * m2,
                sb.len() == n1 * m2,
                sc.len() == n1 * m1,
                sd.len() == n2 * m1,
                1 <= n1 && 1 <= n2 && 1 <= m1 && 1 <= m2,
        ;
        lemma_adjacent_concat(sa, sb);
        assert((sa + sb).last() == sb.last());
        lemma_adjacent_concat(sa + sb, sc);
        assert((sa + sb + sc).last() == sc.last());
        lemma_adjacent_concat(sa + sb + sc, sd);
        assert(s.first() == sa.first());
        assert(s.last() == sd.last());
        lemma_curve_len(o, x, y, n, m);
    }
}

#[verifier::rlimit(90)]
proof fn lemma_adjacency_d(x: int, y: int, n: nat, m: nat)
    requires
        1 <= n,
        1 <= m,
        balanced(Orientation::D, n, m),
    ensures
        region_ok(Orientation::D, n, m),
        curve_seq(Orientation::D, x, y, n, m).len() == n * m,
        curve_seq(Orientation::D, x, y, n, m).first() == curve_entry(Orientation::D, x, y, n, m),
        curve_seq(Orientation::D, x, y, n, m).last() == curve_exit(Orientation::D, x, y, n, m),
        adjacent_seq(curve_seq(Orientation::D, x, y, n, m)),
    decreases n + m,
{
    let o = Orientation::D;
    let s = curve_seq(o, x, y, n, m);
    if is_base(n, m) {
        lemma_curve_len(o, x, y, n, m);
        if n * m == 2 {
            assert(adjacent_step(s[0], s[1]));
        } else if n == 2 && m == 2 {
            assert(adjacent_step(s[0], s[1]));
            assert(adjacent_step(s[1], s[2]));
            assert(adjacent_step(s[2], s[3]));
        }
    } else {
        let n1 = part1(o, n);
        let n2 = part2(o, n);
        let m1 = part1(o, m);
        let m2 = part2(o, m);
        lemma_balanced_children(o, n, m);
        lemma_seams_d(x, y, n, m);
        let sa = curve_seq(Orientation::C, x + m1, y + n1, n2, m2);
        let sb = curve_seq(Orientation::D, x, y + n1, n2, m1);
        let sc = curve_seq(Orientation::D, x, y, n1, m1);
        let sd = curve_seq(Orientation::A, x + m1, y, n1, m2);
        lemma_adjacency_c(x + m1, y + n1, n2, m2);
        lemma_adjacency_d(x, y + n1, n2, m1);
        lemma_adjacency_d(x, y, n1, m1);
        lemma_adjacency_a(x + m1, y, n1, m2);
        assert(sa.len() >= 1 && sb.len() >= 1 && sc.len() >= 1 && sd.len() >= 1)
            by (nonlinear_arith)
            requires
                sa.len() == n2 * m2,
                sb.len() == n2 * m1,
                sc.len() == n1 * m1,
                sd.len() == n1 * m2,
                1 <= n1 && 1 <= n2 && 1 <= m1 && 1 <= m2,
        ;
        lemma_adjacent_concat(sa, sb);
        assert((sa + sb).last() == sb.last());
        lemma_adjacent_concat(sa + sb, sc);
        assert((sa + sb + sc).last() == sc.last());
        lemma_adjacent_concat(sa + sb + sc, sd);
        assert(s.first() == sa.first());
        assert(s.last() == sd.last());
        lemma_curve_len(o, x, y, n, m);
    }
}

} // verus!
