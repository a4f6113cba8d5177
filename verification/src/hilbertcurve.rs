use vstd::prelude::*;

use crate::model::{curve_seq, is_base, part1, part2, region_ok};
use crate::point::HPoint;

verus! {

/// The four rotational/reflective states a rectangle can be traversed in,
/// named after the direction the traversal leaves through: up, left, down,
/// right.
#[derive(Debug, Clone, Copy, PartialEq, Eq, Structural)]
pub enum Orientation {
    A,
    B,
    C,
    D,
}

/// The curve family. Only the base variant is implemented; the enumeration
/// is the extension point for further families.
#[derive(Debug, Clone, Copy, PartialEq, Eq, Structural)]
pub enum HCType {
    H0,
}

/// Construction fails only when a requested dimension is zero.
#[derive(Debug, Clone, Copy, PartialEq, Eq, Structural)]
pub enum CurveError {
    InvalidDimensions,
}

/// A rectangular sub-region of the grid being decomposed: an orientation,
/// the lower-left cell, a height `n` and a width `m`.
#[derive(Debug, Clone, Copy, PartialEq, Eq, Structural)]
pub struct QuasiSquare {
    pub orientation: Orientation,
    pub origin: HPoint,
    pub n: usize,
    pub m: usize,
}

/// The point stands for the cell `c` and carries the curve position `k`.
pub open spec fn point_at(p: HPoint, c: (int, int), k: int) -> bool {
    p.x == c.0 && p.y == c.1 && p.i == k
}

/// A child region as the partition builds it: a fresh origin point and the
/// split dimensions.
pub open spec fn mk_child(o: Orientation, cx: int, cy: int, cn: nat, cm: nat) -> QuasiSquare {
    QuasiSquare {
        orientation: o,
        origin: HPoint { x: cx as u32, y: cy as u32, i: 0 },
        n: cn as usize,
        m: cm as usize,
    }
}

/// The child that keeps the parent's origin point, fields and all.
pub open spec fn corner_child(parent: QuasiSquare, o: Orientation, cn: nat, cm: nat) -> QuasiSquare {
    QuasiSquare { orientation: o, origin: parent.origin, n: cn as usize, m: cm as usize }
}

impl QuasiSquare {
    /// The rectangle sits strictly below the `u32` coordinate limit, so
    /// every split point, including the origin of an empty sub-rectangle,
    /// is still a `u32` coordinate.
    pub open spec fn wf(self) -> bool {
        &&& self.origin.x + self.m <= u32::MAX
        &&& self.origin.y + self.n <= u32::MAX
    }

    /// The cells this region's curve visits, in visiting order.
    pub open spec fn cells(self) -> Seq<(int, int)> {
        curve_seq(
            self.orientation,
            self.origin.x as int,
            self.origin.y as int,
            self.n as nat,
            self.m as nat,
        )
    }

    /// The four sub-regions of the partition, in the order they are pushed;
    /// they are consumed from the back, so the traversal visits them in the
    /// reverse of this order.
    pub open spec fn children(self) -> Seq<QuasiSquare> {
        let x = self.origin.x as int;
        let y = self.origin.y as int;
        let n1 = part1(self.orientation, self.n as nat);
        let n2 = part2(self.orientation, self.n as nat);
        let m1 = part1(self.orientation, self.m as nat);
        let m2 = part2(self.orientation, self.m as nat);
        match self.orientation {
            Orientation::A => seq![
                mk_child(Orientation::D, x + m1, y, n1, m2),
                mk_child(Orientation::A, x + m1, y + n1, n2, m2),
                mk_child(Orientation::A, x, y + n1, n2, m1),
                corner_child(self, Orientation::B, n1, m1),
            ],
            Orientation::B => seq![
                mk_child(Orientation::C, x, y + n1, n2, m1),
                mk_child(Orientation::B, x + m1, y + n1, n2, m2),
                mk_child(Orientation::B, x + m1, y, n1, m2),
                corner_child(self, Orientation::A, n1, m1),
            ],
            Orientation::C => seq![
                mk_child(Orientation::B, x, y + n1, n2, m1),
                corner_child(self, Orientation::C, n1, m1),
                mk_child(Orientation::C, x + m1, y, n1, m2),
                mk_child(Orientation::D, x + m1, y + n1, n2, m2),
            ],
            Orientation::D => seq![
                mk_child(Orientation::A, x + m1, y, n1, m2),
                corner_child(self, Orientation::D, n1, m1),
                mk_child(Orientation::D, x, y + n1, n2, m1),
                mk_child(Orientation::C, x + m1, y + n1, n2, m2),
            ],
        }
    }
}

/// Halves a dimension. Orientations `A`/`B` keep the first part even,
/// `C`/`D` the second one, swapping the halves when needed.
fn halve(o: Orientation, d: usize) -> (r: (usize, usize))
    ensures
        r.0 == part1(o, d as nat),
        r.1 == part2(o, d as nat),
{
    let d1 = d / 2;
    let d2 = d - d1;
    match o {
        Orientation::A | Orientation::B => {
            if d1 % 2 == 1 {
                (d2, d1)
            } else {
                (d1, d2)
            }
        },
        Orientation::C | Orientation::D => {
            if d2 % 2 == 1 {
                (d2, d1)
            } else {
                (d1, d2)
            }
        },
    }
}

impl QuasiSquare {
    /// Performs a quasi-square partition.
    ///
    /// A quasi-square is partitioned into 4 inner quasi-squares. According
    /// to the orientation, the inner quasi-squares are orientated
    /// differently:
    ///
    /// A -> [D, A, A, B]
    /// B -> [C, B, B, A]
    /// C -> [B, C, C, D]
    /// D -> [A, D, D, C]
    pub fn partition(&self, partitions: &mut Vec<QuasiSquare>)
        requires
            self.wf(),
            !is_base(self.n as nat, self.m as nat),
        ensures
            final(partitions)@ == old(partitions)@ + self.children(),
    {
        let (n1, n2) = halve(self.orientation, self.n);
        let (m1, m2) = halve(self.orientation, self.m);
        match self.orientation {
            Orientation::A => {
                partitions.push(
                    QuasiSquare {
                        orientation: Orientation::D,
                        origin: HPoint::new(self.origin.x + m1 as u32, self.origin.y),
                        n: n1,
                        m: m2,
                    },
                );
                partitions.push(
                    QuasiSquare {
                        orientation: Orientation::A,
                        origin: HPoint::new(
                            self.origin.x + m1 as u32,
                            self.origin.y + n1 as u32,
                        ),
                        n: n2,
                        m: m2,
                    },
                );
                partitions.push(
                    QuasiSquare {
                        orientation: Orientation::A,
                        origin: HPoint::new(self.origin.x, self.origin.y + n1 as u32),
                        n: n2,
                        m: m1,
                    },
                );
                partitions.push(
                    QuasiSquare { orientation: Orientation::B, origin: self.origin, n: n1, m: m1 },
                );
            },
            Orientation::B => {
                partitions.push(
                    QuasiSquare {
                        orientation: Orientation::C,
                        origin: HPoint::new(self.origin.x, self.origin.y + n1 as u32),
                        n: n2,
                        m: m1,
                    },
                );
                partitions.push(
                    QuasiSquare {
                        orientation: Orientation::B,
                        origin: HPoint::new(
                            self.origin.x + m1 as u32,
                            self.origin.y + n1 as u32,
                        ),
                        n: n2,
                        m: m2,
                    },
                );
                partitions.push(
                    QuasiSquare {
                        orientation: Orientation::B,
                        origin: HPoint::new(self.origin.x + m1 as u32, self.origin.y),
                        n: n1,
                        m: m2,
                    },
                );
                partitions.push(
                    QuasiSquare { orientation: Orientation::A, origin: self.origin, n: n1, m: m1 },
                );
            },
            Orientation::C => {
                partitions.push(
                    QuasiSquare {
                        orientation: Orientation::B,
                        origin: HPoint::new(self.origin.x, self.origin.y + n1 as u32),
                        n: n2,
                        m: m1,
                    },
                );
                partitions.push(
                    QuasiSquare { orientation: Orientation::C, origin: self.origin, n: n1, m: m1 },
                );
                partitions.push(
                    QuasiSquare {
                        orientation: Orientation::C,
                        origin: HPoint::new(self.origin.x + m1 as u32, self.origin.y),
                        n: n1,
                        m: m2,
                    },
                );
                partitions.push(
                    QuasiSquare {
                        orientation: Orientation::D,
                        origin: HPoint::new(
                            self.origin.x + m1 as u32,
                            self.origin.y + n1 as u32,
                        ),
                        n: n2,
                        m: m2,
                    },
                );
            },
            Orientation::D => {
                partitions.push(
                    QuasiSquare {
                        orientation: Orientation::A,
                        origin: HPoint::new(self.origin.x + m1 as u32, self.origin.y),
                        n: n1,
                        m: m2,
                    },
                );
                partitions.push(
                    QuasiSquare { orientation: Orientation::D, origin: self.origin, n: n1, m: m1 },
                );
                partitions.push(
                    QuasiSquare {
                        orientation: Orientation::D,
                        origin: HPoint::new(self.origin.x, self.origin.y + n1 as u32),
                        n: n2,
                        m: m1,
                    },
                );
                partitions.push(
                    QuasiSquare {
                        orientation: Orientation::C,
                        origin: HPoint::new(
                            self.origin.x + m1 as u32,
                            self.origin.y + n1 as u32,
                        ),
                        n: n2,
                        m: m2,
                    },
                );
            },
        }
        proof {
            assert(partitions@ =~= old(partitions)@ + self.children());
        }
    }
}

impl QuasiSquare {
    /// Writes the points this region's curve visits into
    /// `coordinates[index ..]`, in visiting order, assigning each point its
    /// position along the whole curve. Nothing outside that range is
    /// touched.
    #[verifier::rlimit(90)]
    pub fn build_curve(&self, coordinates: &mut Vec<HPoint>, index: usize)
        requires
            self.wf(),
            index + self.n * self.m <= usize::MAX,
            index + self.n * self.m <= old(coordinates)@.len(),
        ensures
            final(coordinates)@.len() == old(coordinates)@.len(),
            forall|j: int| 0 <= j < index ==> final(coordinates)@[j] == old(coordinates)@[j],
            forall|j: int|
                index + self.n * self.m <= j < old(coordinates)@.len() ==> final(coordinates)@[j]
                    == old(coordinates)@[j],
            forall|j: int|
                0 <= j < self.n * self.m ==> point_at(
                    final(coordinates)@[index + j],
                    self.cells()[j],
                    index + j,
                ),
        decreases self.n + self.m,
    {
        if self.n == 0 || self.m == 0 {
            proof {
                assert(self.n * self.m == 0) by (nonlinear_arith)
                    requires
                        self.n == 0 || self.m == 0,
                ;
            }
        } else if self.n * self.m <= 4 && self.n <= 2 && self.m <= 2 {
            self.build_base(coordinates, index);
        } else {
            proof {
                if is_base(self.n as nat, self.m as nat) {
                    assert(self.n <= 2 && self.m <= 2);
                    assert(self.n * self.m <= 4) by (nonlinear_arith)
                        requires
                            self.n <= 2 && self.m <= 2,
                    ;
                }
            }
            let mut qsv: Vec<QuasiSquare> = Vec::new();
            self.partition(&mut qsv);
            let ghost ch = self.children();
            proof {
                lemma_children_props(*self);
            }
            let qa = qsv.pop().unwrap();
            proof {
                assert(qa == ch[3] && qa.wf());
            }
            qa.build_curve(coordinates, index);
            let ghost after_a = coordinates@;
            let ia = index + qa.n * qa.m;
            let qb = qsv.pop().unwrap();
            proof {
                assert(qb == ch[2] && qb.wf());
            }
            qb.build_curve(coordinates, ia);
            let ghost after_b = coordinates@;
            let ib = ia + qb.n * qb.m;
            let qc = qsv.pop().unwrap();
            proof {
                assert(qc == ch[1] && qc.wf());
            }
            qc.build_curve(coordinates, ib);
            let ghost after_c = coordinates@;
            let ic = ib + qc.n * qc.m;
            let qd = qsv.pop().unwrap();
            proof {
                assert(qd == ch[0] && qd.wf());
            }
            qd.build_curve(coordinates, ic);
            proof {
                let la = qa.cells().len() as int;
                let lb = qb.cells().len() as int;
                let lc = qc.cells().len() as int;
                assert forall|j: int| 0 <= j < self.n * self.m implies point_at(
                    coordinates@[index + j],
                    self.cells()[j],
                    index + j,
                ) by {
                    if j < la {
                        assert(self.cells()[j] == qa.cells()[j]);
                        assert(after_a[index + j] == coordinates@[index + j]);
                    } else if j < la + lb {
                        assert(self.cells()[j] == qb.cells()[j - la]);
                        assert(after_b[index + j] == coordinates@[index + j]);
                    } else if j < la + lb + lc {
                        assert(self.cells()[j] == qc.cells()[j - la - lb]);
                        assert(after_c[index + j] == coordinates@[index + j]);
                    } else {
                        assert(self.cells()[j] == qd.cells()[j - la - lb - lc]);
                    }
                }
            }
        }
    }

    /// Lays out one of the four terminal patterns.
    #[verifier::rlimit(90)]
    fn build_base(&self, coordinates: &mut Vec<HPoint>, index: usize)
        requires
            self.wf(),
            is_base(self.n as nat, self.m as nat),
            index + self.n * self.m <= usize::MAX,
            index + self.n * self.m <= old(coordinates)@.len(),
        ensures
            final(coordinates)@.len() == old(coordinates)@.len(),
            forall|j: int| 0 <= j < index ==> final(coordinates)@[j] == old(coordinates)@[j],
            forall|j: int|
                index + self.n * self.m <= j < old(coordinates)@.len() ==> final(coordinates)@[j]
                    == old(coordinates)@[j],
            forall|j: int|
                0 <= j < self.n * self.m ==> point_at(
                    final(coordinates)@[index + j],
                    self.cells()[j],
                    index + j,
                ),
    {
        let ghost gx = self.origin.x as int;
        let ghost gy = self.origin.y as int;
        if self.n == 1 && self.m == 1 {
                proof {
                    assert(self.n * self.m == 1) by (nonlinear_arith)
                        requires self.n == 1 && self.m == 1;
                }
                let mut p = self.origin;
                p.set_index(index as u64);
                coordinates.set(index, p);
                proof {
                    assert(self.cells() =~= seq![(gx, gy)]);
                }
        } else if self.n == 1 {
                proof {
                    assert(self.m == 2);
                    assert(self.n * self.m == 2) by (nonlinear_arith)
                        requires self.n == 1 && self.m == 2;
                }
                match self.orientation {
                    Orientation::A | Orientation::B => {
                        let mut p = self.origin;
                        p.set_index(index as u64);
                        coordinates.set(index, p);
                        let mut q = HPoint::new(self.origin.x + 1, self.origin.y);
                        q.set_index((index + 1) as u64);
                        coordinates.set(index + 1, q);
                        proof {
                            assert(self.cells() =~= seq![(gx, gy), (gx + 1, gy)]);
                        }
                    },
                    Orientation::C | Orientation::D => {
                        let mut p = self.origin;
                        p.set_index((index + 1) as u64);
                        coordinates.set(index + 1, p);
                        let mut q = HPoint::new(self.origin.x + 1, self.origin.y);
                        q.set_index(index as u64);
                        coordinates.set(index, q);
                        proof {
                            assert(self.cells() =~= seq![(gx + 1, gy), (gx, gy)]);
                        }
                    },
                }
        } else if self.m == 1 {
                proof {
                    assert(self.n == 2);
                    assert(self.n * self.m == 2) by (nonlinear_arith)
                        requires self.n == 2 && self.m == 1;
                }
                match self.orientation {
                    Orientation::A | Orientation::B => {
                        let mut p = self.origin;
                        p.set_index(index as u64);
                        coordinates.set(index, p);
                        let mut q = HPoint::new(self.origin.x, self.origin.y + 1);
                        q.set_index((index + 1) as u64);
                        coordinates.set(index + 1, q);
                        proof {
                            assert(self.cells() =~= seq![(gx, gy), (gx, gy + 1)]);
                        }
                    },
                    Orientation::C | Orientation::D => {
                        let mut p = self.origin;
                        p.set_index((index + 1) as u64);
                        coordinates.set(index + 1, p);
                        let mut q = HPoint::new(self.origin.x, self.origin.y + 1);
                        q.set_index(index as u64);
                        coordinates.set(index, q);
                        proof {
                            assert(self.cells() =~= seq![(gx, gy + 1), (gx, gy)]);
                        }
                    },
                }
        } else {
                proof {
                    assert(self.n == 2 && self.m == 2);
                    assert(self.n * self.m == 4) by (nonlinear_arith)
                        requires self.n == 2 && self.m == 2;
                }
                let x0 = self.origin.x;
                let y0 = self.origin.y;
                match self.orientation {
                    Orientation::A => {
                        self.write_cell(coordinates, index, x0, y0);
                        self.write_cell(coordinates, index + 1, x0, y0 + 1);
                        self.write_cell(coordinates, index + 2, x0 + 1, y0 + 1);
                        self.write_cell(coordinates, index + 3, x0 + 1, y0);
                        proof {
                            assert(self.cells() =~= seq![
                                (gx, gy),
                                (gx, gy + 1),
                                (gx + 1, gy + 1),
                                (gx + 1, gy),
                            ]);
                        }
                    },
                    Orientation::B => {
                        self.write_cell(coordinates, index, x0, y0);
                        self.write_cell(coordinates, index + 1, x0 + 1, y0);
                        self.write_cell(coordinates, index + 2, x0 + 1, y0 + 1);
                        self.write_cell(coordinates, index + 3, x0, y0 + 1);
                        proof {
                            assert(self.cells() =~= seq![
                                (gx, gy),
                                (gx + 1, gy),
                                (gx + 1, gy + 1),
                                (gx, gy + 1),
                            ]);
                        }
                    },
                    Orientation::C => {
                        self.write_cell(coordinates, index, x0 + 1, y0 + 1);
                        self.write_cell(coordinates, index + 1, x0 + 1, y0);
                        self.write_cell(coordinates, index + 2, x0, y0);
                        self.write_cell(coordinates, index + 3, x0, y0 + 1);
                        proof {
                            assert(self.cells() =~= seq![
                                (gx + 1, gy + 1),
                                (gx + 1, gy),
                                (gx, gy),
                                (gx, gy + 1),
                            ]);
                        }
                    },
                    Orientation::D => {
                        self.write_cell(coordinates, index, x0 + 1, y0 + 1);
                        self.write_cell(coordinates, index + 1, x0, y0 + 1);
                        self.write_cell(coordinates, index + 2, x0, y0);
                        self.write_cell(coordinates, index + 3, x0 + 1, y0);
                        proof {
                            assert(self.cells() =~= seq![
                                (gx + 1, gy + 1),
                                (gx, gy + 1),
                                (gx, gy),
                                (gx + 1, gy),
                            ]);
                        }
                    },
                }
        }
    }

    /// Writes one freshly indexed point of a 2-by-2 block.
    fn write_cell(&self, coordinates: &mut Vec<HPoint>, k: usize, cx: u32, cy: u32)
        requires
            k < old(coordinates)@.len(),
        ensures
            final(coordinates)@ == old(coordinates)@.update(
                k as int,
                (HPoint { x: cx, y: cy, i: k as u64 }),
            ),
    {
        let mut p = HPoint::new(cx, cy);
        p.set_index(k as u64);
        coordinates.set(k, p);
        proof {
            assert(coordinates@ =~= old(coordinates)@.update(
                k as int,
                (HPoint { x: cx, y: cy, i: k as u64 }),
            ));
        }
    }
}

/// What the recursion step rests on: the four sub-regions are well-formed
/// and strictly smaller, their curves concatenate (in consumption order) to
/// the parent's curve, and their cell counts add up to the parent's.
#[verifier::rlimit(90)]
proof fn lemma_children_props(qs: QuasiSquare)
    requires
        qs.wf(),
        1 <= qs.n,
        1 <= qs.m,
        !is_base(qs.n as nat, qs.m as nat),
    ensures
        forall|k: int| 0 <= k < 4 ==> (#[trigger] qs.children()[k]).wf(),
        forall|k: int|
            0 <= k < 4 ==> (#[trigger] qs.children()[k]).n + qs.children()[k].m < qs.n + qs.m,
        forall|k: int|
            0 <= k < 4 ==> (#[trigger] qs.children()[k]).cells().len() == qs.children()[k].n
                * qs.children()[k].m,
        qs.cells() == qs.children()[3].cells() + qs.children()[2].cells() + qs.children()[1].cells()
            + qs.children()[0].cells(),
        qs.children()[3].n * qs.children()[3].m + qs.children()[2].n * qs.children()[2].m
            + qs.children()[1].n * qs.children()[1].m + qs.children()[0].n * qs.children()[0].m
            == qs.n * qs.m,
{
    let o = qs.orientation;
    let n = qs.n as nat;
    let m = qs.m as nat;
    let n1 = part1(o, n);
    let n2 = part2(o, n);
    let m1 = part1(o, m);
    let m2 = part2(o, m);
    assert((n1 + n2) * (m1 + m2) == n1 * m1 + n1 * m2 + n2 * m1 + n2 * m2) by (nonlinear_arith);
    assert(n1 == n ==> n == 1);
    assert(n2 == n ==> n == 1);
    assert(m1 == m ==> m == 1);
    assert(m2 == m ==> m == 1);
    let ch = qs.children();
    assert(ch[0].wf() && ch[1].wf() && ch[2].wf() && ch[3].wf());
    assert forall|k: int| 0 <= k < 4 implies (#[trigger] ch[k]).cells().len() == ch[k].n
        * ch[k].m by {
        crate::model::lemma_curve_len(
            ch[k].orientation,
            ch[k].origin.x as int,
            ch[k].origin.y as int,
            ch[k].n as nat,
            ch[k].m as nat,
        );
    }
    assert(qs.cells() =~= ch[3].cells() + ch[2].cells() + ch[1].cells() + ch[0].cells());
}

/// The built curve: the family tag, the filled buffer, and the rectangle it
/// was built over.
#[derive(Debug)]
pub struct HilbertCurve {
    pub hc_type: HCType,
    pub curve: Vec<HPoint>,
    pub qs: QuasiSquare,
}

impl HilbertCurve {
    /// The buffer holds, at every position `j`, the `j`-th cell of the
    /// model curve of the rectangle, carrying `j` as its assigned position.
    pub open spec fn curve_matches(self) -> bool {
        &&& self.curve@.len() == self.qs.n * self.qs.m
        &&& forall|j: int|
            0 <= j < self.curve@.len() ==> point_at(self.curve@[j], self.qs.cells()[j], j)
    }

    /// Builds the curve over a `height` by `width` rectangle anchored at
    /// `origin`: any nonzero dimensions, square or not, succeed. Fails
    /// exactly when one of the dimensions is zero.
    pub fn new(
        height: usize,
        width: usize,
        hc_type: HCType,
        origin: HPoint,
        orientation: Orientation,
    ) -> (r: Result<HilbertCurve, CurveError>)
        requires
            origin.x + width <= u32::MAX,
            origin.y + height <= u32::MAX,
            height * width <= usize::MAX,
        ensures
            r is Err <==> (height == 0 || width == 0),
            r is Err ==> r == Err::<HilbertCurve, CurveError>(CurveError::InvalidDimensions),
            r is Ok ==> r->Ok_0.hc_type == hc_type && r->Ok_0.qs == (QuasiSquare {
                orientation,
                origin,
                n: height,
                m: width,
            }) && r->Ok_0.curve_matches(),
    {
        if height == 0 || width == 0 {
            return Err(CurveError::InvalidDimensions);
        }
        let mut hc = HilbertCurve {
            hc_type,
            curve: Vec::new(),
            qs: QuasiSquare { orientation, origin, n: height, m: width },
        };
        hc.build();
        Ok(hc)
    }

    /// Dispatches on the curve family.
    fn build(&mut self)
        requires
            old(self).qs.wf(),
            old(self).qs.n * old(self).qs.m <= usize::MAX,
        ensures
            final(self).qs == old(self).qs,
            final(self).hc_type == old(self).hc_type,
            final(self).curve_matches(),
    {
        match self.hc_type {
            HCType::H0 => self.build_h0(),
        }
    }

    /// Allocates the output buffer and runs the partitioner once over the
    /// full rectangle, starting at position 0.
    fn build_h0(&mut self)
        requires
            old(self).qs.wf(),
            old(self).qs.n * old(self).qs.m <= usize::MAX,
        ensures
            final(self).qs == old(self).qs,
            final(self).hc_type == old(self).hc_type,
            final(self).curve_matches(),
    {
        let total = self.qs.n * self.qs.m;
        let mut buffer: Vec<HPoint> = Vec::new();
        while buffer.len() < total
            invariant
                buffer@.len() <= total,
            decreases total - buffer@.len(),
        {
            buffer.push(HPoint::new(0, 0));
        }
        self.qs.build_curve(&mut buffer, 0);
        self.curve = buffer;
    }
}

/// Decides, without building anything, whether every branch of the
/// decomposition of the rectangle reaches a base pattern directly, with no
/// empty sub-rectangle along the way. Building a curve does not need this:
/// it is the domain within which the near-square adjacency analysis works.
pub fn supported_dimensions(orientation: Orientation, height: usize, width: usize) -> (r: bool)
    ensures
        r == region_ok(orientation, height as nat, width as nat),
    decreases height + width,
{
    if height == 0 || width == 0 {
        false
    } else if (height == 1 && width == 1) || (height == 1 && width == 2) || (height == 2 && width
        == 1) || (height == 2 && width == 2) {
        true
    } else {
        let (n1, n2) = halve(orientation, height);
        let (m1, m2) = halve(orientation, width);
        match orientation {
            Orientation::A => supported_dimensions(Orientation::B, n1, m1)
                && supported_dimensions(Orientation::A, n2, m1) && supported_dimensions(
                Orientation::A,
                n2,
                m2,
            ) && supported_dimensions(Orientation::D, n1, m2),
            Orientation::B => supported_dimensions(Orientation::A, n1, m1)
                && supported_dimensions(Orientation::B, n1, m2) && supported_dimensions(
                Orientation::B,
                n2,
                m2,
            ) && supported_dimensions(Orientation::C, n2, m1),
            Orientation::C => supported_dimensions(Orientation::D, n2, m2)
                && supported_dimensions(Orientation::C, n1, m2) && supported_dimensions(
                Orientation::C,
                n1,
                m1,
            ) && supported_dimensions(Orientation::B, n2, m1),
            Orientation::D => supported_dimensions(Orientation::C, n2, m2)
                && supported_dimensions(Orientation::D, n2, m1) && supported_dimensions(
                Orientation::D,
                n1,
                m1,
            ) && supported_dimensions(Orientation::A, n1, m2),
        }
    }
}


/// Determinism: two curves built over the same rectangle, in the same
/// orientation, hold exactly the same points in the same order.
pub proof fn lemma_curve_determinism(a: HilbertCurve, b: HilbertCurve)
    requires
        a.curve_matches(),
        b.curve_matches(),
        a.qs == b.qs,
    ensures
        a.curve@ == b.curve@,
{
    assert forall|j: int| 0 <= j < a.curve@.len() implies a.curve@[j] == b.curve@[j] by {
        assert(point_at(a.curve@[j], a.qs.cells()[j], j));
        assert(point_at(b.curve@[j], a.qs.cells()[j], j));
    }
    assert(a.curve@ =~= b.curve@);
}

/// Index completeness: the assigned positions are exactly `0` to
/// `len - 1`, each used once, in slot order.
pub proof fn lemma_index_completeness(hc: HilbertCurve)
    requires
        hc.curve_matches(),
    ensures
        forall|j: int| 0 <= j < hc.curve@.len() ==> (#[trigger] hc.curve@[j]).i == j,
        forall|j: int, k: int|
            0 <= j < k < hc.curve@.len() ==> (#[trigger] hc.curve@[j]).i != (#[trigger] hc.curve@[k]).i,
{
}

} // verus!


