use vstd::prelude::*;

verus! {

use crate::rational::Rat;
use crate::rational::Ratio;
use crate::rational::radd;
use crate::rational::rsub;
use crate::rational::rmul;
use crate::rational::rneg;
use crate::rational::rdiv;
use crate::rational::rcanon;
use crate::rational::rzero;
use crate::rational::rfix;
use crate::rational::rsqrt;
use crate::rational::rdivr;
use crate::rational::rapprox;
use crate::rational::rwf;
use crate::rational::req;
use crate::rational::in_caps;
use crate::rational::PREC;
use crate::rational::lemma_rcanon;
use crate::rational::lemma_canon_in_caps;
use crate::rational::lemma_radd_cong;
use crate::rational::lemma_rneg_cong;
use crate::rational::lemma_req_trans;
use crate::rational::lemma_pos_mul;
use crate::rational::lemma_mul_abs_bound;
use crate::rational::NUM_CAP;

/// Mathematical value of a homogeneous tuple: three coordinates and the
/// point/vector discriminator.
pub struct TupleV {
    pub x: Ratio,
    pub y: Ratio,
    pub z: Ratio,
    pub w: int,
}

pub open spec fn twf(a: TupleV) -> bool {
    rwf(a.x) && rwf(a.y) && rwf(a.z)
}

/// Componentwise sum; the discriminators add.
pub open spec fn tadd(a: TupleV, b: TupleV) -> TupleV {
    TupleV { x: radd(a.x, b.x), y: radd(a.y, b.y), z: radd(a.z, b.z), w: a.w + b.w }
}

/// Componentwise difference; the discriminators subtract.
pub open spec fn tsub(a: TupleV, b: TupleV) -> TupleV {
    TupleV { x: rsub(a.x, b.x), y: rsub(a.y, b.y), z: rsub(a.z, b.z), w: a.w - b.w }
}

/// Scaling by a scalar keeps the discriminator.
pub open spec fn tscale(a: TupleV, k: Ratio) -> TupleV {
    TupleV { x: rmul(a.x, k), y: rmul(a.y, k), z: rmul(a.z, k), w: a.w }
}

pub open spec fn tneg(a: TupleV) -> TupleV {
    TupleV { x: rneg(a.x), y: rneg(a.y), z: rneg(a.z), w: a.w }
}

/// The inner product, the discriminators included.
pub open spec fn tdot(a: TupleV, b: TupleV) -> Ratio {
    radd(
        radd(radd(rmul(a.x, b.x), rmul(a.y, b.y)), rmul(a.z, b.z)),
        Ratio { n: a.w * b.w, d: 1 },
    )
}

/// The representative the executable inner product returns: each partial
/// result in canonical form, combined left to right.
pub open spec fn tdot_c(a: TupleV, b: TupleV) -> Ratio {
    rcanon(
        radd(
            rcanon(
                radd(
                    rcanon(radd(rcanon(rmul(a.x, b.x)), rcanon(rmul(a.y, b.y)))),
                    rcanon(rmul(a.z, b.z)),
                ),
            ),
            Ratio { n: a.w * b.w, d: 1 },
        ),
    )
}

/// The cross product of two vectors.
pub open spec fn tcross(a: TupleV, b: TupleV) -> TupleV {
    TupleV {
        x: rsub(rmul(a.y, b.z), rmul(a.z, b.y)),
        y: rsub(rmul(a.z, b.x), rmul(a.x, b.z)),
        z: rsub(rmul(a.x, b.y), rmul(a.y, b.x)),
        w: 0,
    }
}

/// The representative the executable difference returns.
pub open spec fn tsub_p(a: TupleV, b: TupleV) -> TupleV {
    TupleV {
        x: rcanon(rsub(a.x, b.x)),
        y: rcanon(rsub(a.y, b.y)),
        z: rcanon(rsub(a.z, b.z)),
        w: a.w - b.w,
    }
}

/// Each coordinate reduced to the precision grid.
pub open spec fn tcoarse(a: TupleV) -> TupleV {
    TupleV { x: rfix(a.x), y: rfix(a.y), z: rfix(a.z), w: a.w }
}

/// The magnitude representative used by normalization: the square root
/// approximation of the inner product of the coarsened tuple with itself.
pub open spec fn tmag_c(a: TupleV) -> Ratio {
    rsqrt(tdot_c(tcoarse(a), tcoarse(a)))
}

/// The representative the executable normalization returns: each
/// coordinate coarsened, divided by the magnitude representative, and
/// truncated to the precision grid.
pub open spec fn tnorm_p(a: TupleV) -> TupleV {
    TupleV {
        x: rdivr(tcoarse(a).x, tmag_c(a)),
        y: rdivr(tcoarse(a).y, tmag_c(a)),
        z: rdivr(tcoarse(a).z, tmag_c(a)),
        w: 0,
    }
}

/// The representative the executable reflection returns:
/// `d - n * (2 * dot(d, n))`, the doubled inner product coarsened to the
/// precision grid.
pub open spec fn treflect_p(d: TupleV, n: TupleV) -> TupleV {
    let f = rfix(rcanon(rmul(Ratio { n: 2, d: 1 }, tdot_c(d, n))));
    TupleV {
        x: rcanon(rsub(d.x, rcanon(rmul(n.x, f)))),
        y: rcanon(rsub(d.y, rcanon(rmul(n.y, f)))),
        z: rcanon(rsub(d.z, rcanon(rmul(n.z, f)))),
        w: 0,
    }
}

/// Approximate tuple equality: equal discriminators, coordinates within
/// the shared tolerance.
pub open spec fn tapprox(a: TupleV, b: TupleV) -> bool {
    a.w == b.w && rapprox(a.x, b.x) && rapprox(a.y, b.y) && rapprox(a.z, b.z)
}

/// Every step of the executable inner product stays representable.
pub open spec fn tdot_defined(a: TupleV, b: TupleV) -> bool {
    let px = rcanon(rmul(a.x, b.x));
    let py = rcanon(rmul(a.y, b.y));
    let pz = rcanon(rmul(a.z, b.z));
    let s1 = rcanon(radd(px, py));
    let s2 = rcanon(radd(s1, pz));
    &&& in_caps(px)
    &&& in_caps(py)
    &&& in_caps(pz)
    &&& in_caps(s1)
    &&& in_caps(s2)
    &&& in_caps(rcanon(radd(s2, Ratio { n: a.w * b.w, d: 1 })))
}

/// Every step of one cross-product coordinate stays representable.
pub open spec fn cross_term_defined(a: Ratio, b: Ratio, c: Ratio, d: Ratio) -> bool {
    &&& in_caps(rcanon(rmul(a, b)))
    &&& in_caps(rcanon(rmul(c, d)))
    &&& in_caps(rcanon(rsub(rcanon(rmul(a, b)), rcanon(rmul(c, d)))))
}

/// Every step of the executable cross product stays representable.
pub open spec fn tcross_defined(a: TupleV, b: TupleV) -> bool {
    &&& cross_term_defined(a.y, b.z, a.z, b.y)
    &&& cross_term_defined(a.z, b.x, a.x, b.z)
    &&& cross_term_defined(a.x, b.y, a.y, b.x)
}

/// Every step of the executable normalization stays representable and the
/// magnitude is nonzero.
pub open spec fn tnorm_defined(a: TupleV) -> bool {
    let c = tcoarse(a);
    &&& in_caps(rfix(a.x))
    &&& in_caps(rfix(a.y))
    &&& in_caps(rfix(a.z))
    &&& tdot_defined(c, c)
    &&& tmag_c(a).n != 0
    &&& in_caps(rdivr(c.x, tmag_c(a)))
    &&& in_caps(rdivr(c.y, tmag_c(a)))
    &&& in_caps(rdivr(c.z, tmag_c(a)))
}

/// Every step of the executable reflection stays representable.
pub open spec fn treflect_defined(d: TupleV, n: TupleV) -> bool {
    let dc = tdot_c(d, n);
    let two = Ratio { n: 2, d: 1 };
    let f = rfix(rcanon(rmul(two, dc)));
    &&& tdot_defined(d, n)
    &&& in_caps(rcanon(rmul(two, dc)))
    &&& in_caps(f)
    &&& in_caps(rcanon(rmul(n.x, f)))
    &&& in_caps(rcanon(rmul(n.y, f)))
    &&& in_caps(rcanon(rmul(n.z, f)))
    &&& in_caps(rcanon(rsub(d.x, rcanon(rmul(n.x, f)))))
    &&& in_caps(rcanon(rsub(d.y, rcanon(rmul(n.y, f)))))
    &&& in_caps(rcanon(rsub(d.z, rcanon(rmul(n.z, f)))))
}

/// A homogeneous 4-component value: a point when `w == 1`, a free vector
/// when `w == 0`.
#[derive(Clone, Copy, Debug)]
pub struct Tuple {
    pub x: Rat,
    pub y: Rat,
    pub z: Rat,
    pub w: u8,
}

impl View for Tuple {
    type V = TupleV;

    open spec fn view(&self) -> TupleV {
        TupleV { x: self.x@, y: self.y@, z: self.z@, w: self.w as int }
    }
}

impl Tuple {
    pub fn new(x: Rat, y: Rat, z: Rat, w: u8) -> (r: Tuple)
        ensures
            r@ == (TupleV { x: x@, y: y@, z: z@, w: w as int }),
    {
        Tuple { x, y, z, w }
    }

    pub fn is_point(&self) -> (r: bool)
        ensures
            r == (self@.w == 1),
    {
        self.w == 1
    }

    pub fn is_vector(&self) -> (r: bool)
        ensures
            r == (self@.w == 0),
    {
        self.w == 0
    }

    pub fn point(x: Rat, y: Rat, z: Rat) -> (r: Tuple)
        ensures
            r@ == (TupleV { x: x@, y: y@, z: z@, w: 1 }),
    {
        Tuple { x, y, z, w: 1 }
    }

    pub fn vector(x: Rat, y: Rat, z: Rat) -> (r: Tuple)
        ensures
            r@ == (TupleV { x: x@, y: y@, z: z@, w: 0 }),
    {
        Tuple { x, y, z, w: 0 }
    }

    pub fn origin() -> (r: Tuple)
        ensures
            r@.x == rzero() && r@.y == rzero() && r@.z == rzero() && r@.w == 1,
            twf(r@),
    {
        Tuple { x: Rat::zero(), y: Rat::zero(), z: Rat::zero(), w: 1 }
    }

    pub fn zero_vector() -> (r: Tuple)
        ensures
            r@.x == rzero() && r@.y == rzero() && r@.z == rzero() && r@.w == 0,
            twf(r@),
    {
        Tuple { x: Rat::zero(), y: Rat::zero(), z: Rat::zero(), w: 0 }
    }

    /// Componentwise sum.  Fails only when a component leaves the
    /// representable range.
    pub fn add(&self, other: &Tuple) -> (r: Option<Tuple>)
        requires
            self@.w + other@.w <= u8::MAX,
        ensures
            r matches Some(v) ==> {
                &&& v@.x == rcanon(radd(self@.x, other@.x))
                &&& v@.y == rcanon(radd(self@.y, other@.y))
                &&& v@.z == rcanon(radd(self@.z, other@.z))
                &&& v@.w == self@.w + other@.w
                &&& req(v@.x, radd(self@.x, other@.x))
                &&& req(v@.y, radd(self@.y, other@.y))
                &&& req(v@.z, radd(self@.z, other@.z))
            },
            (in_caps(radd(self@.x, other@.x)) && in_caps(radd(self@.y, other@.y)) && in_caps(
                radd(self@.z, other@.z),
            )) ==> r is Some,
            r is Some <==> in_caps(rcanon(radd(self@.x, other@.x))) && in_caps(
                rcanon(radd(self@.y, other@.y)),
            ) && in_caps(rcanon(radd(self@.z, other@.z))),
    {
        proof {
            use_type_invariant(self.x);
            use_type_invariant(self.y);
            use_type_invariant(self.z);
            use_type_invariant(other.x);
            use_type_invariant(other.y);
            use_type_invariant(other.z);
            lemma_pos_mul(self@.x.d, other@.x.d);
            lemma_pos_mul(self@.y.d, other@.y.d);
            lemma_pos_mul(self@.z.d, other@.z.d);
            if in_caps(radd(self@.x, other@.x)) {
                lemma_canon_in_caps(radd(self@.x, other@.x));
            }
            if in_caps(radd(self@.y, other@.y)) {
                lemma_canon_in_caps(radd(self@.y, other@.y));
            }
            if in_caps(radd(self@.z, other@.z)) {
                lemma_canon_in_caps(radd(self@.z, other@.z));
            }
            lemma_rcanon(radd(self@.x, other@.x));
            lemma_rcanon(radd(self@.y, other@.y));
            lemma_rcanon(radd(self@.z, other@.z));
        }
        let x = match self.x.add(&other.x) {
            Some(v) => v,
            None => {
                return None;
            },
        };
        let y = match self.y.add(&other.y) {
            Some(v) => v,
            None => {
                return None;
            },
        };
        let z = match self.z.add(&other.z) {
            Some(v) => v,
            None => {
                return None;
            },
        };
        Some(Tuple { x, y, z, w: self.w + other.w })
    }

    /// Componentwise difference.  The discriminator of the subtrahend may
    /// not exceed this tuple's (a point cannot be taken from a vector).
    pub fn sub(&self, other: &Tuple) -> (r: Option<Tuple>)
        requires
            other@.w <= self@.w,
        ensures
            r matches Some(v) ==> {
                &&& v@.x == rcanon(rsub(self@.x, other@.x))
                &&& v@.y == rcanon(rsub(self@.y, other@.y))
                &&& v@.z == rcanon(rsub(self@.z, other@.z))
                &&& v@.w == self@.w - other@.w
                &&& v@ == tsub_p(self@, other@)
                &&& req(v@.x, rsub(self@.x, other@.x))
                &&& req(v@.y, rsub(self@.y, other@.y))
                &&& req(v@.z, rsub(self@.z, other@.z))
            },
            (in_caps(rsub(self@.x, other@.x)) && in_caps(rsub(self@.y, other@.y)) && in_caps(
                rsub(self@.z, other@.z),
            )) ==> r is Some,
            r is Some <==> in_caps(rcanon(rsub(self@.x, other@.x))) && in_caps(
                rcanon(rsub(self@.y, other@.y)),
            ) && in_caps(rcanon(rsub(self@.z, other@.z))),
    {
        proof {
            use_type_invariant(self.x);
            use_type_invariant(self.y);
            use_type_invariant(self.z);
            use_type_invariant(other.x);
            use_type_invariant(other.y);
            use_type_invariant(other.z);
            lemma_pos_mul(self@.x.d, other@.x.d);
            lemma_pos_mul(self@.y.d, other@.y.d);
            lemma_pos_mul(self@.z.d, other@.z.d);
            if in_caps(rsub(self@.x, other@.x)) {
                lemma_canon_in_caps(rsub(self@.x, other@.x));
            }
            if in_caps(rsub(self@.y, other@.y)) {
                lemma_canon_in_caps(rsub(self@.y, other@.y));
            }
            if in_caps(rsub(self@.z, other@.z)) {
                lemma_canon_in_caps(rsub(self@.z, other@.z));
            }
            lemma_rcanon(rsub(self@.x, other@.x));
            lemma_rcanon(rsub(self@.y, other@.y));
            lemma_rcanon(rsub(self@.z, other@.z));
        }
        let x = match self.x.sub(&other.x) {
            Some(v) => v,
            None => {
                return None;
            },
        };
        let y = match self.y.sub(&other.y) {
            Some(v) => v,
            None => {
                return None;
            },
        };
        let z = match self.z.sub(&other.z) {
            Some(v) => v,
            None => {
                return None;
            },
        };
        Some(Tuple { x, y, z, w: self.w - other.w })
    }

    /// Negation of a vector.
    pub fn neg(&self) -> (r: Tuple)
        requires
            self@.w == 0,
        ensures
            r@ == tneg(self@),
    {
        Tuple { x: self.x.neg(), y: self.y.neg(), z: self.z.neg(), w: 0 }
    }

    /// Componentwise scaling; the discriminator is kept.
    pub fn mul(&self, k: &Rat) -> (r: Option<Tuple>)
        ensures
            r matches Some(v) ==> {
                &&& v@.x == rcanon(rmul(self@.x, k@))
                &&& v@.y == rcanon(rmul(self@.y, k@))
                &&& v@.z == rcanon(rmul(self@.z, k@))
                &&& v@.w == self@.w
                &&& req(v@.x, rmul(self@.x, k@))
                &&& req(v@.y, rmul(self@.y, k@))
                &&& req(v@.z, rmul(self@.z, k@))
            },
            r is Some <==> in_caps(rcanon(rmul(self@.x, k@))) && in_caps(
                rcanon(rmul(self@.y, k@)),
            ) && in_caps(rcanon(rmul(self@.z, k@))),
    {
        proof {
            use_type_invariant(self.x);
            use_type_invariant(self.y);
            use_type_invariant(self.z);
            use_type_invariant(*k);
            lemma_pos_mul(self@.x.d, k@.d);
            lemma_pos_mul(self@.y.d, k@.d);
            lemma_pos_mul(self@.z.d, k@.d);
            lemma_rcanon(rmul(self@.x, k@));
            lemma_rcanon(rmul(self@.y, k@));
            lemma_rcanon(rmul(self@.z, k@));
        }
        let x = match self.x.mul(k) {
            Some(v) => v,
            None => {
                return None;
            },
        };
        let y = match self.y.mul(k) {
            Some(v) => v,
            None => {
                return None;
            },
        };
        let z = match self.z.mul(k) {
            Some(v) => v,
            None => {
                return None;
            },
        };
        Some(Tuple { x, y, z, w: self.w })
    }

    /// Componentwise division of a vector by a nonzero scalar.
    pub fn div(&self, k: &Rat) -> (r: Option<Tuple>)
        requires
            k@.n != 0,
            self@.w == 0,
        ensures
            r matches Some(v) ==> {
                &&& v@.x == rcanon(rdiv(self@.x, k@))
                &&& v@.y == rcanon(rdiv(self@.y, k@))
                &&& v@.z == rcanon(rdiv(self@.z, k@))
                &&& v@.w == 0
                &&& req(v@.x, rdiv(self@.x, k@))
                &&& req(v@.y, rdiv(self@.y, k@))
                &&& req(v@.z, rdiv(self@.z, k@))
            },
            r is Some <==> in_caps(rcanon(rdiv(self@.x, k@))) && in_caps(
                rcanon(rdiv(self@.y, k@)),
            ) && in_caps(rcanon(rdiv(self@.z, k@))),
    {
        proof {
            use_type_invariant(self.x);
            use_type_invariant(self.y);
            use_type_invariant(self.z);
            use_type_invariant(*k);
            lemma_rdiv_wf(self@.x, k@);
            lemma_rdiv_wf(self@.y, k@);
            lemma_rdiv_wf(self@.z, k@);
            lemma_rcanon(rdiv(self@.x, k@));
            lemma_rcanon(rdiv(self@.y, k@));
            lemma_rcanon(rdiv(self@.z, k@));
        }
        let x = match self.x.div(k) {
            Some(v) => v,
            None => {
                return None;
            },
        };
        let y = match self.y.div(k) {
            Some(v) => v,
            None => {
                return None;
            },
        };
        let z = match self.z.div(k) {
            Some(v) => v,
            None => {
                return None;
            },
        };
        Some(Tuple { x, y, z, w: 0 })
    }

    /// The inner product.  The result is the canonical representative
    /// `tdot_c` and denotes the mathematical inner product `tdot`.
    pub fn dot(&self, other: &Tuple) -> (r: Option<Rat>)
        ensures
            r matches Some(v) ==> v@ == tdot_c(self@, other@) && req(v@, tdot(self@, other@)),
            tdot_defined(self@, other@) ==> r is Some,
    {
        proof {
            use_type_invariant(self.x);
            use_type_invariant(self.y);
            use_type_invariant(self.z);
            use_type_invariant(other.x);
            use_type_invariant(other.y);
            use_type_invariant(other.z);
        }
        let px = match self.x.mul(&other.x) {
            Some(v) => v,
            None => {
                return None;
            },
        };
        let py = match self.y.mul(&other.y) {
            Some(v) => v,
            None => {
                return None;
            },
        };
        let pz = match self.z.mul(&other.z) {
            Some(v) => v,
            None => {
                return None;
            },
        };
        let s1 = match px.add(&py) {
            Some(v) => v,
            None => {
                return None;
            },
        };
        let s2 = match s1.add(&pz) {
            Some(v) => v,
            None => {
                return None;
            },
        };
        proof {
            assert((self.w as int) * (other.w as int) <= 65025 && (self.w as int) * (other.w
                as int) >= 0) by (nonlinear_arith)
                requires
                    0 <= self.w as int <= 255,
                    0 <= other.w as int <= 255,
            ;
        }
        let wprod = Rat::from_int((self.w as i64) * (other.w as i64));
        let s3 = match s2.add(&wprod) {
            Some(v) => v,
            None => {
                return None;
            },
        };
        proof {
            lemma_dot_chain(self@, other@);
        }
        Some(s3)
    }

    /// The cross product of two vectors.
    pub fn cross(&self, other: &Tuple) -> (r: Option<Tuple>)
        requires
            self@.w == 0,
            other@.w == 0,
        ensures
            r matches Some(v) ==> {
                &&& v@.w == 0
                &&& req(v@.x, tcross(self@, other@).x)
                &&& req(v@.y, tcross(self@, other@).y)
                &&& req(v@.z, tcross(self@, other@).z)
            },
            tcross_defined(self@, other@) ==> r is Some,
    {
        proof {
            use_type_invariant(self.x);
            use_type_invariant(self.y);
            use_type_invariant(self.z);
            use_type_invariant(other.x);
            use_type_invariant(other.y);
            use_type_invariant(other.z);
        }
        let x = match cross_part(&self.y, &other.z, &self.z, &other.y) {
            Some(v) => v,
            None => {
                return None;
            },
        };
        let y = match cross_part(&self.z, &other.x, &self.x, &other.z) {
            Some(v) => v,
            None => {
                return None;
            },
        };
        let z = match cross_part(&self.x, &other.y, &self.y, &other.x) {
            Some(v) => v,
            None => {
                return None;
            },
        };
        Some(Tuple { x, y, z, w: 0 })
    }

    /// The magnitude: the square root approximation of the inner product
    /// with itself.
    pub fn abs(&self) -> (r: Option<Rat>)
        ensures
            r matches Some(v) ==> v@ == rsqrt(tdot_c(self@, self@)),
            tdot_defined(self@, self@) ==> r is Some,
    {
        let d = match self.dot(self) {
            Some(v) => v,
            None => {
                return None;
            },
        };
        proof {
            use_type_invariant(self.x);
            use_type_invariant(self.y);
            use_type_invariant(self.z);
            lemma_tdotc_self_nonneg(self@);
        }
        Some(d.sqrt())
    }

    /// The unit vector in this tuple's direction: each coordinate is
    /// coarsened to the precision grid, divided by the magnitude, and
    /// truncated to the grid again.  Fails on a value of zero magnitude
    /// and when a component leaves the representable range.
    pub fn norm(&self) -> (r: Option<Tuple>)
        ensures
            r matches Some(v) ==> {
                &&& v@.w == 0
                &&& v@ == tnorm_p(self@)
                &&& v@.x == rdivr(tcoarse(self@).x, tmag_c(self@))
                &&& v@.y == rdivr(tcoarse(self@).y, tmag_c(self@))
                &&& v@.z == rdivr(tcoarse(self@).z, tmag_c(self@))
            },
            tnorm_defined(self@) ==> r is Some,
    {
        let cx = match self.x.coarsen() {
            Some(v) => v,
            None => {
                return None;
            },
        };
        let cy = match self.y.coarsen() {
            Some(v) => v,
            None => {
                return None;
            },
        };
        let cz = match self.z.coarsen() {
            Some(v) => v,
            None => {
                return None;
            },
        };
        let ct = Tuple { x: cx, y: cy, z: cz, w: self.w };
        let d = match ct.dot(&ct) {
            Some(v) => v,
            None => {
                return None;
            },
        };
        proof {
            use_type_invariant(self.x);
            use_type_invariant(self.y);
            use_type_invariant(self.z);
            lemma_rfix_props(self@.x);
            lemma_rfix_props(self@.y);
            lemma_rfix_props(self@.z);
            use_type_invariant(cx);
            use_type_invariant(cy);
            use_type_invariant(cz);
            lemma_tdotc_self_nonneg(ct@);
        }
        let mag = d.sqrt();
        if mag.is_zero() {
            return None;
        }
        proof {
            use_type_invariant(mag);
            lemma_mul_abs_bound(ct@.x.d, mag@.n, PREC as int, NUM_CAP as int);
            lemma_mul_abs_bound(ct@.y.d, mag@.n, PREC as int, NUM_CAP as int);
            lemma_mul_abs_bound(ct@.z.d, mag@.n, PREC as int, NUM_CAP as int);
        }
        let x = match cx.div_round(&mag) {
            Some(v) => v,
            None => {
                return None;
            },
        };
        let y = match cy.div_round(&mag) {
            Some(v) => v,
            None => {
                return None;
            },
        };
        let z = match cz.div_round(&mag) {
            Some(v) => v,
            None => {
                return None;
            },
        };
        Some(Tuple { x, y, z, w: 0 })
    }

    /// The reflection of this vector about the given normal:
    /// `self - normal * (2 * dot(self, normal))`, with the scaling factor
    /// coarsened to the precision grid.
    pub fn reflect(&self, normal: &Tuple) -> (r: Option<Tuple>)
        requires
            self@.w == 0,
            normal@.w == 0,
        ensures
            r matches Some(v) ==> {
                let f = rfix(rcanon(rmul(Ratio { n: 2, d: 1 }, tdot_c(self@, normal@))));
                &&& v@.w == 0
                &&& v@ == treflect_p(self@, normal@)
                &&& req(v@.x, rsub(self@.x, rmul(normal@.x, f)))
                &&& req(v@.y, rsub(self@.y, rmul(normal@.y, f)))
                &&& req(v@.z, rsub(self@.z, rmul(normal@.z, f)))
            },
            treflect_defined(self@, normal@) ==> r is Some,
    {
        let d = match self.dot(normal) {
            Some(v) => v,
            None => {
                return None;
            },
        };
        let two = Rat::from_int(2);
        let d2 = match two.mul(&d) {
            Some(v) => v,
            None => {
                return None;
            },
        };
        let f = match d2.coarsen() {
            Some(v) => v,
            None => {
                return None;
            },
        };
        proof {
            use_type_invariant(d);
            use_type_invariant(d2);
            use_type_invariant(f);
        }
        let scaled = match normal.mul(&f) {
            Some(v) => v,
            None => {
                return None;
            },
        };
        let out = match self.sub(&scaled) {
            Some(v) => v,
            None => {
                return None;
            },
        };
        proof {
            use_type_invariant(self.x);
            use_type_invariant(self.y);
            use_type_invariant(self.z);
            use_type_invariant(normal.x);
            use_type_invariant(normal.y);
            use_type_invariant(normal.z);
            use_type_invariant(scaled.x);
            use_type_invariant(scaled.y);
            use_type_invariant(scaled.z);
            use_type_invariant(out.x);
            use_type_invariant(out.y);
            use_type_invariant(out.z);
            let fi = rfix(rcanon(rmul(Ratio { n: 2, d: 1 }, tdot_c(self@, normal@))));
            lemma_reflect_part(self@.x, normal@.x, fi, scaled@.x, out@.x);
            lemma_reflect_part(self@.y, normal@.y, fi, scaled@.y, out@.y);
            lemma_reflect_part(self@.z, normal@.z, fi, scaled@.z, out@.z);
        }
        Some(out)
    }
}

/// One coordinate of a cross product: `a * b - c * d` with each partial
/// product in canonical form.
fn cross_part(a: &Rat, b: &Rat, c: &Rat, d: &Rat) -> (r: Option<Rat>)
    ensures
        r matches Some(v) ==> req(v@, rsub(rmul(a@, b@), rmul(c@, d@))),
        cross_term_defined(a@, b@, c@, d@) ==> r is Some,
{
    proof {
        use_type_invariant(*a);
        use_type_invariant(*b);
        use_type_invariant(*c);
        use_type_invariant(*d);
    }
    let p1 = match a.mul(b) {
        Some(v) => v,
        None => {
            return None;
        },
    };
    let p2 = match c.mul(d) {
        Some(v) => v,
        None => {
            return None;
        },
    };
    let out = match p1.sub(&p2) {
        Some(v) => v,
        None => {
            return None;
        },
    };
    proof {
        use_type_invariant(p1);
        use_type_invariant(p2);
        use_type_invariant(out);
        lemma_pos_mul(a@.d, b@.d);
        lemma_pos_mul(c@.d, d@.d);
        lemma_rcanon(rmul(a@, b@));
        lemma_rcanon(rmul(c@, d@));
        lemma_pos_mul(p1@.d, p2@.d);
        lemma_rcanon(rsub(p1@, p2@));
        lemma_rneg_cong(p2@, rmul(c@, d@));
        lemma_radd_cong(p1@, rneg(p2@), rmul(a@, b@), rneg(rmul(c@, d@)));
        lemma_pos_mul(a@.d * b@.d, c@.d * d@.d);
        lemma_req_trans(out@, rsub(p1@, p2@), rsub(rmul(a@, b@), rmul(c@, d@)));
    }
    Some(out)
}

/// The division of two ratios with a nonzero divisor is well formed.
pub proof fn lemma_rdiv_wf(a: Ratio, b: Ratio)
    by (nonlinear_arith)
    requires
        rwf(a),
        rwf(b),
        b.n != 0,
    ensures
        rwf(rdiv(a, b)),
{
}

/// The executable inner product representative denotes the mathematical
/// inner product.
proof fn lemma_dot_chain(a: TupleV, b: TupleV)
    requires
        twf(a),
        twf(b),
    ensures
        rwf(tdot_c(a, b)),
        req(tdot_c(a, b), tdot(a, b)),
{
    let mx = rmul(a.x, b.x);
    let my = rmul(a.y, b.y);
    let mz = rmul(a.z, b.z);
    let ww = Ratio { n: a.w * b.w, d: 1 };
    lemma_pos_mul(a.x.d, b.x.d);
    lemma_pos_mul(a.y.d, b.y.d);
    lemma_pos_mul(a.z.d, b.z.d);
    lemma_rcanon(mx);
    lemma_rcanon(my);
    lemma_rcanon(mz);
    lemma_pos_mul(mx.d, my.d);
    lemma_pos_mul(radd(mx, my).d, mz.d);
    lemma_pos_mul(radd(radd(mx, my), mz).d, 1);
    let s1 = radd(rcanon(mx), rcanon(my));
    lemma_radd_cong(rcanon(mx), rcanon(my), mx, my);
    lemma_rcanon(s1);
    lemma_req_trans(rcanon(s1), s1, radd(mx, my));
    let s2 = radd(rcanon(s1), rcanon(mz));
    lemma_radd_cong(rcanon(s1), rcanon(mz), radd(mx, my), mz);
    lemma_rcanon(s2);
    lemma_req_trans(rcanon(s2), s2, radd(radd(mx, my), mz));
    let s3 = radd(rcanon(s2), ww);
    lemma_radd_cong(rcanon(s2), ww, radd(radd(mx, my), mz), ww);
    lemma_rcanon(s3);
    lemma_req_trans(rcanon(s3), s3, radd(radd(radd(mx, my), mz), ww));
}

/// The inner product of a tuple with itself has a nonnegative representative.
proof fn lemma_tdotc_self_nonneg(a: TupleV)
    requires
        twf(a),
    ensures
        rwf(tdot_c(a, a)),
        tdot_c(a, a).n >= 0,
{
    let mx = rmul(a.x, a.x);
    let my = rmul(a.y, a.y);
    let mz = rmul(a.z, a.z);
    let ww = Ratio { n: a.w * a.w, d: 1 };
    assert(mx.n >= 0 && my.n >= 0 && mz.n >= 0 && ww.n >= 0 && mx.d >= 1 && my.d >= 1 && mz.d
        >= 1) by (nonlinear_arith)
        requires
            mx == rmul(a.x, a.x),
            my == rmul(a.y, a.y),
            mz == rmul(a.z, a.z),
            ww == (Ratio { n: a.w * a.w, d: 1 }),
            twf(a),
    ;
    lemma_rcanon_sign(mx);
    lemma_rcanon_sign(my);
    lemma_rcanon_sign(mz);
    let s1 = radd(rcanon(mx), rcanon(my));
    lemma_radd_nonneg(rcanon(mx), rcanon(my));
    lemma_rcanon_sign(s1);
    let s2 = radd(rcanon(s1), rcanon(mz));
    lemma_radd_nonneg(rcanon(s1), rcanon(mz));
    lemma_rcanon_sign(s2);
    let s3 = radd(rcanon(s2), ww);
    lemma_radd_nonneg(rcanon(s2), ww);
    lemma_rcanon_sign(s3);
}

/// The sum of nonnegative well-formed ratios is nonnegative and well formed.
proof fn lemma_radd_nonneg(a: Ratio, b: Ratio)
    by (nonlinear_arith)
    requires
        rwf(a),
        rwf(b),
        a.n >= 0,
        b.n >= 0,
    ensures
        rwf(radd(a, b)),
        radd(a, b).n >= 0,
{
}

/// Canonicalization keeps well-formedness and the sign of the numerator.
pub proof fn lemma_rcanon_sign(x: Ratio)
    requires
        rwf(x),
    ensures
        rwf(rcanon(x)),
        x.n >= 0 ==> rcanon(x).n >= 0,
        x.n < 0 ==> rcanon(x).n < 0,
        req(rcanon(x), x),
{
    lemma_rcanon(x);
    if x.n >= 0 {
        assert(rcanon(x).n >= 0) by {
            if rcanon(x).n < 0 {
                assert(rcanon(x).n * x.d < 0) by (nonlinear_arith)
                    requires
                        rcanon(x).n < 0,
                        x.d >= 1,
                ;
                assert(x.n * rcanon(x).d >= 0) by (nonlinear_arith)
                    requires
                        x.n >= 0,
                        rcanon(x).d >= 1,
                ;
            }
        }
    } else {
        assert(rcanon(x).n < 0) by {
            if rcanon(x).n >= 0 {
                assert(rcanon(x).n * x.d >= 0) by (nonlinear_arith)
                    requires
                        rcanon(x).n >= 0,
                        x.d >= 1,
                ;
                assert(x.n * rcanon(x).d < 0) by (nonlinear_arith)
                    requires
                        x.n < 0,
                        rcanon(x).d >= 1,
                ;
            }
        }
    }
}

/// Coarsening keeps well-formedness, bounds the denominator by the
/// precision, and keeps nonnegative values nonnegative.
pub proof fn lemma_rfix_props(x: Ratio)
    requires
        rwf(x),
    ensures
        rwf(rfix(x)),
        rfix(x).d <= PREC as int,
        x.n >= 0 ==> rfix(x).n >= 0,
{
    if x.n >= 0 {
        vstd::arithmetic::div_mod::lemma_div_pos_is_pos(x.n * PREC as int, x.d);
        assert(x.n * PREC as int >= 0) by (nonlinear_arith)
            requires
                x.n >= 0,
        ;
    }
}

/// One coordinate of a reflection: relates the executable combination to
/// the specification form.
proof fn lemma_reflect_part(sx: Ratio, nx: Ratio, f: Ratio, scaled: Ratio, out: Ratio)
    requires
        rwf(sx),
        rwf(nx),
        rwf(f),
        rwf(scaled),
        rwf(out),
        scaled == rcanon(rmul(nx, f)),
        out == rcanon(rsub(sx, scaled)),
    ensures
        req(out, rsub(sx, rmul(nx, f))),
{
    lemma_pos_mul(nx.d, f.d);
    lemma_rcanon(rmul(nx, f));
    lemma_pos_mul(sx.d, scaled.d);
    lemma_pos_mul(sx.d, nx.d * f.d);
    lemma_rcanon(rsub(sx, scaled));
    lemma_rneg_cong(scaled, rmul(nx, f));
    lemma_radd_cong(sx, rneg(scaled), sx, rneg(rmul(nx, f)));
    lemma_req_trans(out, rsub(sx, scaled), rsub(sx, rmul(nx, f)));
}

impl PartialEq for Tuple {
    /// Equal discriminators and coordinates within the shared tolerance.
    fn eq(&self, other: &Self) -> (r: bool) {
        self.w == other.w && self.x.approx_eq(&other.x) && self.y.approx_eq(&other.y)
            && self.z.approx_eq(&other.z)
    }
}

impl vstd::std_specs::cmp::PartialEqSpecImpl for Tuple {
    open spec fn obeys_eq_spec() -> bool {
        true
    }

    open spec fn eq_spec(&self, other: &Tuple) -> bool {
        tapprox(self@, other@)
    }
}

} // verus!
