use vstd::prelude::*;

verus! {

use crate::rational::Rat;
use crate::rational::Ratio;
use crate::rational::req;
use crate::rational::rone;
use crate::rational::rzero;
use crate::rational::radd;
use crate::rational::rsub;
use crate::rational::rmul;
use crate::rational::rneg;
use crate::rational::rcanon;
use crate::rational::in_caps;
use crate::rational::rfix;
use crate::rational::rsqrt;
use crate::rational::rdivr;
use crate::tuple::Tuple;
use crate::tuple::TupleV;
use crate::tuple::twf;
use crate::tuple::tsub_p;
use crate::tuple::tdot_c;
use crate::tuple::tnorm_p;
use crate::tuple::lemma_rfix_props;
use crate::matrix::Matrix;
use crate::matrix::msquare;
use crate::matrix::mdims;
use crate::matrix::mtrans_s;
use crate::matrix::inv_rep_of;
use crate::matrix::apply_rel;
use crate::matrix::inv_entry_s;
use crate::material::Material;
use crate::material::MaterialV;
use crate::intersection::Intersection;
use crate::intersection::IntersectionV;
use crate::intersection::Intersections;
use crate::ray::Ray;
use crate::ray::RayV;
use crate::ray::Intersect;
use crate::TraceError;

/// Mathematical value of a sphere.
pub struct SphereV {
    pub radius: Ratio,
    pub origin: TupleV,
    pub transform: Seq<Seq<Ratio>>,
    pub material: MaterialV,
}

/// A sphere: its object-space center and radius, the transform placing it
/// in the world, and its surface material.
#[derive(Debug)]
pub struct Sphere {
    radius: Rat,
    origin: Tuple,
    transform: Matrix,
    material: Material,
}

impl View for Sphere {
    type V = SphereV;

    closed spec fn view(&self) -> SphereV {
        SphereV {
            radius: self.radius@,
            origin: self.origin@,
            transform: self.transform@,
            material: self.material@,
        }
    }
}

/// The intersections of an object-space ray with a sphere, by the
/// quadratic formula: with `d` the direction, `o` the origin offset from
/// the sphere's center, `a = d . d`, `b = 2 (d . o)` and
/// `c = o . o - 1`, a negative discriminant means no intersection, and
/// otherwise the two roots `(-b -+ sqrt(b^2 - 4 a c)) / (2 a)` are
/// returned, the smaller first.  Intermediates are coarsened to the
/// precision grid as the executable evaluation coarsens them.
pub open spec fn sphere_hits_s(s: SphereV, r: RayV) -> Seq<IntersectionV> {
    let str_ = tsub_p(r.origin, s.origin);
    let a = rfix(tdot_c(r.direction, r.direction));
    let b = rfix(rcanon(rmul(Ratio { n: 2, d: 1 }, tdot_c(r.direction, str_))));
    let c = rfix(rcanon(rsub(tdot_c(str_, str_), rone())));
    let disc = rcanon(
        rsub(rcanon(rmul(b, b)), rcanon(rmul(rcanon(rmul(Ratio { n: 4, d: 1 }, a)), c))),
    );
    if disc.n < 0 {
        Seq::empty()
    } else {
        let sq = rsqrt(disc);
        let denom = rcanon(rmul(Ratio { n: 2, d: 1 }, a));
        let t1 = rdivr(rfix(rcanon(rsub(rneg(b), sq))), denom);
        let t2 = rdivr(rfix(rcanon(radd(rneg(b), sq))), denom);
        seq![
            IntersectionV { time: t1, object: s },
            IntersectionV { time: t2, object: s },
        ]
    }
}

/// Every step of the executable intersection computation stays
/// representable, and the half-denominator is nonzero when roots are due.
pub open spec fn sphere_hits_defined(s: SphereV, r: RayV) -> bool {
    let str_ = tsub_p(r.origin, s.origin);
    let a = rfix(tdot_c(r.direction, r.direction));
    let b = rfix(rcanon(rmul(Ratio { n: 2, d: 1 }, tdot_c(r.direction, str_))));
    let c = rfix(rcanon(rsub(tdot_c(str_, str_), rone())));
    let bb = rcanon(rmul(b, b));
    let fa = rcanon(rmul(Ratio { n: 4, d: 1 }, a));
    let fac = rcanon(rmul(fa, c));
    let disc = rcanon(rsub(bb, fac));
    &&& in_caps(rcanon(rsub(r.origin.x, s.origin.x)))
    &&& in_caps(rcanon(rsub(r.origin.y, s.origin.y)))
    &&& in_caps(rcanon(rsub(r.origin.z, s.origin.z)))
    &&& crate::tuple::tdot_defined(r.direction, r.direction)
    &&& in_caps(a)
    &&& crate::tuple::tdot_defined(r.direction, str_)
    &&& in_caps(rcanon(rmul(Ratio { n: 2, d: 1 }, tdot_c(r.direction, str_))))
    &&& in_caps(b)
    &&& crate::tuple::tdot_defined(str_, str_)
    &&& in_caps(rcanon(rsub(tdot_c(str_, str_), rone())))
    &&& in_caps(c)
    &&& in_caps(bb)
    &&& in_caps(fa)
    &&& in_caps(fac)
    &&& in_caps(disc)
    &&& (disc.n >= 0 ==> {
        let sq = rsqrt(disc);
        let denom = rcanon(rmul(Ratio { n: 2, d: 1 }, a));
        &&& in_caps(denom)
        &&& denom.n != 0
        &&& in_caps(rcanon(rsub(rneg(b), sq)))
        &&& in_caps(rfix(rcanon(rsub(rneg(b), sq))))
        &&& in_caps(crate::rational::rdivr(rfix(rcanon(rsub(rneg(b), sq))), denom))
        &&& in_caps(rcanon(radd(rneg(b), sq)))
        &&& in_caps(rfix(rcanon(radd(rneg(b), sq))))
        &&& in_caps(crate::rational::rdivr(rfix(rcanon(radd(rneg(b), sq))), denom))
    })
}

/// The world normal before normalization: the object point is the inverse
/// transform applied to the world point, the object normal its offset from
/// the center, and the world direction the transposed inverse applied to
/// that, with the discriminator forced back to a vector's.
pub open spec fn normal_chain(s: SphereV, p: TupleV, wn: TupleV) -> bool {
    exists|mi: Seq<Seq<Ratio>>, op: TupleV, on_: TupleV|
        {
            &&& mi.len() == 4
            &&& forall|i: int, j: int|
                0 <= i < 4 && 0 <= j < 4 ==> req(#[trigger] mi[i][j], inv_entry_s(s.transform, i, j))
            &&& apply_rel(crate::matrix::mcoarse_s(mi), p, op)
            &&& twf(op)
            &&& twf(on_)
            &&& req(on_.x, rsub(op.x, s.origin.x))
            &&& req(on_.y, rsub(op.y, s.origin.y))
            &&& req(on_.z, rsub(op.z, s.origin.z))
            &&& on_.w == 0
            &&& apply_rel(mtrans_s(crate::matrix::mcoarse_s(mi)), crate::tuple::tcoarse(on_), wn)
        }
}

/// Every step of the executable normal computation stays representable
/// when carried out with the given inverse representative.
pub open spec fn normal_steps_defined(s: SphereV, p: TupleV, mi: Seq<Seq<Ratio>>) -> bool {
    let mc = crate::matrix::mcoarse_s(mi);
    let opx = crate::matrix::mat_row_c(mc, p, 0);
    let opy = crate::matrix::mat_row_c(mc, p, 1);
    let opz = crate::matrix::mat_row_c(mc, p, 2);
    let onx = rcanon(rsub(opx, s.origin.x));
    let ony = rcanon(rsub(opy, s.origin.y));
    let onz = rcanon(rsub(opz, s.origin.z));
    let onc = TupleV { x: rfix(onx), y: rfix(ony), z: rfix(onz), w: 0 };
    let tr = mtrans_s(mc);
    let wn = TupleV {
        x: crate::matrix::mat_row_c(tr, onc, 0),
        y: crate::matrix::mat_row_c(tr, onc, 1),
        z: crate::matrix::mat_row_c(tr, onc, 2),
        w: 0,
    };
    &&& (forall|i: int, j: int|
        0 <= i < 4 && 0 <= j < 4 ==> in_caps(#[trigger] rfix(mi[i][j])))
    &&& crate::matrix::row_defined(mc, p, 0)
    &&& crate::matrix::row_defined(mc, p, 1)
    &&& crate::matrix::row_defined(mc, p, 2)
    &&& crate::matrix::row_defined(mc, p, 3)
    &&& crate::rational::rtrunc(crate::matrix::mat_row_c(mc, p, 3)) == 1
    &&& in_caps(onx)
    &&& in_caps(ony)
    &&& in_caps(onz)
    &&& in_caps(rfix(onx))
    &&& in_caps(rfix(ony))
    &&& in_caps(rfix(onz))
    &&& crate::matrix::row_defined(tr, onc, 0)
    &&& crate::matrix::row_defined(tr, onc, 1)
    &&& crate::matrix::row_defined(tr, onc, 2)
    &&& crate::matrix::row_defined(tr, onc, 3)
    &&& 0 <= crate::rational::rtrunc(crate::matrix::mat_row_c(tr, onc, 3)) <= 255
    &&& crate::tuple::tnorm_defined(wn)
}

impl Sphere {
    /// The transform's column count, visible to specifications.
    pub closed spec fn transform_cols(&self) -> int {
        self.transform.cols_spec()
    }

    /// The transform is always a well-formed four-by-four matrix, and the
    /// center a point.
    #[verifier::type_invariant]
    closed spec fn sphere_inv(self) -> bool {
        &&& msquare(self.transform@)
        &&& self.transform@.len() == 4
        &&& self.transform.cols_spec() == 4
        &&& self.origin@.w == 1
    }

    /// A sphere with the given radius and center, the identity transform
    /// and the default material.
    pub fn new(radius: Rat, origin: Tuple) -> (r: Sphere)
        requires
            origin@.w == 1,
        ensures
            r@.radius == radius@,
            r@.origin == origin@,
            mdims(r@.transform, 4, 4),
            forall|i: int, j: int|
                0 <= i < 4 && 0 <= j < 4 ==> #[trigger] r@.transform[i][j] == (if i == j {
                    rone()
                } else {
                    rzero()
                }),
            r@.material == crate::material::default_material_s(),
    {
        Sphere {
            radius,
            origin,
            transform: Matrix::identity(4),
            material: Material::default(),
        }
    }

    /// The unit sphere: radius one, centered on the origin.
    pub fn unit() -> (r: Sphere)
        ensures
            r@.radius == rone(),
            r@.origin.x == rzero() && r@.origin.y == rzero() && r@.origin.z == rzero()
                && r@.origin.w == 1,
            mdims(r@.transform, 4, 4),
            forall|i: int, j: int|
                0 <= i < 4 && 0 <= j < 4 ==> #[trigger] r@.transform[i][j] == (if i == j {
                    rone()
                } else {
                    rzero()
                }),
            r@.material == crate::material::default_material_s(),
    {
        Sphere::new(Rat::one(), Tuple::origin())
    }

    /// Replaces the transform wholesale.
    pub fn set_transform(&mut self, transform: &Matrix)
        requires
            msquare(transform@),
            transform@.len() == 4,
            transform.cols_spec() == 4,
        ensures
            final(self)@.transform == transform@,
            final(self)@.radius == old(self)@.radius,
            final(self)@.origin == old(self)@.origin,
            final(self)@.material == old(self)@.material,
    {
        proof {
            use_type_invariant(&*self);
        }
        self.transform = transform.clone();
    }

    /// Replaces the material wholesale.
    pub fn set_material(&mut self, material: Material)
        ensures
            final(self)@.material == material@,
            final(self)@.radius == old(self)@.radius,
            final(self)@.origin == old(self)@.origin,
            final(self)@.transform == old(self)@.transform,
    {
        proof {
            use_type_invariant(&*self);
        }
        self.material = material;
    }

    /// The outward unit normal of the surface at a world point: the point
    /// is carried into object space by the inverse transform, the offset
    /// from the center is carried back by the transposed inverse, the
    /// result is forced back to a vector and normalized.
    pub fn normal_at(&self, point: &Tuple) -> (r: Result<Tuple, TraceError>)
        requires
            point@.w == 1,
        ensures
            r matches Ok(v) ==> {
                &&& v@.w == 0
                &&& exists|wn: TupleV|
                    twf(wn) && wn.w == 0 && normal_chain(self@, point@, wn) && v@ == tnorm_p(wn)
            },
            (crate::matrix::int_entries(self@.transform) && !crate::rational::rlt(
                crate::rational::rabs(crate::matrix::det_s(self@.transform)),
                crate::rational::reps(),
            ) && (forall|mi: Seq<Seq<Ratio>>|
                inv_rep_of(mi, self@.transform) ==> normal_steps_defined(self@, point@, mi)))
                ==> r is Ok,
    {
        let ghost pd = crate::matrix::int_entries(self@.transform) && !crate::rational::rlt(
            crate::rational::rabs(crate::matrix::det_s(self@.transform)),
            crate::rational::reps(),
        ) && (forall|mi: Seq<Seq<Ratio>>|
            inv_rep_of(mi, self@.transform) ==> normal_steps_defined(self@, point@, mi));
        proof {
            use_type_invariant(self);
        }
        let _ = self.transform.entries_wf();
        let inv = match self.transform.inverse() {
            Ok(v) => v,
            Err(e) => {
                return Err(e);
            },
        };
        let _ = inv.entries_wf();
        proof {
            if pd {
                assert(inv_rep_of(inv@, self@.transform));
                assert(normal_steps_defined(self@, point@, inv@));
            }
        }
        let invc = match inv.coarsen() {
            Ok(v) => v,
            Err(e) => {
                return Err(e);
            },
        };
        let _ = invc.entries_wf();
        let op = match invc.mul_tuple(point) {
            Ok(v) => v,
            Err(e) => {
                return Err(e);
            },
        };
        if !op.is_point() {
            return Err(TraceError::Overflow);
        }
        let on = match op.sub(&self.origin) {
            Some(v) => v,
            None => {
                return Err(TraceError::Overflow);
            },
        };
        let cx = match on.x.coarsen() {
            Some(v) => v,
            None => {
                return Err(TraceError::Overflow);
            },
        };
        let cy = match on.y.coarsen() {
            Some(v) => v,
            None => {
                return Err(TraceError::Overflow);
            },
        };
        let cz = match on.z.coarsen() {
            Some(v) => v,
            None => {
                return Err(TraceError::Overflow);
            },
        };
        let onc = Tuple::new(cx, cy, cz, on.w);
        let tr = invc.transpose();
        let _ = tr.entries_wf();
        proof {
            let mc = crate::matrix::mcoarse_s(inv@);
            assert(invc@ == mc);
            assert forall|i: int| 0 <= i < 4 implies tr@[i] =~= mtrans_s(mc)[i] by {
                assert forall|j: int| 0 <= j < 4 implies tr@[i][j] == mtrans_s(mc)[i][j] by {
                    assert(tr@[i][j] == invc@[j][i]);
                }
            }
            assert(tr@ =~~= mtrans_s(mc));
        }
        let wn = match tr.mul_tuple(&onc) {
            Ok(v) => v,
            Err(e) => {
                return Err(e);
            },
        };
        let wnv = Tuple::vector(wn.x, wn.y, wn.z);
        let out = match wnv.norm() {
            Some(v) => v,
            None => {
                return Err(TraceError::Overflow);
            },
        };
        proof {
            let t = self@.transform;
            let mi = inv@;
            let mc = crate::matrix::mcoarse_s(mi);
            assert(invc@ == mc);
            assert forall|i: int| 0 <= i < 4 implies tr@[i] =~= mtrans_s(mc)[i] by {
                assert forall|j: int| 0 <= j < 4 implies tr@[i][j] == mtrans_s(mc)[i][j] by {
                    assert(tr@[i][j] == invc@[j][i]);
                }
            }
            assert(tr@ =~~= mtrans_s(mc));
            use_type_invariant(op.x);
            use_type_invariant(op.y);
            use_type_invariant(op.z);
            use_type_invariant(on.x);
            use_type_invariant(on.y);
            use_type_invariant(on.z);
            use_type_invariant(wn.x);
            use_type_invariant(wn.y);
            use_type_invariant(wn.z);
            let opv = op@;
            let onv = on@;
            let wnv_g = wnv@;
            assert(apply_rel(mc, point@, opv));
            assert(onc@ == crate::tuple::tcoarse(onv));
            assert(apply_rel(mtrans_s(mc), crate::tuple::tcoarse(onv), wnv_g));
            assert(normal_chain(self@, point@, wnv_g)) by {
                assert(mi.len() == 4 && (forall|i: int, j: int|
                    0 <= i < 4 && 0 <= j < 4 ==> req(
                        #[trigger] mi[i][j],
                        inv_entry_s(t, i, j),
                    )) && apply_rel(crate::matrix::mcoarse_s(mi), point@, opv) && twf(opv) && twf(
                    onv,
                ) && req(onv.x, rsub(opv.x, self@.origin.x)) && req(
                    onv.y,
                    rsub(opv.y, self@.origin.y),
                ) && req(onv.z, rsub(opv.z, self@.origin.z)) && onv.w == 0 && apply_rel(
                    mtrans_s(crate::matrix::mcoarse_s(mi)),
                    crate::tuple::tcoarse(onv),
                    wnv_g,
                ));
            }
        }
        Ok(out)
    }

    /// The raw object-space intersections with this sphere.
    pub fn sphere_intersections(&self, ray: &Ray) -> (r: Result<Intersections, TraceError>)
        ensures
            r matches Ok(xs) ==> xs@ == sphere_hits_s(self@, ray@),
            sphere_hits_defined(self@, ray@) ==> r is Ok,
    {
        proof {
            use_type_invariant(self);
            use_type_invariant(ray);
        }
        let origin = ray.origin();
        let direction = ray.direction();
        let str_ = match origin.sub(&self.origin) {
            Some(v) => v,
            None => {
                return Err(TraceError::Overflow);
            },
        };
        let a0 = match direction.dot(&direction) {
            Some(v) => v,
            None => {
                return Err(TraceError::Overflow);
            },
        };
        let a = match a0.coarsen() {
            Some(v) => v,
            None => {
                return Err(TraceError::Overflow);
            },
        };
        let b0 = match direction.dot(&str_) {
            Some(v) => v,
            None => {
                return Err(TraceError::Overflow);
            },
        };
        let b1 = match Rat::from_int(2).mul(&b0) {
            Some(v) => v,
            None => {
                return Err(TraceError::Overflow);
            },
        };
        let b = match b1.coarsen() {
            Some(v) => v,
            None => {
                return Err(TraceError::Overflow);
            },
        };
        let c0 = match str_.dot(&str_) {
            Some(v) => v,
            None => {
                return Err(TraceError::Overflow);
            },
        };
        let c1 = match c0.sub(&Rat::one()) {
            Some(v) => v,
            None => {
                return Err(TraceError::Overflow);
            },
        };
        let c = match c1.coarsen() {
            Some(v) => v,
            None => {
                return Err(TraceError::Overflow);
            },
        };
        let bb = match b.mul(&b) {
            Some(v) => v,
            None => {
                return Err(TraceError::Overflow);
            },
        };
        let fa = match Rat::from_int(4).mul(&a) {
            Some(v) => v,
            None => {
                return Err(TraceError::Overflow);
            },
        };
        let fac = match fa.mul(&c) {
            Some(v) => v,
            None => {
                return Err(TraceError::Overflow);
            },
        };
        let disc = match bb.sub(&fac) {
            Some(v) => v,
            None => {
                return Err(TraceError::Overflow);
            },
        };
        if !disc.is_nonneg() {
            let empty: Vec<Intersection> = Vec::new();
            let xs = Intersections::new(empty);
            proof {
                assert(xs@ =~= sphere_hits_s(self@, ray@));
            }
            return Ok(xs);
        }
        let sq = disc.sqrt();
        let denom = match Rat::from_int(2).mul(&a) {
            Some(v) => v,
            None => {
                return Err(TraceError::Overflow);
            },
        };
        if denom.is_zero() {
            return Err(TraceError::Overflow);
        }
        let nb = b.neg();
        let t0 = match nb.sub(&sq) {
            Some(v) => v,
            None => {
                return Err(TraceError::Overflow);
            },
        };
        let t0c = match t0.coarsen() {
            Some(v) => v,
            None => {
                return Err(TraceError::Overflow);
            },
        };
        proof {
            use_type_invariant(t0c);
            use_type_invariant(denom);
            lemma_rfix_props(t0@);
            crate::rational::lemma_mul_abs_bound(
                t0c@.d,
                denom@.n,
                crate::rational::PREC as int,
                crate::rational::NUM_CAP as int,
            );
            assert(t0c@.d * crate::rational::iabs(denom@.n) == crate::rational::iabs(
                t0c@.d * denom@.n,
            )) by (nonlinear_arith)
                requires
                    t0c@.d >= 1,
            ;
        }
        let r1 = match t0c.div_round(&denom) {
            Some(v) => v,
            None => {
                return Err(TraceError::Overflow);
            },
        };
        let t1 = match nb.add(&sq) {
            Some(v) => v,
            None => {
                return Err(TraceError::Overflow);
            },
        };
        let t1c = match t1.coarsen() {
            Some(v) => v,
            None => {
                return Err(TraceError::Overflow);
            },
        };
        proof {
            use_type_invariant(t1c);
            lemma_rfix_props(t1@);
            crate::rational::lemma_mul_abs_bound(
                t1c@.d,
                denom@.n,
                crate::rational::PREC as int,
                crate::rational::NUM_CAP as int,
            );
            assert(t1c@.d * crate::rational::iabs(denom@.n) == crate::rational::iabs(
                t1c@.d * denom@.n,
            )) by (nonlinear_arith)
                requires
                    t1c@.d >= 1,
            ;
        }
        let r2 = match t1c.div_round(&denom) {
            Some(v) => v,
            None => {
                return Err(TraceError::Overflow);
            },
        };
        let i1 = Intersection { time: r1, object: self.clone() };
        let i2 = Intersection { time: r2, object: self.clone() };
        let mut v: Vec<Intersection> = Vec::new();
        proof {
            use_type_invariant(r1);
            use_type_invariant(r2);
        }
        v.push(i1);
        v.push(i2);
        let xs = Intersections::new(v);
        proof {
            let sv = self@;
            let rv = ray@;
            let str_s = tsub_p(rv.origin, sv.origin);
            let a_s = rfix(tdot_c(rv.direction, rv.direction));
            let b_s = rfix(rcanon(rmul(Ratio { n: 2, d: 1 }, tdot_c(rv.direction, str_s))));
            let c_s = rfix(rcanon(rsub(tdot_c(str_s, str_s), rone())));
            let disc_s = rcanon(
                rsub(
                    rcanon(rmul(b_s, b_s)),
                    rcanon(rmul(rcanon(rmul(Ratio { n: 4, d: 1 }, a_s)), c_s)),
                ),
            );
            assert(str_@ == str_s);
            assert(a@ == a_s);
            assert(b@ == b_s);
            assert(c@ == c_s);
            assert(disc@ == disc_s);
            assert(disc_s.n >= 0);
            let sq_s = rsqrt(disc_s);
            let denom_s = rcanon(rmul(Ratio { n: 2, d: 1 }, a_s));
            assert(sq@ == sq_s);
            assert(denom@ == denom_s);
            assert(r1@ == rdivr(rfix(rcanon(rsub(rneg(b_s), sq_s))), denom_s));
            assert(r2@ == rdivr(rfix(rcanon(radd(rneg(b_s), sq_s))), denom_s));
            assert(xs@.len() == 2);
            assert(sphere_hits_s(sv, rv).len() == 2);
            assert(v@[0] == i1 && v@[1] == i2);
            assert(xs@[0] == i1@ && xs@[1] == i2@);
            assert(i1@.object == sv && i2@.object == sv);
            assert(i1@.time == r1@ && i2@.time == r2@);
            assert(sphere_hits_s(sv, rv)[0] == IntersectionV {
                time: rdivr(rfix(rcanon(rsub(rneg(b_s), rsqrt(disc_s)))), denom_s),
                object: sv,
            });
            assert(sphere_hits_s(sv, rv)[1] == IntersectionV {
                time: rdivr(rfix(rcanon(radd(rneg(b_s), rsqrt(disc_s)))), denom_s),
                object: sv,
            });
            assert(xs@[0] == sphere_hits_s(sv, rv)[0]);
            assert(xs@[1] == sphere_hits_s(sv, rv)[1]);
            assert(xs@ =~= sphere_hits_s(self@, ray@));
        }
        Ok(xs)
    }
}

impl Clone for Sphere {
    /// A copy denoting the same sphere.
    fn clone(&self) -> (r: Self)
        ensures
            r@ == self@,
    {
        proof {
            use_type_invariant(self);
        }
        Sphere {
            radius: self.radius,
            origin: self.origin,
            transform: self.transform.clone(),
            material: self.material,
        }
    }
}

impl PartialEq for Sphere {
    /// Spheres agree when radius, center, transform and material agree
    /// within the shared tolerance.
    fn eq(&self, other: &Self) -> (r: bool) {
        self.radius.approx_eq(&other.radius) && self.origin == other.origin && self.transform
            == other.transform && self.material == other.material
    }
}

impl vstd::std_specs::cmp::PartialEqSpecImpl for Sphere {
    open spec fn obeys_eq_spec() -> bool {
        true
    }

    open spec fn eq_spec(&self, other: &Sphere) -> bool {
        &&& crate::rational::rapprox(self@.radius, other@.radius)
        &&& crate::tuple::tapprox(self@.origin, other@.origin)
        &&& self@.transform.len() == other@.transform.len()
        &&& self.transform_cols() == other.transform_cols()
        &&& crate::matrix::mapprox(self@.transform, other@.transform)
        &&& crate::color::capprox(self@.material.color, other@.material.color)
        &&& crate::rational::rapprox(self@.material.ambient, other@.material.ambient)
        &&& crate::rational::rapprox(self@.material.diffuse, other@.material.diffuse)
        &&& crate::rational::rapprox(self@.material.specular, other@.material.specular)
        &&& self@.material.shininess == other@.material.shininess
    }
}

impl Intersect for Sphere {
    open spec fn hits(&self, ray: RayV) -> Seq<IntersectionV> {
        sphere_hits_s(self@, ray)
    }

    open spec fn hits_defined(&self, ray: RayV) -> bool {
        sphere_hits_defined(self@, ray)
    }

    open spec fn spec_transform(&self) -> Option<Seq<Seq<Ratio>>> {
        Some(self@.transform)
    }

    open spec fn spec_material(&self) -> Option<MaterialV> {
        Some(self@.material)
    }

    fn ray_intersections(&self, ray: &Ray) -> (r: Result<Intersections, TraceError>) {
        self.sphere_intersections(ray)
    }

    fn get_transform(&self) -> (r: Option<Matrix>) {
        proof {
            use_type_invariant(self);
        }
        let _ = self.transform.entries_wf();
        Some(self.transform.clone())
    }

    fn get_material(&self) -> (r: Option<Material>) {
        Some(self.material)
    }
}

} // verus!
