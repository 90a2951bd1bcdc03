use vstd::prelude::*;

verus! {

use crate::rational::Rat;
use crate::rational::Ratio;
use crate::rational::rcanon;
use crate::rational::in_caps;
use crate::rational::radd;
use crate::rational::rmul;
use crate::rational::req;
use crate::tuple::Tuple;
use crate::tuple::TupleV;
use crate::tuple::twf;
use crate::matrix::Matrix;
use crate::matrix::msquare;
use crate::matrix::minv_s;
use crate::matrix::apply_rel;
use crate::matrix::mat_row_c;
use crate::matrix::mat_row_ideal;
use crate::matrix::inv_entry_s;
use crate::matrix::lemma_mat_row_cong;
use crate::matrix::lemma_det_wf;
use crate::intersection::Intersections;
use crate::intersection::IntersectionV;
use crate::material::Material;
use crate::material::MaterialV;
use crate::TraceError;

/// Mathematical value of a ray.
pub struct RayV {
    pub origin: TupleV,
    pub direction: TupleV,
}

/// A ray: a point of origin and a direction vector.
#[derive(Clone, Copy, Debug)]
pub struct Ray {
    origin: Tuple,
    direction: Tuple,
}

impl View for Ray {
    type V = RayV;

    closed spec fn view(&self) -> RayV {
        RayV { origin: self.origin@, direction: self.direction@ }
    }
}

impl Ray {
    /// The origin is always a point and the direction always a vector.
    #[verifier::type_invariant]
    pub closed spec fn ray_inv(self) -> bool {
        self.origin@.w == 1 && self.direction@.w == 0
    }
}

/// The capability every intersectable primitive offers: raw
/// intersections with a ray in its own object space, and access to its
/// transform and material.
pub trait Intersect: Sized {
    /// The intersections a ray in object space produces.
    spec fn hits(&self, ray: RayV) -> Seq<IntersectionV>;

    /// Every step of computing those intersections stays representable.
    spec fn hits_defined(&self, ray: RayV) -> bool;

    /// The object-to-world transform, if the primitive carries one.
    spec fn spec_transform(&self) -> Option<Seq<Seq<Ratio>>>;

    /// The surface material, if the primitive carries one.
    spec fn spec_material(&self) -> Option<MaterialV>;

    /// Computes the raw intersections of a ray already expressed in this
    /// primitive's object space.
    fn ray_intersections(&self, ray: &Ray) -> (r: Result<Intersections, TraceError>)
        ensures
            r matches Ok(xs) ==> xs@ == self.hits(ray@),
            self.hits_defined(ray@) ==> r is Ok,
    ;

    /// The object-to-world transform.
    fn get_transform(&self) -> (r: Option<Matrix>)
        ensures
            r matches Some(m) ==> {
                &&& self.spec_transform() matches Some(t) && m@ == t
                &&& msquare(m@)
                &&& m@.len() == 4
                &&& m.cols_spec() == 4
                &&& crate::matrix::mwf(m@)
            },
            r is None <==> self.spec_transform() is None,
    ;

    /// The surface material.
    fn get_material(&self) -> (r: Option<Material>)
        ensures
            r matches Some(m) ==> self.spec_material() matches Some(mv) && m@ == mv,
            r is None <==> self.spec_material() is None,
    ;
}

/// Every step of the executable position computation stays representable.
pub open spec fn position_defined(r: RayV, t: Ratio) -> bool {
    &&& in_caps(rcanon(rmul(r.direction.x, t)))
    &&& in_caps(rcanon(rmul(r.direction.y, t)))
    &&& in_caps(rcanon(rmul(r.direction.z, t)))
    &&& in_caps(rcanon(radd(r.origin.x, rcanon(rmul(r.direction.x, t)))))
    &&& in_caps(rcanon(radd(r.origin.y, rcanon(rmul(r.direction.y, t)))))
    &&& in_caps(rcanon(radd(r.origin.z, rcanon(rmul(r.direction.z, t)))))
}

/// Every step of carrying a ray through a matrix stays representable, and
/// the carried discriminators are a point's and a vector's.
pub open spec fn transform_defined(m: Seq<Seq<Ratio>>, r: RayV) -> bool {
    &&& crate::matrix::row_defined(m, r.origin, 0)
    &&& crate::matrix::row_defined(m, r.origin, 1)
    &&& crate::matrix::row_defined(m, r.origin, 2)
    &&& crate::matrix::row_defined(m, r.origin, 3)
    &&& crate::matrix::row_defined(m, r.direction, 0)
    &&& crate::matrix::row_defined(m, r.direction, 1)
    &&& crate::matrix::row_defined(m, r.direction, 2)
    &&& crate::matrix::row_defined(m, r.direction, 3)
    &&& crate::rational::rtrunc(mat_row_c(m, r.origin, 3)) == 1
    &&& crate::rational::rtrunc(mat_row_c(m, r.direction, 3)) == 0
}

/// The ray a matrix of values carries a world ray to.
pub open spec fn transformed_ray(m: Seq<Seq<Ratio>>, r: RayV) -> RayV {
    RayV {
        origin: TupleV {
            x: mat_row_c(m, r.origin, 0),
            y: mat_row_c(m, r.origin, 1),
            z: mat_row_c(m, r.origin, 2),
            w: crate::rational::rtrunc(mat_row_c(m, r.origin, 3)),
        },
        direction: TupleV {
            x: mat_row_c(m, r.direction, 0),
            y: mat_row_c(m, r.direction, 1),
            z: mat_row_c(m, r.direction, 2),
            w: crate::rational::rtrunc(mat_row_c(m, r.direction, 3)),
        },
    }
}

/// Every step of intersecting a world ray with a primitive stays
/// representable: the primitive's transform (when it has one) has small
/// integer entries and a determinant above tolerance, and whatever
/// representative its inverse takes, the carried ray and the raw
/// intersection computation stay representable.
pub open spec fn intersect_defined<T: Intersect>(object: &T, world: RayV) -> bool {
    match object.spec_transform() {
        None => object.hits_defined(world),
        Some(t) => {
            &&& crate::matrix::int_entries(t)
            &&& !crate::rational::rlt(
                crate::rational::rabs(crate::matrix::det_s(t)),
                crate::rational::reps(),
            )
            &&& forall|mi: Seq<Seq<Ratio>>|
                crate::matrix::inv_rep_of(mi, t) ==> transform_defined(mi, world)
                    && object.hits_defined(transformed_ray(mi, world))
        },
    }
}

/// A world ray and an object ray related by the inverse of a transform.
pub open spec fn inv_ray_rel(t: Seq<Seq<Ratio>>, world: RayV, obj: RayV) -> bool {
    &&& obj.origin.w == 1
    &&& obj.direction.w == 0
    &&& apply_rel(minv_s(t), world.origin, obj.origin)
    &&& apply_rel(minv_s(t), world.direction, obj.direction)
}

impl Ray {
    /// Builds a ray.  The origin must be a point and the direction a
    /// vector; anything else is rejected.
    pub fn new(origin: Tuple, direction: Tuple) -> (r: Result<Ray, TraceError>)
        ensures
            r matches Ok(v) ==> v@ == (RayV { origin: origin@, direction: direction@ }),
            r is Ok <==> origin@.w == 1 && direction@.w == 0,
            r matches Err(e) ==> e == TraceError::InvalidRay,
    {
        if origin.is_point() && direction.is_vector() {
            Ok(Ray { origin, direction })
        } else {
            Err(TraceError::InvalidRay)
        }
    }

    /// The point of origin.
    pub fn origin(&self) -> (r: Tuple)
        ensures
            r@ == self@.origin,
            r@.w == 1,
    {
        proof {
            use_type_invariant(self);
        }
        self.origin
    }

    /// The direction vector.
    pub fn direction(&self) -> (r: Tuple)
        ensures
            r@ == self@.direction,
            r@.w == 0,
    {
        proof {
            use_type_invariant(self);
        }
        self.direction
    }

    /// The point reached after travelling `t` along the ray:
    /// `origin + direction * t`.
    pub fn position(&self, t: &Rat) -> (r: Option<Tuple>)
        ensures
            r matches Some(v) ==> {
                &&& v@.w == 1
                &&& v@.x == rcanon(radd(self@.origin.x, rcanon(rmul(self@.direction.x, t@))))
                &&& v@.y == rcanon(radd(self@.origin.y, rcanon(rmul(self@.direction.y, t@))))
                &&& v@.z == rcanon(radd(self@.origin.z, rcanon(rmul(self@.direction.z, t@))))
            },
            position_defined(self@, t@) ==> r is Some,
    {
        proof {
            use_type_invariant(self);
        }
        let d = match self.direction.mul(t) {
            Some(v) => v,
            None => {
                return None;
            },
        };
        self.origin.add(&d)
    }

    /// The ray carried through a transform: both origin and direction are
    /// multiplied by the matrix.
    pub fn transform(&self, transformation: &Matrix) -> (r: Result<Ray, TraceError>)
        requires
            msquare(transformation@),
            transformation@.len() == 4,
        ensures
            r matches Ok(v) ==> {
                &&& v@.origin.w == 1
                &&& v@.direction.w == 0
                &&& v@.origin.x == mat_row_c(transformation@, self@.origin, 0)
                &&& v@.origin.y == mat_row_c(transformation@, self@.origin, 1)
                &&& v@.origin.z == mat_row_c(transformation@, self@.origin, 2)
                &&& v@.direction.x == mat_row_c(transformation@, self@.direction, 0)
                &&& v@.direction.y == mat_row_c(transformation@, self@.direction, 1)
                &&& v@.direction.z == mat_row_c(transformation@, self@.direction, 2)
                &&& req(v@.origin.x, mat_row_ideal(transformation@, self@.origin, 0))
                &&& req(v@.origin.y, mat_row_ideal(transformation@, self@.origin, 1))
                &&& req(v@.origin.z, mat_row_ideal(transformation@, self@.origin, 2))
                &&& req(v@.direction.x, mat_row_ideal(transformation@, self@.direction, 0))
                &&& req(v@.direction.y, mat_row_ideal(transformation@, self@.direction, 1))
                &&& req(v@.direction.z, mat_row_ideal(transformation@, self@.direction, 2))
            },
            transform_defined(transformation@, self@) ==> r is Ok,
    {
        proof {
            use_type_invariant(self);
        }
        let o = match transformation.mul_tuple(&self.origin) {
            Ok(v) => v,
            Err(e) => {
                return Err(e);
            },
        };
        let d = match transformation.mul_tuple(&self.direction) {
            Ok(v) => v,
            Err(e) => {
                return Err(e);
            },
        };
        Ray::new(o, d)
    }

    /// Intersections of this world-space ray with a primitive: the ray is
    /// first carried into the primitive's object space by the inverse of
    /// its transform, then handed to the primitive.
    pub fn intersect<T: Intersect>(&self, object: &T) -> (r: Result<Intersections, TraceError>)
        ensures
            r matches Ok(xs) ==> {
                &&& (object.spec_transform() is None ==> xs@ == object.hits(self@))
                &&& (object.spec_transform() matches Some(t) ==> exists|rv: RayV|
                    xs@ == object.hits(rv) && inv_ray_rel(t, self@, rv))
            },
            intersect_defined(object, self@) ==> r is Ok,
    {
        let transform = object.get_transform();
        match transform {
            None => object.ray_intersections(self),
            Some(t) => {
                let _ = t.entries_wf();
                let ti = match t.inverse() {
                    Ok(v) => v,
                    Err(e) => {
                        return Err(e);
                    },
                };
                let _ = ti.entries_wf();
                proof {
                    if intersect_defined(object, self@) {
                        assert(crate::matrix::inv_rep_of(ti@, t@));
                        assert(transform_defined(ti@, self@) && object.hits_defined(
                            transformed_ray(ti@, self@),
                        ));
                    }
                }
                let rt = match self.transform(&ti) {
                    Ok(v) => v,
                    Err(e) => {
                        return Err(e);
                    },
                };
                proof {
                    use_type_invariant(self);
                    use_type_invariant(rt.origin.x);
                    use_type_invariant(rt.origin.y);
                    use_type_invariant(rt.origin.z);
                    use_type_invariant(rt.direction.x);
                    use_type_invariant(rt.direction.y);
                    use_type_invariant(rt.direction.z);
                    use_type_invariant(&rt);
                    lemma_det_wf(t@);
                    assert forall|j: int|
                        0 <= j < 4 implies req(#[trigger] ti@[0][j], minv_s(t@)[0][j]) && rwf_pair(
                        ti@[0][j],
                        minv_s(t@)[0][j],
                    ) by {
                        lemma_inv_entry_wf(t@, 0, j);
                    }
                    assert forall|j: int|
                        0 <= j < 4 implies req(#[trigger] ti@[1][j], minv_s(t@)[1][j]) && rwf_pair(
                        ti@[1][j],
                        minv_s(t@)[1][j],
                    ) by {
                        lemma_inv_entry_wf(t@, 1, j);
                    }
                    assert forall|j: int|
                        0 <= j < 4 implies req(#[trigger] ti@[2][j], minv_s(t@)[2][j]) && rwf_pair(
                        ti@[2][j],
                        minv_s(t@)[2][j],
                    ) by {
                        lemma_inv_entry_wf(t@, 2, j);
                    }
                    use_type_invariant(self.origin.x);
                    use_type_invariant(self.origin.y);
                    use_type_invariant(self.origin.z);
                    use_type_invariant(self.direction.x);
                    use_type_invariant(self.direction.y);
                    use_type_invariant(self.direction.z);
                    lemma_mat_row_cong(ti@, minv_s(t@), self@.origin, 0);
                    lemma_mat_row_cong(ti@, minv_s(t@), self@.origin, 1);
                    lemma_mat_row_cong(ti@, minv_s(t@), self@.origin, 2);
                    lemma_mat_row_cong(ti@, minv_s(t@), self@.direction, 0);
                    lemma_mat_row_cong(ti@, minv_s(t@), self@.direction, 1);
                    lemma_mat_row_cong(ti@, minv_s(t@), self@.direction, 2);
                    lemma_req_trans_rows(ti@, minv_s(t@), self@, rt@);
                    assert(inv_ray_rel(t@, self@, rt@));
                    if intersect_defined(object, self@) {
                        assert(rt@ == transformed_ray(ti@, self@));
                    }
                }
                let out = object.ray_intersections(&rt);
                match out {
                    Ok(xs) => {
                        proof {
                            assert(xs@ == object.hits(rt@));
                        }
                        Ok(xs)
                    },
                    Err(e) => Err(e),
                }
            },
        }
    }
}

/// Both sides of an entry equivalence are well formed.
pub open spec fn rwf_pair(a: Ratio, b: Ratio) -> bool {
    crate::rational::rwf(a) && crate::rational::rwf(b)
}

/// Transfers the pinned transform components of a ray to the ideal
/// inverse-matrix application.
proof fn lemma_req_trans_rows(mi: Seq<Seq<Ratio>>, ideal: Seq<Seq<Ratio>>, world: RayV, obj: RayV)
    requires
        twf(world.origin),
        twf(world.direction),
        obj.origin.w == 1,
        obj.direction.w == 0,
        mi.len() == 4,
        ideal.len() == 4,
        forall|i: int| 0 <= i < 4 ==> (#[trigger] mi[i]).len() == 4,
        forall|i: int| 0 <= i < 4 ==> (#[trigger] ideal[i]).len() == 4,
        forall|i: int| 0 <= i < 3 ==> req(
            #[trigger] mat_row_ideal(mi, world.origin, i),
            mat_row_ideal(ideal, world.origin, i),
        ) && crate::rational::rwf(mat_row_ideal(mi, world.origin, i)) && crate::rational::rwf(
            mat_row_ideal(ideal, world.origin, i),
        ),
        forall|i: int| 0 <= i < 3 ==> req(
            #[trigger] mat_row_ideal(mi, world.direction, i),
            mat_row_ideal(ideal, world.direction, i),
        ) && crate::rational::rwf(mat_row_ideal(mi, world.direction, i))
            && crate::rational::rwf(mat_row_ideal(ideal, world.direction, i)),
        req(obj.origin.x, mat_row_ideal(mi, world.origin, 0)),
        req(obj.origin.y, mat_row_ideal(mi, world.origin, 1)),
        req(obj.origin.z, mat_row_ideal(mi, world.origin, 2)),
        req(obj.direction.x, mat_row_ideal(mi, world.direction, 0)),
        req(obj.direction.y, mat_row_ideal(mi, world.direction, 1)),
        req(obj.direction.z, mat_row_ideal(mi, world.direction, 2)),
        crate::rational::rwf(obj.origin.x),
        crate::rational::rwf(obj.origin.y),
        crate::rational::rwf(obj.origin.z),
        crate::rational::rwf(obj.direction.x),
        crate::rational::rwf(obj.direction.y),
        crate::rational::rwf(obj.direction.z),
    ensures
        apply_rel(ideal, world.origin, obj.origin),
        apply_rel(ideal, world.direction, obj.direction),
{
    crate::rational::lemma_req_trans(
        obj.origin.x,
        mat_row_ideal(mi, world.origin, 0),
        mat_row_ideal(ideal, world.origin, 0),
    );
    crate::rational::lemma_req_trans(
        obj.origin.y,
        mat_row_ideal(mi, world.origin, 1),
        mat_row_ideal(ideal, world.origin, 1),
    );
    crate::rational::lemma_req_trans(
        obj.origin.z,
        mat_row_ideal(mi, world.origin, 2),
        mat_row_ideal(ideal, world.origin, 2),
    );
    crate::rational::lemma_req_trans(
        obj.direction.x,
        mat_row_ideal(mi, world.direction, 0),
        mat_row_ideal(ideal, world.direction, 0),
    );
    crate::rational::lemma_req_trans(
        obj.direction.y,
        mat_row_ideal(mi, world.direction, 1),
        mat_row_ideal(ideal, world.direction, 1),
    );
    crate::rational::lemma_req_trans(
        obj.direction.z,
        mat_row_ideal(mi, world.direction, 2),
        mat_row_ideal(ideal, world.direction, 2),
    );
}

/// An entry of the ideal inverse is a well-formed ratio.
pub proof fn lemma_inv_entry_wf(m: Seq<Seq<Ratio>>, i: int, j: int)
    requires
        msquare(m),
        crate::matrix::mwf(m),
        m.len() >= 2,
        crate::matrix::det_s(m).n != 0,
        0 <= i < m.len(),
        0 <= j < m.len(),
        crate::rational::rwf(crate::matrix::det_s(m)),
        forall|a: int, b: int|
            0 <= a < m.len() && 0 <= b < m.len() ==> crate::rational::rwf(
                #[trigger] crate::matrix::cof_s(m, a, b),
            ),
    ensures
        crate::rational::rwf(minv_s(m)[i][j]),
        minv_s(m)[i][j] == inv_entry_s(m, i, j),
{
    assert(minv_s(m)[i][j] == inv_entry_s(m, i, j));
    crate::tuple::lemma_rdiv_wf(crate::matrix::cof_s(m, j, i), crate::matrix::det_s(m));
}

} // verus!
