use vstd::prelude::*;

verus! {

use crate::rational::Rat;
use crate::rational::Ratio;
use crate::rational::rzero;
use crate::rational::rone;
use crate::rational::rneg;
use crate::matrix::Matrix;
use crate::matrix::mdims;
use crate::matrix::mwf;
use crate::matrix::msquare;
use crate::matrix::mat_row_ideal;
use crate::matrix::tapply;
use crate::matrix::mul_entry;
use crate::matrix::dot_k;
use crate::rational::radd;
use crate::rational::rsub;
use crate::rational::rmul;
use crate::rational::rdiv;
use crate::rational::req;
use crate::rational::rwf;
use crate::rational::lemma_rmul_one;
use crate::rational::lemma_rmul_zero;
use crate::rational::lemma_radd_zero_right;
use crate::rational::lemma_radd_zero_left;
use crate::rational::lemma_radd_zeros;
use crate::rational::lemma_radd_cancel;
use crate::rational::lemma_rmul_inv_cancel;
use crate::rational::lemma_radd_cong;
use crate::rational::lemma_rmul_cong;
use crate::rational::lemma_req_trans;
use crate::rational::lemma_pos_mul;
use crate::tuple::TupleV;
use crate::tuple::twf;

/// The translation matrix moving points by `(x, y, z)`.
pub open spec fn translation_s(x: Ratio, y: Ratio, z: Ratio) -> Seq<Seq<Ratio>> {
    seq![
        seq![rone(), rzero(), rzero(), x],
        seq![rzero(), rone(), rzero(), y],
        seq![rzero(), rzero(), rone(), z],
        seq![rzero(), rzero(), rzero(), rone()],
    ]
}

/// The scaling matrix stretching each axis by the matching factor.
pub open spec fn scaling_s(x: Ratio, y: Ratio, z: Ratio) -> Seq<Seq<Ratio>> {
    seq![
        seq![x, rzero(), rzero(), rzero()],
        seq![rzero(), y, rzero(), rzero()],
        seq![rzero(), rzero(), z, rzero()],
        seq![rzero(), rzero(), rzero(), rone()],
    ]
}

/// The rotation about the x axis whose angle has the given cosine and sine.
pub open spec fn rotation_x_s(c: Ratio, s: Ratio) -> Seq<Seq<Ratio>> {
    seq![
        seq![rone(), rzero(), rzero(), rzero()],
        seq![rzero(), c, rneg(s), rzero()],
        seq![rzero(), s, c, rzero()],
        seq![rzero(), rzero(), rzero(), rone()],
    ]
}

/// The rotation about the y axis whose angle has the given cosine and sine.
pub open spec fn rotation_y_s(c: Ratio, s: Ratio) -> Seq<Seq<Ratio>> {
    seq![
        seq![c, rzero(), s, rzero()],
        seq![rzero(), rone(), rzero(), rzero()],
        seq![rneg(s), rzero(), c, rzero()],
        seq![rzero(), rzero(), rzero(), rone()],
    ]
}

/// The rotation about the z axis whose angle has the given cosine and sine.
pub open spec fn rotation_z_s(c: Ratio, s: Ratio) -> Seq<Seq<Ratio>> {
    seq![
        seq![c, rneg(s), rzero(), rzero()],
        seq![s, c, rzero(), rzero()],
        seq![rzero(), rzero(), rone(), rzero()],
        seq![rzero(), rzero(), rzero(), rone()],
    ]
}

/// The shearing matrix moving each coordinate in proportion to the others.
pub open spec fn shearing_s(
    xy: Ratio,
    xz: Ratio,
    yx: Ratio,
    yz: Ratio,
    zx: Ratio,
    zy: Ratio,
) -> Seq<Seq<Ratio>> {
    seq![
        seq![rone(), xy, xz, rzero()],
        seq![yx, rone(), yz, rzero()],
        seq![zx, zy, rone(), rzero()],
        seq![rzero(), rzero(), rzero(), rone()],
    ]
}

/// Builds the translation by `(x, y, z)`.
pub fn translation(x: Rat, y: Rat, z: Rat) -> (r: Matrix)
    ensures
        r@ == translation_s(x@, y@, z@),
        msquare(r@),
        mwf(r@),
        r.cols_spec() == 4,
{
    let mut t = Matrix::identity(4);
    t.set(0, 3, x);
    t.set(1, 3, y);
    t.set(2, 3, z);
    let _ = t.entries_wf();
    proof {
        assert(t@[0].len() == t.cols_spec());
        finish_builder(t@, translation_s(x@, y@, z@));
    }
    t
}

/// Builds the scaling by `(x, y, z)`.
pub fn scaling(x: Rat, y: Rat, z: Rat) -> (r: Matrix)
    ensures
        r@ == scaling_s(x@, y@, z@),
        msquare(r@),
        mwf(r@),
        r.cols_spec() == 4,
{
    let mut t = Matrix::identity(4);
    t.set(0, 0, x);
    t.set(1, 1, y);
    t.set(2, 2, z);
    let _ = t.entries_wf();
    proof {
        assert(t@[0].len() == t.cols_spec());
        finish_builder(t@, scaling_s(x@, y@, z@));
    }
    t
}

/// Builds the rotation about the x axis from the angle's cosine and sine.
pub fn rotation_x(cos_r: Rat, sin_r: Rat) -> (r: Matrix)
    ensures
        r@ == rotation_x_s(cos_r@, sin_r@),
        msquare(r@),
        mwf(r@),
        r.cols_spec() == 4,
{
    let mut t = Matrix::identity(4);
    t.set(1, 1, cos_r);
    t.set(1, 2, sin_r.neg());
    t.set(2, 1, sin_r);
    t.set(2, 2, cos_r);
    let _ = t.entries_wf();
    proof {
        assert(t@[0].len() == t.cols_spec());
        finish_builder(t@, rotation_x_s(cos_r@, sin_r@));
    }
    t
}

/// Builds the rotation about the y axis from the angle's cosine and sine.
pub fn rotation_y(cos_r: Rat, sin_r: Rat) -> (r: Matrix)
    ensures
        r@ == rotation_y_s(cos_r@, sin_r@),
        msquare(r@),
        mwf(r@),
        r.cols_spec() == 4,
{
    let mut t = Matrix::identity(4);
    t.set(0, 0, cos_r);
    t.set(0, 2, sin_r);
    t.set(2, 0, sin_r.neg());
    t.set(2, 2, cos_r);
    let _ = t.entries_wf();
    proof {
        assert(t@[0].len() == t.cols_spec());
        finish_builder(t@, rotation_y_s(cos_r@, sin_r@));
    }
    t
}

/// Builds the rotation about the z axis from the angle's cosine and sine.
pub fn rotation_z(cos_r: Rat, sin_r: Rat) -> (r: Matrix)
    ensures
        r@ == rotation_z_s(cos_r@, sin_r@),
        msquare(r@),
        mwf(r@),
        r.cols_spec() == 4,
{
    let mut t = Matrix::identity(4);
    t.set(0, 0, cos_r);
    t.set(0, 1, sin_r.neg());
    t.set(1, 0, sin_r);
    t.set(1, 1, cos_r);
    let _ = t.entries_wf();
    proof {
        assert(t@[0].len() == t.cols_spec());
        finish_builder(t@, rotation_z_s(cos_r@, sin_r@));
    }
    t
}

/// Builds the shearing with the six proportionality factors.
pub fn shearing(xy: Rat, xz: Rat, yx: Rat, yz: Rat, zx: Rat, zy: Rat) -> (r: Matrix)
    ensures
        r@ == shearing_s(xy@, xz@, yx@, yz@, zx@, zy@),
        msquare(r@),
        mwf(r@),
        r.cols_spec() == 4,
{
    let mut t = Matrix::identity(4);
    t.set(0, 1, xy);
    t.set(0, 2, xz);
    t.set(1, 0, yx);
    t.set(1, 2, yz);
    t.set(2, 0, zx);
    t.set(2, 1, zy);
    let _ = t.entries_wf();
    proof {
        assert(t@[0].len() == t.cols_spec());
        finish_builder(t@, shearing_s(xy@, xz@, yx@, yz@, zx@, zy@));
    }
    t
}

/// A translation row applied to a tuple adds the offset, scaled by the
/// discriminator, to the matching coordinate; the last row passes the
/// discriminator through.
pub proof fn lemma_translation_row(x: Ratio, y: Ratio, z: Ratio, t: TupleV)
    requires
        rwf(x),
        rwf(y),
        rwf(z),
        twf(t),
    ensures
        ({
            let m = translation_s(x, y, z);
            let w = Ratio { n: t.w, d: 1 };
            &&& req(mat_row_ideal(m, t, 0), radd(t.x, rmul(x, w)))
            &&& req(mat_row_ideal(m, t, 1), radd(t.y, rmul(y, w)))
            &&& req(mat_row_ideal(m, t, 2), radd(t.z, rmul(z, w)))
            &&& req(mat_row_ideal(m, t, 3), w)
            &&& rwf(mat_row_ideal(m, t, 0))
            &&& rwf(mat_row_ideal(m, t, 1))
            &&& rwf(mat_row_ideal(m, t, 2))
            &&& rwf(mat_row_ideal(m, t, 3))
        }),
{
    let m = translation_s(x, y, z);
    let w = Ratio { n: t.w, d: 1 };
    lemma_rmul_one(t.x);
    lemma_rmul_one(t.y);
    lemma_rmul_one(t.z);
    lemma_rmul_one(w);
    lemma_rmul_zero(t.x);
    lemma_rmul_zero(t.y);
    lemma_rmul_zero(t.z);
    lemma_pos_mul(x.d, w.d);
    lemma_pos_mul(y.d, w.d);
    lemma_pos_mul(z.d, w.d);
    // row 0: the x coordinate plus the offset term
    lemma_chain3(rmul(rone(), t.x), rmul(rzero(), t.y), rmul(rzero(), t.z), t.x, 0);
    lemma_tail_term(
        radd(radd(rmul(rone(), t.x), rmul(rzero(), t.y)), rmul(rzero(), t.z)),
        t.x,
        rmul(x, w),
    );
    assert(mat_row_ideal(m, t, 0) == radd(
        radd(radd(rmul(rone(), t.x), rmul(rzero(), t.y)), rmul(rzero(), t.z)),
        rmul(x, w),
    ));
    // row 1: the y coordinate plus the offset term
    lemma_chain3(rmul(rzero(), t.x), rmul(rone(), t.y), rmul(rzero(), t.z), t.y, 1);
    lemma_tail_term(
        radd(radd(rmul(rzero(), t.x), rmul(rone(), t.y)), rmul(rzero(), t.z)),
        t.y,
        rmul(y, w),
    );
    assert(mat_row_ideal(m, t, 1) == radd(
        radd(radd(rmul(rzero(), t.x), rmul(rone(), t.y)), rmul(rzero(), t.z)),
        rmul(y, w),
    ));
    // row 2: the z coordinate plus the offset term
    lemma_chain3(rmul(rzero(), t.x), rmul(rzero(), t.y), rmul(rone(), t.z), t.z, 2);
    lemma_tail_term(
        radd(radd(rmul(rzero(), t.x), rmul(rzero(), t.y)), rmul(rone(), t.z)),
        t.z,
        rmul(z, w),
    );
    assert(mat_row_ideal(m, t, 2) == radd(
        radd(radd(rmul(rzero(), t.x), rmul(rzero(), t.y)), rmul(rone(), t.z)),
        rmul(z, w),
    ));
    // row 3: three zero terms and the discriminator
    lemma_last_affine_row(t.x, t.y, t.z, w);
    assert(mat_row_ideal(m, t, 3) == radd(
        radd(radd(rmul(rzero(), t.x), rmul(rzero(), t.y)), rmul(rzero(), t.z)),
        rmul(rone(), w),
    ));
}

/// A three-term sum chain in which one term denotes the value `c` and the
/// others denote zero.  The position of the value term is `pos`.
proof fn lemma_chain3(a0: Ratio, a1: Ratio, a2: Ratio, c: Ratio, pos: int)
    requires
        rwf(a0),
        rwf(a1),
        rwf(a2),
        rwf(c),
        0 <= pos < 3,
        pos == 0 ==> req(a0, c) && a1.n == 0 && a2.n == 0,
        pos == 1 ==> a0.n == 0 && req(a1, c) && a2.n == 0,
        pos == 2 ==> a0.n == 0 && a1.n == 0 && req(a2, c),
    ensures
        req(radd(radd(a0, a1), a2), c),
        rwf(radd(radd(a0, a1), a2)),
{
    let s1 = radd(a0, a1);
    let s2 = radd(s1, a2);
    if pos == 0 {
        lemma_radd_zero_right(a0, a1);
        lemma_radd_zero_right(s1, a2);
        lemma_req_trans(s2, s1, a0);
        lemma_req_trans(s2, a0, c);
    } else if pos == 1 {
        lemma_radd_zero_left(a0, a1);
        lemma_radd_zero_right(s1, a2);
        lemma_req_trans(s2, s1, a1);
        lemma_req_trans(s2, a1, c);
    } else {
        lemma_radd_zeros(a0, a1);
        lemma_radd_zero_left(s1, a2);
        lemma_req_trans(s2, a2, c);
    }
}

/// Appending one more summand to a chain that denotes `c` gives a chain
/// that denotes `c` plus the summand.
proof fn lemma_tail_term(prefix: Ratio, c: Ratio, tail: Ratio)
    requires
        rwf(prefix),
        rwf(c),
        rwf(tail),
        req(prefix, c),
    ensures
        req(radd(prefix, tail), radd(c, tail)),
        rwf(radd(prefix, tail)),
{
    lemma_radd_cong(prefix, tail, c, tail);
    lemma_pos_mul(c.d, tail.d);
}

/// A row of three zero terms and a final discriminator term denotes the
/// discriminator.
proof fn lemma_last_affine_row(c0: Ratio, c1: Ratio, c2: Ratio, w: Ratio)
    requires
        rwf(c0),
        rwf(c1),
        rwf(c2),
        rwf(w),
    ensures
        req(
            radd(radd(radd(rmul(rzero(), c0), rmul(rzero(), c1)), rmul(rzero(), c2)), rmul(rone(), w)),
            w,
        ),
        rwf(
            radd(radd(radd(rmul(rzero(), c0), rmul(rzero(), c1)), rmul(rzero(), c2)), rmul(rone(), w)),
        ),
{
    lemma_rmul_zero(c0);
    lemma_rmul_zero(c1);
    lemma_rmul_zero(c2);
    lemma_rmul_one(w);
    lemma_radd_zeros(rmul(rzero(), c0), rmul(rzero(), c1));
    lemma_radd_zeros(radd(rmul(rzero(), c0), rmul(rzero(), c1)), rmul(rzero(), c2));
    lemma_radd_zero_left(
        radd(radd(rmul(rzero(), c0), rmul(rzero(), c1)), rmul(rzero(), c2)),
        w,
    );
}

/// Translating a vector leaves it unchanged: applied to any tuple with a
/// vector's discriminator, a translation denotes the same coordinates.
pub proof fn lemma_translation_fixes_vectors(x: Ratio, y: Ratio, z: Ratio, v: TupleV)
    requires
        rwf(x),
        rwf(y),
        rwf(z),
        twf(v),
        v.w == 0,
    ensures
        req(mat_row_ideal(translation_s(x, y, z), v, 0), v.x),
        req(mat_row_ideal(translation_s(x, y, z), v, 1), v.y),
        req(mat_row_ideal(translation_s(x, y, z), v, 2), v.z),
{
    lemma_translation_row(x, y, z, v);
    let m = translation_s(x, y, z);
    let w = Ratio { n: 0, d: 1 };
    assert(req(radd(v.x, rmul(x, w)), v.x) && rwf(radd(v.x, rmul(x, w)))) by (nonlinear_arith)
        requires
            twf(v),
            rwf(x),
            w == (Ratio { n: 0int, d: 1int }),
    ;
    assert(req(radd(v.y, rmul(y, w)), v.y) && rwf(radd(v.y, rmul(y, w)))) by (nonlinear_arith)
        requires
            twf(v),
            rwf(y),
            w == (Ratio { n: 0int, d: 1int }),
    ;
    assert(req(radd(v.z, rmul(z, w)), v.z) && rwf(radd(v.z, rmul(z, w)))) by (nonlinear_arith)
        requires
            twf(v),
            rwf(z),
            w == (Ratio { n: 0int, d: 1int }),
    ;
    lemma_req_trans(mat_row_ideal(m, v, 0), radd(v.x, rmul(x, w)), v.x);
    lemma_req_trans(mat_row_ideal(m, v, 1), radd(v.y, rmul(y, w)), v.y);
    lemma_req_trans(mat_row_ideal(m, v, 2), radd(v.z, rmul(z, w)), v.z);
}

/// For any point, the translation by the negated offsets applied after the
/// translation itself restores the point.
pub proof fn lemma_translation_round_trip(x: Ratio, y: Ratio, z: Ratio, p: TupleV)
    requires
        rwf(x),
        rwf(y),
        rwf(z),
        twf(p),
        p.w == 1,
    ensures
        ({
            let tp = tapply(translation_s(x, y, z), p);
            let back = tapply(translation_s(rneg(x), rneg(y), rneg(z)), tp);
            req(back.x, p.x) && req(back.y, p.y) && req(back.z, p.z) && back.w == 1
        }),
{
    let tp = tapply(translation_s(x, y, z), p);
    let back = tapply(translation_s(rneg(x), rneg(y), rneg(z)), tp);
    let w = Ratio { n: 1, d: 1 };
    lemma_translation_row(x, y, z, p);
    lemma_rmul_one(x);
    lemma_rmul_one(y);
    lemma_rmul_one(z);
    assert(rmul(x, w) == x && rmul(y, w) == y && rmul(z, w) == z);
    assert(twf(tp));
    lemma_translation_row(rneg(x), rneg(y), rneg(z), tp);
    lemma_rmul_one(rneg(x));
    lemma_rmul_one(rneg(y));
    lemma_rmul_one(rneg(z));
    lemma_trip_coord(p.x, x, tp.x, back.x);
    lemma_trip_coord(p.y, y, tp.y, back.y);
    lemma_trip_coord(p.z, z, tp.z, back.z);
}

proof fn lemma_trip_coord(pc: Ratio, off: Ratio, tpc: Ratio, backc: Ratio)
    requires
        rwf(pc),
        rwf(off),
        rwf(tpc),
        rwf(backc),
        req(tpc, radd(pc, off)),
        req(backc, radd(tpc, rneg(off))),
    ensures
        req(backc, pc),
{
    lemma_pos_mul(pc.d, off.d);
    crate::rational::lemma_rneg_cong(off, off);
    lemma_radd_cong(tpc, rneg(off), radd(pc, off), rneg(off));
    lemma_radd_cancel(pc, off);
    lemma_pos_mul(tpc.d, off.d);
    lemma_pos_mul(radd(pc, off).d, off.d);
    lemma_req_trans(backc, radd(tpc, rneg(off)), radd(radd(pc, off), rneg(off)));
    lemma_req_trans(backc, radd(radd(pc, off), rneg(off)), pc);
}

/// A scaling row applied to a tuple stretches the matching coordinate; the
/// last row passes the discriminator through.
pub proof fn lemma_scaling_row(sx: Ratio, sy: Ratio, sz: Ratio, t: TupleV)
    requires
        rwf(sx),
        rwf(sy),
        rwf(sz),
        twf(t),
    ensures
        ({
            let m = scaling_s(sx, sy, sz);
            &&& req(mat_row_ideal(m, t, 0), rmul(sx, t.x))
            &&& req(mat_row_ideal(m, t, 1), rmul(sy, t.y))
            &&& req(mat_row_ideal(m, t, 2), rmul(sz, t.z))
            &&& req(mat_row_ideal(m, t, 3), Ratio { n: t.w, d: 1 })
            &&& rwf(mat_row_ideal(m, t, 0))
            &&& rwf(mat_row_ideal(m, t, 1))
            &&& rwf(mat_row_ideal(m, t, 2))
        }),
{
    let m = scaling_s(sx, sy, sz);
    let w = Ratio { n: t.w, d: 1 };
    lemma_rmul_zero(t.x);
    lemma_rmul_zero(t.y);
    lemma_rmul_zero(t.z);
    lemma_rmul_zero(w);
    lemma_pos_mul(sx.d, t.x.d);
    lemma_pos_mul(sy.d, t.y.d);
    lemma_pos_mul(sz.d, t.z.d);
    // row 0: the stretched x coordinate and a zero offset term
    lemma_chain3(rmul(sx, t.x), rmul(rzero(), t.y), rmul(rzero(), t.z), rmul(sx, t.x), 0);
    lemma_zero_tail(
        radd(radd(rmul(sx, t.x), rmul(rzero(), t.y)), rmul(rzero(), t.z)),
        rmul(sx, t.x),
        rmul(rzero(), w),
    );
    assert(mat_row_ideal(m, t, 0) == radd(
        radd(radd(rmul(sx, t.x), rmul(rzero(), t.y)), rmul(rzero(), t.z)),
        rmul(rzero(), w),
    ));
    // row 1: the stretched y coordinate and a zero offset term
    lemma_chain3(rmul(rzero(), t.x), rmul(sy, t.y), rmul(rzero(), t.z), rmul(sy, t.y), 1);
    lemma_zero_tail(
        radd(radd(rmul(rzero(), t.x), rmul(sy, t.y)), rmul(rzero(), t.z)),
        rmul(sy, t.y),
        rmul(rzero(), w),
    );
    assert(mat_row_ideal(m, t, 1) == radd(
        radd(radd(rmul(rzero(), t.x), rmul(sy, t.y)), rmul(rzero(), t.z)),
        rmul(rzero(), w),
    ));
    // row 2: the stretched z coordinate and a zero offset term
    lemma_chain3(rmul(rzero(), t.x), rmul(rzero(), t.y), rmul(sz, t.z), rmul(sz, t.z), 2);
    lemma_zero_tail(
        radd(radd(rmul(rzero(), t.x), rmul(rzero(), t.y)), rmul(sz, t.z)),
        rmul(sz, t.z),
        rmul(rzero(), w),
    );
    assert(mat_row_ideal(m, t, 2) == radd(
        radd(radd(rmul(rzero(), t.x), rmul(rzero(), t.y)), rmul(sz, t.z)),
        rmul(rzero(), w),
    ));
    // row 3: three zero terms and the discriminator
    lemma_last_affine_row(t.x, t.y, t.z, w);
    assert(mat_row_ideal(m, t, 3) == radd(
        radd(radd(rmul(rzero(), t.x), rmul(rzero(), t.y)), rmul(rzero(), t.z)),
        rmul(rone(), w),
    ));
}

/// Appending a summand that denotes zero keeps the chain's value.
proof fn lemma_zero_tail(prefix: Ratio, c: Ratio, z: Ratio)
    requires
        rwf(prefix),
        rwf(c),
        rwf(z),
        req(prefix, c),
        z.n == 0,
    ensures
        req(radd(prefix, z), c),
        rwf(radd(prefix, z)),
{
    lemma_radd_zero_right(prefix, z);
    lemma_req_trans(radd(prefix, z), prefix, c);
}

/// For any vector and nonzero scale factors, the scaling by the
/// reciprocals applied after the scaling itself restores the vector.
pub proof fn lemma_scaling_round_trip(sx: Ratio, sy: Ratio, sz: Ratio, v: TupleV)
    requires
        rwf(sx),
        rwf(sy),
        rwf(sz),
        sx.n != 0,
        sy.n != 0,
        sz.n != 0,
        twf(v),
        v.w == 0,
    ensures
        ({
            let sv = tapply(scaling_s(sx, sy, sz), v);
            let back = tapply(scaling_s(rdiv(rone(), sx), rdiv(rone(), sy), rdiv(rone(), sz)), sv);
            req(back.x, v.x) && req(back.y, v.y) && req(back.z, v.z) && back.w == 0
        }),
{
    let sv = tapply(scaling_s(sx, sy, sz), v);
    let ix = rdiv(rone(), sx);
    let iy = rdiv(rone(), sy);
    let iz = rdiv(rone(), sz);
    let back = tapply(scaling_s(ix, iy, iz), sv);
    lemma_scaling_row(sx, sy, sz, v);
    assert(twf(sv));
    crate::tuple::lemma_rdiv_wf(rone(), sx);
    crate::tuple::lemma_rdiv_wf(rone(), sy);
    crate::tuple::lemma_rdiv_wf(rone(), sz);
    lemma_scaling_row(ix, iy, iz, sv);
    lemma_scale_coord(sx, v.x, sv.x, back.x);
    lemma_scale_coord(sy, v.y, sv.y, back.y);
    lemma_scale_coord(sz, v.z, sv.z, back.z);
}

proof fn lemma_scale_coord(s: Ratio, vc: Ratio, svc: Ratio, backc: Ratio)
    requires
        rwf(s),
        rwf(vc),
        rwf(svc),
        rwf(backc),
        s.n != 0,
        req(svc, rmul(s, vc)),
        req(backc, rmul(rdiv(rone(), s), svc)),
    ensures
        req(backc, vc),
{
    let inv = rdiv(rone(), s);
    crate::tuple::lemma_rdiv_wf(rone(), s);
    lemma_pos_mul(s.d, vc.d);
    crate::rational::lemma_req_sym(svc, rmul(s, vc));
    lemma_rmul_cong(inv, svc, inv, rmul(s, vc));
    lemma_rmul_inv_cancel(s, vc);
    lemma_pos_mul(inv.d, svc.d);
    lemma_pos_mul(inv.d, rmul(s, vc).d);
    lemma_req_trans(backc, rmul(inv, svc), rmul(inv, rmul(s, vc)));
    lemma_req_trans(backc, rmul(inv, rmul(s, vc)), vc);
}

/// The product of two rotations about the x axis is the rotation about the
/// x axis by the summed angle: the composed matrix's entries denote the
/// cosine and sine given by the angle addition formulas.  In particular,
/// rotating by a quarter turn twice denotes rotating by a half turn.
pub proof fn lemma_rotation_x_compose(c1: Ratio, s1: Ratio, c2: Ratio, s2: Ratio)
    requires
        rwf(c1),
        rwf(s1),
        rwf(c2),
        rwf(s2),
    ensures
        ({
            let m1 = rotation_x_s(c1, s1);
            let m2 = rotation_x_s(c2, s2);
            let m3 = rotation_x_s(
                rsub(rmul(c1, c2), rmul(s1, s2)),
                radd(rmul(s1, c2), rmul(c1, s2)),
            );
            forall|i: int, j: int|
                0 <= i < 4 && 0 <= j < 4 ==> req(#[trigger] mul_entry(m1, m2, i, j), m3[i][j])
        }),
{
    let m1 = rotation_x_s(c1, s1);
    let m2 = rotation_x_s(c2, s2);
    let c3 = rsub(rmul(c1, c2), rmul(s1, s2));
    let s3 = radd(rmul(s1, c2), rmul(c1, s2));
    let m3 = rotation_x_s(c3, s3);
    lemma_pos_mul(c1.d, c2.d);
    lemma_pos_mul(s1.d, s2.d);
    lemma_pos_mul(s1.d, c2.d);
    lemma_pos_mul(c1.d, s2.d);
    lemma_rmul_zero(rone());
    lemma_rmul_zero(rzero());
    lemma_rmul_zero(c1);
    lemma_rmul_zero(s1);
    lemma_rmul_zero(c2);
    lemma_rmul_zero(s2);
    lemma_rmul_zero(rneg(s1));
    lemma_rmul_zero(rneg(s2));
    lemma_rmul_zero_right(rone());
    lemma_rmul_zero_right(c1);
    lemma_rmul_zero_right(s1);
    lemma_rmul_zero_right(rneg(s1));
    lemma_rmul_one(rone());
    assert forall|i: int, j: int|
        0 <= i < 4 && 0 <= j < 4 implies req(#[trigger] mul_entry(m1, m2, i, j), m3[i][j]) by {
        lemma_dot4_unfold(m1, m2, i, j);
        let t0 = rmul(m1[i][0], m2[0][j]);
        let t1 = rmul(m1[i][1], m2[1][j]);
        let t2 = rmul(m1[i][2], m2[2][j]);
        let t3 = rmul(m1[i][3], m2[3][j]);
        if i == 0 {
            if j == 0 {
                lemma_chain5(t0, t1, t2, t3, rone(), 0);
            } else {
                lemma_rmul_zero_right(m1[0][0]);
                lemma_chain5(t0, t1, t2, t3, rzero(), -1);
            }
        } else if i == 3 {
            if j == 3 {
                lemma_chain5(t0, t1, t2, t3, rone(), 3);
            } else {
                lemma_rmul_zero_right(m1[3][3]);
                lemma_chain5(t0, t1, t2, t3, rzero(), -1);
            }
        } else if i == 1 {
            if j == 1 {
                lemma_rmul_neg_left(s1, s2);
                lemma_chain5_pair(t0, t1, t2, t3, rmul(c1, c2), rneg(rmul(s1, s2)));
                assert(radd(rmul(c1, c2), rneg(rmul(s1, s2))) == c3);
            } else if j == 2 {
                lemma_rmul_neg_right(c1, s2);
                lemma_rmul_neg_left(s1, c2);
                lemma_chain5_pair(t0, t1, t2, t3, rneg(rmul(c1, s2)), rneg(rmul(s1, c2)));
                lemma_neg_pair(rmul(c1, s2), rmul(s1, c2));
                lemma_radd_comm(rmul(c1, s2), rmul(s1, c2));
                assert(radd(rneg(rmul(c1, s2)), rneg(rmul(s1, c2))) == rneg(s3));
            } else {
                lemma_rmul_zero_right(c1);
                lemma_rmul_zero_right(rneg(s1));
                lemma_chain5(t0, t1, t2, t3, rzero(), -1);
            }
        } else {
            if j == 1 {
                lemma_chain5_pair(t0, t1, t2, t3, rmul(s1, c2), rmul(c1, s2));
                assert(radd(rmul(s1, c2), rmul(c1, s2)) == s3);
            } else if j == 2 {
                lemma_rmul_neg_right(s1, s2);
                lemma_chain5_pair(t0, t1, t2, t3, rneg(rmul(s1, s2)), rmul(c1, c2));
                lemma_radd_comm(rneg(rmul(s1, s2)), rmul(c1, c2));
                assert(radd(rneg(rmul(s1, s2)), rmul(c1, c2)) == radd(
                    rmul(c1, c2),
                    rneg(rmul(s1, s2)),
                ));
                assert(radd(rmul(c1, c2), rneg(rmul(s1, s2))) == c3);
            } else {
                lemma_rmul_zero_right(s1);
                lemma_rmul_zero_right(c1);
                lemma_chain5(t0, t1, t2, t3, rzero(), -1);
            }
        }
    }
}

/// One entry of a product of four-column matrices, written as the explicit
/// five-term sum chain.
proof fn lemma_dot4_unfold(a: Seq<Seq<Ratio>>, b: Seq<Seq<Ratio>>, i: int, j: int)
    requires
        0 <= i < a.len(),
        a[i].len() == 4,
    ensures
        mul_entry(a, b, i, j) == radd(
            radd(
                radd(radd(rzero(), rmul(a[i][0], b[0][j])), rmul(a[i][1], b[1][j])),
                rmul(a[i][2], b[2][j]),
            ),
            rmul(a[i][3], b[3][j]),
        ),
{
    assert(dot_k(a, b, i, j, 0) == rzero());
    assert(dot_k(a, b, i, j, 1) == radd(dot_k(a, b, i, j, 0), rmul(a[i][0], b[0][j])));
    assert(dot_k(a, b, i, j, 2) == radd(dot_k(a, b, i, j, 1), rmul(a[i][1], b[1][j])));
    assert(dot_k(a, b, i, j, 3) == radd(dot_k(a, b, i, j, 2), rmul(a[i][2], b[2][j])));
    assert(dot_k(a, b, i, j, 4) == radd(dot_k(a, b, i, j, 3), rmul(a[i][3], b[3][j])));
}

/// A five-term sum chain starting from zero in which at most one term
/// denotes the value `c` (at position `pos`) and the others denote zero;
/// a position of minus one means every term denotes zero.
proof fn lemma_chain5(m0: Ratio, m1: Ratio, m2: Ratio, m3: Ratio, c: Ratio, pos: int)
    requires
        rwf(m0),
        rwf(m1),
        rwf(m2),
        rwf(m3),
        rwf(c),
        -1 <= pos < 4,
        pos == -1 ==> m0.n == 0 && m1.n == 0 && m2.n == 0 && m3.n == 0,
        pos == 0 ==> req(m0, c) && m1.n == 0 && m2.n == 0 && m3.n == 0,
        pos == 1 ==> m0.n == 0 && req(m1, c) && m2.n == 0 && m3.n == 0,
        pos == 2 ==> m0.n == 0 && m1.n == 0 && req(m2, c) && m3.n == 0,
        pos == 3 ==> m0.n == 0 && m1.n == 0 && m2.n == 0 && req(m3, c),
    ensures
        ({
            let chain = radd(radd(radd(radd(rzero(), m0), m1), m2), m3);
            &&& rwf(chain)
            &&& (pos >= 0 ==> req(chain, c))
            &&& (pos == -1 ==> req(chain, rzero()))
        }),
{
    let z = rzero();
    let s0 = radd(z, m0);
    let s1 = radd(s0, m1);
    let s2 = radd(s1, m2);
    let s3 = radd(s2, m3);
    if pos == -1 {
        lemma_radd_zeros(z, m0);
        lemma_radd_zeros(s0, m1);
        lemma_radd_zeros(s1, m2);
        lemma_radd_zeros(s2, m3);
    } else if pos == 0 {
        lemma_radd_zero_left(z, m0);
        lemma_req_trans(s0, m0, c);
        lemma_zero_tail(s0, c, m1);
        lemma_zero_tail(s1, c, m2);
        lemma_zero_tail(s2, c, m3);
    } else if pos == 1 {
        lemma_radd_zeros(z, m0);
        lemma_radd_zero_left(s0, m1);
        lemma_req_trans(s1, m1, c);
        lemma_zero_tail(s1, c, m2);
        lemma_zero_tail(s2, c, m3);
    } else if pos == 2 {
        lemma_radd_zeros(z, m0);
        lemma_radd_zeros(s0, m1);
        lemma_radd_zero_left(s1, m2);
        lemma_req_trans(s2, m2, c);
        lemma_zero_tail(s2, c, m3);
    } else {
        lemma_radd_zeros(z, m0);
        lemma_radd_zeros(s0, m1);
        lemma_radd_zeros(s1, m2);
        lemma_radd_zero_left(s2, m3);
        lemma_req_trans(s3, m3, c);
    }
}

/// A five-term sum chain starting from zero whose middle two terms carry
/// the values and whose outer terms denote zero.
proof fn lemma_chain5_pair(m0: Ratio, v1: Ratio, v2: Ratio, m3: Ratio, w1: Ratio, w2: Ratio)
    requires
        rwf(m0),
        rwf(v1),
        rwf(v2),
        rwf(m3),
        rwf(w1),
        rwf(w2),
        m0.n == 0,
        m3.n == 0,
        v1 == w1,
        v2 == w2,
    ensures
        ({
            let chain = radd(radd(radd(radd(rzero(), m0), v1), v2), m3);
            rwf(chain) && req(chain, radd(w1, w2))
        }),
{
    let z = rzero();
    let s0 = radd(z, m0);
    let s1 = radd(s0, v1);
    let s2 = radd(s1, v2);
    lemma_radd_zeros(z, m0);
    lemma_radd_zero_left(s0, v1);
    lemma_radd_cong(s1, v2, v1, v2);
    lemma_pos_mul(v1.d, v2.d);
    lemma_zero_tail(s2, radd(v1, v2), m3);
}

/// Negation moves out of a product's first factor.
proof fn lemma_rmul_neg_left(a: Ratio, b: Ratio)
    by (nonlinear_arith)
    ensures
        rmul(rneg(a), b) == rneg(rmul(a, b)),
{
}

/// Negation moves out of a product's second factor.
proof fn lemma_rmul_neg_right(a: Ratio, b: Ratio)
    by (nonlinear_arith)
    ensures
        rmul(a, rneg(b)) == rneg(rmul(a, b)),
{
}

/// A product with a zero second factor denotes zero.
proof fn lemma_rmul_zero_right(a: Ratio)
    by (nonlinear_arith)
    requires
        rwf(a),
    ensures
        rmul(a, rzero()).n == 0,
        rwf(rmul(a, rzero())),
{
}

/// The sum of two negations is the negation of the sum.
proof fn lemma_neg_pair(a: Ratio, b: Ratio)
    by (nonlinear_arith)
    ensures
        radd(rneg(a), rneg(b)) == rneg(radd(a, b)),
{
}

/// Addition of ratios is symmetric in its representatives.
proof fn lemma_radd_comm(a: Ratio, b: Ratio)
    by (nonlinear_arith)
    ensures
        radd(a, b) == radd(b, a),
{
}

/// The four-by-four identity matrix of values: the scaling by one on
/// every axis, which `Matrix::identity` builds.
pub open spec fn mid4() -> Seq<Seq<Ratio>> {
    scaling_s(rone(), rone(), rone())
}

/// Applying the identity to a tuple denotes the tuple itself, coordinate
/// by coordinate.
pub proof fn lemma_identity_apply(t: TupleV)
    requires
        twf(t),
    ensures
        req(mat_row_ideal(mid4(), t, 0), t.x),
        req(mat_row_ideal(mid4(), t, 1), t.y),
        req(mat_row_ideal(mid4(), t, 2), t.z),
        req(mat_row_ideal(mid4(), t, 3), Ratio { n: t.w, d: 1 }),
{
    lemma_scaling_row(rone(), rone(), rone(), t);
    lemma_rmul_one(t.x);
    lemma_rmul_one(t.y);
    lemma_rmul_one(t.z);
}

/// Multiplying a four-by-four matrix by the identity, on either side,
/// denotes the matrix itself entry by entry.
pub proof fn lemma_identity_mul(m: Seq<Seq<Ratio>>)
    requires
        mdims(m, 4, 4),
        mwf(m),
    ensures
        forall|i: int, j: int|
            0 <= i < 4 && 0 <= j < 4 ==> req(#[trigger] mul_entry(mid4(), m, i, j), m[i][j]),
        forall|i: int, j: int|
            0 <= i < 4 && 0 <= j < 4 ==> req(#[trigger] mul_entry(m, mid4(), i, j), m[i][j]),
{
    assert forall|i: int, j: int|
        0 <= i < 4 && 0 <= j < 4 implies req(#[trigger] mul_entry(mid4(), m, i, j), m[i][j]) by {
        lemma_dot4_unfold(mid4(), m, i, j);
        lemma_rmul_one(m[i][j]);
        lemma_rmul_zero(m[0][j]);
        lemma_rmul_zero(m[1][j]);
        lemma_rmul_zero(m[2][j]);
        lemma_rmul_zero(m[3][j]);
        lemma_chain5(
            rmul(mid4()[i][0], m[0][j]),
            rmul(mid4()[i][1], m[1][j]),
            rmul(mid4()[i][2], m[2][j]),
            rmul(mid4()[i][3], m[3][j]),
            m[i][j],
            i,
        );
    }
    assert forall|i: int, j: int|
        0 <= i < 4 && 0 <= j < 4 implies req(#[trigger] mul_entry(m, mid4(), i, j), m[i][j]) by {
        lemma_dot4_unfold(m, mid4(), i, j);
        lemma_rmul_one(m[i][j]);
        lemma_rmul_zero_right(m[i][0]);
        lemma_rmul_zero_right(m[i][1]);
        lemma_rmul_zero_right(m[i][2]);
        lemma_rmul_zero_right(m[i][3]);
        lemma_chain5(
            rmul(m[i][0], mid4()[0][j]),
            rmul(m[i][1], mid4()[1][j]),
            rmul(m[i][2], mid4()[2][j]),
            rmul(m[i][3], mid4()[3][j]),
            m[i][j],
            j,
        );
    }
}

/// A built 4 by 4 view that agrees entrywise with its intended shape is it.
proof fn finish_builder(a: Seq<Seq<Ratio>>, b: Seq<Seq<Ratio>>)
    requires
        mdims(a, 4, 4),
        b.len() == 4,
        forall|i: int| 0 <= i < 4 ==> (#[trigger] b[i]).len() == 4,
        forall|i: int, j: int| 0 <= i < 4 && 0 <= j < 4 ==> #[trigger] a[i][j] == b[i][j],
    ensures
        a == b,
{
    assert forall|i: int| 0 <= i < 4 implies a[i] =~= b[i] by {}
    assert(a =~~= b);
}

} // verus!
