use vstd::prelude::*;

verus! {

use crate::rational::Ratio;
use crate::rational::rmulr;
use crate::rational::rfix;
use crate::rational::rcanon;
use crate::rational::in_caps;
use crate::rational::radd;
use crate::rational::rzero;
use crate::rational::rpow;
use crate::tuple::lemma_rfix_props;
use crate::tuple::Tuple;
use crate::tuple::TupleV;
use crate::tuple::tsub_p;
use crate::tuple::tnorm_p;
use crate::tuple::treflect_p;
use crate::tuple::tneg;
use crate::tuple::tdot_c;
use crate::color::Color;
use crate::color::ColorV;
use crate::material::Material;
use crate::material::MaterialV;
use crate::TraceError;

/// Mathematical value of a point light.
pub struct LightV {
    pub position: TupleV,
    pub intensity: ColorV,
}

/// A single point light: a position and a color intensity.
#[derive(Clone, Copy, Debug)]
pub struct PointLight {
    pub position: Tuple,
    pub intensity: Color,
}

impl View for PointLight {
    type V = LightV;

    open spec fn view(&self) -> LightV {
        LightV { position: self.position@, intensity: self.intensity@ }
    }
}

impl PointLight {
    pub fn new(position: Tuple, intensity: Color) -> (r: PointLight)
        ensures
            r@ == (LightV { position: position@, intensity: intensity@ }),
    {
        PointLight { position, intensity }
    }
}

/// Each channel coarsened to the precision grid.
pub open spec fn cfix(c: ColorV) -> ColorV {
    ColorV { red: rfix(c.red), green: rfix(c.green), blue: rfix(c.blue) }
}

/// Channelwise product truncated to the precision grid.
pub open spec fn cmul_r(a: ColorV, b: ColorV) -> ColorV {
    ColorV {
        red: rmulr(a.red, b.red),
        green: rmulr(a.green, b.green),
        blue: rmulr(a.blue, b.blue),
    }
}

/// Scaling of every channel, truncated to the precision grid.
pub open spec fn cscale_r(a: ColorV, k: Ratio) -> ColorV {
    ColorV { red: rmulr(a.red, k), green: rmulr(a.green, k), blue: rmulr(a.blue, k) }
}

/// The representative of a channelwise color sum.
pub open spec fn cadd_p(a: ColorV, b: ColorV) -> ColorV {
    ColorV {
        red: rcanon(radd(a.red, b.red)),
        green: rcanon(radd(a.green, b.green)),
        blue: rcanon(radd(a.blue, b.blue)),
    }
}

pub open spec fn cblack() -> ColorV {
    ColorV { red: rzero(), green: rzero(), blue: rzero() }
}

/// Each channel's coarsening stays representable.
pub open spec fn cfix_defined(c: ColorV) -> bool {
    in_caps(rfix(c.red)) && in_caps(rfix(c.green)) && in_caps(rfix(c.blue))
}

/// Each channel's truncated product stays representable.
pub open spec fn cmul_r_defined(a: ColorV, b: ColorV) -> bool {
    in_caps(rmulr(a.red, b.red)) && in_caps(rmulr(a.green, b.green)) && in_caps(
        rmulr(a.blue, b.blue),
    )
}

/// Each channel's truncated scaling stays representable.
pub open spec fn cscale_r_defined(a: ColorV, k: Ratio) -> bool {
    in_caps(rmulr(a.red, k)) && in_caps(rmulr(a.green, k)) && in_caps(rmulr(a.blue, k))
}

/// Each channel of a color sum stays representable.
pub open spec fn cadd_defined(a: ColorV, b: ColorV) -> bool {
    in_caps(rcanon(radd(a.red, b.red))) && in_caps(rcanon(radd(a.green, b.green))) && in_caps(
        rcanon(radd(a.blue, b.blue)),
    )
}

/// Every step of the executable shading computation stays representable.
/// The branching follows the shading value itself.
pub open spec fn lighting_defined(
    m: MaterialV,
    l: LightV,
    pos: TupleV,
    eye: TupleV,
    normal: TupleV,
) -> bool {
    let effc = cmul_r(cfix(m.color), l.intensity);
    let lv = tnorm_p(tsub_p(l.position, pos));
    let amb = cscale_r(effc, m.ambient);
    let ldn = tdot_c(lv, normal);
    &&& cfix_defined(m.color)
    &&& cmul_r_defined(cfix(m.color), l.intensity)
    &&& in_caps(rcanon(crate::rational::rsub(l.position.x, pos.x)))
    &&& in_caps(rcanon(crate::rational::rsub(l.position.y, pos.y)))
    &&& in_caps(rcanon(crate::rational::rsub(l.position.z, pos.z)))
    &&& crate::tuple::tnorm_defined(tsub_p(l.position, pos))
    &&& cscale_r_defined(effc, m.ambient)
    &&& crate::tuple::tdot_defined(lv, normal)
    &&& (ldn.n < 0 ==> cadd_defined(amb, cblack()) && cadd_defined(
        cadd_p(amb, cblack()),
        cblack(),
    ))
    &&& (ldn.n >= 0 ==> ({
        let dif = cscale_r(cscale_r(effc, m.diffuse), ldn);
        let rv = treflect_p(tneg(lv), normal);
        let rde = tdot_c(rv, eye);
        &&& cscale_r_defined(effc, m.diffuse)
        &&& cscale_r_defined(cscale_r(effc, m.diffuse), ldn)
        &&& crate::tuple::treflect_defined(tneg(lv), normal)
        &&& crate::tuple::tdot_defined(rv, eye)
        &&& (rde.n <= 0 ==> cadd_defined(amb, dif) && cadd_defined(
            cadd_p(amb, dif),
            cblack(),
        ))
        &&& (rde.n > 0 ==> ({
            let fac = rpow(rfix(rde), m.shininess as nat);
            let spe = cscale_r(cscale_r(cfix(l.intensity), m.specular), fac);
            &&& in_caps(rfix(rde))
            &&& crate::rational::rle(rfix(rde), crate::rational::rone())
            &&& cfix_defined(l.intensity)
            &&& cscale_r_defined(cfix(l.intensity), m.specular)
            &&& cscale_r_defined(cscale_r(cfix(l.intensity), m.specular), fac)
            &&& cadd_defined(amb, dif)
            &&& cadd_defined(cadd_p(amb, dif), spe)
        }))
    }))
}

/// The Phong shading value.  The effective color is the material color
/// times the light intensity; ambient light always contributes; diffuse
/// and specular light contribute only when the light faces the surface,
/// and specular light only when the reflected ray faces the eye.  Products
/// are truncated to the precision grid as the executable evaluation
/// truncates them.
pub open spec fn lighting_s(
    m: MaterialV,
    l: LightV,
    pos: TupleV,
    eye: TupleV,
    normal: TupleV,
) -> ColorV {
    let effc = cmul_r(cfix(m.color), l.intensity);
    let lv = tnorm_p(tsub_p(l.position, pos));
    let amb = cscale_r(effc, m.ambient);
    let ldn = tdot_c(lv, normal);
    if ldn.n < 0 {
        cadd_p(cadd_p(amb, cblack()), cblack())
    } else {
        let dif = cscale_r(cscale_r(effc, m.diffuse), ldn);
        let rv = treflect_p(tneg(lv), normal);
        let rde = tdot_c(rv, eye);
        if rde.n <= 0 {
            cadd_p(cadd_p(amb, dif), cblack())
        } else {
            let fac = rpow(rfix(rde), m.shininess as nat);
            let spe = cscale_r(cscale_r(cfix(l.intensity), m.specular), fac);
            cadd_p(cadd_p(amb, dif), spe)
        }
    }
}

/// Phong shading of one surface point under one point light.  Fails only
/// when a value leaves the representable range or the light sits on the
/// surface point itself.
pub fn lighting(
    material: &Material,
    light: &PointLight,
    point: &Tuple,
    eye_vector: &Tuple,
    normal_vector: &Tuple,
) -> (r: Result<Color, TraceError>)
    requires
        light.position@.w == 1,
        point@.w == 1,
        eye_vector@.w == 0,
        normal_vector@.w == 0,
    ensures
        r matches Ok(c) ==> c@ == lighting_s(
            material@,
            light@,
            point@,
            eye_vector@,
            normal_vector@,
        ),
        lighting_defined(material@, light@, point@, eye_vector@, normal_vector@) ==> r is Ok,
{
    let mcc = match material.color.coarsen() {
        Some(v) => v,
        None => {
            return Err(TraceError::Overflow);
        },
    };
    proof {
        use_type_invariant(material.color.red);
        use_type_invariant(material.color.green);
        use_type_invariant(material.color.blue);
        lemma_rfix_props(material.color@.red);
        lemma_rfix_props(material.color@.green);
        lemma_rfix_props(material.color@.blue);
    }
    let effc = match mcc.mul_round(&light.intensity) {
        Some(v) => v,
        None => {
            return Err(TraceError::Overflow);
        },
    };
    let lvec = match light.position.sub(point) {
        Some(v) => v,
        None => {
            return Err(TraceError::Overflow);
        },
    };
    let lv = match lvec.norm() {
        Some(v) => v,
        None => {
            return Err(TraceError::Overflow);
        },
    };
    let amb = match effc.mul_rat_round(&material.ambient) {
        Some(v) => v,
        None => {
            return Err(TraceError::Overflow);
        },
    };
    let black = Color::black();
    let ldn = match lv.dot(normal_vector) {
        Some(v) => v,
        None => {
            return Err(TraceError::Overflow);
        },
    };
    if !ldn.is_nonneg() {
        let s1 = match amb.add(&black) {
            Some(v) => v,
            None => {
                return Err(TraceError::Overflow);
            },
        };
        let out = match s1.add(&black) {
            Some(v) => v,
            None => {
                return Err(TraceError::Overflow);
            },
        };
        Ok(out)
    } else {
        let dif0 = match effc.mul_rat_round(&material.diffuse) {
            Some(v) => v,
            None => {
                return Err(TraceError::Overflow);
            },
        };
        let dif = match dif0.mul_rat_round(&ldn) {
            Some(v) => v,
            None => {
                return Err(TraceError::Overflow);
            },
        };
        let neg_lv = lv.neg();
        let rv = match neg_lv.reflect(normal_vector) {
            Some(v) => v,
            None => {
                return Err(TraceError::Overflow);
            },
        };
        let rde = match rv.dot(eye_vector) {
            Some(v) => v,
            None => {
                return Err(TraceError::Overflow);
            },
        };
        if !rde.is_nonneg() || rde.is_zero() {
            let s1 = match amb.add(&dif) {
                Some(v) => v,
                None => {
                    return Err(TraceError::Overflow);
                },
            };
            let out = match s1.add(&black) {
                Some(v) => v,
                None => {
                    return Err(TraceError::Overflow);
                },
            };
            Ok(out)
        } else {
            let rdec = match rde.coarsen() {
                Some(v) => v,
                None => {
                    return Err(TraceError::Overflow);
                },
            };
            proof {
                use_type_invariant(rde);
                lemma_rfix_props(rde@);
            }
            let fac = match rdec.pow(material.shininess) {
                Some(v) => v,
                None => {
                    return Err(TraceError::Overflow);
                },
            };
            let ic = match light.intensity.coarsen() {
                Some(v) => v,
                None => {
                    return Err(TraceError::Overflow);
                },
            };
            proof {
                use_type_invariant(light.intensity.red);
                use_type_invariant(light.intensity.green);
                use_type_invariant(light.intensity.blue);
                lemma_rfix_props(light.intensity@.red);
                lemma_rfix_props(light.intensity@.green);
                lemma_rfix_props(light.intensity@.blue);
            }
            let spe0 = match ic.mul_rat_round(&material.specular) {
                Some(v) => v,
                None => {
                    return Err(TraceError::Overflow);
                },
            };
            let spe = match spe0.mul_rat_round(&fac) {
                Some(v) => v,
                None => {
                    return Err(TraceError::Overflow);
                },
            };
            let s1 = match amb.add(&dif) {
                Some(v) => v,
                None => {
                    return Err(TraceError::Overflow);
                },
            };
            let out = match s1.add(&spe) {
                Some(v) => v,
                None => {
                    return Err(TraceError::Overflow);
                },
            };
            Ok(out)
        }
    }
}

} // verus!
