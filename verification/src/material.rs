use vstd::prelude::*;

verus! {

use crate::rational::Rat;
use crate::rational::Ratio;
use crate::rational::rapprox;
use crate::color::Color;
use crate::color::ColorV;
use crate::color::capprox;

/// Mathematical value of a material.
pub struct MaterialV {
    pub color: ColorV,
    pub ambient: Ratio,
    pub diffuse: Ratio,
    pub specular: Ratio,
    pub shininess: int,
}

/// The default appearance: white, ambient one tenth, diffuse and specular
/// nine tenths, shininess two hundred.
pub open spec fn default_material_s() -> MaterialV {
    MaterialV {
        color: ColorV {
            red: Ratio { n: 1, d: 1 },
            green: Ratio { n: 1, d: 1 },
            blue: Ratio { n: 1, d: 1 },
        },
        ambient: Ratio { n: 1, d: 10 },
        diffuse: Ratio { n: 9, d: 10 },
        specular: Ratio { n: 9, d: 10 },
        shininess: 200,
    }
}

/// Surface appearance: a color, the three reflectance coefficients, and
/// the specular exponent.
#[derive(Clone, Copy, Debug)]
pub struct Material {
    pub color: Color,
    pub ambient: Rat,
    pub diffuse: Rat,
    pub specular: Rat,
    pub shininess: u32,
}

impl View for Material {
    type V = MaterialV;

    open spec fn view(&self) -> MaterialV {
        MaterialV {
            color: self.color@,
            ambient: self.ambient@,
            diffuse: self.diffuse@,
            specular: self.specular@,
            shininess: self.shininess as int,
        }
    }
}

impl Material {
    pub fn new(color: Color, ambient: Rat, diffuse: Rat, specular: Rat, shininess: u32) -> (r:
        Material)
        ensures
            r@ == (MaterialV {
                color: color@,
                ambient: ambient@,
                diffuse: diffuse@,
                specular: specular@,
                shininess: shininess as int,
            }),
    {
        Material { color, ambient, diffuse, specular, shininess }
    }

    /// The default appearance: white, ambient one tenth, diffuse and
    /// specular nine tenths, shininess two hundred.
    pub fn default() -> (r: Material)
        ensures
            r@ == default_material_s(),
    {
        Material {
            color: Color::new(Rat::one(), Rat::one(), Rat::one()),
            ambient: Rat::new(1, 10),
            diffuse: Rat::new(9, 10),
            specular: Rat::new(9, 10),
            shininess: 200,
        }
    }
}

impl PartialEq for Material {
    /// Color and coefficients within the shared tolerance, the exponent
    /// exact.
    fn eq(&self, other: &Self) -> (r: bool) {
        self.color == other.color && self.ambient.approx_eq(&other.ambient)
            && self.diffuse.approx_eq(&other.diffuse) && self.specular.approx_eq(&other.specular)
            && self.shininess == other.shininess
    }
}

impl vstd::std_specs::cmp::PartialEqSpecImpl for Material {
    open spec fn obeys_eq_spec() -> bool {
        true
    }

    open spec fn eq_spec(&self, other: &Material) -> bool {
        &&& capprox(self@.color, other@.color)
        &&& rapprox(self@.ambient, other@.ambient)
        &&& rapprox(self@.diffuse, other@.diffuse)
        &&& rapprox(self@.specular, other@.specular)
        &&& self@.shininess == other@.shininess
    }
}

} // verus!
