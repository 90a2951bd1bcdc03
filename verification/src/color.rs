use vstd::prelude::*;

verus! {

use crate::rational::Rat;
use crate::rational::Ratio;
use crate::rational::radd;
use crate::rational::rsub;
use crate::rational::rmul;
use crate::rational::rmulr;
use crate::rational::rcanon;
use crate::rational::rzero;
use crate::rational::rapprox;
use crate::rational::req;
use crate::rational::in_caps;
use crate::rational::rwf;
use crate::rational::PREC;
use crate::rational::lemma_rcanon;
use crate::rational::lemma_pos_mul;

/// Mathematical value of a color: three channel intensities.
pub struct ColorV {
    pub red: Ratio,
    pub green: Ratio,
    pub blue: Ratio,
}

pub open spec fn cwf(c: ColorV) -> bool {
    rwf(c.red) && rwf(c.green) && rwf(c.blue)
}

/// Channelwise approximate equality.
pub open spec fn capprox(a: ColorV, b: ColorV) -> bool {
    rapprox(a.red, b.red) && rapprox(a.green, b.green) && rapprox(a.blue, b.blue)
}

/// An RGB color with unbounded, exact channel values.
#[derive(Clone, Copy, Debug)]
pub struct Color {
    pub red: Rat,
    pub green: Rat,
    pub blue: Rat,
}

impl View for Color {
    type V = ColorV;

    open spec fn view(&self) -> ColorV {
        ColorV { red: self.red@, green: self.green@, blue: self.blue@ }
    }
}

impl Color {
    pub fn new(red: Rat, green: Rat, blue: Rat) -> (r: Color)
        ensures
            r@ == (ColorV { red: red@, green: green@, blue: blue@ }),
    {
        Color { red, green, blue }
    }

    pub fn black() -> (r: Color)
        ensures
            r@.red == rzero() && r@.green == rzero() && r@.blue == rzero(),
    {
        Color { red: Rat::zero(), green: Rat::zero(), blue: Rat::zero() }
    }

    /// Channelwise sum.
    pub fn add(&self, other: &Color) -> (r: Option<Color>)
        ensures
            r matches Some(v) ==> {
                &&& v@.red == rcanon(radd(self@.red, other@.red))
                &&& v@.green == rcanon(radd(self@.green, other@.green))
                &&& v@.blue == rcanon(radd(self@.blue, other@.blue))
                &&& req(v@.red, radd(self@.red, other@.red))
                &&& req(v@.green, radd(self@.green, other@.green))
                &&& req(v@.blue, radd(self@.blue, other@.blue))
            },
            r is Some <==> in_caps(rcanon(radd(self@.red, other@.red))) && in_caps(
                rcanon(radd(self@.green, other@.green)),
            ) && in_caps(rcanon(radd(self@.blue, other@.blue))),
    {
        let _ = color_wf_facts(self, other);
        proof {
            lemma_rcanon(radd(self@.red, other@.red));
            lemma_rcanon(radd(self@.green, other@.green));
            lemma_rcanon(radd(self@.blue, other@.blue));
        }
        let red = match self.red.add(&other.red) {
            Some(v) => v,
            None => {
                return None;
            },
        };
        let green = match self.green.add(&other.green) {
            Some(v) => v,
            None => {
                return None;
            },
        };
        let blue = match self.blue.add(&other.blue) {
            Some(v) => v,
            None => {
                return None;
            },
        };
        Some(Color { red, green, blue })
    }

    /// Channelwise difference.
    pub fn sub(&self, other: &Color) -> (r: Option<Color>)
        ensures
            r matches Some(v) ==> {
                &&& req(v@.red, rsub(self@.red, other@.red))
                &&& req(v@.green, rsub(self@.green, other@.green))
                &&& req(v@.blue, rsub(self@.blue, other@.blue))
            },
            r is Some <==> in_caps(rcanon(rsub(self@.red, other@.red))) && in_caps(
                rcanon(rsub(self@.green, other@.green)),
            ) && in_caps(rcanon(rsub(self@.blue, other@.blue))),
    {
        let _ = color_wf_facts(self, other);
        proof {
            lemma_rcanon(rsub(self@.red, other@.red));
            lemma_rcanon(rsub(self@.green, other@.green));
            lemma_rcanon(rsub(self@.blue, other@.blue));
        }
        let red = match self.red.sub(&other.red) {
            Some(v) => v,
            None => {
                return None;
            },
        };
        let green = match self.green.sub(&other.green) {
            Some(v) => v,
            None => {
                return None;
            },
        };
        let blue = match self.blue.sub(&other.blue) {
            Some(v) => v,
            None => {
                return None;
            },
        };
        Some(Color { red, green, blue })
    }

    /// Channelwise (Hadamard) product.
    pub fn mul(&self, other: &Color) -> (r: Option<Color>)
        ensures
            r matches Some(v) ==> {
                &&& req(v@.red, rmul(self@.red, other@.red))
                &&& req(v@.green, rmul(self@.green, other@.green))
                &&& req(v@.blue, rmul(self@.blue, other@.blue))
            },
            r is Some <==> in_caps(rcanon(rmul(self@.red, other@.red))) && in_caps(
                rcanon(rmul(self@.green, other@.green)),
            ) && in_caps(rcanon(rmul(self@.blue, other@.blue))),
    {
        let _ = color_wf_facts(self, other);
        proof {
            lemma_rcanon(rmul(self@.red, other@.red));
            lemma_rcanon(rmul(self@.green, other@.green));
            lemma_rcanon(rmul(self@.blue, other@.blue));
        }
        let red = match self.red.mul(&other.red) {
            Some(v) => v,
            None => {
                return None;
            },
        };
        let green = match self.green.mul(&other.green) {
            Some(v) => v,
            None => {
                return None;
            },
        };
        let blue = match self.blue.mul(&other.blue) {
            Some(v) => v,
            None => {
                return None;
            },
        };
        Some(Color { red, green, blue })
    }

    /// Scaling of every channel by one scalar.
    pub fn mul_rat(&self, k: &Rat) -> (r: Option<Color>)
        ensures
            r matches Some(v) ==> {
                &&& req(v@.red, rmul(self@.red, k@))
                &&& req(v@.green, rmul(self@.green, k@))
                &&& req(v@.blue, rmul(self@.blue, k@))
            },
            r is Some <==> in_caps(rcanon(rmul(self@.red, k@))) && in_caps(
                rcanon(rmul(self@.green, k@)),
            ) && in_caps(rcanon(rmul(self@.blue, k@))),
    {
        let _ = color_wf_facts(self, self);
        proof {
            use_type_invariant(*k);
            lemma_pos_mul(self@.red.d, k@.d);
            lemma_pos_mul(self@.green.d, k@.d);
            lemma_pos_mul(self@.blue.d, k@.d);
            lemma_rcanon(rmul(self@.red, k@));
            lemma_rcanon(rmul(self@.green, k@));
            lemma_rcanon(rmul(self@.blue, k@));
        }
        let red = match self.red.mul(k) {
            Some(v) => v,
            None => {
                return None;
            },
        };
        let green = match self.green.mul(k) {
            Some(v) => v,
            None => {
                return None;
            },
        };
        let blue = match self.blue.mul(k) {
            Some(v) => v,
            None => {
                return None;
            },
        };
        Some(Color { red, green, blue })
    }

    /// Channelwise product truncated to the precision grid.
    pub fn mul_round(&self, other: &Color) -> (r: Option<Color>)
        requires
            self@.red.d <= PREC as int,
            self@.green.d <= PREC as int,
            self@.blue.d <= PREC as int,
        ensures
            r matches Some(v) ==> {
                &&& v@.red == rmulr(self@.red, other@.red)
                &&& v@.green == rmulr(self@.green, other@.green)
                &&& v@.blue == rmulr(self@.blue, other@.blue)
            },
            r is Some <==> in_caps(rmulr(self@.red, other@.red)) && in_caps(
                rmulr(self@.green, other@.green),
            ) && in_caps(rmulr(self@.blue, other@.blue)),
    {
        let _ = color_wf_facts(self, other);
        proof {
            round_den_fact(self@.red, other@.red);
            round_den_fact(self@.green, other@.green);
            round_den_fact(self@.blue, other@.blue);
        }
        let red = match self.red.mul_round(&other.red) {
            Some(v) => v,
            None => {
                return None;
            },
        };
        let green = match self.green.mul_round(&other.green) {
            Some(v) => v,
            None => {
                return None;
            },
        };
        let blue = match self.blue.mul_round(&other.blue) {
            Some(v) => v,
            None => {
                return None;
            },
        };
        Some(Color { red, green, blue })
    }

    /// Scaling of every channel by one scalar, truncated to the precision
    /// grid.
    pub fn mul_rat_round(&self, k: &Rat) -> (r: Option<Color>)
        requires
            self@.red.d <= PREC as int,
            self@.green.d <= PREC as int,
            self@.blue.d <= PREC as int,
        ensures
            r matches Some(v) ==> {
                &&& v@.red == rmulr(self@.red, k@)
                &&& v@.green == rmulr(self@.green, k@)
                &&& v@.blue == rmulr(self@.blue, k@)
            },
            r is Some <==> in_caps(rmulr(self@.red, k@)) && in_caps(rmulr(self@.green, k@))
                && in_caps(rmulr(self@.blue, k@)),
    {
        let _ = color_wf_facts(self, self);
        proof {
            use_type_invariant(*k);
            round_den_fact(self@.red, k@);
            round_den_fact(self@.green, k@);
            round_den_fact(self@.blue, k@);
        }
        let red = match self.red.mul_round(k) {
            Some(v) => v,
            None => {
                return None;
            },
        };
        let green = match self.green.mul_round(k) {
            Some(v) => v,
            None => {
                return None;
            },
        };
        let blue = match self.blue.mul_round(k) {
            Some(v) => v,
            None => {
                return None;
            },
        };
        Some(Color { red, green, blue })
    }

    /// Each channel reduced to the precision grid.
    pub fn coarsen(&self) -> (r: Option<Color>)
        ensures
            r matches Some(v) ==> {
                &&& v@.red == crate::rational::rfix(self@.red)
                &&& v@.green == crate::rational::rfix(self@.green)
                &&& v@.blue == crate::rational::rfix(self@.blue)
            },
            r is Some <==> in_caps(crate::rational::rfix(self@.red)) && in_caps(
                crate::rational::rfix(self@.green),
            ) && in_caps(crate::rational::rfix(self@.blue)),
    {
        let red = match self.red.coarsen() {
            Some(v) => v,
            None => {
                return None;
            },
        };
        let green = match self.green.coarsen() {
            Some(v) => v,
            None => {
                return None;
            },
        };
        let blue = match self.blue.coarsen() {
            Some(v) => v,
            None => {
                return None;
            },
        };
        Some(Color { red, green, blue })
    }
}

fn color_wf_facts(a: &Color, b: &Color) -> (r: bool)
    ensures
        r,
        cwf(a@),
        cwf(b@),
        in_caps(a@.red) && in_caps(a@.green) && in_caps(a@.blue),
        in_caps(b@.red) && in_caps(b@.green) && in_caps(b@.blue),
        rwf(radd(a@.red, b@.red)) && rwf(radd(a@.green, b@.green)) && rwf(radd(a@.blue, b@.blue)),
        rwf(rsub(a@.red, b@.red)) && rwf(rsub(a@.green, b@.green)) && rwf(rsub(a@.blue, b@.blue)),
        rwf(rmul(a@.red, b@.red)) && rwf(rmul(a@.green, b@.green)) && rwf(rmul(a@.blue, b@.blue)),
{
    proof {
        use_type_invariant(a.red);
        use_type_invariant(a.green);
        use_type_invariant(a.blue);
        use_type_invariant(b.red);
        use_type_invariant(b.green);
        use_type_invariant(b.blue);
        lemma_pos_mul(a@.red.d, b@.red.d);
        lemma_pos_mul(a@.green.d, b@.green.d);
        lemma_pos_mul(a@.blue.d, b@.blue.d);
    }
    true
}

proof fn round_den_fact(a: Ratio, b: Ratio)
    by (nonlinear_arith)
    requires
        1 <= a.d <= PREC as int,
        1 <= b.d <= crate::rational::DEN_CAP as int,
    ensures
        a.d * b.d <= 100_000_000_000_000_000_000_000_000_000,
{
}

impl PartialEq for Color {
    /// Channels equal within the shared tolerance.
    fn eq(&self, other: &Self) -> (r: bool) {
        self.red.approx_eq(&other.red) && self.green.approx_eq(&other.green)
            && self.blue.approx_eq(&other.blue)
    }
}

impl vstd::std_specs::cmp::PartialEqSpecImpl for Color {
    open spec fn obeys_eq_spec() -> bool {
        true
    }

    open spec fn eq_spec(&self, other: &Color) -> bool {
        capprox(self@, other@)
    }
}

} // verus!
