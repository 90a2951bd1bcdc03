use vstd::prelude::*;

verus! {

use crate::rational::Rat;
use crate::tuple::Tuple;
use crate::color::Color;
use crate::canvas::Canvas;
use crate::TraceError;

/// The constant influences a projectile flies under.
struct Environment {
    gravity: Tuple,
    wind: Tuple,
}

/// A projectile's state: where it is and how fast it moves.
struct Projectile {
    position: Tuple,
    velocity: Tuple,
}

/// One time step: the position advances by the velocity, the velocity by
/// gravity and wind.
fn tick(environment: &Environment, projectile: &Projectile) -> (r: Option<Projectile>)
    requires
        projectile.position@.w + projectile.velocity@.w <= u8::MAX,
        projectile.velocity@.w + environment.gravity@.w <= u8::MAX,
        environment.gravity@.w == 0,
        environment.wind@.w == 0,
    ensures
        r matches Some(p) ==> p.position@.w == projectile.position@.w + projectile.velocity@.w
            && p.velocity@.w == projectile.velocity@.w,
{
    let position = match projectile.position.add(&projectile.velocity) {
        Some(v) => v,
        None => {
            return None;
        },
    };
    let v1 = match projectile.velocity.add(&environment.gravity) {
        Some(v) => v,
        None => {
            return None;
        },
    };
    let velocity = match v1.add(&environment.wind) {
        Some(v) => v,
        None => {
            return None;
        },
    };
    Some(Projectile { position, velocity })
}

/// Flies a projectile under gravity and wind until it falls back to the
/// ground, painting its path on a canvas of nine hundred by five hundred
/// and fifty pixels.  The flight is cut off after ten thousand steps.
pub fn projectile() -> (r: Result<Canvas, TraceError>)
    ensures
        r matches Ok(c) ==> c.width_spec() == 900 && c.height_spec() == 550,
{
    let e = Environment {
        gravity: Tuple::vector(Rat::zero(), Rat::new(-1, 10), Rat::zero()),
        wind: Tuple::vector(Rat::new(-2, 100), Rat::zero(), Rat::zero()),
    };
    let start_velocity = Tuple::vector(Rat::one(), Rat::new(18, 10), Rat::zero());
    let vnorm = match start_velocity.norm() {
        Some(v) => v,
        None => {
            return Err(TraceError::Overflow);
        },
    };
    let velocity = match vnorm.mul(&Rat::new(1125, 100)) {
        Some(v) => v,
        None => {
            return Err(TraceError::Overflow);
        },
    };
    let mut p = Projectile {
        position: Tuple::vector(Rat::zero(), Rat::one(), Rat::zero()),
        velocity,
    };
    let mut c = Canvas::new(900, 550);
    let color = Color::new(Rat::one(), Rat::one(), Rat::one());
    let mut fuel: usize = 10_000;
    while fuel > 0 && p.position.y.is_nonneg()
        invariant
            c.width_spec() == 900,
            c.height_spec() == 550,
            p.position@.w == 0,
            p.velocity@.w == 0,
            e.gravity@.w == 0,
            e.wind@.w == 0,
        decreases fuel,
    {
        if p.position.y.is_zero() {
            break ;
        }
        let p2 = match tick(&e, &p) {
            Some(v) => v,
            None => {
                return Err(TraceError::Overflow);
            },
        };
        p = p2;
        let px = p.position.x.round_int();
        let py = p.position.y.round_int();
        if 0 <= px && px < 900 && 0 < py && py <= 550 {
            let ux = px as usize;
            let uy = 550 - (py as usize);
            if ux < 900 && uy < 550 {
                c.write_pixel(ux, uy, &color);
            }
        }
        fuel = fuel - 1;
    }
    Ok(c)
}

} // verus!
