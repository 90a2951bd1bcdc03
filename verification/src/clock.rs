use vstd::prelude::*;

verus! {

use crate::rational::Rat;
use crate::tuple::Tuple;
use crate::color::Color;
use crate::canvas::Canvas;
use crate::transformations::rotation_z;
use crate::TraceError;

/// Paints the twelve hour marks of a clock face on a canvas of one hundred
/// by one hundred pixels, rotating one mark around the face's center step
/// by step.
pub fn clock() -> (r: Result<Canvas, TraceError>)
    ensures
        r matches Ok(c) ==> c.width_spec() == 100 && c.height_spec() == 100,
{
    let mut p = Tuple::point(Rat::from_int(30), Rat::zero(), Rat::zero());
    let mut c = Canvas::new(100, 100);
    let q = Tuple::point(Rat::from_int(50), Rat::from_int(50), Rat::zero());
    // one hour is a twelfth of a turn; its cosine and sine to seven digits
    let rotation_one_hour = rotation_z(Rat::new(8_660_254, 10_000_000), Rat::new(1, 2));
    let mut i: usize = 0;
    while i < 12
        invariant
            0 <= i <= 12,
            c.width_spec() == 100,
            c.height_spec() == 100,
            q@.w == 1,
            crate::matrix::msquare(rotation_one_hour@),
            rotation_one_hour@.len() == 4,
        decreases 12 - i,
    {
        proof {
            use_type_invariant(p.x);
            use_type_invariant(p.y);
            use_type_invariant(p.z);
        }
        if p.w <= 254 {
            let z = match p.add(&q) {
                Some(v) => v,
                None => {
                    return Err(TraceError::Overflow);
                },
            };
            let denom = (i + 1) as i64;
            let color = Color::new(
                Rat::new(i as i64, denom),
                Rat::new(i as i64, denom),
                Rat::new(1, denom),
            );
            let px = z.x.trunc();
            let py = z.y.trunc();
            if 0 <= px && px < 100 && 0 < py && py <= 100 {
                let ux = px as usize;
                let uy = 100 - (py as usize);
                if uy < 100 {
                    c.write_pixel(ux, uy, &color);
                }
            }
        }
        let p2 = match rotation_one_hour.mul_tuple(&p) {
            Ok(v) => v,
            Err(e) => {
                return Err(e);
            },
        };
        let cx = match p2.x.coarsen() {
            Some(v) => v,
            None => {
                return Err(TraceError::Overflow);
            },
        };
        let cy = match p2.y.coarsen() {
            Some(v) => v,
            None => {
                return Err(TraceError::Overflow);
            },
        };
        let cz = match p2.z.coarsen() {
            Some(v) => v,
            None => {
                return Err(TraceError::Overflow);
            },
        };
        p = Tuple::new(cx, cy, cz, p2.w);
        i = i + 1;
    }
    Ok(c)
}

} // verus!
