use vstd::prelude::*;

verus! {

use crate::rational::Rat;
use crate::tuple::Tuple;
use crate::color::Color;
use crate::material::Material;
use crate::lights::PointLight;
use crate::lights::lighting;
use crate::sphere::Sphere;
use crate::ray::Ray;
use crate::ray::Intersect;
use crate::canvas::Canvas;
use crate::TraceError;

/// Casts one ray per pixel at the unit sphere and paints every pixel whose
/// ray hits it red, on a canvas of one hundred by one hundred pixels.
pub fn render_sphere() -> (r: Result<Canvas, TraceError>)
    ensures
        r matches Ok(c) ==> c.width_spec() == 100 && c.height_spec() == 100,
{
    let ray_origin = Tuple::point(Rat::zero(), Rat::zero(), Rat::from_int(-5));
    let wall_z = Rat::from_int(10);
    let canvas_size: usize = 100;
    let mut c = Canvas::new(canvas_size, canvas_size);
    // the wall is seven units wide, one pixel is wall size over canvas size
    let pixel_size = Rat::new(7, 100);
    let half = Rat::new(7, 2);
    let color = Color::new(Rat::one(), Rat::zero(), Rat::zero());
    let shape = Sphere::unit();
    let mut y: usize = 0;
    while y < canvas_size
        invariant
            0 <= y <= canvas_size,
            canvas_size == 100,
            c.width_spec() == 100,
            c.height_spec() == 100,
            ray_origin@.w == 1,
        decreases canvas_size - y,
    {
        let yr = match pixel_size.mul(&Rat::from_int(y as i64)) {
            Some(v) => v,
            None => {
                return Err(TraceError::Overflow);
            },
        };
        let world_y = match half.sub(&yr) {
            Some(v) => v,
            None => {
                return Err(TraceError::Overflow);
            },
        };
        let mut x: usize = 0;
        while x < canvas_size
            invariant
                0 <= x <= canvas_size,
                y < canvas_size,
                canvas_size == 100,
                c.width_spec() == 100,
                c.height_spec() == 100,
                ray_origin@.w == 1,
            decreases canvas_size - x,
        {
            let xr = match pixel_size.mul(&Rat::from_int(x as i64)) {
                Some(v) => v,
                None => {
                    return Err(TraceError::Overflow);
                },
            };
            let world_x = match half.neg().add(&xr) {
                Some(v) => v,
                None => {
                    return Err(TraceError::Overflow);
                },
            };
            let position = Tuple::point(world_x, world_y, wall_z);
            let towards = match position.sub(&ray_origin) {
                Some(v) => v,
                None => {
                    return Err(TraceError::Overflow);
                },
            };
            let direction = match towards.norm() {
                Some(v) => v,
                None => {
                    return Err(TraceError::Overflow);
                },
            };
            let ray = match Ray::new(ray_origin, direction) {
                Ok(v) => v,
                Err(e) => {
                    return Err(e);
                },
            };
            let ix = match ray.intersect(&shape) {
                Ok(v) => v,
                Err(e) => {
                    return Err(e);
                },
            };
            match ix.get_hit() {
                None => {},
                Some(_) => {
                    c.write_pixel(x, y, &color);
                },
            }
            x = x + 1;
        }
        y = y + 1;
    }
    Ok(c)
}

/// Casts one ray per pixel at a red unit sphere and shades every hit with
/// the Phong model under one white point light, on a canvas of five
/// hundred by five hundred pixels.
pub fn render_sphere_with_shading() -> (r: Result<Canvas, TraceError>)
    ensures
        r matches Ok(c) ==> c.width_spec() == 500 && c.height_spec() == 500,
{
    let ray_origin = Tuple::point(Rat::zero(), Rat::zero(), Rat::from_int(-5));
    let wall_z = Rat::from_int(10);
    let canvas_size: usize = 500;
    let mut c = Canvas::new(canvas_size, canvas_size);
    let pixel_size = Rat::new(7, 500);
    let half = Rat::new(7, 2);
    let mut shape = Sphere::unit();
    let mut material = Material::default();
    material.color = Color::new(Rat::one(), Rat::zero(), Rat::zero());
    shape.set_material(material);
    let light_position = Tuple::point(Rat::from_int(-10), Rat::from_int(10), Rat::from_int(-10));
    let light_color = Color::new(Rat::one(), Rat::one(), Rat::one());
    let light = PointLight::new(light_position, light_color);
    let mut y: usize = 0;
    while y < canvas_size
        invariant
            0 <= y <= canvas_size,
            canvas_size == 500,
            c.width_spec() == 500,
            c.height_spec() == 500,
            ray_origin@.w == 1,
            light.position@.w == 1,
        decreases canvas_size - y,
    {
        let yr = match pixel_size.mul(&Rat::from_int(y as i64)) {
            Some(v) => v,
            None => {
                return Err(TraceError::Overflow);
            },
        };
        let world_y = match half.sub(&yr) {
            Some(v) => v,
            None => {
                return Err(TraceError::Overflow);
            },
        };
        let mut x: usize = 0;
        while x < canvas_size
            invariant
                0 <= x <= canvas_size,
                y < canvas_size,
                canvas_size == 500,
                c.width_spec() == 500,
                c.height_spec() == 500,
                ray_origin@.w == 1,
                light.position@.w == 1,
            decreases canvas_size - x,
        {
            let xr = match pixel_size.mul(&Rat::from_int(x as i64)) {
                Some(v) => v,
                None => {
                    return Err(TraceError::Overflow);
                },
            };
            let world_x = match half.neg().add(&xr) {
                Some(v) => v,
                None => {
                    return Err(TraceError::Overflow);
                },
            };
            let position = Tuple::point(world_x, world_y, wall_z);
            let towards = match position.sub(&ray_origin) {
                Some(v) => v,
                None => {
                    return Err(TraceError::Overflow);
                },
            };
            let direction = match towards.norm() {
                Some(v) => v,
                None => {
                    return Err(TraceError::Overflow);
                },
            };
            let ray = match Ray::new(ray_origin, direction) {
                Ok(v) => v,
                Err(e) => {
                    return Err(e);
                },
            };
            let ix = match ray.intersect(&shape) {
                Ok(v) => v,
                Err(e) => {
                    return Err(e);
                },
            };
            match ix.get_hit() {
                None => {},
                Some(hit) => {
                    let point = match ray.position(&hit.time) {
                        Some(v) => v,
                        None => {
                            return Err(TraceError::Overflow);
                        },
                    };
                    let normal = match hit.object.normal_at(&point) {
                        Ok(v) => v,
                        Err(e) => {
                            return Err(e);
                        },
                    };
                    let eye = ray.direction().neg();
                    let mat = match hit.object.get_material() {
                        Some(v) => v,
                        None => {
                            return Err(TraceError::Overflow);
                        },
                    };
                    let shade = match lighting(&mat, &light, &point, &eye, &normal) {
                        Ok(v) => v,
                        Err(e) => {
                            return Err(e);
                        },
                    };
                    c.write_pixel(x, y, &shade);
                },
            }
            x = x + 1;
        }
        y = y + 1;
    }
    Ok(c)
}

} // verus!
