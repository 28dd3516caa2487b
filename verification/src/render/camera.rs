//! The camera: one world-space ray per raster coordinate.
//!
//! The camera-to-world transform comes from the orthogonal-frame
//! construction; the raster-to-camera mapping is the perspective map from
//! a pixel to the centre of its cell on the image plane, at distance `f`
//! along the view axis. All of it is exact integer arithmetic, so the
//! generated ray's origin and direction are pinned by the contract.

use vstd::prelude::*;
use crate::GeomError;
use crate::math::transform::Transform;
use crate::math::transform::orthogonal_frame;
use crate::math::vec3::Vec3;
use crate::render::film::Film;
use crate::render::ray::Ray;

verus! {

/// Bound on camera frame entries.
pub const CAM_FRAME_BOUND: i64 = 16;

/// Bound on the focal length and the image-plane half extents.
pub const CAM_PLANE_BOUND: i64 = 2048;

/// Bound on the eye coordinates.
pub const CAM_EYE_BOUND: i64 = 0x4000;

/// The camera: an eye, an orthogonal view frame, a focal length, the
/// image-plane half extents, and the film.
#[derive(Debug)]
pub struct Camera {
    /// Focal length: distance from the eye to the image plane.
    pub f: i64,
    /// Eye position.
    pub e: Vec3,
    /// Camera-to-world transform built from the view frame.
    pub camera_to_world: Transform,
    /// Half width of the image plane window.
    pub half_w: i64,
    /// Half height of the image plane window.
    pub half_h: i64,
    /// The film that collects the image.
    pub film: Film,
}

/// The camera-space x coordinate of the centre of pixel column `px`.
pub open spec fn raster_to_cam_x(px: int, res_x: int, half_w: int) -> int {
    ((2 * px + 1) * half_w) / res_x - half_w
}

/// The camera-space y coordinate of the centre of pixel row `py`; rows
/// run downward, so the coordinate runs from the top edge down.
pub open spec fn raster_to_cam_y(py: int, res_y: int, half_h: int) -> int {
    half_h - ((2 * py + 1) * half_h) / res_y
}

impl Camera {
    /// Fitness for ray generation: a sound compact frame and positive
    /// in-range plane parameters.
    pub open spec fn wf(self) -> bool {
        &&& self.camera_to_world.wf()
        &&& self.camera_to_world.col_u().bounded(CAM_FRAME_BOUND as int)
        &&& self.camera_to_world.col_v().bounded(CAM_FRAME_BOUND as int)
        &&& self.camera_to_world.col_w().bounded(CAM_FRAME_BOUND as int)
        &&& 1 <= self.f <= CAM_PLANE_BOUND
        &&& 1 <= self.half_w <= CAM_PLANE_BOUND
        &&& 1 <= self.half_h <= CAM_PLANE_BOUND
        &&& self.e.bounded(CAM_EYE_BOUND as int)
        &&& self.e == self.camera_to_world.origin()
        &&& 1 <= self.film.resolution.0 <= 0x1000
        &&& 1 <= self.film.resolution.1 <= 0x1000
    }

    /// Builds a camera at eye `e` with view frame `(u, v, w)` (gaze along
    /// `-w`), focal length `f` and image plane `[-half_w, half_w] x
    /// [-half_h, half_h]`. Fails with `DegenerateBasis` exactly when the
    /// frame is not orthogonal with a positive common squared norm.
    pub fn new(
        e: Vec3,
        u: Vec3,
        v: Vec3,
        w: Vec3,
        f: i64,
        half_w: i64,
        half_h: i64,
        resolution: (usize, usize),
        filename: String,
    ) -> (r: Result<Camera, GeomError>)
        requires
            u.bounded(CAM_FRAME_BOUND as int),
            v.bounded(CAM_FRAME_BOUND as int),
            w.bounded(CAM_FRAME_BOUND as int),
            e.bounded(CAM_EYE_BOUND as int),
            1 <= f <= CAM_PLANE_BOUND,
            1 <= half_w <= CAM_PLANE_BOUND,
            1 <= half_h <= CAM_PLANE_BOUND,
            1 <= resolution.0 <= 0x1000,
            1 <= resolution.1 <= 0x1000,
        ensures
            r is Err <==> !(exists|d: int| orthogonal_frame(u, v, w, d)),
            r matches Err(err) ==> err == GeomError::DegenerateBasis,
            r matches Ok(c) ==> {
                &&& c.wf()
                &&& c.camera_to_world.col_u() == u
                &&& c.camera_to_world.col_v() == v
                &&& c.camera_to_world.col_w() == w
                &&& c.e == e
                &&& c.f == f
                &&& c.half_w == half_w
                &&& c.half_h == half_h
                &&& c.film.resolution == resolution
            },
    {
        let camera_to_world = match Transform::new(e, u, v, w) {
            Ok(t) => t,
            Err(err) => {
                return Err(err);
            },
        };
        let film = Film::new(resolution, filename);
        Ok(Camera { f, e, camera_to_world, half_w, half_h, film })
    }

    /// The ray through the centre of the given raster pixel: `None`
    /// exactly when the coordinate falls outside the resolution, else the
    /// ray whose origin is the eye and whose direction points from the
    /// eye toward the pixel's point on the image plane, in exact world
    /// coordinates.
    pub fn get_camera_sample(&self, raster: (usize, usize)) -> (r: Option<Ray>)
        requires
            self.wf(),
        ensures
            r is Some <==> raster.0 < self.film.resolution.0 && raster.1 < self.film.resolution.1,
            r matches Some(ray) ==> {
                let xc = raster_to_cam_x(
                    raster.0 as int,
                    self.film.resolution.0 as int,
                    self.half_w as int,
                );
                let yc = raster_to_cam_y(
                    raster.1 as int,
                    self.film.resolution.1 as int,
                    self.half_h as int,
                );
                let uu = self.camera_to_world.col_u();
                let vv = self.camera_to_world.col_v();
                let ww = self.camera_to_world.col_w();
                &&& ray.d.x == uu.x * xc + vv.x * yc - ww.x * self.f
                &&& ray.d.y == uu.y * xc + vv.y * yc - ww.y * self.f
                &&& ray.d.z == uu.z * xc + vv.z * yc - ww.z * self.f
                &&& ray.p == self.e
                &&& ray.den == 1
                &&& ray.in_world_bounds()
            },
    {
        if raster.0 >= self.film.resolution.0 || raster.1 >= self.film.resolution.1 {
            return None;
        }
        let res_x = self.film.resolution.0;
        let res_y = self.film.resolution.1;
        proof {
            lemma_raster_coord_range(
                raster.0 as int,
                res_x as int,
                self.half_w as int,
            );
            lemma_raster_coord_range(
                raster.1 as int,
                res_y as int,
                self.half_h as int,
            );
        }
        proof {
            crate::arith::lemma_mul_bounds(
                2 * raster.0 + 1,
                self.half_w as int,
                0x2000,
                2048,
            );
            crate::arith::lemma_mul_bounds(
                2 * raster.1 + 1,
                self.half_h as int,
                0x2000,
                2048,
            );
        }
        let xc = (2 * (raster.0 as i64) + 1) * self.half_w / (res_x as i64) - self.half_w;
        let yc = self.half_h - (2 * (raster.1 as i64) + 1) * self.half_h / (res_y as i64);
        let u = Vec3::new(
            self.camera_to_world.mat.m[0],
            self.camera_to_world.mat.m[4],
            self.camera_to_world.mat.m[8],
        );
        let v = Vec3::new(
            self.camera_to_world.mat.m[1],
            self.camera_to_world.mat.m[5],
            self.camera_to_world.mat.m[9],
        );
        let w = Vec3::new(
            self.camera_to_world.mat.m[2],
            self.camera_to_world.mat.m[6],
            self.camera_to_world.mat.m[10],
        );
        proof {
            assert(u == self.camera_to_world.col_u());
            assert(v == self.camera_to_world.col_v());
            assert(w == self.camera_to_world.col_w());
        }
        proof {
            crate::arith::lemma_mul_bounds(u.x as int, xc as int, 16, 2048);
            crate::arith::lemma_mul_bounds(u.y as int, xc as int, 16, 2048);
            crate::arith::lemma_mul_bounds(u.z as int, xc as int, 16, 2048);
            crate::arith::lemma_mul_bounds(v.x as int, yc as int, 16, 2048);
            crate::arith::lemma_mul_bounds(v.y as int, yc as int, 16, 2048);
            crate::arith::lemma_mul_bounds(v.z as int, yc as int, 16, 2048);
            crate::arith::lemma_mul_bounds(w.x as int, self.f as int, 16, 2048);
            crate::arith::lemma_mul_bounds(w.y as int, self.f as int, 16, 2048);
            crate::arith::lemma_mul_bounds(w.z as int, self.f as int, 16, 2048);
        }
        let dx = u.x * xc + v.x * yc - w.x * self.f;
        let dy = u.y * xc + v.y * yc - w.y * self.f;
        let dz = u.z * xc + v.z * yc - w.z * self.f;
        Some(Ray { p: self.e, d: Vec3 { x: dx, y: dy, z: dz }, den: 1 })
    }
}

/// The camera-space coordinate of an in-range pixel stays within the
/// image-plane half extent.
proof fn lemma_raster_coord_range(px: int, res: int, half: int) by (nonlinear_arith)
    requires
        0 <= px < res,
        1 <= half <= 2048,
        1 <= res,
    ensures
        0 <= ((2 * px + 1) * half) / res <= 2 * half,
{
}

} // verus!
