//! The camera: viewport derivation, movement, and perspective projection.

use vstd::prelude::*;
use crate::fixed::{ONE, sat, mul_spec, div_spec, add_spec, trunc_i32_spec, floor_div, saturate, fx_mul, fx_div, fx_add, fx_trunc_i32};
use crate::math::{Vec3, Quat, add3, sub3, rotate_spec, conj_spec, qmul_spec, normalize_spec, identity_quat, vec3};
use crate::raster::Point;

verus! {

/// The viewport plane: its width and height and its distance from the camera
/// (16.16 fixed point, world units), and the pixels per world unit (16.16).
#[derive(Clone, Copy, Debug, PartialEq, Eq, Structural)]
pub struct Viewport {
    pub width: i64,
    pub height: i64,
    pub dist: i64,
    pub scale: i64,
}

/// The viewport's extent along its longer side: twice `dist * tan`.
pub open spec fn full_side(half_fov_tan: int, dist: int) -> int {
    sat(2 * mul_spec(dist, half_fov_tan))
}

/// Pixels per world unit, in fixed point, when `pixels` span `extent`.
pub open spec fn pixel_scale(pixels: int, extent: int) -> int {
    sat((pixels * ONE * ONE) / extent)
}

/// The viewport at distance `dist` for a field of view whose half angle has
/// tangent `half_fov_tan`, on a `w` by `h` pixel surface. The longer side of
/// the surface carries the full field of view; the shorter side is narrowed
/// by the aspect ratio.
pub open spec fn viewport_spec(half_fov_tan: int, w: int, h: int, dist: int) -> Viewport {
    let full = full_side(half_fov_tan, dist);
    if w == h {
        Viewport { width: full as i64, height: full as i64, dist: dist as i64, scale: pixel_scale(w, full) as i64 }
    } else if w < h {
        Viewport {
            width: ((full * w) / h) as i64,
            height: full as i64,
            dist: dist as i64,
            scale: pixel_scale(h, full) as i64,
        }
    } else {
        Viewport {
            width: full as i64,
            height: ((full * h) / w) as i64,
            dist: dist as i64,
            scale: pixel_scale(w, full) as i64,
        }
    }
}

/// Whether a field of view, given by its tangent, yields a viewport of
/// positive extent at distance `dist`.
pub open spec fn usable(half_fov_tan: int, dist: int) -> bool {
    full_side(half_fov_tan, dist) > 0
}

/// Derives the viewport for a field of view whose half angle has tangent
/// `half_fov_tan` (16.16), on a surface of `res` pixels, at distance `d`
/// from the camera (1.0 when `None`).
pub fn viewport(half_fov_tan: i64, res: (u32, u32), d: Option<i64>) -> (r: Viewport)
    requires
        usable(half_fov_tan as int, match d { Some(v) => v as int, None => ONE as int }),
        res.0 > 0 || res.1 > 0,
    ensures
        r == viewport_spec(half_fov_tan as int, res.0 as int, res.1 as int, match d { Some(v) => v as int, None => ONE as int }),
{
    let dist = match d {
        Some(v) => v,
        None => ONE,
    };
    let side = fx_mul(dist, half_fov_tan);
    let full = saturate(2 * side as i128);
    let (w, h) = (res.0 as i128, res.1 as i128);
    proof {
        assert(0 <= full * w <= 0x8000_0000_0000_0000 * 0x1_0000_0000) by (nonlinear_arith)
            requires
                0 < full <= 0x8000_0000_0000_0000,
                0 <= w <= 0x1_0000_0000,
        ;
        assert(0 <= full * h <= 0x8000_0000_0000_0000 * 0x1_0000_0000) by (nonlinear_arith)
            requires
                0 < full <= 0x8000_0000_0000_0000,
                0 <= h <= 0x1_0000_0000,
        ;
    }
    if res.0 == res.1 {
        Viewport { width: full, height: full, dist, scale: saturate(w * 0x1_0000_0000 / full as i128) }
    } else if res.0 < res.1 {
        Viewport {
            width: (full as i128 * w / h) as i64,
            height: full,
            dist,
            scale: saturate(h * 0x1_0000_0000 / full as i128),
        }
    } else {
        Viewport {
            width: full,
            height: (full as i128 * h / w) as i64,
            dist,
            scale: saturate(w * 0x1_0000_0000 / full as i128),
        }
    }
}

/// The viewport's height never exceeds its width on a surface wider than it
/// is tall: the width carries the full field of view.
pub proof fn lemma_wide_viewport(half_fov_tan: int, w: int, h: int, dist: int)
    requires
        usable(half_fov_tan, dist),
        0 <= h < w,
    ensures
        viewport_spec(half_fov_tan, w, h, dist).height <= viewport_spec(half_fov_tan, w, h, dist).width,
        viewport_spec(half_fov_tan, w, h, dist).height == (full_side(half_fov_tan, dist) * h) / w,
{
    let full = full_side(half_fov_tan, dist);
    assert(0 <= full * h <= full * w) by (nonlinear_arith)
        requires
            full > 0,
            0 <= h < w,
    ;
    vstd::arithmetic::div_mod::lemma_div_is_ordered(full * h, full * w, w);
    vstd::arithmetic::div_mod::lemma_div_pos_is_pos(full * h, w);
    assert(full * w == w * full) by (nonlinear_arith);
    vstd::arithmetic::div_mod::lemma_div_multiples_vanish(full, w);
}

/// A field of view in whole degrees, with the tangent of its half angle in
/// 16.16 fixed point.
#[derive(Clone, Copy, Debug, PartialEq, Eq, Structural)]
pub struct Fov {
    pub degrees: u8,
    pub half_tan: i64,
}

/// The default field of view: 90 degrees, whose half angle has tangent 1.
pub open spec fn default_fov() -> Fov {
    Fov { degrees: 90, half_tan: ONE }
}

impl Fov {
    pub fn new(degrees: u8, half_tan: i64) -> (r: Fov)
        ensures
            r == (Fov { degrees, half_tan }),
    {
        Fov { degrees, half_tan }
    }
}

/// Whether a field of view is accepted: between 1 and 179 degrees, with a
/// tangent that gives a viewport of positive extent at distance `dist`.
pub open spec fn valid_fov(fov: Fov, dist: int) -> bool {
    1 <= fov.degrees <= 179 && usable(fov.half_tan as int, dist)
}

/// A camera: its position and orientation (the rotation from world axes to
/// camera axes), its field of view and pixel resolution, and the viewport
/// derived from them.
#[derive(Clone, Copy, Debug)]
pub struct Camera {
    pub pos: Vec3,
    pub rot: Quat,
    pub res: (u32, u32),
    pub fov: Fov,
    pub viewport: Viewport,
}

impl Camera {
    /// The viewport is the one derived from the field of view and the
    /// resolution at the viewport's own distance.
    pub open spec fn wf(&self) -> bool {
        &&& valid_fov(self.fov, self.viewport.dist as int)
        &&& self.res.0 > 0 || self.res.1 > 0
        &&& self.viewport.dist > 0
        &&& self.viewport == viewport_spec(
            self.fov.half_tan as int,
            self.res.0 as int,
            self.res.1 as int,
            self.viewport.dist as int,
        )
    }

    /// A camera at `pos` (the origin by default), oriented by `rot` (the
    /// identity by default), with field of view `fov` (90 degrees by default)
    /// and its viewport at distance 1.
    pub fn new(pos: Option<Vec3>, rot: Option<Quat>, fov: Option<Fov>, res: (u32, u32)) -> (r: Camera)
        requires
            match fov {
                Some(f) => valid_fov(f, ONE as int),
                None => true,
            },
            res.0 > 0 || res.1 > 0,
        ensures
            r.wf(),
            r.pos == (match pos { Some(p) => p, None => Vec3 { x: 0, y: 0, z: 0 } }),
            r.rot == (match rot { Some(q) => q, None => identity_quat() }),
            r.fov == (match fov { Some(f) => f, None => default_fov() }),
            r.res == res,
            r.viewport.dist == ONE,
    {
        let pos = match pos {
            Some(p) => p,
            None => Vec3 { x: 0, y: 0, z: 0 },
        };
        let rot = match rot {
            Some(q) => q,
            None => Quat::identity(),
        };
        let fov = match fov {
            Some(f) => f,
            None => Fov { degrees: 90, half_tan: ONE },
        };
        proof {
            assert(mul_spec(ONE as int, ONE as int) == ONE) by {
                vstd::arithmetic::div_mod::lemma_div_multiples_vanish(ONE as int, ONE as int);
            }
        }
        let viewport = viewport(fov.half_tan, res, None);
        Camera { pos, rot, res, fov, viewport }
    }

    /// Moves by `offset` given in camera axes: the offset is turned into
    /// world axes by the inverse of the camera's rotation.
    pub fn local_move(&mut self, offset: Vec3)
        ensures
            final(self).pos == add3(old(self).pos, rotate_spec(conj_spec(old(self).rot), offset)),
            final(self).rot == old(self).rot,
            final(self).fov == old(self).fov,
            final(self).res == old(self).res,
            final(self).viewport == old(self).viewport,
    {
        self.pos = self.pos.add(self.rot.conjugate().rotate(offset));
    }

    /// Turns by `offset`, composed after the current rotation, and
    /// renormalizes against drift.
    pub fn look(&mut self, offset: Quat)
        ensures
            final(self).rot == normalize_spec(qmul_spec(old(self).rot, offset)),
            final(self).pos == old(self).pos,
            final(self).fov == old(self).fov,
            final(self).res == old(self).res,
            final(self).viewport == old(self).viewport,
    {
        self.rot = self.rot.mul(offset).normalize();
    }

    /// Changes the field of view, keeping the viewport's distance. A field of
    /// view of 0 or of 180 degrees or more (or whose tangent gives no extent)
    /// is ignored.
    pub fn change_fov(&mut self, fov: Fov)
        requires
            old(self).wf(),
        ensures
            final(self).wf(),
            valid_fov(fov, old(self).viewport.dist as int) ==> final(self).fov == fov,
            !valid_fov(fov, old(self).viewport.dist as int) ==> final(self).fov == old(self).fov,
            final(self).viewport == viewport_spec(
                final(self).fov.half_tan as int,
                old(self).res.0 as int,
                old(self).res.1 as int,
                old(self).viewport.dist as int,
            ),
            final(self).pos == old(self).pos,
            final(self).rot == old(self).rot,
            final(self).res == old(self).res,
    {
        if fov.degrees == 0 || fov.degrees >= 180 {
            return;
        }
        let side = fx_mul(self.viewport.dist, fov.half_tan);
        if side <= 0 {
            return;
        }
        self.viewport = viewport(fov.half_tan, self.res, Some(self.viewport.dist));
        self.fov = fov;
    }

    /// Changes the resolution, keeping the field of view and the viewport's
    /// distance.
    pub fn change_res(&mut self, res: (u32, u32))
        requires
            old(self).wf(),
            res.0 > 0 || res.1 > 0,
        ensures
            final(self).wf(),
            final(self).res == res,
            final(self).viewport == viewport_spec(
                old(self).fov.half_tan as int,
                res.0 as int,
                res.1 as int,
                old(self).viewport.dist as int,
            ),
            final(self).pos == old(self).pos,
            final(self).rot == old(self).rot,
            final(self).fov == old(self).fov,
    {
        self.viewport = viewport(self.fov.half_tan, res, Some(self.viewport.dist));
        self.res = res;
    }
}

/// A world point in camera axes: relative to the camera, rotated by it.
pub open spec fn to_local(camera: Camera, p: Vec3) -> Vec3 {
    rotate_spec(camera.rot, sub3(p, camera.pos))
}

/// Maps a viewport coordinate to a pixel coordinate along an axis of
/// viewport extent `extent`.
pub open spec fn to_pixel(v: int, extent: int, scale: int) -> int {
    trunc_i32_spec(mul_spec(add_spec(v, extent / 2), scale))
}

/// The pixel a world point projects to, or `None` when its depth in camera
/// axes is not beyond the viewport.
pub open spec fn project_spec(camera: Camera, p: Vec3) -> Option<Point> {
    let l = to_local(camera, p);
    let vp = camera.viewport;
    if l.z <= vp.dist {
        None
    } else {
        let vx = div_spec(mul_spec(l.x as int, vp.dist as int), l.z as int);
        let vy = div_spec(mul_spec(l.y as int, vp.dist as int), l.z as int);
        Some(
            Point {
                x: to_pixel(vx, vp.width as int, vp.scale as int) as i32,
                y: to_pixel(vy, vp.height as int, vp.scale as int) as i32,
            },
        )
    }
}

/// Projects a world point to a pixel: into camera axes, rejected unless
/// deeper than the viewport, divided by its depth onto the viewport, shifted
/// so the viewport's center is the surface's, and scaled to pixels.
pub fn project_vertex(camera: &Camera, point: &Vec3) -> (r: Option<Point>)
    requires
        camera.viewport.dist > 0,
    ensures
        r == project_spec(*camera, *point),
        r is None <==> to_local(*camera, *point).z <= camera.viewport.dist,
{
    let l = camera.rot.rotate(point.sub(camera.pos));
    let vp = camera.viewport;
    if l.z <= vp.dist {
        return None;
    }
    let vx = fx_div(fx_mul(l.x, vp.dist), l.z);
    let vy = fx_div(fx_mul(l.y, vp.dist), l.z);
    let px = fx_mul(fx_add(vx, floor_div(vp.width as i128, 2) as i64), vp.scale);
    let py = fx_mul(fx_add(vy, floor_div(vp.height as i128, 2) as i64), vp.scale);
    Some(Point { x: fx_trunc_i32(px), y: fx_trunc_i32(py) })
}

/// The keys that steer the camera.
#[derive(Clone, Copy, Debug, PartialEq, Eq, Structural)]
pub enum Key {
    W,
    A,
    S,
    D,
    Up,
    Down,
    Left,
    Right,
    Escape,
    Other,
}

/// An input event, as the display layer reports it.
#[derive(Clone, Copy, Debug, PartialEq, Eq, Structural)]
pub enum InputEvent {
    Quit,
    KeyDown(Key),
    /// A scroll of the mouse wheel by this many steps.
    MouseWheel(i32),
    /// The surface was resized to this width and height.
    Resized(i32, i32),
    Other,
}

/// What is left to the caller after an event.
#[derive(Clone, Copy, Debug, PartialEq, Eq, Structural)]
pub enum Action {
    Continue,
    /// Stop the program.
    Exit,
    /// Change the field of view to this many degrees, always between 1 and
    /// 179 (through `change_fov`, once its tangent is known).
    ChangeFov(u8),
}

/// One movement step: 0.1 world units.
pub const MOVE_STEP: i64 = 6554;

/// The sine and cosine of half a turn step of 0.01 radians, in fixed point.
pub const TURN_SIN: i64 = 328;
pub const TURN_COS: i64 = 65535;

/// The camera-axis offset a key moves by.
pub open spec fn key_offset(k: Key) -> Option<Vec3> {
    match k {
        Key::W => Some(vec3(0, 0, MOVE_STEP as int)),
        Key::A => Some(vec3(-MOVE_STEP, 0, 0)),
        Key::S => Some(vec3(0, 0, -MOVE_STEP)),
        Key::D => Some(vec3(MOVE_STEP as int, 0, 0)),
        _ => None,
    }
}

/// The rotation a key turns by: a small step about the x axis (up, down) or
/// the y axis (left, right).
pub open spec fn key_turn(k: Key) -> Option<Quat> {
    match k {
        Key::Up => Some(Quat { x: (-TURN_SIN) as i64, y: 0, z: 0, w: TURN_COS }),
        Key::Down => Some(Quat { x: TURN_SIN, y: 0, z: 0, w: TURN_COS }),
        Key::Left => Some(Quat { x: 0, y: TURN_SIN, z: 0, w: TURN_COS }),
        Key::Right => Some(Quat { x: 0, y: (-TURN_SIN) as i64, z: 0, w: TURN_COS }),
        _ => None,
    }
}

/// The field of view after scrolling `steps` from `degrees`.
pub open spec fn scrolled_fov(degrees: u8, steps: i32) -> int {
    degrees + steps
}

/// The camera after one event, and what is left to the caller.
pub open spec fn input_step(c: Camera, e: InputEvent) -> (Camera, Action) {
    match e {
        InputEvent::Quit => (c, Action::Exit),
        InputEvent::KeyDown(Key::Escape) => (c, Action::Exit),
        InputEvent::KeyDown(k) => {
            if let Some(off) = key_offset(k) {
                (Camera { pos: add3(c.pos, rotate_spec(conj_spec(c.rot), off)), ..c }, Action::Continue)
            } else if let Some(q) = key_turn(k) {
                (Camera { rot: normalize_spec(qmul_spec(c.rot, q)), ..c }, Action::Continue)
            } else {
                (c, Action::Continue)
            }
        },
        InputEvent::MouseWheel(steps) => {
            let f = scrolled_fov(c.fov.degrees, steps);
            if 1 <= f <= 179 {
                (c, Action::ChangeFov(f as u8))
            } else {
                (c, Action::Continue)
            }
        },
        InputEvent::Resized(w, h) => {
            let res = (w as u32, h as u32);
            if res.0 == 0 && res.1 == 0 {
                (c, Action::Continue)
            } else {
                (
                    Camera {
                        res,
                        viewport: viewport_spec(c.fov.half_tan as int, res.0 as int, res.1 as int, c.viewport.dist as int),
                        ..c
                    },
                    Action::Continue,
                )
            }
        },
        InputEvent::Other => (c, Action::Continue),
    }
}

impl Camera {
    /// Applies one input event: keys move or turn the camera, a resize
    /// changes the resolution (a resize to no area is ignored), and a request
    /// to quit is handed back as an action, as is a wheel scroll that leaves
    /// the field of view between 1 and 179 degrees (any other is ignored).
    pub fn process_input(&mut self, event: InputEvent) -> (r: Action)
        requires
            old(self).wf(),
        ensures
            final(self).wf(),
            (*final(self), r) == input_step(*old(self), event),
    {
        match event {
            InputEvent::Quit => Action::Exit,
            InputEvent::KeyDown(Key::Escape) => Action::Exit,
            InputEvent::KeyDown(Key::W) => {
                self.local_move(Vec3 { x: 0, y: 0, z: MOVE_STEP });
                Action::Continue
            },
            InputEvent::KeyDown(Key::A) => {
                self.local_move(Vec3 { x: -MOVE_STEP, y: 0, z: 0 });
                Action::Continue
            },
            InputEvent::KeyDown(Key::S) => {
                self.local_move(Vec3 { x: 0, y: 0, z: -MOVE_STEP });
                Action::Continue
            },
            InputEvent::KeyDown(Key::D) => {
                self.local_move(Vec3 { x: MOVE_STEP, y: 0, z: 0 });
                Action::Continue
            },
            InputEvent::KeyDown(Key::Up) => {
                self.look(Quat { x: -TURN_SIN, y: 0, z: 0, w: TURN_COS });
                Action::Continue
            },
            InputEvent::KeyDown(Key::Down) => {
                self.look(Quat { x: TURN_SIN, y: 0, z: 0, w: TURN_COS });
                Action::Continue
            },
            InputEvent::KeyDown(Key::Left) => {
                self.look(Quat { x: 0, y: TURN_SIN, z: 0, w: TURN_COS });
                Action::Continue
            },
            InputEvent::KeyDown(Key::Right) => {
                self.look(Quat { x: 0, y: -TURN_SIN, z: 0, w: TURN_COS });
                Action::Continue
            },
            InputEvent::KeyDown(Key::Other) => Action::Continue,
            InputEvent::MouseWheel(steps) => {
                let f = self.fov.degrees as i64 + steps as i64;
                if 1 <= f && f <= 179 {
                    Action::ChangeFov(f as u8)
                } else {
                    Action::Continue
                }
            },
            InputEvent::Resized(w, h) => {
                let res = (w as u32, h as u32);
                if res.0 != 0 || res.1 != 0 {
                    self.change_res(res);
                }
                Action::Continue
            },
            InputEvent::Other => Action::Continue,
        }
    }
}

} // verus!
