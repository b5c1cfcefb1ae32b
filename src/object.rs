//! Objects: a shared triangle-soup mesh placed in the world by a pose and a
//! scale, and drawn as wireframe through a camera.

use std::rc::Rc;
use vstd::prelude::*;
use crate::camera::{Camera, project_spec, project_vertex};
use crate::fixed::ONE;
use crate::math::{Vec3, Quat, add3, scale3, rotate_spec, identity_quat, lemma_rotate_identity, vec3};
use crate::raster::{Color, Pixel, Point, draw_line, draw_triangle, line_pixels, triangle_pixels};

verus! {

/// An instance of a mesh: a position, an orientation and a uniform scale
/// (16.16 fixed point). The mesh is a flat list of vertices, each three in a
/// row forming one triangle, shared read-only between objects.
pub struct Object {
    pub pos: Vec3,
    pub rot: Quat,
    pub scale: i64,
    pub mesh: Rc<Vec<Vec3>>,
}

pub open spec fn black() -> Color {
    Color { r: 0, g: 0, b: 0 }
}

/// A mesh vertex placed in the world: rotated, then scaled, then moved.
pub open spec fn world_vertex(pos: Vec3, rot: Quat, scale: i64, v: Vec3) -> Vec3 {
    add3(scale3(rotate_spec(rot, v), scale as int), pos)
}

/// The outline through three world points, or nothing when one of them does
/// not project.
pub open spec fn outline_through(camera: Camera, a: Vec3, b: Vec3, c: Vec3) -> Seq<Pixel> {
    let (pa, pb, pc) = (project_spec(camera, a), project_spec(camera, b), project_spec(camera, c));
    if pa is Some && pb is Some && pc is Some {
        triangle_pixels(pa->0, pb->0, pc->0, black())
    } else {
        Seq::empty()
    }
}

/// The outline of triangle `t` of the object.
pub open spec fn triangle_of(obj: &Object, camera: Camera, t: int) -> Seq<Pixel> {
    let m = (*obj.mesh)@;
    outline_through(
        camera,
        world_vertex(obj.pos, obj.rot, obj.scale, m[3 * t]),
        world_vertex(obj.pos, obj.rot, obj.scale, m[3 * t + 1]),
        world_vertex(obj.pos, obj.rot, obj.scale, m[3 * t + 2]),
    )
}

/// The outlines of the first `n` triangles of the object.
pub open spec fn mesh_pixels(obj: &Object, camera: Camera, n: nat) -> Seq<Pixel>
    decreases n,
{
    if n == 0 {
        Seq::empty()
    } else {
        mesh_pixels(obj, camera, (n - 1) as nat) + triangle_of(obj, camera, n - 1)
    }
}

impl Object {
    /// Places a mesh vertex in the world.
    fn place(&self, v: Vec3) -> (r: Vec3)
        ensures
            r == world_vertex(self.pos, self.rot, self.scale, v),
    {
        self.rot.rotate(v).scale(self.scale).add(self.pos)
    }

    fn draw_mesh_triangle(&self, canvas: &mut Vec<Pixel>, camera: &Camera, mesh: &Vec<Vec3>, t: usize)
        requires
            mesh@ == (*self.mesh)@,
            3 * t + 2 < mesh@.len(),
            camera.viewport.dist > 0,
        ensures
            final(canvas)@ == old(canvas)@ + triangle_of(self, *camera, t as int),
    {
        let ghost start = canvas@;
        let len = mesh.len();
        let idx = 3 * t;
        let va = project_vertex(camera, &self.place(mesh[idx]));
        let vb = project_vertex(camera, &self.place(mesh[idx + 1]));
        let vc = project_vertex(camera, &self.place(mesh[idx + 2]));
        match (va, vb, vc) {
            (Some(a), Some(b), Some(c)) => {
                draw_triangle(canvas, a, b, c, Color { r: 0, g: 0, b: 0 });
            },
            _ => {},
        }
        assert(canvas@ =~= start + triangle_of(self, *camera, t as int));
    }

    /// Draws the object's wireframe in black: each triangle whose three
    /// vertices project, skipping any triangle with a vertex at or behind
    /// the viewport.
    pub fn render(&self, canvas: &mut Vec<Pixel>, camera: &Camera)
        requires
            (*self.mesh)@.len() % 3 == 0,
            camera.viewport.dist > 0,
        ensures
            final(canvas)@ == old(canvas)@ + mesh_pixels(self, *camera, ((*self.mesh)@.len() / 3) as nat),
    {
        let ghost start = canvas@;
        let mesh: &Vec<Vec3> = &self.mesh;
        let n = mesh.len() / 3;
        assert(mesh@.len() == 3 * n);
        let mut t: usize = 0;
        while t < n
            invariant
                0 <= t <= n,
                mesh@.len() == 3 * n,
                3 * n <= usize::MAX,
                n == mesh@.len() / 3,
                mesh@ == (*self.mesh)@,
                mesh@.len() % 3 == 0,
                camera.viewport.dist > 0,
                canvas@ == start + mesh_pixels(self, *camera, t as nat),
            decreases n - t,
        {
            self.draw_mesh_triangle(canvas, camera, mesh, t);
            proof {
                assert(canvas@ =~= start + mesh_pixels(self, *camera, (t + 1) as nat));
            }
            t += 1;
        }
    }
}

/// Identity pose: an object at the origin, unrotated, at scale one, places
/// every mesh vertex where it is, so its vertices project exactly as the raw
/// mesh vertices do.
pub proof fn lemma_identity_pose(camera: Camera, v: Vec3)
    ensures
        world_vertex(Vec3 { x: 0, y: 0, z: 0 }, identity_quat(), ONE, v) == v,
        project_spec(camera, world_vertex(Vec3 { x: 0, y: 0, z: 0 }, identity_quat(), ONE, v))
            == project_spec(camera, v),
{
    lemma_rotate_identity(v);
    vstd::arithmetic::div_mod::lemma_div_multiples_vanish(v.x as int, ONE as int);
    vstd::arithmetic::div_mod::lemma_div_multiples_vanish(v.y as int, ONE as int);
    vstd::arithmetic::div_mod::lemma_div_multiples_vanish(v.z as int, ONE as int);
    assert(v.x * ONE == ONE * v.x) by (nonlinear_arith);
    assert(v.y * ONE == ONE * v.y) by (nonlinear_arith);
    assert(v.z * ONE == ONE * v.z) by (nonlinear_arith);
}

/// The corners of a cube of half-side `s`: the front face at depth 0, then
/// the back face at depth `s`, each counter-clockwise from (-s, -s).
pub open spec fn cube_corners(s: int) -> Seq<Vec3> {
    let n = -s;
    seq![
        vec3(n, n, 0), vec3(s, n, 0), vec3(s, s, 0), vec3(n, s, 0),
        vec3(n, n, s), vec3(s, n, s), vec3(s, s, s), vec3(n, s, s),
    ]
}

/// The cube's edges as pairs of corner indices: the front face, the back
/// face, then the four edges joining them.
pub open spec fn cube_edges() -> (Seq<usize>, Seq<usize>) {
    (seq![0, 1, 2, 3, 4, 5, 6, 7, 0, 1, 2, 3], seq![1, 2, 3, 0, 5, 6, 7, 4, 4, 5, 6, 7])
}

#[verifier::opaque]
pub open spec fn corner_pixel(camera: Camera, s: int, i: int) -> Point {
    project_spec(camera, cube_corners(s)[i])->0
}

/// The first `k` edges of the cube, drawn in black.
pub open spec fn cube_pixels(camera: Camera, s: int, k: nat) -> Seq<Pixel>
    decreases k,
{
    if k == 0 {
        Seq::empty()
    } else {
        cube_pixels(camera, s, (k - 1) as nat) + line_pixels(
            corner_pixel(camera, s, cube_edges().0[k - 1] as int),
            corner_pixel(camera, s, cube_edges().1[k - 1] as int),
            black(),
        )
    }
}

/// The pixel of a point known to project.
fn project_known(camera: &Camera, v: &Vec3) -> (r: Point)
    requires
        camera.viewport.dist > 0,
        project_spec(*camera, *v) is Some,
    ensures
        r == project_spec(*camera, *v)->0,
{
    match project_vertex(camera, v) {
        Some(p) => p,
        None => Point { x: 0, y: 0 },
    }
}

/// Draws the twelve edges of a cube of half-side `scale` world units in
/// black; every corner must project.
pub fn draw_cube(canvas: &mut Vec<Pixel>, scale: i32, camera: &Camera)
    requires
        camera.viewport.dist > 0,
        forall|i: int| 0 <= i < 8 ==> #[trigger] project_spec(*camera, cube_corners(scale * ONE)[i]) is Some,
    ensures
        final(canvas)@ == old(canvas)@ + cube_pixels(*camera, scale * ONE, 12),
{
    let ghost start = canvas@;
    let s: i64 = scale as i64 * ONE;
    let n: i64 = -s;
    let corners: Vec<Vec3> = vec![
        Vec3 { x: n, y: n, z: 0 }, Vec3 { x: s, y: n, z: 0 },
        Vec3 { x: s, y: s, z: 0 }, Vec3 { x: n, y: s, z: 0 },
        Vec3 { x: n, y: n, z: s }, Vec3 { x: s, y: n, z: s },
        Vec3 { x: s, y: s, z: s }, Vec3 { x: n, y: s, z: s },
    ];
    assert(corners@ =~= cube_corners(s as int));
    let mut pts: Vec<Point> = Vec::new();
    let mut i: usize = 0;
    while i < 8
        invariant
            0 <= i <= 8,
            corners@ == cube_corners(s as int),
            s == scale * ONE,
            camera.viewport.dist > 0,
            forall|j: int| 0 <= j < 8 ==> #[trigger] project_spec(*camera, cube_corners(scale * ONE)[j]) is Some,
            pts@.len() == i,
            forall|j: int| 0 <= j < i ==> pts@[j] == corner_pixel(*camera, s as int, j),
        decreases 8 - i,
    {
        proof {
            assert(project_spec(*camera, cube_corners(scale * ONE)[i as int]) is Some);
        }
        let p = project_known(camera, &corners[i]);
        proof {
            reveal(corner_pixel);
        }
        pts.push(p);
        i += 1;
    }
    let from: Vec<usize> = vec![0, 1, 2, 3, 4, 5, 6, 7, 0, 1, 2, 3];
    let to: Vec<usize> = vec![1, 2, 3, 0, 5, 6, 7, 4, 4, 5, 6, 7];
    assert(from@ =~= cube_edges().0);
    assert(to@ =~= cube_edges().1);
    let mut k: usize = 0;
    while k < 12
        invariant
            0 <= k <= 12,
            from@ == cube_edges().0,
            to@ == cube_edges().1,
            pts@.len() == 8,
            forall|j: int| 0 <= j < 8 ==> pts@[j] == corner_pixel(*camera, s as int, j),
            s == scale * ONE,
            canvas@ == start + cube_pixels(*camera, s as int, k as nat),
        decreases 12 - k,
    {
        let a = pts[from[k]];
        let b = pts[to[k]];
        assert(a == corner_pixel(*camera, s as int, cube_edges().0[k as int] as int));
        assert(b == corner_pixel(*camera, s as int, cube_edges().1[k as int] as int));
        draw_line(canvas, a, b, Color { r: 0, g: 0, b: 0 });
        proof {
            assert(canvas@ =~= start + cube_pixels(*camera, s as int, (k + 1) as nat));
        }
        k += 1;
    }
}

/// An object at the identity pose draws each mesh triangle exactly as the
/// raw mesh vertices would be drawn through the camera.
pub proof fn lemma_identity_render(obj: &Object, camera: Camera, t: int)
    requires
        obj.pos == (Vec3 { x: 0, y: 0, z: 0 }),
        obj.rot == identity_quat(),
        obj.scale == ONE,
    ensures
        triangle_of(obj, camera, t) == outline_through(
            camera,
            (*obj.mesh)@[3 * t],
            (*obj.mesh)@[3 * t + 1],
            (*obj.mesh)@[3 * t + 2],
        ),
{
    let m = (*obj.mesh)@;
    lemma_identity_pose(camera, m[3 * t]);
    lemma_identity_pose(camera, m[3 * t + 1]);
    lemma_identity_pose(camera, m[3 * t + 2]);
}

} // verus!
