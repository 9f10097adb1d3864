//! Face-culled chunk meshes with per-corner ambient occlusion.
//!
//! Each solid voxel shows a quad for each of five faces (top, +X, −X, +Z, −Z)
//! whose neighbouring cell is void; the bottom face is never emitted. Every
//! corner of a quad carries an occlusion level: the number of void cells among
//! the three that touch that corner in the plane in front of the face.
use vstd::prelude::*;

use crate::chunk::{packed_word, vertex_fits, Chunk, ChunkVertexPacked};
use crate::grid::{
    chunk_coords, chunk_position, local_coords, CHUNK_AREA, CHUNK_SIZE, CHUNK_VOL, WORLD_VOL,
};
use crate::world::{voxel_spec, World};

verus! {

/// Faces a voxel can show, in the order the mesh emits them.
pub const FACE_COUNT: usize = 5;

/// Face id that the bottom face would carry; no vertex ever has it.
pub const BOTTOM_FACE_ID: u8 = 1;

/// Longest mesh a chunk can have: five quads of six vertices per voxel.
pub const MAX_MESH_LEN: usize = 983040;

/// Face id stored in the vertices of face `k` (0: top, 1: +X, 2: −X, 3: +Z, 4: −Z).
pub open spec fn face_id(k: int) -> u8 {
    if k == 0 {
        0
    } else if k == 1 {
        2
    } else if k == 2 {
        3
    } else if k == 3 {
        4
    } else {
        5
    }
}

/// Outward normal of face `k`.
pub open spec fn face_normal(k: int) -> (int, int, int) {
    if k == 0 {
        (0, 1, 0)
    } else if k == 1 {
        (1, 0, 0)
    } else if k == 2 {
        (-1, 0, 0)
    } else if k == 3 {
        (0, 0, 1)
    } else {
        (0, 0, -1)
    }
}

/// Plane of face `k`, by the axis it faces: 0 for x, 1 for y, 2 for z.
pub open spec fn face_plane(k: int) -> int {
    if k == 0 {
        1
    } else if k == 1 || k == 2 {
        0
    } else {
        2
    }
}

/// Offset from a voxel's minimum corner to corner `c` (0..4) of its face `k`.
pub open spec fn face_corner(k: int, c: int) -> (int, int, int) {
    if k == 0 {
        if c == 0 { (0, 1, 0) } else if c == 1 { (1, 1, 0) } else if c == 2 { (1, 1, 1) } else { (0, 1, 1) }
    } else if k == 1 {
        if c == 0 { (1, 0, 0) } else if c == 1 { (1, 1, 0) } else if c == 2 { (1, 1, 1) } else { (1, 0, 1) }
    } else if k == 2 {
        if c == 0 { (0, 0, 0) } else if c == 1 { (0, 1, 0) } else if c == 2 { (0, 1, 1) } else { (0, 0, 1) }
    } else if k == 3 {
        if c == 0 { (0, 0, 1) } else if c == 1 { (0, 1, 1) } else if c == 2 { (1, 1, 1) } else { (1, 0, 1) }
    } else {
        if c == 0 { (0, 0, 0) } else if c == 1 { (0, 1, 0) } else if c == 2 { (1, 1, 0) } else { (1, 0, 0) }
    }
}

/// Corner of face `k` used by vertex `i` (0..6) of its two triangles.
pub open spec fn winding(k: int, i: int) -> int {
    let order: Seq<int> = if k == 0 || k == 3 {
        seq![1, 0, 3, 1, 3, 2]
    } else if k == 1 {
        seq![2, 3, 0, 2, 0, 1]
    } else if k == 2 {
        seq![2, 0, 3, 2, 1, 0]
    } else {
        seq![1, 3, 0, 1, 2, 3]
    };
    order[i]
}

/// The two tangent axes `(p, q)` of a plane.
pub open spec fn plane_axes(plane: int) -> ((int, int, int), (int, int, int)) {
    if plane == 0 {
        ((0, 0, 1), (0, 1, 0))
    } else if plane == 1 {
        ((0, 0, 1), (1, 0, 0))
    } else {
        ((1, 0, 0), (0, 1, 0))
    }
}

/// Direction of corner `c` along the tangent axes `(p, q)`: `true` for the
/// positive direction.
pub open spec fn corner_signs(c: int) -> (bool, bool) {
    if c == 0 {
        (false, false)
    } else if c == 1 {
        (false, true)
    } else if c == 2 {
        (true, true)
    } else {
        (true, false)
    }
}

/// `v` moved one step along `axis`, forward or backward.
pub open spec fn shift(v: (int, int, int), axis: (int, int, int), forward: bool) -> (int, int, int) {
    if forward {
        (v.0 + axis.0, v.1 + axis.1, v.2 + axis.2)
    } else {
        (v.0 - axis.0, v.1 - axis.1, v.2 - axis.2)
    }
}

/// The cell at `(x, y, z)` is void: outside the world or empty.
#[verifier::opaque]
pub open spec fn is_void(w: Seq<Seq<u8>>, x: int, y: int, z: int) -> bool {
    voxel_spec(w, x, y, z) == 0
}

/// 1 for a void cell, 0 for a solid one.
pub open spec fn void_count(b: bool) -> int {
    if b {
        1
    } else {
        0
    }
}

/// The three cells that touch corner `c` of a face, in the plane of the face
/// through the cell `(x, y, z)` in front of it: the edge cell along the first
/// tangent axis, the diagonal cell, and the edge cell along the second axis.
pub open spec fn corner_cells(x: int, y: int, z: int, plane: int, c: int) -> (
    (int, int, int),
    (int, int, int),
    (int, int, int),
) {
    let (p, q) = plane_axes(plane);
    let (sp, sq) = corner_signs(c);
    let a = shift((x, y, z), p, sp);
    (a, shift(a, q, sq), shift((x, y, z), q, sq))
}

/// Occlusion level of corner `c` of the face in front of which lies the cell
/// `(x, y, z)`: how many of the three cells touching that corner are void.
pub open spec fn ao_corner(w: Seq<Seq<u8>>, x: int, y: int, z: int, plane: int, c: int) -> int {
    let (a, d, b) = corner_cells(x, y, z, plane, c);
    void_count(is_void(w, a.0, a.1, a.2)) + void_count(is_void(w, d.0, d.1, d.2)) + void_count(
        is_void(w, b.0, b.1, b.2),
    )
}

/// An occlusion level lies in `[0, 3]`: 0 when none of the three cells at the
/// corner is void, 3 when all three are.
pub proof fn lemma_ao_bounds(w: Seq<Seq<u8>>, x: int, y: int, z: int, plane: int, c: int)
    ensures
        0 <= ao_corner(w, x, y, z, plane, c) <= 3,
        ({
            let (a, d, b) = corner_cells(x, y, z, plane, c);
            &&& (!is_void(w, a.0, a.1, a.2) && !is_void(w, d.0, d.1, d.2) && !is_void(w, b.0, b.1, b.2))
                ==> ao_corner(w, x, y, z, plane, c) == 0
            &&& (is_void(w, a.0, a.1, a.2) && is_void(w, d.0, d.1, d.2) && is_void(w, b.0, b.1, b.2))
                ==> ao_corner(w, x, y, z, plane, c) == 3
        }),
{
}

/// World coordinate of voxel `vi` of chunk `ci`, moved by `d`.
pub open spec fn offset_coords(ci: int, vi: int, d: (int, int, int)) -> (int, int, int) {
    let (cx, cy, cz) = chunk_coords(ci);
    let (lx, ly, lz) = local_coords(vi);
    (cx * CHUNK_SIZE + lx + d.0, cy * CHUNK_SIZE + ly + d.1, cz * CHUNK_SIZE + lz + d.2)
}

/// Face `k` of voxel `vi` of chunk `ci` faces a void cell.
pub open spec fn face_visible(w: Seq<Seq<u8>>, ci: int, vi: int, k: int) -> bool {
    let (nx, ny, nz) = offset_coords(ci, vi, face_normal(k));
    is_void(w, nx, ny, nz)
}

/// Packed word of the vertex at corner `c` of face `k` of voxel `vi` of chunk `ci`.
pub open spec fn vertex_word(w: Seq<Seq<u8>>, ci: int, vi: int, k: int, c: int, select: u8) -> u32 {
    let (lx, ly, lz) = local_coords(vi);
    let (dx, dy, dz) = face_corner(k, c);
    let (nx, ny, nz) = offset_coords(ci, vi, face_normal(k));
    packed_word(
        (lx + dx) as u8,
        (ly + dy) as u8,
        (lz + dz) as u8,
        w[ci][vi],
        face_id(k),
        ao_corner(w, nx, ny, nz, face_plane(k), c) as u8,
        select,
    )
}

/// The six vertices of the quad of face `k` of voxel `vi` of chunk `ci`.
pub open spec fn quad_spec(w: Seq<Seq<u8>>, ci: int, vi: int, k: int, select: u8) -> Seq<ChunkVertexPacked> {
    Seq::new(6, |i: int| ChunkVertexPacked { data: vertex_word(w, ci, vi, k, winding(k, i), select) })
}

/// The selection bit of a quad whose first vertex is vertex number `count` of the mesh.
pub open spec fn select_bit(sel: Option<usize>, count: int) -> u8 {
    if sel is Some && sel.unwrap() as int == count {
        1
    } else {
        0
    }
}

/// The quads of the visible faces among the first `k` faces of voxel `vi` of
/// chunk `ci`, when `start` vertices were emitted before them.
pub open spec fn faces_spec(w: Seq<Seq<u8>>, ci: int, vi: int, k: nat, start: int, sel: Option<usize>) -> Seq<
    ChunkVertexPacked,
>
    decreases k,
{
    if k == 0 {
        seq![]
    } else {
        let prev = faces_spec(w, ci, vi, (k - 1) as nat, start, sel);
        if face_visible(w, ci, vi, k - 1) {
            prev + quad_spec(w, ci, vi, k - 1, select_bit(sel, start + prev.len()))
        } else {
            prev
        }
    }
}

/// The mesh of the first `n` voxels of chunk `ci`, in storage order (y, then z,
/// then x): every solid voxel adds the quads of its visible faces.
pub open spec fn mesh_upto(w: Seq<Seq<u8>>, ci: int, n: nat, sel: Option<usize>) -> Seq<ChunkVertexPacked>
    decreases n,
{
    if n == 0 {
        seq![]
    } else {
        let prev = mesh_upto(w, ci, (n - 1) as nat, sel);
        if w[ci][n - 1] == 0 {
            prev
        } else {
            prev + faces_spec(w, ci, n - 1, FACE_COUNT as nat, prev.len() as int, sel)
        }
    }
}

/// The mesh of chunk `ci`.
pub open spec fn mesh_spec(w: Seq<Seq<u8>>, ci: int, sel: Option<usize>) -> Seq<ChunkVertexPacked> {
    mesh_upto(w, ci, CHUNK_VOL as nat, sel)
}

/// Number of visible faces among the first `k` faces of voxel `vi` of chunk `ci`.
pub open spec fn visible_faces(w: Seq<Seq<u8>>, ci: int, vi: int, k: nat) -> nat
    decreases k,
{
    if k == 0 {
        0
    } else {
        visible_faces(w, ci, vi, (k - 1) as nat) + if face_visible(w, ci, vi, k - 1) {
            1nat
        } else {
            0nat
        }
    }
}

/// A voxel emits six vertices for each visible face, whatever came before it.
pub proof fn lemma_faces_len(w: Seq<Seq<u8>>, ci: int, vi: int, k: nat, start: int, sel: Option<usize>)
    ensures
        faces_spec(w, ci, vi, k, start, sel).len() == 6 * visible_faces(w, ci, vi, k),
        visible_faces(w, ci, vi, k) <= k,
    decreases k,
{
    if k > 0 {
        lemma_faces_len(w, ci, vi, (k - 1) as nat, start, sel);
    }
}

/// A mesh never holds more than five quads per voxel.
proof fn lemma_mesh_len(w: Seq<Seq<u8>>, ci: int, n: nat, sel: Option<usize>)
    ensures
        mesh_upto(w, ci, n, sel).len() <= 30 * n,
    decreases n,
{
    if n > 0 {
        let prev = mesh_upto(w, ci, (n - 1) as nat, sel);
        lemma_mesh_len(w, ci, (n - 1) as nat, sel);
        lemma_faces_len(w, ci, n - 1, FACE_COUNT as nat, prev.len() as int, sel);
    }
}

/// A chunk whose voxels are all empty builds no vertex at all.
pub proof fn lemma_empty_chunk_culled(w: Seq<Seq<u8>>, ci: int, sel: Option<usize>)
    requires
        w[ci].len() == CHUNK_VOL,
        forall|i: int| 0 <= i < w[ci].len() ==> w[ci][i] == 0,
    ensures
        mesh_spec(w, ci, sel).len() == 0,
{
    lemma_empty_chunk_mesh(w, ci, CHUNK_VOL as nat, sel);
}

proof fn lemma_empty_chunk_mesh(w: Seq<Seq<u8>>, ci: int, n: nat, sel: Option<usize>)
    requires
        n <= w[ci].len(),
        forall|i: int| 0 <= i < w[ci].len() ==> w[ci][i] == 0,
    ensures
        mesh_upto(w, ci, n, sel) == Seq::<ChunkVertexPacked>::empty(),
    decreases n,
{
    if n > 0 {
        lemma_empty_chunk_mesh(w, ci, (n - 1) as nat, sel);
    }
}

/// Exec form of `face_normal`.
fn normal_of(k: usize) -> (r: (i64, i64, i64))
    requires
        k < FACE_COUNT,
    ensures
        (r.0 as int, r.1 as int, r.2 as int) == face_normal(k as int),
{
    if k == 0 {
        (0, 1, 0)
    } else if k == 1 {
        (1, 0, 0)
    } else if k == 2 {
        (-1, 0, 0)
    } else if k == 3 {
        (0, 0, 1)
    } else {
        (0, 0, -1)
    }
}

/// Exec form of `face_plane`.
fn plane_of(k: usize) -> (r: usize)
    requires
        k < FACE_COUNT,
    ensures
        r as int == face_plane(k as int),
{
    if k == 0 {
        1
    } else if k == 1 || k == 2 {
        0
    } else {
        2
    }
}

/// The six vertices, as `[x, y, z, id, face, ao, select]`, of face `k` of the
/// voxel at local coordinate `(x, y, z)`, with occlusion levels `ao` per corner.
fn face_quad(x: u8, y: u8, z: u8, id: u8, k: usize, ao: [u8; 4], select: u8) -> (r: [[u8; 7]; 6])
    requires
        x < CHUNK_SIZE,
        y < CHUNK_SIZE,
        z < CHUNK_SIZE,
        k < FACE_COUNT,
        forall|c: int| 0 <= c < 4 ==> ao[c] < 4,
        select < 2,
    ensures
        forall|i: int|
            0 <= i < 6 ==> {
                let c = winding(k as int, i);
                let (dx, dy, dz) = face_corner(k as int, c);
                &&& vertex_fits(#[trigger] r@[i])
                &&& r@[i][0] == x + dx
                &&& r@[i][1] == y + dy
                &&& r@[i][2] == z + dz
                &&& r@[i][3] == id
                &&& r@[i][4] == face_id(k as int)
                &&& r@[i][5] == ao[c]
                &&& r@[i][6] == select
            },
{
    if k == 0 {
        let v0 = [x, y + 1, z, id, 0, ao[0], select];
        let v1 = [x + 1, y + 1, z, id, 0, ao[1], select];
        let v2 = [x + 1, y + 1, z + 1, id, 0, ao[2], select];
        let v3 = [x, y + 1, z + 1, id, 0, ao[3], select];
        [v1, v0, v3, v1, v3, v2]
    } else if k == 1 {
        let v0 = [x + 1, y, z, id, 2, ao[0], select];
        let v1 = [x + 1, y + 1, z, id, 2, ao[1], select];
        let v2 = [x + 1, y + 1, z + 1, id, 2, ao[2], select];
        let v3 = [x + 1, y, z + 1, id, 2, ao[3], select];
        [v2, v3, v0, v2, v0, v1]
    } else if k == 2 {
        let v0 = [x, y, z, id, 3, ao[0], select];
        let v1 = [x, y + 1, z, id, 3, ao[1], select];
        let v2 = [x, y + 1, z + 1, id, 3, ao[2], select];
        let v3 = [x, y, z + 1, id, 3, ao[3], select];
        [v2, v0, v3, v2, v1, v0]
    } else if k == 3 {
        let v0 = [x, y, z + 1, id, 4, ao[0], select];
        let v1 = [x, y + 1, z + 1, id, 4, ao[1], select];
        let v2 = [x + 1, y + 1, z + 1, id, 4, ao[2], select];
        let v3 = [x + 1, y, z + 1, id, 4, ao[3], select];
        [v1, v0, v3, v1, v3, v2]
    } else {
        let v0 = [x, y, z, id, 5, ao[0], select];
        let v1 = [x, y + 1, z, id, 5, ao[1], select];
        let v2 = [x + 1, y + 1, z, id, 5, ao[2], select];
        let v3 = [x + 1, y, z, id, 5, ao[3], select];
        [v1, v3, v0, v1, v2, v3]
    }
}

/// Exec form of `plane_axes`.
fn axes_of(plane: usize) -> (r: ((i64, i64, i64), (i64, i64, i64)))
    requires
        plane < 3,
    ensures
        ((r.0.0 as int, r.0.1 as int, r.0.2 as int), (r.1.0 as int, r.1.1 as int, r.1.2 as int))
            == plane_axes(plane as int),
{
    if plane == 0 {
        ((0, 0, 1), (0, 1, 0))
    } else if plane == 1 {
        ((0, 0, 1), (1, 0, 0))
    } else {
        ((1, 0, 0), (0, 1, 0))
    }
}

/// The cell lies within a few cells of the world, where its coordinates and
/// those of its neighbours fit an `i64`.
pub open spec fn near_world(x: int, y: int, z: int) -> bool {
    &&& -4 <= x <= 200
    &&& -4 <= y <= 200
    &&& -4 <= z <= 200
}

impl World {
    /// Whether the cell at `(x, y, z)` is void: outside the world or empty.
    pub fn voxel_is_void(&self, x: i64, y: i64, z: i64) -> (r: bool)
        requires
            self.wf(),
        ensures
            r == is_void(self@, x as int, y as int, z as int),
    {
        proof {
            reveal(is_void);
        }
        self.get(x, y, z) == 0
    }

    fn void_level(&self, x: i64, y: i64, z: i64) -> (r: u8)
        requires
            self.wf(),
        ensures
            r as int == void_count(is_void(self@, x as int, y as int, z as int)),
    {
        if self.voxel_is_void(x, y, z) {
            1
        } else {
            0
        }
    }

    /// Occlusion levels of the four corners of the face in front of which lies
    /// the cell `(x, y, z)`, in the plane `plane`.
    pub fn get_ao(&self, x: i64, y: i64, z: i64, plane: usize) -> (r: [u8; 4])
        requires
            self.wf(),
            near_world(x as int, y as int, z as int),
            plane < 3,
        ensures
            forall|c: int|
                0 <= c < 4 ==> #[trigger] r[c] as int == ao_corner(self@, x as int, y as int, z as int, plane as int, c),
            forall|c: int| 0 <= c < 4 ==> #[trigger] r[c] <= 3,
    {
        let ((px, py, pz), (qx, qy, qz)) = axes_of(plane);
        let a = self.void_level(x - px, y - py, z - pz);
        let b = self.void_level(x - px - qx, y - py - qy, z - pz - qz);
        let c = self.void_level(x - qx, y - qy, z - qz);
        let d = self.void_level(x + px - qx, y + py - qy, z + pz - qz);
        let e = self.void_level(x + px, y + py, z + pz);
        let f = self.void_level(x + px + qx, y + py + qy, z + pz + qz);
        let g = self.void_level(x + qx, y + qy, z + qz);
        let h = self.void_level(x - px + qx, y - py + qy, z - pz + qz);
        let r = [a + b + c, g + h + a, e + f + g, c + d + e];
        assert forall|k: int| 0 <= k < 4 implies #[trigger] r[k] as int == ao_corner(
            self@,
            x as int,
            y as int,
            z as int,
            plane as int,
            k,
        ) by {
            if k == 0 {
                assert(r[k] == a + b + c);
            } else if k == 1 {
                assert(r[k] == g + h + a);
            } else if k == 2 {
                assert(r[k] == e + f + g);
            } else {
                assert(r[k] == c + d + e);
            }
        }
        r
    }
}

impl World {
    /// The mesh of chunk `ci`: for every solid voxel, in storage order, a quad
    /// for each of its five faces (top, +X, −X, +Z, −Z) that faces a void cell,
    /// with per-corner occlusion levels. The quad whose first vertex is vertex
    /// number `sel` of the mesh has its selection bit set. An empty chunk has
    /// an empty mesh.
    pub fn build_mesh(&self, ci: usize, sel: Option<usize>) -> (r: Vec<ChunkVertexPacked>)
        requires
            self.wf(),
            ci < WORLD_VOL,
        ensures
            r@ == mesh_spec(self@, ci as int, sel),
    {
        if self.chunk_is_empty(ci) {
            proof {
                lemma_empty_chunk_mesh(self@, ci as int, CHUNK_VOL as nat, sel);
            }
            return Vec::new();
        }
        let mut vertex_data = vec![ChunkVertexPacked::pack_data(0, 0, 0, 0, 0, 0, 0); MAX_MESH_LEN];
        let mut index: usize = 0;
        let (cx, cy, cz) = chunk_position(ci);
        let (ox, oy, oz) = ((cx * CHUNK_SIZE) as i64, (cy * CHUNK_SIZE) as i64, (cz * CHUNK_SIZE) as i64);
        let mut vi: usize = 0;
        while vi < CHUNK_VOL
            invariant
                self.wf(),
                ci < WORLD_VOL,
                vi <= CHUNK_VOL,
                (ox as int, oy as int, oz as int) == (
                    chunk_coords(ci as int).0 * CHUNK_SIZE,
                    chunk_coords(ci as int).1 * CHUNK_SIZE,
                    chunk_coords(ci as int).2 * CHUNK_SIZE,
                ),
                0 <= ox < 160 && 0 <= oy < 64 && 0 <= oz < 160,
                vertex_data.len() == MAX_MESH_LEN,
                index == mesh_upto(self@, ci as int, vi as nat, sel).len(),
                index <= 30 * vi,
                vertex_data@.subrange(0, index as int) == mesh_upto(self@, ci as int, vi as nat, sel),
            decreases CHUNK_VOL - vi,
        {
            let id = self.voxel_at(ci, vi);
            if id != 0 {
                let lx = vi % CHUNK_SIZE;
                let ly = vi / CHUNK_AREA;
                let lz = (vi / CHUNK_SIZE) % CHUNK_SIZE;
                let (wx, wy, wz) = (ox + lx as i64, oy + ly as i64, oz + lz as i64);
                let ghost start = index as int;
                let ghost before = mesh_upto(self@, ci as int, vi as nat, sel);
                let mut k: usize = 0;
                while k < FACE_COUNT
                    invariant
                        self.wf(),
                        ci < WORLD_VOL,
                        vi < CHUNK_VOL,
                        k <= FACE_COUNT,
                        id == self@[ci as int][vi as int],
                        id != 0,
                        (lx as int, ly as int, lz as int) == local_coords(vi as int),
                        lx < 32 && ly < 32 && lz < 32,
                        (wx as int, wy as int, wz as int) == offset_coords(ci as int, vi as int, (0, 0, 0)),
                        0 <= wx < 160 && 0 <= wy < 64 && 0 <= wz < 160,
                        vertex_data.len() == MAX_MESH_LEN,
                        start + 30 <= MAX_MESH_LEN,
                        before.len() == start,
                        index == start + faces_spec(self@, ci as int, vi as int, k as nat, start, sel).len(),
                        index <= start + 6 * k,
                        vertex_data@.subrange(0, index as int) == before + faces_spec(
                            self@,
                            ci as int,
                            vi as int,
                            k as nat,
                            start,
                            sel,
                        ),
                    decreases FACE_COUNT - k,
                {
                    proof {
                        lemma_faces_len(self@, ci as int, vi as int, k as nat, start, sel);
                    }
                    let (dx, dy, dz) = normal_of(k);
                    let (nx, ny, nz) = (wx + dx, wy + dy, wz + dz);
                    if self.voxel_is_void(nx, ny, nz) {
                        let plane = plane_of(k);
                        let ao = self.get_ao(nx, ny, nz, plane);
                        let select: u8 = match sel {
                            Some(t) => if t == index {
                                1
                            } else {
                                0
                            },
                            None => 0,
                        };
                        let quad = face_quad(lx as u8, ly as u8, lz as u8, id, k, ao, select);
                        let ghost prev = vertex_data@;
                        let ghost old_index = index as int;
                        Chunk::add_vertex(&mut vertex_data, &quad, &mut index);
                        proof {
                            let fs = faces_spec(self@, ci as int, vi as int, k as nat, start, sel);
                            let q = quad_spec(self@, ci as int, vi as int, k as int, select);
                            assert(select == select_bit(sel, start + fs.len()));
                            assert forall|i: int| 0 <= i < 6 implies #[trigger] pack_quad(quad@)[i] == q[i] by {
                                let c = winding(k as int, i);
                                assert(0 <= c < 4);
                            }
                            assert(pack_quad(quad@) =~= q);
                            assert(vertex_data@.subrange(0, index as int) =~= prev.subrange(0, old_index)
                                + q);
                        }
                    }
                    k += 1;
                }
            }
            vi += 1;
        }
        vertex_data.truncate(index);
        assert(vertex_data@ =~= mesh_upto(self@, ci as int, CHUNK_VOL as nat, sel));
        vertex_data
    }
}

impl World {
    /// Number of vertices that the mesh of chunk `ci` holds before those of
    /// voxel `vi`: the mesh vertex at which the quads of `vi` start.
    pub fn vertex_offset(&self, ci: usize, vi: usize) -> (r: usize)
        requires
            self.wf(),
            ci < WORLD_VOL,
            vi < CHUNK_VOL,
        ensures
            r == mesh_upto(self@, ci as int, vi as nat, None).len(),
    {
        let (cx, cy, cz) = chunk_position(ci);
        let (ox, oy, oz) = ((cx * CHUNK_SIZE) as i64, (cy * CHUNK_SIZE) as i64, (cz * CHUNK_SIZE) as i64);
        let mut count: usize = 0;
        let mut j: usize = 0;
        while j < vi
            invariant
                self.wf(),
                ci < WORLD_VOL,
                j <= vi < CHUNK_VOL,
                (ox as int, oy as int, oz as int) == (
                    chunk_coords(ci as int).0 * CHUNK_SIZE,
                    chunk_coords(ci as int).1 * CHUNK_SIZE,
                    chunk_coords(ci as int).2 * CHUNK_SIZE,
                ),
                0 <= ox < 160 && 0 <= oy < 64 && 0 <= oz < 160,
                count == mesh_upto(self@, ci as int, j as nat, None).len(),
                count <= 30 * j,
            decreases vi - j,
        {
            if self.voxel_at(ci, j) != 0 {
                let lx = j % CHUNK_SIZE;
                let ly = j / CHUNK_AREA;
                let lz = (j / CHUNK_SIZE) % CHUNK_SIZE;
                let (wx, wy, wz) = (ox + lx as i64, oy + ly as i64, oz + lz as i64);
                let ghost start = count as int;
                proof {
                    lemma_faces_len(self@, ci as int, j as int, FACE_COUNT as nat, start, None);
                }
                let mut k: usize = 0;
                while k < FACE_COUNT
                    invariant
                        self.wf(),
                        ci < WORLD_VOL,
                        j < CHUNK_VOL,
                        k <= FACE_COUNT,
                        (wx as int, wy as int, wz as int) == offset_coords(ci as int, j as int, (0, 0, 0)),
                        0 <= wx < 160 && 0 <= wy < 64 && 0 <= wz < 160,
                        start <= 30 * j,
                        count == start + 6 * visible_faces(self@, ci as int, j as int, k as nat),
                        visible_faces(self@, ci as int, j as int, k as nat) <= k,
                    decreases FACE_COUNT - k,
                {
                    let (dx, dy, dz) = normal_of(k);
                    if self.voxel_is_void(wx + dx, wy + dy, wz + dz) {
                        count += 6;
                    }
                    k += 1;
                }
            }
            j += 1;
        }
        count
    }
}

/// The packed forms of the vertices of a quad.
pub open spec fn pack_quad(quad: Seq<[u8; 7]>) -> Seq<ChunkVertexPacked> {
    quad.map_values(|v: [u8; 7]| crate::chunk::pack_vertex(v))
}

/// Face id field of a packed vertex word.
pub open spec fn face_field(word: u32) -> int {
    (word as int / 8) % 8
}

proof fn lemma_vertex_face(w: Seq<Seq<u8>>, ci: int, vi: int, k: int, c: int, select: u8)
    requires
        0 <= vi < CHUNK_VOL,
        0 <= k < FACE_COUNT,
        0 <= c < 4,
        select < 2,
    ensures
        face_field(vertex_word(w, ci, vi, k, c, select)) == face_id(k),
{
    let (lx, ly, lz) = local_coords(vi);
    let (dx, dy, dz) = face_corner(k, c);
    let (nx, ny, nz) = offset_coords(ci, vi, face_normal(k));
    lemma_ao_bounds(w, nx, ny, nz, face_plane(k), c);
    let ao = ao_corner(w, nx, ny, nz, face_plane(k), c);
    let hi = (lx + dx) * 0x80_0000 + (ly + dy) * 0x2_0000 + (lz + dz) * 0x800 + w[ci][vi] as int * 8;
    let low = ao * 2 + select as int;
    let f = face_id(k) as int;
    assert(0 <= low < 8);
    assert(0 <= hi && hi <= 33 * 0x80_0000 + 33 * 0x2_0000 + 33 * 0x800 + 255 * 8);
    assert((8 * (hi + f) + low) / 8 == hi + f);
    assert((hi + f) % 8 == f);
}

proof fn lemma_faces_face_ids(w: Seq<Seq<u8>>, ci: int, vi: int, k: nat, start: int, sel: Option<usize>)
    requires
        0 <= vi < CHUNK_VOL,
        k <= FACE_COUNT,
    ensures
        forall|i: int|
            0 <= i < faces_spec(w, ci, vi, k, start, sel).len() ==> face_field(
                #[trigger] faces_spec(w, ci, vi, k, start, sel)[i].data,
            ) != BOTTOM_FACE_ID,
    decreases k,
{
    if k > 0 {
        let prev = faces_spec(w, ci, vi, (k - 1) as nat, start, sel);
        lemma_faces_face_ids(w, ci, vi, (k - 1) as nat, start, sel);
        let all = faces_spec(w, ci, vi, k, start, sel);
        assert forall|i: int| 0 <= i < all.len() implies face_field(#[trigger] all[i].data) != BOTTOM_FACE_ID by {
            if i >= prev.len() {
                let select = select_bit(sel, start + prev.len());
                let j = i - prev.len();
                assert(0 <= winding(k - 1, j) < 4);
                lemma_vertex_face(w, ci, vi, k - 1, winding(k - 1, j), select);
            }
        }
    }
}

/// No vertex of any chunk mesh carries the bottom face id: a voxel shows at
/// most the five faces top, +X, −X, +Z and −Z.
pub proof fn lemma_mesh_never_bottom(w: Seq<Seq<u8>>, ci: int, n: nat, sel: Option<usize>)
    requires
        n <= CHUNK_VOL,
    ensures
        forall|i: int|
            0 <= i < mesh_upto(w, ci, n, sel).len() ==> face_field(
                #[trigger] mesh_upto(w, ci, n, sel)[i].data,
            ) != BOTTOM_FACE_ID,
    decreases n,
{
    if n > 0 {
        let prev = mesh_upto(w, ci, (n - 1) as nat, sel);
        lemma_mesh_never_bottom(w, ci, (n - 1) as nat, sel);
        lemma_faces_face_ids(w, ci, n - 1, FACE_COUNT as nat, prev.len() as int, sel);
    }
}

/// A solid voxel whose six neighbours are all void emits exactly five quads
/// (30 vertices), one per face top, +X, −X, +Z, −Z, and none for the bottom.
pub proof fn lemma_isolated_voxel(w: Seq<Seq<u8>>, ci: int, vi: int, start: int, sel: Option<usize>)
    requires
        0 <= vi < CHUNK_VOL,
        forall|d: (int, int, int)|
            #![trigger offset_coords(ci, vi, d)]
            (d == (1int, 0int, 0int) || d == (-1int, 0int, 0int) || d == (0int, 1int, 0int) || d == (
                0int,
                -1int,
                0int,
            ) || d == (0int, 0int, 1int) || d == (0int, 0int, -1int)) ==> {
                let (x, y, z) = offset_coords(ci, vi, d);
                is_void(w, x, y, z)
            },
    ensures
        faces_spec(w, ci, vi, FACE_COUNT as nat, start, sel).len() == 30,
        forall|i: int|
            0 <= i < 30 ==> face_field(
                #[trigger] faces_spec(w, ci, vi, FACE_COUNT as nat, start, sel)[i].data,
            ) != BOTTOM_FACE_ID,
{
    assert(face_visible(w, ci, vi, 0)) by {
        let _ = offset_coords(ci, vi, (0int, 1int, 0int));
    }
    assert(face_visible(w, ci, vi, 1)) by {
        let _ = offset_coords(ci, vi, (1int, 0int, 0int));
    }
    assert(face_visible(w, ci, vi, 2)) by {
        let _ = offset_coords(ci, vi, (-1int, 0int, 0int));
    }
    assert(face_visible(w, ci, vi, 3)) by {
        let _ = offset_coords(ci, vi, (0int, 0int, 1int));
    }
    assert(face_visible(w, ci, vi, 4)) by {
        let _ = offset_coords(ci, vi, (0int, 0int, -1int));
    }
    lemma_faces_len(w, ci, vi, FACE_COUNT as nat, start, sel);
    assert(visible_faces(w, ci, vi, 5) == 5) by {
        reveal_with_fuel(visible_faces, 6);
    }
    lemma_faces_face_ids(w, ci, vi, FACE_COUNT as nat, start, sel);
}

/// Selection bit of a packed vertex word.
pub open spec fn select_field(word: u32) -> int {
    word as int % 2
}

proof fn lemma_vertex_select(w: Seq<Seq<u8>>, ci: int, vi: int, k: int, c: int, select: u8)
    requires
        0 <= vi < CHUNK_VOL,
        0 <= k < FACE_COUNT,
        0 <= c < 4,
        select < 2,
    ensures
        select_field(vertex_word(w, ci, vi, k, c, select)) == select,
{
    let (lx, ly, lz) = local_coords(vi);
    let (dx, dy, dz) = face_corner(k, c);
    let (nx, ny, nz) = offset_coords(ci, vi, face_normal(k));
    lemma_ao_bounds(w, nx, ny, nz, face_plane(k), c);
    let ao = ao_corner(w, nx, ny, nz, face_plane(k), c);
    let hi = (lx + dx) * 0x200_0000 + (ly + dy) * 0x8_0000 + (lz + dz) * 0x2000 + w[ci][vi] as int * 0x20
        + face_id(k) as int * 4 + ao;
    assert(0 <= hi && hi <= 33 * 0x200_0000 + 33 * 0x8_0000 + 33 * 0x2000 + 255 * 0x20 + 5 * 4 + 3);
    assert((2 * hi + select as int) % 2 == select as int);
}

/// Quad number `j` of the faces of a voxel carries the selection bit of the
/// mesh vertex it starts at.
proof fn lemma_faces_select(w: Seq<Seq<u8>>, ci: int, vi: int, k: nat, start: int, sel: Option<usize>)
    requires
        0 <= vi < CHUNK_VOL,
        k <= FACE_COUNT,
    ensures
        faces_spec(w, ci, vi, k, start, sel).len() % 6 == 0,
        forall|i: int|
            0 <= i < faces_spec(w, ci, vi, k, start, sel).len() ==> select_field(
                #[trigger] faces_spec(w, ci, vi, k, start, sel)[i].data,
            ) == select_bit(sel, start + 6 * (i / 6)),
    decreases k,
{
    if k > 0 {
        let prev = faces_spec(w, ci, vi, (k - 1) as nat, start, sel);
        lemma_faces_select(w, ci, vi, (k - 1) as nat, start, sel);
        let all = faces_spec(w, ci, vi, k, start, sel);
        assert forall|i: int| 0 <= i < all.len() implies select_field(#[trigger] all[i].data) == select_bit(
            sel,
            start + 6 * (i / 6),
        ) by {
            if i >= prev.len() {
                let j = i - prev.len();
                let q = prev.len() / 6;
                assert(prev.len() == 6 * q);
                assert(0 <= j < 6);
                assert(i / 6 == q);
                assert(0 <= winding(k - 1, j) < 4);
                lemma_vertex_select(w, ci, vi, k - 1, winding(k - 1, j), select_bit(sel, start + prev.len()));
            }
        }
    }
}

/// Every quad of a mesh carries the selection bit of the mesh vertex it starts at.
proof fn lemma_mesh_select(w: Seq<Seq<u8>>, ci: int, n: nat, sel: Option<usize>)
    requires
        n <= CHUNK_VOL,
    ensures
        mesh_upto(w, ci, n, sel).len() % 6 == 0,
        forall|i: int|
            0 <= i < mesh_upto(w, ci, n, sel).len() ==> select_field(
                #[trigger] mesh_upto(w, ci, n, sel)[i].data,
            ) == select_bit(sel, 6 * (i / 6)),
    decreases n,
{
    if n > 0 {
        let prev = mesh_upto(w, ci, (n - 1) as nat, sel);
        lemma_mesh_select(w, ci, (n - 1) as nat, sel);
        if w[ci][n - 1] != 0 {
            let p = prev.len() as int;
            lemma_faces_select(w, ci, n - 1, FACE_COUNT as nat, p, sel);
            let all = mesh_upto(w, ci, n, sel);
            let fs = faces_spec(w, ci, n - 1, FACE_COUNT as nat, p, sel);
            assert forall|i: int| 0 <= i < all.len() implies select_field(#[trigger] all[i].data)
                == select_bit(sel, 6 * (i / 6)) by {
                if i >= p {
                    let j = i - p;
                    let q = p / 6;
                    assert(p == 6 * q);
                    assert(all[i] == fs[j]);
                    assert(i / 6 == q + j / 6);
                }
            }
        }
    }
}

/// The length of a mesh does not depend on which quad is selected.
proof fn lemma_mesh_len_any_sel(w: Seq<Seq<u8>>, ci: int, n: nat, s1: Option<usize>, s2: Option<usize>)
    ensures
        mesh_upto(w, ci, n, s1).len() == mesh_upto(w, ci, n, s2).len(),
    decreases n,
{
    if n > 0 {
        lemma_mesh_len_any_sel(w, ci, (n - 1) as nat, s1, s2);
        let p1 = mesh_upto(w, ci, (n - 1) as nat, s1).len() as int;
        let p2 = mesh_upto(w, ci, (n - 1) as nat, s2).len() as int;
        lemma_faces_len(w, ci, n - 1, FACE_COUNT as nat, p1, s1);
        lemma_faces_len(w, ci, n - 1, FACE_COUNT as nat, p2, s2);
    }
}

/// A mesh only grows as more voxels are taken in; a solid voxel with a
/// visible face adds at least one quad.
proof fn lemma_mesh_grows(w: Seq<Seq<u8>>, ci: int, n: nat, m: nat, sel: Option<usize>)
    requires
        n <= m,
    ensures
        mesh_upto(w, ci, n, sel).len() <= mesh_upto(w, ci, m, sel).len(),
        n < m && w[ci][n as int] != 0 && (exists|k: int| 0 <= k < FACE_COUNT && face_visible(w, ci, n as int, k))
            ==> mesh_upto(w, ci, n, sel).len() + 6 <= mesh_upto(w, ci, m, sel).len(),
    decreases m - n,
{
    if n < m {
        lemma_mesh_grows(w, ci, n + 1, m, sel);
        let p = mesh_upto(w, ci, n, sel).len() as int;
        lemma_faces_len(w, ci, n as int, FACE_COUNT as nat, p, sel);
        assert(mesh_upto(w, ci, n + 1, sel) == if w[ci][n as int] == 0 {
            mesh_upto(w, ci, n, sel)
        } else {
            mesh_upto(w, ci, n, sel) + faces_spec(w, ci, n as int, FACE_COUNT as nat, p, sel)
        });
        if w[ci][n as int] != 0 && exists|k: int| 0 <= k < FACE_COUNT && face_visible(w, ci, n as int, k) {
            let k = choose|k: int| 0 <= k < FACE_COUNT && face_visible(w, ci, n as int, k);
            lemma_visible_counted(w, ci, n as int, FACE_COUNT as nat, k);
            assert(mesh_upto(w, ci, n + 1, sel).len() >= p + 6);
        }
    }
}

proof fn lemma_visible_counted(w: Seq<Seq<u8>>, ci: int, vi: int, k: nat, f: int)
    requires
        0 <= f < k,
        face_visible(w, ci, vi, f),
    ensures
        visible_faces(w, ci, vi, k) >= 1,
    decreases k,
{
    if f < k - 1 {
        lemma_visible_counted(w, ci, vi, (k - 1) as nat, f);
    }
}

/// Building a mesh with the selection set to the vertex at which a solid
/// voxel's quads start highlights exactly one quad: the first quad of that
/// voxel, which shows at least one face.
pub proof fn lemma_highlight_quad(w: Seq<Seq<u8>>, ci: int, vi: int)
    requires
        0 <= vi < CHUNK_VOL,
        w[ci][vi] != 0,
        exists|k: int| 0 <= k < FACE_COUNT && face_visible(w, ci, vi, k),
    ensures
        ({
            let off = mesh_upto(w, ci, vi as nat, None).len();
            let m = mesh_spec(w, ci, Some(off as usize));
            &&& off + 6 <= m.len()
            &&& forall|i: int| 0 <= i < m.len() ==> (select_field(#[trigger] m[i].data) == 1 <==> off <= i < off + 6)
        }),
{
    let off = mesh_upto(w, ci, vi as nat, None).len();
    let sel = Some(off as usize);
    lemma_mesh_len(w, ci, vi as nat, None);
    assert(off <= 30 * CHUNK_VOL);
    lemma_mesh_len_any_sel(w, ci, vi as nat, None, sel);
    lemma_mesh_grows(w, ci, vi as nat, CHUNK_VOL as nat, sel);
    lemma_mesh_select(w, ci, vi as nat, None);
    lemma_mesh_select(w, ci, CHUNK_VOL as nat, sel);
    let m = mesh_spec(w, ci, sel);
    assert(off % 6 == 0);
    assert(sel.unwrap() as int == off);
    assert(off + 6 <= m.len());
    assert forall|i: int| 0 <= i < m.len() implies (select_field(#[trigger] m[i].data) == 1 <==> off <= i < off
        + 6) by {
        assert(select_field(m[i].data) == select_bit(sel, 6 * (i / 6)));
        let q = off / 6;
        assert(off == 6 * q);
        if off <= i < off + 6 {
            assert(i / 6 == q);
        } else if i < off {
            assert(i / 6 < q);
        } else {
            assert(i / 6 > q);
        }
    }
}

} // verus!
