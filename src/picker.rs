//! Resolving a pointer ray to the voxel it first meets, and the face it strikes.
//!
//! Positions along the ray are fixed-point: `UNIT` steps per voxel. A probe
//! starts at the ray's origin and moves by the ray's step, downward, until it
//! lies in a solid voxel of the world (a hit) or drops below the world (a miss).
use vstd::prelude::*;

use crate::grid::{chunk_index_of, in_world, index_of, voxel_index_of, CHUNK_VOL, WORLD_VOL};
use crate::world::{voxel_spec, World};

verus! {

/// Fixed-point steps per voxel along each axis.
pub const UNIT: i64 = 1000;

/// Largest magnitude of a ray's origin and step coordinates.
pub const RAY_LIMIT: i64 = 0x4000_0000;

/// A probe ray in fixed-point coordinates: origin `(x, y, z)` and the step
/// `(dx, dy, dz)` taken between two probes.
#[derive(Clone, Copy, Debug)]
pub struct Ray {
    pub x: i64,
    pub y: i64,
    pub z: i64,
    pub dx: i64,
    pub dy: i64,
    pub dz: i64,
}

impl Ray {
    /// The ray goes down at every step, and its coordinates are within `RAY_LIMIT`.
    pub open spec fn wf(&self) -> bool {
        &&& -RAY_LIMIT <= self.x <= RAY_LIMIT
        &&& -RAY_LIMIT <= self.y <= RAY_LIMIT
        &&& -RAY_LIMIT <= self.z <= RAY_LIMIT
        &&& -RAY_LIMIT <= self.dx <= RAY_LIMIT
        &&& -RAY_LIMIT <= self.dy < 0
        &&& -RAY_LIMIT <= self.dz <= RAY_LIMIT
    }

    /// Whether the ray is well formed.
    pub fn is_valid(&self) -> (r: bool)
        ensures
            r == self.wf(),
    {
        -RAY_LIMIT <= self.x && self.x <= RAY_LIMIT && -RAY_LIMIT <= self.y && self.y <= RAY_LIMIT
            && -RAY_LIMIT <= self.z && self.z <= RAY_LIMIT && -RAY_LIMIT <= self.dx && self.dx
            <= RAY_LIMIT && -RAY_LIMIT <= self.dy && self.dy < 0 && -RAY_LIMIT <= self.dz && self.dz
            <= RAY_LIMIT
    }
}

/// Voxel cell that holds the fixed-point coordinate `p`.
pub open spec fn cell(p: int) -> int {
    p / UNIT as int
}

/// The fixed-point point `p` lies in a solid voxel of the world `w`.
pub open spec fn hits(w: Seq<Seq<u8>>, p: (int, int, int)) -> bool {
    &&& in_world(cell(p.0), cell(p.1), cell(p.2))
    &&& voxel_spec(w, cell(p.0), cell(p.1), cell(p.2)) != 0
}

/// Probe number `k` of the ray.
pub open spec fn probe(ray: Ray, k: int) -> (int, int, int) {
    (ray.x + k * ray.dx, ray.y + k * ray.dy, ray.z + k * ray.dz)
}

/// The first probe from `p` on, moving by `d`, that hits a solid voxel before
/// dropping below the world; `None` when there is none.
pub open spec fn march_from(w: Seq<Seq<u8>>, p: (int, int, int), d: (int, int, int)) -> Option<(int, int, int)>
    decreases (if p.1 >= 0 {
        p.1 + 1
    } else {
        0
    }),
{
    if p.1 < 0 || d.1 >= 0 {
        None
    } else if hits(w, p) {
        Some(p)
    } else {
        march_from(w, (p.0 + d.0, p.1 + d.1, p.2 + d.2), d)
    }
}

/// The first probe of the ray that lies in a solid voxel of `w`.
pub open spec fn first_hit(w: Seq<Seq<u8>>, ray: Ray) -> Option<(int, int, int)> {
    march_from(w, (ray.x as int, ray.y as int, ray.z as int), (ray.dx as int, ray.dy as int, ray.dz as int))
}

/// When no probe of the ray above the bottom of the world lies in a solid
/// voxel, the ray picks nothing.
pub proof fn lemma_pick_miss(w: Seq<Seq<u8>>, ray: Ray)
    requires
        ray.wf(),
        forall|k: nat| (#[trigger] probe(ray, k as int)).1 >= 0 ==> !hits(w, probe(ray, k as int)),
    ensures
        first_hit(w, ray) is None,
{
    lemma_miss_from(w, ray, 0);
}

proof fn lemma_miss_from(w: Seq<Seq<u8>>, ray: Ray, k: nat)
    requires
        ray.wf(),
        forall|j: nat| (#[trigger] probe(ray, j as int)).1 >= 0 ==> !hits(w, probe(ray, j as int)),
    ensures
        march_from(w, probe(ray, k as int), (ray.dx as int, ray.dy as int, ray.dz as int)) is None,
    decreases (if probe(ray, k as int).1 >= 0 {
        probe(ray, k as int).1 + 1
    } else {
        0
    }),
{
    let p = probe(ray, k as int);
    lemma_probe_next(ray, k as int);
    if p.1 >= 0 {
        assert(!hits(w, p));
        lemma_miss_from(w, ray, (k + 1) as nat);
    }
}

proof fn lemma_probe_next(ray: Ray, k: int)
    ensures
        probe(ray, k + 1) == (probe(ray, k).0 + ray.dx, probe(ray, k).1 + ray.dy, probe(ray, k).2 + ray.dz),
{
    assert((k + 1) * ray.dx == k * ray.dx + ray.dx) by (nonlinear_arith);
    assert((k + 1) * ray.dy == k * ray.dy + ray.dy) by (nonlinear_arith);
    assert((k + 1) * ray.dz == k * ray.dz + ray.dz) by (nonlinear_arith);
}

proof fn lemma_step_bound(k: int, d: int)
    requires
        0 <= k <= RAY_LIMIT,
        -RAY_LIMIT <= d <= RAY_LIMIT,
    ensures
        -RAY_LIMIT * RAY_LIMIT <= k * d <= RAY_LIMIT * RAY_LIMIT,
{
    assert(-0x4000_0000 * 0x4000_0000 <= k * d <= 0x4000_0000 * 0x4000_0000) by (nonlinear_arith)
        requires
            0 <= k <= 0x4000_0000,
            -0x4000_0000 <= d <= 0x4000_0000,
    ;
}

/// A face of a voxel that a ray can strike, with its outward normal.
#[derive(Clone, Copy, Debug, PartialEq, Eq, Structural)]
pub enum Direction {
    PosY,
    NegZ,
    PosZ,
    NegX,
    PosX,
}

/// The candidate faces, in the order they are tried: top, −Z, +Z, −X, +X.
pub open spec fn candidate(j: int) -> Direction {
    if j == 0 {
        Direction::PosY
    } else if j == 1 {
        Direction::NegZ
    } else if j == 2 {
        Direction::PosZ
    } else if j == 3 {
        Direction::NegX
    } else {
        Direction::PosX
    }
}

/// Position of a face among the candidates.
pub open spec fn candidate_index(d: Direction) -> int {
    match d {
        Direction::PosY => 0,
        Direction::NegZ => 1,
        Direction::PosZ => 2,
        Direction::NegX => 3,
        Direction::PosX => 4,
    }
}

/// Outward normal of a face.
pub open spec fn normal(d: Direction) -> (int, int, int) {
    match d {
        Direction::PosY => (0, 1, 0),
        Direction::NegZ => (0, 0, -1),
        Direction::PosZ => (0, 0, 1),
        Direction::NegX => (-1, 0, 0),
        Direction::PosX => (1, 0, 0),
    }
}

/// Centre of a face of the unit cube, in fixed point relative to the cube's minimum corner.
pub open spec fn face_center(d: Direction) -> (int, int, int) {
    let h = UNIT as int / 2;
    let u = UNIT as int;
    match d {
        Direction::PosY => (h, u, h),
        Direction::NegZ => (h, h, 0),
        Direction::PosZ => (h, h, u),
        Direction::NegX => (0, h, h),
        Direction::PosX => (u, h, h),
    }
}

/// Squared distance from `f` to the centre of face `d`.
pub open spec fn dist2(f: (int, int, int), d: (int, int, int)) -> int {
    (f.0 - d.0) * (f.0 - d.0) + (f.1 - d.1) * (f.1 - d.1) + (f.2 - d.2) * (f.2 - d.2)
}

/// `d` is the face whose centre is nearest to `f`, the first such one among
/// the candidates when several are equally near.
pub open spec fn is_nearest(f: (int, int, int), d: Direction) -> bool {
    &&& forall|j: int| 0 <= j < 5 ==> dist2(f, face_center(d)) <= dist2(f, face_center(#[trigger] candidate(j)))
    &&& forall|j: int|
        0 <= j < candidate_index(d) ==> dist2(f, face_center(d)) < dist2(f, face_center(#[trigger] candidate(j)))
}

/// Offset of the fixed-point point `p` inside its voxel.
pub open spec fn fraction(p: (int, int, int)) -> (int, int, int) {
    (p.0 % UNIT as int, p.1 % UNIT as int, p.2 % UNIT as int)
}

fn candidate_exec(j: usize) -> (r: Direction)
    requires
        j < 5,
    ensures
        r == candidate(j as int),
        candidate_index(r) == j,
{
    if j == 0 {
        Direction::PosY
    } else if j == 1 {
        Direction::NegZ
    } else if j == 2 {
        Direction::PosZ
    } else if j == 3 {
        Direction::NegX
    } else {
        Direction::PosX
    }
}

fn center_exec(d: Direction) -> (r: (i64, i64, i64))
    ensures
        (r.0 as int, r.1 as int, r.2 as int) == face_center(d),
{
    match d {
        Direction::PosY => (500, 1000, 500),
        Direction::NegZ => (500, 500, 0),
        Direction::PosZ => (500, 500, 1000),
        Direction::NegX => (0, 500, 500),
        Direction::PosX => (1000, 500, 500),
    }
}

/// Outward normal of a face.
pub fn normal_exec(d: Direction) -> (r: (i64, i64, i64))
    ensures
        (r.0 as int, r.1 as int, r.2 as int) == normal(d),
{
    match d {
        Direction::PosY => (0, 1, 0),
        Direction::NegZ => (0, 0, -1),
        Direction::PosZ => (0, 0, 1),
        Direction::NegX => (-1, 0, 0),
        Direction::PosX => (1, 0, 0),
    }
}

/// Squared distance from `(fx, fy, fz)` to the centre of face `d`.
fn distance_to(fx: i64, fy: i64, fz: i64, d: Direction) -> (r: i64)
    requires
        0 <= fx < UNIT,
        0 <= fy < UNIT,
        0 <= fz < UNIT,
    ensures
        r == dist2((fx as int, fy as int, fz as int), face_center(d)),
{
    let (cx, cy, cz) = center_exec(d);
    let ex = fx - cx;
    let ey = fy - cy;
    let ez = fz - cz;
    assert(0 <= ex * ex <= 1_000_000) by (nonlinear_arith)
        requires
            -1000 <= ex <= 1000,
    ;
    assert(0 <= ey * ey <= 1_000_000) by (nonlinear_arith)
        requires
            -1000 <= ey <= 1000,
    ;
    assert(0 <= ez * ez <= 1_000_000) by (nonlinear_arith)
        requires
            -1000 <= ez <= 1000,
    ;
    ex * ex + ey * ey + ez * ez
}

/// The face of the unit cube whose centre is nearest to the offset
/// `(fx, fy, fz)` of a hit point inside its voxel; the earliest candidate
/// (top, −Z, +Z, −X, +X) wins a tie.
pub fn get_direction(fx: i64, fy: i64, fz: i64) -> (r: Direction)
    requires
        0 <= fx < UNIT,
        0 <= fy < UNIT,
        0 <= fz < UNIT,
    ensures
        is_nearest((fx as int, fy as int, fz as int), r),
{
    let ghost f = (fx as int, fy as int, fz as int);
    let mut best = Direction::PosY;
    let mut min = distance_to(fx, fy, fz, best);
    let mut j: usize = 1;
    while j < 5
        invariant
            1 <= j <= 5,
            0 <= fx < UNIT && 0 <= fy < UNIT && 0 <= fz < UNIT,
            f == (fx as int, fy as int, fz as int),
            candidate_index(best) < j,
            min == dist2(f, face_center(best)),
            forall|i: int| 0 <= i < j ==> min <= dist2(f, face_center(#[trigger] candidate(i))),
            forall|i: int| 0 <= i < candidate_index(best) ==> min < dist2(f, face_center(#[trigger] candidate(i))),
        decreases 5 - j,
    {
        let d = candidate_exec(j);
        let dist = distance_to(fx, fy, fz, d);
        if dist < min {
            min = dist;
            best = d;
        }
        j += 1;
    }
    best
}

/// A resolved pick: the voxel cell the ray met, its (chunk, voxel) indices,
/// and the face it struck.
#[derive(Clone, Copy, Debug)]
pub struct Hit {
    pub position: (i64, i64, i64),
    pub chunk_index: usize,
    pub voxel_index: usize,
    pub direction: Direction,
}

/// What a pick resolves the ray to in the world `w`.
pub open spec fn pick_spec(w: Seq<Seq<u8>>, ray: Ray, r: Option<Hit>) -> bool {
    match first_hit(w, ray) {
        None => r is None,
        Some(p) => {
            &&& r is Some
            &&& r.unwrap().position == (cell(p.0) as i64, cell(p.1) as i64, cell(p.2) as i64)
            &&& r.unwrap().chunk_index == chunk_index_of(cell(p.0), cell(p.1), cell(p.2))
            &&& r.unwrap().voxel_index == voxel_index_of(cell(p.0), cell(p.1), cell(p.2))
            &&& is_nearest(fraction(p), r.unwrap().direction)
        },
    }
}

/// The hit is in the world, with its indices naming its cell.
pub open spec fn hit_wf(h: Hit) -> bool {
    &&& in_world(h.position.0 as int, h.position.1 as int, h.position.2 as int)
    &&& h.chunk_index == chunk_index_of(h.position.0 as int, h.position.1 as int, h.position.2 as int)
    &&& h.voxel_index == voxel_index_of(h.position.0 as int, h.position.1 as int, h.position.2 as int)
    &&& h.chunk_index < WORLD_VOL
    &&& h.voxel_index < CHUNK_VOL
}

/// Marches a probe down the ray from its origin and returns the first solid
/// voxel it meets, or `None` when the probe drops below the world first.
pub fn pick(world: &World, ray: &Ray) -> (r: Option<Hit>)
    requires
        world.wf(),
        ray.wf(),
    ensures
        pick_spec(world@, *ray, r),
        r is Some ==> hit_wf(r.unwrap()),
{
    let (mut px, mut py, mut pz) = (ray.x, ray.y, ray.z);
    let ghost mut k: int = 0;
    while py >= 0
        invariant
            world.wf(),
            ray.wf(),
            0 <= k,
            (px as int, py as int, pz as int) == probe(*ray, k),
            py >= 0 ==> k <= ray.y,
            first_hit(world@, *ray) == march_from(world@, probe(*ray, k), (ray.dx as int, ray.dy as int, ray.dz as int)),
        decreases (if py >= 0 {
            py + 1
        } else {
            0
        }),
    {
        proof {
            lemma_step_bound(k, ray.dx as int);
            lemma_step_bound(k, ray.dz as int);
        }
        if 0 <= px && px < 160_000 && 0 <= py && py < 64_000 && 0 <= pz && pz < 160_000 {
            let (x, y, z) = (px / UNIT, py / UNIT, pz / UNIT);
            if world.get(x, y, z) != 0 {
                let direction = get_direction(px % UNIT, py % UNIT, pz % UNIT);
                let (ci, vi) = match index_of(x, y, z) {
                    Some(idx) => idx,
                    None => (0, 0),
                };
                return Some(Hit { position: (x, y, z), chunk_index: ci, voxel_index: vi, direction });
            }
        }
        proof {
            lemma_probe_next(*ray, k);
        }
        px = px + ray.dx;
        py = py + ray.dy;
        pz = pz + ray.dz;
        proof {
            k = k + 1;
            if py >= 0 {
                assert(k <= ray.y) by (nonlinear_arith)
                    requires
                        py == ray.y + k * ray.dy,
                        py >= 0,
                        ray.dy <= -1,
                        k >= 1,
                ;
            }
        }
    }
    None
}

} // verus!
