//! Coordinates of the voxel world: chunks of `CHUNK_SIZE³` voxels laid out in a
//! `WORLD_W × WORLD_H × WORLD_D` grid, and the flat indices used to store them.
use vstd::prelude::*;

verus! {

/// Edge length of a chunk, in voxels.
pub const CHUNK_SIZE: usize = 32;

/// Voxels in one horizontal layer of a chunk.
pub const CHUNK_AREA: usize = 1024;

/// Voxels in a chunk.
pub const CHUNK_VOL: usize = 32768;

/// Chunks along the x axis.
pub const WORLD_W: usize = 5;

/// Chunks along the y (vertical) axis.
pub const WORLD_H: usize = 2;

/// Chunks along the z axis.
pub const WORLD_D: usize = 5;

/// Chunks in one horizontal layer of the world.
pub const WORLD_AREA: usize = 25;

/// Chunks in the world.
pub const WORLD_VOL: usize = 50;

/// Extent of the world along x, in voxels.
pub const WORLD_X: i64 = 160;

/// Extent of the world along y, in voxels.
pub const WORLD_Y: i64 = 64;

/// Extent of the world along z, in voxels.
pub const WORLD_Z: i64 = 160;

/// The voxel at world coordinate `(x, y, z)` exists.
pub open spec fn in_world(x: int, y: int, z: int) -> bool {
    &&& 0 <= x < WORLD_X
    &&& 0 <= y < WORLD_Y
    &&& 0 <= z < WORLD_Z
}

/// Flat index of the chunk that holds an in-world coordinate: `cx + W·cz + W·D·cy`.
pub open spec fn chunk_index_of(x: int, y: int, z: int) -> int {
    chunk_index_at(x / CHUNK_SIZE as int, y / CHUNK_SIZE as int, z / CHUNK_SIZE as int)
}

/// Flat index of a chunk from its chunk coordinate.
pub open spec fn chunk_index_at(cx: int, cy: int, cz: int) -> int {
    cx + WORLD_W * cz + WORLD_AREA * cy
}

/// Flat index, inside its chunk, of an in-world coordinate: `lx + S·lz + S²·ly`.
pub open spec fn voxel_index_of(x: int, y: int, z: int) -> int {
    voxel_index_at(x % CHUNK_SIZE as int, y % CHUNK_SIZE as int, z % CHUNK_SIZE as int)
}

/// Flat index of a voxel from its coordinate local to the chunk.
pub open spec fn voxel_index_at(lx: int, ly: int, lz: int) -> int {
    lx + CHUNK_SIZE * lz + CHUNK_AREA * ly
}

/// Chunk coordinate `(cx, cy, cz)` of a flat chunk index.
pub open spec fn chunk_coords(ci: int) -> (int, int, int) {
    (ci % WORLD_W as int, ci / WORLD_AREA as int, (ci / WORLD_W as int) % WORLD_D as int)
}

/// Local coordinate `(lx, ly, lz)` of a flat voxel index.
pub open spec fn local_coords(vi: int) -> (int, int, int) {
    (vi % CHUNK_SIZE as int, vi / CHUNK_AREA as int, (vi / CHUNK_SIZE as int) % CHUNK_SIZE as int)
}

/// World coordinate of voxel `vi` of chunk `ci`.
pub open spec fn world_coords(ci: int, vi: int) -> (int, int, int) {
    let (cx, cy, cz) = chunk_coords(ci);
    let (lx, ly, lz) = local_coords(vi);
    (cx * CHUNK_SIZE + lx, cy * CHUNK_SIZE + ly, cz * CHUNK_SIZE + lz)
}

/// Splitting an in-world coordinate into (chunk, voxel) and joining it back gives
/// the coordinate again; every pair of valid flat indices names an in-world
/// voxel, and splitting that voxel gives the pair back.
pub proof fn lemma_index_bijection(x: int, y: int, z: int, ci: int, vi: int)
    ensures
        in_world(x, y, z) ==> {
            &&& 0 <= chunk_index_of(x, y, z) < WORLD_VOL
            &&& 0 <= voxel_index_of(x, y, z) < CHUNK_VOL
            &&& world_coords(chunk_index_of(x, y, z), voxel_index_of(x, y, z)) == (x, y, z)
        },
        0 <= ci < WORLD_VOL && 0 <= vi < CHUNK_VOL ==> {
            let (wx, wy, wz) = world_coords(ci, vi);
            &&& in_world(wx, wy, wz)
            &&& chunk_index_of(wx, wy, wz) == ci
            &&& voxel_index_of(wx, wy, wz) == vi
        },
{
    if in_world(x, y, z) {
        lemma_split_join(x, y, z);
    }
    if 0 <= ci < WORLD_VOL && 0 <= vi < CHUNK_VOL {
        lemma_join_split(ci, vi);
    }
}

/// Splitting an in-world coordinate: the chunk coordinate is the coordinate
/// divided by the chunk size, the local one the remainder.
pub proof fn lemma_split_join(x: int, y: int, z: int)
    requires
        in_world(x, y, z),
    ensures
        0 <= chunk_index_of(x, y, z) < WORLD_VOL,
        0 <= voxel_index_of(x, y, z) < CHUNK_VOL,
        chunk_coords(chunk_index_of(x, y, z)) == (x / 32, y / 32, z / 32),
        local_coords(voxel_index_of(x, y, z)) == (x % 32, y % 32, z % 32),
        world_coords(chunk_index_of(x, y, z), voxel_index_of(x, y, z)) == (x, y, z),
{
    assert(x == 32 * (x / 32) + x % 32 && 0 <= x % 32 < 32);
    assert(y == 32 * (y / 32) + y % 32 && 0 <= y % 32 < 32);
    assert(z == 32 * (z / 32) + z % 32 && 0 <= z % 32 < 32);
    lemma_chunk_coords(x / 32, y / 32, z / 32);
    lemma_local_coords(x % 32, y % 32, z % 32);
}

/// Joining a chunk coordinate into a flat index and splitting it back.
pub proof fn lemma_chunk_coords(cx: int, cy: int, cz: int)
    requires
        0 <= cx < WORLD_W,
        0 <= cy < WORLD_H,
        0 <= cz < WORLD_D,
    ensures
        0 <= chunk_index_at(cx, cy, cz) < WORLD_VOL,
        chunk_coords(chunk_index_at(cx, cy, cz)) == (cx, cy, cz),
{
    let ci = cx + 5 * cz + 25 * cy;
    assert(ci % 5 == cx && ci / 25 == cy && (ci / 5) % 5 == cz);
}

/// Joining a local coordinate into a flat index and splitting it back.
pub proof fn lemma_local_coords(lx: int, ly: int, lz: int)
    requires
        0 <= lx < CHUNK_SIZE,
        0 <= ly < CHUNK_SIZE,
        0 <= lz < CHUNK_SIZE,
    ensures
        0 <= voxel_index_at(lx, ly, lz) < CHUNK_VOL,
        local_coords(voxel_index_at(lx, ly, lz)) == (lx, ly, lz),
{
    let vi = lx + 32 * lz + 1024 * ly;
    assert(vi % 32 == lx && vi / 1024 == ly && (vi / 32) % 32 == lz);
}

proof fn lemma_join_split(ci: int, vi: int)
    requires
        0 <= ci < WORLD_VOL,
        0 <= vi < CHUNK_VOL,
    ensures
        ({
            let (wx, wy, wz) = world_coords(ci, vi);
            &&& in_world(wx, wy, wz)
            &&& chunk_index_of(wx, wy, wz) == ci
            &&& voxel_index_of(wx, wy, wz) == vi
        }),
{
    let (cx, cy, cz) = chunk_coords(ci);
    let (lx, ly, lz) = local_coords(vi);
    assert(ci == cx + 5 * cz + 25 * cy && 0 <= cx < 5 && 0 <= cz < 5 && 0 <= cy < 2);
    assert(vi == lx + 32 * lz + 1024 * ly && 0 <= lx < 32 && 0 <= lz < 32 && 0 <= ly < 32);
    let (wx, wy, wz) = (cx * 32 + lx, cy * 32 + ly, cz * 32 + lz);
    assert(wx / 32 == cx && wx % 32 == lx);
    assert(wy / 32 == cy && wy % 32 == ly);
    assert(wz / 32 == cz && wz % 32 == lz);
}

/// Splits a world coordinate into (chunk index, voxel index), or `None` when it
/// lies outside the world.
pub fn index_of(x: i64, y: i64, z: i64) -> (r: Option<(usize, usize)>)
    ensures
        r == (if in_world(x as int, y as int, z as int) {
            Some(
                (
                    chunk_index_of(x as int, y as int, z as int) as usize,
                    voxel_index_of(x as int, y as int, z as int) as usize,
                ),
            )
        } else {
            None::<(usize, usize)>
        }),
        r is Some ==> r.unwrap().0 < WORLD_VOL && r.unwrap().1 < CHUNK_VOL,
{
    if x < 0 || x >= WORLD_X || y < 0 || y >= WORLD_Y || z < 0 || z >= WORLD_Z {
        return None;
    }
    proof {
        lemma_split_join(x as int, y as int, z as int);
    }
    let (ux, uy, uz) = (x as usize, y as usize, z as usize);
    let ci = ux / CHUNK_SIZE + WORLD_W * (uz / CHUNK_SIZE) + WORLD_AREA * (uy / CHUNK_SIZE);
    let vi = ux % CHUNK_SIZE + CHUNK_SIZE * (uz % CHUNK_SIZE) + CHUNK_AREA * (uy % CHUNK_SIZE);
    Some((ci, vi))
}

/// World coordinate of voxel `vi` of chunk `ci`.
pub fn world_position(ci: usize, vi: usize) -> (r: (i64, i64, i64))
    requires
        ci < WORLD_VOL,
        vi < CHUNK_VOL,
    ensures
        (r.0 as int, r.1 as int, r.2 as int) == world_coords(ci as int, vi as int),
        in_world(r.0 as int, r.1 as int, r.2 as int),
{
    proof {
        lemma_join_split(ci as int, vi as int);
    }
    let cx = (ci % WORLD_W) as i64;
    let cy = (ci / WORLD_AREA) as i64;
    let cz = ((ci / WORLD_W) % WORLD_D) as i64;
    let lx = (vi % CHUNK_SIZE) as i64;
    let ly = (vi / CHUNK_AREA) as i64;
    let lz = ((vi / CHUNK_SIZE) % CHUNK_SIZE) as i64;
    (cx * 32 + lx, cy * 32 + ly, cz * 32 + lz)
}

/// Chunk coordinate `(cx, cy, cz)` of chunk `ci`.
pub fn chunk_position(ci: usize) -> (r: (usize, usize, usize))
    requires
        ci < WORLD_VOL,
    ensures
        (r.0 as int, r.1 as int, r.2 as int) == chunk_coords(ci as int),
        r.0 < WORLD_W && r.1 < WORLD_H && r.2 < WORLD_D,
{
    (ci % WORLD_W, ci / WORLD_AREA, (ci / WORLD_W) % WORLD_D)
}

/// Translation of the model transform of chunk `ci`, in half chunks: the
/// chunk coordinate minus the centre of the world's floor, `(W/2, H, D/2)`.
pub fn chunk_translation_halves(ci: usize) -> (r: (i64, i64, i64))
    requires
        ci < WORLD_VOL,
    ensures
        r.0 == 2 * chunk_coords(ci as int).0 - WORLD_W,
        r.1 == 2 * chunk_coords(ci as int).1 - 2 * WORLD_H,
        r.2 == 2 * chunk_coords(ci as int).2 - WORLD_D,
{
    let (cx, cy, cz) = chunk_position(ci);
    (2 * cx as i64 - WORLD_W as i64, 2 * cy as i64 - 2 * WORLD_H as i64, 2 * cz as i64 - WORLD_D as i64)
}

} // verus!
