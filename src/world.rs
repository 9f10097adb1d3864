//! The world: a grid of chunks addressed by world coordinate, where any
//! coordinate outside the grid reads as empty.
use vstd::prelude::*;

use crate::chunk::{all_zero, terrain_chunk, terrain_voxel, Chunk};
use crate::grid::{
    chunk_coords, chunk_index_of, chunk_position, in_world, index_of, lemma_index_bijection,
    lemma_split_join,
    voxel_index_of, CHUNK_AREA, CHUNK_SIZE, CHUNK_VOL, WORLD_D, WORLD_VOL, WORLD_W, WORLD_X, WORLD_Z,
};

verus! {

/// Id of the voxel at world coordinate `(x, y, z)` of the world `w` (indexed by
/// chunk, then voxel); empty outside the world.
pub open spec fn voxel_spec(w: Seq<Seq<u8>>, x: int, y: int, z: int) -> u8 {
    if in_world(x, y, z) {
        w[chunk_index_of(x, y, z)][voxel_index_of(x, y, z)]
    } else {
        0
    }
}

/// The world `w` with the voxel at `(x, y, z)` set to `v`; unchanged outside the world.
pub open spec fn set_spec(w: Seq<Seq<u8>>, x: int, y: int, z: int, v: u8) -> Seq<Seq<u8>> {
    if in_world(x, y, z) {
        let ci = chunk_index_of(x, y, z);
        w.update(ci, w[ci].update(voxel_index_of(x, y, z), v))
    } else {
        w
    }
}

/// `w` has `WORLD_VOL` chunks of `CHUNK_VOL` voxels each.
pub open spec fn world_shape(w: Seq<Seq<u8>>) -> bool {
    &&& w.len() == WORLD_VOL
    &&& forall|i: int| 0 <= i < WORLD_VOL ==> #[trigger] w[i].len() == CHUNK_VOL
}

/// Terrain height of world column `(x, z)` in a height map of `WORLD_X × WORLD_Z`
/// columns indexed `x + WORLD_X·z`.
pub open spec fn column_height(heights: Seq<u32>, x: int, z: int) -> int {
    heights[x + WORLD_X * z] as int
}

/// Setting a voxel and reading it back gives the value set; every other
/// coordinate reads as before.
pub proof fn lemma_set_get(w: Seq<Seq<u8>>, x: int, y: int, z: int, v: u8, qx: int, qy: int, qz: int)
    requires
        world_shape(w),
        in_world(x, y, z),
    ensures
        voxel_spec(set_spec(w, x, y, z, v), x, y, z) == v,
        (qx, qy, qz) != (x, y, z) ==> voxel_spec(set_spec(w, x, y, z, v), qx, qy, qz) == voxel_spec(
            w,
            qx,
            qy,
            qz,
        ),
{
    lemma_index_bijection(x, y, z, 0, 0);
    lemma_index_bijection(qx, qy, qz, 0, 0);
}

/// The voxel world: `WORLD_VOL` chunks, flat-indexed `cx + W·cz + W·D·cy`.
pub struct World {
    chunks: Vec<Chunk>,
}

impl View for World {
    type V = Seq<Seq<u8>>;

    closed spec fn view(&self) -> Seq<Seq<u8>> {
        self.chunks@.map_values(|c: Chunk| c@)
    }
}

impl World {
    /// Every chunk is well formed.
    pub closed spec fn chunks_wf(&self) -> bool {
        &&& self.chunks.len() == WORLD_VOL
        &&& forall|i: int| 0 <= i < WORLD_VOL ==> #[trigger] self.chunks@[i].wf()
    }

    /// The world has its full shape and every chunk's emptiness flag is exact.
    pub open spec fn wf(&self) -> bool {
        &&& world_shape(self@)
        &&& self.chunks_wf()
    }

    proof fn lemma_view(&self)
        ensures
            self@.len() == self.chunks.len(),
            forall|i: int| 0 <= i < self.chunks.len() ==> #[trigger] self@[i] == self.chunks@[i]@,
    {
    }

    /// A world whose voxels are all empty.
    pub fn new() -> (r: World)
        ensures
            r.wf(),
            forall|ci: int, vi: int|
                0 <= ci < WORLD_VOL && 0 <= vi < CHUNK_VOL ==> #[trigger] r@[ci][vi] == 0,
    {
        let mut chunks: Vec<Chunk> = Vec::new();
        let mut i: usize = 0;
        while i < WORLD_VOL
            invariant
                i <= WORLD_VOL,
                chunks.len() == i,
                forall|j: int| 0 <= j < i ==> (#[trigger] chunks@[j]).wf() && all_zero(chunks@[j]@),
            decreases WORLD_VOL - i,
        {
            let c = Chunk::new();
            proof {
                assert(all_zero(c@));
            }
            chunks.push(c);
            i += 1;
        }
        let r = World { chunks };
        proof {
            r.lemma_view();
        }
        assert forall|ci: int, vi: int|
            0 <= ci < WORLD_VOL && 0 <= vi < CHUNK_VOL implies #[trigger] r@[ci][vi] == 0 by {
            assert(all_zero(r.chunks@[ci]@));
        }
        r
    }

    /// Id of voxel `vi` of chunk `ci`.
    pub fn voxel_at(&self, ci: usize, vi: usize) -> (r: u8)
        requires
            self.wf(),
            ci < WORLD_VOL,
            vi < CHUNK_VOL,
        ensures
            r == self@[ci as int][vi as int],
    {
        self.chunks[ci].voxel(vi)
    }

    /// Whether every voxel of chunk `ci` is empty.
    pub fn chunk_is_empty(&self, ci: usize) -> (r: bool)
        requires
            self.wf(),
            ci < WORLD_VOL,
        ensures
            r == all_zero(self@[ci as int]),
    {
        self.chunks[ci].is_empty()
    }

    /// Sets voxel `vi` of chunk `ci` to `id`.
    pub fn set_at(&mut self, ci: usize, vi: usize, id: u8)
        requires
            old(self).wf(),
            ci < WORLD_VOL,
            vi < CHUNK_VOL,
        ensures
            final(self).wf(),
            final(self)@ == old(self)@.update(ci as int, old(self)@[ci as int].update(vi as int, id)),
    {
        let ghost before = self.chunks@;
        self.chunks[ci].set_voxel(vi, id);
        proof {
            self.lemma_view();
            assert forall|i: int| 0 <= i < WORLD_VOL implies #[trigger] self.chunks@[i].wf() by {
                if i != ci {
                    assert(self.chunks@[i] == before[i]);
                }
            }
            assert(self@ =~= old(self)@.update(ci as int, old(self)@[ci as int].update(vi as int, id)));
        }
    }

    /// Id of the voxel at world coordinate `(x, y, z)`; empty outside the world.
    pub fn get(&self, x: i64, y: i64, z: i64) -> (r: u8)
        requires
            self.wf(),
        ensures
            r == voxel_spec(self@, x as int, y as int, z as int),
    {
        match index_of(x, y, z) {
            Some((ci, vi)) => self.voxel_at(ci, vi),
            None => 0,
        }
    }

    /// Sets the voxel at world coordinate `(x, y, z)` to `id`; does nothing
    /// outside the world.
    pub fn set(&mut self, x: i64, y: i64, z: i64, id: u8)
        requires
            old(self).wf(),
        ensures
            final(self).wf(),
            final(self)@ == set_spec(old(self)@, x as int, y as int, z as int, id),
    {
        match index_of(x, y, z) {
            Some((ci, vi)) => self.set_at(ci, vi, id),
            None => {},
        }
    }

    /// Fills every chunk with terrain from a height map of `WORLD_X × WORLD_Z`
    /// columns indexed `x + WORLD_X·z`: each voxel below its column's height is
    /// solid, the top one with the surface id.
    pub fn build_chunk(&mut self, heights: &Vec<u32>)
        requires
            old(self).wf(),
            heights.len() == WORLD_X * WORLD_Z,
        ensures
            final(self).wf(),
            forall|x: int, y: int, z: int|
                in_world(x, y, z) ==> #[trigger] voxel_spec(final(self)@, x, y, z) == terrain_voxel(
                    column_height(heights@, x, z),
                    y,
                ),
    {
        let mut ci: usize = 0;
        while ci < WORLD_VOL
            invariant
                ci <= WORLD_VOL,
                self.wf(),
                heights.len() == WORLD_X * WORLD_Z,
                forall|j: int|
                    0 <= j < ci ==> #[trigger] self@[j] == terrain_chunk(
                        chunk_coords(j).1,
                        chunk_columns(heights@, j),
                    ),
            decreases WORLD_VOL - ci,
        {
            let (cx, cy, cz) = chunk_position(ci);
            let columns = World::columns_of(heights, cx, cz);
            let ghost before = self@;
            self.chunks[ci].build_voxels(cy, &columns);
            proof {
                self.lemma_view();
                assert forall|i: int| 0 <= i < WORLD_VOL implies #[trigger] self.chunks@[i].wf() by {
                    if i != ci {
                        assert(self@[i] == before[i]);
                    }
                }
                assert forall|i: int| 0 <= i < WORLD_VOL implies #[trigger] self@[i].len() == CHUNK_VOL by {
                    assert(self.chunks@[i].wf());
                }
                assert(columns@ =~= chunk_columns(heights@, ci as int));
                assert forall|j: int| 0 <= j < ci + 1 implies #[trigger] self@[j] == terrain_chunk(
                    chunk_coords(j).1,
                    chunk_columns(heights@, j),
                ) by {
                    if j < ci {
                        assert(self@[j] == before[j]);
                    }
                }
            }
            ci += 1;
        }
        assert forall|x: int, y: int, z: int| in_world(x, y, z) implies #[trigger] voxel_spec(
            self@,
            x,
            y,
            z,
        ) == terrain_voxel(column_height(heights@, x, z), y) by {
            lemma_terrain_at(heights@, x, y, z);
        }
    }

    /// The column heights of chunk column `(cx, cz)`, indexed `x + S·z`.
    fn columns_of(heights: &Vec<u32>, cx: usize, cz: usize) -> (r: Vec<u32>)
        requires
            heights.len() == WORLD_X * WORLD_Z,
            cx < WORLD_W,
            cz < WORLD_D,
        ensures
            r.len() == CHUNK_AREA,
            forall|i: int|
                0 <= i < CHUNK_AREA ==> #[trigger] r@[i] == heights@[(cx * CHUNK_SIZE + i
                    % CHUNK_SIZE as int) + WORLD_X * (cz * CHUNK_SIZE + i / CHUNK_SIZE as int)],
    {
        let mut r: Vec<u32> = Vec::new();
        let mut i: usize = 0;
        while i < CHUNK_AREA
            invariant
                i <= CHUNK_AREA,
                r.len() == i,
                heights.len() == WORLD_X * WORLD_Z,
                cx < WORLD_W,
                cz < WORLD_D,
                forall|j: int|
                    0 <= j < i ==> #[trigger] r@[j] == heights@[(cx * CHUNK_SIZE + j
                        % CHUNK_SIZE as int) + WORLD_X * (cz * CHUNK_SIZE + j / CHUNK_SIZE as int)],
            decreases CHUNK_AREA - i,
        {
            let x = cx * CHUNK_SIZE + i % CHUNK_SIZE;
            let z = cz * CHUNK_SIZE + i / CHUNK_SIZE;
            r.push(heights[x + 160 * z]);
            i += 1;
        }
        r
    }
}

/// The column heights that chunk `ci` is filled from, indexed `x + S·z`.
pub open spec fn chunk_columns(heights: Seq<u32>, ci: int) -> Seq<u32> {
    let (cx, cy, cz) = chunk_coords(ci);
    Seq::new(
        CHUNK_AREA as nat,
        |i: int|
            heights[(cx * CHUNK_SIZE + i % CHUNK_SIZE as int) + WORLD_X * (cz * CHUNK_SIZE + i
                / CHUNK_SIZE as int)],
    )
}

proof fn lemma_terrain_at(heights: Seq<u32>, x: int, y: int, z: int)
    requires
        in_world(x, y, z),
    ensures
        ({
            let ci = chunk_index_of(x, y, z);
            terrain_chunk(chunk_coords(ci).1, chunk_columns(heights, ci))[voxel_index_of(x, y, z)]
                == terrain_voxel(column_height(heights, x, z), y)
        }),
{
    lemma_split_join(x, y, z);
    let (lx, ly, lz) = (x % 32, y % 32, z % 32);
    let col = lx + 32 * lz;
    assert(col % 32 == lx && col / 32 == lz);
    assert(x == 32 * (x / 32) + lx && y == 32 * (y / 32) + ly && z == 32 * (z / 32) + lz);
}

} // verus!
