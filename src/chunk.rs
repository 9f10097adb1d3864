//! A chunk of voxels with its emptiness flag, terrain filling, and the packed
//! vertex word that meshes are made of.
use vstd::prelude::*;

use crate::grid::{CHUNK_AREA, CHUNK_SIZE, CHUNK_VOL, WORLD_H};

verus! {

/// Type id of the topmost voxel of a terrain column.
pub const SURFACE_BLOCK: u8 = 2;

/// Type id of the terrain voxels below the surface.
pub const FILL_BLOCK: u8 = 3;

/// Every voxel of `s` is empty (id 0).
pub open spec fn all_zero(s: Seq<u8>) -> bool {
    forall|i: int| 0 <= i < s.len() ==> s[i] == 0
}

/// Id of the terrain voxel at world height `y` in a column whose terrain height is
/// `h`: the column is filled below `h`, and its top voxel is the surface.
pub open spec fn terrain_voxel(h: int, y: int) -> u8 {
    if y + 1 < h {
        FILL_BLOCK
    } else if y + 1 == h {
        SURFACE_BLOCK
    } else {
        0
    }
}

/// What a chunk at chunk height `cy` holds after terrain filling from the
/// per-column heights `heights` (indexed `x + S·z`).
pub open spec fn terrain_chunk(cy: int, heights: Seq<u32>) -> Seq<u8> {
    Seq::new(
        CHUNK_VOL as nat,
        |vi: int|
            terrain_voxel(
                heights[vi % CHUNK_SIZE as int + CHUNK_SIZE * ((vi / CHUNK_SIZE as int) % CHUNK_SIZE as int)] as int,
                cy * CHUNK_SIZE + vi / CHUNK_AREA as int,
            ),
    )
}

/// A cube of `CHUNK_SIZE³` voxels, stored flat at `x + S·z + S²·y`, with a cached
/// flag that tells whether every voxel is empty.
#[derive(Debug)]
pub struct Chunk {
    voxels: Vec<u8>,
    is_empty: bool,
}

impl View for Chunk {
    type V = Seq<u8>;

    closed spec fn view(&self) -> Seq<u8> {
        self.voxels@
    }
}

impl Chunk {
    /// The cached emptiness flag.
    pub closed spec fn empty_flag(&self) -> bool {
        self.is_empty
    }

    /// The chunk has `CHUNK_VOL` voxels and its flag is set exactly when all are empty.
    pub open spec fn wf(&self) -> bool {
        &&& self@.len() == CHUNK_VOL
        &&& self.empty_flag() == all_zero(self@)
    }

    /// An all-empty chunk.
    pub fn new() -> (r: Chunk)
        ensures
            r.wf(),
            r@ == Seq::new(CHUNK_VOL as nat, |i: int| 0u8),
    {
        let voxels = vec![0u8; CHUNK_VOL];
        let r = Chunk { voxels, is_empty: true };
        assert(r@ =~= Seq::new(CHUNK_VOL as nat, |i: int| 0u8));
        r
    }

    /// Whether every voxel of the chunk is empty.
    pub fn is_empty(&self) -> (r: bool)
        requires
            self.wf(),
        ensures
            r == all_zero(self@),
    {
        self.is_empty
    }

    /// The id of voxel `vi`.
    pub fn voxel(&self, vi: usize) -> (r: u8)
        requires
            self.wf(),
            vi < CHUNK_VOL,
        ensures
            r == self@[vi as int],
    {
        self.voxels[vi]
    }

    /// Sets voxel `vi` to `id`, keeping the emptiness flag exact.
    pub fn set_voxel(&mut self, vi: usize, id: u8)
        requires
            old(self).wf(),
            vi < CHUNK_VOL,
        ensures
            final(self).wf(),
            final(self)@ == old(self)@.update(vi as int, id),
    {
        self.voxels.set(vi, id);
        if id != 0 {
            self.is_empty = false;
            assert(self.voxels@[vi as int] != 0);
        } else if !self.is_empty {
            self.is_empty = Chunk::scan_empty(&self.voxels);
        } else {
            assert(all_zero(self.voxels@));
        }
    }

    fn scan_empty(voxels: &Vec<u8>) -> (r: bool)
        ensures
            r == all_zero(voxels@),
    {
        let mut i: usize = 0;
        while i < voxels.len()
            invariant
                i <= voxels.len(),
                forall|j: int| 0 <= j < i ==> voxels@[j] == 0,
            decreases voxels.len() - i,
        {
            if voxels[i] != 0 {
                return false;
            }
            i += 1;
        }
        true
    }

    /// Fills the chunk at chunk height `chunk_y` with terrain: each column
    /// `(x, z)` is solid below its height `column_heights[x + S·z]`, with the
    /// surface id on its top voxel and the fill id under it; all else is empty.
    pub fn build_voxels(&mut self, chunk_y: usize, column_heights: &Vec<u32>)
        requires
            old(self).wf(),
            chunk_y < WORLD_H,
            column_heights.len() == CHUNK_AREA,
        ensures
            final(self).wf(),
            final(self)@ == terrain_chunk(chunk_y as int, column_heights@),
    {
        let base: u32 = (chunk_y * CHUNK_SIZE) as u32;
        let mut is_empty = true;
        let mut vi: usize = 0;
        while vi < CHUNK_VOL
            invariant
                vi <= CHUNK_VOL,
                chunk_y < WORLD_H,
                base == chunk_y * CHUNK_SIZE,
                column_heights.len() == CHUNK_AREA,
                self.voxels.len() == CHUNK_VOL,
                forall|j: int|
                    0 <= j < vi ==> self.voxels@[j] == terrain_chunk(
                        chunk_y as int,
                        column_heights@,
                    )[j],
                is_empty == (forall|j: int| 0 <= j < vi ==> self.voxels@[j] == 0),
            decreases CHUNK_VOL - vi,
        {
            let lx = vi % CHUNK_SIZE;
            let lz = (vi / CHUNK_SIZE) % CHUNK_SIZE;
            let ly = (vi / CHUNK_AREA) as u32;
            let h = column_heights[lx + CHUNK_SIZE * lz];
            let y = base + ly;
            let id = if y + 1 < h {
                FILL_BLOCK
            } else if y + 1 == h {
                SURFACE_BLOCK
            } else {
                0
            };
            let ghost before = self.voxels@;
            let ghost was_empty = is_empty;
            self.voxels.set(vi, id);
            if id != 0 {
                is_empty = false;
            }
            assert(is_empty == (forall|j: int| 0 <= j < vi + 1 ==> self.voxels@[j] == 0)) by {
                if id != 0 {
                    assert(self.voxels@[vi as int] != 0);
                } else if was_empty {
                    assert forall|j: int| 0 <= j < vi + 1 implies self.voxels@[j] == 0 by {
                        if j < vi {
                            assert(before[j] == 0);
                        }
                    }
                } else {
                    let k = choose|k: int| 0 <= k < vi && before[k] != 0;
                    assert(self.voxels@[k] != 0);
                }
            }
            vi += 1;
        }
        self.is_empty = is_empty;
        assert(self.voxels@ =~= terrain_chunk(chunk_y as int, column_heights@));
    }
}

/// Packed vertex word: `x << 26 | y << 20 | z << 14 | id << 6 | face << 3 | ao << 1 | select`.
pub open spec fn packed_word(x: u8, y: u8, z: u8, voxel_id: u8, face_id: u8, ao: u8, select: u8) -> u32 {
    (x as int * 0x400_0000 + y as int * 0x10_0000 + z as int * 0x4000 + voxel_id as int * 0x40
        + face_id as int * 8 + ao as int * 2 + select as int) as u32
}

/// One mesh vertex packed in a 32-bit word: local x, y, z (6 bits each), voxel
/// type id (8 bits), face id (3 bits), ambient-occlusion level (2 bits) and
/// selection flag (1 bit), from the high bits down.
#[derive(Clone, Copy, Debug)]
pub struct ChunkVertexPacked {
    pub data: u32,
}

impl ChunkVertexPacked {
    /// Packs the seven fields of a vertex into one word.
    pub fn pack_data(x: u8, y: u8, z: u8, voxel_id: u8, face_id: u8, shading_id: u8, select: u8) -> (r:
        Self)
        requires
            x < 64,
            y < 64,
            z < 64,
            face_id < 8,
            shading_id < 4,
            select < 2,
        ensures
            r.data == packed_word(x, y, z, voxel_id, face_id, shading_id, select),
    {
        let (a, b, c, d, e, f, g) = (
            x as u32,
            y as u32,
            z as u32,
            voxel_id as u32,
            face_id as u32,
            shading_id as u32,
            select as u32,
        );
        let packed = a << 26u32 | b << 20u32 | c << 14u32 | d << 6u32 | e << 3u32 | f << 1u32 | g;
        assert(packed == a * 0x400_0000 + b * 0x10_0000 + c * 0x4000 + d * 0x40 + e * 8 + f * 2 + g)
            by (bit_vector)
            requires
                a < 64 && b < 64 && c < 64 && d < 256 && e < 8 && f < 4 && g < 2,
                packed == a << 26u32 | b << 20u32 | c << 14u32 | d << 6u32 | e << 3u32 | f << 1u32 | g,
        ;
        ChunkVertexPacked { data: packed }
    }
}

/// The vertex fields fit their bit widths in the packed word.
pub open spec fn vertex_fits(v: [u8; 7]) -> bool {
    &&& v[0] < 64
    &&& v[1] < 64
    &&& v[2] < 64
    &&& v[4] < 8
    &&& v[5] < 4
    &&& v[6] < 2
}

/// The packed form of a vertex given as `[x, y, z, voxel_id, face_id, ao, select]`.
pub open spec fn pack_vertex(v: [u8; 7]) -> ChunkVertexPacked {
    ChunkVertexPacked { data: packed_word(v[0], v[1], v[2], v[3], v[4], v[5], v[6]) }
}

impl Chunk {
    /// Writes the packed form of each vertex of `vertex` into `chunk_voxels`
    /// from position `*index` on, and advances `*index` past them.
    pub fn add_vertex(chunk_voxels: &mut Vec<ChunkVertexPacked>, vertex: &[[u8; 7]], index: &mut usize)
        requires
            *old(index) + vertex@.len() <= old(chunk_voxels).len(),
            forall|i: int| 0 <= i < vertex@.len() ==> vertex_fits(#[trigger] vertex@[i]),
        ensures
            *final(index) == *old(index) + vertex@.len(),
            final(chunk_voxels)@ == old(chunk_voxels)@.subrange(0, *old(index) as int)
                + vertex@.map_values(|v: [u8; 7]| pack_vertex(v)) + old(chunk_voxels)@.subrange(
                *old(index) + vertex@.len(),
                old(chunk_voxels)@.len() as int,
            ),
    {
        let ghost start = *index;
        let ghost before = chunk_voxels@;
        let mut i: usize = 0;
        while i < vertex.len()
            invariant
                i <= vertex@.len(),
                *index == start + i,
                start + vertex@.len() <= before.len(),
                forall|j: int| 0 <= j < vertex@.len() ==> vertex_fits(#[trigger] vertex@[j]),
                chunk_voxels@ == before.subrange(0, start as int) + vertex@.subrange(0, i as int).map_values(
                    |v: [u8; 7]| pack_vertex(v),
                ) + before.subrange(start + i, before.len() as int),
            decreases vertex@.len() - i,
        {
            let v = vertex[i];
            assert(vertex_fits(vertex@[i as int]));
            let packed = ChunkVertexPacked::pack_data(v[0], v[1], v[2], v[3], v[4], v[5], v[6]);
            let ghost prev = chunk_voxels@;
            chunk_voxels.set(*index, packed);
            proof {
                assert(packed == pack_vertex(v));
                assert(chunk_voxels@ =~= before.subrange(0, start as int) + vertex@.subrange(
                    0,
                    i + 1,
                ).map_values(|v: [u8; 7]| pack_vertex(v)) + before.subrange(
                    start + i + 1,
                    before.len() as int,
                ));
            }
            *index += 1;
            i += 1;
        }
        assert(vertex@.subrange(0, vertex@.len() as int) =~= vertex@);
    }
}

} // verus!
