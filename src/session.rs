//! One tick of pointer-driven editing: hover, remove or place, and the chunks
//! whose meshes must be rebuilt afterwards.
use vstd::prelude::*;

use crate::grid::{
    chunk_index_of, in_world, index_of, lemma_split_join, CHUNK_SIZE, WORLD_VOL, WORLD_X, WORLD_Y,
    WORLD_Z,
};
use crate::mesh::mesh_upto;
use crate::picker::{normal_exec, pick_spec, Hit, Ray};
use crate::voxel_handler::{adjacent, hit_voxel, place_spec, restore_spec, Hovered, VoxelHandler};
use crate::world::World;

verus! {

/// Coordinate of `v` inside its chunk, along one axis.
pub open spec fn local_of(v: int) -> int {
    v % CHUNK_SIZE as int
}

/// Chunk `ci` holds the voxel at `(x, y, z)` or one of its six in-world axis
/// neighbours, so its mesh depends on that voxel.
pub open spec fn remesh_needed(x: int, y: int, z: int, ci: int) -> bool {
    ||| ci == chunk_index_of(x, y, z)
    ||| (in_world(x - 1, y, z) && ci == chunk_index_of(x - 1, y, z))
    ||| (in_world(x + 1, y, z) && ci == chunk_index_of(x + 1, y, z))
    ||| (in_world(x, y - 1, z) && ci == chunk_index_of(x, y - 1, z))
    ||| (in_world(x, y + 1, z) && ci == chunk_index_of(x, y + 1, z))
    ||| (in_world(x, y, z - 1) && ci == chunk_index_of(x, y, z - 1))
    ||| (in_world(x, y, z + 1) && ci == chunk_index_of(x, y, z + 1))
}

/// An edit on a chunk boundary plane marks the chunk across that plane, when
/// there is one, besides the owning chunk; an edit off every boundary plane
/// marks the owning chunk alone.
#[verifier::spinoff_prover]
#[verifier::rlimit(40)]
pub proof fn lemma_boundary_remesh(x: int, y: int, z: int)
    requires
        in_world(x, y, z),
    ensures
        remesh_needed(x, y, z, chunk_index_of(x, y, z)),
        local_of(x) == 0 && x > 0 ==> remesh_needed(x, y, z, chunk_index_of(x - 1, y, z))
            && chunk_index_of(x - 1, y, z) != chunk_index_of(x, y, z),
        local_of(x) == CHUNK_SIZE - 1 && x + 1 < WORLD_X ==> remesh_needed(
            x,
            y,
            z,
            chunk_index_of(x + 1, y, z),
        ) && chunk_index_of(x + 1, y, z) != chunk_index_of(x, y, z),
        local_of(y) == 0 && y > 0 ==> remesh_needed(x, y, z, chunk_index_of(x, y - 1, z))
            && chunk_index_of(x, y - 1, z) != chunk_index_of(x, y, z),
        local_of(y) == CHUNK_SIZE - 1 && y + 1 < WORLD_Y ==> remesh_needed(
            x,
            y,
            z,
            chunk_index_of(x, y + 1, z),
        ) && chunk_index_of(x, y + 1, z) != chunk_index_of(x, y, z),
        local_of(z) == 0 && z > 0 ==> remesh_needed(x, y, z, chunk_index_of(x, y, z - 1))
            && chunk_index_of(x, y, z - 1) != chunk_index_of(x, y, z),
        local_of(z) == CHUNK_SIZE - 1 && z + 1 < WORLD_Z ==> remesh_needed(
            x,
            y,
            z,
            chunk_index_of(x, y, z + 1),
        ) && chunk_index_of(x, y, z + 1) != chunk_index_of(x, y, z),
        (0 < local_of(x) < CHUNK_SIZE - 1 && 0 < local_of(y) < CHUNK_SIZE - 1 && 0 < local_of(z) < CHUNK_SIZE
            - 1) ==> forall|ci: int|
            remesh_needed(x, y, z, ci) <==> ci == chunk_index_of(x, y, z),
{
    lemma_split_join(x, y, z);
    if in_world(x - 1, y, z) {
        lemma_split_join(x - 1, y, z);
    }
    if in_world(x + 1, y, z) {
        lemma_split_join(x + 1, y, z);
    }
    if in_world(x, y - 1, z) {
        lemma_split_join(x, y - 1, z);
    }
    if in_world(x, y + 1, z) {
        lemma_split_join(x, y + 1, z);
    }
    if in_world(x, y, z - 1) {
        lemma_split_join(x, y, z - 1);
    }
    if in_world(x, y, z + 1) {
        lemma_split_join(x, y, z + 1);
    }
}

/// Every chunk that an in-world voxel's edit marks exists.
proof fn lemma_remesh_range(x: int, y: int, z: int, c: int)
    requires
        in_world(x, y, z),
        remesh_needed(x, y, z, c),
    ensures
        0 <= c < WORLD_VOL,
{
    lemma_split_join(x, y, z);
    if in_world(x - 1, y, z) {
        lemma_split_join(x - 1, y, z);
    }
    if in_world(x + 1, y, z) {
        lemma_split_join(x + 1, y, z);
    }
    if in_world(x, y - 1, z) {
        lemma_split_join(x, y - 1, z);
    }
    if in_world(x, y + 1, z) {
        lemma_split_join(x, y + 1, z);
    }
    if in_world(x, y, z - 1) {
        lemma_split_join(x, y, z - 1);
    }
    if in_world(x, y, z + 1) {
        lemma_split_join(x, y, z + 1);
    }
}

/// Giving the hovered voxel its id back twice is giving it back once.
proof fn lemma_restore_twice(w: Seq<Seq<u8>>, h: Option<Hovered>)
    requires
        h is Some ==> h.unwrap().chunk_index < w.len() && h.unwrap().voxel_index < w[h.unwrap().chunk_index as int].len(),
    ensures
        restore_spec(restore_spec(w, h), h) == restore_spec(w, h),
{
    match h {
        Some(a) => {
            let w1 = restore_spec(w, h);
            assert(w1[a.chunk_index as int].update(a.voxel_index as int, a.previous) =~= w1[a.chunk_index as int]);
            assert(restore_spec(w1, h) =~= w1);
        },
        None => {},
    }
}

/// Setting a voxel to the id it holds changes nothing.
proof fn lemma_restore_same(w: Seq<Seq<u8>>, a: Hovered)
    requires
        a.chunk_index < w.len(),
        a.voxel_index < w[a.chunk_index as int].len(),
        w[a.chunk_index as int][a.voxel_index as int] == a.previous,
    ensures
        restore_spec(w, Some(a)) == w,
{
    assert(w[a.chunk_index as int].update(a.voxel_index as int, a.previous) =~= w[a.chunk_index as int]);
    assert(restore_spec(w, Some(a)) =~= w);
}

/// Appends `ci` unless `v` holds it already.
fn push_unique(v: &mut Vec<usize>, ci: usize)
    requires
        old(v)@.no_duplicates(),
    ensures
        final(v)@.no_duplicates(),
        forall|c: usize| #[trigger] final(v)@.contains(c) <==> old(v)@.contains(c) || c == ci,
        final(v)@.len() >= 1,
        old(v)@.len() >= 1 ==> final(v)@[0] == old(v)@[0],
{
    let mut i: usize = 0;
    while i < v.len()
        invariant
            i <= v@.len(),
            v@ == old(v)@,
            v@.no_duplicates(),
            forall|j: int| 0 <= j < i ==> v@[j] != ci,
        decreases v@.len() - i,
    {
        if v[i] == ci {
            assert(v@.contains(ci));
            assert forall|c: usize| #[trigger] v@.contains(c) <==> v@.contains(c) || c == ci by {}
            return ;
        }
        i += 1;
    }
    let ghost before = v@;
    v.push(ci);
    assert forall|c: usize| #[trigger] v@.contains(c) <==> before.contains(c) || c == ci by {
        if before.contains(c) {
            let j = choose|j: int| 0 <= j < before.len() && before[j] == c;
            assert(v@[j] == c);
        }
        if c == ci {
            assert(v@[before.len() as int] == c);
        }
    }
}

/// Adds the chunk of `(x, y, z)`, when that cell is in the world.
fn push_chunk_of(v: &mut Vec<usize>, x: i64, y: i64, z: i64)
    requires
        old(v)@.no_duplicates(),
        old(v)@.len() >= 1,
    ensures
        final(v)@.no_duplicates(),
        final(v)@.len() >= 1,
        final(v)@[0] == old(v)@[0],
        forall|c: usize| #[trigger]
            final(v)@.contains(c) <==> old(v)@.contains(c) || (in_world(x as int, y as int, z as int)
                && c == chunk_index_of(x as int, y as int, z as int)),
{
    match index_of(x, y, z) {
        Some((ci, _)) => push_unique(v, ci),
        None => {},
    }
}

/// The chunks whose meshes depend on the voxel at `(x, y, z)`: its own chunk
/// first, then the chunks across each boundary plane the voxel lies on.
pub fn remesh_targets(x: i64, y: i64, z: i64) -> (r: Vec<usize>)
    requires
        in_world(x as int, y as int, z as int),
    ensures
        r@.no_duplicates(),
        r@.len() >= 1,
        r@[0] == chunk_index_of(x as int, y as int, z as int),
        forall|ci: usize| #[trigger] r@.contains(ci) <==> remesh_needed(x as int, y as int, z as int, ci as int),
{
    let own = match index_of(x, y, z) {
        Some((ci, _)) => ci,
        None => 0,
    };
    let mut r: Vec<usize> = Vec::new();
    r.push(own);
    assert(r@.no_duplicates());
    assert forall|c: usize| #[trigger] r@.contains(c) <==> c == own by {
        if r@.contains(c) {
            let j = choose|j: int| 0 <= j < r@.len() && r@[j] == c;
        }
        if c == own {
            assert(r@[0] == c);
        }
    }
    push_chunk_of(&mut r, x - 1, y, z);
    push_chunk_of(&mut r, x + 1, y, z);
    push_chunk_of(&mut r, x, y - 1, z);
    push_chunk_of(&mut r, x, y + 1, z);
    push_chunk_of(&mut r, x, y, z - 1);
    push_chunk_of(&mut r, x, y, z + 1);
    r
}

/// What the pointer buttons ask for in a tick.
#[derive(Clone, Copy, Debug, PartialEq, Eq, Structural)]
pub enum Action {
    /// Only hover the voxel under the pointer.
    Hover,
    /// Remove the voxel under the pointer.
    Remove,
    /// Place the active block against the struck face.
    Place,
}

/// A chunk whose mesh must be rebuilt, and the mesh vertex at which the
/// highlighted quad starts, if any.
#[derive(Clone, Copy, Debug)]
pub struct Remesh {
    pub chunk_index: usize,
    pub select: Option<usize>,
}

/// Block type chosen by digit key `digit`: keys 0 to 6 give types 1 to 7.
pub open spec fn block_for_digit_spec(digit: u8) -> Option<u8> {
    if digit <= 6 {
        Some((digit + 1) as u8)
    } else {
        None
    }
}

/// Block type chosen by digit key `digit`, or `None` for a key outside 0 to 6.
pub fn block_for_digit(digit: u8) -> (r: Option<u8>)
    ensures
        r == block_for_digit_spec(digit),
{
    if digit <= 6 {
        Some(digit + 1)
    } else {
        None
    }
}

/// The world after the edit of a tick, from the world `w1` in which the
/// hovered voxel has its id back.
pub open spec fn edit_spec(w1: Seq<Seq<u8>>, t: Hit, action: Action, block: u8) -> Seq<Seq<u8>> {
    match action {
        Action::Hover => w1,
        Action::Remove => if hit_voxel(w1, t) != 0 {
            w1.update(t.chunk_index as int, w1[t.chunk_index as int].update(t.voxel_index as int, 0))
        } else {
            w1
        },
        Action::Place => place_spec(w1, t, block),
    }
}

/// Chunk `c` must be rebuilt, besides the target's chunk, after a tick that
/// hit `t`: it held the previously hovered voxel, or its mesh depends on the
/// edited voxel.
pub open spec fn stale_chunk(c: int, t: Hit, old_hovered: Option<Hovered>, solid: bool, action: Action) -> bool {
    &&& c != t.chunk_index
    &&& {
        ||| (old_hovered is Some && c == old_hovered.unwrap().chunk_index)
        ||| (action == Action::Remove && solid && remesh_needed(
            t.position.0 as int,
            t.position.1 as int,
            t.position.2 as int,
            c,
        ))
        ||| (action == Action::Place && in_world(adjacent(t).0, adjacent(t).1, adjacent(t).2)
            && remesh_needed(adjacent(t).0, adjacent(t).1, adjacent(t).2, c))
    }
}

/// The editing state carried from tick to tick: the picker and hover state,
/// and the block type that placing uses.
#[derive(Clone, Copy, Debug)]
pub struct EditSession {
    pub handler: VoxelHandler,
    pub block: u8,
}

impl EditSession {
    /// The picker and hover state is well formed.
    pub open spec fn wf(&self) -> bool {
        self.handler.wf()
    }

    /// Nothing hovered; placing uses block type 1.
    pub fn new() -> (r: EditSession)
        ensures
            r.wf(),
            r.handler.target is None,
            r.handler.hovered is None,
            r.block == 1,
    {
        EditSession { handler: VoxelHandler::new(), block: 1 }
    }

    /// Chooses the block type of digit key `digit`; a key outside 0 to 6
    /// leaves the choice as it was.
    pub fn select_block(&mut self, digit: u8)
        ensures
            final(self).handler == old(self).handler,
            final(self).block == match block_for_digit_spec(digit) {
                Some(b) => b,
                None => old(self).block,
            },
    {
        match block_for_digit(digit) {
            Some(b) => self.block = b,
            None => {},
        }
    }

    /// One tick: resolves the pointer ray, gives the previously hovered voxel
    /// its id back, hovers the voxel hit, applies `action` to it, and returns
    /// the chunks to rebuild. Every chunk but the target's is rebuilt without
    /// highlight and listed first; the target's chunk comes last, highlighting
    /// the quads of the hovered voxel when it is solid. A ray that misses (or is
    /// not well formed) clears the target and the hover, and only the chunk of
    /// the previously hovered voxel is rebuilt.
    pub fn tick(&mut self, world: &mut World, ray: &Ray, action: Action) -> (r: Vec<Remesh>)
        requires
            old(self).wf(),
            old(world).wf(),
        ensures
            final(self).wf(),
            final(world).wf(),
            final(self).block == old(self).block,
            ray.wf() ==> pick_spec(old(world)@, *ray, final(self).handler.target),
            !ray.wf() ==> final(self).handler.target is None,
            ({
                let w1 = restore_spec(old(world)@, old(self).handler.hovered);
                match final(self).handler.target {
                    None => {
                        &&& final(world)@ == w1
                        &&& final(self).handler.hovered is None
                        &&& final(self).handler.last_world == old(self).handler.last_world
                        &&& r@.len() == (if old(self).handler.hovered is Some {
                            1int
                        } else {
                            0
                        })
                        &&& old(self).handler.hovered is Some ==> r@[0] == (Remesh {
                            chunk_index: old(self).handler.hovered.unwrap().chunk_index,
                            select: None,
                        })
                    },
                    Some(t) => {
                        let solid = hit_voxel(w1, t) != 0;
                        let w2 = edit_spec(w1, t, action, old(self).block);
                        &&& final(world)@ == w2
                        &&& solid ==> final(self).handler.hovered == Some(
                            Hovered {
                                chunk_index: t.chunk_index,
                                voxel_index: t.voxel_index,
                                previous: if action == Action::Remove {
                                    0
                                } else {
                                    hit_voxel(w1, t)
                                },
                            },
                        )
                        &&& !solid ==> final(self).handler.hovered == old(self).handler.hovered
                        &&& final(self).handler.last_world == (if solid {
                            Some(t.position)
                        } else {
                            old(self).handler.last_world
                        })
                        &&& r@.len() >= 1
                        &&& r@.last() == (Remesh {
                            chunk_index: t.chunk_index,
                            select: if hit_voxel(w2, t) != 0 {
                                Some(mesh_upto(w2, t.chunk_index as int, t.voxel_index as nat, None).len() as usize)
                            } else {
                                None
                            },
                        })
                        &&& forall|i: int, j: int|
                            0 <= i < j < r@.len() - 1 ==> r@[i].chunk_index != r@[j].chunk_index
                        &&& forall|i: int| 0 <= i < r@.len() - 1 ==> (#[trigger] r@[i]).select is None
                        &&& forall|c: int|
                            (exists|i: int| 0 <= i < r@.len() - 1 && (#[trigger] r@[i]).chunk_index == c)
                                <==> stale_chunk(c, t, old(self).handler.hovered, solid, action)
                    },
                }
            }),
    {
        let old_hovered = self.handler.hovered;
        if ray.is_valid() {
            self.handler.update(world, ray);
        } else {
            self.handler.target = None;
        }
        let mut r: Vec<Remesh> = Vec::new();
        match self.handler.target {
            None => {
                match old_hovered {
                    Some(h) => {
                        world.set_at(h.chunk_index, h.voxel_index, h.previous);
                        r.push(Remesh { chunk_index: h.chunk_index, select: None });
                    },
                    None => {},
                }
                self.handler.hovered = None;
                r
            },
            Some(t) => {
                let ghost w0 = world@;
                let solid = self.handler.select_voxel(world);
                let ghost w1 = world@;
                let mut stale: Vec<usize> = Vec::new();
                match old_hovered {
                    Some(h) => if h.chunk_index != t.chunk_index {
                        stale.push(h.chunk_index);
                    },
                    None => {},
                }
                proof {
                    assert forall|c: usize| #[trigger] stale@.contains(c) <==> (c != t.chunk_index
                        && old_hovered is Some && c == old_hovered.unwrap().chunk_index) by {
                        if stale@.contains(c) {
                            let j = choose|j: int| 0 <= j < stale@.len() && stale@[j] == c;
                        }
                        if c != t.chunk_index && old_hovered is Some && c == old_hovered.unwrap().chunk_index {
                            assert(stale@[0] == c);
                        }
                    }
                }
                match action {
                    Action::Hover => {},
                    Action::Remove => {
                        proof {
                            if solid {
                                lemma_restore_same(w1, self.handler.hovered.unwrap());
                            } else {
                                lemma_restore_twice(w0, old_hovered);
                            }
                        }
                        self.handler.change_voxel(world, 0);
                        if solid {
                            self.handler.hovered = Some(
                                Hovered {
                                    chunk_index: t.chunk_index,
                                    voxel_index: t.voxel_index,
                                    previous: 0,
                                },
                            );
                            let (x, y, z) = t.position;
                            let targets = remesh_targets(x, y, z);
                            EditSession::add_stale(&mut stale, &targets, t.chunk_index);
                        }
                    },
                    Action::Place => {
                        self.handler.add_voxel(world, self.block);
                        let (dx, dy, dz) = normal_exec(t.direction);
                        let (x, y, z) = t.position;
                        let (ax, ay, az) = (x + dx, y + dy, z + dz);
                        if index_of(ax, ay, az).is_some() {
                            let targets = remesh_targets(ax, ay, az);
                            EditSession::add_stale(&mut stale, &targets, t.chunk_index);
                        }
                    },
                }
                proof {
                    assert forall|c: usize| #[trigger] stale@.contains(c) <==> stale_chunk(
                        c as int,
                        t,
                        old_hovered,
                        solid,
                        action,
                    ) by {}
                }
                let mut i: usize = 0;
                while i < stale.len()
                    invariant
                        i <= stale@.len(),
                        r@.len() == i,
                        forall|j: int| 0 <= j < i ==> (#[trigger] r@[j]) == (Remesh { chunk_index: stale@[j], select: None }),
                    decreases stale@.len() - i,
                {
                    r.push(Remesh { chunk_index: stale[i], select: None });
                    i += 1;
                }
                let select = if world.voxel_at(t.chunk_index, t.voxel_index) != 0 {
                    Some(world.vertex_offset(t.chunk_index, t.voxel_index))
                } else {
                    None
                };
                r.push(Remesh { chunk_index: t.chunk_index, select });
                proof {
                    assert forall|c: int|
                        (exists|i: int| 0 <= i < r@.len() - 1 && (#[trigger] r@[i]).chunk_index == c)
                            <==> stale_chunk(c, t, old_hovered, solid, action) by {
                        if exists|i: int| 0 <= i < r@.len() - 1 && (#[trigger] r@[i]).chunk_index == c {
                            let i = choose|i: int| 0 <= i < r@.len() - 1 && (#[trigger] r@[i]).chunk_index == c;
                            assert(r@[i] == (Remesh { chunk_index: stale@[i], select: None }));
                            assert(stale@.contains(stale@[i]));
                        }
                        if stale_chunk(c, t, old_hovered, solid, action) {
                            if action == Action::Remove && solid && remesh_needed(
                                t.position.0 as int,
                                t.position.1 as int,
                                t.position.2 as int,
                                c,
                            ) {
                                lemma_remesh_range(t.position.0 as int, t.position.1 as int, t.position.2 as int, c);
                            }
                            if action == Action::Place && in_world(adjacent(t).0, adjacent(t).1, adjacent(t).2)
                                && remesh_needed(adjacent(t).0, adjacent(t).1, adjacent(t).2, c) {
                                lemma_remesh_range(adjacent(t).0, adjacent(t).1, adjacent(t).2, c);
                            }
                            assert(0 <= c);
                            assert(stale@.contains(c as usize));
                            let j = choose|j: int| 0 <= j < stale@.len() && stale@[j] == c as usize;
                            assert(r@[j].chunk_index == c);
                        }
                    }
                }
                r
            },
        }
    }

    /// Adds to `stale` each chunk of `targets` other than `own` that it lacks.
    fn add_stale(stale: &mut Vec<usize>, targets: &Vec<usize>, own: usize)
        requires
            old(stale)@.no_duplicates(),
            forall|i: int| 0 <= i < old(stale)@.len() ==> old(stale)@[i] != own,
        ensures
            final(stale)@.no_duplicates(),
            forall|i: int| 0 <= i < final(stale)@.len() ==> final(stale)@[i] != own,
            forall|c: usize| #[trigger]
                final(stale)@.contains(c) <==> old(stale)@.contains(c) || (targets@.contains(c) && c != own),
    {
        let ghost before = stale@;
        let mut i: usize = 0;
        while i < targets.len()
            invariant
                i <= targets@.len(),
                stale@.no_duplicates(),
                forall|j: int| 0 <= j < stale@.len() ==> stale@[j] != own,
                forall|c: usize| #[trigger]
                    stale@.contains(c) <==> before.contains(c) || (c != own && exists|j: int|
                        0 <= j < i && #[trigger] targets@[j] == c),
            decreases targets@.len() - i,
        {
            let c = targets[i];
            if c != own {
                push_unique_plain(stale, c);
            }
            assert forall|d: usize| #[trigger]
                stale@.contains(d) <==> before.contains(d) || (d != own && exists|j: int|
                    0 <= j < i + 1 && #[trigger] targets@[j] == d) by {
                if d == c && d != own {
                    assert(targets@[i as int] == d);
                }
            }
            i += 1;
        }
        assert forall|d: usize| #[trigger] targets@.contains(d) <==> exists|j: int|
            0 <= j < targets@.len() && #[trigger] targets@[j] == d by {}
    }
}

/// Appends `c` unless `v` holds it already; `v` may be empty.
fn push_unique_plain(v: &mut Vec<usize>, c: usize)
    requires
        old(v)@.no_duplicates(),
    ensures
        final(v)@.no_duplicates(),
        forall|d: usize| #[trigger] final(v)@.contains(d) <==> old(v)@.contains(d) || d == c,
        forall|i: int| 0 <= i < final(v)@.len() ==> final(v)@[i] == c || old(v)@.contains(final(v)@[i]),
{
    push_unique(v, c);
    assert forall|i: int| 0 <= i < v@.len() implies v@[i] == c || old(v)@.contains(v@[i]) by {
        assert(v@.contains(v@[i]));
    }
}

} // verus!
