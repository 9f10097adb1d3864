//! Hover and edit bookkeeping for the voxel under the pointer.
//!
//! The handler holds the current pick and the hovered voxel with the id it had
//! when it was captured. Before a new voxel is captured or edited, that id is
//! written back, so that hovering never changes what the world holds.
use vstd::prelude::*;

use crate::grid::{in_world, CHUNK_VOL, WORLD_VOL};
use crate::picker::{hit_wf, normal, normal_exec, pick, pick_spec, Hit, Ray};
use crate::world::{set_spec, world_shape, World};

verus! {

/// The hovered voxel and the id it held when it was captured.
#[derive(Clone, Copy, Debug)]
pub struct Hovered {
    pub chunk_index: usize,
    pub voxel_index: usize,
    pub previous: u8,
}

/// The world `w` with the hovered voxel, if any, given back the id it was captured with.
pub open spec fn restore_spec(w: Seq<Seq<u8>>, hovered: Option<Hovered>) -> Seq<Seq<u8>> {
    match hovered {
        Some(h) => w.update(h.chunk_index as int, w[h.chunk_index as int].update(h.voxel_index as int, h.previous)),
        None => w,
    }
}

/// Id of the voxel of `w` that the hit names.
pub open spec fn hit_voxel(w: Seq<Seq<u8>>, t: Hit) -> u8 {
    w[t.chunk_index as int][t.voxel_index as int]
}

/// The cell next to the hit voxel across the struck face.
pub open spec fn adjacent(t: Hit) -> (int, int, int) {
    let n = normal(t.direction);
    (t.position.0 + n.0, t.position.1 + n.1, t.position.2 + n.2)
}

/// The world `w` after placing `id` against the struck face of the hit `t`:
/// the adjacent cell is set, or nothing changes when it lies outside the world.
pub open spec fn place_spec(w: Seq<Seq<u8>>, t: Hit, id: u8) -> Seq<Seq<u8>> {
    let (x, y, z) = adjacent(t);
    set_spec(w, x, y, z, id)
}

/// Picker and hover state.
#[derive(Clone, Copy, Debug)]
pub struct VoxelHandler {
    /// What the pointer ray resolved to on the last update.
    pub target: Option<Hit>,
    /// The voxel last hovered or edited, with the id to give back to it.
    pub hovered: Option<Hovered>,
    /// Cell of the voxel last hovered or edited.
    pub last_world: Option<(i64, i64, i64)>,
}

impl VoxelHandler {
    /// The target names an in-world voxel and the hovered voxel exists.
    pub open spec fn wf(&self) -> bool {
        &&& self.target is Some ==> hit_wf(self.target.unwrap())
        &&& self.hovered is Some ==> {
            &&& self.hovered.unwrap().chunk_index < WORLD_VOL
            &&& self.hovered.unwrap().voxel_index < CHUNK_VOL
        }
    }

    /// Nothing picked, nothing hovered.
    pub fn new() -> (r: VoxelHandler)
        ensures
            r.wf(),
            r.target is None,
            r.hovered is None,
            r.last_world is None,
    {
        VoxelHandler { target: None, hovered: None, last_world: None }
    }

    /// Resolves the pointer ray against the world; a miss clears the target.
    /// The world and the hover bookkeeping are left as they are.
    pub fn update(&mut self, world: &World, ray: &Ray)
        requires
            old(self).wf(),
            world.wf(),
            ray.wf(),
        ensures
            final(self).wf(),
            pick_spec(world@, *ray, final(self).target),
            final(self).hovered == old(self).hovered,
            final(self).last_world == old(self).last_world,
    {
        self.target = pick(world, ray);
    }

    /// Gives the hovered voxel back its captured id.
    fn restore(&self, world: &mut World)
        requires
            self.wf(),
            old(world).wf(),
        ensures
            final(world).wf(),
            final(world)@ == restore_spec(old(world)@, self.hovered),
    {
        match self.hovered {
            Some(h) => world.set_at(h.chunk_index, h.voxel_index, h.previous),
            None => {},
        }
    }

    /// Hovers the target voxel without changing it: gives the previously
    /// hovered voxel back its id, then captures the target's id. Returns
    /// whether a solid voxel is there to highlight.
    pub fn select_voxel(&mut self, world: &mut World) -> (r: bool)
        requires
            old(self).wf(),
            old(world).wf(),
        ensures
            final(self).wf(),
            final(world).wf(),
            final(self).target == old(self).target,
            match old(self).target {
                None => {
                    &&& !r
                    &&& final(world)@ == old(world)@
                    &&& *final(self) == *old(self)
                },
                Some(t) => {
                    let w1 = restore_spec(old(world)@, old(self).hovered);
                    &&& final(world)@ == w1
                    &&& r == (hit_voxel(w1, t) != 0)
                    &&& r ==> final(self).hovered == Some(
                        Hovered {
                            chunk_index: t.chunk_index,
                            voxel_index: t.voxel_index,
                            previous: hit_voxel(w1, t),
                        },
                    ) && final(self).last_world == Some(t.position)
                    &&& !r ==> final(self).hovered == old(self).hovered && final(self).last_world == old(
                        self,
                    ).last_world
                },
            },
    {
        match self.target {
            None => false,
            Some(t) => {
                self.restore(world);
                let id = world.voxel_at(t.chunk_index, t.voxel_index);
                if id == 0 {
                    return false;
                }
                self.hovered = Some(
                    Hovered { chunk_index: t.chunk_index, voxel_index: t.voxel_index, previous: id },
                );
                self.last_world = Some(t.position);
                true
            },
        }
    }

    /// Edits the target voxel: gives the previously hovered voxel back its id;
    /// then, if the target is solid, captures its id and sets it to `state`.
    pub fn change_voxel(&mut self, world: &mut World, state: u8)
        requires
            old(self).wf(),
            old(world).wf(),
        ensures
            final(self).wf(),
            final(world).wf(),
            final(self).target == old(self).target,
            match old(self).target {
                None => final(world)@ == old(world)@ && *final(self) == *old(self),
                Some(t) => {
                    let w1 = restore_spec(old(world)@, old(self).hovered);
                    if hit_voxel(w1, t) == 0 {
                        &&& final(world)@ == w1
                        &&& final(self).hovered == old(self).hovered
                        &&& final(self).last_world == old(self).last_world
                    } else {
                        &&& final(world)@ == w1.update(
                            t.chunk_index as int,
                            w1[t.chunk_index as int].update(t.voxel_index as int, state),
                        )
                        &&& final(self).hovered == Some(
                            Hovered {
                                chunk_index: t.chunk_index,
                                voxel_index: t.voxel_index,
                                previous: hit_voxel(w1, t),
                            },
                        )
                        &&& final(self).last_world == Some(t.position)
                    }
                },
            },
    {
        match self.target {
            None => {},
            Some(t) => {
                self.restore(world);
                let id = world.voxel_at(t.chunk_index, t.voxel_index);
                if id == 0 {
                    return ;
                }
                self.hovered = Some(
                    Hovered { chunk_index: t.chunk_index, voxel_index: t.voxel_index, previous: id },
                );
                world.set_at(t.chunk_index, t.voxel_index, state);
                self.last_world = Some(t.position);
            },
        }
    }

    /// Places a voxel of type `state` in the cell across the struck face of the
    /// target; nothing happens when that cell lies outside the world.
    pub fn add_voxel(&mut self, world: &mut World, state: u8)
        requires
            old(self).wf(),
            old(world).wf(),
        ensures
            final(world).wf(),
            *final(self) == *old(self),
            match old(self).target {
                None => final(world)@ == old(world)@,
                Some(t) => final(world)@ == place_spec(old(world)@, t, state),
            },
    {
        match self.target {
            None => {},
            Some(t) => {
                let (dx, dy, dz) = normal_exec(t.direction);
                let (x, y, z) = t.position;
                world.set(x + dx, y + dy, z + dz, state);
            },
        }
    }
}

/// Hovering a voxel captured with id `X` and then hovering another one leaves
/// the first voxel holding exactly `X`; and when hovering changed nothing, the
/// switch changes no voxel at all.
pub proof fn lemma_highlight_restore(w: Seq<Seq<u8>>, handler: VoxelHandler, a: Hovered)
    requires
        world_shape(w),
        handler.wf(),
        handler.target is Some,
        handler.hovered == Some(a),
    ensures
        restore_spec(w, handler.hovered)[a.chunk_index as int][a.voxel_index as int] == a.previous,
        w[a.chunk_index as int][a.voxel_index as int] == a.previous ==> restore_spec(w, handler.hovered)
            == w,
{
    if w[a.chunk_index as int][a.voxel_index as int] == a.previous {
        assert(w[a.chunk_index as int].update(a.voxel_index as int, a.previous) =~= w[a.chunk_index as int]);
        assert(restore_spec(w, handler.hovered) =~= w);
    }
}

/// Placing against a face whose adjacent cell lies outside the world changes nothing.
pub proof fn lemma_place_outside(w: Seq<Seq<u8>>, t: Hit, id: u8)
    requires
        !in_world(adjacent(t).0, adjacent(t).1, adjacent(t).2),
    ensures
        place_spec(w, t, id) == w,
{
}

} // verus!
