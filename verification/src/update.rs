//! The per-frame update surface of the world.
//!
//! A frame begins by comparing the camera to its last known position:
//! crossing into a new chunk re-sorts the work queue nearest-first, and
//! crossing into a new block flags every chunk's water faces for
//! re-sorting. Work is then drained chunk by chunk — the caller owns the
//! clock and asks for one job at a time — and visibility is refreshed
//! against the frustum. At most one chunk's water faces are re-sorted
//! per call, so a camera sweep cannot stall a frame.

use vstd::prelude::*;

use crate::chunk::ChunkStatus;
use crate::coords::{chunk_of, BlockCoords, ChunkCoords};
use crate::frustrum::{frustrum_bounded, Frustrum};
use crate::graphics::{
    dist_safe, face_distance2, faces_sorted, keys_of, quad_index, ChunkGraphics, Face,
};
use crate::queue::{queue_bounded, queue_sorted, spec_chunk_visible, ChunkQueueItem};
use crate::world::{
    find_slot, lemma_find_props, lemma_find_props_all, lemma_find_same_coords_all, ChunkSlot,
    World,
};

verus! {

/// The loaded chunks, their cells and their statuses are all as they
/// were; only queue flags, render lists and graphics may differ.
pub open spec fn same_storage(w1: World, w2: World) -> bool {
    &&& w2.slots@.len() == w1.slots@.len()
    &&& forall|x: int, z: int| #[trigger] w2.has_chunk(x, z) == w1.has_chunk(x, z)
    &&& forall|x: int, z: int|
        w1.has_chunk(x, z) ==> #[trigger] w2.chunk_at(x, z).status == w1.chunk_at(x, z).status
            && w2.chunk_at(x, z).data@ == w1.chunk_at(x, z).data@
}

/// A graphics handle with its water faces flagged stale; None stays
/// None.
pub open spec fn spec_flagged(g: Option<ChunkGraphics>) -> Option<ChunkGraphics> {
    match g {
        Option::Some(g) => Option::Some(
            ChunkGraphics {
                solid_mesh: g.solid_mesh,
                water_mesh: g.water_mesh,
                water_faces: g.water_faces,
                water_faces_unsorted: true,
            },
        ),
        Option::None => Option::None,
    }
}

/// Whether the chunk at the coordinates holds water faces flagged
/// stale.
pub open spec fn chunk_water_stale(w: World, c: ChunkCoords) -> bool {
    w.has_chunk(c.x as int, c.z as int) && match w.chunk_at(c.x as int, c.z as int).graphics {
        Option::Some(g) => g.water_faces_unsorted,
        Option::None => false,
    }
}

/// The first render-list index at or after `i` naming a chunk with stale
/// water faces, or -1.
pub open spec fn stale_from(w: World, rq: Seq<ChunkCoords>, i: int) -> int
    decreases rq.len() - i,
{
    if i < 0 || i >= rq.len() {
        -1
    } else if chunk_water_stale(w, rq[i]) {
        i
    } else {
        stale_from(w, rq, i + 1)
    }
}

/// Whether the camera and the chunk sit where the fixed-point re-sort is
/// exact.
pub open spec fn water_sort_ok(c: ChunkCoords, cam_x: int, cam_y: int, cam_z: int) -> bool {
    &&& -2000000 < c.x < 2000000 && -2000000 < c.z < 2000000
    &&& -0x40000000 <= cam_x - 1024 * c.x <= 0x40000000
    &&& -0x40000000 <= cam_z - 1024 * c.z <= 0x40000000
    &&& -0x40000000 <= cam_y <= 0x40000000
}

/// Every recorded face is within the sort's working bounds.
pub open spec fn spec_faces_sortable(faces: Seq<Face>) -> bool {
    faces.len() <= 100000000 && forall|k: int|
        0 <= k < faces.len() ==> {
            &&& dist_safe((#[trigger] faces[k]).center_x as int)
            &&& dist_safe(faces[k].center_y as int)
            &&& dist_safe(faces[k].center_z as int)
            &&& faces[k].base_index <= u32::MAX - 3
        }
}

/// The first queue index at or after `i` naming a visible, loaded chunk
/// that still needs work, or -1.
pub open spec fn job_from(w: World, s: Seq<ChunkQueueItem>, i: int) -> int
    decreases s.len() - i,
{
    if i < 0 || i >= s.len() {
        -1
    } else if s[i].in_frustrum && w.has_chunk(s[i].x as int, s[i].z as int) && w.chunk_at(
        s[i].x as int,
        s[i].z as int,
    ).status != ChunkStatus::Ready {
        i
    } else {
        job_from(w, s, i + 1)
    }
}

impl World {
    /// The number of loaded chunks.
    pub fn num_chunks_loaded(&self) -> (r: usize)
        ensures
            r == self.slots@.len(),
    {
        self.slots.len()
    }

    /// The number of chunks on the current render list.
    pub fn num_chunks_rendered(&self) -> (r: usize)
        ensures
            r == self.render_queue@.len(),
    {
        self.render_queue.len()
    }

    /// The status of the chunk at the given coordinates, if loaded.
    pub fn get_status(&self, coords: ChunkCoords) -> (r: Option<ChunkStatus>)
        ensures
            match r {
                Some(st) => self.has_chunk(coords.x as int, coords.z as int) && st == self.chunk_at(
                    coords.x as int,
                    coords.z as int,
                ).status,
                None => !self.has_chunk(coords.x as int, coords.z as int),
            },
    {
        proof {
            lemma_find_props(self.slots@, 0, coords.x as int, coords.z as int);
        }
        match self.find(coords.x, coords.z) {
            Some(i) => Some(self.slots[i].chunk.status),
            None => None,
        }
    }

    /// Sets the status of the loaded chunk at the given coordinates;
    /// everything else stays as it was.
    pub fn set_status(&mut self, coords: ChunkCoords, status: ChunkStatus)
        requires
            old(self).wf(),
            old(self).has_chunk(coords.x as int, coords.z as int),
        ensures
            final(self).wf(),
            crate::world::same_aux(*old(self), *final(self)),
            final(self).slots@.len() == old(self).slots@.len(),
            forall|x: int, z: int|
                #[trigger] final(self).has_chunk(x, z) == old(self).has_chunk(x, z),
            final(self).chunk_at(coords.x as int, coords.z as int).status == status,
            final(self).chunk_at(coords.x as int, coords.z as int).data == old(self).chunk_at(
                coords.x as int,
                coords.z as int,
            ).data,
            final(self).chunk_at(coords.x as int, coords.z as int).graphics == old(
                self,
            ).chunk_at(coords.x as int, coords.z as int).graphics,
            forall|x: int, z: int|
                (x != coords.x as int || z != coords.z as int) && old(self).has_chunk(x, z)
                    ==> final(self).chunk_at(x, z) == old(self).chunk_at(x, z),
            forall|gx: int, gy: int, gz: int|
                #[trigger] final(self).spec_cell_at(gx, gy, gz) == old(self).spec_cell_at(
                    gx,
                    gy,
                    gz,
                ),
    {
        proof {
            lemma_find_props(self.slots@, 0, coords.x as int, coords.z as int);
        }
        let j = self.find(coords.x, coords.z).unwrap();
        let ghost s_old = self.slots@;
        let slot = &mut self.slots[j];
        slot.chunk.status = status;
        proof {
            self.lemma_one_slot_frame(*old(self), s_old, j as int);
        }
    }

    /// Installs freshly built geometry on the loaded chunk at the given
    /// coordinates; everything else stays as it was.
    pub fn install_graphics(&mut self, coords: ChunkCoords, graphics: ChunkGraphics)
        requires
            old(self).wf(),
            old(self).has_chunk(coords.x as int, coords.z as int),
        ensures
            final(self).wf(),
            crate::world::same_aux(*old(self), *final(self)),
            final(self).slots@.len() == old(self).slots@.len(),
            forall|x: int, z: int|
                #[trigger] final(self).has_chunk(x, z) == old(self).has_chunk(x, z),
            final(self).chunk_at(coords.x as int, coords.z as int).status == old(self).chunk_at(
                coords.x as int,
                coords.z as int,
            ).status,
            final(self).chunk_at(coords.x as int, coords.z as int).data == old(self).chunk_at(
                coords.x as int,
                coords.z as int,
            ).data,
            forall|x: int, z: int|
                (x != coords.x as int || z != coords.z as int) && old(self).has_chunk(x, z)
                    ==> final(self).chunk_at(x, z) == old(self).chunk_at(x, z),
            forall|gx: int, gy: int, gz: int|
                #[trigger] final(self).spec_cell_at(gx, gy, gz) == old(self).spec_cell_at(
                    gx,
                    gy,
                    gz,
                ),
    {
        proof {
            lemma_find_props(self.slots@, 0, coords.x as int, coords.z as int);
        }
        let j = self.find(coords.x, coords.z).unwrap();
        let ghost s_old = self.slots@;
        let slot = &mut self.slots[j];
        slot.chunk.graphics = Some(graphics);
        proof {
            self.lemma_one_slot_frame(*old(self), s_old, j as int);
        }
    }

    /// After mutating one slot's chunk without touching its coordinates,
    /// its cells, or its length, every lookup away from that slot is
    /// unchanged.
    proof fn lemma_one_slot_frame(self, w_old: World, s_old: Seq<ChunkSlot>, j: int)
        requires
            w_old.wf(),
            s_old == w_old.slots@,
            0 <= j < s_old.len(),
            self.slots@.len() == s_old.len(),
            self.slots@ == s_old.update(j, self.slots@[j]),
            self.slots@[j].x == s_old[j].x && self.slots@[j].z == s_old[j].z,
            self.slots@[j].chunk.data == s_old[j].chunk.data,
        ensures
            self.wf(),
            forall|x: int, z: int| #[trigger] self.has_chunk(x, z) == w_old.has_chunk(x, z),
            forall|x: int, z: int|
                (x != s_old[j].x as int || z != s_old[j].z as int) && w_old.has_chunk(x, z)
                    ==> #[trigger] self.chunk_at(x, z) == w_old.chunk_at(x, z),
            self.chunk_at(s_old[j].x as int, s_old[j].z as int) == self.slots@[j].chunk,
            w_old.chunk_at(s_old[j].x as int, s_old[j].z as int) == s_old[j].chunk,
            forall|gx: int, gy: int, gz: int|
                #[trigger] self.spec_cell_at(gx, gy, gz) == w_old.spec_cell_at(gx, gy, gz),
    {
        let s_new = self.slots@;
        lemma_find_same_coords_all(s_old, s_new);
        lemma_find_props_all(s_old);
        assert forall|x: int, z: int|
            (x != s_old[j].x as int || z != s_old[j].z as int) && w_old.has_chunk(x, z) implies
            #[trigger] self.chunk_at(x, z) == w_old.chunk_at(x, z) by {
            let k = find_slot(s_old, x, z);
            if k != j {
                assert(s_new[k] == s_old[k]);
            }
        }
        assert(find_slot(s_old, s_old[j].x as int, s_old[j].z as int) == j) by {
            lemma_find_props(s_old, 0, s_old[j].x as int, s_old[j].z as int);
            let k = find_slot(s_old, s_old[j].x as int, s_old[j].z as int);
            if k != j && k >= 0 {
                assert(false);
            } else if k == -1 {
                assert(slot_matches_here(s_old, j));
                assert(false);
            }
        }
        assert forall|gx: int, gy: int, gz: int| true implies #[trigger] self.spec_cell_at(
            gx,
            gy,
            gz,
        ) == w_old.spec_cell_at(gx, gy, gz) by {
            if 0 <= gy < 256 && w_old.has_chunk(
                crate::coords::chunk_of(gx),
                crate::coords::chunk_of(gz),
            ) {
                let k = find_slot(s_old, crate::coords::chunk_of(gx), crate::coords::chunk_of(gz));
                if k != j {
                    assert(s_new[k] == s_old[k]);
                } else {
                    assert(s_new[j].chunk.data == s_old[j].chunk.data);
                }
            }
        }
    }

    /// Compares the camera to its last known position: a new chunk marks
    /// the work queue for a nearest-first re-sort (and performs it), and
    /// a new block flags every chunk's water faces as stale. Chunk
    /// storage is untouched.
    pub fn begin_frame(&mut self, cam: BlockCoords)
        requires
            old(self).wf(),
            queue_bounded(old(self).queue.items@, 1000000),
            -16000000 <= cam.x <= 16000000,
            -16000000 <= cam.z <= 16000000,
        ensures
            final(self).wf(),
            same_storage(*old(self), *final(self)),
            queue_bounded(final(self).queue.items@, 1000000),
            final(self).prev_cam_block == cam,
            final(self).queue.needs_sort == false,
            final(self).prev_cam_chunk.x == chunk_of(cam.x as int)
                && final(self).prev_cam_chunk.z == chunk_of(cam.z as int),
            // a new camera chunk, or a pending sort, leaves the queue
            // sorted nearest-first about the camera's chunk
            (chunk_of(cam.x as int) != old(self).prev_cam_chunk.x as int || chunk_of(
                cam.z as int,
            ) != old(self).prev_cam_chunk.z as int || old(self).queue.needs_sort) ==> {
                &&& queue_sorted(
                    final(self).queue.items@,
                    chunk_of(cam.x as int),
                    chunk_of(cam.z as int),
                )
                &&& final(self).queue.items@.to_multiset() == old(self).queue.items@.to_multiset()
            },
            !(chunk_of(cam.x as int) != old(self).prev_cam_chunk.x as int || chunk_of(
                cam.z as int,
            ) != old(self).prev_cam_chunk.z as int || old(self).queue.needs_sort)
                ==> final(self).queue.items == old(self).queue.items,
            // a new camera block flags every chunk's water faces stale
            cam != old(self).prev_cam_block ==> forall|x: int, z: int|
                old(self).has_chunk(x, z) ==> #[trigger] final(self).chunk_at(x, z).graphics
                    == spec_flagged(old(self).chunk_at(x, z).graphics),
            cam == old(self).prev_cam_block ==> forall|x: int, z: int|
                old(self).has_chunk(x, z) ==> #[trigger] final(self).chunk_at(x, z).graphics
                    == old(self).chunk_at(x, z).graphics,
    {
        let (cam_chunk, _) = crate::coords::to_local_chunk_coords(cam);
        if cam_chunk.x != self.prev_cam_chunk.x || cam_chunk.z != self.prev_cam_chunk.z {
            self.queue.mark_unsorted();
            self.prev_cam_chunk = cam_chunk;
        }
        proof {
            lemma_storage_only_slots(*old(self), *self);
        }
        let ghost w_b = *self;
        let marked = cam.x != self.prev_cam_block.x || cam.y != self.prev_cam_block.y || cam.z
            != self.prev_cam_block.z;
        if marked {
            self.mark_all_water_unsorted();
            proof {
                lemma_storage_trans(*old(self), w_b, *self);
            }
        }
        let ghost w_a = *self;
        self.prev_cam_block = cam;
        let ghost w_mid2 = *self;
        if self.queue.needs_to_be_sorted() {
            let px = self.prev_cam_chunk.x;
            let pz = self.prev_cam_chunk.z;
            self.queue.sort(px, pz);
            self.render_queue_outdated = true;
        }
        proof {
            lemma_storage_only_slots(w_a, w_mid2);
            lemma_storage_trans(*old(self), w_a, w_mid2);
            lemma_storage_only_slots(w_mid2, *self);
            lemma_storage_trans(*old(self), w_mid2, *self);
            // chunk lookups are untouched after the flagging pass
            assert forall|x: int, z: int| old(self).has_chunk(x, z) implies (
            #[trigger] self.chunk_at(x, z)).graphics == w_a.chunk_at(x, z).graphics by {
                assert(w_mid2.chunk_at(x, z) == w_a.chunk_at(x, z));
                assert(self.chunk_at(x, z) == w_mid2.chunk_at(x, z));
            }
            if marked {
                assert forall|x: int, z: int| old(self).has_chunk(x, z) implies (
                #[trigger] self.chunk_at(x, z)).graphics == spec_flagged(
                    old(self).chunk_at(x, z).graphics,
                ) by {
                    assert(w_b.chunk_at(x, z) == old(self).chunk_at(x, z));
                    assert(w_a.chunk_at(x, z).graphics == spec_flagged(
                        w_b.chunk_at(x, z).graphics,
                    ));
                }
            } else {
                assert forall|x: int, z: int| old(self).has_chunk(x, z) implies (
                #[trigger] self.chunk_at(x, z)).graphics == old(self).chunk_at(x, z).graphics by {
                    assert(w_b.chunk_at(x, z) == old(self).chunk_at(x, z));
                    assert(w_a == w_b);
                }
            }
        }
    }

    /// Flags every loaded chunk's water faces as needing a re-sort;
    /// nothing else about any chunk changes.
    fn mark_all_water_unsorted(&mut self)
        requires
            old(self).wf(),
        ensures
            final(self).wf(),
            same_storage(*old(self), *final(self)),
            forall|x: int, z: int|
                old(self).has_chunk(x, z) ==> #[trigger] final(self).chunk_at(x, z).graphics
                    == spec_flagged(old(self).chunk_at(x, z).graphics),
            final(self).queue == old(self).queue,
            final(self).render_queue == old(self).render_queue,
            final(self).render_queue_outdated == old(self).render_queue_outdated,
            final(self).prev_cam_chunk == old(self).prev_cam_chunk,
            final(self).prev_cam_block == old(self).prev_cam_block,
    {
        let n = self.slots.len();
        let mut i: usize = 0;
        while i < n
            invariant
                i <= n,
                n == self.slots@.len(),
                self.wf(),
                same_storage(*old(self), *self),
                forall|j: int|
                    0 <= j < i ==> (#[trigger] self.slots@[j]).chunk.graphics == spec_flagged(
                        old(self).slots@[j].chunk.graphics,
                    ),
                forall|j: int|
                    0 <= j < i ==> (#[trigger] self.slots@[j]).x == old(self).slots@[j].x
                        && self.slots@[j].z == old(self).slots@[j].z,
                forall|j: int| i <= j < n ==> #[trigger] self.slots@[j] == old(self).slots@[j],
                self.queue == old(self).queue,
                self.render_queue == old(self).render_queue,
                self.render_queue_outdated == old(self).render_queue_outdated,
                self.prev_cam_chunk == old(self).prev_cam_chunk,
                self.prev_cam_block == old(self).prev_cam_block,
            decreases n - i,
        {
            let ghost w_pre = *self;
            let ghost s_old = self.slots@;
            let slot = &mut self.slots[i];
            match &mut slot.chunk.graphics {
                Some(g) => {
                    g.water_faces_unsorted = true;
                },
                None => {},
            }
            proof {
                self.lemma_one_slot_frame(w_pre, s_old, i as int);
                assert(self.slots@[i as int].chunk.status == s_old[i as int].chunk.status);
                assert(self.slots@[i as int].chunk.data == s_old[i as int].chunk.data);
                assert(self.slots@[i as int].chunk.graphics == spec_flagged(
                    old(self).slots@[i as int].chunk.graphics,
                ));
                assert(same_storage(w_pre, *self));
                lemma_storage_trans(*old(self), w_pre, *self);
            }
            i = i + 1;
        }
        proof {
            crate::world::lemma_find_same_coords_all(old(self).slots@, self.slots@);
            crate::world::lemma_find_props_all(old(self).slots@);
            assert forall|x: int, z: int| old(self).has_chunk(x, z) implies (
            #[trigger] self.chunk_at(x, z)).graphics == spec_flagged(
                old(self).chunk_at(x, z).graphics,
            ) by {
                let j = find_slot(old(self).slots@, x, z);
                assert(0 <= j < n);
                assert(self.slots@[j].chunk.graphics == spec_flagged(
                    old(self).slots@[j].chunk.graphics,
                ));
            }
        }
    }

    /// The nearest visible chunk that still needs work: generation or a
    /// rebuild of its geometry. None when everything visible is ready.
    pub fn next_job(&self) -> (r: Option<ChunkCoords>)
        ensures
            match r {
                Some(c) => {
                    let i = job_from(*self, self.queue.items@, 0);
                    &&& i >= 0
                    &&& c.x == self.queue.items@[i].x && c.z == self.queue.items@[i].z
                    &&& self.has_chunk(c.x as int, c.z as int)
                    &&& self.chunk_at(c.x as int, c.z as int).status != ChunkStatus::Ready
                },
                None => job_from(*self, self.queue.items@, 0) == -1,
            },
    {
        let n = self.queue.items.len();
        let mut i: usize = 0;
        while i < n
            invariant
                i <= n,
                n == self.queue.items@.len(),
                job_from(*self, self.queue.items@, 0) == job_from(*self, self.queue.items@, i as int),
            decreases n - i,
        {
            let it = self.queue.items[i];
            if it.in_frustrum {
                proof {
                    lemma_find_props(self.slots@, 0, it.x as int, it.z as int);
                }
                match self.find(it.x, it.z) {
                    Some(j) => {
                        if !matches!(self.slots[j].chunk.status, ChunkStatus::Ready) {
                            return Some(ChunkCoords { x: it.x, z: it.z });
                        }
                    },
                    None => {},
                }
            }
            i = i + 1;
        }
        None
    }

    /// Refreshes every queued chunk's visibility flag against the
    /// frustum and rebuilds the render list: the visible chunks that
    /// have geometry, in queue order. Chunk storage is untouched.
    pub fn refresh_visibility(&mut self, frustrum: &Frustrum)
        requires
            old(self).wf(),
            frustrum_bounded(*frustrum),
            queue_bounded(old(self).queue.items@, 100000),
        ensures
            final(self).wf(),
            same_storage(*old(self), *final(self)),
            queue_bounded(final(self).queue.items@, 100000),
            final(self).render_queue_outdated == false,
            forall|i: int|
                0 <= i < final(self).queue.items@.len()
                    ==> (#[trigger] final(self).queue.items@[i]).in_frustrum == spec_chunk_visible(
                    *frustrum,
                    old(self).queue.items@[i].x as int,
                    old(self).queue.items@[i].z as int,
                ),
            final(self).render_queue@ == rq_upto(
                *final(self),
                final(self).queue.items@,
                final(self).queue.items@.len() as int,
            ),
    {
        self.queue.clip_to_frustrum(frustrum);
        let n = self.queue.items.len();
        let mut rq: Vec<ChunkCoords> = Vec::new();
        let mut i: usize = 0;
        while i < n
            invariant
                i <= n,
                n == self.queue.items@.len(),
                self.wf(),
                rq@ == rq_upto(*self, self.queue.items@, i as int),
            decreases n - i,
        {
            let it = self.queue.items[i];
            if it.in_frustrum {
                proof {
                    lemma_find_props(self.slots@, 0, it.x as int, it.z as int);
                }
                match self.find(it.x, it.z) {
                    Some(j) => {
                        if self.slots[j].chunk.graphics.is_some() {
                            rq.push(ChunkCoords { x: it.x, z: it.z });
                        }
                    },
                    None => {},
                }
            }
            proof {
                assert(rq@ =~= rq_upto(*self, self.queue.items@, i as int + 1));
            }
            i = i + 1;
        }
        let ghost w_mid = *self;
        self.render_queue = rq;
        self.render_queue_outdated = false;
        proof {
            lemma_rq_upto_slots(w_mid, *self, self.queue.items@, self.queue.items@.len() as int);
            lemma_storage_only_slots(*old(self), *self);
        }
    }

    /// Re-sorts the water faces of at most one chunk: the first chunk on
    /// the render list whose faces are flagged stale, by squared
    /// distance to the camera (global, in sixty-fourths of a block),
    /// back to front. Cells and statuses are untouched.
    pub fn sort_one_water(&mut self, cam_x: i64, cam_y: i64, cam_z: i64)
        requires
            old(self).wf(),
            -0x20000000 <= cam_x <= 0x20000000,
            -0x20000000 <= cam_y <= 0x20000000,
            -0x20000000 <= cam_z <= 0x20000000,
        ensures
            final(self).wf(),
            same_storage(*old(self), *final(self)),
            // nothing stale: nothing touched
            stale_from(*old(self), old(self).render_queue@, 0) == -1 ==> forall|x: int, z: int|
                old(self).has_chunk(x, z) ==> #[trigger] final(self).chunk_at(x, z).graphics
                    == old(self).chunk_at(x, z).graphics,
            // otherwise exactly the first stale chunk's faces are put in
            // order and its flag cleared
            stale_from(*old(self), old(self).render_queue@, 0) >= 0 ==> ({
                let c = old(self).render_queue@[stale_from(
                    *old(self),
                    old(self).render_queue@,
                    0,
                )];
                &&& forall|x: int, z: int|
                    (x != c.x as int || z != c.z as int) && old(self).has_chunk(x, z)
                        ==> #[trigger] final(self).chunk_at(x, z).graphics == old(self).chunk_at(
                        x,
                        z,
                    ).graphics
                &&& match (
                    old(self).chunk_at(c.x as int, c.z as int).graphics,
                    final(self).chunk_at(c.x as int, c.z as int).graphics,
                ) {
                    (Option::Some(g0), Option::Some(g)) => {
                        &&& !g.water_faces_unsorted
                        &&& g.solid_mesh == g0.solid_mesh
                        &&& g.water_mesh.vertices == g0.water_mesh.vertices
                        &&& (water_sort_ok(c, cam_x as int, cam_y as int, cam_z as int)
                            && spec_faces_sortable(g0.water_faces@)) ==> {
                            &&& g.water_faces@.len() == g0.water_faces@.len()
                            &&& faces_sorted(g.water_faces@)
                            &&& keys_of(g.water_faces@).to_multiset() == keys_of(
                                g0.water_faces@,
                            ).to_multiset()
                            &&& forall|k: int|
                                0 <= k < g.water_faces@.len() ==> (
                                #[trigger] g.water_faces@[k]).distance == face_distance2(
                                    g.water_faces@[k],
                                    cam_x - 1024 * c.x,
                                    cam_y as int,
                                    cam_z - 1024 * c.z,
                                )
                            &&& g.water_mesh.indices@.len() == 6 * g.water_faces@.len()
                            &&& forall|i2: int|
                                0 <= i2 < 6 * g.water_faces@.len()
                                    ==> #[trigger] g.water_mesh.indices@[i2] == quad_index(i2 % 6)
                                    + g.water_faces@[i2 / 6].base_index
                        }
                        &&& !(water_sort_ok(c, cam_x as int, cam_y as int, cam_z as int)
                            && spec_faces_sortable(g0.water_faces@)) ==> g.water_faces
                            == g0.water_faces && g.water_mesh == g0.water_mesh
                    },
                    _ => false,
                }
            }),
    {
        let n = self.render_queue.len();
        let mut i: usize = 0;
        while i < n
            invariant
                i <= n,
                n == self.render_queue@.len(),
                self.wf(),
                *self == *old(self),
                stale_from(*old(self), old(self).render_queue@, 0) == stale_from(
                    *old(self),
                    old(self).render_queue@,
                    i as int,
                ),
                -0x20000000 <= cam_x <= 0x20000000,
                -0x20000000 <= cam_y <= 0x20000000,
                -0x20000000 <= cam_z <= 0x20000000,
            decreases n - i,
        {
            let coords = self.render_queue[i];
            proof {
                lemma_find_props(self.slots@, 0, coords.x as int, coords.z as int);
            }
            let found = match self.find(coords.x, coords.z) {
                Some(j) => {
                    let needs = match &self.slots[j].chunk.graphics {
                        Some(g) => g.water_faces_unsorted,
                        None => false,
                    };
                    if needs {
                        proof {
                            assert(chunk_water_stale(*old(self), coords));
                            assert(stale_from(*old(self), old(self).render_queue@, i as int)
                                == i as int);
                        }
                        let in_range = coords.x > -2000000 && coords.x < 2000000 && coords.z
                            > -2000000 && coords.z < 2000000;
                        let ghost w_pre = *self;
                        let ghost s_old = self.slots@;
                        let slot = &mut self.slots[j];
                        match &mut slot.chunk.graphics {
                            Some(g) => {
                                if in_range && faces_sortable(&g.water_faces) {
                                    let rx = cam_x - (coords.x as i64) * 16 * 64;
                                    let rz = cam_z - (coords.z as i64) * 16 * 64;
                                    if -0x40000000 <= rx && rx <= 0x40000000 && -0x40000000 <= rz
                                        && rz <= 0x40000000 && -0x40000000 <= cam_y && cam_y
                                        <= 0x40000000 {
                                        g.sort_water_faces(rx, cam_y, rz);
                                    } else {
                                        g.water_faces_unsorted = false;
                                    }
                                } else {
                                    g.water_faces_unsorted = false;
                                }
                            },
                            None => {},
                        }
                        proof {
                            self.lemma_one_slot_frame(w_pre, s_old, j as int);
                            assert(self.chunk_at(coords.x as int, coords.z as int)
                                == self.slots@[j as int].chunk);
                        }
                        true
                    } else {
                        false
                    }
                },
                None => false,
            };
            if found {
                return ;
            }
            i = i + 1;
        }
        proof {
            assert(stale_from(*old(self), old(self).render_queue@, n as int) == -1);
        }
    }
}

/// The render list of the first k queue items: the visible ones that
/// have geometry, in order.
pub open spec fn rq_upto(w: World, s: Seq<ChunkQueueItem>, k: int) -> Seq<ChunkCoords>
    decreases k,
{
    if k <= 0 {
        Seq::empty()
    } else {
        rq_upto(w, s, k - 1) + (if s[k - 1].in_frustrum && w.has_chunk(
            s[k - 1].x as int,
            s[k - 1].z as int,
        ) && w.chunk_at(s[k - 1].x as int, s[k - 1].z as int).graphics is Some {
            seq![ChunkCoords { x: s[k - 1].x, z: s[k - 1].z }]
        } else {
            Seq::empty()
        })
    }
}

/// Whether the slot at j covers its own coordinates, trivially true;
/// spelled out for one contradiction proof.
pub open spec fn slot_matches_here(s: Seq<ChunkSlot>, j: int) -> bool {
    crate::world::slot_matches(s, j, s[j].x as int, s[j].z as int)
}

/// Two worlds with the same slots have the same storage view.
pub proof fn lemma_storage_only_slots(w1: World, w2: World)
    requires
        w2.slots@ == w1.slots@,
    ensures
        same_storage(w1, w2),
        forall|x: int, z: int| #[trigger] w2.has_chunk(x, z) == w1.has_chunk(x, z),
        forall|x: int, z: int|
            w1.has_chunk(x, z) ==> #[trigger] w2.chunk_at(x, z) == w1.chunk_at(x, z),
{
    assert forall|x: int, z: int| #[trigger] w2.has_chunk(x, z) == w1.has_chunk(x, z) by {}
    assert forall|x: int, z: int|
        w1.has_chunk(x, z) implies #[trigger] w2.chunk_at(x, z) == w1.chunk_at(x, z) by {}
}

/// `same_storage` is transitive.
pub proof fn lemma_storage_trans(a: World, b: World, c: World)
    requires
        same_storage(a, b),
        same_storage(b, c),
    ensures
        same_storage(a, c),
{
    assert forall|x: int, z: int| #[trigger] c.has_chunk(x, z) == a.has_chunk(x, z) by {
        assert(b.has_chunk(x, z) == a.has_chunk(x, z));
        assert(c.has_chunk(x, z) == b.has_chunk(x, z));
    }
    assert forall|x: int, z: int|
        a.has_chunk(x, z) implies #[trigger] c.chunk_at(x, z).status == a.chunk_at(x, z).status
        && c.chunk_at(x, z).data@ == a.chunk_at(x, z).data@ by {
        assert(b.has_chunk(x, z) == a.has_chunk(x, z));
        assert(b.chunk_at(x, z).status == a.chunk_at(x, z).status);
        assert(c.chunk_at(x, z).status == b.chunk_at(x, z).status);
        assert(b.chunk_at(x, z).data@ == a.chunk_at(x, z).data@);
        assert(c.chunk_at(x, z).data@ == b.chunk_at(x, z).data@);
    }
}

/// A world with the same slots renders the same list from the same
/// queue.
proof fn lemma_rq_upto_slots(w1: World, w2: World, s: Seq<ChunkQueueItem>, k: int)
    requires
        w2.slots@ == w1.slots@,
    ensures
        rq_upto(w2, s, k) == rq_upto(w1, s, k),
    decreases k,
{
    if k > 0 {
        lemma_rq_upto_slots(w1, w2, s, k - 1);
    }
}

/// Whether every face satisfies the bounds the water sort needs.
fn faces_sortable(faces: &Vec<Face>) -> (r: bool)
    ensures
        r == spec_faces_sortable(faces@),
{
    let n = faces.len();
    if n > 100000000 {
        return false;
    }
    let mut i: usize = 0;
    while i < n
        invariant
            i <= n,
            n == faces@.len(),
            forall|k: int|
                0 <= k < i ==> {
                    &&& dist_safe((#[trigger] faces@[k]).center_x as int)
                    &&& dist_safe(faces@[k].center_y as int)
                    &&& dist_safe(faces@[k].center_z as int)
                    &&& faces@[k].base_index <= u32::MAX - 3
                },
        decreases n - i,
    {
        let f = &faces[i];
        if !(f.center_x >= -0x40000000 && f.center_x <= 0x40000000 && f.center_y >= -0x40000000
            && f.center_y <= 0x40000000 && f.center_z >= -0x40000000 && f.center_z <= 0x40000000
            && f.base_index <= u32::MAX - 3) {
            proof {
                assert(!(dist_safe((faces@[i as int]).center_x as int) && dist_safe(
                    faces@[i as int].center_y as int,
                ) && dist_safe(faces@[i as int].center_z as int) && faces@[i as int].base_index
                    <= u32::MAX - 3));
            }
            return false;
        }
        i = i + 1;
    }
    true
}

} // verus!
