//! The world: a sparse registry of chunks keyed by chunk coordinates.
//!
//! Chunks are held in a vector of slots; a linear search maps chunk
//! coordinates to the owning slot. Slots are only ever appended, so a
//! chunk keeps its slot for its whole life.

use vstd::prelude::*;

use crate::blocks::{id_transparent, spec_block_of, Block, BlockId};
use crate::chunk::{cell_idx, lemma_idx_of_coords, Cell, Chunk, ChunkStatus, CELL_COUNT};
use crate::coords::{
    chunk_of, lemma_coords_round_trip, local_of, to_local_chunk_coords, BlockCoords, ChunkCoords,
    WORLD_HEIGHT,
};
use crate::queue::{queue_has, ChunkQueue, ChunkQueueItem};

verus! {

/// One registry entry: a chunk and the coordinates it covers.
pub struct ChunkSlot {
    pub x: i32,
    pub z: i32,
    pub chunk: Chunk,
}

/// Whether slot `i` covers chunk coordinates (x, z).
pub open spec fn slot_matches(s: Seq<ChunkSlot>, i: int, x: int, z: int) -> bool {
    s[i].x == x && s[i].z == z
}

/// The first slot index at or after `i` covering (x, z), or -1.
pub open spec fn find_from(s: Seq<ChunkSlot>, i: int, x: int, z: int) -> int
    decreases s.len() - i,
{
    if i < 0 || i >= s.len() {
        -1
    } else if slot_matches(s, i, x, z) {
        i
    } else {
        find_from(s, i + 1, x, z)
    }
}

/// The slot index covering (x, z), or -1 when the chunk is not loaded.
pub open spec fn find_slot(s: Seq<ChunkSlot>, x: int, z: int) -> int {
    find_from(s, 0, x, z)
}

/// What `find_from` returns: either -1 with no match at or after `i`, or
/// the first matching index.
pub proof fn lemma_find_props(s: Seq<ChunkSlot>, i: int, x: int, z: int)
    requires
        0 <= i <= s.len(),
    ensures
        find_from(s, i, x, z) == -1 ==> forall|j: int| i <= j < s.len() ==> !slot_matches(s, j, x, z),
        find_from(s, i, x, z) != -1 ==> i <= find_from(s, i, x, z) < s.len() && slot_matches(
            s,
            find_from(s, i, x, z),
            x,
            z,
        ),
    decreases s.len() - i,
{
    if i < s.len() && !slot_matches(s, i, x, z) {
        lemma_find_props(s, i + 1, x, z);
    }
}

/// `find_from` only looks at the coordinate fields of the slots.
pub proof fn lemma_find_same_coords(s1: Seq<ChunkSlot>, s2: Seq<ChunkSlot>, i: int, x: int, z: int)
    requires
        s1.len() == s2.len(),
        forall|j: int| 0 <= j < s1.len() ==> s2[j].x == s1[j].x && s2[j].z == s1[j].z,
    ensures
        find_from(s2, i, x, z) == find_from(s1, i, x, z),
    decreases s1.len() - i,
{
    if 0 <= i < s1.len() && !slot_matches(s1, i, x, z) {
        lemma_find_same_coords(s1, s2, i + 1, x, z);
    }
}

/// Appending a slot leaves the result of a successful search unchanged,
/// and redirects a failed search to the new slot when it matches.
pub proof fn lemma_find_push(s: Seq<ChunkSlot>, slot: ChunkSlot, i: int, x: int, z: int)
    requires
        0 <= i <= s.len(),
    ensures
        find_from(s.push(slot), i, x, z) == (if find_from(s, i, x, z) != -1 {
            find_from(s, i, x, z)
        } else if slot.x == x && slot.z == z {
            s.len() as int
        } else {
            -1
        }),
    decreases s.len() - i,
{
    if i == s.len() {
        assert(find_from(s.push(slot), i + 1, x, z) == -1);
    } else if !slot_matches(s, i, x, z) {
        lemma_find_push(s, slot, i + 1, x, z);
    }
}

/// `lemma_find_props`, quantified over all chunk coordinates.
pub proof fn lemma_find_props_all(s: Seq<ChunkSlot>)
    ensures
        forall|x: int, z: int|
            #[trigger] find_from(s, 0, x, z) == -1 ==> forall|j: int|
                0 <= j < s.len() ==> !slot_matches(s, j, x, z),
        forall|x: int, z: int|
            #[trigger] find_from(s, 0, x, z) != -1 ==> 0 <= find_from(s, 0, x, z) < s.len()
                && slot_matches(s, find_from(s, 0, x, z), x, z),
{
    assert forall|x: int, z: int| #[trigger] find_from(s, 0, x, z) == -1 implies forall|j: int|
        0 <= j < s.len() ==> !slot_matches(s, j, x, z) by {
        lemma_find_props(s, 0, x, z);
    }
    assert forall|x: int, z: int| #[trigger] find_from(s, 0, x, z) != -1 implies 0 <= find_from(
        s,
        0,
        x,
        z,
    ) < s.len() && slot_matches(s, find_from(s, 0, x, z), x, z) by {
        lemma_find_props(s, 0, x, z);
    }
}

/// `lemma_find_push`, quantified over all chunk coordinates.
pub proof fn lemma_find_push_all(s: Seq<ChunkSlot>, slot: ChunkSlot)
    ensures
        forall|x: int, z: int|
            #[trigger] find_from(s.push(slot), 0, x, z) == (if find_from(s, 0, x, z) != -1 {
                find_from(s, 0, x, z)
            } else if slot.x == x && slot.z == z {
                s.len() as int
            } else {
                -1
            }),
{
    assert forall|x: int, z: int|
        #[trigger] find_from(s.push(slot), 0, x, z) == (if find_from(s, 0, x, z) != -1 {
            find_from(s, 0, x, z)
        } else if slot.x == x && slot.z == z {
            s.len() as int
        } else {
            -1
        }) by {
        lemma_find_push(s, slot, 0, x, z);
    }
}

/// `lemma_find_same_coords`, quantified over all chunk coordinates.
pub proof fn lemma_find_same_coords_all(s1: Seq<ChunkSlot>, s2: Seq<ChunkSlot>)
    requires
        s1.len() == s2.len(),
        forall|j: int| 0 <= j < s1.len() ==> s2[j].x == s1[j].x && s2[j].z == s1[j].z,
    ensures
        forall|x: int, z: int| #[trigger] find_from(s2, 0, x, z) == find_from(s1, 0, x, z),
{
    assert forall|x: int, z: int| #[trigger] find_from(s2, 0, x, z) == find_from(s1, 0, x, z) by {
        lemma_find_same_coords(s1, s2, 0, x, z);
    }
}

/// The world: the sparse chunk registry, the near-to-far work queue over
/// it, and the per-frame camera state driving re-sorts.
pub struct World {
    pub slots: Vec<ChunkSlot>,
    pub queue: ChunkQueue,
    pub render_queue: Vec<ChunkCoords>,
    pub render_queue_outdated: bool,
    pub prev_cam_chunk: ChunkCoords,
    pub prev_cam_block: BlockCoords,
}

/// The parts of the world beside the chunk storage are untouched: the
/// queue, the render list and the remembered camera position.
pub open spec fn same_aux(w1: World, w2: World) -> bool {
    &&& w2.queue == w1.queue
    &&& w2.render_queue == w1.render_queue
    &&& w2.render_queue_outdated == w1.render_queue_outdated
    &&& w2.prev_cam_chunk == w1.prev_cam_chunk
    &&& w2.prev_cam_block == w1.prev_cam_block
}

/// Two optional cells hold the same block identifier.
pub open spec fn blocks_match(a: Option<Cell>, b: Option<Cell>) -> bool {
    match (a, b) {
        (Option::Some(c), Option::Some(d)) => c.block_id == d.block_id,
        (Option::None, Option::None) => true,
        _ => false,
    }
}

/// The worlds have the same loaded chunks, the same statuses, and the
/// same block in every cell; only light values may differ.
pub open spec fn same_shape(w1: World, w2: World) -> bool {
    &&& w2.slots@.len() == w1.slots@.len()
    &&& forall|x: int, z: int| #[trigger] w2.has_chunk(x, z) == w1.has_chunk(x, z)
    &&& forall|x: int, z: int|
        w1.has_chunk(x, z) ==> #[trigger] w2.chunk_at(x, z).status == w1.chunk_at(x, z).status
    &&& forall|gx: int, gy: int, gz: int|
        blocks_match(w1.spec_cell_at(gx, gy, gz), #[trigger] w2.spec_cell_at(gx, gy, gz))
}

/// Every cell holding an opaque block is exactly as it was; the flood
/// fills only ever write light into transparent cells.
pub open spec fn opaque_cells_same(w1: World, w2: World) -> bool {
    forall|gx: int, gy: int, gz: int|
        match (w1.spec_cell_at(gx, gy, gz), #[trigger] w2.spec_cell_at(gx, gy, gz)) {
            (Option::Some(a), Option::Some(b)) => id_transparent(a.block_id) || b == a,
            (Option::None, Option::None) => true,
            _ => false,
        }
}

/// The status a chunk takes when its geometry is marked stale.
pub open spec fn invalidated(st: ChunkStatus) -> ChunkStatus {
    if st == ChunkStatus::Ready {
        ChunkStatus::GraphicsOutdated
    } else {
        st
    }
}

impl World {
    /// Every held chunk is well formed and no two slots cover the same
    /// chunk coordinates.
    pub open spec fn wf(self) -> bool {
        &&& forall|i: int| 0 <= i < self.slots@.len() ==> (#[trigger] self.slots@[i]).chunk.wf()
        &&& forall|i: int, j: int|
            0 <= i < j < self.slots@.len() ==> !(self.slots@[i].x == self.slots@[j].x
                && self.slots@[i].z == self.slots@[j].z)
    }

    /// Whether the chunk at (x, z) is loaded.
    pub open spec fn has_chunk(self, x: int, z: int) -> bool {
        find_slot(self.slots@, x, z) >= 0
    }

    /// The chunk at (x, z); meaningful only when `has_chunk`.
    pub open spec fn chunk_at(self, x: int, z: int) -> Chunk {
        self.slots@[find_slot(self.slots@, x, z)].chunk
    }

    /// The cell at global block coordinates, or None when the position is
    /// outside the world height or its chunk is not loaded.
    pub open spec fn spec_cell_at(self, gx: int, gy: int, gz: int) -> Option<Cell> {
        if !(0 <= gy < 256) {
            None
        } else if self.has_chunk(chunk_of(gx), chunk_of(gz)) {
            Some(
                self.chunk_at(chunk_of(gx), chunk_of(gz)).data@[cell_idx(
                    local_of(gx),
                    gy,
                    local_of(gz),
                )],
            )
        } else {
            None
        }
    }

    /// An empty world.
    pub fn new() -> (r: World)
        ensures
            r.wf(),
            r.slots@.len() == 0,
            r.queue.items@.len() == 0,
            r.render_queue@.len() == 0,
    {
        World {
            slots: Vec::new(),
            queue: ChunkQueue::new(),
            render_queue: Vec::new(),
            render_queue_outdated: true,
            prev_cam_chunk: ChunkCoords { x: 0, z: 0 },
            prev_cam_block: BlockCoords { x: 0, y: 0, z: 0 },
        }
    }

    /// The slot index of the chunk at (x, z), if loaded.
    pub fn find(&self, x: i32, z: i32) -> (r: Option<usize>)
        ensures
            match r {
                Some(i) => find_slot(self.slots@, x as int, z as int) == i && i < self.slots@.len()
                    && slot_matches(self.slots@, i as int, x as int, z as int),
                None => find_slot(self.slots@, x as int, z as int) == -1,
            },
    {
        let n = self.slots.len();
        let mut i: usize = 0;
        while i < n
            invariant
                i <= n,
                n == self.slots@.len(),
                find_slot(self.slots@, x as int, z as int) == find_from(
                    self.slots@,
                    i as int,
                    x as int,
                    z as int,
                ),
            decreases n - i,
        {
            let slot = &self.slots[i];
            if slot.x == x && slot.z == z {
                return Some(i);
            }
            i = i + 1;
        }
        None
    }

    /// Loads the chunk at the given coordinates: creates a fresh,
    /// all-air, not-yet-generated chunk there and queues it, unless one
    /// is already present; loading a chunk that is already loaded and
    /// queued changes nothing.
    pub fn load_chunk(&mut self, coords: ChunkCoords)
        requires
            old(self).wf(),
        ensures
            final(self).wf(),
            final(self).has_chunk(coords.x as int, coords.z as int),
            queue_has(final(self).queue.items@, coords.x as int, coords.z as int),
            final(self).render_queue == old(self).render_queue,
            final(self).render_queue_outdated == old(self).render_queue_outdated,
            final(self).prev_cam_chunk == old(self).prev_cam_chunk,
            final(self).prev_cam_block == old(self).prev_cam_block,
            queue_has(old(self).queue.items@, coords.x as int, coords.z as int)
                ==> final(self).queue == old(self).queue,
            !queue_has(old(self).queue.items@, coords.x as int, coords.z as int)
                ==> final(self).queue.items@ == old(self).queue.items@.push(
                ChunkQueueItem { x: coords.x, z: coords.z, in_frustrum: false },
            ) && final(self).queue.needs_sort,
            old(self).has_chunk(coords.x as int, coords.z as int) ==> final(self).slots@ == old(
                self,
            ).slots@,
            !old(self).has_chunk(coords.x as int, coords.z as int) ==> {
                let fresh = final(self).chunk_at(coords.x as int, coords.z as int);
                &&& fresh.graphics is None
                &&& fresh.data@.len() == CELL_COUNT
                &&& forall|i: int|
                    0 <= i < CELL_COUNT ==> fresh.data@[i] == (Cell {
                        block_id: BlockId::Air,
                        sun_light: 0,
                        block_light: 0,
                    })
            },
            !old(self).has_chunk(coords.x as int, coords.z as int) ==> {
                &&& final(self).slots@ == old(self).slots@.push(
                    final(self).slots@[old(self).slots@.len() as int],
                )
                &&& final(self).chunk_at(coords.x as int, coords.z as int).status
                    == ChunkStatus::NotGenerated
            },
            // every previously loaded chunk is untouched
            forall|x: int, z: int|
                old(self).has_chunk(x, z) ==> final(self).has_chunk(x, z) && final(self).chunk_at(
                    x,
                    z,
                ) == old(self).chunk_at(x, z),
    {
        proof {
            lemma_find_props(self.slots@, 0, coords.x as int, coords.z as int);
        }
        self.queue.insert(coords.x, coords.z);
        if self.find(coords.x, coords.z).is_some() {
            return ;
        }
        let slot = ChunkSlot { x: coords.x, z: coords.z, chunk: Chunk::new() };
        proof {
            lemma_find_push_all(self.slots@, slot);
            lemma_find_props_all(self.slots@);
        }
        let ghost s = self.slots@;
        let ghost gslot = slot;
        self.slots.push(slot);
        proof {
            let s2 = self.slots@;
            assert forall|i: int, j: int| 0 <= i < j < s2.len() implies !(s2[i].x == s2[j].x
                && s2[i].z == s2[j].z) by {
                if j < s.len() {
                    assert(s2[i] == s[i] && s2[j] == s[j]);
                } else {
                    assert(!slot_matches(s, i, coords.x as int, coords.z as int));
                    assert(s2[j] == gslot && s2[i] == s[i]);
                }
            }
        }
    }

    /// The chunk at the given coordinates, if loaded.
    pub fn borrow_chunk(&self, coords: ChunkCoords) -> (r: Option<&Chunk>)
        ensures
            match r {
                Some(c) => self.has_chunk(coords.x as int, coords.z as int) && *c == self.chunk_at(
                    coords.x as int,
                    coords.z as int,
                ),
                None => !self.has_chunk(coords.x as int, coords.z as int),
            },
    {
        match self.find(coords.x, coords.z) {
            Some(i) => Some(&self.slots[i].chunk),
            None => None,
        }
    }

    /// The block at global block coordinates, or None when the position is
    /// outside the world height or its chunk is not loaded.
    pub fn get_block(&self, coords: BlockCoords) -> (r: Option<Block>)
        requires
            self.wf(),
        ensures
            match r {
                Some(b) => self.spec_cell_at(coords.x as int, coords.y as int, coords.z as int)
                    is Some && b == spec_block_of(
                    self.spec_cell_at(
                        coords.x as int,
                        coords.y as int,
                        coords.z as int,
                    ).unwrap().block_id,
                ),
                None => self.spec_cell_at(coords.x as int, coords.y as int, coords.z as int)
                    is None,
            },
    {
        if coords.y < 0 || coords.y >= WORLD_HEIGHT {
            return None;
        }
        let (chunk_coords, local) = to_local_chunk_coords(coords);
        proof {
            lemma_find_props(self.slots@, 0, chunk_coords.x as int, chunk_coords.z as int);
        }
        match self.borrow_chunk(chunk_coords) {
            Some(chunk) => Some(
                chunk.get(local.x as usize, local.y as usize, local.z as usize).get_block(),
            ),
            None => None,
        }
    }

    /// The cell at global block coordinates, or None outside the world
    /// height or in an unloaded chunk.
    pub fn get_cell(&self, coords: BlockCoords) -> (r: Option<Cell>)
        requires
            self.wf(),
        ensures
            r == self.spec_cell_at(coords.x as int, coords.y as int, coords.z as int),
    {
        if coords.y < 0 || coords.y >= WORLD_HEIGHT {
            return None;
        }
        let (chunk_coords, local) = to_local_chunk_coords(coords);
        proof {
            lemma_find_props(self.slots@, 0, chunk_coords.x as int, chunk_coords.z as int);
        }
        match self.borrow_chunk(chunk_coords) {
            Some(chunk) => Some(chunk.get(local.x as usize, local.y as usize, local.z as usize)),
            None => None,
        }
    }

    /// Overwrites the cell at global block coordinates, which must name a
    /// loaded, in-height position. Every other cell, every status and the
    /// set of loaded chunks stay as they were.
    pub fn set_cell(&mut self, coords: BlockCoords, cell: Cell)
        requires
            old(self).wf(),
            old(self).spec_cell_at(coords.x as int, coords.y as int, coords.z as int) is Some,
            cell.sun_light <= 15,
            cell.block_light <= 15,
        ensures
            final(self).wf(),
            final(self).slots@.len() == old(self).slots@.len(),
            forall|x: int, z: int|
                #[trigger] final(self).has_chunk(x, z) == old(self).has_chunk(x, z),
            forall|x: int, z: int|
                old(self).has_chunk(x, z) ==> #[trigger] final(self).chunk_at(x, z).status == old(
                    self,
                ).chunk_at(x, z).status,
            same_aux(*old(self), *final(self)),
            final(self).spec_cell_at(coords.x as int, coords.y as int, coords.z as int) == Some(
                cell,
            ),
            forall|gx: int, gy: int, gz: int|
                (gx != coords.x as int || gy != coords.y as int || gz != coords.z as int)
                    ==> #[trigger] final(self).spec_cell_at(gx, gy, gz) == old(self).spec_cell_at(
                    gx,
                    gy,
                    gz,
                ),
    {
        let (chunk_coords, local) = to_local_chunk_coords(coords);
        proof {
            lemma_find_props(self.slots@, 0, chunk_coords.x as int, chunk_coords.z as int);
        }
        let j = self.find(chunk_coords.x, chunk_coords.z).unwrap();
        let idx: usize = ((local.x as usize) * 256 + (coords.y as usize)) * 16 + (local.z as usize);
        let ghost s_old = self.slots@;
        let slot = &mut self.slots[j];
        proof {
            lemma_idx_of_coords(local.x as int, coords.y as int, local.z as int);
        }
        slot.chunk.data[idx] = cell;
        proof {
            let s_new = self.slots@;
            lemma_find_same_coords_all(s_old, s_new);
            lemma_find_props_all(s_old);
            let cx = coords.x as int;
            let cy = coords.y as int;
            let cz = coords.z as int;
            assert forall|gx: int, gy: int, gz: int|
                (gx != cx || gy != cy || gz != cz) implies #[trigger] self.spec_cell_at(gx, gy, gz)
                == old(self).spec_cell_at(gx, gy, gz) by {
                if 0 <= gy < 256 && old(self).has_chunk(chunk_of(gx), chunk_of(gz)) {
                    let k = find_slot(s_old, chunk_of(gx), chunk_of(gz));
                    if k != j as int {
                        assert(s_new[k] == s_old[k]);
                    } else {
                        lemma_coords_round_trip(gx);
                        lemma_coords_round_trip(gz);
                        lemma_coords_round_trip(cx);
                        lemma_coords_round_trip(cz);
                        lemma_idx_of_coords(local_of(gx), gy, local_of(gz));
                        assert(cell_idx(local_of(gx), gy, local_of(gz)) != idx as int);
                    }
                }
            }
        }
    }

    /// Every cell the world holds has its light channels in range.
    pub proof fn lemma_cell_bounded(self, gx: int, gy: int, gz: int)
        requires
            self.wf(),
            self.spec_cell_at(gx, gy, gz) is Some,
        ensures
            self.spec_cell_at(gx, gy, gz).unwrap().sun_light <= 15,
            self.spec_cell_at(gx, gy, gz).unwrap().block_light <= 15,
    {
        lemma_find_props(self.slots@, 0, chunk_of(gx), chunk_of(gz));
        lemma_idx_of_coords(local_of(gx), gy, local_of(gz));
    }

    /// Marks the chunk at (x, z) as holding stale geometry, if loaded.
    /// Nothing else changes: not the loaded set, not any cell, not any
    /// other chunk's status.
    pub fn invalidate_at(&mut self, x: i32, z: i32)
        requires
            old(self).wf(),
        ensures
            final(self).wf(),
            same_aux(*old(self), *final(self)),
            final(self).slots@.len() == old(self).slots@.len(),
            forall|cx: int, cz: int|
                #[trigger] final(self).has_chunk(cx, cz) == old(self).has_chunk(cx, cz),
            forall|gx: int, gy: int, gz: int|
                #[trigger] final(self).spec_cell_at(gx, gy, gz) == old(self).spec_cell_at(
                    gx,
                    gy,
                    gz,
                ),
            forall|cx: int, cz: int|
                old(self).has_chunk(cx, cz) ==> #[trigger] final(self).chunk_at(cx, cz).status
                    == (if cx == x as int && cz == z as int {
                    invalidated(old(self).chunk_at(cx, cz).status)
                } else {
                    old(self).chunk_at(cx, cz).status
                }),
    {
        proof {
            lemma_find_props(self.slots@, 0, x as int, z as int);
        }
        let ghost s_old = self.slots@;
        match self.find(x, z) {
            Some(j) => {
                let slot = &mut self.slots[j];
                slot.chunk.invalidate_graphics();
                proof {
                    let s_new = self.slots@;
                    lemma_find_same_coords_all(s_old, s_new);
                    lemma_find_props_all(s_old);
                    assert forall|cx: int, cz: int| old(self).has_chunk(cx, cz) implies (
                    #[trigger] self.chunk_at(cx, cz)).status == (if cx == x as int && cz
                        == z as int {
                        invalidated(old(self).chunk_at(cx, cz).status)
                    } else {
                        old(self).chunk_at(cx, cz).status
                    }) by {
                        let k = find_slot(s_old, cx, cz);
                        if k != j as int {
                            assert(s_new[k] == s_old[k]);
                        }
                    }
                    assert forall|gx: int, gy: int, gz: int| true implies #[trigger] self.spec_cell_at(
                        gx,
                        gy,
                        gz,
                    ) == old(self).spec_cell_at(gx, gy, gz) by {
                        if 0 <= gy < 256 && old(self).has_chunk(chunk_of(gx), chunk_of(gz)) {
                            let k = find_slot(s_old, chunk_of(gx), chunk_of(gz));
                            if k != j as int {
                                assert(s_new[k] == s_old[k]);
                            }
                        }
                    }
                }
            },
            None => {},
        }
    }
}

} // verus!
