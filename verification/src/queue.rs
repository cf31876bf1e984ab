//! The chunk work and render queue: every loaded chunk's coordinates,
//! kept sorted nearest-to-camera first so streaming work is spent close
//! by, with a per-chunk frustum visibility flag.

use vstd::prelude::*;

use crate::coords::ChunkCoords;
use crate::frustrum::{chunk_aabb, spec_chunk_aabb, spec_intersects, Frustrum};
use crate::graphics::lemma_swap_multiset;

verus! {

/// One queued chunk: its coordinates and whether it currently intersects
/// the view frustum.
#[derive(Clone, Copy, PartialEq, Eq, Structural, Debug)]
pub struct ChunkQueueItem {
    pub x: i32,
    pub z: i32,
    pub in_frustrum: bool,
}

/// Whether some item covers (x, z).
pub open spec fn queue_has(s: Seq<ChunkQueueItem>, x: int, z: int) -> bool {
    exists|i: int| 0 <= i < s.len() && (#[trigger] s[i]).x == x && s[i].z == z
}

/// The squared horizontal distance of an item's chunk to the point of
/// view, in chunks.
pub open spec fn item_key(it: ChunkQueueItem, cx: int, cz: int) -> int {
    (it.x - cx) * (it.x - cx) + (it.z - cz) * (it.z - cz)
}

/// Sorted nearest first with respect to the point of view.
pub open spec fn queue_sorted(s: Seq<ChunkQueueItem>, cx: int, cz: int) -> bool {
    forall|i: int, j: int|
        0 <= i <= j < s.len() ==> item_key(#[trigger] s[i], cx, cz) <= item_key(
            #[trigger] s[j],
            cx,
            cz,
        )
}

/// All queued coordinates within the given magnitude.
pub open spec fn queue_bounded(s: Seq<ChunkQueueItem>, m: int) -> bool {
    forall|i: int| 0 <= i < s.len() ==> -m <= (#[trigger] s[i]).x <= m && -m <= s[i].z <= m
}

/// Whether the chunk at (x, z) intersects the frustum.
pub open spec fn spec_chunk_visible(f: Frustrum, x: int, z: int) -> bool {
    spec_intersects(f, spec_chunk_aabb(x, z))
}

/// The coordinates of the visible items among the first k, in order.
pub open spec fn vis_upto(s: Seq<ChunkQueueItem>, k: int) -> Seq<ChunkCoords>
    decreases k,
{
    if k <= 0 {
        Seq::empty()
    } else {
        vis_upto(s, k - 1) + (if s[k - 1].in_frustrum {
            seq![ChunkCoords { x: s[k - 1].x, z: s[k - 1].z }]
        } else {
            Seq::empty()
        })
    }
}

/// The queue of all loaded chunks.
pub struct ChunkQueue {
    pub items: Vec<ChunkQueueItem>,
    pub needs_sort: bool,
    pub pov_x: i32,
    pub pov_z: i32,
}

impl ChunkQueue {
    /// An empty queue.
    pub fn new() -> (r: ChunkQueue)
        ensures
            r.items@.len() == 0,
            r.needs_sort == false,
            r.pov_x == 0 && r.pov_z == 0,
    {
        ChunkQueue { items: Vec::new(), needs_sort: false, pov_x: 0, pov_z: 0 }
    }

    /// Adds a chunk to the queue unless it is already there; a new entry
    /// starts invisible and marks the queue as needing a sort.
    pub fn insert(&mut self, x: i32, z: i32)
        ensures
            old(self).items@.len() <= final(self).items@.len() <= old(self).items@.len() + 1,
            queue_has(old(self).items@, x as int, z as int) ==> *final(self) == *old(self),
            !queue_has(old(self).items@, x as int, z as int) ==> {
                &&& final(self).items@ == old(self).items@.push(
                    ChunkQueueItem { x, z, in_frustrum: false },
                )
                &&& final(self).needs_sort == true
                &&& final(self).pov_x == old(self).pov_x && final(self).pov_z == old(self).pov_z
            },
            queue_has(final(self).items@, x as int, z as int),
    {
        let n = self.items.len();
        let mut i: usize = 0;
        while i < n
            invariant
                i <= n,
                n == self.items@.len(),
                forall|j: int| 0 <= j < i ==> !((#[trigger] self.items@[j]).x == x && self.items@[j].z == z),
            decreases n - i,
        {
            let it = &self.items[i];
            if it.x == x && it.z == z {
                proof {
                    assert((self.items@[i as int]).x == x && self.items@[i as int].z == z);
                }
                return ;
            }
            i = i + 1;
        }
        self.items.push(ChunkQueueItem { x, z, in_frustrum: false });
        self.needs_sort = true;
        proof {
            let s = self.items@;
            assert((s[s.len() - 1]).x == x && s[s.len() - 1].z == z);
        }
    }

    /// Flags the queue for re-sorting.
    pub fn mark_unsorted(&mut self)
        ensures
            final(self).items == old(self).items,
            final(self).needs_sort == true,
            final(self).pov_x == old(self).pov_x && final(self).pov_z == old(self).pov_z,
    {
        self.needs_sort = true;
    }

    /// Whether the queue must be sorted before draining work from it.
    pub fn needs_to_be_sorted(&self) -> (r: bool)
        ensures
            r == self.needs_sort,
    {
        self.needs_sort
    }

    /// Sorts the queue nearest-to-camera first. The same chunks remain,
    /// ordered by squared distance to the new point of view.
    pub fn sort(&mut self, cam_x: i32, cam_z: i32)
        requires
            queue_bounded(old(self).items@, 1000000),
            -1000000 <= cam_x <= 1000000,
            -1000000 <= cam_z <= 1000000,
        ensures
            final(self).items@.len() == old(self).items@.len(),
            final(self).items@.to_multiset() == old(self).items@.to_multiset(),
            queue_bounded(final(self).items@, 1000000),
            queue_sorted(final(self).items@, cam_x as int, cam_z as int),
            final(self).needs_sort == false,
            final(self).pov_x == cam_x && final(self).pov_z == cam_z,
    {
        self.pov_x = cam_x;
        self.pov_z = cam_z;
        self.needs_sort = false;
        let n = self.items.len();
        if n < 2 {
            return ;
        }
        let mut i: usize = 1;
        while i < n
            invariant
                1 <= i <= n,
                n == self.items@.len(),
                queue_bounded(self.items@, 1000000),
                -1000000 <= cam_x <= 1000000,
                -1000000 <= cam_z <= 1000000,
                queue_sorted(self.items@.take(i as int), cam_x as int, cam_z as int),
                self.items@.to_multiset() == old(self).items@.to_multiset(),
                self.needs_sort == false,
                self.pov_x == cam_x && self.pov_z == cam_z,
            decreases n - i,
        {
            proof {
                assert forall|a: int, b: int|
                    0 <= a <= b <= i && a != i && b != i implies item_key(
                    #[trigger] self.items@[a],
                    cam_x as int,
                    cam_z as int,
                ) <= item_key(#[trigger] self.items@[b], cam_x as int, cam_z as int) by {
                    assert(self.items@.take(i as int)[a] == self.items@[a]);
                    assert(self.items@.take(i as int)[b] == self.items@[b]);
                }
            }
            let mut j: usize = i;
            while j > 0 && item_dist(&self.items[j - 1], cam_x, cam_z) > item_dist(
                &self.items[j],
                cam_x,
                cam_z,
            )
                invariant
                    0 <= j <= i < n,
                    n == self.items@.len(),
                    queue_bounded(self.items@, 1000000),
                    -1000000 <= cam_x <= 1000000,
                    -1000000 <= cam_z <= 1000000,
                    self.items@.to_multiset() == old(self).items@.to_multiset(),
                    forall|a: int, b: int|
                        0 <= a <= b <= i && a != j && b != j ==> item_key(
                        #[trigger] self.items@[a],
                        cam_x as int,
                        cam_z as int,
                    ) <= item_key(#[trigger] self.items@[b], cam_x as int, cam_z as int),
                    forall|b: int|
                        j < b <= i ==> item_key(self.items@[j as int], cam_x as int, cam_z as int)
                            <= item_key(#[trigger] self.items@[b], cam_x as int, cam_z as int),
                    self.needs_sort == false,
                    self.pov_x == cam_x && self.pov_z == cam_z,
                decreases j,
            {
                let ghost pre = self.items@;
                let a = self.items[j - 1];
                let b = self.items[j];
                self.items[j - 1] = b;
                self.items[j] = a;
                proof {
                    assert(self.items@ =~= pre.update(j - 1, pre[j as int]).update(
                        j as int,
                        pre[j - 1],
                    ));
                    lemma_swap_multiset(pre, self.items@, j - 1, j as int);
                }
                j = j - 1;
            }
            proof {
                assert forall|a: int, b: int| 0 <= a <= b <= i implies item_key(
                    #[trigger] self.items@[a],
                    cam_x as int,
                    cam_z as int,
                ) <= item_key(#[trigger] self.items@[b], cam_x as int, cam_z as int) by {
                    if a == j && b != j {
                        assert(item_key(self.items@[j as int], cam_x as int, cam_z as int)
                            <= item_key(self.items@[b], cam_x as int, cam_z as int));
                    } else if b == j && a != j {
                        assert(item_key(self.items@[a], cam_x as int, cam_z as int) <= item_key(
                            self.items@[j - 1],
                            cam_x as int,
                            cam_z as int,
                        ));
                    }
                }
            }
            i = i + 1;
            proof {
                assert(queue_sorted(self.items@.take(i as int), cam_x as int, cam_z as int));
            }
        }
        proof {
            assert(self.items@.take(n as int) =~= self.items@);
        }
    }

    /// Refreshes every item's visibility flag against the frustum.
    pub fn clip_to_frustrum(&mut self, frustrum: &Frustrum)
        requires
            crate::frustrum::frustrum_bounded(*frustrum),
            queue_bounded(old(self).items@, 100000),
        ensures
            final(self).items@.len() == old(self).items@.len(),
            forall|i: int|
                0 <= i < final(self).items@.len() ==> {
                    &&& (#[trigger] final(self).items@[i]).x == old(self).items@[i].x
                    &&& final(self).items@[i].z == old(self).items@[i].z
                    &&& final(self).items@[i].in_frustrum == spec_intersects(
                        *frustrum,
                        spec_chunk_aabb(
                            old(self).items@[i].x as int,
                            old(self).items@[i].z as int,
                        ),
                    )
                },
            final(self).needs_sort == old(self).needs_sort,
            final(self).pov_x == old(self).pov_x && final(self).pov_z == old(self).pov_z,
    {
        let n = self.items.len();
        let mut i: usize = 0;
        while i < n
            invariant
                i <= n,
                n == self.items@.len(),
                n == old(self).items@.len(),
                crate::frustrum::frustrum_bounded(*frustrum),
                queue_bounded(old(self).items@, 100000),
                forall|k: int|
                    i <= k < n ==> #[trigger] self.items@[k] == old(self).items@[k],
                forall|k: int|
                    0 <= k < i ==> {
                        &&& (#[trigger] self.items@[k]).x == old(self).items@[k].x
                        &&& self.items@[k].z == old(self).items@[k].z
                        &&& self.items@[k].in_frustrum == spec_intersects(
                            *frustrum,
                            spec_chunk_aabb(
                                old(self).items@[k].x as int,
                                old(self).items@[k].z as int,
                            ),
                        )
                    },
                self.needs_sort == old(self).needs_sort,
                self.pov_x == old(self).pov_x && self.pov_z == old(self).pov_z,
            decreases n - i,
        {
            let it = self.items[i];
            let aabb = chunk_aabb(it.x, it.z);
            let vis = frustrum.intersects_with_aabb(&aabb);
            self.items[i] = ChunkQueueItem { x: it.x, z: it.z, in_frustrum: vis };
            i = i + 1;
        }
    }

    /// The coordinates of the currently visible chunks, in queue order.
    pub fn visible_coords(&self) -> (r: Vec<ChunkCoords>)
        ensures
            r@ == vis_upto(self.items@, self.items@.len() as int),
    {
        let n = self.items.len();
        let mut r: Vec<ChunkCoords> = Vec::new();
        let mut i: usize = 0;
        while i < n
            invariant
                i <= n,
                n == self.items@.len(),
                r@ == vis_upto(self.items@, i as int),
            decreases n - i,
        {
            let it = &self.items[i];
            if it.in_frustrum {
                r.push(ChunkCoords { x: it.x, z: it.z });
            }
            proof {
                assert(r@ =~= vis_upto(self.items@, i as int + 1));
            }
            i = i + 1;
        }
        r
    }
}

/// The squared chunk distance of an item to the point of view; see
/// `item_key`.
fn item_dist(it: &ChunkQueueItem, cx: i32, cz: i32) -> (r: i64)
    requires
        -1000000 <= it.x <= 1000000,
        -1000000 <= it.z <= 1000000,
        -1000000 <= cx <= 1000000,
        -1000000 <= cz <= 1000000,
    ensures
        r as int == item_key(*it, cx as int, cz as int),
{
    let dx: i64 = (it.x as i64) - (cx as i64);
    let dz: i64 = (it.z as i64) - (cz as i64);
    proof {
        assert(0 <= dx * dx <= 0x4000000000000 && 0 <= dz * dz <= 0x4000000000000)
            by (nonlinear_arith)
            requires
                -2000000 <= dx <= 2000000,
                -2000000 <= dz <= 2000000,
        ;
    }
    dx * dx + dz * dz
}

} // verus!
