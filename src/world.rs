use std::collections::HashMap;
use std::collections::HashSet;
use std::collections::VecDeque;
use vstd::prelude::*;
use vstd::arithmetic::div_mod::lemma_fundamental_div_mod_converse;

use crate::block::{Block, solid};
use crate::chunk::{
    Chunk, CHUNK_SIZE_XY, CHUNK_VOLUME, block_index, cell_x, cell_y, cell_z, filled_from,
    get_coords, prepare_geometry,
};
use crate::coord::{Int3, coord_key, lemma_coord_key_injective};
use crate::mesh::{
    ChunkMesh, build_mesh, face_normal, is_mesh_of, neighbor_chunk, neighbor_coord,
    to_int3,
};

verus! {

broadcast use vstd::std_specs::hash::group_hash_axioms;

/// Chunks loaded per tick.
pub const PER_FRAME: usize = 1;

/// Chunks within this many chunks of the observer, per horizontal axis, are queued.
pub const RENDER_DISTANCE: i32 = 13;

/// Chunks farther than this from the observer on a horizontal axis are evicted;
/// it exceeds `RENDER_DISTANCE`, so nothing still needed is evicted.
pub const UNLOAD_DISTANCE: i32 = 16;

/// Whether chunk `c` lies within `radius` of `center` on both horizontal axes.
pub open spec fn within(c: Int3, center: Int3, radius: int) -> bool {
    -radius <= c.x - center.x <= radius && -radius <= c.z - center.z <= radius
}

/// The resident chunks, keyed by chunk coordinate.
pub struct WorldChunks {
    coords: Vec<Int3>,
    chunks: Vec<Chunk>,
}

/// The position of `needle` in a sequence without duplicates is the index it sits at.
proof fn lemma_index_of_unique(s: Seq<Int3>, i: int)
    requires
        s.no_duplicates(),
        0 <= i < s.len(),
    ensures
        s.index_of(s[i]) == i,
        s.contains(s[i]),
{
    assert(0 <= i < s.len() && s[i] == s[i]);
}

impl WorldChunks {
    /// Coordinates are unique, each has its chunk, and every chunk is well formed.
    pub closed spec fn wf(&self) -> bool {
        &&& self.coords@.len() == self.chunks@.len()
        &&& self.coords@.no_duplicates()
        &&& forall|i: int| 0 <= i < self.chunks@.len() ==> (#[trigger] self.chunks@[i]).wf()
    }

    /// The resident chunks as a map from chunk coordinate to chunk.
    pub closed spec fn view(&self) -> Map<Int3, Chunk> {
        Map::new(
            |c: Int3| self.coords@.contains(c),
            |c: Int3| self.chunks@[self.coords@.index_of(c)],
        )
    }

    proof fn lemma_view_at(&self, i: int)
        requires
            self.wf(),
            0 <= i < self.coords@.len(),
        ensures
            self@.contains_key(self.coords@[i]),
            self@[self.coords@[i]] == self.chunks@[i],
    {
        lemma_index_of_unique(self.coords@, i);
    }

    /// Every resident chunk is well formed and there are finitely many.
    pub proof fn lemma_chunks_wf(&self)
        requires
            self.wf(),
        ensures
            self@.dom().finite(),
            forall|c: Int3| #[trigger] self@.contains_key(c) ==> self@[c].wf(),
    {
        assert forall|c: Int3| #[trigger] self@.contains_key(c) implies self@[c].wf() by {
            let i = choose|i: int| 0 <= i < self.coords@.len() && self.coords@[i] == c;
            self.lemma_view_at(i);
        }
        assert(self@.dom() =~= self.coords@.to_set());
        vstd::seq_lib::seq_to_set_is_finite(self.coords@);
    }

    /// No chunk is resident.
    pub fn new() -> (r: Self)
        ensures
            r.wf(),
            r@ == Map::<Int3, Chunk>::empty(),
    {
        let r = WorldChunks { coords: Vec::new(), chunks: Vec::new() };
        assert(r@ =~= Map::<Int3, Chunk>::empty());
        r
    }

    /// Number of resident chunks.
    pub fn len(&self) -> (r: usize)
        requires
            self.wf(),
        ensures
            r == self@.dom().len(),
    {
        proof {
            assert(self@.dom() =~= self.coords@.to_set());
            self.coords@.unique_seq_to_set();
        }
        self.coords.len()
    }

    fn position(&self, c: &Int3) -> (r: Option<usize>)
        requires
            self.wf(),
        ensures
            match r {
                Some(i) => i < self.coords@.len() && self.coords@[i as int] == *c,
                None => !self@.contains_key(*c),
            },
    {
        let mut i: usize = 0;
        while i < self.coords.len()
            invariant
                i <= self.coords@.len(),
                forall|k: int| 0 <= k < i ==> self.coords@[k] != *c,
            decreases self.coords@.len() - i,
        {
            if self.coords[i] == *c {
                return Some(i);
            }
            i = i + 1;
        }
        None
    }

    /// Whether a chunk is resident at `c`.
    pub fn contains_key(&self, c: &Int3) -> (r: bool)
        requires
            self.wf(),
        ensures
            r == self@.contains_key(*c),
    {
        match self.position(c) {
            Some(i) => {
                proof {
                    self.lemma_view_at(i as int);
                }
                true
            },
            None => false,
        }
    }

    /// The chunk resident at `c`, if any.
    pub fn get(&self, c: &Int3) -> (r: Option<&Chunk>)
        requires
            self.wf(),
        ensures
            match r {
                Some(ch) => self@.contains_key(*c) && *ch == self@[*c] && ch.wf(),
                None => !self@.contains_key(*c),
            },
    {
        match self.position(c) {
            Some(i) => {
                proof {
                    self.lemma_view_at(i as int);
                }
                Some(&self.chunks[i])
            },
            None => None,
        }
    }

    /// Makes `chunk` the chunk resident at `c`, replacing any chunk there.
    pub fn insert(&mut self, c: Int3, chunk: Chunk)
        requires
            old(self).wf(),
            chunk.wf(),
        ensures
            final(self).wf(),
            final(self)@ == old(self)@.insert(c, chunk),
    {
        let ghost old_self = *self;
        match self.position(&c) {
            Some(i) => {
                self.chunks.set(i, chunk);
                proof {
                    assert forall|k: Int3| #[trigger] old_self@.insert(c, chunk).contains_key(
                        k,
                    ) implies self@.contains_key(k) && self@[k] == old_self@.insert(c, chunk)[k] by {
                        if k == c {
                            self.lemma_view_at(i as int);
                        } else {
                            let j = choose|j: int|
                                0 <= j < old_self.coords@.len() && old_self.coords@[j] == k;
                            old_self.lemma_view_at(j);
                            self.lemma_view_at(j);
                        }
                    }
                    assert(self@ =~= old_self@.insert(c, chunk));
                }
            },
            None => {
                self.coords.push(c);
                self.chunks.push(chunk);
                proof {
                    assert(!old_self.coords@.contains(c));
                    assert forall|k: Int3| #[trigger] old_self@.insert(c, chunk).contains_key(
                        k,
                    ) implies self@.contains_key(k) && self@[k] == old_self@.insert(c, chunk)[k] by {
                        if k == c {
                            self.lemma_view_at(old_self.coords@.len() as int);
                        } else {
                            let j = choose|j: int|
                                0 <= j < old_self.coords@.len() && old_self.coords@[j] == k;
                            old_self.lemma_view_at(j);
                            self.lemma_view_at(j);
                        }
                    }
                    assert forall|k: Int3| #[trigger] self@.contains_key(k) implies old_self@.insert(
                        c,
                        chunk,
                    ).contains_key(k) by {
                        let j = choose|j: int| 0 <= j < self.coords@.len() && self.coords@[j] == k;
                        if j < old_self.coords@.len() {
                            old_self.lemma_view_at(j);
                        }
                    }
                    assert(self@ =~= old_self@.insert(c, chunk));
                }
            },
        }
    }

    /// Removes the entry at position `i`.
    fn remove_at(&mut self, i: usize)
        requires
            old(self).wf(),
            i < old(self).coords@.len(),
        ensures
            final(self).wf(),
            final(self)@ == old(self)@.remove(old(self).coords@[i as int]),
            final(self).coords@ == old(self).coords@.remove(i as int),
    {
        let ghost old_self = *self;
        let ghost c = self.coords@[i as int];
        self.coords.remove(i);
        self.chunks.remove(i);
        proof {
            let s = old_self.coords@;
            assert forall|k: Int3| #[trigger] self@.contains_key(k) implies old_self@.remove(
                c,
            ).contains_key(k) && self@[k] == old_self@.remove(c)[k] by {
                let j = choose|j: int| 0 <= j < self.coords@.len() && self.coords@[j] == k;
                self.lemma_view_at(j);
                if j < i {
                    old_self.lemma_view_at(j);
                } else {
                    old_self.lemma_view_at(j + 1);
                }
            }
            assert forall|k: Int3| #[trigger] old_self@.remove(c).contains_key(k) implies self@.contains_key(
                k,
            ) by {
                let j = choose|j: int| 0 <= j < s.len() && s[j] == k;
                if j < i {
                    self.lemma_view_at(j);
                } else {
                    self.lemma_view_at(j - 1);
                }
            }
            assert(self@ =~= old_self@.remove(c));
        }
    }

    /// Sets the block at linear index `index` of the chunk resident at `c`.
    /// Returns whether such a chunk was resident; if not, nothing changes.
    pub fn set_block(&mut self, c: &Int3, index: usize, block: Block) -> (r: bool)
        requires
            old(self).wf(),
            index < CHUNK_VOLUME,
        ensures
            final(self).wf(),
            r == old(self)@.contains_key(*c),
            final(self)@.dom() == old(self)@.dom(),
            forall|k: Int3| k != *c && #[trigger] old(self)@.contains_key(k) ==> final(self)@[k]
                == old(self)@[k],
            r ==> final(self)@[*c].blocks@ == old(self)@[*c].blocks@.update(index as int, block),
    {
        let ghost old_self = *self;
        match self.position(c) {
            Some(i) => {
                let mut chunk = self.chunks.remove(i);
                chunk.blocks.set(index, block);
                self.chunks.insert(i, chunk);
                proof {
                    assert forall|k: Int3| #[trigger] self@.contains_key(k) implies old_self@.contains_key(k) by {
                        let j = choose|j: int| 0 <= j < self.coords@.len() && self.coords@[j] == k;
                        old_self.lemma_view_at(j);
                    }
                    assert forall|k: Int3| #[trigger] old_self@.contains_key(k) implies self@.contains_key(k)
                        && (k != *c ==> self@[k] == old_self@[k]) && (k == *c ==> self@[k].blocks@
                        == old_self@[k].blocks@.update(index as int, block)) by {
                        let j = choose|j: int|
                            0 <= j < old_self.coords@.len() && old_self.coords@[j] == k;
                        old_self.lemma_view_at(j);
                        self.lemma_view_at(j);
                        old_self.lemma_view_at(i as int);
                    }
                    assert(self@.dom() =~= old_self@.dom());
                }
                true
            },
            None => false,
        }
    }

    /// Evicts every chunk farther than `radius` from `center` on a horizontal
    /// axis and returns the evicted coordinates, each once.
    pub fn retain_within(&mut self, center: Int3, radius: i32) -> (evicted: Vec<Int3>)
        requires
            old(self).wf(),
        ensures
            final(self).wf(),
            final(self)@ == old(self)@.restrict(
                old(self)@.dom().filter(|c: Int3| within(c, center, radius as int)),
            ),
            evicted@.no_duplicates(),
            forall|c: Int3|
                #[trigger] evicted@.contains(c) <==> old(self)@.contains_key(c) && !within(
                    c,
                    center,
                    radius as int,
                ),
    {
        let ghost old_self = *self;
        let mut evicted: Vec<Int3> = Vec::new();
        let mut i: usize = 0;
        while i < self.coords.len()
            invariant
                self.wf(),
                i <= self.coords@.len(),
                forall|k: int| 0 <= k < i ==> within(#[trigger] self.coords@[k], center, radius as int),
                forall|c: Int3| #[trigger] self@.contains_key(c) ==> old_self@.contains_key(c) && self@[c]
                    == old_self@[c],
                forall|c: Int3|
                    #[trigger] old_self@.contains_key(c) && within(c, center, radius as int)
                        ==> self@.contains_key(c),
                evicted@.no_duplicates(),
                forall|c: Int3|
                    #[trigger] evicted@.contains(c) ==> old_self@.contains_key(c) && !within(
                        c,
                        center,
                        radius as int,
                    ) && !self@.contains_key(c),
                forall|c: Int3|
                    #[trigger] old_self@.contains_key(c) && !self@.contains_key(c)
                        ==> evicted@.contains(c),
            decreases self.coords@.len() - i,
        {
            let c = self.coords[i];
            let dx = c.x as i64 - center.x as i64;
            let dz = c.z as i64 - center.z as i64;
            let r = radius as i64;
            if dx < -r || dx > r || dz < -r || dz > r {
                proof {
                    self.lemma_view_at(i as int);
                }
                let ghost before = *self;
                self.remove_at(i);
                proof {
                    assert forall|k: int| 0 <= k < i implies within(
                        #[trigger] self.coords@[k],
                        center,
                        radius as int,
                    ) by {
                        assert(self.coords@[k] == before.coords@[k]);
                    }
                    assert(!evicted@.contains(c));
                }
                let ghost old_ev = evicted@;
                evicted.push(c);
                proof {
                    assert(evicted@ == old_ev.push(c));
                    assert forall|x: Int3| #[trigger] evicted@.contains(x) implies old_self@.contains_key(
                        x,
                    ) && !within(x, center, radius as int) && !self@.contains_key(x) by {
                        let j = choose|j: int| 0 <= j < evicted@.len() && evicted@[j] == x;
                        if j < old_ev.len() {
                            assert(old_ev[j] == x);
                            assert(old_ev.contains(x));
                        }
                    }
                    assert forall|x: Int3| #[trigger] old_self@.contains_key(x) && !self@.contains_key(
                        x,
                    ) implies evicted@.contains(x) by {
                        if x == c {
                            assert(evicted@[old_ev.len() as int] == c);
                        } else {
                            assert(!before@.contains_key(x));
                            assert(old_ev.contains(x));
                            let j = choose|j: int| 0 <= j < old_ev.len() && old_ev[j] == x;
                            assert(evicted@[j] == x);
                        }
                    }
                    assert forall|a: int, b: int|
                        0 <= a < evicted@.len() && 0 <= b < evicted@.len() && a != b implies evicted@[a]
                        != evicted@[b] by {
                        if a < old_ev.len() && b == old_ev.len() {
                            assert(old_ev.contains(evicted@[a]));
                        }
                        if b < old_ev.len() && a == old_ev.len() {
                            assert(old_ev.contains(evicted@[b]));
                        }
                    }
                }
            } else {
                i = i + 1;
            }
        }
        proof {
            let target = old_self@.restrict(
                old_self@.dom().filter(|c: Int3| within(c, center, radius as int)),
            );
            assert forall|c: Int3| #[trigger] self@.contains_key(c) implies within(
                c,
                center,
                radius as int,
            ) by {
                let j = choose|j: int| 0 <= j < self.coords@.len() && self.coords@[j] == c;
            }
            assert(self@ =~= target);
        }
        evicted
    }
}

/// Coordinates waiting to be loaded, in first-in first-out order, with the
/// set of their keys for constant-time membership tests.
pub struct ChunkQueue {
    pub queue: VecDeque<Int3>,
    pub queued_set: HashSet<u128>,
}

impl ChunkQueue {
    /// No coordinate is queued twice, and the set holds exactly the keys of
    /// the queued coordinates.
    pub open spec fn wf(&self) -> bool {
        &&& self.queue@.no_duplicates()
        &&& forall|k: u128| #[trigger]
            self.queued_set@.contains(k) <==> exists|i: int|
                0 <= i < self.queue@.len() && coord_key(#[trigger] self.queue@[i]) == k
    }

    /// The queued coordinates, oldest first.
    pub open spec fn view(&self) -> Seq<Int3> {
        self.queue@
    }

    /// An empty queue.
    pub fn new() -> (r: Self)
        ensures
            r.wf(),
            r@ == Seq::<Int3>::empty(),
    {
        ChunkQueue { queue: VecDeque::new(), queued_set: HashSet::new() }
    }

    /// Number of queued coordinates.
    pub fn len(&self) -> (r: usize)
        ensures
            r == self@.len(),
    {
        self.queue.len()
    }

    /// Whether `c` is queued.
    pub fn contains(&self, c: &Int3) -> (r: bool)
        requires
            self.wf(),
        ensures
            r == self@.contains(*c),
    {
        let r = self.queued_set.contains(&c.key());
        proof {
            if r {
                let i = choose|i: int|
                    0 <= i < self.queue@.len() && coord_key(#[trigger] self.queue@[i]) == coord_key(*c);
                lemma_coord_key_injective(self.queue@[i], *c);
            } else {
                if self@.contains(*c) {
                    let i = choose|i: int| 0 <= i < self.queue@.len() && self.queue@[i] == *c;
                    assert(self.queued_set@.contains(coord_key(self.queue@[i])));
                }
            }
        }
        r
    }

    /// Appends `c`, which is not queued yet.
    pub fn enqueue(&mut self, c: Int3)
        requires
            old(self).wf(),
            !old(self)@.contains(c),
        ensures
            final(self).wf(),
            final(self)@ == old(self)@.push(c),
    {
        let ghost q0 = self.queue@;
        self.queue.push_back(c);
        self.queued_set.insert(c.key());
        proof {
            let q = self.queue@;
            assert(q == q0.push(c));
            assert forall|k: u128| #[trigger] self.queued_set@.contains(k) <==> exists|i: int|
                0 <= i < q.len() && coord_key(#[trigger] q[i]) == k by {
                if k == coord_key(c) {
                    assert(coord_key(q[q0.len() as int]) == k);
                } else if old(self).queued_set@.contains(k) {
                    let i = choose|i: int| 0 <= i < q0.len() && coord_key(#[trigger] q0[i]) == k;
                    assert(q[i] == q0[i]);
                } else if exists|i: int| 0 <= i < q.len() && coord_key(#[trigger] q[i]) == k {
                    let i = choose|i: int| 0 <= i < q.len() && coord_key(#[trigger] q[i]) == k;
                    assert(i < q0.len());
                    assert(q0[i] == q[i]);
                }
            }
            assert forall|a: int, b: int| 0 <= a < q.len() && 0 <= b < q.len() && a != b implies q[a]
                != q[b] by {
                if a == q0.len() {
                    assert(q0.contains(q[b]) || b == q0.len());
                } else if b == q0.len() {
                    assert(q0.contains(q[a]));
                }
            }
        }
    }

    /// Removes and returns the oldest queued coordinate, if any.
    pub fn dequeue(&mut self) -> (r: Option<Int3>)
        requires
            old(self).wf(),
        ensures
            final(self).wf(),
            match r {
                Some(c) => old(self)@.len() > 0 && c == old(self)@[0] && final(self)@ == old(self)@.drop_first(),
                None => old(self)@.len() == 0 && final(self)@ == old(self)@,
            },
    {
        let ghost q0 = self.queue@;
        match self.queue.pop_front() {
            Some(c) => {
                self.queued_set.remove(&c.key());
                proof {
                    let q = self.queue@;
                    assert(q =~= q0.drop_first());
                    assert forall|k: u128| #[trigger] self.queued_set@.contains(k) <==> exists|i: int|
                        0 <= i < q.len() && coord_key(#[trigger] q[i]) == k by {
                        if k == coord_key(c) {
                            if exists|i: int| 0 <= i < q.len() && coord_key(#[trigger] q[i]) == k {
                                let i = choose|i: int| 0 <= i < q.len() && coord_key(#[trigger] q[i]) == k;
                                lemma_coord_key_injective(q[i], c);
                                assert(q0[i + 1] == q0[0]);
                            }
                        } else if self.queued_set@.contains(k) {
                            let j = choose|j: int| 0 <= j < q0.len() && coord_key(#[trigger] q0[j]) == k;
                            assert(j != 0);
                            assert(q[j - 1] == q0[j]);
                        } else if exists|i: int| 0 <= i < q.len() && coord_key(#[trigger] q[i]) == k {
                            let i = choose|i: int| 0 <= i < q.len() && coord_key(#[trigger] q[i]) == k;
                            assert(q0[i + 1] == q[i]);
                        }
                    }
                }
                Some(c)
            },
            None => None,
        }
    }
}

/// The chunk the observer occupied when the queue was last filled.
pub struct PlayerChunk {
    pub last_chunk: Option<Int3>,
}

impl PlayerChunk {
    /// No chunk visited yet.
    pub fn new() -> (r: Self)
        ensures
            r.last_chunk is None,
    {
        PlayerChunk { last_chunk: None }
    }
}

/// Row `dx` of the square scanned around `o`: the coordinates
/// `(o.x + dx, 0, o.z + dz)` for `dz` from `-r` to `r`.
pub open spec fn scan_row(o: Int3, r: int, dx: int) -> Seq<Int3> {
    Seq::new((2 * r + 1) as nat, |j: int| Int3 { x: (o.x + dx) as i32, y: 0, z: (o.z - r + j) as i32 })
}

/// The first `n` rows of the scan, `dx` running from `-r` upward.
pub open spec fn scan_rows(o: Int3, r: int, n: nat) -> Seq<Int3>
    decreases n,
{
    if n == 0 {
        Seq::empty()
    } else {
        scan_rows(o, r, (n - 1) as nat) + scan_row(o, r, n - 1 - r)
    }
}

/// The chunk coordinates `[o.x - r, o.x + r] x {0} x [o.z - r, o.z + r]`, in
/// scan order.
pub open spec fn region_scan(o: Int3, r: int) -> Seq<Int3> {
    scan_rows(o, r, (2 * r + 1) as nat)
}

/// The queue `q` after offering each candidate in turn: a candidate is
/// appended when it is neither resident nor already queued.
pub open spec fn enqueue_new(q: Seq<Int3>, cands: Seq<Int3>, resident: Set<Int3>) -> Seq<Int3>
    decreases cands.len(),
{
    if cands.len() == 0 {
        q
    } else {
        let q1 = enqueue_new(q, cands.drop_last(), resident);
        let c = cands.last();
        if !resident.contains(c) && !q1.contains(c) {
            q1.push(c)
        } else {
            q1
        }
    }
}

/// The queue holds no resident chunk.
pub open spec fn queue_disjoint(world: Map<Int3, Chunk>, queue: Seq<Int3>) -> bool {
    forall|c: Int3| #[trigger] queue.contains(c) ==> !world.contains_key(c)
}

/// Queues every chunk of the square of `render_distance` around the
/// observer's chunk that is neither resident nor queued, scanning only when
/// the observer has changed chunk since the last call.
pub fn queue_chunks(
    current_chunk: Int3,
    render_distance: i32,
    player_chunk: &mut PlayerChunk,
    world: &WorldChunks,
    chunk_queue: &mut ChunkQueue,
)
    requires
        world.wf(),
        old(chunk_queue).wf(),
        0 <= render_distance,
        i32::MIN <= current_chunk.x - render_distance,
        current_chunk.x + render_distance <= i32::MAX,
        i32::MIN <= current_chunk.z - render_distance,
        current_chunk.z + render_distance <= i32::MAX,
    ensures
        final(chunk_queue).wf(),
        final(player_chunk).last_chunk == Some(current_chunk),
        old(player_chunk).last_chunk == Some(current_chunk) ==> final(chunk_queue)@ == old(
            chunk_queue,
        )@,
        old(player_chunk).last_chunk != Some(current_chunk) ==> final(chunk_queue)@ == enqueue_new(
            old(chunk_queue)@,
            region_scan(current_chunk, render_distance as int),
            world@.dom(),
        ),
        queue_disjoint(world@, old(chunk_queue)@) ==> queue_disjoint(world@, final(chunk_queue)@),
{
    let unchanged = match player_chunk.last_chunk {
        Some(last) => last == current_chunk,
        None => false,
    };
    player_chunk.last_chunk = Some(current_chunk);
    if unchanged {
        return;
    }
    let ghost q0 = chunk_queue@;
    let ghost dom = world@.dom();
    let ghost o = current_chunk;
    let ghost rr = render_distance as int;
    let r = render_distance as i64;
    let mut distance_x: i64 = -r;
    while distance_x <= r
        invariant
            world.wf(),
            dom == world@.dom(),
            rr == r,
            0 <= r,
            o == current_chunk,
            -r <= distance_x <= r + 1,
            i32::MIN <= o.x - r,
            o.x + r <= i32::MAX,
            i32::MIN <= o.z - r,
            o.z + r <= i32::MAX,
            chunk_queue.wf(),
            chunk_queue@ == enqueue_new(q0, scan_rows(o, rr, (distance_x + r) as nat), dom),
            forall|c: Int3| #[trigger] chunk_queue@.contains(c) ==> q0.contains(c) || !dom.contains(c),
        decreases r + 1 - distance_x,
    {
        let ghost rows = scan_rows(o, rr, (distance_x + r) as nat);
        let ghost row = scan_row(o, rr, distance_x as int);
        let mut distance_z: i64 = -r;
        while distance_z <= r
            invariant
                world.wf(),
                dom == world@.dom(),
                rr == r,
                0 <= r,
                o == current_chunk,
                -r <= distance_x <= r,
                -r <= distance_z <= r + 1,
                i32::MIN <= o.x - r,
                o.x + r <= i32::MAX,
                i32::MIN <= o.z - r,
                o.z + r <= i32::MAX,
                rows == scan_rows(o, rr, (distance_x + r) as nat),
                row == scan_row(o, rr, distance_x as int),
                chunk_queue.wf(),
                chunk_queue@ == enqueue_new(q0, rows + row.take(distance_z + r), dom),
                forall|c: Int3| #[trigger] chunk_queue@.contains(c) ==> q0.contains(c) || !dom.contains(c),
            decreases r + 1 - distance_z,
        {
            let chunk_position = Int3 {
                x: (current_chunk.x as i64 + distance_x) as i32,
                y: 0,
                z: (current_chunk.z as i64 + distance_z) as i32,
            };
            let ghost before = rows + row.take(distance_z + r);
            proof {
                assert(row[distance_z + r] == chunk_position);
                assert((rows + row.take(distance_z + r + 1)).drop_last() =~= before);
                assert((rows + row.take(distance_z + r + 1)).last() == chunk_position);
            }
            if !world.contains_key(&chunk_position) && !chunk_queue.contains(&chunk_position) {
                let ghost q1 = chunk_queue@;
                chunk_queue.enqueue(chunk_position);
                proof {
                    assert forall|c: Int3| #[trigger] chunk_queue@.contains(c) implies q0.contains(c)
                        || !dom.contains(c) by {
                        if c != chunk_position {
                            let i = choose|i: int| 0 <= i < chunk_queue@.len() && chunk_queue@[i] == c;
                            assert(q1[i] == c);
                            assert(q1.contains(c));
                        } else {
                            assert(!world@.contains_key(c));
                        }
                    }
                }
            }
            distance_z = distance_z + 1;
        }
        proof {
            assert(row.take(2 * r + 1) =~= row);
        }
        distance_x = distance_x + 1;
    }
}

/// Takes up to `per_frame` coordinates from the front of the queue, in queue
/// order, for loading this tick.
pub fn load_chunks(per_frame: usize, chunk_queue: &mut ChunkQueue) -> (batch: Vec<Int3>)
    requires
        old(chunk_queue).wf(),
    ensures
        final(chunk_queue).wf(),
        batch@.len() == if old(chunk_queue)@.len() < per_frame {
            old(chunk_queue)@.len() as int
        } else {
            per_frame as int
        },
        batch@ == old(chunk_queue)@.take(batch@.len() as int),
        final(chunk_queue)@ == old(chunk_queue)@.skip(batch@.len() as int),
        forall|c: Int3| #[trigger] batch@.contains(c) ==> !final(chunk_queue)@.contains(c),
{
    let ghost q0 = chunk_queue@;
    let mut batch: Vec<Int3> = Vec::new();
    let mut n: usize = 0;
    while n < per_frame
        invariant
            n <= per_frame,
            chunk_queue.wf(),
            batch@.len() <= n,
            batch@.len() <= q0.len(),
            batch@.len() < n ==> batch@.len() == q0.len(),
            batch@ == q0.take(batch@.len() as int),
            chunk_queue@ == q0.skip(batch@.len() as int),
        decreases per_frame - n,
    {
        match chunk_queue.dequeue() {
            Some(c) => {
                batch.push(c);
                assert(batch@ =~= q0.take(batch@.len() as int));
                assert(chunk_queue@ =~= q0.skip(batch@.len() as int));
            },
            None => {},
        }
        n = n + 1;
    }
    proof {
        assert forall|c: Int3| #[trigger] batch@.contains(c) implies !chunk_queue@.contains(c) by {
            if chunk_queue@.contains(c) {
                let a = choose|a: int| 0 <= a < batch@.len() && batch@[a] == c;
                let b = choose|b: int| 0 <= b < chunk_queue@.len() && chunk_queue@[b] == c;
                assert(q0[a] == q0[b + batch@.len()]);
            }
        }
    }
    batch
}

/// The local positions of the solid cells with index below `n`, by index.
pub open spec fn solid_points(blocks: Seq<Block>, n: nat) -> Seq<Int3>
    decreases n,
{
    if n == 0 {
        Seq::empty()
    } else {
        let rest = solid_points(blocks, (n - 1) as nat);
        let i = n - 1;
        if solid(blocks[i]) {
            rest.push(Int3 { x: cell_x(i) as i32, y: cell_y(i) as i32, z: cell_z(i) as i32 })
        } else {
            rest
        }
    }
}

/// Extracts the local position of every solid block of the resident chunk at
/// `chunk_position`, by linear index.
pub fn get_points(chunk_position: &Int3, world: &WorldChunks) -> (points: Vec<Int3>)
    requires
        world.wf(),
        world@.contains_key(*chunk_position),
    ensures
        points@ == solid_points(world@[*chunk_position].blocks@, CHUNK_VOLUME as nat),
{
    let chunk = match world.get(chunk_position) {
        Some(c) => c,
        None => {
            return Vec::new();
        },
    };
    let ghost blocks = chunk.blocks@;
    let mut points: Vec<Int3> = Vec::new();
    let mut block_index: usize = 0;
    while block_index < CHUNK_VOLUME
        invariant
            block_index <= CHUNK_VOLUME,
            chunk.wf(),
            blocks == chunk.blocks@,
            points@ == solid_points(blocks, block_index as nat),
        decreases CHUNK_VOLUME - block_index,
    {
        let (block_x, block_y, block_z) = get_coords(block_index);
        let block = chunk.blocks[Chunk::get_index(block_x, block_y, block_z)];
        if block.is_solid() {
            points.push(Int3 { x: block_x as i32, y: block_y as i32, z: block_z as i32 });
        }
        block_index = block_index + 1;
    }
    points
}

/// The resident chunks across the first `n` faces of chunk `p`, by face.
pub open spec fn resident_neighbors(w: Map<Int3, Chunk>, p: Int3, n: nat) -> Seq<Int3>
    decreases n,
{
    if n == 0 {
        Seq::empty()
    } else {
        let rest = resident_neighbors(w, p, (n - 1) as nat);
        if neighbor_chunk(w, p, n - 1) is Some {
            rest.push(to_int3(neighbor_coord(p, n - 1)))
        } else {
            rest
        }
    }
}

/// A rebuilt mesh of a neighbouring chunk.
pub struct NeighborMesh {
    pub chunk_position: Int3,
    pub mesh: ChunkMesh,
}

/// `v` holds, in face order, a fresh mesh of every resident neighbour of the
/// chunk at `p`.
pub open spec fn neighbor_meshes_of(v: Seq<NeighborMesh>, w: Map<Int3, Chunk>, p: Int3) -> bool {
    &&& v.len() == resident_neighbors(w, p, 6).len()
    &&& forall|k: int|
        0 <= k < v.len() ==> {
            &&& (#[trigger] v[k]).chunk_position == resident_neighbors(w, p, 6)[k]
            &&& is_mesh_of(v[k].mesh, w, v[k].chunk_position)
        }
}

/// Rebuilds the mesh of every resident chunk adjacent to `chunk_position`,
/// whose boundary faces may have changed.
pub fn update_chunks(chunk_position: Int3, world: &WorldChunks) -> (r: Vec<NeighborMesh>)
    requires
        world.wf(),
    ensures
        neighbor_meshes_of(r@, world@, chunk_position),
{
    let mut r: Vec<NeighborMesh> = Vec::new();
    let mut face: usize = 0;
    while face < 6
        invariant
            face <= 6,
            world.wf(),
            r@.len() == resident_neighbors(world@, chunk_position, face as nat).len(),
            forall|k: int|
                0 <= k < r@.len() ==> {
                    &&& (#[trigger] r@[k]).chunk_position == resident_neighbors(
                        world@,
                        chunk_position,
                        face as nat,
                    )[k]
                    &&& is_mesh_of(r@[k].mesh, world@, r@[k].chunk_position)
                },
        decreases 6 - face,
    {
        let d = face_normal(face);
        let x = chunk_position.x as i64 + d.x as i64;
        let y = chunk_position.y as i64 + d.y as i64;
        let z = chunk_position.z as i64 + d.z as i64;
        let min = i32::MIN as i64;
        let max = i32::MAX as i64;
        if min <= x && x <= max && min <= y && y <= max && min <= z && z <= max {
            let neighbor_position = Int3 { x: x as i32, y: y as i32, z: z as i32 };
            if world.contains_key(&neighbor_position) {
                let mesh = build_mesh(neighbor_position, world);
                r.push(NeighborMesh { chunk_position: neighbor_position, mesh });
            }
        }
        face = face + 1;
    }
    r
}

/// What loading one chunk produced: its mesh, its solid-block points for the
/// collider, and fresh meshes of its resident neighbours.
pub struct LoadedChunk {
    pub mesh: ChunkMesh,
    pub points: Vec<Int3>,
    pub neighbor_meshes: Vec<NeighborMesh>,
}

/// Generates the chunk at `chunk_position` from its column heights (indexed
/// `x + z * 16`), makes it resident, builds its mesh and collision points,
/// and rebuilds the meshes of its resident neighbours.
pub fn load_chunk(chunk_position: Int3, heights: &Vec<usize>, world: &mut WorldChunks) -> (r: LoadedChunk)
    requires
        old(world).wf(),
        heights@.len() == CHUNK_SIZE_XY,
    ensures
        final(world).wf(),
        final(world)@.dom() == old(world)@.dom().insert(chunk_position),
        forall|c: Int3| #[trigger] old(world)@.contains_key(c) && c != chunk_position ==> final(world)@[c]
            == old(world)@[c],
        filled_from(heights@, final(world)@[chunk_position]),
        is_mesh_of(r.mesh, final(world)@, chunk_position),
        r.points@ == solid_points(final(world)@[chunk_position].blocks@, CHUNK_VOLUME as nat),
        neighbor_meshes_of(r.neighbor_meshes@, final(world)@, chunk_position),
{
    let prepared_geometry = prepare_geometry(heights);
    world.insert(chunk_position, prepared_geometry);
    let mesh = build_mesh(chunk_position, world);
    let points = get_points(&chunk_position, world);
    let neighbor_meshes = update_chunks(chunk_position, world);
    LoadedChunk { mesh, points, neighbor_meshes }
}

/// Making a dequeued chunk resident keeps the queue free of resident chunks.
pub proof fn lemma_load_keeps_queue_disjoint(
    before: Map<Int3, Chunk>,
    after: Map<Int3, Chunk>,
    queue: Seq<Int3>,
    loaded: Int3,
)
    requires
        queue_disjoint(before, queue),
        !queue.contains(loaded),
        after.dom() == before.dom().insert(loaded),
    ensures
        queue_disjoint(after, queue),
{
}

/// Evicting chunks keeps the queue free of resident chunks.
pub proof fn lemma_evict_keeps_queue_disjoint(before: Map<Int3, Chunk>, after: Map<Int3, Chunk>, queue: Seq<Int3>)
    requires
        queue_disjoint(before, queue),
        after.dom().subset_of(before.dom()),
    ensures
        queue_disjoint(after, queue),
{
}

/// Handles of the render and collision resources registered per chunk.
pub struct ChunkEntities {
    pub map: HashMap<u128, u64>,
    pub colliders: HashMap<u128, u64>,
}

/// The value at `k`, if any.
pub open spec fn lookup(m: Map<u128, u64>, k: u128) -> Option<u64> {
    if m.contains_key(k) {
        Some(m[k])
    } else {
        None
    }
}

impl ChunkEntities {
    /// No resources registered.
    pub fn new() -> (r: Self)
        ensures
            r.map@ == Map::<u128, u64>::empty(),
            r.colliders@ == Map::<u128, u64>::empty(),
    {
        ChunkEntities { map: HashMap::new(), colliders: HashMap::new() }
    }

    /// Registers the render and collision handles of the chunk at `c`.
    pub fn insert(&mut self, c: Int3, mesh_entity: u64, collider_entity: u64)
        ensures
            final(self).map@ == old(self).map@.insert(coord_key(c), mesh_entity),
            final(self).colliders@ == old(self).colliders@.insert(coord_key(c), collider_entity),
    {
        let k = c.key();
        self.map.insert(k, mesh_entity);
        self.colliders.insert(k, collider_entity);
    }

    /// The render handle of the chunk at `c`.
    pub fn mesh_entity(&self, c: &Int3) -> (r: Option<u64>)
        ensures
            r == lookup(self.map@, coord_key(*c)),
    {
        match self.map.get(&c.key()) {
            Some(e) => Some(*e),
            None => None,
        }
    }

    /// The collision handle of the chunk at `c`.
    pub fn collider_entity(&self, c: &Int3) -> (r: Option<u64>)
        ensures
            r == lookup(self.colliders@, coord_key(*c)),
    {
        match self.colliders.get(&c.key()) {
            Some(e) => Some(*e),
            None => None,
        }
    }
}

/// An evicted chunk and the handles it had registered, now released.
pub struct Released {
    pub chunk_position: Int3,
    pub mesh_entity: Option<u64>,
    pub collider_entity: Option<u64>,
}

/// The chunks released in `v`.
pub open spec fn released_positions(v: Seq<Released>) -> Set<Int3> {
    Set::new(|c: Int3| exists|i: int| 0 <= i < v.len() && #[trigger] v[i].chunk_position == c)
}

/// The keys of the chunks released in `v`.
pub open spec fn released_keys(v: Seq<Released>) -> Set<u128> {
    Set::new(|k: u128| exists|i: int| 0 <= i < v.len() && coord_key(#[trigger] v[i].chunk_position) == k)
}

/// Evicts every resident chunk farther than `unload_distance` from the
/// observer's chunk on a horizontal axis, and unregisters and returns its
/// resource handles, once per evicted chunk.
pub fn unload_chunks(
    current_chunk: Int3,
    unload_distance: i32,
    world: &mut WorldChunks,
    chunk_entities: &mut ChunkEntities,
) -> (released: Vec<Released>)
    requires
        old(world).wf(),
    ensures
        final(world).wf(),
        final(world)@ == old(world)@.restrict(
            old(world)@.dom().filter(|c: Int3| within(c, current_chunk, unload_distance as int)),
        ),
        forall|i: int, j: int|
            0 <= i < released@.len() && 0 <= j < released@.len() && i != j ==> released@[i].chunk_position
                != released@[j].chunk_position,
        released_positions(released@) == old(world)@.dom().filter(
            |c: Int3| !within(c, current_chunk, unload_distance as int),
        ),
        forall|i: int|
            0 <= i < released@.len() ==> {
                &&& (#[trigger] released@[i]).mesh_entity == lookup(
                    old(chunk_entities).map@,
                    coord_key(released@[i].chunk_position),
                )
                &&& released@[i].collider_entity == lookup(
                    old(chunk_entities).colliders@,
                    coord_key(released@[i].chunk_position),
                )
            },
        final(chunk_entities).map@ == old(chunk_entities).map@.remove_keys(released_keys(released@)),
        final(chunk_entities).colliders@ == old(chunk_entities).colliders@.remove_keys(
            released_keys(released@),
        ),
{
    let evicted = world.retain_within(current_chunk, unload_distance);
    let ghost map0 = chunk_entities.map@;
    let ghost colliders0 = chunk_entities.colliders@;
    let mut released: Vec<Released> = Vec::new();
    let mut i: usize = 0;
    while i < evicted.len()
        invariant
            i <= evicted@.len(),
            evicted@.no_duplicates(),
            released@.len() == i,
            forall|k: int| 0 <= k < i ==> (#[trigger] released@[k]).chunk_position == evicted@[k],
            forall|k: int|
                0 <= k < i ==> {
                    &&& (#[trigger] released@[k]).mesh_entity == lookup(
                        map0,
                        coord_key(released@[k].chunk_position),
                    )
                    &&& released@[k].collider_entity == lookup(
                        colliders0,
                        coord_key(released@[k].chunk_position),
                    )
                },
            chunk_entities.map@ == map0.remove_keys(released_keys(released@)),
            chunk_entities.colliders@ == colliders0.remove_keys(released_keys(released@)),
        decreases evicted@.len() - i,
    {
        let c = evicted[i];
        let k = c.key();
        let ghost before = released@;
        proof {
            assert(!released_keys(before).contains(k)) by {
                if released_keys(before).contains(k) {
                    let j = choose|j: int| 0 <= j < before.len() && coord_key(#[trigger] before[j].chunk_position) == k;
                    lemma_coord_key_injective(before[j].chunk_position, c);
                    assert(evicted@[j] == evicted@[i as int]);
                }
            }
        }
        let mesh_entity = chunk_entities.map.remove(&k);
        let collider_entity = chunk_entities.colliders.remove(&k);
        released.push(Released { chunk_position: c, mesh_entity, collider_entity });
        proof {
            assert(released_keys(released@) =~= released_keys(before).insert(k)) by {
                assert forall|x: u128| #[trigger] released_keys(released@).contains(x) == released_keys(
                    before,
                ).insert(k).contains(x) by {
                    if released_keys(released@).contains(x) {
                        let j = choose|j: int|
                            0 <= j < released@.len() && coord_key(#[trigger] released@[j].chunk_position) == x;
                        if j < before.len() {
                            assert(before[j] == released@[j]);
                        }
                    }
                    if released_keys(before).contains(x) {
                        let j = choose|j: int| 0 <= j < before.len() && coord_key(#[trigger] before[j].chunk_position) == x;
                        assert(released@[j] == before[j]);
                    }
                    if x == k {
                        assert(coord_key(released@[i as int].chunk_position) == x);
                    }
                }
            }
            assert(chunk_entities.map@ =~= map0.remove_keys(released_keys(released@)));
            assert(chunk_entities.colliders@ =~= colliders0.remove_keys(released_keys(released@)));
        }
        i = i + 1;
    }
    proof {
        assert forall|c: Int3|
            (exists|i: int| 0 <= i < released@.len() && #[trigger] released@[i].chunk_position == c)
                <==> evicted@.contains(c) by {
            if exists|i: int| 0 <= i < released@.len() && #[trigger] released@[i].chunk_position == c {
                let i = choose|i: int| 0 <= i < released@.len() && #[trigger] released@[i].chunk_position == c;
                assert(evicted@[i] == c);
            }
            if evicted@.contains(c) {
                let i = choose|i: int| 0 <= i < evicted@.len() && evicted@[i] == c;
                assert(released@[i].chunk_position == c);
            }
        }
        assert forall|c: Int3| #[trigger] released_positions(released@).contains(c) == old(world)@.dom().filter(
            |c: Int3| !within(c, current_chunk, unload_distance as int),
        ).contains(c) by {
            assert(evicted@.contains(c) == (old(world)@.contains_key(c) && !within(c, current_chunk, unload_distance as int)));
        }
        assert(released_positions(released@) =~= old(world)@.dom().filter(
            |c: Int3| !within(c, current_chunk, unload_distance as int),
        ));
    }
    released
}

/// The chunk that holds the block at world position `b`.
pub open spec fn block_chunk(b: Int3) -> Int3 {
    Int3 { x: (b.x as int / 16) as i32, y: (b.y as int / 16) as i32, z: (b.z as int / 16) as i32 }
}

/// The linear index, within its chunk, of the block at world position `b`.
pub open spec fn block_local_index(b: Int3) -> int {
    block_index(b.x as int % 16, b.y as int % 16, b.z as int % 16)
}

/// Splits a world block coordinate into its chunk coordinate and its local
/// coordinate, rounding toward negative infinity.
fn split_coord(v: i32) -> (r: (i32, usize))
    ensures
        r.0 == v as int / 16,
        r.1 == v as int % 16,
        r.1 < 16,
{
    let shifted = (v as i64 + 0x8000_0000) as u64;
    proof {
        lemma_fundamental_div_mod_converse(shifted as int, 16, v as int / 16 + 0x0800_0000, v as int % 16);
    }
    (((shifted / 16) as i64 - 0x0800_0000) as i32, (shifted % 16) as usize)
}

/// What an edit produced: the edited chunk's new mesh and collision points,
/// and fresh meshes of its resident neighbours.
pub struct EditOutcome {
    pub chunk_position: Int3,
    pub mesh: ChunkMesh,
    pub points: Vec<Int3>,
    pub neighbor_meshes: Vec<NeighborMesh>,
}

/// Sets the block at world position `block_position` and rebuilds the meshes
/// it affects. Returns `None`, changing nothing, when its chunk is not resident.
pub fn edit_block(block_position: Int3, block: Block, world: &mut WorldChunks) -> (r: Option<EditOutcome>)
    requires
        old(world).wf(),
    ensures
        final(world).wf(),
        r is Some <==> old(world)@.contains_key(block_chunk(block_position)),
        r is None ==> final(world)@ == old(world)@,
        final(world)@.dom() == old(world)@.dom(),
        forall|c: Int3| #[trigger] old(world)@.contains_key(c) && c != block_chunk(block_position)
            ==> final(world)@[c] == old(world)@[c],
        r is Some ==> final(world)@[block_chunk(block_position)].blocks@ == old(world)@[block_chunk(
            block_position,
        )].blocks@.update(block_local_index(block_position), block),
        r matches Some(o) ==> {
            &&& o.chunk_position == block_chunk(block_position)
            &&& is_mesh_of(o.mesh, final(world)@, o.chunk_position)
            &&& o.points@ == solid_points(final(world)@[o.chunk_position].blocks@, CHUNK_VOLUME as nat)
            &&& neighbor_meshes_of(o.neighbor_meshes@, final(world)@, o.chunk_position)
        },
{
    let (chunk_x, local_x) = split_coord(block_position.x);
    let (chunk_y, local_y) = split_coord(block_position.y);
    let (chunk_z, local_z) = split_coord(block_position.z);
    let chunk_position = Int3 { x: chunk_x, y: chunk_y, z: chunk_z };
    let block_index = Chunk::get_index(local_x, local_y, local_z);
    let ghost w0 = world@;
    if !world.set_block(&chunk_position, block_index, block) {
        proof {
            assert(world@ =~= w0) by {
                assert forall|c: Int3| #[trigger] world@.contains_key(c) implies world@[c] == w0[c] by {}
            }
        }
        return None;
    }
    let mesh = build_mesh(chunk_position, world);
    let points = get_points(&chunk_position, world);
    let neighbor_meshes = update_chunks(chunk_position, world);
    Some(EditOutcome { chunk_position, mesh, points, neighbor_meshes })
}

/// Replaces the block at world position `block_position` with air and
/// rebuilds the meshes it affects; `None` when its chunk is not resident.
pub fn destroy_block(block_position: Int3, world: &mut WorldChunks) -> (r: Option<EditOutcome>)
    requires
        old(world).wf(),
    ensures
        final(world).wf(),
        r is Some <==> old(world)@.contains_key(block_chunk(block_position)),
        r is None ==> final(world)@ == old(world)@,
        final(world)@.dom() == old(world)@.dom(),
        forall|c: Int3| #[trigger] old(world)@.contains_key(c) && c != block_chunk(block_position)
            ==> final(world)@[c] == old(world)@[c],
        r is Some ==> final(world)@[block_chunk(block_position)].blocks@ == old(world)@[block_chunk(
            block_position,
        )].blocks@.update(block_local_index(block_position), Block { block_type: crate::block::BlockType::Air }),
        r matches Some(o) ==> {
            &&& o.chunk_position == block_chunk(block_position)
            &&& is_mesh_of(o.mesh, final(world)@, o.chunk_position)
            &&& o.points@ == solid_points(final(world)@[o.chunk_position].blocks@, CHUNK_VOLUME as nat)
            &&& neighbor_meshes_of(o.neighbor_meshes@, final(world)@, o.chunk_position)
        },
{
    edit_block(block_position, Block::default(), world)
}

} // verus!
