//! Buffer pool manager: the page cache proper.
//!
//! A fixed-size pool of frames caches pages of the heap file. Callers fetch
//! a page by id and get back a buffer id, which acts as a handle: while any
//! handle to a frame is outstanding (its pin count is positive) the pool
//! never overwrites that frame. On a miss, a generalized clock sweep picks
//! an unpinned victim; if the victim is dirty its bytes must first be
//! written back to the heap file under its old page id.
//!
//! The pool decides; the driver performs the file reads and writes. A miss
//! therefore comes in two halves: `fetch_page` / `create_page` select the
//! victim and hand out the write-back duty, and `complete_fetch` /
//! `complete_create` install the new page once the driver has moved the
//! bytes. The page table and the frame are only rewritten in the second
//! half, so a failed read or write leaves the pool's invariants intact.

use std::collections::HashMap;

use vstd::prelude::*;
use vstd::pervasive::VecAdditionalExecFns;

use crate::disk::{DiskManager, PageId, PAGE_SIZE};

verus! {

broadcast use vstd::std_specs::hash::group_hash_axioms;

/// What can go wrong in the pool.
#[derive(Clone, Copy, Debug, PartialEq, Eq, Structural)]
pub enum Error {
    /// An I/O-level failure: here, a heap file whose length is not a
    /// multiple of the page size.
    Io,
    /// Every frame is pinned; eviction found no candidate in one full
    /// ring sweep.
    NoFreeBuffer,
}

/// Index of one frame in the pool, in `[0, pool_size)`. Stable for the
/// pool's lifetime; handed out as the page handle.
#[derive(Clone, Copy, Debug, PartialEq, Eq, Structural)]
pub struct BufferId(pub usize);

/// The in-memory content of one resident page.
pub struct Buffer {
    /// The id of the page this buffer holds (meaningful only once the
    /// frame is bound).
    pub page_id: PageId,
    /// The page bytes, always exactly `PAGE_SIZE` of them.
    pub page: Vec<u8>,
    /// Set by the caller after modifying `page`; the pool itself never
    /// infers dirtiness.
    pub is_dirty: bool,
}

/// One slot of the pool: a buffer plus the replacement bookkeeping.
pub struct Frame {
    usage_count: u64,
    pin_count: u64,
    bound: bool,
    buffer: Buffer,
}

/// The frame ring and the clock hand.
pub struct BufferPool {
    frames: Vec<Frame>,
    next_victim_id: BufferId,
}

/// Mathematical content of a `Buffer`.
pub ghost struct BufferModel {
    pub page_id: u64,
    pub page: Seq<u8>,
    pub dirty: bool,
}

/// Mathematical content of a `Frame`.
pub ghost struct FrameModel {
    /// Replacement-policy counter: bumped on every fetch, decayed by the
    /// clock sweep.
    pub usage: u64,
    /// Number of outstanding handles; positive means pinned.
    pub pins: u64,
    /// Whether the frame has ever been bound to a real page by a
    /// successful fetch or create. Unbound frames stay out of the page
    /// table.
    pub bound: bool,
    pub buffer: BufferModel,
}

/// Mathematical content of a `BufferPool`.
pub ghost struct PoolModel {
    pub frames: Seq<FrameModel>,
    pub next_victim: int,
}

impl View for Buffer {
    type V = BufferModel;

    closed spec fn view(&self) -> BufferModel {
        BufferModel { page_id: self.page_id.0, page: self.page@, dirty: self.is_dirty }
    }
}

impl View for Frame {
    type V = FrameModel;

    closed spec fn view(&self) -> FrameModel {
        FrameModel {
            usage: self.usage_count,
            pins: self.pin_count,
            bound: self.bound,
            buffer: self.buffer@,
        }
    }
}

impl View for BufferPool {
    type V = PoolModel;

    closed spec fn view(&self) -> PoolModel {
        PoolModel {
            frames: self.frames@.map_values(|f: Frame| f@),
            next_victim: self.next_victim_id.0 as int,
        }
    }
}

/// An all-zero page.
pub open spec fn zero_page_spec() -> Seq<u8> {
    Seq::new(PAGE_SIZE as nat, |i: int| 0u8)
}

/// A frame that has never held a page.
pub open spec fn fresh_frame_model() -> FrameModel {
    FrameModel {
        usage: 0,
        pins: 0,
        bound: false,
        buffer: BufferModel { page_id: 0, page: zero_page_spec(), dirty: false },
    }
}

/// Per-frame invariant: full-size page; a pinned frame always has a
/// positive usage count (so the sweep can never hand out a pinned victim);
/// an unbound frame is clean and unpinned.
pub open spec fn frame_inv(f: FrameModel) -> bool {
    &&& f.buffer.page.len() == PAGE_SIZE
    &&& f.pins > 0 ==> f.usage >= 1
    &&& !f.bound ==> !f.buffer.dirty && f.pins == 0
}

impl PoolModel {
    /// Well-formedness of the frame ring.
    pub open spec fn wf(self) -> bool {
        &&& self.frames.len() >= 1
        &&& 0 <= self.next_victim < self.frames.len()
        &&& forall|i: int| 0 <= i < self.frames.len() ==> frame_inv(#[trigger] self.frames[i])
    }

    /// Every frame currently carries an outstanding handle.
    pub open spec fn all_pinned(self) -> bool {
        forall|i: int| 0 <= i < self.frames.len() ==> (#[trigger] self.frames[i]).pins > 0
    }
}

/// What one clock sweep may do to a frame: decay its usage count if it is
/// unpinned, and nothing else. Pinned frames are untouched entirely.
pub open spec fn sweep_rel(pre: FrameModel, post: FrameModel) -> bool {
    &&& post.pins == pre.pins
    &&& post.bound == pre.bound
    &&& post.buffer == pre.buffer
    &&& post.usage <= pre.usage
    &&& pre.pins > 0 ==> post.usage == pre.usage
}

/// Weight of a frame for the sweep's termination measure: only unpinned
/// frames can be decayed.
pub open spec fn usage_weight(f: FrameModel) -> nat {
    if f.pins == 0 {
        f.usage as nat
    } else {
        0
    }
}

/// Total decay budget of the ring.
pub open spec fn sweep_measure(frames: Seq<FrameModel>) -> nat
    decreases frames.len(),
{
    if frames.len() == 0 {
        0
    } else {
        sweep_measure(frames.drop_last()) + usage_weight(frames.last())
    }
}

/// The frame the clock hand visited `k + 1` steps ago, when it now stands
/// at `cur` in a ring of `n` frames.
pub open spec fn back_index(cur: int, k: int, n: int) -> int {
    if cur > k {
        cur - 1 - k
    } else {
        cur + n - 1 - k
    }
}

proof fn lemma_sweep_measure_update(frames: Seq<FrameModel>, i: int, f: FrameModel)
    requires
        0 <= i < frames.len(),
    ensures
        sweep_measure(frames.update(i, f)) == sweep_measure(frames) - usage_weight(frames[i])
            + usage_weight(f),
    decreases frames.len(),
{
    if i == frames.len() - 1 {
        assert(frames.update(i, f).drop_last() =~= frames.drop_last());
        assert(frames.update(i, f).last() == f);
    } else {
        lemma_sweep_measure_update(frames.drop_last(), i, f);
        assert(frames.update(i, f).drop_last() =~= frames.drop_last().update(i, f));
        assert(frames.update(i, f).last() == frames.last());
    }
}

proof fn lemma_views_update(s: Seq<Frame>, i: int, f: Frame)
    requires
        0 <= i < s.len(),
    ensures
        s.update(i, f).map_values(|x: Frame| x@) =~= s.map_values(|x: Frame| x@).update(i, f@),
{
    let a = s.update(i, f).map_values(|x: Frame| x@);
    let b = s.map_values(|x: Frame| x@).update(i, f@);
    assert forall|j: int| 0 <= j < a.len() implies a[j] == b[j] by {
        if j != i {
            assert(s.update(i, f)[j] == s[j]);
        }
    }
}

impl Default for Buffer {
    /// An empty buffer: the sentinel page id, a zero page, clean.
    fn default() -> (r: Buffer)
        ensures
            r@ == (BufferModel { page_id: 0, page: zero_page_spec(), dirty: false }),
    {
        Buffer { page_id: PageId(0), page: zero_page(), is_dirty: false }
    }
}

impl Frame {
    /// A cheap placeholder swapped into the ring while a frame is being
    /// rebuilt in place.
    fn empty() -> (r: Frame)
        ensures
            r@.pins == 0,
    {
        Frame {
            usage_count: 0,
            pin_count: 0,
            bound: false,
            buffer: Buffer { page_id: PageId(0), page: Vec::new(), is_dirty: false },
        }
    }
}

/// A full page of zero bytes.
fn zero_page() -> (r: Vec<u8>)
    ensures
        r@ == zero_page_spec(),
{
    let mut v: Vec<u8> = Vec::new();
    let mut i: usize = 0;
    while i < 4096
        invariant
            i <= 4096,
            v@.len() == i,
            forall|j: int| 0 <= j < i ==> v@[j] == 0u8,
        decreases 4096 - i,
    {
        v.push(0u8);
        i = i + 1;
    }
    proof {
        assert(v@ =~= zero_page_spec());
    }
    v
}

impl BufferPool {
    /// Builds a pool of `pool_size` fresh frames with the clock hand at
    /// frame 0.
    pub fn new(pool_size: usize) -> (r: BufferPool)
        requires
            pool_size >= 1,
        ensures
            r@.wf(),
            r@.frames.len() == pool_size,
            r@.next_victim == 0,
            forall|i: int| 0 <= i < pool_size ==> #[trigger] r@.frames[i] == fresh_frame_model(),
    {
        let mut frames: Vec<Frame> = Vec::new();
        let mut i: usize = 0;
        while i < pool_size
            invariant
                i <= pool_size,
                frames@.len() == i,
                forall|j: int| 0 <= j < i ==> (#[trigger] frames@[j])@ == fresh_frame_model(),
            decreases pool_size - i,
        {
            let frame = Frame {
                usage_count: 0,
                pin_count: 0,
                bound: false,
                buffer: Buffer { page_id: PageId(0), page: zero_page(), is_dirty: false },
            };
            frames.push(frame);
            i = i + 1;
        }
        let r = BufferPool { frames, next_victim_id: BufferId(0) };
        proof {
            assert forall|j: int| 0 <= j < pool_size implies #[trigger] r@.frames[j]
                == fresh_frame_model() by {
                assert(r@.frames[j] == frames@[j]@);
            }
        }
        r
    }

    /// Number of frames in the ring.
    pub fn size(&self) -> (r: usize)
        ensures
            r == self@.frames.len(),
    {
        self.frames.len()
    }

    /// The clock hand's successor of `buffer_id` in the ring.
    pub fn increment_id(&self, buffer_id: BufferId) -> (r: BufferId)
        requires
            self@.frames.len() >= 1,
            buffer_id.0 < self@.frames.len(),
        ensures
            r.0 == (buffer_id.0 + 1) % (self@.frames.len() as int),
    {
        let n = self.size();
        let id = (buffer_id.0 + 1) % n;
        BufferId(id)
    }

    /// Clock sweep: selects the next victim frame, or reports that every
    /// frame is pinned.
    ///
    /// Starting at the clock hand, the sweep returns the current frame as
    /// soon as its usage count is zero; otherwise it decays an unpinned
    /// frame's count by one and moves on, and skips a pinned frame. A full
    /// ring of consecutive pinned frames means no victim exists.
    pub fn evict(&mut self) -> (r: Option<BufferId>)
        requires
            old(self)@.wf(),
        ensures
            final(self)@.wf(),
            final(self)@.frames.len() == old(self)@.frames.len(),
            forall|i: int|
                0 <= i < old(self)@.frames.len() ==> sweep_rel(
                    old(self)@.frames[i],
                    #[trigger] final(self)@.frames[i],
                ),
            match r {
                Some(b) => {
                    &&& b.0 < final(self)@.frames.len()
                    &&& final(self)@.frames[b.0 as int].usage == 0
                    &&& final(self)@.frames[b.0 as int].pins == 0
                    &&& final(self)@.next_victim == b.0
                },
                None => {
                    &&& final(self)@.all_pinned()
                    &&& final(self)@.frames == old(self)@.frames
                },
            },
    {
        let pool_size = self.size();
        let ghost orig = self@;
        let mut consecutive_pinned: usize = 0;
        loop
            invariant
                orig == old(self)@,
                self@.wf(),
                pool_size == self@.frames.len(),
                self@.frames.len() == orig.frames.len(),
                consecutive_pinned < pool_size,
                forall|i: int|
                    0 <= i < orig.frames.len() ==> sweep_rel(
                        orig.frames[i],
                        #[trigger] self@.frames[i],
                    ),
                forall|k: int|
                    0 <= k < consecutive_pinned ==> self@.frames[back_index(
                        self@.next_victim,
                        k,
                        pool_size as int,
                    )].pins > 0,
            decreases sweep_measure(self@.frames), pool_size - consecutive_pinned,
        {
            let v: usize = self.next_victim_id.0;
            if self.frames[v].usage_count == 0 {
                assert(frame_inv(self@.frames[v as int]));
                return Some(self.next_victim_id);
            }
            let ghost cur = self@.next_victim;
            let ghost pre = self@.frames;
            if self.frames[v].pin_count == 0 {
                let ghost pre_concrete = self.frames@;
                let mut f = Frame::empty();
                self.frames.set_and_swap(v, &mut f);
                f.usage_count = f.usage_count - 1;
                let ghost fmod = f;
                self.frames.set_and_swap(v, &mut f);
                proof {
                    assert(self.frames@ =~= pre_concrete.update(v as int, fmod));
                    lemma_views_update(pre_concrete, v as int, fmod);
                    assert(self@.frames =~= pre.update(v as int, fmod@));
                    lemma_sweep_measure_update(pre, v as int, fmod@);
                    assert(usage_weight(fmod@) < usage_weight(pre[v as int]));
                }
                consecutive_pinned = 0;
            } else {
                consecutive_pinned = consecutive_pinned + 1;
                if consecutive_pinned >= pool_size {
                    proof {
                        let n = pool_size as int;
                        assert forall|i: int| 0 <= i < n implies (#[trigger] self@.frames[i]).pins
                            > 0 by {
                            if i == cur {
                            } else if i < cur {
                                assert(back_index(cur, cur - 1 - i, n) == i);
                                assert(self@.frames[back_index(cur, cur - 1 - i, n)].pins > 0);
                            } else {
                                assert(back_index(cur, cur + n - 1 - i, n) == i);
                                assert(self@.frames[back_index(cur, cur + n - 1 - i, n)].pins > 0);
                            }
                        }
                        assert(self@.frames =~= orig.frames);
                    }
                    return None;
                }
            }
            let next = self.increment_id(self.next_victim_id);
            self.next_victim_id = next;
            proof {
                let n = pool_size as int;
                if consecutive_pinned > 0 {
                    assert forall|k: int| 0 <= k < consecutive_pinned implies self@.frames[
                        back_index(self@.next_victim, k, n)].pins > 0 by {
                        let cur2 = self@.next_victim;
                        assert(cur2 == (cur + 1) % n);
                        if cur + 1 < n {
                            assert(cur2 == cur + 1) by {
                                assert((cur + 1) % n == cur + 1) by (nonlinear_arith)
                                    requires 0 <= cur + 1 < n;
                            }
                        } else {
                            assert(cur2 == 0) by {
                                assert(n % n == 0) by (nonlinear_arith)
                                    requires n >= 1;
                            }
                        }
                        if k == 0 {
                            assert(back_index(cur2, 0, n) == cur);
                        } else {
                            assert(back_index(cur2, k, n) == back_index(cur, k - 1, n));
                        }
                    }
                }
            }
        }
    }
}

/// Carries the write-back duty for a dirty victim: these bytes must reach
/// the heap file under this page id before the frame is reused.
#[derive(Debug)]
pub struct WriteBack {
    pub page_id: PageId,
    pub data: Vec<u8>,
}

/// A selected victim frame, together with the write-back its reuse owes.
#[derive(Debug)]
pub struct Replacement {
    pub buffer_id: BufferId,
    pub write_back: Option<WriteBack>,
}

/// Result of `fetch_page`: either the page was resident, or a victim was
/// selected and the driver must move bytes before `complete_fetch`.
#[derive(Debug)]
pub enum FetchOutcome {
    Hit(BufferId),
    Miss(Replacement),
}

/// Mathematical content of a `BufferPoolManager`.
pub ghost struct ManagerModel {
    /// The disk manager's next-id counter.
    pub next_page_id: u64,
    pub pool: PoolModel,
    /// The page table: page id -> frame index, one entry per bound frame.
    pub table: Map<u64, usize>,
}

impl ManagerModel {
    /// Well-formedness: the pool is well-formed; every table entry points
    /// at a bound frame holding exactly that page, whose id the allocator
    /// has already issued; and every bound frame has its (unique) entry.
    pub open spec fn wf(self) -> bool {
        &&& self.pool.wf()
        &&& forall|pid: u64| #[trigger] self.table.contains_key(pid) ==> {
            &&& self.table[pid] < self.pool.frames.len()
            &&& self.pool.frames[self.table[pid] as int].bound
            &&& self.pool.frames[self.table[pid] as int].buffer.page_id == pid
            &&& pid < self.next_page_id
        }
        &&& forall|i: int|
            0 <= i < self.pool.frames.len() && (#[trigger] self.pool.frames[i]).bound ==> {
                &&& self.table.contains_key(self.pool.frames[i].buffer.page_id)
                &&& self.table[self.pool.frames[i].buffer.page_id] as int == i
            }
    }
}

/// Bundles the disk allocator, the frame ring, and the page table.
pub struct BufferPoolManager {
    disk: DiskManager,
    pool: BufferPool,
    page_table: HashMap<u64, usize>,
}

impl View for BufferPoolManager {
    type V = ManagerModel;

    closed spec fn view(&self) -> ManagerModel {
        ManagerModel { next_page_id: self.disk@, pool: self.pool@, table: self.page_table@ }
    }
}

/// Saturating increment; the replacement counters stick at the top rather
/// than wrap.
pub open spec fn sat_inc(x: u64) -> u64 {
    if x == u64::MAX {
        u64::MAX
    } else {
        (x + 1) as u64
    }
}

/// What a hit does to the resident frame: one more handle, one more usage
/// tick, bytes untouched.
pub open spec fn hit_bump(f: FrameModel) -> FrameModel {
    FrameModel { usage: sat_inc(f.usage), pins: sat_inc(f.pins), bound: f.bound, buffer: f.buffer }
}

/// The hit transition: `pid` was resident in frame `bid`; that frame is
/// bumped and everything else is untouched.
pub open spec fn hit_step(pre: ManagerModel, post: ManagerModel, pid: u64, bid: usize) -> bool {
    &&& pre.table.contains_key(pid)
    &&& bid == pre.table[pid]
    &&& post.table == pre.table
    &&& post.next_page_id == pre.next_page_id
    &&& post.pool.next_victim == pre.pool.next_victim
    &&& post.pool.frames == pre.pool.frames.update(
        bid as int,
        hit_bump(pre.pool.frames[bid as int]),
    )
}

/// The write-back a frame's reuse owes: its bytes under its old id if it
/// is dirty, nothing otherwise.
pub open spec fn write_back_of(f: FrameModel) -> Option<(u64, Seq<u8>)> {
    if f.buffer.dirty {
        Some((f.buffer.page_id, f.buffer.page))
    } else {
        None
    }
}

/// Mathematical content of an optional `WriteBack`.
pub open spec fn wb_view(wb: Option<WriteBack>) -> Option<(u64, Seq<u8>)> {
    match wb {
        Some(w) => Some((w.page_id.0, w.data@)),
        None => None,
    }
}

/// The victim-selection transition: the sweep has decayed some usage
/// counts, frame `bid` is an unpinned victim, and `wb` is exactly the
/// write-back its reuse owes. Table and allocator are untouched.
pub open spec fn miss_plan(
    pre: ManagerModel,
    post: ManagerModel,
    bid: usize,
    wb: Option<(u64, Seq<u8>)>,
) -> bool {
    &&& bid < pre.pool.frames.len()
    &&& post.table == pre.table
    &&& post.next_page_id == pre.next_page_id
    &&& post.pool.frames.len() == pre.pool.frames.len()
    &&& forall|i: int|
        0 <= i < pre.pool.frames.len() ==> sweep_rel(
            pre.pool.frames[i],
            #[trigger] post.pool.frames[i],
        )
    &&& post.pool.frames[bid as int].pins == 0
    &&& post.pool.frames[bid as int].usage == 0
    &&& wb == write_back_of(post.pool.frames[bid as int])
}

/// The frame as `complete_fetch` / `complete_create` leave it: bound to
/// its new page, pinned once for the returned handle.
pub open spec fn installed_frame(pid: u64, page: Seq<u8>, dirty: bool) -> FrameModel {
    FrameModel { usage: 1, pins: 1, bound: true, buffer: BufferModel { page_id: pid, page, dirty } }
}

/// The table after the victim's old binding (if any) is dropped.
pub open spec fn table_unbind(pre: ManagerModel, bid: usize) -> Map<u64, usize> {
    if pre.pool.frames[bid as int].bound {
        pre.table.remove(pre.pool.frames[bid as int].buffer.page_id)
    } else {
        pre.table
    }
}

/// The install transition: frame `bid` is rebuilt for page `pid` with the
/// given bytes, the table drops the old binding and gains the new one, and
/// no other frame changes.
pub open spec fn install_step(
    pre: ManagerModel,
    post: ManagerModel,
    bid: usize,
    pid: u64,
    page: Seq<u8>,
    dirty: bool,
) -> bool {
    &&& post.pool.next_victim == pre.pool.next_victim
    &&& post.pool.frames == pre.pool.frames.update(bid as int, installed_frame(pid, page, dirty))
    &&& post.table == table_unbind(pre, bid).insert(pid, bid)
}

proof fn lemma_wf_frame_update_same_binding(pre: ManagerModel, post: ManagerModel, bid: int)
    requires
        pre.wf(),
        post.table == pre.table,
        post.next_page_id == pre.next_page_id,
        0 <= bid < pre.pool.frames.len(),
        post.pool.frames.len() == pre.pool.frames.len(),
        0 <= post.pool.next_victim < post.pool.frames.len(),
        forall|i: int|
            0 <= i < pre.pool.frames.len() && i != bid ==> #[trigger] post.pool.frames[i]
                == pre.pool.frames[i],
        frame_inv(post.pool.frames[bid]),
        post.pool.frames[bid].bound == pre.pool.frames[bid].bound,
        post.pool.frames[bid].buffer.page_id == pre.pool.frames[bid].buffer.page_id,
    ensures
        post.wf(),
{
    assert forall|i: int|
        0 <= i < post.pool.frames.len() implies frame_inv(#[trigger] post.pool.frames[i]) by {
        if i != bid {
            assert(post.pool.frames[i] == pre.pool.frames[i]);
        }
    }
    assert forall|pid: u64| #[trigger] post.table.contains_key(pid) implies {
        &&& post.table[pid] < post.pool.frames.len()
        &&& post.pool.frames[post.table[pid] as int].bound
        &&& post.pool.frames[post.table[pid] as int].buffer.page_id == pid
        &&& pid < post.next_page_id
    } by {
        assert(pre.table.contains_key(pid));
    }
    assert forall|i: int|
        0 <= i < post.pool.frames.len() && (#[trigger] post.pool.frames[i]).bound implies {
        &&& post.table.contains_key(post.pool.frames[i].buffer.page_id)
        &&& post.table[post.pool.frames[i].buffer.page_id] as int == i
    } by {
        assert(pre.pool.frames[i].bound);
    }
}

/// A frame after one handle is released.
pub open spec fn unpin_bump(f: FrameModel) -> FrameModel {
    FrameModel { usage: f.usage, pins: (f.pins - 1) as u64, bound: f.bound, buffer: f.buffer }
}

/// A frame after its bytes are marked modified.
pub open spec fn dirty_bump(f: FrameModel) -> FrameModel {
    FrameModel {
        usage: f.usage,
        pins: f.pins,
        bound: f.bound,
        buffer: BufferModel { page_id: f.buffer.page_id, page: f.buffer.page, dirty: true },
    }
}

/// A frame after a pin-holder overwrites its bytes.
pub open spec fn write_bump(f: FrameModel, page: Seq<u8>) -> FrameModel {
    FrameModel {
        usage: f.usage,
        pins: f.pins,
        bound: f.bound,
        buffer: BufferModel { page_id: f.buffer.page_id, page, dirty: f.buffer.dirty },
    }
}

/// A byte-for-byte copy of a page.
fn clone_page(src: &Vec<u8>) -> (r: Vec<u8>)
    ensures
        r@ == src@,
{
    let mut v: Vec<u8> = Vec::new();
    let mut i: usize = 0;
    let n = src.len();
    while i < n
        invariant
            i <= n,
            n == src@.len(),
            v@.len() == i,
            forall|j: int| 0 <= j < i ==> v@[j] == src@[j],
        decreases n - i,
    {
        v.push(src[i]);
        i = i + 1;
    }
    proof {
        assert(v@ =~= src@);
    }
    v
}

impl BufferPoolManager {
    /// Bundles a disk allocator and a frame ring into a manager with an
    /// empty page table. The pool must not have been bound to pages by
    /// another manager.
    pub fn new(disk: DiskManager, pool: BufferPool) -> (r: BufferPoolManager)
        requires
            pool@.wf(),
            forall|i: int| 0 <= i < pool@.frames.len() ==> !(#[trigger] pool@.frames[i]).bound,
        ensures
            r@.wf(),
            r@.pool == pool@,
            r@.next_page_id == disk@,
            r@.table == Map::<u64, usize>::empty(),
    {
        let page_table: HashMap<u64, usize> = HashMap::new();
        BufferPoolManager { disk, pool, page_table }
    }

    /// Number of frames in the pool.
    pub fn pool_size(&self) -> (r: usize)
        ensures
            r == self@.pool.frames.len(),
    {
        self.pool.size()
    }

    /// The next page id the allocator will issue.
    pub fn next_page_id(&self) -> (r: u64)
        ensures
            r == self@.next_page_id,
    {
        self.disk.next_page_id()
    }

    /// Page-table lookup: the frame currently holding `page_id`, if any.
    pub fn lookup(&self, page_id: PageId) -> (r: Option<BufferId>)
        ensures
            match r {
                Some(b) => self@.table.contains_key(page_id.0) && b.0 == self@.table[page_id.0],
                None => !self@.table.contains_key(page_id.0),
            },
    {
        match self.page_table.get(&page_id.0) {
            Some(b) => Some(BufferId(*b)),
            None => None,
        }
    }

    /// Read access to a frame's resident buffer.
    pub fn buffer(&self, buffer_id: BufferId) -> (r: &Buffer)
        requires
            buffer_id.0 < self@.pool.frames.len(),
        ensures
            r@ == self@.pool.frames[buffer_id.0 as int].buffer,
    {
        &self.pool.frames[buffer_id.0].buffer
    }

    /// The replacement counter of a frame.
    pub fn usage_count(&self, buffer_id: BufferId) -> (r: u64)
        requires
            buffer_id.0 < self@.pool.frames.len(),
        ensures
            r == self@.pool.frames[buffer_id.0 as int].usage,
    {
        self.pool.frames[buffer_id.0].usage_count
    }

    /// The number of outstanding handles on a frame.
    pub fn pin_count(&self, buffer_id: BufferId) -> (r: u64)
        requires
            buffer_id.0 < self@.pool.frames.len(),
        ensures
            r == self@.pool.frames[buffer_id.0 as int].pins,
    {
        self.pool.frames[buffer_id.0].pin_count
    }

    /// Whether a frame has ever been bound to a real page.
    pub fn is_bound(&self, buffer_id: BufferId) -> (r: bool)
        requires
            buffer_id.0 < self@.pool.frames.len(),
        ensures
            r == self@.pool.frames[buffer_id.0 as int].bound,
    {
        self.pool.frames[buffer_id.0].bound
    }

    /// Releases one handle on a frame. The caller must still hold one.
    pub fn unpin(&mut self, buffer_id: BufferId)
        requires
            old(self)@.wf(),
            buffer_id.0 < old(self)@.pool.frames.len(),
            old(self)@.pool.frames[buffer_id.0 as int].pins >= 1,
        ensures
            final(self)@.wf(),
            final(self)@.table == old(self)@.table,
            final(self)@.next_page_id == old(self)@.next_page_id,
            final(self)@.pool.next_victim == old(self)@.pool.next_victim,
            final(self)@.pool.frames == old(self)@.pool.frames.update(
                buffer_id.0 as int,
                unpin_bump(old(self)@.pool.frames[buffer_id.0 as int]),
            ),
    {
        let bid = buffer_id.0;
        let ghost pre_concrete = self.pool.frames@;
        let mut f = Frame::empty();
        self.pool.frames.set_and_swap(bid, &mut f);
        proof {
            assert(f@ == old(self)@.pool.frames[bid as int]);
        }
        f.pin_count = f.pin_count - 1;
        let ghost fmod = f;
        self.pool.frames.set_and_swap(bid, &mut f);
        proof {
            assert(self.pool.frames@ =~= pre_concrete.update(bid as int, fmod));
            lemma_views_update(pre_concrete, bid as int, fmod);
            assert(self@.pool.frames =~= old(self)@.pool.frames.update(bid as int, fmod@));
            lemma_wf_frame_update_same_binding(old(self)@, self@, bid as int);
        }
    }

    /// Marks a frame's bytes as modified, so that eviction writes them
    /// back. The caller must hold a handle.
    pub fn mark_dirty(&mut self, buffer_id: BufferId)
        requires
            old(self)@.wf(),
            buffer_id.0 < old(self)@.pool.frames.len(),
            old(self)@.pool.frames[buffer_id.0 as int].pins >= 1,
        ensures
            final(self)@.wf(),
            final(self)@.table == old(self)@.table,
            final(self)@.next_page_id == old(self)@.next_page_id,
            final(self)@.pool.next_victim == old(self)@.pool.next_victim,
            final(self)@.pool.frames == old(self)@.pool.frames.update(
                buffer_id.0 as int,
                dirty_bump(old(self)@.pool.frames[buffer_id.0 as int]),
            ),
    {
        let bid = buffer_id.0;
        let ghost pre_concrete = self.pool.frames@;
        let mut f = Frame::empty();
        self.pool.frames.set_and_swap(bid, &mut f);
        f.buffer.is_dirty = true;
        let ghost fmod = f;
        self.pool.frames.set_and_swap(bid, &mut f);
        proof {
            assert(self.pool.frames@ =~= pre_concrete.update(bid as int, fmod));
            lemma_views_update(pre_concrete, bid as int, fmod);
            assert(self@.pool.frames =~= old(self)@.pool.frames.update(bid as int, fmod@));
            lemma_wf_frame_update_same_binding(old(self)@, self@, bid as int);
        }
    }

    /// Overwrites a frame's page bytes through a handle. Dirtiness is the
    /// caller's to declare via `mark_dirty`; the pool never infers it.
    pub fn set_page_bytes(&mut self, buffer_id: BufferId, data: Vec<u8>)
        requires
            old(self)@.wf(),
            buffer_id.0 < old(self)@.pool.frames.len(),
            old(self)@.pool.frames[buffer_id.0 as int].pins >= 1,
            data@.len() == PAGE_SIZE,
        ensures
            final(self)@.wf(),
            final(self)@.table == old(self)@.table,
            final(self)@.next_page_id == old(self)@.next_page_id,
            final(self)@.pool.next_victim == old(self)@.pool.next_victim,
            final(self)@.pool.frames == old(self)@.pool.frames.update(
                buffer_id.0 as int,
                write_bump(old(self)@.pool.frames[buffer_id.0 as int], data@),
            ),
    {
        let bid = buffer_id.0;
        let ghost pre_concrete = self.pool.frames@;
        let mut f = Frame::empty();
        self.pool.frames.set_and_swap(bid, &mut f);
        f.buffer.page = data;
        let ghost fmod = f;
        self.pool.frames.set_and_swap(bid, &mut f);
        proof {
            assert(self.pool.frames@ =~= pre_concrete.update(bid as int, fmod));
            lemma_views_update(pre_concrete, bid as int, fmod);
            assert(self@.pool.frames =~= old(self)@.pool.frames.update(bid as int, fmod@));
            lemma_wf_frame_update_same_binding(old(self)@, self@, bid as int);
        }
    }
}

proof fn lemma_wf_sweep(pre: ManagerModel, post: ManagerModel)
    requires
        pre.wf(),
        post.table == pre.table,
        post.next_page_id == pre.next_page_id,
        post.pool.wf(),
        post.pool.frames.len() == pre.pool.frames.len(),
        forall|i: int|
            0 <= i < pre.pool.frames.len() ==> sweep_rel(
                pre.pool.frames[i],
                #[trigger] post.pool.frames[i],
            ),
    ensures
        post.wf(),
{
    assert forall|pid: u64| #[trigger] post.table.contains_key(pid) implies {
        &&& post.table[pid] < post.pool.frames.len()
        &&& post.pool.frames[post.table[pid] as int].bound
        &&& post.pool.frames[post.table[pid] as int].buffer.page_id == pid
        &&& pid < post.next_page_id
    } by {
        assert(pre.table.contains_key(pid));
        assert(sweep_rel(pre.pool.frames[pre.table[pid] as int], post.pool.frames[pre.table[pid] as int]));
    }
    assert forall|i: int|
        0 <= i < post.pool.frames.len() && (#[trigger] post.pool.frames[i]).bound implies {
        &&& post.table.contains_key(post.pool.frames[i].buffer.page_id)
        &&& post.table[post.pool.frames[i].buffer.page_id] as int == i
    } by {
        assert(sweep_rel(pre.pool.frames[i], post.pool.frames[i]));
        assert(pre.pool.frames[i].bound);
    }
}

proof fn lemma_wf_install(
    pre: ManagerModel,
    post: ManagerModel,
    bid: usize,
    pid: u64,
    page: Seq<u8>,
    dirty: bool,
)
    requires
        pre.wf(),
        (bid as int) < pre.pool.frames.len(),
        !pre.table.contains_key(pid),
        page.len() == PAGE_SIZE,
        install_step(pre, post, bid, pid, page, dirty),
        pid < post.next_page_id,
        pre.next_page_id <= post.next_page_id,
    ensures
        post.wf(),
{
    let n = pre.pool.frames.len() as int;
    assert forall|i: int| 0 <= i < n implies frame_inv(#[trigger] post.pool.frames[i]) by {
        if i != bid {
            assert(post.pool.frames[i] == pre.pool.frames[i]);
        }
    }
    assert forall|q: u64| #[trigger] post.table.contains_key(q) implies {
        &&& post.table[q] < post.pool.frames.len()
        &&& post.pool.frames[post.table[q] as int].bound
        &&& post.pool.frames[post.table[q] as int].buffer.page_id == q
        &&& q < post.next_page_id
    } by {
        if q == pid {
            assert(post.table[q] == bid);
        } else {
            assert(table_unbind(pre, bid).contains_key(q));
            assert(pre.table.contains_key(q));
            assert(post.table[q] == pre.table[q]);
            if pre.table[q] == bid {
                assert(pre.pool.frames[bid as int].bound);
                assert(pre.pool.frames[bid as int].buffer.page_id == q);
                assert(!table_unbind(pre, bid).contains_key(q));
            }
            assert(pre.table[q] != bid);
            assert(post.pool.frames[pre.table[q] as int] == pre.pool.frames[pre.table[q] as int]);
        }
    }
    assert forall|i: int|
        0 <= i < post.pool.frames.len() && (#[trigger] post.pool.frames[i]).bound implies {
        &&& post.table.contains_key(post.pool.frames[i].buffer.page_id)
        &&& post.table[post.pool.frames[i].buffer.page_id] as int == i
    } by {
        if i == bid as int {
            assert(post.pool.frames[i].buffer.page_id == pid);
            assert(post.table.contains_key(pid) && post.table[pid] == bid);
        } else {
            assert(post.pool.frames[i] == pre.pool.frames[i]);
            assert(pre.pool.frames[i].bound);
            let k = pre.pool.frames[i].buffer.page_id;
            assert(pre.table.contains_key(k) && pre.table[k] as int == i);
            assert(k != pid);
            if pre.pool.frames[bid as int].bound {
                let old_pid = pre.pool.frames[bid as int].buffer.page_id;
                assert(pre.table.contains_key(old_pid) && pre.table[old_pid] == bid);
                assert(k != old_pid);
            }
            assert(table_unbind(pre, bid).contains_key(k));
            assert(post.table.contains_key(k) && post.table[k] as int == i);
        }
    }
}

impl BufferPoolManager {
    /// Selects a victim frame for reuse and snapshots the write-back its
    /// reuse owes, without touching the page table or the frame itself.
    fn plan_replacement(&mut self) -> (r: Result<Replacement, Error>)
        requires
            old(self)@.wf(),
        ensures
            final(self)@.wf(),
            final(self)@.table == old(self)@.table,
            final(self)@.next_page_id == old(self)@.next_page_id,
            match r {
                Ok(rep) => miss_plan(
                    old(self)@,
                    final(self)@,
                    rep.buffer_id.0,
                    wb_view(rep.write_back),
                ),
                Err(e) => {
                    &&& e == Error::NoFreeBuffer
                    &&& final(self)@.pool.all_pinned()
                    &&& final(self)@.pool.frames == old(self)@.pool.frames
                },
            },
    {
        match self.pool.evict() {
            None => {
                proof {
                    lemma_wf_sweep(old(self)@, self@);
                }
                Err(Error::NoFreeBuffer)
            },
            Some(b) => {
                let v = b.0;
                proof {
                    assert(self@.pool.frames[v as int] == self.pool.frames@[v as int]@);
                }
                let wb: Option<WriteBack> = if self.pool.frames[v].buffer.is_dirty {
                    let data = clone_page(&self.pool.frames[v].buffer.page);
                    Some(WriteBack { page_id: self.pool.frames[v].buffer.page_id, data })
                } else {
                    None
                };
                proof {
                    lemma_wf_sweep(old(self)@, self@);
                }
                Ok(Replacement { buffer_id: b, write_back: wb })
            },
        }
    }

    /// Returns a handle to the frame holding `page_id`, loading the page
    /// on a miss.
    ///
    /// A hit bumps the frame's counters and is complete in itself. A miss
    /// selects a victim: the driver must write back `write_back` (if any),
    /// read page `page_id` from the heap file, and hand the bytes to
    /// `complete_fetch`. With every frame pinned there is no victim and
    /// the fetch fails.
    pub fn fetch_page(&mut self, page_id: PageId) -> (r: Result<FetchOutcome, Error>)
        requires
            old(self)@.wf(),
        ensures
            final(self)@.wf(),
            final(self)@.table == old(self)@.table,
            final(self)@.next_page_id == old(self)@.next_page_id,
            match r {
                Ok(FetchOutcome::Hit(b)) => hit_step(old(self)@, final(self)@, page_id.0, b.0),
                Ok(FetchOutcome::Miss(rep)) => {
                    &&& !old(self)@.table.contains_key(page_id.0)
                    &&& miss_plan(
                        old(self)@,
                        final(self)@,
                        rep.buffer_id.0,
                        wb_view(rep.write_back),
                    )
                },
                Err(e) => {
                    &&& e == Error::NoFreeBuffer
                    &&& !old(self)@.table.contains_key(page_id.0)
                    &&& final(self)@.pool.all_pinned()
                    &&& final(self)@.pool.frames == old(self)@.pool.frames
                },
            },
    {
        let found: Option<usize> = match self.page_table.get(&page_id.0) {
            Some(b) => Some(*b),
            None => None,
        };
        match found {
            Some(bid) => {
                proof {
                    assert(old(self)@.table.contains_key(page_id.0));
                    assert(old(self)@.table[page_id.0] == bid);
                }
                let ghost pre_concrete = self.pool.frames@;
                let mut f = Frame::empty();
                self.pool.frames.set_and_swap(bid, &mut f);
                proof {
                    assert(f@ == old(self)@.pool.frames[bid as int]);
                }
                if f.usage_count < u64::MAX {
                    f.usage_count = f.usage_count + 1;
                }
                if f.pin_count < u64::MAX {
                    f.pin_count = f.pin_count + 1;
                }
                let ghost fmod = f;
                self.pool.frames.set_and_swap(bid, &mut f);
                proof {
                    assert(self.pool.frames@ =~= pre_concrete.update(bid as int, fmod));
                    lemma_views_update(pre_concrete, bid as int, fmod);
                    assert(fmod@ == hit_bump(old(self)@.pool.frames[bid as int]));
                    assert(self@.pool.frames =~= old(self)@.pool.frames.update(
                        bid as int,
                        hit_bump(old(self)@.pool.frames[bid as int]),
                    ));
                    lemma_wf_frame_update_same_binding(old(self)@, self@, bid as int);
                }
                Ok(FetchOutcome::Hit(BufferId(bid)))
            },
            None => {
                match self.plan_replacement() {
                    Ok(rep) => Ok(FetchOutcome::Miss(rep)),
                    Err(e) => Err(e),
                }
            },
        }
    }

    /// First half of page creation: selects the victim frame whose reuse
    /// will hold the new page. The driver must write back `write_back`
    /// (if any) and then call `complete_create`. The allocator counter
    /// only advances there, so a failed creation issues no page id.
    pub fn create_page(&mut self) -> (r: Result<Replacement, Error>)
        requires
            old(self)@.wf(),
        ensures
            final(self)@.wf(),
            final(self)@.table == old(self)@.table,
            final(self)@.next_page_id == old(self)@.next_page_id,
            match r {
                Ok(rep) => miss_plan(
                    old(self)@,
                    final(self)@,
                    rep.buffer_id.0,
                    wb_view(rep.write_back),
                ),
                Err(e) => {
                    &&& e == Error::NoFreeBuffer
                    &&& final(self)@.pool.all_pinned()
                    &&& final(self)@.pool.frames == old(self)@.pool.frames
                },
            },
    {
        self.plan_replacement()
    }

    /// Second half of a miss: installs the bytes the driver read for
    /// `page_id` into the victim frame and rewrites the page table. The
    /// frame comes back clean, bound, with one handle out. The target
    /// frame must be unpinned and the page not already resident; only
    /// already-issued page ids can be read from the heap file.
    pub fn complete_fetch(&mut self, buffer_id: BufferId, page_id: PageId, data: Vec<u8>)
        requires
            old(self)@.wf(),
            buffer_id.0 < old(self)@.pool.frames.len(),
            old(self)@.pool.frames[buffer_id.0 as int].pins == 0,
            !old(self)@.table.contains_key(page_id.0),
            page_id.0 < old(self)@.next_page_id,
            data@.len() == PAGE_SIZE,
        ensures
            final(self)@.wf(),
            final(self)@.next_page_id == old(self)@.next_page_id,
            install_step(old(self)@, final(self)@, buffer_id.0, page_id.0, data@, false),
    {
        let bid = buffer_id.0;
        proof {
            assert(self@.pool.frames[bid as int] == self.pool.frames@[bid as int]@);
        }
        if self.pool.frames[bid].bound {
            let old_pid = self.pool.frames[bid].buffer.page_id;
            self.page_table.remove(&old_pid.0);
        }
        let ghost pre_concrete = self.pool.frames@;
        let mut f = Frame::empty();
        self.pool.frames.set_and_swap(bid, &mut f);
        f.usage_count = 1;
        f.pin_count = 1;
        f.bound = true;
        f.buffer.page_id = page_id;
        f.buffer.page = data;
        f.buffer.is_dirty = false;
        let ghost fmod = f;
        self.pool.frames.set_and_swap(bid, &mut f);
        self.page_table.insert(page_id.0, bid);
        proof {
            assert(self.pool.frames@ =~= pre_concrete.update(bid as int, fmod));
            lemma_views_update(pre_concrete, bid as int, fmod);
            assert(fmod@ == installed_frame(page_id.0, fmod.buffer.page@, false));
            assert(self@.pool.frames =~= old(self)@.pool.frames.update(
                bid as int,
                installed_frame(page_id.0, fmod.buffer.page@, false),
            ));
            assert(self@.table == table_unbind(old(self)@, bid).insert(page_id.0, bid));
            lemma_wf_install(old(self)@, self@, buffer_id.0, page_id.0, fmod.buffer.page@, false);
        }
    }

    /// Second half of page creation: allocates the fresh page id, zeroes
    /// the victim frame, binds it, and marks it dirty on creation so the
    /// empty page reaches the heap file at its eviction. Returns the new
    /// id; the frame carries one handle out.
    pub fn complete_create(&mut self, buffer_id: BufferId) -> (r: PageId)
        requires
            old(self)@.wf(),
            buffer_id.0 < old(self)@.pool.frames.len(),
            old(self)@.pool.frames[buffer_id.0 as int].pins == 0,
            old(self)@.next_page_id < u64::MAX,
        ensures
            final(self)@.wf(),
            r.0 == old(self)@.next_page_id,
            final(self)@.next_page_id == old(self)@.next_page_id + 1,
            install_step(old(self)@, final(self)@, buffer_id.0, r.0, zero_page_spec(), true),
    {
        let bid = buffer_id.0;
        proof {
            assert(self@.pool.frames[bid as int] == self.pool.frames@[bid as int]@);
            if old(self)@.table.contains_key(old(self)@.next_page_id) {
                assert(old(self)@.next_page_id < old(self)@.next_page_id);
            }
        }
        if self.pool.frames[bid].bound {
            let old_pid = self.pool.frames[bid].buffer.page_id;
            self.page_table.remove(&old_pid.0);
        }
        let page_id = self.disk.allocate_page();
        let ghost pre_concrete = self.pool.frames@;
        let mut f = Frame::empty();
        self.pool.frames.set_and_swap(bid, &mut f);
        f.usage_count = 1;
        f.pin_count = 1;
        f.bound = true;
        f.buffer.page_id = page_id;
        f.buffer.page = zero_page();
        f.buffer.is_dirty = true;
        let ghost fmod = f;
        self.pool.frames.set_and_swap(bid, &mut f);
        self.page_table.insert(page_id.0, bid);
        proof {
            assert(self.pool.frames@ =~= pre_concrete.update(bid as int, fmod));
            lemma_views_update(pre_concrete, bid as int, fmod);
            assert(fmod@ == installed_frame(page_id.0, zero_page_spec(), true));
            assert(self@.pool.frames =~= old(self)@.pool.frames.update(
                bid as int,
                installed_frame(page_id.0, zero_page_spec(), true),
            ));
            assert(self@.table == table_unbind(old(self)@, bid).insert(page_id.0, bid));
            lemma_wf_install(old(self)@, self@, buffer_id.0, page_id.0, zero_page_spec(), true);
        }
        page_id
    }
}

} // verus!
