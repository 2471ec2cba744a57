//! The pool's laws: properties that hold across every sequence of
//! operations, stated over the models and transition predicates that the
//! operations' own contracts use.

use vstd::prelude::*;

use crate::buffer::{hit_step, install_step, miss_plan, FrameModel, ManagerModel};

verus! {

/// Total number of outstanding handles over the whole ring.
pub open spec fn total_pins(frames: Seq<FrameModel>) -> nat
    decreases frames.len(),
{
    if frames.len() == 0 {
        0
    } else {
        total_pins(frames.drop_last()) + frames.last().pins as nat
    }
}

proof fn lemma_unpinned_exists(frames: Seq<FrameModel>)
    requires
        total_pins(frames) < frames.len(),
    ensures
        exists|i: int| 0 <= i < frames.len() && (#[trigger] frames[i]).pins == 0,
    decreases frames.len(),
{
    if frames.last().pins == 0 {
        assert(frames[frames.len() - 1].pins == 0);
    } else {
        lemma_unpinned_exists(frames.drop_last());
        let i = choose|i: int|
            0 <= i < frames.drop_last().len() && (#[trigger] frames.drop_last()[i]).pins == 0;
        assert(frames[i].pins == 0);
    }
}

proof fn lemma_total_pins_upper(frames: Seq<FrameModel>)
    requires
        forall|i: int| 0 <= i < frames.len() ==> (#[trigger] frames[i]).pins <= 1,
    ensures
        total_pins(frames) <= frames.len(),
    decreases frames.len(),
{
    if frames.len() > 0 {
        lemma_total_pins_upper(frames.drop_last());
        assert(frames[frames.len() - 1].pins <= 1);
    }
}

/// The page table is exact: every entry points at a bound frame holding
/// exactly that page; no two entries share a frame; and every bound frame
/// has its one entry back. Unbound frames never appear in the table.
pub proof fn lemma_page_table_exact(m: ManagerModel)
    requires
        m.wf(),
    ensures
        forall|pid: u64| #[trigger] m.table.contains_key(pid) ==> m.table[pid]
            < m.pool.frames.len() && m.pool.frames[m.table[pid] as int].bound
            && m.pool.frames[m.table[pid] as int].buffer.page_id == pid,
        forall|p1: u64, p2: u64|
            #![trigger m.table[p1], m.table[p2]]
            m.table.contains_key(p1) && m.table.contains_key(p2) && m.table[p1] == m.table[p2]
                ==> p1 == p2,
        forall|i: int|
            0 <= i < m.pool.frames.len() && (#[trigger] m.pool.frames[i]).bound
                ==> m.table.contains_key(m.pool.frames[i].buffer.page_id)
                && m.table[m.pool.frames[i].buffer.page_id] as int == i,
{
    assert forall|p1: u64, p2: u64|
        #![trigger m.table[p1], m.table[p2]]
        m.table.contains_key(p1) && m.table.contains_key(p2) && m.table[p1] == m.table[p2]
        implies p1 == p2 by {
        assert(m.pool.frames[m.table[p1] as int].buffer.page_id == p1);
        assert(m.pool.frames[m.table[p2] as int].buffer.page_id == p2);
    }
}

/// Idempotence of a hit: two back-to-back hits on the same page with both
/// handles held use the same frame, leave its bytes and identity alone,
/// and never let the usage count fall.
pub proof fn lemma_fetch_hit_idempotent(
    m0: ManagerModel,
    m1: ManagerModel,
    m2: ManagerModel,
    pid: u64,
    b1: usize,
    b2: usize,
)
    requires
        m0.wf(),
        hit_step(m0, m1, pid, b1),
        hit_step(m1, m2, pid, b2),
    ensures
        b2 == b1,
        m2.pool.frames[b1 as int].buffer == m0.pool.frames[b1 as int].buffer,
        m0.pool.frames[b1 as int].usage <= m1.pool.frames[b1 as int].usage,
        m1.pool.frames[b1 as int].usage <= m2.pool.frames[b1 as int].usage,
        m2.pool.frames[b1 as int].pins >= m1.pool.frames[b1 as int].pins,
{
    assert(m0.table.contains_key(pid));
    assert(b1 < m0.pool.frames.len());
}

/// Eviction safety: a replacement plan only ever targets an unpinned
/// frame, and neither the sweep nor the install of the new page touches
/// any pinned frame.
pub proof fn lemma_eviction_safety(
    pre: ManagerModel,
    mid: ManagerModel,
    post: ManagerModel,
    bid: usize,
    wb: Option<(u64, Seq<u8>)>,
    pid: u64,
    page: Seq<u8>,
    dirty: bool,
)
    requires
        pre.wf(),
        miss_plan(pre, mid, bid, wb),
        install_step(mid, post, bid, pid, page, dirty),
    ensures
        pre.pool.frames[bid as int].pins == 0,
        mid.pool.frames[bid as int].pins == 0,
        forall|i: int|
            0 <= i < pre.pool.frames.len() && (#[trigger] pre.pool.frames[i]).pins > 0 ==> {
                &&& post.pool.frames[i] == pre.pool.frames[i]
                &&& i != bid
            },
{
    assert forall|i: int|
        0 <= i < pre.pool.frames.len() && (#[trigger] pre.pool.frames[i]).pins > 0 implies {
        &&& post.pool.frames[i] == pre.pool.frames[i]
        &&& i != bid
    } by {
        assert(mid.pool.frames[i].pins == pre.pool.frames[i].pins);
        assert(mid.pool.frames[i].usage == pre.pool.frames[i].usage);
        assert(post.pool.frames[i] == mid.pool.frames[i]);
    }
}

/// Starvation bound, success half: with fewer outstanding handles than
/// frames, some frame is unpinned, so victim selection cannot report a
/// full pool and a fetch or create cannot fail for want of a buffer.
pub proof fn lemma_starvation_bound(m: ManagerModel)
    requires
        m.wf(),
        total_pins(m.pool.frames) < m.pool.frames.len(),
    ensures
        !m.pool.all_pinned(),
{
    lemma_unpinned_exists(m.pool.frames);
}

/// Starvation bound, failure half: when every frame carries at most one
/// handle and there are as many handles as frames, every frame is pinned,
/// which is exactly the condition under which fetch and create fail.
pub proof fn lemma_full_pool_blocks(m: ManagerModel)
    requires
        m.wf(),
        forall|i: int| 0 <= i < m.pool.frames.len() ==> (#[trigger] m.pool.frames[i]).pins <= 1,
        total_pins(m.pool.frames) >= m.pool.frames.len(),
    ensures
        m.pool.all_pinned(),
{
    lemma_all_one(m.pool.frames);
}

proof fn lemma_all_one(frames: Seq<FrameModel>)
    requires
        forall|i: int| 0 <= i < frames.len() ==> (#[trigger] frames[i]).pins <= 1,
        total_pins(frames) >= frames.len(),
    ensures
        forall|i: int| 0 <= i < frames.len() ==> (#[trigger] frames[i]).pins == 1,
    decreases frames.len(),
{
    if frames.len() > 0 {
        let prefix = frames.drop_last();
        lemma_total_pins_upper(prefix);
        assert(frames[frames.len() - 1].pins == 1);
        lemma_all_one(prefix);
        assert forall|i: int| 0 <= i < frames.len() implies (#[trigger] frames[i]).pins == 1 by {
            if i < frames.len() - 1 {
                assert(prefix[i].pins == 1);
            }
        }
    }
}

/// Durability at eviction, pool side: when a dirty frame is chosen as the
/// victim, the write-back duty carries exactly the frame's page id and
/// its current bytes; a clean victim owes nothing.
pub proof fn lemma_write_back_faithful(
    pre: ManagerModel,
    post: ManagerModel,
    bid: usize,
    wb: Option<(u64, Seq<u8>)>,
)
    requires
        pre.wf(),
        miss_plan(pre, post, bid, wb),
    ensures
        pre.pool.frames[bid as int].buffer.dirty ==> wb == Some(
            (
                pre.pool.frames[bid as int].buffer.page_id,
                pre.pool.frames[bid as int].buffer.page,
            ),
        ),
        !pre.pool.frames[bid as int].buffer.dirty ==> wb is None,
{
    assert(post.pool.frames[bid as int].buffer == pre.pool.frames[bid as int].buffer);
}

/// Round trip through the pool: the bytes handed to the install half are
/// exactly the bytes any later handle on that frame reads, and the page
/// is resident afterwards.
pub proof fn lemma_install_round_trip(
    pre: ManagerModel,
    post: ManagerModel,
    bid: usize,
    pid: u64,
    page: Seq<u8>,
    dirty: bool,
)
    requires
        pre.wf(),
        bid < pre.pool.frames.len(),
        install_step(pre, post, bid, pid, page, dirty),
    ensures
        post.table.contains_key(pid) && post.table[pid] == bid,
        post.pool.frames[bid as int].buffer.page == page,
        post.pool.frames[bid as int].buffer.page_id == pid,
        post.pool.frames[bid as int].pins == 1,
{
}

} // verus!
