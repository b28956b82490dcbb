use crossbeam_queue::SegQueue;
use vstd::prelude::*;

use crate::coords::{BlockPos, ChunkPos};

verus! {

#[verifier::external_type_specification]
#[verifier::external_body]
#[verifier::reject_recursive_types(T)]
pub struct ExSegQueue<T>(SegQueue<T>);

/// The items of a queue of chunk coordinates, head first.
pub uninterp spec fn queued(q: SegQueue<(i32, i32, i32)>) -> Seq<(i32, i32, i32)>;

/// Relies on `SegQueue::new`: a new queue holds nothing.
#[verifier::external_body]
fn seg_queue_new() -> (r: SegQueue<(i32, i32, i32)>)
    ensures
        queued(r) == Seq::<(i32, i32, i32)>::empty(),
{
    SegQueue::new()
}

/// Relies on `SegQueue::push_mut`: with exclusive access, appends `v` at the tail.
#[verifier::external_body]
fn seg_queue_push(q: &mut SegQueue<(i32, i32, i32)>, v: (i32, i32, i32))
    ensures
        queued(*final(q)) == queued(*old(q)).push(v),
{
    q.push_mut(v)
}

/// Relies on `SegQueue::pop_mut`: with exclusive access, removes and returns
/// the head, or returns `None` and changes nothing when the queue is empty.
#[verifier::external_body]
fn seg_queue_pop(q: &mut SegQueue<(i32, i32, i32)>) -> (r: Option<(i32, i32, i32)>)
    ensures
        match r {
            Some(v) => queued(*old(q)).len() > 0 && v == queued(*old(q))[0] && queued(*final(q))
                == queued(*old(q)).drop_first(),
            None => queued(*old(q)).len() == 0 && queued(*final(q)) == queued(*old(q)),
        },
{
    q.pop_mut()
}

pub open spec fn pos_of(t: (i32, i32, i32)) -> ChunkPos {
    ChunkPos { x: t.0, y: t.1, z: t.2 }
}

/// Chunk positions waiting to be meshed, first in first out. A position may
/// be queued more than once.
pub struct ChunkSpawnQueue {
    queue: SegQueue<(i32, i32, i32)>,
}

impl View for ChunkSpawnQueue {
    type V = Seq<ChunkPos>;

    closed spec fn view(&self) -> Seq<ChunkPos> {
        queued(self.queue).map_values(|t: (i32, i32, i32)| pos_of(t))
    }
}

impl ChunkSpawnQueue {
    pub fn new() -> (r: ChunkSpawnQueue)
        ensures
            r@ == Seq::<ChunkPos>::empty(),
    {
        let r = ChunkSpawnQueue { queue: seg_queue_new() };
        assert(r@ =~= Seq::<ChunkPos>::empty());
        r
    }

    /// Appends `c` at the tail.
    pub fn push(&mut self, c: ChunkPos)
        ensures
            final(self)@ == old(self)@.push(c),
    {
        seg_queue_push(&mut self.queue, (c.x, c.y, c.z));
        assert(self@ =~= old(self)@.push(c));
    }

    /// Removes and returns the head, or `None` when nothing is queued.
    pub fn pop(&mut self) -> (r: Option<ChunkPos>)
        ensures
            match r {
                Some(c) => old(self)@.len() > 0 && c == old(self)@[0] && final(self)@ == old(
                    self,
                )@.drop_first(),
                None => old(self)@.len() == 0 && final(self)@ == old(self)@,
            },
    {
        match seg_queue_pop(&mut self.queue) {
            Some(t) => {
                assert(self@ =~= old(self)@.drop_first());
                Some(ChunkPos { x: t.0, y: t.1, z: t.2 })
            },
            None => None,
        }
    }

    /// Queues every chunk whose mesh depends on the block at `block_pos`.
    pub fn submit_on_block_update(&mut self, block_pos: BlockPos)
        ensures
            final(self)@ == old(self)@ + block_pos.spec_touched_chunk_positions(),
    {
        let positions = block_pos.get_touched_chunk_positions();
        let mut i: usize = 0;
        while i < positions.len()
            invariant
                i <= positions@.len(),
                positions@ == block_pos.spec_touched_chunk_positions(),
                self@ == old(self)@ + positions@.take(i as int),
            decreases positions@.len() - i,
        {
            self.push(positions[i]);
            assert(positions@.take(i + 1) =~= positions@.take(i as int).push(positions@[i as int]));
            assert(self@ =~= old(self)@ + positions@.take(i + 1));
            i = i + 1;
        }
        assert(positions@.take(i as int) =~= positions@);
    }
}

} // verus!
