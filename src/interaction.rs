use vstd::prelude::*;

use crate::block::{Block, BlockData};
use crate::coords::{BlockPos, ChunkPos};
use crate::queue::ChunkSpawnQueue;
use crate::registry::{catalog_data, BlockRegistry};
use crate::static_block_data::BlockHardnessLevel;
use crate::world::{wrote_block, ExcavateManufacturateWorld};

verus! {

/// A request to put a block (or air) at a position.
#[derive(Clone, Copy, Debug)]
pub struct BlockPlaceEvent {
    pub pos: BlockPos,
    pub block: BlockData,
}

/// A request to clear a position, with the cell it held.
#[derive(Clone, Copy, Debug)]
pub struct BlockDestroyEvent {
    pub pos: BlockPos,
    pub previous_block: BlockData,
}

impl BlockDestroyEvent {
    /// The event that clears `block_pos`, recording its current cell.
    pub fn create(block_pos: BlockPos, world: &ExcavateManufacturateWorld) -> (r: BlockDestroyEvent)
        requires
            world.block_at(block_pos) is Some,
        ensures
            r.pos == block_pos,
            world.block_at(block_pos) == Some(r.previous_block),
    {
        match world.get_block(block_pos) {
            Some(b) => BlockDestroyEvent { pos: block_pos, previous_block: *b },
            None => BlockDestroyEvent { pos: block_pos, previous_block: BlockData::none() },
        }
    }
}

/// The block at `pos` exists and its type is not unbreakable.
pub open spec fn spec_can_destroy(world: ExcavateManufacturateWorld, pos: BlockPos) -> bool {
    match world.block_at(pos) {
        Some(cell) => match cell.0 {
            Some(b) => catalog_data(b.id.index() as int).hardness != BlockHardnessLevel::Unbreakable,
            None => false,
        },
        None => false,
    }
}

/// Whether the block at `pos` may be broken.
pub fn block_can_be_destroyed(
    world: &ExcavateManufacturateWorld,
    registry: &BlockRegistry,
    pos: BlockPos,
) -> (r: bool)
    ensures
        r == spec_can_destroy(*world, pos),
{
    match world.get_block(pos) {
        Some(cell) => match &cell.0 {
            Some(b) => match registry.get_block_data(b.id).hardness {
                BlockHardnessLevel::Unbreakable => false,
                _ => true,
            },
            None => false,
        },
        None => false,
    }
}

/// Writes `block_data` at `pos`; when the write lands, queues every chunk
/// whose mesh depends on `pos`. Returns whether it landed.
pub fn set_block_and_remesh(
    world: &mut ExcavateManufacturateWorld,
    queue: &mut ChunkSpawnQueue,
    pos: BlockPos,
    block_data: BlockData,
) -> (r: bool)
    ensures
        wrote_block(*old(world), *final(world), pos, block_data, r),
        final(queue)@ == old(queue)@ + if r {
            pos.spec_touched_chunk_positions()
        } else {
            seq![]
        },
{
    let r = world.set_block(pos, block_data);
    if r {
        queue.submit_on_block_update(pos);
    } else {
        assert(queue@ =~= old(queue)@ + seq![]);
    }
    r
}

/// Places `block` at `pos`; fails, changing nothing, where no chunk is stored.
pub fn place_block(
    world: &mut ExcavateManufacturateWorld,
    queue: &mut ChunkSpawnQueue,
    pos: BlockPos,
    block: Block,
) -> (r: bool)
    ensures
        wrote_block(*old(world), *final(world), pos, BlockData(Some(block)), r),
        final(queue)@ == old(queue)@ + if r {
            pos.spec_touched_chunk_positions()
        } else {
            seq![]
        },
{
    set_block_and_remesh(world, queue, pos, BlockData::some(block))
}

/// Clears `pos` to air; fails, changing nothing, where no chunk is stored.
pub fn break_block(world: &mut ExcavateManufacturateWorld, queue: &mut ChunkSpawnQueue, pos: BlockPos) -> (r:
    bool)
    ensures
        wrote_block(*old(world), *final(world), pos, BlockData(None), r),
        final(queue)@ == old(queue)@ + if r {
            pos.spec_touched_chunk_positions()
        } else {
            seq![]
        },
{
    set_block_and_remesh(world, queue, pos, BlockData::none())
}

/// The cell that the last write to `q` among `writes` leaves there, if any
/// write to `q` lands; a write lands where `world` stores the chunk.
pub open spec fn last_write(
    world: ExcavateManufacturateWorld,
    writes: Seq<(BlockPos, BlockData)>,
    q: BlockPos,
) -> Option<BlockData>
    decreases writes.len(),
{
    if writes.len() == 0 {
        None
    } else if writes.last().0 == q && world.has_chunk(ChunkPos::spec_from(q)) {
        Some(writes.last().1)
    } else {
        last_write(world, writes.drop_last(), q)
    }
}

/// The chunks queued for re-meshing by `writes`, in order: for each write
/// that lands, the chunks touched by its position.
pub open spec fn remeshed_by(world: ExcavateManufacturateWorld, writes: Seq<(BlockPos, BlockData)>) -> Seq<ChunkPos>
    decreases writes.len(),
{
    if writes.len() == 0 {
        seq![]
    } else {
        remeshed_by(world, writes.drop_last()) + if world.has_chunk(ChunkPos::spec_from(writes.last().0)) {
            writes.last().0.spec_touched_chunk_positions()
        } else {
            seq![]
        }
    }
}

/// `after` is `before` with `writes` applied in order.
pub open spec fn applied_writes(
    before: ExcavateManufacturateWorld,
    after: ExcavateManufacturateWorld,
    writes: Seq<(BlockPos, BlockData)>,
) -> bool {
    &&& forall|c: ChunkPos| #[trigger] after.has_chunk(c) == before.has_chunk(c)
    &&& forall|q: BlockPos|
        #[trigger] after.block_at(q) == match last_write(before, writes, q) {
            Some(b) => Some(b),
            None => before.block_at(q),
        }
}

pub open spec fn place_writes(events: Seq<BlockPlaceEvent>) -> Seq<(BlockPos, BlockData)> {
    events.map_values(|e: BlockPlaceEvent| (e.pos, e.block))
}

pub open spec fn destroy_writes(events: Seq<BlockDestroyEvent>) -> Seq<(BlockPos, BlockData)> {
    events.map_values(|e: BlockDestroyEvent| (e.pos, BlockData(None)))
}

/// The per-instance state handles held by the destroyed blocks, in order.
pub open spec fn released_entities(events: Seq<BlockDestroyEvent>) -> Seq<u64>
    decreases events.len(),
{
    if events.len() == 0 {
        seq![]
    } else {
        released_entities(events.drop_last()) + match events.last().previous_block.0 {
            Some(b) => match b.dynamic_data {
                Some(e) => seq![e],
                None => seq![],
            },
            None => seq![],
        }
    }
}

/// Applies `writes` in order, queueing the touched chunks of each write that lands.
fn apply_writes(
    world: &mut ExcavateManufacturateWorld,
    queue: &mut ChunkSpawnQueue,
    writes: &Vec<(BlockPos, BlockData)>,
)
    ensures
        applied_writes(*old(world), *final(world), writes@),
        final(queue)@ == old(queue)@ + remeshed_by(*old(world), writes@),
{
    let ghost w0 = *world;
    let mut i: usize = 0;
    while i < writes.len()
        invariant
            i <= writes@.len(),
            w0 == *old(world),
            applied_writes(w0, *world, writes@.take(i as int)),
            queue@ == old(queue)@ + remeshed_by(w0, writes@.take(i as int)),
        decreases writes@.len() - i,
    {
        let (pos, data) = writes[i];
        let ghost before = *world;
        let ghost q_before = queue@;
        let landed = set_block_and_remesh(world, queue, pos, data);
        proof {
            let done = writes@.take(i + 1);
            assert(done.drop_last() =~= writes@.take(i as int));
            assert(done.last() == (pos, data));
            assert(landed == w0.has_chunk(ChunkPos::spec_from(pos)));
            assert forall|q: BlockPos| #[trigger] world.block_at(q) == match last_write(w0, done, q) {
                Some(b) => Some(b),
                None => w0.block_at(q),
            } by {
                assert(world.block_at(q) == if landed && q == pos {
                    Some(data)
                } else {
                    before.block_at(q)
                });
            }
            assert(queue@ =~= old(queue)@ + remeshed_by(w0, done));
        }
        i = i + 1;
    }
    assert(writes@.take(writes@.len() as int) =~= writes@);
}

/// Applies place events in order; each lands where its chunk is stored and
/// then queues the chunks it touches.
pub fn apply_block_place_events(
    events: &Vec<BlockPlaceEvent>,
    em_world: &mut ExcavateManufacturateWorld,
    chunk_spawn_queue: &mut ChunkSpawnQueue,
)
    ensures
        applied_writes(*old(em_world), *final(em_world), place_writes(events@)),
        final(chunk_spawn_queue)@ == old(chunk_spawn_queue)@ + remeshed_by(*old(em_world), place_writes(events@)),
{
    let mut writes: Vec<(BlockPos, BlockData)> = Vec::new();
    let mut i: usize = 0;
    while i < events.len()
        invariant
            i <= events@.len(),
            writes@ == place_writes(events@.take(i as int)),
        decreases events@.len() - i,
    {
        writes.push((events[i].pos, events[i].block));
        assert(place_writes(events@.take(i + 1)) =~= place_writes(events@.take(i as int)).push((events@[i as int].pos, events@[i as int].block)));
        i = i + 1;
    }
    assert(events@.take(events@.len() as int) =~= events@);
    apply_writes(em_world, chunk_spawn_queue, &writes);
}

/// Applies destroy events in order: each clears its position where the chunk
/// is stored and then queues the chunks it touches. Returns the per-instance
/// state handles of the destroyed blocks, to be despawned.
pub fn apply_block_destroy_events(
    events: &Vec<BlockDestroyEvent>,
    em_world: &mut ExcavateManufacturateWorld,
    chunk_spawn_queue: &mut ChunkSpawnQueue,
) -> (r: Vec<u64>)
    ensures
        r@ == released_entities(events@),
        applied_writes(*old(em_world), *final(em_world), destroy_writes(events@)),
        final(chunk_spawn_queue)@ == old(chunk_spawn_queue)@ + remeshed_by(*old(em_world), destroy_writes(events@)),
{
    let mut writes: Vec<(BlockPos, BlockData)> = Vec::new();
    let mut released: Vec<u64> = Vec::new();
    let mut i: usize = 0;
    while i < events.len()
        invariant
            i <= events@.len(),
            writes@ == destroy_writes(events@.take(i as int)),
            released@ == released_entities(events@.take(i as int)),
        decreases events@.len() - i,
    {
        let event = events[i];
        proof {
            assert(events@.take(i + 1).drop_last() =~= events@.take(i as int));
        }
        match event.previous_block.0 {
            Some(b) => match b.dynamic_data {
                Some(e) => {
                    released.push(e);
                },
                None => {},
            },
            None => {},
        }
        writes.push((event.pos, BlockData::none()));
        assert(destroy_writes(events@.take(i + 1)) =~= destroy_writes(events@.take(i as int)).push((event.pos, BlockData(None))));
        assert(released@ =~= released_entities(events@.take(i + 1)));
        i = i + 1;
    }
    assert(events@.take(events@.len() as int) =~= events@);
    apply_writes(em_world, chunk_spawn_queue, &writes);
    released
}

} // verus!
