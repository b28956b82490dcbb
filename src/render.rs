use vstd::prelude::*;

use crate::chunk::CHUNK_VOLUME;
use crate::collections::{ChunkSet, SpawnedChunks};
use crate::coords::ChunkPos;
use crate::mesh::{chunk_quads, ChunkMesh};
use crate::queue::ChunkSpawnQueue;
use crate::registry::BlockRegistry;
use crate::render_distance::{cube_in_range, within_distance, RenderDistance};
use crate::seq_lemmas::{lemma_push_contains, lemma_push_no_duplicates};
use crate::world::ExcavateManufacturateWorld;

verus! {

/// The chunk at `c` is stored and holds at least one block.
pub open spec fn has_geometry(world: ExcavateManufacturateWorld, c: ChunkPos) -> bool {
    world.has_chunk(c) && !world.chunk(c).spec_is_empty()
}

/// A position within range is queued for meshing when it is not materialized,
/// has geometry, and is not already pending.
pub open spec fn should_enqueue(
    world: ExcavateManufacturateWorld,
    spawned: Map<ChunkPos, u64>,
    pending: Set<ChunkPos>,
    c: ChunkPos,
) -> bool {
    !spawned.contains_key(c) && has_geometry(world, c) && !pending.contains(c)
}

/// One queueing pass: `queue_after` is `queue_before` followed by each
/// position within `r` of `observer` that should be meshed, once each, and
/// those positions are added to the pending marks.
pub open spec fn enqueued(
    world: ExcavateManufacturateWorld,
    spawned: Map<ChunkPos, u64>,
    pending_before: Set<ChunkPos>,
    pending_after: Set<ChunkPos>,
    queue_before: Seq<ChunkPos>,
    queue_after: Seq<ChunkPos>,
    observer: ChunkPos,
    r: int,
) -> bool {
    let added = queue_after.skip(queue_before.len() as int);
    &&& queue_after.len() >= queue_before.len()
    &&& queue_after.take(queue_before.len() as int) == queue_before
    &&& added.no_duplicates()
    &&& forall|c: ChunkPos|
        #[trigger] added.contains(c) <==> (within_distance(c, observer, r) && should_enqueue(
            world,
            spawned,
            pending_before,
            c,
        ))
    &&& forall|c: ChunkPos| #[trigger] pending_after.contains(c) <==> (pending_before.contains(c) || added.contains(c))
}

/// No chunk with geometry within range is overlooked: after a queueing
/// pass, each such chunk is materialized or pending, and one that was
/// neither before the pass is now in the queue.
pub proof fn lemma_streaming_covers(
    world: ExcavateManufacturateWorld,
    spawned: Map<ChunkPos, u64>,
    pending_before: Set<ChunkPos>,
    pending_after: Set<ChunkPos>,
    queue_before: Seq<ChunkPos>,
    queue_after: Seq<ChunkPos>,
    observer: ChunkPos,
    r: int,
    c: ChunkPos,
)
    requires
        enqueued(world, spawned, pending_before, pending_after, queue_before, queue_after, observer, r),
        within_distance(c, observer, r),
        has_geometry(world, c),
    ensures
        spawned.contains_key(c) || pending_after.contains(c),
        !spawned.contains_key(c) && !pending_before.contains(c) ==> queue_after.contains(c),
{
    let added = queue_after.skip(queue_before.len() as int);
    if !spawned.contains_key(c) && !pending_before.contains(c) {
        assert(added.contains(c));
        let i = choose|i: int| 0 <= i < added.len() && added[i] == c;
        assert(queue_after[queue_before.len() + i] == c);
    }
}

/// Once the materialized chunks are exactly the chunks with geometry within
/// range, all of them pending, a further pass changes nothing: the queueing
/// pass adds nothing and despawning keeps every materialized chunk.
pub proof fn lemma_streaming_steady(
    world: ExcavateManufacturateWorld,
    spawned: Map<ChunkPos, u64>,
    pending_before: Set<ChunkPos>,
    pending_after: Set<ChunkPos>,
    queue_before: Seq<ChunkPos>,
    queue_after: Seq<ChunkPos>,
    observer: ChunkPos,
    r: int,
)
    requires
        enqueued(world, spawned, pending_before, pending_after, queue_before, queue_after, observer, r),
        forall|c: ChunkPos|
            #[trigger] spawned.contains_key(c) <==> (within_distance(c, observer, r) && has_geometry(world, c)),
        forall|c: ChunkPos| spawned.contains_key(c) ==> #[trigger] pending_before.contains(c),
    ensures
        queue_after == queue_before,
        pending_after == pending_before,
        spawned.restrict(Set::new(|c: ChunkPos| within_distance(c, observer, r))) == spawned,
{
    let added = queue_after.skip(queue_before.len() as int);
    assert(added.len() == 0) by {
        if added.len() > 0 {
            assert(added.contains(added[0]));
        }
    }
    assert(queue_after =~= queue_before) by {
        assert(queue_after.len() == queue_before.len());
        assert forall|i: int| 0 <= i < queue_after.len() implies queue_after[i] == queue_before[i] by {
            assert(queue_after.take(queue_before.len() as int)[i] == queue_before[i]);
        }
    }
    assert(pending_after =~= pending_before);
    assert(spawned.restrict(Set::new(|c: ChunkPos| within_distance(c, observer, r))) =~= spawned);
}

/// Queues, once each, the positions within range of `observer` that should be
/// meshed, and marks them pending. Returns nothing; the queue grows by exactly
/// those positions, in no promised order.
pub fn populate_chunk_spawn_queue(
    observer: ChunkPos,
    render_distance: &RenderDistance,
    spawned_chunks: &SpawnedChunks,
    possibly_spawned_chunks: &mut ChunkSet,
    chunk_spawn_queue: &mut ChunkSpawnQueue,
    em_world: &ExcavateManufacturateWorld,
)
    requires
        cube_in_range(observer, render_distance.spec_chunks()),
    ensures
        enqueued(
            *em_world,
            spawned_chunks@,
            old(possibly_spawned_chunks)@,
            final(possibly_spawned_chunks)@,
            old(chunk_spawn_queue)@,
            final(chunk_spawn_queue)@,
            observer,
            render_distance.spec_chunks(),
        ),
{
    let candidates = render_distance.chunks_in_range(observer);
    let ghost q0 = chunk_spawn_queue@;
    let ghost pending_before = possibly_spawned_chunks@;
    let ghost mut added: Seq<ChunkPos> = Seq::empty();
    let mut i: usize = 0;
    while i < candidates.len()
        invariant
            i <= candidates@.len(),
            candidates@.no_duplicates(),
            q0 == old(chunk_spawn_queue)@,
            pending_before == old(possibly_spawned_chunks)@,
            chunk_spawn_queue@ == q0 + added,
            added.no_duplicates(),
            forall|c: ChunkPos| #[trigger] added.contains(c) <==> (candidates@.take(i as int).contains(c)
                && should_enqueue(*em_world, spawned_chunks@, pending_before, c)),
            forall|c: ChunkPos| #[trigger] possibly_spawned_chunks@.contains(c) <==> (pending_before.contains(c)
                || added.contains(c)),
        decreases candidates@.len() - i,
    {
        let c = candidates[i];
        let chunk_has_geometry = match em_world.get_chunk(c) {
            Some(chunk) => !chunk.is_empty(),
            None => false,
        };
        proof {
            assert(candidates@.take(i + 1) =~= candidates@.take(i as int).push(c));
            assert forall|d: ChunkPos| #[trigger] candidates@.take(i + 1).contains(d) <==> (candidates@.take(i as int).contains(d) || d == c) by {
                lemma_push_contains(candidates@.take(i as int), c, d);
            }
            if candidates@.take(i as int).contains(c) {
                let j = choose|j: int| 0 <= j < i && candidates@.take(i as int)[j] == c;
                assert(candidates@[j] == candidates@[i as int]);
            }
        }
        if !spawned_chunks.contains_key(&c) && chunk_has_geometry && !possibly_spawned_chunks.contains(&c) {
            chunk_spawn_queue.push(c);
            possibly_spawned_chunks.insert(c);
            proof {
                lemma_push_no_duplicates(added, c);
                assert forall|d: ChunkPos| #[trigger] added.push(c).contains(d) <==> (added.contains(d) || d == c) by {
                    lemma_push_contains(added, c, d);
                }
                added = added.push(c);
                assert(chunk_spawn_queue@ =~= q0 + added);
            }
        }
        i = i + 1;
    }
    proof {
        assert(candidates@.take(candidates@.len() as int) =~= candidates@);
        assert(chunk_spawn_queue@.take(q0.len() as int) =~= q0);
        assert(chunk_spawn_queue@.skip(q0.len() as int) =~= added);
    }
}

/// What meshing one dequeued position produced: `None` when there is no
/// geometry to show there (any cached mesh should be dropped), else the new mesh.
pub struct ChunkRender {
    pub pos: ChunkPos,
    pub mesh: Option<ChunkMesh>,
}

/// `r` is what meshing position `c` of `world` yields: no mesh when the chunk
/// is absent, outside the `i32` world, or all air; else its face-culled mesh.
pub open spec fn renders(world: ExcavateManufacturateWorld, c: ChunkPos, r: ChunkRender) -> bool {
    &&& r.pos == c
    &&& match r.mesh {
        None => !(c.in_range() && has_geometry(world, c)),
        Some(m) => c.in_range() && has_geometry(world, c) && m.holds(
            chunk_quads(world.chunk(c)@, world, c, CHUNK_VOLUME as int),
        ),
    }
}

/// Takes up to `count` positions from the head of the queue and reports, for
/// each in order, its new mesh or that it has none.
pub fn spawn_chunks(
    count: usize,
    chunk_spawn_queue: &mut ChunkSpawnQueue,
    em_world: &ExcavateManufacturateWorld,
    block_registry: &BlockRegistry,
) -> (r: Vec<ChunkRender>)
    ensures
        ({
            let k = if count < old(chunk_spawn_queue)@.len() {
                count as int
            } else {
                old(chunk_spawn_queue)@.len() as int
            };
            &&& final(chunk_spawn_queue)@ == old(chunk_spawn_queue)@.skip(k)
            &&& r@.len() == k
            &&& forall|i: int| 0 <= i < k ==> renders(*em_world, old(chunk_spawn_queue)@[i], #[trigger] r@[i])
        }),
{
    let ghost q0 = chunk_spawn_queue@;
    let mut out: Vec<ChunkRender> = Vec::new();
    let mut taken: usize = 0;
    let mut exhausted = false;
    while taken < count && !exhausted
        invariant
            q0 == old(chunk_spawn_queue)@,
            taken <= count,
            taken <= q0.len(),
            exhausted ==> taken == q0.len(),
            chunk_spawn_queue@ == q0.skip(taken as int),
            out@.len() == taken,
            forall|i: int| 0 <= i < taken ==> renders(*em_world, q0[i], #[trigger] out@[i]),
        decreases count - taken + if exhausted { 0int } else { 1int },
    {
        match chunk_spawn_queue.pop() {
            None => {
                exhausted = true;
            },
            Some(c) => {
                proof {
                    assert(q0.skip(taken as int)[0] == q0[taken as int]);
                    assert(chunk_spawn_queue@ =~= q0.skip(taken + 1));
                }
                let mesh = if c.is_in_range() {
                    match em_world.get_chunk(c) {
                        Some(chunk) => chunk.get_mesh(c, block_registry, em_world),
                        None => None,
                    }
                } else {
                    None
                };
                out.push(ChunkRender { pos: c, mesh });
                taken = taken + 1;
            },
        }
    }
    out
}

/// Despawns every materialized chunk outside the radius of `observer`:
/// forgets it and its pending mark, and returns the entities to remove, one
/// per forgotten chunk.
pub fn despawn_chunks(
    observer: ChunkPos,
    render_distance: &RenderDistance,
    spawned_chunks: &mut SpawnedChunks,
    possibly_spawned_chunks: &mut ChunkSet,
) -> (r: Vec<u64>)
    requires
        old(spawned_chunks).wf(),
    ensures
        final(spawned_chunks).wf(),
        final(spawned_chunks)@ == old(spawned_chunks)@.restrict(
            Set::new(|c: ChunkPos| within_distance(c, observer, render_distance.spec_chunks())),
        ),
        forall|c: ChunkPos|
            #[trigger] final(possibly_spawned_chunks)@.contains(c) <==> (old(possibly_spawned_chunks)@.contains(c)
                && !(old(spawned_chunks)@.contains_key(c) && !within_distance(c, observer, render_distance.spec_chunks()))),
        exists|removed: Seq<ChunkPos>|
            {
                &&& removed.no_duplicates()
                &&& forall|c: ChunkPos| #[trigger] removed.contains(c) <==> (old(spawned_chunks)@.contains_key(c)
                    && !within_distance(c, observer, render_distance.spec_chunks()))
                &&& r@ == removed.map_values(|c: ChunkPos| old(spawned_chunks)@[c])
            },
{
    let ghost rd = render_distance.spec_chunks();
    let ghost s0 = spawned_chunks@;
    let ghost pending_before = possibly_spawned_chunks@;
    let positions_ref = spawned_chunks.positions();
    let mut positions: Vec<ChunkPos> = Vec::new();
    let mut j: usize = 0;
    while j < positions_ref.len()
        invariant
            j <= positions_ref@.len(),
            positions@ == positions_ref@.take(j as int),
        decreases positions_ref@.len() - j,
    {
        positions.push(positions_ref[j]);
        assert(positions_ref@.take(j + 1) =~= positions_ref@.take(j as int).push(positions_ref@[j as int]));
        j = j + 1;
    }
    assert(positions@ =~= positions_ref@);
    let mut out: Vec<u64> = Vec::new();
    let ghost mut removed: Seq<ChunkPos> = Seq::empty();
    let mut i: usize = 0;
    while i < positions.len()
        invariant
            i <= positions@.len(),
            positions@.no_duplicates(),
            forall|c: ChunkPos| #[trigger] positions@.contains(c) <==> s0.contains_key(c),
            spawned_chunks.wf(),
            removed.no_duplicates(),
            forall|c: ChunkPos| #[trigger] removed.contains(c) <==> (positions@.take(i as int).contains(c)
                && !within_distance(c, observer, rd)),
            forall|c: ChunkPos| #[trigger] spawned_chunks@.contains_key(c) <==> (s0.contains_key(c)
                && !removed.contains(c)),
            forall|c: ChunkPos| spawned_chunks@.contains_key(c) ==> #[trigger] spawned_chunks@[c] == s0[c],
            forall|c: ChunkPos| #[trigger] possibly_spawned_chunks@.contains(c) <==> (pending_before.contains(c)
                && !removed.contains(c)),
            out@ == removed.map_values(|c: ChunkPos| s0[c]),
            rd == render_distance.spec_chunks(),
        decreases positions@.len() - i,
    {
        let c = positions[i];
        proof {
            assert(positions@.take(i + 1) =~= positions@.take(i as int).push(c));
            assert forall|d: ChunkPos| #[trigger] positions@.take(i + 1).contains(d) <==> (positions@.take(i as int).contains(d) || d == c) by {
                lemma_push_contains(positions@.take(i as int), c, d);
            }
            if positions@.take(i as int).contains(c) {
                let k = choose|k: int| 0 <= k < i && positions@.take(i as int)[k] == c;
                assert(positions@[k] == positions@[i as int]);
            }
            assert(positions@.contains(c)) by {
                assert(positions@[i as int] == c);
            }
        }
        if !render_distance.contains_around(c, observer) {
            match spawned_chunks.remove(&c) {
                Some(entity) => {
                    out.push(entity);
                    possibly_spawned_chunks.remove(&c);
                    proof {
                        lemma_push_no_duplicates(removed, c);
                        assert forall|d: ChunkPos| #[trigger] removed.push(c).contains(d) <==> (removed.contains(d) || d == c) by {
                            lemma_push_contains(removed, c, d);
                        }
                        removed = removed.push(c);
                        assert(out@ =~= removed.map_values(|c: ChunkPos| s0[c]));
                    }
                },
                None => {},
            }
        }
        i = i + 1;
    }
    proof {
        assert(positions@.take(positions@.len() as int) =~= positions@);
        assert(spawned_chunks@ =~= s0.restrict(Set::new(|c: ChunkPos| within_distance(c, observer, rd))));
    }
    out
}

/// Despawns every materialized chunk: returns all their entities, one per
/// chunk, and leaves nothing materialized.
pub fn despawn_all_chunks(spawned_chunks: &mut SpawnedChunks) -> (r: Vec<u64>)
    requires
        old(spawned_chunks).wf(),
    ensures
        final(spawned_chunks).wf(),
        final(spawned_chunks)@ == Map::<ChunkPos, u64>::empty(),
        exists|removed: Seq<ChunkPos>|
            {
                &&& removed.no_duplicates()
                &&& forall|c: ChunkPos| #[trigger] removed.contains(c) <==> old(spawned_chunks)@.contains_key(c)
                &&& r@ == removed.map_values(|c: ChunkPos| old(spawned_chunks)@[c])
            },
{
    let ghost s0 = spawned_chunks@;
    let positions_ref = spawned_chunks.positions();
    let mut positions: Vec<ChunkPos> = Vec::new();
    let mut j: usize = 0;
    while j < positions_ref.len()
        invariant
            j <= positions_ref@.len(),
            positions@ == positions_ref@.take(j as int),
        decreases positions_ref@.len() - j,
    {
        positions.push(positions_ref[j]);
        assert(positions_ref@.take(j + 1) =~= positions_ref@.take(j as int).push(positions_ref@[j as int]));
        j = j + 1;
    }
    assert(positions@ =~= positions_ref@);
    let mut out: Vec<u64> = Vec::new();
    let ghost mut removed: Seq<ChunkPos> = Seq::empty();
    let mut i: usize = 0;
    while i < positions.len()
        invariant
            i <= positions@.len(),
            positions@.no_duplicates(),
            forall|c: ChunkPos| #[trigger] positions@.contains(c) <==> s0.contains_key(c),
            spawned_chunks.wf(),
            removed == positions@.take(i as int),
            forall|c: ChunkPos| #[trigger] spawned_chunks@.contains_key(c) <==> (s0.contains_key(c)
                && !removed.contains(c)),
            forall|c: ChunkPos| spawned_chunks@.contains_key(c) ==> #[trigger] spawned_chunks@[c] == s0[c],
            out@ == removed.map_values(|c: ChunkPos| s0[c]),
        decreases positions@.len() - i,
    {
        let c = positions[i];
        proof {
            assert(positions@.take(i + 1) =~= positions@.take(i as int).push(c));
            assert forall|d: ChunkPos| #[trigger] positions@.take(i + 1).contains(d) <==> (positions@.take(i as int).contains(d) || d == c) by {
                lemma_push_contains(positions@.take(i as int), c, d);
            }
            if positions@.take(i as int).contains(c) {
                let k = choose|k: int| 0 <= k < i && positions@.take(i as int)[k] == c;
                assert(positions@[k] == positions@[i as int]);
            }
            assert(positions@.contains(c)) by {
                assert(positions@[i as int] == c);
            }
        }
        let entity = spawned_chunks.remove(&c);
        proof {
            removed = removed.push(c);
        }
        match entity {
            Some(e) => {
                out.push(e);
                assert(out@ =~= removed.map_values(|c: ChunkPos| s0[c]));
            },
            None => {},
        }
        i = i + 1;
    }
    proof {
        assert(positions@.take(positions@.len() as int) =~= positions@);
        assert(spawned_chunks@ =~= Map::<ChunkPos, u64>::empty());
    }
    out
}

/// The materialized chunks never leave the radius: after chunks outside the
/// radius of the observer's current chunk are despawned, every materialized
/// chunk lies within it.
pub proof fn lemma_streaming_contained(
    before: Map<ChunkPos, u64>,
    after: Map<ChunkPos, u64>,
    observer: ChunkPos,
    r: int,
    c: ChunkPos,
)
    requires
        after == before.restrict(Set::new(|d: ChunkPos| within_distance(d, observer, r))),
        after.contains_key(c),
    ensures
        within_distance(c, observer, r),
{
}

} // verus!
