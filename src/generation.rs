use vstd::prelude::*;

use crate::chunk::ChunkData;
use crate::collections::ChunkSet;
use crate::coords::ChunkPos;
use crate::queue::ChunkSpawnQueue;
use crate::render_distance::{cube_in_range, within_distance, RenderDistance};
use crate::seq_lemmas::{lemma_push_contains, lemma_push_no_duplicates};
use crate::world::{inserted_chunk, ExcavateManufacturateWorld};

verus! {

/// Squared Euclidean distance between two chunk positions.
pub open spec fn dist2(a: ChunkPos, b: ChunkPos) -> int {
    a.spec_distance_squared(b)
}

/// Every position lies within `2^27` chunks of `center` on each axis, so
/// squared distances fit an `i64`.
pub open spec fn near(s: Seq<ChunkPos>, center: ChunkPos) -> bool {
    forall|i: int| 0 <= i < s.len() ==> within_distance(#[trigger] s[i], center, 134217728)
}

fn distance_squared(a: ChunkPos, b: ChunkPos) -> (r: i64)
    requires
        within_distance(a, b, 134217728),
    ensures
        r == dist2(a, b),
{
    let dx = a.x as i64 - b.x as i64;
    let dy = a.y as i64 - b.y as i64;
    let dz = a.z as i64 - b.z as i64;
    assert(dx * dx <= 134217728 * 134217728) by (nonlinear_arith)
        requires
            -134217728 <= dx <= 134217728,
    ;
    assert(dy * dy <= 134217728 * 134217728) by (nonlinear_arith)
        requires
            -134217728 <= dy <= 134217728,
    ;
    assert(dz * dz <= 134217728 * 134217728) by (nonlinear_arith)
        requires
            -134217728 <= dz <= 134217728,
    ;
    assert(0 <= dx * dx && 0 <= dy * dy && 0 <= dz * dz) by (nonlinear_arith);
    dx * dx + dy * dy + dz * dz
}

proof fn lemma_insert_contains<A>(s: Seq<A>, p: int, v: A, c: A)
    requires
        0 <= p <= s.len(),
    ensures
        s.insert(p, v).contains(c) <==> (s.contains(c) || c == v),
{
    if s.contains(c) {
        let i = choose|i: int| 0 <= i < s.len() && s[i] == c;
        if i < p {
            assert(s.insert(p, v)[i] == c);
        } else {
            assert(s.insert(p, v)[i + 1] == c);
        }
    }
    if c == v {
        assert(s.insert(p, v)[p] == c);
    }
    if s.insert(p, v).contains(c) && c != v {
        let i = choose|i: int| 0 <= i < s.insert(p, v).len() && s.insert(p, v)[i] == c;
        if i < p {
            assert(s[i] == c);
        } else {
            assert(s[i - 1] == c);
        }
    }
}

/// Orders `v` by squared distance to `center`, nearest first.
fn sort_by_distance(v: &Vec<ChunkPos>, center: ChunkPos) -> (r: Vec<ChunkPos>)
    requires
        v@.no_duplicates(),
        near(v@, center),
    ensures
        r@.len() == v@.len(),
        r@.no_duplicates(),
        forall|c: ChunkPos| #[trigger] r@.contains(c) <==> v@.contains(c),
        forall|i: int, j: int|
            0 <= i < j < r@.len() ==> dist2(#[trigger] r@[i], center) <= dist2(#[trigger] r@[j], center),
{
    let mut r: Vec<ChunkPos> = Vec::new();
    let mut k: usize = 0;
    while k < v.len()
        invariant
            k <= v@.len(),
            v@.no_duplicates(),
            near(v@, center),
            r@.len() == k,
            r@.no_duplicates(),
            near(r@, center),
            forall|c: ChunkPos| #[trigger] r@.contains(c) <==> v@.take(k as int).contains(c),
            forall|i: int, j: int|
                0 <= i < j < r@.len() ==> dist2(#[trigger] r@[i], center) <= dist2(#[trigger] r@[j], center),
        decreases v@.len() - k,
    {
        let c = v[k];
        let d = distance_squared(c, center);
        let mut p: usize = 0;
        while p < r.len() && distance_squared(r[p], center) <= d
            invariant
                p <= r@.len(),
                near(r@, center),
                d == dist2(c, center),
                forall|i: int| 0 <= i < p ==> dist2(#[trigger] r@[i], center) <= d,
            decreases r@.len() - p,
        {
            p = p + 1;
        }
        proof {
            assert(v@.take(k + 1) =~= v@.take(k as int).push(c));
            assert(!r@.contains(c)) by {
                if v@.take(k as int).contains(c) {
                    let j = choose|j: int| 0 <= j < k && v@.take(k as int)[j] == c;
                    assert(v@[j] == v@[k as int]);
                }
            }
        }
        let ghost before = r@;
        r.insert(p, c);
        proof {
            assert forall|e: ChunkPos| #[trigger] r@.contains(e) <==> v@.take(k + 1).contains(e) by {
                lemma_insert_contains(before, p as int, c, e);
                lemma_push_contains(v@.take(k as int), c, e);
            }
            assert(r@.no_duplicates()) by {
                assert forall|a: int, b: int| 0 <= a < b < r@.len() implies r@[a] != r@[b] by {
                    if a == p {
                        assert(before.contains(r@[b])) by {
                            if b > p {
                                assert(before[b - 1] == r@[b]);
                            }
                        }
                    } else if b == p {
                        assert(before[a] == r@[a]);
                    } else {
                        let a2 = if a < p { a } else { a - 1 };
                        let b2 = if b < p { b } else { b - 1 };
                        assert(before[a2] == r@[a]);
                        assert(before[b2] == r@[b]);
                    }
                }
            }
            assert(near(r@, center)) by {
                assert forall|i: int| 0 <= i < r@.len() implies within_distance(#[trigger] r@[i], center, 134217728) by {
                    if i < p {
                        assert(r@[i] == before[i]);
                    } else if i > p {
                        assert(r@[i] == before[i - 1]);
                    }
                }
            }
            assert forall|i: int, j: int|
                0 <= i < j < r@.len() implies dist2(#[trigger] r@[i], center) <= dist2(#[trigger] r@[j], center) by {
                if i < p && j == p {
                } else if i == p && j > p {
                    // The scan stopped at a strictly farther position, and
                    // everything after it is at least as far.
                    assert(r@[j] == before[j - 1]);
                    assert(p < before.len());
                    assert(dist2(before[p as int], center) > d);
                    if j - 1 > p {
                        assert(dist2(before[p as int], center) <= dist2(before[j - 1], center));
                    }
                } else {
                    let i2 = if i < p { i } else { i - 1 };
                    let j2 = if j < p { j } else { j - 1 };
                    assert(before[i2] == r@[i]);
                    assert(before[j2] == r@[j]);
                }
            }
        }
        k = k + 1;
    }
    assert(v@.take(v@.len() as int) =~= v@);
    r
}

/// The positions within range of `observer` that are neither generated nor dispatched.
pub open spec fn needs_generation(
    world: ExcavateManufacturateWorld,
    possibly_generated: Set<ChunkPos>,
    observer: ChunkPos,
    r: int,
    c: ChunkPos,
) -> bool {
    within_distance(c, observer, r) && !possibly_generated.contains(c) && !world.has_chunk(c)
}

/// `out` is one scheduling pass: each position that needs generation, once,
/// nearest first, and `after` is `before` with all of them marked.
pub open spec fn dispatched(
    world: ExcavateManufacturateWorld,
    before: Set<ChunkPos>,
    after: Set<ChunkPos>,
    observer: ChunkPos,
    r: int,
    out: Seq<ChunkPos>,
) -> bool {
    &&& out.no_duplicates()
    &&& forall|c: ChunkPos| #[trigger] out.contains(c) <==> needs_generation(world, before, observer, r, c)
    &&& forall|i: int, j: int|
        0 <= i < j < out.len() ==> dist2(#[trigger] out[i], observer) <= dist2(#[trigger] out[j], observer)
    &&& forall|c: ChunkPos| #[trigger] after.contains(c) <==> (before.contains(c) || out.contains(c))
}

/// Chooses the chunks to generate this pass: every position within range
/// that is neither stored nor already dispatched, nearest first. Each is
/// marked as dispatched before it is returned, so no later pass returns it.
pub fn generate_chunks_multithreaded(
    observer: ChunkPos,
    render_distance: &RenderDistance,
    em_world: &ExcavateManufacturateWorld,
    possibly_generated_chunks: &mut ChunkSet,
) -> (r: Vec<ChunkPos>)
    requires
        cube_in_range(observer, render_distance.spec_chunks()),
    ensures
        dispatched(
            *em_world,
            old(possibly_generated_chunks)@,
            final(possibly_generated_chunks)@,
            observer,
            render_distance.spec_chunks(),
            r@,
        ),
        forall|i: int| 0 <= i < r@.len() ==> (#[trigger] r@[i]).in_range(),
{
    let ghost rd = render_distance.spec_chunks();
    let candidates = render_distance.chunks_in_range(observer);
    let mut chunk_positions: Vec<ChunkPos> = Vec::new();
    let mut i: usize = 0;
    while i < candidates.len()
        invariant
            i <= candidates@.len(),
            candidates@.no_duplicates(),
            forall|c: ChunkPos| #[trigger] candidates@.contains(c) <==> within_distance(c, observer, rd),
            forall|j: int| 0 <= j < candidates@.len() ==> (#[trigger] candidates@[j]).in_range(),
            rd == render_distance.spec_chunks(),
            rd <= 67108863,
            chunk_positions@.no_duplicates(),
            near(chunk_positions@, observer),
            forall|j: int| 0 <= j < chunk_positions@.len() ==> (#[trigger] chunk_positions@[j]).in_range(),
            forall|c: ChunkPos| #[trigger] chunk_positions@.contains(c) <==> (candidates@.take(i as int).contains(c)
                && !possibly_generated_chunks@.contains(c) && !em_world.has_chunk(c)),
            possibly_generated_chunks@ == old(possibly_generated_chunks)@,
        decreases candidates@.len() - i,
    {
        let c = candidates[i];
        proof {
            assert(candidates@.take(i + 1) =~= candidates@.take(i as int).push(c));
            assert forall|d: ChunkPos| #[trigger] candidates@.take(i + 1).contains(d) <==> (candidates@.take(i as int).contains(d) || d == c) by {
                lemma_push_contains(candidates@.take(i as int), c, d);
            }
            if candidates@.take(i as int).contains(c) {
                let k = choose|k: int| 0 <= k < i && candidates@.take(i as int)[k] == c;
                assert(candidates@[k] == candidates@[i as int]);
            }
            assert(candidates@.contains(c)) by {
                assert(candidates@[i as int] == c);
            }
        }
        if !possibly_generated_chunks.contains(&c) && !em_world.chunk_exists(c) {
            proof {
                lemma_push_no_duplicates(chunk_positions@, c);
                assert forall|d: ChunkPos| #[trigger] chunk_positions@.push(c).contains(d) <==> (chunk_positions@.contains(d) || d == c) by {
                    lemma_push_contains(chunk_positions@, c, d);
                }
            }
            chunk_positions.push(c);
        }
        i = i + 1;
    }
    proof {
        assert(candidates@.take(candidates@.len() as int) =~= candidates@);
    }
    let sorted = sort_by_distance(&chunk_positions, observer);
    let mut k: usize = 0;
    while k < sorted.len()
        invariant
            k <= sorted@.len(),
            forall|c: ChunkPos| #[trigger] possibly_generated_chunks@.contains(c) <==> (old(possibly_generated_chunks)@.contains(c)
                || sorted@.take(k as int).contains(c)),
        decreases sorted@.len() - k,
    {
        proof {
            assert(sorted@.take(k + 1) =~= sorted@.take(k as int).push(sorted@[k as int]));
            assert forall|d: ChunkPos| #[trigger] sorted@.take(k + 1).contains(d) <==> (sorted@.take(k as int).contains(d) || d == sorted@[k as int]) by {
                lemma_push_contains(sorted@.take(k as int), sorted@[k as int], d);
            }
        }
        possibly_generated_chunks.insert(sorted[k]);
        k = k + 1;
    }
    proof {
        assert(sorted@.take(sorted@.len() as int) =~= sorted@);
        assert forall|j: int| 0 <= j < sorted@.len() implies (#[trigger] sorted@[j]).in_range() by {
            assert(sorted@.contains(sorted@[j]));
            assert(chunk_positions@.contains(sorted@[j]));
            let m = choose|m: int| 0 <= m < chunk_positions@.len() && chunk_positions@[m] == sorted@[j];
        }
    }
    sorted
}

/// A position is dispatched at most once: what one pass dispatches, no later
/// pass dispatches again, whatever the world and observer are by then,
/// since dispatch marks are never cleared.
pub proof fn lemma_no_duplicate_dispatch(
    w1: ExcavateManufacturateWorld,
    w2: ExcavateManufacturateWorld,
    marks_first: Set<ChunkPos>,
    marks_between: Set<ChunkPos>,
    marks_later: Set<ChunkPos>,
    marks_last: Set<ChunkPos>,
    observer1: ChunkPos,
    observer2: ChunkPos,
    r1: int,
    r2: int,
    out1: Seq<ChunkPos>,
    out2: Seq<ChunkPos>,
    c: ChunkPos,
)
    requires
        dispatched(w1, marks_first, marks_between, observer1, r1, out1),
        marks_between.subset_of(marks_later),
        dispatched(w2, marks_later, marks_last, observer2, r2, out2),
        out1.contains(c),
    ensures
        !out2.contains(c),
        marks_last.contains(c),
{
}

/// The neighbours whose meshes depend on a newly stored chunk: the chunk
/// itself, then one step along +x, -x, +y, -y, +z, -z.
pub open spec fn rebuild_candidates(c: ChunkPos) -> Seq<ChunkPos> {
    seq![
        c,
        c.spec_add(1, 0, 0),
        c.spec_add(-1, 0, 0),
        c.spec_add(0, 1, 0),
        c.spec_add(0, -1, 0),
        c.spec_add(0, 0, 1),
        c.spec_add(0, 0, -1),
    ]
}

/// Merges one finished generation result. A chunk of air is dropped (its
/// dispatch mark stays, so it is never generated again). Otherwise it is
/// stored, and it and its six neighbours are queued for meshing, since the
/// neighbours' boundary faces depend on it; positions without a chunk to
/// mesh are dropped when dequeued. Returns whether the chunk was stored.
pub fn poll_generated_chunks(
    chunk_pos: ChunkPos,
    chunk_data: ChunkData,
    em_world: &mut ExcavateManufacturateWorld,
    spawn_queue: &mut ChunkSpawnQueue,
) -> (r: bool)
    requires
        chunk_pos.in_range(),
    ensures
        r == !chunk_data.spec_is_empty(),
        r ==> inserted_chunk(*old(em_world), *final(em_world), chunk_pos, chunk_data),
        !r ==> *final(em_world) == *old(em_world),
        final(spawn_queue)@ == old(spawn_queue)@ + if r {
            rebuild_candidates(chunk_pos)
        } else {
            seq![]
        },
{
    if chunk_data.is_empty() {
        assert(spawn_queue@ =~= old(spawn_queue)@ + seq![]);
        return false;
    }
    em_world.insert_chunk(chunk_pos, chunk_data);
    let c = chunk_pos;
    let chunk_positions_to_rebuild = [
        c,
        ChunkPos { x: c.x + 1, y: c.y, z: c.z },
        ChunkPos { x: c.x - 1, y: c.y, z: c.z },
        ChunkPos { x: c.x, y: c.y + 1, z: c.z },
        ChunkPos { x: c.x, y: c.y - 1, z: c.z },
        ChunkPos { x: c.x, y: c.y, z: c.z + 1 },
        ChunkPos { x: c.x, y: c.y, z: c.z - 1 },
    ];
    assert(chunk_positions_to_rebuild@ =~= rebuild_candidates(c));
    let mut i: usize = 0;
    while i < 7
        invariant
            i <= 7,
            chunk_positions_to_rebuild@ == rebuild_candidates(c),
            spawn_queue@ == old(spawn_queue)@ + rebuild_candidates(c).take(i as int),
        decreases 7 - i,
    {
        spawn_queue.push(chunk_positions_to_rebuild[i]);
        assert(rebuild_candidates(c).take(i + 1) =~= rebuild_candidates(c).take(i as int).push(
            rebuild_candidates(c)[i as int],
        ));
        assert(spawn_queue@ =~= old(spawn_queue)@ + rebuild_candidates(c).take(i + 1));
        i = i + 1;
    }
    assert(rebuild_candidates(c).take(7) =~= rebuild_candidates(c));
    true
}

} // verus!
