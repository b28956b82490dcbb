use vstd::prelude::*;

use crate::coords::{ChunkPos, LocalChunkPos, CHUNK_SIZE_INT, MAX_CHUNK_COORD, MIN_CHUNK_COORD};
use crate::seq_lemmas::{lemma_push_contains, lemma_push_no_duplicates};

verus! {

/// Largest render distance whose extent in blocks fits an `i32`.
pub const MAX_RENDER_DISTANCE: usize = 67108863;

/// The radius, in chunks, of the cube around the observer's chunk that is
/// generated and shown.
pub struct RenderDistance(usize);

/// `c` lies within `r` chunks of `center` along every axis.
pub open spec fn within_distance(c: ChunkPos, center: ChunkPos, r: int) -> bool {
    &&& -r <= c.x - center.x <= r
    &&& -r <= c.y - center.y <= r
    &&& -r <= c.z - center.z <= r
}

impl RenderDistance {
    #[verifier::type_invariant]
    spec fn bounded(self) -> bool {
        self.0 <= MAX_RENDER_DISTANCE
    }

    /// The radius in chunks.
    pub closed spec fn spec_chunks(&self) -> int {
        self.0 as int
    }

    pub fn new(chunks: usize) -> (r: RenderDistance)
        requires
            chunks <= MAX_RENDER_DISTANCE,
        ensures
            r.spec_chunks() == chunks,
    {
        RenderDistance(chunks)
    }

    /// Changes the radius; the next scheduling pass uses it.
    pub fn set_to(&mut self, new_render_distance: usize)
        requires
            new_render_distance <= MAX_RENDER_DISTANCE,
        ensures
            final(self).spec_chunks() == new_render_distance,
    {
        self.0 = new_render_distance;
    }

    /// The radius in chunks.
    pub fn chunks(&self) -> (r: i32)
        ensures
            r == self.spec_chunks(),
            0 <= r <= MAX_RENDER_DISTANCE,
    {
        proof {
            use_type_invariant(self);
        }
        self.0 as i32
    }

    /// The radius in blocks.
    pub fn blocks(&self) -> (r: i32)
        ensures
            r == self.spec_chunks() * CHUNK_SIZE_INT,
    {
        proof {
            use_type_invariant(self);
        }
        self.0 as i32 * CHUNK_SIZE_INT
    }

    /// Whether a chunk, given relative to the observer's chunk, lies within the radius.
    pub fn contains(&self, pos: LocalChunkPos) -> (r: bool)
        ensures
            r == within_distance(pos.pos, ChunkPos { x: 0, y: 0, z: 0 }, self.spec_chunks()),
    {
        let r = self.chunks() as i64;
        let p = pos.pos;
        -r <= p.x as i64 && p.x as i64 <= r && -r <= p.y as i64 && p.y as i64 <= r && -r
            <= p.z as i64 && p.z as i64 <= r
    }

    /// Whether `c` lies within the radius of `center`.
    pub fn contains_around(&self, c: ChunkPos, center: ChunkPos) -> (r: bool)
        ensures
            r == within_distance(c, center, self.spec_chunks()),
    {
        let r = self.chunks() as i64;
        let dx = c.x as i64 - center.x as i64;
        let dy = c.y as i64 - center.y as i64;
        let dz = c.z as i64 - center.z as i64;
        -r <= dx && dx <= r && -r <= dy && dy <= r && -r <= dz && dz <= r
    }
}

/// Every chunk within `r` of `center` holds `i32` block coordinates.
pub open spec fn cube_in_range(center: ChunkPos, r: int) -> bool {
    &&& MIN_CHUNK_COORD + r <= center.x <= MAX_CHUNK_COORD - r
    &&& MIN_CHUNK_COORD + r <= center.y <= MAX_CHUNK_COORD - r
    &&& MIN_CHUNK_COORD + r <= center.z <= MAX_CHUNK_COORD - r
}

/// `c` comes before offset `(x, y, z)` from `center` when offsets are ordered
/// by x, then y, then z.
spec fn visited_before(c: ChunkPos, center: ChunkPos, x: int, y: int, z: int) -> bool {
    let dx = c.x - center.x;
    let dy = c.y - center.y;
    let dz = c.z - center.z;
    dx < x || (dx == x && (dy < y || (dy == y && dz < z)))
}

impl RenderDistance {
    /// Every chunk within the radius of `center`, each once.
    pub fn chunks_in_range(&self, center: ChunkPos) -> (r: Vec<ChunkPos>)
        requires
            cube_in_range(center, self.spec_chunks()),
        ensures
            r@.no_duplicates(),
            forall|c: ChunkPos| #[trigger] r@.contains(c) <==> within_distance(c, center, self.spec_chunks()),
            forall|i: int| 0 <= i < r@.len() ==> (#[trigger] r@[i]).in_range(),
    {
        let rd = self.chunks();
        let ghost r_int = rd as int;
        let mut out: Vec<ChunkPos> = Vec::new();
        let mut x: i32 = -rd;
        while x <= rd
            invariant
                rd == self.spec_chunks(),
                0 <= rd <= MAX_RENDER_DISTANCE,
                cube_in_range(center, rd as int),
                -rd <= x <= rd + 1,
                out@.no_duplicates(),
                forall|i: int| 0 <= i < out@.len() ==> (#[trigger] out@[i]).in_range(),
                forall|c: ChunkPos| #[trigger] out@.contains(c) <==> (within_distance(c, center, rd as int)
                    && visited_before(c, center, x as int, -rd as int, -rd as int)),
            decreases rd + 1 - x,
        {
            let mut y: i32 = -rd;
            while y <= rd
                invariant
                    rd == self.spec_chunks(),
                    0 <= rd <= MAX_RENDER_DISTANCE,
                    cube_in_range(center, rd as int),
                    -rd <= x <= rd,
                    -rd <= y <= rd + 1,
                    out@.no_duplicates(),
                    forall|i: int| 0 <= i < out@.len() ==> (#[trigger] out@[i]).in_range(),
                    forall|c: ChunkPos| #[trigger] out@.contains(c) <==> (within_distance(c, center, rd as int)
                        && visited_before(c, center, x as int, y as int, -rd as int)),
                decreases rd + 1 - y,
            {
                let mut z: i32 = -rd;
                while z <= rd
                    invariant
                        rd == self.spec_chunks(),
                        0 <= rd <= MAX_RENDER_DISTANCE,
                        cube_in_range(center, rd as int),
                        -rd <= x <= rd,
                        -rd <= y <= rd,
                        -rd <= z <= rd + 1,
                        out@.no_duplicates(),
                        forall|i: int| 0 <= i < out@.len() ==> (#[trigger] out@[i]).in_range(),
                        forall|c: ChunkPos| #[trigger] out@.contains(c) <==> (within_distance(c, center, rd as int)
                            && visited_before(c, center, x as int, y as int, z as int)),
                    decreases rd + 1 - z,
                {
                    let c = ChunkPos { x: center.x + x, y: center.y + y, z: center.z + z };
                    proof {
                        assert(!out@.contains(c));
                        lemma_push_no_duplicates(out@, c);
                        assert forall|d: ChunkPos| #[trigger] out@.push(c).contains(d) <==> (within_distance(d, center, rd as int)
                            && visited_before(d, center, x as int, y as int, z + 1)) by {
                            lemma_push_contains(out@, c, d);
                        }
                    }
                    out.push(c);
                    z = z + 1;
                }
                proof {
                    assert forall|d: ChunkPos| #[trigger] out@.contains(d) <==> (within_distance(d, center, rd as int)
                        && visited_before(d, center, x as int, y + 1, -rd as int)) by {
                    }
                }
                y = y + 1;
            }
            proof {
                assert forall|d: ChunkPos| #[trigger] out@.contains(d) <==> (within_distance(d, center, rd as int)
                    && visited_before(d, center, x + 1, -rd as int, -rd as int)) by {
                }
            }
            x = x + 1;
        }
        proof {
            assert forall|d: ChunkPos| #[trigger] out@.contains(d) <==> within_distance(d, center, rd as int) by {
            }
        }
        out
    }
}

} // verus!
