use std::collections::HashMap;
use vstd::prelude::*;

use crate::block::BlockData;
use crate::chunk::{spec_index, ChunkData};
use crate::coords::{lemma_chunk_round_trip, BlockPos, ChunkPos};

verus! {

broadcast use vstd::std_specs::hash::group_hash_axioms;

/// A chunk coordinate shifted into `[0, 2^32)`.
pub open spec fn key_part(c: i32) -> int {
    c + 2147483648
}

/// The map key of a chunk position: its three shifted coordinates side by side.
pub open spec fn chunk_key(c: ChunkPos) -> u128 {
    (key_part(c.x) * 18446744073709551616 + key_part(c.y) * 4294967296 + key_part(c.z)) as u128
}

proof fn lemma_key_part_unique(n: int, a: int, b: int, c: int)
    requires
        0 <= b < 4294967296,
        0 <= c < 4294967296,
        n == a * 18446744073709551616 + b * 4294967296 + c,
    ensures
        a == n / 18446744073709551616,
        b == (n % 18446744073709551616) / 4294967296,
        c == n % 4294967296,
{
    assert(n == (a * 4294967296 + b) * 4294967296 + c) by (nonlinear_arith)
        requires
            n == a * 18446744073709551616 + b * 4294967296 + c,
    ;
    vstd::arithmetic::div_mod::lemma_fundamental_div_mod_converse(n, 4294967296, a * 4294967296 + b, c);
    let m = b * 4294967296 + c;
    assert(0 <= m < 18446744073709551616) by (nonlinear_arith)
        requires
            0 <= b < 4294967296,
            0 <= c < 4294967296,
            m == b * 4294967296 + c,
    ;
    vstd::arithmetic::div_mod::lemma_fundamental_div_mod_converse(n, 18446744073709551616, a, m);
    vstd::arithmetic::div_mod::lemma_fundamental_div_mod_converse(m, 4294967296, b, c);
}

/// Distinct chunk positions have distinct keys.
pub proof fn lemma_chunk_key_injective(c1: ChunkPos, c2: ChunkPos)
    ensures
        chunk_key(c1) == chunk_key(c2) <==> c1 == c2,
{
    let n1 = key_part(c1.x) * 18446744073709551616 + key_part(c1.y) * 4294967296 + key_part(c1.z);
    let n2 = key_part(c2.x) * 18446744073709551616 + key_part(c2.y) * 4294967296 + key_part(c2.z);
    assert(0 <= n1 < 340282366920938463463374607431768211456) by (nonlinear_arith)
        requires
            n1 == key_part(c1.x) * 18446744073709551616 + key_part(c1.y) * 4294967296 + key_part(
                c1.z,
            ),
            0 <= key_part(c1.x) < 4294967296,
            0 <= key_part(c1.y) < 4294967296,
            0 <= key_part(c1.z) < 4294967296,
    ;
    assert(0 <= n2 < 340282366920938463463374607431768211456) by (nonlinear_arith)
        requires
            n2 == key_part(c2.x) * 18446744073709551616 + key_part(c2.y) * 4294967296 + key_part(
                c2.z,
            ),
            0 <= key_part(c2.x) < 4294967296,
            0 <= key_part(c2.y) < 4294967296,
            0 <= key_part(c2.z) < 4294967296,
    ;
    lemma_key_part_unique(n1, key_part(c1.x), key_part(c1.y), key_part(c1.z));
    lemma_key_part_unique(n2, key_part(c2.x), key_part(c2.y), key_part(c2.z));
}

/// The map key of `c`.
pub(crate) fn key_of(c: ChunkPos) -> (r: u128)
    ensures
        r == chunk_key(c),
{
    let x = ((c.x as i64) + 2147483648i64) as u128;
    let y = ((c.y as i64) + 2147483648i64) as u128;
    let z = ((c.z as i64) + 2147483648i64) as u128;
    assert(x * 18446744073709551616 + y * 4294967296 + z < 340282366920938463463374607431768211456)
        by (nonlinear_arith)
        requires
            x < 4294967296,
            y < 4294967296,
            z < 4294967296,
    ;
    x * 18446744073709551616u128 + y * 4294967296u128 + z
}

/// `after` is `before` with `chunk` stored at `c`, every other chunk kept.
pub open spec fn inserted_chunk(
    before: ExcavateManufacturateWorld,
    after: ExcavateManufacturateWorld,
    c: ChunkPos,
    chunk: ChunkData,
) -> bool {
    &&& after.has_chunk(c)
    &&& after.chunk(c) == chunk
    &&& forall|d: ChunkPos| d != c ==> #[trigger] after.has_chunk(d) == before.has_chunk(d)
    &&& forall|d: ChunkPos| d != c ==> #[trigger] after.chunk(d) == before.chunk(d)
}

/// `written` tells whether the chunk of `p` is stored in `before`; if so,
/// `after` is `before` with cell `p` set to `data`, else `after` holds the same
/// blocks as `before`. The set of stored chunks never changes.
pub open spec fn wrote_block(
    before: ExcavateManufacturateWorld,
    after: ExcavateManufacturateWorld,
    p: BlockPos,
    data: BlockData,
    written: bool,
) -> bool {
    &&& written == before.has_chunk(ChunkPos::spec_from(p))
    &&& forall|c: ChunkPos| #[trigger] after.has_chunk(c) == before.has_chunk(c)
    &&& forall|q: BlockPos|
        #[trigger] after.block_at(q) == if written && q == p {
            Some(data)
        } else {
            before.block_at(q)
        }
}

/// After a chunk is stored at `c`, writing a block at a position `p` inside
/// `c` succeeds and reading `p` gives that block back. Writing at a position
/// whose chunk was never stored fails and reading it gives nothing.
pub proof fn lemma_store_write_read(
    w0: ExcavateManufacturateWorld,
    w1: ExcavateManufacturateWorld,
    w2: ExcavateManufacturateWorld,
    c: ChunkPos,
    chunk: ChunkData,
    p: BlockPos,
    data: BlockData,
    written: bool,
    missing: BlockPos,
    after_missing: ExcavateManufacturateWorld,
    written_missing: bool,
)
    requires
        inserted_chunk(w0, w1, c, chunk),
        ChunkPos::spec_from(p) == c,
        wrote_block(w1, w2, p, data, written),
        !w0.has_chunk(ChunkPos::spec_from(missing)),
        wrote_block(w0, after_missing, missing, data, written_missing),
    ensures
        written,
        w2.block_at(p) == Some(data),
        !written_missing,
        after_missing.block_at(missing) is None,
{
}

/// Relies on `HashMap::get_mut`: a mutable borrow of the value stored under
/// `k`, or `None` when there is none; what is written through the borrow is
/// what the map then holds under `k`.
#[verifier::external_body]
fn map_get_mut<'a>(m: &'a mut HashMap<u128, ChunkData>, k: &u128) -> (r: Option<&'a mut ChunkData>)
    ensures
        match r {
            Some(v) => old(m)@.contains_key(*k) && *v == old(m)@[*k] && final(m)@ == old(m)@.insert(
                *k,
                *final(v),
            ),
            None => !old(m)@.contains_key(*k) && final(m)@ == old(m)@,
        },
{
    m.get_mut(k)
}

/// The single source of block truth: a sparse map from chunk position to chunk.
/// A chunk is either wholly present or absent.
pub struct ExcavateManufacturateWorld {
    chunks: HashMap<u128, ChunkData>,
}

impl ExcavateManufacturateWorld {
    /// Whether the chunk at `c` has been stored.
    pub closed spec fn has_chunk(&self, c: ChunkPos) -> bool {
        self.chunks@.contains_key(chunk_key(c))
    }

    /// The chunk stored at `c`, meaningful where `has_chunk(c)`.
    pub closed spec fn chunk(&self, c: ChunkPos) -> ChunkData {
        self.chunks@[chunk_key(c)]
    }

    /// Number of stored chunks.
    pub closed spec fn chunk_count(&self) -> nat {
        self.chunks@.len()
    }

    /// The cell of block `p`, or `None` when its chunk is absent.
    pub open spec fn block_at(&self, p: BlockPos) -> Option<BlockData> {
        let c = ChunkPos::spec_from(p);
        if self.has_chunk(c) {
            Some(self.chunk(c)@[spec_index(p.spec_chunk_offset())])
        } else {
            None
        }
    }

    /// A block occupies `p`.
    pub open spec fn spec_is_occupied(&self, p: BlockPos) -> bool {
        match self.block_at(p) {
            Some(b) => b.spec_is_some(),
            None => false,
        }
    }

    /// A world with no chunks.
    pub fn new() -> (r: ExcavateManufacturateWorld)
        ensures
            forall|c: ChunkPos| !r.has_chunk(c),
            r.chunk_count() == 0,
    {
        ExcavateManufacturateWorld { chunks: HashMap::new() }
    }

    /// The chunk at `chunk_pos`, if stored.
    pub fn get_chunk(&self, chunk_pos: ChunkPos) -> (r: Option<&ChunkData>)
        ensures
            match r {
                Some(c) => self.has_chunk(chunk_pos) && *c == self.chunk(chunk_pos),
                None => !self.has_chunk(chunk_pos),
            },
    {
        let k = key_of(chunk_pos);
        self.chunks.get(&k)
    }

    /// A mutable borrow of the chunk at `chunk_pos`, if stored; other chunks
    /// are left as they are.
    pub fn get_chunk_mut(&mut self, chunk_pos: ChunkPos) -> (r: Option<&mut ChunkData>)
        ensures
            match r {
                Some(c) => {
                    &&& old(self).has_chunk(chunk_pos)
                    &&& *c == old(self).chunk(chunk_pos)
                    &&& inserted_chunk(*old(self), *final(self), chunk_pos, *final(c))
                },
                None => {
                    &&& !old(self).has_chunk(chunk_pos)
                    &&& forall|d: ChunkPos| #[trigger] final(self).has_chunk(d) == old(self).has_chunk(d)
                    &&& forall|d: ChunkPos| #[trigger] final(self).chunk(d) == old(self).chunk(d)
                },
            },
    {
        let k = key_of(chunk_pos);
        proof {
            assert forall|c: ChunkPos| c != chunk_pos implies #[trigger] chunk_key(c) != k by {
                lemma_chunk_key_injective(c, chunk_pos);
            }
        }
        map_get_mut(&mut self.chunks, &k)
    }

    /// Stores `chunk_data` at `chunk_pos`, returning the chunk it displaced.
    pub fn insert_chunk(&mut self, chunk_pos: ChunkPos, chunk_data: ChunkData) -> (r: Option<
        ChunkData,
    >)
        ensures
            inserted_chunk(*old(self), *final(self), chunk_pos, chunk_data),
            final(self).chunk_count() == old(self).chunk_count() + if r is None {
                1int
            } else {
                0int
            },
            match r {
                Some(d) => old(self).has_chunk(chunk_pos) && d == old(self).chunk(chunk_pos),
                None => !old(self).has_chunk(chunk_pos),
            },
    {
        let k = key_of(chunk_pos);
        let r = self.chunks.insert(k, chunk_data);
        proof {
            assert(self.chunks@.dom() =~= old(self).chunks@.dom().insert(k));
            assert forall|c: ChunkPos| c != chunk_pos implies self.has_chunk(c) == old(self).has_chunk(c)
                && self.chunk(c) == old(self).chunk(c) by {
                lemma_chunk_key_injective(c, chunk_pos);
            }
        }
        r
    }

    /// Whether a chunk is stored at `chunk_pos`.
    pub fn chunk_exists(&self, chunk_pos: ChunkPos) -> (r: bool)
        ensures
            r == self.has_chunk(chunk_pos),
    {
        let k = key_of(chunk_pos);
        self.chunks.contains_key(&k)
    }

    /// Number of stored chunks.
    pub fn total_chunk_count(&self) -> (r: usize)
        ensures
            r == self.chunk_count(),
    {
        self.chunks.len()
    }

    /// The cell of the block at `block_pos`, or `None` when its chunk is absent.
    pub fn get_block(&self, block_pos: BlockPos) -> (r: Option<&BlockData>)
        ensures
            match r {
                Some(b) => self.block_at(block_pos) == Some(*b),
                None => self.block_at(block_pos) is None,
            },
    {
        match self.get_chunk(ChunkPos::from(block_pos)) {
            Some(chunk_data) => Some(chunk_data.get(block_pos)),
            None => None,
        }
    }

    /// Whether a block occupies `block_pos`; this is the occupancy that meshing
    /// and ray traversal share.
    pub fn is_occupied(&self, block_pos: BlockPos) -> (r: bool)
        ensures
            r == self.spec_is_occupied(block_pos),
    {
        match self.get_block(block_pos) {
            Some(b) => b.is_some(),
            None => false,
        }
    }

    /// The occupancy predicate of this world, as a function value.
    pub fn hit_evaluator(&self) -> (r: impl Fn(BlockPos) -> bool + '_)
        ensures
            forall|p: BlockPos| #[trigger] r.requires((p,)),
            forall|p: BlockPos, b: bool| r.ensures((p,), b) ==> b == self.spec_is_occupied(p),
    {
        move |pos: BlockPos| -> (b: bool)
            ensures
                b == self.spec_is_occupied(pos),
            { self.is_occupied(pos) }
    }

    /// Writes `block_data` at `block_pos` when its chunk is stored; otherwise
    /// changes nothing. Never creates a chunk. Returns whether it wrote.
    pub fn set_block(&mut self, block_pos: BlockPos, block_data: BlockData) -> (r: bool)
        ensures
            wrote_block(*old(self), *final(self), block_pos, block_data, r),
            final(self).chunk_count() == old(self).chunk_count(),
    {
        let c = ChunkPos::from(block_pos);
        let k = key_of(c);
        match self.chunks.remove(&k) {
            Some(mut chunk_data) => {
                let ghost removed = self.chunks@;
                assert(removed.dom() =~= old(self).chunks@.dom().remove(k));
                let _ = chunk_data.cell_count();
                chunk_data.set(block_pos, block_data);
                self.chunks.insert(k, chunk_data);
                proof {
                    assert(self.chunks@.dom() =~= removed.dom().insert(k));
                    assert(self.chunks@.dom() =~= old(self).chunks@.dom());
                    assert forall|c2: ChunkPos| #[trigger]
                        self.has_chunk(c2) == old(self).has_chunk(c2) by {
                        lemma_chunk_key_injective(c2, c);
                    }
                    assert forall|q: BlockPos| #[trigger]
                        self.block_at(q) == if q == block_pos {
                            Some(block_data)
                        } else {
                            old(self).block_at(q)
                        } by {
                        let cq = ChunkPos::spec_from(q);
                        lemma_chunk_key_injective(cq, c);
                        lemma_chunk_round_trip(q);
                        lemma_chunk_round_trip(block_pos);
                        crate::chunk::lemma_index_round_trip(0, q.spec_chunk_offset());
                        crate::chunk::lemma_index_round_trip(0, block_pos.spec_chunk_offset());
                        if cq == c && q != block_pos {
                            if q.spec_chunk_offset() == block_pos.spec_chunk_offset() {
                                lemma_same_cell(q, block_pos);
                            }
                            crate::chunk::lemma_index_round_trip(0, q.spec_chunk_offset());
                            crate::chunk::lemma_index_round_trip(0, block_pos.spec_chunk_offset());
                            lemma_chunk_round_trip(q);
                            lemma_chunk_round_trip(block_pos);
                        }
                    }
                }
                true
            },
            None => {
                assert(self.chunks@ == old(self).chunks@);
                false
            },
        }
    }
}

/// Two blocks with the same chunk and the same in-chunk offset are the same block.
proof fn lemma_same_cell(p: BlockPos, q: BlockPos)
    requires
        ChunkPos::spec_from(p) == ChunkPos::spec_from(q),
        p.spec_chunk_offset() == q.spec_chunk_offset(),
    ensures
        p == q,
{
    lemma_chunk_round_trip(p);
    lemma_chunk_round_trip(q);
}

} // verus!
