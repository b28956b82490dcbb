use std::collections::{HashMap, HashSet};
use vstd::prelude::*;

use crate::coords::ChunkPos;
use crate::world::{chunk_key, key_of, lemma_chunk_key_injective};

verus! {

broadcast use vstd::std_specs::hash::group_hash_axioms;

/// A set of chunk positions.
pub struct ChunkSet {
    keys: HashSet<u128>,
}

impl View for ChunkSet {
    type V = Set<ChunkPos>;

    closed spec fn view(&self) -> Set<ChunkPos> {
        Set::new(|c: ChunkPos| self.keys@.contains(chunk_key(c)))
    }
}

impl ChunkSet {
    pub fn new() -> (r: ChunkSet)
        ensures
            r@ == Set::<ChunkPos>::empty(),
    {
        let r = ChunkSet { keys: HashSet::new() };
        assert(r@ =~= Set::<ChunkPos>::empty());
        r
    }

    pub fn contains(&self, c: &ChunkPos) -> (r: bool)
        ensures
            r == self@.contains(*c),
    {
        let k = key_of(*c);
        self.keys.contains(&k)
    }

    pub fn insert(&mut self, c: ChunkPos)
        ensures
            final(self)@ == old(self)@.insert(c),
    {
        let k = key_of(c);
        self.keys.insert(k);
        proof {
            assert forall|d: ChunkPos| #[trigger] self@.contains(d) == old(self)@.insert(c).contains(d) by {
                lemma_chunk_key_injective(d, c);
            }
            assert(self@ =~= old(self)@.insert(c));
        }
    }

    pub fn remove(&mut self, c: &ChunkPos)
        ensures
            final(self)@ == old(self)@.remove(*c),
    {
        let k = key_of(*c);
        self.keys.remove(&k);
        proof {
            assert forall|d: ChunkPos| #[trigger] self@.contains(d) == old(self)@.remove(*c).contains(d) by {
                lemma_chunk_key_injective(d, *c);
            }
            assert(self@ =~= old(self)@.remove(*c));
        }
    }
}

/// Positions for which generation has been dispatched; a mark is never cleared.
pub type PossiblyGeneratedChunks = ChunkSet;

/// Positions queued for meshing or materialized.
pub type PossiblySpawnedChunks = ChunkSet;

/// The materialized chunks: each position with the handle of the entity that shows it.
pub struct SpawnedChunks {
    entities: HashMap<u128, u64>,
    positions: Vec<ChunkPos>,
}

impl View for SpawnedChunks {
    type V = Map<ChunkPos, u64>;

    closed spec fn view(&self) -> Map<ChunkPos, u64> {
        Map::new(|c: ChunkPos| self.entities@.contains_key(chunk_key(c)), |c: ChunkPos| self.entities@[chunk_key(c)])
    }
}

impl SpawnedChunks {
    /// The position list names each stored chunk exactly once.
    pub closed spec fn wf(&self) -> bool {
        &&& self.positions@.no_duplicates()
        &&& forall|c: ChunkPos| #[trigger] self.entities@.contains_key(chunk_key(c)) <==> self.positions@.contains(c)
    }

    pub fn new() -> (r: SpawnedChunks)
        ensures
            r.wf(),
            r@ == Map::<ChunkPos, u64>::empty(),
    {
        let r = SpawnedChunks { entities: HashMap::new(), positions: Vec::new() };
        assert(r@ =~= Map::<ChunkPos, u64>::empty());
        r
    }

    pub fn contains_key(&self, c: &ChunkPos) -> (r: bool)
        ensures
            r == self@.contains_key(*c),
    {
        let k = key_of(*c);
        self.entities.contains_key(&k)
    }

    /// The materialized positions, each once.
    pub fn positions(&self) -> (r: &Vec<ChunkPos>)
        requires
            self.wf(),
        ensures
            r@.no_duplicates(),
            forall|c: ChunkPos| #[trigger] r@.contains(c) <==> self@.contains_key(c),
    {
        &self.positions
    }

    /// Records `entity` as the one showing `c`, returning the entity it replaces.
    pub fn insert(&mut self, c: ChunkPos, entity: u64) -> (r: Option<u64>)
        requires
            old(self).wf(),
        ensures
            final(self).wf(),
            final(self)@ == old(self)@.insert(c, entity),
            match r {
                Some(e) => old(self)@.contains_key(c) && e == old(self)@[c],
                None => !old(self)@.contains_key(c),
            },
    {
        let k = key_of(c);
        let r = self.entities.insert(k, entity);
        if r.is_none() {
            self.positions.push(c);
        }
        proof {
            assert forall|d: ChunkPos| #[trigger] self.entities@.contains_key(chunk_key(d)) <==> self.positions@.contains(d) by {
                lemma_chunk_key_injective(d, c);
                if d != c && old(self).positions@.contains(d) {
                    let i = choose|i: int| 0 <= i < old(self).positions@.len() && old(self).positions@[i] == d;
                    assert(self.positions@[i] == d);
                }
                if r is None {
                    assert(self.positions@[self.positions@.len() - 1] == c);
                }
            }
            assert forall|d: ChunkPos| #![all_triggers] self@.contains_key(d) == old(self)@.insert(c, entity).contains_key(d) && (self@.contains_key(d) ==> self@[d] == old(self)@.insert(c, entity)[d]) by {
                lemma_chunk_key_injective(d, c);
            }
            assert(self@ =~= old(self)@.insert(c, entity));
        }
        r
    }

    /// Forgets `c`, returning its entity.
    pub fn remove(&mut self, c: &ChunkPos) -> (r: Option<u64>)
        requires
            old(self).wf(),
        ensures
            final(self).wf(),
            final(self)@ == old(self)@.remove(*c),
            match r {
                Some(e) => old(self)@.contains_key(*c) && e == old(self)@[*c],
                None => !old(self)@.contains_key(*c),
            },
    {
        let k = key_of(*c);
        let r = self.entities.remove(&k);
        if r.is_some() {
            let mut i: usize = 0;
            while i < self.positions.len() && self.positions[i] != *c
                invariant
                    i <= self.positions@.len(),
                    self.positions@ == old(self).positions@,
                    forall|j: int| 0 <= j < i ==> self.positions@[j] != *c,
                decreases self.positions@.len() - i,
            {
                i = i + 1;
            }
            proof {
                assert(old(self).positions@.contains(*c));
                assert(i < self.positions@.len());
            }
            let ghost before = self.positions@;
            self.positions.remove(i);
            proof {
                assert forall|d: ChunkPos| #[trigger] self.positions@.contains(d) <==> (before.contains(d) && d != *c) by {
                    if before.contains(d) && d != *c {
                        let j = choose|j: int| 0 <= j < before.len() && before[j] == d;
                        if j < i {
                            assert(self.positions@[j] == d);
                        } else {
                            assert(self.positions@[j - 1] == d);
                        }
                    }
                    if self.positions@.contains(d) {
                        let j = choose|j: int| 0 <= j < self.positions@.len() && self.positions@[j] == d;
                        if j < i {
                            assert(before[j] == d);
                        } else {
                            assert(before[j + 1] == d);
                        }
                    }
                }
                assert(self.positions@.no_duplicates()) by {
                    assert forall|a: int, b: int| 0 <= a < b < self.positions@.len() implies self.positions@[a] != self.positions@[b] by {
                        let a2 = if a < i { a } else { a + 1 };
                        let b2 = if b < i { b } else { b + 1 };
                        assert(self.positions@[a] == before[a2]);
                        assert(self.positions@[b] == before[b2]);
                    }
                }
            }
        }
        proof {
            assert forall|d: ChunkPos| #[trigger] self.entities@.contains_key(chunk_key(d)) <==> self.positions@.contains(d) by {
                lemma_chunk_key_injective(d, *c);
            }
            assert forall|d: ChunkPos| #![all_triggers] self@.contains_key(d) == old(self)@.remove(*c).contains_key(d) && (self@.contains_key(d) ==> self@[d] == old(self)@.remove(*c)[d]) by {
                lemma_chunk_key_injective(d, *c);
            }
            assert(self@ =~= old(self)@.remove(*c));
        }
        r
    }
}

} // verus!
