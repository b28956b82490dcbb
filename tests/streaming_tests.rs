use excavatemanufacturate::block::{BlockData, BlockName};
use excavatemanufacturate::chunk::ChunkData;
use excavatemanufacturate::collections::{ChunkSet, SpawnedChunks};
use excavatemanufacturate::coords::{BlockPos, ChunkPos, LocalChunkPos};
use excavatemanufacturate::generation::{generate_chunks_multithreaded, poll_generated_chunks};
use excavatemanufacturate::queue::ChunkSpawnQueue;
use excavatemanufacturate::registry::{BlockRegistry, STONE};
use excavatemanufacturate::render::{despawn_all_chunks, despawn_chunks, populate_chunk_spawn_queue, spawn_chunks};
use excavatemanufacturate::render_distance::RenderDistance;
use excavatemanufacturate::world::ExcavateManufacturateWorld;

fn chunk_with_block(reg: &BlockRegistry) -> ChunkData {
    let stone = reg.create_block(&BlockName(STONE)).unwrap();
    let mut c = ChunkData::empty();
    c.set(BlockPos::new(4, 4, 4), BlockData::some(stone));
    c
}

fn chebyshev(c: ChunkPos) -> i32 {
    c.x.abs().max(c.y.abs()).max(c.z.abs())
}

struct Session {
    reg: BlockRegistry,
    world: ExcavateManufacturateWorld,
    spawned: SpawnedChunks,
    pending: ChunkSet,
    queue: ChunkSpawnQueue,
    next_entity: u64,
}

impl Session {
    fn tick(&mut self, observer: ChunkPos, rd: &RenderDistance) -> Vec<u64> {
        populate_chunk_spawn_queue(observer, rd, &self.spawned, &mut self.pending, &mut self.queue, &self.world);
        let mut gone = Vec::new();
        for render in spawn_chunks(4, &mut self.queue, &self.world, &self.reg) {
            if render.mesh.is_some() {
                self.next_entity += 1;
                if let Some(old) = self.spawned.insert(render.pos, self.next_entity) {
                    gone.push(old);
                }
            }
        }
        gone.extend(despawn_chunks(observer, rd, &mut self.spawned, &mut self.pending));
        gone
    }
}

#[test]
fn materialized_set_converges_within_render_distance() {
    let reg = BlockRegistry::create((32, 48));
    let mut world = ExcavateManufacturateWorld::new();
    let with_geometry = [
        ChunkPos::new(0, 0, 0),
        ChunkPos::new(2, -2, 1),
        ChunkPos::new(-1, 0, 2),
        ChunkPos::new(3, 0, 0),
        ChunkPos::new(0, -5, 0),
    ];
    for c in with_geometry {
        world.insert_chunk(c, chunk_with_block(&reg));
    }
    world.insert_chunk(ChunkPos::new(1, 1, 1), ChunkData::empty());
    let mut s = Session {
        reg,
        world,
        spawned: SpawnedChunks::new(),
        pending: ChunkSet::new(),
        queue: ChunkSpawnQueue::new(),
        next_entity: 0,
    };
    let mut rd = RenderDistance::new(5);
    rd.set_to(2);
    let observer = ChunkPos::new(0, 0, 0);
    for _ in 0..5 {
        s.tick(observer, &rd);
        for &c in s.spawned.positions().iter() {
            assert!(chebyshev(c) <= 2);
        }
    }
    let mut got: Vec<(i32, i32, i32)> = s.spawned.positions().iter().map(|c| (c.x, c.y, c.z)).collect();
    got.sort();
    assert_eq!(got, vec![(-1, 0, 2), (0, 0, 0), (2, -2, 1)]);
}

#[test]
fn moving_away_despawns() {
    let reg = BlockRegistry::create((32, 48));
    let mut world = ExcavateManufacturateWorld::new();
    world.insert_chunk(ChunkPos::new(0, 0, 0), chunk_with_block(&reg));
    let mut s = Session {
        reg,
        world,
        spawned: SpawnedChunks::new(),
        pending: ChunkSet::new(),
        queue: ChunkSpawnQueue::new(),
        next_entity: 0,
    };
    let rd = RenderDistance::new(1);
    s.tick(ChunkPos::new(0, 0, 0), &rd);
    assert!(s.spawned.contains_key(&ChunkPos::new(0, 0, 0)));
    let gone = s.tick(ChunkPos::new(5, 0, 0), &rd);
    assert_eq!(gone, vec![1]);
    assert!(!s.spawned.contains_key(&ChunkPos::new(0, 0, 0)));
    assert!(!s.pending.contains(&ChunkPos::new(0, 0, 0)));
    s.tick(ChunkPos::new(0, 0, 0), &rd);
    assert!(s.spawned.contains_key(&ChunkPos::new(0, 0, 0)));
}

#[test]
fn despawn_all_empties_the_set() {
    let mut spawned = SpawnedChunks::new();
    spawned.insert(ChunkPos::new(0, 0, 0), 10);
    spawned.insert(ChunkPos::new(9, 9, 9), 11);
    assert_eq!(spawned.insert(ChunkPos::new(0, 0, 0), 12), Some(10));
    let mut gone = despawn_all_chunks(&mut spawned);
    gone.sort();
    assert_eq!(gone, vec![11, 12]);
    assert!(spawned.positions().is_empty());
}

#[test]
fn spawn_reports_missing_and_air_without_mesh() {
    let reg = BlockRegistry::create((32, 48));
    let mut world = ExcavateManufacturateWorld::new();
    world.insert_chunk(ChunkPos::new(0, 0, 0), ChunkData::empty());
    world.insert_chunk(ChunkPos::new(1, 0, 0), chunk_with_block(&reg));
    let mut queue = ChunkSpawnQueue::new();
    queue.push(ChunkPos::new(5, 5, 5));
    queue.push(ChunkPos::new(0, 0, 0));
    queue.push(ChunkPos::new(1, 0, 0));
    queue.push(ChunkPos::new(0, 0, 0));
    let out = spawn_chunks(3, &mut queue, &world, &reg);
    assert_eq!(out.len(), 3);
    assert_eq!(out[0].pos, ChunkPos::new(5, 5, 5));
    assert!(out[0].mesh.is_none());
    assert_eq!(out[1].pos, ChunkPos::new(0, 0, 0));
    assert!(out[1].mesh.is_none());
    assert_eq!(out[2].pos, ChunkPos::new(1, 0, 0));
    assert_eq!(out[2].mesh.as_ref().unwrap().vertices.len(), 24);
    assert_eq!(queue.pop(), Some(ChunkPos::new(0, 0, 0)));
    assert_eq!(queue.pop(), None);
}

#[test]
fn generation_dispatches_each_position_once() {
    let reg = BlockRegistry::create((32, 48));
    let mut world = ExcavateManufacturateWorld::new();
    world.insert_chunk(ChunkPos::new(1, 0, 0), chunk_with_block(&reg));
    let rd = RenderDistance::new(1);
    let observer = ChunkPos::new(10, -3, 7);
    let mut dispatched = ChunkSet::new();
    let first = generate_chunks_multithreaded(observer, &rd, &world, &mut dispatched);
    assert_eq!(first.len(), 27);
    assert_eq!(first[0], observer);
    let d2 = |c: &ChunkPos| {
        let (x, y, z) = ((c.x - observer.x) as i64, (c.y - observer.y) as i64, (c.z - observer.z) as i64);
        x * x + y * y + z * z
    };
    for w in first.windows(2) {
        assert!(d2(&w[0]) <= d2(&w[1]));
    }
    let second = generate_chunks_multithreaded(observer, &rd, &world, &mut dispatched);
    assert!(second.is_empty());
    let moved = generate_chunks_multithreaded(ChunkPos::new(11, -3, 7), &rd, &world, &mut dispatched);
    assert_eq!(moved.len(), 9);
    assert!(moved.iter().all(|c| c.x == 12));
}

#[test]
fn generation_skips_stored_chunks() {
    let reg = BlockRegistry::create((32, 48));
    let mut world = ExcavateManufacturateWorld::new();
    world.insert_chunk(ChunkPos::new(1, 0, 0), chunk_with_block(&reg));
    let rd = RenderDistance::new(1);
    let mut dispatched = ChunkSet::new();
    let out = generate_chunks_multithreaded(ChunkPos::new(0, 0, 0), &rd, &world, &mut dispatched);
    assert_eq!(out.len(), 26);
    assert!(!out.contains(&ChunkPos::new(1, 0, 0)));
    assert!(dispatched.contains(&ChunkPos::new(-1, -1, -1)));
    assert!(!dispatched.contains(&ChunkPos::new(1, 0, 0)));
}

#[test]
fn merging_generated_chunks() {
    let reg = BlockRegistry::create((32, 48));
    let mut world = ExcavateManufacturateWorld::new();
    let mut queue = ChunkSpawnQueue::new();
    assert!(!poll_generated_chunks(ChunkPos::new(1, 0, 0), ChunkData::empty(), &mut world, &mut queue));
    assert!(!world.chunk_exists(ChunkPos::new(1, 0, 0)));
    assert_eq!(queue.pop(), None);
    assert!(poll_generated_chunks(ChunkPos::new(1, 0, 0), chunk_with_block(&reg), &mut world, &mut queue));
    assert!(world.chunk_exists(ChunkPos::new(1, 0, 0)));
    let expected = [
        ChunkPos::new(1, 0, 0),
        ChunkPos::new(2, 0, 0),
        ChunkPos::new(0, 0, 0),
        ChunkPos::new(1, 1, 0),
        ChunkPos::new(1, -1, 0),
        ChunkPos::new(1, 0, 1),
        ChunkPos::new(1, 0, -1),
    ];
    for c in expected {
        assert_eq!(queue.pop(), Some(c));
    }
    assert_eq!(queue.pop(), None);
}

#[test]
fn render_distance_queries() {
    let mut rd = RenderDistance::new(8);
    assert_eq!(rd.chunks(), 8);
    assert_eq!(rd.blocks(), 256);
    rd.set_to(2);
    assert_eq!(rd.chunks(), 2);
    assert!(rd.contains(LocalChunkPos::from(ChunkPos::new(2, -2, 0), ChunkPos::new(0, 0, 0))));
    assert!(!rd.contains(LocalChunkPos::from(ChunkPos::new(3, 0, 0), ChunkPos::new(0, 0, 0))));
    assert_eq!(rd.chunks_in_range(ChunkPos::new(0, 0, 0)).len(), 125);
}

#[test]
fn zero_render_distance_covers_only_observer_chunk() {
    let rd = RenderDistance::new(0);
    assert_eq!(rd.blocks(), 0);
    assert_eq!(rd.chunks_in_range(ChunkPos::new(-4, 2, 9)), vec![ChunkPos::new(-4, 2, 9)]);
}

#[test]
fn chunk_set_insert_and_remove() {
    let mut set = ChunkSet::new();
    let c = ChunkPos::new(-1, i32::MAX, i32::MIN);
    assert!(!set.contains(&c));
    set.insert(c);
    assert!(set.contains(&c));
    assert!(!set.contains(&ChunkPos::new(-1, i32::MAX, i32::MIN + 1)));
    set.remove(&c);
    assert!(!set.contains(&c));
}

#[test]
fn queue_is_first_in_first_out() {
    let mut q = ChunkSpawnQueue::new();
    assert_eq!(q.pop(), None);
    q.push(ChunkPos::new(1, 2, 3));
    q.push(ChunkPos::new(-4, 5, -6));
    q.submit_on_block_update(BlockPos::new(0, 5, 5));
    assert_eq!(q.pop(), Some(ChunkPos::new(1, 2, 3)));
    assert_eq!(q.pop(), Some(ChunkPos::new(-4, 5, -6)));
    assert_eq!(q.pop(), Some(ChunkPos::new(0, 0, 0)));
    assert_eq!(q.pop(), Some(ChunkPos::new(-1, 0, 0)));
    assert_eq!(q.pop(), None);
}
