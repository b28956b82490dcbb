use excavatemanufacturate::block::{BlockData, BlockName};
use excavatemanufacturate::chunk::ChunkData;
use excavatemanufacturate::coords::{BlockPos, ChunkPos};
use excavatemanufacturate::mesh::{ChunkMeshBuilder, FaceDirection};
use excavatemanufacturate::registry::{BlockRegistry, GRASS, STONE};
use excavatemanufacturate::static_block_data::AtlasCoordinates;
use excavatemanufacturate::world::ExcavateManufacturateWorld;

fn solid_chunk(reg: &BlockRegistry) -> ChunkData {
    let stone = reg.create_block(&BlockName(STONE)).unwrap();
    ChunkData::with_data(|_o: BlockPos| BlockData::some(stone))
}

#[test]
fn solid_chunk_beside_air_chunk_emits_only_boundary_faces() {
    let reg = BlockRegistry::create((32, 48));
    let mut world = ExcavateManufacturateWorld::new();
    let a = ChunkPos::new(0, 0, 0);
    let b = ChunkPos::new(1, 0, 0);
    world.insert_chunk(a, solid_chunk(&reg));
    world.insert_chunk(b, ChunkData::empty());
    let mesh = world.get_chunk(a).unwrap().get_mesh(a, &reg, &world).unwrap();
    // Every outer face of the chunk, none between two cells of it.
    let quads = mesh.vertices.len() / 4;
    assert_eq!(quads, 6 * 32 * 32);
    assert_eq!(mesh.normals.len(), mesh.vertices.len());
    assert_eq!(mesh.uvs.len(), mesh.vertices.len());
    assert_eq!(mesh.indices.len(), 6 * quads);
    for q in 0..quads {
        let n = mesh.normals[4 * q];
        for j in 0..4 {
            let v = mesh.vertices[4 * q + j];
            if n == (1, 0, 0) {
                assert_eq!(v.0, 32);
            } else if n == (-1, 0, 0) {
                assert_eq!(v.0, 0);
            } else if n == (0, 1, 0) {
                assert_eq!(v.1, 32);
            } else if n == (0, -1, 0) {
                assert_eq!(v.1, 0);
            } else if n == (0, 0, 1) {
                assert_eq!(v.2, 32);
            } else {
                assert_eq!(n, (0, 0, -1));
                assert_eq!(v.2, 0);
            }
        }
    }
    let towards_b = (0..quads).filter(|&q| mesh.normals[4 * q] == (1, 0, 0)).count();
    assert_eq!(towards_b, 32 * 32);
    assert!(world.get_chunk(b).unwrap().get_mesh(b, &reg, &world).is_none());
}

#[test]
fn solid_neighbour_chunk_hides_shared_faces() {
    let reg = BlockRegistry::create((32, 48));
    let mut world = ExcavateManufacturateWorld::new();
    let a = ChunkPos::new(0, 0, 0);
    world.insert_chunk(a, solid_chunk(&reg));
    world.insert_chunk(ChunkPos::new(1, 0, 0), solid_chunk(&reg));
    let mesh = world.get_chunk(a).unwrap().get_mesh(a, &reg, &world).unwrap();
    assert_eq!(mesh.vertices.len() / 4, 5 * 32 * 32);
    assert!(mesh.normals.iter().all(|&n| n != (1, 0, 0)));
}

#[test]
fn single_block_has_six_textured_faces() {
    let reg = BlockRegistry::create((32, 48));
    let grass = reg.create_block(&BlockName(GRASS)).unwrap();
    let mut world = ExcavateManufacturateWorld::new();
    let c = ChunkPos::new(0, 0, 0);
    world.insert_chunk(c, ChunkData::empty());
    assert!(world.set_block(BlockPos::new(2, 3, 4), BlockData::some(grass)));
    let mesh = world.get_chunk(c).unwrap().get_mesh(c, &reg, &world).unwrap();
    assert_eq!(mesh.vertices.len(), 24);
    assert_eq!(mesh.indices, vec![
        0, 2, 1, 2, 3, 1, 4, 6, 5, 6, 7, 5, 8, 10, 9, 10, 11, 9, 12, 14, 13, 14, 15, 13, 16, 18,
        17, 18, 19, 17, 20, 22, 21, 22, 23, 21,
    ]);
    // Positive z face first.
    assert_eq!(&mesh.vertices[0..4], &[(2, 3, 5), (2, 4, 5), (3, 3, 5), (3, 4, 5)]);
    assert_eq!(mesh.normals[0], (0, 0, 1));
    assert_eq!(&mesh.uvs[0..4], &[(15, 31), (15, 16), (0, 31), (0, 16)]);
    // Top face (third) uses the top region, bottom face (fourth) the bottom region.
    assert_eq!(mesh.normals[8], (0, 1, 0));
    assert_eq!(&mesh.uvs[8..12], &[(15, 0), (15, 15), (0, 0), (0, 15)]);
    assert_eq!(mesh.normals[12], (0, -1, 0));
    assert_eq!(&mesh.uvs[12..16], &[(15, 47), (15, 32), (0, 47), (0, 32)]);
}

#[test]
fn builder_appends_one_quad_per_face() {
    let mut b = ChunkMeshBuilder::new();
    let atlas = AtlasCoordinates { min: (16, 0), max: (31, 15) };
    b.add_face(FaceDirection::NegX, BlockPos::new(0, 0, 0), atlas);
    b.add_face(FaceDirection::PosX, BlockPos::new(1, 2, 3), atlas);
    let mesh = b.into_mesh();
    assert_eq!(mesh.vertices.len(), 8);
    assert_eq!(&mesh.vertices[4..8], &[(2, 2, 4), (2, 3, 4), (2, 2, 3), (2, 3, 3)]);
    assert_eq!(&mesh.normals[0..4], &[(-1, 0, 0); 4]);
    assert_eq!(&mesh.uvs[4..8], &[(16, 15), (16, 0), (31, 15), (31, 0)]);
    assert_eq!(&mesh.indices[6..12], &[4, 6, 5, 6, 7, 5]);
}
