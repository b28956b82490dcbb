use excavatemanufacturate::block::BlockName;
use excavatemanufacturate::registry::{BlockRegistry, BEDROCK, DIRT, GRASS, STONE};
use excavatemanufacturate::static_block_data::{
    AtlasCoordinates, BlockFace, BlockHardnessLevel, BlockTextures, ToolType,
};

#[test]
fn ids_follow_catalog_order() {
    let reg = BlockRegistry::create((32, 48));
    assert_eq!(reg.get_block_id(&BlockName(GRASS)).unwrap().as_index(), 0);
    assert_eq!(reg.get_block_id(&BlockName(DIRT)).unwrap().as_index(), 1);
    assert_eq!(reg.get_block_id(&BlockName(BEDROCK)).unwrap().as_index(), 2);
    assert_eq!(reg.get_block_id(&BlockName(STONE)).unwrap().as_index(), 3);
}

#[test]
fn unknown_name_has_no_id() {
    let reg = BlockRegistry::create((32, 48));
    assert!(reg.get_block_id(&BlockName("excavatemanufacturate/lava")).is_none());
    assert!(reg.create_block(&BlockName("")).is_none());
}

#[test]
fn created_block_has_no_dynamic_data() {
    let reg = BlockRegistry::create((32, 48));
    let b = reg.create_block(&BlockName(DIRT)).unwrap();
    assert_eq!(b.id.as_index(), 1);
    assert_eq!(b.dynamic_data, None);
    assert_eq!(b.with_dynamic_data(7).dynamic_data, Some(7));
}

#[test]
fn static_data_of_catalog() {
    let reg = BlockRegistry::create((32, 48));
    let stone = reg.get_block_id(&BlockName(STONE)).unwrap();
    assert_eq!(reg.get_block_data(stone).hardness, BlockHardnessLevel::Tool(ToolType::Pickaxe, 0));
    let bedrock = reg.get_block_id(&BlockName(BEDROCK)).unwrap();
    assert_eq!(reg.get_block_data(bedrock).hardness, BlockHardnessLevel::Unbreakable);
    let grass = reg.get_block_id(&BlockName(GRASS)).unwrap();
    let textures = reg.get_block_data(grass).textures;
    assert_eq!(textures.get_coords(BlockFace::Top), AtlasCoordinates { min: (0, 0), max: (15, 15) });
    assert_eq!(textures.get_coords(BlockFace::Side), AtlasCoordinates { min: (0, 16), max: (15, 31) });
    assert_eq!(textures.get_coords(BlockFace::Bottom), AtlasCoordinates { min: (0, 32), max: (15, 47) });
    assert_eq!(reg.atlas_size(), (32, 48));
}

#[test]
fn single_texture_covers_every_face() {
    let c = AtlasCoordinates { min: (16, 0), max: (31, 15) };
    let t = BlockTextures::from_single(c);
    assert_eq!(t.sides, None);
    assert_eq!(t.bottom, None);
    assert_eq!(t.get_coords(BlockFace::Top), c);
    assert_eq!(t.get_coords(BlockFace::Side), c);
    assert_eq!(t.get_coords(BlockFace::Bottom), c);
}
