use flint_steel::test_spec::player_slot_to_index;
use flint_steel::{
    Block, BlockFace, FlintAdapter, FlintPlayer, FlintWorld, Item, MockAdapter, MockPlayer,
    MockWorld, PlayerSlot, PropValue,
};

fn plain(id: &str) -> Block {
    Block {
        id: id.to_string(),
        properties: Default::default(),
    }
}

#[test]
fn test_adapter_new() {
    let adapter = MockAdapter::new();
    let info = adapter.server_info();
    assert_eq!(info.minecraft_version, "1.21");
}

#[test]
fn test_adapter_default() {
    let adapter = MockAdapter::new();
    let info = adapter.server_info();
    assert_eq!(info.minecraft_version, "1.21");
}

#[test]
fn test_adapter_creates_world() {
    let adapter = MockAdapter::new();
    let world = adapter.create_test_world();
    assert_eq!(world.current_tick(), 0);
}

#[test]
fn test_world_new() {
    let world = MockWorld::new();
    assert_eq!(world.current_tick(), 0);
    assert!(world.all_blocks().is_empty());
}

#[test]
fn test_world_default() {
    let world = MockWorld::default();
    assert_eq!(world.current_tick(), 0);
}

#[test]
fn test_world_do_tick() {
    let mut world = MockWorld::new();
    assert_eq!(world.current_tick(), 0);

    world.do_tick();
    assert_eq!(world.current_tick(), 1);

    world.do_tick();
    world.do_tick();
    assert_eq!(world.current_tick(), 3);
}

#[test]
fn test_world_get_block_returns_air_for_unset() {
    let world = MockWorld::new();
    let block = world.get_block([0, 64, 0]);
    assert_eq!(block.id, "minecraft:air");
    assert!(block.properties.is_empty());
}

#[test]
fn test_world_set_and_get_block_simple() {
    let mut world = MockWorld::new();
    let stone = plain("minecraft:stone");

    world.set_block([0, 64, 0], &stone);
    let retrieved = world.get_block([0, 64, 0]);

    assert_eq!(retrieved.id, "minecraft:stone");
    assert!(retrieved.properties.is_empty());
}

#[test]
fn test_world_set_and_get_block_with_string_properties() {
    let mut world = MockWorld::new();
    let properties = vec![
        ("facing".to_string(), PropValue::Text("north".to_string())),
        ("half".to_string(), PropValue::Text("top".to_string())),
    ];
    let stairs = Block {
        id: "minecraft:oak_stairs".to_string(),
        properties,
    };

    world.set_block([1, 65, 2], &stairs);
    let retrieved = world.get_block([1, 65, 2]);

    assert_eq!(retrieved.id, "minecraft:oak_stairs");
    assert_eq!(retrieved.property("facing"), Some(&"north".to_string()));
    assert_eq!(retrieved.property("half"), Some(&"top".to_string()));
}

#[test]
fn test_world_set_and_get_block_with_bool_properties() {
    let mut world = MockWorld::new();
    let properties = vec![
        ("powered".to_string(), PropValue::Bool(true)),
        ("lit".to_string(), PropValue::Bool(false)),
    ];
    let lamp = Block {
        id: "minecraft:redstone_lamp".to_string(),
        properties,
    };

    world.set_block([0, 0, 0], &lamp);
    let retrieved = world.get_block([0, 0, 0]);

    assert_eq!(retrieved.id, "minecraft:redstone_lamp");
    assert_eq!(retrieved.property("powered"), Some(&"true".to_string()));
    assert_eq!(retrieved.property("lit"), Some(&"false".to_string()));
}

#[test]
fn test_world_set_and_get_block_with_number_properties() {
    let mut world = MockWorld::new();
    let properties = vec![
        ("delay".to_string(), PropValue::Number(2)),
        ("facing".to_string(), PropValue::Text("south".to_string())),
    ];
    let repeater = Block {
        id: "minecraft:repeater".to_string(),
        properties,
    };

    world.set_block([5, 64, 5], &repeater);
    let retrieved = world.get_block([5, 64, 5]);

    assert_eq!(retrieved.id, "minecraft:repeater");
    assert_eq!(retrieved.property("delay"), Some(&"2".to_string()));
    assert_eq!(retrieved.property("facing"), Some(&"south".to_string()));
}

#[test]
fn test_world_overwrite_block() {
    let mut world = MockWorld::new();
    let pos = [10, 64, 10];

    world.set_block(pos, &plain("minecraft:stone"));
    assert_eq!(world.get_block(pos).id, "minecraft:stone");

    world.set_block(pos, &plain("minecraft:dirt"));
    assert_eq!(world.get_block(pos).id, "minecraft:dirt");
}

#[test]
fn test_world_multiple_positions() {
    let mut world = MockWorld::new();

    world.set_block([0, 0, 0], &plain("minecraft:stone"));
    world.set_block([1, 1, 1], &plain("minecraft:dirt"));
    world.set_block([2, 2, 2], &plain("minecraft:grass_block"));

    assert_eq!(world.get_block([0, 0, 0]).id, "minecraft:stone");
    assert_eq!(world.get_block([1, 1, 1]).id, "minecraft:dirt");
    assert_eq!(world.get_block([2, 2, 2]).id, "minecraft:grass_block");
    assert_eq!(world.get_block([3, 3, 3]).id, "minecraft:air");
}

#[test]
fn test_world_negative_coordinates() {
    let mut world = MockWorld::new();

    world.set_block([-100, -64, -100], &plain("minecraft:stone"));
    let retrieved = world.get_block([-100, -64, -100]);

    assert_eq!(retrieved.id, "minecraft:stone");
}

#[test]
fn test_world_create_player() {
    let mut world = MockWorld::new();
    let player = world.create_player();
    assert_eq!(player.selected_hotbar(), 1);
}

#[test]
fn test_world_all_blocks() {
    let mut world = MockWorld::new();
    let stone = plain("minecraft:stone");

    world.set_block([0, 0, 0], &stone);
    world.set_block([1, 1, 1], &stone);

    let blocks = world.all_blocks();
    assert_eq!(blocks.len(), 2);
    assert!(blocks.contains_key(&[0, 0, 0]));
    assert!(blocks.contains_key(&[1, 1, 1]));
}

#[test]
fn test_player_new() {
    let player = MockPlayer::new();
    assert_eq!(player.selected_hotbar(), 1);
}

#[test]
fn test_player_default() {
    let player = MockPlayer::default();
    assert_eq!(player.selected_hotbar(), 1);
}

#[test]
fn test_player_select_hotbar_valid() {
    let mut player = MockPlayer::new();
    for slot in 1..=9 {
        player.select_hotbar(slot);
        assert_eq!(player.selected_hotbar(), slot);
    }
}

#[test]
fn test_player_select_hotbar_invalid_zero() {
    let mut player = MockPlayer::new();
    player.select_hotbar(5);
    assert_eq!(player.selected_hotbar(), 5);

    player.select_hotbar(0);
    assert_eq!(player.selected_hotbar(), 5);
}

#[test]
fn test_player_select_hotbar_invalid_too_high() {
    let mut player = MockPlayer::new();
    player.select_hotbar(5);
    assert_eq!(player.selected_hotbar(), 5);

    player.select_hotbar(10);
    assert_eq!(player.selected_hotbar(), 5);
}

#[test]
fn test_player_set_and_get_slot() {
    let mut player = MockPlayer::new();
    let item = Item::new("minecraft:diamond_sword");

    player.set_slot(PlayerSlot::Hotbar1, Some(&item));
    let retrieved = player.get_slot(PlayerSlot::Hotbar1);

    assert!(retrieved.is_some());
    let retrieved = retrieved.unwrap();
    assert_eq!(retrieved.id, "minecraft:diamond_sword");
    assert_eq!(retrieved.count, 1);
}

#[test]
fn test_player_get_empty_slot() {
    let player = MockPlayer::new();
    assert!(player.get_slot(PlayerSlot::Hotbar1).is_none());
}

#[test]
fn test_player_set_slot_with_count() {
    let mut player = MockPlayer::new();
    let item = Item::with_count("minecraft:cobblestone", 64);

    player.set_slot(PlayerSlot::Hotbar2, Some(&item));
    let retrieved = player.get_slot(PlayerSlot::Hotbar2).unwrap();

    assert_eq!(retrieved.id, "minecraft:cobblestone");
    assert_eq!(retrieved.count, 64);
}

#[test]
fn test_player_clear_slot() {
    let mut player = MockPlayer::new();
    let item = Item::new("minecraft:stick");

    player.set_slot(PlayerSlot::Hotbar1, Some(&item));
    assert!(player.get_slot(PlayerSlot::Hotbar1).is_some());

    player.set_slot(PlayerSlot::Hotbar1, None);
    assert!(player.get_slot(PlayerSlot::Hotbar1).is_none());
}

#[test]
fn test_player_multiple_slots() {
    let mut player = MockPlayer::new();

    player.set_slot(PlayerSlot::Hotbar1, Some(&Item::new("minecraft:diamond_sword")));
    player.set_slot(PlayerSlot::Hotbar2, Some(&Item::new("minecraft:diamond_pickaxe")));
    player.set_slot(PlayerSlot::OffHand, Some(&Item::with_count("minecraft:cooked_beef", 32)));

    assert_eq!(player.get_slot(PlayerSlot::Hotbar1).unwrap().id, "minecraft:diamond_sword");
    assert_eq!(player.get_slot(PlayerSlot::Hotbar2).unwrap().id, "minecraft:diamond_pickaxe");
    assert_eq!(player.get_slot(PlayerSlot::OffHand).unwrap().id, "minecraft:cooked_beef");
    assert_eq!(player.get_slot(PlayerSlot::OffHand).unwrap().count, 32);
}

#[test]
fn test_player_overwrite_slot() {
    let mut player = MockPlayer::new();

    let sword = Item::new("minecraft:iron_sword");
    player.set_slot(PlayerSlot::Hotbar1, Some(&sword));
    assert_eq!(player.get_slot(PlayerSlot::Hotbar1).unwrap().id, "minecraft:iron_sword");

    let better_sword = Item::new("minecraft:diamond_sword");
    player.set_slot(PlayerSlot::Hotbar1, Some(&better_sword));
    assert_eq!(player.get_slot(PlayerSlot::Hotbar1).unwrap().id, "minecraft:diamond_sword");
}

#[test]
fn test_player_use_item_on_does_not_panic() {
    let mut player = MockPlayer::new();
    player.use_item_on([0, 64, 0], &BlockFace::Top);
    player.use_item_on([-100, 0, 100], &BlockFace::Bottom);
}

#[test]
fn test_adapter_world_player_integration() {
    let adapter = MockAdapter::new();
    let mut world = adapter.create_test_world();

    world.set_block([0, 64, 0], &plain("minecraft:stone"));

    world.do_tick();
    world.do_tick();

    let mut player = world.create_player();
    let item = Item::new("minecraft:honeycomb");
    player.set_slot(PlayerSlot::Hotbar1, Some(&item));
    player.select_hotbar(1);

    player.use_item_on([0, 64, 0], &BlockFace::Top);

    assert_eq!(world.current_tick(), 2);
    assert_eq!(world.get_block([0, 64, 0]).id, "minecraft:stone");
    assert_eq!(player.get_slot(PlayerSlot::Hotbar1).unwrap().id, "minecraft:honeycomb");
}

#[test]
fn mock_stores_null_and_negative_number_properties() {
    let mut world = MockWorld::new();
    let block = Block {
        id: "minecraft:thing".to_string(),
        properties: vec![
            ("level".to_string(), PropValue::Number(-15)),
            ("extra".to_string(), PropValue::Null),
        ],
    };
    world.set_block([0, 0, 0], &block);
    let got = world.get_block([0, 0, 0]);
    assert_eq!(got.property("level"), Some(&"-15".to_string()));
    assert_eq!(got.property("extra"), Some(&String::new()));
    assert_eq!(got.property("missing"), None);
}

#[test]
fn mock_extreme_coordinates() {
    let mut world = MockWorld::new();
    world.set_block([i32::MIN, i32::MAX, 0], &plain("minecraft:stone"));
    assert_eq!(world.get_block([i32::MIN, i32::MAX, 0]).id, "minecraft:stone");
    assert_eq!(world.get_block([i32::MAX, i32::MIN, 0]).id, "minecraft:air");
}

#[test]
fn slot_indices_follow_inventory_layout() {
    assert_eq!(player_slot_to_index(PlayerSlot::Hotbar1), 0);
    assert_eq!(player_slot_to_index(PlayerSlot::Hotbar9), 8);
    assert_eq!(player_slot_to_index(PlayerSlot::Boots), 36);
    assert_eq!(player_slot_to_index(PlayerSlot::Helmet), 39);
    assert_eq!(player_slot_to_index(PlayerSlot::OffHand), 40);
}
