use flint_steel::checks::block_matches;
use flint_steel::runner::{region_bounds, run_spec};
use flint_steel::{
    ActionType, AssertionResult, Block, BlockCheck, BlockData, BlockFace, BlockPlacement,
    FlintPlayer, FlintWorld, MockAdapter, MockPlayer, MockWorld, PlayerConfig, PlayerSlot,
    PropValue, SlotConfig, TestRunConfig, TestRunner, TestSetup, TestSpec, TimelineAggregate,
    TimelineEntry,
};

fn block(id: &str) -> Block {
    Block {
        id: id.to_string(),
        properties: vec![],
    }
}

fn entry(at: u32, action_type: ActionType) -> TimelineEntry {
    TimelineEntry { at, action_type }
}

fn check(pos: [i32; 3], id: &str) -> ActionType {
    ActionType::Assert {
        checks: vec![BlockCheck {
            pos,
            is: block(id),
        }],
    }
}

fn spec(name: &str, timeline: Vec<TimelineEntry>) -> TestSpec {
    TestSpec {
        flint_version: None,
        name: name.to_string(),
        description: None,
        tags: vec![],
        dependencies: vec![],
        setup: None,
        timeline,
        breakpoints: vec![],
    }
}

#[test]
fn place_then_assert_passes() {
    let s = spec(
        "scenario_a",
        vec![
            entry(0, ActionType::Place { pos: [0, 64, 0], block: block("stone") }),
            entry(0, check([0, 64, 0], "stone")),
        ],
    );
    let adapter = MockAdapter::new();
    let runner = TestRunner::new(&adapter);
    let r = runner.run_test(&s);
    assert!(r.success);
    assert_eq!(r.test_name, "scenario_a");
    assert_eq!(r.assertions.len(), 1);
    assert!(matches!(r.assertions[0], AssertionResult::Success(0)));
    assert_eq!(r.total_ticks, 0);
}

#[test]
fn assert_on_unwritten_position_fails() {
    let s = spec("scenario_b", vec![entry(0, check([0, 64, 0], "stone"))]);
    let adapter = MockAdapter::new();
    let r = TestRunner::new(&adapter).run_test(&s);
    assert!(!r.success);
    assert_eq!(r.assertions.len(), 1);
    match &r.assertions[0] {
        AssertionResult::Failure(f) => {
            assert_eq!(f.tick, 0);
            assert_eq!(f.position, [0, 64, 0]);
            assert_eq!(f.expected.id, "stone");
            assert_eq!(f.actual.id, "minecraft:air");
            assert_eq!(
                f.error_message,
                "Block mismatch at [0, 64, 0]: expected 'stone', got 'minecraft:air'"
            );
        }
        AssertionResult::Success(_) => panic!("expected a failure"),
    }
}

#[test]
fn fill_in_either_corner_order() {
    for region in [[[0, 0, 0], [1, 1, 1]], [[1, 1, 1], [0, 0, 0]]] {
        let s = spec(
            "scenario_c",
            vec![
                entry(0, ActionType::Fill { region, with: block("dirt") }),
                entry(1, check([1, 1, 1], "dirt")),
                entry(1, check([0, 0, 0], "minecraft:dirt")),
                entry(1, check([0, 1, 0], "dirt")),
            ],
        );
        let adapter = MockAdapter::new();
        let r = TestRunner::new(&adapter).run_test(&s);
        assert!(r.success);
        assert_eq!(r.assertions.len(), 3);
        assert_eq!(r.total_ticks, 1);
    }
}

#[test]
fn fill_writes_exactly_the_box() {
    let mut world = MockWorld::new();
    let mut player: Option<MockPlayer> = None;
    let s = spec(
        "fill_box",
        vec![entry(0, ActionType::Fill { region: [[2, 0, -1], [0, 1, 0]], with: block("dirt") })],
    );
    let r = run_spec(&mut world, &mut player, &s);
    assert!(r.success);
    assert_eq!(world.all_blocks().len(), 12);
    assert_eq!(world.get_block([3, 0, 0]).id, "minecraft:air");
    assert_eq!(world.get_block([2, 1, -1]).id, "dirt");
    assert!(player.is_none());
}

#[test]
fn player_created_once_and_keeps_sword() {
    let s = spec(
        "scenario_d",
        vec![
            entry(
                0,
                ActionType::SetSlot { slot: PlayerSlot::Hotbar1, item: Some("sword".to_string()), count: 1 },
            ),
            entry(0, ActionType::SelectHotbar { hotbar: 1 }),
            entry(
                1,
                ActionType::UseItemOn { pos: [0, 64, 0], face: BlockFace::Top, item: None },
            ),
        ],
    );
    let mut world = MockWorld::new();
    let mut player: Option<MockPlayer> = None;
    let r = run_spec(&mut world, &mut player, &s);
    assert!(r.success);
    let p = player.expect("a player");
    assert_eq!(p.selected_hotbar(), 1);
    let item = p.get_slot(PlayerSlot::Hotbar1).expect("the sword");
    assert_eq!(item.id, "sword");
    assert_eq!(item.count, 1);
    assert_eq!(world.current_tick(), 2);
}

#[test]
fn out_of_range_hotbar_is_ignored() {
    let s = spec(
        "scenario_e",
        vec![
            entry(0, ActionType::SelectHotbar { hotbar: 0 }),
            entry(0, ActionType::SelectHotbar { hotbar: 10 }),
        ],
    );
    let mut world = MockWorld::new();
    let mut player: Option<MockPlayer> = None;
    let r = run_spec(&mut world, &mut player, &s);
    assert!(r.success);
    assert_eq!(player.expect("a player").selected_hotbar(), 1);
}

#[test]
fn use_item_with_explicit_item_fills_first_slot() {
    let s = spec(
        "use_item",
        vec![
            entry(0, ActionType::SelectHotbar { hotbar: 4 }),
            entry(
                0,
                ActionType::UseItemOn {
                    pos: [1, 2, 3],
                    face: BlockFace::North,
                    item: Some("minecraft:honeycomb".to_string()),
                },
            ),
        ],
    );
    let mut world = MockWorld::new();
    let mut player: Option<MockPlayer> = None;
    run_spec(&mut world, &mut player, &s);
    let p = player.expect("a player");
    assert_eq!(p.selected_hotbar(), 1);
    assert_eq!(p.get_slot(PlayerSlot::Hotbar1).unwrap().id, "minecraft:honeycomb");
}

#[test]
fn setup_fills_inventory_before_first_tick() {
    let mut s = spec("setup", vec![]);
    s.setup = Some(TestSetup {
        player: Some(PlayerConfig {
            inventory: vec![(
                PlayerSlot::OffHand,
                SlotConfig { item: "minecraft:shield".to_string(), count: 1 },
            )],
            selected_hotbar: 3,
        }),
    });
    let mut world = MockWorld::new();
    let mut player: Option<MockPlayer> = None;
    let r = run_spec(&mut world, &mut player, &s);
    assert!(r.success);
    assert_eq!(r.total_ticks, 0);
    let p = player.expect("a player");
    assert_eq!(p.selected_hotbar(), 3);
    assert_eq!(p.get_slot(PlayerSlot::OffHand).unwrap().id, "minecraft:shield");
}

#[test]
fn pure_block_test_creates_no_player() {
    let s = spec("blocks", vec![entry(2, ActionType::Remove { pos: [0, 0, 0] })]);
    let mut world = MockWorld::new();
    let mut player: Option<MockPlayer> = None;
    let r = run_spec(&mut world, &mut player, &s);
    assert!(r.success);
    assert_eq!(r.total_ticks, 2);
    assert!(player.is_none());
    assert_eq!(world.current_tick(), 3);
}

#[test]
fn failure_stops_the_run() {
    let s = spec(
        "stops",
        vec![
            entry(0, check([0, 0, 0], "air")),
            entry(1, check([0, 0, 0], "stone")),
            entry(1, ActionType::Place { pos: [0, 0, 0], block: block("stone") }),
            entry(3, check([0, 0, 0], "stone")),
        ],
    );
    let mut world = MockWorld::new();
    let mut player: Option<MockPlayer> = None;
    let r = run_spec(&mut world, &mut player, &s);
    assert!(!r.success);
    assert_eq!(r.total_ticks, 1);
    assert_eq!(r.assertions.len(), 2);
    assert!(matches!(r.assertions[0], AssertionResult::Success(0)));
    assert!(matches!(&r.assertions[1], AssertionResult::Failure(f) if f.tick == 1));
    assert_eq!(world.get_block([0, 0, 0]).id, "minecraft:air");
    assert_eq!(world.current_tick(), 1);
}

#[test]
fn same_spec_twice_gives_same_result() {
    let s = spec(
        "twice",
        vec![
            entry(0, ActionType::Place { pos: [0, 1, 0], block: block("stone") }),
            entry(1, check([0, 1, 0], "stone")),
            entry(2, check([0, 2, 0], "stone")),
        ],
    );
    let adapter = MockAdapter::new();
    let runner = TestRunner::new(&adapter);
    let a = runner.run_test(&s);
    let b = runner.run_test(&s);
    assert_eq!(a.success, b.success);
    assert_eq!(a.total_ticks, b.total_ticks);
    assert_eq!(a.assertions.len(), b.assertions.len());
    for (x, y) in a.assertions.iter().zip(b.assertions.iter()) {
        match (x, y) {
            (AssertionResult::Success(t), AssertionResult::Success(u)) => assert_eq!(t, u),
            (AssertionResult::Failure(f), AssertionResult::Failure(g)) => {
                assert_eq!(f.tick, g.tick);
                assert_eq!(f.position, g.position);
                assert_eq!(f.error_message, g.error_message);
            }
            _ => panic!("outcomes differ"),
        }
    }
}

#[test]
fn run_tests_counts_in_order() {
    let good = spec("good", vec![entry(0, check([0, 0, 0], "air"))]);
    let bad = spec("bad", vec![entry(0, check([0, 0, 0], "stone"))]);
    let adapter = MockAdapter::new();
    let summary = TestRunner::new(&adapter).run_tests(&[good, bad]);
    assert_eq!(summary.total_tests, 2);
    assert_eq!(summary.passed_tests, 1);
    assert_eq!(summary.failed_tests, 1);
    assert_eq!(summary.results[0].test_name, "good");
    assert_eq!(summary.results[1].test_name, "bad");
}

#[test]
fn aggregation_is_deterministic() {
    let a = spec(
        "a",
        vec![
            entry(2, ActionType::Remove { pos: [0, 0, 0] }),
            entry(0, ActionType::Place { pos: [1, 1, 1], block: block("stone") }),
            entry(2, check([1, 1, 1], "stone")),
        ],
    );
    let b = spec("b", vec![entry(2, ActionType::SelectHotbar { hotbar: 3 })]);
    let input = [(&a, [0, 0, 0]), (&b, [10, 0, 0])];
    let x = TimelineAggregate::from_tests(&input);
    let y = TimelineAggregate::from_tests(&input);
    assert_eq!(format!("{:?}", x), format!("{:?}", y));
    assert_eq!(x.max_tick, 2);
    let tick2: Vec<(usize, usize)> = x.bucket(2).iter().map(|e| (e.test_index, e.value_index)).collect();
    assert_eq!(tick2, vec![(0, 0), (0, 2), (1, 0)]);
    let tick1 = x.bucket(1);
    assert!(tick1.is_empty());
}

#[test]
fn aggregation_applies_offset() {
    let a = spec(
        "a",
        vec![
            entry(0, ActionType::Place { pos: [1, 2, 3], block: block("stone") }),
            entry(
                1,
                ActionType::PlaceEach {
                    blocks: vec![BlockPlacement { pos: [-1, 0, 5], block: block("dirt") }],
                },
            ),
            entry(1, ActionType::Fill { region: [[0, 0, 0], [2, 2, 2]], with: block("dirt") }),
            entry(4, ActionType::UseItemOn { pos: [7, 7, 7], face: BlockFace::East, item: None }),
        ],
    );
    let agg = TimelineAggregate::from_tests(&[(&a, [10, -20, 30])]);
    assert_eq!(agg.timeline.len(), 4);
    assert_eq!(agg.max_tick, 4);
    match &agg.timeline[0].entry.action_type {
        ActionType::Place { pos, .. } => assert_eq!(*pos, [11, -18, 33]),
        _ => panic!("place expected"),
    }
    match &agg.timeline[1].entry.action_type {
        ActionType::PlaceEach { blocks } => assert_eq!(blocks[0].pos, [9, -20, 35]),
        _ => panic!("place_each expected"),
    }
    match &agg.timeline[2].entry.action_type {
        ActionType::Fill { region, with } => {
            assert_eq!(*region, [[10, -20, 30], [12, -18, 32]]);
            assert_eq!(with.id, "dirt");
        }
        _ => panic!("fill expected"),
    }
    match &agg.timeline[3].entry.action_type {
        ActionType::UseItemOn { pos, face, .. } => {
            assert_eq!(*pos, [17, -13, 37]);
            assert_eq!(*face, BlockFace::East);
        }
        _ => panic!("use expected"),
    }
}

#[test]
fn empty_aggregation_has_tick_zero() {
    let a = spec("empty", vec![]);
    let agg = TimelineAggregate::from_tests(&[(&a, [0, 0, 0])]);
    assert_eq!(agg.max_tick, 0);
    assert!(agg.timeline.is_empty());
    let none: [(&TestSpec, [i32; 3]); 0] = [];
    assert_eq!(TimelineAggregate::from_tests(&none).max_tick, 0);
}

#[test]
fn describe_sorts_properties() {
    let b = BlockData::with_properties(
        "minecraft:repeater",
        vec![
            ("facing".to_string(), "south".to_string()),
            ("delay".to_string(), "2".to_string()),
        ],
    );
    assert_eq!(b.describe(), "minecraft:repeater[delay=2,facing=south]");
    assert_eq!(BlockData::new("minecraft:air").describe(), "minecraft:air");
}

#[test]
fn block_matching_rules() {
    let actual = BlockData::with_properties(
        "minecraft:lever",
        vec![
            ("powered".to_string(), "true".to_string()),
            ("face".to_string(), "wall".to_string()),
        ],
    );
    let mut expected = Block { id: "lever".to_string(), properties: vec![] };
    assert!(block_matches(&actual, &expected));
    expected.properties.push(("powered".to_string(), PropValue::Bool(true)));
    assert!(block_matches(&actual, &expected));
    expected.properties.push(("properties".to_string(), PropValue::Text("x".to_string())));
    expected.properties.push(("other".to_string(), PropValue::Null));
    expected.properties.push(("nested".to_string(), PropValue::Nested));
    assert!(block_matches(&actual, &expected));
    expected.properties.push(("face".to_string(), PropValue::Text("floor".to_string())));
    assert!(!block_matches(&actual, &expected));
    let missing = Block {
        id: "minecraft:lever".to_string(),
        properties: vec![("delay".to_string(), PropValue::Number(1))],
    };
    assert!(!block_matches(&actual, &missing));
    assert!(!block_matches(&actual, &block("minecraft:stone")));
    assert!(!block_matches(&actual, &block("other:lever")));
}

#[test]
fn bounds_are_order_independent() {
    assert_eq!(region_bounds(&[[3, -1, 0], [1, 2, 0]]), ([1, -1, 0], [3, 2, 0]));
    assert_eq!(region_bounds(&[[1, 2, 0], [3, -1, 0]]), ([1, -1, 0], [3, 2, 0]));
}

#[test]
fn run_config_defaults() {
    let c = TestRunConfig::default();
    assert!(!c.debug_enabled);
    assert!(!c.parallel);
    assert_eq!(c.max_parallel_worlds, 4);
}

#[test]
fn item_builders() {
    let i = flint_steel::Item::with_count("minecraft:stone", 5);
    assert_eq!(i.count, 5);
    assert_eq!(flint_steel::Item::new("x").count, 1);
}

#[test]
fn air_detection() {
    assert!(BlockData::new("minecraft:air").is_air());
    assert!(BlockData::new("air").is_air());
    assert!(!BlockData::new("minecraft:void_air").is_air());
}
