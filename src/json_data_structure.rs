//! The records of a simulation-run file: what the world holds before the run,
//! the actions per tick, and the state expected afterwards.
use vstd::prelude::*;

verus! {

/// One simulation run.
#[derive(Debug)]
pub struct SimulationRun {
    pub description: String,
    pub required: bool,
    pub pre_world: Option<PreWorld>,
    pub timeline: Vec<Tick>,
    pub assert_state: Option<AssertState>,
}

/// What happens at one tick of a run.
#[derive(Clone, Debug)]
pub struct Tick {
    pub tick: i64,
    pub action: Option<Action>,
    pub assert_state: Option<AssertState>,
}

/// A player action of a run.
#[derive(Clone, Debug)]
pub struct Action {
    pub method: String,
    pub slot: i32,
    pub item: String,
}

/// The expected state of a block, and of the inventory if given.
#[derive(Clone, Debug)]
pub struct AssertState {
    pub block_id: String,
    pub cords: Vec<i32>,
    pub properties: BlockProperties,
    pub inventory: Option<Vec<InventorySlot>>,
}

/// The blocks placed before a run starts.
#[derive(Clone, Debug)]
pub struct PreWorld {
    pub blocks: Vec<BlockPosition>,
}

/// A block at given coordinates.
#[derive(Clone, Debug)]
pub struct BlockPosition {
    pub cords: Vec<i32>,
    pub block_id: String,
    pub properties: BlockProperties,
}

/// The block properties a run can state.
#[derive(Clone, Debug)]
pub struct BlockProperties {
    pub burning: Option<bool>,
    pub waterlogged: Option<bool>,
}

/// An item stack in the expected inventory.
#[derive(Clone, Debug)]
pub struct InventorySlot {
    pub item: String,
    pub amount: String,
}

} // verus!
