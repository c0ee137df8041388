//! A deterministic, tick-synchronized test engine for simulated worlds: it
//! selects test specifications, merges their timelines into one schedule,
//! drives a backend world one tick at a time, and evaluates assertions.
pub mod agreement;
pub mod checks;
pub mod filter;
pub mod glob;
pub mod json_data_structure;
pub mod mock;
pub mod render;
pub mod results;
pub mod runner;
pub mod selector;
pub mod test_connection;
pub mod test_spec;
pub mod text;
pub mod timeline;
pub mod traits;

pub use filter::TestFilter;
pub use glob::glob_match;
pub use mock::{MockAdapter, MockPlayer, MockWorld};
pub use results::{AssertFailure, AssertionResult, TestResult, TestSummary};
pub use runner::{TestRunConfig, TestRunner};
pub use test_spec::{
    ActionType, Block, BlockCheck, BlockFace, BlockPlacement, BlockPos, PlayerConfig, PlayerSlot,
    PropValue, SlotConfig, TestSetup, TestSpec, TimelineEntry,
};
pub use timeline::{ScheduledEntry, TimelineAggregate};
pub use traits::{BlockData, FlintAdapter, FlintPlayer, FlintWorld, Item, ServerInfo};
