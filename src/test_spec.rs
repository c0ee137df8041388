//! The declarative description of one test: its name and tags, an optional
//! player setup, and a timeline of actions bound to ticks.
use vstd::prelude::*;

verus! {

/// A position in world coordinates `[x, y, z]`.
pub type BlockPos = [i32; 3];

/// A position as three mathematical integers.
pub type Coords = (int, int, int);

/// The coordinates of a position.
pub open spec fn coords(p: BlockPos) -> Coords {
    (p[0] as int, p[1] as int, p[2] as int)
}

/// `p` moved by `o`, component-wise.
pub open spec fn shift(p: Coords, o: Coords) -> Coords {
    (p.0 + o.0, p.1 + o.1, p.2 + o.2)
}

/// Whether every component of `p` fits in an `i32`.
pub open spec fn coords_fit(p: Coords) -> bool {
    &&& i32::MIN <= p.0 <= i32::MAX
    &&& i32::MIN <= p.1 <= i32::MAX
    &&& i32::MIN <= p.2 <= i32::MAX
}

/// Moves `p` by `o`.
pub fn shift_pos(p: BlockPos, o: BlockPos) -> (r: BlockPos)
    requires
        coords_fit(shift(coords(p), coords(o))),
    ensures
        coords(r) == shift(coords(p), coords(o)),
{
    [p[0] + o[0], p[1] + o[1], p[2] + o[2]]
}

/// The face of a block that an item is used on.
#[derive(Clone, Copy, Debug, PartialEq, Eq, Hash, Structural)]
pub enum BlockFace {
    Top,
    Bottom,
    North,
    South,
    East,
    West,
}

/// A named slot of a player's inventory.
#[derive(Clone, Copy, Debug, PartialEq, Eq, Hash, Structural)]
pub enum PlayerSlot {
    Hotbar1,
    Hotbar2,
    Hotbar3,
    Hotbar4,
    Hotbar5,
    Hotbar6,
    Hotbar7,
    Hotbar8,
    Hotbar9,
    OffHand,
    Boots,
    Leggings,
    Chestplate,
    Helmet,
}

/// The inventory index of the off-hand slot.
pub const SLOT_OFFHAND: usize = 40;

/// The inventory index of a named slot: hotbar slots 1 to 9 are indices 0 to
/// 8, the armour slots 36 (boots) to 39 (helmet), and the off hand its own
/// index.
pub open spec fn slot_index(slot: PlayerSlot) -> usize {
    match slot {
        PlayerSlot::Hotbar1 => 0,
        PlayerSlot::Hotbar2 => 1,
        PlayerSlot::Hotbar3 => 2,
        PlayerSlot::Hotbar4 => 3,
        PlayerSlot::Hotbar5 => 4,
        PlayerSlot::Hotbar6 => 5,
        PlayerSlot::Hotbar7 => 6,
        PlayerSlot::Hotbar8 => 7,
        PlayerSlot::Hotbar9 => 8,
        PlayerSlot::OffHand => SLOT_OFFHAND,
        PlayerSlot::Boots => 36,
        PlayerSlot::Leggings => 37,
        PlayerSlot::Chestplate => 38,
        PlayerSlot::Helmet => 39,
    }
}

/// The inventory index of a named slot.
pub fn player_slot_to_index(slot: PlayerSlot) -> (r: usize)
    ensures
        r == slot_index(slot),
{
    match slot {
        PlayerSlot::Hotbar1 => 0,
        PlayerSlot::Hotbar2 => 1,
        PlayerSlot::Hotbar3 => 2,
        PlayerSlot::Hotbar4 => 3,
        PlayerSlot::Hotbar5 => 4,
        PlayerSlot::Hotbar6 => 5,
        PlayerSlot::Hotbar7 => 6,
        PlayerSlot::Hotbar8 => 7,
        PlayerSlot::Hotbar9 => 8,
        PlayerSlot::OffHand => SLOT_OFFHAND,
        PlayerSlot::Boots => 36,
        PlayerSlot::Leggings => 37,
        PlayerSlot::Chestplate => 38,
        PlayerSlot::Helmet => 39,
    }
}

/// The value of a block property as a test file writes it.
#[derive(Debug)]
pub enum PropValue {
    Text(String),
    Bool(bool),
    Number(i64),
    Null,
    /// An array or an object: never compared.
    Nested,
}

impl PropValue {
    /// An equal copy.
    pub fn copy(&self) -> (r: PropValue)
        ensures
            r == *self,
    {
        match self {
            PropValue::Text(s) => PropValue::Text(s.clone()),
            PropValue::Bool(b) => PropValue::Bool(*b),
            PropValue::Number(n) => PropValue::Number(*n),
            PropValue::Null => PropValue::Null,
            PropValue::Nested => PropValue::Nested,
        }
    }
}

/// A block as a value: its identifier and its properties in order.
pub struct BlockView {
    pub id: Seq<char>,
    pub properties: Seq<(String, PropValue)>,
}

/// A block as a test describes it: an identifier and its state properties.
#[derive(Debug)]
pub struct Block {
    pub id: String,
    pub properties: Vec<(String, PropValue)>,
}

impl View for Block {
    type V = BlockView;

    open spec fn view(&self) -> BlockView {
        BlockView { id: self.id@, properties: self.properties@ }
    }
}

impl Block {
    /// An equal copy.
    pub fn copy(&self) -> (r: Block)
        ensures
            r@ == self@,
    {
        let mut props: Vec<(String, PropValue)> = Vec::new();
        let mut i: usize = 0;
        while i < self.properties.len()
            invariant
                i <= self.properties@.len(),
                props@ == self.properties@.subrange(0, i as int),
            decreases self.properties@.len() - i,
        {
            let (k, v) = &self.properties[i];
            props.push((k.clone(), v.copy()));
            i = i + 1;
            assert(props@ =~= self.properties@.subrange(0, i as int));
        }
        assert(self.properties@.subrange(0, self.properties@.len() as int) =~= self.properties@);
        Block { id: self.id.clone(), properties: props }
    }

    pub fn new(id: &str) -> (r: Block)
        ensures
            r.id@ == id@,
            r.properties@.len() == 0,
    {
        Block { id: id.to_owned(), properties: Vec::new() }
    }

    pub fn with_properties(id: &str, properties: Vec<(String, PropValue)>) -> (r: Block)
        ensures
            r.id@ == id@,
            r.properties@ == properties@,
    {
        Block { id: id.to_owned(), properties }
    }
}

/// One block of a `PlaceEach` action.
#[derive(Debug)]
pub struct BlockPlacement {
    pub pos: BlockPos,
    pub block: Block,
}

/// One check of an `Assert` action: the block expected at a position.
#[derive(Debug)]
pub struct BlockCheck {
    pub pos: BlockPos,
    pub is: Block,
}

/// The closed set of actions a timeline can schedule.
#[derive(Debug)]
pub enum ActionType {
    Place { pos: BlockPos, block: Block },
    PlaceEach { blocks: Vec<BlockPlacement> },
    Fill { region: [BlockPos; 2], with: Block },
    Remove { pos: BlockPos },
    Assert { checks: Vec<BlockCheck> },
    UseItemOn { pos: BlockPos, face: BlockFace, item: Option<String> },
    SetSlot { slot: PlayerSlot, item: Option<String>, count: u8 },
    SelectHotbar { hotbar: u8 },
}

/// An action as a value, with positions as integer coordinates.
pub enum ActionView {
    Place { pos: Coords, block: BlockView },
    PlaceEach { blocks: Seq<(Coords, BlockView)> },
    Fill { from: Coords, to: Coords, with: BlockView },
    Remove { pos: Coords },
    Assert { checks: Seq<(Coords, BlockView)> },
    UseItemOn { pos: Coords, face: BlockFace, item: Option<Seq<char>> },
    SetSlot { slot: PlayerSlot, item: Option<Seq<char>>, count: u8 },
    SelectHotbar { hotbar: u8 },
}

/// The positions and blocks of a list of placements.
pub open spec fn placements_view(v: Seq<BlockPlacement>) -> Seq<(Coords, BlockView)> {
    v.map_values(|p: BlockPlacement| (coords(p.pos), p.block@))
}

/// The positions and expected blocks of a list of checks.
pub open spec fn checks_view(v: Seq<BlockCheck>) -> Seq<(Coords, BlockView)> {
    v.map_values(|c: BlockCheck| (coords(c.pos), c.is@))
}

/// The text of an optional string.
pub open spec fn opt_text(o: Option<String>) -> Option<Seq<char>> {
    match o {
        Some(s) => Some(s@),
        None => None,
    }
}

/// Moves every position of a list of (position, block) pairs.
pub open spec fn shift_pairs(v: Seq<(Coords, BlockView)>, o: Coords) -> Seq<(Coords, BlockView)> {
    v.map_values(|e: (Coords, BlockView)| (shift(e.0, o), e.1))
}

impl View for ActionType {
    type V = ActionView;

    open spec fn view(&self) -> ActionView {
        match self {
            ActionType::Place { pos, block } => ActionView::Place { pos: coords(*pos), block: block@ },
            ActionType::PlaceEach { blocks } => ActionView::PlaceEach {
                blocks: placements_view(blocks@),
            },
            ActionType::Fill { region, with } => ActionView::Fill {
                from: coords(region[0]),
                to: coords(region[1]),
                with: with@,
            },
            ActionType::Remove { pos } => ActionView::Remove { pos: coords(*pos) },
            ActionType::Assert { checks } => ActionView::Assert { checks: checks_view(checks@) },
            ActionType::UseItemOn { pos, face, item } => ActionView::UseItemOn {
                pos: coords(*pos),
                face: *face,
                item: opt_text(*item),
            },
            ActionType::SetSlot { slot, item, count } => ActionView::SetSlot {
                slot: *slot,
                item: opt_text(*item),
                count: *count,
            },
            ActionType::SelectHotbar { hotbar } => ActionView::SelectHotbar { hotbar: *hotbar },
        }
    }
}

impl ActionView {
    /// Whether the action needs a player.
    pub open spec fn touches_player(self) -> bool {
        match self {
            ActionView::UseItemOn { .. } | ActionView::SetSlot { .. } | ActionView::SelectHotbar {
                ..
            } => true,
            _ => false,
        }
    }

    /// Every position that the action names, in order.
    pub open spec fn positions(self) -> Seq<Coords> {
        match self {
            ActionView::Place { pos, .. } => seq![pos],
            ActionView::PlaceEach { blocks } => blocks.map_values(|e: (Coords, BlockView)| e.0),
            ActionView::Fill { from, to, .. } => seq![from, to],
            ActionView::Remove { pos } => seq![pos],
            ActionView::Assert { checks } => checks.map_values(|e: (Coords, BlockView)| e.0),
            ActionView::UseItemOn { pos, .. } => seq![pos],
            _ => seq![],
        }
    }

    /// The action with every position moved by `o`.
    pub open spec fn shifted(self, o: Coords) -> ActionView {
        match self {
            ActionView::Place { pos, block } => ActionView::Place { pos: shift(pos, o), block },
            ActionView::PlaceEach { blocks } => ActionView::PlaceEach {
                blocks: shift_pairs(blocks, o),
            },
            ActionView::Fill { from, to, with } => ActionView::Fill {
                from: shift(from, o),
                to: shift(to, o),
                with,
            },
            ActionView::Remove { pos } => ActionView::Remove { pos: shift(pos, o) },
            ActionView::Assert { checks } => ActionView::Assert { checks: shift_pairs(checks, o) },
            ActionView::UseItemOn { pos, face, item } => ActionView::UseItemOn {
                pos: shift(pos, o),
                face,
                item,
            },
            _ => self,
        }
    }

    /// Whether every position, once moved by `o`, still fits in `i32`s.
    pub open spec fn shift_fits(self, o: Coords) -> bool {
        forall|i: int| 0 <= i < self.positions().len() ==> coords_fit(
            #[trigger] shift(self.positions()[i], o),
        )
    }
}

/// Copies an optional string.
fn copy_opt(o: &Option<String>) -> (r: Option<String>)
    ensures
        opt_text(r) == opt_text(*o),
{
    match o {
        Some(s) => Some(s.clone()),
        None => None,
    }
}

impl ActionType {
    /// A copy of the action with every position moved by `o`.
    pub fn shifted(&self, o: BlockPos) -> (r: ActionType)
        requires
            self@.shift_fits(coords(o)),
        ensures
            r@ == self@.shifted(coords(o)),
    {
        let ghost oc = coords(o);
        let ghost ps = self@.positions();
        match self {
            ActionType::Place { pos, block } => {
                assert(ps[0] == coords(*pos));
                ActionType::Place { pos: shift_pos(*pos, o), block: block.copy() }
            },
            ActionType::PlaceEach { blocks } => {
                let mut out: Vec<BlockPlacement> = Vec::new();
                let mut i: usize = 0;
                while i < blocks.len()
                    invariant
                        i <= blocks@.len(),
                        ps == placements_view(blocks@).map_values(|e: (Coords, BlockView)| e.0),
                        self@.shift_fits(oc),
                        ps == self@.positions(),
                        oc == coords(o),
                        out@.len() == i,
                        forall|k: int|
                            0 <= k < i ==> coords(#[trigger] out@[k].pos) == shift(
                                coords(blocks@[k].pos),
                                oc,
                            ) && out@[k].block@ == blocks@[k].block@,
                    decreases blocks@.len() - i,
                {
                    assert(ps[i as int] == coords(blocks@[i as int].pos));
                    assert(coords_fit(shift(ps[i as int], oc)));
                    let p = BlockPlacement {
                        pos: shift_pos(blocks[i].pos, o),
                        block: blocks[i].block.copy(),
                    };
                    out.push(p);
                    i = i + 1;
                }
                assert(placements_view(out@) =~= shift_pairs(placements_view(blocks@), oc));
                ActionType::PlaceEach { blocks: out }
            },
            ActionType::Fill { region, with } => {
                assert(ps[0] == coords(region[0]));
                assert(ps[1] == coords(region[1]));
                ActionType::Fill {
                    region: [shift_pos(region[0], o), shift_pos(region[1], o)],
                    with: with.copy(),
                }
            },
            ActionType::Remove { pos } => {
                assert(ps[0] == coords(*pos));
                ActionType::Remove { pos: shift_pos(*pos, o) }
            },
            ActionType::Assert { checks } => {
                let mut out: Vec<BlockCheck> = Vec::new();
                let mut i: usize = 0;
                while i < checks.len()
                    invariant
                        i <= checks@.len(),
                        ps == checks_view(checks@).map_values(|e: (Coords, BlockView)| e.0),
                        self@.shift_fits(oc),
                        ps == self@.positions(),
                        oc == coords(o),
                        out@.len() == i,
                        forall|k: int|
                            0 <= k < i ==> coords(#[trigger] out@[k].pos) == shift(
                                coords(checks@[k].pos),
                                oc,
                            ) && out@[k].is@ == checks@[k].is@,
                    decreases checks@.len() - i,
                {
                    assert(ps[i as int] == coords(checks@[i as int].pos));
                    assert(coords_fit(shift(ps[i as int], oc)));
                    let c = BlockCheck { pos: shift_pos(checks[i].pos, o), is: checks[i].is.copy() };
                    out.push(c);
                    i = i + 1;
                }
                assert(checks_view(out@) =~= shift_pairs(checks_view(checks@), oc));
                ActionType::Assert { checks: out }
            },
            ActionType::UseItemOn { pos, face, item } => {
                assert(ps[0] == coords(*pos));
                ActionType::UseItemOn { pos: shift_pos(*pos, o), face: *face, item: copy_opt(item) }
            },
            ActionType::SetSlot { slot, item, count } => {
                ActionType::SetSlot { slot: *slot, item: copy_opt(item), count: *count }
            },
            ActionType::SelectHotbar { hotbar } => ActionType::SelectHotbar { hotbar: *hotbar },
        }
    }
}

/// An action bound to the tick at which it runs.
#[derive(Debug)]
pub struct TimelineEntry {
    pub at: u32,
    pub action_type: ActionType,
}

/// The item that a setup puts in one inventory slot.
#[derive(Debug)]
pub struct SlotConfig {
    pub item: String,
    pub count: u8,
}

/// The player that a test starts with.
#[derive(Debug)]
pub struct PlayerConfig {
    pub inventory: Vec<(PlayerSlot, SlotConfig)>,
    pub selected_hotbar: u8,
}

/// What a test prepares before its first tick.
#[derive(Debug)]
pub struct TestSetup {
    pub player: Option<PlayerConfig>,
}

/// One test: its identity, its selection tags and its timeline.
#[derive(Debug)]
pub struct TestSpec {
    pub flint_version: Option<String>,
    pub name: String,
    pub description: Option<String>,
    pub tags: Vec<String>,
    pub dependencies: Vec<String>,
    pub setup: Option<TestSetup>,
    pub timeline: Vec<TimelineEntry>,
    pub breakpoints: Vec<u32>,
}

impl TestSpec {
    /// The tags of the test, as character sequences.
    pub open spec fn tag_texts(&self) -> Seq<Seq<char>> {
        self.tags@.map_values(|t: String| t@)
    }

    /// Whether the setup asks for a player.
    pub open spec fn has_player_setup(&self) -> bool {
        self.setup is Some && self.setup->0.player is Some
    }
}

} // verus!
