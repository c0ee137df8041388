//! An in-memory backend: blocks in a hash map, a tick counter, and players
//! with an inventory. Item use does nothing here.
use vstd::prelude::*;

use rustc_hash::FxHashMap;

use crate::checks::{normalized, prop_text};
use crate::test_spec::{coords, Block, BlockFace, BlockPos, BlockView, Coords, PlayerSlot, PropValue};
use crate::traits::{
    air_state, opt_item, props_view, BlockData, BlockState, FlintAdapter, FlintPlayer, FlintWorld, Item,
    ServerInfo,
};

verus! {

#[verifier::external_type_specification]
#[verifier::external_body]
pub struct ExFxBuildHasher(rustc_hash::FxBuildHasher);

/// Relies on `FxHashMap::default`: a new map is empty.
#[verifier::external_body]
fn fx_empty<K, V>() -> (r: FxHashMap<K, V>)
    ensures
        (r@ == Map::<K, V>::empty()),
{
    FxHashMap::default()
}

/// Relies on `HashMap::get`: the block stored under `k`, if any. The key's
/// `==` is the derived one on three integers, so keys are equal exactly when
/// they are the same position.
#[verifier::external_body]
fn fx_get_block<'a>(m: &'a FxHashMap<BlockPos, BlockData>, k: &BlockPos) -> (r: Option<&'a BlockData>)
    ensures
        match r {
            Some(v) => m@.contains_key(*k) && *v == m@[*k],
            None => !m@.contains_key(*k),
        },
{
    m.get(k)
}

/// Relies on `HashMap::insert`: `v` replaces whatever block was stored under
/// `k`.
#[verifier::external_body]
fn fx_insert_block(m: &mut FxHashMap<BlockPos, BlockData>, k: BlockPos, v: BlockData)
    ensures
        final(m)@ == old(m)@.insert(k, v),
{
    m.insert(k, v);
}

/// Relies on `HashMap::get`: the item stored under slot `k`, if any. The
/// derived `==` on the field-less slot enum is equality of variants.
#[verifier::external_body]
fn fx_get_slot<'a>(m: &'a FxHashMap<PlayerSlot, Item>, k: &PlayerSlot) -> (r: Option<&'a Item>)
    ensures
        match r {
            Some(v) => m@.contains_key(*k) && *v == m@[*k],
            None => !m@.contains_key(*k),
        },
{
    m.get(k)
}

/// Relies on `HashMap::insert`: `v` replaces whatever item was in slot `k`.
#[verifier::external_body]
fn fx_insert_slot(m: &mut FxHashMap<PlayerSlot, Item>, k: PlayerSlot, v: Item)
    ensures
        final(m)@ == old(m)@.insert(k, v),
{
    m.insert(k, v);
}

/// Relies on `HashMap::remove`: no item is stored under slot `k` afterwards.
#[verifier::external_body]
fn fx_remove_slot(m: &mut FxHashMap<PlayerSlot, Item>, k: &PlayerSlot)
    ensures
        final(m)@ == old(m)@.remove(*k),
{
    m.remove(k);
}

/// The position with the given coordinates, where there is one.
pub open spec fn pos_of(c: Coords) -> BlockPos {
    choose|p: BlockPos| coords(p) == c
}

proof fn lemma_coords_injective(p: BlockPos, q: BlockPos)
    requires
        coords(p) == coords(q),
    ensures
        p == q,
{
    assert(p =~= q);
}

proof fn lemma_pos_of_coords(p: BlockPos)
    ensures
        pos_of(coords(p)) == p,
{
    let q = pos_of(coords(p));
    assert(coords(q) == coords(p));
    lemma_coords_injective(p, q);
}

/// The block data that the mock stores for a written block: every property
/// as its text, the empty text for values that have none.
pub open spec fn stored_state(b: BlockView) -> BlockState {
    BlockState {
        id: b.id,
        properties: b.properties.map_values(
            |p: (String, PropValue)|
                (
                    p.0@,
                    match prop_text(p.1) {
                        Some(t) => t,
                        None => Seq::<char>::empty(),
                    },
                ),
        ),
    }
}

/// Mock adapter: makes empty in-memory worlds.
pub struct MockAdapter;

impl MockAdapter {
    pub fn new() -> (r: MockAdapter) {
        MockAdapter
    }
}

impl Default for MockAdapter {
    fn default() -> (r: MockAdapter) {
        MockAdapter::new()
    }
}

impl FlintAdapter for MockAdapter {
    type World = MockWorld;

    fn create_test_world(&self) -> (w: MockWorld) {
        MockWorld::new()
    }

    fn server_info(&self) -> ServerInfo {
        ServerInfo { minecraft_version: "1.21".to_owned() }
    }
}

/// Mock world: blocks in a hash map by position, and a tick counter.
pub struct MockWorld {
    pub blocks: FxHashMap<BlockPos, BlockData>,
    pub tick: u64,
    pub players: Ghost<nat>,
}

impl MockWorld {
    /// The blocks written so far, by position.
    pub open spec fn stored(&self) -> Map<BlockPos, BlockData> {
        self.blocks@
    }

    /// An empty world at tick 0.
    pub fn new() -> (r: MockWorld)
        ensures
            r.stored().dom().is_empty(),
            r.tick_count() == 0,
            r.players_created() == 0,
    {
        MockWorld { blocks: fx_empty(), tick: 0, players: Ghost(0) }
    }

    /// Every block written so far, by position.
    pub fn all_blocks(&self) -> (r: &FxHashMap<BlockPos, BlockData>)
        ensures
            r@ == self.stored(),
    {
        &self.blocks
    }
}

impl Default for MockWorld {
    fn default() -> (r: MockWorld) {
        MockWorld::new()
    }
}

impl FlintWorld for MockWorld {
    type Player = MockPlayer;

    open spec fn tick_count(&self) -> nat {
        self.tick as nat
    }

    open spec fn players_created(&self) -> nat {
        self.players@
    }

    open spec fn block_at(&self, pos: Coords) -> BlockState {
        if (exists|p: BlockPos| coords(p) == pos) && self.blocks@.contains_key(pos_of(pos)) {
            self.blocks@[pos_of(pos)]@
        } else {
            air_state()
        }
    }

    open spec fn placed(before: MockWorld, after: MockWorld, pos: Coords, block: BlockView) -> bool {
        &&& after.block_at(pos) == stored_state(block)
        &&& forall|q: Coords| q != pos ==> #[trigger] after.block_at(q) == before.block_at(q)
    }

    open spec fn ticked(before: MockWorld, after: MockWorld) -> bool {
        after.blocks@ == before.blocks@
    }

    fn do_tick(&mut self) {
        self.tick = self.tick + 1;
    }

    fn current_tick(&self) -> (r: u64) {
        self.tick
    }

    fn get_block(&self, pos: BlockPos) -> (r: BlockData) {
        proof {
            lemma_pos_of_coords(pos);
        }
        match fx_get_block(&self.blocks, &pos) {
            Some(d) => d.copy(),
            None => {
                let r = BlockData::new("minecraft:air");
                assert(r@.properties =~= air_state().properties);
                r
            },
        }
    }

    fn set_block(&mut self, pos: BlockPos, block: &Block) {
        let ghost bv = block@;
        let mut props: Vec<(String, String)> = Vec::new();
        let mut i: usize = 0;
        while i < block.properties.len()
            invariant
                bv == block@,
                i <= block.properties@.len(),
                props_view(props@) == stored_state(bv).properties.subrange(0, i as int),
            decreases block.properties@.len() - i,
        {
            let (k, v) = &block.properties[i];
            let text = match normalized(v) {
                Some(t) => t,
                None => String::new(),
            };
            assert(block.properties@[i as int] == (*k, *v));
            assert(stored_state(bv).properties[i as int] == (k@, text@));
            let ghost prev = props_view(props@);
            props.push((k.clone(), text));
            assert(props_view(props@) =~= prev.push((k@, text@)));
            i = i + 1;
            assert(props_view(props@) =~= stored_state(bv).properties.subrange(0, i as int));
        }
        let data = BlockData { id: block.id.clone(), properties: props };
        assert(data@.properties =~= stored_state(bv).properties);
        let ghost before = *self;
        fx_insert_block(&mut self.blocks, pos, data);
        proof {
            lemma_pos_of_coords(pos);
            assert forall|q: Coords| q != coords(pos) implies #[trigger] self.block_at(q)
                == before.block_at(q) by {
                if exists|p: BlockPos| coords(p) == q {
                    let p = choose|p: BlockPos| coords(p) == q;
                    assert(coords(pos_of(q)) == q);
                    assert(pos_of(q) != pos);
                }
            }
        }
    }

    fn create_player(&mut self) -> (p: MockPlayer) {
        self.players = Ghost(self.players@ + 1);
        MockPlayer::new()
    }
}

/// Mock player: an inventory in a hash map by slot, and a hotbar selection.
pub struct MockPlayer {
    pub slots: FxHashMap<PlayerSlot, Item>,
    pub selected_hotbar: u8,
}

impl MockPlayer {
    /// A player with an empty inventory and hotbar slot 1 selected.
    pub fn new() -> (r: MockPlayer)
        ensures
            r.selected() == 1,
            forall|s: PlayerSlot| r.slot_item(s) is None,
    {
        MockPlayer { slots: fx_empty(), selected_hotbar: 1 }
    }
}

impl Default for MockPlayer {
    fn default() -> (r: MockPlayer)
        ensures
            r.selected() == 1,
    {
        MockPlayer::new()
    }
}

impl FlintPlayer for MockPlayer {
    open spec fn selected(&self) -> u8 {
        self.selected_hotbar
    }

    open spec fn slot_item(&self, slot: PlayerSlot) -> Option<Item> {
        if self.slots@.contains_key(slot) {
            Some(self.slots@[slot])
        } else {
            None
        }
    }

    open spec fn slot_set(
        before: MockPlayer,
        after: MockPlayer,
        slot: PlayerSlot,
        item: Option<Item>,
    ) -> bool {
        &&& after.slot_item(slot) == item
        &&& forall|s: PlayerSlot| s != slot ==> #[trigger] after.slot_item(s) == before.slot_item(s)
    }

    fn set_slot(&mut self, slot: PlayerSlot, item: Option<&Item>) {
        match item {
            Some(it) => fx_insert_slot(&mut self.slots, slot, it.copy()),
            None => fx_remove_slot(&mut self.slots, &slot),
        }
    }

    fn get_slot(&self, slot: PlayerSlot) -> (r: Option<Item>) {
        match fx_get_slot(&self.slots, &slot) {
            Some(it) => Some(it.copy()),
            None => None,
        }
    }

    fn select_hotbar(&mut self, slot: u8) {
        if 1 <= slot && slot <= 9 {
            self.selected_hotbar = slot;
        }
    }

    fn selected_hotbar(&self) -> (r: u8) {
        self.selected_hotbar
    }

    open spec fn used(before: MockPlayer, after: MockPlayer, pos: Coords, face: BlockFace) -> bool {
        after == before
    }

    fn use_item_on(&mut self, pos: BlockPos, face: &BlockFace) {
    }
}

} // verus!
