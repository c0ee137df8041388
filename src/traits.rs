//! The capability contract that a backend provides: an adapter that makes
//! isolated worlds, worlds that tick and hold blocks, and players with an
//! inventory.
use vstd::prelude::*;

use crate::test_spec::{Block, BlockFace, BlockPos, BlockView, Coords, PlayerSlot};

verus! {

/// An item that can be held or put in a slot.
#[derive(Clone, Debug, PartialEq, Eq)]
pub struct Item {
    /// Item identifier, e.g. `minecraft:honeycomb`.
    pub id: String,
    /// Stack count.
    pub count: u8,
}

impl Item {
    /// One item of kind `id`.
    pub fn new(id: &str) -> (r: Item)
        ensures
            r.id@ == id@,
            r.count == 1,
    {
        Item { id: id.to_owned(), count: 1 }
    }

    /// A stack of `count` items of kind `id`.
    pub fn with_count(id: &str, count: u8) -> (r: Item)
        ensures
            r.id@ == id@,
            r.count == count,
    {
        Item { id: id.to_owned(), count }
    }

    /// An equal copy.
    pub fn copy(&self) -> (r: Item)
        ensures
            r == *self,
    {
        Item { id: self.id.clone(), count: self.count }
    }
}

/// The item an optional reference points to.
pub open spec fn opt_item(o: Option<&Item>) -> Option<Item> {
    match o {
        Some(i) => Some(*i),
        None => None,
    }
}

/// A block as a world reports it: an identifier and its properties as text.
pub struct BlockState {
    pub id: Seq<char>,
    pub properties: Seq<(Seq<char>, Seq<char>)>,
}

/// The block that reading a position nothing was written to gives.
pub open spec fn air_state() -> BlockState {
    BlockState { id: "minecraft:air"@, properties: seq![] }
}

/// The value of the first property named `key`, if any.
pub open spec fn lookup(props: Seq<(Seq<char>, Seq<char>)>, key: Seq<char>) -> Option<Seq<char>>
    decreases props.len(),
{
    if props.len() == 0 {
        None
    } else if props[0].0 == key {
        Some(props[0].1)
    } else {
        lookup(props.drop_first(), key)
    }
}

/// Block data read from a world.
#[derive(Debug, PartialEq, Eq)]
pub struct BlockData {
    /// Block identifier, e.g. `minecraft:stone`.
    pub id: String,
    /// State properties, e.g. `powered` = `true`.
    pub properties: Vec<(String, String)>,
}

/// The texts of a list of (name, value) properties.
pub open spec fn props_view(v: Seq<(String, String)>) -> Seq<(Seq<char>, Seq<char>)> {
    v.map_values(|p: (String, String)| (p.0@, p.1@))
}

impl View for BlockData {
    type V = BlockState;

    open spec fn view(&self) -> BlockState {
        BlockState { id: self.id@, properties: props_view(self.properties@) }
    }
}

impl BlockData {
    /// A block without properties.
    pub fn new(id: &str) -> (r: BlockData)
        ensures
            r@.id == id@,
            r@.properties.len() == 0,
    {
        BlockData { id: id.to_owned(), properties: Vec::new() }
    }

    /// A block with the given properties.
    pub fn with_properties(id: &str, properties: Vec<(String, String)>) -> (r: BlockData)
        ensures
            r@.id == id@,
            r.properties@ == properties@,
    {
        BlockData { id: id.to_owned(), properties }
    }

    /// Whether this block is air.
    pub fn is_air(&self) -> (r: bool)
        ensures
            r == (self.id@ == "minecraft:air"@ || self.id@ == "air"@),
    {
        crate::text::same_text(self.id.as_str(), "minecraft:air") || crate::text::same_text(
            self.id.as_str(),
            "air",
        )
    }

    /// The value of the property named `key`.
    pub fn property(&self, key: &str) -> (r: Option<&String>)
        ensures
            match r {
                Some(v) => lookup(self@.properties, key@) == Some(v@),
                None => lookup(self@.properties, key@) is None,
            },
    {
        let ghost all = self@.properties;
        assert(all.subrange(0, all.len() as int) =~= all);
        let mut i: usize = 0;
        while i < self.properties.len()
            invariant
                i <= self.properties@.len(),
                all == self@.properties,
                lookup(all, key@) == lookup(all.subrange(i as int, all.len() as int), key@),
            decreases self.properties@.len() - i,
        {
            let ghost rest = all.subrange(i as int, all.len() as int);
            assert(rest.drop_first() =~= all.subrange(i + 1, all.len() as int));
            assert(rest[0] == (self.properties@[i as int].0@, self.properties@[i as int].1@));
            if crate::text::same_text(self.properties[i].0.as_str(), key) {
                return Some(&self.properties[i].1);
            }
            i = i + 1;
        }
        None
    }

    /// An equal copy.
    pub fn copy(&self) -> (r: BlockData)
        ensures
            r@ == self@,
    {
        let mut props: Vec<(String, String)> = Vec::new();
        let mut i: usize = 0;
        while i < self.properties.len()
            invariant
                i <= self.properties@.len(),
                props@ == self.properties@.subrange(0, i as int),
            decreases self.properties@.len() - i,
        {
            let (k, v) = &self.properties[i];
            props.push((k.clone(), v.clone()));
            i = i + 1;
            assert(props@ =~= self.properties@.subrange(0, i as int));
        }
        assert(self.properties@.subrange(0, self.properties@.len() as int) =~= self.properties@);
        BlockData { id: self.id.clone(), properties: props }
    }
}

/// Backend metadata, for diagnostics.
#[derive(Clone, Debug)]
pub struct ServerInfo {
    pub minecraft_version: String,
}

/// Makes isolated test worlds.
pub trait FlintAdapter {
    type World: FlintWorld;

    /// A fresh world, at tick 0, without players, and air everywhere.
    fn create_test_world(&self) -> (w: Self::World)
        ensures
            w.tick_count() == 0,
            w.players_created() == 0,
            forall|p: Coords| #[trigger] w.block_at(p) == air_state(),
    ;

    /// Backend metadata.
    fn server_info(&self) -> ServerInfo;
}

/// A world that the runner drives one tick at a time.
pub trait FlintWorld: Sized {
    type Player: FlintPlayer;

    /// The number of ticks done so far.
    spec fn tick_count(&self) -> nat;

    /// The number of players created in this world.
    spec fn players_created(&self) -> nat;

    /// What a read of `pos` returns.
    spec fn block_at(&self, pos: Coords) -> BlockState;

    /// What a write of `block` at `pos` leaves, as the backend defines it.
    spec fn placed(before: Self, after: Self, pos: Coords, block: BlockView) -> bool;

    /// What one tick does to the world, as the backend defines it.
    spec fn ticked(before: Self, after: Self) -> bool;

    /// Runs exactly one tick.
    fn do_tick(&mut self)
        requires
            old(self).tick_count() < u64::MAX,
        ensures
            Self::ticked(*old(self), *final(self)),
            final(self).tick_count() == old(self).tick_count() + 1,
            final(self).players_created() == old(self).players_created(),
    ;

    /// The number of ticks done so far.
    fn current_tick(&self) -> (r: u64)
        ensures
            r == self.tick_count(),
    ;

    /// The block at `pos`; an air block where nothing was written.
    fn get_block(&self, pos: BlockPos) -> (r: BlockData)
        ensures
            r@ == self.block_at(crate::test_spec::coords(pos)),
    ;

    /// Writes `block` at `pos`, with whatever updates the backend makes.
    fn set_block(&mut self, pos: BlockPos, block: &Block)
        ensures
            Self::placed(*old(self), *final(self), crate::test_spec::coords(pos), block@),
            crate::checks::same_id(
                final(self).block_at(crate::test_spec::coords(pos)).id,
                block@.id,
            ),
            final(self).tick_count() == old(self).tick_count(),
            final(self).players_created() == old(self).players_created(),
    ;

    /// A new player in this world, with hotbar slot 1 selected.
    fn create_player(&mut self) -> (p: Self::Player)
        ensures
            p.selected() == 1,
            final(self).players_created() == old(self).players_created() + 1,
            final(self).tick_count() == old(self).tick_count(),
            forall|c: Coords| #[trigger] final(self).block_at(c) == old(self).block_at(c),
    ;
}

/// A player whose inventory the runner can fill and whose item use it can
/// trigger.
pub trait FlintPlayer: Sized {
    /// The selected hotbar slot, from 1 to 9.
    spec fn selected(&self) -> u8;

    /// What a read of `slot` returns.
    spec fn slot_item(&self, slot: PlayerSlot) -> Option<Item>;

    /// What a write of `item` to `slot` leaves, as the backend defines it.
    spec fn slot_set(before: Self, after: Self, slot: PlayerSlot, item: Option<Item>) -> bool;

    /// What using the selected item on face `face` of the block at `pos`
    /// leaves, as the backend defines it.
    spec fn used(before: Self, after: Self, pos: Coords, face: BlockFace) -> bool;

    /// Puts `item` in `slot`, or empties it for `None`.
    fn set_slot(&mut self, slot: PlayerSlot, item: Option<&Item>)
        ensures
            Self::slot_set(*old(self), *final(self), slot, opt_item(item)),
            final(self).selected() == old(self).selected(),
    ;

    /// The item in `slot`, `None` when it is empty.
    fn get_slot(&self, slot: PlayerSlot) -> (r: Option<Item>)
        ensures
            r == self.slot_item(slot),
    ;

    /// Selects hotbar slot `slot`; a value outside 1 to 9 is ignored.
    fn select_hotbar(&mut self, slot: u8)
        ensures
            1 <= slot <= 9 ==> final(self).selected() == slot,
            !(1 <= slot <= 9) ==> final(self).selected() == old(self).selected(),
            forall|s: PlayerSlot| #[trigger] final(self).slot_item(s) == old(self).slot_item(s),
    ;

    /// The selected hotbar slot.
    fn selected_hotbar(&self) -> (r: u8)
        ensures
            r == self.selected(),
    ;

    /// Uses the item in the selected hotbar slot on a face of the block at
    /// `pos`.
    fn use_item_on(&mut self, pos: BlockPos, face: &BlockFace)
        ensures
            Self::used(*old(self), *final(self), crate::test_spec::coords(pos), *face),
    ;
}

} // verus!
