//! The test runner: drives a fresh world through a test's schedule one tick
//! at a time, applies the actions and evaluates the assertions.
use vstd::prelude::*;

use crate::checks::{block_matches, block_satisfies, expected_data, expected_props};
use crate::results::{AssertFailure, AssertionResult, TestResult, TestSummary};
use crate::test_spec::{
    coords, opt_text, ActionType, ActionView, Block, BlockFace, BlockPos, BlockView, Coords,
    PlayerSlot,
    PropValue, TestSpec,
};
use crate::render::{block_text, sort_props};
use crate::text::{decimal, decimal_text, push_char, push_text};
use crate::timeline::{
    at_tick, highest_tick, merged, spec_entries, ScheduledView, TimelineAggregate,
};
use crate::traits::{BlockData, BlockState, FlintAdapter, FlintPlayer, FlintWorld, Item};

verus! {

#[verifier::external_type_specification]
#[verifier::external_body]
pub struct ExInstant(std::time::Instant);

/// Relies on `Instant::now`: reads the monotonic clock.
pub assume_specification[ std::time::Instant::now ]() -> std::time::Instant;

/// Relies on `Instant::elapsed`: the time since an instant.
pub assume_specification[ std::time::Instant::elapsed ](i: &std::time::Instant) -> core::time::Duration;

/// Relies on `Duration::as_millis`: whole milliseconds of a duration.
pub assume_specification[ core::time::Duration::as_millis ](d: &core::time::Duration) -> u128;

/// Settings of a test run.
#[derive(Clone, Debug)]
pub struct TestRunConfig {
    /// Pause at breakpoints.
    pub debug_enabled: bool,
    /// Run tests in parallel worlds.
    pub parallel: bool,
    /// The most worlds that run at once.
    pub max_parallel_worlds: usize,
}

impl Default for TestRunConfig {
    fn default() -> (r: TestRunConfig)
        ensures
            !r.debug_enabled,
            !r.parallel,
            r.max_parallel_worlds == 4,
    {
        TestRunConfig { debug_enabled: false, parallel: false, max_parallel_worlds: 4 }
    }
}

/// What one action did.
#[derive(Debug)]
pub enum ActionOutcome {
    /// An action that is not an assertion ran.
    Action,
    /// Every check of an assertion held.
    AssertPassed,
    /// A check of an assertion failed.
    AssertFailed(AssertFailure),
}

/// Whether the block at a check's position is the expected one.
pub open spec fn check_holds<W: FlintWorld>(w: W, c: (Coords, BlockView)) -> bool {
    block_satisfies(w.block_at(c.0), c.1)
}

/// The expected block of a check as the world would report it.
pub open spec fn expected_state(b: BlockView) -> BlockState {
    BlockState { id: b.id, properties: expected_props(b.properties) }
}

/// Whether every check holds in `w`.
pub open spec fn all_checks_hold<W: FlintWorld>(w: W, checks: Seq<(Coords, BlockView)>) -> bool {
    forall|i: int| 0 <= i < checks.len() ==> check_holds(w, #[trigger] checks[i])
}

/// Whether check `k` is the first of `checks` that fails in `w`, and `f`
/// reports it.
pub open spec fn fails_first_at<W: FlintWorld>(
    w: W,
    checks: Seq<(Coords, BlockView)>,
    f: AssertFailure,
    k: int,
) -> bool {
    &&& 0 <= k < checks.len()
    &&& forall|j: int| 0 <= j < k ==> check_holds(w, #[trigger] checks[j])
    &&& !check_holds(w, checks[k])
    &&& coords(f.position) == checks[k].0
    &&& f.actual@ == w.block_at(checks[k].0)
    &&& f.expected@ == expected_state(checks[k].1)
    &&& f.error_message@ == failure_text(f.position, f.expected@, f.actual@)
}

/// Whether `f` reports the first failing check of `checks` at `tick`.
pub open spec fn reports_first_failure<W: FlintWorld>(
    w: W,
    checks: Seq<(Coords, BlockView)>,
    tick: u32,
    f: AssertFailure,
) -> bool {
    &&& f.tick == tick
    &&& exists|k: int| #[trigger] fails_first_at(w, checks, f, k)
}

/// Whether the player handle went from `player_before` to `player_after` as an action with the
/// given need of a player requires, creating a player only when none existed.
pub open spec fn player_step<W: FlintWorld>(
    w0: W,
    w1: W,
    player_before: Option<W::Player>,
    player_after: Option<W::Player>,
    touches: bool,
) -> bool {
    &&& player_before is Some ==> player_after is Some
    &&& touches ==> player_after is Some
    &&& !touches ==> player_after == player_before
    &&& w1.players_created() == w0.players_created() + if player_before is None && player_after is Some {
        1nat
    } else {
        0nat
    }
}

/// What executing action `a` at `tick` leaves and returns.
pub open spec fn action_done<W: FlintWorld>(
    a: ActionView,
    tick: u32,
    w0: W,
    w1: W,
    player_before: Option<W::Player>,
    player_after: Option<W::Player>,
    out: ActionOutcome,
) -> bool {
    &&& w1.tick_count() == w0.tick_count()
    &&& player_step(w0, w1, player_before, player_after, a.touches_player())
    &&& a.touches_player() ==> forall|c: Coords| #[trigger] w1.block_at(c) == w0.block_at(c)
    &&& match a {
        ActionView::Assert { checks } => {
            &&& w1 == w0
            &&& (out is AssertPassed) == all_checks_hold(w0, checks)
            &&& match out {
                ActionOutcome::AssertFailed(f) => reports_first_failure(w0, checks, tick, f),
                ActionOutcome::AssertPassed => true,
                ActionOutcome::Action => false,
            }
        },
        ActionView::Place { pos, block } => out is Action && W::placed(w0, w1, pos, block),
        ActionView::PlaceEach { blocks } => out is Action && writes_all(w0, w1, blocks),
        ActionView::Fill { from, to, with } => {
            &&& out is Action
            &&& writes_all(w0, w1, box_writes(low_corner(from, to), high_corner(from, to), with))
        },
        ActionView::UseItemOn { pos, face, item } => {
            &&& out is Action
            &&& item_used(player_before, player_after->0, pos, face, item)
        },
        ActionView::Remove { pos } => out is Action && W::placed(w0, w1, pos, air_view()),
        ActionView::SetSlot { slot, item, count } => {
            &&& out is Action
            &&& player_after->0.selected() == selected_before(player_before)
            &&& slot_written(player_before, player_after->0, slot, item, count)
        },
        ActionView::SelectHotbar { hotbar } => {
            &&& out is Action
            &&& player_after->0.selected() == if 1 <= hotbar <= 9 {
                hotbar
            } else {
                selected_before(player_before)
            }
        },
    }
}

/// A block of air, as `Remove` writes it.
pub open spec fn air_view() -> BlockView {
    BlockView { id: "minecraft:air"@, properties: seq![] }
}

/// The hotbar slot selected before an action: that of the existing player, or
/// slot 1 for the one the action creates.
pub open spec fn selected_before<P: FlintPlayer>(p: Option<P>) -> u8 {
    match p {
        Some(q) => q.selected(),
        None => 1,
    }
}

/// Whether `after` is a player whose `slot` was set to `count` items of kind
/// `item` (or emptied), starting from the player `before` if there was one.
pub open spec fn slot_written<P: FlintPlayer>(
    before: Option<P>,
    after: P,
    slot: PlayerSlot,
    item: Option<Seq<char>>,
    count: u8,
) -> bool {
    exists|q: P, it: Option<Item>|
        #[trigger] P::slot_set(q, after, slot, it) && (before is Some ==> q == before->0)
            && stack_of(it, item, count)
}

/// Whether `q` is the player an action starts from: the existing one, or a
/// new one with hotbar slot 1 selected.
pub open spec fn starts_from<P: FlintPlayer>(before: Option<P>, q: P) -> bool {
    match before {
        Some(p) => q == p,
        None => q.selected() == 1,
    }
}

/// Whether `q1` is `q0` made ready to use `item`: for an explicit item, one
/// of it put in hotbar slot 1 and slot 1 selected; else `q0` unchanged.
pub open spec fn prepared_for_use<P: FlintPlayer>(q0: P, q1: P, item: Option<Seq<char>>) -> bool {
    match item {
        None => q1 == q0,
        Some(id) => {
            &&& q1.selected() == 1
            &&& exists|qm: P|
                #[trigger] slot_written(Some(q0), qm, PlayerSlot::Hotbar1, Some(id), 1) && forall|
                    s: PlayerSlot,
                | #[trigger] q1.slot_item(s) == qm.slot_item(s)
        },
    }
}

/// Whether `after` is the player that `UseItemOn` leaves: the starting player,
/// prepared for `item`, then used on `face` of the block at `pos`.
pub open spec fn item_used<P: FlintPlayer>(
    before: Option<P>,
    after: P,
    pos: Coords,
    face: BlockFace,
    item: Option<Seq<char>>,
) -> bool {
    exists|q0: P, q1: P|
        P::used(q1, after, pos, face) && starts_from(before, q0) && #[trigger] prepared_for_use(
            q0,
            q1,
            item,
        )
}

/// Whether `it` is the stack that `SetSlot` puts in place: `count` items of
/// kind `item`, or nothing.
pub open spec fn stack_of(it: Option<Item>, item: Option<Seq<char>>, count: u8) -> bool {
    match (it, item) {
        (Some(i), Some(id)) => i.id@ == id && i.count == count,
        (None, None) => true,
        _ => false,
    }
}

/// The inclusive box spanned by two corners, in either order.
pub fn region_bounds(region: &[BlockPos; 2]) -> (r: (BlockPos, BlockPos))
    ensures
        forall|i: int|
            0 <= i < 3 ==> r.0[i] == (if region[0][i] <= region[1][i] {
                region[0][i]
            } else {
                region[1][i]
            }) && r.1[i] == (if region[0][i] <= region[1][i] {
                region[1][i]
            } else {
                region[0][i]
            }),
{
    let a = region[0];
    let b = region[1];
    let lo: BlockPos = [
        if a[0] <= b[0] { a[0] } else { b[0] },
        if a[1] <= b[1] { a[1] } else { b[1] },
        if a[2] <= b[2] { a[2] } else { b[2] },
    ];
    let hi: BlockPos = [
        if a[0] <= b[0] { b[0] } else { a[0] },
        if a[1] <= b[1] { b[1] } else { a[1] },
        if a[2] <= b[2] { b[2] } else { a[2] },
    ];
    proof {
        assert forall|i: int| 0 <= i < 3 implies lo[i] == (if region[0][i] <= region[1][i] {
            region[0][i]
        } else {
            region[1][i]
        }) && hi[i] == (if region[0][i] <= region[1][i] {
            region[1][i]
        } else {
            region[0][i]
        }) by {
            if i == 0 {
            } else if i == 1 {
            } else {
            }
        }
    }
    (lo, hi)
}

/// Whether the worlds `ws` go from one to the next by the writes in
/// `writes`, in order.
pub open spec fn write_chain<W: FlintWorld>(ws: Seq<W>, writes: Seq<(Coords, BlockView)>) -> bool {
    &&& ws.len() == writes.len() + 1
    &&& forall|i: int|
        0 <= i < writes.len() ==> #[trigger] W::placed(ws[i], ws[i + 1], writes[i].0, writes[i].1)
}

/// Whether `w1` is what the writes in `writes`, made in order, leave of `w0`.
pub open spec fn writes_all<W: FlintWorld>(w0: W, w1: W, writes: Seq<(Coords, BlockView)>) -> bool {
    exists|ws: Seq<W>| #[trigger] write_chain(ws, writes) && ws[0] == w0 && ws.last() == w1
}

proof fn lemma_chain_push<W: FlintWorld>(
    ws: Seq<W>,
    writes: Seq<(Coords, BlockView)>,
    w: W,
    wr: (Coords, BlockView),
)
    requires
        write_chain(ws, writes),
        W::placed(ws.last(), w, wr.0, wr.1),
    ensures
        write_chain(ws.push(w), writes.push(wr)),
{
    let nws = ws.push(w);
    let nwr = writes.push(wr);
    assert forall|i: int| 0 <= i < nwr.len() implies #[trigger] W::placed(
        nws[i],
        nws[i + 1],
        nwr[i].0,
        nwr[i].1,
    ) by {
        if i < writes.len() {
            assert(nws[i] == ws[i] && nws[i + 1] == ws[i + 1] && nwr[i] == writes[i]);
        } else {
            assert(nws[i] == ws.last() && nws[i + 1] == w && nwr[i] == wr);
        }
    }
}

/// The positions of the row from `z0` to `z1` at `x`, `y`, in order.
pub open spec fn z_run(x: int, y: int, z0: int, z1: int) -> Seq<Coords>
    decreases z1 - z0 + 1,
{
    if z1 < z0 {
        seq![]
    } else {
        z_run(x, y, z0, z1 - 1).push((x, y, z1))
    }
}

/// The positions of the layer at `x`, row by row.
pub open spec fn plane(x: int, y0: int, y1: int, z0: int, z1: int) -> Seq<Coords>
    decreases y1 - y0 + 1,
{
    if y1 < y0 {
        seq![]
    } else {
        plane(x, y0, y1 - 1, z0, z1) + z_run(x, y1, z0, z1)
    }
}

/// The positions of the box from `lo` to `hi`, layer by layer along x, then
/// row by row along y, then along z.
pub open spec fn box_seq(lo: Coords, x1: int, hi: Coords) -> Seq<Coords>
    decreases x1 - lo.0 + 1,
{
    if x1 < lo.0 {
        seq![]
    } else {
        box_seq(lo, x1 - 1, hi) + plane(x1, lo.1, hi.1, lo.2, hi.2)
    }
}

/// The writes of a fill of the box from `lo` to `hi` with `b`.
pub open spec fn box_writes(lo: Coords, hi: Coords, b: BlockView) -> Seq<(Coords, BlockView)> {
    box_seq(lo, hi.0, hi).map_values(|p: Coords| (p, b))
}

/// The lower corner of the box spanned by two corners.
pub open spec fn low_corner(a: Coords, b: Coords) -> Coords {
    (
        if a.0 <= b.0 { a.0 } else { b.0 },
        if a.1 <= b.1 { a.1 } else { b.1 },
        if a.2 <= b.2 { a.2 } else { b.2 },
    )
}

/// The upper corner of the box spanned by two corners.
pub open spec fn high_corner(a: Coords, b: Coords) -> Coords {
    (
        if a.0 <= b.0 { b.0 } else { a.0 },
        if a.1 <= b.1 { b.1 } else { a.1 },
        if a.2 <= b.2 { b.2 } else { a.2 },
    )
}

/// Writes `block` at every position of the inclusive box from `lo` to `hi`,
/// one write per position, in the order of `box_seq`.
fn fill_box<W: FlintWorld>(world: &mut W, lo: BlockPos, hi: BlockPos, block: &Block)
    requires
        lo[0] <= hi[0],
        lo[1] <= hi[1],
        lo[2] <= hi[2],
    ensures
        writes_all(*old(world), *final(world), box_writes(coords(lo), coords(hi), block@)),
        final(world).tick_count() == old(world).tick_count(),
        final(world).players_created() == old(world).players_created(),
{
    let ghost l = coords(lo);
    let ghost h = coords(hi);
    let ghost b = block@;
    let ghost f = |p: Coords| (p, b);
    let ghost mut ws: Seq<W> = seq![*world];
    let ghost mut done: Seq<Coords> = seq![];
    assert(write_chain(ws, done.map_values(f)));
    let mut x: i32 = lo[0];
    loop
        invariant_except_break
            done == box_seq(l, x - 1, h),
        invariant
            l == coords(lo),
            h == coords(hi),
            b == block@,
            f == (|p: Coords| (p, b)),
            lo[0] <= x <= hi[0],
            lo[1] <= hi[1],
            lo[2] <= hi[2],
            write_chain(ws, done.map_values(f)),
            ws[0] == *old(world),
            ws.last() == *world,
            world.tick_count() == old(world).tick_count(),
            world.players_created() == old(world).players_created(),
        ensures
            done == box_seq(l, h.0, h),
        decreases hi[0] - x,
    {
        let mut y: i32 = lo[1];
        loop
            invariant_except_break
                done == box_seq(l, x - 1, h) + plane(x as int, l.1, y - 1, l.2, h.2),
            invariant
                l == coords(lo),
                h == coords(hi),
                b == block@,
                f == (|p: Coords| (p, b)),
                lo[0] <= x <= hi[0],
                lo[1] <= y <= hi[1],
                lo[2] <= hi[2],
                write_chain(ws, done.map_values(f)),
                ws[0] == *old(world),
                ws.last() == *world,
                world.tick_count() == old(world).tick_count(),
                world.players_created() == old(world).players_created(),
            ensures
                done == box_seq(l, x - 1, h) + plane(x as int, l.1, h.1, l.2, h.2),
            decreases hi[1] - y,
        {
            let mut z: i32 = lo[2];
            loop
                invariant_except_break
                    done == box_seq(l, x - 1, h) + plane(x as int, l.1, y - 1, l.2, h.2) + z_run(
                        x as int,
                        y as int,
                        l.2,
                        z - 1,
                    ),
                invariant
                    l == coords(lo),
                    h == coords(hi),
                    b == block@,
                    f == (|p: Coords| (p, b)),
                    lo[0] <= x <= hi[0],
                    lo[1] <= y <= hi[1],
                    lo[2] <= z <= hi[2],
                    write_chain(ws, done.map_values(f)),
                    ws[0] == *old(world),
                    ws.last() == *world,
                    world.tick_count() == old(world).tick_count(),
                    world.players_created() == old(world).players_created(),
                ensures
                    done == box_seq(l, x - 1, h) + plane(x as int, l.1, y - 1, l.2, h.2) + z_run(
                        x as int,
                        y as int,
                        l.2,
                        h.2,
                    ),
                decreases hi[2] - z,
            {
                let pos: BlockPos = [x, y, z];
                world.set_block(pos, block);
                proof {
                    let p = (x as int, y as int, z as int);
                    assert(coords(pos) == p);
                    lemma_chain_push(ws, done.map_values(f), *world, (p, b));
                    assert(done.push(p).map_values(f) =~= done.map_values(f).push((p, b)));
                    ws = ws.push(*world);
                    let base = box_seq(l, x - 1, h) + plane(x as int, l.1, y - 1, l.2, h.2);
                    assert(base + z_run(x as int, y as int, l.2, z as int) =~= (base + z_run(
                        x as int,
                        y as int,
                        l.2,
                        z - 1,
                    )).push(p));
                    done = done.push(p);
                }
                if z == hi[2] {
                    break;
                }
                z = z + 1;
            }
            proof {
                assert(plane(x as int, l.1, y as int, l.2, h.2) == plane(x as int, l.1, y - 1, l.2, h.2)
                    + z_run(x as int, y as int, l.2, h.2));
                assert(box_seq(l, x - 1, h) + plane(x as int, l.1, y - 1, l.2, h.2) + z_run(
                    x as int,
                    y as int,
                    l.2,
                    h.2,
                ) =~= box_seq(l, x - 1, h) + plane(x as int, l.1, y as int, l.2, h.2));
            }
            if y == hi[1] {
                break;
            }
            y = y + 1;
            proof {
                assert(z_run(x as int, y as int, l.2, l.2 - 1) =~= Seq::<Coords>::empty());
            }
        }
        proof {
            assert(box_seq(l, x as int, h) == box_seq(l, x - 1, h) + plane(x as int, l.1, h.1, l.2, h.2));
        }
        if x == hi[0] {
            break;
        }
        x = x + 1;
    }
    assert(writes_all(*old(world), *world, box_writes(coords(lo), coords(hi), block@))) by {
        assert(write_chain(ws, done.map_values(f)));
    }
}

/// The player of the test, created in `world` if there is none yet.
fn take_player<W: FlintWorld>(world: &mut W, player: &mut Option<W::Player>) -> (p: W::Player)
    ensures
        *final(player) is None,
        *old(player) is Some ==> p == old(player)->0 && *final(world) == *old(world),
        *old(player) is None ==> final(world).players_created() == old(world).players_created()
            + 1 && p.selected() == 1,
        forall|c: Coords| #[trigger] final(world).block_at(c) == old(world).block_at(c),
        final(world).tick_count() == old(world).tick_count(),
{
    match player.take() {
        Some(p) => p,
        None => world.create_player(),
    }
}

/// The text of a position, `[x, y, z]`.
pub open spec fn pos_text(p: BlockPos) -> Seq<char> {
    seq!['['] + decimal(p[0] as int) + ", "@ + decimal(p[1] as int) + ", "@ + decimal(
        p[2] as int,
    ) + seq![']']
}

/// The canonical text of a block as a world reports it.
pub open spec fn state_text(b: BlockState) -> Seq<char> {
    block_text(b.id, sort_props(b.properties))
}

/// The message of a failed check.
pub open spec fn failure_text(pos: BlockPos, expected: BlockState, actual: BlockState) -> Seq<
    char,
> {
    "Block mismatch at "@ + pos_text(pos) + ": expected '"@ + state_text(expected) + "', got '"@
        + state_text(actual) + seq!['\'']
}

/// Appends the text of a position, `[x, y, z]`.
fn push_pos(s: &mut String, pos: BlockPos)
    ensures
        final(s)@ == old(s)@ + pos_text(pos),
{
    push_char(s, '[');
    let t = decimal_text(pos[0] as i64);
    push_text(s, t.as_str());
    push_text(s, ", ");
    let t = decimal_text(pos[1] as i64);
    push_text(s, t.as_str());
    push_text(s, ", ");
    let t = decimal_text(pos[2] as i64);
    push_text(s, t.as_str());
    push_char(s, ']');
    assert(s@ =~= old(s)@ + pos_text(pos));
}

/// The failure report of a check: where, what was expected, what was found.
fn failure_report(tick: u32, pos: BlockPos, expected: BlockData, actual: BlockData) -> (r:
    AssertFailure)
    ensures
        r.tick == tick,
        r.position == pos,
        r.expected@ == expected@,
        r.actual@ == actual@,
        r.error_message@ == failure_text(pos, expected@, actual@),
{
    let mut msg = String::new();
    push_text(&mut msg, "Block mismatch at ");
    push_pos(&mut msg, pos);
    push_text(&mut msg, ": expected '");
    let e = expected.describe();
    push_text(&mut msg, e.as_str());
    push_text(&mut msg, "', got '");
    let a = actual.describe();
    push_text(&mut msg, a.as_str());
    push_char(&mut msg, '\'');
    assert(msg@ =~= failure_text(pos, expected@, actual@));
    AssertFailure { tick, position: pos, expected, actual, error_message: msg }
}

/// Executes one action against the world, creating the player on demand.
pub fn execute_action<W: FlintWorld>(
    world: &mut W,
    player: &mut Option<W::Player>,
    action: &ActionType,
    tick: u32,
) -> (out: ActionOutcome)
    ensures
        action_done(action@, tick, *old(world), *final(world), *old(player), *final(player), out),
{
    match action {
        ActionType::Place { pos, block } => {
            world.set_block(*pos, block);
            ActionOutcome::Action
        },
        ActionType::PlaceEach { blocks } => {
            let ghost bv = crate::test_spec::placements_view(blocks@);
            let ghost mut ws: Seq<W> = seq![*world];
            assert(write_chain(ws, bv.subrange(0, 0)));
            let mut i: usize = 0;
            while i < blocks.len()
                invariant
                    i <= blocks@.len(),
                    bv == crate::test_spec::placements_view(blocks@),
                    write_chain(ws, bv.subrange(0, i as int)),
                    ws[0] == *old(world),
                    ws.last() == *world,
                    world.tick_count() == old(world).tick_count(),
                    world.players_created() == old(world).players_created(),
                    *player == *old(player),
                decreases blocks@.len() - i,
            {
                world.set_block(blocks[i].pos, &blocks[i].block);
                proof {
                    let wr = (coords(blocks@[i as int].pos), blocks@[i as int].block@);
                    assert(bv[i as int] == wr);
                    lemma_chain_push(ws, bv.subrange(0, i as int), *world, wr);
                    assert(bv.subrange(0, i + 1) =~= bv.subrange(0, i as int).push(wr));
                    ws = ws.push(*world);
                }
                i = i + 1;
            }
            assert(bv.subrange(0, bv.len() as int) =~= bv);
            assert(write_chain(ws, bv));
            ActionOutcome::Action
        },
        ActionType::Fill { region, with } => {
            let (lo, hi) = region_bounds(region);
            assert(lo[0] <= hi[0] && lo[1] <= hi[1] && lo[2] <= hi[2]) by {
                assert(lo[0] == lo@[0]);
            }
            assert(coords(lo) == low_corner(coords(region[0]), coords(region[1]))
                && coords(hi) == high_corner(coords(region[0]), coords(region[1]))) by {
                assert(lo[0] == lo@[0] && lo[1] == lo@[1] && lo[2] == lo@[2]);
            }
            fill_box(world, lo, hi, with);
            ActionOutcome::Action
        },
        ActionType::Remove { pos } => {
            let air = Block::new("minecraft:air");
            assert(air@ == air_view()) by {
                assert(air.properties@ =~= Seq::<(String, PropValue)>::empty());
            }
            world.set_block(*pos, &air);
            ActionOutcome::Action
        },
        ActionType::Assert { checks } => {
            let ghost cv = crate::test_spec::checks_view(checks@);
            let mut i: usize = 0;
            while i < checks.len()
                invariant
                    i <= checks@.len(),
                    cv == crate::test_spec::checks_view(checks@),
                    action@ == (ActionView::Assert { checks: cv }),
                    *world == *old(world),
                    *player == *old(player),
                    forall|j: int| 0 <= j < i ==> check_holds(*world, #[trigger] cv[j]),
                decreases checks@.len() - i,
            {
                let actual = world.get_block(checks[i].pos);
                let ok = block_matches(&actual, &checks[i].is);
                assert(cv[i as int] == (coords(checks@[i as int].pos), checks@[i as int].is@));
                if !ok {
                    let expected = expected_data(&checks[i].is);
                    let f = failure_report(tick, checks[i].pos, expected, actual);
                    assert(fails_first_at(*world, cv, f, i as int));
                    assert(!all_checks_hold(*old(world), cv));
                    return ActionOutcome::AssertFailed(f);
                }
                i = i + 1;
            }
            ActionOutcome::AssertPassed
        },
        ActionType::UseItemOn { pos, face, item } => {
            let mut p = take_player(world, player);
            let ghost q0 = p;
            if let Some(id) = item {
                let it = Item::new(id.as_str());
                p.set_slot(PlayerSlot::Hotbar1, Some(&it));
                let ghost qm = p;
                proof {
                    assert(stack_of(Some(it), Some(id@), 1));
                    assert(W::Player::slot_set(q0, qm, PlayerSlot::Hotbar1, Some(it)));
                    assert(slot_written(Some(q0), qm, PlayerSlot::Hotbar1, Some(id@), 1));
                }
                p.select_hotbar(1);
                assert(prepared_for_use(q0, p, opt_text(*item)));
            }
            let ghost q1 = p;
            assert(prepared_for_use(q0, q1, opt_text(*item)));
            p.use_item_on(*pos, face);
            assert(W::Player::used(q1, p, coords(*pos), *face));
            assert(starts_from(*old(player), q0));
            *player = Some(p);
            ActionOutcome::Action
        },
        ActionType::SetSlot { slot, item, count } => {
            let mut p = take_player(world, player);
            let ghost q = p;
            match item {
                Some(id) => {
                    let it = Item::with_count(id.as_str(), *count);
                    p.set_slot(*slot, Some(&it));
                    assert(stack_of(Some(it), opt_text(*item), *count));
                    assert(W::Player::slot_set(q, p, *slot, Some(it)));
                    assert(slot_written(*old(player), p, *slot, opt_text(*item), *count));
                },
                None => {
                    p.set_slot(*slot, None);
                    assert(stack_of(None, opt_text(*item), *count));
                    assert(W::Player::slot_set(q, p, *slot, None));
                    assert(slot_written(*old(player), p, *slot, opt_text(*item), *count));
                },
            }
            *player = Some(p);
            ActionOutcome::Action
        },
        ActionType::SelectHotbar { hotbar } => {
            let mut p = take_player(world, player);
            p.select_hotbar(*hotbar);
            *player = Some(p);
            ActionOutcome::Action
        },
    }
}

/// Whether a scheduled entry is an assertion.
pub open spec fn is_assert_entry() -> spec_fn(ScheduledView) -> bool {
    |e: ScheduledView| e.action is Assert
}

/// The ticks of the assertions of a schedule, in order.
pub open spec fn pass_ticks(s: Seq<ScheduledView>) -> Seq<u32> {
    s.filter(is_assert_entry()).map_values(|e: ScheduledView| e.tick)
}

/// The ticks of the assertions that run before tick `t`, bucket by bucket.
pub open spec fn passes_before(sched: Seq<ScheduledView>, t: nat) -> Seq<u32>
    decreases t,
{
    if t == 0 {
        seq![]
    } else {
        passes_before(sched, (t - 1) as nat) + pass_ticks(at_tick(sched, (t - 1) as u32))
    }
}

/// One passed outcome per tick.
pub open spec fn successes(ticks: Seq<u32>) -> Seq<AssertionResult> {
    ticks.map_values(|t: u32| AssertionResult::Success(t))
}

/// The schedule of a single test run in place.
pub open spec fn schedule_of(spec: TestSpec) -> Seq<ScheduledView> {
    spec_entries(spec, 0, (0, 0, 0))
}

/// Whether the position and expected block of `f` are those of a check of an
/// assertion scheduled at the tick of `f`.
pub open spec fn failure_is_scheduled(sched: Seq<ScheduledView>, f: AssertFailure) -> bool {
    let bucket = at_tick(sched, f.tick);
    exists|e: int|
        0 <= e < bucket.len() && match #[trigger] bucket[e].action {
            ActionView::Assert { checks } => exists|c: int|
                0 <= c < checks.len() && coords(f.position) == #[trigger] checks[c].0
                    && f.expected@ == expected_state(checks[c].1),
            _ => false,
        }
}

/// What the result of running `spec` is: when every assertion holds, one
/// passed outcome per assertion in schedule order and every tick run; else
/// the passed outcomes of a prefix of that order, then a failure, which ends
/// the run at its tick.
pub open spec fn result_of_run(spec: TestSpec, r: TestResult) -> bool {
    let sched = schedule_of(spec);
    let max = highest_tick(sched);
    &&& r.test_name@ == spec.name@
    &&& r.success ==> r.assertions@ == successes(passes_before(sched, max as nat + 1))
        && r.total_ticks == max
    &&& !r.success ==> {
        &&& r.assertions@.len() > 0
        &&& r.total_ticks <= max
        &&& exists|n: int|
            0 <= n <= passes_before(sched, max as nat + 1).len() && r.assertions@.drop_last()
                == successes(#[trigger] passes_before(sched, max as nat + 1).subrange(0, n))
        &&& match r.assertions@.last() {
            AssertionResult::Failure(f) => f.tick == r.total_ticks && failure_is_scheduled(sched, f),
            AssertionResult::Success(_) => false,
        }
    }
}

proof fn lemma_pass_ticks_prefix(s: Seq<ScheduledView>, k: int)
    requires
        0 <= k <= s.len(),
    ensures
        pass_ticks(s.subrange(0, k)).len() <= pass_ticks(s).len(),
        pass_ticks(s.subrange(0, k)) == pass_ticks(s).subrange(
            0,
            pass_ticks(s.subrange(0, k)).len() as int,
        ),
{
    let a = s.subrange(0, k);
    let b = s.subrange(k, s.len() as int);
    assert(s =~= a + b);
    Seq::filter_distributes_over_add(a, b, is_assert_entry());
    assert(pass_ticks(s) =~= pass_ticks(a) + pass_ticks(b));
    assert(pass_ticks(a) =~= pass_ticks(s).subrange(0, pass_ticks(a).len() as int));
}

proof fn lemma_passes_before_prefix(sched: Seq<ScheduledView>, t: nat, u: nat)
    requires
        t <= u,
    ensures
        passes_before(sched, t).len() <= passes_before(sched, u).len(),
        passes_before(sched, t) == passes_before(sched, u).subrange(
            0,
            passes_before(sched, t).len() as int,
        ),
    decreases u,
{
    if t == u {
        assert(passes_before(sched, t) =~= passes_before(sched, u).subrange(
            0,
            passes_before(sched, t).len() as int,
        ));
    } else {
        lemma_passes_before_prefix(sched, t, (u - 1) as nat);
        let p = passes_before(sched, (u - 1) as nat);
        assert(passes_before(sched, u) == p + pass_ticks(at_tick(sched, (u - 1) as u32)));
        assert(passes_before(sched, t) =~= passes_before(sched, u).subrange(
            0,
            passes_before(sched, t).len() as int,
        ));
    }
}

proof fn lemma_zero_offset_fits(a: ActionType)
    ensures
        a@.shift_fits((0, 0, 0)),
{
    let v = a@;
    assert forall|i: int| 0 <= i < v.positions().len() implies coords_fit_zero(v.positions()[i]) by {
        match a {
            ActionType::PlaceEach { blocks } => {
                assert(v.positions()[i] == coords(blocks@[i].pos));
            },
            ActionType::Assert { checks } => {
                assert(v.positions()[i] == coords(checks@[i].pos));
            },
            _ => {},
        }
    }
    assert forall|i: int| 0 <= i < v.positions().len() implies crate::test_spec::coords_fit(
        #[trigger] crate::test_spec::shift(v.positions()[i], (0, 0, 0)),
    ) by {
        assert(coords_fit_zero(v.positions()[i]));
    }
}

spec fn coords_fit_zero(p: Coords) -> bool {
    crate::test_spec::coords_fit(crate::test_spec::shift(p, (0, 0, 0)))
}

/// One event of a run: an action of the schedule, or the end of a tick.
pub enum RunEvent {
    Act(ScheduledView),
    Tick,
}

/// The events of ticks `0` to `t - 1`: each tick's bucket in order, then the
/// end of the tick.
pub open spec fn events_upto(sched: Seq<ScheduledView>, t: nat) -> Seq<RunEvent>
    decreases t,
{
    if t == 0 {
        seq![]
    } else {
        events_upto(sched, (t - 1) as nat) + at_tick(sched, (t - 1) as u32).map_values(
            |e: ScheduledView| RunEvent::Act(e),
        ) + seq![RunEvent::Tick]
    }
}

/// What one event of a run does: an action as `execute_action` states it, or
/// one tick of the world with the player left alone.
pub open spec fn step_ok<W: FlintWorld>(
    ev: RunEvent,
    w0: W,
    w1: W,
    player_start: Option<W::Player>,
    player_end: Option<W::Player>,
    out: ActionOutcome,
) -> bool {
    match ev {
        RunEvent::Act(e) => action_done(e.action, e.tick, w0, w1, player_start, player_end, out),
        RunEvent::Tick => {
            &&& W::ticked(w0, w1)
            &&& w1.tick_count() == w0.tick_count() + 1
            &&& w1.players_created() == w0.players_created()
            &&& player_end == player_start
            &&& out is Action
        },
    }
}

/// Whether worlds `ws`, players `ps` and outcomes `outs` follow the events
/// `evs` one step at a time.
pub open spec fn trace_ok<W: FlintWorld>(
    evs: Seq<RunEvent>,
    ws: Seq<W>,
    ps: Seq<Option<W::Player>>,
    outs: Seq<ActionOutcome>,
) -> bool {
    &&& ws.len() == evs.len() + 1
    &&& ps.len() == evs.len() + 1
    &&& outs.len() == evs.len()
    &&& forall|i: int|
        0 <= i < evs.len() ==> #[trigger] step_ok(evs[i], ws[i], ws[i + 1], ps[i], ps[i + 1], outs[i])
}

/// The assertion outcomes that a trace records, in order.
pub open spec fn recorded(evs: Seq<RunEvent>, outs: Seq<ActionOutcome>) -> Seq<AssertionResult>
    decreases evs.len(),
{
    if evs.len() == 0 || outs.len() == 0 {
        seq![]
    } else {
        recorded(evs.drop_last(), outs.drop_last()) + match (evs.last(), outs.last()) {
            (RunEvent::Act(e), ActionOutcome::AssertPassed) => seq![AssertionResult::Success(e.tick)],
            (RunEvent::Act(e), ActionOutcome::AssertFailed(f)) => seq![AssertionResult::Failure(f)],
            _ => seq![],
        }
    }
}

/// Whether `r` is the result of running the schedule of `spec` from world
/// `w0` and player `player_start` to world `w1` and player `player_end`: the events run are the
/// whole run, or a prefix of it that ends with the first failed assertion;
/// every step is as `execute_action` and `do_tick` state it; the outcomes are
/// those the steps recorded; and the run succeeds exactly when no assertion
/// failed.
pub open spec fn run_trace<W: FlintWorld>(
    spec: TestSpec,
    w0: W,
    player_start: Option<W::Player>,
    w1: W,
    player_end: Option<W::Player>,
    r: TestResult,
) -> bool {
    let sched = schedule_of(spec);
    let all = events_upto(sched, highest_tick(sched) as nat + 1);
    exists|n: int, ws: Seq<W>, ps: Seq<Option<W::Player>>, outs: Seq<ActionOutcome>|
        #[trigger] trace_ok(all.subrange(0, n), ws, ps, outs) && 0 <= n <= all.len() && ws[0] == w0
            && ps[0] == player_start && ws.last() == w1 && ps.last() == player_end && r.assertions@ == recorded(
            all.subrange(0, n),
            outs,
        ) && (forall|i: int| 0 <= i < n - 1 ==> !(#[trigger] outs[i] is AssertFailed)) && (
        r.success <==> (n == all.len() && (n == 0 || !(outs[n - 1] is AssertFailed))))
            && (!r.success ==> n > 0 && outs[n - 1] is AssertFailed)
}

/// Whether `qs` is the chain of players that putting `inv` into the inventory
/// slot by slot goes through.
pub open spec fn inventory_chain<P: FlintPlayer>(
    qs: Seq<P>,
    inv: Seq<(PlayerSlot, crate::test_spec::SlotConfig)>,
) -> bool {
    &&& qs.len() == inv.len() + 1
    &&& forall|i: int|
        0 <= i < inv.len() ==> #[trigger] slot_written(
            Some(qs[i]),
            qs[i + 1],
            inv[i].0,
            Some(inv[i].1.item@),
            inv[i].1.count,
        )
}

/// What the setup of `spec` does: without a player setup, nothing; with one,
/// the player (created if there is none) gets each configured stack, slot by
/// slot, then the configured hotbar slot is selected. The world's blocks and
/// tick are left alone.
pub open spec fn setup_done<W: FlintWorld>(
    spec: TestSpec,
    w0: W,
    player_start: Option<W::Player>,
    w1: W,
    player_end: Option<W::Player>,
) -> bool {
    if spec.has_player_setup() {
        let pc = spec.setup->0.player->0;
        &&& w1.tick_count() == w0.tick_count()
        &&& forall|c: Coords| #[trigger] w1.block_at(c) == w0.block_at(c)
        &&& player_step(w0, w1, player_start, player_end, true)
        &&& exists|qs: Seq<W::Player>|
            #[trigger] inventory_chain(qs, pc.inventory@) && starts_from(player_start, qs[0]) && (
            player_end->0.selected() == if 1 <= pc.selected_hotbar <= 9 {
                pc.selected_hotbar
            } else {
                qs.last().selected()
            }) && forall|s: PlayerSlot| #[trigger] player_end->0.slot_item(s) == qs.last().slot_item(s)
    } else {
        w1 == w0 && player_end == player_start
    }
}

/// Everything a run of `spec` from world `w0` and player `player_start` to world `w1`
/// and player `player_end` states of its result: its shape, the setup, and the trace.
pub open spec fn runs<W: FlintWorld>(
    spec: TestSpec,
    w0: W,
    player_start: Option<W::Player>,
    w1: W,
    player_end: Option<W::Player>,
    r: TestResult,
) -> bool {
    &&& result_of_run(spec, r)
    &&& exists|ws: W, ps: Option<W::Player>|
        #[trigger] setup_done(spec, w0, player_start, ws, ps) && run_trace(spec, ws, ps, w1, player_end, r)
}

proof fn lemma_trace_push<W: FlintWorld>(
    evs: Seq<RunEvent>,
    ws: Seq<W>,
    ps: Seq<Option<W::Player>>,
    outs: Seq<ActionOutcome>,
    ev: RunEvent,
    w: W,
    p: Option<W::Player>,
    o: ActionOutcome,
)
    requires
        trace_ok(evs, ws, ps, outs),
        step_ok(ev, ws.last(), w, ps.last(), p, o),
    ensures
        trace_ok(evs.push(ev), ws.push(w), ps.push(p), outs.push(o)),
        recorded(evs.push(ev), outs.push(o)) == recorded(evs, outs) + match (ev, o) {
            (RunEvent::Act(e), ActionOutcome::AssertPassed) => seq![AssertionResult::Success(e.tick)],
            (RunEvent::Act(e), ActionOutcome::AssertFailed(f)) => seq![AssertionResult::Failure(f)],
            _ => seq![],
        },
{
    let nevs = evs.push(ev);
    let nws = ws.push(w);
    let nps = ps.push(p);
    let nouts = outs.push(o);
    assert forall|i: int| 0 <= i < nevs.len() implies #[trigger] step_ok(
        nevs[i],
        nws[i],
        nws[i + 1],
        nps[i],
        nps[i + 1],
        nouts[i],
    ) by {
        if i < evs.len() {
            assert(nevs[i] == evs[i] && nws[i] == ws[i] && nws[i + 1] == ws[i + 1] && nps[i] == ps[i]
                && nps[i + 1] == ps[i + 1] && nouts[i] == outs[i]);
        } else {
            assert(nevs[i] == ev && nws[i] == ws.last() && nws[i + 1] == w && nps[i] == ps.last()
                && nps[i + 1] == p && nouts[i] == o);
        }
    }
    assert(nevs.drop_last() =~= evs);
    assert(nouts.drop_last() =~= outs);
}

proof fn lemma_events_prefix(sched: Seq<ScheduledView>, t: nat, u: nat)
    requires
        t <= u,
    ensures
        events_upto(sched, t).len() <= events_upto(sched, u).len(),
        events_upto(sched, t) == events_upto(sched, u).subrange(0, events_upto(sched, t).len() as int),
    decreases u,
{
    if t == u {
        assert(events_upto(sched, t) =~= events_upto(sched, u).subrange(
            0,
            events_upto(sched, t).len() as int,
        ));
    } else {
        lemma_events_prefix(sched, t, (u - 1) as nat);
        assert(events_upto(sched, t) =~= events_upto(sched, u).subrange(
            0,
            events_upto(sched, t).len() as int,
        ));
    }
}

/// Runs `spec` on `world`, from setup to the last tick or the first failed
/// assertion. The player, if the test needs one, is created once and left in
/// `player`.
pub fn run_spec<W: FlintWorld>(world: &mut W, player: &mut Option<W::Player>, spec: &TestSpec) -> (r:
    TestResult)
    requires
        old(world).tick_count() <= u32::MAX,
    ensures
        runs(*spec, *old(world), *old(player), *final(world), *final(player), r),
        *old(player) is Some ==> *final(player) is Some,
        spec.has_player_setup() ==> *final(player) is Some,
        final(world).players_created() == old(world).players_created() + if *old(player) is None
            && *final(player) is Some {
            1nat
        } else {
            0nat
        },
        r.success ==> final(world).tick_count() == old(world).tick_count() + r.total_ticks + 1,
        !r.success ==> final(world).tick_count() == old(world).tick_count() + r.total_ticks,
{
    let ghost t0 = world.tick_count();
    let ghost pc0 = world.players_created();
    let ghost player_before = *player;
    let ghost world_before = *world;
    let zero: BlockPos = [0, 0, 0];
    let tests = vec![(spec, zero)];
    proof {
        assert(coords(zero) == (0int, 0int, 0int));
        assert forall|i: int, j: int|
            0 <= i < tests@.len() && 0 <= j < tests@[i].0.timeline@.len() implies
            #[trigger] tests@[i].0.timeline@[j].action_type@.shift_fits(coords(tests@[i].1)) by {
            lemma_zero_offset_fits(tests@[i].0.timeline@[j].action_type);
        }
    }
    let timeline = TimelineAggregate::from_tests(tests.as_slice());
    let ghost sched = schedule_of(*spec);
    proof {
        let ts = tests@;
        assert(ts.drop_last() =~= Seq::<(&TestSpec, BlockPos)>::empty());
        assert(merged(ts.drop_last()) =~= Seq::<ScheduledView>::empty());
        assert(merged(ts) =~= sched);
    }
    let mut result = TestResult::new(spec.name.as_str());
    if let Some(setup) = &spec.setup {
        if let Some(pc) = &setup.player {
            let mut p = take_player(world, player);
            let ghost mut qs: Seq<W::Player> = seq![p];
            let mut i: usize = 0;
            while i < pc.inventory.len()
                invariant
                    i <= pc.inventory@.len(),
                    qs.len() == i + 1,
                    qs.last() == p,
                    inventory_chain(qs, pc.inventory@.subrange(0, i as int)),
                    starts_from(player_before, qs[0]),
                decreases pc.inventory@.len() - i,
            {
                let (slot, cfg) = &pc.inventory[i];
                let it = Item::with_count(cfg.item.as_str(), cfg.count);
                let ghost q = p;
                p.set_slot(*slot, Some(&it));
                proof {
                    assert(stack_of(Some(it), Some(cfg.item@), cfg.count));
                    assert(W::Player::slot_set(q, p, *slot, Some(it)));
                    assert(slot_written(Some(q), p, *slot, Some(cfg.item@), cfg.count));
                    let inv = pc.inventory@;
                    let nqs = qs.push(p);
                    assert(inv[i as int] == (*slot, *cfg));
                    assert forall|j: int| 0 <= j < i + 1 implies #[trigger] slot_written(
                        Some(nqs[j]),
                        nqs[j + 1],
                        inv.subrange(0, i + 1)[j].0,
                        Some(inv.subrange(0, i + 1)[j].1.item@),
                        inv.subrange(0, i + 1)[j].1.count,
                    ) by {
                        if j < i {
                            assert(nqs[j] == qs[j] && nqs[j + 1] == qs[j + 1]);
                            assert(inv.subrange(0, i + 1)[j] == inv.subrange(0, i as int)[j]);
                        } else {
                            assert(nqs[j] == q && nqs[j + 1] == p);
                        }
                    }
                    qs = nqs;
                }
                i = i + 1;
            }
            let ghost last = p;
            p.select_hotbar(pc.selected_hotbar);
            *player = Some(p);
            proof {
                assert(pc.inventory@.subrange(0, pc.inventory@.len() as int) =~= pc.inventory@);
                assert(spec.setup->0.player->0 == *pc);
                assert(setup_done(*spec, world_before, player_before, *world, *player));
            }
        }
    }
    let ghost w_set = *world;
    let ghost player_set_up = *player;
    proof {
        if !spec.has_player_setup() {
            assert(setup_done(*spec, world_before, player_before, w_set, player_set_up));
        }
    }
    let ghost all = events_upto(sched, highest_tick(sched) as nat + 1);
    let ghost mut evs: Seq<RunEvent> = seq![];
    let ghost mut ws: Seq<W> = seq![*world];
    let ghost mut ps: Seq<Option<W::Player>> = seq![*player];
    let ghost mut outs: Seq<ActionOutcome> = seq![];
    let max = timeline.max_tick;
    let mut tick: u32 = 0;
    proof {
        assert(events_upto(sched, 0) =~= evs);
    }
    loop
        invariant_except_break
            world.tick_count() == t0 + tick,
            result.assertions@ == successes(passes_before(sched, tick as nat)),
            evs == events_upto(sched, tick as nat),
        invariant
            pc0 == old(world).players_created(),
            player_before == *old(player),
            world_before == *old(world),
            t0 == old(world).tick_count(),
            setup_done(*spec, world_before, player_before, w_set, player_set_up),
            all == events_upto(sched, highest_tick(sched) as nat + 1),
            timeline@ == sched,
            sched == schedule_of(*spec),
            max == highest_tick(sched),
            tick <= max,
            t0 <= u32::MAX,
            result.test_name@ == spec.name@,
            result.success,
            player_before is Some ==> player_set_up is Some,
            spec.has_player_setup() ==> player_set_up is Some,
            player_set_up is Some ==> *player is Some,
            world.players_created() == pc0 + if player_before is None && *player is Some {
                1nat
            } else {
                0nat
            },
            trace_ok(evs, ws, ps, outs),
            ws[0] == w_set,
            ps[0] == player_set_up,
            ws.last() == *world,
            ps.last() == *player,
            result.assertions@ == recorded(evs, outs),
            forall|i: int| 0 <= i < outs.len() ==> !(#[trigger] outs[i] is AssertFailed),
        ensures
            tick == max,
            world.tick_count() == t0 + max + 1,
            result.assertions@ == successes(passes_before(sched, max as nat + 1)),
            evs == all,
        decreases max - tick,
    {
        let bucket = timeline.bucket(tick);
        let ghost bv = bucket@.map_values(|e: &crate::timeline::ScheduledEntry| e@);
        let ghost evs_tick = evs;
        let mut k: usize = 0;
        proof {
            assert(evs =~= evs_tick + bv.subrange(0, 0).map_values(|e: ScheduledView| RunEvent::Act(e)));
        }
        while k < bucket.len()
            invariant
                pc0 == old(world).players_created(),
                player_before == *old(player),
                world_before == *old(world),
                t0 == old(world).tick_count(),
                setup_done(*spec, world_before, player_before, w_set, player_set_up),
                all == events_upto(sched, highest_tick(sched) as nat + 1),
                sched == schedule_of(*spec),
                max == highest_tick(sched),
                bv == bucket@.map_values(|e: &crate::timeline::ScheduledEntry| e@),
                bv == at_tick(sched, tick),
                k <= bv.len(),
                tick <= max,
                t0 <= u32::MAX,
                world.tick_count() == t0 + tick,
                result.test_name@ == spec.name@,
                result.success,
                result.assertions@ == successes(
                    passes_before(sched, tick as nat) + pass_ticks(bv.subrange(0, k as int)),
                ),
                player_before is Some ==> player_set_up is Some,
                spec.has_player_setup() ==> player_set_up is Some,
                player_set_up is Some ==> *player is Some,
                world.players_created() == pc0 + if player_before is None && *player is Some {
                    1nat
                } else {
                    0nat
                },
                evs_tick == events_upto(sched, tick as nat),
                evs == evs_tick + bv.subrange(0, k as int).map_values(
                    |e: ScheduledView| RunEvent::Act(e),
                ),
                trace_ok(evs, ws, ps, outs),
                ws[0] == w_set,
                ps[0] == player_set_up,
                ws.last() == *world,
                ps.last() == *player,
                result.assertions@ == recorded(evs, outs),
                forall|i: int| 0 <= i < outs.len() ==> !(#[trigger] outs[i] is AssertFailed),
            decreases bv.len() - k,
        {
            let entry = bucket[k];
            let ghost before = result.assertions@;
            let ghost w_before = *world;
            let ghost p_before = *player;
            let out = execute_action(world, player, &entry.entry.action_type, tick);
            let ghost g_out = out;
            proof {
                let sub = bv.subrange(0, k as int);
                assert(bv.subrange(0, k + 1) =~= sub.push(bv[k as int]));
                sub.lemma_filter_push(bv[k as int], is_assert_entry());
                sched.lemma_filter_pred(|e: ScheduledView| e.tick == tick, k as int);
                assert(bv[k as int] == entry@);
                let ev = RunEvent::Act(bv[k as int]);
                assert(step_ok(ev, ws.last(), *world, ps.last(), *player, g_out));
                lemma_trace_push(evs, ws, ps, outs, ev, *world, *player, g_out);
                assert(evs.push(ev) =~= evs_tick + bv.subrange(0, k + 1).map_values(
                    |e: ScheduledView| RunEvent::Act(e),
                ));
            }
            match out {
                ActionOutcome::Action => {
                    proof {
                        let sub = bv.subrange(0, k as int);
                        assert(pass_ticks(bv.subrange(0, k + 1)) =~= pass_ticks(sub));
                        let ev = RunEvent::Act(bv[k as int]);
                        assert(recorded(evs.push(ev), outs.push(g_out)) =~= recorded(evs, outs));
                        let nouts = outs.push(g_out);
                        assert forall|i: int| 0 <= i < nouts.len() implies !(#[trigger] nouts[i] is AssertFailed) by {
                            if i < outs.len() { assert(nouts[i] == outs[i]); }
                        }
                        evs = evs.push(ev);
                        ws = ws.push(*world);
                        ps = ps.push(*player);
                        outs = nouts;
                    }
                },
                ActionOutcome::AssertPassed => {
                    result.add_assertion(AssertionResult::Success(tick));
                    proof {
                        let sub = bv.subrange(0, k as int);
                        assert(pass_ticks(bv.subrange(0, k + 1)) =~= pass_ticks(sub).push(tick));
                        assert(result.assertions@ =~= successes(
                            passes_before(sched, tick as nat) + pass_ticks(bv.subrange(0, k + 1)),
                        ));
                        let ev = RunEvent::Act(bv[k as int]);
                        assert(bv[k as int].tick == tick);
                        assert(recorded(evs.push(ev), outs.push(g_out)) =~= recorded(evs, outs).push(
                            AssertionResult::Success(tick),
                        ));
                        let nouts = outs.push(g_out);
                        assert forall|i: int| 0 <= i < nouts.len() implies !(#[trigger] nouts[i] is AssertFailed) by {
                            if i < outs.len() { assert(nouts[i] == outs[i]); }
                        }
                        evs = evs.push(ev);
                        ws = ws.push(*world);
                        ps = ps.push(*player);
                        outs = nouts;
                    }
                },
                ActionOutcome::AssertFailed(f) => {
                    proof {
                        match entry@.action {
                            ActionView::Assert { checks } => {
                                let c = choose|c: int| #[trigger] fails_first_at(w_before, checks, f, c);
                                assert(coords(f.position) == checks[c].0);
                                assert(bv[k as int].action == entry@.action);
                                assert(failure_is_scheduled(sched, f));
                            },
                            _ => {},
                        }
                    }
                    result.add_assertion(AssertionResult::Failure(f));
                    result.success = false;
                    result.total_ticks = tick;
                    proof {
                        let full = passes_before(sched, max as nat + 1);
                        let pb = passes_before(sched, tick as nat);
                        let pt = pass_ticks(bv.subrange(0, k as int));
                        lemma_pass_ticks_prefix(bv, k as int);
                        lemma_passes_before_prefix(sched, tick as nat + 1, max as nat + 1);
                        assert(passes_before(sched, tick as nat + 1) == pb + pass_ticks(bv));
                        let n = pb.len() + pt.len();
                        assert(pb + pt =~= full.subrange(0, n as int));
                        assert(result.assertions@.drop_last() =~= before);
                        assert(result.assertions@.drop_last() == successes(full.subrange(0, n as int)));
                        assert(world.players_created() == pc0 + if player_before is None
                            && *player is Some {
                            1nat
                        } else {
                            0nat
                        });
                        // the trace so far is a prefix of the whole run
                        let ev = RunEvent::Act(bv[k as int]);
                        let nevs = evs.push(ev);
                        let nws = ws.push(*world);
                        let nps = ps.push(*player);
                        let nouts = outs.push(g_out);
                        assert(recorded(nevs, nouts) =~= recorded(evs, outs).push(
                            AssertionResult::Failure(f),
                        ));
                        let tb = bv.map_values(|e: ScheduledView| RunEvent::Act(e));
                        let nxt = events_upto(sched, tick as nat + 1);
                        assert(nxt == evs_tick + tb + seq![RunEvent::Tick]);
                        assert(nevs =~= nxt.subrange(0, nevs.len() as int));
                        lemma_events_prefix(sched, tick as nat + 1, max as nat + 1);
                        assert(nevs =~= all.subrange(0, nevs.len() as int));
                        assert(nevs.len() < all.len());
                        assert forall|i: int| 0 <= i < nevs.len() - 1 implies !(#[trigger] nouts[i] is AssertFailed) by {
                            assert(nouts[i] == outs[i]);
                        }
                        assert(nouts[nevs.len() - 1] == g_out);
                        assert(trace_ok(all.subrange(0, nevs.len() as int), nws, nps, nouts));
                        assert(run_trace(*spec, w_set, player_set_up, *world, *player, result));
                    }
                    return result;
                },
            }
            k = k + 1;
        }
        proof {
            assert(bv.subrange(0, bv.len() as int) =~= bv);
            assert(passes_before(sched, tick as nat + 1) == passes_before(sched, tick as nat)
                + pass_ticks(at_tick(sched, tick)));
        }
        let ghost w_mid = *world;
        world.do_tick();
        proof {
            let ev = RunEvent::Tick;
            assert(step_ok(ev, ws.last(), *world, ps.last(), *player, ActionOutcome::Action));
            lemma_trace_push(evs, ws, ps, outs, ev, *world, *player, ActionOutcome::Action);
            let nouts = outs.push(ActionOutcome::Action);
            assert forall|i: int| 0 <= i < nouts.len() implies !(#[trigger] nouts[i] is AssertFailed) by {
                if i < outs.len() { assert(nouts[i] == outs[i]); }
            }
            assert(recorded(evs.push(ev), nouts) =~= recorded(evs, outs));
            assert(events_upto(sched, tick as nat + 1) =~= evs.push(ev));
            evs = evs.push(ev);
            ws = ws.push(*world);
            ps = ps.push(*player);
            outs = nouts;
        }
        if tick == max {
            break;
        }
        tick = tick + 1;
    }
    result.total_ticks = max;
    proof {
        assert(all.subrange(0, all.len() as int) =~= all);
        assert(trace_ok(all.subrange(0, all.len() as int), ws, ps, outs));
        assert(run_trace(*spec, w_set, player_set_up, *world, *player, result));
    }
    result
}

/// Two runs of the same test that both succeed report the same outcomes, in
/// the same order, after the same number of ticks.
pub proof fn lemma_successful_runs_agree(spec: TestSpec, a: TestResult, b: TestResult)
    requires
        result_of_run(spec, a),
        result_of_run(spec, b),
        a.success,
        b.success,
    ensures
        a.assertions@ == b.assertions@,
        a.total_ticks == b.total_ticks,
        a.test_name@ == b.test_name@,
{
}

/// Whether `w` is a world as an adapter makes it: at tick 0, without
/// players, and air everywhere.
pub open spec fn fresh_world<W: FlintWorld>(w: W) -> bool {
    &&& w.tick_count() == 0
    &&& w.players_created() == 0
    &&& forall|p: Coords| #[trigger] w.block_at(p) == crate::traits::air_state()
}

/// Whether `r` is the result of running `spec` from a fresh world of kind
/// `W` with no player to start with.
pub open spec fn ran_fresh<W: FlintWorld>(spec: TestSpec, r: TestResult) -> bool {
    exists|w0: W, w1: W, player_end: Option<W::Player>|
        #[trigger] runs(spec, w0, None, w1, player_end, r) && fresh_world(w0)
}

/// Runs tests against worlds that an adapter makes, one fresh world per test.
pub struct TestRunner<'a, A: FlintAdapter> {
    pub adapter: &'a A,
}

impl<'a, A: FlintAdapter> TestRunner<'a, A> {
    pub fn new(adapter: &'a A) -> (r: TestRunner<'a, A>)
        ensures
            r.adapter == adapter,
    {
        TestRunner { adapter }
    }

    /// Runs one test in a fresh world, with no player to start with, and
    /// measures how long it took.
    pub fn run_test(&self, spec: &TestSpec) -> (r: TestResult)
        ensures
            result_of_run(*spec, r),
            ran_fresh::<A::World>(*spec, r),
    {
        let start = std::time::Instant::now();
        let mut world = self.adapter.create_test_world();
        let ghost w0 = world;
        let mut player: Option<<A::World as FlintWorld>::Player> = None;
        let mut result = run_spec(&mut world, &mut player, spec);
        assert(runs(*spec, w0, None, world, player, result));
        let ms = start.elapsed().as_millis();
        result.execution_time_ms = if ms > u64::MAX as u128 {
            u64::MAX
        } else {
            ms as u64
        };
        assert(runs(*spec, w0, None, world, player, result));
        result
    }

    /// Runs tests one after the other, each in its own world, and counts the
    /// results in input order.
    pub fn run_tests(&self, specs: &[TestSpec]) -> (r: TestSummary)
        ensures
            r.results@.len() == specs@.len(),
            forall|i: int| 0 <= i < specs@.len() ==> result_of_run(specs@[i], #[trigger] r.results@[i]),
            forall|i: int|
                0 <= i < specs@.len() ==> #[trigger] ran_fresh::<A::World>(specs@[i], r.results@[i]),
            r.total_tests == specs@.len(),
            r.passed_tests == crate::results::count_passed(r.results@),
            r.failed_tests == specs@.len() - crate::results::count_passed(r.results@),
    {
        let mut results: Vec<TestResult> = Vec::new();
        let mut i: usize = 0;
        while i < specs.len()
            invariant
                i <= specs@.len(),
                results@.len() == i,
                forall|j: int| 0 <= j < i ==> result_of_run(specs@[j], #[trigger] results@[j]),
                forall|j: int|
                    0 <= j < i ==> #[trigger] ran_fresh::<A::World>(specs@[j], results@[j]),
            decreases specs@.len() - i,
        {
            let r = self.run_test(&specs[i]);
            results.push(r);
            i = i + 1;
        }
        TestSummary::from_results(results)
    }
}

} // verus!
