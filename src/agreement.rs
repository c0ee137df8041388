//! Runs against the in-memory backend are deterministic: two runs of one test
//! from fresh worlds agree on every outcome.
use vstd::prelude::*;

use crate::mock::MockWorld;
use crate::results::{AssertFailure, AssertionResult, TestResult};
use crate::runner::{
    all_checks_hold, box_writes, check_holds, fails_first_at, fresh_world,
    high_corner, low_corner, ran_fresh, recorded, run_trace, runs, setup_done, step_ok, trace_ok,
    write_chain, writes_all, ActionOutcome, RunEvent,
};
use crate::test_spec::{coords, ActionView, BlockPos, BlockView, Coords, TestSpec};
use crate::traits::{BlockState, FlintWorld};

verus! {

/// Whether two mock worlds read the same block everywhere.
pub open spec fn same_blocks(a: MockWorld, b: MockWorld) -> bool {
    forall|c: Coords| #[trigger] a.block_at(c) == b.block_at(c)
}

/// What a failure report says, as values.
pub open spec fn failure_view(f: AssertFailure) -> (u32, BlockPos, BlockState, BlockState, Seq<char>) {
    (f.tick, f.position, f.expected@, f.actual@, f.error_message@)
}

/// Whether two action outcomes say the same.
pub open spec fn same_outcome(a: ActionOutcome, b: ActionOutcome) -> bool {
    match (a, b) {
        (ActionOutcome::Action, ActionOutcome::Action) => true,
        (ActionOutcome::AssertPassed, ActionOutcome::AssertPassed) => true,
        (ActionOutcome::AssertFailed(f), ActionOutcome::AssertFailed(g)) => failure_view(f)
            == failure_view(g),
        _ => false,
    }
}

/// Whether two assertion outcomes say the same.
pub open spec fn same_assertion(a: AssertionResult, b: AssertionResult) -> bool {
    match (a, b) {
        (AssertionResult::Success(t), AssertionResult::Success(u)) => t == u,
        (AssertionResult::Failure(f), AssertionResult::Failure(g)) => failure_view(f)
            == failure_view(g),
        _ => false,
    }
}

proof fn lemma_coords_eq(p: BlockPos, q: BlockPos)
    requires
        coords(p) == coords(q),
    ensures
        p == q,
{
    assert(p =~= q);
}

proof fn lemma_chain_agree(
    ws: Seq<MockWorld>,
    vs: Seq<MockWorld>,
    wr: Seq<(Coords, BlockView)>,
    i: int,
)
    requires
        write_chain(ws, wr),
        write_chain(vs, wr),
        same_blocks(ws[0], vs[0]),
        0 <= i <= wr.len(),
    ensures
        same_blocks(ws[i], vs[i]),
    decreases i,
{
    if i > 0 {
        lemma_chain_agree(ws, vs, wr, i - 1);
        let j = i - 1;
        assert(MockWorld::placed(ws[j], ws[j + 1], wr[j].0, wr[j].1));
        assert(MockWorld::placed(vs[j], vs[j + 1], wr[j].0, wr[j].1));
        assert(j + 1 == i);
        assert forall|c: Coords| #[trigger] ws[i].block_at(c) == vs[i].block_at(c) by {
            if c != wr[i - 1].0 {
                assert(ws[i - 1].block_at(c) == vs[i - 1].block_at(c));
            }
        }
    }
}

proof fn lemma_writes_agree(
    a: MockWorld,
    a2: MockWorld,
    b: MockWorld,
    b2: MockWorld,
    wr: Seq<(Coords, BlockView)>,
)
    requires
        writes_all(a, a2, wr),
        writes_all(b, b2, wr),
        same_blocks(a, b),
    ensures
        same_blocks(a2, b2),
{
    let ws = choose|ws: Seq<MockWorld>| #[trigger] write_chain(ws, wr) && ws[0] == a && ws.last() == a2;
    let vs = choose|vs: Seq<MockWorld>| #[trigger] write_chain(vs, wr) && vs[0] == b && vs.last() == b2;
    lemma_chain_agree(ws, vs, wr, wr.len() as int);
}

proof fn lemma_step_agree(
    ev: RunEvent,
    a: MockWorld,
    a2: MockWorld,
    p: Option<crate::mock::MockPlayer>,
    p_after: Option<crate::mock::MockPlayer>,
    o: ActionOutcome,
    b: MockWorld,
    b2: MockWorld,
    q: Option<crate::mock::MockPlayer>,
    q_after: Option<crate::mock::MockPlayer>,
    o2: ActionOutcome,
)
    requires
        step_ok(ev, a, a2, p, p_after, o),
        step_ok(ev, b, b2, q, q_after, o2),
        same_blocks(a, b),
    ensures
        same_blocks(a2, b2),
        same_outcome(o, o2),
{
    match ev {
        RunEvent::Tick => {
            assert forall|c: Coords| #[trigger] a2.block_at(c) == b2.block_at(c) by {
                assert(a2.blocks@ == a.blocks@);
                assert(b2.blocks@ == b.blocks@);
                assert(a2.block_at(c) == a.block_at(c));
                assert(b2.block_at(c) == b.block_at(c));
            }
        },
        RunEvent::Act(e) => {
            let act = e.action;
            if act.touches_player() {
                assert forall|c: Coords| #[trigger] a2.block_at(c) == b2.block_at(c) by {
                    assert(a2.block_at(c) == a.block_at(c));
                    assert(b2.block_at(c) == b.block_at(c));
                }
            }
            match act {
                ActionView::Assert { checks } => {
                    assert forall|c: (Coords, BlockView)| check_holds(a, c) == check_holds(b, c) by {
                        assert(a.block_at(c.0) == b.block_at(c.0));
                    }
                    assert(all_checks_hold(a, checks) == all_checks_hold(b, checks)) by {
                        if all_checks_hold(a, checks) {
                            assert forall|i: int| 0 <= i < checks.len() implies check_holds(
                                b,
                                #[trigger] checks[i],
                            ) by {
                                assert(check_holds(a, checks[i]));
                            }
                        }
                        if all_checks_hold(b, checks) {
                            assert forall|i: int| 0 <= i < checks.len() implies check_holds(
                                a,
                                #[trigger] checks[i],
                            ) by {
                                assert(check_holds(b, checks[i]));
                            }
                        }
                    }
                    match (o, o2) {
                        (ActionOutcome::AssertFailed(f), ActionOutcome::AssertFailed(g)) => {
                            let k = choose|k: int| #[trigger] fails_first_at(a, checks, f, k);
                            let k2 = choose|k: int| #[trigger] fails_first_at(b, checks, g, k);
                            if k < k2 {
                                assert(check_holds(b, checks[k]));
                                assert(check_holds(a, checks[k]));
                            }
                            if k2 < k {
                                assert(check_holds(a, checks[k2]));
                                assert(check_holds(b, checks[k2]));
                            }
                            assert(k == k2);
                            lemma_coords_eq(f.position, g.position);
                            assert(a.block_at(checks[k].0) == b.block_at(checks[k].0));
                        },
                        _ => {},
                    }
                },
                ActionView::Place { pos, block } => {
                    assert forall|c: Coords| #[trigger] a2.block_at(c) == b2.block_at(c) by {
                        if c != pos {
                            assert(a.block_at(c) == b.block_at(c));
                        }
                    }
                },
                ActionView::Remove { pos } => {
                    assert forall|c: Coords| #[trigger] a2.block_at(c) == b2.block_at(c) by {
                        if c != pos {
                            assert(a.block_at(c) == b.block_at(c));
                        }
                    }
                },
                ActionView::PlaceEach { blocks } => {
                    lemma_writes_agree(a, a2, b, b2, blocks);
                },
                ActionView::Fill { from, to, with } => {
                    lemma_writes_agree(
                        a,
                        a2,
                        b,
                        b2,
                        box_writes(low_corner(from, to), high_corner(from, to), with),
                    );
                },
                _ => {},
            }
        },
    }
}

proof fn lemma_traces_agree(
    evs: Seq<RunEvent>,
    ws: Seq<MockWorld>,
    ps: Seq<Option<crate::mock::MockPlayer>>,
    outs: Seq<ActionOutcome>,
    vs: Seq<MockWorld>,
    qs: Seq<Option<crate::mock::MockPlayer>>,
    outs2: Seq<ActionOutcome>,
    i: int,
)
    requires
        trace_ok(evs, ws, ps, outs),
        trace_ok(evs, vs, qs, outs2),
        same_blocks(ws[0], vs[0]),
        0 <= i <= evs.len(),
    ensures
        same_blocks(ws[i], vs[i]),
        forall|j: int| 0 <= j < i ==> #[trigger] same_outcome(outs[j], outs2[j]),
    decreases i,
{
    if i > 0 {
        lemma_traces_agree(evs, ws, ps, outs, vs, qs, outs2, i - 1);
        let j = i - 1;
        assert(step_ok(evs[j], ws[j], ws[j + 1], ps[j], ps[j + 1], outs[j]));
        assert(step_ok(evs[j], vs[j], vs[j + 1], qs[j], qs[j + 1], outs2[j]));
        assert(j + 1 == i);
        lemma_step_agree(
            evs[i - 1],
            ws[i - 1],
            ws[i],
            ps[i - 1],
            ps[i],
            outs[i - 1],
            vs[i - 1],
            vs[i],
            qs[i - 1],
            qs[i],
            outs2[i - 1],
        );
    }
}

proof fn lemma_recorded_agree(evs: Seq<RunEvent>, outs: Seq<ActionOutcome>, outs2: Seq<ActionOutcome>)
    requires
        outs.len() == evs.len(),
        outs2.len() == evs.len(),
        forall|j: int| 0 <= j < evs.len() ==> #[trigger] same_outcome(outs[j], outs2[j]),
    ensures
        recorded(evs, outs).len() == recorded(evs, outs2).len(),
        forall|k: int|
            0 <= k < recorded(evs, outs).len() ==> #[trigger] same_assertion(
                recorded(evs, outs)[k],
                recorded(evs, outs2)[k],
            ),
    decreases evs.len(),
{
    if evs.len() > 0 {
        let e1 = evs.drop_last();
        let o1 = outs.drop_last();
        let o2 = outs2.drop_last();
        assert forall|j: int| 0 <= j < e1.len() implies #[trigger] same_outcome(o1[j], o2[j]) by {
            assert(same_outcome(outs[j], outs2[j]));
        }
        lemma_recorded_agree(e1, o1, o2);
        assert(same_outcome(outs.last(), outs2.last()));
        let r1 = recorded(evs, outs);
        let r2 = recorded(evs, outs2);
        let b1 = recorded(e1, o1);
        assert forall|k: int| 0 <= k < r1.len() implies #[trigger] same_assertion(r1[k], r2[k]) by {
            if k < b1.len() {
                assert(r1[k] == b1[k]);
                assert(r2[k] == recorded(e1, o2)[k]);
            }
        }
    }
}

/// Two runs of the same test, each from a fresh in-memory world with no player
/// to start with, agree: the same success, the same number of ticks, and the
/// same outcomes in the same order (ticks, positions, expected and actual
/// blocks, and messages).
pub proof fn lemma_mock_runs_agree(spec: TestSpec, r: TestResult, s: TestResult)
    requires
        ran_fresh::<MockWorld>(spec, r),
        ran_fresh::<MockWorld>(spec, s),
    ensures
        r.success == s.success,
        r.total_ticks == s.total_ticks,
        r.assertions@.len() == s.assertions@.len(),
        forall|k: int|
            0 <= k < r.assertions@.len() ==> #[trigger] same_assertion(
                r.assertions@[k],
                s.assertions@[k],
            ),
{
    let (a0, a1, ap) = choose|w0: MockWorld, w1: MockWorld, player_end: Option<crate::mock::MockPlayer>|
        #[trigger] runs(spec, w0, None, w1, player_end, r) && fresh_world(w0);
    let (b0, b1, bp) = choose|w0: MockWorld, w1: MockWorld, player_end: Option<crate::mock::MockPlayer>|
        #[trigger] runs(spec, w0, None, w1, player_end, s) && fresh_world(w0);
    let (aw, aq) = choose|ws: MockWorld, ps: Option<crate::mock::MockPlayer>|
        #[trigger] setup_done(spec, a0, None, ws, ps) && run_trace(spec, ws, ps, a1, ap, r);
    let (bw, bq) = choose|ws: MockWorld, ps: Option<crate::mock::MockPlayer>|
        #[trigger] setup_done(spec, b0, None, ws, ps) && run_trace(spec, ws, ps, b1, bp, s);
    assert(same_blocks(aw, bw)) by {
        assert forall|c: Coords| #[trigger] aw.block_at(c) == bw.block_at(c) by {
            assert(a0.block_at(c) == b0.block_at(c));
            if spec.has_player_setup() {
                assert(aw.block_at(c) == a0.block_at(c));
                assert(bw.block_at(c) == b0.block_at(c));
            }
        }
    }
    let sched = crate::runner::schedule_of(spec);
    let all = crate::runner::events_upto(sched, crate::timeline::highest_tick(sched) as nat + 1);
    let (n, ws, ps, outs) = choose|
        n: int,
        ws: Seq<MockWorld>,
        ps: Seq<Option<crate::mock::MockPlayer>>,
        outs: Seq<ActionOutcome>,
    |
        #[trigger] trace_ok(all.subrange(0, n), ws, ps, outs) && 0 <= n <= all.len() && ws[0] == aw
            && ps[0] == aq && ws.last() == a1 && ps.last() == ap && r.assertions@ == recorded(
            all.subrange(0, n),
            outs,
        ) && (forall|i: int| 0 <= i < n - 1 ==> !(#[trigger] outs[i] is AssertFailed)) && (
        r.success <==> (n == all.len() && (n == 0 || !(outs[n - 1] is AssertFailed))))
            && (!r.success ==> n > 0 && outs[n - 1] is AssertFailed);
    let (m, vs, qs, outs2) = choose|
        n: int,
        ws: Seq<MockWorld>,
        ps: Seq<Option<crate::mock::MockPlayer>>,
        outs: Seq<ActionOutcome>,
    |
        #[trigger] trace_ok(all.subrange(0, n), ws, ps, outs) && 0 <= n <= all.len() && ws[0] == bw
            && ps[0] == bq && ws.last() == b1 && ps.last() == bp && s.assertions@ == recorded(
            all.subrange(0, n),
            outs,
        ) && (forall|i: int| 0 <= i < n - 1 ==> !(#[trigger] outs[i] is AssertFailed)) && (
        s.success <==> (n == all.len() && (n == 0 || !(outs[n - 1] is AssertFailed))))
            && (!s.success ==> n > 0 && outs[n - 1] is AssertFailed);
    let short = if n <= m { n } else { m };
    let ev_short = all.subrange(0, short);
    // both traces restricted to the common prefix
    assert(trace_ok(ev_short, ws.subrange(0, short + 1), ps.subrange(0, short + 1), outs.subrange(0, short))) by {
        assert forall|i: int| 0 <= i < short implies #[trigger] step_ok(
            ev_short[i],
            ws.subrange(0, short + 1)[i],
            ws.subrange(0, short + 1)[i + 1],
            ps.subrange(0, short + 1)[i],
            ps.subrange(0, short + 1)[i + 1],
            outs.subrange(0, short)[i],
        ) by {
            assert(step_ok(all.subrange(0, n)[i], ws[i], ws[i + 1], ps[i], ps[i + 1], outs[i]));
        }
    }
    assert(trace_ok(ev_short, vs.subrange(0, short + 1), qs.subrange(0, short + 1), outs2.subrange(0, short))) by {
        assert forall|i: int| 0 <= i < short implies #[trigger] step_ok(
            ev_short[i],
            vs.subrange(0, short + 1)[i],
            vs.subrange(0, short + 1)[i + 1],
            qs.subrange(0, short + 1)[i],
            qs.subrange(0, short + 1)[i + 1],
            outs2.subrange(0, short)[i],
        ) by {
            assert(step_ok(all.subrange(0, m)[i], vs[i], vs[i + 1], qs[i], qs[i + 1], outs2[i]));
        }
    }
    lemma_traces_agree(
        ev_short,
        ws.subrange(0, short + 1),
        ps.subrange(0, short + 1),
        outs.subrange(0, short),
        vs.subrange(0, short + 1),
        qs.subrange(0, short + 1),
        outs2.subrange(0, short),
        short,
    );
    assert forall|j: int| 0 <= j < short implies #[trigger] same_outcome(outs[j], outs2[j]) by {
        assert(same_outcome(outs.subrange(0, short)[j], outs2.subrange(0, short)[j]));
    }
    if n < m {
        assert(!r.success);
        assert(same_outcome(outs[n - 1], outs2[n - 1]));
        assert(!(outs2[n - 1] is AssertFailed));
    }
    if m < n {
        assert(!s.success);
        assert(same_outcome(outs[m - 1], outs2[m - 1]));
        assert(!(outs[m - 1] is AssertFailed));
    }
    assert(n == m);
    if n > 0 {
        assert(same_outcome(outs[n - 1], outs2[n - 1]));
    }
    lemma_recorded_agree(all.subrange(0, n), outs, outs2);
    if !r.success {
        let k = r.assertions@.len() - 1;
        assert(same_assertion(r.assertions@[k], s.assertions@[k]));
    }
}

} // verus!
