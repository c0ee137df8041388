//! Merging test timelines into one tick-ordered schedule.
use vstd::prelude::*;

use crate::test_spec::{
    coords, shift, ActionView, BlockPos, Coords, TestSpec, TimelineEntry,
};

verus! {

/// One scheduled action: the index of the test it comes from, the entry with
/// the test's offset applied, and the entry's index in that test's timeline.
#[derive(Debug)]
pub struct ScheduledEntry {
    pub test_index: usize,
    pub entry: TimelineEntry,
    pub value_index: usize,
}

/// A scheduled action as a value.
pub struct ScheduledView {
    pub test_index: int,
    pub tick: u32,
    pub action: ActionView,
    pub value_index: int,
}

impl View for ScheduledEntry {
    type V = ScheduledView;

    open spec fn view(&self) -> ScheduledView {
        ScheduledView {
            test_index: self.test_index as int,
            tick: self.entry.at,
            action: self.entry.action_type@,
            value_index: self.value_index as int,
        }
    }
}

/// The schedule that one test contributes, as test number `idx` moved by `o`.
pub open spec fn spec_entries(spec: TestSpec, idx: int, o: Coords) -> Seq<ScheduledView> {
    spec.timeline@.map(
        |j: int, e: TimelineEntry|
            ScheduledView {
                test_index: idx,
                tick: e.at,
                action: e.action_type@.shifted(o),
                value_index: j,
            },
    )
}

/// The merged schedule: every test's entries in order, test after test.
pub open spec fn merged(tests: Seq<(&TestSpec, BlockPos)>) -> Seq<ScheduledView>
    decreases tests.len(),
{
    if tests.len() == 0 {
        seq![]
    } else {
        merged(tests.drop_last()) + spec_entries(
            *tests.last().0,
            tests.len() - 1,
            coords(tests.last().1),
        )
    }
}

/// The highest tick in a schedule, 0 for an empty one.
pub open spec fn highest_tick(s: Seq<ScheduledView>) -> u32
    decreases s.len(),
{
    if s.len() == 0 {
        0
    } else if s.last().tick > highest_tick(s.drop_last()) {
        s.last().tick
    } else {
        highest_tick(s.drop_last())
    }
}

/// The entries of a schedule that run at tick `t`, in schedule order.
pub open spec fn at_tick(s: Seq<ScheduledView>, t: u32) -> Seq<ScheduledView> {
    s.filter(|e: ScheduledView| e.tick == t)
}

/// Whether every position of every test still fits in `i32`s once moved by
/// its test's offset.
pub open spec fn offsets_fit(tests: Seq<(&TestSpec, BlockPos)>) -> bool {
    forall|i: int, j: int|
        0 <= i < tests.len() && 0 <= j < tests[i].0.timeline@.len()
            ==> #[trigger] tests[i].0.timeline@[j].action_type@.shift_fits(coords(tests[i].1))
}

/// The merged, tick-indexed schedule of one or more tests.
#[derive(Debug)]
pub struct TimelineAggregate {
    /// Every scheduled action, in merge order.
    pub timeline: Vec<ScheduledEntry>,
    /// The highest tick that any action names, 0 if there is none.
    pub max_tick: u32,
}

impl View for TimelineAggregate {
    type V = Seq<ScheduledView>;

    open spec fn view(&self) -> Seq<ScheduledView> {
        self.timeline@.map_values(|e: ScheduledEntry| e@)
    }
}

impl TimelineAggregate {
    /// Whether the aggregate is the merge of `tests`.
    pub open spec fn merges(&self, tests: Seq<(&TestSpec, BlockPos)>) -> bool {
        &&& self@ == merged(tests)
        &&& self.max_tick == highest_tick(self@)
    }

    /// Merges tests, each moved by its offset, into one schedule.
    pub fn from_tests(tests: &[(&TestSpec, BlockPos)]) -> (r: TimelineAggregate)
        requires
            offsets_fit(tests@),
        ensures
            r.merges(tests@),
    {
        let mut out: Vec<ScheduledEntry> = Vec::new();
        let mut max_tick: u32 = 0;
        let mut i: usize = 0;
        while i < tests.len()
            invariant
                i <= tests@.len(),
                offsets_fit(tests@),
                out@.map_values(|e: ScheduledEntry| e@) == merged(tests@.subrange(0, i as int)),
                max_tick == highest_tick(out@.map_values(|e: ScheduledEntry| e@)),
            decreases tests@.len() - i,
        {
            let spec = tests[i].0;
            let offset = tests[i].1;
            let ghost before = out@.map_values(|e: ScheduledEntry| e@);
            let ghost mine = spec_entries(*spec, i as int, coords(offset));
            let mut j: usize = 0;
            while j < spec.timeline.len()
                invariant
                    i < tests@.len(),
                    j <= spec.timeline@.len(),
                    *spec == tests@[i as int].0,
                    offset == tests@[i as int].1,
                    offsets_fit(tests@),
                    mine == spec_entries(*spec, i as int, coords(offset)),
                    out@.map_values(|e: ScheduledEntry| e@) == before + mine.subrange(0, j as int),
                    max_tick == highest_tick(out@.map_values(|e: ScheduledEntry| e@)),
                decreases spec.timeline@.len() - j,
            {
                let e = &spec.timeline[j];
                assert(tests@[i as int].0.timeline@[j as int].action_type@.shift_fits(
                    coords(tests@[i as int].1),
                ));
                let action = e.action_type.shifted(offset);
                let item = ScheduledEntry {
                    test_index: i,
                    entry: TimelineEntry { at: e.at, action_type: action },
                    value_index: j,
                };
                let ghost prev = out@.map_values(|e: ScheduledEntry| e@);
                if e.at > max_tick {
                    max_tick = e.at;
                }
                out.push(item);
                j = j + 1;
                proof {
                    let now = out@.map_values(|e: ScheduledEntry| e@);
                    assert(now =~= prev.push(item@));
                    assert(now.drop_last() =~= prev);
                    assert(before + mine.subrange(0, j as int) =~= prev.push(item@));
                }
            }
            proof {
                let s1 = tests@.subrange(0, i + 1);
                assert(s1.drop_last() =~= tests@.subrange(0, i as int));
                assert(mine.subrange(0, mine.len() as int) =~= mine);
            }
            i = i + 1;
        }
        assert(tests@.subrange(0, tests@.len() as int) =~= tests@);
        TimelineAggregate { timeline: out, max_tick }
    }

    /// The actions scheduled at tick `t`, in schedule order.
    pub fn bucket(&self, t: u32) -> (r: Vec<&ScheduledEntry>)
        ensures
            r@.map_values(|e: &ScheduledEntry| e@) == at_tick(self@, t),
    {
        let mut out: Vec<&ScheduledEntry> = Vec::new();
        let mut i: usize = 0;
        while i < self.timeline.len()
            invariant
                i <= self.timeline@.len(),
                out@.map_values(|e: &ScheduledEntry| e@) == at_tick(self@.subrange(0, i as int), t),
            decreases self.timeline@.len() - i,
        {
            let e = &self.timeline[i];
            let ghost prev = out@.map_values(|e: &ScheduledEntry| e@);
            proof {
                let s = self@.subrange(0, i + 1);
                assert(s =~= self@.subrange(0, i as int).push(e@));
                self@.subrange(0, i as int).lemma_filter_push(e@, |e: ScheduledView| e.tick == t);
            }
            if e.entry.at == t {
                out.push(e);
                assert(out@.map_values(|e: &ScheduledEntry| e@) =~= prev.push(e@));
            }
            i = i + 1;
        }
        assert(self@.subrange(0, self@.len() as int) =~= self@);
        out
    }
}

/// Aggregating the same input twice gives the same schedule, bucket for
/// bucket and in the same order.
pub proof fn lemma_aggregation_deterministic(
    tests: Seq<(&TestSpec, BlockPos)>,
    a: TimelineAggregate,
    b: TimelineAggregate,
)
    requires
        a.merges(tests),
        b.merges(tests),
    ensures
        a@ == b@,
        a.max_tick == b.max_tick,
        forall|t: u32| at_tick(a@, t) == at_tick(b@, t),
{
}

/// The positions of a moved action are the unmoved positions shifted.
pub proof fn lemma_shifted_positions(a: ActionView, o: Coords)
    ensures
        a.shifted(o).positions() == a.positions().map_values(|p: Coords| shift(p, o)),
{
    assert(a.shifted(o).positions() =~= a.positions().map_values(|p: Coords| shift(p, o)));
}

/// Aggregating one test with offset `o` moves every position of every action
/// by `o`, component-wise, and keeps the entries in order.
pub proof fn lemma_offset_applied(spec: TestSpec, o: BlockPos, agg: TimelineAggregate)
    requires
        agg.merges(seq![(&spec, o)]),
    ensures
        agg@.len() == spec.timeline@.len(),
        forall|k: int|
            0 <= k < agg@.len() ==> (#[trigger] agg@[k]).action.positions()
                == spec.timeline@[k].action_type@.positions().map_values(
                |p: Coords| shift(p, coords(o)),
            ) && agg@[k].tick == spec.timeline@[k].at && agg@[k].value_index == k,
{
    let tests = seq![(&spec, o)];
    assert(tests.drop_last() =~= Seq::<(&TestSpec, BlockPos)>::empty());
    assert(merged(tests.drop_last()) =~= Seq::<ScheduledView>::empty());
    assert(tests.last() == (&spec, o));
    assert(merged(tests) =~= spec_entries(spec, 0, coords(o)));
    assert forall|k: int| 0 <= k < agg@.len() implies (#[trigger] agg@[k]).action.positions()
        == spec.timeline@[k].action_type@.positions().map_values(|p: Coords| shift(p, coords(o)))
        && agg@[k].tick == spec.timeline@[k].at && agg@[k].value_index == k by {
        lemma_shifted_positions(spec.timeline@[k].action_type@, coords(o));
    }
}

} // verus!
