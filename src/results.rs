//! Outcomes of assertions, of single tests and of a batch.
use vstd::prelude::*;

use crate::test_spec::BlockPos;
use crate::traits::BlockData;

verus! {

/// Why an assertion failed: where, when, and what was expected and found.
#[derive(Debug)]
pub struct AssertFailure {
    pub tick: u32,
    pub position: BlockPos,
    pub expected: BlockData,
    pub actual: BlockData,
    pub error_message: String,
}

/// The outcome of one `Assert` action.
#[derive(Debug)]
pub enum AssertionResult {
    Success(u32),
    Failure(AssertFailure),
}

/// The outcome of one test.
#[derive(Debug)]
pub struct TestResult {
    pub test_name: String,
    pub success: bool,
    pub assertions: Vec<AssertionResult>,
    pub total_ticks: u32,
    pub execution_time_ms: u64,
}

impl TestResult {
    /// A successful result without assertions, for the test `name`.
    pub fn new(name: &str) -> (r: TestResult)
        ensures
            r.test_name@ == name@,
            r.success,
            r.assertions@.len() == 0,
            r.total_ticks == 0,
            r.execution_time_ms == 0,
    {
        TestResult {
            test_name: name.to_owned(),
            success: true,
            assertions: Vec::new(),
            total_ticks: 0,
            execution_time_ms: 0,
        }
    }

    /// Records the outcome of one assertion.
    pub fn add_assertion(&mut self, a: AssertionResult)
        ensures
            final(self).assertions@ == old(self).assertions@.push(a),
            final(self).test_name == old(self).test_name,
            final(self).success == old(self).success,
            final(self).total_ticks == old(self).total_ticks,
            final(self).execution_time_ms == old(self).execution_time_ms,
    {
        self.assertions.push(a);
    }
}

/// The number of successful results.
pub open spec fn count_passed(s: Seq<TestResult>) -> nat
    decreases s.len(),
{
    if s.len() == 0 {
        0
    } else {
        count_passed(s.drop_last()) + if s.last().success {
            1nat
        } else {
            0nat
        }
    }
}

/// The results of a batch, with their counts.
#[derive(Debug)]
pub struct TestSummary {
    pub total_tests: usize,
    pub passed_tests: usize,
    pub failed_tests: usize,
    pub results: Vec<TestResult>,
}

impl TestSummary {
    /// Counts the results of a batch, keeping them in order.
    pub fn from_results(results: Vec<TestResult>) -> (r: TestSummary)
        ensures
            r.results@ == results@,
            r.total_tests == results@.len(),
            r.passed_tests == count_passed(results@),
            r.failed_tests == results@.len() - count_passed(results@),
    {
        let mut passed: usize = 0;
        let mut i: usize = 0;
        while i < results.len()
            invariant
                i <= results@.len(),
                passed == count_passed(results@.subrange(0, i as int)),
                passed <= i,
            decreases results@.len() - i,
        {
            proof {
                assert(results@.subrange(0, i + 1).drop_last() =~= results@.subrange(0, i as int));
            }
            if results[i].success {
                passed = passed + 1;
            }
            i = i + 1;
        }
        assert(results@.subrange(0, results@.len() as int) =~= results@);
        let total = results.len();
        TestSummary { total_tests: total, passed_tests: passed, failed_tests: total - passed, results }
    }
}

} // verus!
