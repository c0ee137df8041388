//! Selection of tests by exact name, glob name patterns and tags.
use vstd::prelude::*;

use crate::glob::{glob_match, glob_matches};
use crate::test_spec::TestSpec;

verus! {

/// The texts of a sequence of strings.
pub open spec fn texts(v: Seq<String>) -> Seq<Seq<char>> {
    v.map_values(|s: String| s@)
}

/// The texts of a sequence of string slices.
pub open spec fn str_texts(v: Seq<&str>) -> Seq<Seq<char>> {
    v.map_values(|s: &str| s@)
}

/// Whether a test named `name` carrying `tags` passes the three constraints.
/// Each constraint applies only when it is set; all set ones must hold.
pub open spec fn accepts(
    want_tags: Seq<Seq<char>>,
    patterns: Seq<Seq<char>>,
    exact: Option<Seq<char>>,
    name: Seq<char>,
    tags: Seq<Seq<char>>,
) -> bool {
    &&& (exact is Some ==> name == exact->0)
    &&& (patterns.len() > 0 ==> exists|i: int|
        0 <= i < patterns.len() && #[trigger] glob_matches(patterns[i], name))
    &&& (want_tags.len() > 0 ==> exists|i: int, j: int|
        0 <= i < want_tags.len() && 0 <= j < tags.len() && #[trigger] want_tags[i]
            == #[trigger] tags[j])
}

/// Criteria for selecting the tests to run.
#[derive(Debug)]
pub struct TestFilter {
    /// Run only tests with one of these tags (empty: no tag constraint).
    pub tags: Vec<String>,
    /// Run only tests whose name matches one of these glob patterns.
    pub name_patterns: Vec<String>,
    /// Run only the test with exactly this name.
    pub exact_name: Option<String>,
}

/// Copies string slices into owned strings.
fn owned_all(items: &[&str]) -> (r: Vec<String>)
    ensures
        texts(r@) == str_texts(items@),
{
    let mut out: Vec<String> = Vec::new();
    extend_owned(&mut out, items);
    assert(texts(out@) =~= str_texts(items@));
    out
}

/// Appends copies of string slices to `v`.
fn extend_owned(v: &mut Vec<String>, items: &[&str])
    ensures
        texts(final(v)@) == texts(old(v)@) + str_texts(items@),
{
    let ghost start = v@;
    let mut i: usize = 0;
    while i < items.len()
        invariant
            i <= items@.len(),
            v@.len() == start.len() + i,
            forall|k: int| 0 <= k < start.len() ==> #[trigger] v@[k] == start[k],
            forall|k: int| 0 <= k < i ==> #[trigger] v@[start.len() + k]@ == items@[k]@,
        decreases items@.len() - i,
    {
        let s: String = items[i].to_owned();
        v.push(s);
        i = i + 1;
    }
    assert forall|k: int| 0 <= k < v@.len() implies #[trigger] texts(v@)[k] == (texts(start)
        + str_texts(items@))[k] by {
        if k >= start.len() {
            assert(v@[start.len() + (k - start.len())]@ == items@[k - start.len()]@);
        }
    }
    assert(texts(v@) =~= texts(start) + str_texts(items@));
}

impl TestFilter {
    /// Whether no constraint is set.
    pub open spec fn unconstrained(&self) -> bool {
        self.tags@.len() == 0 && self.name_patterns@.len() == 0 && self.exact_name is None
    }

    /// Whether the filter selects a test named `name` carrying `tags`.
    pub open spec fn selects(&self, name: Seq<char>, tags: Seq<Seq<char>>) -> bool {
        accepts(
            texts(self.tags@),
            texts(self.name_patterns@),
            match self.exact_name {
                Some(s) => Some(s@),
                None => None,
            },
            name,
            tags,
        )
    }

    /// A filter that selects every test.
    pub fn all() -> (r: TestFilter)
        ensures
            r.unconstrained(),
    {
        TestFilter { tags: Vec::new(), name_patterns: Vec::new(), exact_name: None }
    }

    /// A filter on tags alone.
    pub fn by_tags(tags: &[&str]) -> (r: TestFilter)
        ensures
            texts(r.tags@) == str_texts(tags@),
            r.name_patterns@.len() == 0,
            r.exact_name is None,
    {
        TestFilter { tags: owned_all(tags), name_patterns: Vec::new(), exact_name: None }
    }

    /// A filter on one exact name.
    pub fn by_name(name: &str) -> (r: TestFilter)
        ensures
            r.tags@.len() == 0,
            r.name_patterns@.len() == 0,
            r.exact_name is Some && r.exact_name->0@ == name@,
    {
        TestFilter { tags: Vec::new(), name_patterns: Vec::new(), exact_name: Some(name.to_owned()) }
    }

    /// A filter on glob name patterns alone.
    pub fn by_patterns(patterns: &[&str]) -> (r: TestFilter)
        ensures
            r.tags@.len() == 0,
            texts(r.name_patterns@) == str_texts(patterns@),
            r.exact_name is None,
    {
        TestFilter { tags: Vec::new(), name_patterns: owned_all(patterns), exact_name: None }
    }

    /// Adds tags to the filter.
    pub fn with_tags(self, tags: &[&str]) -> (r: TestFilter)
        ensures
            texts(r.tags@) == texts(self.tags@) + str_texts(tags@),
            r.name_patterns == self.name_patterns,
            r.exact_name == self.exact_name,
    {
        let mut f = self;
        extend_owned(&mut f.tags, tags);
        f
    }

    /// Adds name patterns to the filter.
    pub fn with_patterns(self, patterns: &[&str]) -> (r: TestFilter)
        ensures
            r.tags == self.tags,
            texts(r.name_patterns@) == texts(self.name_patterns@) + str_texts(patterns@),
            r.exact_name == self.exact_name,
    {
        let mut f = self;
        extend_owned(&mut f.name_patterns, patterns);
        f
    }

    /// Sets the exact name that the filter asks for.
    pub fn with_exact_name(self, name: &str) -> (r: TestFilter)
        ensures
            r.tags == self.tags,
            r.name_patterns == self.name_patterns,
            r.exact_name is Some && r.exact_name->0@ == name@,
    {
        let mut f = self;
        f.exact_name = Some(name.to_owned());
        f
    }

    /// Whether `spec` passes every constraint that is set.
    pub fn matches(&self, spec: &TestSpec) -> (r: bool)
        ensures
            r == self.selects(spec.name@, spec.tag_texts()),
    {
        let ghost pats = texts(self.name_patterns@);
        let ghost want = texts(self.tags@);
        let ghost have = spec.tag_texts();
        if let Some(exact) = &self.exact_name {
            if spec.name != *exact {
                return false;
            }
        }
        if self.name_patterns.len() > 0 {
            let mut any = false;
            let mut i: usize = 0;
            while i < self.name_patterns.len()
                invariant
                    pats == texts(self.name_patterns@),
                    i <= self.name_patterns@.len(),
                    any == exists|k: int| 0 <= k < i && #[trigger] glob_matches(pats[k], spec.name@),
                decreases self.name_patterns@.len() - i,
            {
                let hit = glob_match(self.name_patterns[i].as_str(), spec.name.as_str());
                assert(pats[i as int] == self.name_patterns@[i as int]@);
                if hit {
                    assert(glob_matches(pats[i as int], spec.name@));
                    any = true;
                }
                i = i + 1;
            }
            if !any {
                return false;
            }
        }
        if self.tags.len() > 0 {
            let mut found = false;
            let mut i: usize = 0;
            while i < self.tags.len()
                invariant
                    want == texts(self.tags@),
                    have == spec.tag_texts(),
                    i <= self.tags@.len(),
                    found == exists|a: int, b: int|
                        0 <= a < i && 0 <= b < have.len() && #[trigger] want[a] == #[trigger] have[b],
                decreases self.tags@.len() - i,
            {
                let mut j: usize = 0;
                while j < spec.tags.len()
                    invariant
                        want == texts(self.tags@),
                        have == spec.tag_texts(),
                        i < self.tags@.len(),
                        j <= spec.tags@.len(),
                        found == ((exists|a: int, b: int|
                            0 <= a < i && 0 <= b < have.len() && #[trigger] want[a]
                                == #[trigger] have[b]) || (exists|b: int|
                            0 <= b < j && want[i as int] == #[trigger] have[b])),
                    decreases spec.tags@.len() - j,
                {
                    let same = spec.tags[j] == self.tags[i];
                    assert(want[i as int] == self.tags@[i as int]@);
                    assert(have[j as int] == spec.tags@[j as int]@);
                    if same {
                        assert(want[i as int] == have[j as int]);
                        found = true;
                    }
                    j = j + 1;
                }
                proof {
                    if exists|b: int| 0 <= b < have.len() && want[i as int] == #[trigger] have[b] {
                        let b = choose|b: int|
                            0 <= b < have.len() && want[i as int] == #[trigger] have[b];
                        assert(want[i as int] == have[b]);
                    }
                    let ii = i as int;
                    if exists|a: int, b: int|
                        0 <= a < ii + 1 && 0 <= b < have.len() && #[trigger] want[a]
                            == #[trigger] have[b] {
                        let (a, b) = choose|a: int, b: int|
                            0 <= a < ii + 1 && 0 <= b < have.len() && #[trigger] want[a]
                                == #[trigger] have[b];
                        assert(want[a] == have[b]);
                    }
                }
                i = i + 1;
            }
            if !found {
                return false;
            }
        }
        true
    }

    /// Whether no constraint is set, so that the filter selects everything.
    pub fn is_empty(&self) -> (r: bool)
        ensures
            r == self.unconstrained(),
    {
        self.tags.len() == 0 && self.name_patterns.len() == 0 && self.exact_name.is_none()
    }
}

impl Default for TestFilter {
    fn default() -> (r: TestFilter)
        ensures
            r.unconstrained(),
    {
        TestFilter::all()
    }
}

/// A filter with no constraint selects every test.
pub proof fn lemma_unconstrained_selects_all(f: TestFilter, spec: TestSpec)
    requires
        f.unconstrained(),
    ensures
        f.selects(spec.name@, spec.tag_texts()),
{
}

/// A filter on tags alone selects a test exactly when the test carries one
/// of the filter's tags.
pub proof fn lemma_tag_filter_intersects(f: TestFilter, spec: TestSpec)
    requires
        f.tags@.len() > 0,
        f.name_patterns@.len() == 0,
        f.exact_name is None,
    ensures
        f.selects(spec.name@, spec.tag_texts()) <==> exists|t: Seq<char>|
            #[trigger] texts(f.tags@).contains(t) && spec.tag_texts().contains(t),
{
    let want = texts(f.tags@);
    let have = spec.tag_texts();
    if f.selects(spec.name@, have) {
        let (i, j) = choose|i: int, j: int|
            0 <= i < want.len() && 0 <= j < have.len() && #[trigger] want[i] == #[trigger] have[j];
        assert(want.contains(want[i]));
        assert(have.contains(have[j]));
    }
    if exists|t: Seq<char>| #[trigger] want.contains(t) && have.contains(t) {
        let t = choose|t: Seq<char>| #[trigger] want.contains(t) && have.contains(t);
        let i = choose|i: int| 0 <= i < want.len() && want[i] == t;
        let j = choose|j: int| 0 <= j < have.len() && have[j] == t;
        assert(want[i] == have[j]);
    }
}

} // verus!
