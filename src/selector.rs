//! The computing part of test selection: keeping the loaded specifications
//! that a filter selects, and listing names and tags in sorted order.
use vstd::prelude::*;

use crate::filter::{texts, TestFilter};
use crate::render::{lemma_text_lt_irreflexive, lemma_text_lt_transitive, less_text, text_lt};
use crate::test_spec::TestSpec;
use crate::text::same_text;

verus! {

/// The predicate of the specifications that `f` selects.
pub open spec fn selected_by(f: TestFilter) -> spec_fn(TestSpec) -> bool {
    |s: TestSpec| f.selects(s.name@, s.tag_texts())
}

/// Whether texts are in order, equal ones allowed.
pub open spec fn texts_sorted(s: Seq<Seq<char>>) -> bool {
    forall|i: int, j: int| 0 <= i < j < s.len() ==> !text_lt(#[trigger] s[j], #[trigger] s[i])
}

/// Whether texts are in strictly increasing order, so without repeats.
pub open spec fn texts_strictly_sorted(s: Seq<Seq<char>>) -> bool {
    forall|i: int, j: int| 0 <= i < j < s.len() ==> text_lt(#[trigger] s[i], #[trigger] s[j])
}

proof fn lemma_text_lt_total(a: Seq<char>, b: Seq<char>)
    ensures
        text_lt(a, b) || a == b || text_lt(b, a),
    decreases a.len(),
{
    if a.len() == 0 && b.len() == 0 {
        assert(a =~= b);
    } else if a.len() > 0 && b.len() > 0 && a[0] != b[0] {
        assert(a[0] < b[0] || b[0] < a[0]);
    } else if a.len() > 0 && b.len() > 0 && a[0] == b[0] {
        lemma_text_lt_total(a.drop_first(), b.drop_first());
        if a.drop_first() == b.drop_first() {
            assert(a.len() == a.drop_first().len() + 1);
            assert(b.len() == b.drop_first().len() + 1);
            assert forall|i: int| 0 <= i < a.len() implies a[i] == b[i] by {
                if i > 0 {
                    assert(a[i] == a.drop_first()[i - 1]);
                    assert(b[i] == b.drop_first()[i - 1]);
                }
            }
            assert(a =~= b);
        }
    }
}

/// The specifications that `filter` selects, in their order.
pub fn select_matching(filter: &TestFilter, specs: Vec<TestSpec>) -> (r: Vec<TestSpec>)
    ensures
        r@ == specs@.filter(selected_by(*filter)),
{
    let ghost all = specs@;
    let mut rest = specs;
    let mut out: Vec<TestSpec> = Vec::new();
    let ghost mut taken: int = 0;
    while rest.len() > 0
        invariant
            0 <= taken <= all.len(),
            rest@ == all.subrange(taken, all.len() as int),
            out@ == all.subrange(0, taken).filter(selected_by(*filter)),
        decreases rest@.len(),
    {
        let s = rest.remove(0);
        proof {
            assert(s == all[taken]);
            assert(all.subrange(0, taken + 1) =~= all.subrange(0, taken).push(s));
            all.subrange(0, taken).lemma_filter_push(s, selected_by(*filter));
        }
        if filter.matches(&s) {
            out.push(s);
        }
        proof {
            taken = taken + 1;
            assert(rest@ =~= all.subrange(taken, all.len() as int));
        }
    }
    assert(all.subrange(0, all.len() as int) =~= all);
    out
}

/// The index of the first specification named `name`, if any.
pub fn find_by_name(specs: &Vec<TestSpec>, name: &str) -> (r: Option<usize>)
    ensures
        match r {
            Some(i) => i < specs@.len() && specs@[i as int].name@ == name@ && forall|j: int|
                0 <= j < i ==> #[trigger] specs@[j].name@ != name@,
            None => forall|j: int| 0 <= j < specs@.len() ==> #[trigger] specs@[j].name@ != name@,
        },
{
    let mut i: usize = 0;
    while i < specs.len()
        invariant
            i <= specs@.len(),
            forall|j: int| 0 <= j < i ==> #[trigger] specs@[j].name@ != name@,
        decreases specs@.len() - i,
    {
        if same_text(specs[i].name.as_str(), name) {
            return Some(i);
        }
        i = i + 1;
    }
    None
}

/// The names in sorted order, repeats kept.
pub fn sorted_names(names: &Vec<String>) -> (r: Vec<String>)
    ensures
        texts_sorted(texts(r@)),
        texts(r@).to_multiset() == texts(names@).to_multiset(),
{
    let mut out: Vec<String> = Vec::new();
    let mut i: usize = 0;
    assert(texts(names@.subrange(0, 0)) =~= texts(out@));
    while i < names.len()
        invariant
            i <= names@.len(),
            texts_sorted(texts(out@)),
            texts(out@).to_multiset() == texts(names@.subrange(0, i as int)).to_multiset(),
        decreases names@.len() - i,
    {
        let x = &names[i];
        let ghost ov = texts(out@);
        let mut p: usize = 0;
        while p < out.len() && !less_text(x.as_str(), out[p].as_str())
            invariant
                p <= out@.len(),
                ov == texts(out@),
                texts_sorted(ov),
                forall|q: int| 0 <= q < p ==> !text_lt(x@, #[trigger] ov[q]),
            decreases out@.len() - p,
        {
            assert(ov[p as int] == out@[p as int]@);
            p = p + 1;
        }
        proof {
            if p < out@.len() {
                assert(ov[p as int] == out@[p as int]@);
            }
        }
        out.insert(p, x.clone());
        proof {
            let nv = texts(out@);
            assert(nv =~= ov.insert(p as int, x@));
            assert forall|a: int, b: int| 0 <= a < b < nv.len() implies !text_lt(
                #[trigger] nv[b],
                #[trigger] nv[a],
            ) by {
                if b < p {
                    assert(nv[a] == ov[a] && nv[b] == ov[b]);
                } else if b == p {
                    assert(nv[a] == ov[a] && nv[b] == x@);
                } else if a < p {
                    assert(nv[a] == ov[a] && nv[b] == ov[b - 1]);
                } else if a == p {
                    assert(nv[a] == x@ && nv[b] == ov[b - 1]);
                    if text_lt(ov[b - 1], x@) {
                        lemma_text_lt_transitive(ov[b - 1], x@, ov[p as int]);
                        if b - 1 == p {
                            lemma_text_lt_irreflexive(ov[p as int]);
                        } else {
                            assert(!text_lt(ov[b - 1], ov[p as int]));
                        }
                    }
                } else {
                    assert(nv[a] == ov[a - 1] && nv[b] == ov[b - 1]);
                }
            }
            let before = names@.subrange(0, i as int);
            assert(names@.subrange(0, i + 1) =~= before.push(names@[i as int]));
            assert(texts(names@.subrange(0, i + 1)) =~= texts(before).push(x@));
            vstd::seq_lib::to_multiset_insert(ov, p as int, x@);
            vstd::seq_lib::to_multiset_build(texts(before), x@);
        }
        i = i + 1;
    }
    assert(names@.subrange(0, names@.len() as int) =~= names@);
    out
}

/// The distinct names in strictly increasing order.
pub fn distinct_sorted(names: &Vec<String>) -> (r: Vec<String>)
    ensures
        texts_strictly_sorted(texts(r@)),
        texts(r@).to_set() == texts(names@).to_set(),
{
    let mut out: Vec<String> = Vec::new();
    let mut i: usize = 0;
    assert(texts(names@.subrange(0, 0)).to_set() =~= texts(out@).to_set());
    while i < names.len()
        invariant
            i <= names@.len(),
            texts_strictly_sorted(texts(out@)),
            texts(out@).to_set() == texts(names@.subrange(0, i as int)).to_set(),
        decreases names@.len() - i,
    {
        let x = &names[i];
        let ghost ov = texts(out@);
        let mut p: usize = 0;
        while p < out.len() && less_text(out[p].as_str(), x.as_str())
            invariant
                p <= out@.len(),
                ov == texts(out@),
                texts_strictly_sorted(ov),
                forall|q: int| 0 <= q < p ==> text_lt(#[trigger] ov[q], x@),
            decreases out@.len() - p,
        {
            assert(ov[p as int] == out@[p as int]@);
            p = p + 1;
        }
        let before_names = Ghost(names@.subrange(0, i as int));
        proof {
            assert(names@.subrange(0, i + 1) =~= before_names@.push(names@[i as int]));
            assert(texts(names@.subrange(0, i + 1)) =~= texts(before_names@).push(x@));
            let tb = texts(before_names@);
            tb.lemma_push_to_set_commute(x@);
            assert(tb.push(x@).to_set() =~= tb.to_set().insert(x@));
            if p < out@.len() {
                assert(ov[p as int] == out@[p as int]@);
            }
        }
        if p < out.len() && same_text(out[p].as_str(), x.as_str()) {
            proof {
                assert(ov.contains(x@) ==> ov.to_set().contains(x@));
                assert(ov[p as int] == x@);
                assert(ov.to_set().insert(x@) =~= ov.to_set());
            }
        } else {
            out.insert(p, x.clone());
            proof {
                let nv = texts(out@);
                assert(nv =~= ov.insert(p as int, x@));
                if p < ov.len() {
                    lemma_text_lt_total(ov[p as int], x@);
                }
                assert forall|a: int, b: int| 0 <= a < b < nv.len() implies text_lt(
                    #[trigger] nv[a],
                    #[trigger] nv[b],
                ) by {
                    if b < p {
                        assert(nv[a] == ov[a] && nv[b] == ov[b]);
                    } else if b == p {
                        assert(nv[a] == ov[a] && nv[b] == x@);
                    } else if a < p {
                        assert(nv[a] == ov[a] && nv[b] == ov[b - 1]);
                        lemma_text_lt_transitive(ov[a], x@, ov[p as int]);
                        if b - 1 > p {
                            lemma_text_lt_transitive(ov[a], ov[p as int], ov[b - 1]);
                        }
                    } else if a == p {
                        assert(nv[a] == x@ && nv[b] == ov[b - 1]);
                        if b - 1 > p {
                            lemma_text_lt_transitive(x@, ov[p as int], ov[b - 1]);
                        }
                    } else {
                        assert(nv[a] == ov[a - 1] && nv[b] == ov[b - 1]);
                    }
                }
                assert(nv.to_set() =~= ov.to_set().insert(x@)) by {
                    assert forall|y: Seq<char>| nv.contains(y) <==> ov.contains(y) || y == x@ by {
                        if nv.contains(y) {
                            let k = choose|k: int| 0 <= k < nv.len() && nv[k] == y;
                            if k < p {
                                assert(ov[k] == y);
                            } else if k > p {
                                assert(ov[k - 1] == y);
                            }
                        }
                        if ov.contains(y) {
                            let k = choose|k: int| 0 <= k < ov.len() && ov[k] == y;
                            if k < p {
                                assert(nv[k] == y);
                            } else {
                                assert(nv[k + 1] == y);
                            }
                        }
                        if y == x@ {
                            assert(nv[p as int] == y);
                        }
                    }
                }
            }
        }
        i = i + 1;
    }
    assert(names@.subrange(0, names@.len() as int) =~= names@);
    out
}

} // verus!
