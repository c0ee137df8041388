//! The canonical text of a block: `id[name=value,...]` with the properties
//! sorted by name, for stable failure messages.
use vstd::prelude::*;

use crate::text::{chars_of, push_char, push_text};
use crate::traits::{props_view, BlockData};

verus! {

/// Strict lexicographic order on texts, character by character.
pub open spec fn text_lt(a: Seq<char>, b: Seq<char>) -> bool
    decreases a.len(),
{
    if a.len() == 0 {
        b.len() > 0
    } else if b.len() == 0 {
        false
    } else if a[0] != b[0] {
        a[0] < b[0]
    } else {
        text_lt(a.drop_first(), b.drop_first())
    }
}

pub proof fn lemma_text_lt_irreflexive(a: Seq<char>)
    ensures
        !text_lt(a, a),
    decreases a.len(),
{
    if a.len() > 0 {
        lemma_text_lt_irreflexive(a.drop_first());
    }
}

pub proof fn lemma_text_lt_transitive(a: Seq<char>, b: Seq<char>, c: Seq<char>)
    requires
        text_lt(a, b),
        text_lt(b, c),
    ensures
        text_lt(a, c),
    decreases a.len(),
{
    if a.len() > 0 && b.len() > 0 && c.len() > 0 && a[0] == b[0] && b[0] == c[0] {
        lemma_text_lt_transitive(a.drop_first(), b.drop_first(), c.drop_first());
    }
}

/// Whether the properties are in order of their names.
pub open spec fn sorted_by_name(s: Seq<(Seq<char>, Seq<char>)>) -> bool {
    forall|i: int, j: int| 0 <= i < j < s.len() ==> !text_lt(#[trigger] s[j].0, #[trigger] s[i].0)
}

/// `s`, sorted by name, with `x` put after every property whose name does not
/// sort after its own.
pub open spec fn insert_sorted(s: Seq<(Seq<char>, Seq<char>)>, x: (Seq<char>, Seq<char>)) -> Seq<
    (Seq<char>, Seq<char>),
>
    decreases s.len(),
{
    if s.len() == 0 {
        seq![x]
    } else if text_lt(x.0, s[0].0) {
        seq![x] + s
    } else {
        seq![s[0]] + insert_sorted(s.drop_first(), x)
    }
}

/// The properties sorted by name; properties with equal names keep their
/// order.
pub open spec fn sort_props(s: Seq<(Seq<char>, Seq<char>)>) -> Seq<(Seq<char>, Seq<char>)>
    decreases s.len(),
{
    if s.len() == 0 {
        seq![]
    } else {
        insert_sorted(sort_props(s.drop_last()), s.last())
    }
}

proof fn lemma_insert_at_first_greater(
    s: Seq<(Seq<char>, Seq<char>)>,
    x: (Seq<char>, Seq<char>),
    p: int,
)
    requires
        0 <= p <= s.len(),
        forall|q: int| 0 <= q < p ==> !text_lt(x.0, #[trigger] s[q].0),
        p < s.len() ==> text_lt(x.0, s[p].0),
    ensures
        s.insert(p, x) == insert_sorted(s, x),
    decreases s.len(),
{
    if s.len() == 0 {
        assert(s.insert(p, x) =~= seq![x]);
    } else if p == 0 {
        assert(s.insert(p, x) =~= seq![x] + s);
    } else {
        assert(!text_lt(x.0, s[0].0));
        let t = s.drop_first();
        assert forall|q: int| 0 <= q < p - 1 implies !text_lt(x.0, #[trigger] t[q].0) by {
            assert(t[q] == s[q + 1]);
        }
        if p - 1 < t.len() {
            assert(t[p - 1] == s[p]);
        }
        lemma_insert_at_first_greater(t, x, p - 1);
        assert(s.insert(p, x) =~= seq![s[0]] + t.insert(p - 1, x));
    }
}

/// `name=value` pairs joined by commas.
pub open spec fn pairs_text(s: Seq<(Seq<char>, Seq<char>)>) -> Seq<char>
    decreases s.len(),
{
    if s.len() == 0 {
        seq![]
    } else if s.len() == 1 {
        s[0].0 + seq!['='] + s[0].1
    } else {
        pairs_text(s.drop_last()) + seq![','] + s.last().0 + seq!['='] + s.last().1
    }
}

/// The text of a block with the given properties in the given order.
pub open spec fn block_text(id: Seq<char>, props: Seq<(Seq<char>, Seq<char>)>) -> Seq<char> {
    if props.len() == 0 {
        id
    } else {
        id + seq!['['] + pairs_text(props) + seq![']']
    }
}

/// Whether text `a` sorts strictly before text `b`.
pub fn less_text(a: &str, b: &str) -> (r: bool)
    ensures
        r == text_lt(a@, b@),
{
    let x = chars_of(a);
    let y = chars_of(b);
    let mut i: usize = 0;
    proof {
        assert(x@.subrange(0, x@.len() as int) =~= x@);
        assert(y@.subrange(0, y@.len() as int) =~= y@);
    }
    while i < x.len() && i < y.len() && x[i] == y[i]
        invariant
            x@ == a@,
            y@ == b@,
            i <= x@.len(),
            i <= y@.len(),
            text_lt(a@, b@) == text_lt(x@.subrange(i as int, x@.len() as int), y@.subrange(
                i as int,
                y@.len() as int,
            )),
        decreases x@.len() - i,
    {
        proof {
            let xs = x@.subrange(i as int, x@.len() as int);
            let ys = y@.subrange(i as int, y@.len() as int);
            assert(xs.drop_first() =~= x@.subrange(i + 1, x@.len() as int));
            assert(ys.drop_first() =~= y@.subrange(i + 1, y@.len() as int));
        }
        i = i + 1;
    }
    proof {
        let xs = x@.subrange(i as int, x@.len() as int);
        let ys = y@.subrange(i as int, y@.len() as int);
        if i < x@.len() && i < y@.len() {
            assert(xs[0] == x@[i as int]);
            assert(ys[0] == y@[i as int]);
        }
    }
    if i == x.len() {
        i < y.len()
    } else if i == y.len() {
        false
    } else {
        x[i] < y[i]
    }
}

/// The properties of a block sorted by name; properties with equal names keep
/// their order.
pub fn sorted_properties(props: &Vec<(String, String)>) -> (r: Vec<(String, String)>)
    ensures
        props_view(r@) == sort_props(props_view(props@)),
        sorted_by_name(props_view(r@)),
        props_view(r@).to_multiset() == props_view(props@).to_multiset(),
{
    let mut out: Vec<(String, String)> = Vec::new();
    let mut i: usize = 0;
    assert(props_view(props@.subrange(0, 0)) =~= props_view(out@));
    while i < props.len()
        invariant
            i <= props@.len(),
            sorted_by_name(props_view(out@)),
            props_view(out@) == sort_props(props_view(props@.subrange(0, i as int))),
            props_view(out@).to_multiset() == props_view(props@.subrange(0, i as int)).to_multiset(),
        decreases props@.len() - i,
    {
        let (k, v) = &props[i];
        let ghost kv = (k@, v@);
        let ghost ov = props_view(out@);
        let mut p: usize = 0;
        while p < out.len() && !less_text(k.as_str(), out[p].0.as_str())
            invariant
                p <= out@.len(),
                ov == props_view(out@),
                sorted_by_name(ov),
                kv == (k@, v@),
                forall|q: int| 0 <= q < p ==> !text_lt(kv.0, #[trigger] ov[q].0),
            decreases out@.len() - p,
        {
            assert(ov[p as int].0 == out@[p as int].0@);
            p = p + 1;
        }
        proof {
            if p < out@.len() {
                assert(ov[p as int].0 == out@[p as int].0@);
                assert(text_lt(kv.0, ov[p as int].0));
            }
        }
        out.insert(p, (k.clone(), v.clone()));
        proof {
            lemma_insert_at_first_greater(ov, kv, p as int);
            let pre = props_view(props@.subrange(0, i + 1));
            assert(pre.drop_last() =~= props_view(props@.subrange(0, i as int)));
            assert(pre.last() == kv);
            let nv = props_view(out@);
            assert(nv =~= ov.insert(p as int, kv));
            assert forall|a: int, b: int| 0 <= a < b < nv.len() implies !text_lt(
                #[trigger] nv[b].0,
                #[trigger] nv[a].0,
            ) by {
                if b < p {
                    assert(nv[a] == ov[a] && nv[b] == ov[b]);
                } else if b == p {
                    assert(nv[a] == ov[a] && nv[b] == kv);
                } else if a < p {
                    assert(nv[a] == ov[a] && nv[b] == ov[b - 1]);
                } else if a == p {
                    assert(nv[a] == kv && nv[b] == ov[b - 1]);
                    if text_lt(ov[b - 1].0, kv.0) {
                        lemma_text_lt_transitive(ov[b - 1].0, kv.0, ov[p as int].0);
                        if b - 1 == p {
                            lemma_text_lt_irreflexive(ov[p as int].0);
                        } else {
                            assert(!text_lt(ov[b - 1].0, ov[p as int].0));
                        }
                    }
                } else {
                    assert(nv[a] == ov[a - 1] && nv[b] == ov[b - 1]);
                }
            }
            let before = props@.subrange(0, i as int);
            assert(props@.subrange(0, i + 1) =~= before.push(props@[i as int]));
            assert(props_view(props@.subrange(0, i + 1)) =~= props_view(before).push(kv));
            vstd::seq_lib::to_multiset_insert(ov, p as int, kv);
            vstd::seq_lib::to_multiset_build(props_view(before), kv);
        }
        i = i + 1;
    }
    assert(props@.subrange(0, props@.len() as int) =~= props@);
    out
}

/// Appends `name=value` pairs joined by commas.
fn push_pairs(s: &mut String, props: &Vec<(String, String)>)
    ensures
        final(s)@ == old(s)@ + pairs_text(props_view(props@)),
{
    let ghost pv = props_view(props@);
    let mut i: usize = 0;
    while i < props.len()
        invariant
            pv == props_view(props@),
            i <= props@.len(),
            s@ == old(s)@ + pairs_text(pv.subrange(0, i as int)),
        decreases props@.len() - i,
    {
        let ghost sub = pv.subrange(0, i + 1);
        assert(sub.drop_last() =~= pv.subrange(0, i as int));
        if i > 0 {
            push_char(s, ',');
        }
        push_text(s, props[i].0.as_str());
        push_char(s, '=');
        push_text(s, props[i].1.as_str());
        proof {
            if i == 0 {
                assert(pv.subrange(0, 0) =~= Seq::<(Seq<char>, Seq<char>)>::empty());
            }
        }
        i = i + 1;
        assert(s@ =~= old(s)@ + pairs_text(pv.subrange(0, i as int)));
    }
    assert(pv.subrange(0, pv.len() as int) =~= pv);
}

impl BlockData {
    /// The canonical text of the block: its identifier, followed by its
    /// properties sorted by name in brackets when it has any.
    pub fn describe(&self) -> (r: String)
        ensures
            r@ == block_text(self@.id, sort_props(self@.properties)),
            sorted_by_name(sort_props(self@.properties)),
            sort_props(self@.properties).to_multiset() == self@.properties.to_multiset(),
    {
        let sorted = sorted_properties(&self.properties);
        let mut out = self.id.clone();
        if sorted.len() > 0 {
            push_char(&mut out, '[');
            push_pairs(&mut out, &sorted);
            push_char(&mut out, ']');
        }
        assert(out@ =~= block_text(self@.id, props_view(sorted@)));
        out
    }
}

} // verus!
