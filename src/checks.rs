//! Comparing a block read from a world with the block a test expects.
use vstd::prelude::*;

use crate::test_spec::{Block, BlockView, PropValue};
use crate::text::{chars_of, decimal, decimal_text, same_text};
use crate::traits::{lookup, BlockData, BlockState};

verus! {

/// The text that a property value compares as; `None` for a value that is
/// never compared (null, arrays and objects).
pub open spec fn prop_text(v: PropValue) -> Option<Seq<char>> {
    match v {
        PropValue::Text(s) => Some(s@),
        PropValue::Bool(b) => Some(if b { "true"@ } else { "false"@ }),
        PropValue::Number(n) => Some(decimal(n as int)),
        PropValue::Null => None,
        PropValue::Nested => None,
    }
}

/// The text of a property value, if it has one.
pub fn normalized(v: &PropValue) -> (r: Option<String>)
    ensures
        match r {
            Some(s) => prop_text(*v) == Some(s@),
            None => prop_text(*v) is None,
        },
{
    match v {
        PropValue::Text(s) => Some(s.clone()),
        PropValue::Bool(b) => {
            if *b {
                Some("true".to_owned())
            } else {
                Some("false".to_owned())
            }
        },
        PropValue::Number(n) => Some(decimal_text(*n)),
        PropValue::Null => None,
        PropValue::Nested => None,
    }
}

/// The default namespace of identifiers.
pub open spec fn default_namespace() -> Seq<char> {
    "minecraft:"@
}

/// An identifier without the default namespace prefix.
pub open spec fn strip_ns(s: Seq<char>) -> Seq<char> {
    let ns = default_namespace();
    if s.len() >= ns.len() && s.subrange(0, ns.len() as int) == ns {
        s.subrange(ns.len() as int, s.len() as int)
    } else {
        s
    }
}

/// Whether two identifiers name the same block, the default namespace being
/// optional on both.
pub open spec fn same_id(actual: Seq<char>, expected: Seq<char>) -> bool {
    strip_ns(actual) == strip_ns(expected)
}

/// Whether the property list of an actual block satisfies one expected
/// property: the name `properties` and values without text are not checked.
pub open spec fn prop_holds(actual: Seq<(Seq<char>, Seq<char>)>, p: (String, PropValue)) -> bool {
    (p.0@ != "properties"@ && prop_text(p.1) is Some) ==> lookup(actual, p.0@) == prop_text(p.1)
}

/// Whether `actual` is the block that `expected` describes: the same
/// identifier, and every expected property present with the same text.
pub open spec fn block_satisfies(actual: BlockState, expected: BlockView) -> bool {
    &&& same_id(actual.id, expected.id)
    &&& forall|i: int|
        0 <= i < expected.properties.len() ==> prop_holds(
            actual.properties,
            #[trigger] expected.properties[i],
        )
}

/// The expected block as block data: the properties that have a text.
pub open spec fn expected_props(s: Seq<(String, PropValue)>) -> Seq<(Seq<char>, Seq<char>)>
    decreases s.len(),
{
    if s.len() == 0 {
        seq![]
    } else {
        let rest = expected_props(s.drop_last());
        match prop_text(s.last().1) {
            Some(t) => rest.push((s.last().0@, t)),
            None => rest,
        }
    }
}

fn equal_chars(a: &Vec<char>, b: &Vec<char>) -> (r: bool)
    ensures
        r == (a@ == b@),
{
    if a.len() != b.len() {
        return false;
    }
    let mut i: usize = 0;
    while i < a.len()
        invariant
            a@.len() == b@.len(),
            i <= a@.len(),
            forall|j: int| 0 <= j < i ==> a@[j] == b@[j],
        decreases a@.len() - i,
    {
        if a[i] != b[i] {
            return false;
        }
        i = i + 1;
    }
    assert(a@ =~= b@);
    true
}

/// The characters of an identifier without the default namespace prefix.
pub fn strip_namespace(s: &str) -> (r: Vec<char>)
    ensures
        r@ == strip_ns(s@),
{
    let cs = chars_of(s);
    let ns = chars_of("minecraft:");
    if cs.len() < ns.len() {
        return cs;
    }
    let mut head: Vec<char> = Vec::new();
    let mut i: usize = 0;
    while i < ns.len()
        invariant
            ns@.len() <= cs@.len(),
            i <= ns@.len(),
            head@ == cs@.subrange(0, i as int),
        decreases ns@.len() - i,
    {
        head.push(cs[i]);
        i = i + 1;
        assert(head@ =~= cs@.subrange(0, i as int));
    }
    if !equal_chars(&head, &ns) {
        return cs;
    }
    let mut tail: Vec<char> = Vec::new();
    let mut j: usize = ns.len();
    while j < cs.len()
        invariant
            ns@.len() <= j <= cs@.len(),
            tail@ == cs@.subrange(ns@.len() as int, j as int),
        decreases cs@.len() - j,
    {
        tail.push(cs[j]);
        j = j + 1;
        assert(tail@ =~= cs@.subrange(ns@.len() as int, j as int));
    }
    tail
}

/// Whether `actual` is the block that `expected` describes.
pub fn block_matches(actual: &BlockData, expected: &Block) -> (r: bool)
    ensures
        r == block_satisfies(actual@, expected@),
{
    let a = strip_namespace(actual.id.as_str());
    let e = strip_namespace(expected.id.as_str());
    if !equal_chars(&a, &e) {
        return false;
    }
    let ghost exp = expected@.properties;
    let mut i: usize = 0;
    while i < expected.properties.len()
        invariant
            exp == expected@.properties,
            i <= exp.len(),
            forall|j: int| 0 <= j < i ==> prop_holds(actual@.properties, #[trigger] exp[j]),
        decreases exp.len() - i,
    {
        let (key, value) = &expected.properties[i];
        if !same_text(key.as_str(), "properties") {
            if let Some(want) = normalized(value) {
                match actual.property(key.as_str()) {
                    Some(have) => {
                        if *have != want {
                            return false;
                        }
                    },
                    None => {
                        return false;
                    },
                }
            }
        }
        i = i + 1;
    }
    true
}

/// The expected block of a check as block data, for failure reports.
pub fn expected_data(expected: &Block) -> (r: BlockData)
    ensures
        r@ == (BlockState { id: expected.id@, properties: expected_props(expected.properties@) }),
{
    let ghost exp = expected.properties@;
    let mut props: Vec<(String, String)> = Vec::new();
    let mut i: usize = 0;
    while i < expected.properties.len()
        invariant
            exp == expected.properties@,
            i <= exp.len(),
            crate::traits::props_view(props@) == expected_props(exp.subrange(0, i as int)),
        decreases exp.len() - i,
    {
        let (key, value) = &expected.properties[i];
        let ghost prev = props@;
        proof {
            assert(exp.subrange(0, i + 1).drop_last() =~= exp.subrange(0, i as int));
        }
        if let Some(text) = normalized(value) {
            props.push((key.clone(), text));
            assert(crate::traits::props_view(props@) =~= crate::traits::props_view(prev).push(
                (key@, text@),
            ));
        }
        i = i + 1;
    }
    assert(exp.subrange(0, exp.len() as int) =~= exp);
    BlockData { id: expected.id.clone(), properties: props }
}

} // verus!
