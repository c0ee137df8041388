//! Glob patterns over test names: `*` matches any run of characters, `?`
//! exactly one character, and every other character itself. A pattern must
//! match the whole name.
use vstd::prelude::*;

use crate::text::chars_of;

verus! {

/// Whether pattern `p` matches the whole of `t`.
pub open spec fn glob_matches(p: Seq<char>, t: Seq<char>) -> bool
    decreases p.len(), t.len(),
{
    if p.len() == 0 {
        t.len() == 0
    } else if p[0] == '*' {
        glob_matches(p.drop_first(), t) || (t.len() > 0 && glob_matches(p, t.drop_first()))
    } else if p[0] == '?' {
        t.len() > 0 && glob_matches(p.drop_first(), t.drop_first())
    } else {
        t.len() > 0 && t[0] == p[0] && glob_matches(p.drop_first(), t.drop_first())
    }
}

/// A pattern without wildcards: every character stands for itself.
pub open spec fn is_literal(s: Seq<char>) -> bool {
    forall|i: int| 0 <= i < s.len() ==> s[i] != '*' && s[i] != '?'
}

/// The number of characters of `p` that consume exactly one character.
pub open spec fn fixed_len(p: Seq<char>) -> nat
    decreases p.len(),
{
    if p.len() == 0 {
        0
    } else if p[0] == '*' {
        fixed_len(p.drop_first())
    } else {
        1 + fixed_len(p.drop_first())
    }
}

/// A leading `*` matches iff the rest of the pattern matches some suffix.
proof fn lemma_star(p: Seq<char>, t: Seq<char>)
    requires
        p.len() > 0,
        p[0] == '*',
    ensures
        glob_matches(p, t) <==> exists|k: int|
            0 <= k <= t.len() && #[trigger] glob_matches(p.drop_first(), t.subrange(k, t.len() as int)),
    decreases t.len(),
{
    let q = p.drop_first();
    assert(t.subrange(0, t.len() as int) =~= t);
    if glob_matches(q, t) {
        assert(glob_matches(q, t.subrange(0, t.len() as int)));
    }
    if t.len() == 0 {
        if exists|k: int|
            0 <= k <= t.len() && #[trigger] glob_matches(q, t.subrange(k, t.len() as int)) {
            let k = choose|k: int|
                0 <= k <= t.len() && #[trigger] glob_matches(q, t.subrange(k, t.len() as int));
            assert(k == 0);
        }
    } else {
        let u = t.drop_first();
        lemma_star(p, u);
        if glob_matches(p, t) {
            if glob_matches(q, t) {
                assert(glob_matches(q, t.subrange(0, t.len() as int)));
            } else {
                let k = choose|k: int|
                    0 <= k <= u.len() && #[trigger] glob_matches(q, u.subrange(k, u.len() as int));
                assert(u.subrange(k, u.len() as int) =~= t.subrange(k + 1, t.len() as int));
                assert(glob_matches(q, t.subrange(k + 1, t.len() as int)));
            }
        }
        if exists|k: int|
            0 <= k <= t.len() && #[trigger] glob_matches(q, t.subrange(k, t.len() as int)) {
            let k = choose|k: int|
                0 <= k <= t.len() && #[trigger] glob_matches(q, t.subrange(k, t.len() as int));
            if k > 0 {
                assert(u.subrange(k - 1, u.len() as int) =~= t.subrange(k, t.len() as int));
                assert(glob_matches(q, u.subrange(k - 1, u.len() as int)));
                assert(glob_matches(p, u));
            }
        }
    }
}

/// A match never consumes fewer characters than the pattern's fixed part.
proof fn lemma_min_len(p: Seq<char>, t: Seq<char>)
    requires
        glob_matches(p, t),
    ensures
        fixed_len(p) <= t.len(),
    decreases p.len(), t.len(),
{
    if p.len() > 0 {
        if p[0] == '*' {
            if glob_matches(p.drop_first(), t) {
                lemma_min_len(p.drop_first(), t);
            } else {
                lemma_min_len(p, t.drop_first());
            }
        } else {
            lemma_min_len(p.drop_first(), t.drop_first());
        }
    }
}

/// A literal pattern matches exactly itself.
proof fn lemma_literal(s: Seq<char>, u: Seq<char>)
    requires
        is_literal(s),
    ensures
        glob_matches(s, u) <==> u == s,
        fixed_len(s) == s.len(),
    decreases s.len(),
{
    if s.len() > 0 {
        assert(s[0] != '*' && s[0] != '?');
        let s1 = s.drop_first();
        assert(is_literal(s1)) by {
            assert forall|i: int| 0 <= i < s1.len() implies s1[i] != '*' && s1[i] != '?' by {
                assert(s1[i] == s[i + 1]);
            }
        }
        if u.len() > 0 {
            let u1 = u.drop_first();
            lemma_literal(s1, u1);
            if u[0] == s[0] && u1 == s1 {
                assert forall|i: int| 0 <= i < u.len() implies u[i] == s[i] by {
                    if i > 0 {
                        assert(u[i] == u1[i - 1]);
                        assert(s[i] == s1[i - 1]);
                    }
                }
                assert(u =~= s);
            }
        } else {
            lemma_literal(s1, u);
        }
    } else if u.len() == 0 {
        assert(u =~= s);
    }
}

/// Appending the same literal text to a pattern and to a name keeps the
/// answer: `p + s` matches `t + s` exactly when `p` matches `t`.
pub proof fn lemma_glob_literal_suffix(p: Seq<char>, t: Seq<char>, s: Seq<char>)
    requires
        is_literal(s),
    ensures
        glob_matches(p + s, t + s) == glob_matches(p, t),
    decreases p.len(), t.len(),
{
    lemma_literal(s, t + s);
    if p.len() == 0 {
        assert(p + s =~= s);
        if t.len() > 0 {
            assert(t + s != s) by {
                assert((t + s).len() != s.len());
            }
        } else {
            assert(t + s =~= s);
        }
    } else {
        assert((p + s).drop_first() =~= p.drop_first() + s);
        assert((p + s)[0] == p[0]);
        if t.len() > 0 {
            assert((t + s).drop_first() =~= t.drop_first() + s);
            assert((t + s)[0] == t[0]);
            if p[0] == '*' {
                lemma_glob_literal_suffix(p.drop_first(), t, s);
                lemma_glob_literal_suffix(p, t.drop_first(), s);
            } else {
                lemma_glob_literal_suffix(p.drop_first(), t.drop_first(), s);
            }
        } else {
            assert(t + s =~= s);
            lemma_fixed_len_concat(p, s);
            if p[0] == '*' {
                lemma_glob_literal_suffix(p.drop_first(), t, s);
                if s.len() > 0 && glob_matches(p + s, s.drop_first()) {
                    lemma_min_len(p + s, s.drop_first());
                }
            } else {
                if glob_matches(p + s, s) {
                    lemma_min_len(p + s, s);
                }
            }
        }
    }
}

proof fn lemma_fixed_len_concat(p: Seq<char>, s: Seq<char>)
    ensures
        fixed_len(p + s) == fixed_len(p) + fixed_len(s),
    decreases p.len(),
{
    if p.len() == 0 {
        assert(p + s =~= s);
    } else {
        assert((p + s).drop_first() =~= p.drop_first() + s);
        lemma_fixed_len_concat(p.drop_first(), s);
    }
}

/// A lone `*` matches every name, the empty one included.
pub proof fn lemma_glob_star_matches_all(t: Seq<char>)
    ensures
        glob_matches(seq!['*'], t),
{
    let p = seq!['*'];
    let e = Seq::<char>::empty();
    assert(p.drop_first() =~= e);
    assert(t.subrange(t.len() as int, t.len() as int) =~= e);
    assert(glob_matches(e, e));
    assert(glob_matches(p.drop_first(), t.subrange(t.len() as int, t.len() as int)));
    lemma_star(p, t);
}

/// The empty pattern matches the empty name and nothing else.
pub proof fn lemma_glob_empty_pattern(t: Seq<char>)
    ensures
        glob_matches(Seq::<char>::empty(), t) <==> t.len() == 0,
{
}

/// Whether `pattern` matches the whole of `text`.
pub fn glob_match(pattern: &str, text: &str) -> (r: bool)
    ensures
        r == glob_matches(pattern@, text@),
{
    let p = chars_of(pattern);
    let t = chars_of(text);
    assert(p@.subrange(0, p@.len() as int) =~= p@);
    assert(t@.subrange(0, t@.len() as int) =~= t@);
    glob_match_recursive(p.as_slice(), t.as_slice(), 0, 0)
}

/// Backtracking matcher: whether `pattern[pi..]` matches `text[ti..]`.
pub fn glob_match_recursive(pattern: &[char], text: &[char], pi: usize, ti: usize) -> (r: bool)
    requires
        pi <= pattern@.len(),
        ti <= text@.len(),
    ensures
        r == glob_matches(
            pattern@.subrange(pi as int, pattern@.len() as int),
            text@.subrange(ti as int, text@.len() as int),
        ),
    decreases pattern@.len() - pi,
{
    let ghost ps = pattern@.subrange(pi as int, pattern@.len() as int);
    let ghost ts = text@.subrange(ti as int, text@.len() as int);
    if pi == pattern.len() && ti == text.len() {
        return true;
    }
    if pi == pattern.len() {
        return false;
    }
    assert(ps.drop_first() =~= pattern@.subrange(pi + 1, pattern@.len() as int));
    if ti < text.len() {
        assert(ts.drop_first() =~= text@.subrange(ti + 1, text@.len() as int));
    }
    let c = pattern[pi];
    if c == '*' {
        let plen = pattern.len();
        let tlen = text.len();
        let mut i: usize = ti;
        loop
            invariant
                plen == pattern@.len(),
                pi < pattern@.len(),
                ps.len() > 0 && ps[0] == '*',
                tlen == text@.len(),
                ti <= i <= tlen,
                ps == pattern@.subrange(pi as int, pattern@.len() as int),
                ts == text@.subrange(ti as int, text@.len() as int),
                ps.drop_first() == pattern@.subrange(pi + 1, pattern@.len() as int),
                forall|j: int|
                    ti <= j < i ==> !glob_matches(
                        ps.drop_first(),
                        #[trigger] text@.subrange(j, text@.len() as int),
                    ),
            ensures
                forall|j: int|
                    ti <= j <= tlen ==> !glob_matches(
                        ps.drop_first(),
                        #[trigger] text@.subrange(j, text@.len() as int),
                    ),
            decreases tlen - i,
        {
            if glob_match_recursive(pattern, text, pi + 1, i) {
                assert(ts.subrange(i - ti, ts.len() as int) =~= text@.subrange(
                    i as int,
                    text@.len() as int,
                ));
                proof {
                    lemma_star(ps, ts);
                }
                return true;
            }
            if i == tlen {
                break;
            }
            i = i + 1;
        }
        proof {
            lemma_star(ps, ts);
        }
        assert forall|k: int| 0 <= k <= ts.len() implies !#[trigger] glob_matches(
            ps.drop_first(),
            ts.subrange(k, ts.len() as int),
        ) by {
            assert(ts.subrange(k, ts.len() as int) =~= text@.subrange(k + ti, text@.len() as int));
        }
        false
    } else if c == '?' {
        if ti < text.len() {
            glob_match_recursive(pattern, text, pi + 1, ti + 1)
        } else {
            false
        }
    } else {
        if ti < text.len() && text[ti] == c {
            glob_match_recursive(pattern, text, pi + 1, ti + 1)
        } else {
            false
        }
    }
}

} // verus!
