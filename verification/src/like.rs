//! SQL `LIKE` pattern matching over character sequences.

use vstd::prelude::*;

verus! {

/// SQL `LIKE` semantics: `%` matches any (possibly empty) run of
/// characters, `_` matches exactly one character, and every other pattern
/// character matches itself, case-sensitively.
pub open spec fn like_matches(p: Seq<char>, s: Seq<char>) -> bool
    decreases p.len(), s.len(),
{
    if p.len() == 0 {
        s.len() == 0
    } else if p[0] == '%' {
        like_matches(p.skip(1), s) || (s.len() > 0 && like_matches(p, s.skip(1)))
    } else if p[0] == '_' {
        s.len() > 0 && like_matches(p.skip(1), s.skip(1))
    } else {
        s.len() > 0 && s[0] == p[0] && like_matches(p.skip(1), s.skip(1))
    }
}

/// The pattern a resolver actually applies: an absent argument stands for
/// `"%"`, which matches every name.
pub open spec fn effective_pattern(p: Option<String>) -> Seq<char> {
    match p {
        Some(s) => s@,
        None => seq!['%'],
    }
}

/// Whether the pattern holds a wildcard character at all.
pub open spec fn has_wildcard(p: Seq<char>) -> bool {
    exists|k: int| 0 <= k < p.len() && (p[k] == '%' || p[k] == '_')
}

/// A pattern without wildcard characters matches exactly itself: filtering
/// by such a pattern admits only names equal to it, character for character.
pub proof fn lemma_no_wildcard_exact(p: Seq<char>, s: Seq<char>)
    requires
        !has_wildcard(p),
    ensures
        like_matches(p, s) <==> p == s,
    decreases p.len(),
{
    if p.len() == 0 {
        if s.len() == 0 {
            assert(p =~= s);
        }
    } else {
        assert(!(p[0] == '%' || p[0] == '_'));
        assert forall|k: int| 0 <= k < p.skip(1).len() implies !(p.skip(1)[k] == '%' || p.skip(1)[k]
            == '_') by {
            assert(p.skip(1)[k] == p[k + 1]);
        }
        lemma_no_wildcard_exact(p.skip(1), s.skip(1));
        if like_matches(p, s) {
            assert(p.skip(1) == s.skip(1));
            assert(p.len() == s.len());
            assert forall|k: int| 0 <= k < p.len() implies p[k] == s[k] by {
                if k > 0 {
                    assert(p.skip(1)[k - 1] == p[k]);
                    assert(s.skip(1)[k - 1] == s[k]);
                }
            }
            assert(p =~= s);
        }
        if p == s {
            assert(s.len() > 0 && s[0] == p[0]);
            assert(p.skip(1) =~= s.skip(1));
        }
    }
}

/// The pattern `"%"` matches every name.
pub proof fn lemma_percent_matches_all(s: Seq<char>)
    ensures
        like_matches(seq!['%'], s),
    decreases s.len(),
{
    let p = seq!['%'];
    assert(p.len() == 1);
    assert(p[0] == '%');
    if s.len() == 0 {
        assert(p.skip(1) =~= Seq::<char>::empty());
        assert(like_matches(p.skip(1), s));
    } else {
        lemma_percent_matches_all(s.skip(1));
        assert(like_matches(p, s.skip(1)));
    }
}

fn like_match_at(p: &str, s: &str, pl: usize, sl: usize, i: usize, j: usize) -> (r: bool)
    requires
        pl == p@.len(),
        sl == s@.len(),
        i <= pl,
        j <= sl,
    ensures
        r == like_matches(p@.skip(i as int), s@.skip(j as int)),
    decreases pl - i, sl - j,
{
    if i == pl {
        j == sl
    } else {
        let c = p.get_char(i);
        proof {
            assert(p@.skip(i as int)[0] == p@[i as int]);
            assert(p@.skip(i as int).skip(1) =~= p@.skip(i as int + 1));
        }
        if c == '%' {
            if like_match_at(p, s, pl, sl, i + 1, j) {
                true
            } else if j < sl {
                proof {
                    assert(s@.skip(j as int).skip(1) =~= s@.skip(j as int + 1));
                }
                like_match_at(p, s, pl, sl, i, j + 1)
            } else {
                false
            }
        } else if j == sl {
            false
        } else {
            proof {
                assert(s@.skip(j as int)[0] == s@[j as int]);
                assert(s@.skip(j as int).skip(1) =~= s@.skip(j as int + 1));
            }
            if c == '_' {
                like_match_at(p, s, pl, sl, i + 1, j + 1)
            } else {
                let d = s.get_char(j);
                c == d && like_match_at(p, s, pl, sl, i + 1, j + 1)
            }
        }
    }
}

/// Whether `name` matches `pattern` under SQL `LIKE` semantics.
pub fn like_match(pattern: &str, name: &str) -> (r: bool)
    ensures
        r == like_matches(pattern@, name@),
{
    let pl = pattern.unicode_len();
    let sl = name.unicode_len();
    proof {
        assert(pattern@.skip(0) =~= pattern@);
        assert(name@.skip(0) =~= name@);
    }
    like_match_at(pattern, name, pl, sl, 0, 0)
}

} // verus!
