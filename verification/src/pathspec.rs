use vstd::prelude::*;

use crate::strutil::{str_eq, str_views};

verus! {

/// Glob matching over characters: `*` stands for any run of
/// characters, `?` for exactly one, every other character for itself.
pub open spec fn glob_match(p: Seq<char>, s: Seq<char>) -> bool
    decreases p.len() + s.len(),
{
    if p.len() == 0 {
        s.len() == 0
    } else if p.first() == '*' {
        glob_match(p.drop_first(), s) || (s.len() > 0 && glob_match(p, s.drop_first()))
    } else {
        s.len() > 0 && (p.first() == '?' || p.first() == s.first()) && glob_match(
            p.drop_first(),
            s.drop_first(),
        )
    }
}

/// Whether a pattern without wildcard meaning also covers everything
/// under a directory of that name: the pattern is a proper prefix of
/// the path and a `/` follows it.
pub open spec fn dir_prefix_match(pat: Seq<char>, path: Seq<char>) -> bool {
    pat.len() < path.len() && path.take(pat.len() as int) == pat && path[pat.len() as int] == '/'
}

/// Whether one pattern covers a path, either as a glob over the whole
/// path or as a leading directory.
pub open spec fn pattern_matches(pat: Seq<char>, path: Seq<char>) -> bool {
    glob_match(pat, path) || dir_prefix_match(pat, path)
}

/// A rule whose written form starts with `!` excludes what it
/// matches.
pub open spec fn is_exclusion(rule: Seq<char>) -> bool {
    rule.len() > 0 && rule.first() == '!'
}

/// The pattern of a rule: its written form, without the leading `!`
/// of an exclusion.
pub open spec fn pattern_body(rule: Seq<char>) -> Seq<char> {
    if is_exclusion(rule) {
        rule.drop_first()
    } else {
        rule
    }
}

/// The decision of the first rule, in declared order, whose pattern
/// covers the path: `true` to keep it, `false` to drop it; nothing
/// when no rule matches.
pub open spec fn first_decision(rules: Seq<Seq<char>>, path: Seq<char>) -> Option<bool>
    decreases rules.len(),
{
    if rules.len() == 0 {
        None
    } else if pattern_matches(pattern_body(rules.first()), path) {
        Some(!is_exclusion(rules.first()))
    } else {
        first_decision(rules.drop_first(), path)
    }
}

/// Whether any rule is an inclusion.
pub open spec fn has_inclusion(rules: Seq<Seq<char>>) -> bool {
    exists|k: int| 0 <= k < rules.len() && !is_exclusion(#[trigger] rules[k])
}

/// Whether a path takes part in a diff under an ordered rule list:
/// the first matching rule decides; a path no rule matches is kept
/// exactly when the list asks for no inclusion at all.
pub open spec fn path_retained(rules: Seq<Seq<char>>, path: Seq<char>) -> bool {
    match first_decision(rules, path) {
        Some(b) => b,
        None => !has_inclusion(rules),
    }
}

fn glob_match_from(p: &str, s: &str, pi: usize, si: usize) -> (r: bool)
    requires
        pi <= p@.len(),
        si <= s@.len(),
    ensures
        r == glob_match(p@.skip(pi as int), s@.skip(si as int)),
    decreases p@.len() - pi + s@.len() - si,
{
    let plen = p.unicode_len();
    let slen = s.unicode_len();
    if pi == plen {
        return si == slen;
    }
    let pc = p.get_char(pi);
    proof {
        assert(p@.skip(pi as int).first() == p@[pi as int]);
        assert(p@.skip(pi as int).drop_first() =~= p@.skip(pi + 1));
    }
    if pc == '*' {
        if glob_match_from(p, s, pi + 1, si) {
            return true;
        }
        if si < slen {
            proof {
                assert(s@.skip(si as int).drop_first() =~= s@.skip(si + 1));
            }
            return glob_match_from(p, s, pi, si + 1);
        }
        return false;
    }
    if si == slen {
        return false;
    }
    let sc = s.get_char(si);
    proof {
        assert(s@.skip(si as int).first() == s@[si as int]);
        assert(s@.skip(si as int).drop_first() =~= s@.skip(si + 1));
    }
    if pc == '?' || pc == sc {
        return glob_match_from(p, s, pi + 1, si + 1);
    }
    false
}

/// Decides `glob_match` on string slices.
pub fn glob_match_exec(p: &str, s: &str) -> (r: bool)
    ensures
        r == glob_match(p@, s@),
{
    proof {
        assert(p@.skip(0) =~= p@);
        assert(s@.skip(0) =~= s@);
    }
    glob_match_from(p, s, 0, 0)
}

/// Decides `pattern_matches` on string slices.
pub fn pattern_matches_exec(pat: &str, path: &str) -> (r: bool)
    ensures
        r == pattern_matches(pat@, path@),
{
    if glob_match_exec(pat, path) {
        return true;
    }
    let plen = pat.unicode_len();
    let pathlen = path.unicode_len();
    if plen < pathlen && path.get_char(plen) == '/' {
        let pre = path.substring_char(0, plen);
        proof {
            assert(pre@ =~= path@.take(plen as int));
        }
        str_eq(pre, pat)
    } else {
        false
    }
}

/// Decides `path_retained` for a path under the written rule list.
pub fn path_retained_exec(rules: &Vec<String>, path: &str) -> (r: bool)
    ensures
        r == path_retained(str_views(rules@), path@),
{
    let ghost grules = str_views(rules@);
    let mut i: usize = 0;
    proof {
        assert(grules.skip(0) =~= grules);
    }
    while i < rules.len()
        invariant
            i <= rules.len(),
            grules == str_views(rules@),
            grules.len() == rules@.len(),
            forall|k: int| 0 <= k < rules@.len() ==> grules[k] == #[trigger] rules@[k]@,
            first_decision(grules, path@) == first_decision(grules.skip(i as int), path@),
        decreases rules.len() - i,
    {
        let rule = rules[i].as_str();
        proof {
            assert(grules.skip(i as int).first() == grules[i as int]);
            assert(grules.skip(i as int).drop_first() =~= grules.skip(i + 1));
        }
        let excl = rule.unicode_len() > 0 && rule.get_char(0) == '!';
        let body = if excl {
            let b = rule.substring_char(1, rule.unicode_len());
            proof {
                assert(b@ =~= pattern_body(rule@));
            }
            b
        } else {
            rule
        };
        if pattern_matches_exec(body, path) {
            return !excl;
        }
        i = i + 1;
    }
    let mut j: usize = 0;
    while j < rules.len()
        invariant
            j <= rules.len(),
            grules == str_views(rules@),
            grules.len() == rules@.len(),
            forall|k: int| 0 <= k < rules@.len() ==> grules[k] == #[trigger] rules@[k]@,
            first_decision(grules, path@) is None,
            forall|k: int| 0 <= k < j ==> is_exclusion(#[trigger] grules[k]),
        decreases rules.len() - j,
    {
        let rule = rules[j].as_str();
        if !(rule.unicode_len() > 0 && rule.get_char(0) == '!') {
            return false;
        }
        j = j + 1;
    }
    true
}

} // verus!
