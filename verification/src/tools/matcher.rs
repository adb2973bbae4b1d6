//! A small glob matcher supporting `*`, `?` and `**`.
//!
//! - `*` matches any sequence of characters except `/`
//! - `?` matches exactly one character except `/`
//! - `**` matches any sequence of characters, including `/`; `**/` may also
//!   match nothing at all

use crate::text::chars_of;
use vstd::prelude::*;

verus! {

/// Whether `s` holds no separator.
pub open spec fn no_separator(s: Seq<char>) -> bool {
    forall|i: int| 0 <= i < s.len() ==> #[trigger] s[i] != '/'
}

/// Whether the glob `p` matches the `/`-separated `s`.
pub open spec fn glob_matches(p: Seq<char>, s: Seq<char>) -> bool
    decreases p.len(),
{
    if p.len() == 0 {
        s.len() == 0
    } else if p[0] == '*' && p.len() > 1 && p[1] == '*' {
        let rest = p.skip(2);
        ||| rest.len() == 0
        ||| rest.len() > 0 && rest[0] == '/' && glob_matches(rest.skip(1), s)
        ||| exists|k: int| 0 <= k <= s.len() && glob_matches(rest, #[trigger] s.skip(k))
    } else if p[0] == '*' {
        exists|k: int|
            0 <= k <= s.len() && no_separator(s.take(k)) && glob_matches(
                p.skip(1),
                #[trigger] s.skip(k),
            )
    } else if p[0] == '?' {
        s.len() > 0 && s[0] != '/' && glob_matches(p.skip(1), s.skip(1))
    } else {
        s.len() > 0 && s[0] == p[0] && glob_matches(p.skip(1), s.skip(1))
    }
}

/// Matches a glob `pattern` against a `/`-separated `path`.
pub fn glob_match(pattern: &str, path: &str) -> (r: bool)
    ensures
        r == glob_matches(pattern@, path@),
{
    let p = chars_of(pattern);
    let s = chars_of(path);
    assert(p@.skip(0) =~= p@);
    assert(s@.skip(0) =~= s@);
    match_here(&p, 0, &s, 0)
}

/// What is left of a text from position `i` on.
pub open spec fn left_from(s: Seq<char>, i: int) -> Seq<char> {
    if i <= s.len() {
        s.skip(i)
    } else {
        seq![]
    }
}

/// Matches what is left of the glob `p` from `pi` on against what is left of
/// `s` from `si` on.
pub fn match_here(p: &Vec<char>, pi: usize, s: &Vec<char>, si: usize) -> (r: bool)
    ensures
        r == glob_matches(left_from(p@, pi as int), left_from(s@, si as int)),
    decreases p@.len() - pi,
{
    assert(s@.skip(s@.len() as int) =~= seq![]);
    let start: usize = if si > s.len() {
        s.len()
    } else {
        si
    };
    if pi >= p.len() {
        return start >= s.len();
    }
    let ghost here = p@.skip(pi as int);
    let ghost path = s@.skip(start as int);
    assert(here[0] == p@[pi as int]);
    assert(here.skip(1) =~= p@.skip(pi + 1));
    let c = p[pi];
    if c == '*' {
        if pi + 1 < p.len() && p[pi + 1] == '*' {
            let rest: usize = pi + 2;
            assert(here[1] == p@[pi + 1]);
            assert(here.skip(2) =~= p@.skip(rest as int));
            if rest == p.len() {
                return true;
            }
            assert(here.skip(2)[0] == p@[rest as int]);
            assert(here.skip(2).skip(1) =~= p@.skip(rest + 1));
            if p[rest] == '/' && match_here(p, rest + 1, s, start) {
                return true;
            }
            let mut k: usize = start;
            loop
                invariant
                    start <= k <= s@.len(),
                    rest == pi + 2,
                    rest < p@.len(),
                    path == s@.skip(start as int),
                    path == left_from(s@, si as int),
                    here == p@.skip(pi as int),
                    here.skip(2) == p@.skip(rest as int),
                    here[0] == '*' && here.len() > 1 && here[1] == '*',
                    forall|j: int|
                        0 <= j < k - start ==> !glob_matches(here.skip(2), #[trigger] path.skip(j)),
                    !(here.skip(2)[0] == '/' && glob_matches(here.skip(2).skip(1), path)),
                decreases s@.len() - k,
            {
                assert(path.skip(k - start) =~= s@.skip(k as int));
                if match_here(p, rest, s, k) {
                    return true;
                }
                if k >= s.len() {
                    return false;
                }
                k = k + 1;
            }
        }
        assert(here.len() > 1 ==> here[1] == p@[pi + 1]);
        let mut k: usize = start;
        loop
            invariant
                start <= k <= s@.len(),
                pi < p.len(),
                path == s@.skip(start as int),
                path == left_from(s@, si as int),
                here == p@.skip(pi as int),
                here.skip(1) == p@.skip(pi + 1),
                here[0] == '*' && !(here.len() > 1 && here[1] == '*'),
                no_separator(path.take(k - start)),
                forall|j: int|
                    0 <= j < k - start ==> !glob_matches(here.skip(1), #[trigger] path.skip(j)),
            decreases s@.len() - k,
        {
            assert(path.skip(k - start) =~= s@.skip(k as int));
            if match_here(p, pi + 1, s, k) {
                return true;
            }
            if k >= s.len() || s[k] == '/' {
                assert forall|j: int| 0 <= j <= path.len() && no_separator(path.take(j)) implies
                    !glob_matches(here.skip(1), #[trigger] path.skip(j)) by {
                    if j > k - start {
                        assert(path.take(j)[k - start] == s@[k as int]);
                    }
                }
                return false;
            }
            assert(path.take(k + 1 - start) =~= path.take(k - start).push(s@[k as int]));
            k = k + 1;
        }
    }
    if start < s.len() {
        assert(path[0] == s@[start as int]);
        assert(path.skip(1) =~= s@.skip(start + 1));
    }
    if c == '?' {
        if start < s.len() && s[start] != '/' {
            match_here(p, pi + 1, s, start + 1)
        } else {
            false
        }
    } else {
        if start < s.len() && s[start] == c {
            match_here(p, pi + 1, s, start + 1)
        } else {
            false
        }
    }
}

// ---------------------------------------------------------------------------
// laws
// ---------------------------------------------------------------------------

/// Matching from inside a glob and a path looks at nothing before the two
/// positions: it is matching what is left of them, from their starts.
pub proof fn law_only_what_is_left_matters(p: Seq<char>, pi: int, s: Seq<char>, si: int)
    requires
        0 <= pi <= p.len(),
        0 <= si <= s.len(),
    ensures
        glob_matches(left_from(p, pi), left_from(s, si)) == glob_matches(p.skip(pi), s.skip(si)),
        glob_matches(left_from(p, pi), left_from(s, si)) == glob_matches(
            left_from(p.skip(pi), 0),
            left_from(s.skip(si), 0),
        ),
        forall|a: Seq<char>, b: Seq<char>|
            #![trigger a + p.skip(pi), b + s.skip(si)]
            glob_matches(
                left_from(a + p.skip(pi), a.len() as int),
                left_from(b + s.skip(si), b.len() as int),
            ) == glob_matches(left_from(p, pi), left_from(s, si)),
{
    assert(p.skip(pi).skip(0) =~= p.skip(pi));
    assert(s.skip(si).skip(0) =~= s.skip(si));
    assert forall|a: Seq<char>, b: Seq<char>|
        #![trigger a + p.skip(pi), b + s.skip(si)]
        glob_matches(
            left_from(a + p.skip(pi), a.len() as int),
            left_from(b + s.skip(si), b.len() as int),
        ) == glob_matches(left_from(p, pi), left_from(s, si)) by {
        assert((a + p.skip(pi)).skip(a.len() as int) =~= p.skip(pi));
        assert((b + s.skip(si)).skip(b.len() as int) =~= s.skip(si));
    }
}

/// Whether a pattern holds neither `*` nor `?`.
pub open spec fn is_literal(p: Seq<char>) -> bool {
    forall|i: int| 0 <= i < p.len() ==> #[trigger] p[i] != '*' && p[i] != '?'
}

/// A pattern without wildcards matches itself and nothing else.
pub proof fn law_literal_matches_itself(p: Seq<char>, s: Seq<char>)
    requires
        is_literal(p),
    ensures
        glob_matches(p, s) == (p == s),
    decreases p.len(),
{
    if p.len() > 0 {
        assert forall|i: int| 0 <= i < p.skip(1).len() implies #[trigger] p.skip(1)[i] != '*'
            && p.skip(1)[i] != '?' by {
            assert(p.skip(1)[i] == p[i + 1]);
        }
        if s.len() > 0 {
            law_literal_matches_itself(p.skip(1), s.skip(1));
            if s[0] == p[0] && p.skip(1) == s.skip(1) {
                assert(p =~= seq![p[0]] + p.skip(1));
                assert(s =~= seq![s[0]] + s.skip(1));
            }
        }
    } else if s.len() == 0 {
        assert(p =~= s);
    }
}

/// A single `*` never crosses a separator.
pub proof fn law_star_stays_in_directory(s: Seq<char>)
    ensures
        glob_matches(seq!['*'], s) == no_separator(s),
{
    let p = seq!['*'];
    assert(p.skip(1) =~= seq![]);
    assert(s.take(s.len() as int) =~= s);
    if no_separator(s) {
        assert(s.skip(s.len() as int).len() == 0);
        assert(glob_matches(p.skip(1), s.skip(s.len() as int)));
    }
    if glob_matches(p, s) {
        let k = choose|k: int|
            0 <= k <= s.len() && no_separator(s.take(k)) && glob_matches(
                p.skip(1),
                #[trigger] s.skip(k),
            );
        assert(s.skip(k).len() == 0);
        assert(k == s.len());
    }
}

/// A trailing `**` matches any rest, across separators.
pub proof fn law_trailing_globstar_matches_everything(s: Seq<char>)
    ensures
        glob_matches(seq!['*', '*'], s),
{
    assert(seq!['*', '*'].skip(2) =~= seq![]);
}

/// Each part of a pattern matches what it stands for, and the rest of the pattern
/// the rest of the path: `?` one character, `*` any number of them, neither of
/// them a separator, `**` any number of characters whatever they are, and `**/`
/// nothing at all too. Any other character matches itself.
pub proof fn law_patterns_are_matched_part_by_part(p: Seq<char>, s: Seq<char>, c: char)
    ensures
        glob_matches(seq![], s) <==> s.len() == 0,
        glob_matches(seq!['?'] + p, s) <==> s.len() > 0 && s[0] != '/' && glob_matches(
            p,
            s.drop_first(),
        ),
        c != '*' && c != '?' ==> (glob_matches(seq![c] + p, s) <==> s.len() > 0 && s[0] == c
            && glob_matches(p, s.drop_first())),
        p.len() == 0 || p[0] != '*' ==> (glob_matches(seq!['*'] + p, s) <==> exists|k: int|
            0 <= k <= s.len() && !s.take(k).contains('/') && #[trigger] glob_matches(p, s.skip(k))),
        p.len() > 0 && p[0] != '/' ==> (glob_matches(seq!['*', '*'] + p, s) <==> exists|k: int|
            0 <= k <= s.len() && #[trigger] glob_matches(p, s.skip(k))),
        glob_matches(seq!['*', '*', '/'] + p, s) <==> glob_matches(p, s) || exists|k: int|
            0 <= k < s.len() && s[k] == '/' && #[trigger] glob_matches(p, s.skip(k + 1)),
{
    if s.len() > 0 {
        assert(s.skip(1) =~= s.drop_first());
    }
    let q = seq!['?'] + p;
    assert(q.skip(1) =~= p);
    let r = seq![c] + p;
    assert(r.skip(1) =~= p);
    if p.len() == 0 || p[0] != '*' {
        lemma_star(p, s);
    }
    if p.len() > 0 && p[0] != '/' {
        lemma_globstar(p, s);
    }
    lemma_globstar_slash(p, s);
}

proof fn lemma_star(p: Seq<char>, s: Seq<char>)
    requires
        p.len() == 0 || p[0] != '*',
    ensures
        glob_matches(seq!['*'] + p, s) <==> exists|k: int|
            0 <= k <= s.len() && !s.take(k).contains('/') && #[trigger] glob_matches(p, s.skip(k)),
{
    let q = seq!['*'] + p;
    assert(q.skip(1) =~= p);
    assert(p.len() > 0 ==> q[1] == p[0]);
    assert forall|k: int| 0 <= k <= s.len() implies no_separator(s.take(k)) == !(
    #[trigger] s.take(k)).contains('/') by {
        let t = s.take(k);
        if !t.contains('/') {
            assert forall|i: int| 0 <= i < t.len() implies #[trigger] t[i] != '/' by {
                assert(t.contains(t[i]));
            }
        }
    }
    if glob_matches(q, s) {
        let k = choose|k: int|
            0 <= k <= s.len() && no_separator(s.take(k)) && glob_matches(
                q.skip(1),
                #[trigger] s.skip(k),
            );
        assert(glob_matches(p, s.skip(k)));
    }
    if exists|k: int|
        0 <= k <= s.len() && !s.take(k).contains('/') && #[trigger] glob_matches(p, s.skip(k)) {
        let k = choose|k: int|
            0 <= k <= s.len() && !s.take(k).contains('/') && #[trigger] glob_matches(p, s.skip(k));
        assert(no_separator(s.take(k)));
        assert(glob_matches(q.skip(1), s.skip(k)));
    }
}

proof fn lemma_globstar(p: Seq<char>, s: Seq<char>)
    requires
        p.len() > 0,
        p[0] != '/',
    ensures
        glob_matches(seq!['*', '*'] + p, s) <==> exists|k: int|
            0 <= k <= s.len() && #[trigger] glob_matches(p, s.skip(k)),
{
    let q = seq!['*', '*'] + p;
    assert(q.skip(2) =~= p);
    if exists|k: int| 0 <= k <= s.len() && glob_matches(q.skip(2), #[trigger] s.skip(k)) {
        let k = choose|k: int| 0 <= k <= s.len() && glob_matches(q.skip(2), #[trigger] s.skip(k));
        assert(glob_matches(p, s.skip(k)));
    }
    if exists|k: int| 0 <= k <= s.len() && #[trigger] glob_matches(p, s.skip(k)) {
        let k = choose|k: int| 0 <= k <= s.len() && #[trigger] glob_matches(p, s.skip(k));
        assert(glob_matches(q.skip(2), s.skip(k)));
    }
}

proof fn lemma_globstar_slash(p: Seq<char>, s: Seq<char>)
    ensures
        glob_matches(seq!['*', '*', '/'] + p, s) <==> glob_matches(p, s) || exists|k: int|
            0 <= k < s.len() && s[k] == '/' && #[trigger] glob_matches(p, s.skip(k + 1)),
{
    let q = seq!['*', '*', '/'] + p;
    let rest = seq!['/'] + p;
    assert(q.skip(2) =~= rest);
    assert(rest.skip(1) =~= p);
    assert forall|k: int| 0 <= k <= s.len() implies #[trigger] glob_matches(rest, s.skip(k)) == (k
        < s.len() && s[k] == '/' && glob_matches(p, s.skip(k + 1))) by {
        if k < s.len() {
            assert(s.skip(k).skip(1) =~= s.skip(k + 1));
            assert(s.skip(k)[0] == s[k]);
        }
    }
    if exists|k: int| 0 <= k <= s.len() && glob_matches(q.skip(2), #[trigger] s.skip(k)) {
        let k = choose|k: int| 0 <= k <= s.len() && glob_matches(q.skip(2), #[trigger] s.skip(k));
        assert(glob_matches(rest, s.skip(k)));
        assert(glob_matches(p, s.skip(k + 1)));
    }
    if exists|k: int|
        0 <= k < s.len() && s[k] == '/' && #[trigger] glob_matches(p, s.skip(k + 1)) {
        let k = choose|k: int|
            0 <= k < s.len() && s[k] == '/' && #[trigger] glob_matches(p, s.skip(k + 1));
        assert(glob_matches(rest, s.skip(k)));
        assert(glob_matches(q.skip(2), s.skip(k)));
    }
}

} // verus!
