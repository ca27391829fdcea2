//! Admission and exclusion of tool names by glob patterns.

use vstd::prelude::*;

use crate::text::{chars_of, has_suffix, joined, stands_at, stands_at_position, text_eq};

verus! {

/// What a glob pattern matches: `*` stands for any (possibly empty) run of
/// characters, every other character for itself.
pub open spec fn glob(pattern: Seq<char>, s: Seq<char>) -> bool
    decreases pattern.len(),
{
    if pattern.len() == 0 {
        s.len() == 0
    } else if pattern[0] == '*' {
        exists|n: int|
            0 <= n <= s.len() && glob(pattern.drop_first(), #[trigger] s.skip(n))
    } else {
        s.len() > 0 && s[0] == pattern[0] && glob(pattern.drop_first(), s.drop_first())
    }
}

/// What a run of parts, each after a star, matches.
spec fn after_star(parts: Seq<Seq<char>>, s: Seq<char>) -> bool
    decreases parts.len(),
{
    if parts.len() == 0 {
        false
    } else if parts.len() == 1 {
        has_suffix(s, parts[0])
    } else {
        exists|at: int| #[trigger]
            stands_at(s, parts[0], at) && after_star(
                parts.drop_first(),
                s.skip(at + parts[0].len()),
            )
    }
}

spec fn star_free(part: Seq<char>) -> bool {
    forall|i: int| 0 <= i < part.len() ==> #[trigger] part[i] != '*'
}

/// A literal head of a pattern matches itself.
proof fn glob_literal(lit: Seq<char>, rest: Seq<char>, s: Seq<char>)
    requires
        star_free(lit),
    ensures
        glob(lit + rest, s) <==> stands_at(s, lit, 0) && glob(rest, s.skip(lit.len() as int)),
    decreases lit.len(),
{
    if lit.len() == 0 {
        assert(lit + rest =~= rest);
        assert(s.skip(0) =~= s);
        assert(s.subrange(0, 0) =~= lit);
    } else {
        let p = lit + rest;
        assert(p[0] == lit[0] && lit[0] != '*');
        assert(p.drop_first() =~= lit.drop_first() + rest);
        if s.len() > 0 {
            assert forall|i: int| 0 <= i < lit.drop_first().len() implies #[trigger] lit.drop_first()[i]
                != '*' by {
                assert(lit[i + 1] != '*');
            }
            glob_literal(lit.drop_first(), rest, s.drop_first());
            if lit.len() <= s.len() {
                assert(s.drop_first().skip(lit.len() - 1) =~= s.skip(lit.len() as int));
                let a = s.subrange(0, lit.len() as int);
                let b = s.drop_first().subrange(0, lit.len() - 1);
                assert(a =~= seq![s[0]] + b);
                assert(lit =~= seq![lit[0]] + lit.drop_first());
                if a == lit {
                    assert(s[0] == a[0]);
                    assert(b =~= a.drop_first());
                }
            }
        }
    }
}

/// The first part of joined parts stands in front.
proof fn joined_first(parts: Seq<Seq<char>>, sep: Seq<char>)
    requires
        parts.len() >= 2,
    ensures
        joined(parts, sep) == parts[0] + (sep + joined(parts.drop_first(), sep)),
    decreases parts.len(),
{
    if parts.len() == 2 {
        reveal_with_fuel(joined, 2);
        assert(parts.drop_last() =~= seq![parts[0]]);
        assert(parts.drop_first() =~= seq![parts[1]]);
        assert(joined(parts, sep) =~= parts[0] + (sep + joined(parts.drop_first(), sep)));
    } else {
        joined_first(parts.drop_last(), sep);
        assert(parts.drop_last().drop_first() =~= parts.drop_first().drop_last());
        assert(joined(parts, sep) =~= parts[0] + (sep + joined(parts.drop_first(), sep)));
    }
}

/// A star followed by joined parts matches as the parts do one by one.
proof fn glob_after_star(parts: Seq<Seq<char>>, s: Seq<char>)
    requires
        parts.len() >= 1,
        forall|i: int| 0 <= i < parts.len() ==> star_free(#[trigger] parts[i]),
    ensures
        glob(seq!['*'] + joined(parts, seq!['*']), s) <==> after_star(parts, s),
    decreases parts.len(),
{
    let star = seq!['*'];
    let body = joined(parts, star);
    let p = star + body;
    assert(p.drop_first() =~= body);
    assert(p[0] == '*');
    let part = parts[0];
    assert(star_free(part));
    if parts.len() == 1 {
        assert(body + Seq::<char>::empty() =~= body);
        if glob(p, s) {
            let n = choose|n: int| 0 <= n <= s.len() && glob(body, #[trigger] s.skip(n));
            glob_literal(part, Seq::empty(), s.skip(n));
            assert(s.skip(n).subrange(0, part.len() as int) =~= s.skip(n));
            assert(n == s.len() - part.len());
        }
        if has_suffix(s, part) {
            let n = s.len() - part.len();
            let t = s.skip(n);
            glob_literal(part, Seq::empty(), t);
            assert(t.subrange(0, part.len() as int) =~= part);
            assert(t.skip(part.len() as int) =~= Seq::<char>::empty());
            assert(glob(body, s.skip(n)));
        }
    } else {
        let rest = parts.drop_first();
        let tail = star + joined(rest, star);
        joined_first(parts, star);
        assert forall|i: int| 0 <= i < rest.len() implies star_free(#[trigger] rest[i]) by {
            assert(star_free(parts[i + 1]));
        }
        if glob(p, s) {
            let n = choose|n: int| 0 <= n <= s.len() && glob(body, #[trigger] s.skip(n));
            let t = s.skip(n);
            glob_literal(part, tail, t);
            assert(t.subrange(0, part.len() as int) =~= s.subrange(n, n + part.len()));
            assert(stands_at(s, part, n));
            assert(t.skip(part.len() as int) =~= s.skip(n + part.len()));
            glob_after_star(rest, s.skip(n + part.len()));
        }
        if after_star(parts, s) {
            let at = choose|at: int| #[trigger]
                stands_at(s, part, at) && after_star(rest, s.skip(at + part.len()));
            let t = s.skip(at);
            glob_after_star(rest, s.skip(at + part.len()));
            glob_literal(part, tail, t);
            assert(t.subrange(0, part.len() as int) =~= s.subrange(at, at + part.len()));
            assert(t.skip(part.len() as int) =~= s.skip(at + part.len()));
            assert(glob(body, s.skip(at)));
        }
    }
}

/// More text in front never hurts after a star.
proof fn after_star_longer(parts: Seq<Seq<char>>, s: Seq<char>, n: int)
    requires
        0 <= n <= s.len(),
        after_star(parts, s.skip(n)),
    ensures
        after_star(parts, s),
{
    let t = s.skip(n);
    if parts.len() == 1 {
        assert(t.skip(t.len() - parts[0].len()) =~= s.skip(s.len() - parts[0].len()));
    } else {
        let at = choose|at: int| #[trigger]
            stands_at(t, parts[0], at) && after_star(
                parts.drop_first(),
                t.skip(at + parts[0].len()),
            );
        assert(t.subrange(at, at + parts[0].len()) =~= s.subrange(n + at, n + at + parts[0].len()));
        assert(t.skip(at + parts[0].len()) =~= s.skip(n + at + parts[0].len()));
        assert(stands_at(s, parts[0], n + at));
    }
}

/// Taking the first occurrence of a part loses no match.
proof fn after_star_first(parts: Seq<Seq<char>>, s: Seq<char>, first: int)
    requires
        parts.len() >= 2,
        stands_at(s, parts[0], first),
        forall|at: int| 0 <= at < first ==> !#[trigger] stands_at(s, parts[0], at),
    ensures
        after_star(parts, s) <==> after_star(parts.drop_first(), s.skip(first + parts[0].len())),
{
    if after_star(parts, s) {
        let at = choose|at: int| #[trigger]
            stands_at(s, parts[0], at) && after_star(
                parts.drop_first(),
                s.skip(at + parts[0].len()),
            );
        let near = s.skip(first + parts[0].len());
        assert(near.skip(at - first) =~= s.skip(at + parts[0].len()));
        after_star_longer(parts.drop_first(), near, at - first);
    }
}

/// The parts of a pattern between its stars.
fn split_stars(pattern: &Vec<char>) -> (r: Vec<Vec<char>>)
    ensures
        r@.len() >= 1,
        joined(part_views(r@), seq!['*']) == pattern@,
        forall|i: int| 0 <= i < r@.len() ==> star_free((#[trigger] r@[i])@),
{
    let mut done: Vec<Vec<char>> = Vec::new();
    let mut part: Vec<char> = Vec::new();
    let ghost star = seq!['*'];
    let mut i: usize = 0;
    proof {
        assert(part_views(done@).push(part@) =~= seq![part@]);
        assert(pattern@.take(0) =~= part@);
    }
    while i < pattern.len()
        invariant
            i <= pattern@.len(),
            star == seq!['*'],
            joined(part_views(done@).push(part@), star) == pattern@.take(i as int),
            star_free(part@),
            forall|k: int| 0 <= k < done@.len() ==> star_free((#[trigger] done@[k])@),
        decreases pattern.len() - i,
    {
        let c = pattern[i];
        let ghost parts = part_views(done@);
        let ghost old_part = part@;
        proof {
            assert(pattern@.take(i + 1) =~= pattern@.take(i as int).push(c));
        }
        if c == '*' {
            done.push(part);
            part = Vec::new();
            proof {
                let now = part_views(done@).push(part@);
                assert(now.drop_last() =~= parts.push(old_part));
                assert(joined(now, star) =~= pattern@.take(i + 1));
            }
        } else {
            part.push(c);
            proof {
                let was = parts.push(old_part);
                let now = parts.push(part@);
                assert(now.drop_last() =~= was.drop_last());
                assert(joined(now, star) =~= pattern@.take(i + 1));
            }
        }
        i = i + 1;
    }
    let ghost parts = part_views(done@);
    let ghost last = part@;
    done.push(part);
    proof {
        assert(part_views(done@) =~= parts.push(last));
        assert(pattern@.take(i as int) =~= pattern@);
    }
    done
}

spec fn part_views(parts: Seq<Vec<char>>) -> Seq<Seq<char>> {
    parts.map_values(|p: Vec<char>| p@)
}

/// Minimal glob: `*` matches any (possibly empty) substring.
pub fn glob_match(pattern: &str, s: &str) -> (r: bool)
    ensures
        r == glob(pattern@, s@),
{
    let p = chars_of(pattern);
    let t = chars_of(s);
    let parts = split_stars(&p);
    let ghost views = part_views(parts@);
    let ghost star = seq!['*'];
    proof {
        assert forall|i: int| 0 <= i < views.len() implies star_free(#[trigger] views[i]) by {
            assert(star_free(parts@[i]@));
        }
    }
    if parts.len() == 1 {
        proof {
            assert(p@ =~= views[0] + Seq::<char>::empty());
            glob_literal(views[0], Seq::empty(), s@);
            if stands_at(s@, views[0], 0) && s@.skip(views[0].len() as int).len() == 0 {
                assert(s@.subrange(0, views[0].len() as int) =~= s@);
            }
            if s@ == p@ {
                assert(s@.subrange(0, views[0].len() as int) =~= s@);
            }
        }
        return text_eq(pattern, s);
    }
    proof {
        joined_first(views, star);
        glob_literal(views[0], star + joined(views.drop_first(), star), s@);
        assert(views.skip(1) =~= views.drop_first());
    }
    if !stands_at_position(t.as_slice(), parts[0].as_slice(), 0) {
        return false;
    }
    let mut pos: usize = parts[0].len();
    let mut i: usize = 1;
    proof {
        assert forall|k: int| 0 <= k < views.drop_first().len() implies star_free(
            #[trigger] views.drop_first()[k],
        ) by {
            assert(star_free(views[k + 1]));
        }
        glob_after_star(views.drop_first(), s@.skip(pos as int));
    }
    while i < parts.len() - 1
        invariant
            1 <= i < parts@.len(),
            views == part_views(parts@),
            t@ == s@,
            pos <= t.len(),
            glob(pattern@, s@) == after_star(views.skip(i as int), s@.skip(pos as int)),
        decreases parts.len() - i,
    {
        let part = &parts[i];
        let ghost rest = s@.skip(pos as int);
        let mut at: usize = pos;
        while at < t.len() && !stands_at_position(t.as_slice(), part.as_slice(), at)
            invariant
                pos <= at <= t.len(),
                forall|k: int| pos <= k < at ==> !#[trigger] stands_at(t@, part@, k),
            decreases t.len() - at,
        {
            at = at + 1;
        }
        proof {
            assert forall|k: int| 0 <= k <= rest.len() implies #[trigger] stands_at(rest, part@, k)
                == stands_at(t@, part@, pos + k) by {
                if k + part@.len() <= rest.len() {
                    assert(rest.subrange(k, k + part@.len()) =~= t@.subrange(
                        pos + k,
                        pos + k + part@.len(),
                    ));
                }
            }
            assert(views.skip(i as int)[0] == part@);
            assert(views.skip(i as int).drop_first() =~= views.skip(i + 1));
        }
        if !stands_at_position(t.as_slice(), part.as_slice(), at) {
            return false;
        }
        proof {
            let first = at - pos;
            assert forall|k: int| 0 <= k < first implies !#[trigger] stands_at(rest, part@, k) by {
                assert(!stands_at(t@, part@, pos + k));
            }
            after_star_first(views.skip(i as int), rest, first);
            assert(rest.skip(first + part@.len()) =~= s@.skip(at + part@.len()));
        }
        pos = at + part.len();
        i = i + 1;
    }
    let last = &parts[i];
    proof {
        assert(views.skip(i as int) =~= seq![last@]);
    }
    if last.len() > t.len() - pos {
        return false;
    }
    proof {
        let rest = s@.skip(pos as int);
        assert(rest.skip(rest.len() - last@.len()) =~= t@.subrange(
            t@.len() - last@.len(),
            t@.len() as int,
        ));
    }
    stands_at_position(t.as_slice(), last.as_slice(), t.len() - last.len())
}

/// Glob filter over tool names. An empty list of includes admits
/// every name.
#[derive(Debug, Clone)]
pub struct ToolFilter {
    pub includes: Vec<String>,
    pub excludes: Vec<String>,
}

impl Default for ToolFilter {
    /// The filter that admits every name.
    fn default() -> (r: Self)
        ensures
            r.includes@.len() == 0,
            r.excludes@.len() == 0,
    {
        ToolFilter { includes: Vec::new(), excludes: Vec::new() }
    }
}

/// Whether some pattern of a list matches a name.
pub open spec fn any_matches(patterns: Seq<String>, name: Seq<char>) -> bool {
    exists|i: int| 0 <= i < patterns.len() && glob((#[trigger] patterns[i])@, name)
}

/// Tests a name against a list of patterns.
fn matches_any(patterns: &Vec<String>, name: &str) -> (r: bool)
    ensures
        r == any_matches(patterns@, name@),
{
    let mut i: usize = 0;
    while i < patterns.len()
        invariant
            i <= patterns@.len(),
            forall|k: int| 0 <= k < i ==> !glob((#[trigger] patterns@[k])@, name@),
        decreases patterns.len() - i,
    {
        if glob_match(patterns[i].as_str(), name) {
            return true;
        }
        i = i + 1;
    }
    false
}

impl ToolFilter {
    /// Whether the filter admits a name.
    pub open spec fn admits(&self, name: Seq<char>) -> bool {
        &&& self.includes@.len() == 0 || any_matches(self.includes@, name)
        &&& !any_matches(self.excludes@, name)
    }

    pub fn allows(&self, name: &str) -> (r: bool)
        ensures
            r == self.admits(name@),
    {
        if self.includes.len() != 0 && !matches_any(&self.includes, name) {
            return false;
        }
        !matches_any(&self.excludes, name)
    }
}

// ── What patterns match ──────────────────────────────────────────────

/// The simplest patterns: the empty one matches nothing but the empty name, a
/// star matches every name, and any other character matches itself alone.
pub proof fn simple_patterns(s: Seq<char>, c: char)
    ensures
        glob(Seq::empty(), s) <==> s.len() == 0,
        glob(seq!['*'], s),
        c != '*' ==> (glob(seq![c], s) <==> s == seq![c]),
{
    let star = seq!['*'];
    assert(star.drop_first() =~= Seq::<char>::empty());
    assert(s.skip(s.len() as int).len() == 0);
    assert(glob(star.drop_first(), s.skip(s.len() as int)));
    let one = seq![c];
    assert(one.drop_first() =~= Seq::<char>::empty());
    if c != '*' {
        reveal_with_fuel(glob, 2);
        if glob(one, s) {
            assert(glob(one.drop_first(), s.drop_first()));
            assert(s.drop_first().len() == 0);
            assert(s =~= one);
        }
        if s == one {
            assert(s.drop_first().len() == 0);
        }
    }
}

/// A pattern behind another matches exactly the names that fall into a part
/// that the one matches, and a rest that the other does.
pub proof fn patterns_match_part_by_part(p: Seq<char>, q: Seq<char>, s: Seq<char>)
    ensures
        glob(p + q, s) <==> exists|k: int|
            0 <= k <= s.len() && glob(p, #[trigger] s.take(k)) && glob(q, s.skip(k)),
    decreases p.len(),
{
    let all = p + q;
    if p.len() == 0 {
        assert(all =~= q);
        assert(s.skip(0) =~= s);
        assert(s.take(0).len() == 0);
    } else {
        let rest = p.drop_first();
        assert(all.drop_first() =~= rest + q);
        assert(all[0] == p[0]);
        if p[0] == '*' {
            if glob(all, s) {
                let n = choose|n: int|
                    0 <= n <= s.len() && glob(all.drop_first(), #[trigger] s.skip(n));
                let t = s.skip(n);
                patterns_match_part_by_part(rest, q, t);
                let j = choose|j: int|
                    0 <= j <= t.len() && glob(rest, #[trigger] t.take(j)) && glob(q, t.skip(j));
                assert(s.take(n + j).skip(n) =~= t.take(j));
                assert(s.skip(n + j) =~= t.skip(j));
                assert(glob(rest, s.take(n + j).skip(n)));
                assert(glob(p, s.take(n + j)));
            }
            if exists|k: int|
                0 <= k <= s.len() && glob(p, #[trigger] s.take(k)) && glob(q, s.skip(k)) {
                let k = choose|k: int|
                    0 <= k <= s.len() && glob(p, #[trigger] s.take(k)) && glob(q, s.skip(k));
                let head = s.take(k);
                let n = choose|n: int| 0 <= n <= head.len() && glob(rest, #[trigger] head.skip(n));
                let t = s.skip(n);
                assert(t.take(k - n) =~= head.skip(n));
                assert(t.skip(k - n) =~= s.skip(k));
                patterns_match_part_by_part(rest, q, t);
                assert(glob(all.drop_first(), s.skip(n)));
            }
        } else {
            if s.len() > 0 {
                patterns_match_part_by_part(rest, q, s.drop_first());
            }
            if glob(all, s) {
                let t = s.drop_first();
                let j = choose|j: int|
                    0 <= j <= t.len() && glob(rest, #[trigger] t.take(j)) && glob(q, t.skip(j));
                assert(s.take(j + 1).drop_first() =~= t.take(j));
                assert(s.skip(j + 1) =~= t.skip(j));
                assert(glob(p, s.take(j + 1)));
            }
            if exists|k: int|
                0 <= k <= s.len() && glob(p, #[trigger] s.take(k)) && glob(q, s.skip(k)) {
                let k = choose|k: int|
                    0 <= k <= s.len() && glob(p, #[trigger] s.take(k)) && glob(q, s.skip(k));
                let t = s.drop_first();
                assert(s.take(k).drop_first() =~= t.take(k - 1));
                assert(s.skip(k) =~= t.skip(k - 1));
                assert(glob(rest, t.take(k - 1)));
            }
        }
    }
}

/// A filter lets a name through exactly where some include matches it, or there
/// are none, and no exclude does.
pub proof fn filters_go_by_their_patterns(filter: ToolFilter, name: Seq<char>)
    ensures
        filter.admits(name) <==> (filter.includes@.len() == 0 || exists|i: int|
            0 <= i < filter.includes@.len() && glob((#[trigger] filter.includes@[i])@, name)) && (
        forall|i: int|
            0 <= i < filter.excludes@.len() ==> !glob((#[trigger] filter.excludes@[i])@, name)),
{
}

}
