//! A lightweight matcher for `.gitignore`-style patterns.
//!
//! Supports `*`, `**`, `?`, comments (`#`), negation (`!`), dir-only trailing
//! `/`, and anchored patterns (a leading `/` or a `/` inside the pattern).
use vstd::prelude::*;
use vstd::utf8::encode_utf8;

use crate::text::{chars_of, line_bounds, lines_of, string_of_range, trim_end_bound, trim_end_of};

verus! {

/// The byte `*`.
pub open spec fn star() -> u8 {
    42u8
}

/// The byte `/`.
pub open spec fn slash() -> u8 {
    47u8
}

/// The byte `?`.
pub open spec fn qmark() -> u8 {
    63u8
}

/// Whether the glob pattern `p` matches all of `t`, both as bytes:
/// `**` matches any sequence including `/` (a `/` right after it is part of
/// it), `*` any sequence without `/`, `?` one byte other than `/`, and any
/// other byte itself.
pub open spec fn glob_matches(p: Seq<u8>, t: Seq<u8>) -> bool
    decreases t.len(), p.len(),
{
    if p.len() == 0 {
        t.len() == 0
    } else if p[0] == star() && p.len() >= 2 && p[1] == star() {
        let after = p.skip(2);
        let rest = if after.len() > 0 && after[0] == slash() {
            after.skip(1)
        } else {
            after
        };
        glob_matches(rest, t) || (t.len() > 0 && glob_matches(p, t.skip(1)))
    } else if p[0] == star() {
        glob_matches(p.skip(1), t) || (t.len() > 0 && t[0] != slash() && glob_matches(
            p,
            t.skip(1),
        ))
    } else if t.len() == 0 {
        false
    } else if (p[0] == qmark() && t[0] != slash()) || p[0] == t[0] {
        glob_matches(p.skip(1), t.skip(1))
    } else {
        false
    }
}

fn glob_match_from(p: &[u8], pi: usize, t: &[u8], ti: usize) -> (r: bool)
    requires
        pi <= p@.len(),
        ti <= t@.len(),
    ensures
        r == glob_matches(p@.skip(pi as int), t@.skip(ti as int)),
    decreases t@.len() - ti, p@.len() - pi,
{
    let ghost ps = p@.skip(pi as int);
    let ghost ts = t@.skip(ti as int);
    if pi == p.len() {
        return ti == t.len();
    }
    assert(ps[0] == p@[pi as int]);
    if ti < t.len() {
        assert(ts.skip(1) =~= t@.skip(ti + 1));
    }
    assert(ps.skip(1) =~= p@.skip(pi + 1));
    if p[pi] == 42u8 && pi + 1 < p.len() && p[pi + 1] == 42u8 {
        assert(ps[1] == p@[pi + 1]);
        assert(ps.skip(2) =~= p@.skip(pi + 2));
        let mut rest = pi + 2;
        if rest < p.len() && p[rest] == 47u8 {
            assert(ps.skip(2).skip(1) =~= p@.skip(pi + 3));
            rest = rest + 1;
        }
        if glob_match_from(p, rest, t, ti) {
            return true;
        }
        if ti < t.len() {
            assert(ts[0] == t@[ti as int]);
            return glob_match_from(p, pi, t, ti + 1);
        }
        return false;
    }
    if p[pi] == 42u8 {
        if glob_match_from(p, pi + 1, t, ti) {
            return true;
        }
        if ti < t.len() && t[ti] != 47u8 {
            assert(ts[0] == t@[ti as int]);
            return glob_match_from(p, pi, t, ti + 1);
        }
        return false;
    }
    if ti == t.len() {
        return false;
    }
    assert(ts[0] == t@[ti as int]);
    if (p[pi] == 63u8 && t[ti] != 47u8) || p[pi] == t[ti] {
        glob_match_from(p, pi + 1, t, ti + 1)
    } else {
        false
    }
}

/// Matches a gitignore-style glob pattern against text, byte by byte.
pub fn glob_match(pattern: &str, text: &str) -> (r: bool)
    ensures
        r == glob_matches(encode_utf8(pattern@), encode_utf8(text@)),
{
    let p = pattern.as_bytes();
    let t = text.as_bytes();
    assert(p@.skip(0) =~= p@);
    assert(t@.skip(0) =~= t@);
    glob_match_bytes(p, t)
}

/// Matches a glob pattern against text, both given as bytes.
pub fn glob_match_bytes(p: &[u8], t: &[u8]) -> (r: bool)
    ensures
        r == glob_matches(p@, t@),
{
    assert(p@.skip(0) =~= p@);
    assert(t@.skip(0) =~= t@);
    glob_match_from(p, 0, t, 0)
}

/// One parsed line of an ignore file.
pub struct IgnoreRule {
    pub pattern: String,
    pub negated: bool,
    pub dir_only: bool,
    pub anchored: bool,
}

/// What a rule says, over plain values.
pub ghost struct RuleSpec {
    pub pattern: Seq<char>,
    pub negated: bool,
    pub dir_only: bool,
    pub anchored: bool,
}

impl View for IgnoreRule {
    type V = RuleSpec;

    open spec fn view(&self) -> RuleSpec {
        RuleSpec {
            pattern: self.pattern@,
            negated: self.negated,
            dir_only: self.dir_only,
            anchored: self.anchored,
        }
    }
}

/// The rule that one line of an ignore file gives, if any. Trailing
/// whitespace is dropped; blank lines and `#` comments give none. A leading
/// `!` negates; a trailing `/` restricts the rule to directories; a leading
/// `/` anchors it (and is dropped), as does a `/` anywhere else. A line left
/// with an empty pattern gives none.
pub open spec fn rule_of_line(line: Seq<char>) -> Option<RuleSpec> {
    let s = trim_end_of(line);
    if s.len() == 0 || s[0] == '#' {
        None
    } else {
        let negated = s[0] == '!';
        let s1 = if negated { s.drop_first() } else { s };
        let dir_only = s1.len() > 0 && s1.last() == '/';
        let s2 = if dir_only { s1.drop_last() } else { s1 };
        let lead = s2.len() > 0 && s2[0] == '/';
        let s3 = if lead { s2.drop_first() } else { s2 };
        let anchored = lead || s2.contains('/');
        if s3.len() == 0 {
            None
        } else {
            Some(RuleSpec { pattern: s3, negated, dir_only, anchored })
        }
    }
}

/// Parses a single ignore-file line into a rule.
pub fn parse_line(line: &str) -> (r: Option<IgnoreRule>)
    ensures
        r matches Some(rule) ==> rule_of_line(line@) == Some(rule@),
        r is None ==> rule_of_line(line@) is None,
{
    let v = chars_of(line);
    let mut end = trim_end_bound(&v, 0, v.len());
    let ghost s = trim_end_of(line@);
    proof {
        assert(v@.subrange(0, v@.len() as int) =~= v@);
        if end > 0 {
            assert(s[0] == v@[0]);
        }
    }
    if end == 0 || v[0] == '#' {
        return None;
    }
    let mut start: usize = 0;
    let negated = v[0] == '!';
    if negated {
        start = 1;
    }
    let ghost s1 = if negated { s.drop_first() } else { s };
    assert(s1 =~= v@.subrange(start as int, end as int));
    let dir_only = end > start && v[end - 1] == '/';
    if dir_only {
        end = end - 1;
    }
    let ghost s2 = if dir_only { s1.drop_last() } else { s1 };
    assert(s2 =~= v@.subrange(start as int, end as int));
    let lead = end > start && v[start] == '/';
    let mut anchored = false;
    if lead {
        anchored = true;
        start = start + 1;
    } else {
        let mut k = start;
        while k < end && v[k] != '/'
            invariant
                start <= k <= end <= v@.len(),
                forall|j: int| start <= j < k ==> v@[j] != '/',
            decreases end - k,
        {
            k = k + 1;
        }
        anchored = k < end;
        proof {
            if anchored {
                assert(s2[k - start] == '/');
            } else {
                assert forall|j: int| 0 <= j < s2.len() implies s2[j] != '/' by {
                    assert(s2[j] == v@[start + j]);
                }
                assert(!s2.contains('/'));
            }
        }
    }
    let ghost s3 = if lead { s2.drop_first() } else { s2 };
    assert(s3 =~= v@.subrange(start as int, end as int));
    if start >= end {
        return None;
    }
    let pattern = string_of_range(&v, start, end);
    Some(IgnoreRule { pattern, negated, dir_only, anchored })
}

/// The last `/`-separated component of a path: what follows its last `/`,
/// or the whole path when it has none.
pub open spec fn last_component(s: Seq<char>) -> Seq<char>
    decreases s.len(),
{
    if s.len() == 0 {
        s
    } else if s.last() == '/' {
        seq![]
    } else {
        last_component(s.drop_last()).push(s.last())
    }
}

/// Whether rule `r` matches `path`: an anchored rule against the whole path,
/// any other against its last component.
pub open spec fn rule_matches(r: RuleSpec, path: Seq<char>) -> bool {
    if r.anchored {
        glob_matches(encode_utf8(r.pattern), encode_utf8(path))
    } else {
        glob_matches(encode_utf8(r.pattern), encode_utf8(last_component(path)))
    }
}

/// Whether `rules`, read in order, ignore `path`: the last rule that applies
/// and matches decides (a negated one un-ignores); a dir-only rule applies to
/// directories only. No matching rule leaves the path not ignored.
pub open spec fn ignored_by(rules: Seq<RuleSpec>, path: Seq<char>, is_dir: bool) -> bool
    decreases rules.len(),
{
    if rules.len() == 0 {
        false
    } else {
        let r = rules.last();
        if !(r.dir_only && !is_dir) && rule_matches(r, path) {
            !r.negated
        } else {
            ignored_by(rules.drop_last(), path, is_dir)
        }
    }
}

/// The rules that the lines `ls` give, in order, skipping lines that give none.
pub open spec fn rules_of_lines(ls: Seq<Seq<char>>) -> Seq<RuleSpec>
    decreases ls.len(),
{
    if ls.len() == 0 {
        seq![]
    } else {
        match rule_of_line(ls.last()) {
            Some(r) => rules_of_lines(ls.drop_last()).push(r),
            None => rules_of_lines(ls.drop_last()),
        }
    }
}

/// An ordered set of ignore rules.
pub struct GitIgnore {
    pub rules: Vec<IgnoreRule>,
}

impl View for GitIgnore {
    type V = Seq<RuleSpec>;

    open spec fn view(&self) -> Seq<RuleSpec> {
        self.rules@.map_values(|r: IgnoreRule| r@)
    }
}

impl Default for GitIgnore {
    fn default() -> (r: Self)
        ensures
            r@ == Seq::<RuleSpec>::empty(),
    {
        let g = GitIgnore { rules: Vec::new() };
        assert(g@ =~= Seq::<RuleSpec>::empty());
        g
    }
}

proof fn lemma_last_component(s: Seq<char>, j: int)
    requires
        0 <= j <= s.len(),
        forall|k: int| j <= k < s.len() ==> s[k] != '/',
        j == 0 || s[j - 1] == '/',
    ensures
        last_component(s) == s.skip(j),
    decreases s.len(),
{
    if s.len() == 0 {
        assert(s.skip(j) =~= s);
    } else if j == s.len() {
        assert(s.last() == '/');
        assert(s.skip(j) =~= Seq::<char>::empty());
    } else {
        lemma_last_component(s.drop_last(), j);
        assert(s.drop_last().skip(j).push(s.last()) =~= s.skip(j));
    }
}

impl GitIgnore {
    /// The rules of an ignore file's text, one line at a time.
    pub fn from_content(content: &str) -> (r: Self)
        ensures
            r@ == rules_of_lines(lines_of(content@)),
    {
        let v = chars_of(content);
        let bounds = line_bounds(&v);
        let ghost ls = lines_of(content@);
        let mut g = GitIgnore::default();
        let mut i: usize = 0;
        while i < bounds.len()
            invariant
                v@ == content@,
                ls == lines_of(v@),
                bounds@.len() == ls.len(),
                forall|j: int|
                    0 <= j < bounds@.len() ==> {
                        &&& (#[trigger] bounds@[j]).0 <= bounds@[j].1 <= v@.len()
                        &&& ls[j] == v@.subrange(bounds@[j].0 as int, bounds@[j].1 as int)
                    },
                i <= bounds@.len(),
                g@ == rules_of_lines(ls.take(i as int)),
            decreases bounds@.len() - i,
        {
            let (a, b) = bounds[i];
            let line = string_of_range(&v, a, b);
            let ghost before = g@;
            match parse_line(line.as_str()) {
                Some(rule) => {
                    g.rules.push(rule);
                    assert(g@ =~= before.push(rule@));
                },
                None => {},
            }
            proof {
                assert(ls.take(i + 1).drop_last() =~= ls.take(i as int));
                assert(ls.take(i + 1).last() == line@);
            }
            i = i + 1;
        }
        assert(ls.take(i as int) =~= ls);
        g
    }

    /// Appends extra exclusion patterns, written as ignore-file lines.
    pub fn extend_patterns(&mut self, patterns: &[String])
        ensures
            final(self)@ == old(self)@ + rules_of_lines(patterns@.map_values(|p: String| p@)),
    {
        let ghost ls = patterns@.map_values(|p: String| p@);
        let mut i: usize = 0;
        assert(ls.take(0) =~= Seq::<Seq<char>>::empty());
        assert(old(self)@ + rules_of_lines(ls.take(0)) =~= old(self)@);
        while i < patterns.len()
            invariant
                ls == patterns@.map_values(|p: String| p@),
                i <= patterns@.len(),
                self@ == old(self)@ + rules_of_lines(ls.take(i as int)),
            decreases patterns@.len() - i,
        {
            let ghost before = self@;
            match parse_line(patterns[i].as_str()) {
                Some(rule) => {
                    self.rules.push(rule);
                    assert(self@ =~= before.push(rule@));
                },
                None => {},
            }
            proof {
                assert(ls.take(i + 1).drop_last() =~= ls.take(i as int));
                assert(ls.take(i + 1).last() == patterns@[i as int]@);
            }
            i = i + 1;
            assert(self@ =~= old(self)@ + rules_of_lines(ls.take(i as int)));
        }
        assert(ls.take(i as int) =~= ls);
    }

    /// Whether `relative_path` is ignored. `is_dir` tells whether the path is a
    /// directory, which dir-only rules need.
    pub fn is_ignored(&self, relative_path: &str, is_dir: bool) -> (r: bool)
        ensures
            r == ignored_by(self@, relative_path@, is_dir),
    {
        let v = chars_of(relative_path);
        let mut j = v.len();
        while j > 0 && v[j - 1] != '/'
            invariant
                j <= v@.len(),
                forall|k: int| j <= k < v@.len() ==> v@[k] != '/',
            decreases j,
        {
            j = j - 1;
        }
        proof {
            lemma_last_component(v@, j as int);
            assert(v@.subrange(j as int, v@.len() as int) =~= v@.skip(j as int));
        }
        let name = string_of_range(&v, j, v.len());
        let mut ignored = false;
        let mut i: usize = 0;
        while i < self.rules.len()
            invariant
                i <= self.rules@.len(),
                name@ == last_component(relative_path@),
                ignored == ignored_by(self@.take(i as int), relative_path@, is_dir),
            decreases self.rules@.len() - i,
        {
            let rule = &self.rules[i];
            proof {
                assert(self@.take(i + 1).drop_last() =~= self@.take(i as int));
                assert(self@.take(i + 1).last() == rule@);
            }
            if !(rule.dir_only && !is_dir) {
                let matches = if rule.anchored {
                    glob_match(rule.pattern.as_str(), relative_path)
                } else {
                    glob_match(rule.pattern.as_str(), name.as_str())
                };
                if matches {
                    ignored = !rule.negated;
                }
            }
            i = i + 1;
        }
        assert(self@.take(i as int) =~= self@);
        ignored
    }
}

} // verus!
