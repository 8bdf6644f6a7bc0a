//! Ignore rules in the manner of `.gitignore`, applied to the hits of a search that does not know
//! such files itself.
//!
//! Hidden paths are always left out. Of the rules, the last one that fits decides.

use crate::text;
use vstd::prelude::*;
use vstd::string::*;

verus! {

// ---------------------------------------------------------------------------
// Globs
// ---------------------------------------------------------------------------
pub const STAR: char = '*';

pub const QUESTION: char = '?';

pub const SLASH: char = '/';

pub const BACKSLASH: char = '\\';

/// Whether `p` begins with two stars.
pub open spec fn starts_double(p: Seq<char>) -> bool {
    p.len() >= 2 && p[0] == STAR && p[1] == STAR
}

/// `p` behind the pairs of stars at its beginning.
pub open spec fn past_doubles(p: Seq<char>) -> Seq<char>
    decreases p.len(),
{
    if starts_double(p) {
        past_doubles(p.skip(2))
    } else {
        p
    }
}

/// Passing pairs of stars does not make a pattern longer.
pub proof fn lemma_past_doubles_len(p: Seq<char>)
    ensures
        past_doubles(p).len() <= p.len(),
    decreases p.len(),
{
    if starts_double(p) {
        lemma_past_doubles_len(p.skip(2));
    }
}

/// Whether none of the first `n` characters of `t` is a slash.
pub open spec fn slash_free(t: Seq<char>, n: int) -> bool {
    forall|k: int| 0 <= k < n ==> t[k] != SLASH
}

/// Whether the pattern `p` fits the whole of `t`.
///
/// A star fits any characters but slashes, a question mark one character but a slash, a double
/// star anything, a double star before a slash any number of leading directories; a backslash
/// takes the next character as it is.
pub open spec fn globs(p: Seq<char>, t: Seq<char>) -> bool
    decreases p.len(),
{
    if p.len() == 0 {
        t.len() == 0
    } else if starts_double(p) {
        proof {
            lemma_past_doubles_len(p.skip(2));
        }
        let rest = past_doubles(p.skip(2));
        if rest.len() > 0 && rest[0] == SLASH {
            ||| globs(rest.skip(1), t)
            ||| exists|i: int|
                0 < i <= t.len() && t[i - 1] == SLASH && globs(rest.skip(1), #[trigger] t.skip(i))
        } else {
            exists|i: int| 0 <= i <= t.len() && globs(rest, #[trigger] t.skip(i))
        }
    } else if p[0] == STAR {
        exists|i: int|
            0 <= i <= t.len() && slash_free(t, i) && globs(p.skip(1), #[trigger] t.skip(i))
    } else if p[0] == QUESTION && t.len() > 0 && t[0] != SLASH {
        globs(p.skip(1), t.skip(1))
    } else if p[0] == BACKSLASH && p.len() >= 2 && t.len() > 0 {
        p[1] == t[0] && globs(p.skip(2), t.skip(1))
    } else {
        t.len() > 0 && t[0] == p[0] && globs(p.skip(1), t.skip(1))
    }
}

/// Whether the pattern `p[from..]` fits `t[at..]`.
fn glob_inner(p: &Vec<char>, from: usize, t: &Vec<char>, at: usize) -> (r: bool)
    requires
        from <= p.len(),
        at <= t.len(),
    ensures
        r == globs(p@.skip(from as int), t@.skip(at as int)),
    decreases p.len() - from, 1nat,
{
    let mut pi: usize = from;
    let mut ti: usize = at;
    while pi < p.len()
        invariant
            from <= pi <= p.len(),
            ti <= t.len(),
            globs(p@.skip(from as int), t@.skip(at as int)) == globs(
                p@.skip(pi as int),
                t@.skip(ti as int),
            ),
        decreases p.len() - pi,
    {
        let ghost ps = p@.skip(pi as int);
        let ghost ts = t@.skip(ti as int);
        let c = p[pi];
        if c == STAR && pi + 1 < p.len() && p[pi + 1] == STAR {
            return glob_double(p, pi, t, ti);
        }
        if c == STAR {
            return glob_star(p, pi, t, ti);
        }
        if c == QUESTION && ti < t.len() && t[ti] != SLASH {
            assert(ps.skip(1) == p@.skip(pi + 1));
            assert(ts.skip(1) == t@.skip(ti + 1));
            pi += 1;
            ti += 1;
        } else if c == BACKSLASH && pi + 1 < p.len() && ti < t.len() {
            if p[pi + 1] != t[ti] {
                return false;
            }
            assert(ps.skip(2) == p@.skip(pi + 2));
            assert(ts.skip(1) == t@.skip(ti + 1));
            pi += 2;
            ti += 1;
        } else if ti < t.len() && t[ti] == c {
            assert(ps.skip(1) == p@.skip(pi + 1));
            assert(ts.skip(1) == t@.skip(ti + 1));
            pi += 1;
            ti += 1;
        } else {
            return false;
        }
    }
    ti == t.len()
}

/// `glob_inner` at a double star.
fn glob_double(p: &Vec<char>, pi: usize, t: &Vec<char>, ti: usize) -> (r: bool)
    requires
        pi < p.len(),
        starts_double(p@.skip(pi as int)),
        ti <= t.len(),
    ensures
        r == globs(p@.skip(pi as int), t@.skip(ti as int)),
    decreases p.len() - pi, 0nat,
{
    let ghost ps = p@.skip(pi as int);
    let ghost ts = t@.skip(ti as int);
    let ghost rest = past_doubles(ps.skip(2));
    let mut next: usize = pi + 2;
    assert(ps.skip(2) == p@.skip(next as int));
    while p.len() - next >= 2 && p[next] == STAR && p[next + 1] == STAR
        invariant
            pi + 2 <= next <= p.len(),
            rest == past_doubles(p@.skip(next as int)),
        decreases p.len() - next,
    {
        assert(p@.skip(next as int).skip(2) == p@.skip(next + 2));
        next += 2;
    }
    assert(rest == p@.skip(next as int));
    if next < p.len() && p[next] == SLASH {
        assert(rest.skip(1) == p@.skip(next + 1));
        if glob_inner(p, next + 1, t, ti) {
            return true;
        }
        let mut i: usize = ti;
        while i < t.len()
            invariant
                pi + 2 <= next < p.len(),
                ti <= i <= t.len(),
                ps == p@.skip(pi as int),
                ts == t@.skip(ti as int),
                starts_double(ps),
                rest == past_doubles(ps.skip(2)),
                rest.len() > 0 && rest[0] == SLASH,
                rest.skip(1) == p@.skip(next + 1),
                !globs(rest.skip(1), ts),
                forall|k: int|
                    0 < k <= i - ti && ts[k - 1] == SLASH ==> !globs(
                        rest.skip(1),
                        #[trigger] ts.skip(k),
                    ),
            decreases t.len() - i,
        {
            assert(ts.skip(i - ti + 1) == t@.skip(i + 1));
            if t[i] == SLASH && glob_inner(p, next + 1, t, i + 1) {
                assert(globs(rest.skip(1), ts.skip(i - ti + 1)));
                return true;
            }
            i += 1;
        }
        return false;
    }
    let mut i: usize = ti;
    loop
        invariant
            pi + 2 <= next <= p.len(),
            ti <= i <= t.len(),
            ps == p@.skip(pi as int),
            ts == t@.skip(ti as int),
            starts_double(ps),
            rest == past_doubles(ps.skip(2)),
            !(rest.len() > 0 && rest[0] == SLASH),
            rest == p@.skip(next as int),
            forall|k: int| 0 <= k < i - ti ==> !globs(rest, #[trigger] ts.skip(k)),
        decreases t.len() - i,
    {
        assert(ts.skip(i - ti) == t@.skip(i as int));
        if glob_inner(p, next, t, i) {
            assert(globs(rest, ts.skip(i - ti)));
            return true;
        }
        if i == t.len() {
            return false;
        }
        i += 1;
    }
}

/// `glob_inner` at a single star.
fn glob_star(p: &Vec<char>, pi: usize, t: &Vec<char>, ti: usize) -> (r: bool)
    requires
        pi < p.len(),
        p@[pi as int] == STAR,
        !starts_double(p@.skip(pi as int)),
        ti <= t.len(),
    ensures
        r == globs(p@.skip(pi as int), t@.skip(ti as int)),
    decreases p.len() - pi, 0nat,
{
    let ghost ps = p@.skip(pi as int);
    let ghost ts = t@.skip(ti as int);
    assert(ps.skip(1) == p@.skip(pi + 1));
    let mut i: usize = ti;
    loop
        invariant
            pi < p.len(),
            ti <= i <= t.len(),
            ps == p@.skip(pi as int),
            ps[0] == STAR,
            !starts_double(ps),
            ts == t@.skip(ti as int),
            ps.skip(1) == p@.skip(pi + 1),
            slash_free(ts, i - ti),
            forall|k: int| 0 <= k < i - ti ==> !globs(ps.skip(1), #[trigger] ts.skip(k)),
        decreases t.len() - i,
    {
        assert(ts.skip(i - ti) == t@.skip(i as int));
        if glob_inner(p, pi + 1, t, i) {
            assert(globs(ps.skip(1), ts.skip(i - ti)));
            return true;
        }
        if i == t.len() {
            return false;
        }
        if t[i] == SLASH {
            assert(ts[i - ti] == SLASH);
            return false;
        }
        i += 1;
    }
}

/// Whether `pattern` fits the whole of `text`.
pub fn glob_match(pattern: &str, text: &str) -> (r: bool)
    ensures
        r == globs(pattern@, text@),
{
    let p = text::chars_of(pattern);
    let t = text::chars_of(text);
    assert(p@.skip(0) == p@);
    assert(t@.skip(0) == t@);
    glob_inner(&p, 0, &t, 0)
}

// ---------------------------------------------------------------------------
// Rules
// ---------------------------------------------------------------------------
/// One line of an ignore file.
#[derive(Debug)]
pub struct Rule {
    /// The pattern without its marks.
    pub pattern: String,
    /// A path that fits is taken in again.
    pub negated: bool,
    /// The pattern is held against the path from its beginning.
    pub anchored: bool,
}

/// What a rule says.
pub struct RuleModel {
    pub pattern: Seq<char>,
    pub negated: bool,
    pub anchored: bool,
}

impl View for Rule {
    type V = RuleModel;

    open spec fn view(&self) -> RuleModel {
        RuleModel { pattern: self.pattern@, negated: self.negated, anchored: self.anchored }
    }
}

/// What the rules of a list say.
pub open spec fn rule_views(rules: Seq<Rule>) -> Seq<RuleModel> {
    rules.map_values(|r: Rule| r@)
}

/// The rule that a line of an ignore file writes; blank lines and comments write none.
///
/// An exclamation mark negates, a slash at the end is dropped. A rule whose pattern holds a slash
/// is anchored; a double star and a slash in front take the anchor back.
pub open spec fn rule_of(line: Seq<char>) -> Option<RuleModel> {
    let line = text::trimmed(line);
    if line.len() == 0 || line[0] == '#' {
        None
    } else {
        let negated = line[0] == '!';
        let rest = if negated {
            line.drop_first()
        } else {
            line
        };
        let body = if rest.len() > 0 && rest.last() == '/' {
            rest.drop_last()
        } else {
            rest
        };
        let local = if body.len() > 0 && body[0] == '/' {
            body.drop_first()
        } else {
            body
        };
        let deep = "**/"@.is_prefix_of(local);
        let pattern = if deep {
            local.skip("**/"@.len() as int)
        } else {
            local
        };
        if pattern.len() == 0 {
            None
        } else {
            Some(
                RuleModel {
                    pattern,
                    negated,
                    anchored: if deep {
                        pattern.contains('/')
                    } else {
                        body.contains('/')
                    },
                },
            )
        }
    }
}

/// The rules that some lines write.
pub open spec fn rules_of(lines: Seq<Seq<char>>) -> Seq<RuleModel>
    decreases lines.len(),
{
    if lines.len() == 0 {
        Seq::empty()
    } else {
        match rule_of(lines.last()) {
            Some(rule) => rules_of(lines.drop_last()).push(rule),
            None => rules_of(lines.drop_last()),
        }
    }
}

fn parse_rule(line: &str) -> (r: Option<Rule>)
    ensures
        match r {
            Some(rule) => rule_of(line@) == Some(rule@),
            None => rule_of(line@) is None,
        },
{
    let line = text::trim(line);
    let cs = text::chars_of(line.as_str());
    let n: usize = cs.len();
    if n == 0 || cs[0] == '#' {
        return None;
    }
    let negated = cs[0] == '!';
    let from: usize = if negated {
        1
    } else {
        0
    };
    let to: usize = if from < n && cs[n - 1] == '/' {
        n - 1
    } else {
        n
    };
    let body = text::text_of(&cs, from, to);
    let slash = text::has_char(body.as_str(), '/');
    let start: usize = if from < to && cs[from] == '/' {
        from + 1
    } else {
        from
    };
    let local = text::text_of(&cs, start, to);
    proof {
        let rest = if negated {
            line@.drop_first()
        } else {
            line@
        };
        assert(rest == cs@.subrange(from as int, n as int));
        if rest.len() > 0 && rest.last() == '/' {
            assert(rest.drop_last() == body@);
        } else {
            assert(rest == body@);
        }
        if body@.len() > 0 && body@[0] == '/' {
            assert(body@.drop_first() == local@);
        } else {
            assert(body@ == local@);
        }
    }
    let deep = text::strip_prefix(local.as_str(), "**/");
    let (pattern, anchored) = match deep {
        Some(p) => {
            let again = text::has_char(p.as_str(), '/');
            (p, again)
        },
        None => (local, slash),
    };
    if pattern.as_str().is_empty() {
        None
    } else {
        Some(Rule { pattern, negated, anchored })
    }
}

/// The rules of an ignore file with the given content, in its order.
pub fn parse_ignore_content(content: &str) -> (r: Vec<Rule>)
    ensures
        rule_views(r@) == rules_of(text::lines(content@)),
{
    let lines = text::lines_of(content);
    let mut out: Vec<Rule> = Vec::new();
    let mut i: usize = 0;
    let ghost ls = text::views(lines@);
    assert(rule_views(out@) == rules_of(ls.take(0)));
    while i < lines.len()
        invariant
            i <= lines@.len(),
            ls == text::views(lines@),
            rule_views(out@) == rules_of(ls.take(i as int)),
        decreases lines@.len() - i,
    {
        let ghost before = out@;
        assert(ls.take(i + 1).drop_last() == ls.take(i as int));
        assert(ls.take(i + 1).last() == lines@[i as int]@);
        if let Some(rule) = parse_rule(lines[i].as_str()) {
            out.push(rule);
            assert(rule_views(out@) =~= rule_views(before).push(rule@));
        }
        i += 1;
    }
    assert(ls.take(ls.len() as int) == ls);
    out
}

// ---------------------------------------------------------------------------
// Matching
// ---------------------------------------------------------------------------
/// Whether a part of a path is hidden.
pub open spec fn is_hidden_part(part: Seq<char>) -> bool {
    part.len() > 0 && part[0] == '.' && part != "."@ && part != ".."@
}

/// Whether some part of `path` is hidden.
pub open spec fn is_hidden(path: Seq<char>) -> bool {
    exists|i: int|
        0 <= i < text::split(path, '/').len() && is_hidden_part(#[trigger] text::split(path, '/')[i])
}

/// Whether some part of `path` is hidden.
pub fn has_hidden_component(path: &str) -> (r: bool)
    ensures
        r == is_hidden(path@),
{
    let parts = text::split_text(path, '/');
    let mut i: usize = 0;
    while i < parts.len()
        invariant
            i <= parts@.len(),
            text::views(parts@) == text::split(path@, '/'),
            forall|k: int| 0 <= k < i ==> !is_hidden_part(#[trigger] text::split(path@, '/')[k]),
        decreases parts@.len() - i,
    {
        let part = parts[i].as_str();
        assert(part@ == text::split(path@, '/')[i as int]);
        let cs = text::chars_of(part);
        if cs.len() > 0 && cs[0] == '.' && !text::same_text(part, ".") && !text::same_text(
            part,
            "..",
        ) {
            return true;
        }
        i += 1;
    }
    false
}

/// Whether `pattern` fits one part of a path.
pub open spec fn fits_part(pattern: Seq<char>, part: Seq<char>) -> bool {
    globs(pattern, part)
}

/// Whether `pattern` fits one part of a path.
pub fn component_matches_pattern(pattern: &str, component: &str) -> (r: bool)
    ensures
        r == fits_part(pattern@, component@),
{
    glob_match(pattern, component)
}

/// Whether the parts of `pattern` fit the first parts of `path`, one by one.
pub open spec fn fits_from_start(pattern: Seq<char>, path: Seq<char>) -> bool {
    let ps = text::split(pattern, '/');
    let ts = text::split(path, '/');
    &&& ps.len() <= ts.len()
    &&& forall|i: int| 0 <= i < ps.len() ==> fits_part(#[trigger] ps[i], ts[i])
}

/// Whether the parts of `pattern` fit the first parts of `path`, one by one.
pub fn path_matches_pattern(pattern: &str, path: &str) -> (r: bool)
    ensures
        r == fits_from_start(pattern@, path@),
{
    let ps = text::split_text(pattern, '/');
    let ts = text::split_text(path, '/');
    if ps.len() > ts.len() {
        return false;
    }
    let mut i: usize = 0;
    while i < ps.len()
        invariant
            i <= ps@.len() <= ts@.len(),
            text::views(ps@) == text::split(pattern@, '/'),
            text::views(ts@) == text::split(path@, '/'),
            forall|k: int|
                0 <= k < i ==> fits_part(
                    #[trigger] text::split(pattern@, '/')[k],
                    text::split(path@, '/')[k],
                ),
        decreases ps@.len() - i,
    {
        assert(ps@[i as int]@ == text::split(pattern@, '/')[i as int]);
        assert(ts@[i as int]@ == text::split(path@, '/')[i as int]);
        if !component_matches_pattern(ps[i].as_str(), ts[i].as_str()) {
            return false;
        }
        i += 1;
    }
    true
}

/// Whether `pattern` fits some part of `path`.
pub open spec fn fits_somewhere(pattern: Seq<char>, path: Seq<char>) -> bool {
    exists|i: int|
        0 <= i < text::split(path, '/').len() && fits_part(
            pattern,
            #[trigger] text::split(path, '/')[i],
        )
}

fn any_part_matches(pattern: &str, path: &str) -> (r: bool)
    ensures
        r == fits_somewhere(pattern@, path@),
{
    let parts = text::split_text(path, '/');
    let mut i: usize = 0;
    while i < parts.len()
        invariant
            i <= parts@.len(),
            text::views(parts@) == text::split(path@, '/'),
            forall|k: int|
                0 <= k < i ==> !fits_part(pattern@, #[trigger] text::split(path@, '/')[k]),
        decreases parts@.len() - i,
    {
        assert(parts@[i as int]@ == text::split(path@, '/')[i as int]);
        if component_matches_pattern(pattern, parts[i].as_str()) {
            return true;
        }
        i += 1;
    }
    false
}

/// Whether the rule fits `path`.
pub open spec fn fits(rule: RuleModel, path: Seq<char>) -> bool {
    if rule.anchored {
        fits_from_start(rule.pattern, path)
    } else {
        fits_somewhere(rule.pattern, path)
    }
}

/// What the rules say of `path`: the last one that fits decides.
pub open spec fn verdict(rules: Seq<RuleModel>, path: Seq<char>) -> bool
    decreases rules.len(),
{
    if rules.len() == 0 {
        false
    } else if fits(rules.last(), path) {
        !rules.last().negated
    } else {
        verdict(rules.drop_last(), path)
    }
}

/// Whether a search leaves `path` out.
pub open spec fn ignored(rules: Seq<RuleModel>, path: Seq<char>) -> bool {
    is_hidden(path) || verdict(rules, path)
}

/// The rules of the contents of some files, one file behind the other.
pub open spec fn level_rules(contents: Seq<Seq<char>>) -> Seq<RuleModel>
    decreases contents.len(),
{
    if contents.len() == 0 {
        Seq::empty()
    } else {
        level_rules(contents.drop_last()) + rules_of(text::lines(contents.last()))
    }
}

/// The views of the contents of several directories.
pub open spec fn level_views(levels: Seq<Vec<String>>) -> Seq<Seq<Seq<char>>> {
    levels.map_values(|l: Vec<String>| text::views(l@))
}

/// The rules of several directories, the nearest given first. The nearest come last, so that they
/// decide.
pub open spec fn nested_rules(levels: Seq<Seq<Seq<char>>>) -> Seq<RuleModel>
    decreases levels.len(),
{
    if levels.len() == 0 {
        Seq::empty()
    } else {
        nested_rules(levels.drop_first()) + level_rules(levels[0])
    }
}

/// The rules in force for a search.
pub struct IgnoreFilter {
    pub rules: Vec<Rule>,
}

impl View for IgnoreFilter {
    type V = Seq<RuleModel>;

    open spec fn view(&self) -> Seq<RuleModel> {
        rule_views(self.rules@)
    }
}

impl IgnoreFilter {
    /// The filter of the ignore files found on the way up from a directory: for each directory,
    /// the nearest first, the contents of its files.
    pub fn from_levels(levels: &Vec<Vec<String>>) -> (r: Self)
        ensures
            r@ == nested_rules(level_views(levels@)),
    {
        let mut rules: Vec<Rule> = Vec::new();
        let mut i: usize = levels.len();
        let ghost ls = level_views(levels@);
        assert(ls.skip(ls.len() as int) == Seq::<Seq<Seq<char>>>::empty());
        assert(rule_views(rules@) == nested_rules(ls.skip(i as int)));
        while i > 0
            invariant
                i <= levels@.len(),
                ls == level_views(levels@),
                rule_views(rules@) == nested_rules(ls.skip(i as int)),
            decreases i,
        {
            i -= 1;
            let level = &levels[i];
            let ghost outer = rule_views(rules@);
            let ghost cs = text::views(level@);
            assert(ls[i as int] == cs);
            let mut j: usize = 0;
            assert(rule_views(rules@) =~= outer + level_rules(cs.take(0)));
            while j < level.len()
                invariant
                    j <= level@.len(),
                    cs == text::views(level@),
                    rule_views(rules@) == outer + level_rules(cs.take(j as int)),
                decreases level@.len() - j,
            {
                let ghost before = rule_views(rules@);
                let mut more = parse_ignore_content(level[j].as_str());
                let ghost added = rule_views(more@);
                let ghost all = rules@ + more@;
                rules.append(&mut more);
                proof {
                    assert(rules@ == all);
                    assert(rule_views(all) =~= before + added);
                    assert(cs.take(j + 1).drop_last() == cs.take(j as int));
                    assert(cs.take(j + 1).last() == level@[j as int]@);
                    assert(before + added =~= outer + (level_rules(cs.take(j as int)) + added));
                }
                j += 1;
            }
            proof {
                assert(cs.take(cs.len() as int) == cs);
                assert(ls.skip(i as int).drop_first() == ls.skip(i + 1));
                assert(ls.skip(i as int)[0] == cs);
            }
        }
        assert(ls.skip(0) == ls);
        IgnoreFilter { rules }
    }

    /// Whether `path`, given from the root of the search, is left out.
    pub fn is_ignored(&self, path: &str) -> (r: bool)
        ensures
            r == ignored(self@, path@),
    {
        if has_hidden_component(path) {
            return true;
        }
        let mut out = false;
        let mut i: usize = 0;
        assert(self@.take(0) == Seq::<RuleModel>::empty());
        while i < self.rules.len()
            invariant
                i <= self.rules@.len(),
                out == verdict(self@.take(i as int), path@),
            decreases self.rules@.len() - i,
        {
            let rule = &self.rules[i];
            assert(self@.take(i + 1).drop_last() == self@.take(i as int));
            assert(self@.take(i + 1).last() == rule@);
            let matches = if rule.anchored {
                path_matches_pattern(rule.pattern.as_str(), path)
            } else {
                any_part_matches(rule.pattern.as_str(), path)
            };
            if matches {
                out = !rule.negated;
            }
            i += 1;
        }
        assert(self@.take(self@.len() as int) == self@);
        out
    }

    /// How many rules there are.
    pub fn len(&self) -> (r: usize)
        ensures
            r == self@.len(),
    {
        self.rules.len()
    }
}

// ---------------------------------------------------------------------------
// Laws
// ---------------------------------------------------------------------------
/// Hidden paths are left out whatever the rules say.
pub proof fn law_hidden_paths_are_always_ignored(rules: Seq<RuleModel>, path: Seq<char>)
    requires
        is_hidden(path),
    ensures
        ignored(rules, path),
{
}

/// Of the rules, the last one that fits decides, whatever stands before it.
pub proof fn law_last_fitting_rule_decides(rules: Seq<RuleModel>, path: Seq<char>, k: int)
    requires
        0 <= k < rules.len(),
        fits(rules[k], path),
        forall|j: int| k < j < rules.len() ==> !fits(#[trigger] rules[j], path),
    ensures
        verdict(rules, path) == !rules[k].negated,
    decreases rules.len(),
{
    if k < rules.len() - 1 {
        assert(!fits(rules[rules.len() - 1], path));
        law_last_fitting_rule_decides(rules.drop_last(), path, k);
    }
}

/// Where no rule fits, nothing but the hidden paths is left out.
pub proof fn law_nothing_fits_nothing_ignored(rules: Seq<RuleModel>, path: Seq<char>)
    requires
        forall|j: int| 0 <= j < rules.len() ==> !fits(#[trigger] rules[j], path),
    ensures
        ignored(rules, path) == is_hidden(path),
    decreases rules.len(),
{
    if rules.len() > 0 {
        assert(!fits(rules[rules.len() - 1], path));
        law_nothing_fits_nothing_ignored(rules.drop_last(), path);
    }
}

/// The files of the nearest directory decide over those further up, where they hold a rule that
/// fits.
pub proof fn law_nearest_directory_decides(levels: Seq<Seq<Seq<char>>>, path: Seq<char>, k: int)
    requires
        levels.len() > 0,
        0 <= k < level_rules(levels[0]).len(),
        fits(level_rules(levels[0])[k], path),
    ensures
        verdict(nested_rules(levels), path) == verdict(level_rules(levels[0]), path),
{
    lemma_verdict_of_tail(nested_rules(levels.drop_first()), level_rules(levels[0]), path, k);
}

proof fn lemma_verdict_of_tail(
    head: Seq<RuleModel>,
    tail: Seq<RuleModel>,
    path: Seq<char>,
    k: int,
)
    requires
        0 <= k < tail.len(),
        fits(tail[k], path),
    ensures
        verdict(head + tail, path) == verdict(tail, path),
    decreases tail.len(),
{
    assert((head + tail).last() == tail.last());
    if !fits(tail.last(), path) {
        assert((head + tail).drop_last() == head + tail.drop_last());
        lemma_verdict_of_tail(head, tail.drop_last(), path, k);
    }
}

/// Ordinary characters of a pattern stand for themselves, one by one, and a pattern that is over
/// fits only what is over.
pub proof fn law_ordinary_characters_stand_for_themselves(
    p: Seq<char>,
    t: Seq<char>,
    c: char,
    d: char,
)
    requires
        c != '*',
        c != '?',
        c != '\\',
    ensures
        globs(Seq::empty(), t) <==> t.len() == 0,
        globs(seq![c] + p, seq![c] + t) <==> globs(p, t),
        c != d ==> !globs(seq![c] + p, seq![d] + t),
        !globs(seq![c] + p, Seq::empty()),
{
    assert((seq![c] + p).skip(1) =~= p);
    assert((seq![c] + t).skip(1) =~= t);
    assert((seq![c] + p)[0] == c);
    assert((seq![c] + t)[0] == c);
    assert((seq![d] + t)[0] == d);
}

/// A question mark stands for any one character but a slash; a backslash takes its meaning from the
/// character behind it.
pub proof fn law_question_marks_and_backslashes(p: Seq<char>, t: Seq<char>, c: char, d: char)
    requires
        d != '/',
    ensures
        globs(seq!['?'] + p, seq![d] + t) <==> globs(p, t),
        !globs(seq!['?'] + p, seq!['/'] + t),
        globs(seq!['\\', c] + p, seq![c] + t) <==> globs(p, t),
        c != d ==> !globs(seq!['\\', c] + p, seq![d] + t),
{
    assert((seq!['?'] + p).skip(1) =~= p);
    assert((seq![d] + t).skip(1) =~= t);
    assert((seq!['?'] + p)[0] == '?');
    assert((seq![d] + t)[0] == d);
    assert((seq!['/'] + t)[0] == '/');
    assert((seq!['\\', c] + p).skip(2) =~= p);
    assert((seq!['\\', c] + p)[0] == '\\');
    assert((seq!['\\', c] + p)[1] == c);
    assert((seq![c] + t)[0] == c);
    assert((seq![c] + t).skip(1) =~= t);
}

/// A star stands for any run of characters without a slash, the empty one included, and for nothing
/// that holds a slash.
pub proof fn law_a_star_stops_at_slashes(p: Seq<char>, a: Seq<char>, t: Seq<char>)
    requires
        p.len() == 0 || p[0] != '*',
        !a.contains('/'),
    ensures
        globs(p, t) ==> globs(seq!['*'] + p, a + t),
        globs(seq!['*'], a),
        !globs(seq!['*'], a + seq!['/'] + t),
{
    let q = seq!['*'] + p;
    let s = a + t;
    assert(q.skip(1) =~= p);
    assert(q[0] == '*');
    assert(!starts_double(q));
    assert(s.skip(a.len() as int) =~= t);
    assert forall|k: int| 0 <= k < a.len() implies s[k] != '/' by {
        assert(a.contains(a[k]));
    }
    if globs(p, t) {
        assert(globs(q.skip(1), s.skip(a.len() as int)));
    }
    let star = seq!['*'];
    assert(star.skip(1) =~= Seq::empty());
    assert(a.skip(a.len() as int) =~= Seq::empty());
    assert forall|k: int| 0 <= k < a.len() implies a[k] != '/' by {
        assert(a.contains(a[k]));
    }
    assert(globs(star.skip(1), a.skip(a.len() as int)));
    let u = a + seq!['/'] + t;
    if globs(star, u) {
        let i = choose|i: int|
            0 <= i <= u.len() && slash_free(u, i) && globs(star.skip(1), #[trigger] u.skip(i));
        assert(u.skip(i).len() == 0);
        assert(u[a.len() as int] == '/');
    }
}

/// Two stars and a slash stand for any directories, none included; two stars alone stand for anything.
pub proof fn law_two_stars_stand_for_any_directories(p: Seq<char>, dirs: Seq<char>, t: Seq<char>)
    requires
        p.len() == 0 || p[0] != '*',
    ensures
        globs(p, t) ==> globs(seq!['*', '*', '/'] + p, t),
        globs(p, t) ==> globs(seq!['*', '*', '/'] + p, dirs + seq!['/'] + t),
        globs(seq!['*', '*'], t),
{
    let q = seq!['*', '*', '/'] + p;
    assert(starts_double(q));
    let rest = q.skip(2);
    assert(rest =~= seq!['/'] + p);
    assert(!starts_double(rest));
    assert(past_doubles(rest) == rest);
    assert(rest[0] == '/');
    assert(rest.skip(1) =~= p);
    let u = dirs + seq!['/'] + t;
    let i = (dirs.len() + 1) as int;
    assert(u.skip(i) =~= t);
    assert(u[i - 1] == '/');
    if globs(p, t) {
        assert(globs(rest.skip(1), u.skip(i)));
    }
    let two = seq!['*', '*'];
    let none = two.skip(2);
    assert(none =~= Seq::empty());
    assert(past_doubles(none) == none);
    assert(t.skip(t.len() as int) =~= Seq::empty());
    assert(globs(none, t.skip(t.len() as int)));
}

/// Blank lines and comments are no rules. A rule is what stands in its line: with an exclamation mark
/// before it takes back, a slash at its end does not count, and it holds from the directory on where
/// a slash stands before its end.
#[verifier::rlimit(40)]
pub proof fn law_lines_become_rules(body: Seq<char>)
    requires
        body.len() > 0,
        !text::is_white(body[0]),
        !text::is_white(body.last()),
        body[0] != '#',
        body[0] != '!',
        body[0] != '/',
        body[0] != '*',
        body.last() != '/',
    ensures
        rule_of(Seq::empty()) is None,
        rule_of(seq!['#'] + body) is None,
        rule_of(body) == Some(
            RuleModel { pattern: body, negated: false, anchored: body.contains('/') },
        ),
        rule_of(seq!['!'] + body) == Some(
            RuleModel { pattern: body, negated: true, anchored: body.contains('/') },
        ),
        rule_of(body + seq!['/']) == Some(
            RuleModel { pattern: body, negated: false, anchored: body.contains('/') },
        ),
        rule_of(seq!['/'] + body) == Some(
            RuleModel { pattern: body, negated: false, anchored: true },
        ),
{
    reveal_strlit("**/");
    assert(!"**/"@.is_prefix_of(body)) by {
        if "**/"@.is_prefix_of(body) {
            assert(body.take(3)[0] == '*');
        }
    }
    text::lemma_trimmed_keeps(Seq::empty());
    text::lemma_trimmed_keeps(body);
    let comment = seq!['#'] + body;
    assert(comment.last() == body.last());
    text::lemma_trimmed_keeps(comment);
    let back = seq!['!'] + body;
    assert(back.last() == body.last());
    assert(back.drop_first() =~= body);
    text::lemma_trimmed_keeps(back);
    let dir = body + seq!['/'];
    assert(dir[0] == body[0]);
    assert(dir.last() == '/');
    assert(dir.drop_last() =~= body);
    text::lemma_trimmed_keeps(dir);
    let local = seq!['/'] + body;
    assert(local.last() == body.last());
    assert(local[0] == '/');
    assert(local.drop_first() =~= body);
    assert(local.contains('/'));
    text::lemma_trimmed_keeps(local);
}

/// The rules of a file are those of its lines, in their order.
pub proof fn law_rules_keep_the_order_of_lines(lines: Seq<Seq<char>>, line: Seq<char>)
    ensures
        rules_of(Seq::empty()).len() == 0,
        rule_of(line) matches Some(r) ==> rules_of(lines.push(line)) == rules_of(lines).push(r),
        rule_of(line) is None ==> rules_of(lines.push(line)) == rules_of(lines),
{
    assert(lines.push(line).drop_last() =~= lines);
}

/// A name is hidden where it begins with a dot, the two names for directories themselves excepted.
pub proof fn law_hidden_names_begin_with_a_dot(name: Seq<char>)
    requires
        name.len() > 0,
        !name.contains('/'),
    ensures
        name[0] != '.' ==> !is_hidden(name),
        name[0] == '.' && name != "."@ && name != ".."@ ==> is_hidden(name),
        name == "."@ || name == ".."@ ==> !is_hidden(name),
{
    text::lemma_pos(name, '/');
    assert(text::split(name, '/') =~= seq![name]);
    assert(text::split(name, '/')[0] == name);
}

/// A rule without a slash fits the name of any part of a path, one with a slash fits the first parts
/// of a path one after the other.
pub proof fn law_rules_fit_names_or_beginnings(
    pattern: Seq<char>,
    path: Seq<char>,
    negated: bool,
    k: int,
)
    requires
        0 <= k < text::split(path, '/').len(),
    ensures
        globs(pattern, text::split(path, '/')[k]) ==> fits(
            RuleModel { pattern, negated, anchored: false },
            path,
        ),
        fits(RuleModel { pattern, negated, anchored: true }, path) && k < text::split(
            pattern,
            '/',
        ).len() ==> globs(text::split(pattern, '/')[k], text::split(path, '/')[k]),
        text::split(pattern, '/').len() > text::split(path, '/').len() ==> !fits(
            RuleModel { pattern, negated, anchored: true },
            path,
        ),
{
    if globs(pattern, text::split(path, '/')[k]) {
        assert(fits_part(pattern, text::split(path, '/')[k]));
    }
    if fits(RuleModel { pattern, negated, anchored: true }, path) && k < text::split(
        pattern,
        '/',
    ).len() {
        assert(fits_part(text::split(pattern, '/')[k], text::split(path, '/')[k]));
    }
}

/// The files of one directory count one after the other, and those further up before them.
pub proof fn law_rules_of_directories_come_in_order(
    levels: Seq<Seq<Seq<char>>>,
    first: Seq<Seq<char>>,
    contents: Seq<Seq<char>>,
    content: Seq<char>,
)
    ensures
        nested_rules(Seq::empty()).len() == 0,
        nested_rules(seq![first] + levels) == nested_rules(levels) + level_rules(first),
        level_rules(contents.push(content)) == level_rules(contents) + rules_of(
            text::lines(content),
        ),
        level_rules(Seq::empty()).len() == 0,
{
    assert((seq![first] + levels).drop_first() =~= levels);
    assert(contents.push(content).drop_last() =~= contents);
}

} // verus!
