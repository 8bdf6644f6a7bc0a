//! Finding files by their names.

use super::search;
use super::RunOut;
use crate::config;
use crate::text;
use vstd::prelude::*;
use vstd::string::*;

verus! {

/// `s` with each pair of stars between slashes made a single star behind one slash, from the first
/// on.
pub open spec fn single_starred(s: Seq<char>) -> Seq<char>
    decreases s.len(),
{
    let k = config::pos_text(s, "/**/"@);
    if 0 <= k && k + 4 <= s.len() {
        single_starred(shortened(s, k))
    } else {
        s
    }
}

/// `s` with the four characters at `k` made a slash and a star.
pub open spec fn shortened(s: Seq<char>, k: int) -> Seq<char> {
    s.take(k) + seq!['/', '*'] + s.skip(k + 4)
}

/// The pattern that is handed to the command. Its star goes beyond slashes, so two stars between
/// slashes mean any way, also the empty one.
pub open spec fn find_pattern(pattern: Seq<char>) -> Seq<char> {
    let p = single_starred(pattern);
    let q = if "**/"@.is_prefix_of(p) {
        p.skip("**/"@.len() as int)
    } else {
        p
    };
    if q == "**"@ {
        "*"@
    } else {
        q
    }
}

/// The arguments of the command: a pattern with a slash is held against whole paths, any other one
/// against names.
pub open spec fn find_arguments(pattern: Seq<char>) -> Result<Seq<Seq<char>>, Seq<char>> {
    let t = text::trimmed(pattern);
    if t.len() == 0 {
        Err("Muster ist leer."@)
    } else if t.contains('/') {
        Ok(seq!["."@, "-path"@, "./"@ + find_pattern(t)])
    } else {
        Ok(seq!["."@, "-name"@, find_pattern(t)])
    }
}

proof fn lemma_pos_text_is(s: Seq<char>, p: Seq<char>, k: int)
    requires
        0 <= k <= s.len(),
        p.len() > 0,
        k < s.len() ==> p.is_prefix_of(s.skip(k)),
        forall|i: int| 0 <= i < k ==> !p.is_prefix_of(#[trigger] s.skip(i)),
    ensures
        config::pos_text(s, p) == k,
    decreases s.len(),
{
    assert(s.skip(0) =~= s);
    if k > 0 {
        assert(!p.is_prefix_of(s.skip(0)));
        let t = s.drop_first();
        assert forall|i: int| 0 <= i < k - 1 implies !p.is_prefix_of(#[trigger] t.skip(i)) by {
            assert(t.skip(i) =~= s.skip(i + 1));
        }
        if k < s.len() {
            assert(t.skip(k - 1) =~= s.skip(k));
        }
        lemma_pos_text_is(t, p, k - 1);
    }
}

fn find_stars(cs: &Vec<char>) -> (r: usize)
    ensures
        r <= cs@.len(),
        r == config::pos_text(cs@, "/**/"@),
        r < cs@.len() ==> r + 4 <= cs@.len(),
{
    let mark = text::chars_of("/**/");
    let n: usize = cs.len();
    let mut i: usize = 0;
    proof {
        reveal_strlit("/**/");
    }
    while i < n
        invariant
            i <= n == cs@.len(),
            mark@ == "/**/"@,
            mark@.len() == 4,
            forall|k: int| 0 <= k < i ==> !mark@.is_prefix_of(#[trigger] cs@.skip(k)),
        decreases n - i,
    {
        if text::chars_at(cs, i, &mark) {
            proof {
                lemma_pos_text_is(cs@, "/**/"@, i as int);
                assert(cs@.skip(i as int).len() >= 4);
            }
            return i;
        }
        i += 1;
    }
    proof {
        lemma_pos_text_is(cs@, "/**/"@, n as int);
    }
    n
}

fn single_star(pattern: &str) -> (r: String)
    ensures
        r@ == single_starred(pattern@),
{
    let mut cs = text::chars_of(pattern);
    loop
        invariant
            single_starred(cs@) == single_starred(pattern@),
        decreases cs@.len(),
    {
        let n: usize = cs.len();
        let k = find_stars(&cs);
        if k >= n {
            assert(cs@.subrange(0, n as int) =~= cs@);
            return text::text_of(&cs, 0, n);
        }
        let mut next: Vec<char> = Vec::new();
        let mut i: usize = 0;
        while i < k
            invariant
                i <= k <= n,
                n == cs@.len(),
                next@ == cs@.take(i as int),
            decreases k - i,
        {
            next.push(cs[i]);
            assert(cs@.take(i + 1) =~= cs@.take(i as int).push(cs@[i as int]));
            i += 1;
        }
        next.push('/');
        next.push('*');
        let mut j: usize = k + 4;
        let ghost head = cs@.take(k as int) + seq!['/', '*'];
        assert(next@ =~= head + cs@.subrange(k + 4, k + 4));
        while j < n
            invariant
                k + 4 <= j <= n,
                n == cs@.len(),
                next@ == head + cs@.subrange(k + 4, j as int),
            decreases n - j,
        {
            next.push(cs[j]);
            assert(cs@.subrange(k + 4, j + 1) =~= cs@.subrange(k + 4, j as int).push(
                cs@[j as int],
            ));
            assert(next@ =~= head + cs@.subrange(k + 4, j + 1));
            j += 1;
        }
        assert(next@ =~= shortened(cs@, k as int));
        cs = next;
    }
}

/// The view of a list of texts or a message.
pub open spec fn list_result(r: Result<Vec<String>, String>) -> Result<Seq<Seq<char>>, Seq<char>> {
    match r {
        Ok(v) => Ok(text::views(v@)),
        Err(e) => Err(e@),
    }
}

/// The arguments of the command that finds the files.
pub fn find_args(pattern: &str) -> (r: Result<Vec<String>, String>)
    ensures
        list_result(r) == find_arguments(pattern@),
{
    let t = text::trim(pattern);
    proof {
        reveal_strlit("");
        if t@.len() == 0 {
            assert(t@ =~= ""@);
        }
    }
    if text::same_text(t.as_str(), "") {
        return Err("Muster ist leer.".to_string());
    }
    let mut p = single_star(t.as_str());
    if let Some(rest) = text::strip_prefix(p.as_str(), "**/") {
        p = rest;
    }
    if text::same_text(p.as_str(), "**") {
        p = "*".to_string();
    }
    let args = if text::has_char(t.as_str(), '/') {
        let path = text::concat("./", p.as_str());
        text::texts(&[".", "-path", path.as_str()])
    } else {
        text::texts(&[".", "-name", p.as_str()])
    };
    proof {
        if t@.contains('/') {
            assert(text::views(args@) =~= seq!["."@, "-path"@, "./"@ + find_pattern(t@)]);
        } else {
            assert(text::views(args@) =~= seq!["."@, "-name"@, find_pattern(t@)]);
        }
    }
    Ok(args)
}

/// The paths among the lines: those that begin with a dot and a slash, without these, outside the
/// directories that no search looks into.
pub open spec fn listed_paths(lines: Seq<Seq<char>>) -> Seq<Seq<char>>
    decreases lines.len(),
{
    if lines.len() == 0 {
        Seq::empty()
    } else {
        let before = listed_paths(lines.drop_last());
        let line = lines.last();
        if "./"@.is_prefix_of(line) && !search::is_excluded(search::undotted(line)) {
            before.push(search::undotted(line))
        } else {
            before
        }
    }
}

/// The paths that the command found.
pub fn found_paths(out: &Result<RunOut, String>) -> (r: Result<Vec<String>, String>)
    ensures
        list_result(r) == (match super::run_view(*out) {
            Err(e) => Err("find not available: "@ + e),
            Ok(o) => if o.exit_code == Some(0i32) {
                Ok(listed_paths(text::lines(o.stdout)))
            } else {
                Err("find error:\n"@ + o.stderr)
            },
        }),
{
    let o = match out {
        Err(e) => {
            return Err(text::concat("find not available: ", e.as_str()));
        },
        Ok(o) => o,
    };
    match o.exit_code {
        Some(c) => {
            if c != 0 {
                return Err(text::concat("find error:\n", o.stderr.as_str()));
            }
        },
        None => {
            return Err(text::concat("find error:\n", o.stderr.as_str()));
        },
    }
    let lines = text::lines_of(o.stdout.as_str());
    let ghost want = text::lines(o.stdout@);
    let mut list: Vec<String> = Vec::new();
    let mut i: usize = 0;
    assert(want.take(0) =~= Seq::empty());
    assert(text::views(list@) =~= Seq::empty());
    while i < lines.len()
        invariant
            i <= lines@.len(),
            want == text::views(lines@),
            text::views(list@) == listed_paths(want.take(i as int)),
        decreases lines@.len() - i,
    {
        let ghost before = list@;
        assert(want.take(i + 1).drop_last() =~= want.take(i as int));
        assert(want.take(i + 1).last() == lines@[i as int]@);
        if let Some(path) = text::strip_prefix(lines[i].as_str(), "./") {
            if !search::is_excluded_path(path.as_str()) {
                proof {
                    text::lemma_views_push(before, path);
                }
                list.push(path);
            }
        }
        i += 1;
    }
    assert(want.take(lines@.len() as int) =~= want);
    Ok(list)
}

/// The paths as they are shown: directories have a slash at their end.
pub open spec fn marked(paths: Seq<Seq<char>>, dirs: Seq<bool>) -> Seq<Seq<char>> {
    Seq::new(
        paths.len(),
        |k: int|
            if dirs[k] {
                paths[k] + "/"@
            } else {
                paths[k]
            },
    )
}

/// The found paths in order, each once. `dirs` says which of them are directories.
pub fn find_glob(paths: &Vec<String>, dirs: &Vec<bool>) -> (r: Vec<String>)
    requires
        dirs@.len() == paths@.len(),
    ensures
        text::strictly_sorted(text::views(r@)),
        text::views(r@).to_set() == marked(text::views(paths@), dirs@).to_set(),
{
    let ghost want = marked(text::views(paths@), dirs@);
    let mut all: Vec<String> = Vec::new();
    let mut i: usize = 0;
    while i < paths.len()
        invariant
            i <= paths@.len(),
            dirs@.len() == paths@.len(),
            want == marked(text::views(paths@), dirs@),
            text::views(all@) == want.take(i as int),
        decreases paths@.len() - i,
    {
        let ghost before = all@;
        let t = if dirs[i] {
            text::concat(paths[i].as_str(), "/")
        } else {
            paths[i].clone()
        };
        all.push(t);
        proof {
            text::lemma_views_push(before, t);
            assert(want.take(i + 1) =~= want.take(i as int).push(want[i as int]));
        }
        i += 1;
    }
    assert(want.take(paths@.len() as int) =~= want);
    text::sort_unique(&all)
}

// ---------------------------------------------------------------------------
// Laws
// ---------------------------------------------------------------------------
/// A pattern without two stars between slashes goes unchanged to the command.
pub proof fn law_other_patterns_stay(s: Seq<char>)
    requires
        config::pos_text(s, "/**/"@) == s.len(),
    ensures
        single_starred(s) == s,
{
}

/// No found path lies in a directory that no search looks into.
pub proof fn law_found_paths_are_not_left_out(lines: Seq<Seq<char>>, k: int)
    requires
        0 <= k < listed_paths(lines).len(),
    ensures
        !search::is_excluded(listed_paths(lines)[k]),
    decreases lines.len(),
{
    let before = listed_paths(lines.drop_last());
    if k < before.len() {
        law_found_paths_are_not_left_out(lines.drop_last(), k);
    }
}

/// A pattern without a slash is looked for among the names, one with a slash among the paths below
/// the directory; one that is blank is refused.
pub proof fn law_patterns_look_for_names_or_paths(s: Seq<char>)
    requires
        config::pos_text(text::trimmed(s), "/**/"@) == text::trimmed(s).len(),
        !"**/"@.is_prefix_of(text::trimmed(s)),
        text::trimmed(s) != "**"@,
    ensures
        ({
            let t = text::trimmed(s);
            &&& t.len() == 0 ==> find_arguments(s) == Err::<Seq<Seq<char>>, Seq<char>>(
                "Muster ist leer."@,
            )
            &&& t.len() > 0 && !t.contains('/') ==> find_arguments(s) == Ok::<
                Seq<Seq<char>>,
                Seq<char>,
            >(seq!["."@, "-name"@, t])
            &&& t.len() > 0 && t.contains('/') ==> find_arguments(s) == Ok::<
                Seq<Seq<char>>,
                Seq<char>,
            >(seq!["."@, "-path"@, "./"@ + t])
        }),
{
}

/// Two stars before a path are left out, two stars alone mean anything, and two stars between
/// slashes become one behind a slash.
pub proof fn law_two_stars_fit_any_directories(q: Seq<char>, a: Seq<char>, b: Seq<char>)
    requires
        config::pos_text("**/"@ + q, "/**/"@) == ("**/"@ + q).len(),
        q != "**"@,
        config::pos_text(a + "/**/"@ + b, "/**/"@) == a.len(),
        config::pos_text(a + seq!['/', '*'] + b, "/**/"@) == (a + seq!['/', '*'] + b).len(),
    ensures
        find_pattern("**/"@ + q) == q,
        find_pattern("**"@) == "*"@,
        single_starred(a + "/**/"@ + b) == a + seq!['/', '*'] + b,
{
    reveal_strlit("/**/");
    reveal_strlit("**");
    let p = "**/"@ + q;
    assert("**/"@ =~= p.take("**/"@.len() as int));
    assert(p.skip("**/"@.len() as int) =~= q);
    let s = a + "/**/"@ + b;
    assert(s.take(a.len() as int) =~= a);
    assert(s.skip((a.len() + 4) as int) =~= b);
    let r = a + seq!['/', '*'] + b;
    assert(shortened(s, a.len() as int) =~= r);
    law_other_patterns_stay(r);
    assert(s.len() == a.len() + 4 + b.len());
    let t = "**"@;
    reveal_strlit("**/");
    assert(!"**/"@.is_prefix_of(t));
    assert(config::pos_text(t, "/**/"@) == 2) by {
        lemma_pos_text_is(t, "/**/"@, 2);
    }
}

/// Every path that the command prints below the directory is listed, unless it lies in a directory
/// that no search looks into; whatever else is printed is not.
pub proof fn law_printed_paths_are_listed(lines: Seq<Seq<char>>, p: Seq<char>, line: Seq<char>)
    ensures
        listed_paths(Seq::empty()).len() == 0,
        !search::is_excluded(p) ==> listed_paths(lines.push("./"@ + p)) == listed_paths(lines).push(
            p,
        ),
        search::is_excluded(p) ==> listed_paths(lines.push("./"@ + p)) == listed_paths(lines),
        !"./"@.is_prefix_of(line) ==> listed_paths(lines.push(line)) == listed_paths(lines),
{
    let l = "./"@ + p;
    assert(lines.push(l).drop_last() =~= lines);
    assert(lines.push(line).drop_last() =~= lines);
    assert("./"@ =~= l.take("./"@.len() as int));
    assert(l.skip("./"@.len() as int) =~= p);
}

/// A directory is marked by a slash at its end, and nothing else is changed in a list.
pub proof fn law_directories_are_marked(paths: Seq<Seq<char>>, dirs: Seq<bool>, k: int)
    requires
        0 <= k < paths.len(),
    ensures
        marked(paths, dirs).len() == paths.len(),
        dirs[k] ==> marked(paths, dirs)[k] == paths[k] + "/"@,
        !dirs[k] ==> marked(paths, dirs)[k] == paths[k],
{
}

} // verus!
