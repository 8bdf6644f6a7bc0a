//! Searching in files: with ripgrep, or with grep where that is missing.

use super::paths;
use super::{Match, RunOut, SearchResult};
use crate::text;
use vstd::prelude::*;
use vstd::string::*;

verus! {

// ---------------------------------------------------------------------------
// What the commands print
// ---------------------------------------------------------------------------
/// Whether the name is that of a directory which no search looks into.
pub open spec fn is_left_out(name: Seq<char>) -> bool {
    name == ".git"@ || name == "target"@ || name == "node_modules"@
}

/// Whether some part of the path is a directory which no search looks into.
pub open spec fn is_excluded(path: Seq<char>) -> bool {
    exists|k: int|
        0 <= k < text::split(path, '/').len() && is_left_out(#[trigger] text::split(path, '/')[k])
}

/// Whether some part of the path is a directory which no search looks into.
pub fn is_excluded_path(path: &str) -> (r: bool)
    ensures
        r == is_excluded(path@),
{
    let pieces = text::split_text(path, '/');
    let ghost want = text::split(path@, '/');
    let mut i: usize = 0;
    while i < pieces.len()
        invariant
            i <= pieces@.len(),
            want == text::views(pieces@),
            want == text::split(path@, '/'),
            forall|k: int| 0 <= k < i ==> !is_left_out(#[trigger] want[k]),
        decreases pieces@.len() - i,
    {
        let piece = pieces[i].as_str();
        assert(want[i as int] == piece@);
        if text::same_text(piece, ".git") || text::same_text(piece, "target") || text::same_text(
            piece,
            "node_modules",
        ) {
            assert(is_left_out(text::split(path@, '/')[i as int]));
            return true;
        }
        i += 1;
    }
    false
}

/// Path and text of a line that names a place: path, line number and text with colons between.
pub open spec fn place_of(line: Seq<char>) -> Option<super::MatchModel> {
    match text::split_once(line, ':') {
        None => None,
        Some((path, rest)) => match text::split_once(rest, ':') {
            None => None,
            Some((number, found)) => if text::parsed(number, usize::MAX as nat) is Some {
                Some(super::MatchModel { path, text: found })
            } else {
                None
            },
        },
    }
}

/// The places that the lines name. A line that names none goes on with the text of the last one.
pub open spec fn places(lines: Seq<Seq<char>>) -> Seq<super::MatchModel>
    decreases lines.len(),
{
    if lines.len() == 0 {
        Seq::empty()
    } else {
        let before = places(lines.drop_last());
        match place_of(lines.last()) {
            Some(p) => before.push(p),
            None => if before.len() == 0 {
                before
            } else {
                before.drop_last().push(
                    super::MatchModel {
                        path: before.last().path,
                        text: before.last().text + "\n"@ + lines.last(),
                    },
                )
            },
        }
    }
}

fn place(line: &str) -> (r: Option<Match>)
    ensures
        match r {
            Some(m) => place_of(line@) == Some(m@),
            None => place_of(line@) is None,
        },
{
    match text::split_once_text(line, ':') {
        None => None,
        Some((path, rest)) => match text::split_once_text(rest.as_str(), ':') {
            None => None,
            Some((number, found)) => match text::parse_usize(number.as_str()) {
                Some(_) => Some(Match { path, text: found }),
                None => None,
            },
        },
    }
}

/// The places that the output of a search names.
pub fn parse_search_lines(stdout: &str) -> (r: Vec<Match>)
    ensures
        super::match_views(r@) == places(text::lines(stdout@)),
{
    let lines = text::lines_of(stdout);
    let ghost want = text::lines(stdout@);
    let mut out: Vec<Match> = Vec::new();
    let mut i: usize = 0;
    assert(want.take(0) =~= Seq::empty());
    assert(super::match_views(out@) =~= Seq::empty());
    while i < lines.len()
        invariant
            i <= lines@.len(),
            want == text::views(lines@),
            super::match_views(out@) == places(want.take(i as int)),
        decreases lines@.len() - i,
    {
        let line = lines[i].as_str();
        let ghost before = out@;
        assert(want.take(i + 1).drop_last() =~= want.take(i as int));
        assert(want.take(i + 1).last() == line@);
        match place(line) {
            Some(m) => {
                out.push(m);
                assert(super::match_views(out@) =~= super::match_views(before).push(m@));
            },
            None => {
                let n: usize = out.len();
                if n > 0 {
                    let last = &mut out[n - 1];
                    last.text.append("\n");
                    last.text.append(line);
                    assert(super::match_views(out@) =~= super::match_views(before).drop_last().push(
                        super::MatchModel {
                            path: before.last().path@,
                            text: before.last().text@ + "\n"@ + line@,
                        },
                    ));
                    assert(super::match_views(before).last() == before.last()@);
                }
            },
        }
        i += 1;
    }
    assert(want.take(lines@.len() as int) =~= want);
    out
}

/// A path or line without a leading dot and slash.
pub open spec fn undotted(s: Seq<char>) -> Seq<char> {
    if "./"@.is_prefix_of(s) {
        s.skip("./"@.len() as int)
    } else {
        s
    }
}

fn undot(s: &str) -> (r: String)
    ensures
        r@ == undotted(s@),
{
    match text::strip_prefix(s, "./") {
        Some(t) => t,
        None => s.to_string(),
    }
}

/// The lines of an output, each without a leading dot and slash.
pub open spec fn raw_lines(s: Seq<char>) -> Seq<char> {
    text::joined(text::lines(s).map_values(|l: Seq<char>| undotted(l)), "\n"@)
}

/// The lines of an output, each without a leading dot and slash.
pub fn normalize_raw(s: &str) -> (r: String)
    ensures
        r@ == raw_lines(s@),
{
    let lines = text::lines_of(s);
    let ghost want = text::lines(s@).map_values(|l: Seq<char>| undotted(l));
    let mut out: Vec<String> = Vec::new();
    let mut i: usize = 0;
    while i < lines.len()
        invariant
            i <= lines@.len(),
            text::views(lines@) == text::lines(s@),
            want == text::lines(s@).map_values(|l: Seq<char>| undotted(l)),
            text::views(out@) == want.take(i as int),
        decreases lines@.len() - i,
    {
        let ghost before = out@;
        let t = undot(lines[i].as_str());
        out.push(t);
        proof {
            text::lemma_views_push(before, t);
            assert(text::views(lines@)[i as int] == lines@[i as int]@);
            assert(want.take(i + 1) =~= want.take(i as int).push(want[i as int]));
        }
        i += 1;
    }
    assert(want.take(lines@.len() as int) =~= want);
    text::join_texts(&out, "\n")
}

/// The message for a pattern that grep does not understand.
pub open spec fn pattern_message(pattern: Seq<char>, stderr: Seq<char>) -> Seq<char> {
    "grep konnte das Muster nicht parsen — Suchmuster `"@ + pattern
        + "` ist für den klassischen grep-Fallback evtl. ungeeignet."@
        + " (POSIX-ERE kennt \\d/\\w/\\s/\\b und (?:…) nicht; ersetze sie z. B. durch [0-9]/[A-Za-z0-9_]/[[:space:]] — oder installiere ripgrep (rg) für vollen Regex-Dialekt)"@
        + "\n"@ + text::trimmed(stderr)
}

/// The message for a pattern that grep does not understand.
pub fn grep_pattern_error(pattern: &str, stderr: &str) -> (r: String)
    ensures
        r@ == pattern_message(pattern@, stderr@),
{
    let mut out = text::concat3(
        "grep konnte das Muster nicht parsen — Suchmuster `",
        pattern,
        "` ist für den klassischen grep-Fallback evtl. ungeeignet.",
    );
    out.append(
        " (POSIX-ERE kennt \\d/\\w/\\s/\\b und (?:…) nicht; ersetze sie z. B. durch [0-9]/[A-Za-z0-9_]/[[:space:]] — oder installiere ripgrep (rg) für vollen Regex-Dialekt)",
    );
    out.append("\n");
    out.append(text::trim(stderr).as_str());
    out
}

// ---------------------------------------------------------------------------
// What to search
// ---------------------------------------------------------------------------
/// What a search looks into.
#[derive(Debug, PartialEq)]
pub enum SearchTarget {
    /// The whole directory.
    Dir,
    /// One file of the directory.
    File(String),
}

/// The name that a command is given for a target.
pub open spec fn target_name(t: SearchTarget) -> Seq<char> {
    match t {
        SearchTarget::Dir => "."@,
        SearchTarget::File(name) => name@,
    }
}

/// Where to search for a path: a directory in itself, a file in its directory.
pub fn split_search_path(path: &str, is_file: bool) -> (r: (String, SearchTarget))
    ensures
        !is_file ==> r.0@ == path@ && r.1 is Dir,
        is_file ==> {
            &&& r.0@ == (match paths::parent_of(path@) {
                Some(p) => p,
                None => "."@,
            })
            &&& r.1 is File
            &&& target_name(r.1) == (match paths::name_of(path@) {
                Some(n) => n,
                None => Seq::empty(),
            })
        },
{
    if is_file {
        let dir = match paths::parent(path) {
            Some(p) => p,
            None => ".".to_string(),
        };
        let name = match paths::file_name(path) {
            Some(n) => n,
            None => String::new(),
        };
        (dir, SearchTarget::File(name))
    } else {
        (path.to_string(), SearchTarget::Dir)
    }
}

/// A search for a pattern. It begins with ripgrep; where that cannot be run, grep takes its place,
/// with fewer options at each attempt.
pub struct FileSearch {
    pub pattern: String,
    pub target: SearchTarget,
    /// The pattern that the names of the files must fit.
    pub files: Option<String>,
    /// How many lines around each place are asked for.
    pub context: usize,
    /// Which attempt is next: none is ripgrep, the others grep.
    pub attempt: usize,
}

/// What a search holds.
pub struct SearchModel {
    pub pattern: Seq<char>,
    pub one_file: bool,
    pub target: Seq<char>,
    pub files: Option<Seq<char>>,
    pub context: nat,
    pub attempt: nat,
}

impl View for FileSearch {
    type V = SearchModel;

    open spec fn view(&self) -> SearchModel {
        SearchModel {
            pattern: self.pattern@,
            one_file: self.target is File,
            target: target_name(self.target),
            files: text::opt_view(self.files),
            context: self.context as nat,
            attempt: self.attempt as nat,
        }
    }
}

/// The option that asks for lines around each place.
pub open spec fn context_option(context: nat) -> Seq<Seq<char>> {
    if context > 0 {
        seq!["-C"@, text::decimal(context)]
    } else {
        Seq::empty()
    }
}

/// An option with its value, where there is one.
pub open spec fn files_option(option: Seq<char>, files: Option<Seq<char>>) -> Seq<Seq<char>> {
    match files {
        Some(f) => seq![option + f],
        None => Seq::empty(),
    }
}

/// The arguments of ripgrep. It follows no links, so that nothing outside is found.
pub open spec fn rg_arguments(m: SearchModel) -> Seq<Seq<char>> {
    seq!["--line-number"@, "--no-heading"@, "--color"@, "never"@, "--no-follow"@] + files_option(
        "--glob="@,
        m.files,
    ) + context_option(m.context) + seq!["--"@, m.pattern] + (if m.one_file {
        seq![m.target]
    } else {
        Seq::empty()
    })
}

/// The option of grep that names the files to look into.
pub open spec fn grep_files() -> Seq<char> {
    "--in"@ + "clude="@
}

/// The arguments of grep at an attempt. It follows no links below the directory. The first attempt
/// uses what only some versions know, the last one asks for no lines around.
pub open spec fn grep_arguments(m: SearchModel) -> Seq<Seq<char>> {
    let first = m.attempt <= 1;
    let options = if m.one_file {
        seq!["-E"@, "-n"@]
    } else {
        seq!["-E"@, "-r"@, "-n"@]
    };
    let extra = if !first {
        Seq::empty()
    } else if m.one_file {
        seq!["-I"@]
    } else {
        seq![
            "-I"@,
            "--exclude-dir=.git"@,
            "--exclude-dir=target"@,
            "--exclude-dir=node_modules"@,
        ]
    };
    options + extra + (if first {
        files_option(grep_files(), m.files)
    } else {
        Seq::empty()
    }) + (if m.attempt <= 2 {
        context_option(m.context)
    } else {
        Seq::empty()
    }) + seq!["--"@, m.pattern, m.target]
}

/// Whether the command ran and found something or nothing.
pub open spec fn is_answer(out: super::RunModel) -> bool {
    out.exit_code == Some(0i32) || out.exit_code == Some(1i32)
}

/// What the output of ripgrep says.
pub open spec fn rg_outcome(
    m: SearchModel,
    out: Result<super::RunModel, Seq<char>>,
) -> Result<super::FoundModel, Seq<char>> {
    let none = super::FoundModel { matches: Seq::empty(), note: None, raw: None };
    match out {
        Err(e) => Err("rg not available: "@ + e),
        Ok(o) => if o.exit_code == Some(1i32) {
            Ok(none)
        } else if o.exit_code != Some(0i32) {
            Err("rg error:\n"@ + o.stderr)
        } else if m.context > 0 {
            Ok(super::FoundModel { raw: Some(raw_lines(o.stdout)), ..none })
        } else {
            Ok(super::FoundModel { matches: places(text::lines(o.stdout)), ..none })
        },
    }
}

/// The places outside the directories that no search looks into, their paths without a leading dot
/// and slash.
pub open spec fn kept_places(v: Seq<super::MatchModel>) -> Seq<super::MatchModel>
    decreases v.len(),
{
    if v.len() == 0 {
        Seq::empty()
    } else {
        let before = kept_places(v.drop_last());
        let path = undotted(v.last().path);
        if is_excluded(path) {
            before
        } else {
            before.push(super::MatchModel { path, text: v.last().text })
        }
    }
}

/// The remark on a search with grep.
pub open spec fn grep_note() -> Seq<char> {
    "Note: ripgrep (rg) is not available on this system – the search was run with classic grep."@
}

/// What the last output of grep says.
pub open spec fn grep_outcome(
    m: SearchModel,
    out: Result<super::RunModel, Seq<char>>,
) -> Result<super::FoundModel, Seq<char>> {
    let none = super::FoundModel { matches: Seq::empty(), note: Some(grep_note()), raw: None };
    match out {
        Err(e) => Err("grep not available: "@ + e),
        Ok(o) => if o.exit_code == Some(1i32) {
            Ok(none)
        } else if o.exit_code != Some(0i32) {
            Err(pattern_message(m.pattern, o.stderr))
        } else if m.context > 0 {
            Ok(super::FoundModel { raw: Some(raw_lines(o.stdout)), ..none })
        } else {
            Ok(super::FoundModel { matches: kept_places(places(text::lines(o.stdout))), ..none })
        },
    }
}

/// Whether an attempt leads to another one.
pub open spec fn goes_on(m: SearchModel, out: Result<super::RunModel, Seq<char>>) -> bool {
    match out {
        Err(_) => m.attempt == 0,
        Ok(o) => !is_answer(o) && (m.attempt == 1 || (m.attempt == 2 && m.context > 0)),
    }
}

/// What a search says.
pub open spec fn outcome(
    m: SearchModel,
    out: Result<super::RunModel, Seq<char>>,
) -> Result<super::FoundModel, Seq<char>> {
    if m.attempt == 0 {
        rg_outcome(m, out)
    } else {
        grep_outcome(m, out)
    }
}

/// The view of the result of a search.
pub open spec fn found_view(r: Result<SearchResult, String>) -> Result<
    super::FoundModel,
    Seq<char>,
> {
    match r {
        Ok(f) => Ok(f@),
        Err(e) => Err(e@),
    }
}

impl FileSearch {
    /// A search that has not begun.
    pub fn new(pattern: &str, target: SearchTarget, files: Option<String>, context: usize) -> (r:
        Self)
        ensures
            r@ == (SearchModel {
                pattern: pattern@,
                one_file: target is File,
                target: target_name(target),
                files: text::opt_view(files),
                context: context as nat,
                attempt: 0,
            }),
    {
        FileSearch { pattern: pattern.to_string(), target, files, context, attempt: 0 }
    }

    /// The command of the next attempt.
    pub fn program(&self) -> (r: &'static str)
        ensures
            r@ == (if self@.attempt == 0 {
                "rg"@
            } else {
                "grep"@
            }),
    {
        if self.attempt == 0 {
            "rg"
        } else {
            "grep"
        }
    }

    /// The arguments of the next attempt.
    pub fn args(&self) -> (r: Vec<String>)
        ensures
            text::views(r@) == (if self@.attempt == 0 {
                rg_arguments(self@)
            } else {
                grep_arguments(self@)
            }),
    {
        if self.attempt == 0 {
            self.rg_args()
        } else {
            self.grep_args()
        }
    }

    fn context_args(&self, args: &mut Vec<String>)
        ensures
            text::views(final(args)@) == text::views(old(args)@) + context_option(self@.context),
    {
        let ghost before = text::views(args@);
        if self.context > 0 {
            text::push_text(args, "-C".to_string());
            text::push_text(args, text::decimal_text(self.context as u64));
        }
        assert(text::views(args@) =~= before + context_option(self@.context));
    }

    fn rg_args(&self) -> (r: Vec<String>)
        ensures
            text::views(r@) == rg_arguments(self@),
    {
        let mut args = text::texts(
            &["--line-number", "--no-heading", "--color", "never", "--no-follow"],
        );
        assert(text::views(args@) =~= seq![
            "--line-number"@,
            "--no-heading"@,
            "--color"@,
            "never"@,
            "--no-follow"@,
        ]);
        let ghost first = text::views(args@);
        if let Some(f) = &self.files {
            text::push_text(&mut args, text::concat("--glob=", f.as_str()));
        }
        assert(text::views(args@) =~= first + files_option("--glob="@, self@.files));
        self.context_args(&mut args);
        text::push_text(&mut args, "--".to_string());
        text::push_text(&mut args, self.pattern.clone());
        if let SearchTarget::File(name) = &self.target {
            text::push_text(&mut args, name.clone());
        }
        assert(text::views(args@) =~= rg_arguments(self@));
        args
    }

    fn grep_args(&self) -> (r: Vec<String>)
        ensures
            text::views(r@) == grep_arguments(self@),
    {
        let one_file = match &self.target {
            SearchTarget::File(_) => true,
            SearchTarget::Dir => false,
        };
        let mut args = text::texts(&["-E"]);
        if !one_file {
            text::push_text(&mut args, "-r".to_string());
        }
        text::push_text(&mut args, "-n".to_string());
        let first = self.attempt <= 1;
        if first {
            text::push_text(&mut args, "-I".to_string());
            if !one_file {
                text::push_text(&mut args, "--exclude-dir=.git".to_string());
                text::push_text(&mut args, "--exclude-dir=target".to_string());
                text::push_text(&mut args, "--exclude-dir=node_modules".to_string());
            }
            if let Some(f) = &self.files {
                let mut option = text::concat("--in", "clude=");
                option.append(f.as_str());
                text::push_text(&mut args, option);
            }
        }
        if self.attempt <= 2 {
            self.context_args(&mut args);
        }
        text::push_text(&mut args, "--".to_string());
        text::push_text(&mut args, self.pattern.clone());
        let name = match &self.target {
            SearchTarget::File(name) => name.clone(),
            SearchTarget::Dir => ".".to_string(),
        };
        text::push_text(&mut args, name);
        assert(text::views(args@) =~= grep_arguments(self@));
        args
    }

    /// Takes the result of an attempt. There is none yet where another attempt has to be made.
    pub fn step(&mut self, out: Result<RunOut, String>) -> (r: Option<
        Result<SearchResult, String>,
    >)
        requires
            old(self).attempt <= 3,
        ensures
            final(self).attempt <= 3,
            match r {
                Some(f) => !goes_on(old(self)@, super::run_view(out)) && final(self)@ == old(self)@
                    && found_view(f) == outcome(old(self)@, super::run_view(out)),
                None => goes_on(old(self)@, super::run_view(out)) && final(self)@ == (
                SearchModel { attempt: old(self)@.attempt + 1, ..old(self)@ }),
            },
    {
        let again = match &out {
            Err(_) => self.attempt == 0,
            Ok(o) => {
                let answer = match o.exit_code {
                    Some(c) => c == 0 || c == 1,
                    None => false,
                };
                !answer && (self.attempt == 1 || (self.attempt == 2 && self.context > 0))
            },
        };
        if again {
            self.attempt += 1;
            return None;
        }
        if self.attempt == 0 {
            Some(self.rg_search(out))
        } else {
            Some(self.grep_search(out))
        }
    }

    fn rg_search(&self, out: Result<RunOut, String>) -> (r: Result<SearchResult, String>)
        ensures
            found_view(r) == rg_outcome(self@, super::run_view(out)),
    {
        match out {
            Err(e) => Err(text::concat("rg not available: ", e.as_str())),
            Ok(o) => match o.exit_code {
                Some(c) => if c == 1 {
                    let r = SearchResult { matches: Vec::new(), note: None, raw: None };
                    assert(r@.matches =~= Seq::empty());
                    Ok(r)
                } else if c != 0 {
                    Err(text::concat("rg error:\n", o.stderr.as_str()))
                } else if self.context > 0 {
                    let r = SearchResult {
                        matches: Vec::new(),
                        note: None,
                        raw: Some(normalize_raw(o.stdout.as_str())),
                    };
                    assert(r@.matches =~= Seq::empty());
                    Ok(r)
                } else {
                    Ok(
                        SearchResult {
                            matches: parse_search_lines(o.stdout.as_str()),
                            note: None,
                            raw: None,
                        },
                    )
                },
                None => Err(text::concat("rg error:\n", o.stderr.as_str())),
            },
        }
    }

    fn grep_search(&self, out: Result<RunOut, String>) -> (r: Result<SearchResult, String>)
        ensures
            found_view(r) == grep_outcome(self@, super::run_view(out)),
    {
        let note =
            "Note: ripgrep (rg) is not available on this system – the search was run with classic grep.".to_string();
        match out {
            Err(e) => Err(text::concat("grep not available: ", e.as_str())),
            Ok(o) => match o.exit_code {
                Some(c) => if c == 1 {
                    let r = SearchResult { matches: Vec::new(), note: Some(note), raw: None };
                    assert(r@.matches =~= Seq::empty());
                    Ok(r)
                } else if c != 0 {
                    Err(grep_pattern_error(self.pattern.as_str(), o.stderr.as_str()))
                } else if self.context > 0 {
                    let r = SearchResult {
                        matches: Vec::new(),
                        note: Some(note),
                        raw: Some(normalize_raw(o.stdout.as_str())),
                    };
                    assert(r@.matches =~= Seq::empty());
                    Ok(r)
                } else {
                    let all = parse_search_lines(o.stdout.as_str());
                    Ok(SearchResult { matches: keep_places(&all), note: Some(note), raw: None })
                },
                None => Err(grep_pattern_error(self.pattern.as_str(), o.stderr.as_str())),
            },
        }
    }
}

fn keep_places(v: &Vec<Match>) -> (r: Vec<Match>)
    ensures
        super::match_views(r@) == kept_places(super::match_views(v@)),
{
    let ghost want = super::match_views(v@);
    let mut out: Vec<Match> = Vec::new();
    let mut i: usize = 0;
    assert(want.take(0) =~= Seq::empty());
    assert(super::match_views(out@) =~= Seq::empty());
    while i < v.len()
        invariant
            i <= v@.len(),
            want == super::match_views(v@),
            super::match_views(out@) == kept_places(want.take(i as int)),
        decreases v@.len() - i,
    {
        let ghost before = out@;
        assert(want.take(i + 1).drop_last() =~= want.take(i as int));
        assert(want.take(i + 1).last() == v@[i as int]@);
        let path = undot(v[i].path.as_str());
        if !is_excluded_path(path.as_str()) {
            let m = Match { path, text: v[i].text.clone() };
            out.push(m);
            assert(super::match_views(out@) =~= super::match_views(before).push(m@));
        }
        i += 1;
    }
    assert(want.take(v@.len() as int) =~= want);
    out
}

// ---------------------------------------------------------------------------
// Laws
// ---------------------------------------------------------------------------
proof fn lemma_kept_places(v: Seq<super::MatchModel>, k: int)
    requires
        0 <= k < kept_places(v).len(),
    ensures
        !is_excluded(kept_places(v)[k].path),
    decreases v.len(),
{
    let before = kept_places(v.drop_last());
    if k < before.len() {
        lemma_kept_places(v.drop_last(), k);
    }
}

/// What a search with grep finds lies outside the directories that no search looks into, whichever
/// attempt it came from.
pub proof fn law_left_out_directories_are_never_found(
    m: SearchModel,
    out: Result<super::RunModel, Seq<char>>,
    k: int,
)
    requires
        grep_outcome(m, out) is Ok,
        0 <= k < (grep_outcome(m, out)->Ok_0).matches.len(),
    ensures
        !is_excluded((grep_outcome(m, out)->Ok_0).matches[k].path),
{
    match out {
        Ok(o) => {
            if o.exit_code == Some(0i32) && m.context == 0 {
                lemma_kept_places(places(text::lines(o.stdout)), k);
            }
        },
        Err(_) => {},
    }
}

/// Finding nothing is no error.
pub proof fn law_finding_nothing_is_no_error(m: SearchModel, out: super::RunModel)
    requires
        out.exit_code == Some(1i32),
    ensures
        !goes_on(m, Ok(out)),
        outcome(m, Ok(out)) is Ok,
        (outcome(m, Ok(out))->Ok_0).matches.len() == 0,
        (outcome(m, Ok(out))->Ok_0).raw is None,
{
}

/// A pattern that grep refuses is reported, not taken for one that fits nothing.
pub proof fn law_refused_patterns_are_reported(m: SearchModel, out: super::RunModel)
    requires
        m.attempt > 0,
        !is_answer(out),
        !goes_on(m, Ok(out)),
    ensures
        outcome(m, Ok(out)) == Err::<super::FoundModel, Seq<char>>(
            pattern_message(m.pattern, out.stderr),
        ),
{
}

/// A search comes to an end: there are at most four attempts.
pub proof fn law_searches_end(m: SearchModel, out: Result<super::RunModel, Seq<char>>)
    requires
        m.attempt >= 3,
    ensures
        !goes_on(m, out),
{
}

/// A search with lines around the places that ends well gives back all that was printed, line by
/// line and each without a leading dot and slash; so what is not empty never becomes nothing.
pub proof fn law_printed_lines_are_given_back(m: SearchModel, out: super::RunModel)
    requires
        out.exit_code == Some(0i32),
        m.context > 0,
    ensures
        !goes_on(m, Ok(out)),
        outcome(m, Ok(out)) is Ok,
        (outcome(m, Ok(out))->Ok_0).matches.len() == 0,
        exists|v: Seq<Seq<char>>|
            {
                &&& (outcome(m, Ok(out))->Ok_0).raw == Some(#[trigger] text::joined(v, "\n"@))
                &&& v.len() == text::lines(out.stdout).len()
                &&& forall|i: int|
                    0 <= i < v.len() ==> {
                        ||| text::lines(out.stdout)[i] == "./"@ + #[trigger] v[i]
                        ||| text::lines(out.stdout)[i] == v[i] && !"./"@.is_prefix_of(v[i])
                    }
                &&& out.stdout.len() > 0 ==> v.len() > 0
            },
        m.attempt == 0 ==> (outcome(m, Ok(out))->Ok_0).note is None,
        m.attempt > 0 ==> (outcome(m, Ok(out))->Ok_0).note == Some(
            "Note: ripgrep (rg) is not available on this system – the search was run with classic grep."@,
        ),
{
    let l = text::lines(out.stdout);
    let v = l.map_values(|l: Seq<char>| undotted(l));
    assert((outcome(m, Ok(out))->Ok_0).raw == Some(text::joined(v, "\n"@)));
    text::law_only_the_empty_text_has_no_lines(out.stdout);
    assert forall|i: int| 0 <= i < v.len() implies {
        ||| l[i] == "./"@ + #[trigger] v[i]
        ||| l[i] == v[i] && !"./"@.is_prefix_of(v[i])
    } by {
        if "./"@.is_prefix_of(l[i]) {
            assert(l[i] =~= "./"@ + v[i]);
        }
    }
}

/// A search for places that ends well names every place that was printed: the path and the text of
/// each line of the form path, number and text. With grep those in left out directories are missing.
pub proof fn law_printed_places_are_found(
    m: SearchModel,
    out: super::RunModel,
    path: Seq<char>,
    n: nat,
    found: Seq<char>,
)
    requires
        out.exit_code == Some(0i32),
        m.context == 0,
        m.attempt == 0,
        n <= usize::MAX,
        !path.contains(':'),
        text::lines(out.stdout).len() > 0,
        text::lines(out.stdout).last() == path + seq![':'] + text::decimal(n) + seq![':'] + found,
    ensures
        outcome(m, Ok(out)) is Ok,
        (outcome(m, Ok(out))->Ok_0).raw is None,
        (outcome(m, Ok(out))->Ok_0).note is None,
        (outcome(m, Ok(out))->Ok_0).matches.len() > 0,
        (outcome(m, Ok(out))->Ok_0).matches.last() == (super::MatchModel { path, text: found }),
        (outcome(m, Ok(out))->Ok_0).matches.drop_last() == places(
            text::lines(out.stdout).drop_last(),
        ),
{
    law_a_place_has_path_number_and_text(path, n, found);
    let l = text::lines(out.stdout);
    assert(places(l) == places(l.drop_last()).push(super::MatchModel { path, text: found }));
    assert(places(l).drop_last() =~= places(l.drop_last()));
}

/// A line of the form path, number and text names the place in that file with that text; one without
/// a number between colons names none.
pub proof fn law_a_place_has_path_number_and_text(path: Seq<char>, n: nat, found: Seq<char>)
    requires
        !path.contains(':'),
    ensures
        n <= usize::MAX ==> place_of(
            path + seq![':'] + text::decimal(n) + seq![':'] + found,
        ) == Some(super::MatchModel { path, text: found }),
        place_of(path) is None,
        !found.contains(':') ==> place_of(path + seq![':'] + found) is None,
{
    let d = text::decimal(n);
    let line = path + seq![':'] + d + seq![':'] + found;
    assert(line =~= path + seq![':'] + (d + seq![':'] + found));
    text::law_texts_are_cut_at_the_first(path, d + seq![':'] + found, ':');
    text::law_texts_are_cut_at_the_first(path, found, ':');
    text::law_numbers_are_written_in_digits(n);
    text::law_written_numbers_are_read(n, usize::MAX as nat);
    assert(!d.contains(':')) by {
        if d.contains(':') {
            let k = choose|k: int| 0 <= k < d.len() && d[k] == ':';
            assert(text::is_digit(d[k]));
        }
    }
    text::law_texts_are_cut_at_the_first(d, found, ':');
    if !found.contains(':') {
        text::law_texts_are_cut_at_the_first(found, found, ':');
    }
}

/// A line that names no place belongs to the text of the place before it, and to nothing where there
/// is none.
pub proof fn law_further_lines_belong_to_the_place_before(
    lines: Seq<Seq<char>>,
    line: Seq<char>,
)
    requires
        place_of(line) is None,
    ensures
        ({
            let before = places(lines);
            let after = places(lines.push(line));
            &&& after.len() == before.len()
            &&& before.len() > 0 ==> after.last().path == before.last().path && after.last().text
                == before.last().text + "\n"@ + line && after.drop_last() == before.drop_last()
        }),
        places(Seq::empty()).len() == 0,
{
    assert(lines.push(line).drop_last() =~= lines);
    let before = places(lines);
    let after = places(lines.push(line));
    if before.len() > 0 {
        assert(after.drop_last() =~= before.drop_last());
    }
}

/// Each place that grep names and that is not in a left out directory is found, with its path
/// without a leading dot and slash and its text as it is.
pub proof fn law_kept_places_are_those_outside(v: Seq<super::MatchModel>, p: super::MatchModel)
    ensures
        kept_places(Seq::empty()).len() == 0,
        !"./"@.is_prefix_of(p.path) && !is_excluded(p.path) ==> kept_places(v.push(p))
            == kept_places(v).push(p),
        is_excluded(p.path) && !"./"@.is_prefix_of(p.path) ==> kept_places(v.push(p))
            == kept_places(v),
        !is_excluded(p.path) ==> kept_places(
            v.push(super::MatchModel { path: "./"@ + p.path, text: p.text }),
        ) == kept_places(v).push(p),
{
    assert(v.push(p).drop_last() =~= v);
    let dotted = super::MatchModel { path: "./"@ + p.path, text: p.text };
    assert(v.push(dotted).drop_last() =~= v);
    assert(dotted.path.skip("./"@.len() as int) =~= p.path);
    assert("./"@ =~= dotted.path.take("./"@.len() as int));
}

/// The directories that no search looks into are those of git, of the build and of the packages; a
/// name by itself is left out only where it is one of them.
pub proof fn law_the_left_out_directories(name: Seq<char>)
    ensures
        is_left_out(name) <==> name == ".git"@ || name == "target"@ || name == "node_modules"@,
        is_left_out(name) && !name.contains('/') ==> is_excluded(name),
        !name.contains('/') && !is_left_out(name) ==> !is_excluded(name),
{
    text::lemma_pos(name, '/');
    if !name.contains('/') {
        assert(text::split(name, '/') =~= seq![name]);
        assert(text::split(name, '/')[0] == name);
    }
}

/// Ripgrep numbers the lines, writes no headings and no colours and follows no links; the pattern
/// stands behind the end of the options, whatever it begins with, and a single file behind it.
pub proof fn law_ripgrep_is_asked_for_the_pattern(m: SearchModel)
    ensures
        ({
            let a = rg_arguments(m);
            let n = a.len();
            let end = if m.one_file {
                n - 1
            } else {
                n as int
            };
            &&& a[0] == "--line-number"@
            &&& a[1] == "--no-heading"@
            &&& a[2] == "--color"@
            &&& a[3] == "never"@
            &&& a[4] == "--no-follow"@
            &&& end >= 7
            &&& a[end - 1] == m.pattern
            &&& a[end - 2] == "--"@
            &&& m.one_file ==> a[n - 1] == m.target
            &&& m.files matches Some(f) ==> a[5] == "--glob="@ + f
            &&& m.context > 0 ==> a[end - 3] == text::decimal(m.context) && a[end - 4] == "-C"@
            &&& end == 7 + (if m.files is Some {
                1int
            } else {
                0
            }) + (if m.context > 0 {
                2int
            } else {
                0
            })
        }),
{
}

/// Grep takes extended patterns, numbers the lines and goes into directories unless it is given one
/// file; the pattern stands behind the end of the options and the target behind it. The first attempt
/// leaves out what no search looks into, and the later ones ask for less.
pub proof fn law_grep_is_asked_for_the_pattern(m: SearchModel)
    ensures
        ({
            let a = grep_arguments(m);
            let n = a.len();
            &&& a[n - 1] == m.target
            &&& a[n - 2] == m.pattern
            &&& a[n - 3] == "--"@
            &&& a[0] == "-E"@
            &&& m.one_file ==> a[1] == "-n"@
            &&& !m.one_file ==> a[1] == "-r"@ && a[2] == "-n"@
            &&& m.attempt <= 1 && m.one_file ==> a[2] == "-I"@
            &&& m.attempt <= 1 && !m.one_file ==> a[3] == "-I"@ && a[4] == "--exclude-dir=.git"@
                && a[5] == "--exclude-dir=target"@ && a[6] == "--exclude-dir=node_modules"@
            &&& m.attempt <= 1 && m.one_file ==> (m.files matches Some(f) ==> a[3] == "--in"@
                + "clude="@ + f)
            &&& m.attempt <= 1 && !m.one_file ==> (m.files matches Some(f) ==> a[7] == "--in"@
                + "clude="@ + f)
            &&& m.attempt <= 2 && m.context > 0 ==> a[n - 4] == text::decimal(m.context) && a[n - 5]
                == "-C"@
            &&& m.attempt > 2 && m.one_file ==> n == 5
            &&& m.attempt > 2 && !m.one_file ==> n == 6
        }),
{
}

/// Only a missing ripgrep is replaced by grep: an error that it prints is reported as it is. Grep is
/// tried again with fewer options as long as there are any to leave out.
pub proof fn law_attempts_follow_failures(m: SearchModel, out: super::RunModel, e: Seq<char>)
    ensures
        m.attempt == 0 ==> goes_on(m, Err(e)) && !goes_on(m, Ok(out)),
        m.attempt == 0 && out.exit_code != Some(0i32) && out.exit_code != Some(1i32) ==> outcome(
            m,
            Ok(out),
        ) == Err::<super::FoundModel, Seq<char>>("rg error:\n"@ + out.stderr),
        m.attempt > 0 ==> !goes_on(m, Err(e)) && outcome(m, Err(e)) == Err::<
            super::FoundModel,
            Seq<char>,
        >("grep not available: "@ + e),
        out.exit_code != Some(0i32) && out.exit_code != Some(1i32) && m.attempt == 1 ==> goes_on(
            m,
            Ok(out),
        ),
        out.exit_code != Some(0i32) && out.exit_code != Some(1i32) && m.attempt == 2 ==> (goes_on(
            m,
            Ok(out),
        ) <==> m.context > 0),
        out.exit_code == Some(0i32) || out.exit_code == Some(1i32) ==> !goes_on(m, Ok(out)),
{
}

/// A refused pattern is named in the message, with what grep said of it at the end.
pub proof fn law_the_refused_pattern_is_named(pattern: Seq<char>, stderr: Seq<char>)
    ensures
        text::holds(pattern_message(pattern, stderr), pattern),
        text::trimmed(stderr).is_suffix_of(pattern_message(pattern, stderr)),
{
    let a = "grep konnte das Muster nicht parsen — Suchmuster `"@;
    let b = "` ist für den klassischen grep-Fallback evtl. ungeeignet."@
        + " (POSIX-ERE kennt \\d/\\w/\\s/\\b und (?:…) nicht; ersetze sie z. B. durch [0-9]/[A-Za-z0-9_]/[[:space:]] — oder installiere ripgrep (rg) für vollen Regex-Dialekt)"@
        + "\n"@ + text::trimmed(stderr);
    assert(pattern_message(pattern, stderr) =~= a + pattern + b);
    text::law_held_texts_stand_inside(a, a, pattern, b);
}

/// The message on a refused pattern says what grep does not know and what to do, and ends with what
/// grep said.
pub proof fn law_what_is_said_of_a_refused_pattern(pattern: Seq<char>, stderr: Seq<char>)
    ensures
        pattern_message(pattern, stderr)
            == "grep konnte das Muster nicht parsen — Suchmuster `"@ + pattern
            + "` ist für den klassischen grep-Fallback evtl. ungeeignet."@
            + " (POSIX-ERE kennt \\d/\\w/\\s/\\b und (?:…) nicht; ersetze sie z. B. durch [0-9]/[A-Za-z0-9_]/[[:space:]] — oder installiere ripgrep (rg) für vollen Regex-Dialekt)"@
            + "\n"@ + text::trimmed(stderr),
{
}

} // verus!
