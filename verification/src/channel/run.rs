//! Running commands: when to stop, what to keep of the output, and names made of words.

use super::RunOut;
use crate::chat::tokens;
use crate::text;
use vstd::prelude::*;
use vstd::string::*;

verus! {

// ---------------------------------------------------------------------------
// The course of a command
// ---------------------------------------------------------------------------
/// How long output is still read after a command has ended, in milliseconds.
pub const GRACE: u64 = 250;

/// The course of a running command. Times are milliseconds since it began.
#[derive(Debug, Clone, Copy, PartialEq, Eq, Structural)]
pub struct RunLoop {
    /// When the command is stopped.
    pub deadline: u64,
    /// Whether the command has ended.
    pub done: bool,
    /// Whether it was stopped on request.
    pub cancelled: bool,
    /// How it ended by itself; none where it was stopped.
    pub exit_code: Option<i32>,
    /// Until when output is still read.
    pub drain_until: Option<u64>,
}

/// What was seen of a running command.
#[derive(Debug, Clone, Copy, PartialEq, Eq, Structural)]
pub struct Seen {
    pub now: u64,
    /// Whether it is to be stopped.
    pub cancel: bool,
    /// Whether it has ended, and how.
    pub exit: Option<Option<i32>>,
    /// Whether both outputs are closed.
    pub closed: bool,
}

/// What to do with a running command.
#[derive(Debug, Clone, Copy, PartialEq, Eq, Structural)]
pub enum RunStep {
    /// Go on.
    Wait,
    /// Stop the command and its whole process group, and go on.
    Kill,
    /// The command has ended and its output is read.
    Finish,
    /// Stop the command and its whole process group; its output is read.
    KillAndFinish,
}

/// The end of the time in which output is still read.
pub open spec fn grace_end(now: u64) -> u64 {
    if now + GRACE <= u64::MAX {
        (now + GRACE) as u64
    } else {
        u64::MAX
    }
}

/// Whether a command has to be stopped now: on request, once, or because its time is over and it
/// has not ended by itself.
pub open spec fn must_stop(l: RunLoop, seen: Seen) -> bool {
    (seen.cancel && !l.cancelled) || (!l.done && seen.exit is None && seen.now >= l.deadline)
}

/// The course after a look at the command.
pub open spec fn looked(l: RunLoop, seen: Seen) -> RunLoop {
    if must_stop(l, seen) {
        RunLoop {
            done: true,
            cancelled: l.cancelled || seen.cancel,
            exit_code: None,
            drain_until: Some(grace_end(seen.now)),
            ..l
        }
    } else if !l.done && seen.exit is Some {
        RunLoop {
            done: true,
            exit_code: seen.exit->0,
            drain_until: Some(grace_end(seen.now)),
            ..l
        }
    } else {
        l
    }
}

/// Whether nothing is left to be read: the command has ended, and the outputs are closed or the
/// time to read them is over.
pub open spec fn is_over(l: RunLoop, seen: Seen) -> bool {
    l.done && (match l.drain_until {
        Some(end) => seen.now >= end || seen.closed,
        None => false,
    })
}

impl RunLoop {
    /// The course of a command that may take `timeout` milliseconds.
    pub fn new(timeout: u64) -> (r: Self)
        ensures
            r == (RunLoop {
                deadline: timeout,
                done: false,
                cancelled: false,
                exit_code: None,
                drain_until: None,
            }),
    {
        RunLoop {
            deadline: timeout,
            done: false,
            cancelled: false,
            exit_code: None,
            drain_until: None,
        }
    }

    /// Takes a look at the command and says what to do.
    pub fn step(&mut self, seen: Seen) -> (r: RunStep)
        ensures
            *final(self) == looked(*old(self), seen),
            r == (match (must_stop(*old(self), seen), is_over(*final(self), seen)) {
                (true, true) => RunStep::KillAndFinish,
                (true, false) => RunStep::Kill,
                (false, true) => RunStep::Finish,
                (false, false) => RunStep::Wait,
            }),
    {
        let end: u64 = seen.now.saturating_add(GRACE);
        let mut kill = false;
        if (seen.cancel && !self.cancelled) || (!self.done && seen.exit.is_none() && seen.now
            >= self.deadline) {
            kill = true;
            self.done = true;
            self.cancelled = self.cancelled || seen.cancel;
            self.exit_code = None;
            self.drain_until = Some(end);
        } else if !self.done {
            if let Some(code) = seen.exit {
                self.done = true;
                self.exit_code = code;
                self.drain_until = Some(end);
            }
        }
        let over = self.done && (match self.drain_until {
            Some(until) => seen.now >= until || seen.closed,
            None => false,
        });
        if kill && over {
            RunStep::KillAndFinish
        } else if kill {
            RunStep::Kill
        } else if over {
            RunStep::Finish
        } else {
            RunStep::Wait
        }
    }

    /// The result of a command that has ended.
    pub fn result(&self, stdout: &str, stderr: &str) -> (r: RunOut)
        ensures
            r@ == (super::RunModel {
                exit_code: self.exit_code,
                stdout: shortened(stdout@, OUTPUT_LIMIT as nat, gap_mark()),
                stderr: shortened(stderr@, OUTPUT_LIMIT as nat, gap_mark()),
            }),
    {
        RunOut {
            exit_code: self.exit_code,
            stdout: truncate_output(stdout),
            stderr: truncate_output(stderr),
        }
    }
}

/// The process group in a line of process data: the third field behind the name, which stands in
/// brackets and may hold anything.
pub open spec fn group_of(stat: Seq<char>) -> Option<int> {
    let from = behind_last(stat, ')');
    if from == 0 {
        None
    } else {
        let fields = words(stat.skip(from));
        if fields.len() > 2 {
            signed(fields[2])
        } else {
            None
        }
    }
}

/// The signed 32-bit number that `s` writes.
pub open spec fn signed(s: Seq<char>) -> Option<int> {
    if s.len() > 0 && s[0] == '-' {
        let d = s.drop_first();
        if text::all_digits(d) && text::digits_value(d) <= 0x8000_0000 {
            Some(-(text::digits_value(d) as int))
        } else {
            None
        }
    } else {
        match text::parsed(s, i32::MAX as nat) {
            Some(n) => Some(n as int),
            None => None,
        }
    }
}

fn parse_signed(s: &str) -> (r: Option<i32>)
    ensures
        match r {
            Some(n) => signed(s@) == Some(n as int),
            None => signed(s@) is None,
        },
{
    let cs = text::chars_of(s);
    let n: usize = cs.len();
    if n > 0 && cs[0] == '-' {
        let rest = text::text_of(&cs, 1, n);
        assert(rest@ =~= s@.drop_first());
        if n > 1 && cs[1] == '+' {
            assert(!text::is_digit(rest@[0]));
            return None;
        }
        match text::parse_up_to(rest.as_str(), 0x8000_0000) {
            Some(v) => Some((0 - v as i64) as i32),
            None => None,
        }
    } else {
        match text::parse_up_to(s, 0x7fff_ffff) {
            Some(v) => Some(v as i32),
            None => None,
        }
    }
}

/// The position behind the last `c`; the beginning where there is none.
pub open spec fn behind_last(s: Seq<char>, c: char) -> int
    decreases s.len(),
{
    if s.len() == 0 || s.last() == c {
        s.len() as int
    } else {
        behind_last(s.drop_last(), c)
    }
}

/// The words of `s`: what stands between white space.
pub open spec fn words(s: Seq<char>) -> Seq<Seq<char>>
    decreases s.len(),
{
    if s.len() == 0 {
        Seq::empty()
    } else if text::is_white(s.last()) {
        words(s.drop_last())
    } else {
        let from = word_start(s);
        if 0 <= from < s.len() {
            words(s.take(from)).push(s.skip(from))
        } else {
            Seq::empty()
        }
    }
}

/// Where the word at the end of `s` begins.
pub open spec fn word_start(s: Seq<char>) -> int
    decreases s.len(),
{
    if s.len() == 0 || text::is_white(s.last()) {
        s.len() as int
    } else {
        word_start(s.drop_last())
    }
}

proof fn lemma_word_start(s: Seq<char>)
    ensures
        0 <= word_start(s) <= s.len(),
        s.len() > 0 && !text::is_white(s.last()) ==> word_start(s) < s.len(),
    decreases s.len(),
{
    if s.len() > 0 && !text::is_white(s.last()) {
        lemma_word_start(s.drop_last());
    }
}

/// The words of the text.
pub fn words_of(s: &str) -> (r: Vec<String>)
    ensures
        text::views(r@) == words(s@),
{
    let cs = text::chars_of(s);
    let mut rev: Vec<String> = Vec::new();
    let mut to: usize = cs.len();
    assert(cs@.take(to as int) =~= s@);
    assert(words(cs@.take(to as int)) + text::views(rev@).reverse() =~= words(s@));
    while to > 0
        invariant
            to <= cs@.len(),
            words(cs@.take(to as int)) + text::views(rev@).reverse() == words(s@),
        decreases to,
    {
        let ghost t = cs@.take(to as int);
        assert(t.last() == cs@[to - 1]);
        if text::is_white_char(cs[to - 1]) {
            assert(t.drop_last() =~= cs@.take(to - 1));
            to -= 1;
        } else {
            let mut from: usize = to;
            while from > 0 && !text::is_white_char(cs[from - 1])
                invariant
                    from <= to <= cs@.len(),
                    word_start(cs@.take(from as int)) == word_start(cs@.take(to as int)),
                decreases from,
            {
                assert(cs@.take(from as int).drop_last() =~= cs@.take(from - 1));
                assert(cs@.take(from as int).last() == cs@[from - 1]);
                from -= 1;
            }
            proof {
                if from > 0 {
                    assert(cs@.take(from as int).last() == cs@[from - 1]);
                }
                lemma_word_start(t);
            }
            let ghost before = rev@;
            let w = text::text_of(&cs, from, to);
            rev.push(w);
            proof {
                text::lemma_views_push(before, w);
                assert(t.skip(from as int) =~= w@);
                assert(t.take(from as int) =~= cs@.take(from as int));
                let x = text::views(before);
                assert(x.push(w@).reverse() =~= seq![w@] + x.reverse());
                assert(words(cs@.take(from as int)) + text::views(rev@).reverse() =~= words(t)
                    + x.reverse());
            }
            to = from;
        }
    }
    let mut out: Vec<String> = Vec::new();
    let mut i: usize = rev.len();
    let ghost want = text::views(rev@).reverse();
    proof {
        assert(cs@.take(0) =~= Seq::empty());
        assert(words(cs@.take(0)) + want =~= want);
        assert(want.take(0) =~= text::views(out@));
    }
    while i > 0
        invariant
            i <= rev@.len(),
            want == text::views(rev@).reverse(),
            text::views(out@) == want.take(rev@.len() - i),
        decreases i,
    {
        let ghost before = out@;
        let w = rev[i - 1].clone();
        out.push(w);
        proof {
            text::lemma_views_push(before, w);
            assert(want[rev@.len() - i] == w@);
            assert(want.take(rev@.len() - i + 1) =~= want.take(rev@.len() - i).push(w@));
        }
        i -= 1;
    }
    assert(want.take(rev@.len() as int) =~= want);
    out
}

/// The process group in a line of process data.
pub fn proc_pgrp(stat: &str) -> (r: Option<i32>)
    ensures
        match r {
            Some(n) => group_of(stat@) == Some(n as int),
            None => group_of(stat@) is None,
        },
{
    let cs = text::chars_of(stat);
    let mut from: usize = cs.len();
    assert(cs@.take(from as int) =~= stat@);
    while from > 0 && cs[from - 1] != ')'
        invariant
            from <= cs@.len(),
            behind_last(cs@.take(from as int), ')') == behind_last(stat@, ')'),
        decreases from,
    {
        assert(cs@.take(from as int).drop_last() =~= cs@.take(from - 1));
        assert(cs@.take(from as int).last() == cs@[from - 1]);
        from -= 1;
    }
    proof {
        if from > 0 {
            assert(cs@.take(from as int).last() == cs@[from - 1]);
        }
    }
    if from == 0 {
        return None;
    }
    let rest = text::text_of(&cs, from, cs.len());
    assert(rest@ =~= stat@.skip(from as int));
    let fields = words_of(rest.as_str());
    assert(text::views(fields@).len() == fields@.len());
    if fields.len() > 2 {
        assert(text::views(fields@)[2] == fields@[2]@);
        parse_signed(fields[2].as_str())
    } else {
        None
    }
}

// ---------------------------------------------------------------------------
// Output that is too long
// ---------------------------------------------------------------------------
/// How many bytes of an output are held while a command runs.
pub const RUN_OUTPUT_MEM_CAP: usize = 8388608;

/// How many characters of an output are kept.
pub const OUTPUT_LIMIT: usize = 65536;

/// How many bytes a character takes.
pub open spec fn width(c: char) -> nat {
    vstd::utf8::encode_scalar(c as u32).len()
}

/// How many characters at the beginning of `s` have to go to free `room` bytes.
pub open spec fn excess(s: Seq<char>, room: int) -> int
    decreases s.len(),
{
    if s.len() == 0 || room <= 0 {
        0
    } else {
        1 + excess(s.drop_first(), room - width(s[0]))
    }
}

/// The end of an output: what is too long is taken away from the front, up to the end of a line
/// where something is left behind it.
pub open spec fn front_trimmed(s: Seq<char>, cap: nat) -> Seq<char> {
    if tokens::byte_len(s) <= cap {
        s
    } else {
        let rest = s.skip(excess(s, tokens::byte_len(s) - cap));
        let k = text::pos(rest, '\n');
        if k + 1 < rest.len() {
            rest.skip(k + 1)
        } else {
            rest
        }
    }
}

fn char_width(c: char) -> (r: usize)
    ensures
        r == width(c),
        1 <= r <= 4,
{
    let n: u32 = c as u32;
    if n <= 0x7f {
        1
    } else if n <= 0x7ff {
        2
    } else if n <= 0xffff {
        3
    } else {
        4
    }
}

proof fn lemma_byte_len_step(s: Seq<char>)
    requires
        s.len() > 0,
    ensures
        tokens::byte_len(s) == width(s[0]) + tokens::byte_len(s.drop_first()),
{
}

proof fn lemma_excess(s: Seq<char>, room: int)
    requires
        room <= tokens::byte_len(s),
    ensures
        0 <= excess(s, room) <= s.len(),
        tokens::byte_len(s.skip(excess(s, room))) <= tokens::byte_len(s) - room || room <= 0,
        room <= 0 ==> excess(s, room) == 0,
    decreases s.len(),
{
    if s.len() > 0 && room > 0 {
        let t = s.drop_first();
        let left = room - width(s[0]);
        lemma_byte_len_step(s);
        lemma_excess(t, left);
        let k = excess(t, left);
        assert(s.skip(k + 1) =~= t.skip(k));
        if left <= 0 {
            assert(t.skip(0) =~= t);
        }
    }
}

/// Takes away from the front of an output what is beyond `cap` bytes; says whether there was any.
pub fn trim_front(out: &mut String, cap: usize) -> (r: bool)
    ensures
        r == (tokens::byte_len(old(out)@) > cap),
        final(out)@ == front_trimmed(old(out)@, cap as nat),
        final(out)@.is_suffix_of(old(out)@),
        tokens::byte_len(final(out)@) <= cap,
{
    let ghost whole = out@;
    assert(front_trimmed(whole, cap as nat).is_suffix_of(whole) && tokens::byte_len(
        front_trimmed(whole, cap as nat),
    ) <= cap) by {
        law_trimming_keeps_the_end(whole, cap as nat);
    }
    let size: usize = tokens::byte_count(out.as_str());
    if size <= cap {
        return false;
    }
    let cs = text::chars_of(out.as_str());
    let n: usize = cs.len();
    let mut room: usize = size - cap;
    let mut k: usize = 0;
    assert(cs@.skip(0) =~= whole);
    while k < n && room > 0
        invariant
            k <= n == cs@.len(),
            cs@ == whole,
            excess(whole, size - cap) == k + excess(cs@.skip(k as int), room as int),
        decreases n - k,
    {
        assert(cs@.skip(k as int).drop_first() =~= cs@.skip(k + 1));
        assert(cs@.skip(k as int)[0] == cs@[k as int]);
        let w: usize = char_width(cs[k]);
        let ghost left = room - w;
        room = if w < room {
            room - w
        } else {
            0
        };
        assert(excess(cs@.skip(k + 1), left) == excess(cs@.skip(k + 1), room as int));
        k += 1;
    }
    assert(excess(cs@.skip(k as int), room as int) == 0);
    let line = text::find_char(&cs, k, n, '\n');
    assert(cs@.subrange(k as int, n as int) =~= whole.skip(k as int));
    let from: usize = if line < n && line + 1 < n {
        line + 1
    } else {
        k
    };
    *out = text::text_of(&cs, from, n);
    proof {
        assert(cs@.subrange(from as int, n as int) =~= whole.skip(from as int));
        if from != k {
            assert(whole.skip(k as int).skip(line - k + 1) =~= whole.skip(from as int));
        }
    }
    true
}

/// What marks the gap in an output.
pub open spec fn gap_mark() -> Seq<char> {
    "…\n[vorne gekürzt]\n"@
}

/// How many lines at the end of `lines`, with a line feed between neighbours, take up to `room`
/// characters.
pub open spec fn tail_lines(lines: Seq<Seq<char>>, room: int) -> nat
    decreases lines.len(),
{
    if lines.len() == 0 || lines.last().len() > room {
        0
    } else {
        1 + tail_lines(lines.drop_last(), room - lines.last().len() - 1)
    }
}

/// The end of a text: whole lines up to `limit` characters, with a mark in place of what is left
/// out. Where the last line alone is too long, the end of it.
pub open spec fn shortened(s: Seq<char>, limit: nat, mark: Seq<char>) -> Seq<char> {
    if s.len() <= limit {
        s
    } else {
        let room = limit - mark.len();
        let lines = text::lines(s);
        let k = tail_lines(lines, room);
        if k == 0 {
            mark + last_chars(lines, room)
        } else {
            mark + text::joined(lines.skip(lines.len() - k), "\n"@)
        }
    }
}

/// The last characters of the last line.
pub open spec fn last_chars(lines: Seq<Seq<char>>, room: int) -> Seq<char> {
    if lines.len() == 0 || room <= 0 {
        Seq::empty()
    } else if lines.last().len() <= room {
        lines.last()
    } else {
        lines.last().skip(lines.last().len() - room)
    }
}

/// The end of an output that is too long.
pub fn truncate_output(s: &str) -> (r: String)
    ensures
        r@ == shortened(s@, OUTPUT_LIMIT as nat, gap_mark()),
{
    proof {
        reveal_strlit("…\n[vorne gekürzt]\n");
    }
    truncate_tail(s, OUTPUT_LIMIT, "…\n[vorne gekürzt]\n")
}

/// The end of a text, with a mark in place of what is left out.
pub fn truncate_tail(s: &str, limit: usize, mark: &str) -> (r: String)
    requires
        mark@.len() <= limit,
    ensures
        r@ == shortened(s@, limit as nat, mark@),
{
    let n: usize = s.unicode_len();
    if n <= limit {
        return s.to_string();
    }
    let marks: usize = mark.unicode_len();
    let room: usize = limit - marks;
    let lines = text::lines_of(s);
    let ghost want = text::lines(s@);
    let total: usize = lines.len();
    let mut from: usize = total;
    let mut left: i128 = room as i128;
    assert(want.take(total as int) =~= want);
    while from > 0 && (lines[from - 1].unicode_len() as i128) <= left
        invariant
            from <= total == lines@.len(),
            want == text::views(lines@),
            -1 <= left <= room,
            tail_lines(want, room as int) == (total - from) + tail_lines(
                want.take(from as int),
                left as int,
            ),
        decreases from,
    {
        assert(want.take(from as int).drop_last() =~= want.take(from - 1));
        assert(want.take(from as int).last() == lines@[from - 1]@);
        left = left - lines[from - 1].unicode_len() as i128 - 1;
        from -= 1;
    }
    proof {
        if from > 0 {
            assert(want.take(from as int).last() == lines@[from - 1]@);
        }
    }
    let mut out = mark.to_string();
    if from == total {
        let tail = last_of(&lines, room);
        out.append(tail.as_str());
    } else {
        let kept = texts_from(&lines, from);
        out.append(text::join_texts(&kept, "\n").as_str());
    }
    out
}

fn last_of(lines: &Vec<String>, room: usize) -> (r: String)
    ensures
        r@ == last_chars(text::views(lines@), room as int),
{
    let n: usize = lines.len();
    assert(text::views(lines@).len() == n);
    if n == 0 || room == 0 {
        let r = String::new();
        assert(r@ =~= Seq::empty());
        return r;
    }
    assert(text::views(lines@).last() == lines@[n - 1]@);
    let cs = text::chars_of(lines[n - 1].as_str());
    let from: usize = if cs.len() <= room {
        0
    } else {
        cs.len() - room
    };
    let r = text::text_of(&cs, from, cs.len());
    assert(r@ =~= cs@.skip(from as int));
    assert(cs@.skip(0) =~= cs@);
    r
}

fn texts_from(v: &Vec<String>, from: usize) -> (r: Vec<String>)
    requires
        from <= v@.len(),
    ensures
        text::views(r@) == text::views(v@).skip(from as int),
{
    let mut out: Vec<String> = Vec::new();
    let mut i: usize = from;
    let ghost want = text::views(v@).skip(from as int);
    while i < v.len()
        invariant
            from <= i <= v@.len(),
            want == text::views(v@).skip(from as int),
            text::views(out@) == want.take(i - from),
        decreases v@.len() - i,
    {
        let ghost before = out@;
        let t = v[i].clone();
        out.push(t);
        proof {
            text::lemma_views_push(before, t);
            assert(want[i - from] == t@);
            assert(want.take(i - from + 1) =~= want.take(i - from).push(t@));
        }
        i += 1;
    }
    assert(want.take(v@.len() - from) =~= want);
    out
}

// ---------------------------------------------------------------------------
// Numbers and names
// ---------------------------------------------------------------------------
/// The number that a command printed as an identity.
pub open spec fn identity(out: super::RunModel, what: Seq<char>) -> Result<nat, Seq<char>> {
    if out.exit_code != Some(0i32) {
        Err(what + " failed:\n"@ + out.stderr)
    } else {
        match text::parsed(text::trimmed(out.stdout), u32::MAX as nat) {
            Some(n) => Ok(n),
            None => Err(
                what + " lieferte keine numerische ID: "@ + text::trimmed(out.stdout),
            ),
        }
    }
}

/// The number that a command printed as an identity.
pub fn parse_id(out: &RunOut, what: &str) -> (r: Result<u32, String>)
    ensures
        match r {
            Ok(n) => identity(out@, what@) == Ok::<nat, Seq<char>>(n as nat),
            Err(e) => identity(out@, what@) == Err::<nat, Seq<char>>(e@),
        },
{
    let ok = match out.exit_code {
        Some(c) => c == 0,
        None => false,
    };
    if !ok {
        return Err(text::concat3(what, " failed:\n", out.stderr.as_str()));
    }
    let t = text::trim(out.stdout.as_str());
    match text::parse_u32(t.as_str()) {
        Some(n) => Ok(n),
        None => Err(text::concat3(what, " lieferte keine numerische ID: ", t.as_str())),
    }
}

/// The identity of the user on the host, from what `id -u` and `id -g` printed.
pub open spec fn host_identity(
    uid: Result<super::RunModel, Seq<char>>,
    gid: Result<super::RunModel, Seq<char>>,
) -> Result<(nat, nat), Seq<char>> {
    match uid {
        Err(e) => Err(e),
        Ok(u) => match identity(u, "id -u"@) {
            Err(e) => Err(e),
            Ok(un) => match gid {
                Err(e) => Err(e),
                Ok(g) => match identity(g, "id -g"@) {
                    Err(e) => Err(e),
                    Ok(gn) => Ok((un, gn)),
                },
            },
        },
    }
}

/// The view of an identity.
pub open spec fn pair_view(r: Result<(u32, u32), String>) -> Result<(nat, nat), Seq<char>> {
    match r {
        Ok(p) => Ok((p.0 as nat, p.1 as nat)),
        Err(e) => Err(e@),
    }
}

/// The identity of the user on the host.
pub fn host_uid_gid(uid: Result<RunOut, String>, gid: Result<RunOut, String>) -> (r: Result<
    (u32, u32),
    String,
>)
    ensures
        pair_view(r) == host_identity(super::run_view(uid), super::run_view(gid)),
{
    let u = match uid {
        Ok(out) => match parse_id(&out, "id -u") {
            Ok(n) => n,
            Err(e) => {
                return Err(e);
            },
        },
        Err(e) => {
            return Err(e);
        },
    };
    match gid {
        Ok(out) => match parse_id(&out, "id -g") {
            Ok(n) => Ok((u, n)),
            Err(e) => Err(e),
        },
        Err(e) => Err(e),
    }
}

/// The Unicode property that `char::is_alphanumeric` tests.
pub uninterp spec fn alphanumeric(c: char) -> bool;

/// `char::is_alphanumeric` of the standard library tests a property of the character alone.
pub assume_specification[ char::is_alphanumeric ](c: char) -> (r: bool)
    ensures
        r == alphanumeric(c),
;

/// Whether a character can stand in a word: a letter or a digit.
pub open spec fn is_word_char(c: char) -> bool {
    if c <= '\u{7f}' {
        ('a' <= c <= 'z') || ('A' <= c <= 'Z') || ('0' <= c <= '9')
    } else {
        alphanumeric(c)
    }
}

/// A character of a name: a small letter, a digit or a dash.
pub open spec fn name_char(c: char) -> char {
    if is_word_char(c) {
        text::lower(c)
    } else {
        '-'
    }
}

/// The name that a text gives: words with dashes between, never empty and never with a dash first.
pub open spec fn word_name(s: Seq<char>) -> Seq<char> {
    let t = text::trimmed_start_of(s.map_values(|c: char| name_char(c)), '-');
    if t.len() == 0 {
        "channel"@
    } else {
        t
    }
}

fn to_name_char(c: char) -> (r: char)
    ensures
        r == name_char(c),
{
    let word = if c <= '\u{7f}' {
        ('a' <= c && c <= 'z') || ('A' <= c && c <= 'Z') || ('0' <= c && c <= '9')
    } else {
        c.is_alphanumeric()
    };
    if word {
        text::lower_char(c)
    } else {
        '-'
    }
}

/// The name that a text gives.
pub fn sanitize(s: &str) -> (r: String)
    ensures
        r@ == word_name(s@),
{
    let cs = text::chars_of(s);
    let ghost want = s@.map_values(|c: char| name_char(c));
    let mut out = String::new();
    let mut i: usize = 0;
    while i < cs.len()
        invariant
            i <= cs@.len(),
            cs@ == s@,
            want == s@.map_values(|c: char| name_char(c)),
            out@ == want.take(i as int),
        decreases cs@.len() - i,
    {
        out.push(to_name_char(cs[i]));
        assert(want.take(i + 1) =~= want.take(i as int).push(want[i as int]));
        i += 1;
    }
    assert(want.take(cs@.len() as int) =~= want);
    let t = text::trim_start_of(out.as_str(), '-');
    proof {
        reveal_strlit("");
        if t@.len() == 0 {
            assert(t@ =~= ""@);
        }
    }
    if text::same_text(t.as_str(), "") {
        "channel".to_string()
    } else {
        t
    }
}

// ---------------------------------------------------------------------------
// Laws
// ---------------------------------------------------------------------------
/// A command is stopped on request, and counts as stopped.
pub proof fn law_requests_stop_a_command(l: RunLoop, seen: Seen)
    requires
        seen.cancel,
        !l.cancelled,
    ensures
        must_stop(l, seen),
        looked(l, seen).done,
        looked(l, seen).cancelled,
        looked(l, seen).exit_code is None,
{
}

/// A command that has not ended when its time is over is stopped.
pub proof fn law_time_limits_stop_a_command(l: RunLoop, seen: Seen)
    requires
        !l.done,
        seen.exit is None,
        seen.now >= l.deadline,
    ensures
        must_stop(l, seen),
        looked(l, seen).done,
        looked(l, seen).exit_code is None,
{
}

/// The end of the output is never waited for: once a command has ended, reading ends after the
/// grace period at the latest, whether the outputs are closed or not.
pub proof fn law_reading_ends(l: RunLoop, first: Seen, later: Seen)
    requires
        !l.done,
        looked(l, first).done,
        !(later.cancel && !looked(l, first).cancelled),
        later.now >= grace_end(first.now),
    ensures
        looked(looked(l, first), later) == looked(l, first),
        is_over(looked(l, first), later),
{
}

proof fn lemma_skip_byte_len(s: Seq<char>, k: int)
    requires
        0 <= k <= s.len(),
    ensures
        tokens::byte_len(s.skip(k)) <= tokens::byte_len(s),
    decreases k,
{
    if k > 0 {
        lemma_byte_len_step(s);
        assert(s.skip(k) =~= s.drop_first().skip(k - 1));
        lemma_skip_byte_len(s.drop_first(), k - 1);
    } else {
        assert(s.skip(0) =~= s);
    }
}

/// Trimming keeps the end of an output and brings it down to the limit; what is within the limit
/// stays as it is.
pub proof fn law_trimming_keeps_the_end(s: Seq<char>, cap: nat)
    ensures
        front_trimmed(s, cap).is_suffix_of(s),
        tokens::byte_len(front_trimmed(s, cap)) <= cap,
        tokens::byte_len(s) <= cap ==> front_trimmed(s, cap) == s,
{
    if tokens::byte_len(s) > cap {
        let k = excess(s, tokens::byte_len(s) - cap);
        lemma_excess(s, tokens::byte_len(s) - cap);
        let rest = s.skip(k);
        let j = text::pos(rest, '\n');
        text::lemma_pos(rest, '\n');
        let r = front_trimmed(s, cap);
        if j + 1 < rest.len() {
            lemma_skip_byte_len(rest, j + 1);
            assert(r =~= s.subrange(s.len() - r.len(), s.len() as int));
        } else {
            assert(r =~= s.subrange(s.len() - r.len(), s.len() as int));
        }
    } else {
        assert(s =~= s.subrange(0, s.len() as int));
    }
}

proof fn lemma_tail_lines(lines: Seq<Seq<char>>, room: int)
    ensures
        tail_lines(lines, room) <= lines.len(),
        tail_lines(lines, room) > 0 ==> text::joined(
            lines.skip(lines.len() - tail_lines(lines, room)),
            "\n"@,
        ).len() <= room,
    decreases lines.len(),
{
    reveal_strlit("\n");
    if lines.len() > 0 && lines.last().len() <= room {
        let t = lines.drop_last();
        let left = room - lines.last().len() - 1;
        lemma_tail_lines(t, left);
        let k = tail_lines(t, left);
        let kept = lines.skip(lines.len() - k - 1);
        assert(kept.last() == lines.last());
        if k > 0 {
            assert(kept.drop_last() =~= t.skip(t.len() - k));
        } else {
            assert(kept.len() == 1);
        }
    }
}

/// A shortened output stays within its limit.
pub proof fn law_shortened_output_stays_within_the_limit(s: Seq<char>, limit: nat, mark: Seq<char>)
    requires
        mark.len() <= limit,
    ensures
        shortened(s, limit, mark).len() <= limit,
        s.len() > limit ==> mark.is_prefix_of(shortened(s, limit, mark)),
{
    if s.len() > limit {
        let room = limit - mark.len();
        let lines = text::lines(s);
        lemma_tail_lines(lines, room);
        let r = shortened(s, limit, mark);
        assert(r.subrange(0, mark.len() as int) =~= mark);
    }
}

proof fn lemma_trimmed_start_of(s: Seq<char>, c: char)
    ensures
        text::trimmed_start_of(s, c).len() > 0 ==> text::trimmed_start_of(s, c)[0] != c,
        forall|i: int|
            0 <= i < text::trimmed_start_of(s, c).len() ==> s.contains(
                #[trigger] text::trimmed_start_of(s, c)[i],
            ),
    decreases s.len(),
{
    if s.len() > 0 && s[0] == c {
        let t = s.drop_first();
        lemma_trimmed_start_of(t, c);
        assert forall|i: int| 0 <= i < text::trimmed_start_of(s, c).len() implies s.contains(
            #[trigger] text::trimmed_start_of(s, c)[i],
        ) by {
            let x = text::trimmed_start_of(t, c)[i];
            assert(t.contains(x));
            let k = choose|k: int| 0 <= k < t.len() && t[k] == x;
            assert(s[k + 1] == x);
        }
    }
}

proof fn lemma_name_char_again(c: char)
    ensures
        name_char(name_char(c)) == name_char(c),
{
}

/// A name is never empty, never begins with a dash, and holds nothing but small letters, digits
/// and dashes; making a name of it again changes nothing.
pub proof fn law_names_are_words(s: Seq<char>)
    ensures
        word_name(s).len() > 0,
        word_name(s)[0] != '-',
        forall|i: int|
            0 <= i < word_name(s).len() ==> name_char(#[trigger] word_name(s)[i]) == word_name(s)[i],
        word_name(word_name(s)) == word_name(s),
{
    reveal_strlit("channel");
    let m = s.map_values(|c: char| name_char(c));
    let n = word_name(s);
    lemma_trimmed_start_of(m, '-');
    assert forall|i: int| 0 <= i < n.len() implies name_char(#[trigger] n[i]) == n[i] by {
        if text::trimmed_start_of(m, '-').len() > 0 {
            let x = text::trimmed_start_of(m, '-')[i];
            assert(m.contains(x));
            let k = choose|k: int| 0 <= k < m.len() && m[k] == x;
            lemma_name_char_again(s[k]);
        }
    }
    assert(n.map_values(|c: char| name_char(c)) =~= n);
}

/// A command that has ended keeps its exit code, unless it is to be stopped; then there is a grace
/// period of a quarter of a second for what it still prints.
pub proof fn law_the_exit_code_is_kept(l: RunLoop, seen: Seen, code: Option<i32>)
    requires
        !l.done,
        seen.exit == Some(code),
        !(seen.cancel && !l.cancelled),
        seen.now + 250 <= u64::MAX,
    ensures
        !must_stop(l, seen),
        looked(l, seen).done,
        looked(l, seen).exit_code == code,
        looked(l, seen).cancelled == l.cancelled,
        looked(l, seen).drain_until == Some((seen.now + 250) as u64),
        looked(l, seen).deadline == l.deadline,
{
}

/// As long as a command runs within its time and nobody wants to stop it, it is left alone; and
/// reading goes on until it has ended and either everything was read or the grace period is over.
pub proof fn law_running_commands_are_left_alone(l: RunLoop, seen: Seen)
    ensures
        !seen.cancel && !l.done && seen.exit is None && seen.now < l.deadline ==> !must_stop(l, seen)
            && looked(l, seen) == l,
        !l.done ==> !is_over(l, seen),
        l.done && l.drain_until is Some && seen.closed ==> is_over(l, seen),
        l.done && l.drain_until is Some && !seen.closed ==> (is_over(l, seen) <==> seen.now
            >= l.drain_until->0),
{
}

/// In a name letters become small, digits stay and everything else among the ASCII characters
/// becomes a dash; nothing is lost behind the first letter or digit.
pub proof fn law_names_keep_letters_and_digits(s: Seq<char>, k: int)
    requires
        0 <= k < s.len(),
        is_word_char(s[0]),
        (s[k] as u32) < 128,
    ensures
        word_name(s).len() == s.len(),
        'a' <= s[k] <= 'z' || '0' <= s[k] <= '9' ==> word_name(s)[k] == s[k],
        'A' <= s[k] <= 'Z' ==> word_name(s)[k] as u32 == s[k] as u32 + 32,
        !('a' <= s[k] <= 'z') && !('0' <= s[k] <= '9') && !('A' <= s[k] <= 'Z') ==> word_name(s)[k]
            == '-',
{
    let m = s.map_values(|c: char| name_char(c));
    assert(m[0] == text::lower(s[0]));
    assert(m[0] != '-');
    assert(text::trimmed_start_of(m, '-') == m);
}

/// An identity is the number that the command printed; a command that failed or printed something
/// else is named in the error.
pub proof fn law_identities_are_numbers(n: nat, what: Seq<char>, out: super::RunModel)
    ensures
        out.exit_code == Some(0i32) && n <= u32::MAX && out.stdout == text::decimal(n) + seq!['\n']
            ==> identity(out, what) == Ok::<nat, Seq<char>>(n),
        out.exit_code != Some(0i32) ==> identity(out, what) == Err::<nat, Seq<char>>(
            what + " failed:\n"@ + out.stderr,
        ),
        out.exit_code == Some(0i32) && text::parsed(text::trimmed(out.stdout), u32::MAX as nat) is None
            ==> identity(out, what) == Err::<nat, Seq<char>>(
            what + " lieferte keine numerische ID: "@ + text::trimmed(out.stdout),
        ),
{
    let d = text::decimal(n);
    text::law_numbers_are_written_in_digits(n);
    text::law_written_numbers_are_read(n, u32::MAX as nat);
    assert(text::is_digit(d[0]));
    assert(text::is_digit(d[d.len() - 1]));
    text::law_trimming_takes_white_space_only(Seq::empty(), d, seq!['\n']);
    assert(Seq::<char>::empty() + d + seq!['\n'] =~= d + seq!['\n']);
}

/// User and group of the host come from their own commands, in this order, and the first error is
/// the one that is reported.
pub proof fn law_user_and_group_are_not_mixed_up(u: super::RunModel, g: super::RunModel, e: Seq<char>)
    ensures
        identity(u, "id -u"@) is Ok && identity(g, "id -g"@) is Ok ==> host_identity(Ok(u), Ok(g))
            == Ok::<(nat, nat), Seq<char>>(
            (identity(u, "id -u"@)->Ok_0, identity(g, "id -g"@)->Ok_0),
        ),
        identity(u, "id -u"@) is Err ==> host_identity(Ok(u), Ok(g)) == Err::<
            (nat, nat),
            Seq<char>,
        >(identity(u, "id -u"@)->Err_0),
        identity(u, "id -u"@) is Ok && identity(g, "id -g"@) is Err ==> host_identity(Ok(u), Ok(g))
            == Err::<(nat, nat), Seq<char>>(identity(g, "id -g"@)->Err_0),
        host_identity(Err(e), Ok(g)) == Err::<(nat, nat), Seq<char>>(e),
        identity(u, "id -u"@) is Ok ==> host_identity(Ok(u), Err(e)) == Err::<
            (nat, nat),
            Seq<char>,
        >(e),
{
}

proof fn lemma_word_start_is(s: Seq<char>, w: Seq<char>)
    requires
        s.len() == 0 || text::is_white(s.last()),
        forall|i: int| 0 <= i < w.len() ==> !text::is_white(#[trigger] w[i]),
    ensures
        word_start(s + w) == s.len(),
    decreases w.len(),
{
    if w.len() > 0 {
        let v = w.drop_last();
        assert forall|i: int| 0 <= i < v.len() implies !text::is_white(#[trigger] v[i]) by {
            assert(v[i] == w[i]);
        }
        assert((s + w).drop_last() =~= s + v);
        assert((s + w).last() == w[w.len() - 1]);
        lemma_word_start_is(s, v);
    } else {
        assert(s + w =~= s);
    }
}

/// Words are what stands between white space, in their order.
pub proof fn law_words_stand_between_white_space(s: Seq<char>, c: char, w: Seq<char>)
    requires
        text::is_white(c),
        w.len() > 0,
        forall|i: int| 0 <= i < w.len() ==> !text::is_white(#[trigger] w[i]),
    ensures
        words(s + seq![c]) == words(s),
        words(s + seq![c] + w) == words(s).push(w),
        words(w) == seq![w],
        words(Seq::empty()).len() == 0,
{
    let t = s + seq![c];
    assert(t.drop_last() =~= s);
    assert(words(t) == words(s));
    assert(!text::is_white(w[w.len() - 1]));
    lemma_word_start_is(t, w);
    let u = t + w;
    assert(u.last() == w[w.len() - 1]);
    assert(u.take(t.len() as int) =~= t);
    assert(u.skip(t.len() as int) =~= w);
    assert(words(u) == words(t).push(w));
    let e = Seq::<char>::empty();
    lemma_word_start_is(e, w);
    assert(e + w =~= w);
    assert(w.take(0) =~= e);
    assert(w.skip(0) =~= w);
    assert(words(e) =~= Seq::<Seq<char>>::empty());
    assert(words(w) == words(e).push(w));
    assert(words(w) =~= seq![w]);
}

proof fn lemma_behind_last_is(a: Seq<char>, c: char, b: Seq<char>)
    requires
        !b.contains(c),
    ensures
        behind_last(a + seq![c] + b, c) == a.len() + 1,
    decreases b.len(),
{
    let s = a + seq![c] + b;
    if b.len() > 0 {
        let d = b.drop_last();
        assert(!d.contains(c)) by {
            if d.contains(c) {
                let k = choose|k: int| 0 <= k < d.len() && d[k] == c;
                assert(b[k] == c);
            }
        }
        assert(s.drop_last() =~= a + seq![c] + d);
        assert(s.last() == b[b.len() - 1]);
        assert(b.contains(b[b.len() - 1]));
        lemma_behind_last_is(a, c, d);
    } else {
        assert(s.last() == c);
    }
}

/// The group of a process is the third word behind its name, whatever stands in the name.
pub proof fn law_the_group_is_the_third_word_behind_the_name(a: Seq<char>, b: Seq<char>)
    requires
        !b.contains(')'),
    ensures
        words(b).len() > 2 ==> group_of(a + seq![')'] + b) == signed(words(b)[2]),
        words(b).len() <= 2 ==> group_of(a + seq![')'] + b) is None,
{
    lemma_behind_last_is(a, ')', b);
    assert((a + seq![')'] + b).skip((a.len() + 1) as int) =~= b);
}

/// Numbers with a minus sign are negative ones.
pub proof fn law_signed_numbers(n: nat)
    ensures
        n <= i32::MAX ==> signed(text::decimal(n)) == Some(n as int),
        n <= 0x8000_0000 ==> signed(seq!['-'] + text::decimal(n)) == Some(-(n as int)),
        n > 0x8000_0000 ==> signed(seq!['-'] + text::decimal(n)) is None,
        n > i32::MAX ==> signed(text::decimal(n)) is None,
{
    let d = text::decimal(n);
    text::law_numbers_are_written_in_digits(n);
    text::law_written_numbers_are_read(n, i32::MAX as nat);
    text::lemma_decimal_value(n);
    assert(text::is_digit(d[0]));
    assert((seq!['-'] + d).drop_first() =~= d);
}

/// A shortened output ends with the last lines of the whole one, as many as there is room for.
pub proof fn law_shortened_output_keeps_the_last_lines(s: Seq<char>, limit: nat, mark: Seq<char>)
    requires
        s.len() > limit,
        mark.len() <= limit,
        text::lines(s).len() > 0,
        text::lines(s).last().len() <= limit - mark.len(),
    ensures
        exists|k: int|
            0 <= k < text::lines(s).len() && shortened(s, limit, mark) == mark
                + #[trigger] text::joined(text::lines(s).skip(k), "\n"@),
{
    let lines = text::lines(s);
    let room = limit - mark.len();
    let n = tail_lines(lines, room);
    lemma_tail_lines(lines, room);
    assert(n > 0);
    assert(shortened(s, limit, mark) == mark + text::joined(lines.skip(lines.len() - n), "\n"@));
}

/// An output that is longer than is sent on begins with the mark of the gap and is within the limit.
pub proof fn law_long_output_is_marked(s: Seq<char>)
    requires
        s.len() > 65536,
    ensures
        shortened(s, OUTPUT_LIMIT as nat, gap_mark()).len() <= 65536,
        "…\n[vorne gekürzt]\n"@.is_prefix_of(shortened(s, OUTPUT_LIMIT as nat, gap_mark())),
        RUN_OUTPUT_MEM_CAP == 8388608,
{
    reveal_strlit("…\n[vorne gekürzt]\n");
    law_shortened_output_stays_within_the_limit(s, OUTPUT_LIMIT as nat, gap_mark());
}

/// What holds no letter and no digit is named by a general word.
pub proof fn law_empty_names_are_general(n: nat)
    ensures
        word_name(Seq::empty()) == "channel"@,
        word_name(Seq::new(n, |i: int| '-')) == "channel"@,
{
    let none = Seq::<char>::empty();
    assert(none.map_values(|c: char| name_char(c)) =~= none);
    let dashes = Seq::new(n, |i: int| '-');
    assert(dashes.map_values(|c: char| name_char(c)) =~= dashes);
    text::law_trimming_one_character(none, '-', n);
    assert(dashes + none =~= dashes);
}

} // verus!
