//! The data that passes between the chat and the model.

use crate::channel::builder::{ContainerInfo, WorktreeEntry};
use crate::text;
use std::time::Instant;
use vstd::prelude::*;
use vstd::string::*;

verus! {

/// The token counts that the server reports of a round.
#[derive(Debug, Clone, Copy, PartialEq, Eq, Structural)]
pub struct Usage {
    pub prompt_tokens: u64,
    pub completion_tokens: u64,
    pub total_tokens: u64,
    pub cached_tokens: Option<u64>,
}

/// No tokens at all.
pub open spec fn no_usage() -> Usage {
    Usage { prompt_tokens: 0, completion_tokens: 0, total_tokens: 0, cached_tokens: None }
}

/// No tokens at all.
pub fn zero_usage() -> (r: Usage)
    ensures
        r == no_usage(),
{
    Usage { prompt_tokens: 0, completion_tokens: 0, total_tokens: 0, cached_tokens: None }
}

/// The completion tokens of a round by part, as measured while it streamed.
#[derive(Debug, PartialEq)]
pub struct CompletionParts {
    pub reasoning: u64,
    pub content: u64,
    pub tool_calls: Vec<u64>,
}

/// What measured parts hold.
pub struct PartsModel {
    pub reasoning: u64,
    pub content: u64,
    pub tool_calls: Seq<u64>,
}

impl View for CompletionParts {
    type V = PartsModel;

    open spec fn view(&self) -> PartsModel {
        PartsModel {
            reasoning: self.reasoning,
            content: self.content,
            tool_calls: self.tool_calls@,
        }
    }
}

impl Default for CompletionParts {
    fn default() -> (r: Self)
        ensures
            r@ == (PartsModel { reasoning: 0, content: 0, tool_calls: Seq::empty() }),
    {
        CompletionParts { reasoning: 0, content: 0, tool_calls: Vec::new() }
    }
}

/// Whether anything was measured.
pub open spec fn is_measured(p: PartsModel) -> bool {
    p.reasoning > 0 || p.content > 0 || exists|i: int|
        0 <= i < p.tool_calls.len() && #[trigger] p.tool_calls[i] > 0
}

impl CompletionParts {
    /// Whether anything was measured.
    pub fn measured(&self) -> (r: bool)
        ensures
            r == is_measured(self@),
    {
        if self.reasoning > 0 || self.content > 0 {
            return true;
        }
        let mut i: usize = 0;
        while i < self.tool_calls.len()
            invariant
                i <= self.tool_calls@.len(),
                forall|k: int| 0 <= k < i ==> #[trigger] self.tool_calls@[k] == 0,
            decreases self.tool_calls@.len() - i,
        {
            if self.tool_calls[i] > 0 {
                assert(self@.tool_calls[i as int] > 0);
                return true;
            }
            i += 1;
        }
        false
    }
}

impl Clone for CompletionParts {
    fn clone(&self) -> (r: Self)
        ensures
            r@ == self@,
    {
        CompletionParts {
            reasoning: self.reasoning,
            content: self.content,
            tool_calls: copy_numbers(&self.tool_calls),
        }
    }
}

/// A list equal to `v`.
pub fn copy_numbers(v: &Vec<u64>) -> (r: Vec<u64>)
    ensures
        r@ == v@,
{
    let mut out: Vec<u64> = Vec::new();
    let mut i: usize = 0;
    while i < v.len()
        invariant
            i <= v@.len(),
            out@ == v@.take(i as int),
        decreases v@.len() - i,
    {
        out.push(v[i]);
        assert(v@.take(i + 1) == v@.take(i as int).push(v@[i as int]));
        i += 1;
    }
    assert(v@.take(v@.len() as int) == v@);
    out
}

/// The estimated number of tokens of `s`: one for every four characters, and one.
pub open spec fn estimate(s: Seq<char>) -> nat {
    s.len() / 4 + 1
}

/// The estimated number of tokens of `s`.
pub fn estimate_tokens(s: &str) -> (r: u64)
    ensures
        r == estimate(s@),
{
    let n: usize = s.unicode_len();
    n as u64 / 4 + 1
}

/// The function that a tool call names.
#[derive(Debug, PartialEq)]
pub struct WireFunction {
    pub name: String,
    pub arguments: String,
}

/// A tool call in a message.
#[derive(Debug, PartialEq)]
pub struct WireToolCall {
    pub id: String,
    pub ty: String,
    pub function: WireFunction,
}

/// What a tool call holds.
pub struct CallModel {
    pub id: Seq<char>,
    pub ty: Seq<char>,
    pub name: Seq<char>,
    pub arguments: Seq<char>,
}

impl View for WireToolCall {
    type V = CallModel;

    open spec fn view(&self) -> CallModel {
        CallModel {
            id: self.id@,
            ty: self.ty@,
            name: self.function.name@,
            arguments: self.function.arguments@,
        }
    }
}

/// A message as it goes to the server.
#[derive(Debug, PartialEq)]
pub struct WireMessage {
    pub role: String,
    pub content: Option<String>,
    pub reasoning_content: Option<String>,
    pub tool_calls: Option<Vec<WireToolCall>>,
    pub tool_call_id: Option<String>,
}

/// What a message holds.
pub struct MessageModel {
    pub role: Seq<char>,
    pub content: Option<Seq<char>>,
    pub reasoning_content: Option<Seq<char>>,
    pub tool_calls: Option<Seq<CallModel>>,
    pub tool_call_id: Option<Seq<char>>,
}

/// What the tool calls of a list hold.
pub open spec fn call_views(v: Seq<WireToolCall>) -> Seq<CallModel> {
    v.map_values(|c: WireToolCall| c@)
}

impl View for WireMessage {
    type V = MessageModel;

    open spec fn view(&self) -> MessageModel {
        MessageModel {
            role: self.role@,
            content: text::opt_view(self.content),
            reasoning_content: text::opt_view(self.reasoning_content),
            tool_calls: match self.tool_calls {
                Some(v) => Some(call_views(v@)),
                None => None,
            },
            tool_call_id: text::opt_view(self.tool_call_id),
        }
    }
}

/// What the messages of a list hold.
pub open spec fn message_views(v: Seq<WireMessage>) -> Seq<MessageModel> {
    v.map_values(|m: WireMessage| m@)
}

/// A row of a two-column diff.
#[derive(Debug, PartialEq)]
pub struct DiffRow {
    pub left: Option<String>,
    pub right: Option<String>,
}

impl Clone for DiffRow {
    fn clone(&self) -> (r: Self)
        ensures
            r@ == self@,
    {
        DiffRow { left: text::copy_opt(&self.left), right: text::copy_opt(&self.right) }
    }
}

/// What a row of a diff holds.
pub struct RowModel {
    pub left: Option<Seq<char>>,
    pub right: Option<Seq<char>>,
}

impl View for DiffRow {
    type V = RowModel;

    open spec fn view(&self) -> RowModel {
        RowModel { left: text::opt_view(self.left), right: text::opt_view(self.right) }
    }
}

/// What the rows of a list hold.
pub open spec fn row_views(v: Seq<DiffRow>) -> Seq<RowModel> {
    v.map_values(|r: DiffRow| r@)
}

/// Rows equal to those of `v`.
pub fn copy_rows(v: &Vec<DiffRow>) -> (r: Vec<DiffRow>)
    ensures
        row_views(r@) == row_views(v@),
{
    let mut out: Vec<DiffRow> = Vec::new();
    let mut i: usize = 0;
    assert(row_views(out@) == row_views(v@).take(0));
    while i < v.len()
        invariant
            i <= v@.len(),
            row_views(out@) == row_views(v@).take(i as int),
        decreases v@.len() - i,
    {
        let ghost before = out@;
        let row = v[i].clone();
        out.push(row);
        proof {
            assert(row_views(out@) =~= row_views(before).push(row@));
            assert(row_views(v@).take(i + 1) =~= row_views(v@).take(i as int).push(
                v@[i as int]@,
            ));
        }
        i += 1;
    }
    assert(row_views(v@).take(v@.len() as int) == row_views(v@));
    out
}

// ---------------------------------------------------------------------------
// What a worker reports
// ---------------------------------------------------------------------------
/// A command that a tool ran.
#[derive(Debug, PartialEq)]
pub struct RunActivity {
    pub cwd: String,
    pub command: String,
    pub exit_code: Option<i32>,
}

/// A change that a tool made.
#[derive(Debug, PartialEq)]
pub struct DiffActivity {
    pub path: String,
    pub rows: Vec<DiffRow>,
}

/// What a tool read.
#[derive(Debug, PartialEq)]
pub struct ReadActivity {
    pub range: String,
}

/// What a tool did.
#[derive(Debug, PartialEq)]
pub struct ToolActivity {
    pub run: Option<RunActivity>,
    pub diff: Option<DiffActivity>,
    pub read: Option<ReadActivity>,
    /// The whole output.
    pub output_full: String,
}

/// What is known of what a tool did.
pub struct ActivityModel {
    /// Directory, command and exit code of a command.
    pub run: Option<(Seq<char>, Seq<char>, Option<i32>)>,
    /// Path and rows of a change.
    pub diff: Option<(Seq<char>, Seq<RowModel>)>,
    /// The range that was read.
    pub read: Option<Seq<char>>,
    pub output_full: Seq<char>,
}

impl View for ToolActivity {
    type V = ActivityModel;

    open spec fn view(&self) -> ActivityModel {
        ActivityModel {
            run: match self.run {
                Some(r) => Some((r.cwd@, r.command@, r.exit_code)),
                None => None,
            },
            diff: match self.diff {
                Some(d) => Some((d.path@, row_views(d.rows@))),
                None => None,
            },
            read: match self.read {
                Some(r) => Some(r.range@),
                None => None,
            },
            output_full: self.output_full@,
        }
    }
}

/// Nothing done yet.
pub open spec fn no_activity() -> ActivityModel {
    ActivityModel { run: None, diff: None, read: None, output_full: Seq::empty() }
}

impl Default for ToolActivity {
    fn default() -> (r: Self)
        ensures
            r@ == no_activity(),
    {
        let output_full = String::new();
        assert(output_full@ =~= Seq::empty());
        ToolActivity { run: None, diff: None, read: None, output_full }
    }
}

/// What a worker reports. The number is that of the session it works for.
#[derive(Debug)]
pub enum WorkerEvent {
    /// More text of the answer.
    Chunk(usize, String),
    /// More reasoning.
    Reasoning(usize, String),
    /// What the server counted in a round, and what was measured by part.
    Usage(usize, Usage, CompletionParts),
    /// The total that the server reported while the round still streams.
    UsageUpdate(usize, u64),
    /// The headers of the answer.
    HttpHeaders(usize, Vec<(String, String)>),
    ToolStart {
        session: usize,
        tool_call_id: String,
        function_name: String,
        arguments: String,
        label: String,
    },
    /// More output of the running tool.
    ToolOutput(usize, String),
    ToolEnd(usize, ToolActivity),
    /// A round with tools is over.
    RoundEnd(usize),
    /// A command waits for consent: what it is called, the command, and where the answer goes.
    ExecConfirm(usize, String, String, u64),
    /// The request is repeated at the given time.
    Retrying(usize, String, Instant),
    Done(usize),
    Cancelled(usize),
    /// An error; a second line that begins with a slash names a file with details.
    Error(usize, String),
    Compacting(usize),
    /// A summary and its length in tokens.
    Compacted(usize, String, u64),
    /// Images with their working directories, the container that fits, and worktrees.
    BuilderLoaded(Vec<(String, Option<String>)>, Option<ContainerInfo>, Vec<WorktreeEntry>),
    /// The models that the providers offer, with the demand for each.
    ModelsRefreshed(Vec<(String, Option<u64>)>),
}

// ---------------------------------------------------------------------------
// Laws
// ---------------------------------------------------------------------------
/// A text is guessed to have one token for four characters and one more, so that no text counts
/// nothing and a longer one never counts less.
pub proof fn law_guesses_grow_with_the_text(s: Seq<char>, more: Seq<char>)
    ensures
        estimate(Seq::empty()) == 1,
        estimate(s) == s.len() / 4 + 1,
        estimate(s) >= 1,
        estimate(s + more) >= estimate(s),
{
}

/// Parts are measured where any of them is more than nothing.
pub proof fn law_parts_are_measured_where_any_counts(p: PartsModel, i: int)
    ensures
        p.reasoning > 0 ==> is_measured(p),
        p.content > 0 ==> is_measured(p),
        0 <= i < p.tool_calls.len() && p.tool_calls[i] > 0 ==> is_measured(p),
        p.reasoning == 0 && p.content == 0 && p.tool_calls.len() == 0 ==> !is_measured(p),
{
}

} // verus!
