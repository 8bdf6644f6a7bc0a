//! The token counts of the last turn, derived from what the server reports of its rounds.

use super::shares;
use super::{Chat, ChatModel, EventId, EventKind, EventModel, KindModel};
use crate::llm;
use crate::llm::Usage;
use vstd::prelude::*;
use vstd::string::*;

verus! {

// ---------------------------------------------------------------------------
// What an event holds
// ---------------------------------------------------------------------------
/// Whether the event `id` is a prompt of the user.
pub open spec fn is_prompt(m: ChatModel, id: EventId) -> bool {
    m.has(id) && m.at(id).kind is UserPrompt
}

/// What the server reports of the round `id`; nothing where it is no round.
pub open spec fn usage(m: ChatModel, id: EventId) -> Usage {
    if m.has(id) {
        match m.at(id).kind {
            KindModel::Assistant { reported_usage, .. } => reported_usage,
            _ => llm::no_usage(),
        }
    } else {
        llm::no_usage()
    }
}

/// Whether the event `id` is a round of the prompt `user`.
pub open spec fn is_round(m: ChatModel, user: EventId, id: EventId) -> bool {
    m.has(id) && m.at(id).kind is Assistant && m.at(id).parent_id == Some(user)
}

/// Whether the event `id` is a tool of the round `round`.
pub open spec fn is_tool_of(m: ChatModel, round: EventId, id: EventId) -> bool {
    m.has(id) && m.at(id).kind is Tool && m.at(id).parent_id == Some(round)
}

/// The number of bytes of a text.
pub open spec fn byte_len(s: Seq<char>) -> nat {
    vstd::utf8::encode_utf8(s).len()
}

/// The bytes of the name and the arguments of a tool call, as far as a 64-bit number counts.
pub open spec fn call_bytes(m: ChatModel, id: EventId) -> nat {
    if m.has(id) {
        match m.at(id).kind {
            KindModel::Tool { function_name, arguments, .. } => {
                let n = byte_len(function_name) + byte_len(arguments);
                if n <= u64::MAX {
                    n
                } else {
                    u64::MAX as nat
                }
            },
            _ => 0,
        }
    } else {
        0
    }
}

/// The estimated tokens of a tool call.
pub open spec fn call_guess(m: ChatModel, id: EventId) -> nat {
    if m.has(id) {
        match m.at(id).kind {
            KindModel::Tool { function_name, arguments, .. } => llm::estimate(function_name)
                + llm::estimate(arguments),
            _ => 0,
        }
    } else {
        0
    }
}

/// The bytes of the output of a tool.
pub open spec fn output_bytes(m: ChatModel, id: EventId) -> nat {
    if m.has(id) {
        match m.at(id).kind {
            KindModel::Tool { output, .. } => byte_len(output),
            _ => 0,
        }
    } else {
        0
    }
}

/// The estimated tokens of the output of a tool.
pub open spec fn output_guess(m: ChatModel, id: EventId) -> nat {
    if m.has(id) {
        match m.at(id).kind {
            KindModel::Tool { output, .. } => llm::estimate(output),
            _ => 0,
        }
    } else {
        0
    }
}

// ---------------------------------------------------------------------------
// The last turn
// ---------------------------------------------------------------------------
/// The position of the last prompt among `ids`, or -1.
pub open spec fn last_prompt(m: ChatModel, ids: Seq<EventId>) -> int
    decreases ids.len(),
{
    if ids.len() == 0 {
        -1
    } else if is_prompt(m, ids.last()) {
        ids.len() - 1
    } else {
        last_prompt(m, ids.drop_last())
    }
}

/// The total that the server reported last among `ids`, if it reported any.
pub open spec fn last_total(m: ChatModel, ids: Seq<EventId>) -> Option<nat>
    decreases ids.len(),
{
    if ids.len() == 0 {
        None
    } else if usage(m, ids.last()).total_tokens > 0 {
        Some(usage(m, ids.last()).total_tokens as nat)
    } else {
        last_total(m, ids.drop_last())
    }
}

/// The rounds of the prompt `user` among `ids`.
pub open spec fn rounds_in(m: ChatModel, user: EventId, ids: Seq<EventId>) -> Seq<EventId>
    decreases ids.len(),
{
    if ids.len() == 0 {
        Seq::empty()
    } else if is_round(m, user, ids.last()) {
        rounds_in(m, user, ids.drop_last()).push(ids.last())
    } else {
        rounds_in(m, user, ids.drop_last())
    }
}

/// The tools of `round` among `ids`.
pub open spec fn tools_in(m: ChatModel, round: EventId, ids: Seq<EventId>) -> Seq<EventId>
    decreases ids.len(),
{
    if ids.len() == 0 {
        Seq::empty()
    } else if is_tool_of(m, round, ids.last()) {
        tools_in(m, round, ids.drop_last()).push(ids.last())
    } else {
        tools_in(m, round, ids.drop_last())
    }
}

// ---------------------------------------------------------------------------
// The derived counts
// ---------------------------------------------------------------------------
/// The numbers of `s`, cut or filled with zeros to the length `n`.
pub open spec fn resized(s: Seq<nat>, n: nat) -> Seq<nat> {
    Seq::new(
        n,
        |i: int|
            if i < s.len() {
                s[i]
            } else {
                0
            },
    )
}

/// The weights of the parts of a completion: reasoning, text, and each tool call.
pub open spec fn completion_weights(m: ChatModel, round: EventId, tools: Seq<EventId>) -> Seq<
    nat,
> {
    match m.at(round).kind {
        KindModel::Assistant { reasoning, text, .. } => seq![byte_len(reasoning), byte_len(text)]
            + tools.map_values(|t: EventId| call_bytes(m, t)),
        _ => Seq::empty(),
    }
}

/// The estimates of the parts of a completion.
pub open spec fn completion_guesses(m: ChatModel, round: EventId, tools: Seq<EventId>) -> Seq<
    nat,
> {
    match m.at(round).kind {
        KindModel::Assistant { reasoning, text, .. } => seq![
            llm::estimate(reasoning),
            llm::estimate(text),
        ] + tools.map_values(|t: EventId| call_guess(m, t)),
        _ => Seq::empty(),
    }
}

/// The counts of the parts of a completion: as measured; else the reported completion in
/// proportion to the weights; else estimated.
pub open spec fn completion_counts(m: ChatModel, round: EventId, tools: Seq<EventId>) -> Seq<nat> {
    match m.at(round).kind {
        KindModel::Assistant { completion_parts, reported_usage, .. } => match completion_parts {
            Some(p) if llm::is_measured(p) => seq![p.reasoning as nat, p.content as nat] + resized(
                shares::nats(p.tool_calls),
                tools.len(),
            ),
            _ => {
                let ws = completion_weights(m, round, tools);
                if reported_usage.completion_tokens > 0 && shares::total(ws) > 0 {
                    shares::shares(reported_usage.completion_tokens as nat, ws)
                } else {
                    completion_guesses(m, round, tools)
                }
            },
        },
        _ => Seq::empty(),
    }
}

/// How many tokens the next prompt holds beyond the total of this round. The round's own completion
/// does not count as output of its tools.
pub open spec fn growth(m: ChatModel, round: EventId, next: Option<EventId>) -> nat {
    let before = usage(m, round).total_tokens;
    match next {
        Some(n) if before > 0 && usage(m, n).prompt_tokens > before => (usage(m, n).prompt_tokens
            - before) as nat,
        _ => 0,
    }
}

/// The counts of the outputs of the tools of a round: the growth in proportion to their lengths,
/// else estimated.
pub open spec fn output_counts(
    m: ChatModel,
    round: EventId,
    next: Option<EventId>,
    tools: Seq<EventId>,
) -> Seq<nat> {
    let ws = tools.map_values(|t: EventId| output_bytes(m, t));
    if growth(m, round, next) > 0 && shares::total(ws) > 0 {
        shares::shares(growth(m, round, next), ws)
    } else {
        tools.map_values(|t: EventId| output_guess(m, t))
    }
}

/// New token counts of an event. A prompt takes the first alone.
pub struct Update {
    pub id: EventId,
    pub first: u64,
    pub second: u64,
}

/// `e` with new token counts.
pub open spec fn recounted(e: EventModel, u: Update) -> EventModel {
    match e.kind {
        KindModel::UserPrompt { .. } => super::with_prompt_tokens(e, u.first),
        KindModel::Assistant { .. } => super::with_round_tokens(e, u.first, u.second),
        KindModel::Tool { .. } => super::with_tool_tokens(e, u.first, u.second),
        _ => e,
    }
}

/// The history with the new counts, one after the other.
pub open spec fn updated(m: ChatModel, ups: Seq<Update>) -> ChatModel
    decreases ups.len(),
{
    if ups.len() == 0 {
        m
    } else {
        let w = updated(m, ups.drop_last());
        w.with(ups.last().id, recounted(w.at(ups.last().id), ups.last()))
    }
}

/// The new counts of a round and its tools.
pub open spec fn round_updates(
    m: ChatModel,
    round: EventId,
    next: Option<EventId>,
    tools: Seq<EventId>,
) -> Seq<Update> {
    let parts = completion_counts(m, round, tools);
    let outs = output_counts(m, round, next, tools);
    seq![Update { id: round, first: parts[0] as u64, second: parts[1] as u64 }] + Seq::new(
        tools.len(),
        |k: int| Update { id: tools[k], first: parts[2 + k] as u64, second: outs[k] as u64 },
    )
}

/// The round behind the `k`-th, if there is one.
pub open spec fn next_round(rounds: Seq<EventId>, k: int) -> Option<EventId> {
    if k + 1 < rounds.len() {
        Some(rounds[k + 1])
    } else {
        None
    }
}

/// The new counts of the first `n` rounds, with the tools found among `ids`.
pub open spec fn rounds_updates(
    m: ChatModel,
    ids: Seq<EventId>,
    rounds: Seq<EventId>,
    n: nat,
) -> Seq<Update>
    decreases n,
{
    if n == 0 {
        Seq::empty()
    } else {
        rounds_updates(m, ids, rounds, (n - 1) as nat) + round_updates(
            m,
            rounds[n - 1],
            next_round(rounds, n - 1),
            tools_in(m, rounds[n - 1], ids),
        )
    }
}

/// The new count of the prompt: what the first round's prompt holds beyond the last total before
/// the turn. Without both there is none.
pub open spec fn prompt_update(m: ChatModel, user_at: int, rounds: Seq<EventId>) -> Seq<Update> {
    let before = last_total(m, m.order.take(user_at));
    if rounds.len() > 0 && before is Some && usage(m, rounds[0]).prompt_tokens > before->0 {
        seq![
            Update {
                id: m.order[user_at],
                first: (usage(m, rounds[0]).prompt_tokens - before->0) as u64,
                second: 0,
            },
        ]
    } else {
        Seq::empty()
    }
}

/// The new counts of the last turn.
pub open spec fn turn_updates(m: ChatModel) -> Seq<Update> {
    let at = last_prompt(m, m.order);
    if at < 0 {
        Seq::empty()
    } else {
        let ids = m.order.skip(at + 1);
        let rounds = rounds_in(m, m.order[at], ids);
        prompt_update(m, at, rounds) + rounds_updates(m, ids, rounds, rounds.len())
    }
}

/// The history with the derived counts of its last turn.
pub open spec fn derived(m: ChatModel) -> ChatModel {
    updated(m, turn_updates(m))
}

// ---------------------------------------------------------------------------
// Computing them
// ---------------------------------------------------------------------------
/// The number of bytes of `s`.
pub fn byte_count(s: &str) -> (r: usize)
    ensures
        r == byte_len(s@),
{
    s.as_bytes().len()
}

fn usage_of(chat: &Chat, id: EventId) -> (r: Usage)
    ensures
        r == usage(chat@, id),
{
    match chat.event(id) {
        Some(e) => match &e.kind {
            EventKind::Assistant { reported_usage, .. } => *reported_usage,
            _ => llm::zero_usage(),
        },
        None => llm::zero_usage(),
    }
}

fn call_len(chat: &Chat, id: EventId) -> (r: u64)
    ensures
        r == call_bytes(chat@, id),
{
    match chat.event(id) {
        Some(e) => match &e.kind {
            EventKind::Tool { function_name, arguments, .. } => {
                let a: usize = byte_count(function_name.as_str());
                let b: usize = byte_count(arguments.as_str());
                (a as u64).saturating_add(b as u64)
            },
            _ => 0,
        },
        None => 0,
    }
}

fn call_estimate(chat: &Chat, id: EventId) -> (r: u64)
    ensures
        r == call_guess(chat@, id),
{
    match chat.event(id) {
        Some(e) => match &e.kind {
            EventKind::Tool { function_name, arguments, .. } => {
                let a: usize = function_name.as_str().unicode_len();
                let b: usize = arguments.as_str().unicode_len();
                (a as u64 / 4 + 1) + (b as u64 / 4 + 1)
            },
            _ => 0,
        },
        None => 0,
    }
}

fn output_len(chat: &Chat, id: EventId) -> (r: u64)
    ensures
        r == output_bytes(chat@, id),
{
    match chat.event(id) {
        Some(e) => match &e.kind {
            EventKind::Tool { output, .. } => {
                let n: usize = byte_count(output.as_str());
                n as u64
            },
            _ => 0,
        },
        None => 0,
    }
}

fn output_estimate(chat: &Chat, id: EventId) -> (r: u64)
    ensures
        r == output_guess(chat@, id),
{
    match chat.event(id) {
        Some(e) => match &e.kind {
            EventKind::Tool { output, .. } => llm::estimate_tokens(output.as_str()),
            _ => 0,
        },
        None => 0,
    }
}

/// The counts of the parts of the completion of a round.
fn completion_of(chat: &Chat, round: EventId, tools: &Vec<EventId>) -> (r: Vec<u64>)
    requires
        chat@.has(round),
        chat@.at(round).kind is Assistant,
    ensures
        shares::nats(r@) == completion_counts(chat@, round, tools@),
        r@.len() == tools@.len() + 2,
{
    let ghost m = chat@;
    let mut out: Vec<u64> = Vec::new();
    if let Some(e) = chat.event(round) {
        if let EventKind::Assistant { reasoning, text, reported_usage, completion_parts, .. } =
            &e.kind {
            if let Some(p) = completion_parts {
                if p.measured() {
                    out.push(p.reasoning);
                    out.push(p.content);
                    let mut i: usize = 0;
                    while i < tools.len()
                        invariant
                            i <= tools@.len(),
                            out@.len() == i + 2,
                            out@[0] == p.reasoning,
                            out@[1] == p.content,
                            forall|k: int|
                                0 <= k < i ==> #[trigger] out@[k + 2] == (if k
                                    < p.tool_calls@.len() {
                                    p.tool_calls@[k]
                                } else {
                                    0
                                }),
                        decreases tools@.len() - i,
                    {
                        let x: u64 = if i < p.tool_calls.len() {
                            p.tool_calls[i]
                        } else {
                            0
                        };
                        out.push(x);
                        i += 1;
                    }
                    proof {
                        let want = completion_counts(m, round, tools@);
                        assert(shares::nats(out@).len() == want.len());
                        assert forall|k: int| 0 <= k < want.len() implies shares::nats(out@)[k]
                            == want[k] by {
                            if k >= 2 {
                                assert(out@[(k - 2) + 2] == (if k - 2 < p.tool_calls@.len() {
                                    p.tool_calls@[k - 2]
                                } else {
                                    0
                                }));
                            }
                        }
                        assert(shares::nats(out@) =~= want);
                    }
                    return out;
                }
            }
            let mut ws: Vec<u64> = Vec::new();
            let a: usize = byte_count(reasoning.as_str());
            let b: usize = byte_count(text.as_str());
            ws.push(a as u64);
            ws.push(b as u64);
            out.push(llm::estimate_tokens(reasoning.as_str()));
            out.push(llm::estimate_tokens(text.as_str()));
            let ghost weights = completion_weights(m, round, tools@);
            let ghost guesses = completion_guesses(m, round, tools@);
            let mut i: usize = 0;
            while i < tools.len()
                invariant
                    i <= tools@.len(),
                    m == chat@,
                    ws@.len() == i + 2,
                    out@.len() == i + 2,
                    weights.len() == tools@.len() + 2,
                    guesses.len() == tools@.len() + 2,
                    forall|k: int|
                        0 <= k < tools@.len() ==> #[trigger] weights[k + 2] == call_bytes(
                            m,
                            tools@[k],
                        ),
                    forall|k: int|
                        0 <= k < tools@.len() ==> #[trigger] guesses[k + 2] == call_guess(
                            m,
                            tools@[k],
                        ),
                    forall|k: int| 0 <= k < i + 2 ==> #[trigger] ws@[k] == weights[k],
                    forall|k: int| 0 <= k < i + 2 ==> #[trigger] out@[k] == guesses[k],
                decreases tools@.len() - i,
            {
                assert(weights[i + 2] == call_bytes(m, tools@[i as int]));
                assert(guesses[i + 2] == call_guess(m, tools@[i as int]));
                ws.push(call_len(chat, tools[i]));
                out.push(call_estimate(chat, tools[i]));
                i += 1;
            }
            assert(shares::nats(ws@) =~= weights);
            assert(shares::nats(out@) =~= guesses);
            if reported_usage.completion_tokens > 0 && shares::sum(&ws) > 0 {
                out = shares::divide(reported_usage.completion_tokens, &ws);
                assert(shares::nats(out@).len() == out@.len());
            }
        }
    }
    out
}

/// The counts of the outputs of the tools of a round.
fn outputs_of(
    chat: &Chat,
    round: EventId,
    next: Option<EventId>,
    tools: &Vec<EventId>,
) -> (r: Vec<u64>)
    ensures
        shares::nats(r@) == output_counts(chat@, round, next, tools@),
        r@.len() == tools@.len(),
{
    let ghost m = chat@;
    let total: u64 = usage_of(chat, round).total_tokens;
    let delta: u64 = match next {
        Some(n) => {
            let prompt: u64 = usage_of(chat, n).prompt_tokens;
            if total > 0 && prompt > total {
                prompt - total
            } else {
                0
            }
        },
        None => 0,
    };
    assert(delta == growth(m, round, next));
    let mut ws: Vec<u64> = Vec::new();
    let mut out: Vec<u64> = Vec::new();
    let mut i: usize = 0;
    while i < tools.len()
        invariant
            i <= tools@.len(),
            m == chat@,
            ws@.len() == i,
            out@.len() == i,
            forall|k: int| 0 <= k < i ==> #[trigger] ws@[k] == output_bytes(m, tools@[k]),
            forall|k: int| 0 <= k < i ==> #[trigger] out@[k] == output_guess(m, tools@[k]),
        decreases tools@.len() - i,
    {
        ws.push(output_len(chat, tools[i]));
        out.push(output_estimate(chat, tools[i]));
        i += 1;
    }
    assert(shares::nats(ws@) =~= tools@.map_values(|t: EventId| output_bytes(m, t)));
    assert(shares::nats(out@) =~= tools@.map_values(|t: EventId| output_guess(m, t)));
    if delta > 0 && shares::sum(&ws) > 0 {
        out = shares::divide(delta, &ws);
        assert(shares::nats(out@).len() == out@.len());
    }
    out
}

/// The tools of `round` behind the position `from` of the order.
fn tools_of(chat: &Chat, round: EventId, from: usize) -> (r: Vec<EventId>)
    requires
        from <= chat@.order.len(),
    ensures
        r@ == tools_in(chat@, round, chat@.order.skip(from as int)),
{
    let order = chat.order();
    let ghost ids = chat@.order.skip(from as int);
    let mut out: Vec<EventId> = Vec::new();
    let mut i: usize = from;
    assert(ids.take(0) == Seq::<EventId>::empty());
    while i < order.len()
        invariant
            from <= i <= order.len(),
            order@ == chat@.order,
            ids == chat@.order.skip(from as int),
            out@ == tools_in(chat@, round, ids.take(i - from)),
        decreases order.len() - i,
    {
        let id = order[i];
        assert(ids.take(i - from + 1).drop_last() == ids.take(i - from));
        assert(ids.take(i - from + 1).last() == id);
        if let Some(e) = chat.event(id) {
            if let EventKind::Tool { .. } = &e.kind {
                if let Some(pid) = e.parent_id {
                    if pid == round {
                        out.push(id);
                    }
                }
            }
        }
        i += 1;
    }
    assert(ids.take(ids.len() as int) == ids);
    out
}

/// The rounds of `user` behind the position `from` of the order.
fn rounds_of(chat: &Chat, user: EventId, from: usize) -> (r: Vec<EventId>)
    requires
        from <= chat@.order.len(),
    ensures
        r@ == rounds_in(chat@, user, chat@.order.skip(from as int)),
        forall|k: int| 0 <= k < r@.len() ==> is_round(chat@, user, #[trigger] r@[k]),
{
    let order = chat.order();
    let ghost ids = chat@.order.skip(from as int);
    let mut out: Vec<EventId> = Vec::new();
    let mut i: usize = from;
    assert(ids.take(0) == Seq::<EventId>::empty());
    while i < order.len()
        invariant
            from <= i <= order.len(),
            order@ == chat@.order,
            ids == chat@.order.skip(from as int),
            out@ == rounds_in(chat@, user, ids.take(i - from)),
            forall|k: int| 0 <= k < out@.len() ==> is_round(chat@, user, #[trigger] out@[k]),
        decreases order.len() - i,
    {
        let id = order[i];
        assert(ids.take(i - from + 1).drop_last() == ids.take(i - from));
        assert(ids.take(i - from + 1).last() == id);
        if let Some(e) = chat.event(id) {
            if let EventKind::Assistant { .. } = &e.kind {
                if let Some(pid) = e.parent_id {
                    if pid == user {
                        out.push(id);
                    }
                }
            }
        }
        i += 1;
    }
    assert(ids.take(ids.len() as int) == ids);
    out
}

/// The position of the last prompt in the order.
pub fn last_prompt_at(chat: &Chat) -> (r: Option<usize>)
    ensures
        match r {
            Some(i) => i == last_prompt(chat@, chat@.order) && i < chat@.order.len() && is_prompt(
                chat@,
                chat@.order[i as int],
            ),
            None => last_prompt(chat@, chat@.order) < 0,
        },
{
    let order = chat.order();
    let mut i: usize = order.len();
    assert(order@.take(order@.len() as int) == order@);
    while i > 0
        invariant
            i <= order.len(),
            order@ == chat@.order,
            last_prompt(chat@, order@.take(i as int)) == last_prompt(chat@, chat@.order),
        decreases i,
    {
        assert(order@.take(i as int).last() == order@[i - 1]);
        assert(order@.take(i as int).drop_last() == order@.take(i - 1));
        i -= 1;
        if let Some(e) = chat.event(order[i]) {
            if let EventKind::UserPrompt { .. } = &e.kind {
                return Some(i);
            }
        }
    }
    None
}

/// The total that the server reported last before the position `to` of the order.
fn total_before(chat: &Chat, to: usize) -> (r: Option<u64>)
    requires
        to <= chat@.order.len(),
    ensures
        match r {
            Some(n) => last_total(chat@, chat@.order.take(to as int)) == Some(n as nat),
            None => last_total(chat@, chat@.order.take(to as int)) is None,
        },
{
    let order = chat.order();
    let ghost ids = chat@.order.take(to as int);
    let mut i: usize = to;
    assert(ids.take(to as int) == ids);
    while i > 0
        invariant
            i <= to <= order.len(),
            order@ == chat@.order,
            ids == chat@.order.take(to as int),
            last_total(chat@, ids.take(i as int)) == last_total(chat@, ids),
        decreases i,
    {
        assert(ids.take(i as int).last() == order@[i - 1]);
        assert(ids.take(i as int).drop_last() == ids.take(i - 1));
        i -= 1;
        let total: u64 = usage_of(chat, order[i]).total_tokens;
        if total > 0 {
            return Some(total);
        }
    }
    None
}

impl Chat {
    /// Derives the token counts of the last turn from what the server reported of its rounds.
    ///
    /// The completion of a round goes to its reasoning, its text and its tool calls. The prompt
    /// gets what the first round's prompt adds to the total before the turn, and the tools get
    /// what the next round's prompt adds to the total of theirs. Where the server reported
    /// nothing, estimates stand in.
    pub fn derive_last_turn_tokens(&mut self)
        requires
            old(self)@.ok(),
        ensures
            final(self)@ == derived(old(self)@),
            final(self)@.ok(),
    {
        let ghost m = self@;
        let at = match last_prompt_at(self) {
            Some(at) => at,
            None => {
                return ;
            },
        };
        let user = self.order()[at];
        let from: usize = at + 1;
        let rounds = rounds_of(self, user, from);
        let ghost ids = m.order.skip(at + 1);
        let mut ups: Vec<Update> = Vec::new();
        if rounds.len() > 0 {
            let prompt: u64 = usage_of(self, rounds[0]).prompt_tokens;
            if let Some(before) = total_before(self, at) {
                if prompt > before {
                    ups.push(Update { id: user, first: prompt - before, second: 0 });
                }
            }
        }
        let ghost head = prompt_update(m, at as int, rounds@);
        assert(ups@ =~= head);
        let mut k: usize = 0;
        assert(ups@ =~= head + rounds_updates(m, ids, rounds@, 0));
        while k < rounds.len()
            invariant
                k <= rounds@.len(),
                self@ == m,
                at < m.order.len(),
                from == at + 1,
                ids == m.order.skip(at + 1),
                forall|j: int| 0 <= j < rounds@.len() ==> is_round(m, user, #[trigger] rounds@[j]),
                ups@ == head + rounds_updates(m, ids, rounds@, k as nat),
            decreases rounds@.len() - k,
        {
            let round = rounds[k];
            assert(is_round(m, user, rounds@[k as int]));
            let next = if k + 1 < rounds.len() {
                Some(rounds[k + 1])
            } else {
                None
            };
            let tools = tools_of(self, round, from);
            let parts = completion_of(self, round, &tools);
            let outs = outputs_of(self, round, next, &tools);
            let ghost before = ups@;
            let ghost want = round_updates(m, round, next, tools@);
            let ghost pn = completion_counts(m, round, tools@);
            let ghost on = output_counts(m, round, next, tools@);
            ups.push(Update { id: round, first: parts[0], second: parts[1] });
            assert(pn[0] == parts@[0] && pn[1] == parts@[1]);
            assert(ups@ =~= before + want.take(1));
            let mut i: usize = 0;
            while i < tools.len()
                invariant
                    i <= tools@.len(),
                    parts.len() == tools@.len() + 2,
                    outs@.len() == tools@.len(),
                    shares::nats(parts@) == pn,
                    shares::nats(outs@) == on,
                    pn == completion_counts(m, round, tools@),
                    on == output_counts(m, round, next, tools@),
                    want == round_updates(m, round, next, tools@),
                    ups@ == before + want.take(i + 1),
                decreases tools@.len() - i,
            {
                proof {
                    assert(pn[i + 2] == parts@[i + 2]);
                    assert(on[i as int] == outs@[i as int]);
                    assert(want[i + 1] == (Update {
                        id: tools@[i as int],
                        first: pn[2 + i] as u64,
                        second: on[i as int] as u64,
                    }));
                    assert(want.take(i + 2) =~= want.take(i + 1).push(want[i + 1]));
                }
                ups.push(Update { id: tools[i], first: parts[i + 2], second: outs[i] });
                assert(ups@ =~= before + want.take(i + 2));
                i += 1;
            }
            proof {
                assert(want.take(want.len() as int) =~= want);
                assert(ups@ =~= head + rounds_updates(m, ids, rounds@, (k + 1) as nat));
            }
            k += 1;
        }
        assert(ups@ == turn_updates(m));
        self.apply_updates(&ups);
    }

    fn apply_updates(&mut self, ups: &Vec<Update>)
        requires
            old(self)@.ok(),
        ensures
            final(self)@ == updated(old(self)@, ups@),
            final(self)@.ok(),
    {
        let ghost m = self@;
        let mut i: usize = 0;
        assert(ups@.take(0) == Seq::<Update>::empty());
        while i < ups.len()
            invariant
                i <= ups@.len(),
                self@.ok(),
                self@ == updated(m, ups@.take(i as int)),
            decreases ups@.len() - i,
        {
            let u = &ups[i];
            assert(ups@.take(i + 1).drop_last() == ups@.take(i as int));
            assert(ups@.take(i + 1).last() == u);
            let kind: u8 = match self.event(u.id) {
                Some(e) => match &e.kind {
                    EventKind::UserPrompt { .. } => 1,
                    EventKind::Assistant { .. } => 2,
                    EventKind::Tool { .. } => 3,
                    _ => 0,
                },
                None => 0,
            };
            let ghost w = self@;
            if kind == 1 {
                self.set_user_prompt_tokens(u.id, u.first);
            } else if kind == 2 {
                self.set_assistant_tokens(u.id, u.first, u.second);
            } else if kind == 3 {
                self.set_tool_tokens(u.id, u.first, u.second);
            } else if self.event(u.id).is_some() {
                assert(w.with(u.id, w.at(u.id)).events =~= w.events);
            }
            i += 1;
        }
        assert(ups@.take(ups@.len() as int) == ups@);
    }
}

// ---------------------------------------------------------------------------
// Laws
// ---------------------------------------------------------------------------
/// `e` without its token counts.
pub open spec fn bare(e: EventModel) -> EventModel {
    recounted(e, Update { id: 0, first: 0, second: 0 })
}

/// Whether two histories differ in token counts alone.
pub open spec fn alike(a: ChatModel, b: ChatModel) -> bool {
    &&& a.order == b.order
    &&& a.events.len() == b.events.len()
    &&& forall|i: int|
        0 <= i < a.events.len() ==> bare(#[trigger] a.events[i]) == bare(b.events[i])
}

proof fn lemma_alike_at(a: ChatModel, b: ChatModel, id: EventId)
    requires
        alike(a, b),
    ensures
        a.has(id) == b.has(id),
        is_prompt(a, id) == is_prompt(b, id),
        usage(a, id) == usage(b, id),
        forall|u: EventId| is_round(a, u, id) == #[trigger] is_round(b, u, id),
        forall|r: EventId| is_tool_of(a, r, id) == #[trigger] is_tool_of(b, r, id),
        call_bytes(a, id) == call_bytes(b, id),
        call_guess(a, id) == call_guess(b, id),
        output_bytes(a, id) == output_bytes(b, id),
        output_guess(a, id) == output_guess(b, id),
{
    if a.has(id) {
        assert(bare(a.events[id - 1]) == bare(b.events[id - 1]));
    }
}

proof fn lemma_alike_turn(a: ChatModel, b: ChatModel, ids: Seq<EventId>, x: EventId)
    requires
        alike(a, b),
    ensures
        last_prompt(a, ids) == last_prompt(b, ids),
        last_total(a, ids) == last_total(b, ids),
        rounds_in(a, x, ids) == rounds_in(b, x, ids),
        tools_in(a, x, ids) == tools_in(b, x, ids),
    decreases ids.len(),
{
    if ids.len() > 0 {
        lemma_alike_at(a, b, ids.last());
        assert(is_round(a, x, ids.last()) == is_round(b, x, ids.last()));
        assert(is_tool_of(a, x, ids.last()) == is_tool_of(b, x, ids.last()));
        lemma_alike_turn(a, b, ids.drop_last(), x);
    }
}

proof fn lemma_alike_round(
    a: ChatModel,
    b: ChatModel,
    round: EventId,
    next: Option<EventId>,
    tools: Seq<EventId>,
)
    requires
        alike(a, b),
        a.has(round),
    ensures
        round_updates(a, round, next, tools) == round_updates(b, round, next, tools),
{
    lemma_alike_at(a, b, round);
    assert(bare(a.events[round - 1]) == bare(b.events[round - 1]));
    if let Some(n) = next {
        lemma_alike_at(a, b, n);
    }
    assert forall|k: int| 0 <= k < tools.len() implies call_bytes(a, #[trigger] tools[k])
        == call_bytes(b, tools[k]) && call_guess(a, tools[k]) == call_guess(b, tools[k])
        && output_bytes(a, tools[k]) == output_bytes(b, tools[k]) && output_guess(a, tools[k])
        == output_guess(b, tools[k]) by {
        lemma_alike_at(a, b, tools[k]);
    }
    assert(tools.map_values(|t: EventId| call_bytes(a, t)) =~= tools.map_values(
        |t: EventId| call_bytes(b, t),
    ));
    assert(tools.map_values(|t: EventId| call_guess(a, t)) =~= tools.map_values(
        |t: EventId| call_guess(b, t),
    ));
    assert(tools.map_values(|t: EventId| output_bytes(a, t)) =~= tools.map_values(
        |t: EventId| output_bytes(b, t),
    ));
    assert(tools.map_values(|t: EventId| output_guess(a, t)) =~= tools.map_values(
        |t: EventId| output_guess(b, t),
    ));
    assert(round_updates(a, round, next, tools) =~= round_updates(b, round, next, tools));
}

proof fn lemma_rounds_exist(m: ChatModel, user: EventId, ids: Seq<EventId>, k: int)
    requires
        0 <= k < rounds_in(m, user, ids).len(),
    ensures
        is_round(m, user, rounds_in(m, user, ids)[k]),
    decreases ids.len(),
{
    if ids.len() > 0 {
        let rest = rounds_in(m, user, ids.drop_last());
        if k < rest.len() {
            lemma_rounds_exist(m, user, ids.drop_last(), k);
        }
    }
}

proof fn lemma_alike_rounds(
    a: ChatModel,
    b: ChatModel,
    ids: Seq<EventId>,
    rounds: Seq<EventId>,
    n: nat,
)
    requires
        alike(a, b),
        n <= rounds.len(),
        forall|k: int| 0 <= k < rounds.len() ==> a.has(#[trigger] rounds[k]),
    ensures
        rounds_updates(a, ids, rounds, n) == rounds_updates(b, ids, rounds, n),
    decreases n,
{
    if n > 0 {
        let r = rounds[n - 1];
        lemma_alike_rounds(a, b, ids, rounds, (n - 1) as nat);
        lemma_alike_turn(a, b, ids, r);
        lemma_alike_round(a, b, r, next_round(rounds, n - 1), tools_in(a, r, ids));
    }
}

/// The derived counts depend on nothing that deriving changes.
pub proof fn lemma_alike_updates(a: ChatModel, b: ChatModel)
    requires
        alike(a, b),
    ensures
        turn_updates(a) == turn_updates(b),
{
    let at = last_prompt(a, a.order);
    lemma_alike_turn(a, b, a.order, 0);
    if at >= 0 {
        let user = a.order[at];
        let ids = a.order.skip(at + 1);
        let rounds = rounds_in(a, user, ids);
        lemma_alike_turn(a, b, ids, user);
        lemma_alike_turn(a, b, a.order.take(at), user);
        assert forall|k: int| 0 <= k < rounds.len() implies a.has(#[trigger] rounds[k]) by {
            lemma_rounds_exist(a, user, ids, k);
        }
        lemma_alike_rounds(a, b, ids, rounds, rounds.len());
        if rounds.len() > 0 {
            lemma_alike_at(a, b, rounds[0]);
        }
    }
}

proof fn lemma_updated_alike(m: ChatModel, ups: Seq<Update>)
    ensures
        alike(m, updated(m, ups)),
    decreases ups.len(),
{
    if ups.len() > 0 {
        let w = updated(m, ups.drop_last());
        lemma_updated_alike(m, ups.drop_last());
        let u = ups.last();
        if w.has(u.id) {
            assert(bare(recounted(w.at(u.id), u)) == bare(w.at(u.id)));
        }
    }
}

/// The position of the last count for the event `id`, or -1.
spec fn last_for(ups: Seq<Update>, id: EventId) -> int
    decreases ups.len(),
{
    if ups.len() == 0 {
        -1
    } else if ups.last().id == id {
        ups.len() - 1
    } else {
        last_for(ups.drop_last(), id)
    }
}

proof fn lemma_updated_event(m: ChatModel, ups: Seq<Update>, i: int)
    requires
        0 <= i < m.events.len(),
        m.events.len() <= u64::MAX,
    ensures
        updated(m, ups).events.len() == m.events.len(),
        updated(m, ups).order == m.order,
        -1 <= last_for(ups, (i + 1) as EventId) < ups.len(),
        updated(m, ups).events[i] == (if last_for(ups, (i + 1) as EventId) < 0 {
            m.events[i]
        } else {
            recounted(m.events[i], ups[last_for(ups, (i + 1) as EventId)])
        }),
    decreases ups.len(),
{
    if ups.len() > 0 {
        lemma_updated_event(m, ups.drop_last(), i);
        let w = updated(m, ups.drop_last());
        let u = ups.last();
        if w.has(u.id) && u.id == i + 1 {
            let k = last_for(ups.drop_last(), (i + 1) as EventId);
            if k >= 0 {
                assert(recounted(recounted(m.events[i], ups[k]), u) == recounted(m.events[i], u));
            }
        }
    }
}

/// Deriving the token counts a second time changes nothing.
pub proof fn law_deriving_is_idempotent(m: ChatModel)
    requires
        m.ok(),
        m.events.len() <= u64::MAX,
    ensures
        derived(derived(m)) == derived(m),
{
    let ups = turn_updates(m);
    let d = derived(m);
    lemma_updated_alike(m, ups);
    lemma_alike_updates(m, d);
    assert(d.events.len() == m.events.len());
    lemma_updated_same_shape(d, ups);
    assert forall|i: int| 0 <= i < m.events.len() implies updated(d, ups).events[i]
        == d.events[i] by {
        lemma_updated_event(m, ups, i);
        lemma_updated_event(d, ups, i);
        let k = last_for(ups, (i + 1) as EventId);
        if k >= 0 {
            assert(recounted(recounted(m.events[i], ups[k]), ups[k]) == recounted(
                m.events[i],
                ups[k],
            ));
        }
    }
    assert(updated(d, ups).events =~= d.events);
}

proof fn lemma_updated_same_shape(m: ChatModel, ups: Seq<Update>)
    ensures
        updated(m, ups).events.len() == m.events.len(),
        updated(m, ups).order == m.order,
    decreases ups.len(),
{
    if ups.len() > 0 {
        lemma_updated_same_shape(m, ups.drop_last());
    }
}

/// Deriving changes token counts alone: texts, order, times and reported usage stay.
pub proof fn law_deriving_changes_counts_alone(m: ChatModel)
    ensures
        alike(m, derived(m)),
{
    lemma_updated_alike(m, turn_updates(m));
}

/// Without a prompt there is no turn and nothing is derived.
pub proof fn law_without_prompt_nothing_is_derived(m: ChatModel)
    requires
        last_prompt(m, m.order) < 0,
    ensures
        derived(m) == m,
{
}

/// Where a round was not measured and the server reported its completion, the counts of its
/// reasoning, its text and its tool calls sum up to that completion.
pub proof fn law_completion_is_divided_completely(
    m: ChatModel,
    round: EventId,
    tools: Seq<EventId>,
)
    requires
        m.at(round).kind matches KindModel::Assistant { completion_parts, reported_usage, .. }
            && reported_usage.completion_tokens > 0 && !(completion_parts is Some
            && llm::is_measured(completion_parts->0)),
        shares::total(completion_weights(m, round, tools)) > 0,
    ensures
        shares::total(completion_counts(m, round, tools)) == m.at(
            round,
        ).kind->Assistant_reported_usage.completion_tokens,
{
    shares::law_shares_sum_to_the_amount(
        m.at(round).kind->Assistant_reported_usage.completion_tokens as nat,
        completion_weights(m, round, tools),
    );
}

/// Where the next prompt grew and the tools of a round gave output, the counts of their outputs sum
/// up to the growth.
pub proof fn law_growth_is_divided_completely(
    m: ChatModel,
    round: EventId,
    next: Option<EventId>,
    tools: Seq<EventId>,
)
    requires
        growth(m, round, next) > 0,
        shares::total(tools.map_values(|t: EventId| output_bytes(m, t))) > 0,
    ensures
        shares::total(output_counts(m, round, next, tools)) == growth(m, round, next),
{
    shares::law_shares_sum_to_the_amount(
        growth(m, round, next),
        tools.map_values(|t: EventId| output_bytes(m, t)),
    );
}

/// Measured parts are taken as they were measured: for the thoughts, for the words, and for each call
/// in its place.
pub proof fn law_measured_parts_are_taken_as_they_are(
    m: ChatModel,
    round: EventId,
    tools: Seq<EventId>,
    p: llm::PartsModel,
    k: int,
)
    requires
        m.at(round).kind is Assistant,
        m.at(round).kind->completion_parts == Some(p),
        p.reasoning > 0 || p.content > 0,
        0 <= k < tools.len(),
    ensures
        ({
            let c = completion_counts(m, round, tools);
            &&& c.len() == tools.len() + 2
            &&& c[0] == p.reasoning
            &&& c[1] == p.content
            &&& k < p.tool_calls.len() ==> c[k + 2] == p.tool_calls[k]
            &&& k >= p.tool_calls.len() ==> c[k + 2] == 0
        }),
{
}

/// Without a measure and without a report, a fourth of the characters and one more is the guess.
pub proof fn law_without_report_counts_are_guessed(
    m: ChatModel,
    round: EventId,
    tools: Seq<EventId>,
)
    requires
        m.at(round).kind is Assistant,
        m.at(round).kind->completion_parts is None,
        m.at(round).kind->reported_usage.completion_tokens == 0,
    ensures
        completion_counts(m, round, tools).len() == tools.len() + 2,
        completion_counts(m, round, tools)[0] == m.at(round).kind->reasoning.len() / 4 + 1,
        completion_counts(m, round, tools)[1] == m.at(round).kind->Assistant_text.len() / 4 + 1,
{
}

/// A prompt counts by how much the first request after it grew over the last known total; where it
/// did not grow, or nothing is known, its count stays.
pub proof fn law_a_prompt_counts_by_the_growth(m: ChatModel, at: int, rounds: Seq<EventId>, before: nat)
    requires
        last_total(m, m.order.take(at)) == Some(before),
        rounds.len() > 0,
    ensures
        usage(m, rounds[0]).prompt_tokens > before ==> prompt_update(m, at, rounds) == seq![
            Update {
                id: m.order[at],
                first: (usage(m, rounds[0]).prompt_tokens - before) as u64,
                second: 0,
            },
        ],
        usage(m, rounds[0]).prompt_tokens <= before ==> prompt_update(m, at, rounds).len() == 0,
        prompt_update(m, at, Seq::empty()).len() == 0,
{
}

/// The output of the tools of a round counts by how much the next request grew over that round.
pub proof fn law_growth_is_from_one_round_to_the_next(m: ChatModel, round: EventId, next: EventId)
    ensures
        usage(m, round).total_tokens > 0 && usage(m, next).prompt_tokens > usage(
            m,
            round,
        ).total_tokens ==> growth(m, round, Some(next)) == usage(m, next).prompt_tokens - usage(
            m,
            round,
        ).total_tokens,
        usage(m, round).total_tokens == 0 ==> growth(m, round, Some(next)) == 0,
        usage(m, next).prompt_tokens <= usage(m, round).total_tokens ==> growth(
            m,
            round,
            Some(next),
        ) == 0,
        growth(m, round, None) == 0,
{
}

/// The update of a round gives it the counts of its thoughts and words, and each of its tools the
/// count of its call and of its output.
pub proof fn law_counts_go_to_what_they_count(
    m: ChatModel,
    round: EventId,
    next: Option<EventId>,
    tools: Seq<EventId>,
    k: int,
)
    requires
        0 <= k < tools.len(),
    ensures
        ({
            let u = round_updates(m, round, next, tools);
            let parts = completion_counts(m, round, tools);
            let outs = output_counts(m, round, next, tools);
            &&& u.len() == tools.len() + 1
            &&& u[0].id == round
            &&& u[0].first == parts[0] as u64
            &&& u[0].second == parts[1] as u64
            &&& u[k + 1].id == tools[k]
            &&& u[k + 1].first == parts[k + 2] as u64
            &&& u[k + 1].second == outs[k] as u64
        }),
{
}

/// A count changes the counts of its event and nothing else of it.
pub proof fn law_a_recount_sets_the_counts(e: EventModel, u: Update)
    ensures
        e.kind is UserPrompt ==> recounted(e, u).kind->UserPrompt_num_tokens == u.first
            && recounted(e, u).kind->UserPrompt_text == e.kind->UserPrompt_text,
        e.kind is Assistant ==> recounted(e, u).kind->num_tokens_reasoning == u.first
            && recounted(e, u).kind->num_tokens_text == u.second && recounted(
            e,
            u,
        ).kind->Assistant_text == e.kind->Assistant_text && recounted(e, u).kind->reasoning
            == e.kind->reasoning && recounted(e, u).kind->tool_event_ids == e.kind->tool_event_ids,
        e.kind is Tool ==> recounted(e, u).kind->num_tokens_input == u.first && recounted(
            e,
            u,
        ).kind->num_tokens_output == u.second && recounted(e, u).kind->output == e.kind->output
            && recounted(e, u).kind->arguments == e.kind->arguments,
        e.kind is Abort || e.kind is Archive ==> recounted(e, u) == e,
        recounted(e, u).time_begin == e.time_begin,
        recounted(e, u).time_end == e.time_end,
        recounted(e, u).parent_id == e.parent_id,
        recounted(e, u).previous_id == e.previous_id,
{
}

/// The rounds of a prompt are the answers to it, and the tools of a round those that it called, in
/// their order.
pub proof fn law_rounds_and_tools_belong_to_their_parents(
    m: ChatModel,
    parent: EventId,
    ids: Seq<EventId>,
    id: EventId,
)
    requires
        m.has(id),
    ensures
        m.at(id).kind is Assistant && m.at(id).parent_id == Some(parent) ==> rounds_in(
            m,
            parent,
            ids.push(id),
        ) == rounds_in(m, parent, ids).push(id),
        !(m.at(id).kind is Assistant) || m.at(id).parent_id != Some(parent) ==> rounds_in(
            m,
            parent,
            ids.push(id),
        ) == rounds_in(m, parent, ids),
        m.at(id).kind is Tool && m.at(id).parent_id == Some(parent) ==> tools_in(
            m,
            parent,
            ids.push(id),
        ) == tools_in(m, parent, ids).push(id),
        !(m.at(id).kind is Tool) || m.at(id).parent_id != Some(parent) ==> tools_in(
            m,
            parent,
            ids.push(id),
        ) == tools_in(m, parent, ids),
        m.at(id).kind is UserPrompt ==> last_prompt(m, ids.push(id)) == ids.len(),
        !(m.at(id).kind is UserPrompt) ==> last_prompt(m, ids.push(id)) == last_prompt(m, ids),
{
    assert(ids.push(id).drop_last() =~= ids);
}

/// Weights are lengths in bytes: of the thoughts, of the words, and of name and arguments of each
/// call.
pub proof fn law_completions_are_weighed_by_their_bytes(
    m: ChatModel,
    round: EventId,
    tools: Seq<EventId>,
    k: int,
)
    requires
        m.at(round).kind is Assistant,
        0 <= k < tools.len(),
        m.is_tool(tools[k]),
        byte_len(m.at(tools[k]).kind->function_name) + byte_len(m.at(tools[k]).kind->arguments)
            <= u64::MAX,
    ensures
        ({
            let w = completion_weights(m, round, tools);
            &&& w.len() == tools.len() + 2
            &&& w[0] == byte_len(m.at(round).kind->reasoning)
            &&& w[1] == byte_len(m.at(round).kind->Assistant_text)
            &&& w[k + 2] == byte_len(m.at(tools[k]).kind->function_name) + byte_len(
                m.at(tools[k]).kind->arguments,
            )
            &&& output_bytes(m, tools[k]) == byte_len(m.at(tools[k]).kind->output)
            &&& call_guess(m, tools[k]) == m.at(tools[k]).kind->function_name.len() / 4 + m.at(
                tools[k],
            ).kind->arguments.len() / 4 + 2
            &&& output_guess(m, tools[k]) == m.at(tools[k]).kind->output.len() / 4 + 1
        }),
{
}

proof fn lemma_rounds_updates(
    m: ChatModel,
    ids: Seq<EventId>,
    rounds: Seq<EventId>,
    n: nat,
    k: int,
    u: Update,
)
    requires
        0 <= k < n <= rounds.len(),
        round_updates(m, rounds[k], next_round(rounds, k), tools_in(m, rounds[k], ids)).contains(u),
    ensures
        rounds_updates(m, ids, rounds, n).contains(u),
    decreases n,
{
    let before = rounds_updates(m, ids, rounds, (n - 1) as nat);
    let own = round_updates(
        m,
        rounds[n - 1],
        next_round(rounds, n - 1),
        tools_in(m, rounds[n - 1], ids),
    );
    let all = rounds_updates(m, ids, rounds, n);
    assert(all == before + own);
    if k == n - 1 {
        let i = choose|i: int| 0 <= i < own.len() && own[i] == u;
        assert(all[before.len() + i] == u);
    } else {
        lemma_rounds_updates(m, ids, rounds, (n - 1) as nat, k, u);
        let i = choose|i: int| 0 <= i < before.len() && before[i] == u;
        assert(all[i] == u);
    }
}

/// Every round of the last turn is counted, against the round that follows it.
pub proof fn law_every_round_of_the_last_turn_is_counted(m: ChatModel, at: int, k: int, u: Update)
    requires
        at == last_prompt(m, m.order),
        at >= 0,
        ({
            let ids = m.order.skip(at + 1);
            let rounds = rounds_in(m, m.order[at], ids);
            &&& 0 <= k < rounds.len()
            &&& round_updates(
                m,
                rounds[k],
                if k + 1 < rounds.len() {
                    Some(rounds[k + 1])
                } else {
                    None
                },
                tools_in(m, rounds[k], ids),
            ).contains(u)
        }),
    ensures
        turn_updates(m).contains(u),
{
    let ids = m.order.skip(at + 1);
    let rounds = rounds_in(m, m.order[at], ids);
    lemma_rounds_updates(m, ids, rounds, rounds.len(), k, u);
    let tail = rounds_updates(m, ids, rounds, rounds.len());
    let head = prompt_update(m, at, rounds);
    let i = choose|i: int| 0 <= i < tail.len() && tail[i] == u;
    assert(turn_updates(m) == head + tail);
    assert(turn_updates(m)[head.len() + i] == u);
}

/// The total that counts before a prompt is the last one that was reported.
pub proof fn law_the_last_reported_total_counts(m: ChatModel, ids: Seq<EventId>, id: EventId)
    ensures
        last_total(m, Seq::empty()) is None,
        usage(m, id).total_tokens > 0 ==> last_total(m, ids.push(id)) == Some(
            usage(m, id).total_tokens as nat,
        ),
        usage(m, id).total_tokens == 0 ==> last_total(m, ids.push(id)) == last_total(m, ids),
        m.has(id) && m.at(id).kind is Assistant ==> usage(m, id) == m.at(id).kind->reported_usage,
        m.has(id) && !(m.at(id).kind is Assistant) ==> usage(m, id).total_tokens == 0,
{
    assert(ids.push(id).drop_last() =~= ids);
}

} // verus!
