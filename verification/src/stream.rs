//! The events of a streamed reply, in either wire format.
//!
//! A reply arrives in pieces of bytes. `Stream` gathers them into lines and
//! turns each line that holds data into events; the caller reads the bytes and
//! passes the events on.

use crate::chars::{
    begins, chars_of, find, is_white, law_trim, opt_text, position, push_text, reads, starts_with, str_eq, string_of,
    trim, trimmed, copied,
};
use crate::json::{
    at, down, field, field_of, json_text, list_field, list_of, number_at, number_field, parse_json,
    said, says_all, str_in, text_at, text_field, text_of, u64_in, u64_of, Json, JsonV,
};
use crate::lossy::{lossy_of, lossy_text};
use crate::protocol::ApiFormat;
use crate::provider::{calls_say, empty_call, or_empty, CallV, ToolCall};
use vstd::prelude::*;
use vstd::slice::slice_subrange;

verus! {

/// What a provider reports while a reply streams in.
#[derive(Debug)]
pub enum ProviderEvent {
    Reasoning(String),
    Text(String),
    ToolCalls(Vec<ToolCall>),
    /// The tokens of one request: `input` those not found in the cache,
    /// `cache_read` those found there, `used` all of them with the output,
    /// `total` the size of the model's context.
    Usage { input: u64, cache_read: u64, output: u64, used: u64, total: u64 },
    Finished,
    Failed(String),
}

/// What a `ProviderEvent` says.
#[verifier::ext_equal]
pub enum ReplyV {
    Reasoning(Seq<char>),
    Text(Seq<char>),
    ToolCalls(Seq<CallV>),
    Usage { input: u64, cache_read: u64, output: u64, used: u64, total: u64 },
    Finished,
    Failed(Seq<char>),
}

impl View for ProviderEvent {
    type V = ReplyV;

    open spec fn view(&self) -> ReplyV {
        match self {
            ProviderEvent::Reasoning(t) => ReplyV::Reasoning(t@),
            ProviderEvent::Text(t) => ReplyV::Text(t@),
            ProviderEvent::ToolCalls(c) => ReplyV::ToolCalls(calls_say(c@)),
            ProviderEvent::Usage { input, cache_read, output, used, total } => ReplyV::Usage {
                input: *input,
                cache_read: *cache_read,
                output: *output,
                used: *used,
                total: *total,
            },
            ProviderEvent::Finished => ReplyV::Finished,
            ProviderEvent::Failed(t) => ReplyV::Failed(t@),
        }
    }
}

/// What a list of events says.
pub open spec fn events_say(v: Seq<ProviderEvent>) -> Seq<ReplyV> {
    v.map_values(|e: ProviderEvent| e@)
}

/// Adds an event.
fn emit(out: &mut Vec<ProviderEvent>, e: ProviderEvent)
    ensures
        events_say(final(out)@) == events_say(old(out)@).push(e@),
{
    let ghost before = events_say(out@);
    out.push(e);
    proof {
        assert(events_say(out@) =~= before.push(e@));
    }
}

/// Whether more of a reply is awaited.
#[verifier::ext_equal]
pub enum EndV {
    Open,
    Done,
    Error(Seq<char>),
}

/// Whether more of a reply is awaited.
#[derive(Debug)]
pub enum StreamEnd {
    /// More may come.
    Open,
    /// The reply is complete.
    Done,
    /// The provider reported an error.
    Error(String),
}

impl View for StreamEnd {
    type V = EndV;

    open spec fn view(&self) -> EndV {
        match self {
            StreamEnd::Open => EndV::Open,
            StreamEnd::Done => EndV::Done,
            StreamEnd::Error(t) => EndV::Error(t@),
        }
    }
}

/// The sum of two counts, as `u64` arithmetic wraps it.
pub open spec fn wrapped(a: u64, b: u64) -> u64 {
    if a + b > u64::MAX {
        (a + b - u64::MAX - 1) as u64
    } else {
        (a + b) as u64
    }
}

/// Adds two counts, wrapping around.
pub fn wrap_sum(a: u64, b: u64) -> (r: u64)
    ensures
        r == wrapped(a, b),
{
    a.wrapping_add(b)
}

// ---------------------------------------------------------------------------
// The end of a reply
// ---------------------------------------------------------------------------

/// The calls that have a name, in order.
pub open spec fn named_calls(v: Seq<CallV>) -> Seq<CallV>
    decreases v.len(),
{
    if v.len() == 0 {
        Seq::empty()
    } else if trim(v.last().name).len() > 0 {
        named_calls(v.drop_last()).push(v.last())
    } else {
        named_calls(v.drop_last())
    }
}

/// The events that end a reply: the calls that have a name, if there are any,
/// and the end.
pub open spec fn finish_events(calls: Seq<CallV>) -> Seq<ReplyV> {
    let named = named_calls(calls);
    if named.len() > 0 {
        Seq::<ReplyV>::empty().push(ReplyV::ToolCalls(named)).push(ReplyV::Finished)
    } else {
        Seq::<ReplyV>::empty().push(ReplyV::Finished)
    }
}

/// Ends a reply: takes the calls out of the list and hands on those that have a
/// name. A call without one would run no tool and is dropped.
pub fn finish(tool_calls: &mut Vec<ToolCall>) -> (r: Vec<ProviderEvent>)
    ensures
        events_say(r@) == finish_events(calls_say(old(tool_calls)@)),
        final(tool_calls)@.len() == 0,
{
    let ghost all = calls_say(tool_calls@);
    let mut named: Vec<ToolCall> = Vec::new();
    proof {
        assert(calls_say(named@) =~= named_calls(all.take(0)));
    }
    for i in 0..tool_calls.len()
        invariant
            all == calls_say(tool_calls@),
            calls_say(named@) == named_calls(all.take(i as int)),
    {
        let ghost before = calls_say(named@);
        proof {
            assert(all.take(i as int + 1).drop_last() =~= all.take(i as int));
            assert(all.take(i as int + 1).last() == tool_calls@[i as int]@);
        }
        let name = chars_of(tool_calls[i].name.as_str());
        if trimmed(name.as_slice()).len() > 0 {
            named.push(tool_calls[i].copy());
            proof {
                assert(calls_say(named@) =~= before.push(tool_calls@[i as int]@));
            }
        }
    }
    proof {
        assert(all.take(tool_calls@.len() as int) =~= all);
        assert(calls_say(named@).len() == named@.len());
    }
    tool_calls.clear();
    let mut out: Vec<ProviderEvent> = Vec::new();
    proof {
        assert(events_say(out@) =~= Seq::<ReplyV>::empty());
    }
    if named.len() > 0 {
        emit(&mut out, ProviderEvent::ToolCalls(named));
    }
    emit(&mut out, ProviderEvent::Finished);
    out
}

/// `calls` with empty ones behind them, so that there is one at `index`.
pub open spec fn padded(calls: Seq<CallV>, index: int) -> Seq<CallV> {
    if calls.len() > index {
        calls
    } else {
        calls + Seq::new((index + 1 - calls.len()) as nat, |i: int| empty_call())
    }
}

/// Makes sure that there is a call at `index`.
fn pad(calls: &mut Vec<ToolCall>, index: usize)
    ensures
        calls_say(final(calls)@) == padded(calls_say(old(calls)@), index as int),
        final(calls)@.len() > index,
{
    let ghost before = calls_say(calls@);
    while calls.len() <= index
        invariant
            before.len() <= calls@.len(),
            calls@.len() <= index + 1 || calls_say(calls@) == before,
            calls_say(calls@) == before + Seq::new(
                (calls@.len() - before.len()) as nat,
                |i: int| empty_call(),
            ),
        decreases index + 1 - calls.len(),
    {
        let ghost now = calls_say(calls@);
        calls.push(ToolCall::default());
        proof {
            assert(calls_say(calls@) =~= now.push(empty_call()));
            assert(calls_say(calls@) =~= before + Seq::new(
                (calls@.len() - before.len()) as nat,
                |i: int| empty_call(),
            ));
        }
    }
    proof {
        assert(calls_say(calls@).len() == calls@.len());
        assert(calls_say(calls@) =~= padded(before, index as int));
    }
}

// ---------------------------------------------------------------------------
// The data of the OpenAI format
// ---------------------------------------------------------------------------

/// A piece of a tool call.
#[verifier::ext_equal]
pub struct PartV {
    pub index: usize,
    pub id: Seq<char>,
    pub name: Seq<char>,
    pub arguments: Seq<char>,
}

/// The counts of a request; absent ones are zero, but for the total.
#[verifier::ext_equal]
pub struct UsageV {
    pub prompt: u64,
    pub cached: u64,
    pub completion: u64,
    pub total: Option<u64>,
}

/// The last choice of a piece of data.
#[verifier::ext_equal]
pub struct ChoiceV {
    pub reasoning: Seq<char>,
    pub text: Seq<char>,
    pub parts: Seq<PartV>,
    pub finish: Option<Seq<char>>,
}

/// A piece of data in the OpenAI format.
#[verifier::ext_equal]
pub struct ChunkV {
    pub usage: Option<UsageV>,
    pub choice: Option<ChoiceV>,
}

/// Zero where a count is absent.
pub open spec fn or_zero(n: Option<u64>) -> u64 {
    match n {
        Some(k) => k,
        None => 0,
    }
}

/// The name and the arguments of a piece of a call; both are empty where the
/// function is absent. `None`: the data is malformed.
pub open spec fn function_part(v: JsonV) -> Option<(Seq<char>, Seq<char>)> {
    if v is Null {
        Some((Seq::empty(), Seq::empty()))
    } else {
        match (
            text_field(field(v, "name"@, 0, 2, 2)),
            text_field(field(v, "arguments"@, 1, 2, 2)),
        ) {
            (Some(n), Some(a)) => Some((or_empty(n), or_empty(a))),
            _ => None,
        }
    }
}

/// A piece of a tool call; absent texts are empty, and the index is zero where
/// it is absent.
pub open spec fn call_part(v: JsonV) -> Option<PartV> {
    match (
        number_field(field(v, "index"@, 0, 3, 3), usize::MAX as u64),
        text_field(field(v, "id"@, 1, 3, 3)),
        field(v, "function"@, 2, 3, 3),
    ) {
        (Some(i), Some(id), Some(f)) => match function_part(f) {
            Some((name, arguments)) => Some(
                PartV { index: or_zero(i) as usize, id: or_empty(id), name, arguments },
            ),
            None => None,
        },
        _ => None,
    }
}

/// The pieces of tool calls.
pub open spec fn call_parts(v: Seq<JsonV>) -> Option<Seq<PartV>>
    decreases v.len(),
{
    if v.len() == 0 {
        Some(Seq::empty())
    } else {
        match (call_parts(v.drop_last()), call_part(v.last())) {
            (Some(l), Some(p)) => Some(l.push(p)),
            _ => None,
        }
    }
}

/// What a choice adds to the reply: its text, its reasoning and its pieces of
/// tool calls.
pub open spec fn delta(v: JsonV) -> Option<(Seq<char>, Seq<char>, Seq<PartV>)> {
    if v is Null {
        Some((Seq::empty(), Seq::empty(), Seq::empty()))
    } else {
        match (
            text_field(field(v, "content"@, 0, 3, 3)),
            text_field(field(v, "reasoning_content"@, 1, 3, 3)),
            list_field(field(v, "tool_calls"@, 2, 3, 3)),
        ) {
            (Some(text), Some(reasoning), Some(list)) => {
                let parts = match list {
                    Some(l) => call_parts(l),
                    None => Some(Seq::empty()),
                };
                match parts {
                    Some(p) => Some((or_empty(text), or_empty(reasoning), p)),
                    None => None,
                }
            },
            _ => None,
        }
    }
}

/// A choice.
pub open spec fn choice(v: JsonV) -> Option<ChoiceV> {
    match (
        field(v, "delta"@, 0, 2, 2),
        text_field(field(v, "finish_reason"@, 1, 2, 2)),
    ) {
        (Some(d), Some(finish)) => match delta(d) {
            Some((text, reasoning, parts)) => Some(ChoiceV { reasoning, text, parts, finish }),
            None => None,
        },
        _ => None,
    }
}

/// The last of some choices, all of which are well formed.
pub open spec fn last_choice(v: Seq<JsonV>) -> Option<Option<ChoiceV>>
    decreases v.len(),
{
    if v.len() == 0 {
        Some(None)
    } else {
        match (last_choice(v.drop_last()), choice(v.last())) {
            (Some(_l), Some(c)) => Some(Some(c)),
            _ => None,
        }
    }
}

/// The count of tokens read from the cache.
pub open spec fn cached_count(v: JsonV) -> Option<u64> {
    if v is Null {
        Some(0)
    } else {
        match number_field(field(v, "cached_tokens"@, 0, 0, 1), u64::MAX) {
            Some(n) => Some(or_zero(n)),
            None => None,
        }
    }
}

/// The counts of a request.
pub open spec fn usage(v: JsonV) -> Option<Option<UsageV>> {
    if v is Null {
        Some(None)
    } else {
        match (
            number_field(field(v, "prompt_tokens"@, 0, 3, 4), u64::MAX),
            number_field(field(v, "completion_tokens"@, 1, 3, 4), u64::MAX),
            number_field(field(v, "total_tokens"@, 2, 3, 4), u64::MAX),
            field(v, "prompt_tokens_details"@, 3, 3, 4),
        ) {
            (Some(p), Some(c), Some(t), Some(d)) => match cached_count(d) {
                Some(cached) => Some(
                    Some(
                        UsageV { prompt: or_zero(p), cached, completion: or_zero(c), total: t },
                    ),
                ),
                None => None,
            },
            _ => None,
        }
    }
}

/// A piece of data in the OpenAI format; `None` where it is malformed.
pub open spec fn chunk(v: JsonV) -> Option<ChunkV> {
    match (list_field(field(v, "choices"@, 0, 2, 2)), field(v, "usage"@, 1, 2, 2)) {
        (Some(list), Some(u)) => {
            let last = match list {
                Some(l) => last_choice(l),
                None => Some(None),
            };
            match (last, usage(u)) {
                (Some(c), Some(n)) => Some(ChunkV { usage: n, choice: c }),
                _ => None,
            }
        },
        _ => None,
    }
}

struct Part {
    index: usize,
    id: String,
    name: String,
    arguments: String,
}

impl View for Part {
    type V = PartV;

    closed spec fn view(&self) -> PartV {
        PartV {
            index: self.index,
            id: self.id@,
            name: self.name@,
            arguments: self.arguments@,
        }
    }
}

spec fn parts_say(v: Seq<Part>) -> Seq<PartV> {
    v.map_values(|p: Part| p@)
}

struct Choice {
    reasoning: String,
    text: String,
    parts: Vec<Part>,
    finish: Option<String>,
}

impl View for Choice {
    type V = ChoiceV;

    closed spec fn view(&self) -> ChoiceV {
        ChoiceV {
            reasoning: self.reasoning@,
            text: self.text@,
            parts: parts_say(self.parts@),
            finish: opt_text(self.finish),
        }
    }
}

struct Usage {
    prompt: u64,
    cached: u64,
    completion: u64,
    total: Option<u64>,
}

impl View for Usage {
    type V = UsageV;

    closed spec fn view(&self) -> UsageV {
        UsageV {
            prompt: self.prompt,
            cached: self.cached,
            completion: self.completion,
            total: self.total,
        }
    }
}

fn string_or_empty(t: Option<String>) -> (r: String)
    ensures
        r@ == or_empty(opt_text(t)),
{
    match t {
        Some(s) => s,
        None => String::new(),
    }
}

fn zero_if_none(n: Option<u64>) -> (r: u64)
    ensures
        r == or_zero(n),
{
    match n {
        Some(k) => k,
        None => 0,
    }
}

fn is_null(v: Option<&Json>) -> (r: bool)
    ensures
        r == (said(v) is Null),
{
    match v {
        None => true,
        Some(Json::Null) => true,
        Some(_j) => false,
    }
}

fn read_function(v: Option<&Json>) -> (r: Option<(String, String)>)
    ensures
        match r {
            Some(p) => function_part(said(v)) == Some((p.0@, p.1@)),
            None => function_part(said(v)) is None,
        },
{
    if is_null(v) {
        return Some((String::new(), String::new()));
    }
    match v {
        Some(j) => match (
            text_of(field_of(j, "name", 0, 2, 2)),
            text_of(field_of(j, "arguments", 1, 2, 2)),
        ) {
            (Some(n), Some(a)) => Some((string_or_empty(n), string_or_empty(a))),
            _ => None,
        },
        None => None,
    }
}

fn read_part(v: &Json) -> (r: Option<Part>)
    ensures
        match r {
            Some(p) => call_part(v.says()) == Some(p@),
            None => call_part(v.says()) is None,
        },
{
    match (
        u64_of(field_of(v, "index", 0, 3, 3), usize::MAX as u64),
        text_of(field_of(v, "id", 1, 3, 3)),
        field_of(v, "function", 2, 3, 3),
    ) {
        (Some(i), Some(id), Some(f)) => match read_function(f) {
            Some((name, arguments)) => Some(
                Part { index: zero_if_none(i) as usize, id: string_or_empty(id), name, arguments },
            ),
            None => None,
        },
        _ => None,
    }
}

fn read_parts(v: &[Json]) -> (r: Option<Vec<Part>>)
    ensures
        match r {
            Some(p) => call_parts(says_all(v@)) == Some(parts_say(p@)),
            None => call_parts(says_all(v@)) is None,
        },
{
    let ghost all = says_all(v@);
    let mut out: Vec<Part> = Vec::new();
    let mut bad = false;
    proof {
        assert(parts_say(out@) =~= Seq::<PartV>::empty());
    }
    for i in 0..v.len()
        invariant
            all == says_all(v@),
            bad ==> call_parts(all.take(i as int)) is None,
            !bad ==> call_parts(all.take(i as int)) == Some(parts_say(out@)),
    {
        let ghost before = parts_say(out@);
        proof {
            assert(all.take(i as int + 1).drop_last() =~= all.take(i as int));
            assert(all.take(i as int + 1).last() == v@[i as int].says());
        }
        match read_part(&v[i]) {
            Some(p) => {
                out.push(p);
                proof {
                    assert(parts_say(out@) =~= before.push(p@));
                }
            },
            None => {
                bad = true;
            },
        }
    }
    proof {
        assert(all.take(v@.len() as int) =~= all);
    }
    if bad {
        None
    } else {
        Some(out)
    }
}

fn no_parts() -> (r: Vec<Part>)
    ensures
        parts_say(r@) == Seq::<PartV>::empty(),
{
    let v: Vec<Part> = Vec::new();
    proof {
        assert(parts_say(v@) =~= Seq::<PartV>::empty());
    }
    v
}

fn read_delta(v: Option<&Json>) -> (r: Option<(String, String, Vec<Part>)>)
    ensures
        match r {
            Some(d) => delta(said(v)) == Some((d.0@, d.1@, parts_say(d.2@))),
            None => delta(said(v)) is None,
        },
{
    if is_null(v) {
        return Some((String::new(), String::new(), no_parts()));
    }
    match v {
        Some(j) => match (
            text_of(field_of(j, "content", 0, 3, 3)),
            text_of(field_of(j, "reasoning_content", 1, 3, 3)),
            list_of(field_of(j, "tool_calls", 2, 3, 3)),
        ) {
            (Some(text), Some(reasoning), Some(list)) => {
                let parts = match list {
                    Some(l) => read_parts(l.as_slice()),
                    None => Some(no_parts()),
                };
                match parts {
                    Some(p) => Some((string_or_empty(text), string_or_empty(reasoning), p)),
                    None => None,
                }
            },
            _ => None,
        },
        None => None,
    }
}

fn read_choice(v: &Json) -> (r: Option<Choice>)
    ensures
        match r {
            Some(c) => choice(v.says()) == Some(c@),
            None => choice(v.says()) is None,
        },
{
    match (field_of(v, "delta", 0, 2, 2), text_of(field_of(v, "finish_reason", 1, 2, 2))) {
        (Some(d), Some(finish)) => match read_delta(d) {
            Some((text, reasoning, parts)) => Some(Choice { reasoning, text, parts, finish }),
            None => None,
        },
        _ => None,
    }
}

spec fn opt_choice(c: Option<Choice>) -> Option<ChoiceV> {
    match c {
        Some(x) => Some(x@),
        None => None,
    }
}

fn read_last_choice(v: &[Json]) -> (r: Option<Option<Choice>>)
    ensures
        match r {
            Some(c) => last_choice(says_all(v@)) == Some(opt_choice(c)),
            None => last_choice(says_all(v@)) is None,
        },
{
    let ghost all = says_all(v@);
    let mut last: Option<Choice> = None;
    let mut bad = false;
    for i in 0..v.len()
        invariant
            all == says_all(v@),
            bad ==> last_choice(all.take(i as int)) is None,
            !bad ==> last_choice(all.take(i as int)) == Some(opt_choice(last)),
    {
        proof {
            assert(all.take(i as int + 1).drop_last() =~= all.take(i as int));
            assert(all.take(i as int + 1).last() == v@[i as int].says());
        }
        match read_choice(&v[i]) {
            Some(c) => {
                last = Some(c);
            },
            None => {
                bad = true;
            },
        }
    }
    proof {
        assert(all.take(v@.len() as int) =~= all);
    }
    if bad {
        None
    } else {
        Some(last)
    }
}

fn read_cached(v: Option<&Json>) -> (r: Option<u64>)
    ensures
        r == cached_count(said(v)),
{
    if is_null(v) {
        return Some(0);
    }
    match v {
        Some(j) => match u64_of(field_of(j, "cached_tokens", 0, 0, 1), u64::MAX) {
            Some(n) => Some(zero_if_none(n)),
            None => None,
        },
        None => None,
    }
}

spec fn opt_usage(c: Option<Usage>) -> Option<UsageV> {
    match c {
        Some(x) => Some(x@),
        None => None,
    }
}

fn read_usage(v: Option<&Json>) -> (r: Option<Option<Usage>>)
    ensures
        match r {
            Some(u) => usage(said(v)) == Some(opt_usage(u)),
            None => usage(said(v)) is None,
        },
{
    if is_null(v) {
        return Some(None);
    }
    match v {
        Some(j) => match (
            u64_of(field_of(j, "prompt_tokens", 0, 3, 4), u64::MAX),
            u64_of(field_of(j, "completion_tokens", 1, 3, 4), u64::MAX),
            u64_of(field_of(j, "total_tokens", 2, 3, 4), u64::MAX),
            field_of(j, "prompt_tokens_details", 3, 3, 4),
        ) {
            (Some(p), Some(c), Some(t), Some(d)) => match read_cached(d) {
                Some(cached) => Some(
                    Some(
                        Usage {
                            prompt: zero_if_none(p),
                            cached,
                            completion: zero_if_none(c),
                            total: t,
                        },
                    ),
                ),
                None => None,
            },
            _ => None,
        },
        None => None,
    }
}

fn read_chunk(v: &Json) -> (r: Option<(Option<Usage>, Option<Choice>)>)
    ensures
        match r {
            Some(c) => chunk(v.says()) == Some(
                (ChunkV { usage: opt_usage(c.0), choice: opt_choice(c.1) }),
            ),
            None => chunk(v.says()) is None,
        },
{
    match (list_of(field_of(v, "choices", 0, 2, 2)), field_of(v, "usage", 1, 2, 2)) {
        (Some(list), Some(u)) => {
            let last = match list {
                Some(l) => read_last_choice(l.as_slice()),
                None => Some(None),
            };
            match (last, read_usage(u)) {
                (Some(c), Some(n)) => Some((n, c)),
                _ => None,
            }
        },
        _ => None,
    }
}

// ---------------------------------------------------------------------------
// The state of a reply
// ---------------------------------------------------------------------------

/// A reply as far as it has been read.
#[verifier::ext_equal]
pub struct StreamV {
    /// What has been read of the current line.
    pub buffer: Seq<char>,
    /// The type of the event whose data comes next (Anthropic format).
    pub event: Seq<char>,
    /// The tool calls as far as they are known.
    pub calls: Seq<CallV>,
    /// Input tokens, those read from the cache left out (Anthropic format).
    pub input: u64,
    /// Input tokens read from the cache (Anthropic format).
    pub cache_read: u64,
}

/// A reply of which nothing has been read.
pub open spec fn new_stream() -> StreamV {
    StreamV {
        buffer: Seq::empty(),
        event: Seq::empty(),
        calls: Seq::empty(),
        input: 0,
        cache_read: 0,
    }
}

/// What a line leads to.
pub type Step = (StreamV, Seq<ReplyV>, EndV);

/// `calls` with a piece added to the call that it belongs to.
pub open spec fn add_part(calls: Seq<CallV>, p: PartV) -> Seq<CallV> {
    let all = padded(calls, p.index as int);
    let c = all[p.index as int];
    all.update(
        p.index as int,
        CallV {
            id: c.id + p.id,
            name: c.name + p.name,
            arguments: c.arguments + p.arguments,
        },
    )
}

/// `calls` with pieces added, in order.
pub open spec fn add_parts(calls: Seq<CallV>, parts: Seq<PartV>) -> Seq<CallV>
    decreases parts.len(),
{
    if parts.len() == 0 {
        calls
    } else {
        add_part(add_parts(calls, parts.drop_last()), parts.last())
    }
}

/// The event that reports counts, unless they come to nothing.
pub open spec fn usage_event(u: UsageV, window: u64) -> Seq<ReplyV> {
    let input = if u.prompt >= u.cached {
        (u.prompt - u.cached) as u64
    } else {
        0
    };
    let used = match u.total {
        Some(t) => t,
        None => wrapped(wrapped(input, u.cached), u.completion),
    };
    if used > 0 {
        Seq::<ReplyV>::empty().push(
            ReplyV::Usage {
                input,
                cache_read: u.cached,
                output: u.completion,
                used,
                total: window,
            },
        )
    } else {
        Seq::empty()
    }
}

/// `events` with a text event behind them, where the text is not empty.
pub open spec fn push_reasoning(events: Seq<ReplyV>, t: Seq<char>) -> Seq<ReplyV> {
    if t.len() > 0 {
        events.push(ReplyV::Reasoning(t))
    } else {
        events
    }
}

/// `events` with a text event behind them, where the text is not empty.
pub open spec fn push_said(events: Seq<ReplyV>, t: Seq<char>) -> Seq<ReplyV> {
    if t.len() > 0 {
        events.push(ReplyV::Text(t))
    } else {
        events
    }
}

/// A stream whose calls were handed on.
pub open spec fn without_calls(st: StreamV) -> StreamV {
    StreamV { calls: Seq::empty(), ..st }
}

/// What the data of a line leads to in the OpenAI format: the end mark ends
/// the reply; malformed data is skipped; a finish reason `stop` or
/// `tool_calls` ends the reply too.
pub open spec fn openai_data(st: StreamV, data: Seq<char>, window: u64) -> Step {
    if data == "[DONE]"@ {
        (without_calls(st), finish_events(st.calls), EndV::Done)
    } else {
        match json_text(data) {
            None => (st, Seq::empty(), EndV::Open),
            Some(v) => match chunk(v) {
                None => (st, Seq::empty(), EndV::Open),
                Some(k) => {
                    let counts = match k.usage {
                        Some(u) => usage_event(u, window),
                        None => Seq::empty(),
                    };
                    match k.choice {
                        None => (st, counts, EndV::Open),
                        Some(c) => {
                            let events = push_said(push_reasoning(counts, c.reasoning), c.text);
                            let calls = add_parts(st.calls, c.parts);
                            let after = StreamV { calls, ..st };
                            if c.finish == Some("stop"@) || c.finish == Some("tool_calls"@) {
                                (without_calls(st), events + finish_events(calls), EndV::Done)
                            } else {
                                (after, events, EndV::Open)
                            }
                        },
                    }
                },
            },
        }
    }
}

/// Index of the block that an event speaks of.
pub open spec fn block_index(v: JsonV) -> usize {
    or_zero(number_at(v, "index"@)) as usize
}

/// What an event with data leads to in the Anthropic format.
pub open spec fn anthropic_data(st: StreamV, v: JsonV, window: u64) -> Step {
    let open = (st, Seq::<ReplyV>::empty(), EndV::Open);
    if st.event == "message_start"@ {
        let u = at(at(v, "message"@), "usage"@);
        (
            StreamV {
                input: wrapped(
                    or_zero(number_at(u, "input_tokens"@)),
                    or_zero(number_at(u, "cache_creation_input_tokens"@)),
                ),
                cache_read: or_zero(number_at(u, "cache_read_input_tokens"@)),
                ..st
            },
            Seq::empty(),
            EndV::Open,
        )
    } else if st.event == "content_block_start"@ {
        let b = at(v, "content_block"@);
        if text_at(b, "type"@) == Some("tool_use"@) {
            let i = block_index(v) as int;
            let all = padded(st.calls, i);
            (
                StreamV {
                    calls: all.update(
                        i,
                        CallV {
                            id: or_empty(text_at(b, "id"@)),
                            name: or_empty(text_at(b, "name"@)),
                            arguments: all[i].arguments,
                        },
                    ),
                    ..st
                },
                Seq::empty(),
                EndV::Open,
            )
        } else {
            open
        }
    } else if st.event == "content_block_delta"@ {
        let d = at(v, "delta"@);
        let kind = text_at(d, "type"@);
        if kind == Some("text_delta"@) {
            (st, push_said(Seq::empty(), or_empty(text_at(d, "text"@))), EndV::Open)
        } else if kind == Some("thinking_delta"@) {
            (st, push_reasoning(Seq::empty(), or_empty(text_at(d, "thinking"@))), EndV::Open)
        } else if kind == Some("input_json_delta"@) {
            match text_at(d, "partial_json"@) {
                Some(t) => {
                    let i = block_index(v) as int;
                    let all = padded(st.calls, i);
                    (
                        StreamV {
                            calls: all.update(
                                i,
                                CallV { arguments: all[i].arguments + t, ..all[i] },
                            ),
                            ..st
                        },
                        Seq::empty(),
                        EndV::Open,
                    )
                },
                None => open,
            }
        } else {
            open
        }
    } else if st.event == "message_delta"@ {
        if text_at(at(v, "delta"@), "stop_reason"@) is Some {
            let output = or_zero(number_at(at(v, "usage"@), "output_tokens"@));
            let used = wrapped(wrapped(st.input, st.cache_read), output);
            let counts = if used > 0 {
                Seq::<ReplyV>::empty().push(
                    ReplyV::Usage {
                        input: st.input,
                        cache_read: st.cache_read,
                        output,
                        used,
                        total: window,
                    },
                )
            } else {
                Seq::empty()
            };
            (without_calls(st), counts + finish_events(st.calls), EndV::Done)
        } else {
            open
        }
    } else if st.event == "error"@ {
        let message = match text_at(at(v, "error"@), "message"@) {
            Some(m) => m,
            None => "未知错误"@,
        };
        (st, Seq::empty(), EndV::Error("Anthropic error: "@ + message))
    } else {
        open
    }
}

/// What follows `prefix` in a line that begins with it, trimmed.
pub open spec fn behind(line: Seq<char>, prefix: Seq<char>) -> Option<Seq<char>> {
    if starts_with(line, prefix) {
        Some(trim(line.skip(prefix.len() as int)))
    } else {
        None
    }
}

/// What a trimmed line leads to: empty lines and comments are skipped, and so
/// is what holds no data.
pub open spec fn line_step(format: ApiFormat, st: StreamV, line: Seq<char>, window: u64) -> Step {
    let open = (st, Seq::<ReplyV>::empty(), EndV::Open);
    if line.len() == 0 || line[0] == ':' {
        open
    } else if format == ApiFormat::AnthropicMessages && behind(line, "event:"@) is Some {
        (StreamV { event: behind(line, "event:"@)->0, ..st }, Seq::empty(), EndV::Open)
    } else {
        match behind(line, "data:"@) {
            None => open,
            Some(data) => match format {
                ApiFormat::OpenAiChat => openai_data(st, data, window),
                ApiFormat::AnthropicMessages => match json_text(data) {
                    Some(v) => anthropic_data(st, v, window),
                    None => open,
                },
            },
        }
    }
}

/// What the complete lines of the buffer lead to, up to the end of the reply.
pub open spec fn run_lines(format: ApiFormat, st: StreamV, window: u64) -> Step
    decreases st.buffer.len(),
{
    match find(st.buffer, '\n') {
        None => (st, Seq::empty(), EndV::Open),
        Some(k) => if 0 <= k < st.buffer.len() {
            let rest = st.buffer.skip(k + 1);
            let (next, events, end) = line_step(
                format,
                StreamV { buffer: rest, ..st },
                trim(st.buffer.take(k)),
                window,
            );
            if end is Open {
                let (last, more, e) = run_lines(format, StreamV { buffer: rest, ..next }, window);
                (last, events + more, e)
            } else {
                (next, events, end)
            }
        } else {
            (st, Seq::empty(), EndV::Open)
        },
    }
}

/// What a piece of a reply leads to.
pub open spec fn feed_text(format: ApiFormat, st: StreamV, text: Seq<char>, window: u64) -> Step {
    run_lines(format, StreamV { buffer: st.buffer + text, ..st }, window)
}

/// A reply that is being read.
#[derive(Debug)]
pub struct Stream {
    pub format: ApiFormat,
    pub context_window: u64,
    pub buffer: Vec<char>,
    pub event: String,
    pub calls: Vec<ToolCall>,
    pub input: u64,
    pub cache_read: u64,
}

impl View for Stream {
    type V = StreamV;

    open spec fn view(&self) -> StreamV {
        StreamV {
            buffer: self.buffer@,
            event: self.event@,
            calls: calls_say(self.calls@),
            input: self.input,
            cache_read: self.cache_read,
        }
    }
}

fn no_events() -> (r: Vec<ProviderEvent>)
    ensures
        events_say(r@) == Seq::<ReplyV>::empty(),
{
    let v: Vec<ProviderEvent> = Vec::new();
    proof {
        assert(events_say(v@) =~= Seq::<ReplyV>::empty());
    }
    v
}

fn add_events(out: &mut Vec<ProviderEvent>, more: Vec<ProviderEvent>)
    ensures
        events_say(final(out)@) == events_say(old(out)@) + events_say(more@),
{
    let ghost a = events_say(out@);
    let ghost b = events_say(more@);
    let mut more = more;
    out.append(&mut more);
    proof {
        assert(events_say(out@) =~= a + b);
    }
}

/// What follows a prefix, trimmed.
fn after_prefix(line: &[char], prefix: &str) -> (r: Option<Vec<char>>)
    ensures
        match r {
            Some(t) => behind(line@, prefix@) == Some(t@),
            None => behind(line@, prefix@) is None,
        },
{
    if begins(line, prefix) {
        let n = chars_of(prefix).len();
        proof {
            assert(line@.skip(n as int) =~= line@.subrange(n as int, line.len() as int));
        }
        Some(copied(trimmed(slice_subrange(line, n, line.len()))))
    } else {
        None
    }
}

/// Whether an optional text reads `t`.
fn opt_reads(s: &Option<String>, t: &str) -> (r: bool)
    ensures
        r == (opt_text(*s) == Some(t@)),
{
    match s {
        Some(x) => str_eq(x.as_str(), t),
        None => false,
    }
}

impl Stream {
    /// A reply of which nothing has been read.
    pub fn new(format: ApiFormat, context_window: u64) -> (r: Self)
        ensures
            r@ == new_stream(),
            r.format == format,
            r.context_window == context_window,
    {
        let r = Stream {
            format,
            context_window,
            buffer: Vec::new(),
            event: String::new(),
            calls: Vec::new(),
            input: 0,
            cache_read: 0,
        };
        proof {
            assert(r@ =~= new_stream());
        }
        r
    }

    fn take_parts(&mut self, parts: &[Part])
        ensures
            final(self)@ == (StreamV {
                calls: add_parts(old(self)@.calls, parts_say(parts@)),
                ..old(self)@
            }),
            final(self).format == old(self).format,
            final(self).context_window == old(self).context_window,
    {
        let ghost start = self@;
        let ghost all = parts_say(parts@);
        for i in 0..parts.len()
            invariant
                all == parts_say(parts@),
                self@ == (StreamV { calls: add_parts(start.calls, all.take(i as int)), ..start }),
                self.format == old(self).format,
                self.context_window == old(self).context_window,
        {
            let p = &parts[i];
            let ghost before = self@.calls;
            proof {
                assert(all.take(i as int + 1).drop_last() =~= all.take(i as int));
                assert(all.take(i as int + 1).last() == p@);
            }
            pad(&mut self.calls, p.index);
            let ghost full = calls_say(self.calls@);
            let old_call = &self.calls[p.index];
            let mut id = old_call.id.clone();
            let mut name = old_call.name.clone();
            let mut arguments = old_call.arguments.clone();
            id.append(p.id.as_str());
            name.append(p.name.as_str());
            arguments.append(p.arguments.as_str());
            self.calls[p.index] = ToolCall { id, name, arguments };
            proof {
                assert(full[p.index as int] == full[p.index as int]);
                assert(calls_say(self.calls@) =~= add_part(before, p@));
                assert(self@ =~= (StreamV {
                    calls: add_parts(start.calls, all.take(i as int + 1)),
                    ..start
                }));
            }
        }
        proof {
            assert(all.take(parts@.len() as int) =~= all);
        }
    }

    fn hand_on(&mut self) -> (r: Vec<ProviderEvent>)
        ensures
            events_say(r@) == finish_events(old(self)@.calls),
            final(self)@ == without_calls(old(self)@),
            final(self).format == old(self).format,
            final(self).context_window == old(self).context_window,
    {
        let r = finish(&mut self.calls);
        proof {
            assert(calls_say(self.calls@) =~= Seq::<CallV>::empty());
        }
        r
    }

    fn openai_line(&mut self, data: &[char]) -> (r: (Vec<ProviderEvent>, StreamEnd))
        ensures
            openai_data(old(self)@, data@, old(self).context_window) == (
                final(self)@,
                events_say(r.0@),
                r.1@,
            ),
            final(self).format == old(self).format,
            final(self).context_window == old(self).context_window,
    {
        if reads(data, "[DONE]") {
            return (self.hand_on(), StreamEnd::Done);
        }
        let mut out = no_events();
        let text = string_of(data);
        let v = match parse_json(text.as_str()) {
            Some(v) => v,
            None => return (out, StreamEnd::Open),
        };
        let (counts, last) = match read_chunk(&v) {
            Some(c) => c,
            None => return (out, StreamEnd::Open),
        };
        match counts {
            Some(u) => {
                let input: u64 = u.prompt.saturating_sub(u.cached);
                let used: u64 = match u.total {
                    Some(t) => t,
                    None => wrap_sum(wrap_sum(input, u.cached), u.completion),
                };
                if used > 0 {
                    emit(
                        &mut out,
                        ProviderEvent::Usage {
                            input,
                            cache_read: u.cached,
                            output: u.completion,
                            used,
                            total: self.context_window,
                        },
                    );
                }
            },
            None => {},
        }
        let c = match last {
            Some(c) => c,
            None => return (out, StreamEnd::Open),
        };
        if !c.reasoning.as_str().is_empty() {
            emit(&mut out, ProviderEvent::Reasoning(c.reasoning));
        }
        if !c.text.as_str().is_empty() {
            emit(&mut out, ProviderEvent::Text(c.text));
        }
        self.take_parts(c.parts.as_slice());
        if opt_reads(&c.finish, "stop") || opt_reads(&c.finish, "tool_calls") {
            add_events(&mut out, self.hand_on());
            (out, StreamEnd::Done)
        } else {
            (out, StreamEnd::Open)
        }
    }

    fn anthropic_line(&mut self, v: &Json) -> (r: (Vec<ProviderEvent>, StreamEnd))
        ensures
            anthropic_data(old(self)@, v.says(), old(self).context_window) == (
                final(self)@,
                events_say(r.0@),
                r.1@,
            ),
            final(self).format == old(self).format,
            final(self).context_window == old(self).context_window,
    {
        let mut out = no_events();
        let ghost start = self@;
        if str_eq(self.event.as_str(), "message_start") {
            let u = down(down(Some(v), "message"), "usage");
            self.input = wrap_sum(
                zero_if_none(u64_in(u, "input_tokens")),
                zero_if_none(u64_in(u, "cache_creation_input_tokens")),
            );
            self.cache_read = zero_if_none(u64_in(u, "cache_read_input_tokens"));
        } else if str_eq(self.event.as_str(), "content_block_start") {
            let b = down(Some(v), "content_block");
            if opt_reads(&str_in(b, "type"), "tool_use") {
                let i: usize = zero_if_none(v.u64_at("index")) as usize;
                pad(&mut self.calls, i);
                let ghost full = calls_say(self.calls@);
                let arguments = self.calls[i].arguments.clone();
                self.calls[i] = ToolCall {
                    id: string_or_empty(str_in(b, "id")),
                    name: string_or_empty(str_in(b, "name")),
                    arguments,
                };
                proof {
                    assert(full[i as int].arguments == arguments@);
                    assert(calls_say(self.calls@) =~= full.update(
                        i as int,
                        self.calls@[i as int]@,
                    ));
                }
            }
        } else if str_eq(self.event.as_str(), "content_block_delta") {
            let d = down(Some(v), "delta");
            let kind = str_in(d, "type");
            if opt_reads(&kind, "text_delta") {
                let t = string_or_empty(str_in(d, "text"));
                if !t.as_str().is_empty() {
                    emit(&mut out, ProviderEvent::Text(t));
                }
            } else if opt_reads(&kind, "thinking_delta") {
                let t = string_or_empty(str_in(d, "thinking"));
                if !t.as_str().is_empty() {
                    emit(&mut out, ProviderEvent::Reasoning(t));
                }
            } else if opt_reads(&kind, "input_json_delta") {
                match str_in(d, "partial_json") {
                    Some(t) => {
                        let i: usize = zero_if_none(v.u64_at("index")) as usize;
                        pad(&mut self.calls, i);
                        let ghost full = calls_say(self.calls@);
                        let mut arguments = self.calls[i].arguments.clone();
                        arguments.append(t.as_str());
                        let id = self.calls[i].id.clone();
                        let name = self.calls[i].name.clone();
                        self.calls[i] = ToolCall { id, name, arguments };
                        proof {
                            assert(full[i as int].id == id@);
                            assert(calls_say(self.calls@) =~= full.update(
                                i as int,
                                CallV {
                                    arguments: full[i as int].arguments + t@,
                                    ..full[i as int]
                                },
                            ));
                        }
                    },
                    None => {},
                }
            }
        } else if str_eq(self.event.as_str(), "message_delta") {
            if str_in(down(Some(v), "delta"), "stop_reason").is_some() {
                let output = zero_if_none(u64_in(down(Some(v), "usage"), "output_tokens"));
                let used = wrap_sum(wrap_sum(self.input, self.cache_read), output);
                if used > 0 {
                    emit(
                        &mut out,
                        ProviderEvent::Usage {
                            input: self.input,
                            cache_read: self.cache_read,
                            output,
                            used,
                            total: self.context_window,
                        },
                    );
                }
                add_events(&mut out, self.hand_on());
                return (out, StreamEnd::Done);
            }
        } else if str_eq(self.event.as_str(), "error") {
            let mut m = chars_of("Anthropic error: ");
            match str_in(down(Some(v), "error"), "message") {
                Some(t) => push_text(&mut m, t.as_str()),
                None => push_text(&mut m, "未知错误"),
            }
            return (out, StreamEnd::Error(string_of(m.as_slice())));
        }
        proof {
            assert(self@ =~= anthropic_data(start, v.says(), self.context_window).0);
        }
        (out, StreamEnd::Open)
    }

    fn take_line(&mut self, line: &[char]) -> (r: (Vec<ProviderEvent>, StreamEnd))
        ensures
            line_step(old(self).format, old(self)@, line@, old(self).context_window) == (
                final(self)@,
                events_say(r.0@),
                r.1@,
            ),
            final(self).format == old(self).format,
            final(self).context_window == old(self).context_window,
    {
        if line.len() == 0 || line[0] == ':' {
            return (no_events(), StreamEnd::Open);
        }
        let anthropic = self.format == ApiFormat::AnthropicMessages;
        if anthropic {
            match after_prefix(line, "event:") {
                Some(t) => {
                    self.event = string_of(t.as_slice());
                    return (no_events(), StreamEnd::Open);
                },
                None => {},
            }
        }
        match after_prefix(line, "data:") {
            None => (no_events(), StreamEnd::Open),
            Some(data) => if anthropic {
                let text = string_of(data.as_slice());
                match parse_json(text.as_str()) {
                    Some(v) => self.anthropic_line(&v),
                    None => (no_events(), StreamEnd::Open),
                }
            } else {
                self.openai_line(data.as_slice())
            },
        }
    }

    /// Reads a piece of the reply: the events that its complete lines hold,
    /// and whether the reply has ended. Bytes that are not UTF-8 are replaced,
    /// piece by piece.
    pub fn feed(&mut self, bytes: &[u8]) -> (r: (Vec<ProviderEvent>, StreamEnd))
        ensures
            feed_text(
                old(self).format,
                old(self)@,
                lossy_text(bytes@),
                old(self).context_window,
            ) == (final(self)@, events_say(r.0@), r.1@),
            final(self).format == old(self).format,
            final(self).context_window == old(self).context_window,
    {
        let text = lossy_of(bytes);
        self.feed_str(text.as_str())
    }

    /// Reads a piece of the reply that is already text.
    pub fn feed_str(&mut self, text: &str) -> (r: (Vec<ProviderEvent>, StreamEnd))
        ensures
            feed_text(old(self).format, old(self)@, text@, old(self).context_window) == (
                final(self)@,
                events_say(r.0@),
                r.1@,
            ),
            final(self).format == old(self).format,
            final(self).context_window == old(self).context_window,
    {
        push_text(&mut self.buffer, text);
        let ghost format = self.format;
        let ghost window = self.context_window;
        let ghost whole = run_lines(format, self@, window);
        proof {
            assert(self@ =~= (StreamV { buffer: old(self)@.buffer + text@, ..old(self)@ }));
        }
        let mut out = no_events();
        proof {
            assert(whole.1 =~= events_say(out@) + run_lines(format, self@, window).1);
        }
        loop
            invariant
                self.format == format,
                self.context_window == window,
                format == old(self).format,
                window == old(self).context_window,
                whole == feed_text(
                    old(self).format,
                    old(self)@,
                    text@,
                    old(self).context_window,
                ),
                ({
                    let now = run_lines(format, self@, window);
                    whole == (now.0, events_say(out@) + now.1, now.2)
                }),
            decreases self.buffer.len(),
        {
            let k = match position(self.buffer.as_slice(), '\n') {
                None => {
                    proof {
                        assert(events_say(out@) + Seq::<ReplyV>::empty() =~= events_say(out@));
                    }
                    return (out, StreamEnd::Open);
                },
                Some(k) => k,
            };
            let ghost st = self@;
            let ghost done = events_say(out@);
            let line = copied(trimmed(slice_subrange(self.buffer.as_slice(), 0, k)));
            let rest = copied(slice_subrange(self.buffer.as_slice(), k + 1, self.buffer.len()));
            proof {
                assert(st.buffer.subrange(0, k as int) =~= st.buffer.take(k as int));
                assert(rest@ =~= st.buffer.skip(k as int + 1));
            }
            self.buffer = rest;
            let ghost cut_st = self@;
            proof {
                assert(cut_st =~= (StreamV { buffer: st.buffer.skip(k as int + 1), ..st }));
                lemma_line_keeps_buffer(format, cut_st, line@, window);
            }
            let (more, end) = self.take_line(line.as_slice());
            let ghost fresh = events_say(more@);
            add_events(&mut out, more);
            match end {
                StreamEnd::Open => {
                    proof {
                        let now = run_lines(format, self@, window);
                        assert(self@ =~= (StreamV { buffer: rest@, ..self@ }));
                        assert(done + (fresh + now.1) =~= (done + fresh) + now.1);
                    }
                },
                _ => {
                    return (out, end);
                },
            }
        }
    }
}

/// A line changes nothing of what stands behind it.
proof fn lemma_line_keeps_buffer(format: ApiFormat, st: StreamV, line: Seq<char>, window: u64)
    ensures
        line_step(format, st, line, window).0.buffer == st.buffer,
{
}

// ---------------------------------------------------------------------------
// Laws
// ---------------------------------------------------------------------------

/// Every call that a finished reply hands on has a name that is not blank, and
/// the last event is the end.
pub proof fn law_finish_named(calls: Seq<CallV>)
    ensures
        finish_events(calls).last() is Finished,
        forall|i: int|
            0 <= i < named_calls(calls).len() ==> trim((#[trigger] named_calls(calls)[i]).name).len()
                > 0,
    decreases calls.len(),
{
    if calls.len() > 0 {
        law_finish_named(calls.drop_last());
    }
}

/// Where a text is cut between two pieces does not matter: while the reply is
/// open after the first piece, reading both pieces gives the same state, the
/// same events and the same end as reading them at once.
pub proof fn law_pieces(format: ApiFormat, st: StreamV, a: Seq<char>, b: Seq<char>, window: u64)
    requires
        feed_text(format, st, a, window).2 is Open,
    ensures
        ({
            let first = feed_text(format, st, a, window);
            let second = feed_text(format, first.0, b, window);
            feed_text(format, st, a + b, window) == (second.0, first.1 + second.1, second.2)
        }),
{
    let s1 = StreamV { buffer: st.buffer + a, ..st };
    lemma_run_more(format, s1, b, window);
    assert(s1.buffer + b =~= st.buffer + (a + b));
}

proof fn lemma_run_more(format: ApiFormat, st: StreamV, b: Seq<char>, window: u64)
    requires
        run_lines(format, st, window).2 is Open,
    ensures
        ({
            let first = run_lines(format, st, window);
            let second = run_lines(
                format,
                StreamV { buffer: first.0.buffer + b, ..first.0 },
                window,
            );
            run_lines(format, StreamV { buffer: st.buffer + b, ..st }, window) == (
                second.0,
                first.1 + second.1,
                second.2,
            )
        }),
    decreases st.buffer.len(),
{
    let whole = StreamV { buffer: st.buffer + b, ..st };
    crate::chars::lemma_find_from(st.buffer, '\n', 0);
    match find(st.buffer, '\n') {
        None => {
            let second = run_lines(format, whole, window);
            assert(Seq::<ReplyV>::empty() + second.1 =~= second.1);
        },
        Some(k) => {
            lemma_find_first(whole.buffer, '\n', 0, k);
            assert(find(whole.buffer, '\n') == Some(k));
            assert(whole.buffer.take(k) =~= st.buffer.take(k));
            let rest = st.buffer.skip(k + 1);
            assert(whole.buffer.skip(k + 1) =~= rest + b);
            let line = trim(st.buffer.take(k));
            lemma_line_any_buffer(format, StreamV { buffer: rest, ..st }, rest + b, line, window);
            let (next, events, end) = line_step(
                format,
                StreamV { buffer: rest, ..st },
                line,
                window,
            );
            let after = StreamV { buffer: rest, ..next };
            lemma_run_more(format, after, b, window);
            let first = run_lines(format, after, window);
            let second = run_lines(
                format,
                StreamV { buffer: first.0.buffer + b, ..first.0 },
                window,
            );
            assert(events + (first.1 + second.1) =~= (events + first.1) + second.1);
            assert((StreamV { buffer: rest + b, ..st }) =~= (StreamV {
                buffer: whole.buffer.skip(k + 1),
                ..whole
            }));
        },
    }
}

proof fn lemma_find_first(s: Seq<char>, c: char, from: int, k: int)
    requires
        0 <= from <= k < s.len(),
        s[k] == c,
        forall|j: int| from <= j < k ==> s[j] != c,
    ensures
        crate::chars::find_from(s, c, from) == Some(k),
    decreases k - from,
{
    if from < k {
        lemma_find_first(s, c, from + 1, k);
    }
}

/// What a line leads to does not depend on what stands behind it.
proof fn lemma_line_any_buffer(
    format: ApiFormat,
    st: StreamV,
    buffer: Seq<char>,
    line: Seq<char>,
    window: u64,
)
    ensures
        ({
            let a = line_step(format, st, line, window);
            let b = line_step(format, StreamV { buffer, ..st }, line, window);
            b == (StreamV { buffer, ..a.0 }, a.1, a.2)
        }),
{
}

/// Whether a text is more than white space.
pub open spec fn says_something(t: Seq<char>) -> bool {
    exists|i: int| 0 <= i < t.len() && !is_white(#[trigger] t[i])
}

/// A finished reply hands on exactly the calls whose name is not blank, each as
/// often as it occurs and in the same order, and then the end; where every call
/// has a name, the list that is handed on is the whole list.
pub proof fn law_named_calls_are_all_handed_on(calls: Seq<CallV>)
    ensures
        ({
            let named = calls.filter(|c: CallV| says_something(c.name));
            &&& finish_events(calls) == (if named.len() > 0 {
                seq![ReplyV::ToolCalls(named), ReplyV::Finished]
            } else {
                seq![ReplyV::Finished]
            })
            &&& (forall|i: int| 0 <= i < calls.len() ==> says_something((#[trigger] calls[i]).name))
                && calls.len() > 0 ==> finish_events(calls) == seq![
                ReplyV::ToolCalls(calls),
                ReplyV::Finished,
            ]
        }),
{
    lemma_named_filter(calls);
    if forall|i: int| 0 <= i < calls.len() ==> says_something((#[trigger] calls[i]).name) {
        lemma_filter_all(calls);
    }
}

proof fn lemma_named_filter(calls: Seq<CallV>)
    ensures
        named_calls(calls) == calls.filter(|c: CallV| says_something(c.name)),
    decreases calls.len(),
{
    reveal(Seq::filter);
    if calls.len() > 0 {
        lemma_named_filter(calls.drop_last());
        law_trim(calls.last().name);
    }
}

proof fn lemma_filter_all(calls: Seq<CallV>)
    requires
        forall|i: int| 0 <= i < calls.len() ==> says_something((#[trigger] calls[i]).name),
    ensures
        calls.filter(|c: CallV| says_something(c.name)) == calls,
    decreases calls.len(),
{
    reveal(Seq::filter);
    if calls.len() > 0 {
        let front = calls.drop_last();
        assert forall|i: int| 0 <= i < front.len() implies says_something(
            (#[trigger] front[i]).name,
        ) by {
            assert(front[i] == calls[i]);
        }
        lemma_filter_all(front);
        assert(says_something(calls[calls.len() - 1].name));
        assert(front.push(calls.last()) =~= calls);
    }
}

/// The call that stands at a place, or one that is empty.
pub open spec fn call_at(calls: Seq<CallV>, k: int) -> CallV {
    if 0 <= k < calls.len() {
        calls[k]
    } else {
        CallV { id: Seq::empty(), name: Seq::empty(), arguments: Seq::empty() }
    }
}

/// The pieces of tool calls add up: behind them the call at each place has the
/// arguments from before and then those of all pieces with this place, in their
/// order; and so have its name and its id. There is a call at the place of each
/// piece.
pub proof fn law_call_pieces_add_up(calls: Seq<CallV>, parts: Seq<PartV>, k: int)
    requires
        0 <= k,
    ensures
        ({
            let now = add_parts(calls, parts);
            &&& call_at(now, k).arguments == call_at(calls, k).arguments + parts.map_values(
                |p: PartV|
                    if p.index == k {
                        p.arguments
                    } else {
                        Seq::<char>::empty()
                    },
            ).flatten()
            &&& call_at(now, k).name == call_at(calls, k).name + parts.map_values(
                |p: PartV|
                    if p.index == k {
                        p.name
                    } else {
                        Seq::<char>::empty()
                    },
            ).flatten()
            &&& call_at(now, k).id == call_at(calls, k).id + parts.map_values(
                |p: PartV|
                    if p.index == k {
                        p.id
                    } else {
                        Seq::<char>::empty()
                    },
            ).flatten()
            &&& k < now.len() <==> k < calls.len() || exists|i: int|
                0 <= i < parts.len() && k <= (#[trigger] parts[i]).index
        }),
    decreases parts.len(),
{
    let fa = |p: PartV|
        if p.index == k {
            p.arguments
        } else {
            Seq::<char>::empty()
        };
    let fname = |p: PartV|
        if p.index == k {
            p.name
        } else {
            Seq::<char>::empty()
        };
    let fi = |p: PartV|
        if p.index == k {
            p.id
        } else {
            Seq::<char>::empty()
        };
    if parts.len() == 0 {
        assert(parts.map_values(fa) =~= Seq::<Seq<char>>::empty());
        assert(parts.map_values(fname) =~= Seq::<Seq<char>>::empty());
        assert(parts.map_values(fi) =~= Seq::<Seq<char>>::empty());
    } else {
        let front = parts.drop_last();
        let p = parts.last();
        law_call_pieces_add_up(calls, front, k);
        assert(parts.map_values(fa) =~= front.map_values(fa).push(fa(p)));
        assert(parts.map_values(fname) =~= front.map_values(fname).push(fname(p)));
        assert(parts.map_values(fi) =~= front.map_values(fi).push(fi(p)));
        crate::chars::lemma_flatten_push(front.map_values(fa), fa(p));
        crate::chars::lemma_flatten_push(front.map_values(fname), fname(p));
        crate::chars::lemma_flatten_push(front.map_values(fi), fi(p));
        let before = add_parts(calls, front);
        let all = padded(before, p.index as int);
        assert(call_at(all, k) =~= call_at(before, k));
        let now = add_parts(calls, parts);
        if k == p.index {
            assert(call_at(now, k).arguments == call_at(before, k).arguments + p.arguments);
            assert(call_at(now, k).name == call_at(before, k).name + p.name);
            assert(call_at(now, k).id == call_at(before, k).id + p.id);
        } else {
            assert(call_at(now, k) =~= call_at(before, k));
        }
        let a0 = call_at(calls, k);
        assert((a0.arguments + front.map_values(fa).flatten()) + fa(p) =~= a0.arguments + (
        front.map_values(fa).flatten() + fa(p)));
        assert((a0.name + front.map_values(fname).flatten()) + fname(p) =~= a0.name + (
        front.map_values(fname).flatten() + fname(p)));
        assert((a0.id + front.map_values(fi).flatten()) + fi(p) =~= a0.id + (front.map_values(
            fi,
        ).flatten() + fi(p)));
        assert(parts[parts.len() - 1] == p);
        assert forall|i: int| 0 <= i < front.len() implies front[i] == parts[i] by {}
        if exists|i: int| 0 <= i < front.len() && k <= (#[trigger] front[i]).index {
            let i = choose|i: int| 0 <= i < front.len() && k <= (#[trigger] front[i]).index;
            assert(k <= parts[i].index);
        }
        if exists|i: int| 0 <= i < parts.len() && k <= (#[trigger] parts[i]).index {
            let i = choose|i: int| 0 <= i < parts.len() && k <= (#[trigger] parts[i]).index;
            if i < front.len() {
                assert(k <= front[i].index);
            }
        }
    }
}

/// A piece of a tool call in the OpenAI format is read as it is written.
pub proof fn law_call_piece_is_read(
    v: JsonV,
    f: JsonV,
    index: u64,
    id: Seq<char>,
    name: Seq<char>,
    arguments: Seq<char>,
    t: Seq<char>,
)
    requires
        v is Obj,
        f is Obj,
        index <= usize::MAX,
        at(v, "index"@) == JsonV::Num(Some(index), t),
        at(v, "id"@) == JsonV::Str(id),
        at(v, "function"@) == f,
        at(f, "name"@) == JsonV::Str(name),
        at(f, "arguments"@) == JsonV::Str(arguments),
    ensures
        call_part(v) == Some(PartV { index: index as usize, id, name, arguments }),
{
}

/// In the OpenAI format the reasoning and the text of a choice are told as they
/// are, the pieces of calls are added to those from before, and a finish reason
/// of the end hands the calls on.
pub proof fn law_openai_choice_is_told(
    st: StreamV,
    data: Seq<char>,
    v: JsonV,
    c: JsonV,
    d: JsonV,
    text: Seq<char>,
    thought: Seq<char>,
    list: Seq<JsonV>,
    parts: Seq<PartV>,
    window: u64,
)
    requires
        data != "[DONE]"@,
        json_text(data) == Some(v),
        v is Obj,
        c is Obj,
        d is Obj,
        at(v, "choices"@) == JsonV::Arr(seq![c]),
        at(v, "usage"@) == JsonV::Null,
        at(c, "delta"@) == d,
        at(d, "content"@) == JsonV::Str(text) || (text.len() == 0 && at(d, "content"@)
            == JsonV::Null),
        at(d, "reasoning_content"@) == JsonV::Str(thought) || (thought.len() == 0 && at(
            d,
            "reasoning_content"@,
        ) == JsonV::Null),
        at(d, "tool_calls"@) == JsonV::Arr(list) || (list.len() == 0 && at(d, "tool_calls"@)
            == JsonV::Null),
        parts.len() == list.len(),
        forall|i: int|
            0 <= i < list.len() ==> call_part(#[trigger] list[i]) == Some(parts[i]),
        at(c, "finish_reason"@) is Null || at(c, "finish_reason"@) is Str,
    ensures
        ({
            let (now, events, end) = openai_data(st, data, window);
            let calls = add_parts(st.calls, parts);
            let told = (if thought.len() > 0 {
                seq![ReplyV::Reasoning(thought)]
            } else {
                Seq::<ReplyV>::empty()
            }) + (if text.len() > 0 {
                seq![ReplyV::Text(text)]
            } else {
                Seq::<ReplyV>::empty()
            });
            let over = at(c, "finish_reason"@) == JsonV::Str("stop"@) || at(c, "finish_reason"@)
                == JsonV::Str("tool_calls"@);
            &&& now.buffer == st.buffer
            &&& !over ==> now.calls == calls && events == told && end is Open
            &&& over ==> now.calls.len() == 0 && events == told + finish_events(calls) && end is Done
        }),
{
    lemma_call_parts(list, parts);
    reveal_with_fuel(last_choice, 2);
    let one = seq![c];
    assert(one.drop_last() =~= Seq::<JsonV>::empty());
    assert(one.last() == c);
    let empty = Seq::<ReplyV>::empty();
    assert(push_said(push_reasoning(empty, thought), text) =~= (if thought.len() > 0 {
        seq![ReplyV::Reasoning(thought)]
    } else {
        Seq::<ReplyV>::empty()
    }) + (if text.len() > 0 {
        seq![ReplyV::Text(text)]
    } else {
        Seq::<ReplyV>::empty()
    }));
    if text.len() == 0 {
        assert(text =~= Seq::<char>::empty());
    }
    if thought.len() == 0 {
        assert(thought =~= Seq::<char>::empty());
    }
    if list.len() == 0 {
        assert(parts =~= Seq::<PartV>::empty());
    }
}

proof fn lemma_call_parts(list: Seq<JsonV>, parts: Seq<PartV>)
    requires
        parts.len() == list.len(),
        forall|i: int|
            0 <= i < list.len() ==> call_part(#[trigger] list[i]) == Some(parts[i]),
    ensures
        call_parts(list) == Some(parts),
    decreases list.len(),
{
    if list.len() == 0 {
        assert(parts =~= Seq::<PartV>::empty());
    } else {
        assert forall|i: int| 0 <= i < list.drop_last().len() implies call_part(
            #[trigger] list.drop_last()[i],
        ) == Some(parts.drop_last()[i]) by {
            assert(call_part(list[i]) == Some(parts[i]));
        }
        lemma_call_parts(list.drop_last(), parts.drop_last());
        assert(call_part(list[list.len() - 1]) == Some(parts[list.len() - 1]));
        assert(parts.drop_last().push(parts.last()) =~= parts);
    }
}

/// In the OpenAI format the tokens of a request are told as they are counted:
/// what was read from the cache is taken off the prompt, and the sum is the
/// total that came, or else the sum of the parts.
pub proof fn law_openai_usage_is_told(
    st: StreamV,
    data: Seq<char>,
    v: JsonV,
    u: JsonV,
    prompt: u64,
    cached: u64,
    completion: u64,
    total: Option<u64>,
    window: u64,
)
    requires
        data != "[DONE]"@,
        json_text(data) == Some(v),
        v is Obj,
        u is Obj,
        at(v, "choices"@) == JsonV::Arr(Seq::empty()),
        at(v, "usage"@) == u,
        at(u, "prompt_tokens"@) matches JsonV::Num(Some(n), _) && n == prompt,
        at(u, "completion_tokens"@) matches JsonV::Num(Some(n), _) && n == completion,
        at(u, "prompt_tokens_details"@) is Obj,
        at(at(u, "prompt_tokens_details"@), "cached_tokens"@) matches JsonV::Num(Some(n), _) && n
            == cached,
        match total {
            Some(t) => at(u, "total_tokens"@) matches JsonV::Num(Some(n), _) && n == t,
            None => at(u, "total_tokens"@) is Null,
        },
        cached <= prompt,
        prompt + completion <= u64::MAX,
    ensures
        ({
            let (now, events, end) = openai_data(st, data, window);
            let used = match total {
                Some(t) => t as int,
                None => prompt + completion,
            };
            &&& now == st
            &&& end is Open
            &&& used > 0 ==> events.len() == 1 && (events[0] matches ReplyV::Usage {
                input,
                cache_read,
                output,
                used: sum,
                total: all,
            } && input == prompt - cached && cache_read == cached && output == completion && sum
                == used && all == window)
            &&& used == 0 ==> events.len() == 0
        }),
{
    reveal_with_fuel(last_choice, 2);
}

/// In the Anthropic format a piece of text or of reasoning is told as it is and
/// changes nothing else.
pub proof fn law_anthropic_pieces_are_told(st: StreamV, v: JsonV, t: Seq<char>, window: u64)
    requires
        st.event == "content_block_delta"@,
        t.len() > 0,
    ensures
        ({
            let d = at(v, "delta"@);
            &&& text_at(d, "type"@) == Some("text_delta"@) && text_at(d, "text"@) == Some(t)
                ==> anthropic_data(st, v, window) == (st, seq![ReplyV::Text(t)], EndV::Open)
            &&& text_at(d, "type"@) == Some("thinking_delta"@) && text_at(d, "thinking"@)
                == Some(t) ==> anthropic_data(st, v, window) == (
                st,
                seq![ReplyV::Reasoning(t)],
                EndV::Open,
            )
        }),
{
    lemma_anthropic_names();
}

/// In the Anthropic format a call begins with its id and its name, each piece of
/// its arguments is put behind those from before, and no other call changes.
pub proof fn law_anthropic_call_is_put_together(
    st: StreamV,
    v: JsonV,
    i: u64,
    id: Seq<char>,
    name: Seq<char>,
    t: Seq<char>,
    k: int,
    window: u64,
)
    requires
        i <= usize::MAX,
        number_at(v, "index"@) == Some(i),
        0 <= k,
    ensures
        ({
            let (now, events, end) = anthropic_data(st, v, window);
            let b = at(v, "content_block"@);
            let d = at(v, "delta"@);
            let begins = st.event == "content_block_start"@ && text_at(b, "type"@) == Some(
                "tool_use"@,
            ) && text_at(b, "id"@) == Some(id) && text_at(b, "name"@) == Some(name);
            let goes_on = st.event == "content_block_delta"@ && text_at(d, "type"@) == Some(
                "input_json_delta"@,
            ) && text_at(d, "partial_json"@) == Some(t);
            &&& begins || goes_on ==> events.len() == 0 && end is Open && now.calls.len() > i
                && now.input == st.input && now.cache_read == st.cache_read && (k != i
                ==> call_at(now.calls, k) == call_at(st.calls, k))
            &&& begins ==> call_at(now.calls, i as int) == (CallV {
                id,
                name,
                arguments: call_at(st.calls, i as int).arguments,
            })
            &&& goes_on ==> call_at(now.calls, i as int) == (CallV {
                arguments: call_at(st.calls, i as int).arguments + t,
                ..call_at(st.calls, i as int)
            })
        }),
{
    lemma_anthropic_names();
    let all = padded(st.calls, i as int);
    assert(call_at(all, i as int) =~= call_at(st.calls, i as int));
    if k != i {
        assert(call_at(all, k) =~= call_at(st.calls, k));
    }
}

/// In the Anthropic format the tokens of the start are kept, and the end tells
/// them, with those of the output and their sum, before it hands the calls on.
pub proof fn law_anthropic_end_is_told(
    st: StreamV,
    v: JsonV,
    input: u64,
    made: u64,
    read: u64,
    output: u64,
    window: u64,
)
    requires
        input + made + read + output <= u64::MAX,
    ensures
        ({
            let (now, events, end) = anthropic_data(st, v, window);
            let u = at(at(v, "message"@), "usage"@);
            &&& st.event == "message_start"@ && number_at(u, "input_tokens"@) == Some(input)
                && number_at(u, "cache_creation_input_tokens"@) == Some(made) && number_at(
                u,
                "cache_read_input_tokens"@,
            ) == Some(read) ==> now.input == input + made && now.cache_read == read && now.calls
                == st.calls && events.len() == 0 && end is Open
            &&& st.event == "message_delta"@ && text_at(at(v, "delta"@), "stop_reason"@) is Some
                && st.input == input + made && st.cache_read == read && number_at(
                at(v, "usage"@),
                "output_tokens"@,
            ) == Some(output) && input + made + read + output > 0 ==> {
                &&& end is Done
                &&& now.calls.len() == 0
                &&& events.len() == 1 + finish_events(st.calls).len()
                &&& events.skip(1) == finish_events(st.calls)
                &&& events[0] matches ReplyV::Usage {
                    input: i,
                    cache_read: c,
                    output: o,
                    used,
                    total,
                } && i == input + made && c == read && o == output && used == input + made + read
                    + output && total == window
            }
        }),
{
    lemma_anthropic_names();
    let (now, events, end) = anthropic_data(st, v, window);
    if st.event == "message_delta"@ && text_at(at(v, "delta"@), "stop_reason"@) is Some && st.input
        == input + made && st.cache_read == read && number_at(at(v, "usage"@), "output_tokens"@)
        == Some(output) && input + made + read + output > 0 {
        assert(events.skip(1) =~= finish_events(st.calls));
    }
}

proof fn lemma_anthropic_names()
    ensures
        "message_start"@ != "content_block_start"@,
        "message_start"@ != "content_block_delta"@,
        "content_block_start"@ != "content_block_delta"@,
        "message_delta"@ != "message_start"@,
        "message_delta"@ != "content_block_start"@,
        "message_delta"@ != "content_block_delta"@,
        "text_delta"@ != "thinking_delta"@,
        "input_json_delta"@ != "text_delta"@,
        "input_json_delta"@ != "thinking_delta"@,
{
    reveal_strlit("message_start");
    reveal_strlit("message_delta");
    reveal_strlit("content_block_start");
    reveal_strlit("content_block_delta");
    reveal_strlit("text_delta");
    reveal_strlit("thinking_delta");
    reveal_strlit("input_json_delta");
    assert("message_start"@[8] != "message_delta"@[8]);
    assert("content_block_start"@[14] != "content_block_delta"@[14]);
    assert("message_start"@.len() == 13);
    assert("message_delta"@.len() == 13);
    assert("content_block_start"@.len() == 19);
    assert("content_block_delta"@.len() == 19);
    assert("text_delta"@.len() == 10);
    assert("thinking_delta"@.len() == 14);
    assert("input_json_delta"@.len() == 16);
}

/// A whole line of data is taken in at once, and nothing of it stays behind: in
/// the OpenAI format by itself, and in the Anthropic format for the event that
/// was named last.
pub proof fn law_line_of_data_is_taken_in(st: StreamV, data: Seq<char>, window: u64)
    requires
        st.buffer.len() == 0,
        data.len() > 0,
        !is_white(data[0]),
        !is_white(data.last()),
        !data.contains('\n'),
    ensures
        ({
            let line = "data: "@ + data + seq!['\n'];
            let named = "event: "@ + data + seq!['\n'];
            &&& feed_text(ApiFormat::OpenAiChat, st, line, window) == openai_data(st, data, window)
            &&& json_text(data) matches Some(v) ==> feed_text(
                ApiFormat::AnthropicMessages,
                st,
                line,
                window,
            ) == anthropic_data(st, v, window)
            &&& feed_text(ApiFormat::AnthropicMessages, st, named, window) == (
                StreamV { event: data, ..st },
                Seq::<ReplyV>::empty(),
                EndV::Open,
            )
            &&& feed_text(ApiFormat::OpenAiChat, st, named, window) == (
                st,
                Seq::<ReplyV>::empty(),
                EndV::Open,
            )
        }),
{
    reveal_strlit("data: ");
    reveal_strlit("data:");
    reveal_strlit("event: ");
    reveal_strlit("event:");
    lemma_one_line(ApiFormat::OpenAiChat, st, "data: "@ + data, window);
    lemma_one_line(ApiFormat::AnthropicMessages, st, "data: "@ + data, window);
    lemma_one_line(ApiFormat::OpenAiChat, st, "event: "@ + data, window);
    lemma_one_line(ApiFormat::AnthropicMessages, st, "event: "@ + data, window);
    let l = "data: "@ + data;
    let e = "event: "@ + data;
    assert(l[0] == 'd');
    assert(e[0] == 'e');
    assert(l.take(5) =~= "data:"@);
    assert(e.take(6) =~= "event:"@);
    assert(crate::chars::stands_at(l, "data:"@, 0)) by {
        assert(l.subrange(0, 5) =~= "data:"@);
    }
    assert(crate::chars::stands_at(e, "event:"@, 0)) by {
        assert(e.subrange(0, 6) =~= "event:"@);
    }
    assert(!crate::chars::stands_at(l, "event:"@, 0)) by {
        assert(l.subrange(0, 6)[0] == 'd');
        assert("event:"@[0] == 'e');
    }
    assert(!crate::chars::stands_at(e, "data:"@, 0)) by {
        assert(e.subrange(0, 5)[0] == 'e');
        assert("data:"@[0] == 'd');
    }
    assert(l.skip(5) =~= seq![' '] + data);
    assert(e.skip(6) =~= seq![' '] + data);
    lemma_trim_blank_front(data);
    assert((StreamV { event: data, ..st }) =~= (StreamV {
        buffer: Seq::empty(),
        event: data,
        ..st
    }));
}

proof fn lemma_trim_blank_front(data: Seq<char>)
    requires
        data.len() > 0,
        !is_white(data[0]),
        !is_white(data.last()),
    ensures
        trim(seq![' '] + data) == data,
{
    let s = seq![' '] + data;
    law_trim(s);
    let (a, b) = choose|a: int, b: int|
        0 <= a <= b <= s.len() && trim(s) == #[trigger] s.subrange(a, b) && (forall|i: int|
            0 <= i < a || b <= i < s.len() ==> is_white(#[trigger] s[i])) && (a < b ==> !is_white(
            s[a],
        ) && !is_white(s[b - 1]));
    assert(s[1] == data[0]);
    assert(s[s.len() - 1] == data.last());
    assert(s[0] == ' ');
    assert(is_white(' '));
    assert(a == 1 && b == s.len());
    assert(s.subrange(1, s.len() as int) =~= data);
}

proof fn lemma_one_line(format: ApiFormat, st: StreamV, line: Seq<char>, window: u64)
    requires
        st.buffer.len() == 0,
        line.len() > 0,
        !is_white(line[0]),
        !is_white(line.last()),
        !line.contains('\n'),
    ensures
        feed_text(format, st, line + seq!['\n'], window) == line_step(format, st, line, window),
{
    let text = line + seq!['\n'];
    let full = StreamV { buffer: st.buffer + text, ..st };
    assert(full.buffer =~= text);
    let k = line.len() as int;
    assert forall|j: int| 0 <= j < k implies text[j] != '\n' by {
        assert(line[j] == text[j]);
        assert(line.contains(line[j]));
    }
    lemma_find_first(text, '\n', 0, k);
    assert(text.take(k) =~= line);
    assert(text.skip(k + 1) =~= Seq::<char>::empty());
    assert(st.buffer =~= Seq::<char>::empty());
    lemma_trim_none(line);
    assert((StreamV { buffer: text.skip(k + 1), ..full }) =~= st);
    let (next, events, end) = line_step(format, st, line, window);
    lemma_line_keeps_buffer(format, st, line, window);
    crate::chars::lemma_find_from(next.buffer, '\n', 0);
    assert(next.buffer.len() == 0);
    assert((StreamV { buffer: text.skip(k + 1), ..next }) =~= next);
    assert(run_lines(format, next, window) == (next, Seq::<ReplyV>::empty(), EndV::Open));
    assert(events + Seq::<ReplyV>::empty() =~= events);
}

proof fn lemma_trim_none(s: Seq<char>)
    requires
        s.len() > 0,
        !is_white(s[0]),
        !is_white(s.last()),
    ensures
        trim(s) == s,
{
}

/// In the OpenAI format a choice that comes with counts is told behind them:
/// the counts first, and then the reasoning, the text and the end as without
/// them.
pub proof fn law_openai_counts_come_first(
    st: StreamV,
    data: Seq<char>,
    v: JsonV,
    bare: Seq<char>,
    w: JsonV,
    counts: Seq<char>,
    x: JsonV,
    window: u64,
)
    requires
        data != "[DONE]"@,
        bare != "[DONE]"@,
        counts != "[DONE]"@,
        json_text(data) == Some(v),
        json_text(bare) == Some(w),
        json_text(counts) == Some(x),
        v is Obj,
        w is Obj,
        x is Obj,
        at(w, "choices"@) == at(v, "choices"@),
        at(w, "usage"@) is Null,
        at(x, "choices"@) is Null,
        at(x, "usage"@) == at(v, "usage"@),
        chunk(v) is Some,
        chunk(v)->0.choice is Some,
    ensures
        ({
            let (now, events, end) = openai_data(st, data, window);
            let (plain, told, over) = openai_data(st, bare, window);
            let (_, used, _) = openai_data(st, counts, window);
            now == plain && end == over && events == used + told
        }),
{
    let k = chunk(v)->0;
    let c = k.choice->0;
    let used = match k.usage {
        Some(u) => usage_event(u, window),
        None => Seq::empty(),
    };
    let none = Seq::<ReplyV>::empty();
    let told = push_said(push_reasoning(none, c.reasoning), c.text);
    assert(push_said(push_reasoning(used, c.reasoning), c.text) =~= used + told);
    let ends = finish_events(add_parts(st.calls, c.parts));
    assert((used + told) + ends =~= used + (told + ends));
    assert(chunk(w) == Some(ChunkV { usage: None, choice: k.choice }));
    assert(chunk(x) == Some(ChunkV { usage: k.usage, choice: None }));
}

/// The end mark of the OpenAI format hands on the calls and ends the reply;
/// data that is no JSON, an empty line and a comment lead nowhere, in either
/// format.
pub proof fn law_end_mark_and_idle_lines(
    st: StreamV,
    data: Seq<char>,
    line: Seq<char>,
    format: ApiFormat,
    window: u64,
)
    ensures
        ({
            let (now, events, end) = openai_data(st, "[DONE]"@, window);
            now == (StreamV { calls: Seq::empty(), ..st }) && events == finish_events(st.calls)
                && end is Done
        }),
        data != "[DONE]"@ && json_text(data) is None ==> openai_data(st, data, window) == (
            st,
            Seq::<ReplyV>::empty(),
            EndV::Open,
        ),
        line.len() == 0 || line[0] == ':' ==> line_step(format, st, line, window) == (
            st,
            Seq::<ReplyV>::empty(),
            EndV::Open,
        ),
{
}

/// In the Anthropic format an error ends the reply with its own message.
pub proof fn law_anthropic_error_is_told(st: StreamV, v: JsonV, message: Seq<char>, window: u64)
    requires
        st.event == "error"@,
        text_at(at(v, "error"@), "message"@) == Some(message),
    ensures
        anthropic_data(st, v, window) == (
            st,
            Seq::<ReplyV>::empty(),
            EndV::Error("Anthropic error: "@ + message),
        ),
{
    reveal_strlit("error");
    reveal_strlit("message_start");
    reveal_strlit("message_delta");
    reveal_strlit("content_block_start");
    reveal_strlit("content_block_delta");
    assert("error"@.len() == 5 && "message_start"@.len() == 13 && "message_delta"@.len() == 13
        && "content_block_start"@.len() == 19 && "content_block_delta"@.len() == 19);
}

/// Of several choices the last one counts, where all are well formed.
pub proof fn law_last_choice_counts(v: Seq<JsonV>, c: JsonV)
    requires
        last_choice(v) is Some,
        choice(c) is Some,
    ensures
        last_choice(v.push(c)) == Some(choice(c)),
{
    assert(v.push(c).drop_last() =~= v);
}

} // verus!
