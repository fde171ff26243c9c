//! A stand-in for a model service. It plays fixed scenes over both wire
//! formats, so that a session can be tried from end to end without a network:
//! the words that it looks for in a request pick the scene, and the number of
//! tool results in the request says how far the scene has come.

use crate::chars::{
    ascii_lower, begins, byte_len, bytes_of_char, cat, cat3, cat5, chars_of, contains, copied,
    decimal, digit, ends_with, find_sub, finishes, first_chars, has_sub, is_digit, lines, lines_of,
    lowered, number_of, number_text, opt_text, parse_number, position_sub, prefix, rows,
    starts_with, str_eq, string_of, text_from, texts, trim, trimmed, words, words_of,
};
use crate::edit::{count_of, occurrences};
use crate::json::{
    at, compact_json, down, held, items_at, jarr, jnum, jobj, json_string, json_text, jstr, ms,
    no_members, num_says, parse_json, put, put_item, quoted, says_all, says_members, says_opt,
    str_in, text_at, written, Json, JsonV,
};
use crate::lossy::{lossy_of, lossy_text};
use crate::provider::no_items;
use crate::title::TITLE_PROMPT_MARKER;
use vstd::prelude::*;
use vstd::slice::slice_subrange;

verus! {

pub const MOCK_FILE_NAME: &'static str = "README.mock.md";
pub const MOCK_FILE_CONTENT: &'static str = "# mock 文件\n\n这是 pig-core mock provider 自测用的已知文件。\n";
pub const MOCK_REASONING: &'static str = "用户让我读一个文件并总结。先调用 Read。";
pub const MOCK_REPLY_MARKER: &'static str = "MOCK_REPLY_OK";

/// A file is written, edited and listed, and then the answer comes.
pub const SCENARIO_B_TRIGGER: &'static str = "SCENARIO_B";
pub const SCENARIO_B_MARKER: &'static str = "MOCK_SCENARIO_B_OK";
pub const SCENARIO_B_FILE: &'static str = "src/hello.txt";
pub const SCENARIO_B_CONTENT: &'static str = "hello\nline2\nline3\n";
pub const SCENARIO_B_BASH_MARKER: &'static str = "MOCK_BASH_OK";

/// A to-do list is written, and then the answer comes.
pub const TODO_SCENARIO_TRIGGER: &'static str = "TODO_SCENARIO";
pub const TODO_SCENARIO_MARKER: &'static str = "MOCK_TODO_OK";
pub const TODO_SCENARIO_ITEM: &'static str = "持久化待办项";

/// The user is asked a question, and then the answer comes.
pub const SCENARIO_Q_TRIGGER: &'static str = "SCENARIO_Q";
pub const MOCK_Q_MARKER: &'static str = "MOCK_QUESTION_OK";

/// A dangerous command is asked for twice, and then the answer comes.
pub const SCENARIO_DANGER_TRIGGER: &'static str = "DANGER_SCENARIO";
pub const DANGER_COMMAND: &'static str = "mkfs";
pub const DANGER_MARKER: &'static str = "MOCK_DANGER_DONE";

/// One file is written twice, another once, and three commands are run.
pub const SCENARIO_SUBJECT_TRIGGER: &'static str = "SUBJECT_SCENARIO";
pub const SUBJECT_MARKER: &'static str = "MOCK_SUBJECT_DONE";
pub const SUBJECT_FILE_A: &'static str = "subject_a.txt";
pub const SUBJECT_FILE_B: &'static str = "subject_b.txt";

/// A command that only reads is run, and then the answer comes.
pub const SCENARIO_READONLY_TRIGGER: &'static str = "READONLY_SCENARIO";
pub const READONLY_MARKER: &'static str = "MOCK_READONLY_DONE";

/// A plan is left; a file is written where the user agreed.
pub const SCENARIO_PLAN_EXIT_TRIGGER: &'static str = "PLAN_EXIT_SCENARIO";
pub const PLAN_EXIT_MARKER: &'static str = "MOCK_PLAN_EXIT_DONE";
pub const PLAN_EXIT_FILE: &'static str = "plan_exit.txt";

/// A plan is entered, a write is tried, the plan is left and the write repeated.
pub const SCENARIO_PLAN_ENTER_TRIGGER: &'static str = "PLAN_ENTER_SCENARIO";
pub const PLAN_ENTER_MARKER: &'static str = "MOCK_PLAN_ENTER_DONE";
pub const PLAN_ENTER_FILE: &'static str = "plan_enter.txt";

/// A picture is read, and then the answer comes.
pub const SCENARIO_MEDIA_TRIGGER: &'static str = "MEDIA_SCENARIO";
pub const MEDIA_MARKER: &'static str = "MOCK_MEDIA_DONE";

/// A plan is told; once it is confirmed, its steps are taken.
pub const SCENARIO_C_TRIGGER: &'static str = "SCENARIO_C";
pub const PLAN_MARKER: &'static str = "MOCK_PLAN_OK";
pub const SUMMARY_MARKER: &'static str = "MOCK_SUMMARY_OK";
pub const PLAN_CONFIRM_TEXT: &'static str = "计划已确认";

/// The title that every session gets.
pub const MOCK_TITLE: &'static str = "自动命名自测标题";

// ---------------------------------------------------------------------------
// Pieces of a streamed answer
// ---------------------------------------------------------------------------

/// One piece of a streamed answer: the name of its event, where the wire
/// format gives it one, and its data.
#[derive(Debug, PartialEq)]
pub struct MockChunk {
    pub event: Option<String>,
    pub data: Json,
}

/// What a `MockChunk` says.
#[verifier::ext_equal]
pub struct ChunkV {
    pub event: Option<Seq<char>>,
    pub data: JsonV,
}

impl MockChunk {
    /// What the piece says.
    pub open spec fn says(&self) -> ChunkV {
        ChunkV { event: opt_text(self.event), data: self.data.says() }
    }
}

/// What each of a list of pieces says.
pub open spec fn chunks_say(v: Seq<MockChunk>) -> Seq<ChunkV> {
    v.map_values(|c: MockChunk| c.says())
}

/// No pieces yet.
fn no_chunks() -> (r: Vec<MockChunk>)
    ensures
        chunks_say(r@) == Seq::<ChunkV>::empty(),
{
    let v: Vec<MockChunk> = Vec::new();
    proof {
        assert(chunks_say(v@) =~= Seq::<ChunkV>::empty());
    }
    v
}

/// Adds a piece behind the others.
fn add_chunk(v: &mut Vec<MockChunk>, c: MockChunk)
    ensures
        chunks_say(final(v)@) == chunks_say(old(v)@).push(c.says()),
{
    let ghost before = chunks_say(v@);
    v.push(c);
    proof {
        assert(chunks_say(v@) =~= before.push(c.says()));
    }
}

/// The text that goes over the wire for a piece whose data is written as
/// `data`.
pub open spec fn framed(event: Option<Seq<char>>, data: Seq<char>) -> Seq<char> {
    match event {
        Some(e) => "event: "@ + e + "\ndata: "@ + data + "\n\n"@,
        None => "data: "@ + data + "\n\n"@,
    }
}

/// Frames the written data of a piece.
pub fn frame(event: &Option<String>, data: &str) -> (r: String)
    ensures
        r@ == framed(opt_text(*event), data@),
{
    match event {
        Some(e) => cat5("event: ", e.as_str(), "\ndata: ", data, "\n\n"),
        None => cat3("data: ", data, "\n\n"),
    }
}

/// `s` cut into runs of `n` characters; the last one may be shorter.
pub open spec fn runs(s: Seq<char>, n: nat) -> Seq<Seq<char>>
    decreases s.len(),
{
    if s.len() == 0 || n == 0 {
        Seq::empty()
    } else if s.len() <= n {
        seq![s]
    } else {
        seq![s.take(n as int)] + runs(s.skip(n as int), n)
    }
}

/// Cuts a text into runs.
fn runs_of(s: &[char], n: usize) -> (r: Vec<Vec<char>>)
    requires
        n > 0,
    ensures
        rows(r@) == runs(s@, n as nat),
{
    let mut out: Vec<Vec<char>> = Vec::new();
    let mut rest: &[char] = s;
    proof {
        assert(rows(out@) + runs(rest@, n as nat) =~= runs(s@, n as nat));
    }
    while rest.len() > n
        invariant
            n > 0,
            rows(out@) + runs(rest@, n as nat) == runs(s@, n as nat),
        decreases rest.len(),
    {
        let ghost before = rows(out@);
        let ghost whole = rest@;
        out.push(copied(slice_subrange(rest, 0, n)));
        rest = slice_subrange(rest, n, rest.len());
        proof {
            assert(whole.subrange(0, n as int) =~= whole.take(n as int));
            assert(rest@ =~= whole.skip(n as int));
            assert(rows(out@) =~= before.push(whole.take(n as int)));
            assert(rows(out@) + runs(rest@, n as nat) =~= before + runs(whole, n as nat));
        }
    }
    if rest.len() > 0 {
        let ghost before = rows(out@);
        out.push(copied(rest));
        proof {
            assert(rows(out@) =~= before.push(rest@));
            assert(rows(out@) =~= before + runs(rest@, n as nat));
        }
    } else {
        proof {
            assert(rows(out@) =~= rows(out@) + runs(rest@, n as nat));
        }
    }
    out
}

/// The runs of a text, one behind the other, are the text.
pub proof fn law_runs_join(s: Seq<char>, n: nat)
    requires
        n > 0,
    ensures
        runs(s, n).flatten() == s,
    decreases s.len(),
{
    if s.len() == 0 {
    } else if s.len() <= n {
        runs(s, n).lemma_flatten_one_element();
    } else {
        law_runs_join(s.skip(n as int), n);
        assert(runs(s, n).drop_first() =~= runs(s.skip(n as int), n));
        assert(s =~= s.take(n as int) + s.skip(n as int));
    }
}

/// The index at or after `i` at which the first half of the text, counted in
/// bytes, is complete.
pub open spec fn half_from(s: Seq<char>, i: int) -> int
    decreases s.len() - i,
{
    if i >= s.len() || byte_len(s.take(i)) >= byte_len(s) / 2 {
        i
    } else {
        half_from(s, i + 1)
    }
}

/// A text in two halves, cut between characters.
pub open spec fn halves(s: Seq<char>) -> (Seq<char>, Seq<char>) {
    (s.take(half_from(s, 0)), s.skip(half_from(s, 0)))
}

proof fn lemma_half(s: Seq<char>, i: int)
    requires
        0 <= i <= s.len(),
    ensures
        i <= half_from(s, i) <= s.len(),
    decreases s.len() - i,
{
    if i >= s.len() || byte_len(s.take(i)) >= byte_len(s) / 2 {
    } else {
        lemma_half(s, i + 1);
    }
}

/// Counts the bytes of a text.
fn bytes_in(s: &[char]) -> (r: u128)
    ensures
        r == byte_len(s@),
{
    let mut n: u128 = 0;
    for i in 0..s.len()
        invariant
            n == byte_len(s@.take(i as int)),
            n <= 4 * i,
    {
        proof {
            assert(s@.take(i + 1).drop_last() =~= s@.take(i as int));
        }
        n = n + bytes_of_char(s[i]) as u128;
    }
    proof {
        assert(s@.take(s@.len() as int) =~= s@);
    }
    n
}

/// Cuts a text in two halves.
fn halves_of(text: &str) -> (r: (String, String))
    ensures
        (r.0@, r.1@) == halves(text@),
{
    let s = chars_of(text);
    let half: u128 = bytes_in(s.as_slice()) / 2;
    let mut n: u128 = 0;
    let mut i: usize = 0;
    proof {
        assert(s@.take(0) =~= Seq::<char>::empty());
    }
    while i < s.len() && n < half
        invariant
            i <= s@.len(),
            half == byte_len(s@) / 2,
            n == byte_len(s@.take(i as int)),
            n <= 4 * i,
            half_from(s@, i as int) == half_from(s@, 0),
        decreases s.len() - i,
    {
        n = n + bytes_of_char(s[i]) as u128;
        proof {
            assert(s@.take(i + 1).drop_last() =~= s@.take(i as int));
        }
        i = i + 1;
    }
    let a = string_of(slice_subrange(s.as_slice(), 0, i));
    let b = string_of(slice_subrange(s.as_slice(), i, s.len()));
    proof {
        assert(a@ =~= s@.take(i as int));
        assert(b@ =~= s@.skip(i as int));
    }
    (a, b)
}

/// The two halves of a text, one behind the other, are the text.
pub proof fn law_halves_join(s: Seq<char>)
    ensures
        halves(s).0 + halves(s).1 == s,
{
    lemma_half(s, 0);
    assert(halves(s).0 + halves(s).1 =~= s);
}

// ---------------------------------------------------------------------------
// The chat completions format
// ---------------------------------------------------------------------------

/// A list of one value.
pub open spec fn one(v: JsonV) -> JsonV {
    JsonV::Arr(Seq::<JsonV>::empty().push(v))
}

fn one_json(v: Json) -> (r: Json)
    ensures
        r.says() == one(v.says()),
{
    let mut list = no_items();
    put_item(&mut list, v);
    jarr(list)
}

/// The tokens that a request took.
pub open spec fn usage_says(prompt: u64, completion: u64, total: u64) -> JsonV {
    JsonV::Obj(
        ms().push(("completion_tokens"@, num_says(completion))).push(
            ("prompt_tokens"@, num_says(prompt)),
        ).push(("total_tokens"@, num_says(total))),
    )
}

fn usage_json(prompt: u64, completion: u64, total: u64) -> (r: Json)
    ensures
        r.says() == usage_says(prompt, completion, total),
{
    let mut m = no_members();
    put(&mut m, "completion_tokens", jnum(completion));
    put(&mut m, "prompt_tokens", jnum(prompt));
    put(&mut m, "total_tokens", jnum(total));
    jobj(m)
}

/// A text, or null.
pub open spec fn text_or_null(t: Option<Seq<char>>) -> JsonV {
    match t {
        Some(s) => JsonV::Str(s),
        None => JsonV::Null,
    }
}

/// A piece of a chat completion; `usage` is a member of it where there is one.
pub open spec fn sse_chunk_says(
    delta: JsonV,
    finish_reason: Option<Seq<char>>,
    usage: Option<JsonV>,
) -> ChunkV {
    let choice = JsonV::Obj(
        ms().push(("delta"@, delta)).push(("finish_reason"@, text_or_null(finish_reason))).push(
            ("index"@, num_says(0)),
        ),
    );
    let m = ms().push(("choices"@, one(choice))).push(("created"@, num_says(0))).push(
        ("id"@, JsonV::Str("chatcmpl-mock"@)),
    ).push(("model"@, JsonV::Str("mock-model"@))).push(
        ("object"@, JsonV::Str("chat.completion.chunk"@)),
    );
    ChunkV {
        event: None,
        data: JsonV::Obj(
            match usage {
                Some(u) => m.push(("usage"@, u)),
                None => m,
            },
        ),
    }
}

/// Makes a piece of a chat completion.
pub fn sse_chunk(delta: Json, finish_reason: Option<&str>, usage: Option<Json>) -> (r: MockChunk)
    ensures
        r.says() == sse_chunk_says(
            delta.says(),
            match finish_reason {
                Some(t) => Some(t@),
                None => None,
            },
            says_opt(usage),
        ),
{
    let mut c = no_members();
    put(&mut c, "delta", delta);
    let reason = match finish_reason {
        Some(t) => jstr(t),
        None => Json::Null,
    };
    put(&mut c, "finish_reason", reason);
    put(&mut c, "index", jnum(0));
    let mut m = no_members();
    put(&mut m, "choices", one_json(jobj(c)));
    put(&mut m, "created", jnum(0));
    put(&mut m, "id", jstr("chatcmpl-mock"));
    put(&mut m, "model", jstr("mock-model"));
    put(&mut m, "object", jstr("chat.completion.chunk"));
    match usage {
        Some(u) => put(&mut m, "usage", u),
        None => {},
    }
    MockChunk { event: None, data: jobj(m) }
}

/// An object with one text.
pub open spec fn pair_says(key: Seq<char>, text: Seq<char>) -> JsonV {
    JsonV::Obj(ms().push((key, JsonV::Str(text))))
}

fn pair_json(key: &str, text: &str) -> (r: Json)
    ensures
        r.says() == pair_says(key@, text@),
{
    let mut m = no_members();
    put(&mut m, key, jstr(text));
    jobj(m)
}

/// A piece that adds text, under `key`, to the answer.
pub open spec fn said_chunk(key: Seq<char>, text: Seq<char>) -> ChunkV {
    sse_chunk_says(pair_says(key, text), None, None)
}

/// The piece that ends an answer.
pub open spec fn stop_chunk(usage: Option<JsonV>) -> ChunkV {
    sse_chunk_says(JsonV::Obj(ms()), Some("stop"@), usage)
}

fn stop_piece(usage: Option<Json>) -> (r: MockChunk)
    ensures
        r.says() == stop_chunk(says_opt(usage)),
{
    sse_chunk(jobj(no_members()), Some("stop"), usage)
}

/// The pieces that tell a text in runs of `n` characters.
pub open spec fn told(key: Seq<char>, text: Seq<char>, n: nat) -> Seq<ChunkV> {
    runs(text, n).map_values(|t: Seq<char>| said_chunk(key, t))
}

fn tell(out: &mut Vec<MockChunk>, key: &str, text: &str, n: usize)
    requires
        n > 0,
    ensures
        chunks_say(final(out)@) == chunks_say(old(out)@) + told(key@, text@, n as nat),
{
    let parts = runs_of(chars_of(text).as_slice(), n);
    let ghost before = chunks_say(out@);
    let ghost all = told(key@, text@, n as nat);
    proof {
        assert(before + all.take(0) =~= before);
    }
    for i in 0..parts.len()
        invariant
            rows(parts@) == runs(text@, n as nat),
            all == told(key@, text@, n as nat),
            chunks_say(out@) == before + all.take(i as int),
    {
        let t = string_of(parts[i].as_slice());
        proof {
            assert(rows(parts@)[i as int] == parts@[i as int]@);
        }
        add_chunk(out, sse_chunk(pair_json(key, t.as_str()), None, None));
        proof {
            assert(all.take(i + 1) =~= all.take(i as int).push(all[i as int]));
            assert(before + all.take(i + 1) =~= (before + all.take(i as int)).push(all[i as int]));
        }
    }
    proof {
        assert(all.take(all.len() as int) =~= all);
        assert(rows(parts@).len() == parts@.len());
    }
}

/// The pieces that call a tool. The arguments come in two halves, and what
/// the request took comes with the second.
pub open spec fn call_chunks(
    call_id: Seq<char>,
    name: Seq<char>,
    arguments: Seq<char>,
    usage: Option<JsonV>,
) -> Seq<ChunkV> {
    let first = JsonV::Obj(
        ms().push(
            (
                "function"@,
                JsonV::Obj(
                    ms().push(("arguments"@, JsonV::Str(halves(arguments).0))).push(
                        ("name"@, JsonV::Str(name)),
                    ),
                ),
            ),
        ).push(("id"@, JsonV::Str(call_id))).push(("index"@, num_says(0))),
    );
    let second = JsonV::Obj(
        ms().push(("function"@, pair_says("arguments"@, halves(arguments).1))).push(
            ("index"@, num_says(0)),
        ),
    );
    seq![
        sse_chunk_says(JsonV::Obj(ms().push(("tool_calls"@, one(first)))), None, None),
        sse_chunk_says(
            JsonV::Obj(ms().push(("tool_calls"@, one(second)))),
            Some("tool_calls"@),
            Some(
                match usage {
                    Some(u) => u,
                    None => JsonV::Null,
                },
            ),
        ),
    ]
}

/// Calls a tool.
pub fn tool_call_chunks(call_id: &str, name: &str, arguments: &str, usage: Option<Json>) -> (r: Vec<
    MockChunk,
>)
    ensures
        chunks_say(r@) == call_chunks(call_id@, name@, arguments@, says_opt(usage)),
{
    let (a, b) = halves_of(arguments);
    let mut f = no_members();
    put(&mut f, "arguments", Json::Str(a));
    put(&mut f, "name", jstr(name));
    let mut c = no_members();
    put(&mut c, "function", jobj(f));
    put(&mut c, "id", jstr(call_id));
    put(&mut c, "index", jnum(0));
    let mut first = no_members();
    put(&mut first, "tool_calls", one_json(jobj(c)));
    let mut d = no_members();
    put(&mut d, "function", pair_json("arguments", b.as_str()));
    put(&mut d, "index", jnum(0));
    let mut second = no_members();
    put(&mut second, "tool_calls", one_json(jobj(d)));
    let took = match usage {
        Some(u) => u,
        None => Json::Null,
    };
    let mut out = no_chunks();
    add_chunk(&mut out, sse_chunk(jobj(first), None, None));
    add_chunk(&mut out, sse_chunk(jobj(second), Some("tool_calls"), Some(took)));
    proof {
        assert(chunks_say(out@) =~= call_chunks(
            call_id@,
            name@,
            arguments@,
            says_opt(usage),
        ));
    }
    out
}

// ---------------------------------------------------------------------------
// Scenes
// ---------------------------------------------------------------------------

/// One turn of a scene: the model calls a tool, or says a word and stops.
#[derive(Debug, Clone, Copy, PartialEq, Eq)]
pub enum Turn {
    Call { id: &'static str, name: &'static str, arguments: &'static str },
    Say(&'static str),
}

/// The pieces of a turn.
pub open spec fn turn_chunks(t: Turn) -> Seq<ChunkV> {
    match t {
        Turn::Call { id, name, arguments } => call_chunks(id@, name@, arguments@, None),
        Turn::Say(word) => seq![said_chunk("content"@, word@), stop_chunk(None)],
    }
}

/// Plays a turn.
pub fn play(t: Turn) -> (r: Vec<MockChunk>)
    ensures
        chunks_say(r@) == turn_chunks(t),
{
    match t {
        Turn::Call { id, name, arguments } => tool_call_chunks(id, name, arguments, None),
        Turn::Say(word) => {
            let mut out = no_chunks();
            add_chunk(&mut out, sse_chunk(pair_json("content", word), None, None));
            add_chunk(&mut out, stop_piece(None));
            proof {
                assert(chunks_say(out@) =~= turn_chunks(t));
            }
            out
        },
    }
}

/// The scene of the dangerous command.
pub open spec fn danger_turn(tool_results: nat) -> Turn {
    if tool_results == 0 {
        Turn::Call { id: "call_danger_1", name: "Bash", arguments: "{\"command\":\"mkfs\"}" }
    } else if tool_results == 1 {
        Turn::Call { id: "call_danger_2", name: "Bash", arguments: "{\"command\":\"mkfs\"}" }
    } else {
        Turn::Say(DANGER_MARKER)
    }
}

/// The scene of the dangerous command.
pub fn danger_scenario_response(tool_results: usize) -> (r: Vec<MockChunk>)
    ensures
        chunks_say(r@) == turn_chunks(danger_turn(tool_results as nat)),
{
    let t: Turn = if tool_results == 0 {
        Turn::Call { id: "call_danger_1", name: "Bash", arguments: "{\"command\":\"mkfs\"}" }
    } else if tool_results == 1 {
        Turn::Call { id: "call_danger_2", name: "Bash", arguments: "{\"command\":\"mkfs\"}" }
    } else {
        Turn::Say(DANGER_MARKER)
    };
    play(t)
}

/// The scene of the written files and the commands.
pub open spec fn subject_turn(tool_results: nat) -> Turn {
    if tool_results == 0 {
        Turn::Call { id: "call_subj_w1", name: "Write", arguments: "{\"content\":\"v0\\n\",\"path\":\"subject_a.txt\"}" }
    } else if tool_results == 1 {
        Turn::Call { id: "call_subj_w2", name: "Write", arguments: "{\"content\":\"v1\\n\",\"path\":\"subject_a.txt\"}" }
    } else if tool_results == 2 {
        Turn::Call { id: "call_subj_w3", name: "Write", arguments: "{\"content\":\"b\\n\",\"path\":\"subject_b.txt\"}" }
    } else if tool_results == 3 {
        Turn::Call { id: "call_subj_e1", name: "Bash", arguments: "{\"command\":\"echo SUBJ_3\"}" }
    } else if tool_results == 4 {
        Turn::Call { id: "call_subj_e2", name: "Bash", arguments: "{\"command\":\"echo SUBJ_4\"}" }
    } else if tool_results == 5 {
        Turn::Call { id: "call_subj_ls", name: "Bash", arguments: "{\"command\":\"ls\"}" }
    } else {
        Turn::Say(SUBJECT_MARKER)
    }
}

/// The scene of the written files and the commands.
pub fn subject_scenario_response(tool_results: usize) -> (r: Vec<MockChunk>)
    ensures
        chunks_say(r@) == turn_chunks(subject_turn(tool_results as nat)),
{
    let t: Turn = if tool_results == 0 {
        Turn::Call { id: "call_subj_w1", name: "Write", arguments: "{\"content\":\"v0\\n\",\"path\":\"subject_a.txt\"}" }
    } else if tool_results == 1 {
        Turn::Call { id: "call_subj_w2", name: "Write", arguments: "{\"content\":\"v1\\n\",\"path\":\"subject_a.txt\"}" }
    } else if tool_results == 2 {
        Turn::Call { id: "call_subj_w3", name: "Write", arguments: "{\"content\":\"b\\n\",\"path\":\"subject_b.txt\"}" }
    } else if tool_results == 3 {
        Turn::Call { id: "call_subj_e1", name: "Bash", arguments: "{\"command\":\"echo SUBJ_3\"}" }
    } else if tool_results == 4 {
        Turn::Call { id: "call_subj_e2", name: "Bash", arguments: "{\"command\":\"echo SUBJ_4\"}" }
    } else if tool_results == 5 {
        Turn::Call { id: "call_subj_ls", name: "Bash", arguments: "{\"command\":\"ls\"}" }
    } else {
        Turn::Say(SUBJECT_MARKER)
    };
    play(t)
}

/// The scene of the command that only reads.
pub open spec fn readonly_turn(tool_results: nat) -> Turn {
    if tool_results == 0 {
        Turn::Call { id: "call_ro_ls", name: "Bash", arguments: "{\"command\":\"ls\"}" }
    } else {
        Turn::Say(READONLY_MARKER)
    }
}

/// The scene of the command that only reads.
pub fn readonly_scenario_response(tool_results: usize) -> (r: Vec<MockChunk>)
    ensures
        chunks_say(r@) == turn_chunks(readonly_turn(tool_results as nat)),
{
    let t: Turn = if tool_results == 0 {
        Turn::Call { id: "call_ro_ls", name: "Bash", arguments: "{\"command\":\"ls\"}" }
    } else {
        Turn::Say(READONLY_MARKER)
    };
    play(t)
}

/// The scene of the plan that is entered and left.
pub open spec fn plan_enter_turn(tool_results: nat) -> Turn {
    if tool_results == 0 {
        Turn::Call { id: "call_pn_1", name: "EnterPlanMode", arguments: "{\"reason\":\"改动范围大，先出计划\"}" }
    } else if tool_results == 1 {
        Turn::Call { id: "call_pn_2", name: "Write", arguments: "{\"content\":\"from-plan\\n\",\"path\":\"plan_enter.txt\"}" }
    } else if tool_results == 2 {
        Turn::Call { id: "call_pn_3", name: "ExitPlanMode", arguments: "{\"plan\":\"计划就绪\"}" }
    } else if tool_results == 3 {
        Turn::Call { id: "call_pn_4", name: "Write", arguments: "{\"content\":\"executed\\n\",\"path\":\"plan_enter.txt\"}" }
    } else {
        Turn::Say(PLAN_ENTER_MARKER)
    }
}

/// The scene of the plan that is entered and left.
pub fn plan_enter_scenario_response(tool_results: usize) -> (r: Vec<MockChunk>)
    ensures
        chunks_say(r@) == turn_chunks(plan_enter_turn(tool_results as nat)),
{
    let t: Turn = if tool_results == 0 {
        Turn::Call { id: "call_pn_1", name: "EnterPlanMode", arguments: "{\"reason\":\"改动范围大，先出计划\"}" }
    } else if tool_results == 1 {
        Turn::Call { id: "call_pn_2", name: "Write", arguments: "{\"content\":\"from-plan\\n\",\"path\":\"plan_enter.txt\"}" }
    } else if tool_results == 2 {
        Turn::Call { id: "call_pn_3", name: "ExitPlanMode", arguments: "{\"plan\":\"计划就绪\"}" }
    } else if tool_results == 3 {
        Turn::Call { id: "call_pn_4", name: "Write", arguments: "{\"content\":\"executed\\n\",\"path\":\"plan_enter.txt\"}" }
    } else {
        Turn::Say(PLAN_ENTER_MARKER)
    };
    play(t)
}

/// The scene of the picture.
pub open spec fn media_turn(tool_results: nat) -> Turn {
    if tool_results == 0 {
        Turn::Call { id: "call_media_1", name: "ReadMediaFile", arguments: "{\"path\":\"pic.png\"}" }
    } else {
        Turn::Say(MEDIA_MARKER)
    }
}

/// The scene of the picture.
pub fn media_scenario_response(tool_results: usize) -> (r: Vec<MockChunk>)
    ensures
        chunks_say(r@) == turn_chunks(media_turn(tool_results as nat)),
{
    let t: Turn = if tool_results == 0 {
        Turn::Call { id: "call_media_1", name: "ReadMediaFile", arguments: "{\"path\":\"pic.png\"}" }
    } else {
        Turn::Say(MEDIA_MARKER)
    };
    play(t)
}

/// The scene of the plan that is left: once the mode has changed, a file is
/// written.
pub open spec fn plan_exit_turn(body: Seq<char>, tool_results: nat) -> Turn {
    if tool_results == 0 {
        Turn::Call { id: "call_pe_1", name: "ExitPlanMode", arguments: "{\"plan\":\"第一步：创建 plan_exit.txt 验证执行\"}" }
    } else if tool_results == 1 && contains(body, "已切换到"@) {
        Turn::Call { id: "call_pe_2", name: "Write", arguments: "{\"content\":\"executed\\n\",\"path\":\"plan_exit.txt\"}" }
    } else {
        Turn::Say(PLAN_EXIT_MARKER)
    }
}

/// The scene of the plan that is left.
pub fn plan_exit_scenario_response(body: &str, tool_results: usize) -> (r: Vec<MockChunk>)
    ensures
        chunks_say(r@) == turn_chunks(plan_exit_turn(body@, tool_results as nat)),
{
    let t: Turn = if tool_results == 0 {
        Turn::Call { id: "call_pe_1", name: "ExitPlanMode", arguments: "{\"plan\":\"第一步：创建 plan_exit.txt 验证执行\"}" }
    } else if tool_results == 1 && has_sub(chars_of(body).as_slice(), "已切换到") {
        Turn::Call { id: "call_pe_2", name: "Write", arguments: "{\"content\":\"executed\\n\",\"path\":\"plan_exit.txt\"}" }
    } else {
        Turn::Say(PLAN_EXIT_MARKER)
    };
    play(t)
}

/// Whether a message holds a call of the tool.
pub open spec fn calls_tool(message: JsonV, name: Seq<char>) -> bool {
    match items_at(message, "tool_calls"@) {
        Some(calls) => exists|k: int|
            0 <= k < calls.len() && text_at(#[trigger] at(calls[k], "function"@), "name"@) == Some(
                name,
            ),
        None => false,
    }
}

/// Whether a message of the request holds a call of the tool.
pub open spec fn has_called(request: JsonV, name: Seq<char>) -> bool {
    match items_at(request, "messages"@) {
        Some(messages) => exists|i: int|
            0 <= i < messages.len() && #[trigger] calls_tool(messages[i], name),
        None => false,
    }
}

/// Whether the request that a text writes holds a call of the tool.
pub open spec fn written_call(body: Seq<char>, name: Seq<char>) -> bool {
    match json_text(body) {
        Some(request) => has_called(request, name),
        None => false,
    }
}

fn message_calls(message: &Json, name: &str) -> (r: bool)
    ensures
        r == calls_tool(message.says(), name@),
{
    let calls = match message.arr_at("tool_calls") {
        Some(calls) => calls,
        None => return false,
    };
    let ghost said = says_all(calls@);
    for k in 0..calls.len()
        invariant
            said == says_all(calls@),
            items_at(message.says(), "tool_calls"@) == Some(said),
            forall|j: int|
                0 <= j < k ==> text_at(#[trigger] at(said[j], "function"@), "name"@) != Some(name@),
    {
        let f = down(Some(&calls[k]), "function");
        let n = str_in(f, "name");
        proof {
            assert(said[k as int] == calls@[k as int].says());
            assert(crate::json::said(f) == at(said[k as int], "function"@));
        }
        match n {
            Some(n) => {
                if str_eq(n.as_str(), name) {
                    return true;
                }
            },
            None => {},
        }
    }
    false
}

proof fn lemma_called(request: JsonV, name: Seq<char>, messages: Seq<JsonV>, i: int)
    requires
        items_at(request, "messages"@) == Some(messages),
        0 <= i < messages.len(),
        calls_tool(messages[i], name),
    ensures
        has_called(request, name),
{
    let held = items_at(request, "messages"@)->0;
    assert(calls_tool(held[i], name));
}

/// Looks for a call of the tool among the messages of a request.
fn request_calls(body: &str, name: &str) -> (r: bool)
    ensures
        r == written_call(body@, name@),
{
    let request = match parse_json(body) {
        Some(v) => v,
        None => return false,
    };
    let messages = match request.arr_at("messages") {
        Some(v) => v,
        None => return false,
    };
    let ghost said = says_all(messages@);
    for i in 0..messages.len()
        invariant
            said == says_all(messages@),
            json_text(body@) == Some(request.says()),
            items_at(request.says(), "messages"@) == Some(said),
            forall|j: int| 0 <= j < i ==> !#[trigger] calls_tool(said[j], name@),
    {
        proof {
            assert(said[i as int] == messages@[i as int].says());
        }
        if message_calls(&messages[i], name) {
            proof {
                lemma_called(request.says(), name@, said, i as int);
            }
            return true;
        }
    }
    false
}

/// The scene of the to-do list. It goes by the calls in the request.
pub open spec fn todo_turn(called: bool) -> Turn {
    if called {
        Turn::Say(TODO_SCENARIO_MARKER)
    } else {
        Turn::Call { id: "call_todo_1", name: "TodoList", arguments: "{\"todos\":[{\"content\":\"持久化待办项一\",\"status\":\"done\"},{\"content\":\"持久化待办项二\",\"status\":\"in_progress\"}]}" }
    }
}

/// The scene of the to-do list.
pub fn todo_scenario_response(body: &str) -> (r: Vec<MockChunk>)
    ensures
        chunks_say(r@) == turn_chunks(todo_turn(written_call(body@, "TodoList"@))),
{
    let t: Turn = if request_calls(body, "TodoList") {
        Turn::Say(TODO_SCENARIO_MARKER)
    } else {
        Turn::Call { id: "call_todo_1", name: "TodoList", arguments: "{\"todos\":[{\"content\":\"持久化待办项一\",\"status\":\"done\"},{\"content\":\"持久化待办项二\",\"status\":\"in_progress\"}]}" }
    };
    play(t)
}

/// What the scene of the question asks: one question with two options.
pub const QUESTIONS: &'static str = "{\"questions\":[{\"header\":\"方案\",\"options\":[{\"description\":\"简单直接\",\"label\":\"方案 A\"},{\"description\":\"更完善但复杂\",\"label\":\"方案 B\"}],\"question\":\"选择实现方案\"}]}";

/// The scene of the question. It goes by the calls in the request.
pub open spec fn question_turn(called: bool) -> Turn {
    if called {
        Turn::Say(MOCK_Q_MARKER)
    } else {
        Turn::Call { id: "call_q_1", name: "AskUserQuestion", arguments: QUESTIONS }
    }
}

/// The scene of the question.
pub fn question_scenario_response(body: &str) -> (r: Vec<MockChunk>)
    ensures
        chunks_say(r@) == turn_chunks(question_turn(written_call(body@, "AskUserQuestion"@))),
{
    let t: Turn = if request_calls(body, "AskUserQuestion") {
        Turn::Say(MOCK_Q_MARKER)
    } else {
        Turn::Call { id: "call_q_1", name: "AskUserQuestion", arguments: QUESTIONS }
    };
    play(t)
}

/// The arguments of the three calls that the scene of the written file makes.
pub open spec fn b_write(file: Seq<char>) -> Seq<char> {
    "{\"content\":\"hello\\nline2\\nline3\\n\",\"path\":"@ + json_string(file) + "}"@
}

pub open spec fn b_edit(file: Seq<char>) -> Seq<char> {
    "{\"new_string\":\"LINE2\",\"old_string\":\"line2\",\"path\":"@ + json_string(file) + "}"@
}

pub const B_BASH: &'static str = "{\"command\":\"printf '%s\\\\n' MOCK_BASH_OK\"}";

/// What the scene of the written file ends with.
pub open spec fn b_answer() -> Seq<char> {
    "已完成：创建 `"@ + SCENARIO_B_FILE@ + "`、修改一行、执行 echo。\n\n**结果**: "@ + SCENARIO_B_MARKER@
        + "\n"@
}

/// The scene of the written file.
pub open spec fn scenario_b_chunks(tool_results: nat, file: Seq<char>) -> Seq<ChunkV> {
    if tool_results == 0 {
        call_chunks("call_b_write"@, "Write"@, b_write(file), None)
    } else if tool_results == 1 {
        call_chunks("call_b_edit"@, "Edit"@, b_edit(file), None)
    } else if tool_results == 2 {
        call_chunks("call_b_bash"@, "Bash"@, B_BASH@, None)
    } else {
        told("content"@, b_answer(), 9).push(stop_chunk(Some(usage_says(100, 42, 142))))
    }
}

/// The scene of the written file.
pub fn scenario_b_response(tool_results: usize, file: &str) -> (r: Vec<MockChunk>)
    ensures
        chunks_say(r@) == scenario_b_chunks(tool_results as nat, file@),
{
    if tool_results == 0 {
        let arguments = cat3(
            "{\"content\":\"hello\\nline2\\nline3\\n\",\"path\":",
            quoted(file).as_str(),
            "}",
        );
        tool_call_chunks("call_b_write", "Write", arguments.as_str(), None)
    } else if tool_results == 1 {
        let arguments = cat3(
            "{\"new_string\":\"LINE2\",\"old_string\":\"line2\",\"path\":",
            quoted(file).as_str(),
            "}",
        );
        tool_call_chunks("call_b_edit", "Edit", arguments.as_str(), None)
    } else if tool_results == 2 {
        tool_call_chunks("call_b_bash", "Bash", B_BASH, None)
    } else {
        let text = cat5(
            "已完成：创建 `",
            SCENARIO_B_FILE,
            "`、修改一行、执行 echo。\n\n**结果**: ",
            SCENARIO_B_MARKER,
            "\n",
        );
        let mut out = no_chunks();
        tell(&mut out, "content", text.as_str(), 9);
        add_chunk(&mut out, stop_piece(Some(usage_json(100, 42, 142))));
        proof {
            assert(chunks_say(out@) =~= scenario_b_chunks(tool_results as nat, file@));
        }
        out
    }
}

/// The plan that the scene of the plan tells.
pub open spec fn plan_text() -> Seq<char> {
    "## 执行计划\n\n1. 创建 `src/hello.txt` 写入三行内容\n2. 将第二行改为大写\n3. 运行 echo 验证\n\n**计划就绪**: "@
        + PLAN_MARKER@ + "\n"@
}

/// The scene of the plan.
pub fn scenario_c_response() -> (r: Vec<MockChunk>)
    ensures
        chunks_say(r@) == told("content"@, plan_text(), 9).push(stop_chunk(None)),
{
    let plan = cat3(
        "## 执行计划\n\n1. 创建 `src/hello.txt` 写入三行内容\n2. 将第二行改为大写\n3. 运行 echo 验证\n\n**计划就绪**: ",
        PLAN_MARKER,
        "\n",
    );
    let mut out = no_chunks();
    tell(&mut out, "content", plan.as_str(), 9);
    add_chunk(&mut out, stop_piece(None));
    proof {
        assert(chunks_say(out@) =~= told("content"@, plan_text(), 9).push(stop_chunk(None)));
    }
    out
}

/// The arguments with which the known file is read.
pub open spec fn read_arguments() -> Seq<char> {
    "{\"path\": \""@ + MOCK_FILE_NAME@ + "\"}"@
}

/// The first answer outside every scene: some thoughts, and the known file is
/// read.
pub open spec fn first_chunks() -> Seq<ChunkV> {
    told("reasoning_content"@, MOCK_REASONING@, 6) + call_chunks(
        "call_mock_1"@,
        "Read"@,
        read_arguments(),
        Some(usage_says(60, 10, 70)),
    )
}

/// Adds pieces behind others.
fn add_chunks(out: &mut Vec<MockChunk>, more: Vec<MockChunk>)
    ensures
        chunks_say(final(out)@) == chunks_say(old(out)@) + chunks_say(more@),
{
    let ghost before = chunks_say(out@);
    let mut more = more;
    let ghost added = more@;
    out.append(&mut more);
    proof {
        assert(chunks_say(out@) =~= before + chunks_say(added));
    }
}

/// The first answer outside every scene.
pub fn tool_call_response() -> (r: Vec<MockChunk>)
    ensures
        chunks_say(r@) == first_chunks(),
{
    let mut out = no_chunks();
    tell(&mut out, "reasoning_content", MOCK_REASONING, 6);
    let arguments = cat3("{\"path\": \"", MOCK_FILE_NAME, "\"}");
    let call = tool_call_chunks(
        "call_mock_1",
        "Read",
        arguments.as_str(),
        Some(usage_json(60, 10, 70)),
    );
    add_chunks(&mut out, call);
    proof {
        assert(chunks_say(out@) =~= first_chunks());
    }
    out
}

/// The summary of the known file.
pub open spec fn file_summary() -> Seq<char> {
    "## 文件摘要\n\n`"@ + MOCK_FILE_NAME@
        + "` 的内容如下：\n\n```text\n这是 pig-core mock provider 自测用的已知文件。\n```\n\n**结论**: "@
        + MOCK_REPLY_MARKER@ + "\n"@
}

fn summary_text() -> (r: String)
    ensures
        r@ == file_summary(),
{
    cat5(
        "## 文件摘要\n\n`",
        MOCK_FILE_NAME,
        "` 的内容如下：\n\n```text\n这是 pig-core mock provider 自测用的已知文件。\n```\n\n**结论**: ",
        MOCK_REPLY_MARKER,
        "\n",
    )
}

/// The last answer outside every scene: the summary of the known file.
pub open spec fn last_chunks() -> Seq<ChunkV> {
    (seq![said_chunk("reasoning_content"@, "工具已返回文件内容，组织回答。"@)] + told(
        "content"@,
        file_summary(),
        9,
    )).push(stop_chunk(Some(usage_says(100, 42, 142))))
}

/// The last answer outside every scene.
pub fn text_response() -> (r: Vec<MockChunk>)
    ensures
        chunks_say(r@) == last_chunks(),
{
    let mut out = no_chunks();
    add_chunk(
        &mut out,
        sse_chunk(
            pair_json("reasoning_content", "工具已返回文件内容，组织回答。"),
            None,
            None,
        ),
    );
    tell(&mut out, "content", summary_text().as_str(), 9);
    add_chunk(&mut out, stop_piece(Some(usage_json(100, 42, 142))));
    proof {
        assert(chunks_say(out@) =~= last_chunks());
    }
    out
}

// ---------------------------------------------------------------------------
// Echoes of the request
// ---------------------------------------------------------------------------

/// How many messages a request holds.
pub open spec fn message_count(body: Seq<char>) -> nat {
    match json_text(body) {
        Some(v) => match items_at(v, "messages"@) {
            Some(messages) => messages.len(),
            None => 0,
        },
        None => 0,
    }
}

/// The answer to a text: the text and the end.
pub open spec fn plain_answer(text: Seq<char>) -> Seq<ChunkV> {
    seq![said_chunk("content"@, text), stop_chunk(None)]
}

/// Answers how many messages the request holds.
pub fn echo_history_response(body: &str) -> (r: Vec<MockChunk>)
    ensures
        chunks_say(r@) == plain_answer("HISTORY_COUNT:"@ + decimal(message_count(body@))),
{
    let mut count: usize = 0;
    if let Some(v) = parse_json(body) {
        if let Some(messages) = v.arr_at("messages") {
            count = messages.len();
        }
    }
    let text = cat("HISTORY_COUNT:", number_text(count as u64).as_str());
    let mut out = no_chunks();
    add_chunk(&mut out, sse_chunk(pair_json("content", text.as_str()), None, None));
    add_chunk(&mut out, stop_piece(None));
    proof {
        assert(chunks_say(out@) =~= plain_answer("HISTORY_COUNT:"@ + decimal(message_count(body@))));
    }
    out
}

/// The first of the messages at or after `i` that the system speaks.
pub open spec fn system_from(messages: Seq<JsonV>, i: int) -> Option<JsonV>
    decreases messages.len() - i,
{
    if i < 0 || i >= messages.len() {
        None
    } else if text_at(messages[i], "role"@) == Some("system"@) {
        Some(messages[i])
    } else {
        system_from(messages, i + 1)
    }
}

/// The text of the system's message.
pub open spec fn system_text(body: Seq<char>) -> Seq<char> {
    let none = "(no system message)"@;
    match json_text(body) {
        Some(v) => match items_at(v, "messages"@) {
            Some(messages) => match system_from(messages, 0) {
                Some(m) => match text_at(m, "content"@) {
                    Some(t) => t,
                    None => none,
                },
                None => none,
            },
            None => none,
        },
        None => none,
    }
}

fn system_of(body: &str) -> (r: String)
    ensures
        r@ == system_text(body@),
{
    let v = match parse_json(body) {
        Some(v) => v,
        None => return text_from("(no system message)"),
    };
    let messages = match v.arr_at("messages") {
        Some(messages) => messages,
        None => return text_from("(no system message)"),
    };
    let ghost said = says_all(messages@);
    for i in 0..messages.len()
        invariant
            said == says_all(messages@),
            json_text(body@) == Some(v.says()),
            items_at(v.says(), "messages"@) == Some(said),
            system_from(said, 0) == system_from(said, i as int),
    {
        proof {
            assert(said[i as int] == messages@[i as int].says());
        }
        let role = messages[i].str_at("role");
        let system = match role {
            Some(role) => str_eq(role.as_str(), "system"),
            None => false,
        };
        if system {
            return match messages[i].str_at("content") {
                Some(t) => t,
                None => text_from("(no system message)"),
            };
        }
    }
    text_from("(no system message)")
}

/// The pieces that answer with the first characters of the system's message.
pub open spec fn echo_system_chunks(body: Seq<char>) -> Seq<ChunkV> {
    told("content"@, prefix(system_text(body), 3000), 40).push(stop_chunk(None))
}

/// Answers with the first characters of the system's message.
pub fn echo_system_response(body: &str) -> (r: Vec<MockChunk>)
    ensures
        chunks_say(r@) == echo_system_chunks(body@),
{
    let system = chars_of(system_of(body).as_str());
    let text = string_of(first_chars(system.as_slice(), 3000));
    let mut out = no_chunks();
    tell(&mut out, "content", text.as_str(), 40);
    add_chunk(&mut out, stop_piece(None));
    proof {
        assert(chunks_say(out@) =~= echo_system_chunks(body@));
    }
    out
}

/// The text from its first digit on.
pub open spec fn from_digit(s: Seq<char>) -> Seq<char>
    decreases s.len(),
{
    if s.len() == 0 || is_digit(s[0]) {
        s
    } else {
        from_digit(s.skip(1))
    }
}

/// The digits that a text begins with.
pub open spec fn leading_digits(s: Seq<char>) -> Seq<char>
    decreases s.len(),
{
    if s.len() == 0 || !is_digit(s[0]) {
        Seq::empty()
    } else {
        seq![s[0]] + leading_digits(s.skip(1))
    }
}

/// The number that a request asks to be told it took: the first one behind
/// the word that asks for it; zero where there is none.
pub open spec fn asked_usage(body: Seq<char>) -> nat {
    let rest = match find_sub(body, "ECHO_USAGE"@) {
        Some(k) => body.skip(k + "ECHO_USAGE"@.len()),
        None => body,
    };
    match parse_number(leading_digits(from_digit(rest)), u64::MAX as nat) {
        Some(n) => n,
        None => 0,
    }
}

proof fn lemma_leading(s: Seq<char>, n: int)
    requires
        0 <= n <= s.len(),
        forall|i: int| 0 <= i < n ==> is_digit(#[trigger] s[i]),
        n < s.len() ==> !is_digit(s[n]),
    ensures
        leading_digits(s) == s.take(n),
    decreases n,
{
    if n == 0 {
        assert(s.take(0) =~= Seq::<char>::empty());
    } else {
        assert forall|i: int| 0 <= i < n - 1 implies is_digit(#[trigger] s.skip(1)[i]) by {
            assert(s.skip(1)[i] == s[i + 1]);
        }
        lemma_leading(s.skip(1), n - 1);
        assert(s.take(n) =~= seq![s[0]] + s.skip(1).take(n - 1));
    }
}

fn usage_asked(body: &str) -> (r: u64)
    ensures
        r == asked_usage(body@),
{
    let s = chars_of(body);
    let word = chars_of("ECHO_USAGE");
    let total: usize = s.len();
    let mut rest: &[char] = s.as_slice();
    if let Some(k) = position_sub(s.as_slice(), "ECHO_USAGE") {
        proof {
            assert(k + word@.len() <= total);
        }
        rest = slice_subrange(rest, k + word.len(), rest.len());
        proof {
            assert(rest@ =~= body@.skip(k + "ECHO_USAGE"@.len()));
        }
    }
    let ghost start = rest@;
    while rest.len() > 0 && !digit(rest[0])
        invariant
            from_digit(rest@) == from_digit(start),
        decreases rest.len(),
    {
        let ghost whole = rest@;
        rest = slice_subrange(rest, 1, rest.len());
        proof {
            assert(rest@ =~= whole.skip(1));
        }
    }
    let mut n: usize = 0;
    while n < rest.len() && digit(rest[n])
        invariant
            n <= rest@.len(),
            forall|i: int| 0 <= i < n ==> is_digit(#[trigger] rest@[i]),
        decreases rest.len() - n,
    {
        n = n + 1;
    }
    let number = slice_subrange(rest, 0, n);
    proof {
        lemma_leading(rest@, n as int);
        assert(number@ =~= rest@.take(n as int));
    }
    match number_of(number, u64::MAX) {
        Some(v) => v,
        None => 0,
    }
}

/// The pieces that tell the usage that was asked for.
pub open spec fn echo_usage_chunks(total: u64) -> Seq<ChunkV> {
    seq![said_chunk("content"@, "usage noted"@), stop_chunk(Some(usage_says(10, 5, total)))]
}

/// Tells the usage that the request asks for.
pub fn echo_usage_response(body: &str) -> (r: Vec<MockChunk>)
    ensures
        chunks_say(r@) == echo_usage_chunks(asked_usage(body@) as u64),
{
    let total = usage_asked(body);
    let mut out = no_chunks();
    add_chunk(&mut out, sse_chunk(pair_json("content", "usage noted"), None, None));
    add_chunk(&mut out, stop_piece(Some(usage_json(10, 5, total))));
    proof {
        assert(chunks_say(out@) =~= echo_usage_chunks(total));
    }
    out
}

// ---------------------------------------------------------------------------
// The messages format
// ---------------------------------------------------------------------------

/// An event of a streamed message; its data begins with its own name.
pub open spec fn event_says(name: Seq<char>, more: Seq<(Seq<char>, JsonV)>) -> ChunkV {
    ChunkV { event: Some(name), data: JsonV::Obj(more.push(("type"@, JsonV::Str(name)))) }
}

fn a_sse(name: &str, more: Vec<(String, Json)>) -> (r: MockChunk)
    ensures
        r.says() == event_says(name@, says_members(more@)),
{
    let mut m = more;
    put(&mut m, "type", jstr(name));
    MockChunk { event: Some(text_from(name)), data: jobj(m) }
}

/// A message begins.
pub open spec fn start_says() -> ChunkV {
    event_says(
        "message_start"@,
        ms().push(
            (
                "message"@,
                JsonV::Obj(
                    ms().push(
                        ("usage"@, JsonV::Obj(ms().push(("input_tokens"@, num_says(100))))),
                    ),
                ),
            ),
        ),
    )
}

fn start_piece() -> (r: MockChunk)
    ensures
        r.says() == start_says(),
{
    let mut u = no_members();
    put(&mut u, "input_tokens", jnum(100));
    let mut m = no_members();
    put(&mut m, "usage", jobj(u));
    let mut e = no_members();
    put(&mut e, "message", jobj(m));
    a_sse("message_start", e)
}

/// A block of a message begins.
pub open spec fn block_start_says(index: u64, content: JsonV) -> ChunkV {
    event_says(
        "content_block_start"@,
        ms().push(("content_block"@, content)).push(("index"@, num_says(index))),
    )
}

fn block_start(index: u64, content: Json) -> (r: MockChunk)
    ensures
        r.says() == block_start_says(index, content.says()),
{
    let mut e = no_members();
    put(&mut e, "content_block", content);
    put(&mut e, "index", jnum(index));
    a_sse("content_block_start", e)
}

/// Text is added, under `key`, to a block of a message.
pub open spec fn block_delta_says(
    index: u64,
    kind: Seq<char>,
    key: Seq<char>,
    text: Seq<char>,
) -> ChunkV {
    event_says(
        "content_block_delta"@,
        ms().push(
            (
                "delta"@,
                JsonV::Obj(
                    ms().push((key, JsonV::Str(text))).push(("type"@, JsonV::Str(kind))),
                ),
            ),
        ).push(("index"@, num_says(index))),
    )
}

fn block_delta(index: u64, kind: &str, key: &str, text: &str) -> (r: MockChunk)
    ensures
        r.says() == block_delta_says(index, kind@, key@, text@),
{
    let mut d = no_members();
    put(&mut d, key, jstr(text));
    put(&mut d, "type", jstr(kind));
    let mut e = no_members();
    put(&mut e, "delta", jobj(d));
    put(&mut e, "index", jnum(index));
    a_sse("content_block_delta", e)
}

/// A block of a message ends.
pub open spec fn block_stop_says(index: u64) -> ChunkV {
    event_says("content_block_stop"@, ms().push(("index"@, num_says(index))))
}

fn block_stop(index: u64) -> (r: MockChunk)
    ensures
        r.says() == block_stop_says(index),
{
    let mut e = no_members();
    put(&mut e, "index", jnum(index));
    a_sse("content_block_stop", e)
}

/// A message ends.
pub open spec fn message_delta_says(stop_reason: Seq<char>, output: u64) -> ChunkV {
    event_says(
        "message_delta"@,
        ms().push(("delta"@, pair_says("stop_reason"@, stop_reason))).push(
            ("usage"@, JsonV::Obj(ms().push(("output_tokens"@, num_says(output))))),
        ),
    )
}

fn message_delta(stop_reason: &str, output: u64) -> (r: MockChunk)
    ensures
        r.says() == message_delta_says(stop_reason@, output),
{
    let mut u = no_members();
    put(&mut u, "output_tokens", jnum(output));
    let mut e = no_members();
    put(&mut e, "delta", pair_json("stop_reason", stop_reason));
    put(&mut e, "usage", jobj(u));
    a_sse("message_delta", e)
}

/// The block that calls a tool. The arguments come in two halves.
pub open spec fn use_chunks(
    index: u64,
    id: Seq<char>,
    name: Seq<char>,
    arguments: Seq<char>,
) -> Seq<ChunkV> {
    let content = JsonV::Obj(
        ms().push(("id"@, JsonV::Str(id))).push(("name"@, JsonV::Str(name))).push(
            ("type"@, JsonV::Str("tool_use"@)),
        ),
    );
    seq![
        block_start_says(index, content),
        block_delta_says(index, "input_json_delta"@, "partial_json"@, halves(arguments).0),
        block_delta_says(index, "input_json_delta"@, "partial_json"@, halves(arguments).1),
        block_stop_says(index),
    ]
}

/// Adds the block that calls a tool.
pub fn anthropic_tool_call(
    out: &mut Vec<MockChunk>,
    index: u64,
    id: &str,
    name: &str,
    arguments: &str,
)
    ensures
        chunks_say(final(out)@) == chunks_say(old(out)@) + use_chunks(
            index,
            id@,
            name@,
            arguments@,
        ),
{
    let ghost before = chunks_say(out@);
    let (a, b) = halves_of(arguments);
    let mut c = no_members();
    put(&mut c, "id", jstr(id));
    put(&mut c, "name", jstr(name));
    put(&mut c, "type", jstr("tool_use"));
    add_chunk(out, block_start(index, jobj(c)));
    add_chunk(out, block_delta(index, "input_json_delta", "partial_json", a.as_str()));
    add_chunk(out, block_delta(index, "input_json_delta", "partial_json", b.as_str()));
    add_chunk(out, block_stop(index));
    proof {
        assert(chunks_say(out@) =~= before + use_chunks(index, id@, name@, arguments@));
    }
}

/// The block that tells a text in runs of `n` characters.
pub open spec fn block_chunks(
    index: u64,
    kind: Seq<char>,
    delta: Seq<char>,
    key: Seq<char>,
    texts: Seq<Seq<char>>,
) -> Seq<ChunkV> {
    (seq![block_start_says(index, pair_says("type"@, kind))] + texts.map_values(
        |t: Seq<char>| block_delta_says(index, delta, key, t),
    )).push(block_stop_says(index))
}

fn tell_block(
    out: &mut Vec<MockChunk>,
    index: u64,
    kind: &str,
    delta: &str,
    key: &str,
    texts: &[Vec<char>],
)
    ensures
        chunks_say(final(out)@) == chunks_say(old(out)@) + block_chunks(
            index,
            kind@,
            delta@,
            key@,
            rows(texts@),
        ),
{
    let ghost before = chunks_say(out@);
    let ghost all = rows(texts@).map_values(
        |t: Seq<char>| block_delta_says(index, delta@, key@, t),
    );
    add_chunk(out, block_start(index, pair_json("type", kind)));
    let ghost begun = chunks_say(out@);
    proof {
        assert(begun + all.take(0) =~= begun);
    }
    for i in 0..texts.len()
        invariant
            all == rows(texts@).map_values(
                |t: Seq<char>| block_delta_says(index, delta@, key@, t),
            ),
            chunks_say(out@) == begun + all.take(i as int),
    {
        let t = string_of(texts[i].as_slice());
        proof {
            assert(rows(texts@)[i as int] == texts@[i as int]@);
        }
        add_chunk(out, block_delta(index, delta, key, t.as_str()));
        proof {
            assert(begun + all.take(i + 1) =~= (begun + all.take(i as int)).push(all[i as int]));
        }
    }
    add_chunk(out, block_stop(index));
    proof {
        assert(all.take(all.len() as int) =~= all);
        assert(rows(texts@).len() == texts@.len());
        assert(chunks_say(out@) =~= before + block_chunks(
            index,
            kind@,
            delta@,
            key@,
            rows(texts@),
        ));
    }
}

/// The block that says a text at once.
pub open spec fn word_chunks(text: Seq<char>) -> Seq<ChunkV> {
    block_chunks(0, "text"@, "text_delta"@, "text"@, seq![text])
}

fn say_word(out: &mut Vec<MockChunk>, text: &str)
    ensures
        chunks_say(final(out)@) == chunks_say(old(out)@) + word_chunks(text@),
{
    let mut v: Vec<Vec<char>> = Vec::new();
    v.push(chars_of(text));
    proof {
        assert(rows(v@) =~= seq![text@]);
    }
    tell_block(out, 0, "text", "text_delta", "text", v.as_slice());
}

/// The scene of the written file as a message.
pub open spec fn anthropic_b_chunks(tool_results: nat) -> Seq<ChunkV> {
    let played = if tool_results == 0 {
        use_chunks(0, "call_b_write"@, "Write"@, b_write(SCENARIO_B_FILE@))
    } else if tool_results == 1 {
        use_chunks(0, "call_b_edit"@, "Edit"@, b_edit(SCENARIO_B_FILE@))
    } else if tool_results == 2 {
        use_chunks(0, "call_b_bash"@, "Bash"@, B_BASH@)
    } else {
        word_chunks("场景B完成。**结果**: "@ + SCENARIO_B_MARKER@ + "\n"@)
    };
    let reason = if tool_results >= 3 {
        "end_turn"@
    } else {
        "tool_use"@
    };
    (seq![start_says()] + played).push(message_delta_says(reason, 42))
}

/// The scene of the written file as a message.
pub fn anthropic_scenario_b(tool_results: usize) -> (r: Vec<MockChunk>)
    ensures
        chunks_say(r@) == anthropic_b_chunks(tool_results as nat),
{
    let mut out = no_chunks();
    add_chunk(&mut out, start_piece());
    if tool_results == 0 {
        let arguments = cat3(
            "{\"content\":\"hello\\nline2\\nline3\\n\",\"path\":",
            quoted(SCENARIO_B_FILE).as_str(),
            "}",
        );
        anthropic_tool_call(&mut out, 0, "call_b_write", "Write", arguments.as_str());
    } else if tool_results == 1 {
        let arguments = cat3(
            "{\"new_string\":\"LINE2\",\"old_string\":\"line2\",\"path\":",
            quoted(SCENARIO_B_FILE).as_str(),
            "}",
        );
        anthropic_tool_call(&mut out, 0, "call_b_edit", "Edit", arguments.as_str());
    } else if tool_results == 2 {
        anthropic_tool_call(&mut out, 0, "call_b_bash", "Bash", B_BASH);
    } else {
        say_word(&mut out, cat3("场景B完成。**结果**: ", SCENARIO_B_MARKER, "\n").as_str());
    }
    let reason = if tool_results >= 3 {
        "end_turn"
    } else {
        "tool_use"
    };
    add_chunk(&mut out, message_delta(reason, 42));
    proof {
        assert(chunks_say(out@) =~= anthropic_b_chunks(tool_results as nat));
    }
    out
}

/// The scene of the question as a message.
pub open spec fn anthropic_question_chunks(tool_results: nat) -> Seq<ChunkV> {
    if tool_results == 0 {
        (seq![start_says()] + use_chunks(0, "call_q_1"@, "AskUserQuestion"@, QUESTIONS@)).push(
            message_delta_says("tool_use"@, 20),
        )
    } else {
        (seq![start_says()] + word_chunks(MOCK_Q_MARKER@)).push(message_delta_says("end_turn"@, 20))
    }
}

/// The scene of the question as a message.
pub fn anthropic_question_scenario(tool_results: usize) -> (r: Vec<MockChunk>)
    ensures
        chunks_say(r@) == anthropic_question_chunks(tool_results as nat),
{
    let mut out = no_chunks();
    add_chunk(&mut out, start_piece());
    if tool_results == 0 {
        anthropic_tool_call(&mut out, 0, "call_q_1", "AskUserQuestion", QUESTIONS);
        add_chunk(&mut out, message_delta("tool_use", 20));
    } else {
        say_word(&mut out, MOCK_Q_MARKER);
        add_chunk(&mut out, message_delta("end_turn", 20));
    }
    proof {
        assert(chunks_say(out@) =~= anthropic_question_chunks(tool_results as nat));
    }
    out
}

/// The answers outside every scene as messages: some thoughts, and then the
/// known file is read or its summary is told.
pub open spec fn anthropic_plain_chunks(tool_results: nat) -> Seq<ChunkV> {
    let thoughts = seq![start_says()] + block_chunks(
        0,
        "thinking"@,
        "thinking_delta"@,
        "thinking"@,
        runs(MOCK_REASONING@, 8),
    );
    if tool_results == 0 {
        (thoughts + use_chunks(1, "call_mock_1"@, "Read"@, read_arguments())).push(
            message_delta_says("tool_use"@, 20),
        )
    } else {
        (thoughts + block_chunks(
            1,
            "text"@,
            "text_delta"@,
            "text"@,
            runs(file_summary(), 9),
        )).push(message_delta_says("end_turn"@, 42))
    }
}

/// The answer to a request in the messages format.
pub open spec fn anthropic_answer(body: Seq<char>, tool_results: nat) -> Seq<ChunkV> {
    if contains(body, SCENARIO_B_TRIGGER@) {
        anthropic_b_chunks(tool_results)
    } else if contains(body, SCENARIO_Q_TRIGGER@) {
        anthropic_question_chunks(tool_results)
    } else {
        anthropic_plain_chunks(tool_results)
    }
}

/// Answers a request in the messages format.
pub fn anthropic_chunks(body: &str, tool_results: usize) -> (r: Vec<MockChunk>)
    ensures
        chunks_say(r@) == anthropic_answer(body@, tool_results as nat),
{
    let text = chars_of(body);
    if has_sub(text.as_slice(), SCENARIO_B_TRIGGER) {
        return anthropic_scenario_b(tool_results);
    }
    if has_sub(text.as_slice(), SCENARIO_Q_TRIGGER) {
        return anthropic_question_scenario(tool_results);
    }
    let mut out = no_chunks();
    add_chunk(&mut out, start_piece());
    let thoughts = runs_of(chars_of(MOCK_REASONING).as_slice(), 8);
    tell_block(&mut out, 0, "thinking", "thinking_delta", "thinking", thoughts.as_slice());
    if tool_results == 0 {
        let arguments = cat3("{\"path\": \"", MOCK_FILE_NAME, "\"}");
        anthropic_tool_call(&mut out, 1, "call_mock_1", "Read", arguments.as_str());
        add_chunk(&mut out, message_delta("tool_use", 20));
    } else {
        let parts = runs_of(chars_of(summary_text().as_str()).as_slice(), 9);
        tell_block(&mut out, 1, "text", "text_delta", "text", parts.as_slice());
        add_chunk(&mut out, message_delta("end_turn", 42));
    }
    proof {
        assert(chunks_say(out@) =~= anthropic_plain_chunks(tool_results as nat));
    }
    out
}

// ---------------------------------------------------------------------------
// Answers that are not streamed
// ---------------------------------------------------------------------------

/// A whole answer in one of the two wire formats.
pub open spec fn whole_answer(anthropic: bool, content: Seq<char>, sent: u64, got: u64, total: u64) -> JsonV {
    if anthropic {
        JsonV::Obj(
            ms().push(
                (
                    "content"@,
                    one(
                        JsonV::Obj(
                            ms().push(("text"@, JsonV::Str(content))).push(
                                ("type"@, JsonV::Str("text"@)),
                            ),
                        ),
                    ),
                ),
            ).push(("id"@, JsonV::Str("msg-mock"@))).push(("model"@, JsonV::Str("mock-model"@))).push(
                ("role"@, JsonV::Str("assistant"@)),
            ).push(("stop_reason"@, JsonV::Str("end_turn"@))).push(
                ("type"@, JsonV::Str("message"@)),
            ).push(
                (
                    "usage"@,
                    JsonV::Obj(
                        ms().push(("input_tokens"@, num_says(sent))).push(
                            ("output_tokens"@, num_says(got)),
                        ),
                    ),
                ),
            ),
        )
    } else {
        let message = JsonV::Obj(
            ms().push(("content"@, JsonV::Str(content))).push(
                ("role"@, JsonV::Str("assistant"@)),
            ),
        );
        let choice = JsonV::Obj(
            ms().push(("finish_reason"@, JsonV::Str("stop"@))).push(("index"@, num_says(0))).push(
                ("message"@, message),
            ),
        );
        JsonV::Obj(
            ms().push(("choices"@, one(choice))).push(("created"@, num_says(0))).push(
                ("id"@, JsonV::Str("chatcmpl-mock"@)),
            ).push(("model"@, JsonV::Str("mock-model"@))).push(
                ("object"@, JsonV::Str("chat.completion"@)),
            ).push(("usage"@, usage_says(sent, got, total))),
        )
    }
}

fn whole_json(anthropic: bool, content: &str, sent: u64, got: u64, total: u64) -> (r: Json)
    ensures
        r.says() == whole_answer(anthropic, content@, sent, got, total),
{
    if anthropic {
        let mut b = no_members();
        put(&mut b, "text", jstr(content));
        put(&mut b, "type", jstr("text"));
        let mut u = no_members();
        put(&mut u, "input_tokens", jnum(sent));
        put(&mut u, "output_tokens", jnum(got));
        let mut m = no_members();
        put(&mut m, "content", one_json(jobj(b)));
        put(&mut m, "id", jstr("msg-mock"));
        put(&mut m, "model", jstr("mock-model"));
        put(&mut m, "role", jstr("assistant"));
        put(&mut m, "stop_reason", jstr("end_turn"));
        put(&mut m, "type", jstr("message"));
        put(&mut m, "usage", jobj(u));
        jobj(m)
    } else {
        let mut a = no_members();
        put(&mut a, "content", jstr(content));
        put(&mut a, "role", jstr("assistant"));
        let mut c = no_members();
        put(&mut c, "finish_reason", jstr("stop"));
        put(&mut c, "index", jnum(0));
        put(&mut c, "message", jobj(a));
        let mut m = no_members();
        put(&mut m, "choices", one_json(jobj(c)));
        put(&mut m, "created", jnum(0));
        put(&mut m, "id", jstr("chatcmpl-mock"));
        put(&mut m, "model", jstr("mock-model"));
        put(&mut m, "object", jstr("chat.completion"));
        put(&mut m, "usage", usage_json(sent, got, total));
        jobj(m)
    }
}

/// The answer that names a session.
pub open spec fn title_answer(anthropic: bool) -> JsonV {
    whole_answer(anthropic, "{\"title\":\""@ + MOCK_TITLE@ + "\"}"@, 50, 10, 60)
}

/// Names a session.
pub fn title_response(anthropic: bool) -> (r: Json)
    ensures
        r.says() == title_answer(anthropic),
{
    whole_json(anthropic, cat3("{\"title\":\"", MOCK_TITLE, "\"}").as_str(), 50, 10, 60)
}

/// The answer that sums a session up; none where the request asks for a
/// failure.
pub open spec fn summary_answer(anthropic: bool, body: Seq<char>) -> Option<JsonV> {
    if contains(body, "FAIL_COMPACT"@) {
        None
    } else {
        Some(
            whole_answer(
                anthropic,
                SUMMARY_MARKER@ + "：用户目标=mock 自测；已完成=读取/写入文件；待办=无。"@,
                500,
                30,
                530,
            ),
        )
    }
}

/// Sums a session up.
pub fn summary_response(anthropic: bool, body: &str) -> (r: Option<Json>)
    ensures
        says_opt(r) == summary_answer(anthropic, body@),
{
    if has_sub(chars_of(body).as_slice(), "FAIL_COMPACT") {
        return None;
    }
    let content = cat(SUMMARY_MARKER, "：用户目标=mock 自测；已完成=读取/写入文件；待办=无。");
    Some(whole_json(anthropic, content.as_str(), 500, 30, 530))
}

// ---------------------------------------------------------------------------
// Requests
// ---------------------------------------------------------------------------

/// How far the head of a request has come.
#[derive(Debug, Clone, Copy, PartialEq, Eq)]
pub enum HeadStep {
    More,
    Complete,
    TooLong,
}

/// The most bytes that the head of a request may have before its end is seen.
pub const MAX_HEAD_BYTES: usize = 65536;

/// How far a head has come: it is complete at an empty line.
pub open spec fn head_step(head: Seq<u8>) -> HeadStep {
    let n = head.len();
    if n >= 4 && head.skip(n - 4) == seq![13u8, 10u8, 13u8, 10u8] {
        HeadStep::Complete
    } else if n > MAX_HEAD_BYTES {
        HeadStep::TooLong
    } else {
        HeadStep::More
    }
}

/// Takes the next byte of the head of a request.
pub fn take_head_byte(head: &mut Vec<u8>, byte: u8) -> (r: HeadStep)
    ensures
        final(head)@ == old(head)@.push(byte),
        r == head_step(final(head)@),
{
    head.push(byte);
    let n = head.len();
    if n >= 4 && head[n - 4] == 13 && head[n - 3] == 10 && head[n - 2] == 13 && head[n - 1] == 10 {
        proof {
            assert(head@.skip(n - 4) =~= seq![13u8, 10u8, 13u8, 10u8]);
        }
        return HeadStep::Complete;
    }
    proof {
        if n >= 4 {
            let tail = head@.skip(n - 4);
            assert(tail[0] == head@[n - 4] && tail[1] == head@[n - 3] && tail[2] == head@[n - 2]
                && tail[3] == head@[n - 1]);
            let end = seq![13u8, 10u8, 13u8, 10u8];
            assert(end[0] == 13 && end[1] == 10 && end[2] == 13 && end[3] == 10);
        }
    }
    if n > MAX_HEAD_BYTES {
        HeadStep::TooLong
    } else {
        HeadStep::More
    }
}

/// The path that a head asks for: the second word of its first line.
pub open spec fn asked_path(head: Seq<char>) -> Seq<char> {
    if lines(head).len() > 0 && words(lines(head)[0]).len() > 1 {
        words(lines(head)[0])[1]
    } else {
        "/"@
    }
}

/// The length that a line of a head gives for the body.
pub open spec fn length_in(line: Seq<char>) -> Option<nat> {
    let low = ascii_lower(line);
    if starts_with(low, "content-length: "@) {
        parse_number(trim(low.skip("content-length: "@.len() as int)), usize::MAX as nat)
    } else {
        None
    }
}

/// The length that the first line at or after `i` to give one gives; zero
/// where none does.
pub open spec fn length_from(all: Seq<Seq<char>>, i: int) -> nat
    decreases all.len() - i,
{
    if i < 0 || i >= all.len() {
        0
    } else {
        match length_in(all[i]) {
            Some(n) => n,
            None => length_from(all, i + 1),
        }
    }
}

fn line_length(line: &[char]) -> (r: Option<usize>)
    ensures
        match r {
            Some(n) => length_in(line@) == Some(n as nat),
            None => length_in(line@) is None,
        },
{
    let low = lowered(line);
    let word = chars_of("content-length: ");
    if !begins(low.as_slice(), "content-length: ") {
        return None;
    }
    let rest = slice_subrange(low.as_slice(), word.len(), low.len());
    proof {
        assert(rest@ =~= low@.skip("content-length: "@.len() as int));
    }
    match number_of(trimmed(rest), usize::MAX as u64) {
        Some(n) => Some(n as usize),
        None => None,
    }
}

/// Reads the head of a request: the path that it asks for and the length of
/// its body.
pub fn read_head(head: &[u8]) -> (r: (String, usize))
    ensures
        r.0@ == asked_path(lossy_text(head@)),
        r.1 == length_from(lines(lossy_text(head@)), 0),
{
    let text = chars_of(lossy_of(head).as_str());
    let all = lines_of(text.as_slice());
    let ghost said = lines(text@);
    let mut path = text_from("/");
    if all.len() > 0 {
        let w = words_of(all[0].as_slice());
        proof {
            assert(rows(all@)[0] == all@[0]@);
            assert(rows(w@).len() == w@.len());
        }
        if w.len() > 1 {
            proof {
                assert(rows(w@)[1] == w@[1]@);
            }
            path = string_of(w[1].as_slice());
        }
    }
    proof {
        assert(rows(all@).len() == all@.len());
        assert(path@ == asked_path(text@));
    }
    for i in 0..all.len()
        invariant
            said == rows(all@),
            said == lines(lossy_text(head@)),
            path@ == asked_path(lossy_text(head@)),
            length_from(said, i as int) == length_from(said, 0),
    {
        proof {
            assert(rows(all@)[i as int] == all@[i as int]@);
        }
        if let Some(n) = line_length(all[i].as_slice()) {
            return (path, n);
        }
    }
    (path, 0)
}

proof fn lemma_occurrences(s: Seq<char>, p: Seq<char>)
    requires
        p.len() >= 3,
    ensures
        3 * occurrences(s, p) <= s.len(),
    decreases s.len(),
{
    match find_sub(s, p) {
        Some(k) => {
            if 0 <= k && k + p.len() <= s.len() {
                lemma_occurrences(s.skip(k + p.len()), p);
            }
        },
        None => {},
    }
}

/// How many tool results a request holds, in either wire format.
pub open spec fn results_in(body: Seq<char>) -> nat {
    occurrences(body, "\"role\":\"tool\""@) + occurrences(body, "\"role\": \"tool\""@)
        + occurrences(body, "tool_result"@)
}

/// Counts the tool results of a request.
pub fn count_results(body: &str) -> (r: usize)
    ensures
        r == results_in(body@),
{
    let s = chars_of(body);
    let total: usize = s.len();
    let a = chars_of("\"role\":\"tool\"");
    let b = chars_of("\"role\": \"tool\"");
    let c = chars_of("tool_result");
    proof {
        reveal_strlit("\"role\":\"tool\"");
        reveal_strlit("\"role\": \"tool\"");
        reveal_strlit("tool_result");
        lemma_occurrences(s@, a@);
        lemma_occurrences(s@, b@);
        lemma_occurrences(s@, c@);
        assert(total == s@.len());
    }
    count_of(s.as_slice(), a.as_slice()) + count_of(s.as_slice(), b.as_slice()) + count_of(
        s.as_slice(),
        c.as_slice(),
    )
}

/// The answer to a request in the chat completions format.
pub open spec fn openai_answer(body: Seq<char>, tool_results: nat) -> Seq<ChunkV> {
    if contains(body, "ECHO_SYSTEM"@) {
        echo_system_chunks(body)
    } else if contains(body, "ECHO_USAGE"@) {
        echo_usage_chunks(asked_usage(body) as u64)
    } else if contains(body, "ECHO_HISTORY"@) {
        plain_answer("HISTORY_COUNT:"@ + decimal(message_count(body)))
    } else if contains(body, PLAN_CONFIRM_TEXT@) && contains(body, SCENARIO_C_TRIGGER@) {
        scenario_b_chunks(tool_results, "src/hello_plan.txt"@)
    } else if contains(body, SCENARIO_C_TRIGGER@) {
        told("content"@, plan_text(), 9).push(stop_chunk(None))
    } else if contains(body, TODO_SCENARIO_TRIGGER@) {
        turn_chunks(todo_turn(written_call(body, "TodoList"@)))
    } else if contains(body, SCENARIO_Q_TRIGGER@) {
        turn_chunks(question_turn(written_call(body, "AskUserQuestion"@)))
    } else if contains(body, SCENARIO_DANGER_TRIGGER@) {
        turn_chunks(danger_turn(tool_results))
    } else if contains(body, SCENARIO_SUBJECT_TRIGGER@) {
        turn_chunks(subject_turn(tool_results))
    } else if contains(body, SCENARIO_READONLY_TRIGGER@) {
        turn_chunks(readonly_turn(tool_results))
    } else if contains(body, SCENARIO_PLAN_EXIT_TRIGGER@) {
        turn_chunks(plan_exit_turn(body, tool_results))
    } else if contains(body, SCENARIO_PLAN_ENTER_TRIGGER@) {
        turn_chunks(plan_enter_turn(tool_results))
    } else if contains(body, SCENARIO_MEDIA_TRIGGER@) {
        turn_chunks(media_turn(tool_results))
    } else if contains(body, SCENARIO_B_TRIGGER@) {
        scenario_b_chunks(tool_results, SCENARIO_B_FILE@)
    } else if tool_results > 0 {
        last_chunks()
    } else {
        first_chunks()
    }
}

/// Answers a request in the chat completions format.
pub fn openai_chunks(body: &str, tool_results: usize) -> (r: Vec<MockChunk>)
    ensures
        chunks_say(r@) == openai_answer(body@, tool_results as nat),
{
    let text = chars_of(body);
    let t = text.as_slice();
    if has_sub(t, "ECHO_SYSTEM") {
        echo_system_response(body)
    } else if has_sub(t, "ECHO_USAGE") {
        echo_usage_response(body)
    } else if has_sub(t, "ECHO_HISTORY") {
        echo_history_response(body)
    } else if has_sub(t, PLAN_CONFIRM_TEXT) && has_sub(t, SCENARIO_C_TRIGGER) {
        scenario_b_response(tool_results, "src/hello_plan.txt")
    } else if has_sub(t, SCENARIO_C_TRIGGER) {
        scenario_c_response()
    } else if has_sub(t, TODO_SCENARIO_TRIGGER) {
        todo_scenario_response(body)
    } else if has_sub(t, SCENARIO_Q_TRIGGER) {
        question_scenario_response(body)
    } else if has_sub(t, SCENARIO_DANGER_TRIGGER) {
        danger_scenario_response(tool_results)
    } else if has_sub(t, SCENARIO_SUBJECT_TRIGGER) {
        subject_scenario_response(tool_results)
    } else if has_sub(t, SCENARIO_READONLY_TRIGGER) {
        readonly_scenario_response(tool_results)
    } else if has_sub(t, SCENARIO_PLAN_EXIT_TRIGGER) {
        plan_exit_scenario_response(body, tool_results)
    } else if has_sub(t, SCENARIO_PLAN_ENTER_TRIGGER) {
        plan_enter_scenario_response(tool_results)
    } else if has_sub(t, SCENARIO_MEDIA_TRIGGER) {
        media_scenario_response(tool_results)
    } else if has_sub(t, SCENARIO_B_TRIGGER) {
        scenario_b_response(tool_results, SCENARIO_B_FILE)
    } else if tool_results > 0 {
        text_response()
    } else {
        tool_call_response()
    }
}

/// How a request is answered: with a failure, with a whole value, or with a
/// stream of pieces, behind which the chat completions format has a line that
/// says that it is done.
#[derive(Debug, PartialEq)]
pub enum MockResponse {
    Failure,
    Whole(Json),
    Stream { chunks: Vec<MockChunk>, done_line: bool },
}

/// What a `MockResponse` says.
#[verifier::ext_equal]
pub enum ResponseV {
    Failure,
    Whole(JsonV),
    Stream { chunks: Seq<ChunkV>, done_line: bool },
}

impl MockResponse {
    /// What the answer says.
    pub open spec fn says(&self) -> ResponseV {
        match self {
            MockResponse::Failure => ResponseV::Failure,
            MockResponse::Whole(v) => ResponseV::Whole(v.says()),
            MockResponse::Stream { chunks, done_line } => ResponseV::Stream {
                chunks: chunks_say(chunks@),
                done_line: *done_line,
            },
        }
    }
}

/// Whether a request asks to fail, and a failure is left.
pub open spec fn fails_once(body: Seq<char>, failures: nat) -> bool {
    contains(body, "FAIL_ONCE_500"@) && failures > 0
}

/// How a request is answered that does not fail.
pub open spec fn answered(path: Seq<char>, body: Seq<char>) -> ResponseV {
    let anthropic = ends_with(path, "/messages"@);
    if contains(body, "\"stream\":false"@) {
        if contains(body, TITLE_PROMPT_MARKER@) {
            ResponseV::Whole(title_answer(anthropic))
        } else {
            match summary_answer(anthropic, body) {
                Some(v) => ResponseV::Whole(v),
                None => ResponseV::Failure,
            }
        }
    } else if anthropic {
        ResponseV::Stream { chunks: anthropic_answer(body, results_in(body)), done_line: false }
    } else {
        ResponseV::Stream { chunks: openai_answer(body, results_in(body)), done_line: true }
    }
}

/// The service: how many failures it has left for requests that ask for one.
#[derive(Debug, Clone, Copy, PartialEq, Eq)]
pub struct MockServer {
    pub failures: usize,
}

impl MockServer {
    /// A service that will fail once.
    pub fn new() -> (r: Self)
        ensures
            r.failures == 1,
    {
        MockServer { failures: 1 }
    }

    /// Answers a request.
    pub fn respond(&mut self, path: &str, body: &str) -> (r: MockResponse)
        ensures
            fails_once(body@, old(self).failures as nat) ==> r is Failure && final(self).failures
                == old(self).failures - 1,
            !fails_once(body@, old(self).failures as nat) ==> r.says() == answered(path@, body@)
                && *final(self) == *old(self),
    {
        let text = chars_of(body);
        let t = text.as_slice();
        if has_sub(t, "FAIL_ONCE_500") && self.failures > 0 {
            self.failures = self.failures - 1;
            return MockResponse::Failure;
        }
        let anthropic = finishes(chars_of(path).as_slice(), "/messages");
        if has_sub(t, "\"stream\":false") {
            if has_sub(t, TITLE_PROMPT_MARKER) {
                return MockResponse::Whole(title_response(anthropic));
            }
            return match summary_response(anthropic, body) {
                Some(v) => MockResponse::Whole(v),
                None => MockResponse::Failure,
            };
        }
        let tool_results = count_results(body);
        if anthropic {
            MockResponse::Stream { chunks: anthropic_chunks(body, tool_results), done_line: false }
        } else {
            MockResponse::Stream { chunks: openai_chunks(body, tool_results), done_line: true }
        }
    }
}

/// What goes over the wire for an answer: what comes first, then the pieces of
/// a stream one by one, and what ends it.
#[derive(Debug, PartialEq)]
pub struct MockWire {
    pub head: String,
    pub frames: Vec<String>,
    pub tail: String,
}

/// What a `MockWire` says.
#[verifier::ext_equal]
pub struct WireTextV {
    pub head: Seq<char>,
    pub frames: Seq<Seq<char>>,
    pub tail: Seq<char>,
}

impl View for MockWire {
    type V = WireTextV;

    open spec fn view(&self) -> WireTextV {
        WireTextV { head: self.head@, frames: texts(self.frames@), tail: self.tail@ }
    }
}

/// A piece as it goes over the wire.
pub open spec fn chunk_text(c: ChunkV) -> Seq<char> {
    framed(c.event, compact_json(held(c.data)))
}

/// An answer as it goes over the wire.
pub open spec fn wire_text(r: ResponseV) -> WireTextV {
    match r {
        ResponseV::Failure => WireTextV {
            head: "HTTP/1.1 500 Internal Server Error\r\ncontent-length: 2\r\n\r\n{}"@,
            frames: Seq::empty(),
            tail: ""@,
        },
        ResponseV::Whole(v) => {
            let payload = compact_json(held(v));
            WireTextV {
                head: "HTTP/1.1 200 OK\r\ncontent-type: application/json\r\ncontent-length: "@
                    + decimal(byte_len(payload)) + "\r\n\r\n"@ + payload,
                frames: Seq::empty(),
                tail: ""@,
            }
        },
        ResponseV::Stream { chunks, done_line } => WireTextV {
            head: "HTTP/1.1 200 OK\r\ncontent-type: text/event-stream\r\nconnection: close\r\n\r\n"@,
            frames: chunks.map_values(|c: ChunkV| chunk_text(c)),
            tail: if done_line {
                "data: [DONE]\n\n"@
            } else {
                ""@
            },
        },
    }
}

fn wide_number(n: u128) -> (r: String)
    ensures
        r@ == decimal(n as nat),
    decreases n,
{
    if n <= 0xffff_ffff_ffff_ffff {
        number_text(n as u64)
    } else {
        let mut v = chars_of(wide_number(n / 10).as_str());
        v.push((48 + ((n % 10) as u8)) as char);
        string_of(v.as_slice())
    }
}

fn only_head(head: String) -> (r: MockWire)
    ensures
        r@ == (WireTextV { head: head@, frames: Seq::empty(), tail: ""@ }),
{
    let r = MockWire { head, frames: Vec::new(), tail: text_from("") };
    proof {
        assert(texts(r.frames@) =~= Seq::<Seq<char>>::empty());
    }
    r
}

/// Writes an answer as it goes over the wire.
pub fn wire_of_response(response: &MockResponse) -> (r: MockWire)
    ensures
        r@ == wire_text(response.says()),
{
    match response {
        MockResponse::Failure => only_head(
            text_from("HTTP/1.1 500 Internal Server Error\r\ncontent-length: 2\r\n\r\n{}"),
        ),
        MockResponse::Whole(v) => {
            let payload = written(v);
            let n = wide_number(bytes_in(chars_of(payload.as_str()).as_slice()));
            only_head(
                cat(
                    cat3(
                        "HTTP/1.1 200 OK\r\ncontent-type: application/json\r\ncontent-length: ",
                        n.as_str(),
                        "\r\n\r\n",
                    ).as_str(),
                    payload.as_str(),
                ),
            )
        },
        MockResponse::Stream { chunks, done_line } => {
            let ghost all = chunks_say(chunks@);
            let ghost want = all.map_values(|c: ChunkV| chunk_text(c));
            let mut frames: Vec<String> = Vec::new();
            for i in 0..chunks.len()
                invariant
                    all == chunks_say(chunks@),
                    want == all.map_values(|c: ChunkV| chunk_text(c)),
                    frames.len() == i,
                    forall|k: int| 0 <= k < i ==> (#[trigger] frames@[k])@ == want[k],
            {
                let data = written(&chunks[i].data);
                proof {
                    assert(all[i as int] == chunks@[i as int].says());
                }
                frames.push(frame(&chunks[i].event, data.as_str()));
            }
            proof {
                assert(texts(frames@) =~= want);
            }
            MockWire {
                head: text_from(
                    "HTTP/1.1 200 OK\r\ncontent-type: text/event-stream\r\nconnection: close\r\n\r\n",
                ),
                frames,
                tail: if *done_line {
                    text_from("data: [DONE]\n\n")
                } else {
                    text_from("")
                },
            }
        },
    }
}

/// A request that asks for a failure is answered when it is made again.
pub proof fn law_fails_once(body: Seq<char>)
    ensures
        !fails_once(body, 0),
        contains(body, "FAIL_ONCE_500"@) ==> fails_once(body, 1),
{
}

} // verus!
