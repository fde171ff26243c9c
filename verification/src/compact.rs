//! Making a conversation shorter when it fills the model's context.

use crate::chars::{
    chars_of, decimal, decimal_of, first_chars, join, joined_strings, prefix, push_all, push_text,
    str_eq, string_of, texts,
};
use crate::provider::{msgs_say, system_msg, wires_say, ChatMsg, MsgV, ToolCallWire, WireV};
use vstd::prelude::*;

verus! {

/// The words that a request for a summary begins with.
pub const COMPACTION_MARKER: &'static str = "[COMPACTION]";

/// How many messages at the end stay as they are.
pub const KEEP: usize = 4;

/// How many tokens are kept free beside those of the answer.
pub const RESERVE: u64 = 13000;

/// Whether a conversation that takes `used` tokens is made shorter before the
/// next request.
pub open spec fn is_full(used: Option<u64>, window: u64, max_output: u64) -> bool {
    match used {
        Some(n) => n > window - max_output - RESERVE,
        None => false,
    }
}

/// Decides whether a conversation is made shorter first. Where the answer and
/// the reserve alone fill the window, any use at all is too much.
pub fn needs_compact(used: Option<u64>, window: u64, max_output: u64) -> (r: bool)
    ensures
        r == (used matches Some(n) && n > 0 && is_full(used, window, max_output)),
{
    match used {
        Some(n) => {
            let room: u64 = window.saturating_sub(max_output.saturating_add(RESERVE));
            n > room
        },
        None => false,
    }
}

// ---------------------------------------------------------------------------
// The request for a summary
// ---------------------------------------------------------------------------

/// What the request says before the conversation.
pub open spec fn summary_instructions() -> Seq<char> {
    COMPACTION_MARKER@
        + " 请将以下编程助手对话历史压缩为摘要，必须保留：用户目标、已完成的工作、         文件变更（路径+简述）、关键决策、待办事项。用中文，分点列出，控制在 500 字以内。\n\n"@
}

/// The calls of a message as they stand in the request.
pub open spec fn told_calls(role: Seq<char>, v: Seq<WireV>) -> Seq<char>
    decreases v.len(),
{
    if v.len() == 0 {
        Seq::empty()
    } else {
        told_calls(role, v.drop_last()) + "--- "@ + role + " [tool_call "@ + v.last().name
            + "] ---\n"@ + prefix(v.last().arguments, 200) + "\n"@
    }
}

/// A message as it stands in the request.
pub open spec fn told(m: MsgV) -> Seq<char> {
    (match m.content {
        Some(c) => "--- "@ + m.role + " ---\n"@ + prefix(c, 2000) + "\n"@,
        None => Seq::empty(),
    }) + (match m.tool_calls {
        Some(v) => told_calls(m.role, v),
        None => Seq::empty(),
    })
}

/// The request for a summary of a conversation.
pub open spec fn summary_request(h: Seq<MsgV>) -> Seq<char>
    decreases h.len(),
{
    if h.len() == 0 {
        summary_instructions()
    } else {
        summary_request(h.drop_last()) + told(h.last())
    }
}

fn tell_calls(out: &mut Vec<char>, role: &str, calls: &[ToolCallWire])
    ensures
        final(out)@ == old(out)@ + told_calls(role@, wires_say(calls@)),
{
    let ghost before = out@;
    let ghost all = wires_say(calls@);
    proof {
        assert(before + told_calls(role@, all.take(0)) =~= before);
    }
    for i in 0..calls.len()
        invariant
            all == wires_say(calls@),
            out@ == before + told_calls(role@, all.take(i as int)),
    {
        proof {
            assert(all.take(i as int + 1).drop_last() =~= all.take(i as int));
            assert(all.take(i as int + 1).last() == calls@[i as int]@);
        }
        push_text(out, "--- ");
        push_text(out, role);
        push_text(out, " [tool_call ");
        push_text(out, calls[i].function.name.as_str());
        push_text(out, "] ---\n");
        let a = chars_of(calls[i].function.arguments.as_str());
        push_all(out, first_chars(a.as_slice(), 200));
        push_text(out, "\n");
        proof {
            assert(out@ =~= before + told_calls(role@, all.take(i as int + 1)));
        }
    }
    proof {
        assert(all.take(calls@.len() as int) =~= all);
    }
}

/// Writes the request for a summary of a conversation: the beginning of each
/// message and of the arguments of each call.
pub fn compaction_prompt(history: &[ChatMsg]) -> (r: String)
    ensures
        r@ == summary_request(msgs_say(history@)),
{
    let ghost all = msgs_say(history@);
    let mut out = chars_of(COMPACTION_MARKER);
    push_text(
        &mut out,
        " 请将以下编程助手对话历史压缩为摘要，必须保留：用户目标、已完成的工作、         文件变更（路径+简述）、关键决策、待办事项。用中文，分点列出，控制在 500 字以内。\n\n",
    );
    for i in 0..history.len()
        invariant
            all == msgs_say(history@),
            out@ == summary_request(all.take(i as int)),
    {
        let ghost before = out@;
        let ghost m = history@[i as int]@;
        proof {
            assert(all.take(i as int + 1).drop_last() =~= all.take(i as int));
            assert(all.take(i as int + 1).last() == m);
        }
        match &history[i].content {
            Some(c) => {
                push_text(&mut out, "--- ");
                push_text(&mut out, history[i].role.as_str());
                push_text(&mut out, " ---\n");
                let v = chars_of(c.as_str());
                push_all(&mut out, first_chars(v.as_slice(), 2000));
                push_text(&mut out, "\n");
            },
            None => {},
        }
        match &history[i].tool_calls {
            Some(calls) => {
                tell_calls(&mut out, history[i].role.as_str(), calls.as_slice());
            },
            None => {},
        }
        proof {
            assert(out@ =~= before + told(m));
        }
    }
    proof {
        assert(all.take(history@.len() as int) =~= all);
    }
    string_of(out.as_slice())
}

// ---------------------------------------------------------------------------
// The shorter conversation
// ---------------------------------------------------------------------------

/// What is said of the files that changed meanwhile.
pub open spec fn changed_note(changed: Seq<Seq<char>>) -> Seq<char> {
    if changed.len() == 0 {
        "期间无文件变更。"@
    } else {
        "期间修改的文件: "@ + join(changed, ", "@)
    }
}

/// Whether it happened by itself.
pub open spec fn by_itself(automatic: bool) -> Seq<char> {
    if automatic {
        "（自动）"@
    } else {
        ""@
    }
}

/// The message that stands for what was left out.
pub open spec fn compact_note(
    summary: Option<Seq<char>>,
    omitted: nat,
    automatic: bool,
    changed: Seq<Seq<char>>,
) -> Seq<char> {
    match summary {
        Some(s) => "[前文已压缩"@ + by_itself(automatic) + "·模型摘要] 省略 "@ + decimal(omitted)
            + " 条消息。\n\n"@ + s + "\n\n"@ + changed_note(changed),
        None => "[前文已压缩"@ + by_itself(automatic) + "] 共 "@ + decimal(omitted)
            + " 条消息被省略。"@ + changed_note(changed),
    }
}

fn tell_changed(changed: &[String]) -> (r: Vec<char>)
    ensures
        r@ == changed_note(texts(changed@)),
{
    proof {
        assert(texts(changed@).len() == changed@.len());
    }
    if changed.len() == 0 {
        chars_of("期间无文件变更。")
    } else {
        let mut out = chars_of("期间修改的文件: ");
        push_all(&mut out, joined_strings(changed, ", ").as_slice());
        out
    }
}

fn tell_by_itself(automatic: bool) -> (r: &'static str)
    ensures
        r@ == by_itself(automatic),
{
    if automatic {
        "（自动）"
    } else {
        ""
    }
}

/// Writes the message that stands for what was left out.
pub fn write_compact_note(
    summary: Option<&str>,
    omitted: usize,
    automatic: bool,
    changed: &[String],
) -> (r: String)
    ensures
        r@ == compact_note(
            crate::agent::opt_str(summary),
            omitted as nat,
            automatic,
            texts(changed@),
        ),
{
    let mut out = chars_of("[前文已压缩");
    push_text(&mut out, tell_by_itself(automatic));
    match summary {
        Some(s) => {
            push_text(&mut out, "·模型摘要] 省略 ");
            push_all(&mut out, decimal_of(omitted as u64).as_slice());
            push_text(&mut out, " 条消息。\n\n");
            push_text(&mut out, s);
            push_text(&mut out, "\n\n");
        },
        None => {
            push_text(&mut out, "] 共 ");
            push_all(&mut out, decimal_of(omitted as u64).as_slice());
            push_text(&mut out, " 条消息被省略。");
        },
    }
    push_all(&mut out, tell_changed(changed).as_slice());
    string_of(out.as_slice())
}

/// Messages without the results of tools at their start, which would stand
/// without their calls.
pub open spec fn from_safe(v: Seq<MsgV>) -> Seq<MsgV>
    decreases v.len(),
{
    if v.len() > 0 && v[0].role == "tool"@ {
        from_safe(v.skip(1))
    } else {
        v
    }
}

/// The shorter conversation: the system's message, the note, and the last
/// messages.
pub open spec fn compacted(h: Seq<MsgV>, note: Seq<char>) -> Seq<MsgV> {
    seq![h[0], system_msg(note)] + from_safe(h.skip(h.len() - KEEP))
}

/// Makes a conversation shorter.
pub fn compact_history(history: &[ChatMsg], note: &str) -> (r: Vec<ChatMsg>)
    requires
        history@.len() > KEEP + 1,
    ensures
        msgs_say(r@) == compacted(msgs_say(history@), note@),
{
    let ghost h = msgs_say(history@);
    let n: usize = history.len();
    let mut i: usize = n - KEEP;
    let ghost tail = h.skip(n - KEEP);
    while i < n && str_eq(history[i].role.as_str(), "tool")
        invariant
            h == msgs_say(history@),
            n == history@.len(),
            i <= n,
            from_safe(tail) == from_safe(h.skip(i as int)),
        decreases n - i,
    {
        proof {
            assert(h.skip(i as int)[0] == history@[i as int]@);
            assert(h.skip(i as int).skip(1) =~= h.skip(i as int + 1));
        }
        i = i + 1;
    }
    proof {
        if i < n {
            assert(h.skip(i as int)[0] == history@[i as int]@);
        }
        assert(from_safe(h.skip(i as int)) == h.skip(i as int));
    }
    let mut out: Vec<ChatMsg> = Vec::new();
    out.push(history[0].copy());
    out.push(ChatMsg::system(crate::chars::text_from(note)));
    let ghost head = seq![h[0], system_msg(note@)];
    let mut j: usize = i;
    proof {
        assert(msgs_say(out@) =~= head + h.subrange(i as int, i as int));
    }
    while j < n
        invariant
            h == msgs_say(history@),
            n == history@.len(),
            i <= j <= n,
            msgs_say(out@) == head + h.subrange(i as int, j as int),
        decreases n - j,
    {
        let ghost before = msgs_say(out@);
        out.push(history[j].copy());
        proof {
            assert(msgs_say(out@) =~= before.push(history@[j as int]@));
            assert(h[j as int] == history@[j as int]@);
            assert(msgs_say(out@) =~= head + h.subrange(i as int, j as int + 1));
        }
        j = j + 1;
    }
    proof {
        assert(h.subrange(i as int, n as int) =~= h.skip(i as int));
    }
    out
}

proof fn lemma_from_safe(v: Seq<MsgV>)
    ensures
        from_safe(v).len() <= v.len(),
        from_safe(v) == v.skip(v.len() - from_safe(v).len()),
        from_safe(v).len() > 0 ==> from_safe(v)[0].role != "tool"@,
    decreases v.len(),
{
    if v.len() > 0 && v[0].role == "tool"@ {
        lemma_from_safe(v.skip(1));
        assert(v.skip(1).skip(v.len() - 1 - from_safe(v).len()) =~= v.skip(
            v.len() - from_safe(v).len(),
        ));
    } else {
        assert(v.skip(0) =~= v);
    }
}

/// The shorter conversation has at most six messages: the system's own first,
/// then the note, then the end of the conversation as it was; and behind the
/// note stands no result of a tool without its call.
pub proof fn law_compacted(h: Seq<MsgV>, note: Seq<char>)
    requires
        h.len() > KEEP + 1,
    ensures
        2 <= compacted(h, note).len() <= KEEP + 2,
        compacted(h, note)[0] == h[0],
        compacted(h, note)[1] == system_msg(note),
        compacted(h, note).skip(2) == h.skip(h.len() - (compacted(h, note).len() - 2)),
        compacted(h, note).len() > 2 ==> compacted(h, note)[2].role != "tool"@,
{
    let tail = h.skip(h.len() - KEEP);
    lemma_from_safe(tail);
    let c = compacted(h, note);
    assert(c.skip(2) =~= from_safe(tail));
    assert(tail.skip(tail.len() - from_safe(tail).len()) =~= h.skip(
        h.len() - from_safe(tail).len(),
    ));
}

/// Of the last four messages none is left out but results of tools that stand
/// before all others, and the message in the place of the rest is a system
/// message with the note as it is.
pub proof fn law_end_is_kept(h: Seq<MsgV>, note: Seq<char>)
    requires
        h.len() > 5,
    ensures
        ({
            let c = compacted(h, note);
            let kept = c.len() - 2;
            &&& 0 <= kept <= 4
            &&& c[0] == h[0]
            &&& c[1].role == "system"@ && c[1].content == Some(note)
            &&& forall|i: int| 0 <= i < kept ==> (#[trigger] c[2 + i]) == h[h.len() - kept + i]
            &&& forall|j: int|
                h.len() - 4 <= j < h.len() - kept ==> (#[trigger] h[j]).role == "tool"@
            &&& h[h.len() - 4].role != "tool"@ ==> kept == 4
        }),
{
    law_compacted(h, note);
    let tail = h.skip(h.len() - KEEP);
    lemma_only_results_go(tail);
    let c = compacted(h, note);
    let kept = c.len() - 2;
    assert forall|i: int| 0 <= i < kept implies (#[trigger] c[2 + i]) == h[h.len() - kept + i] by {
        assert(c.skip(2)[i] == h.skip(h.len() - kept)[i]);
    }
    assert forall|j: int| h.len() - 4 <= j < h.len() - kept implies (#[trigger] h[j]).role
        == "tool"@ by {
        assert(tail[j - (h.len() - 4)] == h[j]);
    }
}

proof fn lemma_only_results_go(v: Seq<MsgV>)
    ensures
        from_safe(v).len() <= v.len(),
        forall|j: int| 0 <= j < v.len() - from_safe(v).len() ==> (#[trigger] v[j]).role == "tool"@,
    decreases v.len(),
{
    if v.len() > 0 && v[0].role == "tool"@ {
        lemma_only_results_go(v.skip(1));
        assert forall|j: int| 0 <= j < v.len() - from_safe(v).len() implies (#[trigger] v[j]).role
            == "tool"@ by {
            if j > 0 {
                assert(v.skip(1)[j - 1] == v[j]);
            }
        }
    }
}

/// A conversation is made shorter exactly where the tokens in use, the room for
/// the answer and the reserve are more than the window; while nothing is known
/// of the tokens it is not.
pub proof fn law_full_means_no_room(used: Option<u64>, window: u64, max_output: u64)
    ensures
        is_full(used, window, max_output) <==> (used matches Some(n) && n + max_output + 13000
            > window),
{
}

/// The request for a summary holds every message of the conversation in order:
/// its role, the text up to two thousand characters, and each call with its
/// name and its arguments up to two hundred.
pub proof fn law_summary_is_asked_of_every_message(h: Seq<MsgV>, m: MsgV)
    ensures
        ({
            let before = summary_request(h);
            let now = summary_request(h.push(m));
            let text = match m.content {
                Some(c) => "--- "@ + m.role + " ---\n"@ + (if c.len() <= 2000 {
                    c
                } else {
                    c.take(2000)
                }) + "\n"@,
                None => Seq::<char>::empty(),
            };
            let calls = match m.tool_calls {
                Some(v) => v.map_values(
                    |w: WireV|
                        "--- "@ + m.role + " [tool_call "@ + w.name + "] ---\n"@ + (
                        if w.arguments.len() <= 200 {
                            w.arguments
                        } else {
                            w.arguments.take(200)
                        }) + "\n"@,
                ).flatten(),
                None => Seq::<char>::empty(),
            };
            now == before + (text + calls)
        }),
{
    assert(h.push(m).drop_last() =~= h);
    if m.content is Some {
        let c = m.content->0;
        assert(c.len() <= 2000 ==> prefix(c, 2000) =~= c);
    }
    if m.tool_calls is Some {
        lemma_told_calls(m.role, m.tool_calls->0);
    }
}

proof fn lemma_told_calls(role: Seq<char>, v: Seq<WireV>)
    ensures
        told_calls(role, v) == v.map_values(
            |w: WireV|
                "--- "@ + role + " [tool_call "@ + w.name + "] ---\n"@ + (if w.arguments.len()
                    <= 200 {
                    w.arguments
                } else {
                    w.arguments.take(200)
                }) + "\n"@,
        ).flatten(),
    decreases v.len(),
{
    let f = |w: WireV|
        "--- "@ + role + " [tool_call "@ + w.name + "] ---\n"@ + (if w.arguments.len() <= 200 {
            w.arguments
        } else {
            w.arguments.take(200)
        }) + "\n"@;
    if v.len() == 0 {
        assert(v.map_values(f) =~= Seq::<Seq<char>>::empty());
    } else {
        let front = v.drop_last();
        let w = v.last();
        lemma_told_calls(role, front);
        assert(v.map_values(f) =~= front.map_values(f).push(f(w)));
        crate::chars::lemma_flatten_push(front.map_values(f), f(w));
        assert(w.arguments.len() <= 200 ==> prefix(w.arguments, 200) =~= w.arguments);
        assert(told_calls(role, v) =~= told_calls(role, front) + f(w));
    }
}

/// The note in the place of what was left out holds the summary, how many
/// messages were left out, and every file that changed.
pub proof fn law_note_tells(s: Seq<char>, omitted: nat, automatic: bool, changed: Seq<Seq<char>>)
    ensures
        ({
            let files = if changed.len() == 0 {
                "期间无文件变更。"@
            } else {
                "期间修改的文件: "@ + join(changed, ", "@)
            };
            let by = if automatic {
                "（自动）"@
            } else {
                ""@
            };
            &&& compact_note(Some(s), omitted, automatic, changed) == "[前文已压缩"@ + by
                + "·模型摘要] 省略 "@ + decimal(omitted) + " 条消息。\n\n"@ + s + "\n\n"@ + files
            &&& compact_note(None, omitted, automatic, changed) == "[前文已压缩"@ + by + "] 共 "@
                + decimal(omitted) + " 条消息被省略。"@ + files
        }),
{
}

} // verus!
