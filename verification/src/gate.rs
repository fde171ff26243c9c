//! The guard that every call of a tool passes: what is refused, what the user
//! is asked about, and what runs at once.
//!
//! Rules of the project that deny come first, in every mode. Dangerous
//! commands are always asked about, save where nothing is ruled at all. The
//! rest goes by the mode, by what the user allowed for the session, and by the
//! rules that allow.

use crate::chars::{
    cat3, cat5, chars_of, find_sub, longer_than, byte_len, opt_text, position_sub, push_all, push_text,
    replace, str_eq, string_of, text_from,
};
use crate::command::{danger, is_dangerous_command, is_readonly_command, only_reads, opt_reason};
use crate::diff::{diff_preview, preview};
use crate::edit::{compute_edit, edit_of};
use crate::effect::{add_effect, effects_say, no_effects, show, shown, Effect, EffectV};
use crate::json::{args_say, flag_at, member, parse_args, pretty_or_null, text_at};
use crate::lossy::utf8_of;
use crate::permissions::{allowed_by, denied_by, PermissionRules, RulesV};
use crate::protocol::{
    copied_todo_items, todo_items_say, ApprovalDecision, EditDiff, EditDiffV, Event, EventV, ExecMode,
    TodoItem, TodoItemV,
};
use crate::provider::{images_say, or_empty, CallV, ChatImage, ImageV, ToolCall};
use crate::text::{decode, document};
use crate::tool::{approval_subject, asks_first, requires_approval, subject_of, Tool};
use vstd::prelude::*;
use vstd::slice::slice_subrange;
use vstd::utf8::{decode_utf8, valid_utf8};

verus! {

// ---------------------------------------------------------------------------
// The decision
// ---------------------------------------------------------------------------

/// The command of a call, where it is one of the shell.
pub open spec fn command_of(call: CallV) -> Option<Seq<char>> {
    if call.name == "Bash"@ {
        text_at(args_say(call.arguments), "command"@)
    } else {
        None
    }
}

/// What the rules of a project look at: the whole command, or the path.
pub open spec fn rule_subject(call: CallV) -> Option<Seq<char>> {
    if call.name == "Bash"@ {
        command_of(call)
    } else if call.name == "Write"@ || call.name == "Edit"@ {
        Some(subject_of(call))
    } else {
        None
    }
}

/// What a list of approvals says.
pub open spec fn approvals(v: Seq<(String, String)>) -> Set<(Seq<char>, Seq<char>)> {
    Set::new(|p: (Seq<char>, Seq<char>)| exists|k: int| 0 <= k < v.len() && (#[trigger] v[k]).0@ == p.0 && v[k].1@ == p.1)
}

/// What an approval for the rest of the session is for.
pub open spec fn approval_key(call: CallV) -> (Seq<char>, Seq<char>) {
    (call.name, subject_of(call))
}

/// What becomes of a call.
#[derive(Debug)]
pub enum Verdict {
    /// It does not run; the model is told why.
    Refuse(String),
    /// The user is asked; with the danger, where there is one.
    Ask(Option<&'static str>),
    /// It runs.
    Run,
}

/// What a `Verdict` says.
#[verifier::ext_equal]
pub enum VerdictV {
    Refuse(Seq<char>),
    Ask(Option<Seq<char>>),
    Run,
}

impl View for Verdict {
    type V = VerdictV;

    open spec fn view(&self) -> VerdictV {
        match self {
            Verdict::Refuse(t) => VerdictV::Refuse(t@),
            Verdict::Ask(d) => VerdictV::Ask(opt_reason(*d)),
            Verdict::Run => VerdictV::Run,
        }
    }
}

/// The rule that denies a call.
pub open spec fn deny_rule(rules: RulesV, call: CallV) -> Option<Seq<char>> {
    match rule_subject(call) {
        Some(s) => denied_by(rules, call.name, s),
        None => None,
    }
}

/// The danger of a call in a mode.
pub open spec fn call_danger(mode: ExecMode, call: CallV) -> Option<Seq<char>> {
    match command_of(call) {
        Some(c) => if mode == ExecMode::Yolo {
            None
        } else {
            danger(c)
        },
        None => None,
    }
}

/// Whether a call needs no approval though its mode asks for one.
pub open spec fn is_excused(
    mode: ExecMode,
    rules: RulesV,
    allowed: Set<(Seq<char>, Seq<char>)>,
    call: CallV,
) -> bool {
    ||| allowed.contains(approval_key(call))
    ||| mode == ExecMode::AutoEdit && command_of(call) is Some && only_reads(command_of(call)->0)
    ||| rule_subject(call) is Some && allowed_by(rules, call.name, rule_subject(call)->0)
}

/// What becomes of a call.
pub open spec fn verdict(
    mode: ExecMode,
    rules: RulesV,
    allowed: Set<(Seq<char>, Seq<char>)>,
    call: CallV,
    tool: Option<Tool>,
) -> VerdictV {
    match deny_rule(rules, call) {
        Some(rule) => VerdictV::Refuse(
            "项目规则禁止执行: "@ + rule + "（.pigcode/permissions.toml）"@,
        ),
        None => {
            let d = call_danger(mode, call);
            if d is Some || (tool is Some && asks_first(tool->0, mode) && !is_excused(
                mode,
                rules,
                allowed,
                call,
            )) {
                VerdictV::Ask(d)
            } else {
                VerdictV::Run
            }
        },
    }
}

fn find_command(call: &ToolCall) -> (r: Option<String>)
    ensures
        opt_text(r) == command_of(call@),
{
    if str_eq(call.name.as_str(), "Bash") {
        parse_args(call.arguments.as_str()).str_at("command")
    } else {
        None
    }
}

/// Whether an approval is among those given.
pub fn is_approved(allowed: &[(String, String)], name: &str, subject: &str) -> (r: bool)
    ensures
        r == approvals(allowed@).contains((name@, subject@)),
{
    for i in 0..allowed.len()
        invariant
            forall|k: int|
                0 <= k < i ==> !((#[trigger] allowed@[k]).0@ == name@ && allowed@[k].1@ == subject@),
    {
        if str_eq(allowed[i].0.as_str(), name) && str_eq(allowed[i].1.as_str(), subject) {
            return true;
        }
    }
    false
}

/// Decides what becomes of a call. `tool` is the one that it names, where
/// there is one.
pub fn decide(
    mode: ExecMode,
    rules: &PermissionRules,
    allowed: &[(String, String)],
    call: &ToolCall,
    tool: Option<Tool>,
) -> (r: Verdict)
    ensures
        r@ == verdict(mode, rules@, approvals(allowed@), call@, tool),
{
    let command = find_command(call);
    let name = call.name.as_str();
    let subject: Option<String> = if str_eq(name, "Bash") {
        crate::chars::copied_opt(&command)
    } else if str_eq(name, "Write") || str_eq(name, "Edit") {
        Some(approval_subject(call))
    } else {
        None
    };
    let mut by_rules = false;
    match &subject {
        Some(s) => {
            match rules.deny_hit(name, s.as_str()) {
                Some(rule) => {
                    return Verdict::Refuse(
                        cat3(
                            "项目规则禁止执行: ",
                            rule.as_str(),
                            "（.pigcode/permissions.toml）",
                        ),
                    );
                },
                None => {},
            }
            by_rules = rules.allow_hit(name, s.as_str());
        },
        None => {},
    }
    let mut reason: Option<&'static str> = None;
    let mut harmless = false;
    match &command {
        Some(c) => {
            if mode != ExecMode::Yolo {
                reason = is_dangerous_command(c.as_str());
            }
            harmless = mode == ExecMode::AutoEdit && is_readonly_command(c.as_str());
        },
        None => {},
    }
    if reason.is_some() {
        return Verdict::Ask(reason);
    }
    let asks = match tool {
        Some(t) => requires_approval(t, mode),
        None => false,
    };
    let key = approval_subject(call);
    if asks && !is_approved(allowed, name, key.as_str()) && !harmless && !by_rules {
        Verdict::Ask(None)
    } else {
        Verdict::Run
    }
}

/// What the model is told when the user refuses.
pub open spec fn refusal(reason: Option<Seq<char>>) -> Seq<char> {
    match reason {
        Some(r) => "用户拒绝了该高风险命令（"@ + r
            + "）。请尊重用户意愿，改用其他方式或说明理由后继续。"@,
        None => "用户拒绝了该操作。请尊重用户意愿，改用其他方式或说明理由后继续。"@,
    }
}

/// The approvals after the user's answer: one for the rest of the session is
/// kept, but never for a dangerous command.
pub open spec fn approvals_after(
    allowed: Set<(Seq<char>, Seq<char>)>,
    call: CallV,
    reason: Option<Seq<char>>,
    decision: ApprovalDecision,
) -> Set<(Seq<char>, Seq<char>)> {
    if decision == ApprovalDecision::AlwaysAllow && reason is None {
        allowed.insert(approval_key(call))
    } else {
        allowed
    }
}

/// Takes the user's answer. Gives what the model is told where the call does
/// not run.
pub fn take_answer(
    allowed: &mut Vec<(String, String)>,
    call: &ToolCall,
    reason: Option<&str>,
    decision: ApprovalDecision,
) -> (r: Option<String>)
    ensures
        approvals(final(allowed)@) == approvals_after(
            approvals(old(allowed)@),
            call@,
            crate::agent::opt_str(reason),
            decision,
        ),
        opt_text(r) == if decision == ApprovalDecision::Reject {
            Some(refusal(crate::agent::opt_str(reason)))
        } else {
            None
        },
{
    match decision {
        ApprovalDecision::Allow => None,
        ApprovalDecision::AlwaysAllow => {
            if reason.is_none() {
                let ghost before = allowed@;
                let key = (call.name.clone(), approval_subject(call));
                let ghost k = approval_key(call@);
                allowed.push(key);
                proof {
                    let now = allowed@;
                    assert forall|p: (Seq<char>, Seq<char>)| #[trigger]
                        approvals(now).contains(p) == approvals(before).insert(k).contains(p) by {
                        if approvals(before).contains(p) {
                            let i = choose|i: int|
                                0 <= i < before.len() && (#[trigger] before[i]).0@ == p.0
                                    && before[i].1@ == p.1;
                            assert(now[i] == before[i]);
                        }
                        if p == k {
                            assert(now[now.len() - 1].0@ == p.0);
                        }
                        if approvals(now).contains(p) {
                            let i = choose|i: int|
                                0 <= i < now.len() && (#[trigger] now[i]).0@ == p.0 && now[i].1@
                                    == p.1;
                            if i < before.len() {
                                assert(before[i].0@ == p.0);
                            }
                        }
                    }
                    assert(approvals(now) =~= approvals(before).insert(k));
                }
            }
            None
        },
        ApprovalDecision::Reject => match reason {
            Some(t) => Some(
                cat3(
                    "用户拒绝了该高风险命令（",
                    t,
                    "）。请尊重用户意愿，改用其他方式或说明理由后继续。",
                ),
            ),
            None => Some(
                text_from(
                    "用户拒绝了该操作。请尊重用户意愿，改用其他方式或说明理由后继续。",
                ),
            ),
        },
    }
}

/// The name of a request to the user: the session, the turn, what is asked and
/// the call.
pub open spec fn request_name(
    session: Seq<char>,
    turn: Seq<char>,
    what: Seq<char>,
    item: Seq<char>,
) -> Seq<char> {
    session + "-"@ + turn + what + item
}

/// Names a request to the user.
pub fn request_id(session: &str, turn: &str, what: &str, item: &str) -> (r: String)
    ensures
        r@ == request_name(session@, turn@, what@, item@),
{
    cat5(session, "-", turn, what, item)
}

// ---------------------------------------------------------------------------
// What the user sees of a call that is asked about
// ---------------------------------------------------------------------------

/// The text of a file as it is shown: decoded where that is possible, else as
/// UTF-8, else nothing; a file that cannot be read counts as empty.
pub open spec fn seen_text(bytes: Option<Seq<u8>>) -> Seq<char> {
    match bytes {
        Some(b) => match document(b) {
            Ok(d) => d.text,
            Err(_e) => if valid_utf8(b) {
                decode_utf8(b)
            } else {
                Seq::empty()
            },
        },
        None => Seq::empty(),
    }
}

/// Whether the bytes of a file are a text.
pub open spec fn is_text(bytes: Option<Seq<u8>>) -> bool {
    bytes is Some && document(bytes->0) is Ok
}

/// `s` with the first `old` replaced.
pub open spec fn replace_first(s: Seq<char>, old: Seq<char>, new: Seq<char>) -> Seq<char> {
    match find_sub(s, old) {
        Some(k) => s.take(k) + new + s.skip(k + old.len()),
        None => s,
    }
}

/// What the user sees of an edit of a text: what the edit will do, with what
/// was tolerated; where the edit will fail, or nothing is to be replaced
/// everywhere, the plain replacement.
pub open spec fn edit_shown(
    path: Seq<char>,
    text: Seq<char>,
    old: Seq<char>,
    new: Seq<char>,
    every: bool,
) -> Seq<char> {
    let plain = preview(path, text, replace_first(text, old, new));
    if old.len() == 0 && (every || text.len() >= usize::MAX) {
        plain
    } else {
        match edit_of(text, old, new, every) {
            Err(_e) => plain,
            Ok(o) => {
                let with_note = match o.tier_note {
                    Some(n) => preview(path, text, o.after) + "\n\n（"@ + n + "）"@,
                    None => preview(path, text, o.after),
                };
                if every {
                    with_note + "\n\n（replace_all：替换 "@ + crate::chars::decimal(o.replaced)
                        + " 处）"@
                } else {
                    with_note
                }
            },
        }
    }
}

/// A text or a question mark.
pub open spec fn or_mark(t: Option<Seq<char>>) -> Seq<char> {
    match t {
        Some(s) => s,
        None => "?"@,
    }
}

/// What the user sees of a call that is asked about. `bytes` is the file that
/// it names, where it could be read.
pub open spec fn detail_of(
    call: CallV,
    bytes: Option<Seq<u8>>,
    reason: Option<Seq<char>>,
) -> Seq<char> {
    let args = args_say(call.arguments);
    if call.name == "Bash"@ {
        let c = or_mark(text_at(args, "command"@));
        match reason {
            Some(r) => "⚠️ 高风险命令："@ + r + "\n\n"@ + c,
            None => c,
        }
    } else if call.name == "Write"@ {
        preview(
            or_mark(text_at(args, "path"@)),
            seen_text(bytes),
            replace(or_empty(text_at(args, "content"@)), "\r\n"@, "\n"@),
        )
    } else if call.name == "Edit"@ {
        let path = or_mark(text_at(args, "path"@));
        let old = or_empty(text_at(args, "old_string"@));
        let new = or_empty(text_at(args, "new_string"@));
        let text = seen_text(bytes);
        if is_text(bytes) {
            edit_shown(path, text, old, new, flag_at(args, "replace_all"@) == Some(true))
        } else {
            preview(path, text, replace_first(text, old, new))
        }
    } else {
        pretty_or_null(call.arguments)
    }
}

/// What optional bytes say.
pub open spec fn opt_bytes(b: Option<&[u8]>) -> Option<Seq<u8>> {
    match b {
        Some(x) => Some(x@),
        None => None,
    }
}

fn see_text(bytes: Option<&[u8]>) -> (r: (String, bool))
    ensures
        r.0@ == seen_text(opt_bytes(bytes)),
        r.1 == is_text(opt_bytes(bytes)),
{
    match bytes {
        Some(b) => match decode(b) {
            Ok(d) => (d.text, true),
            Err(_e) => match utf8_of(b) {
                Some(s) => (s, false),
                None => (String::new(), false),
            },
        },
        None => (String::new(), false),
    }
}

fn replaced_first(s: &str, old: &str, new: &str) -> (r: String)
    ensures
        r@ == replace_first(s@, old@, new@),
{
    let v = chars_of(s);
    let n: usize = v.len();
    match position_sub(v.as_slice(), old) {
        Some(k) => {
            let o = chars_of(old);
            let mut out = crate::chars::copied(slice_subrange(v.as_slice(), 0, k));
            push_text(&mut out, new);
            push_all(&mut out, slice_subrange(v.as_slice(), k + o.len(), n));
            proof {
                assert(s@.subrange(0, k as int) =~= s@.take(k as int));
                assert(s@.subrange(k + old@.len(), n as int) =~= s@.skip(k + old@.len()));
            }
            string_of(out.as_slice())
        },
        None => text_from(s),
    }
}

fn show_edit(path: &str, text: &str, old: &str, new: &str, every: bool) -> (r: String)
    ensures
        r@ == edit_shown(path@, text@, old@, new@, every),
{
    let empty = chars_of(old).len() == 0;
    let long = chars_of(text).len() == usize::MAX;
    if empty && (every || long) {
        return diff_preview(path, text, replaced_first(text, old, new).as_str());
    }
    match compute_edit(text, old, new, every) {
        Err(_e) => diff_preview(path, text, replaced_first(text, old, new).as_str()),
        Ok(o) => {
            let d = diff_preview(path, text, o.after.as_str());
            let mut out = chars_of(d.as_str());
            match o.tier_note {
                Some(n) => {
                    push_text(&mut out, "\n\n（");
                    push_text(&mut out, n);
                    push_text(&mut out, "）");
                },
                None => {},
            }
            if every {
                push_text(&mut out, "\n\n（replace_all：替换 ");
                push_all(&mut out, crate::chars::decimal_of(o.replaced as u64).as_slice());
                push_text(&mut out, " 处）");
            }
            string_of(out.as_slice())
        },
    }
}

fn text_or_mark(t: Option<String>) -> (r: String)
    ensures
        r@ == or_mark(opt_text(t)),
{
    match t {
        Some(s) => s,
        None => text_from("?"),
    }
}

fn text_or_nothing(t: Option<String>) -> (r: String)
    ensures
        r@ == or_empty(opt_text(t)),
{
    match t {
        Some(s) => s,
        None => String::new(),
    }
}

/// Writes what the user sees of a call that is asked about: the command with
/// its danger, or the difference that writing or editing will make. `bytes` is
/// the file that the call names, where it could be read.
pub fn approval_detail(call: &ToolCall, bytes: Option<&[u8]>, danger_reason: Option<&str>) -> (r:
    String)
    ensures
        r@ == detail_of(call@, opt_bytes(bytes), crate::agent::opt_str(danger_reason)),
{
    let args = parse_args(call.arguments.as_str());
    let name = call.name.as_str();
    if str_eq(name, "Bash") {
        let c = text_or_mark(args.str_at("command"));
        match danger_reason {
            Some(t) => {
                let mut out = chars_of("⚠️ 高风险命令：");
                push_text(&mut out, t);
                push_text(&mut out, "\n\n");
                push_text(&mut out, c.as_str());
                string_of(out.as_slice())
            },
            None => c,
        }
    } else if str_eq(name, "Write") {
        let path = text_or_mark(args.str_at("path"));
        let content = text_or_nothing(args.str_at("content"));
        let (text, _ok) = see_text(bytes);
        let new = crate::chars::replaced(
            chars_of(content.as_str()).as_slice(),
            chars_of("\r\n").as_slice(),
            chars_of("\n").as_slice(),
        );
        diff_preview(path.as_str(), text.as_str(), string_of(new.as_slice()).as_str())
    } else if str_eq(name, "Edit") {
        let path = text_or_mark(args.str_at("path"));
        let old_string = text_or_nothing(args.str_at("old_string"));
        let new_string = text_or_nothing(args.str_at("new_string"));
        let every = match args.bool_at("replace_all") {
            Some(b) => b,
            None => false,
        };
        let (text, ok) = see_text(bytes);
        if ok {
            show_edit(
                path.as_str(),
                text.as_str(),
                old_string.as_str(),
                new_string.as_str(),
                every,
            )
        } else {
            let new = replaced_first(text.as_str(), old_string.as_str(), new_string.as_str());
            diff_preview(path.as_str(), text.as_str(), new.as_str())
        }
    } else {
        crate::json::pretty_args(call.arguments.as_str())
    }
}

// ---------------------------------------------------------------------------
// What a tool that ran leaves behind
// ---------------------------------------------------------------------------

/// Larger files are not kept as they were before the session.
pub const MAX_ORIGINAL_BYTES: usize = 4194304;

/// What a list of files as they were says.
pub open spec fn originals_say(v: Seq<(String, Option<String>)>) -> Seq<
    (Seq<char>, Option<Seq<char>>),
> {
    v.map_values(|p: (String, Option<String>)| (p.0@, opt_text(p.1)))
}

/// The files that are kept as they were: those that are not too large.
pub open spec fn kept_originals(v: Seq<(Seq<char>, Option<Seq<char>>)>) -> Seq<EffectV>
    decreases v.len(),
{
    if v.len() == 0 {
        Seq::empty()
    } else {
        let before = kept_originals(v.drop_last());
        let (path, content) = v.last();
        if content is Some && byte_len(content->0) > MAX_ORIGINAL_BYTES {
            before
        } else {
            before.push(EffectV::SaveOriginal { path, content })
        }
    }
}

/// What a tool that ran leaves behind: the to-do list, the change of a file,
/// and the files as they were before.
pub open spec fn left_behind(
    call: CallV,
    is_error: bool,
    todos: Seq<TodoItemV>,
    change: Option<EditDiffV>,
    originals: Seq<(Seq<char>, Option<Seq<char>>)>,
) -> Seq<EffectV> {
    let listed = if call.name == "TodoList"@ && !is_error {
        let saved = if member(args_say(call.arguments), "todos"@) is Some {
            Seq::<EffectV>::empty().push(EffectV::SaveTodos { items: todos })
        } else {
            Seq::<EffectV>::empty()
        };
        saved.push(shown(EventV::TodoListChanged { items: todos }))
    } else {
        Seq::<EffectV>::empty()
    };
    let changed = match change {
        Some(c) => listed.push(
            if c.additions == 0 && c.deletions == 0 {
                EffectV::ForgetChange { path: c.path }
            } else {
                EffectV::SaveChange { change: c }
            },
        ).push(
            shown(
                EventV::FileChanged {
                    path: c.path,
                    unified_diff: c.unified_diff,
                    additions: c.additions,
                    deletions: c.deletions,
                },
            ),
        ),
        None => listed,
    };
    changed + kept_originals(originals)
}

fn keep_originals(out: &mut Vec<Effect>, v: &[(String, Option<String>)])
    ensures
        effects_say(final(out)@) == effects_say(old(out)@) + kept_originals(originals_say(v@)),
{
    let ghost before = effects_say(out@);
    let ghost all = originals_say(v@);
    proof {
        assert(before + kept_originals(all.take(0)) =~= before);
    }
    for i in 0..v.len()
        invariant
            all == originals_say(v@),
            effects_say(out@) == before + kept_originals(all.take(i as int)),
    {
        proof {
            assert(all.take(i as int + 1).drop_last() =~= all.take(i as int));
            assert(all.take(i as int + 1).last() == (v@[i as int].0@, opt_text(v@[i as int].1)));
        }
        let large = match &v[i].1 {
            Some(c) => longer_than(chars_of(c.as_str()).as_slice(), MAX_ORIGINAL_BYTES),
            None => false,
        };
        if !large {
            add_effect(
                out,
                Effect::SaveOriginal {
                    path: v[i].0.clone(),
                    content: crate::chars::copied_opt(&v[i].1),
                },
            );
        }
        proof {
            assert(effects_say(out@) =~= before + kept_originals(all.take(i as int + 1)));
        }
    }
    proof {
        assert(all.take(v@.len() as int) =~= all);
    }
}

/// Says what a tool that ran leaves behind. `todos` is the list as it is now,
/// and `originals` are the files that the tool was the first to change.
pub fn tool_effects(
    call: &ToolCall,
    is_error: bool,
    todos: &[TodoItem],
    change: Option<&EditDiff>,
    originals: &[(String, Option<String>)],
) -> (r: Vec<Effect>)
    ensures
        effects_say(r@) == left_behind(
            call@,
            is_error,
            todo_items_say(todos@),
            match change {
                Some(c) => Some(c@),
                None => None,
            },
            originals_say(originals@),
        ),
{
    let mut out = no_effects();
    if str_eq(call.name.as_str(), "TodoList") && !is_error {
        let args = parse_args(call.arguments.as_str());
        if args.get("todos").is_some() {
            add_effect(&mut out, Effect::SaveTodos { items: copied_todo_items(todos) });
        }
        show(&mut out, Event::TodoListChanged { items: copied_todo_items(todos) });
    }
    match change {
        Some(c) => {
            if c.additions == 0 && c.deletions == 0 {
                add_effect(&mut out, Effect::ForgetChange { path: c.path.clone() });
            } else {
                add_effect(&mut out, Effect::SaveChange { change: c.copy() });
            }
            show(
                &mut out,
                Event::FileChanged {
                    path: c.path.clone(),
                    unified_diff: c.unified_diff.clone(),
                    additions: c.additions,
                    deletions: c.deletions,
                },
            );
        },
        None => {},
    }
    keep_originals(&mut out, originals);
    out
}

/// Images with the path of the call as their label.
pub open spec fn labelled(v: Seq<ImageV>, label: Option<Seq<char>>) -> Seq<ImageV> {
    v.map_values(|i: ImageV| ImageV { label, ..i })
}

/// Gives the images of a call the path that it names as their label.
pub fn label_images(call: &ToolCall, images: Vec<ChatImage>) -> (r: Vec<ChatImage>)
    ensures
        images_say(r@) == labelled(
            images_say(images@),
            text_at(args_say(call@.arguments), "path"@),
        ),
{
    let label = parse_args(call.arguments.as_str()).str_at("path");
    let mut out: Vec<ChatImage> = Vec::new();
    for i in 0..images.len()
        invariant
            out.len() == i,
            forall|k: int|
                0 <= k < i ==> (#[trigger] out@[k])@ == (ImageV {
                    label: opt_text(label),
                    ..images@[k]@
                }),
    {
        out.push(
            ChatImage {
                media_type: images[i].media_type.clone(),
                data_base64: images[i].data_base64.clone(),
                label: crate::chars::copied_opt(&label),
            },
        );
    }
    proof {
        assert(images_say(out@) =~= labelled(images_say(images@), opt_text(label)));
    }
    out
}

// ---------------------------------------------------------------------------
// Laws
// ---------------------------------------------------------------------------

/// A rule that denies a call is stronger than every mode, every approval and
/// every rule that allows it.
pub proof fn law_deny_wins(
    mode: ExecMode,
    rules: RulesV,
    allowed: Set<(Seq<char>, Seq<char>)>,
    call: CallV,
    tool: Option<Tool>,
)
    requires
        deny_rule(rules, call) is Some,
    ensures
        verdict(mode, rules, allowed, call, tool) is Refuse,
{
}

/// A dangerous command never runs unasked, whatever was allowed before; only
/// the mode without rules passes it.
pub proof fn law_danger_asks(
    mode: ExecMode,
    rules: RulesV,
    allowed: Set<(Seq<char>, Seq<char>)>,
    call: CallV,
    tool: Option<Tool>,
)
    requires
        mode != ExecMode::Yolo,
        command_of(call) is Some,
        danger(command_of(call)->0) is Some,
    ensures
        verdict(mode, rules, allowed, call, tool) != VerdictV::Run,
{
}

/// What the user allowed for the rest of the session is not asked about again,
/// unless it is dangerous.
pub proof fn law_allowed_stays_allowed(
    mode: ExecMode,
    rules: RulesV,
    allowed: Set<(Seq<char>, Seq<char>)>,
    call: CallV,
    again: CallV,
    tool: Option<Tool>,
)
    requires
        approval_key(call) == approval_key(again),
        deny_rule(rules, again) is None,
        call_danger(mode, again) is None,
    ensures
        verdict(
            mode,
            rules,
            approvals_after(allowed, call, None, ApprovalDecision::AlwaysAllow),
            again,
            tool,
        ) == VerdictV::Run,
{
}

/// No answer to a dangerous command is remembered.
pub proof fn law_danger_is_not_remembered(
    allowed: Set<(Seq<char>, Seq<char>)>,
    call: CallV,
    reason: Seq<char>,
    decision: ApprovalDecision,
)
    ensures
        approvals_after(allowed, call, Some(reason), decision) == allowed,
{
}

/// Where no rule denies a call, the command is not dangerous and nothing was
/// allowed before, the user is asked exactly where the mode wants it: before
/// every writing tool and every command where edits are confirmed, and before
/// every command that does more than read where edits are free. In the other
/// modes the user is never asked.
pub proof fn law_who_is_asked(
    mode: ExecMode,
    rules: RulesV,
    allowed: Set<(Seq<char>, Seq<char>)>,
    call: CallV,
    tool: Option<Tool>,
)
    requires
        deny_rule(rules, call) is None,
        call_danger(mode, call) is None,
        !allowed.contains((call.name, subject_of(call))),
        rules.allow.len() == 0,
    ensures
        ({
            let v = verdict(mode, rules, allowed, call, tool);
            let asks = match mode {
                ExecMode::ConfirmBeforeEdit => tool == Some(Tool::Write) || tool == Some(
                    Tool::Edit,
                ) || tool == Some(Tool::Bash),
                ExecMode::AutoEdit => tool == Some(Tool::Bash) && !(call.name == "Bash"@ && (text_at(
                    args_say(call.arguments),
                    "command"@,
                ) matches Some(c) && only_reads(c))),
                ExecMode::FullAccess | ExecMode::Yolo | ExecMode::Plan => false,
            };
            &&& asks ==> v == VerdictV::Ask(None)
            &&& !asks ==> v == VerdictV::Run
        }),
{
}

/// A danger is asked about with its own reason, in every mode but the one
/// without rules.
pub proof fn law_danger_is_told(
    mode: ExecMode,
    rules: RulesV,
    allowed: Set<(Seq<char>, Seq<char>)>,
    call: CallV,
    tool: Option<Tool>,
    c: Seq<char>,
    reason: Seq<char>,
)
    requires
        call.name == "Bash"@,
        text_at(args_say(call.arguments), "command"@) == Some(c),
        danger(c) == Some(reason),
        deny_rule(rules, call) is None,
    ensures
        mode != ExecMode::Yolo ==> verdict(mode, rules, allowed, call, tool) == VerdictV::Ask(
            Some(reason),
        ),
        mode == ExecMode::Yolo ==> verdict(mode, rules, allowed, call, tool) == VerdictV::Run,
        ({
            let shown = detail_of(call, None, Some(reason));
            &&& shown == "⚠️ 高风险命令："@ + reason + "\n\n"@ + c
            &&& detail_of(call, None, None) == c
        }),
{
}

/// A rule of the project that denies a command or the path of a file that is
/// written refuses the call and is named; no rule is asked about other tools.
pub proof fn law_denial_names_its_rule(
    mode: ExecMode,
    rules: RulesV,
    allowed: Set<(Seq<char>, Seq<char>)>,
    call: CallV,
    tool: Option<Tool>,
    subject: Seq<char>,
    raw: Seq<char>,
)
    requires
        denied_by(rules, call.name, subject) == Some(raw),
    ensures
        (call.name == "Bash"@ && text_at(args_say(call.arguments), "command"@) == Some(subject))
            || ((call.name == "Write"@ || call.name == "Edit"@) && text_at(
            args_say(call.arguments),
            "path"@,
        ) == Some(subject)) ==> verdict(mode, rules, allowed, call, tool) == VerdictV::Refuse(
            "项目规则禁止执行: "@ + raw + "（.pigcode/permissions.toml）"@,
        ),
        call.name != "Bash"@ && call.name != "Write"@ && call.name != "Edit"@ ==> !(verdict(
            mode,
            rules,
            allowed,
            call,
            tool,
        ) is Refuse),
{
    lemma_tool_words();
}

proof fn lemma_tool_words()
    ensures
        "Bash"@ != "Write"@,
        "Bash"@ != "Edit"@,
{
    reveal_strlit("Bash");
    reveal_strlit("Write");
    reveal_strlit("Edit");
    assert("Bash"@[0] == 'B' && "Write"@[0] == 'W' && "Edit"@[0] == 'E');
}

/// An answer of the user changes what is allowed for the rest of the session by
/// at most the pair of the tool and what the call is about, and by that one
/// exactly where the user allows it always and there is no danger.
pub proof fn law_approval_covers_its_subject(
    allowed: Set<(Seq<char>, Seq<char>)>,
    call: CallV,
    reason: Option<Seq<char>>,
    decision: ApprovalDecision,
    k: (Seq<char>, Seq<char>),
)
    ensures
        approvals_after(allowed, call, reason, decision).contains(k) <==> allowed.contains(k) || (
        decision == ApprovalDecision::AlwaysAllow && reason is None && k == (
            call.name,
            subject_of(call),
        )),
        call.name == "Write"@ || call.name == "Edit"@ ==> (text_at(
            args_say(call.arguments),
            "path"@,
        ) matches Some(p) ==> subject_of(call) == p),
{
    lemma_tool_words();
}

/// The files that a tool changed are kept as they were, in order and with their
/// own contents, but for those that are too large.
pub proof fn law_originals_are_kept(v: Seq<(Seq<char>, Option<Seq<char>>)>)
    ensures
        kept_originals(v) == v.filter(
            |p: (Seq<char>, Option<Seq<char>>)|
                p.1 is None || byte_len(p.1->0) <= MAX_ORIGINAL_BYTES,
        ).map_values(
            |p: (Seq<char>, Option<Seq<char>>)|
                EffectV::SaveOriginal { path: p.0, content: p.1 },
        ),
    decreases v.len(),
{
    let small = |p: (Seq<char>, Option<Seq<char>>)|
        p.1 is None || byte_len(p.1->0) <= MAX_ORIGINAL_BYTES;
    let save = |p: (Seq<char>, Option<Seq<char>>)|
        EffectV::SaveOriginal { path: p.0, content: p.1 };
    reveal(Seq::filter);
    if v.len() == 0 {
        assert(v.filter(small).map_values(save) =~= Seq::<EffectV>::empty());
    } else {
        let front = v.drop_last();
        law_originals_are_kept(front);
        if small(v.last()) {
            assert(v.filter(small).map_values(save) =~= front.filter(small).map_values(save).push(
                save(v.last()),
            ));
        }
    }
}

/// A change that a tool made is kept with its own path, text and counts and is
/// shown with them; one that leaves the file as it was is forgotten. A to-do
/// list that was set is kept and shown as it is.
pub proof fn law_changes_are_left_behind(
    call: CallV,
    todos: Seq<TodoItemV>,
    c: EditDiffV,
    originals: Seq<(Seq<char>, Option<Seq<char>>)>,
)
    ensures
        ({
            let out = left_behind(call, false, todos, Some(c), originals);
            let seen = EffectV::Emit {
                event: EventV::FileChanged {
                    path: c.path,
                    unified_diff: c.unified_diff,
                    additions: c.additions,
                    deletions: c.deletions,
                },
            };
            &&& out.contains(seen)
            &&& c.additions > 0 || c.deletions > 0 ==> out.contains(
                EffectV::SaveChange { change: c },
            )
            &&& c.additions == 0 && c.deletions == 0 ==> out.contains(
                EffectV::ForgetChange { path: c.path },
            )
            &&& call.name == "TodoList"@ ==> out.contains(
                EffectV::Emit { event: EventV::TodoListChanged { items: todos } },
            )
            &&& call.name == "TodoList"@ && member(args_say(call.arguments), "todos"@) is Some
                ==> out.contains(EffectV::SaveTodos { items: todos })
            &&& forall|i: int|
                0 <= i < kept_originals(originals).len() ==> out.contains(
                    #[trigger] kept_originals(originals)[i],
                )
        }),
{
    let out = left_behind(call, false, todos, Some(c), originals);
    let kept = kept_originals(originals);
    let n = out.len() - kept.len();
    assert forall|i: int| 0 <= i < kept.len() implies out.contains(#[trigger] kept[i]) by {
        assert(out[n + i] == kept[i]);
    }
    assert(out.contains(out[n - 1]));
    assert(out.contains(out[n - 2]));
    if call.name == "TodoList"@ {
        assert(out.contains(out[0]));
        assert(out.contains(out[1]));
    }
}

/// The user sees what a call would write: of a file that is written whole the
/// change from what it holds to the new text, and of an edit the change to what
/// the edit makes of it.
pub proof fn law_user_sees_the_change(
    call: CallV,
    bytes: Option<Seq<u8>>,
    reason: Option<Seq<char>>,
    path: Seq<char>,
    a: Seq<char>,
    b: Seq<char>,
)
    requires
        text_at(args_say(call.arguments), "path"@) == Some(path),
    ensures
        call.name == "Write"@ && text_at(args_say(call.arguments), "content"@) == Some(b)
            && !b.contains('\r') ==> detail_of(call, bytes, reason) == preview(
            path,
            seen_text(bytes),
            b,
        ),
        call.name == "Edit"@ && text_at(args_say(call.arguments), "old_string"@) == Some(a)
            && text_at(args_say(call.arguments), "new_string"@) == Some(b) && is_text(bytes)
            && a.len() > 0 && flag_at(args_say(call.arguments), "replace_all"@) != Some(true) && (
        edit_of(seen_text(bytes), a, b, false) matches Ok(o) && o.tier_note is None) ==> detail_of(
            call,
            bytes,
            reason,
        ) == preview(path, seen_text(bytes), edit_of(seen_text(bytes), a, b, false)->Ok_0.after),
{
    lemma_tool_words();
    reveal_strlit("Write");
    reveal_strlit("Edit");
    assert("Write"@[0] == 'W' && "Edit"@[0] == 'E');
    reveal_strlit("\r\n");
    if !b.contains('\r') {
        crate::chars::lemma_find_sub_from(b, "\r\n"@, 0);
        match find_sub(b, "\r\n"@) {
            Some(k) => {
                assert(b.subrange(k, k + 2)[0] == b[k]);
                assert(b.contains(b[k]));
            },
            None => {},
        }
    }
}

} // verus!
