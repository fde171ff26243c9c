//! Agents that work for a session: what the model may ask of them, the steps
//! of their work, and what comes back.
//!
//! An agent has a conversation of its own and a narrower set of tools. Its
//! calls pass the same gate as those of the session.

use crate::agent::{
    child_may, child_tool_set, choose_subagent_model, find_profile, names, opt_str, profile_meant,
    subagent_endpoint, AgentProfile, ProfileV, DEFAULT_MAX_TURNS,
};
use crate::chars::{
    cat, cat3, cat5, chars_of, copied, decimal, ends_with, finishes, join, joined, number_text,
    opt_text, push_all, push_text, rows, string_of, text_from, texts, trim, trimmed,
};
use crate::json::{
    args_say, flag_at, jnum, jobj, jstr, ms, no_members, num_says, parse_args, put, text_at, Json, JsonV,
};
use crate::order::{sort_texts, sorted};
use crate::paths::{join_path, under};
use crate::protocol::{AppConfig, Event, EventV, ExecMode};
use crate::provider::{
    images_say, msg_json, msg_to_json, msgs_say, or_empty, system_msg, tool_msg, user_msg, CallV,
    ChatImage, ChatMsg, ImageV, MsgV, ResolvedModel, ResolvedV, ToolCall,
};
use crate::session::{
    answers, copied_calls, one_over, reply_message, RunV, Sample, Session, SessionV, StepRun,
    TurnTotals,
};
use crate::stream::{wrap_sum, wrapped, ProviderEvent, ReplyV};
use crate::task::{running_at, TaskEntryV, TaskRegistry};
use crate::tool::{all, all_built_in, find_tool, summarize, summary_of, tool_named, Tool};
use vstd::prelude::*;
use vstd::slice::slice_subrange;

verus! {

// ---------------------------------------------------------------------------
// What the model asks for
// ---------------------------------------------------------------------------

/// What the model asks of an agent.
#[derive(Debug)]
pub struct Wish {
    pub description: String,
    pub prompt: String,
    pub background: bool,
    /// The agent to go on with; empty for a new one.
    pub resume: String,
    /// The profile of a new agent; empty for the general one.
    pub subagent_type: String,
}

/// What a `Wish` says.
#[verifier::ext_equal]
pub struct WishV {
    pub description: Seq<char>,
    pub prompt: Seq<char>,
    pub background: bool,
    pub resume: Seq<char>,
    pub subagent_type: Seq<char>,
}

impl View for Wish {
    type V = WishV;

    open spec fn view(&self) -> WishV {
        WishV {
            description: self.description@,
            prompt: self.prompt@,
            background: self.background,
            resume: self.resume@,
            subagent_type: self.subagent_type@,
        }
    }
}

/// A member of the arguments without white space around it.
pub open spec fn plain_member(args: JsonV, key: Seq<char>) -> Seq<char> {
    trim(or_empty(text_at(args, key)))
}

/// What the model asks of an agent, or why it cannot have it.
pub open spec fn wish_of(call: CallV, mode: ExecMode) -> Result<WishV, Seq<char>> {
    let args = args_say(call.arguments);
    let w = WishV {
        description: plain_member(args, "description"@),
        prompt: plain_member(args, "prompt"@),
        background: flag_at(args, "run_in_background"@) == Some(true),
        resume: plain_member(args, "resume"@),
        subagent_type: plain_member(args, "subagent_type"@),
    };
    if w.description.len() == 0 {
        Err("Agent 缺少参数 description（3-5 词任务简述）"@)
    } else if w.prompt.len() == 0 {
        Err("Agent 缺少参数 prompt（完整自包含的任务简报）"@)
    } else if w.resume.len() > 0 && w.subagent_type.len() > 0 {
        Err("resume 与 subagent_type 互斥：续跑已有子代理时不能指定类型"@)
    } else if mode == ExecMode::Plan {
        Err(
            "计划模式下不可委派子代理（子代理可能修改文件）。请先用只读工具自行调研并输出计划，或退出计划模式后再委派。"@,
        )
    } else {
        Ok(w)
    }
}

fn plain_text(args: &Json, key: &str) -> (r: Vec<char>)
    ensures
        r@ == plain_member(args.says(), key@),
{
    match args.str_at(key) {
        Some(t) => {
            let v = chars_of(t.as_str());
            copied(trimmed(v.as_slice()))
        },
        None => {
            let v: Vec<char> = Vec::new();
            copied(trimmed(v.as_slice()))
        },
    }
}

/// Reads what the model asks of an agent. In plan mode no agent works.
pub fn read_wish(call: &ToolCall, mode: ExecMode) -> (r: Result<Wish, String>)
    ensures
        match r {
            Ok(w) => wish_of(call@, mode) == Ok::<WishV, Seq<char>>(w@),
            Err(e) => wish_of(call@, mode) == Err::<WishV, Seq<char>>(e@),
        },
{
    let args = parse_args(call.arguments.as_str());
    let description = plain_text(&args, "description");
    if description.len() == 0 {
        return Err(text_from("Agent 缺少参数 description（3-5 词任务简述）"));
    }
    let prompt = plain_text(&args, "prompt");
    if prompt.len() == 0 {
        return Err(text_from("Agent 缺少参数 prompt（完整自包含的任务简报）"));
    }
    let background = match args.bool_at("run_in_background") {
        Some(b) => b,
        None => false,
    };
    let resume = plain_text(&args, "resume");
    let subagent_type = plain_text(&args, "subagent_type");
    if resume.len() > 0 && subagent_type.len() > 0 {
        return Err(text_from("resume 与 subagent_type 互斥：续跑已有子代理时不能指定类型"));
    }
    if mode == ExecMode::Plan {
        return Err(
            text_from(
                "计划模式下不可委派子代理（子代理可能修改文件）。请先用只读工具自行调研并输出计划，或退出计划模式后再委派。",
            ),
        );
    }
    Ok(
        Wish {
            description: string_of(description.as_slice()),
            prompt: string_of(prompt.as_slice()),
            background,
            resume: string_of(resume.as_slice()),
            subagent_type: string_of(subagent_type.as_slice()),
        },
    )
}

/// The profile that a wish names: that of the agent to go on with, or the one
/// asked for, or the general one.
pub open spec fn wanted_profile(w: WishV, resumed: Option<Seq<char>>) -> Seq<char> {
    match resumed {
        Some(p) => p,
        None => if w.subagent_type.len() == 0 {
            "general-purpose"@
        } else {
            w.subagent_type
        },
    }
}

/// Finds the profile that a wish names. `resumed` is the profile of the agent
/// to go on with; it is looked up as the profiles are now.
pub fn choose_profile<'a>(
    wish: &Wish,
    profiles: &'a [AgentProfile],
    resumed: Option<&str>,
) -> (r: Result<&'a AgentProfile, String>)
    ensures
        match r {
            Ok(p) => profile_meant(
                names(profiles@),
                wanted_profile(wish@, opt_str(resumed)),
            ) matches Ok(i) && 0 <= i < profiles@.len() && *p == profiles@[i],
            Err(e) => profile_meant(
                names(profiles@),
                wanted_profile(wish@, opt_str(resumed)),
            ) == Err::<int, Seq<char>>(e@),
        },
{
    match resumed {
        Some(p) => find_profile(profiles, p),
        None => {
            if chars_of(wish.subagent_type.as_str()).len() == 0 {
                find_profile(profiles, "general-purpose")
            } else {
                find_profile(profiles, wish.subagent_type.as_str())
            }
        },
    }
}

/// The name of a new agent: when it began, and which one it is of the session.
pub open spec fn agent_name(now: u64, n: u64) -> Seq<char> {
    "a"@ + decimal(now as nat) + "-"@ + decimal(n as nat)
}

/// Names the next agent of a session, and counts it.
pub fn next_agent_id(agent_seq: &mut u64, now: u64) -> (r: String)
    ensures
        *final(agent_seq) == wrapped(*old(agent_seq), 1),
        r@ == agent_name(now, *final(agent_seq)),
{
    *agent_seq = wrap_sum(*agent_seq, 1);
    let mut out = chars_of("a");
    push_text(&mut out, number_text(now).as_str());
    push_text(&mut out, "-");
    push_text(&mut out, number_text(*agent_seq).as_str());
    string_of(out.as_slice())
}

/// The agent that a file holds, if it holds one.
pub open spec fn agent_of_file(name: Seq<char>) -> Option<Seq<char>> {
    if name.len() > ".jsonl"@.len() && ends_with(name, ".jsonl"@) {
        Some(name.take(name.len() - ".jsonl"@.len()))
    } else {
        None
    }
}

/// The agents that files hold.
pub open spec fn agents_of(files: Seq<Seq<char>>) -> Seq<Seq<char>>
    decreases files.len(),
{
    if files.len() == 0 {
        Seq::empty()
    } else {
        match agent_of_file(files.last()) {
            Some(a) => agents_of(files.drop_last()).push(a),
            None => agents_of(files.drop_last()),
        }
    }
}

/// What the model is told when the agent to go on with is not there.
pub open spec fn missing_note(resume: Seq<char>, files: Seq<Seq<char>>) -> Seq<char> {
    let ids = sorted(agents_of(files));
    "子代理 \""@ + resume + "\" 不存在。可用: "@ + if ids.len() == 0 {
        "（无）"@
    } else {
        join(ids, ", "@)
    }
}

/// Writes what the model is told when the agent to go on with is not there.
/// `files` are the names in the directory of the session's agents.
pub fn missing_agent(resume: &str, files: &[String]) -> (r: String)
    ensures
        r@ == missing_note(resume@, texts(files@)),
{
    let ghost all = texts(files@);
    let mut ids: Vec<Vec<char>> = Vec::new();
    proof {
        assert(rows(ids@) =~= Seq::<Seq<char>>::empty());
        reveal_strlit(".jsonl");
    }
    for i in 0..files.len()
        invariant
            all == texts(files@),
            ".jsonl"@.len() == 6,
            rows(ids@) == agents_of(all.take(i as int)),
    {
        let ghost before = rows(ids@);
        proof {
            assert(all.take(i as int + 1).drop_last() =~= all.take(i as int));
            assert(all.take(i as int + 1).last() == files@[i as int]@);
        }
        let v = chars_of(files[i].as_str());
        if v.len() > 6 && finishes(v.as_slice(), ".jsonl") {
            let stem = copied(slice_subrange(v.as_slice(), 0, v.len() - 6));
            proof {
                assert(v@.subrange(0, v.len() - 6) =~= v@.take(v.len() - 6));
            }
            ids.push(stem);
            proof {
                assert(rows(ids@) =~= before.push(stem@));
            }
        }
    }
    proof {
        assert(all.take(files@.len() as int) =~= all);
    }
    let s = sort_texts(ids.as_slice());
    let list = if s.len() == 0 {
        chars_of("（无）")
    } else {
        joined(s.as_slice(), ", ")
    };
    proof {
        assert(rows(s@).len() == s@.len());
    }
    let mut out = chars_of("子代理 \"");
    push_text(&mut out, resume);
    push_text(&mut out, "\" 不存在。可用: ");
    push_all(&mut out, list.as_slice());
    string_of(out.as_slice())
}

/// What the model is told when the agent to go on with is still at work.
pub open spec fn busy_note(tasks: Seq<TaskEntryV>, resume: Seq<char>) -> Option<Seq<char>> {
    match running_at(tasks, resume, 0) {
        Some(i) => Some(
            "该子代理仍在运行（task_id "@ + tasks[i].id + "），可用 TaskStop 停止后再续跑"@,
        ),
        None => None,
    }
}

/// Says why an agent cannot go on, where it is still at work.
pub fn still_running(tasks: &TaskRegistry, resume: &str) -> (r: Option<String>)
    ensures
        opt_text(r) == busy_note(tasks@.tasks, resume@),
{
    match tasks.running_agent(resume) {
        Some(id) => Some(
            cat3("该子代理仍在运行（task_id ", id.as_str(), "），可用 TaskStop 停止后再续跑"),
        ),
        None => None,
    }
}

/// The model of an agent: as its profile says; without a configuration only
/// the session's own can be had.
pub open spec fn child_endpoint(
    config: Option<AppConfig>,
    parent: ResolvedV,
    profile: ProfileV,
) -> Result<ResolvedV, Seq<char>> {
    match config {
        Some(c) => subagent_endpoint(c, parent, profile),
        None => if profile.model is Some {
            Err("未加载应用配置，无法解析子代理指定模型"@)
        } else {
            Ok(parent)
        },
    }
}

/// What an optional configuration is.
pub open spec fn opt_config(c: Option<&AppConfig>) -> Option<AppConfig> {
    match c {
        Some(x) => Some(*x),
        None => None,
    }
}

/// Finds the model of an agent.
pub fn child_model(config: Option<&AppConfig>, parent: &ResolvedModel, profile: &AgentProfile) -> (r:
    Result<ResolvedModel, String>)
    ensures
        match r {
            Ok(m) => child_endpoint(opt_config(config), parent@, profile@) == Ok::<
                ResolvedV,
                Seq<char>,
            >(m@),
            Err(e) => child_endpoint(opt_config(config), parent@, profile@) == Err::<
                ResolvedV,
                Seq<char>,
            >(e@),
        },
{
    match config {
        Some(c) => choose_subagent_model(c, parent, profile),
        None => if profile.model.is_some() {
            Err(text_from("未加载应用配置，无法解析子代理指定模型"))
        } else {
            Ok(parent.copy())
        },
    }
}

/// The tools among `v` that an agent has.
pub open spec fn child_tools_of(v: Seq<Tool>, profile: ProfileV, input_image: bool) -> Seq<Tool>
    decreases v.len(),
{
    if v.len() == 0 {
        Seq::empty()
    } else if child_may(profile.tools, input_image, v.last().name_text()) {
        child_tools_of(v.drop_last(), profile, input_image).push(v.last())
    } else {
        child_tools_of(v.drop_last(), profile, input_image)
    }
}

/// The tools of an agent: the built-in ones that its profile leaves in.
pub fn child_tools(profile: &AgentProfile, input_image: bool) -> (r: Vec<Tool>)
    ensures
        r@ == child_tools_of(all_built_in(), profile@, input_image),
{
    let every = all();
    let ghost v = every@;
    let mut out: Vec<Tool> = Vec::new();
    for i in 0..every.len()
        invariant
            v == every@,
            out@ == child_tools_of(v.take(i as int), profile@, input_image),
    {
        proof {
            assert(v.take(i as int + 1).drop_last() =~= v.take(i as int));
            assert(v.take(i as int + 1).last() == every@[i as int]);
        }
        let mut name: Vec<String> = Vec::new();
        name.push(text_from(every[i].name()));
        let kept = child_tool_set(profile, name.as_slice(), input_image);
        proof {
            let one = texts(name@);
            let may = |n: Seq<char>| child_may(profile@.tools, input_image, n);
            assert(one =~= seq![every@[i as int].name_text()]);
            reveal(Seq::filter);
            assert(one.drop_last() =~= Seq::<Seq<char>>::empty());
            assert(one.drop_last().filter(may) =~= Seq::<Seq<char>>::empty());
            assert(texts(kept@).len() == kept@.len());
        }
        if kept.len() > 0 {
            out.push(every[i]);
        }
    }
    proof {
        assert(v.take(every@.len() as int) =~= v);
    }
    out
}

// ---------------------------------------------------------------------------
// What is kept of an agent
// ---------------------------------------------------------------------------

/// The first line of what is kept of an agent.
pub open spec fn agent_head(
    agent_id: Seq<char>,
    profile: Seq<char>,
    description: Seq<char>,
    model: Seq<char>,
    provider: Seq<char>,
    now: u64,
) -> JsonV {
    JsonV::Obj(
        ms().push(("agent_id"@, JsonV::Str(agent_id))).push(("created_at"@, num_says(now))).push(
            ("description"@, JsonV::Str(description)),
        ).push(("model"@, JsonV::Str(model))).push(("profile"@, JsonV::Str(profile))).push(
            ("provider"@, JsonV::Str(provider)),
        ).push(("type"@, JsonV::Str("meta"@))),
    )
}

/// Makes the first line of what is kept of an agent.
pub fn agent_meta_line(
    agent_id: &str,
    profile: &str,
    description: &str,
    model: &str,
    provider: &str,
    now: u64,
) -> (r: Json)
    ensures
        r.says() == agent_head(agent_id@, profile@, description@, model@, provider@, now),
{
    let mut m = no_members();
    put(&mut m, "agent_id", jstr(agent_id));
    put(&mut m, "created_at", jnum(now));
    put(&mut m, "description", jstr(description));
    put(&mut m, "model", jstr(model));
    put(&mut m, "profile", jstr(profile));
    put(&mut m, "provider", jstr(provider));
    put(&mut m, "type", jstr("meta"));
    jobj(m)
}

/// The line that keeps a message of an agent: without its images.
pub open spec fn agent_line(m: MsgV) -> JsonV {
    JsonV::Obj(
        ms().push(("msg"@, msg_json(MsgV { images: Seq::empty(), ..m }))).push(
            ("type"@, JsonV::Str("msg"@)),
        ),
    )
}

/// Makes the line that keeps a message of an agent.
pub fn agent_message_line(m: &ChatMsg) -> (r: Json)
    ensures
        r.says() == agent_line(m@),
{
    let mut plain = m.copy();
    plain.images = Vec::new();
    proof {
        assert(images_say(plain.images@) =~= Seq::<ImageV>::empty());
    }
    let mut o = no_members();
    put(&mut o, "msg", msg_to_json(&plain));
    put(&mut o, "type", jstr("msg"));
    jobj(o)
}

// ---------------------------------------------------------------------------
// The work of an agent
// ---------------------------------------------------------------------------

/// The tokens that an agent has used.
#[derive(Clone, Copy, Debug, PartialEq, Eq, Structural)]
pub struct Used {
    pub input: u64,
    pub cache_read: u64,
    pub output: u64,
}

/// An agent at work.
#[derive(Debug)]
pub struct Drive {
    pub agent_id: String,
    pub profile: String,
    pub description: String,
    pub tools: Vec<Tool>,
    pub history: Vec<ChatMsg>,
    pub max_turns: usize,
    /// How many steps it has begun.
    pub step: usize,
    /// The text of its last reply.
    pub last_text: String,
    pub used: Used,
}

/// What a `Drive` says.
#[verifier::ext_equal]
pub struct DriveV {
    pub agent_id: Seq<char>,
    pub profile: Seq<char>,
    pub description: Seq<char>,
    pub tools: Seq<Tool>,
    pub history: Seq<MsgV>,
    pub max_turns: usize,
    pub step: usize,
    pub last_text: Seq<char>,
    pub used: Used,
}

impl View for Drive {
    type V = DriveV;

    open spec fn view(&self) -> DriveV {
        DriveV {
            agent_id: self.agent_id@,
            profile: self.profile@,
            description: self.description@,
            tools: self.tools@,
            history: msgs_say(self.history@),
            max_turns: self.max_turns,
            step: self.step,
            last_text: self.last_text@,
            used: self.used,
        }
    }
}

/// Where the progress of an agent is told.
#[derive(Debug)]
pub enum ProgressSink {
    /// On the card of the call that started it.
    Foreground { parent_item_id: String },
    /// In the output of its task.
    Background { task_id: String },
}

impl ProgressSink {
    /// What the names of the agent's calls begin with.
    pub open spec fn prefix_text(&self) -> Seq<char> {
        match self {
            ProgressSink::Foreground { parent_item_id } => parent_item_id@,
            ProgressSink::Background { task_id } => task_id@,
        }
    }

    /// What the names of the agent's calls begin with.
    pub fn item_prefix(&self) -> (r: &str)
        ensures
            r@ == self.prefix_text(),
    {
        match self {
            ProgressSink::Foreground { parent_item_id } => parent_item_id.as_str(),
            ProgressSink::Background { task_id } => task_id.as_str(),
        }
    }

    /// Tells progress: as an event on the card, or as a line for the task.
    pub fn report(&self, note: String) -> (r: Result<Event, String>)
        ensures
            match (self, r) {
                (ProgressSink::Foreground { parent_item_id }, Ok(e)) => e@
                    == (EventV::SubagentProgress { item_id: parent_item_id@, note: note@ }),
                (ProgressSink::Background { task_id }, Err(line)) => line@ == note@ + "\n"@,
                _ => false,
            },
    {
        match self {
            ProgressSink::Foreground { parent_item_id } => Ok(
                Event::SubagentProgress { item_id: parent_item_id.clone(), note },
            ),
            ProgressSink::Background { task_id: _ } => Err(cat(note.as_str(), "\n")),
        }
    }
}

/// What is told of a step.
pub open spec fn step_note(step: usize, what: Seq<char>) -> Seq<char> {
    "第 "@ + decimal(step as nat) + " 步 · "@ + what
}

/// The name of a call of an agent.
pub open spec fn child_item(sink: Seq<char>, step: usize, call: CallV) -> Seq<char> {
    sink + "-c"@ + decimal(step as nat) + "-"@ + call.id
}

/// Tokens after those of one more request.
pub open spec fn used_after(u: Used, e: ReplyV) -> Used {
    match e {
        ReplyV::Usage { input, cache_read, output, used: _, total: _ } => Used {
            input: wrapped(u.input, input),
            cache_read: wrapped(u.cache_read, cache_read),
            output: wrapped(u.output, output),
        },
        _ => u,
    }
}

/// What the model is told of a tool that an agent does not have.
pub open spec fn unknown_tool(name: Seq<char>) -> Seq<char> {
    "未知工具 "@ + name + "（子代理可用工具已收窄）"@
}

/// An agent after the result of a call.
pub open spec fn child_answered(
    d: DriveV,
    call: CallV,
    output: Seq<char>,
    images: Seq<ImageV>,
) -> DriveV {
    DriveV { history: d.history.push(tool_msg(call.id, output, images)), ..d }
}

/// What becomes of a call of an agent.
#[derive(Debug)]
pub enum ChildCall {
    /// The agent does not have the tool; it has been told.
    Unknown,
    /// It goes to the guard under this name.
    Gate { tool: Tool, item_id: String },
}

impl Drive {
    fn push_message(&mut self, m: ChatMsg)
        ensures
            final(self)@ == (DriveV { history: old(self)@.history.push(m@), ..old(self)@ }),
    {
        let ghost h = msgs_say(self.history@);
        let ghost v = m@;
        self.history.push(m);
        proof {
            assert(msgs_say(self.history@) =~= h.push(v));
        }
    }

    /// Sets an agent to work on a task. `history` is the conversation that it
    /// goes on with; a new agent has none.
    pub fn new(
        agent_id: &str,
        profile: &AgentProfile,
        wish: &Wish,
        input_image: bool,
        system: String,
        history: Vec<ChatMsg>,
    ) -> (r: Self)
        ensures
            r@ == (DriveV {
                agent_id: agent_id@,
                profile: profile@.name,
                description: wish@.description,
                tools: child_tools_of(all_built_in(), profile@, input_image),
                history: (if wish@.resume.len() == 0 {
                    Seq::<MsgV>::empty().push(system_msg(system@))
                } else {
                    msgs_say(history@)
                }).push(user_msg(wish@.prompt)),
                max_turns: match profile@.max_turns {
                    Some(n) => n,
                    None => DEFAULT_MAX_TURNS,
                },
                step: 0,
                last_text: Seq::empty(),
                used: (Used { input: 0, cache_read: 0, output: 0 }),
            }),
    {
        let start: Vec<ChatMsg> = if chars_of(wish.resume.as_str()).len() == 0 {
            let mut v: Vec<ChatMsg> = Vec::new();
            let ghost sys = system@;
            v.push(ChatMsg::system(system));
            proof {
                assert(msgs_say(v@) =~= Seq::<MsgV>::empty().push(system_msg(sys)));
            }
            v
        } else {
            history
        };
        let max_turns: usize = match profile.max_turns {
            Some(n) => n,
            None => DEFAULT_MAX_TURNS,
        };
        let mut d = Drive {
            agent_id: text_from(agent_id),
            profile: profile.name.clone(),
            description: wish.description.clone(),
            tools: child_tools(profile, input_image),
            history: start,
            max_turns,
            step: 0,
            last_text: String::new(),
            used: Used { input: 0, cache_read: 0, output: 0 },
        };
        proof {
            assert(d.last_text@ =~= Seq::<char>::empty());
        }
        d.push_message(ChatMsg::user(wish.prompt.clone()));
        d
    }

    /// Begins the next step and says so; there is none where the steps are
    /// used up.
    pub fn begin_step(&mut self) -> (r: Option<String>)
        requires
            old(self)@.step <= old(self)@.max_turns,
        ensures
            final(self)@.step <= final(self)@.max_turns,
            match r {
                Some(t) => old(self)@.step < old(self)@.max_turns && final(self)@ == (DriveV {
                    step: (old(self)@.step + 1) as usize,
                    ..old(self)@
                }) && t@ == step_note(final(self)@.step, "思考中…"@),
                None => old(self)@.step == old(self)@.max_turns && final(self)@ == old(self)@,
            },
    {
        if self.step >= self.max_turns {
            return None;
        }
        self.step = self.step + 1;
        let n = number_text(self.step as u64);
        let mut out = chars_of("第 ");
        push_text(&mut out, n.as_str());
        push_text(&mut out, " 步 · ");
        push_text(&mut out, "思考中…");
        Some(string_of(out.as_slice()))
    }

    /// Counts the tokens of an event of the provider.
    pub fn take_event(&mut self, event: &ProviderEvent)
        ensures
            final(self)@ == (DriveV {
                used: used_after(old(self)@.used, event@),
                ..old(self)@
            }),
    {
        match event {
            ProviderEvent::Usage { input, cache_read, output, used: _, total: _ } => {
                self.used = Used {
                    input: wrap_sum(self.used.input, *input),
                    cache_read: wrap_sum(self.used.cache_read, *cache_read),
                    output: wrap_sum(self.used.output, *output),
                };
            },
            _ => {},
        }
    }

    /// Takes a reply into the agent's conversation. Gives the calls that it
    /// makes; with none the agent is done.
    pub fn end_reply(&mut self, sample: &Sample) -> (r: StepRun)
        ensures
            final(self)@ == (DriveV {
                history: old(self)@.history.push(reply_message(sample@)),
                last_text: sample@.text,
                ..old(self)@
            }),
            r@ == (RunV {
                turn_id: Seq::empty(),
                calls: sample@.calls,
                next: 0,
                base: final(self)@.history.len(),
            }),
            answers(final(self)@.history, r@),
    {
        let m = ChatMsg::assistant(
            sample.text.clone(),
            copied_calls(sample.calls.as_slice()),
            Some(sample.reasoning.clone()),
        );
        self.push_message(m);
        self.last_text = sample.text.clone();
        let run = StepRun {
            turn_id: String::new(),
            calls: copied_calls(sample.calls.as_slice()),
            next: 0,
            base: self.history.len(),
        };
        proof {
            assert(run.turn_id@ =~= Seq::<char>::empty());
            assert(msgs_say(self.history@).len() == self.history@.len());
        }
        run
    }

    /// Answers the call at hand in the agent's conversation.
    pub fn answer(&mut self, run: &mut StepRun, output: String, images: Vec<ChatImage>)
        requires
            answers(old(self)@.history, old(run)@),
            old(run)@.next < old(run)@.calls.len(),
        ensures
            final(self)@ == child_answered(
                old(self)@,
                old(run)@.calls[old(run)@.next as int],
                output@,
                images_say(images@),
            ),
            final(run)@ == one_over(old(run)@),
            answers(final(self)@.history, final(run)@),
    {
        let ghost h = self@.history;
        let ghost before = run@;
        let i: usize = run.next;
        let total: usize = run.calls.len();
        proof {
            assert(before.calls[i as int] == run.calls@[i as int]@);
            assert(i < total);
        }
        let m = ChatMsg::tool_result_with_images(run.calls[i].id.as_str(), output, images);
        self.push_message(m);
        run.next = i + 1;
        proof {
            let now = self@.history;
            assert forall|k: int| 0 <= k < run@.next implies (#[trigger] now[run@.base + k]).role
                == "tool"@ && now[run@.base + k].tool_call_id == Some(run@.calls[k].id) by {
                if k < before.next {
                    assert(now[run@.base + k] == h[before.base + k]);
                }
            }
        }
    }

    /// Begins the call at hand: says so, and sends it to the guard if the agent
    /// has the tool.
    pub fn begin_call(&mut self, run: &mut StepRun, sink: &ProgressSink) -> (r: (String, ChildCall))
        requires
            answers(old(self)@.history, old(run)@),
            old(run)@.next < old(run)@.calls.len(),
        ensures
            answers(final(self)@.history, final(run)@),
            ({
                let call = old(run)@.calls[old(run)@.next as int];
                &&& r.0@ == step_note(old(self)@.step, summary_of(call))
                &&& match tool_named(old(self)@.tools, call.name, 0) {
                    Some(t) => final(self)@ == old(self)@ && final(run)@ == old(run)@ && (
                    r.1 matches ChildCall::Gate { tool, item_id } && tool == t && item_id@
                        == child_item(sink.prefix_text(), old(self)@.step, call)),
                    None => r.1 is Unknown && final(self)@ == child_answered(
                        old(self)@,
                        call,
                        unknown_tool(call.name),
                        Seq::empty(),
                    ) && final(run)@ == one_over(old(run)@),
                }
            }),
    {
        let i: usize = run.next;
        let call = run.calls[i].copy();
        proof {
            assert(run@.calls[i as int] == call@);
        }
        let n = number_text(self.step as u64);
        let mut told = chars_of("第 ");
        push_text(&mut told, n.as_str());
        push_text(&mut told, " 步 · ");
        push_text(&mut told, summarize(&call).as_str());
        let told = string_of(told.as_slice());
        match find_tool(self.tools.as_slice(), call.name.as_str()) {
            Some(tool) => {
                let item_id = cat5(sink.item_prefix(), "-c", n.as_str(), "-", call.id.as_str());
                (told, ChildCall::Gate { tool, item_id })
            },
            None => {
                let none: Vec<ChatImage> = Vec::new();
                proof {
                    assert(images_say(none@) =~= Seq::<ImageV>::empty());
                }
                let text = cat3("未知工具 ", call.name.as_str(), "（子代理可用工具已收窄）");
                self.answer(run, text, none);
                (told, ChildCall::Unknown)
            },
        }
    }
}

// ---------------------------------------------------------------------------
// What comes back
// ---------------------------------------------------------------------------

/// How many characters of an agent's result the model gets.
pub const MAX_RESULT_CHARS: usize = 32000;

/// How the work of an agent ended.
#[derive(Debug)]
pub enum DriveEnd {
    /// Its last reply made no call.
    Completed,
    /// Its steps are used up.
    UsedUp,
    /// A request failed.
    Failed(String),
    /// It was stopped.
    Cancelled,
}

/// What an agent's work came to.
#[derive(Debug)]
pub struct DriveResult {
    pub status_line: String,
    pub result_text: String,
    pub turns: usize,
    pub completed: bool,
    pub is_error: bool,
    pub used: Used,
    pub cancelled: bool,
}

/// What a `DriveResult` says.
#[verifier::ext_equal]
pub struct DriveResultV {
    pub status_line: Seq<char>,
    pub result_text: Seq<char>,
    pub turns: usize,
    pub completed: bool,
    pub is_error: bool,
    pub used: Used,
    pub cancelled: bool,
}

impl View for DriveResult {
    type V = DriveResultV;

    open spec fn view(&self) -> DriveResultV {
        DriveResultV {
            status_line: self.status_line@,
            result_text: self.result_text@,
            turns: self.turns,
            completed: self.completed,
            is_error: self.is_error,
            used: self.used,
            cancelled: self.cancelled,
        }
    }
}

/// Whether a result is too long for the model.
pub fn is_long_result(text: &str) -> (r: bool)
    ensures
        r == (text@.len() > MAX_RESULT_CHARS),
{
    chars_of(text).len() > MAX_RESULT_CHARS
}

/// The file that holds an agent's result in full.
pub open spec fn result_file(cwd: Seq<char>, agent_id: Seq<char>) -> Seq<char> {
    under(under(under(cwd, ".pigcode"@), "tool-results"@), "agent-"@ + agent_id + ".md"@)
}

/// Names the file that holds an agent's result in full.
pub fn result_path(cwd: &str, agent_id: &str) -> (r: String)
    ensures
        r@ == result_file(cwd@, agent_id@),
{
    let a = join_path(cwd, ".pigcode");
    let b = join_path(a.as_str(), "tool-results");
    let name = cat3("agent-", agent_id, ".md");
    join_path(b.as_str(), name.as_str())
}

/// The hint behind a result that was cut: the file that holds it in full, or
/// why there is none.
pub open spec fn rest_hint(saved: Result<Seq<char>, Seq<char>>) -> Seq<char> {
    match saved {
        Ok(path) => "\n\n[结果过长已截断，全文: "@ + path + "]"@,
        Err(e) => "\n\n[结果过长已截断，全文落盘失败: "@ + e + "]"@,
    }
}

/// A result as the model gets it: cut where it is too long, with a hint where
/// the rest is.
pub open spec fn short_result(text: Seq<char>, saved: Result<Seq<char>, Seq<char>>) -> Seq<char> {
    if text.len() <= MAX_RESULT_CHARS {
        text
    } else {
        text.take(MAX_RESULT_CHARS as int) + rest_hint(saved)
    }
}

/// Cuts a result for the model. `saved` is the file that holds it in full, or
/// why it could not be written.
pub fn truncate_agent_result(result: &str, saved: &Result<String, String>) -> (r: String)
    ensures
        r@ == short_result(result@, crate::session::read_say(*saved)),
{
    let v = chars_of(result);
    if v.len() <= MAX_RESULT_CHARS {
        return text_from(result);
    }
    let mut out = copied(slice_subrange(v.as_slice(), 0, MAX_RESULT_CHARS));
    let ghost head = out@;
    let mut hint = match saved {
        Ok(path) => {
            let mut t = chars_of("\n\n[结果过长已截断，全文: ");
            push_text(&mut t, path.as_str());
            t
        },
        Err(e) => {
            let mut t = chars_of("\n\n[结果过长已截断，全文落盘失败: ");
            push_text(&mut t, e.as_str());
            t
        },
    };
    push_text(&mut hint, "]");
    proof {
        assert(head =~= result@.take(MAX_RESULT_CHARS as int));
    }
    push_all(&mut out, hint.as_slice());
    string_of(out.as_slice())
}

/// What the failure of a request is called.
pub open spec fn failure_note(error: Seq<char>) -> Seq<char> {
    "子代理模型请求失败: "@ + error
}

/// What an agent's work came to.
pub open spec fn result_of(d: DriveV, end: DriveEnd, saved: Result<Seq<char>, Seq<char>>) -> DriveResultV {
    let r = DriveResultV {
        status_line: Seq::empty(),
        result_text: Seq::empty(),
        turns: d.step,
        completed: false,
        is_error: false,
        used: d.used,
        cancelled: false,
    };
    let limit = decimal(d.max_turns as nat);
    match end {
        DriveEnd::Failed(e) => DriveResultV {
            status_line: "failed: "@ + failure_note(e@),
            result_text: failure_note(e@),
            is_error: true,
            ..r
        },
        DriveEnd::Cancelled => DriveResultV { status_line: "cancelled"@, cancelled: true, ..r },
        DriveEnd::Completed => if d.last_text.len() == 0 {
            DriveResultV {
                status_line: "failed: 子代理未产出最终文本"@,
                result_text: "子代理未产出最终文本"@,
                completed: true,
                is_error: true,
                ..r
            }
        } else {
            DriveResultV {
                status_line: "completed（"@ + decimal(d.step as nat) + " 步）"@,
                result_text: short_result(d.last_text, saved),
                completed: true,
                ..r
            }
        },
        DriveEnd::UsedUp => if d.last_text.len() == 0 {
            DriveResultV {
                status_line: "failed: 已达最大轮次 "@ + limit + "，子代理未产出结论"@,
                result_text: "已达最大轮次 "@ + limit + "。子代理未产出结论"@,
                is_error: true,
                ..r
            }
        } else {
            DriveResultV {
                status_line: "completed（已达最大轮次 "@ + limit + "）"@,
                result_text: "已达最大轮次 "@ + limit + "。"@ + d.last_text,
                ..r
            }
        },
    }
}

impl Drive {
    /// Says what the work came to. `saved` is the file that holds a long
    /// result in full, or why it could not be written.
    pub fn result(&self, end: &DriveEnd, saved: &Result<String, String>) -> (r: DriveResult)
        ensures
            r@ == result_of(self@, *end, crate::session::read_say(*saved)),
    {
        let silent = chars_of(self.last_text.as_str()).len() == 0;
        let limit = number_text(self.max_turns as u64);
        let mut r = DriveResult {
            status_line: String::new(),
            result_text: String::new(),
            turns: self.step,
            completed: false,
            is_error: false,
            used: self.used,
            cancelled: false,
        };
        proof {
            assert(r.status_line@ =~= Seq::<char>::empty());
            assert(r.result_text@ =~= Seq::<char>::empty());
        }
        match end {
            DriveEnd::Failed(e) => {
                r.result_text = cat("子代理模型请求失败: ", e.as_str());
                r.status_line = cat("failed: ", r.result_text.as_str());
                r.is_error = true;
            },
            DriveEnd::Cancelled => {
                r.status_line = text_from("cancelled");
                r.cancelled = true;
            },
            DriveEnd::Completed => {
                r.completed = true;
                if silent {
                    r.status_line = text_from("failed: 子代理未产出最终文本");
                    r.result_text = text_from("子代理未产出最终文本");
                    r.is_error = true;
                } else {
                    let n = number_text(self.step as u64);
                    r.status_line = cat3("completed（", n.as_str(), " 步）");
                    r.result_text = truncate_agent_result(self.last_text.as_str(), saved);
                }
            },
            DriveEnd::UsedUp => {
                if silent {
                    r.status_line = cat3(
                        "failed: 已达最大轮次 ",
                        limit.as_str(),
                        "，子代理未产出结论",
                    );
                    r.result_text = cat3("已达最大轮次 ", limit.as_str(), "。子代理未产出结论");
                    r.is_error = true;
                } else {
                    r.status_line = cat3("completed（已达最大轮次 ", limit.as_str(), "）");
                    let head = cat3("已达最大轮次 ", limit.as_str(), "。");
                    r.result_text = cat(head.as_str(), self.last_text.as_str());
                }
            },
        }
        r
    }
}

/// Adds the tokens of an agent that worked in the foreground to those of the
/// turn. The size of the conversation is not touched: the agent has its own.
pub fn count_child(session: &mut Session, used: Used)
    ensures
        final(session)@ == (SessionV {
            turn: TurnTotals {
                input: wrapped(old(session)@.turn.input, used.input),
                cache_read: wrapped(old(session)@.turn.cache_read, used.cache_read),
                output: wrapped(old(session)@.turn.output, used.output),
                ..old(session)@.turn
            },
            ..old(session)@
        }),
{
    session.turn.input = wrap_sum(session.turn.input, used.input);
    session.turn.cache_read = wrap_sum(session.turn.cache_read, used.cache_read);
    session.turn.output = wrap_sum(session.turn.output, used.output);
}

/// What the model is told of an agent that worked in the foreground.
pub open spec fn foreground_note(agent_id: Seq<char>, profile: Seq<char>, r: DriveResultV) -> Seq<
    char,
> {
    if r.completed {
        "agent_id: "@ + agent_id + "\nsubagent_type: "@ + profile
            + "\nstatus: completed\nturns: "@ + decimal(r.turns as nat) + "\n[summary]\n"@
            + r.result_text + "\nresume_hint: 用 Agent(resume=\""@ + agent_id
            + "\", prompt=\"...\") 继续该子代理"@
    } else {
        r.result_text
    }
}

/// Writes what the model is told of an agent that worked in the foreground.
pub fn finished_note(agent_id: &str, profile: &str, r: &DriveResult) -> (t: String)
    ensures
        t@ == foreground_note(agent_id@, profile@, r@),
{
    if !r.completed {
        return r.result_text.clone();
    }
    let mut out = chars_of("agent_id: ");
    push_text(&mut out, agent_id);
    push_text(&mut out, "\nsubagent_type: ");
    push_text(&mut out, profile);
    push_text(&mut out, "\nstatus: completed\nturns: ");
    push_text(&mut out, number_text(r.turns as u64).as_str());
    push_text(&mut out, "\n[summary]\n");
    push_text(&mut out, r.result_text.as_str());
    push_text(&mut out, "\nresume_hint: 用 Agent(resume=\"");
    push_text(&mut out, agent_id);
    push_text(&mut out, "\", prompt=\"...\") 继续该子代理");
    string_of(out.as_slice())
}

/// Writes what the model is told of an agent that works in the background.
pub fn running_note(agent_id: &str, task_id: &str) -> (r: String)
    ensures
        r@ == "agent_id: "@ + agent_id@ + "\ntask_id: "@ + task_id@
            + "\nstatus: running\n子代理已在后台运行，完成后结果会以 <task-notification> 通知送达——不要轮询。\n可用 TaskOutput 看进度、TaskStop 停止、Agent(resume=\""@
            + agent_id@ + "\", prompt=\"...\") 续跑。"@,
{
    let mut out = chars_of("agent_id: ");
    push_text(&mut out, agent_id);
    push_text(&mut out, "\ntask_id: ");
    push_text(&mut out, task_id);
    push_text(
        &mut out,
        "\nstatus: running\n子代理已在后台运行，完成后结果会以 <task-notification> 通知送达——不要轮询。\n可用 TaskOutput 看进度、TaskStop 停止、Agent(resume=\"",
    );
    push_text(&mut out, agent_id);
    push_text(&mut out, "\", prompt=\"...\") 续跑。");
    string_of(out.as_slice())
}

/// What the session is woken with when an agent in the background is done; an
/// agent that was stopped wakes nobody.
pub open spec fn wake_text(agent_id: Seq<char>, profile: Seq<char>, r: DriveResultV) -> Option<
    Seq<char>,
> {
    let head = "<task-notification>\n后台子代理 "@ + agent_id + "（"@ + profile;
    let tail = "\n\n用 Agent(resume=\""@ + agent_id
        + "\", prompt=\"...\") 可继续该子代理。\n</task-notification>"@;
    if r.cancelled {
        None
    } else if r.is_error {
        Some(head + "）失败："@ + r.result_text + tail)
    } else {
        Some(
            head + "）已完成（"@ + decimal(r.turns as nat) + " 步）。\n\n"@ + r.result_text + tail,
        )
    }
}

/// Writes what the session is woken with when an agent in the background is
/// done.
pub fn notification(agent_id: &str, profile: &str, r: &DriveResult) -> (t: Option<String>)
    ensures
        opt_text(t) == wake_text(agent_id@, profile@, r@),
{
    if r.cancelled {
        return None;
    }
    let mut out = chars_of("<task-notification>\n后台子代理 ");
    push_text(&mut out, agent_id);
    push_text(&mut out, "（");
    push_text(&mut out, profile);
    if r.is_error {
        push_text(&mut out, "）失败：");
    } else {
        push_text(&mut out, "）已完成（");
        push_text(&mut out, number_text(r.turns as u64).as_str());
        push_text(&mut out, " 步）。\n\n");
    }
    push_text(&mut out, r.result_text.as_str());
    let mut tail = chars_of("\n\n用 Agent(resume=\"");
    push_text(&mut tail, agent_id);
    push_text(&mut tail, "\", prompt=\"...\") 可继续该子代理。\n</task-notification>");
    push_all(&mut out, tail.as_slice());
    Some(string_of(out.as_slice()))
}

/// The code with which the task of an agent ends.
pub fn exit_code(r: &DriveResult) -> (c: i32)
    ensures
        c == if r@.is_error {
            -1int
        } else {
            0int
        },
{
    if r.is_error {
        -1
    } else {
        0
    }
}

/// Writes the last lines of the output of an agent's task.
pub fn closing_lines(r: &DriveResult) -> (t: String)
    ensures
        t@ == "["@ + r@.status_line + "]\n"@ + r@.result_text + "\n"@,
{
    cat5("[", r.status_line.as_str(), "]\n", r.result_text.as_str(), "\n")
}

/// Names the task of an agent.
pub fn agent_command(profile: &str, description: &str) -> (r: String)
    ensures
        r@ == "子代理 "@ + profile@ + ": "@ + description@,
{
    let head = cat3("子代理 ", profile, ": ");
    cat(head.as_str(), description)
}

// ---------------------------------------------------------------------------
// Laws
// ---------------------------------------------------------------------------

/// An agent never has a tool that starts other agents or asks the user, and
/// never one that its profile leaves out.
pub proof fn law_child_tools_narrow(v: Seq<Tool>, profile: ProfileV, input_image: bool, t: Tool)
    requires
        child_tools_of(v, profile, input_image).contains(t),
    ensures
        v.contains(t),
        child_may(profile.tools, input_image, t.name_text()),
    decreases v.len(),
{
    if v.len() > 0 {
        let d = v.drop_last();
        let w = child_tools_of(v, profile, input_image);
        let wd = child_tools_of(d, profile, input_image);
        let i = choose|i: int| 0 <= i < w.len() && w[i] == t;
        if i < wd.len() {
            assert(wd[i] == t);
            law_child_tools_narrow(d, profile, input_image, t);
            let k = choose|k: int| 0 <= k < d.len() && d[k] == t;
            assert(v[k] == t);
        } else {
            assert(v[v.len() - 1] == t);
        }
    }
}

/// Of what an agent that finished has said, the model gets all that it may, and
/// no more than that but for the hint where the rest is.
pub proof fn law_short_result(d: DriveV, saved: Result<Seq<char>, Seq<char>>)
    requires
        d.last_text.len() > 0,
    ensures
        ({
            let r = result_of(d, DriveEnd::Completed, saved).result_text;
            let most = MAX_RESULT_CHARS as int;
            &&& d.last_text.len() <= most ==> r == d.last_text
            &&& d.last_text.len() > most ==> r == d.last_text.take(most) + rest_hint(saved)
        }),
{
}

/// What the model asks of an agent is read from the members of its arguments,
/// each from its own: a description and a task that are not blank, outside plan
/// mode, with an agent to go on with or a type but not both.
pub proof fn law_wish_is_read(call: CallV, mode: ExecMode)
    ensures
        ({
            let args = args_say(call.arguments);
            let said = |key: Seq<char>|
                match text_at(args, key) {
                    Some(t) => trim(t),
                    None => trim(Seq::<char>::empty()),
                };
            let fits = said("description"@).len() > 0 && said("prompt"@).len() > 0 && (said(
                "resume"@,
            ).len() == 0 || said("subagent_type"@).len() == 0) && mode != ExecMode::Plan;
            &&& wish_of(call, mode) is Ok <==> fits
            &&& wish_of(call, mode) matches Ok(w) ==> w.description == said("description"@)
                && w.prompt == said("prompt"@) && w.resume == said("resume"@) && w.subagent_type
                == said("subagent_type"@) && (w.background <==> flag_at(args, "run_in_background"@)
                == Some(true))
        }),
{
}

/// An agent has every tool that its profile leaves in, in the order of the
/// list.
pub proof fn law_child_tools_are_all_kept(v: Seq<Tool>, profile: ProfileV, input_image: bool)
    ensures
        child_tools_of(v, profile, input_image) == v.filter(
            |t: Tool| child_may(profile.tools, input_image, t.name_text()),
        ),
    decreases v.len(),
{
    reveal(Seq::filter);
    if v.len() > 0 {
        law_child_tools_are_all_kept(v.drop_last(), profile, input_image);
    }
}

/// The result of an agent's call is the next message of its conversation, with
/// the call's own id and the output as it is; nothing else changes. The tokens
/// of its requests are added up.
pub proof fn law_child_call_is_answered(
    d: DriveV,
    call: CallV,
    output: Seq<char>,
    images: Seq<ImageV>,
    u: Used,
    e: ReplyV,
)
    ensures
        child_answered(d, call, output, images) == (DriveV {
            history: d.history.push(
                MsgV {
                    role: "tool"@,
                    content: Some(output),
                    tool_calls: None,
                    tool_call_id: Some(call.id),
                    images,
                    reasoning: None,
                },
            ),
            ..d
        }),
        e matches ReplyV::Usage { input, cache_read, output: out, used: _, total: _ } ==> (u.input
            + input <= u64::MAX ==> used_after(u, e).input == u.input + input) && (u.cache_read
            + cache_read <= u64::MAX ==> used_after(u, e).cache_read == u.cache_read + cache_read)
            && (u.output + out <= u64::MAX ==> used_after(u, e).output == u.output + out),
        !(e is Usage) ==> used_after(u, e) == u,
{
}

/// What is kept of an agent is a head with its id, profile, task, model,
/// provider and time, and each message as it is but without images.
pub proof fn law_agent_is_kept(
    agent_id: Seq<char>,
    profile: Seq<char>,
    description: Seq<char>,
    model: Seq<char>,
    provider: Seq<char>,
    now: u64,
    m: MsgV,
)
    ensures
        agent_head(agent_id, profile, description, model, provider, now) == JsonV::Obj(
            seq![
                ("agent_id"@, JsonV::Str(agent_id)),
                ("created_at"@, JsonV::Num(Some(now), decimal(now as nat))),
                ("description"@, JsonV::Str(description)),
                ("model"@, JsonV::Str(model)),
                ("profile"@, JsonV::Str(profile)),
                ("provider"@, JsonV::Str(provider)),
                ("type"@, JsonV::Str("meta"@)),
            ],
        ),
        agent_line(m) == JsonV::Obj(
            seq![
                ("msg"@, msg_json(MsgV { images: Seq::empty(), ..m })),
                ("type"@, JsonV::Str("msg"@)),
            ],
        ),
{
    assert(agent_head(agent_id, profile, description, model, provider, now)->Obj_0 =~= seq![
        ("agent_id"@, JsonV::Str(agent_id)),
        ("created_at"@, JsonV::Num(Some(now), decimal(now as nat))),
        ("description"@, JsonV::Str(description)),
        ("model"@, JsonV::Str(model)),
        ("profile"@, JsonV::Str(profile)),
        ("provider"@, JsonV::Str(provider)),
        ("type"@, JsonV::Str("meta"@)),
    ]);
    assert(agent_line(m)->Obj_0 =~= seq![
        ("msg"@, msg_json(MsgV { images: Seq::empty(), ..m })),
        ("type"@, JsonV::Str("msg"@)),
    ]);
}

/// Whether `p` stands somewhere in `s`.
pub open spec fn tells(s: Seq<char>, p: Seq<char>) -> bool {
    exists|k: int| 0 <= k && k + p.len() <= s.len() && #[trigger] s.subrange(k, k + p.len()) == p
}

/// The model is told the result of an agent word for word: of one in the
/// foreground, and of one in the background unless it was stopped. A failed
/// agent tells why it failed.
pub proof fn law_result_is_told(
    agent_id: Seq<char>,
    profile: Seq<char>,
    r: DriveResultV,
    d: DriveV,
    e: String,
    saved: Result<Seq<char>, Seq<char>>,
)
    ensures
        tells(foreground_note(agent_id, profile, r), r.result_text),
        r.cancelled <==> wake_text(agent_id, profile, r) is None,
        wake_text(agent_id, profile, r) matches Some(t) ==> tells(t, r.result_text) && tells(
            t,
            agent_id,
        ),
        ({
            let f = result_of(d, DriveEnd::Failed(e), saved);
            f.is_error && !f.completed && tells(f.result_text, e@)
        }),
        result_of(d, DriveEnd::Cancelled, saved).cancelled,
        d.last_text.len() > 0 ==> !result_of(d, DriveEnd::Completed, saved).is_error && result_of(
            d,
            DriveEnd::Completed,
            saved,
        ).completed,
        result_of(d, DriveEnd::Completed, saved).turns == d.step,
        result_of(d, DriveEnd::Completed, saved).used == d.used,
{
    let text = r.result_text;
    if r.completed {
        let a = "agent_id: "@ + agent_id + "\nsubagent_type: "@ + profile
            + "\nstatus: completed\nturns: "@ + decimal(r.turns as nat) + "\n[summary]\n"@;
        let b = "\nresume_hint: 用 Agent(resume=\""@ + agent_id
            + "\", prompt=\"...\") 继续该子代理"@;
        lemma_tells(a, text, b);
        assert(foreground_note(agent_id, profile, r) =~= a + text + b);
    } else {
        let none = Seq::<char>::empty();
        lemma_tells(none, text, none);
        assert(none + text + none =~= text);
    }
    let tail = "\n\n用 Agent(resume=\""@ + agent_id
        + "\", prompt=\"...\") 可继续该子代理。\n</task-notification>"@;
    let open = "<task-notification>\n后台子代理 "@;
    let head = open + agent_id + "（"@ + profile;
    if r.is_error {
        lemma_tells(head + "）失败："@, text, tail);
        let rest = "（"@ + profile + "）失败："@ + text + tail;
        lemma_tells(open, agent_id, rest);
        assert(head + "）失败："@ + text + tail =~= open + agent_id + rest);
    } else {
        let a = head + "）已完成（"@ + decimal(r.turns as nat) + " 步）。\n\n"@;
        lemma_tells(a, text, tail);
        let rest = "（"@ + profile + "）已完成（"@ + decimal(r.turns as nat) + " 步）。\n\n"@ + text
            + tail;
        lemma_tells(open, agent_id, rest);
        assert(a + text + tail =~= open + agent_id + rest);
    }
    let why = "子代理模型请求失败: "@;
    lemma_tells(why, e@, Seq::empty());
    assert(why + e@ + Seq::<char>::empty() =~= why + e@);
}

proof fn lemma_tells(a: Seq<char>, p: Seq<char>, b: Seq<char>)
    ensures
        tells(a + p + b, p),
{
    let s = a + p + b;
    assert(s.subrange(a.len() as int, a.len() as int + p.len()) =~= p);
}

} // verus!
