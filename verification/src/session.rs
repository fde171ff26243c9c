//! A conversation with a model in a workspace: how a turn begins, how a reply
//! comes in, where the calls of tools go, and how it ends.
//!
//! A session does nothing to the world by itself. Each operation gives the
//! effects that it wants, in order; the results of requests, tools and
//! questions to the user come back in as values.

use crate::agent::opt_str;
use crate::chars::{
    byte_len, bytes_of_char, cat, cat3, chars_of, copied, copied_opt, copied_strings, decimal,
    decimal_of, first_chars, fit, fitting, join, joined_strings, longer_than, number_text, opt_text,
    prefix, push_all, push_text, str_eq, string_of, text_from, texts,
};
use crate::compact::{
    compact_history, compact_note, compacted, needs_compact, write_compact_note, KEEP,
};
use crate::effect::{
    add_effect, add_effects, effects_say, no_effects, note, noted, show, shown, Effect, EffectV,
};
use crate::gate::{
    approval_detail, approvals, approvals_after, decide, detail_of, opt_bytes, refusal, request_id,
    request_name, take_answer, verdict, Verdict,
};
use crate::json::{args_say, parse_args, pretty, pretty_text, text_at};
use crate::permissions::{PermissionRules, RulesV};
use crate::protocol::{
    copied_edit_diffs, copied_opt_edit_diff, copied_question_items, edit_diffs_say, opt_edit_diff,
    question_items_say, todo_items_say, ApprovalDecision, EditDiff, EditDiffV, Event, EventV, ExecMode,
    QuestionItem, QuestionItemV, SessionMeta, SessionMetaV, TodoItem, TodoItemV, TurnUsageStats,
};
use crate::provider::{
    assistant_msg, calls_say, images_say, msgs_say, or_empty, system_msg, tool_msg, user_msg, CallV,
    ChatImage, ChatMsg, ImageV, MsgV, ResolvedModel, ToolCall,
};
use crate::rollout::{
    all_found_images, image_refs_say, rebuild_history, rebuilt, rollout_records_say, shown_user_text,
    user_display_text, ImageRef, ImageRefV, RolloutRecord, RolloutRecordV,
};
use crate::stream::{wrap_sum, wrapped, ProviderEvent, ReplyV};
use crate::tool::{
    all, all_built_in, answer_lines, answers_note, answers_say, find_tool, parse_questions,
    questions_of, summarize, summary_of, tool_named,
};
use vstd::prelude::*;

pub use crate::compact::{compaction_prompt, COMPACTION_MARKER};
pub use crate::title::{clean_generated_title, normalize_title_input, TITLE_PROMPT_MARKER};

verus! {

/// The model that a session uses instead of the configured one.
#[derive(Clone, Debug)]
pub struct ModelSelection {
    pub provider_id: String,
    pub model_id: String,
    pub reasoning_level: Option<String>,
}

/// What a `ModelSelection` says.
#[verifier::ext_equal]
pub struct ModelSelectionV {
    pub provider_id: Seq<char>,
    pub model_id: Seq<char>,
    pub reasoning_level: Option<Seq<char>>,
}

impl View for ModelSelection {
    type V = ModelSelectionV;

    open spec fn view(&self) -> ModelSelectionV {
        ModelSelectionV {
            provider_id: self.provider_id@,
            model_id: self.model_id@,
            reasoning_level: opt_text(self.reasoning_level),
        }
    }
}

impl ModelSelection {
    /// A value that says the same.
    pub fn copy(&self) -> (r: ModelSelection)
        ensures
            r@ == self@,
    {
        ModelSelection {
            provider_id: self.provider_id.clone(),
            model_id: self.model_id.clone(),
            reasoning_level: copied_opt(&self.reasoning_level),
        }
    }
}

/// What became of an image that the user attached.
#[derive(Debug)]
pub enum Picture {
    /// It lies in a file; with a note where it was changed.
    Kept { path: String, media_type: String, width: u32, height: u32, data_base64: String, note: Option<String> },
    /// The file could not be written.
    NotWritten { error: String },
    /// The image could not be made fit for the model.
    NotCompressed { error: String },
}

/// What a `Picture` says.
#[verifier::ext_equal]
pub enum PictureV {
    Kept { path: Seq<char>, media_type: Seq<char>, width: u32, height: u32, data_base64: Seq<char>, note: Option<Seq<char>> },
    NotWritten { error: Seq<char> },
    NotCompressed { error: Seq<char> },
}

impl View for Picture {
    type V = PictureV;

    open spec fn view(&self) -> PictureV {
        match self {
            Picture::Kept { path, media_type, width, height, data_base64, note } => PictureV::Kept {
                path: path@,
                media_type: media_type@,
                width: *width,
                height: *height,
                data_base64: data_base64@,
                note: opt_text(*note),
            },
            Picture::NotWritten { error } => PictureV::NotWritten {
                error: error@,
            },
            Picture::NotCompressed { error } => PictureV::NotCompressed {
                error: error@,
            },
        }
    }
}

/// What an optional `ModelSelection` says.
pub open spec fn opt_model_selection(v: Option<ModelSelection>) -> Option<ModelSelectionV> {
    match v {
        Some(x) => Some(x@),
        None => None,
    }
}

/// An optional value that says the same.
pub fn copied_opt_model_selection(v: &Option<ModelSelection>) -> (r: Option<ModelSelection>)
    ensures
        opt_model_selection(r) == opt_model_selection(*v),
{
    match v {
        Some(x) => Some(x.copy()),
        None => None,
    }
}

/// What each of a list says.
pub open spec fn pictures_say(v: Seq<Picture>) -> Seq<PictureV> {
    v.map_values(|x: Picture| x@)
}

/// What a turn has used so far.
#[derive(Clone, Copy, Debug, PartialEq, Eq, Structural)]
pub struct TurnTotals {
    pub input: u64,
    pub cache_read: u64,
    pub output: u64,
    /// The time of the requests alone.
    pub api_ms: u64,
    /// The part of it until the first word of each reply.
    pub ttft_ms: u64,
    /// How many requests there were.
    pub api_steps: u64,
}

/// Nothing used yet.
pub open spec fn no_totals() -> TurnTotals {
    TurnTotals { input: 0, cache_read: 0, output: 0, api_ms: 0, ttft_ms: 0, api_steps: 0 }
}

/// A conversation in a workspace.
#[derive(Debug)]
pub struct Session {
    pub id: String,
    pub cwd: String,
    pub history: Vec<ChatMsg>,
    pub turn_counter: u64,
    /// What the user allowed for the rest of the session.
    pub always_allowed: Vec<(String, String)>,
    pub permissions: PermissionRules,
    /// The mode before the model entered plan mode.
    pub pre_plan_mode: Option<ExecMode>,
    pub mode: ExecMode,
    pub model_override: Option<ModelSelection>,
    /// The tokens of the last request.
    pub last_total_tokens: Option<u64>,
    pub turn: TurnTotals,
    pub input_total: u64,
    pub cache_read_total: u64,
    /// How many agents the session has started.
    pub agent_seq: u64,
    pub todos: Vec<TodoItem>,
    pub fs_read_outside: bool,
    pub fs_write_outside: bool,
}

/// What a `Session` says.
#[verifier::ext_equal]
pub struct SessionV {
    pub id: Seq<char>,
    pub cwd: Seq<char>,
    pub history: Seq<MsgV>,
    pub turn_counter: u64,
    pub allowed: Set<(Seq<char>, Seq<char>)>,
    pub rules: RulesV,
    pub pre_plan_mode: Option<ExecMode>,
    pub mode: ExecMode,
    pub model_override: Option<ModelSelectionV>,
    pub last_total_tokens: Option<u64>,
    pub turn: TurnTotals,
    pub input_total: u64,
    pub cache_read_total: u64,
    pub agent_seq: u64,
    pub todos: Seq<TodoItemV>,
    pub fs_read_outside: bool,
    pub fs_write_outside: bool,
}

impl View for Session {
    type V = SessionV;

    open spec fn view(&self) -> SessionV {
        SessionV {
            id: self.id@,
            cwd: self.cwd@,
            history: msgs_say(self.history@),
            turn_counter: self.turn_counter,
            allowed: approvals(self.always_allowed@),
            rules: self.permissions@,
            pre_plan_mode: self.pre_plan_mode,
            mode: self.mode,
            model_override: opt_model_selection(self.model_override),
            last_total_tokens: self.last_total_tokens,
            turn: self.turn,
            input_total: self.input_total,
            cache_read_total: self.cache_read_total,
            agent_seq: self.agent_seq,
            todos: todo_items_say(self.todos@),
            fs_read_outside: self.fs_read_outside,
            fs_write_outside: self.fs_write_outside,
        }
    }
}

// ---------------------------------------------------------------------------
// Making a session
// ---------------------------------------------------------------------------

/// A session in which nothing has happened, but for a conversation that it may
/// go on with.
pub open spec fn fresh_session(
    id: Seq<char>,
    cwd: Seq<char>,
    history: Seq<MsgV>,
    rules: RulesV,
) -> SessionV {
    SessionV {
        id,
        cwd,
        history,
        turn_counter: 0,
        allowed: Set::empty(),
        rules,
        pre_plan_mode: None,
        mode: ExecMode::ConfirmBeforeEdit,
        model_override: None,
        last_total_tokens: None,
        turn: no_totals(),
        input_total: 0,
        cache_read_total: 0,
        agent_seq: 0,
        todos: Seq::empty(),
        fs_read_outside: false,
        fs_write_outside: false,
    }
}

/// The workspace that a record begins with, if it begins as it should.
pub open spec fn recorded_in(records: Seq<RolloutRecordV>) -> Option<Seq<char>> {
    if records.len() > 0 {
        match records[0] {
            RolloutRecordV::Meta { id: _, cwd, title: _, created_at: _ } => Some(cwd),
            _ => None,
        }
    } else {
        None
    }
}

/// Finds the workspace that a record begins with.
pub fn recorded_cwd(records: &[RolloutRecord]) -> (r: Option<String>)
    ensures
        opt_text(r) == recorded_in(rollout_records_say(records@)),
{
    proof {
        assert(rollout_records_say(records@).len() == records@.len());
    }
    if records.len() > 0 {
        proof {
            assert(rollout_records_say(records@)[0] == records@[0]@);
        }
        match &records[0] {
            RolloutRecord::Meta { id: _, cwd, title: _, created_at: _ } => Some(cwd.clone()),
            _ => None,
        }
    } else {
        None
    }
}

/// The model that what is kept of a session names.
pub open spec fn selection_of(m: SessionMetaV) -> Option<ModelSelectionV> {
    match (m.provider_id, m.model_id) {
        (Some(provider_id), Some(model_id)) => Some(
            ModelSelectionV { provider_id, model_id, reasoning_level: m.reasoning_level },
        ),
        _ => None,
    }
}

/// Takes the model that what is kept of a session names.
pub fn meta_to_selection(meta: &SessionMeta) -> (r: Option<ModelSelection>)
    ensures
        opt_model_selection(r) == selection_of(meta@),
{
    match (&meta.provider_id, &meta.model_id) {
        (Some(p), Some(m)) => Some(
            ModelSelection {
                provider_id: p.clone(),
                model_id: m.clone(),
                reasoning_level: copied_opt(&meta.reasoning_level),
            },
        ),
        _ => None,
    }
}

fn start(id: String, cwd: String, history: Vec<ChatMsg>, permissions: PermissionRules) -> (r:
    Session)
    ensures
        r@ == fresh_session(id@, cwd@, msgs_say(history@), permissions@),
{
    let s = Session {
        id,
        cwd,
        history,
        turn_counter: 0,
        always_allowed: Vec::new(),
        permissions,
        pre_plan_mode: None,
        mode: ExecMode::ConfirmBeforeEdit,
        model_override: None,
        last_total_tokens: None,
        turn: TurnTotals { input: 0, cache_read: 0, output: 0, api_ms: 0, ttft_ms: 0, api_steps: 0 },
        input_total: 0,
        cache_read_total: 0,
        agent_seq: 0,
        todos: Vec::new(),
        fs_read_outside: false,
        fs_write_outside: false,
    };
    proof {
        assert(approvals(s.always_allowed@) =~= Set::empty());
        assert(todo_items_say(s.todos@) =~= Seq::<TodoItemV>::empty());
    }
    s
}

/// The head of the record of a session.
pub open spec fn record_head(m: SessionMetaV) -> RolloutRecordV {
    RolloutRecordV::Meta { id: m.id, cwd: m.cwd, title: m.title, created_at: m.created_at }
}

impl Session {
    /// Makes a session, and the head of its record.
    pub fn create(meta: &SessionMeta, permissions: PermissionRules) -> (r: (
        Session,
        RolloutRecord,
    ))
        ensures
            r.0@ == fresh_session(meta@.id, meta@.cwd, Seq::empty(), permissions@),
            r.1@ == record_head(meta@),
    {
        let none: Vec<ChatMsg> = Vec::new();
        proof {
            assert(msgs_say(none@) =~= Seq::<MsgV>::empty());
        }
        let s = start(meta.id.clone(), meta.cwd.clone(), none, permissions);
        let head = RolloutRecord::Meta {
            id: meta.id.clone(),
            cwd: meta.cwd.clone(),
            title: meta.title.clone(),
            created_at: meta.created_at,
        };
        (s, head)
    }

    /// Makes a session out of its record. `images[i]` are those of unit `i`,
    /// and `system` is the system's message. A record that does not begin with
    /// its head is refused.
    pub fn load(
        id: &str,
        records: &[RolloutRecord],
        images: &[Vec<Option<ChatImage>>],
        system: String,
        permissions: PermissionRules,
    ) -> (r: Result<Session, String>)
        ensures
            match r {
                Ok(s) => recorded_in(rollout_records_say(records@)) is Some && s@ == fresh_session(
                    id@,
                    recorded_in(rollout_records_say(records@))->0,
                    rebuilt(
                        rollout_records_say(records@),
                        all_found_images(images@),
                        system@,
                    ).history,
                    permissions@,
                ),
                Err(e) => recorded_in(rollout_records_say(records@)) is None && e@
                    == "rollout 缺少 meta 行: "@ + id@,
            },
    {
        match recorded_cwd(records) {
            Some(cwd) => {
                let history = rebuild_history(records, images, system);
                Ok(start(text_from(id), cwd, history, permissions))
            },
            None => Err(cat("rollout 缺少 meta 行: ", id)),
        }
    }

    /// Sets the mode.
    pub fn set_mode(&mut self, mode: ExecMode)
        ensures
            final(self)@ == (SessionV { mode, ..old(self)@ }),
    {
        self.mode = mode;
    }

    /// Sets what files outside the workspace may be used for.
    pub fn set_fs_access(&mut self, read_outside: bool, write_outside: bool)
        ensures
            final(self)@ == (SessionV {
                fs_read_outside: read_outside,
                fs_write_outside: write_outside,
                ..old(self)@
            }),
    {
        self.fs_read_outside = read_outside;
        self.fs_write_outside = write_outside;
    }

    /// Sets the model that is used instead of the configured one.
    pub fn set_model(&mut self, selection: ModelSelection)
        ensures
            final(self)@ == (SessionV { model_override: Some(selection@), ..old(self)@ }),
    {
        self.model_override = Some(selection);
    }
}

// ---------------------------------------------------------------------------
// The beginning of a turn
// ---------------------------------------------------------------------------

/// A conversation with a new message of the system in its place.
pub open spec fn with_system(h: Seq<MsgV>, system: Seq<char>) -> Seq<MsgV> {
    if h.len() == 0 {
        Seq::<MsgV>::empty().push(system_msg(system))
    } else if h[0].role == "system"@ {
        h.update(0, system_msg(system))
    } else {
        h
    }
}

/// A file that a message refers to, as it was read.
pub open spec fn read_say(v: Result<String, String>) -> Result<Seq<char>, Seq<char>> {
    match v {
        Ok(t) => Ok(t@),
        Err(e) => Err(e@),
    }
}

/// How many bytes of one file go into a message.
pub const FILE_BYTES: usize = 20480;

/// How many bytes of all files go into a message.
pub const ALL_FILE_BYTES: usize = 102400;

/// The text of a file as it goes into a message while `budget` bytes are left:
/// cut at the end of a character where it is too long.
pub open spec fn file_text(text: Seq<char>, budget: nat) -> Seq<char> {
    let one = if byte_len(text) > FILE_BYTES {
        fit(text, FILE_BYTES as nat) + "\n[文件过大，已截断]"@
    } else {
        text
    };
    if byte_len(one) > budget {
        fit(one, budget) + "\n[引用总量超限，已截断]"@
    } else {
        one
    }
}

/// What is left of a budget after a text.
pub open spec fn budget_after(budget: nat, text: Seq<char>) -> nat {
    if byte_len(text) >= budget {
        0
    } else {
        (budget - byte_len(text)) as nat
    }
}

/// A message with the files that it refers to, and what is left of the budget.
pub open spec fn with_files(
    content: Seq<char>,
    files: Seq<(Seq<char>, Result<Seq<char>, Seq<char>>)>,
) -> (Seq<char>, nat)
    decreases files.len(),
{
    if files.len() == 0 {
        (content, ALL_FILE_BYTES as nat)
    } else {
        let (text, budget) = with_files(content, files.drop_last());
        let (name, read) = files.last();
        match read {
            Ok(t) => {
                let shown = file_text(t, budget);
                (
                    text + "\n\n<file path=\""@ + name + "\">\n"@ + shown + "\n</file>"@,
                    budget_after(budget, shown),
                )
            },
            Err(e) => (text + "\n\n[无法读取引用文件 "@ + name + ": "@ + e + "]"@, budget),
        }
    }
}

/// What a list of files that were read says.
pub open spec fn reads_say(v: Seq<(String, Result<String, String>)>) -> Seq<
    (Seq<char>, Result<Seq<char>, Seq<char>>),
> {
    v.map_values(|p: (String, Result<String, String>)| (p.0@, read_say(p.1)))
}

fn cut_file(text: &str, budget: usize) -> (r: Vec<char>)
    ensures
        r@ == file_text(text@, budget as nat),
{
    let mut t = chars_of(text);
    if longer_than(t.as_slice(), FILE_BYTES) {
        let mut short = copied(fitting(t.as_slice(), FILE_BYTES));
        push_text(&mut short, "\n[文件过大，已截断]");
        t = short;
    }
    if longer_than(t.as_slice(), budget) {
        let mut short = copied(fitting(t.as_slice(), budget));
        push_text(&mut short, "\n[引用总量超限，已截断]");
        t = short;
    }
    t
}

fn left_of(budget: usize, text: &[char]) -> (r: usize)
    ensures
        r == budget_after(budget as nat, text@),
{
    let mut left: usize = budget;
    proof {
        assert(text@.take(0) =~= Seq::<char>::empty());
    }
    for i in 0..text.len()
        invariant
            left == budget_after(budget as nat, text@.take(i as int)),
    {
        proof {
            assert(text@.take(i as int + 1).drop_last() =~= text@.take(i as int));
            assert(text@.take(i as int + 1).last() == text@[i as int]);
        }
        let k = bytes_of_char(text[i]);
        if left > k {
            left = left - k;
        } else {
            left = 0;
        }
    }
    proof {
        assert(text@.take(text@.len() as int) =~= text@);
    }
    left
}

/// Puts the files that a message refers to behind it. Each file, and all of
/// them together, may take only so much.
pub fn expand_file_references(content: &str, files: &[(String, Result<String, String>)]) -> (r:
    String)
    ensures
        r@ == with_files(content@, reads_say(files@)).0,
{
    let ghost all = reads_say(files@);
    let mut out = chars_of(content);
    let mut budget: usize = ALL_FILE_BYTES;
    for i in 0..files.len()
        invariant
            all == reads_say(files@),
            (out@, budget as nat) == with_files(content@, all.take(i as int)),
    {
        proof {
            assert(all.take(i as int + 1).drop_last() =~= all.take(i as int));
            assert(all.take(i as int + 1).last() == (files@[i as int].0@, read_say(
                files@[i as int].1,
            )));
        }
        match &files[i].1 {
            Ok(t) => {
                let shown = cut_file(t.as_str(), budget);
                push_text(&mut out, "\n\n<file path=\"");
                push_text(&mut out, files[i].0.as_str());
                push_text(&mut out, "\">\n");
                push_all(&mut out, shown.as_slice());
                push_text(&mut out, "\n</file>");
                budget = left_of(budget, shown.as_slice());
            },
            Err(e) => {
                push_text(&mut out, "\n\n[无法读取引用文件 ");
                push_text(&mut out, files[i].0.as_str());
                push_text(&mut out, ": ");
                push_text(&mut out, e.as_str());
                push_text(&mut out, "]");
            },
        }
    }
    proof {
        assert(all.take(files@.len() as int) =~= all);
    }
    string_of(out.as_slice())
}

/// A message with its images: its text, the files of the images, and the
/// images themselves.
#[verifier::ext_equal]
pub struct AttachedV {
    pub text: Seq<char>,
    pub refs: Seq<ImageRefV>,
    pub images: Seq<ImageV>,
}

/// A message after the attached images have been taken in.
pub open spec fn attached(text: Seq<char>, v: Seq<PictureV>) -> AttachedV
    decreases v.len(),
{
    if v.len() == 0 {
        AttachedV { text, refs: Seq::empty(), images: Seq::empty() }
    } else {
        let a = attached(text, v.drop_last());
        let n = decimal(v.len());
        match v.last() {
            PictureV::Kept { path, media_type, width, height, data_base64, note } => AttachedV {
                text: a.text + or_empty(note),
                refs: a.refs.push(ImageRefV { path, media_type, width, height }),
                images: a.images.push(
                    ImageV { media_type, data_base64, label: Some("图片 "@ + n) },
                ),
            },
            PictureV::NotWritten { error } => AttachedV {
                text: a.text + "\n[图片 "@ + n + " 落盘失败: "@ + error + "]"@,
                ..a
            },
            PictureV::NotCompressed { error } => AttachedV {
                text: a.text + "\n[图片 "@ + n + " 压缩失败: "@ + error + "]"@,
                ..a
            },
        }
    }
}

fn attach(text: &str, v: &[Picture]) -> (r: (Vec<char>, Vec<ImageRef>, Vec<ChatImage>))
    ensures
        (AttachedV {
            text: r.0@,
            refs: image_refs_say(r.1@),
            images: images_say(r.2@),
        }) == attached(text@, pictures_say(v@)),
{
    let ghost all = pictures_say(v@);
    let mut out = chars_of(text);
    let mut refs: Vec<ImageRef> = Vec::new();
    let mut images: Vec<ChatImage> = Vec::new();
    proof {
        assert(image_refs_say(refs@) =~= Seq::<ImageRefV>::empty());
        assert(images_say(images@) =~= Seq::<ImageV>::empty());
    }
    for i in 0..v.len()
        invariant
            all == pictures_say(v@),
            (AttachedV {
                text: out@,
                refs: image_refs_say(refs@),
                images: images_say(images@),
            }) == attached(text@, all.take(i as int)),
    {
        let ghost ro = image_refs_say(refs@);
        let ghost io = images_say(images@);
        let ghost to = out@;
        proof {
            assert(all.take(i as int + 1).drop_last() =~= all.take(i as int));
            assert(all.take(i as int + 1).last() == v@[i as int]@);
        }
        let n = number_text(i as u64 + 1);
        match &v[i] {
            Picture::Kept { path, media_type, width, height, data_base64, note } => {
                match note {
                    Some(t) => {
                        push_text(&mut out, t.as_str());
                    },
                    None => {
                        proof {
                            assert(to + Seq::<char>::empty() =~= to);
                        }
                    },
                }
                refs.push(
                    ImageRef {
                        path: path.clone(),
                        media_type: media_type.clone(),
                        width: *width,
                        height: *height,
                    },
                );
                images.push(
                    ChatImage {
                        media_type: media_type.clone(),
                        data_base64: data_base64.clone(),
                        label: Some(cat("图片 ", n.as_str())),
                    },
                );
                proof {
                    assert(image_refs_say(refs@) =~= ro.push(refs@.last()@));
                    assert(images_say(images@) =~= io.push(images@.last()@));
                }
            },
            Picture::NotWritten { error } => {
                push_text(&mut out, "\n[图片 ");
                push_text(&mut out, n.as_str());
                push_text(&mut out, " 落盘失败: ");
                push_text(&mut out, error.as_str());
                push_text(&mut out, "]");
            },
            Picture::NotCompressed { error } => {
                push_text(&mut out, "\n[图片 ");
                push_text(&mut out, n.as_str());
                push_text(&mut out, " 压缩失败: ");
                push_text(&mut out, error.as_str());
                push_text(&mut out, "]");
            },
        }
    }
    proof {
        assert(all.take(v@.len() as int) =~= all);
    }
    (out, refs, images)
}

/// What a message says instead of its images where the model takes none.
pub open spec fn images_note(n: nat, paths: Seq<Seq<char>>) -> Seq<char> {
    "\n[图片 "@ + decimal(n) + " 张未随消息发送：当前模型不支持图片输入；文件在 "@ + join(
        paths,
        "、"@,
    ) + "，需要看哪张可用 ReadMediaFile 读取]"@
}

/// A message's text and images as a model can take them.
pub open spec fn projected(
    text: Seq<char>,
    images: Seq<ImageV>,
    paths: Seq<Seq<char>>,
    input_image: bool,
) -> (Seq<char>, Seq<ImageV>) {
    if images.len() > 0 && !input_image {
        (text + images_note(images.len(), paths), Seq::empty())
    } else {
        (text, images)
    }
}

/// Takes the images out of a message for a model that takes none, and says so
/// in its text. `media_paths` are the files of the images, in their order.
pub fn project_images(
    text: &mut String,
    chat_images: &mut Vec<ChatImage>,
    media_paths: &[String],
    input_image: bool,
)
    ensures
        (final(text)@, images_say(final(chat_images)@)) == projected(
            old(text)@,
            images_say(old(chat_images)@),
            texts(media_paths@),
            input_image,
        ),
{
    proof {
        assert(images_say(chat_images@).len() == chat_images@.len());
    }
    if chat_images.len() > 0 && !input_image {
        let mut out = chars_of("\n[图片 ");
        push_all(&mut out, decimal_of(chat_images.len() as u64).as_slice());
        push_text(&mut out, " 张未随消息发送：当前模型不支持图片输入；文件在 ");
        push_all(&mut out, joined_strings(media_paths, "、").as_slice());
        push_text(&mut out, "，需要看哪张可用 ReadMediaFile 读取]");
        let note = string_of(out.as_slice());
        let whole = cat(text.as_str(), note.as_str());
        *text = whole;
        *chat_images = Vec::new();
        proof {
            assert(images_say(chat_images@) =~= Seq::<ImageV>::empty());
        }
    }
}

/// The text of a message as it is recorded.
pub open spec fn recorded_text(content: Seq<char>, files: Seq<Seq<char>>) -> Seq<char> {
    if files.len() == 0 {
        content
    } else {
        content + "\n\n引用文件: "@ + join(files, ", "@)
    }
}

/// The name of a turn.
pub open spec fn turn_name(n: u64) -> Seq<char> {
    "turn-"@ + decimal(n as nat)
}

/// What the user sends: the message, the files it refers to, the text with the
/// files in it, and the images.
#[verifier::ext_equal]
pub struct SentV {
    pub content: Seq<char>,
    pub files: Seq<Seq<char>>,
    pub expanded: Seq<char>,
    pub pictures: Seq<PictureV>,
}

/// The message of the user as it goes into the conversation.
pub open spec fn user_message(sent: SentV, input_image: bool) -> MsgV {
    let a = attached(sent.expanded, sent.pictures);
    let (text, images) = projected(
        a.text,
        a.images,
        a.refs.map_values(|i: ImageRefV| i.path),
        input_image,
    );
    MsgV { images, ..user_msg(text) }
}

/// A session after a turn has begun.
pub open spec fn turn_begun(
    s: SessionV,
    system: Seq<char>,
    sent: SentV,
    input_image: bool,
) -> SessionV {
    SessionV {
        turn_counter: wrapped(s.turn_counter, 1),
        turn: no_totals(),
        history: with_system(s.history, system).push(user_message(sent, input_image)),
        ..s
    }
}

/// What the beginning of a turn does: the turn is announced, the first message
/// names the session, and the message is recorded and shown.
pub open spec fn turn_begin_effects(s: SessionV, system: Seq<char>, sent: SentV) -> Seq<EffectV> {
    let a = attached(sent.expanded, sent.pictures);
    let text = recorded_text(sent.content, sent.files);
    let started = Seq::<EffectV>::empty().push(
        shown(EventV::TurnStarted { turn_id: turn_name(wrapped(s.turn_counter, 1)) }),
    );
    let named = if with_system(s.history, system).len() == 1 {
        started.push(EffectV::SeedTitle { title: prefix(sent.content, 30) }).push(
            EffectV::NameSession { input: sent.content },
        )
    } else {
        started
    };
    named.push(
        noted(RolloutRecordV::User { text, files: sent.files, images: a.refs }),
    ).push(
        shown(
            EventV::UserMessage {
                text: shown_user_text(text, a.refs),
                files: sent.files,
                image_count: a.refs.len() as usize,
            },
        ),
    )
}

fn paths_of(refs: &[ImageRef]) -> (r: Vec<String>)
    ensures
        texts(r@) == image_refs_say(refs@).map_values(|i: ImageRefV| i.path),
{
    let mut out: Vec<String> = Vec::new();
    for i in 0..refs.len()
        invariant
            out.len() == i,
            forall|k: int| 0 <= k < i ==> (#[trigger] out@[k])@ == refs@[k].path@,
    {
        out.push(refs[i].path.clone());
    }
    proof {
        assert(texts(out@) =~= image_refs_say(refs@).map_values(|i: ImageRefV| i.path));
    }
    out
}

/// What a turn begins with.
#[derive(Debug)]
pub struct Sent {
    pub content: String,
    pub files: Vec<String>,
    /// The message with the files in it.
    pub expanded: String,
    pub pictures: Vec<Picture>,
}

impl View for Sent {
    type V = SentV;

    open spec fn view(&self) -> SentV {
        SentV {
            content: self.content@,
            files: texts(self.files@),
            expanded: self.expanded@,
            pictures: pictures_say(self.pictures@),
        }
    }
}

impl Session {
    fn refresh_system(&mut self, system: String)
        ensures
            final(self)@ == (SessionV {
                history: with_system(old(self)@.history, system@),
                ..old(self)@
            }),
    {
        let ghost h = msgs_say(self.history@);
        let ghost sys = system@;
        proof {
            assert(h.len() == self.history@.len());
        }
        if self.history.len() == 0 {
            self.history.push(ChatMsg::system(system));
            proof {
                assert(msgs_say(self.history@) =~= with_system(h, sys));
            }
        } else {
            proof {
                assert(h[0] == self.history@[0]@);
            }
            if str_eq(self.history[0].role.as_str(), "system") {
                self.history.set(0, ChatMsg::system(system));
                proof {
                    assert(msgs_say(self.history@) =~= h.update(0, system_msg(sys)));
                }
            }
        }
    }

    fn push_message(&mut self, m: ChatMsg)
        ensures
            final(self)@ == (SessionV { history: old(self)@.history.push(m@), ..old(self)@ }),
    {
        let ghost h = msgs_say(self.history@);
        let ghost v = m@;
        self.history.push(m);
        proof {
            assert(msgs_say(self.history@) =~= h.push(v));
        }
    }

    /// Begins a turn with what the user sends. Gives the turn's name.
    pub fn begin_turn(&mut self, system: String, sent: &Sent, input_image: bool) -> (r: (
        String,
        Vec<Effect>,
    ))
        ensures
            final(self)@ == turn_begun(old(self)@, system@, sent@, input_image),
            r.0@ == turn_name(final(self)@.turn_counter),
            effects_say(r.1@) == turn_begin_effects(old(self)@, system@, sent@),
    {
        let mut out = no_effects();
        self.turn_counter = wrap_sum(self.turn_counter, 1);
        self.turn = TurnTotals {
            input: 0,
            cache_read: 0,
            output: 0,
            api_ms: 0,
            ttft_ms: 0,
            api_steps: 0,
        };
        let turn_id = cat("turn-", number_text(self.turn_counter).as_str());
        show(&mut out, Event::TurnStarted { turn_id: turn_id.clone() });
        self.refresh_system(system);
        proof {
            assert(msgs_say(self.history@).len() == self.history@.len());
            assert(texts(sent.files@).len() == sent.files@.len());
        }
        if self.history.len() == 1 {
            let c = chars_of(sent.content.as_str());
            add_effect(
                &mut out,
                Effect::SeedTitle { title: string_of(first_chars(c.as_slice(), 30)) },
            );
            add_effect(&mut out, Effect::NameSession { input: sent.content.clone() });
        }
        let mut recorded = chars_of(sent.content.as_str());
        if sent.files.len() > 0 {
            push_text(&mut recorded, "\n\n引用文件: ");
            push_all(&mut recorded, joined_strings(sent.files.as_slice(), ", ").as_slice());
        }
        let recorded = string_of(recorded.as_slice());
        let (text, refs, mut images) = attach(sent.expanded.as_str(), sent.pictures.as_slice());
        let mut text = string_of(text.as_slice());
        let paths = paths_of(refs.as_slice());
        project_images(&mut text, &mut images, paths.as_slice(), input_image);
        let mut m = ChatMsg::user(text);
        m.images = images;
        self.push_message(m);
        let image_count: usize = refs.len();
        proof {
            assert(image_refs_say(refs@).len() == refs@.len());
        }
        let display = user_display_text(recorded.as_str(), refs.as_slice());
        note(
            &mut out,
            RolloutRecord::User {
                text: recorded,
                files: copied_strings(sent.files.as_slice()),
                images: refs,
            },
        );
        show(
            &mut out,
            Event::UserMessage {
                text: display,
                files: copied_strings(sent.files.as_slice()),
                image_count,
            },
        );
        (turn_id, out)
    }
}

// ---------------------------------------------------------------------------
// The end of a turn
// ---------------------------------------------------------------------------

/// What is said of the files that a turn changed.
pub open spec fn change_effects(changes: Seq<EditDiffV>) -> Seq<EffectV> {
    if changes.len() == 0 {
        Seq::empty()
    } else {
        Seq::<EffectV>::empty().push(noted(RolloutRecordV::TurnChanges { files: changes })).push(
            shown(EventV::TurnFileChanges { files: changes }),
        )
    }
}

/// Whether a turn has used any tokens.
pub open spec fn has_used(t: TurnTotals) -> bool {
    t.input > 0 || t.cache_read > 0 || t.output > 0
}

/// The statistics of a turn that took so long.
pub open spec fn turn_stats(t: TurnTotals, duration_ms: u64) -> TurnUsageStats {
    TurnUsageStats {
        input: t.input,
        cache_read: t.cache_read,
        output: t.output,
        duration_ms,
        api_ms: t.api_ms,
        ttft_ms: t.ttft_ms,
        api_steps: t.api_steps,
    }
}

/// What the end of a turn does: what it used is recorded, the files it changed
/// are shown, and then it is over.
pub open spec fn turn_end_effects(
    t: TurnTotals,
    duration_ms: u64,
    changes: Seq<EditDiffV>,
) -> Seq<EffectV> {
    let used = if has_used(t) {
        Seq::<EffectV>::empty().push(
            EffectV::RecordUsage { input: t.input, cache_read: t.cache_read, output: t.output },
        ).push(
            noted(
                RolloutRecordV::TurnStats {
                    input: t.input,
                    cache_read: t.cache_read,
                    output: t.output,
                    duration_ms,
                    api_ms: t.api_ms,
                    ttft_ms: t.ttft_ms,
                    api_steps: t.api_steps,
                },
            ),
        )
    } else {
        Seq::<EffectV>::empty()
    };
    (used + change_effects(changes)).push(
        shown(
            EventV::TurnComplete {
                duration_ms,
                stats: if has_used(t) {
                    Some(turn_stats(t, duration_ms))
                } else {
                    None
                },
            },
        ),
    ).push(EffectV::Touch)
}

/// Says which files a turn changed; nothing where it changed none.
pub fn flush_turn_changes(changes: &[EditDiff]) -> (r: Vec<Effect>)
    ensures
        effects_say(r@) == change_effects(edit_diffs_say(changes@)),
{
    let mut out = no_effects();
    proof {
        assert(edit_diffs_say(changes@).len() == changes@.len());
    }
    if changes.len() > 0 {
        note(&mut out, RolloutRecord::TurnChanges { files: copied_edit_diffs(changes) });
        show(&mut out, Event::TurnFileChanges { files: copied_edit_diffs(changes) });
    }
    out
}

impl Session {
    /// Ends a turn whose last reply calls no tool.
    pub fn end_turn(&self, duration_ms: u64, changes: &[EditDiff]) -> (r: Vec<Effect>)
        ensures
            effects_say(r@) == turn_end_effects(
                self@.turn,
                duration_ms,
                edit_diffs_say(changes@),
            ),
    {
        let t = self.turn;
        let used = t.input > 0 || t.cache_read > 0 || t.output > 0;
        let mut out = no_effects();
        if used {
            add_effect(
                &mut out,
                Effect::RecordUsage {
                    input: t.input,
                    cache_read: t.cache_read,
                    output: t.output,
                },
            );
            note(
                &mut out,
                RolloutRecord::TurnStats {
                    input: t.input,
                    cache_read: t.cache_read,
                    output: t.output,
                    duration_ms,
                    api_ms: t.api_ms,
                    ttft_ms: t.ttft_ms,
                    api_steps: t.api_steps,
                },
            );
        }
        let changed = flush_turn_changes(changes);
        add_effects(&mut out, changed);
        let stats: Option<TurnUsageStats> = if used {
            Some(
                TurnUsageStats {
                    input: t.input,
                    cache_read: t.cache_read,
                    output: t.output,
                    duration_ms,
                    api_ms: t.api_ms,
                    ttft_ms: t.ttft_ms,
                    api_steps: t.api_steps,
                },
            )
        } else {
            None
        };
        show(&mut out, Event::TurnComplete { duration_ms, stats });
        add_effect(&mut out, Effect::Touch);
        out
    }
}

// ---------------------------------------------------------------------------
// A reply
// ---------------------------------------------------------------------------

/// A reply that is coming in.
#[derive(Debug)]
pub struct Sample {
    pub text: String,
    pub reasoning: String,
    pub calls: Vec<ToolCall>,
    /// Whether a word has come.
    pub spoke: bool,
}

/// What a `Sample` says.
#[verifier::ext_equal]
pub struct SampleV {
    pub text: Seq<char>,
    pub reasoning: Seq<char>,
    pub calls: Seq<CallV>,
    pub spoke: bool,
}

impl View for Sample {
    type V = SampleV;

    open spec fn view(&self) -> SampleV {
        SampleV {
            text: self.text@,
            reasoning: self.reasoning@,
            calls: calls_say(self.calls@),
            spoke: self.spoke,
        }
    }
}

/// A reply of which nothing has come.
pub open spec fn no_sample() -> SampleV {
    SampleV { text: Seq::empty(), reasoning: Seq::empty(), calls: Seq::empty(), spoke: false }
}

/// Whether a reply goes on.
#[derive(Clone, Copy, Debug, PartialEq, Eq, Structural)]
pub enum Flow {
    Going,
    Finished,
    Failed,
}

/// A reply after one more event of the provider.
pub open spec fn heard(s: SampleV, e: ReplyV) -> (SampleV, Flow) {
    match e {
        ReplyV::Reasoning(t) => (
            SampleV { reasoning: s.reasoning + t, spoke: true, ..s },
            Flow::Going,
        ),
        ReplyV::Text(t) => (SampleV { text: s.text + t, spoke: true, ..s }, Flow::Going),
        ReplyV::ToolCalls(v) => (SampleV { calls: v, ..s }, Flow::Going),
        ReplyV::Usage { .. } => (s, Flow::Going),
        ReplyV::Finished => (s, Flow::Finished),
        ReplyV::Failed(_) => (s, Flow::Failed),
    }
}

impl Sample {
    /// A reply of which nothing has come.
    pub fn new() -> (r: Self)
        ensures
            r@ == no_sample(),
    {
        let s = Sample {
            text: String::new(),
            reasoning: String::new(),
            calls: Vec::new(),
            spoke: false,
        };
        proof {
            assert(calls_say(s.calls@) =~= Seq::<CallV>::empty());
        }
        s
    }

    /// Takes an event of the provider into the reply.
    pub fn hear(&mut self, event: &ProviderEvent) -> (r: Flow)
        ensures
            (final(self)@, r) == heard(old(self)@, event@),
    {
        match event {
            ProviderEvent::Reasoning(t) => {
                self.reasoning = cat(self.reasoning.as_str(), t.as_str());
                self.spoke = true;
                Flow::Going
            },
            ProviderEvent::Text(t) => {
                self.text = cat(self.text.as_str(), t.as_str());
                self.spoke = true;
                Flow::Going
            },
            ProviderEvent::ToolCalls(v) => {
                self.calls = copied_calls(v.as_slice());
                Flow::Going
            },
            ProviderEvent::Usage { .. } => Flow::Going,
            ProviderEvent::Finished => Flow::Finished,
            ProviderEvent::Failed(_) => Flow::Failed,
        }
    }
}

/// Calls that say the same.
pub fn copied_calls(v: &[ToolCall]) -> (r: Vec<ToolCall>)
    ensures
        calls_say(r@) == calls_say(v@),
{
    let mut out: Vec<ToolCall> = Vec::new();
    for i in 0..v.len()
        invariant
            out.len() == i,
            forall|k: int| 0 <= k < i ==> (#[trigger] out@[k])@ == v@[k]@,
    {
        out.push(v[i].copy());
    }
    proof {
        assert(calls_say(out@) =~= calls_say(v@));
    }
    out
}

/// The name of a part of a step.
pub open spec fn part_name(turn: Seq<char>, what: Seq<char>, step: u64) -> Seq<char> {
    turn + what + decimal(step as nat)
}

/// A session after the tokens of a request are known.
pub open spec fn with_usage(s: SessionV, input: u64, cache_read: u64, output: u64, used: u64) -> SessionV {
    SessionV {
        turn: TurnTotals {
            input: wrapped(s.turn.input, input),
            cache_read: wrapped(s.turn.cache_read, cache_read),
            output: wrapped(s.turn.output, output),
            ..s.turn
        },
        input_total: wrapped(s.input_total, input),
        cache_read_total: wrapped(s.cache_read_total, cache_read),
        last_total_tokens: Some(used),
        ..s
    }
}

/// A session after an event of the provider, and what it shows.
pub open spec fn after_event(s: SessionV, turn: Seq<char>, step: u64, e: ReplyV) -> (
    SessionV,
    Seq<EffectV>,
) {
    match e {
        ReplyV::Reasoning(t) => (
            s,
            Seq::<EffectV>::empty().push(
                shown(
                    EventV::ReasoningDelta {
                        item_id: part_name(turn, "-reason-"@, step),
                        delta: t,
                    },
                ),
            ),
        ),
        ReplyV::Text(t) => (
            s,
            Seq::<EffectV>::empty().push(
                shown(EventV::TextDelta { item_id: part_name(turn, "-text-"@, step), delta: t }),
            ),
        ),
        ReplyV::Usage { input, cache_read, output, used, total } => {
            let now = with_usage(s, input, cache_read, output, used);
            (
                now,
                Seq::<EffectV>::empty().push(
                    noted(RolloutRecordV::StepUsage { input, cache_read, output, used }),
                ).push(
                    shown(
                        EventV::ContextUsage {
                            used,
                            total,
                            cache_read_total: now.cache_read_total,
                            input_total: now.input_total,
                        },
                    ),
                ),
            )
        },
        ReplyV::Failed(t) => (s, Seq::<EffectV>::empty().push(shown(EventV::Error { message: t }))),
        _ => (s, Seq::empty()),
    }
}

/// How a reply ended.
#[derive(Clone, Copy, Debug, PartialEq, Eq, Structural)]
pub enum ReplyEnd {
    Done,
    Failed,
    /// The user interrupted.
    Cancelled,
}

/// What follows a reply.
#[derive(Clone, Copy, Debug, PartialEq, Eq, Structural)]
pub enum StepOutcome {
    /// The turn is over.
    TextOnly,
    /// Tools are called.
    Tools,
    /// The turn was broken off.
    Ended,
}

/// The lesser of a time that may be unknown and another.
pub open spec fn at_most(t: Option<u64>, limit: u64) -> u64 {
    match t {
        Some(n) => if n < limit {
            n
        } else {
            limit
        },
        None => 0,
    }
}

/// A session after the times of a request are known.
pub open spec fn with_times(s: SessionV, api_ms: u64, ttft_ms: Option<u64>) -> SessionV {
    SessionV {
        turn: TurnTotals {
            api_ms: wrapped(s.turn.api_ms, api_ms),
            api_steps: wrapped(s.turn.api_steps, 1),
            ttft_ms: wrapped(s.turn.ttft_ms, at_most(ttft_ms, api_ms)),
            ..s.turn
        },
        ..s
    }
}

/// The message that a reply adds to the conversation.
pub open spec fn reply_message(r: SampleV) -> MsgV {
    assistant_msg(r.text, r.calls, Some(r.reasoning))
}

/// What the end of a reply shows and records.
pub open spec fn reply_effects(r: SampleV, turn: Seq<char>, step: u64) -> Seq<EffectV> {
    let thought = if r.reasoning.len() > 0 {
        Seq::<EffectV>::empty().push(noted(RolloutRecordV::Reasoning { text: r.reasoning }))
    } else {
        Seq::<EffectV>::empty()
    };
    if r.text.len() > 0 {
        thought.push(
            shown(
                EventV::TextDone {
                    item_id: part_name(turn, "-text-"@, step),
                    full_text: r.text,
                },
            ),
        ).push(noted(RolloutRecordV::Text { text: r.text }))
    } else {
        thought
    }
}

/// What follows a reply.
pub open spec fn reply_outcome(r: SampleV, end: ReplyEnd) -> StepOutcome {
    if end != ReplyEnd::Done {
        StepOutcome::Ended
    } else if r.calls.len() == 0 {
        StepOutcome::TextOnly
    } else {
        StepOutcome::Tools
    }
}

impl Session {
    /// Takes an event of the provider: counts tokens, and says what is shown.
    pub fn take_event(&mut self, turn_id: &str, step: u64, event: &ProviderEvent) -> (r: Vec<
        Effect,
    >)
        ensures
            (final(self)@, effects_say(r@)) == after_event(old(self)@, turn_id@, step, event@),
    {
        let mut out = no_effects();
        let n = number_text(step);
        match event {
            ProviderEvent::Reasoning(t) => {
                show(
                    &mut out,
                    Event::ReasoningDelta {
                        item_id: cat3(turn_id, "-reason-", n.as_str()),
                        delta: t.clone(),
                    },
                );
            },
            ProviderEvent::Text(t) => {
                show(
                    &mut out,
                    Event::TextDelta {
                        item_id: cat3(turn_id, "-text-", n.as_str()),
                        delta: t.clone(),
                    },
                );
            },
            ProviderEvent::Usage { input, cache_read, output, used, total } => {
                self.turn.input = wrap_sum(self.turn.input, *input);
                self.turn.cache_read = wrap_sum(self.turn.cache_read, *cache_read);
                self.turn.output = wrap_sum(self.turn.output, *output);
                self.input_total = wrap_sum(self.input_total, *input);
                self.cache_read_total = wrap_sum(self.cache_read_total, *cache_read);
                self.last_total_tokens = Some(*used);
                note(
                    &mut out,
                    RolloutRecord::StepUsage {
                        input: *input,
                        cache_read: *cache_read,
                        output: *output,
                        used: *used,
                    },
                );
                show(
                    &mut out,
                    Event::ContextUsage {
                        used: *used,
                        total: *total,
                        cache_read_total: self.cache_read_total,
                        input_total: self.input_total,
                    },
                );
            },
            ProviderEvent::Failed(t) => {
                show(&mut out, Event::Error { message: t.clone() });
            },
            ProviderEvent::ToolCalls(_) => {},
            ProviderEvent::Finished => {},
        }
        out
    }

    /// Takes the end of a reply into the conversation. `api_ms` is how long
    /// the request took, `ttft_ms` how long until its first word.
    pub fn end_reply(
        &mut self,
        sample: &Sample,
        turn_id: &str,
        step: u64,
        api_ms: u64,
        ttft_ms: Option<u64>,
        end: ReplyEnd,
    ) -> (r: (Vec<Effect>, StepOutcome))
        ensures
            r.1 == reply_outcome(sample@, end),
            final(self)@ == ({
                let timed = with_times(old(self)@, api_ms, ttft_ms);
                if end == ReplyEnd::Done {
                    SessionV { history: timed.history.push(reply_message(sample@)), ..timed }
                } else {
                    timed
                }
            }),
            effects_say(r.0@) == match end {
                ReplyEnd::Done => reply_effects(sample@, turn_id@, step),
                ReplyEnd::Failed => Seq::<EffectV>::empty(),
                ReplyEnd::Cancelled => Seq::<EffectV>::empty().push(shown(EventV::TurnAborted)),
            },
    {
        let mut out = no_effects();
        let first: u64 = match ttft_ms {
            Some(n) => if n < api_ms {
                n
            } else {
                api_ms
            },
            None => 0,
        };
        self.turn.api_ms = wrap_sum(self.turn.api_ms, api_ms);
        self.turn.api_steps = wrap_sum(self.turn.api_steps, 1);
        self.turn.ttft_ms = wrap_sum(self.turn.ttft_ms, first);
        match end {
            ReplyEnd::Failed => {
                return (out, StepOutcome::Ended);
            },
            ReplyEnd::Cancelled => {
                show(&mut out, Event::TurnAborted);
                return (out, StepOutcome::Ended);
            },
            ReplyEnd::Done => {},
        }
        if chars_of(sample.reasoning.as_str()).len() > 0 {
            note(&mut out, RolloutRecord::Reasoning { text: sample.reasoning.clone() });
        }
        if chars_of(sample.text.as_str()).len() > 0 {
            let n = number_text(step);
            show(
                &mut out,
                Event::TextDone {
                    item_id: cat3(turn_id, "-text-", n.as_str()),
                    full_text: sample.text.clone(),
                },
            );
            note(&mut out, RolloutRecord::Text { text: sample.text.clone() });
        }
        let m = ChatMsg::assistant(
            sample.text.clone(),
            copied_calls(sample.calls.as_slice()),
            Some(sample.reasoning.clone()),
        );
        self.push_message(m);
        proof {
            assert(calls_say(sample.calls@).len() == sample.calls@.len());
        }
        if sample.calls.len() == 0 {
            (out, StepOutcome::TextOnly)
        } else {
            (out, StepOutcome::Tools)
        }
    }
}

// ---------------------------------------------------------------------------
// The calls of a step
// ---------------------------------------------------------------------------

/// The calls of a reply, and how many of them have been answered.
#[derive(Debug)]
pub struct StepRun {
    pub turn_id: String,
    pub calls: Vec<ToolCall>,
    pub next: usize,
    /// How long the conversation was when the first call began.
    pub base: usize,
}

/// What a `StepRun` says.
#[verifier::ext_equal]
pub struct RunV {
    pub turn_id: Seq<char>,
    pub calls: Seq<CallV>,
    pub next: nat,
    pub base: nat,
}

impl View for StepRun {
    type V = RunV;

    open spec fn view(&self) -> RunV {
        RunV {
            turn_id: self.turn_id@,
            calls: calls_say(self.calls@),
            next: self.next as nat,
            base: self.base as nat,
        }
    }
}

/// Whether a conversation answers the calls of a step so far: since the step
/// began it has grown by one result for each call that is over, in the order
/// of the calls, and by nothing else.
pub open spec fn answers(h: Seq<MsgV>, run: RunV) -> bool {
    &&& run.next <= run.calls.len()
    &&& h.len() == run.base + run.next
    &&& forall|i: int|
        0 <= i < run.next ==> (#[trigger] h[run.base + i]).role == "tool"@ && h[run.base
            + i].tool_call_id == Some(run.calls[i].id)
}

/// The name of a call.
pub open spec fn item_name(turn: Seq<char>, call: CallV) -> Seq<char> {
    turn + "-tool-"@ + call.id
}

/// The arguments of a call as they are shown.
pub open spec fn shown_arguments(arguments: Seq<char>) -> Seq<char> {
    match pretty_text(arguments) {
        Some(t) => t,
        None => arguments,
    }
}

/// Writes the arguments of a call as they are shown.
pub fn show_arguments(arguments: &str) -> (r: String)
    ensures
        r@ == shown_arguments(arguments@),
{
    match pretty(arguments) {
        Some(t) => t,
        None => text_from(arguments),
    }
}

/// What the beginning of a call shows.
pub open spec fn call_begins(turn: Seq<char>, call: CallV) -> EffectV {
    shown(
        EventV::ToolCallBegin {
            item_id: item_name(turn, call),
            tool: call.name,
            input_summary: summary_of(call),
            detail: shown_arguments(call.arguments),
        },
    )
}

/// How a call ended.
#[verifier::ext_equal]
pub struct ResultV {
    pub output: Seq<char>,
    pub is_error: bool,
    pub edit: Option<EditDiffV>,
    pub images: Seq<ImageV>,
}

/// A result that is only text.
pub open spec fn told(output: Seq<char>, is_error: bool) -> ResultV {
    ResultV { output, is_error, edit: None, images: Seq::empty() }
}

/// What the end of a call records and shows.
pub open spec fn call_ends(turn: Seq<char>, call: CallV, r: ResultV) -> Seq<EffectV> {
    Seq::<EffectV>::empty().push(
        noted(
            RolloutRecordV::ToolCall {
                tool: call.name,
                summary: summary_of(call),
                arguments: call.arguments,
                output: r.output,
                is_error: r.is_error,
                edit: r.edit,
            },
        ),
    ).push(
        shown(
            EventV::ToolCallEnd {
                item_id: item_name(turn, call),
                output: r.output,
                is_error: r.is_error,
                edit: r.edit,
            },
        ),
    )
}

/// A session after a call has been answered.
pub open spec fn answered(s: SessionV, call: CallV, r: ResultV) -> SessionV {
    SessionV { history: s.history.push(tool_msg(call.id, r.output, r.images)), ..s }
}

/// A step with one more call over.
pub open spec fn one_over(run: RunV) -> RunV {
    RunV { next: run.next + 1, ..run }
}

/// Where a call goes.
#[derive(Debug)]
pub enum Route {
    /// It has been answered.
    Answered,
    /// The user is asked whether plan mode may end.
    AskExit { request_id: String },
    /// An agent takes it over.
    Delegate,
    /// The user is asked questions.
    AskUser { request_id: String, questions: Vec<QuestionItem> },
    /// It goes to the guard.
    Gate,
}

/// What a `Route` says.
#[verifier::ext_equal]
pub enum RouteV {
    /// It is answered at once; the session may change its mode.
    Answer { mode: ExecMode, pre_plan_mode: Option<ExecMode>, result: ResultV },
    AskExit { request_id: Seq<char>, detail: Seq<char> },
    Delegate,
    AskUser { request_id: Seq<char>, questions: Seq<QuestionItemV> },
    Gate,
}

/// Where a call goes: out of and into plan mode first, then to an agent; an
/// image only to a model that takes images; in plan mode nothing that changes
/// something; then questions to the user; and all else to the guard.
pub open spec fn route_of(s: SessionV, turn: Seq<char>, call: CallV, input_image: bool) -> RouteV {
    let stay = |r: ResultV|
        RouteV::Answer { mode: s.mode, pre_plan_mode: s.pre_plan_mode, result: r };
    let item = item_name(turn, call);
    let args = args_say(call.arguments);
    let tool = tool_named(all_built_in(), call.name, 0);
    if call.name == "ExitPlanMode"@ {
        if s.mode != ExecMode::Plan {
            stay(told("仅在计划模式下可用"@, true))
        } else {
            RouteV::AskExit {
                request_id: request_name(s.id, turn, "-exitplan-"@, item),
                detail: "模型请求结束计划模式并开始执行\n\n"@ + prefix(
                    or_empty(text_at(args, "plan"@)),
                    500,
                ),
            }
        }
    } else if call.name == "EnterPlanMode"@ {
        if s.mode == ExecMode::Plan {
            stay(told("已在计划模式，请继续调研并输出计划。"@, false))
        } else {
            RouteV::Answer {
                mode: ExecMode::Plan,
                pre_plan_mode: Some(s.mode),
                result: told(
                    "已切换到计划模式。接下来只能使用只读工具调研，计划写好后调用 ExitPlanMode 请用户确认执行。"@,
                    false,
                ),
            }
        }
    } else if call.name == "Agent"@ {
        RouteV::Delegate
    } else if call.name == "ReadMediaFile"@ && !input_image {
        stay(told("当前模型不支持图片输入，请在设置里更换模型或勾选图片输入能力"@, true))
    } else if s.mode == ExecMode::Plan && !(tool is Some && tool->0.only_reads()) {
        stay(
            told(
                "计划模式：修改类工具已被禁止执行。请只输出计划文本，等用户切换到其他模式后再执行。"@,
                true,
            ),
        )
    } else if call.name == "AskUserQuestion"@ {
        match questions_of(args) {
            Ok(questions) => RouteV::AskUser {
                request_id: request_name(s.id, turn, "-question-"@, item),
                questions,
            },
            Err(e) => stay(told("AskUserQuestion 参数非法: "@ + e, true)),
        }
    } else {
        RouteV::Gate
    }
}

/// What a change of the mode does.
pub open spec fn mode_effects(old_mode: ExecMode, mode: ExecMode) -> Seq<EffectV> {
    if old_mode == mode {
        Seq::empty()
    } else {
        Seq::<EffectV>::empty().push(EffectV::SaveMode { mode }).push(
            shown(EventV::ExecModeChanged { mode }),
        )
    }
}

/// What the beginning of a call does, by where it goes.
pub open spec fn route_effects(s: SessionV, turn: Seq<char>, call: CallV, route: RouteV) -> Seq<
    EffectV,
> {
    let begun = Seq::<EffectV>::empty().push(call_begins(turn, call));
    match route {
        RouteV::Answer { mode, pre_plan_mode: _, result } => begun + mode_effects(s.mode, mode)
            + call_ends(turn, call, result),
        RouteV::AskExit { request_id, detail } => begun.push(
            shown(EventV::ApprovalRequested { request_id, tool: call.name, detail }),
        ),
        RouteV::AskUser { request_id, questions } => begun.push(
            shown(EventV::QuestionRequested { request_id, questions }),
        ),
        RouteV::Delegate => begun,
        RouteV::Gate => begun,
    }
}

/// The session after the beginning of a call, by where it goes.
pub open spec fn route_session(s: SessionV, call: CallV, route: RouteV) -> SessionV {
    match route {
        RouteV::Answer { mode, pre_plan_mode, result } => answered(
            SessionV { mode, pre_plan_mode, ..s },
            call,
            result,
        ),
        _ => s,
    }
}

/// The step after the beginning of a call, by where it goes.
pub open spec fn route_run(run: RunV, route: RouteV) -> RunV {
    match route {
        RouteV::Answer { .. } => one_over(run),
        _ => run,
    }
}

/// Whether what the library does with a call is what its route says.
pub open spec fn route_is(r: Route, v: RouteV) -> bool {
    match (r, v) {
        (Route::Answered, RouteV::Answer { .. }) => true,
        (Route::AskExit { request_id }, RouteV::AskExit { request_id: id, detail: _ }) => request_id@
            == id,
        (Route::Delegate, RouteV::Delegate) => true,
        (
            Route::AskUser { request_id, questions },
            RouteV::AskUser { request_id: id, questions: q },
        ) => request_id@ == id && question_items_say(questions@) == q,
        (Route::Gate, RouteV::Gate) => true,
        _ => false,
    }
}

/// The name of a mode as the model reads it.
pub open spec fn mode_label(mode: ExecMode) -> Seq<char> {
    match mode {
        ExecMode::ConfirmBeforeEdit => "变更前确认"@,
        ExecMode::AutoEdit => "自动编辑"@,
        ExecMode::Plan => "计划"@,
        ExecMode::FullAccess => "完全访问"@,
        ExecMode::Yolo => "无管制"@,
    }
}

/// Names a mode for the model.
pub fn exec_mode_label(mode: ExecMode) -> (r: &'static str)
    ensures
        r@ == mode_label(mode),
{
    match mode {
        ExecMode::ConfirmBeforeEdit => "变更前确认",
        ExecMode::AutoEdit => "自动编辑",
        ExecMode::Plan => "计划",
        ExecMode::FullAccess => "完全访问",
        ExecMode::Yolo => "无管制",
    }
}

/// The mode to which the end of plan mode leads back.
pub open spec fn mode_before_plan(s: SessionV) -> ExecMode {
    match s.pre_plan_mode {
        Some(m) => m,
        None => ExecMode::ConfirmBeforeEdit,
    }
}

/// The answer to the model's wish to end plan mode.
pub open spec fn exit_result(s: SessionV, decision: ApprovalDecision) -> ResultV {
    if decision == ApprovalDecision::Reject {
        told("用户拒绝退出计划模式，请继续完善计划或回答疑问。"@, true)
    } else {
        told(
            "已切换到「"@ + mode_label(mode_before_plan(s)) + "」模式，请开始执行计划。"@,
            false,
        )
    }
}

/// The session after the user's answer to the model's wish to end plan mode.
pub open spec fn exit_session(s: SessionV, call: CallV, decision: ApprovalDecision) -> SessionV {
    let now = if decision == ApprovalDecision::Reject {
        s
    } else {
        SessionV { mode: mode_before_plan(s), pre_plan_mode: None, ..s }
    };
    answered(now, call, exit_result(s, decision))
}

/// What the user's answer to the model's wish to end plan mode does.
pub open spec fn exit_effects(
    s: SessionV,
    turn: Seq<char>,
    call: CallV,
    decision: ApprovalDecision,
) -> Seq<EffectV> {
    let moved = if decision == ApprovalDecision::Reject {
        Seq::<EffectV>::empty()
    } else {
        Seq::<EffectV>::empty().push(EffectV::SaveMode { mode: mode_before_plan(s) }).push(
            shown(EventV::ExecModeChanged { mode: mode_before_plan(s) }),
        )
    };
    moved + call_ends(turn, call, exit_result(s, decision))
}

/// What the model is told of the answers to its questions.
pub open spec fn questions_result(
    questions: Seq<QuestionItemV>,
    reply: Option<Seq<Seq<Seq<char>>>>,
) -> ResultV {
    match reply {
        Some(a) => told(answer_lines(questions, a), false),
        None => told("用户选择不回答，请根据上下文自行决定并继续。"@, false),
    }
}

/// What optional answers say.
pub open spec fn opt_answers(v: Option<Vec<Vec<String>>>) -> Option<Seq<Seq<Seq<char>>>> {
    match v {
        Some(a) => Some(answers_say(a@)),
        None => None,
    }
}

/// How a call ended.
#[derive(Debug)]
pub struct CallResult {
    pub output: String,
    pub is_error: bool,
    pub edit: Option<EditDiff>,
    pub images: Vec<ChatImage>,
}

impl View for CallResult {
    type V = ResultV;

    open spec fn view(&self) -> ResultV {
        ResultV {
            output: self.output@,
            is_error: self.is_error,
            edit: opt_edit_diff(self.edit),
            images: images_say(self.images@),
        }
    }
}

fn tell(output: String, is_error: bool) -> (r: CallResult)
    ensures
        r@ == told(output@, is_error),
{
    let r = CallResult { output, is_error, edit: None, images: Vec::new() };
    proof {
        assert(images_say(r.images@) =~= Seq::<ImageV>::empty());
    }
    r
}

impl StepRun {
    /// The calls of a reply, none of them begun.
    pub fn new(session: &Session, turn_id: &str, sample: &Sample) -> (r: Self)
        ensures
            r@ == (RunV {
                turn_id: turn_id@,
                calls: sample@.calls,
                next: 0,
                base: session@.history.len(),
            }),
            answers(session@.history, r@),
    {
        StepRun {
            turn_id: text_from(turn_id),
            calls: copied_calls(sample.calls.as_slice()),
            next: 0,
            base: session.history.len(),
        }
    }

    /// Whether every call has been answered.
    pub fn is_over(&self) -> (r: bool)
        ensures
            r == (self@.next >= self@.calls.len()),
    {
        self.next >= self.calls.len()
    }
}

impl Session {
    /// Answers the call at hand: the result goes into the conversation and the
    /// record, and is shown.
    pub fn finish_call(&mut self, run: &mut StepRun, result: CallResult) -> (r: Vec<Effect>)
        requires
            answers(old(self)@.history, old(run)@),
            old(run)@.next < old(run)@.calls.len(),
        ensures
            final(self)@ == answered(
                old(self)@,
                old(run)@.calls[old(run)@.next as int],
                result@,
            ),
            final(run)@ == one_over(old(run)@),
            answers(final(self)@.history, final(run)@),
            effects_say(r@) == call_ends(
                old(run)@.turn_id,
                old(run)@.calls[old(run)@.next as int],
                result@,
            ),
    {
        let ghost h = self@.history;
        let ghost before = run@;
        let i: usize = run.next;
        let total: usize = run.calls.len();
        let call = run.calls[i].copy();
        proof {
            assert(before.calls[i as int] == call@);
            assert(i < total);
        }
        let mut out = no_effects();
        let m = ChatMsg::tool_result_with_images(
            call.id.as_str(),
            result.output.clone(),
            result.images,
        );
        self.push_message(m);
        note(
            &mut out,
            RolloutRecord::ToolCall {
                tool: call.name.clone(),
                summary: summarize(&call),
                arguments: call.arguments.clone(),
                output: result.output.clone(),
                is_error: result.is_error,
                edit: copied_opt_edit_diff(&result.edit),
            },
        );
        show(
            &mut out,
            Event::ToolCallEnd {
                item_id: cat3(run.turn_id.as_str(), "-tool-", call.id.as_str()),
                output: result.output,
                is_error: result.is_error,
                edit: result.edit,
            },
        );
        run.next = i + 1;
        proof {
            let now = self@.history;
            assert forall|k: int| 0 <= k < run@.next implies (#[trigger] now[run@.base + k]).role
                == "tool"@ && now[run@.base + k].tool_call_id == Some(run@.calls[k].id) by {
                if k < before.next {
                    assert(now[run@.base + k] == h[before.base + k]);
                }
            }
        }
        out
    }

    /// Begins the call at hand and says where it goes. What needs nobody else
    /// is answered at once.
    pub fn begin_call(&mut self, run: &mut StepRun, input_image: bool) -> (r: (Route, Vec<Effect>))
        requires
            answers(old(self)@.history, old(run)@),
            old(run)@.next < old(run)@.calls.len(),
        ensures
            ({
                let call = old(run)@.calls[old(run)@.next as int];
                let v = route_of(old(self)@, old(run)@.turn_id, call, input_image);
                &&& route_is(r.0, v)
                &&& final(self)@ == route_session(old(self)@, call, v)
                &&& final(run)@ == route_run(old(run)@, v)
                &&& effects_say(r.1@) == route_effects(old(self)@, old(run)@.turn_id, call, v)
            }),
            answers(final(self)@.history, final(run)@),
    {
        let ghost s0 = self@;
        let ghost run0 = run@;
        let i: usize = run.next;
        let call = run.calls[i].copy();
        let ghost cv = call@;
        proof {
            assert(run0.calls[i as int] == cv);
        }
        let name = call.name.as_str();
        let args = parse_args(call.arguments.as_str());
        let item = cat3(run.turn_id.as_str(), "-tool-", call.id.as_str());
        let mut out = no_effects();
        show(
            &mut out,
            Event::ToolCallBegin {
                item_id: item.clone(),
                tool: call.name.clone(),
                input_summary: summarize(&call),
                detail: show_arguments(call.arguments.as_str()),
            },
        );
        let ghost begun = effects_say(out@);
        proof {
            assert(begun + Seq::<EffectV>::empty() =~= begun);
        }
        if str_eq(name, "ExitPlanMode") {
            if self.mode != ExecMode::Plan {
                let done = self.finish_call(run, tell(text_from("仅在计划模式下可用"), true));
                add_effects(&mut out, done);
                return (Route::Answered, out);
            }
            let request_id = request_id(
                self.id.as_str(),
                run.turn_id.as_str(),
                "-exitplan-",
                item.as_str(),
            );
            let plan = match args.str_at("plan") {
                Some(t) => chars_of(t.as_str()),
                None => Vec::new(),
            };
            let mut detail = chars_of("模型请求结束计划模式并开始执行\n\n");
            push_all(&mut detail, first_chars(plan.as_slice(), 500));
            show(
                &mut out,
                Event::ApprovalRequested {
                    request_id: request_id.clone(),
                    tool: call.name.clone(),
                    detail: string_of(detail.as_slice()),
                },
            );
            return (Route::AskExit { request_id }, out);
        }
        if str_eq(name, "EnterPlanMode") {
            if self.mode == ExecMode::Plan {
                let done = self.finish_call(
                    run,
                    tell(text_from("已在计划模式，请继续调研并输出计划。"), false),
                );
                add_effects(&mut out, done);
                return (Route::Answered, out);
            }
            self.pre_plan_mode = Some(self.mode);
            self.mode = ExecMode::Plan;
            add_effect(&mut out, Effect::SaveMode { mode: ExecMode::Plan });
            show(&mut out, Event::ExecModeChanged { mode: ExecMode::Plan });
            proof {
                assert(effects_say(out@) =~= begun + mode_effects(s0.mode, ExecMode::Plan));
            }
            let done = self.finish_call(
                run,
                tell(
                    text_from(
                        "已切换到计划模式。接下来只能使用只读工具调研，计划写好后调用 ExitPlanMode 请用户确认执行。",
                    ),
                    false,
                ),
            );
            add_effects(&mut out, done);
            return (Route::Answered, out);
        }
        if str_eq(name, "Agent") {
            return (Route::Delegate, out);
        }
        if str_eq(name, "ReadMediaFile") && !input_image {
            let done = self.finish_call(
                run,
                tell(
                    text_from("当前模型不支持图片输入，请在设置里更换模型或勾选图片输入能力"),
                    true,
                ),
            );
            add_effects(&mut out, done);
            return (Route::Answered, out);
        }
        let read_only = match find_tool(all().as_slice(), name) {
            Some(t) => t.read_only(),
            None => false,
        };
        if self.mode == ExecMode::Plan && !read_only {
            let done = self.finish_call(
                run,
                tell(
                    text_from(
                        "计划模式：修改类工具已被禁止执行。请只输出计划文本，等用户切换到其他模式后再执行。",
                    ),
                    true,
                ),
            );
            add_effects(&mut out, done);
            return (Route::Answered, out);
        }
        if str_eq(name, "AskUserQuestion") {
            match parse_questions(&args) {
                Ok(questions) => {
                    let request_id = request_id(
                        self.id.as_str(),
                        run.turn_id.as_str(),
                        "-question-",
                        item.as_str(),
                    );
                    show(
                        &mut out,
                        Event::QuestionRequested {
                            request_id: request_id.clone(),
                            questions: copied_question_items(questions.as_slice()),
                        },
                    );
                    return (Route::AskUser { request_id, questions }, out);
                },
                Err(e) => {
                    let done = self.finish_call(
                        run,
                        tell(cat("AskUserQuestion 参数非法: ", e.as_str()), true),
                    );
                    add_effects(&mut out, done);
                    return (Route::Answered, out);
                },
            }
        }
        (Route::Gate, out)
    }

    /// Takes the user's answer to the model's wish to end plan mode: the mode
    /// goes back to what it was before.
    pub fn answer_exit(&mut self, run: &mut StepRun, decision: ApprovalDecision) -> (r: Vec<Effect>)
        requires
            answers(old(self)@.history, old(run)@),
            old(run)@.next < old(run)@.calls.len(),
        ensures
            ({
                let call = old(run)@.calls[old(run)@.next as int];
                &&& final(self)@ == exit_session(old(self)@, call, decision)
                &&& effects_say(r@) == exit_effects(
                    old(self)@,
                    old(run)@.turn_id,
                    call,
                    decision,
                )
            }),
            final(run)@ == one_over(old(run)@),
            answers(final(self)@.history, final(run)@),
    {
        let mut out = no_effects();
        match decision {
            ApprovalDecision::Reject => {
                let done = self.finish_call(
                    run,
                    tell(
                        text_from("用户拒绝退出计划模式，请继续完善计划或回答疑问。"),
                        true,
                    ),
                );
                add_effects(&mut out, done);
                out
            },
            _ => {
                let back: ExecMode = match self.pre_plan_mode {
                    Some(m) => m,
                    None => ExecMode::ConfirmBeforeEdit,
                };
                self.pre_plan_mode = None;
                self.mode = back;
                add_effect(&mut out, Effect::SaveMode { mode: back });
                show(&mut out, Event::ExecModeChanged { mode: back });
                let text = cat3("已切换到「", exec_mode_label(back), "」模式，请开始执行计划。");
                let done = self.finish_call(run, tell(text, false));
                add_effects(&mut out, done);
                out
            },
        }
    }

    /// Takes the user's answers to the model's questions; none where the user
    /// passes them over.
    pub fn answer_questions(
        &mut self,
        run: &mut StepRun,
        questions: &[QuestionItem],
        reply: &Option<Vec<Vec<String>>>,
    ) -> (r: Vec<Effect>)
        requires
            answers(old(self)@.history, old(run)@),
            old(run)@.next < old(run)@.calls.len(),
        ensures
            ({
                let call = old(run)@.calls[old(run)@.next as int];
                let res = questions_result(question_items_say(questions@), opt_answers(*reply));
                &&& final(self)@ == answered(old(self)@, call, res)
                &&& effects_say(r@) == call_ends(old(run)@.turn_id, call, res)
            }),
            final(run)@ == one_over(old(run)@),
            answers(final(self)@.history, final(run)@),
    {
        let text = match reply {
            Some(a) => answers_note(questions, a.as_slice()),
            None => text_from("用户选择不回答，请根据上下文自行决定并继续。"),
        };
        self.finish_call(run, tell(text, false))
    }

    /// Sends the call at hand through the guard.
    pub fn gate_call(&self, run: &StepRun) -> (r: Verdict)
        requires
            run@.next < run@.calls.len(),
        ensures
            ({
                let call = run@.calls[run@.next as int];
                r@ == verdict(
                    self@.mode,
                    self@.rules,
                    self@.allowed,
                    call,
                    tool_named(all_built_in(), call.name, 0),
                )
            }),
    {
        let call = &run.calls[run.next];
        proof {
            assert(run@.calls[run@.next as int] == call@);
        }
        let tool = find_tool(all().as_slice(), call.name.as_str());
        decide(self.mode, &self.permissions, self.always_allowed.as_slice(), call, tool)
    }

    /// Takes the user's answer on the call at hand. Gives what the model is
    /// told where the call does not run.
    pub fn answer_approval(
        &mut self,
        run: &StepRun,
        reason: Option<&str>,
        decision: ApprovalDecision,
    ) -> (r: Option<String>)
        requires
            run@.next < run@.calls.len(),
        ensures
            final(self)@ == (SessionV {
                allowed: approvals_after(
                    old(self)@.allowed,
                    run@.calls[run@.next as int],
                    opt_str(reason),
                    decision,
                ),
                ..old(self)@
            }),
            opt_text(r) == if decision == ApprovalDecision::Reject {
                Some(refusal(opt_str(reason)))
            } else {
                None
            },
    {
        let call = &run.calls[run.next];
        proof {
            assert(run@.calls[run@.next as int] == call@);
        }
        take_answer(&mut self.always_allowed, call, reason, decision)
    }

    /// Refuses the call at hand.
    pub fn refuse_call(&mut self, run: &mut StepRun, note: String) -> (r: Vec<Effect>)
        requires
            answers(old(self)@.history, old(run)@),
            old(run)@.next < old(run)@.calls.len(),
        ensures
            ({
                let call = old(run)@.calls[old(run)@.next as int];
                &&& final(self)@ == answered(old(self)@, call, told(note@, true))
                &&& effects_say(r@) == call_ends(old(run)@.turn_id, call, told(note@, true))
            }),
            final(run)@ == one_over(old(run)@),
            answers(final(self)@.history, final(run)@),
    {
        self.finish_call(run, tell(note, true))
    }
}

/// What the user is asked about a call.
pub open spec fn approval_event(
    session: Seq<char>,
    turn: Seq<char>,
    item: Seq<char>,
    call: CallV,
    bytes: Option<Seq<u8>>,
    reason: Option<Seq<char>>,
) -> EventV {
    EventV::ApprovalRequested {
        request_id: request_name(session, turn, "-approval-"@, item),
        tool: call.name,
        detail: detail_of(call, bytes, reason),
    }
}

/// Asks the user about a call. `bytes` is the file that it names, where it
/// could be read.
pub fn ask_approval(
    session_id: &str,
    turn_id: &str,
    item_id: &str,
    call: &ToolCall,
    bytes: Option<&[u8]>,
    reason: Option<&str>,
) -> (r: Event)
    ensures
        r@ == approval_event(
            session_id@,
            turn_id@,
            item_id@,
            call@,
            opt_bytes(bytes),
            opt_str(reason),
        ),
{
    Event::ApprovalRequested {
        request_id: request_id(session_id, turn_id, "-approval-", item_id),
        tool: call.name.clone(),
        detail: approval_detail(call, bytes, reason),
    }
}

// ---------------------------------------------------------------------------
// Making the conversation shorter
// ---------------------------------------------------------------------------

/// What making a conversation shorter does.
pub open spec fn compact_effects(
    h: Seq<MsgV>,
    summary: Option<Seq<char>>,
    automatic: bool,
    changed: Seq<Seq<char>>,
) -> Seq<EffectV> {
    if h.len() <= KEEP + 1 {
        Seq::<EffectV>::empty().push(
            shown(
                EventV::ContextCompacted { omitted: 0, note: "历史很短，无需压缩"@, automatic },
            ),
        )
    } else {
        let omitted = (h.len() - 1 - KEEP) as usize;
        let text = compact_note(summary, omitted as nat, automatic, changed);
        Seq::<EffectV>::empty().push(
            noted(RolloutRecordV::Compact { note: text, omitted }),
        ).push(shown(EventV::ContextCompacted { omitted, note: text, automatic })).push(
            EffectV::Touch,
        )
    }
}

/// A session with a shorter conversation.
pub open spec fn compact_session(
    s: SessionV,
    summary: Option<Seq<char>>,
    automatic: bool,
    changed: Seq<Seq<char>>,
) -> SessionV {
    if s.history.len() <= KEEP + 1 {
        s
    } else {
        SessionV {
            history: compacted(
                s.history,
                compact_note(
                    summary,
                    (s.history.len() - 1 - KEEP) as nat,
                    automatic,
                    changed,
                ),
            ),
            ..s
        }
    }
}

impl Session {
    /// Whether the conversation is made shorter before the next request.
    pub fn is_full(&self, config: &ResolvedModel) -> (r: bool)
        ensures
            r == (self@.last_total_tokens matches Some(n) && n > 0 && crate::compact::is_full(
                self@.last_total_tokens,
                config@.context_window,
                config@.max_output_tokens,
            )),
    {
        needs_compact(self.last_total_tokens, config.context_window, config.max_output_tokens)
    }

    /// Makes the conversation shorter, with the model's summary where there is
    /// one. `changed` are the files that the session has changed.
    pub fn compact(&mut self, summary: Option<&str>, automatic: bool, changed: &[String]) -> (r: Vec<
        Effect,
    >)
        ensures
            final(self)@ == compact_session(
                old(self)@,
                opt_str(summary),
                automatic,
                texts(changed@),
            ),
            effects_say(r@) == compact_effects(
                old(self)@.history,
                opt_str(summary),
                automatic,
                texts(changed@),
            ),
    {
        let mut out = no_effects();
        let ghost h = msgs_say(self.history@);
        let n: usize = self.history.len();
        proof {
            assert(h.len() == n);
        }
        if n <= KEEP + 1 {
            show(
                &mut out,
                Event::ContextCompacted {
                    omitted: 0,
                    note: text_from("历史很短，无需压缩"),
                    automatic,
                },
            );
            return out;
        }
        let omitted: usize = n - 1 - KEEP;
        let text = write_compact_note(summary, omitted, automatic, changed);
        self.history = compact_history(self.history.as_slice(), text.as_str());
        note(&mut out, RolloutRecord::Compact { note: text.clone(), omitted });
        show(&mut out, Event::ContextCompacted { omitted, note: text, automatic });
        add_effect(&mut out, Effect::Touch);
        out
    }
}

/// What undoing the changes of a file does. `full` is the path in full.
pub open spec fn revert_effects_of(
    path: Seq<char>,
    full: Result<Seq<char>, Seq<char>>,
) -> Seq<EffectV> {
    match full {
        Ok(f) => Seq::<EffectV>::empty().push(EffectV::ForgetChange { path }).push(
            EffectV::ForgetOriginal { path: f },
        ).push(shown(EventV::FileReverted { path })),
        Err(e) => Seq::<EffectV>::empty().push(shown(EventV::Error { message: e })),
    }
}

/// Says what undoing the changes of a file does: neither the change nor what
/// the file was is kept any longer.
pub fn revert_file(path: &str, full: &Result<String, String>) -> (r: Vec<Effect>)
    ensures
        effects_say(r@) == revert_effects_of(path@, read_say(*full)),
{
    let mut out = no_effects();
    match full {
        Ok(f) => {
            add_effect(&mut out, Effect::ForgetChange { path: text_from(path) });
            add_effect(&mut out, Effect::ForgetOriginal { path: f.clone() });
            show(&mut out, Event::FileReverted { path: text_from(path) });
        },
        Err(e) => {
            show(&mut out, Event::Error { message: e.clone() });
        },
    }
    out
}

// ---------------------------------------------------------------------------
// Laws
// ---------------------------------------------------------------------------

/// When every call of a step is over, the conversation holds exactly one result
/// for each of them, in their order, behind the message that made the calls.
pub proof fn law_every_call_is_answered(h: Seq<MsgV>, run: RunV, i: int)
    requires
        answers(h, run),
        run.next == run.calls.len(),
        0 <= i < run.calls.len(),
    ensures
        h.len() == run.base + run.calls.len(),
        h[run.base + i].role == "tool"@,
        h[run.base + i].tool_call_id == Some(run.calls[i].id),
{
}

/// Entering plan mode and leaving it with the user's consent leads back to the
/// mode from before.
pub proof fn law_plan_mode_restores(
    s: SessionV,
    turn: Seq<char>,
    enter: CallV,
    exit: CallV,
    decision: ApprovalDecision,
    input_image: bool,
)
    requires
        enter.name == "EnterPlanMode"@,
        s.mode != ExecMode::Plan,
        decision != ApprovalDecision::Reject,
    ensures
        ({
            let planning = route_session(s, enter, route_of(s, turn, enter, input_image));
            &&& planning.mode == ExecMode::Plan
            &&& exit_session(planning, exit, decision).mode == s.mode
            &&& exit_session(planning, exit, decision).pre_plan_mode is None
        }),
{
    lemma_plan_names();
}

proof fn lemma_plan_names()
    ensures
        "EnterPlanMode"@ != "ExitPlanMode"@,
{
    reveal_strlit("EnterPlanMode");
    reveal_strlit("ExitPlanMode");
    assert("EnterPlanMode"@.len() == 13);
    assert("ExitPlanMode"@.len() == 12);
}

/// In plan mode a call never reaches the guard unless its tool only reads.
pub proof fn law_plan_mode_reads_only(
    s: SessionV,
    turn: Seq<char>,
    call: CallV,
    input_image: bool,
)
    requires
        s.mode == ExecMode::Plan,
        route_of(s, turn, call, input_image) == RouteV::Gate,
    ensures
        tool_named(all_built_in(), call.name, 0) is Some,
        tool_named(all_built_in(), call.name, 0)->0.only_reads(),
{
}

/// A reply after a list of events of the provider.
pub open spec fn heard_all(events: Seq<ReplyV>) -> SampleV
    decreases events.len(),
{
    if events.len() == 0 {
        no_sample()
    } else {
        heard(heard_all(events.drop_last()), events.last()).0
    }
}

/// The piece of text that an event brings.
pub open spec fn text_piece(e: ReplyV) -> Seq<char> {
    match e {
        ReplyV::Text(t) => t,
        _ => Seq::empty(),
    }
}

/// The piece of reasoning that an event brings.
pub open spec fn reasoning_piece(e: ReplyV) -> Seq<char> {
    match e {
        ReplyV::Reasoning(t) => t,
        _ => Seq::empty(),
    }
}

/// After any list of events the text of a reply is all the pieces of text among
/// them, put together in their order, and the reasoning likewise. Its calls are
/// those of the last event that brought calls, and something was said exactly
/// where a piece of either kind came.
pub proof fn law_reply_is_all_its_pieces(events: Seq<ReplyV>)
    ensures
        heard_all(events).text == events.map_values(|e: ReplyV| text_piece(e)).flatten(),
        heard_all(events).reasoning == events.map_values(
            |e: ReplyV| reasoning_piece(e),
        ).flatten(),
        heard_all(events).spoke <==> exists|i: int|
            0 <= i < events.len() && ((#[trigger] events[i]) is Text || events[i] is Reasoning),
        (forall|i: int| 0 <= i < events.len() ==> !((#[trigger] events[i]) is ToolCalls))
            ==> heard_all(events).calls.len() == 0,
        forall|i: int|
            0 <= i < events.len() && (#[trigger] events[i]) is ToolCalls && (forall|j: int|
                i < j < events.len() ==> !((#[trigger] events[j]) is ToolCalls))
                ==> heard_all(events).calls == events[i]->ToolCalls_0,
    decreases events.len(),
{
    let texts_of = |e: ReplyV| text_piece(e);
    let thoughts_of = |e: ReplyV| reasoning_piece(e);
    if events.len() == 0 {
        assert(events.map_values(texts_of) =~= Seq::<Seq<char>>::empty());
        assert(events.map_values(thoughts_of) =~= Seq::<Seq<char>>::empty());
    } else {
        let front = events.drop_last();
        let e = events.last();
        law_reply_is_all_its_pieces(front);
        assert(events.map_values(texts_of) =~= front.map_values(texts_of).push(text_piece(e)));
        assert(events.map_values(thoughts_of) =~= front.map_values(thoughts_of).push(
            reasoning_piece(e),
        ));
        crate::chars::lemma_flatten_push(front.map_values(texts_of), text_piece(e));
        crate::chars::lemma_flatten_push(front.map_values(thoughts_of), reasoning_piece(e));
        assert forall|i: int| 0 <= i < front.len() implies front[i] == events[i] by {}
        assert(e == events[events.len() - 1]);
        if heard_all(front).spoke {
            let i = choose|i: int|
                0 <= i < front.len() && ((#[trigger] front[i]) is Text || front[i] is Reasoning);
            assert(events[i] is Text || events[i] is Reasoning);
        }
        assert forall|i: int|
            0 <= i < events.len() && (#[trigger] events[i]) is ToolCalls && (forall|j: int|
                i < j < events.len() ==> !((#[trigger] events[j]) is ToolCalls)) implies heard_all(
            events,
        ).calls == events[i]->ToolCalls_0 by {
            if i < front.len() {
                assert(front[i] is ToolCalls);
                assert forall|j: int| i < j < front.len() implies !((#[trigger] front[j]) is ToolCalls) by {
                    assert(!(events[j] is ToolCalls));
                }
                assert(!(e is ToolCalls));
            }
        }
        if forall|i: int| 0 <= i < events.len() ==> !((#[trigger] events[i]) is ToolCalls) {
            assert forall|i: int| 0 <= i < front.len() implies !((#[trigger] front[i]) is ToolCalls) by {
                assert(!(events[i] is ToolCalls));
            }
            assert(!(e is ToolCalls));
        }
    }
}

/// The message that a reply adds to the conversation, the event that shows the
/// whole text and the records of the reply hold all the pieces of text and of
/// reasoning that came, and the calls that came last, none left out.
pub proof fn law_whole_reply_is_kept(events: Seq<ReplyV>, turn: Seq<char>, step: u64)
    ensures
        ({
            let text = events.map_values(|e: ReplyV| text_piece(e)).flatten();
            let thought = events.map_values(|e: ReplyV| reasoning_piece(e)).flatten();
            let r = heard_all(events);
            let m = reply_message(r);
            let done = reply_effects(r, turn, step);
            &&& m.role == "assistant"@
            &&& m.tool_call_id is None
            &&& m.images.len() == 0
            &&& m.content == (if text.len() > 0 {
                Some(text)
            } else {
                None
            })
            &&& m.reasoning == (if thought.len() > 0 {
                Some(thought)
            } else {
                None
            })
            &&& r.calls.len() == 0 <==> m.tool_calls is None
            &&& m.tool_calls matches Some(l) ==> l.len() == r.calls.len() && forall|i: int|
                0 <= i < l.len() ==> (#[trigger] l[i]).id == r.calls[i].id && l[i].name
                    == r.calls[i].name && l[i].arguments == r.calls[i].arguments && l[i].kind
                    == "function"@
            &&& done.len() == (if thought.len() > 0 {
                1int
            } else {
                0
            }) + (if text.len() > 0 {
                2int
            } else {
                0
            })
            &&& thought.len() > 0 ==> done[0] == (EffectV::Record {
                record: RolloutRecordV::Reasoning { text: thought },
            })
            &&& text.len() > 0 ==> done[done.len() - 2] == (EffectV::Emit {
                event: EventV::TextDone {
                    item_id: turn + "-text-"@ + decimal(step as nat),
                    full_text: text,
                },
            })
            &&& text.len() > 0 ==> done.last() == (EffectV::Record {
                record: RolloutRecordV::Text { text },
            })
        }),
{
    law_reply_is_all_its_pieces(events);
}

/// Each piece that the provider sends is shown as it came, and the tokens of a
/// request are added to those of the turn and of the session.
pub proof fn law_pieces_are_shown(s: SessionV, turn: Seq<char>, step: u64, e: ReplyV)
    ensures
        ({
            let (now, out) = after_event(s, turn, step, e);
            &&& now.history == s.history
            &&& now.mode == s.mode
            &&& e matches ReplyV::Text(t) ==> now == s && out == seq![
                EffectV::Emit {
                    event: EventV::TextDelta {
                        item_id: turn + "-text-"@ + decimal(step as nat),
                        delta: t,
                    },
                },
            ]
            &&& e matches ReplyV::Reasoning(t) ==> now == s && out == seq![
                EffectV::Emit {
                    event: EventV::ReasoningDelta {
                        item_id: turn + "-reason-"@ + decimal(step as nat),
                        delta: t,
                    },
                },
            ]
            &&& e matches ReplyV::Failed(t) ==> now == s && out == seq![
                EffectV::Emit { event: EventV::Error { message: t } },
            ]
            &&& e matches ReplyV::Usage { input, cache_read, output, used, total } ==> {
                &&& now.last_total_tokens == Some(used)
                &&& s.turn.input + input <= u64::MAX ==> now.turn.input == s.turn.input + input
                &&& s.turn.cache_read + cache_read <= u64::MAX ==> now.turn.cache_read
                    == s.turn.cache_read + cache_read
                &&& s.turn.output + output <= u64::MAX ==> now.turn.output == s.turn.output
                    + output
                &&& s.input_total + input <= u64::MAX ==> now.input_total == s.input_total + input
                &&& s.cache_read_total + cache_read <= u64::MAX ==> now.cache_read_total
                    == s.cache_read_total + cache_read
                &&& out == seq![
                    EffectV::Record {
                        record: RolloutRecordV::StepUsage { input, cache_read, output, used },
                    },
                    EffectV::Emit {
                        event: EventV::ContextUsage {
                            used,
                            total,
                            cache_read_total: now.cache_read_total,
                            input_total: now.input_total,
                        },
                    },
                ]
            }
            &&& (e is ToolCalls || e is Finished) ==> now == s && out.len() == 0
        }),
{
}

/// The answer to a call is the next message of the conversation: a tool's
/// message with the call's own id, the output as it is, and the images. It is
/// recorded and shown with the same output, under the call's own name.
pub proof fn law_answer_belongs_to_its_call(s: SessionV, turn: Seq<char>, call: CallV, r: ResultV)
    ensures
        ({
            let now = answered(s, call, r);
            let out = call_ends(turn, call, r);
            &&& now.history.len() == s.history.len() + 1
            &&& now.history.drop_last() == s.history
            &&& now.history.last() == (MsgV {
                role: "tool"@,
                content: Some(r.output),
                tool_calls: None,
                tool_call_id: Some(call.id),
                images: r.images,
                reasoning: None,
            })
            &&& now == (SessionV { history: now.history, ..s })
            &&& out.len() == 2
            &&& out[0] matches EffectV::Record { record: RolloutRecordV::ToolCall {
                tool,
                summary: _,
                arguments,
                output,
                is_error,
                edit,
            } } && tool == call.name && arguments == call.arguments && output == r.output
                && is_error == r.is_error && edit == r.edit
            &&& out[1] == (EffectV::Emit {
                event: EventV::ToolCallEnd {
                    item_id: turn + "-tool-"@ + call.id,
                    output: r.output,
                    is_error: r.is_error,
                    edit: r.edit,
                },
            })
        }),
{
    assert(answered(s, call, r).history.drop_last() =~= s.history);
}

/// A turn begins with the conversation as it was, its system text renewed, and
/// one message of the user behind it, which begins with what the user wrote and
/// the files it refers to.
pub proof fn law_turn_begins_with_the_message(
    s: SessionV,
    system: Seq<char>,
    sent: SentV,
    input_image: bool,
)
    ensures
        ({
            let h = turn_begun(s, system, sent, input_image).history;
            let m = h.last();
            &&& m.role == "user"@
            &&& m.tool_calls is None && m.tool_call_id is None && m.reasoning is None
            &&& m.content matches Some(t) && t.len() >= sent.expanded.len() && t.take(
                sent.expanded.len() as int,
            ) == sent.expanded
            &&& sent.pictures.len() == 0 ==> m.content == Some(sent.expanded) && m.images.len()
                == 0
            &&& !input_image ==> m.images.len() == 0
            &&& s.history.len() == 0 ==> h.len() == 2 && h[0].role == "system"@ && h[0].content
                == Some(system)
            &&& s.history.len() > 0 ==> h.len() == s.history.len() + 1
            &&& s.history.len() > 0 && s.history[0].role == "system"@ ==> h[0].role == "system"@
                && h[0].content == Some(system)
            &&& s.history.len() > 0 && s.history[0].role != "system"@ ==> h[0] == s.history[0]
            &&& forall|i: int| 1 <= i < s.history.len() ==> (#[trigger] h[i]) == s.history[i]
        }),
{
    lemma_attached_text(sent.expanded, sent.pictures);
    let a = attached(sent.expanded, sent.pictures);
    let t = user_message(sent, input_image).content->0;
    assert(t.take(a.text.len() as int) =~= a.text);
    assert(t.take(sent.expanded.len() as int) =~= a.text.take(sent.expanded.len() as int));
}

proof fn lemma_attached_text(text: Seq<char>, v: Seq<PictureV>)
    ensures
        attached(text, v).text.len() >= text.len(),
        attached(text, v).text.take(text.len() as int) == text,
        attached(text, v).images.len() == attached(text, v).refs.len(),
        attached(text, v).images.len() <= v.len(),
    decreases v.len(),
{
    if v.len() == 0 {
        assert(text.take(text.len() as int) =~= text);
    } else {
        lemma_attached_text(text, v.drop_last());
        let before = attached(text, v.drop_last()).text;
        let now = attached(text, v).text;
        assert(now.take(before.len() as int) =~= before);
        assert(now.take(text.len() as int) =~= before.take(text.len() as int));
    }
}

/// Every image that was kept goes along with a message for a model that takes
/// images, with the data and the type that were read, in the order of the
/// attachments, and its file is recorded.
pub proof fn law_kept_images_go_along(sent: SentV)
    ensures
        ({
            let kept = sent.pictures.filter(|p: PictureV| p is Kept);
            let m = user_message(sent, true);
            let refs = attached(sent.expanded, sent.pictures).refs;
            &&& m.images.len() == kept.len()
            &&& refs.len() == kept.len()
            &&& forall|i: int|
                0 <= i < kept.len() ==> (#[trigger] m.images[i]).data_base64
                    == kept[i]->data_base64 && m.images[i].media_type == kept[i]->media_type
            &&& forall|i: int|
                0 <= i < kept.len() ==> (#[trigger] refs[i]).path == kept[i]->path
                    && refs[i].media_type == kept[i]->media_type && refs[i].width
                    == kept[i]->width && refs[i].height == kept[i]->height
        }),
{
    lemma_attached_images(sent.expanded, sent.pictures);
}

proof fn lemma_attached_images(text: Seq<char>, v: Seq<PictureV>)
    ensures
        ({
            let kept = v.filter(|p: PictureV| p is Kept);
            let a = attached(text, v);
            &&& a.images.len() == kept.len()
            &&& a.refs.len() == kept.len()
            &&& forall|i: int|
                0 <= i < kept.len() ==> (#[trigger] a.images[i]).data_base64
                    == kept[i]->data_base64 && a.images[i].media_type == kept[i]->media_type
            &&& forall|i: int|
                0 <= i < kept.len() ==> (#[trigger] a.refs[i]).path == kept[i]->path
                    && a.refs[i].media_type == kept[i]->media_type && a.refs[i].width
                    == kept[i]->width && a.refs[i].height == kept[i]->height
        }),
    decreases v.len(),
{
    reveal(Seq::filter);
    if v.len() > 0 {
        lemma_attached_images(text, v.drop_last());
    }
}

/// A reply without calls that was recorded is given back as the message that it
/// was: the records of its end, read behind those from before, rebuild the
/// message that it added to the conversation.
pub proof fn law_recorded_reply_is_given_back(
    records: Seq<RolloutRecordV>,
    images: Seq<Seq<Option<ImageV>>>,
    system: Seq<char>,
    r: SampleV,
    turn: Seq<char>,
    step: u64,
)
    requires
        r.text.len() > 0,
        r.calls.len() == 0,
        rebuilt(records, images, system).waiting is None,
    ensures
        ({
            let out = reply_effects(r, turn, step);
            let more = out.filter(|e: EffectV| e is Record).map_values(
                |e: EffectV| e->Record_record,
            );
            let now = rebuilt(records + more, images, system);
            &&& now.history == rebuilt(records, images, system).history.push(reply_message(r))
            &&& now.waiting is None
        }),
{
    let out = reply_effects(r, turn, step);
    let kept = out.filter(|e: EffectV| e is Record);
    let more = kept.map_values(|e: EffectV| e->Record_record);
    let say = RolloutRecordV::Text { text: r.text };
    let think = RolloutRecordV::Reasoning { text: r.reasoning };
    reveal(Seq::filter);
    let a = out.drop_last();
    let b = a.drop_last();
    assert(a.filter(|e: EffectV| e is Record) == b.filter(|e: EffectV| e is Record));
    if r.reasoning.len() > 0 {
        assert(b.drop_last() =~= Seq::<EffectV>::empty());
        assert(b.filter(|e: EffectV| e is Record) =~= seq![noted(think)]);
        assert(kept =~= seq![noted(think), noted(say)]);
        assert(more =~= seq![think, say]);
        assert(records + more =~= records.push(think).push(say));
        assert(records.push(think).push(say).drop_last() =~= records.push(think));
        assert(records.push(think).drop_last() =~= records);
    } else {
        assert(b =~= Seq::<EffectV>::empty());
        assert(kept =~= seq![noted(say)]);
        assert(more =~= seq![say]);
        assert(records + more =~= records.push(say));
        assert(records.push(say).drop_last() =~= records);
    }
    assert(r.calls =~= Seq::<CallV>::empty());
    assert(Seq::<CallV>::empty().len() == 0);
    let st = rebuilt(records, images, system);
    if r.reasoning.len() > 0 {
        let mid = rebuilt(records.push(think), images, system);
        assert(records.push(think).last() == think);
        assert(mid.history == st.history && mid.waiting == Some(r.reasoning));
        let now = rebuilt(records.push(think).push(say), images, system);
        assert(records.push(think).push(say).last() == say);
        assert(now.history == mid.history.push(reply_message(r)));
    } else {
        let now = rebuilt(records.push(say), images, system);
        assert(records.push(say).last() == say);
        assert(now.history.last() == crate::provider::assistant_msg(
            r.text,
            Seq::empty(),
            None,
        ));
        assert(now.history.last() =~= reply_message(r));
        assert(now.history =~= st.history.push(reply_message(r)));
    }
}

/// A file that a message refers to stands in it word for word behind what came
/// before, in a part that names it, while it and all files together are not too
/// long; a file that cannot be read is named with the reason.
pub proof fn law_files_stand_in_the_message(
    content: Seq<char>,
    files: Seq<(Seq<char>, Result<Seq<char>, Seq<char>>)>,
    name: Seq<char>,
    t: Seq<char>,
)
    ensures
        ({
            let (text, budget) = with_files(content, files);
            let (read, left) = with_files(content, files.push((name, Ok(t))));
            let (failed, _) = with_files(content, files.push((name, Err(t))));
            &&& byte_len(t) <= 20480 && byte_len(t) <= budget ==> read == text
                + "\n\n<file path=\""@ + name + "\">\n"@ + t + "\n</file>"@ && left == budget
                - byte_len(t)
            &&& failed == text + "\n\n[无法读取引用文件 "@ + name + ": "@ + t + "]"@
            &&& budget <= 102400
            &&& text.len() >= content.len() && text.take(content.len() as int) == content
        }),
{
    lemma_with_files(content, files);
    let a = files.push((name, Ok::<Seq<char>, Seq<char>>(t)));
    let b = files.push((name, Err::<Seq<char>, Seq<char>>(t)));
    assert(a.drop_last() =~= files);
    assert(b.drop_last() =~= files);
}

proof fn lemma_with_files(
    content: Seq<char>,
    files: Seq<(Seq<char>, Result<Seq<char>, Seq<char>>)>,
)
    ensures
        with_files(content, files).0.len() >= content.len(),
        with_files(content, files).0.take(content.len() as int) == content,
        with_files(content, files).1 <= 102400,
    decreases files.len(),
{
    if files.len() == 0 {
        assert(content.take(content.len() as int) =~= content);
    } else {
        lemma_with_files(content, files.drop_last());
        let before = with_files(content, files.drop_last()).0;
        let now = with_files(content, files).0;
        assert(now.take(content.len() as int) =~= before.take(content.len() as int));
    }
}

/// At the end of a turn what it used is recorded in full and told with the end,
/// and every file that it changed is shown; a turn that used nothing records
/// nothing.
pub proof fn law_turn_end_tells_what_was_used(
    t: TurnTotals,
    duration_ms: u64,
    changes: Seq<EditDiffV>,
)
    ensures
        ({
            let out = turn_end_effects(t, duration_ms, changes);
            let used = t.input > 0 || t.cache_read > 0 || t.output > 0;
            &&& out.len() >= 2
            &&& out.last() == EffectV::Touch
            &&& changes.len() > 0 ==> out.len() >= 4 && out[out.len() - 4] == (EffectV::Record {
                record: RolloutRecordV::TurnChanges { files: changes },
            }) && out[out.len() - 3] == (EffectV::Emit {
                event: EventV::TurnFileChanges { files: changes },
            })
            &&& out[out.len() - 2] matches EffectV::Emit { event: EventV::TurnComplete {
                duration_ms: d,
                stats,
            } } && d == duration_ms && (used ==> (stats matches Some(s) && s.input == t.input
                && s.cache_read == t.cache_read && s.output == t.output && s.duration_ms
                == duration_ms && s.api_ms == t.api_ms && s.ttft_ms == t.ttft_ms && s.api_steps
                == t.api_steps)) && (!used ==> stats is None)
            &&& used ==> out[0] == (EffectV::RecordUsage {
                input: t.input,
                cache_read: t.cache_read,
                output: t.output,
            }) && out[1] == (EffectV::Record {
                record: RolloutRecordV::TurnStats {
                    input: t.input,
                    cache_read: t.cache_read,
                    output: t.output,
                    duration_ms,
                    api_ms: t.api_ms,
                    ttft_ms: t.ttft_ms,
                    api_steps: t.api_steps,
                },
            })
        }),
{
    let out = turn_end_effects(t, duration_ms, changes);
    if has_used(t) {
        let used = Seq::<EffectV>::empty().push(
            EffectV::RecordUsage { input: t.input, cache_read: t.cache_read, output: t.output },
        ).push(
            noted(
                RolloutRecordV::TurnStats {
                    input: t.input,
                    cache_read: t.cache_read,
                    output: t.output,
                    duration_ms,
                    api_ms: t.api_ms,
                    ttft_ms: t.ttft_ms,
                    api_steps: t.api_steps,
                },
            ),
        );
        assert(out[0] == used[0]);
        assert(out[1] == used[1]);
    }
}

/// The beginning of a turn records the user's message and shows it, with its
/// own files and the images that were kept.
pub proof fn law_turn_begin_records_the_message(s: SessionV, system: Seq<char>, sent: SentV)
    ensures
        ({
            let out = turn_begin_effects(s, system, sent);
            let n = out.len();
            let refs = attached(sent.expanded, sent.pictures).refs;
            &&& n >= 3
            &&& out[0] matches EffectV::Emit { event: EventV::TurnStarted { .. } }
            &&& out[n - 2] matches EffectV::Record { record: RolloutRecordV::User {
                text,
                files,
                images,
            } } && files == sent.files && images == refs && text == recorded_text(
                sent.content,
                sent.files,
            )
            &&& out[n - 1] matches EffectV::Emit { event: EventV::UserMessage {
                text: _,
                files: f,
                image_count,
            } } && f == sent.files && (refs.len() <= usize::MAX ==> image_count == refs.len())
        }),
{
}

/// A session that is made shorter keeps its first message and its last ones and
/// has one message of the system between them, which says how many were left
/// out; a short one stays as it is.
pub proof fn law_compaction_keeps_the_ends(
    s: SessionV,
    summary: Option<Seq<char>>,
    automatic: bool,
    changed: Seq<Seq<char>>,
)
    ensures
        ({
            let now = compact_session(s, summary, automatic, changed);
            &&& s.history.len() <= 5 ==> now == s
            &&& s.history.len() > 5 ==> {
                &&& 2 <= now.history.len() <= 6
                &&& now.history[0] == s.history[0]
                &&& now.history[1].role == "system"@
                &&& now.history[1].content == Some(
                    compact_note(summary, (s.history.len() - 5) as nat, automatic, changed),
                )
                &&& now.history.len() > 2 ==> now.history.last() == s.history.last()
                &&& now == (SessionV { history: now.history, ..s })
            }
        }),
{
    if s.history.len() > 5 {
        let note = compact_note(summary, (s.history.len() - 5) as nat, automatic, changed);
        crate::compact::law_end_is_kept(s.history, note);
        let c = crate::compact::compacted(s.history, note);
        if c.len() > 2 {
            let kept = c.len() - 2;
            assert(c[2 + (kept - 1)] == s.history[s.history.len() - kept + (kept - 1)]);
        }
    }
}

/// Where a call goes: an agent's call to an agent, the model's questions to the
/// user as they were asked, and every other call that is not about plan mode to
/// the guard, as long as the session does not plan and the model can take what
/// it asks for. In plan mode a tool that writes is answered with an error and
/// changes nothing.
pub proof fn law_calls_are_routed(s: SessionV, turn: Seq<char>, call: CallV, input_image: bool)
    requires
        call.name != "ExitPlanMode"@,
        call.name != "EnterPlanMode"@,
    ensures
        ({
            let r = route_of(s, turn, call, input_image);
            let blind = call.name == "ReadMediaFile"@ && !input_image;
            let tool = tool_named(all_built_in(), call.name, 0);
            &&& call.name == "Agent"@ ==> r == RouteV::Delegate
            &&& call.name != "Agent"@ && !blind && s.mode != ExecMode::Plan && call.name
                != "AskUserQuestion"@ ==> r == RouteV::Gate
            &&& call.name == "AskUserQuestion"@ && call.name != "Agent"@ && !blind && s.mode
                != ExecMode::Plan ==> match questions_of(args_say(call.arguments)) {
                Ok(q) => r matches RouteV::AskUser { request_id: _, questions } && questions == q,
                Err(_) => r matches RouteV::Answer { mode, pre_plan_mode: _, result } && mode
                    == s.mode && result.is_error,
            }
            &&& call.name != "Agent"@ && s.mode == ExecMode::Plan && (tool == Some(crate::tool::Tool::Write)
                || tool == Some(crate::tool::Tool::Edit) || tool == Some(crate::tool::Tool::Bash) || tool is None) ==> (r
                matches RouteV::Answer { mode, pre_plan_mode, result } && mode == ExecMode::Plan
                && pre_plan_mode == s.pre_plan_mode && result.is_error)
        }),
{
}

/// Every call is announced first, under the name that its end will have, with
/// the tool's own name; a call that asks the user is followed by the request.
pub proof fn law_call_is_announced(s: SessionV, turn: Seq<char>, call: CallV, route: RouteV)
    ensures
        ({
            let out = route_effects(s, turn, call, route);
            &&& out.len() > 0
            &&& out[0] matches EffectV::Emit { event: EventV::ToolCallBegin {
                item_id,
                tool,
                input_summary: _,
                detail: _,
            } } && item_id == turn + "-tool-"@ + call.id && tool == call.name
            &&& route is Delegate || route is Gate ==> out.len() == 1
            &&& route matches RouteV::AskExit { request_id, detail } ==> out.len() == 2 && out[1] == (
            EffectV::Emit {
                event: EventV::ApprovalRequested { request_id, tool: call.name, detail },
            })
            &&& route matches RouteV::AskUser { request_id, questions } ==> out.len() == 2 && out[1]
                == (EffectV::Emit { event: EventV::QuestionRequested { request_id, questions } })
            &&& route matches RouteV::Answer { mode, pre_plan_mode: _, result } ==> {
                &&& out.last() == (EffectV::Emit {
                    event: EventV::ToolCallEnd {
                        item_id: turn + "-tool-"@ + call.id,
                        output: result.output,
                        is_error: result.is_error,
                        edit: result.edit,
                    },
                })
                &&& mode != s.mode ==> out[1] == (EffectV::SaveMode { mode }) && out[2] == (
                EffectV::Emit { event: EventV::ExecModeChanged { mode } })
            }
        }),
{
    match route {
        RouteV::Answer { mode, pre_plan_mode: _, result } => {
            let out = route_effects(s, turn, call, route);
            let ends = call_ends(turn, call, result);
            assert(out.last() == ends[1]);
            if mode != s.mode {
                let moved = mode_effects(s.mode, mode);
                assert(out[1] == moved[0]);
                assert(out[2] == moved[1]);
            }
        },
        _ => {},
    }
}

/// Where the user refuses to end plan mode, the session goes on planning and
/// the call is answered with an error; where the user agrees, it leads back to
/// the mode from before, or to the careful one, and the call is no error.
pub proof fn law_user_decides_on_plan_mode(s: SessionV, call: CallV, decision: ApprovalDecision)
    ensures
        ({
            let now = exit_session(s, call, decision);
            &&& now.history.len() == s.history.len() + 1
            &&& now.history.last().tool_call_id == Some(call.id)
            &&& decision == ApprovalDecision::Reject ==> now.mode == s.mode && now.pre_plan_mode
                == s.pre_plan_mode && exit_result(s, decision).is_error
            &&& decision != ApprovalDecision::Reject ==> now.pre_plan_mode is None && !exit_result(
                s,
                decision,
            ).is_error && now.mode == (match s.pre_plan_mode {
                Some(m) => m,
                None => ExecMode::ConfirmBeforeEdit,
            })
        }),
{
}

/// For a model that takes no images a message loses its images but names the
/// file of each, behind its own text; for another it stays as it is.
pub proof fn law_images_are_left_out_by_name(
    text: Seq<char>,
    images: Seq<ImageV>,
    paths: Seq<Seq<char>>,
)
    ensures
        projected(text, images, paths, true) == (text, images),
        images.len() == 0 ==> projected(text, images, paths, false) == (text, images),
        images.len() > 0 ==> projected(text, images, paths, false) == (
            text + ("\n[图片 "@ + decimal(images.len())
                + " 张未随消息发送：当前模型不支持图片输入；文件在 "@ + join(paths, "、"@)
                + "，需要看哪张可用 ReadMediaFile 读取]"@),
            Seq::<ImageV>::empty(),
        ),
{
}

/// The times of a request are added to those of the turn, and the request is
/// counted; the time to the first word is never more than the whole.
pub proof fn law_times_are_added(s: SessionV, api_ms: u64, ttft_ms: Option<u64>)
    ensures
        ({
            let now = with_times(s, api_ms, ttft_ms);
            let first = match ttft_ms {
                Some(t) => if t <= api_ms {
                    t
                } else {
                    api_ms
                },
                None => 0,
            };
            &&& s.turn.api_ms + api_ms <= u64::MAX ==> now.turn.api_ms == s.turn.api_ms + api_ms
            &&& s.turn.api_steps < u64::MAX ==> now.turn.api_steps == s.turn.api_steps + 1
            &&& s.turn.ttft_ms + first <= u64::MAX ==> now.turn.ttft_ms == s.turn.ttft_ms + first
            &&& now.turn.input == s.turn.input && now.turn.output == s.turn.output
            &&& now.history == s.history
        }),
{
}

/// What is shown and recorded of a conversation that was made shorter is the
/// note that stands in it.
pub proof fn law_compaction_is_recorded(
    s: SessionV,
    summary: Option<Seq<char>>,
    automatic: bool,
    changed: Seq<Seq<char>>,
)
    requires
        5 < s.history.len() <= usize::MAX,
    ensures
        ({
            let out = compact_effects(s.history, summary, automatic, changed);
            let note = compact_session(s, summary, automatic, changed).history[1].content;
            &&& out.len() == 3
            &&& out[0] matches EffectV::Record { record: RolloutRecordV::Compact {
                note: n,
                omitted,
            } } && Some(n) == note && omitted == s.history.len() - 5
            &&& out[1] matches EffectV::Emit { event: EventV::ContextCompacted {
                omitted,
                note: n,
                automatic: a,
            } } && Some(n) == note && omitted == s.history.len() - 5 && a == automatic
        }),
{
    law_compaction_keeps_the_ends(s, summary, automatic, changed);
}

/// The user is asked about the call's own tool, with what the call would do.
pub proof fn law_user_is_asked_about_the_call(
    session: Seq<char>,
    turn: Seq<char>,
    item: Seq<char>,
    call: CallV,
    bytes: Option<Seq<u8>>,
    reason: Option<Seq<char>>,
)
    ensures
        approval_event(session, turn, item, call, bytes, reason) matches EventV::ApprovalRequested {
            request_id: _,
            tool,
            detail,
        } && tool == call.name && detail == detail_of(call, bytes, reason),
{
}

/// A new session knows its id and its workspace, goes on with the conversation
/// that it was given, allows nothing yet and asks before it changes something;
/// the head of its record names the same session and workspace.
pub proof fn law_new_session_is_careful(
    m: SessionMetaV,
    history: Seq<MsgV>,
    rules: RulesV,
    records: Seq<RolloutRecordV>,
)
    ensures
        ({
            let s = fresh_session(m.id, m.cwd, history, rules);
            &&& s.id == m.id && s.cwd == m.cwd && s.history == history && s.rules == rules
            &&& s.mode == ExecMode::ConfirmBeforeEdit
            &&& s.allowed == Set::<(Seq<char>, Seq<char>)>::empty()
            &&& s.input_total == 0 && s.cache_read_total == 0 && s.todos.len() == 0
            &&& !s.fs_read_outside && !s.fs_write_outside
        }),
        recorded_in(seq![record_head(m)] + records) == Some(m.cwd),
        record_head(m) matches RolloutRecordV::Meta { id, cwd, title, created_at } && id == m.id
            && cwd == m.cwd && title == m.title && created_at == m.created_at,
{
}

/// What the user answered is what the model is told: no answer is no error.
pub proof fn law_answers_reach_the_model(
    questions: Seq<QuestionItemV>,
    reply: Option<Seq<Seq<Seq<char>>>>,
)
    ensures
        !questions_result(questions, reply).is_error,
        reply matches Some(a) ==> questions_result(questions, reply).output == answer_lines(
            questions,
            a,
        ),
{
}

/// What follows a reply: where it came to its end, its calls where it made any,
/// and else the end of the step with a text; a reply that failed or was cut off
/// ends the turn and no call of it runs.
pub proof fn law_calls_follow_a_whole_reply(r: SampleV, end: ReplyEnd)
    ensures
        reply_outcome(r, end) == StepOutcome::Tools <==> end == ReplyEnd::Done && r.calls.len() > 0,
        reply_outcome(r, end) == StepOutcome::TextOnly <==> end == ReplyEnd::Done && r.calls.len()
            == 0,
        reply_outcome(r, end) == StepOutcome::Ended <==> end != ReplyEnd::Done,
{
}

/// The first message of a session names it, by its first thirty characters, and
/// no later message does.
pub proof fn law_first_message_names_the_session(s: SessionV, system: Seq<char>, sent: SentV)
    ensures
        ({
            let out = turn_begin_effects(s, system, sent);
            let seed = EffectV::SeedTitle {
                title: if sent.content.len() <= 30 {
                    sent.content
                } else {
                    sent.content.take(30)
                },
            };
            &&& s.history.len() == 0 ==> out.len() == 5 && out[1] == seed && out[2] == (
            EffectV::NameSession { input: sent.content })
            &&& s.history.len() > 1 ==> out.len() == 3 && forall|i: int|
                0 <= i < out.len() ==> !((#[trigger] out[i]) is SeedTitle)
        }),
{
}

} // verus!
