//! The data that the engine and its user interface share.

use crate::chars::{copied_opt, copied_strings, opt_text, texts};
use crate::json::Json;
use vstd::prelude::*;

verus! {

/// How freely tools may run.
#[derive(Clone, Copy, Debug, PartialEq, Eq, Structural)]
pub enum ExecMode {
    /// Every change is confirmed first.
    ConfirmBeforeEdit,
    /// Files are edited freely; commands are confirmed.
    AutoEdit,
    /// Read-only: the outcome is a plan.
    Plan,
    /// Everything runs; dangerous commands are confirmed.
    FullAccess,
    /// Everything runs.
    Yolo,
}

/// The wire format that a provider speaks.
#[derive(Clone, Copy, Debug, PartialEq, Eq, Structural)]
pub enum ApiFormat {
    OpenAiChat,
    AnthropicMessages,
}

/// A model of a provider.
#[derive(Debug)]
pub struct ModelConfig {
    pub id: String,
    pub context_window: u64,
    pub max_output_tokens: u64,
    /// Request parameters by reasoning level; no level occurs twice.
    pub reasoning_params: Vec<(String, Json)>,
    /// The reasoning levels that the user may choose from.
    pub reasoning_levels: Vec<String>,
    /// The level of a new session, if it is one of them.
    pub default_reasoning_level: Option<String>,
    pub cap_web_search: bool,
    pub web_search_tool: Option<Json>,
    pub input_image: bool,
}

impl ModelConfig {
    /// A model with no extra capability.
    pub fn new(id: &str, context_window: u64, max_output_tokens: u64) -> (r: Self)
        ensures
            r.id@ == id@,
            r.context_window == context_window,
            r.max_output_tokens == max_output_tokens,
            r.reasoning_params@.len() == 0,
            r.reasoning_levels@.len() == 0,
            r.default_reasoning_level is None,
            !r.cap_web_search,
            r.web_search_tool is None,
            !r.input_image,
    {
        ModelConfig {
            id: id.to_owned(),
            context_window,
            max_output_tokens,
            reasoning_params: Vec::new(),
            reasoning_levels: Vec::new(),
            default_reasoning_level: None,
            cap_web_search: false,
            web_search_tool: None,
            input_image: false,
        }
    }
}

/// A model provider.
#[derive(Debug)]
pub struct ProviderConfig {
    pub id: String,
    pub name: String,
    pub base_url: String,
    pub api_key: String,
    pub api_format: ApiFormat,
    pub enabled: bool,
    pub models: Vec<ModelConfig>,
}

/// The application's configuration.
#[derive(Debug)]
pub struct AppConfig {
    pub providers: Vec<ProviderConfig>,
    pub default_provider: String,
    pub default_model: String,
}

/// The state of an item of a to-do list.
#[derive(Clone, Copy, Debug, PartialEq, Eq, Structural)]
pub enum TodoStatus {
    Pending,
    InProgress,
    Done,
}

/// The state of a background task.
#[derive(Clone, Copy, Debug, PartialEq, Eq, Structural)]
pub enum TaskStatus {
    Running,
    Exited(i32),
    Killed,
}

/// The user's answer to a request for approval.
#[derive(Clone, Copy, Debug, PartialEq, Eq, Structural)]
pub enum ApprovalDecision {
    Allow,
    /// Allow this and the like for the rest of the session.
    AlwaysAllow,
    Reject,
}

/// The tokens and the times of a turn.
#[derive(Clone, Copy, Debug, PartialEq, Eq, Structural)]
pub struct TurnUsageStats {
    pub input: u64,
    pub cache_read: u64,
    pub output: u64,
    pub duration_ms: u64,
    pub api_ms: u64,
    pub ttft_ms: u64,
    pub api_steps: u64,
}

/// An image that the user attached to a message.
#[derive(Debug)]
pub struct PendingImage {
    pub bytes: Vec<u8>,
    pub mime: String,
}

/// What a `PendingImage` says.
#[verifier::ext_equal]
pub struct PendingImageV {
    pub bytes: Seq<u8>,
    pub mime: Seq<char>,
}

impl View for PendingImage {
    type V = PendingImageV;

    open spec fn view(&self) -> PendingImageV {
        PendingImageV { bytes: self.bytes@, mime: self.mime@ }
    }
}

/// What each of a list says.
pub open spec fn pending_images_say(v: Seq<PendingImage>) -> Seq<PendingImageV> {
    v.map_values(|x: PendingImage| x@)
}

/// What is kept of a session.
#[derive(Clone, Debug)]
pub struct SessionMeta {
    pub id: String,
    pub title: String,
    /// Whether the user named the session.
    pub title_custom: bool,
    pub cwd: String,
    pub created_at: u64,
    pub updated_at: u64,
    pub pinned: bool,
    pub archived: bool,
    pub provider_id: Option<String>,
    pub model_id: Option<String>,
    pub reasoning_level: Option<String>,
    pub exec_mode: ExecMode,
    pub fs_read_outside: bool,
    pub fs_write_outside: bool,
}

/// What a `SessionMeta` says.
#[verifier::ext_equal]
pub struct SessionMetaV {
    pub id: Seq<char>,
    pub title: Seq<char>,
    pub title_custom: bool,
    pub cwd: Seq<char>,
    pub created_at: u64,
    pub updated_at: u64,
    pub pinned: bool,
    pub archived: bool,
    pub provider_id: Option<Seq<char>>,
    pub model_id: Option<Seq<char>>,
    pub reasoning_level: Option<Seq<char>>,
    pub exec_mode: ExecMode,
    pub fs_read_outside: bool,
    pub fs_write_outside: bool,
}

impl View for SessionMeta {
    type V = SessionMetaV;

    open spec fn view(&self) -> SessionMetaV {
        SessionMetaV {
            id: self.id@,
            title: self.title@,
            title_custom: self.title_custom,
            cwd: self.cwd@,
            created_at: self.created_at,
            updated_at: self.updated_at,
            pinned: self.pinned,
            archived: self.archived,
            provider_id: opt_text(self.provider_id),
            model_id: opt_text(self.model_id),
            reasoning_level: opt_text(self.reasoning_level),
            exec_mode: self.exec_mode,
            fs_read_outside: self.fs_read_outside,
            fs_write_outside: self.fs_write_outside,
        }
    }
}

impl SessionMeta {
    /// A value that says the same.
    pub fn copy(&self) -> (r: SessionMeta)
        ensures
            r@ == self@,
    {
        SessionMeta {
            id: self.id.clone(),
            title: self.title.clone(),
            title_custom: self.title_custom,
            cwd: self.cwd.clone(),
            created_at: self.created_at,
            updated_at: self.updated_at,
            pinned: self.pinned,
            archived: self.archived,
            provider_id: copied_opt(&self.provider_id),
            model_id: copied_opt(&self.model_id),
            reasoning_level: copied_opt(&self.reasoning_level),
            exec_mode: self.exec_mode,
            fs_read_outside: self.fs_read_outside,
            fs_write_outside: self.fs_write_outside,
        }
    }
}

/// The change of one file.
#[derive(Clone, Debug)]
pub struct EditDiff {
    pub path: String,
    pub unified_diff: String,
    pub additions: u32,
    pub deletions: u32,
}

/// What a `EditDiff` says.
#[verifier::ext_equal]
pub struct EditDiffV {
    pub path: Seq<char>,
    pub unified_diff: Seq<char>,
    pub additions: u32,
    pub deletions: u32,
}

impl View for EditDiff {
    type V = EditDiffV;

    open spec fn view(&self) -> EditDiffV {
        EditDiffV {
            path: self.path@,
            unified_diff: self.unified_diff@,
            additions: self.additions,
            deletions: self.deletions,
        }
    }
}

impl EditDiff {
    /// A value that says the same.
    pub fn copy(&self) -> (r: EditDiff)
        ensures
            r@ == self@,
    {
        EditDiff {
            path: self.path.clone(),
            unified_diff: self.unified_diff.clone(),
            additions: self.additions,
            deletions: self.deletions,
        }
    }
}

/// An item of a to-do list.
#[derive(Clone, Debug)]
pub struct TodoItem {
    pub content: String,
    pub status: TodoStatus,
}

/// What a `TodoItem` says.
#[verifier::ext_equal]
pub struct TodoItemV {
    pub content: Seq<char>,
    pub status: TodoStatus,
}

impl View for TodoItem {
    type V = TodoItemV;

    open spec fn view(&self) -> TodoItemV {
        TodoItemV {
            content: self.content@,
            status: self.status,
        }
    }
}

impl TodoItem {
    /// A value that says the same.
    pub fn copy(&self) -> (r: TodoItem)
        ensures
            r@ == self@,
    {
        TodoItem {
            content: self.content.clone(),
            status: self.status,
        }
    }
}

/// A background task as it is shown.
#[derive(Clone, Debug)]
pub struct TaskSummary {
    pub id: String,
    pub command: String,
    pub status: TaskStatus,
    pub started_at: u64,
    pub ended_at: Option<u64>,
    pub output_tail: String,
}

/// What a `TaskSummary` says.
#[verifier::ext_equal]
pub struct TaskSummaryV {
    pub id: Seq<char>,
    pub command: Seq<char>,
    pub status: TaskStatus,
    pub started_at: u64,
    pub ended_at: Option<u64>,
    pub output_tail: Seq<char>,
}

impl View for TaskSummary {
    type V = TaskSummaryV;

    open spec fn view(&self) -> TaskSummaryV {
        TaskSummaryV {
            id: self.id@,
            command: self.command@,
            status: self.status,
            started_at: self.started_at,
            ended_at: self.ended_at,
            output_tail: self.output_tail@,
        }
    }
}

impl TaskSummary {
    /// A value that says the same.
    pub fn copy(&self) -> (r: TaskSummary)
        ensures
            r@ == self@,
    {
        TaskSummary {
            id: self.id.clone(),
            command: self.command.clone(),
            status: self.status,
            started_at: self.started_at,
            ended_at: self.ended_at,
            output_tail: self.output_tail.clone(),
        }
    }
}

/// An option of a question.
#[derive(Clone, Debug)]
pub struct QuestionOption {
    pub label: String,
    pub description: Option<String>,
}

/// What a `QuestionOption` says.
#[verifier::ext_equal]
pub struct QuestionOptionV {
    pub label: Seq<char>,
    pub description: Option<Seq<char>>,
}

impl View for QuestionOption {
    type V = QuestionOptionV;

    open spec fn view(&self) -> QuestionOptionV {
        QuestionOptionV {
            label: self.label@,
            description: opt_text(self.description),
        }
    }
}

impl QuestionOption {
    /// A value that says the same.
    pub fn copy(&self) -> (r: QuestionOption)
        ensures
            r@ == self@,
    {
        QuestionOption {
            label: self.label.clone(),
            description: copied_opt(&self.description),
        }
    }
}

/// A question to the user.
#[derive(Clone, Debug)]
pub struct QuestionItem {
    pub question: String,
    pub header: Option<String>,
    pub multi_select: bool,
    pub options: Vec<QuestionOption>,
}

/// What a `QuestionItem` says.
#[verifier::ext_equal]
pub struct QuestionItemV {
    pub question: Seq<char>,
    pub header: Option<Seq<char>>,
    pub multi_select: bool,
    pub options: Seq<QuestionOptionV>,
}

impl View for QuestionItem {
    type V = QuestionItemV;

    open spec fn view(&self) -> QuestionItemV {
        QuestionItemV {
            question: self.question@,
            header: opt_text(self.header),
            multi_select: self.multi_select,
            options: question_options_say(self.options@),
        }
    }
}

impl QuestionItem {
    /// A value that says the same.
    pub fn copy(&self) -> (r: QuestionItem)
        ensures
            r@ == self@,
    {
        QuestionItem {
            question: self.question.clone(),
            header: copied_opt(&self.header),
            multi_select: self.multi_select,
            options: copied_question_options(self.options.as_slice()),
        }
    }
}

/// What a session reports to its user interface.
#[derive(Clone, Debug)]
pub enum Event {
    TurnStarted { turn_id: String },
    UserMessage { text: String, files: Vec<String>, image_count: usize },
    ReasoningDelta { item_id: String, delta: String },
    TextDelta { item_id: String, delta: String },
    TextDone { item_id: String, full_text: String },
    ToolCallBegin { item_id: String, tool: String, input_summary: String, detail: String },
    ToolCallEnd { item_id: String, output: String, is_error: bool, edit: Option<EditDiff> },
    ApprovalRequested { request_id: String, tool: String, detail: String },
    QuestionRequested { request_id: String, questions: Vec<QuestionItem> },
    TodoListChanged { items: Vec<TodoItem> },
    TaskListChanged { tasks: Vec<TaskSummary> },
    FileChanged { path: String, unified_diff: String, additions: u32, deletions: u32 },
    FileReverted { path: String },
    TurnFileChanges { files: Vec<EditDiff> },
    TurnComplete { duration_ms: u64, stats: Option<TurnUsageStats> },
    TurnAborted,
    ContextUsage { used: u64, total: u64, cache_read_total: u64, input_total: u64 },
    ContextCompacted { omitted: usize, note: String, automatic: bool },
    ExecModeChanged { mode: ExecMode },
    SubagentProgress { item_id: String, note: String },
    MessageQueued { text: String },
    Error { message: String },
}

/// What a `Event` says.
#[verifier::ext_equal]
pub enum EventV {
    TurnStarted { turn_id: Seq<char> },
    UserMessage { text: Seq<char>, files: Seq<Seq<char>>, image_count: usize },
    ReasoningDelta { item_id: Seq<char>, delta: Seq<char> },
    TextDelta { item_id: Seq<char>, delta: Seq<char> },
    TextDone { item_id: Seq<char>, full_text: Seq<char> },
    ToolCallBegin { item_id: Seq<char>, tool: Seq<char>, input_summary: Seq<char>, detail: Seq<char> },
    ToolCallEnd { item_id: Seq<char>, output: Seq<char>, is_error: bool, edit: Option<EditDiffV> },
    ApprovalRequested { request_id: Seq<char>, tool: Seq<char>, detail: Seq<char> },
    QuestionRequested { request_id: Seq<char>, questions: Seq<QuestionItemV> },
    TodoListChanged { items: Seq<TodoItemV> },
    TaskListChanged { tasks: Seq<TaskSummaryV> },
    FileChanged { path: Seq<char>, unified_diff: Seq<char>, additions: u32, deletions: u32 },
    FileReverted { path: Seq<char> },
    TurnFileChanges { files: Seq<EditDiffV> },
    TurnComplete { duration_ms: u64, stats: Option<TurnUsageStats> },
    TurnAborted,
    ContextUsage { used: u64, total: u64, cache_read_total: u64, input_total: u64 },
    ContextCompacted { omitted: usize, note: Seq<char>, automatic: bool },
    ExecModeChanged { mode: ExecMode },
    SubagentProgress { item_id: Seq<char>, note: Seq<char> },
    MessageQueued { text: Seq<char> },
    Error { message: Seq<char> },
}

impl View for Event {
    type V = EventV;

    open spec fn view(&self) -> EventV {
        match self {
            Event::TurnStarted { turn_id } => EventV::TurnStarted {
                turn_id: turn_id@,
            },
            Event::UserMessage { text, files, image_count } => EventV::UserMessage {
                text: text@,
                files: texts(files@),
                image_count: *image_count,
            },
            Event::ReasoningDelta { item_id, delta } => EventV::ReasoningDelta {
                item_id: item_id@,
                delta: delta@,
            },
            Event::TextDelta { item_id, delta } => EventV::TextDelta {
                item_id: item_id@,
                delta: delta@,
            },
            Event::TextDone { item_id, full_text } => EventV::TextDone {
                item_id: item_id@,
                full_text: full_text@,
            },
            Event::ToolCallBegin { item_id, tool, input_summary, detail } => EventV::ToolCallBegin {
                item_id: item_id@,
                tool: tool@,
                input_summary: input_summary@,
                detail: detail@,
            },
            Event::ToolCallEnd { item_id, output, is_error, edit } => EventV::ToolCallEnd {
                item_id: item_id@,
                output: output@,
                is_error: *is_error,
                edit: opt_edit_diff(*edit),
            },
            Event::ApprovalRequested { request_id, tool, detail } => EventV::ApprovalRequested {
                request_id: request_id@,
                tool: tool@,
                detail: detail@,
            },
            Event::QuestionRequested { request_id, questions } => EventV::QuestionRequested {
                request_id: request_id@,
                questions: question_items_say(questions@),
            },
            Event::TodoListChanged { items } => EventV::TodoListChanged {
                items: todo_items_say(items@),
            },
            Event::TaskListChanged { tasks } => EventV::TaskListChanged {
                tasks: task_summarys_say(tasks@),
            },
            Event::FileChanged { path, unified_diff, additions, deletions } => EventV::FileChanged {
                path: path@,
                unified_diff: unified_diff@,
                additions: *additions,
                deletions: *deletions,
            },
            Event::FileReverted { path } => EventV::FileReverted {
                path: path@,
            },
            Event::TurnFileChanges { files } => EventV::TurnFileChanges {
                files: edit_diffs_say(files@),
            },
            Event::TurnComplete { duration_ms, stats } => EventV::TurnComplete {
                duration_ms: *duration_ms,
                stats: *stats,
            },
            Event::TurnAborted => EventV::TurnAborted,
            Event::ContextUsage { used, total, cache_read_total, input_total } => EventV::ContextUsage {
                used: *used,
                total: *total,
                cache_read_total: *cache_read_total,
                input_total: *input_total,
            },
            Event::ContextCompacted { omitted, note, automatic } => EventV::ContextCompacted {
                omitted: *omitted,
                note: note@,
                automatic: *automatic,
            },
            Event::ExecModeChanged { mode } => EventV::ExecModeChanged {
                mode: *mode,
            },
            Event::SubagentProgress { item_id, note } => EventV::SubagentProgress {
                item_id: item_id@,
                note: note@,
            },
            Event::MessageQueued { text } => EventV::MessageQueued {
                text: text@,
            },
            Event::Error { message } => EventV::Error {
                message: message@,
            },
        }
    }
}

impl Event {
    /// A value that says the same.
    pub fn copy(&self) -> (r: Event)
        ensures
            r@ == self@,
    {
        match self {
            Event::TurnStarted { turn_id } => Event::TurnStarted {
                turn_id: turn_id.clone(),
            },
            Event::UserMessage { text, files, image_count } => Event::UserMessage {
                text: text.clone(),
                files: copied_strings(files.as_slice()),
                image_count: *image_count,
            },
            Event::ReasoningDelta { item_id, delta } => Event::ReasoningDelta {
                item_id: item_id.clone(),
                delta: delta.clone(),
            },
            Event::TextDelta { item_id, delta } => Event::TextDelta {
                item_id: item_id.clone(),
                delta: delta.clone(),
            },
            Event::TextDone { item_id, full_text } => Event::TextDone {
                item_id: item_id.clone(),
                full_text: full_text.clone(),
            },
            Event::ToolCallBegin { item_id, tool, input_summary, detail } => Event::ToolCallBegin {
                item_id: item_id.clone(),
                tool: tool.clone(),
                input_summary: input_summary.clone(),
                detail: detail.clone(),
            },
            Event::ToolCallEnd { item_id, output, is_error, edit } => Event::ToolCallEnd {
                item_id: item_id.clone(),
                output: output.clone(),
                is_error: *is_error,
                edit: copied_opt_edit_diff(edit),
            },
            Event::ApprovalRequested { request_id, tool, detail } => Event::ApprovalRequested {
                request_id: request_id.clone(),
                tool: tool.clone(),
                detail: detail.clone(),
            },
            Event::QuestionRequested { request_id, questions } => Event::QuestionRequested {
                request_id: request_id.clone(),
                questions: copied_question_items(questions.as_slice()),
            },
            Event::TodoListChanged { items } => Event::TodoListChanged {
                items: copied_todo_items(items.as_slice()),
            },
            Event::TaskListChanged { tasks } => Event::TaskListChanged {
                tasks: copied_task_summarys(tasks.as_slice()),
            },
            Event::FileChanged { path, unified_diff, additions, deletions } => Event::FileChanged {
                path: path.clone(),
                unified_diff: unified_diff.clone(),
                additions: *additions,
                deletions: *deletions,
            },
            Event::FileReverted { path } => Event::FileReverted {
                path: path.clone(),
            },
            Event::TurnFileChanges { files } => Event::TurnFileChanges {
                files: copied_edit_diffs(files.as_slice()),
            },
            Event::TurnComplete { duration_ms, stats } => Event::TurnComplete {
                duration_ms: *duration_ms,
                stats: *stats,
            },
            Event::TurnAborted => Event::TurnAborted,
            Event::ContextUsage { used, total, cache_read_total, input_total } => Event::ContextUsage {
                used: *used,
                total: *total,
                cache_read_total: *cache_read_total,
                input_total: *input_total,
            },
            Event::ContextCompacted { omitted, note, automatic } => Event::ContextCompacted {
                omitted: *omitted,
                note: note.clone(),
                automatic: *automatic,
            },
            Event::ExecModeChanged { mode } => Event::ExecModeChanged {
                mode: *mode,
            },
            Event::SubagentProgress { item_id, note } => Event::SubagentProgress {
                item_id: item_id.clone(),
                note: note.clone(),
            },
            Event::MessageQueued { text } => Event::MessageQueued {
                text: text.clone(),
            },
            Event::Error { message } => Event::Error {
                message: message.clone(),
            },
        }
    }
}

/// What an optional `EditDiff` says.
pub open spec fn opt_edit_diff(v: Option<EditDiff>) -> Option<EditDiffV> {
    match v {
        Some(x) => Some(x@),
        None => None,
    }
}

/// An optional value that says the same.
pub fn copied_opt_edit_diff(v: &Option<EditDiff>) -> (r: Option<EditDiff>)
    ensures
        opt_edit_diff(r) == opt_edit_diff(*v),
{
    match v {
        Some(x) => Some(x.copy()),
        None => None,
    }
}

/// What each of a list says.
pub open spec fn edit_diffs_say(v: Seq<EditDiff>) -> Seq<EditDiffV> {
    v.map_values(|x: EditDiff| x@)
}

/// A list that says the same.
pub fn copied_edit_diffs(v: &[EditDiff]) -> (r: Vec<EditDiff>)
    ensures
        edit_diffs_say(r@) == edit_diffs_say(v@),
{
    let mut out: Vec<EditDiff> = Vec::new();
    for i in 0..v.len()
        invariant
            out.len() == i,
            forall|k: int| 0 <= k < i ==> (#[trigger] out@[k])@ == v@[k]@,
    {
        out.push(v[i].copy());
    }
    proof {
        assert(edit_diffs_say(out@) =~= edit_diffs_say(v@));
    }
    out
}

/// What each of a list says.
pub open spec fn question_items_say(v: Seq<QuestionItem>) -> Seq<QuestionItemV> {
    v.map_values(|x: QuestionItem| x@)
}

/// A list that says the same.
pub fn copied_question_items(v: &[QuestionItem]) -> (r: Vec<QuestionItem>)
    ensures
        question_items_say(r@) == question_items_say(v@),
{
    let mut out: Vec<QuestionItem> = Vec::new();
    for i in 0..v.len()
        invariant
            out.len() == i,
            forall|k: int| 0 <= k < i ==> (#[trigger] out@[k])@ == v@[k]@,
    {
        out.push(v[i].copy());
    }
    proof {
        assert(question_items_say(out@) =~= question_items_say(v@));
    }
    out
}

/// What each of a list says.
pub open spec fn question_options_say(v: Seq<QuestionOption>) -> Seq<QuestionOptionV> {
    v.map_values(|x: QuestionOption| x@)
}

/// A list that says the same.
pub fn copied_question_options(v: &[QuestionOption]) -> (r: Vec<QuestionOption>)
    ensures
        question_options_say(r@) == question_options_say(v@),
{
    let mut out: Vec<QuestionOption> = Vec::new();
    for i in 0..v.len()
        invariant
            out.len() == i,
            forall|k: int| 0 <= k < i ==> (#[trigger] out@[k])@ == v@[k]@,
    {
        out.push(v[i].copy());
    }
    proof {
        assert(question_options_say(out@) =~= question_options_say(v@));
    }
    out
}

/// What each of a list says.
pub open spec fn task_summarys_say(v: Seq<TaskSummary>) -> Seq<TaskSummaryV> {
    v.map_values(|x: TaskSummary| x@)
}

/// A list that says the same.
pub fn copied_task_summarys(v: &[TaskSummary]) -> (r: Vec<TaskSummary>)
    ensures
        task_summarys_say(r@) == task_summarys_say(v@),
{
    let mut out: Vec<TaskSummary> = Vec::new();
    for i in 0..v.len()
        invariant
            out.len() == i,
            forall|k: int| 0 <= k < i ==> (#[trigger] out@[k])@ == v@[k]@,
    {
        out.push(v[i].copy());
    }
    proof {
        assert(task_summarys_say(out@) =~= task_summarys_say(v@));
    }
    out
}

/// What each of a list says.
pub open spec fn todo_items_say(v: Seq<TodoItem>) -> Seq<TodoItemV> {
    v.map_values(|x: TodoItem| x@)
}

/// A list that says the same.
pub fn copied_todo_items(v: &[TodoItem]) -> (r: Vec<TodoItem>)
    ensures
        todo_items_say(r@) == todo_items_say(v@),
{
    let mut out: Vec<TodoItem> = Vec::new();
    for i in 0..v.len()
        invariant
            out.len() == i,
            forall|k: int| 0 <= k < i ==> (#[trigger] out@[k])@ == v@[k]@,
    {
        out.push(v[i].copy());
    }
    proof {
        assert(todo_items_say(out@) =~= todo_items_say(v@));
    }
    out
}

} // verus!
