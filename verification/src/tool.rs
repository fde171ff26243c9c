//! The tools that the model can call: what they are, how a call of one is
//! shown, and which calls the user has to approve.

use crate::chars::{
    chars_of, decimal, decimal_of, join, joined, push_all, push_text, rows, str_eq, string_of,
    texts, trim, trimmed, words, words_of,
};
use crate::json::{
    args_say, compact, compact_text, flag_at, items_at, parse_args, said, says_all, str_in, text_at,
    Json, JsonV,
};
use crate::protocol::{
    question_items_say, question_options_say, ExecMode, QuestionItem, QuestionItemV,
    QuestionOption, QuestionOptionV, TaskStatus, TodoItem, TodoItemV, TodoStatus,
};
use crate::provider::{or_empty, CallV, ToolCall};
use vstd::prelude::*;

pub use crate::command::{is_dangerous_command, is_readonly_command};
pub use crate::diff::fallback_edit_diff;
pub use crate::edit::{compute_edit, EditMatchError, EditOutcome};
pub use crate::fetch::{check_fetch_url, extract_text, is_private_host, is_private_ip};
pub use crate::files::{is_sensitive_file, resolve_checked, resolve_with_access, FsAccess};
pub use crate::media::{
    base64_encode, compress_image_for_model, encode_image_for_model, image_dimensions, sniff_image,
    CompressedImage, ToolImage,
};
pub use crate::protocol::EditDiff as FileChange;
pub use crate::schemas::{schemas, schemas_of, schemas_root};
pub use crate::search::search_files;
pub use crate::state::ToolEffect;
pub use crate::tracker::{snapshot_from_store, snapshot_to_store, ChangeTracker};

verus! {

// ---------------------------------------------------------------------------
// The tools
// ---------------------------------------------------------------------------

/// A built-in tool.
#[derive(Clone, Copy, Debug, PartialEq, Eq, Structural)]
pub enum Tool {
    Read,
    Write,
    Edit,
    Glob,
    Grep,
    Bash,
    TodoList,
    FetchUrl,
    TaskList,
    TaskOutput,
    TaskStop,
    AskUserQuestion,
    ExitPlanMode,
    EnterPlanMode,
    ReadMediaFile,
}

impl Tool {
    /// The name that calls use.
    pub open spec fn name_text(self) -> Seq<char> {
        match self {
            Tool::Read => "Read"@,
            Tool::Write => "Write"@,
            Tool::Edit => "Edit"@,
            Tool::Glob => "Glob"@,
            Tool::Grep => "Grep"@,
            Tool::Bash => "Bash"@,
            Tool::TodoList => "TodoList"@,
            Tool::FetchUrl => "FetchURL"@,
            Tool::TaskList => "TaskList"@,
            Tool::TaskOutput => "TaskOutput"@,
            Tool::TaskStop => "TaskStop"@,
            Tool::AskUserQuestion => "AskUserQuestion"@,
            Tool::ExitPlanMode => "ExitPlanMode"@,
            Tool::EnterPlanMode => "EnterPlanMode"@,
            Tool::ReadMediaFile => "ReadMediaFile"@,
        }
    }

    /// The name that calls use.
    pub fn name(self) -> (r: &'static str)
        ensures
            r@ == self.name_text(),
    {
        match self {
            Tool::Read => "Read",
            Tool::Write => "Write",
            Tool::Edit => "Edit",
            Tool::Glob => "Glob",
            Tool::Grep => "Grep",
            Tool::Bash => "Bash",
            Tool::TodoList => "TodoList",
            Tool::FetchUrl => "FetchURL",
            Tool::TaskList => "TaskList",
            Tool::TaskOutput => "TaskOutput",
            Tool::TaskStop => "TaskStop",
            Tool::AskUserQuestion => "AskUserQuestion",
            Tool::ExitPlanMode => "ExitPlanMode",
            Tool::EnterPlanMode => "EnterPlanMode",
            Tool::ReadMediaFile => "ReadMediaFile",
        }
    }

    /// Whether the tool changes nothing outside the session: all but writing,
    /// editing and the shell.
    pub open spec fn only_reads(self) -> bool {
        self != Tool::Write && self != Tool::Edit && self != Tool::Bash
    }

    /// Whether the tool changes nothing outside the session.
    pub fn read_only(self) -> (r: bool)
        ensures
            r == self.only_reads(),
    {
        match self {
            Tool::Write | Tool::Edit | Tool::Bash => false,
            _ => true,
        }
    }

    /// Whether the tool runs commands.
    pub fn is_shell(self) -> (r: bool)
        ensures
            r == (self == Tool::Bash),
    {
        match self {
            Tool::Bash => true,
            _ => false,
        }
    }
}

/// All built-in tools, in the order in which the model sees them.
pub open spec fn all_built_in() -> Seq<Tool> {
    Seq::<Tool>::empty().push(Tool::Read).push(Tool::Write).push(Tool::Edit).push(Tool::Glob).push(
        Tool::Grep,
    ).push(Tool::Bash).push(Tool::TodoList).push(Tool::FetchUrl).push(Tool::TaskList).push(
        Tool::TaskOutput,
    ).push(Tool::TaskStop).push(Tool::AskUserQuestion).push(Tool::ExitPlanMode).push(
        Tool::EnterPlanMode,
    ).push(Tool::ReadMediaFile)
}

/// All built-in tools, in the order in which the model sees them.
pub fn all() -> (r: Vec<Tool>)
    ensures
        r@ == all_built_in(),
{
    let mut v: Vec<Tool> = Vec::new();
    v.push(Tool::Read);
    v.push(Tool::Write);
    v.push(Tool::Edit);
    v.push(Tool::Glob);
    v.push(Tool::Grep);
    v.push(Tool::Bash);
    v.push(Tool::TodoList);
    v.push(Tool::FetchUrl);
    v.push(Tool::TaskList);
    v.push(Tool::TaskOutput);
    v.push(Tool::TaskStop);
    v.push(Tool::AskUserQuestion);
    v.push(Tool::ExitPlanMode);
    v.push(Tool::EnterPlanMode);
    v.push(Tool::ReadMediaFile);
    v
}

/// The first tool of `v` at or after `i` with the name `name`.
pub open spec fn tool_named(v: Seq<Tool>, name: Seq<char>, i: int) -> Option<Tool>
    decreases v.len() - i,
{
    if i < 0 || i >= v.len() {
        None
    } else if v[i].name_text() == name {
        Some(v[i])
    } else {
        tool_named(v, name, i + 1)
    }
}

/// Finds a tool by its name.
pub fn find_tool(v: &[Tool], name: &str) -> (r: Option<Tool>)
    ensures
        r == tool_named(v@, name@, 0),
{
    for i in 0..v.len()
        invariant
            tool_named(v@, name@, 0) == tool_named(v@, name@, i as int),
    {
        if str_eq(v[i].name(), name) {
            return Some(v[i]);
        }
    }
    None
}

// ---------------------------------------------------------------------------
// Approval
// ---------------------------------------------------------------------------

/// Whether a mode asks the user before the tool runs. Plan mode refuses the
/// tools that it does not allow before it comes to this.
pub open spec fn asks_first(tool: Tool, mode: ExecMode) -> bool {
    match mode {
        ExecMode::FullAccess | ExecMode::Yolo | ExecMode::Plan => false,
        ExecMode::ConfirmBeforeEdit => !tool.only_reads(),
        ExecMode::AutoEdit => tool == Tool::Bash,
    }
}

/// Whether a mode asks the user before the tool runs.
pub fn requires_approval(tool: Tool, mode: ExecMode) -> (r: bool)
    ensures
        r == asks_first(tool, mode),
{
    match mode {
        ExecMode::FullAccess | ExecMode::Yolo | ExecMode::Plan => false,
        ExecMode::ConfirmBeforeEdit => !tool.read_only(),
        ExecMode::AutoEdit => tool.is_shell(),
    }
}

/// What an approval for the rest of the session covers: the first word of a
/// command, the path of a file, or the tool as such.
pub open spec fn subject_of(call: CallV) -> Seq<char> {
    let args = args_say(call.arguments);
    if call.name == "Bash"@ {
        match text_at(args, "command"@) {
            Some(c) => if words(c).len() > 0 {
                words(c)[0]
            } else {
                Seq::empty()
            },
            None => Seq::empty(),
        }
    } else if call.name == "Write"@ || call.name == "Edit"@ {
        or_empty(text_at(args, "path"@))
    } else {
        Seq::empty()
    }
}

/// What an approval for the rest of the session covers.
pub fn approval_subject(call: &ToolCall) -> (r: String)
    ensures
        r@ == subject_of(call@),
{
    let args = parse_args(call.arguments.as_str());
    if str_eq(call.name.as_str(), "Bash") {
        match args.str_at("command") {
            Some(c) => {
                let v = chars_of(c.as_str());
                let w = words_of(v.as_slice());
                proof {
                    assert(rows(w@).len() == w@.len());
                }
                if w.len() > 0 {
                    proof {
                        assert(rows(w@)[0] == w@[0]@);
                    }
                    string_of(w[0].as_slice())
                } else {
                    String::new()
                }
            },
            None => String::new(),
        }
    } else if str_eq(call.name.as_str(), "Write") || str_eq(call.name.as_str(), "Edit") {
        match args.str_at("path") {
            Some(p) => p,
            None => String::new(),
        }
    } else {
        String::new()
    }
}

// ---------------------------------------------------------------------------
// How a call is shown
// ---------------------------------------------------------------------------

/// The text of a member, or a question mark.
pub open spec fn shown_text(args: JsonV, key: Seq<char>) -> Seq<char> {
    match text_at(args, key) {
        Some(t) => t,
        None => "?"@,
    }
}

/// The first item of the member `key`.
pub open spec fn first_item(args: JsonV, key: Seq<char>) -> JsonV {
    match items_at(args, key) {
        Some(a) => if a.len() > 0 {
            a[0]
        } else {
            JsonV::Null
        },
        None => JsonV::Null,
    }
}

/// The line that shows a call.
pub open spec fn summary_of(call: CallV) -> Seq<char> {
    let args = args_say(call.arguments);
    let n = call.name;
    if n == "Read"@ || n == "Write"@ || n == "Edit"@ || n == "ReadMediaFile"@ {
        shown_text(args, "path"@)
    } else if n == "Bash"@ {
        shown_text(args, "command"@)
    } else if n == "Glob"@ || n == "Grep"@ {
        shown_text(args, "pattern"@)
    } else if n == "TodoList"@ {
        match items_at(args, "todos"@) {
            Some(a) => "更新待办（"@ + decimal(a.len()) + " 项）"@,
            None => "查看待办"@,
        }
    } else if n == "FetchURL"@ {
        shown_text(args, "url"@)
    } else if n == "TaskList"@ {
        "列出后台任务"@
    } else if n == "TaskOutput"@ || n == "TaskStop"@ {
        shown_text(args, "task_id"@)
    } else if n == "AskUserQuestion"@ {
        shown_text(first_item(args, "questions"@), "question"@)
    } else if n == "ExitPlanMode"@ {
        "请求退出计划模式"@
    } else if n == "EnterPlanMode"@ {
        "请求进入计划模式"@
    } else {
        compact_text(call.arguments)
    }
}

fn show_text(args: Option<&Json>, key: &str) -> (r: String)
    ensures
        r@ == shown_text(said(args), key@),
{
    match str_in(args, key) {
        Some(t) => t,
        None => "?".to_owned(),
    }
}

/// The line that shows a call.
pub fn summarize(call: &ToolCall) -> (r: String)
    ensures
        r@ == summary_of(call@),
{
    let args = parse_args(call.arguments.as_str());
    let n = call.name.as_str();
    if str_eq(n, "Read") || str_eq(n, "Write") || str_eq(n, "Edit") || str_eq(n, "ReadMediaFile") {
        show_text(Some(&args), "path")
    } else if str_eq(n, "Bash") {
        show_text(Some(&args), "command")
    } else if str_eq(n, "Glob") || str_eq(n, "Grep") {
        show_text(Some(&args), "pattern")
    } else if str_eq(n, "TodoList") {
        match args.arr_at("todos") {
            Some(a) => {
                proof {
                    assert(says_all(a@).len() == a@.len());
                }
                let mut v = chars_of("更新待办（");
                let d = decimal_of(a.len() as u64);
                push_all(&mut v, d.as_slice());
                push_text(&mut v, " 项）");
                string_of(v.as_slice())
            },
            None => "查看待办".to_owned(),
        }
    } else if str_eq(n, "FetchURL") {
        show_text(Some(&args), "url")
    } else if str_eq(n, "TaskList") {
        "列出后台任务".to_owned()
    } else if str_eq(n, "TaskOutput") || str_eq(n, "TaskStop") {
        show_text(Some(&args), "task_id")
    } else if str_eq(n, "AskUserQuestion") {
        match args.arr_at("questions") {
            Some(a) => {
                proof {
                    assert(says_all(a@).len() == a@.len());
                }
                if a.len() > 0 {
                    proof {
                        assert(says_all(a@)[0] == a@[0].says());
                    }
                    show_text(Some(&a[0]), "question")
                } else {
                    show_text(None, "question")
                }
            },
            None => show_text(None, "question"),
        }
    } else if str_eq(n, "ExitPlanMode") {
        "请求退出计划模式".to_owned()
    } else if str_eq(n, "EnterPlanMode") {
        "请求进入计划模式".to_owned()
    } else {
        compact(call.arguments.as_str())
    }
}

// ---------------------------------------------------------------------------
// Questions to the user
// ---------------------------------------------------------------------------

/// `第 {n} 题` followed by `rest`.
pub open spec fn on_question(n: nat, rest: Seq<char>) -> Seq<char> {
    "第 "@ + decimal(n) + " 题"@ + rest
}

fn about_question(n: usize, rest: &[char]) -> (r: String)
    ensures
        r@ == on_question(n as nat, rest@),
{
    let mut v = chars_of("第 ");
    let d = decimal_of(n as u64);
    push_all(&mut v, d.as_slice());
    push_text(&mut v, " 题");
    push_all(&mut v, rest);
    string_of(v.as_slice())
}

/// The first options, as far as each has a label.
pub open spec fn read_options(v: Seq<JsonV>) -> Option<Seq<QuestionOptionV>>
    decreases v.len(),
{
    if v.len() == 0 {
        Some(Seq::empty())
    } else {
        let label = trim(or_empty(text_at(v.last(), "label"@)));
        match read_options(v.drop_last()) {
            Some(l) => if label.len() > 0 {
                Some(
                    l.push(
                        QuestionOptionV { label, description: text_at(v.last(), "description"@) },
                    ),
                )
            } else {
                None
            },
            None => None,
        }
    }
}

/// Question number `n`, or what is wrong with it.
pub open spec fn read_question(item: JsonV, n: nat) -> Result<QuestionItemV, Seq<char>> {
    let question = trim(or_empty(text_at(item, "question"@)));
    if question.len() == 0 {
        Err(on_question(n, " question 不能为空"@))
    } else {
        match items_at(item, "options"@) {
            None => Err(on_question(n, "缺少 options（数组）"@)),
            Some(options) => if options.len() < 2 || options.len() > 4 {
                Err(
                    on_question(
                        n,
                        " options 数量须在 2-4 之间（收到 "@ + decimal(options.len()) + "）"@,
                    ),
                )
            } else {
                match read_options(options) {
                    None => Err(on_question(n, "存在空 label 的选项"@)),
                    Some(l) => Ok(
                        QuestionItemV {
                            question,
                            header: crate::agent::meant(text_at(item, "header"@)),
                            multi_select: flag_at(item, "multi_select"@) == Some(true),
                            options: l,
                        },
                    ),
                }
            },
        }
    }
}

/// The questions, or what is wrong with the first one that has something
/// wrong.
pub open spec fn read_questions(v: Seq<JsonV>) -> Result<Seq<QuestionItemV>, Seq<char>>
    decreases v.len(),
{
    if v.len() == 0 {
        Ok(Seq::empty())
    } else {
        match read_questions(v.drop_last()) {
            Err(e) => Err(e),
            Ok(l) => match read_question(v.last(), v.len()) {
                Err(e) => Err(e),
                Ok(q) => Ok(l.push(q)),
            },
        }
    }
}

/// The questions of a call: 1 to 4, each with a text and 2 to 4 options, each
/// of which has a label; or what is wrong with them.
pub open spec fn questions_of(args: JsonV) -> Result<Seq<QuestionItemV>, Seq<char>> {
    match items_at(args, "questions"@) {
        None => Err("缺少参数 questions（数组）"@),
        Some(items) => if items.len() == 0 || items.len() > 4 {
            Err("questions 数量须在 1-4 之间（收到 "@ + decimal(items.len()) + "）"@)
        } else {
            read_questions(items)
        },
    }
}

fn parse_options(v: &[Json]) -> (r: Option<Vec<QuestionOption>>)
    ensures
        match r {
            Some(l) => read_options(says_all(v@)) == Some(question_options_say(l@)),
            None => read_options(says_all(v@)) is None,
        },
{
    let ghost all = says_all(v@);
    let mut out: Vec<QuestionOption> = Vec::new();
    let mut bad = false;
    proof {
        assert(question_options_say(out@) =~= Seq::<QuestionOptionV>::empty());
    }
    for i in 0..v.len()
        invariant
            all == says_all(v@),
            bad ==> read_options(all.take(i as int)) is None,
            !bad ==> read_options(all.take(i as int)) == Some(question_options_say(out@)),
    {
        let ghost before = question_options_say(out@);
        proof {
            assert(all.take(i as int + 1).drop_last() =~= all.take(i as int));
            assert(all.take(i as int + 1).last() == v@[i as int].says());
        }
        let label = match v[i].str_at("label") {
            Some(t) => chars_of(t.as_str()),
            None => Vec::new(),
        };
        let t = trimmed(label.as_slice());
        if t.len() == 0 {
            bad = true;
        } else {
            let o = QuestionOption { label: string_of(t), description: v[i].str_at("description") };
            proof {
                assert(o@ =~= (QuestionOptionV {
                    label: t@,
                    description: text_at(v@[i as int].says(), "description"@),
                }));
            }
            out.push(o);
            proof {
                assert(question_options_say(out@) =~= before.push(o@));
            }
        }
    }
    proof {
        assert(all.take(v@.len() as int) =~= all);
    }
    if bad {
        None
    } else {
        Some(out)
    }
}

fn parse_question(item: &Json, n: usize) -> (r: Result<QuestionItem, String>)
    ensures
        match r {
            Ok(q) => read_question(item.says(), n as nat) == Ok::<QuestionItemV, Seq<char>>(q@),
            Err(e) => read_question(item.says(), n as nat) == Err::<QuestionItemV, Seq<char>>(e@),
        },
{
    let text = match item.str_at("question") {
        Some(t) => chars_of(t.as_str()),
        None => Vec::new(),
    };
    let question = trimmed(text.as_slice());
    if question.len() == 0 {
        return Err(about_question(n, chars_of(" question 不能为空").as_slice()));
    }
    let options = match item.arr_at("options") {
        Some(a) => a,
        None => return Err(about_question(n, chars_of("缺少 options（数组）").as_slice())),
    };
    proof {
        assert(says_all(options@).len() == options@.len());
    }
    if options.len() < 2 || options.len() > 4 {
        let mut m = chars_of(" options 数量须在 2-4 之间（收到 ");
        let d = decimal_of(options.len() as u64);
        push_all(&mut m, d.as_slice());
        push_text(&mut m, "）");
        return Err(about_question(n, m.as_slice()));
    }
    let list = match parse_options(options.as_slice()) {
        Some(l) => l,
        None => return Err(about_question(n, chars_of("存在空 label 的选项").as_slice())),
    };
    let header: Option<String> = match item.str_at("header") {
        Some(h) => {
            let v = chars_of(h.as_str());
            let t = trimmed(v.as_slice());
            if t.len() > 0 {
                Some(string_of(t))
            } else {
                None
            }
        },
        None => None,
    };
    let multi_select = match item.bool_at("multi_select") {
        Some(b) => b,
        None => false,
    };
    Ok(QuestionItem { question: string_of(question), header, multi_select, options: list })
}

/// Reads the questions of a call.
pub fn parse_questions(args: &Json) -> (r: Result<Vec<QuestionItem>, String>)
    ensures
        match r {
            Ok(l) => questions_of(args.says()) == Ok::<Seq<QuestionItemV>, Seq<char>>(
                question_items_say(l@),
            ),
            Err(e) => questions_of(args.says()) == Err::<Seq<QuestionItemV>, Seq<char>>(e@),
        },
{
    let items = match args.arr_at("questions") {
        Some(a) => a,
        None => return Err("缺少参数 questions（数组）".to_owned()),
    };
    let ghost all = says_all(items@);
    proof {
        assert(all.len() == items@.len());
    }
    if items.len() == 0 || items.len() > 4 {
        let mut m = chars_of("questions 数量须在 1-4 之间（收到 ");
        let d = decimal_of(items.len() as u64);
        push_all(&mut m, d.as_slice());
        push_text(&mut m, "）");
        return Err(string_of(m.as_slice()));
    }
    let mut out: Vec<QuestionItem> = Vec::new();
    proof {
        assert(question_items_say(out@) =~= Seq::<QuestionItemV>::empty());
    }
    for i in 0..items.len()
        invariant
            all == says_all(items@),
            0 < items@.len() <= 4,
            questions_of(args.says()) == read_questions(all),
            read_questions(all.take(i as int)) == Ok::<Seq<QuestionItemV>, Seq<char>>(
                question_items_say(out@),
            ),
    {
        let ghost before = question_items_say(out@);
        proof {
            assert(all.take(i as int + 1).drop_last() =~= all.take(i as int));
            assert(all.take(i as int + 1).last() == items@[i as int].says());
        }
        match parse_question(&items[i], i + 1) {
            Ok(q) => {
                out.push(q);
                proof {
                    assert(question_items_say(out@) =~= before.push(q@));
                }
            },
            Err(e) => {
                proof {
                    lemma_first_fault(all, i as int + 1, e@);
                }
                return Err(e);
            },
        }
    }
    proof {
        assert(all.take(items@.len() as int) =~= all);
    }
    Ok(out)
}

/// A fault among the first questions is the fault of all of them.
proof fn lemma_first_fault(v: Seq<JsonV>, n: int, e: Seq<char>)
    requires
        0 <= n <= v.len(),
        read_questions(v.take(n)) == Err::<Seq<QuestionItemV>, Seq<char>>(e),
    ensures
        read_questions(v) == Err::<Seq<QuestionItemV>, Seq<char>>(e),
    decreases v.len() - n,
{
    if n == v.len() {
        assert(v.take(n) =~= v);
    } else {
        assert(v.take(n + 1).drop_last() =~= v.take(n));
        lemma_first_fault(v, n + 1, e);
    }
}

/// What the model is told of the answers: a line for each question.
pub open spec fn answer_lines(questions: Seq<QuestionItemV>, answers: Seq<Seq<Seq<char>>>) -> Seq<
    char,
>
    decreases questions.len(),
{
    if questions.len() == 0 {
        "用户已回答：\n"@
    } else {
        let i = questions.len() - 1;
        let labels = if i < answers.len() && join(answers[i], "、"@).len() > 0 {
            join(answers[i], "、"@)
        } else {
            "（未选择）"@
        };
        answer_lines(questions.drop_last(), answers) + decimal((i + 1) as nat) + ". "@
            + questions.last().question + "："@ + labels + "\n"@
    }
}

/// The labels of all answers.
pub open spec fn answers_say(v: Seq<Vec<String>>) -> Seq<Seq<Seq<char>>> {
    v.map_values(|a: Vec<String>| texts(a@))
}

/// What the model is told of the answers.
pub fn answers_note(questions: &[QuestionItem], answers: &[Vec<String>]) -> (r: String)
    ensures
        r@ == answer_lines(question_items_say(questions@), answers_say(answers@)),
{
    let ghost all = question_items_say(questions@);
    let ghost given = answers_say(answers@);
    let mut out = chars_of("用户已回答：\n");
    for i in 0..questions.len()
        invariant
            all == question_items_say(questions@),
            given == answers_say(answers@),
            out@ == answer_lines(all.take(i as int), given),
    {
        proof {
            assert(all.take(i as int + 1).drop_last() =~= all.take(i as int));
            assert(all.take(i as int + 1).last() == questions@[i as int]@);
            assert(given.len() == answers@.len());
        }
        let labels: Vec<char> = if i < answers.len() {
            proof {
                assert(given[i as int] == texts(answers@[i as int]@));
            }
            let l = crate::chars::joined_strings(answers[i].as_slice(), "、");
            if l.len() > 0 {
                l
            } else {
                chars_of("（未选择）")
            }
        } else {
            chars_of("（未选择）")
        };
        let d = decimal_of((i + 1) as u64);
        push_all(&mut out, d.as_slice());
        push_text(&mut out, ". ");
        push_text(&mut out, questions[i].question.as_str());
        push_text(&mut out, "：");
        push_all(&mut out, labels.as_slice());
        push_text(&mut out, "\n");
    }
    proof {
        assert(all.take(questions@.len() as int) =~= all);
    }
    string_of(out.as_slice())
}

// ---------------------------------------------------------------------------
// Lists and labels
// ---------------------------------------------------------------------------

/// The name of a status.
pub open spec fn todo_label(s: TodoStatus) -> Seq<char> {
    match s {
        TodoStatus::Pending => "pending"@,
        TodoStatus::InProgress => "in_progress"@,
        TodoStatus::Done => "done"@,
    }
}

/// The line of item `i` of a to-do list.
pub open spec fn todo_line(i: int, t: TodoItemV) -> Seq<char> {
    decimal((i + 1) as nat) + ". ["@ + todo_label(t.status) + "] "@ + t.content
}

/// A to-do list as text.
pub open spec fn todo_text(v: Seq<TodoItemV>) -> Seq<char> {
    if v.len() == 0 {
        "当前没有待办事项"@
    } else {
        join(Seq::new(v.len(), |i: int| todo_line(i, v[i])), "\n"@)
    }
}

/// Writes a to-do list.
pub fn render_todos(todos: &[TodoItem]) -> (r: String)
    ensures
        r@ == todo_text(crate::protocol::todo_items_say(todos@)),
{
    let ghost all = crate::protocol::todo_items_say(todos@);
    if todos.len() == 0 {
        return "当前没有待办事项".to_owned();
    }
    let ghost want = Seq::new(all.len(), |i: int| todo_line(i, all[i]));
    let mut lines: Vec<Vec<char>> = Vec::new();
    for i in 0..todos.len()
        invariant
            all == crate::protocol::todo_items_say(todos@),
            want == Seq::new(all.len(), |i: int| todo_line(i, all[i])),
            rows(lines@) == want.take(i as int),
    {
        let ghost before = rows(lines@);
        let mut line = decimal_of((i + 1) as u64);
        push_text(&mut line, ". [");
        match todos[i].status {
            TodoStatus::Pending => push_text(&mut line, "pending"),
            TodoStatus::InProgress => push_text(&mut line, "in_progress"),
            TodoStatus::Done => push_text(&mut line, "done"),
        }
        push_text(&mut line, "] ");
        push_text(&mut line, todos[i].content.as_str());
        lines.push(line);
        proof {
            assert(rows(lines@) =~= before.push(want[i as int]));
            assert(want.take(i as int + 1) =~= want.take(i as int).push(want[i as int]));
        }
    }
    proof {
        assert(want.take(todos@.len() as int) =~= want);
    }
    let text = joined(lines.as_slice(), "\n");
    string_of(text.as_slice())
}

/// The status that a to-do item's `status` names.
pub open spec fn todo_status(t: Seq<char>) -> Option<TodoStatus> {
    if t == "pending"@ {
        Some(TodoStatus::Pending)
    } else if t == "in_progress"@ {
        Some(TodoStatus::InProgress)
    } else if t == "done"@ {
        Some(TodoStatus::Done)
    } else {
        None
    }
}

/// Reads the name of a status.
pub fn parse_todo_status(t: &str) -> (r: Option<TodoStatus>)
    ensures
        r == todo_status(t@),
{
    if str_eq(t, "pending") {
        Some(TodoStatus::Pending)
    } else if str_eq(t, "in_progress") {
        Some(TodoStatus::InProgress)
    } else if str_eq(t, "done") {
        Some(TodoStatus::Done)
    } else {
        None
    }
}

/// How an exit code is written.
pub open spec fn signed_decimal(n: int) -> Seq<char> {
    if n < 0 {
        "-"@ + decimal((-n) as nat)
    } else {
        decimal(n as nat)
    }
}

/// Writes an exit code.
pub fn signed_decimal_of(n: i32) -> (r: Vec<char>)
    ensures
        r@ == signed_decimal(n as int),
{
    if n < 0 {
        let mut v = chars_of("-");
        let m: i64 = -(n as i64);
        let d = decimal_of(m as u64);
        push_all(&mut v, d.as_slice());
        v
    } else {
        decimal_of(n as u64)
    }
}

/// The label of a task's status.
pub open spec fn status_label(s: TaskStatus) -> Seq<char> {
    match s {
        TaskStatus::Running => "运行中"@,
        TaskStatus::Exited(code) => "已退出("@ + signed_decimal(code as int) + ")"@,
        TaskStatus::Killed => "已停止"@,
    }
}

/// The label of a task's status.
pub fn task_status_label(s: TaskStatus) -> (r: String)
    ensures
        r@ == status_label(s),
{
    match s {
        TaskStatus::Running => "运行中".to_owned(),
        TaskStatus::Exited(code) => {
            let mut v = chars_of("已退出(");
            let d = signed_decimal_of(code);
            push_all(&mut v, d.as_slice());
            push_text(&mut v, ")");
            string_of(v.as_slice())
        },
        TaskStatus::Killed => "已停止".to_owned(),
    }
}

/// How long a task has run, in seconds up to a minute and then in minutes.
pub open spec fn duration_label(started_at: u64, until: u64) -> Seq<char> {
    let secs = if until >= started_at {
        (until - started_at) as nat
    } else {
        0
    };
    if secs < 60 {
        decimal(secs) + " 秒"@
    } else {
        decimal(secs / 60) + " 分"@
    }
}

/// How long a task has run: until its end, or until `now` while it runs.
pub fn task_duration_label(started_at: u64, ended_at: Option<u64>, now: u64) -> (r: String)
    ensures
        r@ == duration_label(
            started_at,
            match ended_at {
                Some(t) => t,
                None => now,
            },
        ),
{
    let until = match ended_at {
        Some(t) => t,
        None => now,
    };
    let secs: u64 = until.saturating_sub(started_at);
    if secs < 60 {
        let mut v = decimal_of(secs);
        push_text(&mut v, " 秒");
        string_of(v.as_slice())
    } else {
        let mut v = decimal_of(secs / 60);
        push_text(&mut v, " 分");
        string_of(v.as_slice())
    }
}

// ---------------------------------------------------------------------------
// Laws
// ---------------------------------------------------------------------------

/// A tool that only reads never needs approval, in any mode; and the two modes
/// that give full access never ask.
pub proof fn law_approval(tool: Tool, mode: ExecMode)
    ensures
        tool.only_reads() ==> !asks_first(tool, mode),
        mode == ExecMode::FullAccess || mode == ExecMode::Yolo ==> !asks_first(tool, mode),
{
}

/// The questions of a call are read one by one and none is left out: each with
/// its own text and its own options, and each option with its own label and
/// description, in their order.
pub proof fn law_questions_are_read(args: JsonV, items: Seq<JsonV>)
    requires
        items_at(args, "questions"@) == Some(items),
    ensures
        questions_of(args) matches Ok(l) ==> {
            &&& 1 <= items.len() <= 4
            &&& l.len() == items.len()
            &&& forall|i: int| 0 <= i < l.len() ==> asks(#[trigger] l[i], items[i])
        },
{
    lemma_read_questions(items);
}

/// Whether a question is the one that a value writes.
pub open spec fn asks(q: QuestionItemV, item: JsonV) -> bool {
    &&& text_at(item, "question"@) matches Some(t) && q.question == trim(t) && q.question.len() > 0
    &&& q.multi_select <==> flag_at(item, "multi_select"@) == Some(true)
    &&& items_at(item, "options"@) matches Some(o) && q.options.len() == o.len() && 2 <= o.len()
        <= 4 && forall|k: int|
        0 <= k < o.len() ==> (text_at(o[k], "label"@) matches Some(t) && (
        #[trigger] q.options[k]).label == trim(t)) && q.options[k].description == text_at(
            o[k],
            "description"@,
        )
}

proof fn lemma_read_questions(v: Seq<JsonV>)
    ensures
        read_questions(v) matches Ok(l) ==> l.len() == v.len() && forall|i: int|
            0 <= i < l.len() ==> asks(#[trigger] l[i], v[i]),
    decreases v.len(),
{
    if v.len() > 0 && read_questions(v) is Ok {
        let front = v.drop_last();
        lemma_read_questions(front);
        let l = read_questions(v)->Ok_0;
        let before = read_questions(front)->Ok_0;
        let item = v.last();
        lemma_trim_nothing();
        lemma_read_options(items_at(item, "options"@)->0);
        assert forall|i: int| 0 <= i < l.len() implies asks(#[trigger] l[i], v[i]) by {
            if i < before.len() {
                assert(l[i] == before[i]);
                assert(front[i] == v[i]);
            } else {
                assert(v[i] == item);
                assert(read_question(item, v.len()) == Ok::<QuestionItemV, Seq<char>>(l[i]));
            }
        }
    }
}

proof fn lemma_trim_nothing()
    ensures
        trim(Seq::<char>::empty()).len() == 0,
{
}

proof fn lemma_read_options(v: Seq<JsonV>)
    ensures
        read_options(v) matches Some(l) ==> l.len() == v.len() && forall|k: int|
            0 <= k < l.len() ==> (text_at(v[k], "label"@) matches Some(t) && (#[trigger] l[k]).label
                == trim(t)) && l[k].description == text_at(v[k], "description"@),
    decreases v.len(),
{
    if v.len() > 0 && read_options(v) is Some {
        let front = v.drop_last();
        lemma_read_options(front);
        lemma_trim_nothing();
        let l = read_options(v)->0;
        let before = read_options(front)->0;
        assert forall|k: int| 0 <= k < l.len() implies (text_at(v[k], "label"@) matches Some(t) && (
        #[trigger] l[k]).label == trim(t)) && l[k].description == text_at(v[k], "description"@) by {
            if k < before.len() {
                assert(l[k] == before[k]);
                assert(front[k] == v[k]);
            }
        }
    }
}

/// The model is told each question with its number and with what the user chose
/// for that very question, in their order.
pub proof fn law_answers_are_told(
    questions: Seq<QuestionItemV>,
    q: QuestionItemV,
    answers: Seq<Seq<Seq<char>>>,
)
    ensures
        ({
            let n = questions.len();
            let before = answer_lines(questions, answers);
            let now = answer_lines(questions.push(q), answers);
            &&& n < answers.len() && join(answers[n as int], "、"@).len() > 0 ==> now == before
                + decimal(n + 1) + ". "@ + q.question + "："@ + join(answers[n as int], "、"@)
                + "\n"@
            &&& n >= answers.len() ==> now == before + decimal(n + 1) + ". "@ + q.question + "："@
                + "（未选择）"@ + "\n"@
        }),
{
    assert(questions.push(q).drop_last() =~= questions);
}

/// A to-do list is told as one line for each item, with its number, its status
/// and its text.
pub proof fn law_todos_are_told(v: Seq<TodoItemV>)
    requires
        v.len() > 0,
    ensures
        exists|rows: Seq<Seq<char>>|
            todo_text(v) == #[trigger] join(rows, "\n"@) && rows.len() == v.len() && forall|i: int|
                0 <= i < v.len() ==> (#[trigger] rows[i]) == decimal((i + 1) as nat) + ". ["@ + (
                match v[i].status {
                    TodoStatus::Pending => "pending"@,
                    TodoStatus::InProgress => "in_progress"@,
                    TodoStatus::Done => "done"@,
                }) + "] "@ + v[i].content,
{
    let rows = Seq::new(v.len(), |i: int| todo_line(i, v[i]));
    assert(todo_text(v) == join(rows, "\n"@));
}

/// A tool is found by its own name, and no name of another tool finds it.
pub proof fn law_tool_is_found_by_name(v: Seq<Tool>, name: Seq<char>)
    ensures
        tool_named(v, name, 0) matches Some(t) ==> v.contains(t) && t.name_text() == name,
        tool_named(v, name, 0) is None ==> forall|i: int|
            0 <= i < v.len() ==> (#[trigger] v[i]).name_text() != name,
{
    lemma_tool_named(v, name, 0);
}

proof fn lemma_tool_named(v: Seq<Tool>, name: Seq<char>, from: int)
    requires
        0 <= from,
    ensures
        tool_named(v, name, from) matches Some(t) ==> v.contains(t) && t.name_text() == name,
        tool_named(v, name, from) is None ==> forall|i: int|
            from <= i < v.len() ==> (#[trigger] v[i]).name_text() != name,
    decreases v.len() - from,
{
    if from < v.len() && v[from].name_text() != name {
        lemma_tool_named(v, name, from + 1);
    }
}

/// What an approval covers: of a command its first word, of a file that is
/// written its path, and of any other call nothing but the tool.
pub proof fn law_approval_subject(call: CallV, c: Seq<char>)
    ensures
        ({
            let args = args_say(call.arguments);
            &&& call.name == "Bash"@ && text_at(args, "command"@) == Some(c) && words(c).len() > 0
                ==> subject_of(call) == words(c)[0]
            &&& (call.name == "Write"@ || call.name == "Edit"@) && call.name != "Bash"@ && text_at(
                args,
                "path"@,
            ) == Some(c) ==> subject_of(call) == c
            &&& call.name != "Bash"@ && call.name != "Write"@ && call.name != "Edit"@ ==> subject_of(
                call,
            ).len() == 0
        }),
{
}

} // verus!
