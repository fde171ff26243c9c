//! The tools for commands, tasks and to-do lists: what they are asked and what
//! they report.

use crate::chars::{
    cat, cat3, cat5, chars_of, decimal, join, joined, number_text, opt_text, push_all, push_text,
    rows, str_eq, string_of, text_from,
};
use crate::files::{need, needed, outcome};
use crate::json::{
    flag_at, lemma_arr, member, number_at, says_all, text_at, Json, JsonV,
};
use crate::paths::{relative_path, shown_path};
use crate::protocol::{todo_items_say, TodoItem, TodoItemV, TodoStatus};
use crate::task::{suffix, tail_chars, task_at, tasks_say, TaskEntry, TaskEntryV};
use crate::tool::{
    duration_label, parse_todo_status, render_todos, signed_decimal, signed_decimal_of, status_label,
    task_duration_label, task_status_label, todo_status, todo_text,
};
use vstd::prelude::*;
use vstd::slice::slice_subrange;

verus! {

/// How many characters of a command's output are reported whole.
pub const MAX_BASH_OUTPUT: usize = 30_720;

/// How many characters are shown of the start of a longer output.
pub const OUTPUT_HEAD: usize = 4096;

/// How many characters are shown of its end.
pub const OUTPUT_TAIL: usize = 1024;

/// How many characters of a task's output are shown.
pub const TASK_OUTPUT_TAIL: usize = 16_000;

// ---------------------------------------------------------------------------
// Commands
// ---------------------------------------------------------------------------

/// A command that is to be run.
#[derive(Debug, PartialEq)]
pub struct BashCall {
    pub command: String,
    pub background: bool,
    /// After how many seconds it goes on in the background.
    pub timeout: u64,
}

/// What a `BashCall` says.
#[verifier::ext_equal]
pub struct BashCallV {
    pub command: Seq<char>,
    pub background: bool,
    pub timeout: u64,
}

impl View for BashCall {
    type V = BashCallV;

    open spec fn view(&self) -> BashCallV {
        BashCallV {
            command: self.command@,
            background: self.background,
            timeout: self.timeout,
        }
    }
}

/// How long a command may run: a minute where nothing is said, and otherwise
/// what is said, but between one second and five minutes.
pub open spec fn time_limit(asked: Option<u64>) -> u64 {
    match asked {
        None => 60,
        Some(n) => if n < 1 {
            1
        } else if n > 300 {
            300
        } else {
            n
        },
    }
}

/// The command that arguments name, or what is wrong with them.
pub open spec fn bash_call(args: JsonV) -> Result<BashCallV, Seq<char>> {
    match needed(args, "command"@) {
        Err(e) => Err(e),
        Ok(command) => Ok(
            BashCallV {
                command,
                background: flag_at(args, "run_in_background"@) == Some(true),
                timeout: time_limit(number_at(args, "timeout"@)),
            },
        ),
    }
}

/// Reads the arguments of a command.
pub fn parse_bash(args: &Json) -> (r: Result<BashCall, String>)
    ensures
        match r {
            Ok(c) => bash_call(args.says()) == Ok::<BashCallV, Seq<char>>(c@),
            Err(e) => bash_call(args.says()) == Err::<BashCallV, Seq<char>>(e@),
        },
{
    let command = match need(args, "command") {
        Ok(c) => c,
        Err(e) => return Err(e),
    };
    let background = match args.bool_at("run_in_background") {
        Some(b) => b,
        None => false,
    };
    let timeout: u64 = match args.u64_at("timeout") {
        None => 60,
        Some(n) => if n < 1 {
            1
        } else if n > 300 {
            300
        } else {
            n
        },
    };
    Ok(BashCall { command, background, timeout })
}

/// Reports a command that runs in the background.
pub fn background_note(task_id: &str) -> (r: String)
    ensures
        r@ == "已在后台启动，task_id: "@ + task_id@ + "。用 TaskOutput 查看输出，TaskStop 停止。"@,
{
    cat3("已在后台启动，task_id: ", task_id, "。用 TaskOutput 查看输出，TaskStop 停止。")
}

/// What became of a command.
#[derive(Debug, PartialEq)]
pub enum ForegroundOutcome {
    SpawnFailed { error: String },
    /// It goes on in the background.
    TimedOut { task_id: String },
    Completed {
        output: String,
        code: i32,
        /// The file that holds the whole output.
        spill_path: Option<String>,
    },
}

/// Where the whole output of a command can be read.
pub open spec fn spill_shown(path: Option<Seq<char>>, cwd: Seq<char>) -> Seq<char> {
    match path {
        Some(p) => match crate::paths::below(p, cwd) {
            Some(_) => shown_path(p, cwd, cwd),
            None => p,
        },
        None => "（未知路径）"@,
    }
}

/// What the model sees of the output of a command: the whole, or its start and
/// end where it is long.
pub open spec fn output_report(
    output: Seq<char>,
    code: i32,
    spill: Option<Seq<char>>,
    cwd: Seq<char>,
) -> Seq<char> {
    if output.len() <= MAX_BASH_OUTPUT {
        output + "\n[exit code: "@ + signed_decimal(code as int) + "]"@
    } else {
        output.take(OUTPUT_HEAD as int) + "\n\n[...中间省略...]\n\n"@ + suffix(
            output,
            OUTPUT_TAIL as int,
        ) + "\n\n[输出过长（共 "@ + decimal(output.len()) + " 字符），完整输出已保存到 "@ + spill_shown(
            spill,
            cwd,
        ) + "，可用 Read 分页查看]\n[exit code: "@ + signed_decimal(code as int) + "]"@
    }
}

/// What the model is told of a command that was given so many seconds.
pub open spec fn bash_result(o: ForegroundOutcome, secs: u64, cwd: Seq<char>) -> Result<
    Seq<char>,
    Seq<char>,
> {
    match o {
        ForegroundOutcome::SpawnFailed { error } => Err("启动命令失败: "@ + error@),
        ForegroundOutcome::TimedOut { task_id } => Ok(
            "命令超过 "@ + decimal(secs as nat) + "s 未结束，已转入后台任务 "@ + task_id@
                + "（输出持续保留）。用 TaskOutput 查看，TaskStop 停止。"@,
        ),
        ForegroundOutcome::Completed { output, code, spill_path } => Ok(
            output_report(output@, code, opt_text(spill_path), cwd),
        ),
    }
}

fn show_spill(path: &Option<String>, cwd: &str) -> (r: String)
    ensures
        r@ == spill_shown(opt_text(*path), cwd@),
{
    match path {
        Some(p) => if crate::paths::lies_below(p.as_str(), cwd) {
            relative_path(p.as_str(), cwd, cwd)
        } else {
            text_from(p.as_str())
        },
        None => text_from("（未知路径）"),
    }
}

fn report_output(output: &str, code: i32, spill: &Option<String>, cwd: &str) -> (r: String)
    ensures
        r@ == output_report(output@, code, opt_text(*spill), cwd@),
{
    let v = chars_of(output);
    let n: usize = v.len();
    let exit = signed_decimal_of(code);
    if n <= MAX_BASH_OUTPUT {
        let mut out = v;
        push_text(&mut out, "\n[exit code: ");
        push_all(&mut out, exit.as_slice());
        push_text(&mut out, "]");
        return string_of(out.as_slice());
    }
    let head = slice_subrange(v.as_slice(), 0, OUTPUT_HEAD);
    let mut out: Vec<char> = Vec::new();
    push_all(&mut out, head);
    push_text(&mut out, "\n\n[...中间省略...]\n\n");
    push_text(&mut out, tail_chars(output, OUTPUT_TAIL).as_str());
    push_text(&mut out, "\n\n[输出过长（共 ");
    push_text(&mut out, number_text(n as u64).as_str());
    push_text(&mut out, " 字符），完整输出已保存到 ");
    push_text(&mut out, show_spill(spill, cwd).as_str());
    push_text(&mut out, "，可用 Read 分页查看]\n[exit code: ");
    push_all(&mut out, exit.as_slice());
    push_text(&mut out, "]");
    proof {
        assert(head@ =~= output@.take(OUTPUT_HEAD as int));
        assert(out@ =~= output_report(output@, code, opt_text(*spill), cwd@));
    }
    string_of(out.as_slice())
}

/// Reports what became of a command. `secs` is the time that it was given.
pub fn report_bash(o: &ForegroundOutcome, secs: u64, cwd: &str) -> (r: Result<String, String>)
    ensures
        outcome(r) == bash_result(*o, secs, cwd@),
{
    match o {
        ForegroundOutcome::SpawnFailed { error } => Err(cat("启动命令失败: ", error.as_str())),
        ForegroundOutcome::TimedOut { task_id } => Ok(
            cat5(
                "命令超过 ",
                number_text(secs).as_str(),
                "s 未结束，已转入后台任务 ",
                task_id.as_str(),
                "（输出持续保留）。用 TaskOutput 查看，TaskStop 停止。",
            ),
        ),
        ForegroundOutcome::Completed { output, code, spill_path } => Ok(
            report_output(output.as_str(), *code, spill_path, cwd),
        ),
    }
}

/// Whether the file with the whole output of a command is of no use: what is
/// reported is the whole.
pub fn drops_spill(o: &ForegroundOutcome) -> (r: bool)
    ensures
        r == match *o {
            ForegroundOutcome::Completed { output, .. } => output@.len() <= MAX_BASH_OUTPUT,
            _ => false,
        },
{
    match o {
        ForegroundOutcome::Completed { output, .. } => chars_of(output.as_str()).len()
            <= MAX_BASH_OUTPUT,
        _ => false,
    }
}

// ---------------------------------------------------------------------------
// Tasks
// ---------------------------------------------------------------------------

/// When a task ended, or now.
pub open spec fn until_of(t: TaskEntryV, now: u64) -> u64 {
    match t.ended_at {
        Some(e) => e,
        None => now,
    }
}

/// A task as a line.
pub open spec fn task_line(t: TaskEntryV, now: u64) -> Seq<char> {
    t.id + " ["@ + status_label(t.status) + "] "@ + t.command + "（"@ + duration_label(
        t.started_at,
        until_of(t, now),
    ) + "）"@
}

/// The list of tasks.
pub open spec fn task_lines(v: Seq<TaskEntryV>, now: u64) -> Seq<char> {
    if v.len() == 0 {
        "没有后台任务"@
    } else {
        join(v.map_values(|t: TaskEntryV| task_line(t, now)), "\n"@)
    }
}

fn show_task(t: &TaskEntry, now: u64) -> (r: Vec<char>)
    ensures
        r@ == task_line(t@, now),
{
    let mut out = chars_of(t.id.as_str());
    push_text(&mut out, " [");
    push_text(&mut out, task_status_label(t.status).as_str());
    push_text(&mut out, "] ");
    push_text(&mut out, t.command.as_str());
    push_text(&mut out, "（");
    push_text(&mut out, task_duration_label(t.started_at, t.ended_at, now).as_str());
    push_text(&mut out, "）");
    out
}

/// Lists the tasks.
pub fn list_tasks(tasks: &[TaskEntry], now: u64) -> (r: String)
    ensures
        r@ == task_lines(tasks_say(tasks@), now),
{
    if tasks.len() == 0 {
        return text_from("没有后台任务");
    }
    let ghost all = tasks_say(tasks@);
    let ghost want = all.map_values(|t: TaskEntryV| task_line(t, now));
    let mut v: Vec<Vec<char>> = Vec::new();
    proof {
        assert(rows(v@) =~= want.take(0));
    }
    for i in 0..tasks.len()
        invariant
            all == tasks_say(tasks@),
            want == all.map_values(|t: TaskEntryV| task_line(t, now)),
            rows(v@) == want.take(i as int),
    {
        let ghost before = rows(v@);
        v.push(show_task(&tasks[i], now));
        proof {
            assert(rows(v@) =~= before.push(want[i as int]));
            assert(want.take(i as int + 1) =~= before.push(want[i as int]));
        }
    }
    proof {
        assert(want.take(tasks@.len() as int) =~= want);
    }
    string_of(joined(v.as_slice(), "\n").as_slice())
}

/// What a task has written, at most its end.
pub open spec fn task_report(v: Seq<TaskEntryV>, id: Seq<char>, now: u64) -> Result<
    Seq<char>,
    Seq<char>,
> {
    match task_at(v, id, 0) {
        None => Err("任务不存在: "@ + id),
        Some(k) => {
            let t = v[k];
            let tail = suffix(t.output, TASK_OUTPUT_TAIL as int);
            Ok(
                "任务 "@ + t.id + "（"@ + status_label(t.status) + "，"@ + duration_label(
                    t.started_at,
                    until_of(t, now),
                ) + "）输出：\n"@ + if tail.len() == 0 {
                    "（暂无输出）"@
                } else {
                    tail
                },
            )
        },
    }
}

/// Shows what a task has written.
pub fn task_output(tasks: &[TaskEntry], id: &str, now: u64) -> (r: Result<String, String>)
    ensures
        outcome(r) == task_report(tasks_say(tasks@), id@, now),
{
    let ghost all = tasks_say(tasks@);
    let mut i: usize = 0;
    while i < tasks.len()
        invariant
            all == tasks_say(tasks@),
            i <= tasks@.len(),
            task_at(all, id@, 0) == task_at(all, id@, i as int),
        decreases tasks@.len() - i,
    {
        proof {
            assert(all[i as int] == tasks@[i as int]@);
        }
        let t = &tasks[i];
        if str_eq(t.id.as_str(), id) {
            let tail = tail_chars(t.output.as_str(), TASK_OUTPUT_TAIL);
            let mut out = chars_of("任务 ");
            push_text(&mut out, t.id.as_str());
            push_text(&mut out, "（");
            push_text(&mut out, task_status_label(t.status).as_str());
            push_text(&mut out, "，");
            push_text(&mut out, task_duration_label(t.started_at, t.ended_at, now).as_str());
            push_text(&mut out, "）输出：\n");
            if chars_of(tail.as_str()).len() == 0 {
                push_text(&mut out, "（暂无输出）");
            } else {
                push_text(&mut out, tail.as_str());
            }
            return Ok(string_of(out.as_slice()));
        }
        i = i + 1;
    }
    Err(cat("任务不存在: ", id))
}

// ---------------------------------------------------------------------------
// To-do lists
// ---------------------------------------------------------------------------

/// The item that a value writes, if it writes one.
pub open spec fn todo_in(v: JsonV) -> Option<TodoItemV> {
    match (text_at(v, "content"@), text_at(v, "status"@)) {
        (Some(content), Some(s)) => match todo_status(s) {
            Some(status) => Some(TodoItemV { content, status }),
            None => None,
        },
        _ => None,
    }
}

/// The items that values write; none where one of them writes none.
pub open spec fn todos_in(v: Seq<JsonV>) -> Option<Seq<TodoItemV>>
    decreases v.len(),
{
    if v.len() == 0 {
        Some(Seq::empty())
    } else {
        match (todos_in(v.drop_last()), todo_in(v.last())) {
            (Some(before), Some(t)) => Some(before.push(t)),
            _ => None,
        }
    }
}

/// What the to-do tool does: the new list, if it is given one, and what it
/// reports. `fault` says what is wrong with a list that cannot be read.
pub open spec fn todo_result(args: JsonV, current: Seq<TodoItemV>, fault: Seq<char>) -> Result<
    (Option<Seq<TodoItemV>>, Seq<char>),
    Seq<char>,
> {
    match member(args, "todos"@) {
        None => Ok((None, todo_text(current))),
        Some(JsonV::Arr(v)) => match todos_in(v) {
            Some(list) => Ok((Some(list), todo_text(list))),
            None => Err(todo_fault(fault)),
        },
        Some(_) => Err(todo_fault(fault)),
    }
}

/// What is said of a list that cannot be read.
pub open spec fn todo_fault(fault: Seq<char>) -> Seq<char> {
    "todos 格式非法: "@ + fault + "（status 须为 pending/in_progress/done）"@
}

fn read_todos(v: &Vec<Json>) -> (r: Option<Vec<TodoItem>>)
    ensures
        match r {
            Some(l) => todos_in(says_all(v@)) == Some(todo_items_say(l@)),
            None => todos_in(says_all(v@)) is None,
        },
{
    let ghost all = says_all(v@);
    let mut out: Vec<TodoItem> = Vec::new();
    let mut good = true;
    proof {
        assert(todo_items_say(out@) =~= Seq::<TodoItemV>::empty());
    }
    for i in 0..v.len()
        invariant
            all == says_all(v@),
            good ==> todos_in(all.take(i as int)) == Some(todo_items_say(out@)),
            !good ==> todos_in(all.take(i as int)) is None,
    {
        proof {
            assert(all.take(i as int + 1).drop_last() =~= all.take(i as int));
            assert(all.take(i as int + 1).last() == v@[i as int].says());
        }
        let item = match (v[i].str_at("content"), v[i].str_at("status")) {
            (Some(content), Some(s)) => match parse_todo_status(s.as_str()) {
                Some(status) => Some(TodoItem { content, status }),
                None => None,
            },
            _ => None,
        };
        match item {
            Some(t) => {
                let ghost before = todo_items_say(out@);
                let ghost tv = t@;
                out.push(t);
                proof {
                    assert(todo_items_say(out@) =~= before.push(tv));
                }
            },
            None => {
                good = false;
            },
        }
    }
    proof {
        assert(all.take(v@.len() as int) =~= all);
    }
    if good {
        Some(out)
    } else {
        None
    }
}

/// What an optional list of items says.
pub open spec fn opt_items(v: Option<Vec<TodoItem>>) -> Option<Seq<TodoItemV>> {
    match v {
        Some(l) => Some(todo_items_say(l@)),
        None => None,
    }
}

/// Reads or replaces the to-do list. The new list comes back where there is
/// one.
pub fn todo_list(args: &Json, current: &[TodoItem], fault: &str) -> (r: Result<
    (Option<Vec<TodoItem>>, String),
    String,
>)
    ensures
        match r {
            Ok(p) => todo_result(args.says(), todo_items_say(current@), fault@) == Ok::<
                (Option<Seq<TodoItemV>>, Seq<char>),
                Seq<char>,
            >((opt_items(p.0), p.1@)),
            Err(e) => todo_result(args.says(), todo_items_say(current@), fault@) == Err::<
                (Option<Seq<TodoItemV>>, Seq<char>),
                Seq<char>,
            >(e@),
        },
{
    match args.get("todos") {
        None => Ok((None, render_todos(current))),
        Some(j) => {
            proof {
                lemma_arr(*j);
            }
            match j {
                Json::Arr(v) => match read_todos(v) {
                    Some(list) => {
                        let text = render_todos(list.as_slice());
                        Ok((Some(list), text))
                    },
                    None => Err(
                        cat3("todos 格式非法: ", fault, "（status 须为 pending/in_progress/done）"),
                    ),
                },
                _ => Err(cat3("todos 格式非法: ", fault, "（status 须为 pending/in_progress/done）")),
            }
        },
    }
}

// ---------------------------------------------------------------------------
// Laws
// ---------------------------------------------------------------------------

/// What becomes of a list that is given does not depend on the list before: it
/// is replaced whole.
pub proof fn law_todos_are_replaced_whole(
    args: JsonV,
    a: Seq<TodoItemV>,
    b: Seq<TodoItemV>,
    fault: Seq<char>,
)
    requires
        member(args, "todos"@) is Some,
    ensures
        todo_result(args, a, fault) == todo_result(args, b, fault),
{
}

/// Whatever time is asked for, a command is given between one second and five
/// minutes.
pub proof fn law_commands_are_timed(args: JsonV)
    requires
        bash_call(args) is Ok,
    ensures
        1 <= bash_call(args)->Ok_0.timeout <= 300,
{
}

/// A to-do list that is given is taken over whole: each item with its own text
/// and its own status, in their order; a list with an item that has neither is
/// refused.
pub proof fn law_todos_are_read(args: JsonV, v: Seq<JsonV>, current: Seq<TodoItemV>, fault: Seq<char>)
    requires
        member(args, "todos"@) == Some(JsonV::Arr(v)),
    ensures
        todo_result(args, current, fault) matches Ok((list, _)) ==> (list matches Some(l) && l.len()
            == v.len() && forall|i: int|
            0 <= i < l.len() ==> text_at(v[i], "content"@) == Some((#[trigger] l[i]).content)
                && text_at(v[i], "status"@) == Some(
                match l[i].status {
                    TodoStatus::Pending => "pending"@,
                    TodoStatus::InProgress => "in_progress"@,
                    TodoStatus::Done => "done"@,
                },
            )),
        todo_result(args, current, fault) is Ok <==> forall|i: int|
            0 <= i < v.len() ==> text_at(#[trigger] v[i], "content"@) is Some && (text_at(
                v[i],
                "status"@,
            ) == Some("pending"@) || text_at(v[i], "status"@) == Some("in_progress"@) || text_at(
                v[i],
                "status"@,
            ) == Some("done"@)),
{
    lemma_todos_in(v);
}

proof fn lemma_todos_in(v: Seq<JsonV>)
    ensures
        todos_in(v) matches Some(l) ==> l.len() == v.len() && forall|i: int|
            0 <= i < l.len() ==> text_at(v[i], "content"@) == Some((#[trigger] l[i]).content)
                && text_at(v[i], "status"@) == Some(
                match l[i].status {
                    TodoStatus::Pending => "pending"@,
                    TodoStatus::InProgress => "in_progress"@,
                    TodoStatus::Done => "done"@,
                },
            ),
        todos_in(v) is Some <==> forall|i: int|
            0 <= i < v.len() ==> text_at(#[trigger] v[i], "content"@) is Some && (text_at(
                v[i],
                "status"@,
            ) == Some("pending"@) || text_at(v[i], "status"@) == Some("in_progress"@) || text_at(
                v[i],
                "status"@,
            ) == Some("done"@)),
    decreases v.len(),
{
    if v.len() > 0 {
        let front = v.drop_last();
        lemma_todos_in(front);
        assert forall|i: int| 0 <= i < front.len() implies front[i] == v[i] by {}
        assert(v[v.len() - 1] == v.last());
        if todos_in(v) is Some {
            let l = todos_in(v)->0;
            let before = todos_in(front)->0;
            assert forall|i: int| 0 <= i < l.len() implies text_at(v[i], "content"@) == Some(
                (#[trigger] l[i]).content,
            ) && text_at(v[i], "status"@) == Some(
                match l[i].status {
                    TodoStatus::Pending => "pending"@,
                    TodoStatus::InProgress => "in_progress"@,
                    TodoStatus::Done => "done"@,
                },
            ) by {
                if i < front.len() {
                    assert(l[i] == before[i]);
                    assert(front[i] == v[i]);
                }
            }
            assert forall|i: int| 0 <= i < v.len() implies text_at(#[trigger] v[i], "content"@) is Some
                && (text_at(v[i], "status"@) == Some("pending"@) || text_at(v[i], "status"@)
                == Some("in_progress"@) || text_at(v[i], "status"@) == Some("done"@)) by {
                if i < front.len() {
                    assert(front[i] == v[i]);
                }
            }
        } else if forall|i: int|
            0 <= i < v.len() ==> text_at(#[trigger] v[i], "content"@) is Some && (text_at(
                v[i],
                "status"@,
            ) == Some("pending"@) || text_at(v[i], "status"@) == Some("in_progress"@) || text_at(
                v[i],
                "status"@,
            ) == Some("done"@)) {
            assert forall|i: int| 0 <= i < front.len() implies text_at(
                #[trigger] front[i],
                "content"@,
            ) is Some && (text_at(front[i], "status"@) == Some("pending"@) || text_at(
                front[i],
                "status"@,
            ) == Some("in_progress"@) || text_at(front[i], "status"@) == Some("done"@)) by {
                assert(front[i] == v[i]);
            }
            assert(text_at(v[v.len() - 1], "content"@) is Some);
        }
    }
}

/// What a command wrote is told whole, followed by its exit code, where it is
/// not too long; of a long output the start is told, and the end behind it.
pub proof fn law_output_is_told(
    output: Seq<char>,
    code: i32,
    spill: Option<Seq<char>>,
    cwd: Seq<char>,
)
    ensures
        ({
            let r = output_report(output, code, spill, cwd);
            &&& output.len() <= 30_720 ==> r == output + "\n[exit code: "@ + signed_decimal(
                code as int,
            ) + "]"@
            &&& output.len() > 30_720 ==> r.take(4096) == output.take(4096) && exists|k: int|
                4096 <= k && k + 1024 <= r.len() && #[trigger] r.subrange(k, k + 1024)
                    == output.skip(output.len() - 1024)
        }),
{
    let r = output_report(output, code, spill, cwd);
    if output.len() > 30_720 {
        let head = output.take(4096) + "\n\n[...中间省略...]\n\n"@;
        let tail = output.skip(output.len() - 1024);
        assert(r.take(4096) =~= output.take(4096));
        let k = head.len() as int;
        assert(r.subrange(k, k + 1024) =~= tail);
    }
}

/// A command is the one that its arguments name.
pub proof fn law_command_is_read(args: JsonV, command: Seq<char>)
    requires
        text_at(args, "command"@) == Some(command),
    ensures
        bash_call(args) matches Ok(c) && c.command == command && (c.background <==> flag_at(
            args,
            "run_in_background"@,
        ) == Some(true)),
        number_at(args, "timeout"@) is None ==> bash_call(args)->Ok_0.timeout == 60,
        number_at(args, "timeout"@) matches Some(n) ==> (1 <= n <= 300 ==> bash_call(
            args,
        )->Ok_0.timeout == n),
{
}

} // verus!
