//! The background tasks of a session: commands and agents that run while the
//! conversation goes on.

use crate::chars::{
    cat, chars_of, decimal, digit_char, fit_end, fitting_end, number_text, opt_text, push_text,
    str_eq, string_of, text_from,
};
use crate::lossy::{lossy_of, lossy_text};
use crate::paths::{join_path, under};
use crate::protocol::{task_summarys_say, TaskStatus, TaskSummary, TaskSummaryV};
use vstd::prelude::*;
use vstd::slice::slice_subrange;

pub use crate::files::ReadState;
pub use crate::shell::ForegroundOutcome;
pub use crate::state::SessionToolState;

verus! {

/// How many bytes of a task's output are kept at hand.
pub const MAX_TASK_OUTPUT: usize = 65536;

/// How many characters of a task's output are shown.
pub const SNAPSHOT_TAIL_CHARS: usize = 4000;

/// How many bytes of a task's output are kept in a file.
pub const MAX_SPILL_BYTES: u64 = 10485760;

/// A task that runs in the background, or ran there.
#[derive(Clone, Debug)]
pub struct TaskEntry {
    pub id: String,
    pub command: String,
    pub status: TaskStatus,
    pub started_at: u64,
    pub ended_at: Option<u64>,
    pub pid: Option<u32>,
    /// The end of what it has written.
    pub output: String,
    /// The file that holds all of what it has written.
    pub spill_path: Option<String>,
    /// The agent that it runs, if it is no command.
    pub agent_id: Option<String>,
}

/// What a `TaskEntry` says.
#[verifier::ext_equal]
pub struct TaskEntryV {
    pub id: Seq<char>,
    pub command: Seq<char>,
    pub status: TaskStatus,
    pub started_at: u64,
    pub ended_at: Option<u64>,
    pub pid: Option<u32>,
    pub output: Seq<char>,
    pub spill_path: Option<Seq<char>>,
    pub agent_id: Option<Seq<char>>,
}

impl View for TaskEntry {
    type V = TaskEntryV;

    open spec fn view(&self) -> TaskEntryV {
        TaskEntryV {
            id: self.id@,
            command: self.command@,
            status: self.status,
            started_at: self.started_at,
            ended_at: self.ended_at,
            pid: self.pid,
            output: self.output@,
            spill_path: opt_text(self.spill_path),
            agent_id: opt_text(self.agent_id),
        }
    }
}

/// What each of a list says.
pub open spec fn tasks_say(v: Seq<TaskEntry>) -> Seq<TaskEntryV> {
    v.map_values(|x: TaskEntry| x@)
}

/// The tasks of a session, in the order in which they began.
#[derive(Debug)]
pub struct TaskRegistry {
    pub tasks: Vec<TaskEntry>,
    /// How many tasks there have been.
    pub seq: u64,
}

/// What a `TaskRegistry` says.
#[verifier::ext_equal]
pub struct RegistryV {
    pub tasks: Seq<TaskEntryV>,
    pub seq: u64,
}

impl View for TaskRegistry {
    type V = RegistryV;

    open spec fn view(&self) -> RegistryV {
        RegistryV { tasks: tasks_say(self.tasks@), seq: self.seq }
    }
}

/// The name of the task of a number.
pub open spec fn task_name(n: u64) -> Seq<char> {
    "b"@ + decimal(n as nat)
}

/// Whether the tasks have their numbers in order: each has a name of its own,
/// and no number above the count is in use.
pub open spec fn numbered(r: RegistryV) -> bool {
    &&& forall|i: int|
        0 <= i < r.tasks.len() ==> exists|n: u64|
            0 < n <= r.seq && (#[trigger] r.tasks[i]).id == #[trigger] task_name(n)
    &&& forall|i: int, j: int|
        0 <= i < j < r.tasks.len() ==> (#[trigger] r.tasks[i]).id != (#[trigger] r.tasks[j]).id
}

/// The end of `s`, at most `n` characters.
pub open spec fn suffix(s: Seq<char>, n: int) -> Seq<char> {
    if s.len() <= n {
        s
    } else {
        s.skip(s.len() - n)
    }
}

/// Takes at most the last `max` characters.
pub fn tail_chars(text: &str, max: usize) -> (r: String)
    ensures
        r@ == suffix(text@, max as int),
{
    let v = chars_of(text);
    let n: usize = v.len();
    if n <= max {
        text_from(text)
    } else {
        proof {
            assert(text@.skip(n - max) =~= text@.subrange(n - max, n as int));
        }
        string_of(slice_subrange(v.as_slice(), n - max, n))
    }
}

/// A task as it is shown.
pub open spec fn summary_of_task(t: TaskEntryV) -> TaskSummaryV {
    TaskSummaryV {
        id: t.id,
        command: t.command,
        status: t.status,
        started_at: t.started_at,
        ended_at: t.ended_at,
        output_tail: suffix(t.output, SNAPSHOT_TAIL_CHARS as int),
    }
}

/// The first task of a name, from `i` on.
pub open spec fn task_at(v: Seq<TaskEntryV>, id: Seq<char>, i: int) -> Option<int>
    decreases v.len() - i,
{
    if i < 0 || i >= v.len() {
        None
    } else if v[i].id == id {
        Some(i)
    } else {
        task_at(v, id, i + 1)
    }
}

/// The tasks without those of a name.
pub open spec fn without_task(v: Seq<TaskEntryV>, id: Seq<char>) -> Seq<TaskEntryV>
    decreases v.len(),
{
    if v.len() == 0 {
        Seq::empty()
    } else if v.last().id == id {
        without_task(v.drop_last(), id)
    } else {
        without_task(v.drop_last(), id).push(v.last())
    }
}

/// The output of a task after more of it has come: its end, as far as it is
/// kept at hand.
pub open spec fn grown(output: Seq<char>, more: Seq<char>) -> Seq<char> {
    fit_end(output + more, MAX_TASK_OUTPUT as nat)
}

/// The registry after more output of a task has come.
pub open spec fn with_output(r: RegistryV, id: Seq<char>, more: Seq<char>) -> RegistryV {
    match task_at(r.tasks, id, 0) {
        Some(i) => {
            let t = r.tasks[i];
            RegistryV {
                tasks: r.tasks.update(i, TaskEntryV { output: grown(t.output, more), ..t }),
                ..r
            }
        },
        None => r,
    }
}

/// The registry after a task has ended; one that was stopped stays stopped.
pub open spec fn with_end(r: RegistryV, id: Seq<char>, code: i32, now: u64) -> RegistryV {
    match task_at(r.tasks, id, 0) {
        Some(i) => {
            let t = r.tasks[i];
            if t.status == TaskStatus::Running {
                RegistryV {
                    tasks: r.tasks.update(
                        i,
                        TaskEntryV {
                            status: TaskStatus::Exited(code),
                            ended_at: Some(now),
                            ..t
                        },
                    ),
                    ..r
                }
            } else {
                r
            }
        },
        None => r,
    }
}

/// Why a task cannot be stopped.
pub open spec fn stop_fault(r: RegistryV, id: Seq<char>) -> Option<Seq<char>> {
    match task_at(r.tasks, id, 0) {
        None => Some("任务不存在: "@ + id),
        Some(i) => if r.tasks[i].status == TaskStatus::Running {
            None
        } else {
            Some("任务已结束: "@ + id)
        },
    }
}

/// The registry after a task was stopped.
pub open spec fn with_stop(r: RegistryV, id: Seq<char>, now: u64) -> RegistryV {
    match task_at(r.tasks, id, 0) {
        Some(i) => {
            let t = r.tasks[i];
            if t.status == TaskStatus::Running {
                RegistryV {
                    tasks: r.tasks.update(
                        i,
                        TaskEntryV { status: TaskStatus::Killed, ended_at: Some(now), ..t },
                    ),
                    ..r
                }
            } else {
                r
            }
        },
        None => r,
    }
}

/// The file that holds all of a task's output.
pub open spec fn spill_file(cwd: Seq<char>, id: Seq<char>) -> Seq<char> {
    under(under(under(cwd, ".pigcode"@), "tool-results"@), id + ".log"@)
}

fn spill_path_for(cwd: &str, id: &str) -> (r: String)
    ensures
        r@ == spill_file(cwd@, id@),
{
    let a = join_path(cwd, ".pigcode");
    let b = join_path(a.as_str(), "tool-results");
    let name = cat(id, ".log");
    join_path(b.as_str(), name.as_str())
}

fn find_task(v: &[TaskEntry], id: &str) -> (r: Option<usize>)
    ensures
        match r {
            Some(i) => task_at(tasks_say(v@), id@, 0) == Some(i as int) && i < v@.len(),
            None => task_at(tasks_say(v@), id@, 0) is None,
        },
{
    let ghost all = tasks_say(v@);
    for i in 0..v.len()
        invariant
            all == tasks_say(v@),
            task_at(all, id@, 0) == task_at(all, id@, i as int),
    {
        proof {
            assert(all[i as int] == v@[i as int]@);
        }
        if str_eq(v[i].id.as_str(), id) {
            return Some(i);
        }
    }
    None
}

/// What a task is.
#[derive(Debug)]
pub enum TaskKind {
    /// A command that runs as a process.
    Command { pid: Option<u32> },
    /// A command that could not be started.
    NotStarted { error: String },
    /// An agent.
    Agent { agent_id: String },
}

/// The task that is entered under a name.
pub open spec fn new_task(
    id: Seq<char>,
    command: Seq<char>,
    cwd: Seq<char>,
    kind: TaskKind,
    now: u64,
) -> TaskEntryV {
    let t = TaskEntryV {
        id,
        command,
        status: TaskStatus::Running,
        started_at: now,
        ended_at: None,
        pid: None,
        output: Seq::empty(),
        spill_path: Some(spill_file(cwd, id)),
        agent_id: None,
    };
    match kind {
        TaskKind::Command { pid } => TaskEntryV { pid, ..t },
        TaskKind::NotStarted { error } => TaskEntryV {
            status: TaskStatus::Exited((-1) as i32),
            ended_at: Some(now),
            output: "启动失败: "@ + error@,
            ..t
        },
        TaskKind::Agent { agent_id } => TaskEntryV {
            spill_path: None,
            agent_id: Some(agent_id@),
            ..t
        },
    }
}

impl TaskRegistry {
    /// No tasks.
    pub fn new() -> (r: Self)
        ensures
            r@ == (RegistryV { tasks: Seq::empty(), seq: 0 }),
            numbered(r@),
    {
        let t = TaskRegistry { tasks: Vec::new(), seq: 0 };
        proof {
            assert(tasks_say(t.tasks@) =~= Seq::<TaskEntryV>::empty());
        }
        t
    }

    /// The tasks as they are shown, with the end of their output.
    pub fn snapshot(&self) -> (r: Vec<TaskSummary>)
        ensures
            task_summarys_say(r@) == self@.tasks.map_values(|t: TaskEntryV| summary_of_task(t)),
    {
        let mut out: Vec<TaskSummary> = Vec::new();
        for i in 0..self.tasks.len()
            invariant
                out.len() == i,
                forall|k: int|
                    0 <= k < i ==> (#[trigger] out@[k])@ == summary_of_task(self.tasks@[k]@),
        {
            let t = &self.tasks[i];
            out.push(
                TaskSummary {
                    id: t.id.clone(),
                    command: t.command.clone(),
                    status: t.status,
                    started_at: t.started_at,
                    ended_at: t.ended_at,
                    output_tail: tail_chars(t.output.as_str(), SNAPSHOT_TAIL_CHARS),
                },
            );
        }
        proof {
            assert(task_summarys_say(out@) =~= self@.tasks.map_values(
                |t: TaskEntryV| summary_of_task(t),
            ));
        }
        out
    }

    /// Enters a task, under the next number. Numbers are never used twice.
    pub fn register(&mut self, command: &str, cwd: &str, kind: TaskKind, now: u64) -> (r: String)
        requires
            old(self)@.seq < u64::MAX,
            numbered(old(self)@),
        ensures
            r@ == task_name((old(self)@.seq + 1) as u64),
            final(self)@ == (RegistryV {
                tasks: old(self)@.tasks.push(new_task(r@, command@, cwd@, kind, now)),
                seq: (old(self)@.seq + 1) as u64,
            }),
            numbered(final(self)@),
    {
        let ghost before = self@;
        self.seq = self.seq + 1;
        let id = cat("b", number_text(self.seq).as_str());
        let ghost t = new_task(id@, command@, cwd@, kind, now);
        let mut entry = TaskEntry {
            id: id.clone(),
            command: text_from(command),
            status: TaskStatus::Running,
            started_at: now,
            ended_at: None,
            pid: None,
            output: String::new(),
            spill_path: Some(spill_path_for(cwd, id.as_str())),
            agent_id: None,
        };
        match kind {
            TaskKind::Command { pid } => {
                entry.pid = pid;
            },
            TaskKind::NotStarted { error } => {
                entry.status = TaskStatus::Exited(-1);
                entry.ended_at = Some(now);
                entry.output = cat("启动失败: ", error.as_str());
            },
            TaskKind::Agent { agent_id } => {
                entry.spill_path = None;
                entry.agent_id = Some(agent_id);
            },
        }
        proof {
            assert(entry@ =~= t);
        }
        self.tasks.push(entry);
        proof {
            assert(tasks_say(self.tasks@) =~= before.tasks.push(t));
            lemma_numbered_push(before, t);
        }
        id
    }

    /// Adds to the output of a task. Only its end stays at hand. A task that
    /// is not there is passed over.
    pub fn note_output(&mut self, id: &str, text: &str)
        ensures
            final(self)@ == with_output(old(self)@, id@, text@),
            numbered(old(self)@) ==> numbered(final(self)@),
    {
        let ghost before = self@;
        match find_task(self.tasks.as_slice(), id) {
            Some(i) => {
                let mut t = self.tasks[i].clone_entry();
                let mut v = chars_of(t.output.as_str());
                push_text(&mut v, text);
                t.output = string_of(fitting_end(v.as_slice(), MAX_TASK_OUTPUT));
                let ghost tv = t@;
                self.tasks.set(i, t);
                proof {
                    assert(before.tasks[i as int].output == old(self).tasks@[i as int].output@);
                    assert(tasks_say(self.tasks@) =~= before.tasks.update(i as int, tv));
                    if numbered(before) {
                        lemma_numbered_update(before, i as int, tv);
                    }
                }
            },
            None => {},
        }
    }

    /// Adds what a command has written to the output of its task.
    pub fn append_output(&mut self, id: &str, chunk: &[u8])
        ensures
            final(self)@ == with_output(old(self)@, id@, lossy_text(chunk@)),
            numbered(old(self)@) ==> numbered(final(self)@),
    {
        self.note_output(id, lossy_of(chunk).as_str());
    }

    /// Enters that a task has ended. A task that was stopped stays stopped.
    pub fn finish(&mut self, id: &str, code: i32, now: u64)
        ensures
            final(self)@ == with_end(old(self)@, id@, code, now),
            numbered(old(self)@) ==> numbered(final(self)@),
    {
        let ghost before = self@;
        match find_task(self.tasks.as_slice(), id) {
            Some(i) => {
                if self.tasks[i].status == TaskStatus::Running {
                    let mut t = self.tasks[i].clone_entry();
                    t.status = TaskStatus::Exited(code);
                    t.ended_at = Some(now);
                    let ghost tv = t@;
                    self.tasks.set(i, t);
                    proof {
                        assert(before.tasks[i as int] == old(self).tasks@[i as int]@);
                        assert(tasks_say(self.tasks@) =~= before.tasks.update(i as int, tv));
                    if numbered(before) {
                        lemma_numbered_update(before, i as int, tv);
                    }
                    }
                } else {
                    proof {
                        assert(before.tasks[i as int] == old(self).tasks@[i as int]@);
                    }
                }
            },
            None => {},
        }
    }

    /// Takes out a task, as one in the foreground that has ended.
    pub fn remove(&mut self, id: &str)
        ensures
            final(self)@ == (RegistryV {
                tasks: without_task(old(self)@.tasks, id@),
                ..old(self)@
            }),
            numbered(old(self)@) ==> numbered(final(self)@),
    {
        let ghost all = self@.tasks;
        let ghost start = self@;
        let mut out: Vec<TaskEntry> = Vec::new();
        proof {
            assert(tasks_say(out@) =~= Seq::<TaskEntryV>::empty());
        }
        for i in 0..self.tasks.len()
            invariant
                all == tasks_say(self.tasks@),
                self@.tasks == all,
                tasks_say(out@) == without_task(all.take(i as int), id@),
        {
            let ghost before = tasks_say(out@);
            proof {
                assert(all.take(i as int + 1).drop_last() =~= all.take(i as int));
                assert(all.take(i as int + 1).last() == self.tasks@[i as int]@);
            }
            if !str_eq(self.tasks[i].id.as_str(), id) {
                let t = self.tasks[i].clone_entry();
                out.push(t);
                proof {
                    assert(tasks_say(out@) =~= before.push(self.tasks@[i as int]@));
                }
            }
        }
        proof {
            assert(all.take(self.tasks@.len() as int) =~= all);
        }
        self.tasks = out;
        proof {
            if numbered(start) {
                lemma_numbered_without(start, id@);
            }
        }
    }

    /// Stops a task: it counts as stopped at once, so that its end does not
    /// change that. Gives the process to end; none where the task is an agent.
    pub fn stop(&mut self, id: &str, now: u64) -> (r: Result<Option<u32>, String>)
        ensures
            final(self)@ == with_stop(old(self)@, id@, now),
            numbered(old(self)@) ==> numbered(final(self)@),
            match r {
                Ok(pid) => stop_fault(old(self)@, id@) is None && ({
                    let t = old(self)@.tasks[task_at(old(self)@.tasks, id@, 0)->0];
                    pid == if t.agent_id is Some {
                        None
                    } else {
                        t.pid
                    }
                }),
                Err(e) => stop_fault(old(self)@, id@) == Some(e@),
            },
    {
        let ghost before = self@;
        match find_task(self.tasks.as_slice(), id) {
            Some(i) => {
                proof {
                    assert(before.tasks[i as int] == self.tasks@[i as int]@);
                }
                if self.tasks[i].status != TaskStatus::Running {
                    return Err(cat("任务已结束: ", id));
                }
                let mut t = self.tasks[i].clone_entry();
                t.status = TaskStatus::Killed;
                t.ended_at = Some(now);
                let pid: Option<u32> = if t.agent_id.is_some() {
                    None
                } else {
                    t.pid
                };
                let ghost tv = t@;
                self.tasks.set(i, t);
                proof {
                    assert(tasks_say(self.tasks@) =~= before.tasks.update(i as int, tv));
                    if numbered(before) {
                        lemma_numbered_update(before, i as int, tv);
                    }
                }
                Ok(pid)
            },
            None => Err(cat("任务不存在: ", id)),
        }
    }

    /// The running task of an agent.
    pub fn running_agent(&self, agent_id: &str) -> (r: Option<String>)
        ensures
            opt_text(r) == match running_at(self@.tasks, agent_id@, 0) {
                Some(i) => Some(self@.tasks[i].id),
                None => None,
            },
    {
        let ghost all = self@.tasks;
        for i in 0..self.tasks.len()
            invariant
                all == tasks_say(self.tasks@),
                running_at(all, agent_id@, 0) == running_at(all, agent_id@, i as int),
        {
            let t = &self.tasks[i];
            proof {
                assert(all[i as int] == t@);
            }
            let mine = match &t.agent_id {
                Some(a) => str_eq(a.as_str(), agent_id),
                None => false,
            };
            if mine && t.status == TaskStatus::Running {
                return Some(t.id.clone());
            }
        }
        None
    }
}

/// The first task, from `i` on, that runs an agent.
pub open spec fn running_at(v: Seq<TaskEntryV>, agent: Seq<char>, i: int) -> Option<int>
    decreases v.len() - i,
{
    if i < 0 || i >= v.len() {
        None
    } else if v[i].agent_id == Some(agent) && v[i].status == TaskStatus::Running {
        Some(i)
    } else {
        running_at(v, agent, i + 1)
    }
}

impl TaskEntry {
    fn clone_entry(&self) -> (r: TaskEntry)
        ensures
            r@ == self@,
    {
        TaskEntry {
            id: self.id.clone(),
            command: self.command.clone(),
            status: self.status,
            started_at: self.started_at,
            ended_at: self.ended_at,
            pid: self.pid,
            output: self.output.clone(),
            spill_path: crate::chars::copied_opt(&self.spill_path),
            agent_id: crate::chars::copied_opt(&self.agent_id),
        }
    }
}

/// What is said of a task that was stopped.
pub fn stopped_note(id: &str) -> (r: String)
    ensures
        r@ == "已停止任务 "@ + id@,
{
    cat("已停止任务 ", id)
}

/// How much of a chunk goes into the file of a task that holds `len` bytes
/// already, and whether it is said there that the rest is left out.
pub fn spill_part(len: u64, chunk: u64) -> (r: Option<(u64, bool)>)
    ensures
        match r {
            None => len >= MAX_SPILL_BYTES,
            Some((n, cut)) => len < MAX_SPILL_BYTES && cut == (len + chunk > MAX_SPILL_BYTES) && n
                == if cut {
                MAX_SPILL_BYTES - len
            } else {
                chunk as int
            },
        },
{
    if len >= MAX_SPILL_BYTES {
        return None;
    }
    let room: u64 = MAX_SPILL_BYTES - len;
    if chunk <= room {
        Some((chunk, false))
    } else {
        Some((room, true))
    }
}

/// What the file of a task says where the rest is left out.
pub const SPILL_CUT_NOTE: &'static str = "[输出超过 10MB，后续已丢弃]";

/// The output of a command in the foreground.
pub open spec fn whole_output(stdout: Seq<char>, stderr: Seq<char>) -> Seq<char> {
    if stderr.len() == 0 {
        stdout
    } else if stdout.len() == 0 {
        "[stderr]\n"@ + stderr
    } else {
        stdout + "\n"@ + "[stderr]\n"@ + stderr
    }
}

/// Puts the two outputs of a command together.
pub fn foreground_output(stdout: &str, stderr: &str) -> (r: String)
    ensures
        r@ == whole_output(stdout@, stderr@),
{
    let mut out = chars_of(stdout);
    if chars_of(stderr).len() > 0 {
        if out.len() > 0 {
            push_text(&mut out, "\n");
        }
        proof {
            if stdout@.len() == 0 {
                assert(stdout@ =~= Seq::<char>::empty());
                assert(Seq::<char>::empty() + "[stderr]\n"@ =~= "[stderr]\n"@);
            }
        }
        push_text(&mut out, "[stderr]\n");
        push_text(&mut out, stderr);
    }
    string_of(out.as_slice())
}

// ---------------------------------------------------------------------------
// Laws
// ---------------------------------------------------------------------------

proof fn lemma_decimal_apart(a: nat, b: nat)
    ensures
        decimal(a) == decimal(b) ==> a == b,
    decreases a + b,
{
    if decimal(a) == decimal(b) {
        if a < 10 && b < 10 {
            assert(decimal(a)[0] == digit_char(a));
            assert(decimal(b)[0] == digit_char(b));
            assert(digit_char(a) as u32 == 48 + a);
            assert(digit_char(b) as u32 == 48 + b);
        } else if a >= 10 && b >= 10 {
            let x = decimal(a);
            let y = decimal(b);
            assert(x.drop_last() =~= decimal(a / 10));
            assert(y.drop_last() =~= decimal(b / 10));
            assert(x.last() == digit_char(a % 10));
            assert(y.last() == digit_char(b % 10));
            lemma_decimal_apart(a / 10, b / 10);
            assert(digit_char(a % 10) as u32 == 48 + a % 10);
            assert(digit_char(b % 10) as u32 == 48 + b % 10);
            assert(a == 10 * (a / 10) + a % 10);
            assert(b == 10 * (b / 10) + b % 10);
        } else if a < 10 {
            lemma_decimal_len(b / 10);
            assert(decimal(a).len() == 1);
            assert(decimal(b).len() == decimal(b / 10).len() + 1);
        } else {
            lemma_decimal_len(a / 10);
            assert(decimal(b).len() == 1);
            assert(decimal(a).len() == decimal(a / 10).len() + 1);
        }
    }
}

proof fn lemma_decimal_len(n: nat)
    ensures
        decimal(n).len() >= 1,
    decreases n,
{
    if n >= 10 {
        lemma_decimal_len(n / 10);
    }
}

/// Tasks of different numbers have different names.
pub proof fn law_names_apart(a: u64, b: u64)
    requires
        task_name(a) == task_name(b),
    ensures
        a == b,
{
    assert(task_name(a).skip("b"@.len() as int) =~= decimal(a as nat));
    assert(task_name(b).skip("b"@.len() as int) =~= decimal(b as nat));
    lemma_decimal_apart(a as nat, b as nat);
}

proof fn lemma_numbered_push(r: RegistryV, t: TaskEntryV)
    requires
        numbered(r),
        r.seq < u64::MAX,
        t.id == task_name((r.seq + 1) as u64),
    ensures
        numbered(RegistryV { tasks: r.tasks.push(t), seq: (r.seq + 1) as u64 }),
{
    let next = (r.seq + 1) as u64;
    let now = RegistryV { tasks: r.tasks.push(t), seq: next };
    assert forall|i: int| 0 <= i < now.tasks.len() implies exists|n: u64|
        0 < n <= now.seq && (#[trigger] now.tasks[i]).id == #[trigger] task_name(n) by {
        if i < r.tasks.len() {
            assert(now.tasks[i] == r.tasks[i]);
            let n = choose|n: u64| 0 < n <= r.seq && r.tasks[i].id == #[trigger] task_name(n);
            assert(now.tasks[i].id == task_name(n));
        } else {
            assert(now.tasks[i].id == task_name(next));
        }
    }
    assert forall|i: int, j: int| 0 <= i < j < now.tasks.len() implies (#[trigger] now.tasks[i]).id
        != (#[trigger] now.tasks[j]).id by {
        assert(now.tasks[i] == r.tasks[i]);
        if j < r.tasks.len() {
            assert(now.tasks[j] == r.tasks[j]);
        } else {
            let n = choose|n: u64| 0 < n <= r.seq && r.tasks[i].id == #[trigger] task_name(n);
            if task_name(n) == task_name(next) {
                law_names_apart(n, next);
            }
        }
    }
}

proof fn lemma_numbered_update(r: RegistryV, i: int, t: TaskEntryV)
    requires
        numbered(r),
        0 <= i < r.tasks.len(),
        t.id == r.tasks[i].id,
    ensures
        numbered(RegistryV { tasks: r.tasks.update(i, t), ..r }),
{
    let now = RegistryV { tasks: r.tasks.update(i, t), ..r };
    assert forall|k: int| 0 <= k < now.tasks.len() implies exists|n: u64|
        0 < n <= now.seq && (#[trigger] now.tasks[k]).id == #[trigger] task_name(n) by {
        let n = choose|n: u64| 0 < n <= r.seq && r.tasks[k].id == #[trigger] task_name(n);
        assert(now.tasks[k].id == task_name(n));
    }
    assert forall|a: int, b: int| 0 <= a < b < now.tasks.len() implies (#[trigger] now.tasks[a]).id
        != (#[trigger] now.tasks[b]).id by {
        assert(r.tasks[a].id != r.tasks[b].id);
    }
}

proof fn lemma_without(v: Seq<TaskEntryV>, id: Seq<char>)
    ensures
        forall|k: int|
            0 <= k < without_task(v, id).len() ==> v.contains(#[trigger] without_task(v, id)[k]),
    decreases v.len(),
{
    if v.len() > 0 {
        let d = v.drop_last();
        lemma_without(d, id);
        assert forall|k: int| 0 <= k < without_task(v, id).len() implies v.contains(
            #[trigger] without_task(v, id)[k],
        ) by {
            if k < without_task(d, id).len() {
                let x = without_task(d, id)[k];
                let i = choose|i: int| 0 <= i < d.len() && d[i] == x;
                assert(v[i] == x);
            } else {
                assert(v[v.len() - 1] == v.last());
            }
        }
    }
}

proof fn lemma_without_apart(v: Seq<TaskEntryV>, id: Seq<char>)
    requires
        forall|a: int, b: int| 0 <= a < b < v.len() ==> (#[trigger] v[a]).id != (#[trigger] v[b]).id,
    ensures
        ({
            let w = without_task(v, id);
            forall|a: int, b: int|
                0 <= a < b < w.len() ==> (#[trigger] w[a]).id != (#[trigger] w[b]).id
        }),
    decreases v.len(),
{
    if v.len() > 0 {
        let d = v.drop_last();
        lemma_without_apart(d, id);
        lemma_without(d, id);
        let w = without_task(v, id);
        let wd = without_task(d, id);
        assert forall|a: int, b: int| 0 <= a < b < w.len() implies (#[trigger] w[a]).id != (
        #[trigger] w[b]).id by {
            assert(w[a] == wd[a]);
            if b < wd.len() {
                assert(w[b] == wd[b]);
            } else {
                let i = choose|i: int| 0 <= i < d.len() && d[i] == wd[a];
                assert(v[i].id != v[v.len() - 1].id);
            }
        }
    }
}

proof fn lemma_numbered_without(r: RegistryV, id: Seq<char>)
    requires
        numbered(r),
    ensures
        numbered(RegistryV { tasks: without_task(r.tasks, id), ..r }),
{
    let now = RegistryV { tasks: without_task(r.tasks, id), ..r };
    lemma_without(r.tasks, id);
    lemma_without_apart(r.tasks, id);
    assert forall|k: int| 0 <= k < now.tasks.len() implies exists|n: u64|
        0 < n <= now.seq && (#[trigger] now.tasks[k]).id == #[trigger] task_name(n) by {
        let i = choose|i: int| 0 <= i < r.tasks.len() && r.tasks[i] == now.tasks[k];
        let n = choose|n: u64| 0 < n <= r.seq && r.tasks[i].id == #[trigger] task_name(n);
        assert(now.tasks[k].id == task_name(n));
    }
}

/// A task that was stopped stays stopped, however it ends.
pub proof fn law_stopped_stays_stopped(r: RegistryV, id: Seq<char>, t1: u64, code: i32, t2: u64)
    requires
        stop_fault(r, id) is None,
    ensures
        with_end(with_stop(r, id, t1), id, code, t2) == with_stop(r, id, t1),
        with_stop(r, id, t1).tasks[task_at(r.tasks, id, 0)->0].status == TaskStatus::Killed,
{
    lemma_task_at(r.tasks, id, 0);
    let i = task_at(r.tasks, id, 0)->0;
    let t = r.tasks[i];
    lemma_task_at_update(
        r.tasks,
        id,
        i,
        TaskEntryV { status: TaskStatus::Killed, ended_at: Some(t1), ..t },
        0,
    );
}

proof fn lemma_task_at(v: Seq<TaskEntryV>, id: Seq<char>, from: int)
    requires
        0 <= from,
    ensures
        match task_at(v, id, from) {
            Some(i) => from <= i < v.len() && v[i].id == id && (forall|k: int|
                from <= k < i ==> (#[trigger] v[k]).id != id),
            None => true,
        },
    decreases v.len() - from,
{
    if from < v.len() && v[from].id != id {
        lemma_task_at(v, id, from + 1);
    }
}

proof fn lemma_task_at_update(v: Seq<TaskEntryV>, id: Seq<char>, i: int, t: TaskEntryV, from: int)
    requires
        0 <= from <= i < v.len(),
        task_at(v, id, from) == Some(i),
        t.id == v[i].id,
    ensures
        task_at(v.update(i, t), id, from) == Some(i),
    decreases v.len() - from,
{
    lemma_task_at(v, id, from);
    if from < i {
        lemma_task_at_update(v, id, i, t, from + 1);
    }
}

/// More output of a task is put behind what has come: all of it is at hand
/// while there is room, and else the end of it. No other task changes, and
/// nothing else of this one.
pub proof fn law_output_is_appended(r: RegistryV, i: int, more: Seq<char>)
    requires
        numbered(r),
        0 <= i < r.tasks.len(),
    ensures
        ({
            let now = with_output(r, r.tasks[i].id, more);
            let all = r.tasks[i].output + more;
            let kept = now.tasks[i].output;
            &&& now.seq == r.seq
            &&& now.tasks.len() == r.tasks.len()
            &&& forall|j: int| 0 <= j < r.tasks.len() && j != i ==> now.tasks[j] == r.tasks[j]
            &&& now.tasks[i] == (TaskEntryV { output: kept, ..r.tasks[i] })
            &&& crate::chars::byte_len(all) <= 65536 ==> kept == all
            &&& kept.len() <= all.len() && kept == all.skip(all.len() - kept.len())
        }),
{
    lemma_task_place(r, i, 0);
    lemma_fit_end_is_end(r.tasks[i].output + more, MAX_TASK_OUTPUT as nat);
}

proof fn lemma_fit_end_is_end(s: Seq<char>, n: nat)
    ensures
        crate::chars::fit_end(s, n).len() <= s.len(),
        crate::chars::fit_end(s, n) == s.skip(s.len() - crate::chars::fit_end(s, n).len()),
    decreases s.len(),
{
    assert(s.skip(0) =~= s);
    if s.len() > 0 && crate::chars::byte_len(s) > n {
        lemma_fit_end_is_end(s.skip(1), n);
        let t = crate::chars::fit_end(s.skip(1), n);
        assert(s.skip(1).skip(s.len() - 1 - t.len()) =~= s.skip(s.len() - t.len()));
    }
}

proof fn lemma_task_place(r: RegistryV, i: int, from: int)
    requires
        numbered(r),
        0 <= from <= i < r.tasks.len(),
    ensures
        task_at(r.tasks, r.tasks[i].id, from) == Some(i),
    decreases i - from,
{
    if from < i {
        assert(r.tasks[from].id != r.tasks[i].id);
        lemma_task_place(r, i, from + 1);
    }
}

/// A running task that ends has the code that it ended with and the time of its
/// end, one that is stopped is marked as stopped with the time, and a task that
/// is over changes no more. No other task changes, and no output is lost.
pub proof fn law_task_ends_once(r: RegistryV, i: int, code: i32, now: u64)
    requires
        numbered(r),
        0 <= i < r.tasks.len(),
    ensures
        ({
            let t = r.tasks[i];
            let ended = with_end(r, t.id, code, now);
            let stopped = with_stop(r, t.id, now);
            &&& t.status == TaskStatus::Running ==> ended.tasks == r.tasks.update(
                i,
                TaskEntryV { status: TaskStatus::Exited(code), ended_at: Some(now), ..t },
            ) && stopped.tasks == r.tasks.update(
                i,
                TaskEntryV { status: TaskStatus::Killed, ended_at: Some(now), ..t },
            ) && stop_fault(r, t.id) is None
            &&& t.status != TaskStatus::Running ==> ended == r && stopped == r && stop_fault(
                r,
                t.id,
            ) is Some
            &&& ended.seq == r.seq && stopped.seq == r.seq
        }),
{
    lemma_task_place(r, i, 0);
}

/// Taking a task out of the list leaves all others, in their order.
pub proof fn law_other_tasks_stay(v: Seq<TaskEntryV>, id: Seq<char>)
    ensures
        without_task(v, id) == v.filter(|t: TaskEntryV| t.id != id),
    decreases v.len(),
{
    reveal(Seq::filter);
    if v.len() > 0 {
        law_other_tasks_stay(v.drop_last(), id);
    }
}

/// A command that was started is a running task with its own name, command,
/// time and process and no output yet; one that could not be started is over at
/// once and tells why.
pub proof fn law_new_task_begins(
    id: Seq<char>,
    command: Seq<char>,
    cwd: Seq<char>,
    pid: Option<u32>,
    error: String,
    agent_id: String,
    now: u64,
)
    ensures
        ({
            let t = new_task(id, command, cwd, TaskKind::Command { pid }, now);
            t.id == id && t.command == command && t.status == TaskStatus::Running && t.started_at
                == now && t.ended_at is None && t.pid == pid && t.output.len() == 0 && t.agent_id
                is None
        }),
        ({
            let t = new_task(id, command, cwd, TaskKind::NotStarted { error }, now);
            t.id == id && t.command == command && t.status != TaskStatus::Running && t.ended_at
                == Some(now)
        }),
        ({
            let t = new_task(id, command, cwd, TaskKind::Agent { agent_id }, now);
            t.id == id && t.status == TaskStatus::Running && t.agent_id == Some(agent_id@)
        }),
{
}

} // verus!
