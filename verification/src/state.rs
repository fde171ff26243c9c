//! What the tools of a session share, and what a call of one leaves behind.

use crate::chars::{cat, str_eq, text_from};
use crate::files::{FsAccess, ReadState};
use crate::media::{ToolImage, ToolImageV};
use crate::protocol::{opt_edit_diff, todo_items_say, EditDiff, EditDiffV, TodoItem, TodoItemV};
use crate::task::{numbered, RegistryV, TaskRegistry};
use crate::tracker::{entry, entry_from, slot_from, with_entry};
use vstd::prelude::*;

verus! {

// ---------------------------------------------------------------------------
// Shared state
// ---------------------------------------------------------------------------

/// What a list of states says.
pub open spec fn states_say(v: Seq<(String, ReadState)>) -> Seq<(Seq<char>, ReadState)> {
    v.map_values(|p: (String, ReadState)| (p.0@, p.1))
}

/// What the tools of a session share.
#[derive(Debug)]
pub struct SessionToolState {
    pub session_id: String,
    pub todos: Vec<TodoItem>,
    pub tasks: TaskRegistry,
    /// What files were like when the model saw them.
    pub read_states: Vec<(String, ReadState)>,
    /// Whether files outside the workspace may be read.
    pub fs_read_outside: bool,
    /// Whether files outside the workspace may be written.
    pub fs_write_outside: bool,
}

/// What a `SessionToolState` says.
#[verifier::ext_equal]
pub struct ToolStateV {
    pub session_id: Seq<char>,
    pub todos: Seq<TodoItemV>,
    pub tasks: RegistryV,
    pub read_states: Seq<(Seq<char>, ReadState)>,
    pub fs_read_outside: bool,
    pub fs_write_outside: bool,
}

impl View for SessionToolState {
    type V = ToolStateV;

    open spec fn view(&self) -> ToolStateV {
        ToolStateV {
            session_id: self.session_id@,
            todos: todo_items_say(self.todos@),
            tasks: self.tasks@,
            read_states: states_say(self.read_states@),
            fs_read_outside: self.fs_read_outside,
            fs_write_outside: self.fs_write_outside,
        }
    }
}

/// The state of a session in which nothing has happened.
pub open spec fn fresh_state(session_id: Seq<char>) -> ToolStateV {
    ToolStateV {
        session_id,
        todos: Seq::empty(),
        tasks: RegistryV { tasks: Seq::empty(), seq: 0 },
        read_states: Seq::empty(),
        fs_read_outside: false,
        fs_write_outside: false,
    }
}

impl SessionToolState {
    /// The state of a new session.
    pub fn new(session_id: String) -> (r: Self)
        ensures
            r@ == fresh_state(session_id@),
            numbered(r@.tasks),
    {
        let r = SessionToolState {
            session_id,
            todos: Vec::new(),
            tasks: TaskRegistry::new(),
            read_states: Vec::new(),
            fs_read_outside: false,
            fs_write_outside: false,
        };
        proof {
            assert(r@.todos =~= Seq::<TodoItemV>::empty());
            assert(r@.read_states =~= Seq::<(Seq<char>, ReadState)>::empty());
        }
        r
    }

    /// A state to try tools with.
    pub fn for_test() -> (r: Self)
        ensures
            r@ == fresh_state("test"@),
            numbered(r@.tasks),
    {
        SessionToolState::new(text_from("test"))
    }

    /// What a file was like when the model last saw it, if it did.
    pub fn read_state(&self, path: &str) -> (r: Option<ReadState>)
        ensures
            r == entry(self@.read_states, path@),
    {
        let ghost all = states_say(self.read_states@);
        let mut i: usize = 0;
        while i < self.read_states.len()
            invariant
                all == states_say(self.read_states@),
                i <= self.read_states@.len(),
                entry(all, path@) == entry_from(all, path@, i as int),
            decreases self.read_states@.len() - i,
        {
            if str_eq(self.read_states[i].0.as_str(), path) {
                return Some(self.read_states[i].1);
            }
            i = i + 1;
        }
        None
    }

    /// Notes what a file is like now that the model has seen or written it.
    pub fn note_read(&mut self, path: &str, state: ReadState)
        ensures
            final(self)@ == (ToolStateV {
                read_states: with_entry(old(self)@.read_states, path@, state),
                ..old(self)@
            }),
    {
        let ghost before = self@;
        let ghost all = states_say(self.read_states@);
        let mut i: usize = 0;
        while i < self.read_states.len()
            invariant
                all == states_say(self.read_states@),
                self@ == before,
                *self == *old(self),
                i <= self.read_states@.len(),
                slot_from(all, path@, 0) == slot_from(all, path@, i as int),
            decreases self.read_states@.len() - i,
        {
            if str_eq(self.read_states[i].0.as_str(), path) {
                self.read_states[i].1 = state;
                proof {
                    assert(states_say(self.read_states@) =~= all.update(i as int, (path@, state)));
                }
                return;
            }
            i = i + 1;
        }
        self.read_states.push((text_from(path), state));
        proof {
            assert(states_say(self.read_states@) =~= all.push((path@, state)));
        }
    }

    /// Whether the session allows an access outside the workspace.
    pub fn allows(&self, access: FsAccess) -> (r: bool)
        ensures
            r == match access {
                FsAccess::Read => self@.fs_read_outside,
                FsAccess::Write => self@.fs_write_outside,
            },
    {
        match access {
            FsAccess::Read => self.fs_read_outside,
            FsAccess::Write => self.fs_write_outside,
        }
    }
}

// ---------------------------------------------------------------------------
// What a call leaves behind
// ---------------------------------------------------------------------------

/// What a list of pictures says.
pub open spec fn pictures_say(v: Seq<ToolImage>) -> Seq<ToolImageV> {
    v.map_values(|i: ToolImage| i@)
}

/// What a tool did.
#[derive(Debug)]
pub struct ToolEffect {
    pub output: String,
    /// The change of a file since the session began.
    pub file_change: Option<EditDiff>,
    /// The change that this call made.
    pub edit_diff: Option<EditDiff>,
    pub images: Vec<ToolImage>,
}

/// What a `ToolEffect` says.
#[verifier::ext_equal]
pub struct ToolEffectV {
    pub output: Seq<char>,
    pub file_change: Option<EditDiffV>,
    pub edit_diff: Option<EditDiffV>,
    pub images: Seq<ToolImageV>,
}

impl View for ToolEffect {
    type V = ToolEffectV;

    open spec fn view(&self) -> ToolEffectV {
        ToolEffectV {
            output: self.output@,
            file_change: opt_edit_diff(self.file_change),
            edit_diff: opt_edit_diff(self.edit_diff),
            images: pictures_say(self.images@),
        }
    }
}

impl ToolEffect {
    /// What a tool did that only reports something.
    pub fn plain(output: String) -> (r: Self)
        ensures
            r@ == (ToolEffectV {
                output: output@,
                file_change: None,
                edit_diff: None,
                images: Seq::empty(),
            }),
    {
        let r = ToolEffect { output, file_change: None, edit_diff: None, images: Vec::new() };
        proof {
            assert(r@.images =~= Seq::<ToolImageV>::empty());
        }
        r
    }
}

/// What the model is told of a call, whether that is an error, and what the
/// call left behind.
pub open spec fn call_outcome(
    name: Seq<char>,
    known: bool,
    result: Result<ToolEffectV, Seq<char>>,
) -> (ToolEffectV, bool) {
    let failed = |text: Seq<char>|
        (
            ToolEffectV {
                output: text,
                file_change: None,
                edit_diff: None,
                images: Seq::empty(),
            },
            true,
        );
    if !known {
        failed("未知工具: "@ + name)
    } else {
        match result {
            Ok(e) => (e, false),
            Err(text) => failed(text),
        }
    }
}

/// What a result says.
pub open spec fn result_says(r: Result<ToolEffect, String>) -> Result<ToolEffectV, Seq<char>> {
    match r {
        Ok(e) => Ok(e@),
        Err(t) => Err(t@),
    }
}

/// Settles a call of the tool `name`. `known` says whether there is such a
/// tool, and `result` is what it did.
pub fn settle_call(name: &str, known: bool, result: Result<ToolEffect, String>) -> (r: (
    ToolEffect,
    bool,
))
    ensures
        (r.0@, r.1) == call_outcome(name@, known, result_says(result)),
{
    if !known {
        return (ToolEffect::plain(cat("未知工具: ", name)), true);
    }
    match result {
        Ok(e) => (e, false),
        Err(text) => (ToolEffect::plain(text), true),
    }
}

// ---------------------------------------------------------------------------
// Laws
// ---------------------------------------------------------------------------

proof fn lemma_entry_with(
    v: Seq<(Seq<char>, ReadState)>,
    key: Seq<char>,
    x: ReadState,
    other: Seq<char>,
    i: int,
)
    requires
        0 <= i <= v.len(),
        i <= slot_from(v, key, 0) <= v.len(),
        slot_from(v, key, 0) < v.len() ==> v[slot_from(v, key, 0)].0 == key,
        forall|j: int| 0 <= j < slot_from(v, key, 0) ==> (#[trigger] v[j]).0 != key,
    ensures
        entry_from(with_entry(v, key, x), key, i) == Some(x),
    decreases slot_from(v, key, 0) - i,
{
    let k = slot_from(v, key, 0);
    let w = with_entry(v, key, x);
    if i < k {
        assert(w[i].0 == v[i].0);
        lemma_entry_with(v, key, x, other, i + 1);
    } else {
        assert(w[k] == (key, x));
    }
}

proof fn lemma_slot(v: Seq<(Seq<char>, ReadState)>, key: Seq<char>, i: int)
    requires
        0 <= i <= v.len(),
    ensures
        i <= slot_from(v, key, i) <= v.len(),
        slot_from(v, key, i) < v.len() ==> v[slot_from(v, key, i)].0 == key,
        forall|j: int| i <= j < slot_from(v, key, i) ==> (#[trigger] v[j]).0 != key,
    decreases v.len() - i,
{
    if i < v.len() && v[i].0 != key {
        lemma_slot(v, key, i + 1);
    }
}

/// What was noted of a file last is what is found of it.
pub proof fn law_last_note_counts(v: Seq<(Seq<char>, ReadState)>, path: Seq<char>, x: ReadState)
    ensures
        entry(with_entry(v, path, x), path) == Some(x),
{
    lemma_slot(v, path, 0);
    lemma_entry_with(v, path, x, path, 0);
}

/// A call that fails leaves nothing behind but its message.
pub proof fn law_failure_leaves_nothing(
    name: Seq<char>,
    known: bool,
    result: Result<ToolEffectV, Seq<char>>,
)
    requires
        call_outcome(name, known, result).1,
    ensures
        call_outcome(name, known, result).0.file_change is None,
        call_outcome(name, known, result).0.edit_diff is None,
        call_outcome(name, known, result).0.images.len() == 0,
{
}

/// What a tool that ran says is what the model is told, and so is what it left
/// behind; a tool that is not known or that failed tells its fault as an error.
pub proof fn law_result_is_what_the_tool_said(
    name: Seq<char>,
    e: ToolEffectV,
    fault: Seq<char>,
    result: Result<ToolEffectV, Seq<char>>,
)
    ensures
        call_outcome(name, true, Ok(e)) == (e, false),
        ({
            let (t, bad) = call_outcome(name, true, Err(fault));
            bad && t.output == fault && t.file_change is None && t.edit_diff is None
                && t.images.len() == 0
        }),
        ({
            let (t, bad) = call_outcome(name, false, result);
            bad && t.output == "未知工具: "@ + name && t.file_change is None && t.images.len() == 0
        }),
{
}

} // verus!
