//! Showing a session again that is opened anew: its record, event by event,
//! and then what is kept beside it.

use crate::chars::{cat, copied_strings, decimal, number_text};
use crate::diff::{fallback_edit_diff, told_change};
use crate::protocol::{
    copied_edit_diffs, copied_todo_items, edit_diffs_say, todo_items_say, EditDiff, EditDiffV,
    Event, EventV, TodoItem, TodoItemV, TurnUsageStats,
};
use crate::provider::{CallV, ToolCall};
use crate::rollout::{
    image_refs_say, rollout_records_say, shown_user_text, user_display_text, RolloutRecord,
    RolloutRecordV,
};
use crate::session::{show_arguments, shown_arguments, Session, SessionV};
use crate::stream::{wrap_sum, wrapped};
use crate::tool::{summarize, summary_of};
use vstd::prelude::*;

verus! {

/// What a list of events says.
pub open spec fn shows(v: Seq<Event>) -> Seq<EventV> {
    v.map_values(|e: Event| e@)
}

/// A record that is being shown again.
#[verifier::ext_equal]
pub struct ReplayV {
    pub events: Seq<EventV>,
    /// How many events the session had shown before.
    pub earlier: u64,
    /// Whether the assistant is speaking.
    pub speaking: bool,
    /// How many turns there were.
    pub turns: u64,
    pub input_total: u64,
    pub cache_read_total: u64,
    pub last_total_tokens: Option<u64>,
}

/// The name of a turn of the record.
pub open spec fn replay_name(turns: u64) -> Seq<char> {
    "replay-"@ + decimal(turns as nat)
}

/// A new turn begins where the assistant was not speaking.
pub open spec fn opened(st: ReplayV) -> ReplayV {
    if st.speaking {
        st
    } else {
        let turns = wrapped(st.turns, 1);
        ReplayV {
            events: st.events.push(EventV::TurnStarted { turn_id: replay_name(turns) }),
            speaking: true,
            turns,
            ..st
        }
    }
}

/// The name of a part of a turn: by how many events the session showed before
/// it.
pub open spec fn replay_item(st: ReplayV, what: Seq<char>) -> Seq<char> {
    replay_name(st.turns) + what + decimal(
        wrapped(st.earlier, st.events.len() as u64) as nat,
    )
}

/// Where a record is from: the workspace, and its real path.
#[verifier::ext_equal]
pub struct PlaceV {
    pub cwd: Seq<char>,
    pub root: Seq<char>,
}

/// The change that a call of the record made: the one that the record holds,
/// else what the arguments tell of, but never of a call that failed.
pub open spec fn replay_edit(
    place: PlaceV,
    tool: Seq<char>,
    arguments: Seq<char>,
    is_error: bool,
    edit: Option<EditDiffV>,
) -> Option<EditDiffV> {
    if edit is Some || is_error {
        edit
    } else {
        told_change(place.cwd, place.root, tool, arguments)
    }
}

/// A record after one more unit.
pub open spec fn replay_step(st: ReplayV, place: PlaceV, record: RolloutRecordV) -> ReplayV {
    match record {
        RolloutRecordV::Meta { .. } => st,
        RolloutRecordV::Compact { .. } => st,
        RolloutRecordV::User { text, files, images } => ReplayV {
            speaking: false,
            events: st.events.push(
                EventV::UserMessage {
                    text: shown_user_text(text, images),
                    files,
                    image_count: images.len() as usize,
                },
            ),
            ..st
        },
        RolloutRecordV::Reasoning { text } => {
            let o = opened(st);
            ReplayV {
                events: o.events.push(
                    EventV::ReasoningDelta {
                        item_id: replay_name(o.turns) + "-reason"@,
                        delta: text,
                    },
                ),
                ..o
            }
        },
        RolloutRecordV::Text { text } => {
            let o = opened(st);
            ReplayV {
                events: o.events.push(
                    EventV::TextDone { item_id: replay_item(o, "-text-"@), full_text: text },
                ),
                ..o
            }
        },
        RolloutRecordV::ToolCall { tool, summary: _, arguments, output, is_error, edit } => {
            let o = opened(st);
            let item_id = replay_item(o, "-tool-"@);
            ReplayV {
                events: o.events.push(
                    EventV::ToolCallBegin {
                        item_id,
                        tool,
                        input_summary: summary_of(
                            CallV { id: Seq::empty(), name: tool, arguments },
                        ),
                        detail: shown_arguments(arguments),
                    },
                ).push(
                    EventV::ToolCallEnd {
                        item_id,
                        output,
                        is_error,
                        edit: replay_edit(place, tool, arguments, is_error, edit),
                    },
                ),
                ..o
            }
        },
        RolloutRecordV::TurnStats {
            input,
            cache_read,
            output,
            duration_ms,
            api_ms,
            ttft_ms,
            api_steps,
        } => ReplayV {
            input_total: wrapped(st.input_total, input),
            cache_read_total: wrapped(st.cache_read_total, cache_read),
            events: st.events.push(
                EventV::TurnComplete {
                    duration_ms: 0,
                    stats: Some(
                        TurnUsageStats {
                            input,
                            cache_read,
                            output,
                            duration_ms,
                            api_ms,
                            ttft_ms,
                            api_steps,
                        },
                    ),
                },
            ),
            ..st
        },
        RolloutRecordV::TurnChanges { files } => ReplayV {
            events: st.events.push(EventV::TurnFileChanges { files }),
            ..st
        },
        RolloutRecordV::StepUsage { input: _, cache_read: _, output: _, used } => ReplayV {
            last_total_tokens: Some(used),
            ..st
        },
    }
}

/// A record after all its units.
pub open spec fn replayed(start: ReplayV, place: PlaceV, records: Seq<RolloutRecordV>) -> ReplayV
    decreases records.len(),
{
    if records.len() == 0 {
        start
    } else {
        replay_step(
            replayed(start, place, records.drop_last()),
            place,
            records.last(),
        )
    }
}

/// A session of whose record nothing has been shown; `earlier` is how many
/// events it showed before.
pub open spec fn unshown(s: SessionV, earlier: u64) -> ReplayV {
    ReplayV {
        events: Seq::empty(),
        earlier,
        speaking: false,
        turns: 0,
        input_total: s.input_total,
        cache_read_total: s.cache_read_total,
        last_total_tokens: s.last_total_tokens,
    }
}

/// The events of the changes that are kept.
pub open spec fn kept_changes(v: Seq<EditDiffV>) -> Seq<EventV> {
    v.map_values(
        |c: EditDiffV|
            EventV::FileChanged {
                path: c.path,
                unified_diff: c.unified_diff,
                additions: c.additions,
                deletions: c.deletions,
            },
    )
}

/// Everything that is shown of a session that is opened anew: its record, the
/// to-do list, the changes of files, and the end of a turn that is open.
pub open spec fn replay_events(
    st: ReplayV,
    todos: Option<Seq<TodoItemV>>,
    changes: Seq<EditDiffV>,
) -> Seq<EventV> {
    let listed = match todos {
        Some(items) => st.events.push(EventV::TodoListChanged { items }),
        None => st.events,
    };
    let changed = listed + kept_changes(changes);
    if st.speaking {
        changed.push(EventV::TurnComplete { duration_ms: 0, stats: None })
    } else {
        changed
    }
}

/// A session after its record was shown again.
pub open spec fn replay_session(s: SessionV, st: ReplayV, todos: Option<Seq<TodoItemV>>) -> SessionV {
    SessionV {
        input_total: st.input_total,
        cache_read_total: st.cache_read_total,
        last_total_tokens: st.last_total_tokens,
        todos: match todos {
            Some(items) => items,
            None => s.todos,
        },
        ..s
    }
}

fn add_event(out: &mut Vec<Event>, e: Event)
    ensures
        shows(final(out)@) == shows(old(out)@).push(e@),
{
    let ghost before = shows(out@);
    let ghost v = e@;
    out.push(e);
    proof {
        assert(shows(out@) =~= before.push(v));
    }
}

struct Replay {
    events: Vec<Event>,
    earlier: u64,
    speaking: bool,
    turns: u64,
    input_total: u64,
    cache_read_total: u64,
    last_total_tokens: Option<u64>,
}

impl View for Replay {
    type V = ReplayV;

    closed spec fn view(&self) -> ReplayV {
        ReplayV {
            events: shows(self.events@),
            earlier: self.earlier,
            speaking: self.speaking,
            turns: self.turns,
            input_total: self.input_total,
            cache_read_total: self.cache_read_total,
            last_total_tokens: self.last_total_tokens,
        }
    }
}

impl Replay {
    fn open(&mut self)
        ensures
            final(self)@ == opened(old(self)@),
    {
        if !self.speaking {
            self.turns = wrap_sum(self.turns, 1);
            let turn_id = cat("replay-", number_text(self.turns).as_str());
            add_event(&mut self.events, Event::TurnStarted { turn_id });
            self.speaking = true;
        }
    }

    fn item(&self, what: &str) -> (r: String)
        ensures
            r@ == replay_item(self@, what@),
    {
        proof {
            assert(shows(self.events@).len() == self.events@.len());
        }
        let turn = cat("replay-", number_text(self.turns).as_str());
        let head = cat(turn.as_str(), what);
        let n: u64 = wrap_sum(self.earlier, self.events.len() as u64);
        cat(head.as_str(), number_text(n).as_str())
    }

    fn take(&mut self, cwd: &str, root: &str, record: &RolloutRecord)
        ensures
            final(self)@ == replay_step(
                old(self)@,
                (PlaceV { cwd: cwd@, root: root@ }),
                record@,
            ),
    {
        match record {
            RolloutRecord::Meta { .. } => {},
            RolloutRecord::Compact { .. } => {},
            RolloutRecord::User { text, files, images } => {
                self.speaking = false;
                proof {
                    assert(image_refs_say(images@).len() == images@.len());
                }
                add_event(
                    &mut self.events,
                    Event::UserMessage {
                        text: user_display_text(text.as_str(), images.as_slice()),
                        files: copied_strings(files.as_slice()),
                        image_count: images.len(),
                    },
                );
            },
            RolloutRecord::Reasoning { text } => {
                self.open();
                let turn = cat("replay-", number_text(self.turns).as_str());
                add_event(
                    &mut self.events,
                    Event::ReasoningDelta {
                        item_id: cat(turn.as_str(), "-reason"),
                        delta: text.clone(),
                    },
                );
            },
            RolloutRecord::Text { text } => {
                self.open();
                let item_id = self.item("-text-");
                add_event(
                    &mut self.events,
                    Event::TextDone { item_id, full_text: text.clone() },
                );
            },
            RolloutRecord::ToolCall { tool, summary: _, arguments, output, is_error, edit } => {
                self.open();
                let item_id = self.item("-tool-");
                let call = ToolCall {
                    id: String::new(),
                    name: tool.clone(),
                    arguments: arguments.clone(),
                };
                proof {
                    assert(call@.id =~= Seq::<char>::empty());
                }
                let change = match edit {
                    Some(e) => Some(e.copy()),
                    None => if *is_error {
                        None
                    } else {
                        fallback_edit_diff(cwd, root, tool.as_str(), arguments.as_str())
                    },
                };
                add_event(
                    &mut self.events,
                    Event::ToolCallBegin {
                        item_id: item_id.clone(),
                        tool: tool.clone(),
                        input_summary: summarize(&call),
                        detail: show_arguments(arguments.as_str()),
                    },
                );
                add_event(
                    &mut self.events,
                    Event::ToolCallEnd {
                        item_id,
                        output: output.clone(),
                        is_error: *is_error,
                        edit: change,
                    },
                );
            },
            RolloutRecord::TurnStats {
                input,
                cache_read,
                output,
                duration_ms,
                api_ms,
                ttft_ms,
                api_steps,
            } => {
                self.input_total = wrap_sum(self.input_total, *input);
                self.cache_read_total = wrap_sum(self.cache_read_total, *cache_read);
                add_event(
                    &mut self.events,
                    Event::TurnComplete {
                        duration_ms: 0,
                        stats: Some(
                            TurnUsageStats {
                                input: *input,
                                cache_read: *cache_read,
                                output: *output,
                                duration_ms: *duration_ms,
                                api_ms: *api_ms,
                                ttft_ms: *ttft_ms,
                                api_steps: *api_steps,
                            },
                        ),
                    },
                );
            },
            RolloutRecord::TurnChanges { files } => {
                add_event(
                    &mut self.events,
                    Event::TurnFileChanges { files: copied_edit_diffs(files.as_slice()) },
                );
            },
            RolloutRecord::StepUsage { input: _, cache_read: _, output: _, used } => {
                self.last_total_tokens = Some(*used);
            },
        }
    }
}

/// What an optional to-do list says.
pub open spec fn opt_todos(v: Option<Vec<TodoItem>>) -> Option<Seq<TodoItemV>> {
    match v {
        Some(items) => Some(todo_items_say(items@)),
        None => None,
    }
}

impl Session {
    /// Shows a session again whose record was just read: what it said and did,
    /// then the to-do list and the changes of files that are kept beside the
    /// record. The totals and the last count of tokens come back too. `root`
    /// is the real path of the workspace, and `earlier` is how many events the
    /// session has shown.
    pub fn replay(
        &mut self,
        earlier: u64,
        records: &[RolloutRecord],
        root: &str,
        todos: &Option<Vec<TodoItem>>,
        changes: &[EditDiff],
    ) -> (r: Vec<Event>)
        ensures
            ({
                let place = PlaceV { cwd: old(self)@.cwd, root: root@ };
                let st = replayed(
                    unshown(old(self)@, earlier),
                    place,
                    rollout_records_say(records@),
                );
                &&& shows(r@) == replay_events(st, opt_todos(*todos), edit_diffs_say(changes@))
                &&& final(self)@ == replay_session(old(self)@, st, opt_todos(*todos))
            }),
    {
        let ghost all = rollout_records_say(records@);
        let ghost s0 = self@;
        let mut st = Replay {
            events: Vec::new(),
            earlier,
            speaking: false,
            turns: 0,
            input_total: self.input_total,
            cache_read_total: self.cache_read_total,
            last_total_tokens: self.last_total_tokens,
        };
        let ghost place = PlaceV { cwd: self@.cwd, root: root@ };
        proof {
            assert(shows(st.events@) =~= Seq::<EventV>::empty());
        }
        for i in 0..records.len()
            invariant
                all == rollout_records_say(records@),
                s0 == self@,
                place == (PlaceV { cwd: self@.cwd, root: root@ }),
                st@ == replayed(unshown(s0, earlier), place, all.take(i as int)),
        {
            proof {
                assert(all.take(i as int + 1).drop_last() =~= all.take(i as int));
                assert(all.take(i as int + 1).last() == records@[i as int]@);
            }
            st.take(self.cwd.as_str(), root, &records[i]);
        }
        proof {
            assert(all.take(records@.len() as int) =~= all);
        }
        let ghost done = st@;
        self.input_total = st.input_total;
        self.cache_read_total = st.cache_read_total;
        self.last_total_tokens = st.last_total_tokens;
        let speaking = st.speaking;
        let mut out = st.events;
        match todos {
            Some(items) => {
                self.todos = copied_todo_items(items.as_slice());
                add_event(
                    &mut out,
                    Event::TodoListChanged { items: copied_todo_items(items.as_slice()) },
                );
            },
            None => {},
        }
        let ghost listed = shows(out@);
        let ghost cv = edit_diffs_say(changes@);
        proof {
            assert(listed + kept_changes(cv.take(0)) =~= listed);
        }
        for i in 0..changes.len()
            invariant
                cv == edit_diffs_say(changes@),
                shows(out@) == listed + kept_changes(cv.take(i as int)),
        {
            add_event(
                &mut out,
                Event::FileChanged {
                    path: changes[i].path.clone(),
                    unified_diff: changes[i].unified_diff.clone(),
                    additions: changes[i].additions,
                    deletions: changes[i].deletions,
                },
            );
            proof {
                assert(cv[i as int] == changes@[i as int]@);
                assert(shows(out@) =~= listed + kept_changes(cv.take(i as int + 1)));
            }
        }
        proof {
            assert(cv.take(changes@.len() as int) =~= cv);
        }
        if speaking {
            add_event(&mut out, Event::TurnComplete { duration_ms: 0, stats: None });
        }
        out
    }
}

// ---------------------------------------------------------------------------
// Laws
// ---------------------------------------------------------------------------

/// The last count of tokens that a record holds is the one that a session has
/// after it is opened anew.
pub proof fn law_last_count_wins(
    start: ReplayV,
    place: PlaceV,
    records: Seq<RolloutRecordV>,
    input: u64,
    cache_read: u64,
    output: u64,
    used: u64,
)
    ensures
        replayed(
            start,
            place,
            records.push(RolloutRecordV::StepUsage { input, cache_read, output, used }),
        ).last_total_tokens == Some(used),
{
    let more = records.push(RolloutRecordV::StepUsage { input, cache_read, output, used });
    assert(more.drop_last() =~= records);
}

/// Whether every word of the assistant stands in a turn that was announced.
pub open spec fn announced(st: ReplayV) -> bool {
    st.speaking ==> exists|k: int|
        0 <= k < st.events.len() && #[trigger] st.events[k] == (EventV::TurnStarted {
            turn_id: replay_name(st.turns),
        })
}

proof fn lemma_opened(st: ReplayV)
    requires
        announced(st),
    ensures
        announced(opened(st)),
        opened(st).speaking,
{
    if !st.speaking {
        let o = opened(st);
        assert(o.events[o.events.len() - 1] == (EventV::TurnStarted {
            turn_id: replay_name(o.turns),
        }));
    }
}

proof fn lemma_longer(a: ReplayV, b: ReplayV)
    requires
        announced(a),
        a.speaking == b.speaking,
        a.turns == b.turns,
        a.events.len() <= b.events.len(),
        forall|k: int| 0 <= k < a.events.len() ==> #[trigger] b.events[k] == a.events[k],
    ensures
        announced(b),
{
    if a.speaking {
        let k = choose|k: int|
            0 <= k < a.events.len() && #[trigger] a.events[k] == (EventV::TurnStarted {
                turn_id: replay_name(a.turns),
            });
        assert(b.events[k] == a.events[k]);
    }
}

/// The assistant never speaks outside a turn: before its words the turn was
/// announced.
pub proof fn law_speaks_in_turns(
    s: SessionV,
    earlier: u64,
    place: PlaceV,
    records: Seq<RolloutRecordV>,
)
    ensures
        announced(replayed(unshown(s, earlier), place, records)),
    decreases records.len(),
{
    if records.len() > 0 {
        law_speaks_in_turns(s, earlier, place, records.drop_last());
        let st = replayed(unshown(s, earlier), place, records.drop_last());
        let now = replayed(unshown(s, earlier), place, records);
        match records.last() {
            RolloutRecordV::Reasoning { .. } => {
                lemma_opened(st);
                lemma_longer(opened(st), now);
            },
            RolloutRecordV::Text { .. } => {
                lemma_opened(st);
                lemma_longer(opened(st), now);
            },
            RolloutRecordV::ToolCall { .. } => {
                lemma_opened(st);
                lemma_longer(opened(st), now);
            },
            RolloutRecordV::User { .. } => {},
            _ => {
                lemma_longer(st, now);
            },
        }
    }
}

/// A record is shown unit by unit, and nothing that was shown is taken back: a
/// user's message with its files, reasoning and text as they were recorded, a
/// call with its name, its output and its change, the files of a turn, and what
/// a turn used. The token sums grow by what the turns used.
pub proof fn law_units_are_shown(st: ReplayV, place: PlaceV, record: RolloutRecordV)
    ensures
        ({
            let now = replay_step(st, place, record);
            let n = now.events.len();
            &&& n >= st.events.len()
            &&& now.events.take(st.events.len() as int) == st.events
            &&& record matches RolloutRecordV::Text { text } ==> n > st.events.len()
                && now.speaking && (now.events.last() matches EventV::TextDone {
                item_id: _,
                full_text,
            } && full_text == text)
            &&& record matches RolloutRecordV::Reasoning { text } ==> n > st.events.len()
                && now.speaking && (now.events.last() matches EventV::ReasoningDelta {
                item_id: _,
                delta,
            } && delta == text)
            &&& record matches RolloutRecordV::ToolCall {
                tool,
                summary: _,
                arguments: _,
                output,
                is_error,
                edit,
            } ==> {
                &&& n > st.events.len() + 1
                &&& now.speaking
                &&& now.events[n - 2] matches EventV::ToolCallBegin {
                    item_id: a,
                    tool: name,
                    input_summary: _,
                    detail: _,
                } && name == tool && (now.events[n - 1] matches EventV::ToolCallEnd {
                    item_id: b,
                    output: o,
                    is_error: e,
                    edit: c,
                } && a == b && o == output && e == is_error && (edit is Some ==> c == edit) && (
                is_error && edit is None ==> c is None))
            }
            &&& record matches RolloutRecordV::User { text: _, files, images } ==> n
                == st.events.len() + 1 && !now.speaking && (now.events.last() matches
                EventV::UserMessage { text: _, files: f, image_count } && f == files && (
            images.len() <= usize::MAX ==> image_count == images.len()))
            &&& record matches RolloutRecordV::TurnChanges { files } ==> now.events
                == st.events.push(EventV::TurnFileChanges { files })
            &&& record matches RolloutRecordV::TurnStats {
                input,
                cache_read,
                output,
                duration_ms,
                api_ms,
                ttft_ms,
                api_steps,
            } ==> {
                &&& st.input_total + input <= u64::MAX ==> now.input_total == st.input_total
                    + input
                &&& st.cache_read_total + cache_read <= u64::MAX ==> now.cache_read_total
                    == st.cache_read_total + cache_read
                &&& n == st.events.len() + 1
                &&& now.events.last() matches EventV::TurnComplete {
                    duration_ms: _,
                    stats: Some(t),
                } && t.input == input && t.cache_read == cache_read && t.output == output
                    && t.duration_ms == duration_ms && t.api_ms == api_ms && t.ttft_ms == ttft_ms
                    && t.api_steps == api_steps
            }
            &&& record is Meta || record is Compact ==> now == st
            &&& !(record is TurnStats) ==> now.input_total == st.input_total
                && now.cache_read_total == st.cache_read_total
            &&& !(record is StepUsage) ==> now.last_total_tokens == st.last_total_tokens
        }),
{
    let now = replay_step(st, place, record);
    assert(now.events.take(st.events.len() as int) =~= st.events);
}

/// Behind the record the to-do list and every change that is kept are shown as
/// they are, and a turn that is open ends.
pub proof fn law_open_work_is_shown(
    st: ReplayV,
    todos: Option<Seq<TodoItemV>>,
    changes: Seq<EditDiffV>,
    s: SessionV,
)
    ensures
        ({
            let out = replay_events(st, todos, changes);
            let n = st.events.len() as int;
            let listed = if todos is Some {
                1int
            } else {
                0
            };
            &&& out.take(n) == st.events
            &&& todos matches Some(items) ==> out[n] == (EventV::TodoListChanged { items })
                && replay_session(s, st, todos).todos == items
            &&& todos is None ==> replay_session(s, st, todos).todos == s.todos
            &&& forall|i: int|
                0 <= i < changes.len() ==> out[n + listed + i] == (EventV::FileChanged {
                    path: (#[trigger] changes[i]).path,
                    unified_diff: changes[i].unified_diff,
                    additions: changes[i].additions,
                    deletions: changes[i].deletions,
                })
            &&& !st.speaking ==> out.len() == n + listed + changes.len()
            &&& st.speaking ==> out.len() == n + listed + changes.len() + 1 && out.last() is TurnComplete
            &&& replay_session(s, st, todos).history == s.history
            &&& replay_session(s, st, todos).input_total == st.input_total
            &&& replay_session(s, st, todos).cache_read_total == st.cache_read_total
            &&& replay_session(s, st, todos).last_total_tokens == st.last_total_tokens
        }),
{
    let out = replay_events(st, todos, changes);
    assert(out.take(st.events.len() as int) =~= st.events);
}

} // verus!
