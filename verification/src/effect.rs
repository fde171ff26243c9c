//! What a session asks of the world around it.

use crate::chars::opt_text;
use crate::protocol::{
    todo_items_say, EditDiff, EditDiffV, Event, EventV, ExecMode, TodoItem, TodoItemV,
};
use crate::rollout::{RolloutRecord, RolloutRecordV};
use vstd::prelude::*;

verus! {

/// Something that a session has done to the world around it.
#[derive(Debug)]
pub enum Effect {
    /// An event goes to the user interface.
    Emit { event: Event },
    /// A unit is appended to the record of the session.
    Record { record: RolloutRecord },
    /// The mode is written into what is kept of the session.
    SaveMode { mode: ExecMode },
    /// The to-do list is kept.
    SaveTodos { items: Vec<TodoItem> },
    /// The change of a file is kept.
    SaveChange { change: EditDiff },
    /// The change of a file is no longer kept.
    ForgetChange { path: String },
    /// What a file was before the session is kept.
    SaveOriginal { path: String, content: Option<String> },
    /// What a file was before the session is no longer kept.
    ForgetOriginal { path: String },
    /// The session gets a title, unless the user chose one.
    SeedTitle { title: String },
    /// A title for the session is asked of the model.
    NameSession { input: String },
    /// The tokens of a turn are added to the statistics.
    RecordUsage { input: u64, cache_read: u64, output: u64 },
    /// The session was active now.
    Touch,
}

/// What a `Effect` says.
#[verifier::ext_equal]
pub enum EffectV {
    Emit { event: EventV },
    Record { record: RolloutRecordV },
    SaveMode { mode: ExecMode },
    SaveTodos { items: Seq<TodoItemV> },
    SaveChange { change: EditDiffV },
    ForgetChange { path: Seq<char> },
    SaveOriginal { path: Seq<char>, content: Option<Seq<char>> },
    ForgetOriginal { path: Seq<char> },
    SeedTitle { title: Seq<char> },
    NameSession { input: Seq<char> },
    RecordUsage { input: u64, cache_read: u64, output: u64 },
    Touch,
}

impl View for Effect {
    type V = EffectV;

    open spec fn view(&self) -> EffectV {
        match self {
            Effect::Emit { event } => EffectV::Emit {
                event: event@,
            },
            Effect::Record { record } => EffectV::Record {
                record: record@,
            },
            Effect::SaveMode { mode } => EffectV::SaveMode {
                mode: *mode,
            },
            Effect::SaveTodos { items } => EffectV::SaveTodos {
                items: todo_items_say(items@),
            },
            Effect::SaveChange { change } => EffectV::SaveChange {
                change: change@,
            },
            Effect::ForgetChange { path } => EffectV::ForgetChange {
                path: path@,
            },
            Effect::SaveOriginal { path, content } => EffectV::SaveOriginal {
                path: path@,
                content: opt_text(*content),
            },
            Effect::ForgetOriginal { path } => EffectV::ForgetOriginal {
                path: path@,
            },
            Effect::SeedTitle { title } => EffectV::SeedTitle {
                title: title@,
            },
            Effect::NameSession { input } => EffectV::NameSession {
                input: input@,
            },
            Effect::RecordUsage { input, cache_read, output } => EffectV::RecordUsage {
                input: *input,
                cache_read: *cache_read,
                output: *output,
            },
            Effect::Touch => EffectV::Touch,
        }
    }
}

/// What each of a list says.
pub open spec fn effects_say(v: Seq<Effect>) -> Seq<EffectV> {
    v.map_values(|x: Effect| x@)
}

/// No effects.
pub fn no_effects() -> (r: Vec<Effect>)
    ensures
        effects_say(r@) == Seq::<EffectV>::empty(),
{
    let v: Vec<Effect> = Vec::new();
    proof {
        assert(effects_say(v@) =~= Seq::<EffectV>::empty());
    }
    v
}

/// Adds an effect.
pub fn add_effect(out: &mut Vec<Effect>, e: Effect)
    ensures
        effects_say(final(out)@) == effects_say(old(out)@).push(e@),
{
    let ghost before = effects_say(out@);
    let ghost v = e@;
    out.push(e);
    proof {
        assert(effects_say(out@) =~= before.push(v));
    }
}

/// An event that goes to the user interface.
pub open spec fn shown(event: EventV) -> EffectV {
    EffectV::Emit { event }
}

/// A unit that is appended to the record.
pub open spec fn noted(record: RolloutRecordV) -> EffectV {
    EffectV::Record { record }
}

/// Adds an event.
pub fn show(out: &mut Vec<Effect>, event: Event)
    ensures
        effects_say(final(out)@) == effects_say(old(out)@).push(shown(event@)),
{
    add_effect(out, Effect::Emit { event });
}

/// Adds a unit of the record.
pub fn note(out: &mut Vec<Effect>, record: RolloutRecord)
    ensures
        effects_say(final(out)@) == effects_say(old(out)@).push(noted(record@)),
{
    add_effect(out, Effect::Record { record });
}

/// Adds effects behind others.
pub fn add_effects(out: &mut Vec<Effect>, more: Vec<Effect>)
    ensures
        effects_say(final(out)@) == effects_say(old(out)@) + effects_say(more@),
{
    let ghost a = effects_say(out@);
    let ghost b = effects_say(more@);
    let mut m = more;
    out.append(&mut m);
    proof {
        assert(effects_say(out@) =~= a + b);
    }
}

/// An event with its place in the session's order.
#[derive(Debug)]
pub struct Stamped {
    pub session_id: String,
    pub seq: u64,
    pub event: Event,
}

/// Gives an event the next place in the session's order, if there is one left.
pub fn stamp(session_id: &str, last: u64, event: Event) -> (r: Option<Stamped>)
    ensures
        match r {
            Some(s) => s.session_id@ == session_id@ && s.seq == last + 1 && s.event@ == event@,
            None => last == u64::MAX,
        },
{
    if last == u64::MAX {
        None
    } else {
        Some(Stamped { session_id: crate::chars::text_from(session_id), seq: last + 1, event })
    }
}

} // verus!
