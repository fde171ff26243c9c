//! A probe that plays one turn against a real service and tells what happens.

use crate::chars::{cat3, cat5, chars_of, decimal, number_text, text_from};
use crate::protocol::{Event, EventV};
use vstd::prelude::*;

verus! {

/// The message that the probe sends.
pub const PROBE_MESSAGE: &'static str = "用 Read 读取 Cargo.toml，然后一句话总结";

/// How an event is told; none for the events that have no line of their own.
pub open spec fn probe_line(event: EventV) -> Option<Seq<char>> {
    match event {
        EventV::TurnStarted { .. } => Some("TurnStarted"@),
        EventV::TextDelta { delta, .. } => Some("TextDelta("@ + decimal(delta.len()) + "字)"@),
        EventV::TextDone { .. } => Some("TextDone"@),
        EventV::ReasoningDelta { delta, .. } => Some(
            "ReasoningDelta("@ + decimal(delta.len()) + "字)"@,
        ),
        EventV::ToolCallBegin { tool, .. } => Some("ToolCallBegin("@ + tool + ")"@),
        EventV::ToolCallEnd { is_error, .. } => Some(
            if is_error {
                "ToolCallEnd(is_error=true)"@
            } else {
                "ToolCallEnd(is_error=false)"@
            },
        ),
        EventV::ApprovalRequested { tool, .. } => Some(
            "ApprovalRequested("@ + tool + ") → 自动批准"@,
        ),
        EventV::ContextUsage { used, total, .. } => Some(
            "ContextUsage("@ + decimal(used as nat) + "/"@ + decimal(total as nat) + ")"@,
        ),
        EventV::TurnComplete { duration_ms, .. } => Some(
            "TurnComplete("@ + decimal(duration_ms as nat) + "ms)"@,
        ),
        EventV::TurnAborted => Some("TurnAborted"@),
        EventV::Error { message } => Some("Error("@ + message + ")"@),
        _ => None,
    }
}

/// Tells an event.
pub fn probe_label(event: &Event) -> (r: Option<String>)
    ensures
        crate::chars::opt_text(r) == probe_line(event@),
{
    match event {
        Event::TurnStarted { .. } => Some(text_from("TurnStarted")),
        Event::TextDelta { delta, .. } => {
            let n = chars_of(delta.as_str()).len();
            Some(cat3("TextDelta(", number_text(n as u64).as_str(), "字)"))
        },
        Event::TextDone { .. } => Some(text_from("TextDone")),
        Event::ReasoningDelta { delta, .. } => {
            let n = chars_of(delta.as_str()).len();
            Some(cat3("ReasoningDelta(", number_text(n as u64).as_str(), "字)"))
        },
        Event::ToolCallBegin { tool, .. } => Some(cat3("ToolCallBegin(", tool.as_str(), ")")),
        Event::ToolCallEnd { is_error, .. } => {
            if *is_error {
                Some(text_from("ToolCallEnd(is_error=true)"))
            } else {
                Some(text_from("ToolCallEnd(is_error=false)"))
            }
        },
        Event::ApprovalRequested { tool, .. } => Some(
            cat3("ApprovalRequested(", tool.as_str(), ") → 自动批准"),
        ),
        Event::ContextUsage { used, total, .. } => Some(
            cat5(
                "ContextUsage(",
                number_text(*used).as_str(),
                "/",
                number_text(*total).as_str(),
                ")",
            ),
        ),
        Event::TurnComplete { duration_ms, .. } => Some(
            cat3("TurnComplete(", number_text(*duration_ms).as_str(), "ms)"),
        ),
        Event::TurnAborted => Some(text_from("TurnAborted")),
        Event::Error { message } => Some(cat3("Error(", message.as_str(), ")")),
        _ => None,
    }
}

/// What the probe does upon an event.
#[derive(Debug, PartialEq)]
pub enum ProbeStep {
    Wait,
    /// Allows the request.
    Approve(String),
    Stop,
}

/// Every request is allowed, so that the turn goes on; the probe ends with
/// the turn.
pub fn probe_step(event: &Event) -> (r: ProbeStep)
    ensures
        match event@ {
            EventV::ApprovalRequested { request_id, .. } => r matches ProbeStep::Approve(id)
                && id@ == request_id,
            EventV::TurnComplete { .. } => r is Stop,
            EventV::TurnAborted => r is Stop,
            EventV::Error { .. } => r is Stop,
            _ => r is Wait,
        },
{
    match event {
        Event::ApprovalRequested { request_id, .. } => ProbeStep::Approve(request_id.clone()),
        Event::TurnComplete { .. } => ProbeStep::Stop,
        Event::TurnAborted => ProbeStep::Stop,
        Event::Error { .. } => ProbeStep::Stop,
        _ => ProbeStep::Wait,
    }
}

} // verus!
