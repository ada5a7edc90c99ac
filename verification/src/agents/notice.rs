//! Texts that are put before an agent: a child's final answer, a reminder to go on, and developer
//! instructions that replace earlier ones.

use vstd::prelude::*;
use vstd::string::StringExecFns;

use crate::agents::message::RoutingModel;
use crate::agents::message::SubAgentRouting;
use crate::agents::message::routed;
use crate::details::cut;
use crate::details::fitting_close;
use crate::ledger::render::fitting;
use crate::text::byte_count;
use crate::text::bytes_of;
use crate::text_laws::mentioned_after;
use crate::text_laws::mentioned_before;
use crate::text_laws::mentions;
use crate::text_laws::mentions_itself;
use crate::text_laws::stands_at;

verus! {

/// The final answer of a child agent.
#[derive(Debug, PartialEq, Eq)]
pub struct InterAgentCompletionMessage {
    pub task_name: String,
    pub sender: String,
    pub payload: String,
    pub routing: Option<SubAgentRouting>,
}

/// The lines that say what an answer was produced with.
pub open spec fn routing_lines(routing: Option<RoutingModel>) -> Seq<char> {
    match routing {
        Some(routing) => "Model: "@ + routing.model + "\nReasoning effort: "@ + (
        match routing.reasoning_effort {
            Some(effort) => effort,
            None => "unspecified"@,
        }) + "\n"@,
        None => "Model and reasoning effort: unavailable\n"@,
    }
}

impl InterAgentCompletionMessage {
    /// The final answer of a child agent.
    pub fn new(
        task_name: String,
        sender: String,
        payload: String,
        routing: Option<SubAgentRouting>,
    ) -> (message: Self)
        ensures
            message.task_name@ == task_name@,
            message.sender@ == sender@,
            message.payload@ == payload@,
            routed(message.routing) == routed(routing),
    {
        InterAgentCompletionMessage { task_name, sender, payload, routing }
    }

    /// What the answer reads.
    pub fn body(&self) -> (text: String)
        ensures
            text@ == "Message Type: FINAL_ANSWER\nTask name: "@ + self.task_name@ + "\nSender: "@
                + self.sender@ + "\n"@ + routing_lines(routed(self.routing)) + "Payload:\n"@
                + self.payload@,
    {
        let mut lines = String::new();
        match &self.routing {
            Some(routing) => {
                lines = "Model: ".to_string();
                lines.append(routing.model.as_str());
                lines.append("\nReasoning effort: ");
                match &routing.reasoning_effort {
                    Some(effort) => {
                        lines.append(effort.as_str());
                    },
                    None => {
                        lines.append("unspecified");
                    },
                }
                lines.append("\n");
            },
            None => {
                lines = "Model and reasoning effort: unavailable\n".to_string();
            },
        }
        let mut text = "Message Type: FINAL_ANSWER\nTask name: ".to_string();
        text.append(self.task_name.as_str());
        text.append("\nSender: ");
        text.append(self.sender.as_str());
        text.append("\n");
        text.append(lines.as_str());
        text.append("Payload:\n");
        text.append(self.payload.as_str());
        text
    }
}

/// The most bytes that a reminder to go on takes.
pub const CONTINUATION_BYTES: usize = 1_000;

/// A reminder to go on with unfinished work.
#[derive(Debug, PartialEq, Eq)]
pub struct CompletionContinuation {
    reason: String,
}

impl CompletionContinuation {
    /// What the reminder reads.
    pub closed spec fn text(self) -> Seq<char> {
        self.reason@
    }

    /// A reminder with as much of the reason as fits.
    pub fn new(reason: String) -> (reminder: Self)
        ensures
            reminder.text() == fitting(reason@, CONTINUATION_BYTES as int),
    {
        CompletionContinuation { reason: cut(reason.as_str(), CONTINUATION_BYTES) }
    }

    /// What the reminder reads.
    pub fn body(&self) -> (text: String)
        ensures
            text@ == self.text(),
    {
        self.reason.clone()
    }
}

/// A reminder is the beginning of its reason, takes at most a thousand bytes, and is the whole
/// reason where that fits.
pub proof fn continuation_bounded(reason: Seq<char>)
    ensures
        bytes_of(fitting(reason, CONTINUATION_BYTES as int)) <= CONTINUATION_BYTES,
        fitting(reason, CONTINUATION_BYTES as int).is_prefix_of(reason),
        bytes_of(reason) <= CONTINUATION_BYTES ==> fitting(reason, CONTINUATION_BYTES as int)
            == reason,
{
    fitting_close(reason, CONTINUATION_BYTES as int);
}

/// Developer instructions, as an agent reads them.
#[derive(Debug, PartialEq, Eq)]
pub struct DeveloperInstructions {
    instructions: String,
}

/// What instructions that replace earlier ones read.
pub open spec fn replacement_text(instructions: Seq<char>) -> Seq<char> {
    if instructions.len() == 0 {
        "The previously provided workspace and client developer instructions no longer apply."@
    } else {
        "These workspace and client developer instructions replace all previously provided workspace and client developer instructions.\n\n"@
            + instructions
    }
}

impl DeveloperInstructions {
    /// What the instructions read.
    pub closed spec fn text(self) -> Seq<char> {
        self.instructions@
    }

    /// Instructions as they are.
    pub fn new(instructions: String) -> (r: Self)
        ensures
            r.text() == instructions@,
    {
        DeveloperInstructions { instructions }
    }

    /// Instructions in place of all earlier ones, unless they take more bytes than `limit`, which
    /// is what the host counts for ten thousand tokens.
    pub fn replacement(instructions: &str, limit: usize) -> (r: Result<Self, String>)
        ensures
            r is Ok <==> bytes_of(replacement_text(instructions@)) <= limit,
            match r {
                Ok(replaced) => replaced.text() == replacement_text(instructions@),
                Err(error) => error@
                    == "workspace developer instructions exceed the 10000-token context limit"@,
            },
    {
        let text = if byte_count(instructions) == 0 {
            proof {
                empty_when_no_bytes(instructions@);
            }
            "The previously provided workspace and client developer instructions no longer apply.".to_string()
        } else {
            let mut text = "These workspace and client developer instructions replace all previously provided workspace and client developer instructions.\n\n".to_string();
            text.append(instructions);
            text
        };
        if byte_count(text.as_str()) > limit {
            return Err(
                "workspace developer instructions exceed the 10000-token context limit".to_string(),
            );
        }
        Ok(DeveloperInstructions::new(text))
    }

    /// What the instructions read.
    pub fn body(&self) -> (text: String)
        ensures
            text@ == self.text(),
    {
        self.instructions.clone()
    }
}

/// Only the empty text takes no bytes.
proof fn empty_when_no_bytes(s: Seq<char>)
    ensures
        bytes_of(s) == 0 <==> s.len() == 0,
{
}

/// The lines on what an answer was produced with tell the model, and the effort where there is one.
pub proof fn answers_tell_their_routing(routing: RoutingModel)
    ensures
        mentions(routing_lines(Some(routing)), routing.model),
        routing.reasoning_effort matches Some(effort) ==> mentions(
            routing_lines(Some(routing)),
            effort,
        ),
{
    let effort = match routing.reasoning_effort {
        Some(effort) => effort,
        None => "unspecified"@,
    };
    let a = "Model: "@ + routing.model;
    let b = a + "\nReasoning effort: "@;
    mentions_itself(routing.model);
    mentioned_after("Model: "@, routing.model, routing.model);
    mentioned_before(a, "\nReasoning effort: "@, routing.model);
    mentioned_before(b, effort, routing.model);
    mentioned_before(b + effort, "\n"@, routing.model);
    mentions_itself(effort);
    mentioned_after(b, effort, effort);
    mentioned_before(b + effort, "\n"@, effort);
}

/// Instructions that replace earlier ones are told in full.
pub proof fn replacements_tell_the_instructions(instructions: Seq<char>)
    ensures
        mentions(replacement_text(instructions), instructions),
{
    mentions_itself(instructions);
    if instructions.len() > 0 {
        mentioned_after(
            "These workspace and client developer instructions replace all previously provided workspace and client developer instructions.\n\n"@,
            instructions,
            instructions,
        );
    } else {
        let text = replacement_text(instructions);
        assert(text.subrange(0, 0) =~= instructions);
        assert(stands_at(text, instructions, 0));
    }
}

} // verus!
