//! Answers of clients to the prompts that continuations wait for.

use vstd::prelude::*;
use crate::frame::{CallFrame, FrameView};
use crate::maps::lemma_enumerates_len;
use crate::operands::push;
use crate::program::VerbParameterType;
use crate::prompts::{
    LocalClientPromptKind, LocalClientPromptResponse, PendingLocalPrompt,
    PendingPromptContinuation, PendingVerbInvocation,
};
use crate::scheduling::continuation_scheduled;
use crate::state::{ClientTable, ExecutionState};
use crate::table::lemma_entry;
use crate::value::{DatumId, Value};

verus! {

/// Why an answer is refused.
#[derive(Clone, Copy, PartialEq, Eq, Structural, Debug)]
pub enum PromptError {
    Unknown(u64),
    OtherClient(u64),
    NotCancellable(u64),
    RequiresNumber(u64),
    ChoiceRange { id: u64, index: usize },
    Incompatible(u64),
    NoContinuation(u64),
    VerbParameter(u64),
}

/// What an accepted answer leads to.
pub enum PromptOutcome {
    /// The verb was cancelled.
    Cancelled,
    /// The waiting frames are scheduled for the current tick.
    Scheduled,
    /// A verb has one more argument.
    Verb(PendingVerbInvocation),
}

/// The value of an answer to a prompt.
pub open spec fn answer_value(
    id: u64,
    kind: LocalClientPromptKind,
    choices: Seq<Value>,
    can_cancel: bool,
    response: LocalClientPromptResponse,
) -> Result<Value, PromptError> {
    match response {
        LocalClientPromptResponse::Null => if can_cancel {
            Ok(Value::Null)
        } else {
            Err(PromptError::NotCancellable(id))
        },
        LocalClientPromptResponse::Text(text, number) => match kind {
            LocalClientPromptKind::File => Ok(Value::File(text)),
            LocalClientPromptKind::Text => Ok(Value::Text(text)),
            LocalClientPromptKind::Message => Ok(Value::Text(text)),
            LocalClientPromptKind::Color => Ok(Value::Text(text)),
            LocalClientPromptKind::Number => match number {
                Some(number) => Ok(Value::Number(number)),
                None => Err(PromptError::RequiresNumber(id)),
            },
            _ => Err(PromptError::Incompatible(id)),
        },
        LocalClientPromptResponse::Number(number) => if kind == LocalClientPromptKind::Number
            && crate::number::is_finite(number) {
            Ok(Value::Number(number))
        } else {
            Err(PromptError::Incompatible(id))
        },
        LocalClientPromptResponse::Choice(index) => if kind == LocalClientPromptKind::List || kind
            == LocalClientPromptKind::Alert {
            if index < choices.len() {
                Ok(choices[index as int])
            } else {
                Err(PromptError::ChoiceRange { id, index })
            }
        } else {
            Err(PromptError::Incompatible(id))
        },
    }
}

fn value_of_answer(id: u64, prompt: &PendingLocalPrompt, response: LocalClientPromptResponse) -> (
value: Result<Value, PromptError>)
    ensures
        value == answer_value(id, prompt.kind, prompt.choices@, prompt.can_cancel, response),
{
    match response {
        LocalClientPromptResponse::Null => if prompt.can_cancel {
            Ok(Value::Null)
        } else {
            Err(PromptError::NotCancellable(id))
        },
        LocalClientPromptResponse::Text(text, number) => match prompt.kind {
            LocalClientPromptKind::File => Ok(Value::File(text)),
            LocalClientPromptKind::Text => Ok(Value::Text(text)),
            LocalClientPromptKind::Message => Ok(Value::Text(text)),
            LocalClientPromptKind::Color => Ok(Value::Text(text)),
            LocalClientPromptKind::Number => match number {
                Some(number) => Ok(Value::Number(number)),
                None => Err(PromptError::RequiresNumber(id)),
            },
            _ => Err(PromptError::Incompatible(id)),
        },
        LocalClientPromptResponse::Number(number) => if prompt.kind == LocalClientPromptKind::Number
            && number.finite() {
            Ok(Value::Number(number))
        } else {
            Err(PromptError::Incompatible(id))
        },
        LocalClientPromptResponse::Choice(index) => if prompt.kind == LocalClientPromptKind::List
            || prompt.kind == LocalClientPromptKind::Alert {
            if index < prompt.choices.len() {
                Ok(prompt.choices[index])
            } else {
                Err(PromptError::ChoiceRange { id, index })
            }
        } else {
            Err(PromptError::Incompatible(id))
        },
    }
}

/// The argument that an answer gives to a verb: files may be named by text.
pub open spec fn verb_argument(kind: VerbParameterType, value: Value) -> Value {
    match (kind, value) {
        (VerbParameterType::File, Value::Text(path)) => Value::File(path),
        _ => value,
    }
}

/// A verb's frame with one more argument.
pub open spec fn with_argument(frame: FrameView, parameter: int, value: Value) -> FrameView {
    let arguments = if parameter >= frame.arguments.len() {
        frame.arguments + Seq::new(
            (parameter + 1 - frame.arguments.len()) as nat,
            |i: int| Value::Null,
        )
    } else {
        frame.arguments
    };
    FrameView {
        locals: frame.locals.update(parameter, value),
        arguments: arguments.update(parameter, value),
        supplied_parameters: frame.supplied_parameters.update(parameter, true),
        ..frame
    }
}

/// Whether the parameter that a verb asks for is declared, and is among those that
/// its frame keeps count of where the frame has a local for it.
pub open spec fn asks_parameter(continuation: PendingPromptContinuation) -> bool {
    match continuation {
        PendingPromptContinuation::Frames(_) => true,
        PendingPromptContinuation::Verb(invocation) => invocation.parameter
            < invocation.parameter_types@.len() && (invocation.parameter
            < invocation.frame@.locals.len() ==> invocation.parameter
            < invocation.frame@.supplied_parameters.len()),
    }
}

/// Whether an answer is taken: the prompt is the client's, is not cancelled by it, and
/// asks for that kind of answer.
pub open spec fn takes_answer(
    prompts: Map<u128, PendingLocalPrompt>,
    client: DatumId,
    id: u64,
    response: LocalClientPromptResponse,
) -> bool {
    prompts.contains_key(id as u128) && {
        let prompt = prompts[id as u128];
        &&& prompt.client == client
        &&& !(response is Null && prompt.continuation is Verb && prompt.can_cancel)
        &&& answer_value(id, prompt.kind, prompt.choices@, prompt.can_cancel, response) is Ok
    }
}

/// Whether only the prompt with a number was taken.
pub open spec fn prompt_taken(before: ExecutionState, id: u64, after: ExecutionState) -> bool {
    &&& after.clients.prompts@ == before.clients.prompts@.remove(id as u128)
    &&& after == (ExecutionState {
        clients: (ClientTable { prompts: after.clients.prompts, ..before.clients }),
        ..before
    })
}

/// Whether all prompts are still there.
pub open spec fn prompts_kept(before: ExecutionState, after: ExecutionState) -> bool {
    &&& after.clients.prompts@ == before.clients.prompts@
    &&& after == (ExecutionState {
        clients: (ClientTable { prompts: after.clients.prompts, ..before.clients }),
        ..before
    })
}

/// Whether frames wait with one value more and are scheduled for this tick.
pub open spec fn frames_resumed(
    before: ExecutionState,
    id: u64,
    frames: Seq<CallFrame>,
    value: Value,
    after: ExecutionState,
) -> bool {
    exists|scheduled: Vec<CallFrame>| #[trigger]
        continuation_scheduled(before.scheduler, scheduled, 0, after.scheduler) && scheduled@.len()
            == frames.len() && scheduled@.drop_last() == frames.drop_last()
            && scheduled@.last()@ == frames.last()@.push(value) && after.clients.prompts@
            == before.clients.prompts@.remove(id as u128) && after == (ExecutionState {
            scheduler: after.scheduler,
            clients: (ClientTable { prompts: after.clients.prompts, ..before.clients }),
            ..before
        })
}

/// Whether a verb got its argument.
pub open spec fn verb_answered(
    invocation: PendingVerbInvocation,
    value: Value,
    answered: PendingVerbInvocation,
) -> bool {
    &&& answered.frame@ == with_argument(
        invocation.frame@,
        invocation.parameter as int,
        verb_argument(invocation.parameter_types@[invocation.parameter as int], value),
    )
    &&& answered == (PendingVerbInvocation { frame: answered.frame, ..invocation })
}

/// What an answer to a pending prompt does.
pub open spec fn prompt_answered(
    before: ExecutionState,
    client: DatumId,
    id: u64,
    response: LocalClientPromptResponse,
    after: ExecutionState,
    outcome: Result<PromptOutcome, PromptError>,
) -> bool {
    if !before.clients.prompts@.contains_key(id as u128) {
        outcome == Err::<PromptOutcome, PromptError>(PromptError::Unknown(id)) && prompts_kept(
            before,
            after,
        )
    } else {
        let prompt = before.clients.prompts@[id as u128];
        if prompt.client != client {
            outcome == Err::<PromptOutcome, PromptError>(PromptError::OtherClient(id))
                && prompts_kept(before, after)
        } else if response is Null && prompt.continuation is Verb && prompt.can_cancel {
            outcome == Ok::<PromptOutcome, PromptError>(PromptOutcome::Cancelled) && prompt_taken(
                before,
                id,
                after,
            )
        } else {
            match answer_value(id, prompt.kind, prompt.choices@, prompt.can_cancel, response) {
                Err(error) => outcome == Err::<PromptOutcome, PromptError>(error) && prompts_kept(
                    before,
                    after,
                ),
                Ok(value) => match prompt.continuation {
                    PendingPromptContinuation::Frames(frames) => if frames@.len() == 0 {
                        outcome == Err::<PromptOutcome, PromptError>(
                            PromptError::NoContinuation(id),
                        ) && prompt_taken(before, id, after)
                    } else {
                        outcome == Ok::<PromptOutcome, PromptError>(PromptOutcome::Scheduled)
                            && frames_resumed(before, id, frames@, value, after)
                    },
                    PendingPromptContinuation::Verb(invocation) => prompt_taken(before, id, after)
                        && if invocation.parameter >= invocation.frame@.locals.len() {
                        outcome == Err::<PromptOutcome, PromptError>(PromptError::VerbParameter(id))
                    } else {
                        match outcome {
                            Ok(PromptOutcome::Verb(answered)) => verb_answered(
                                invocation,
                                value,
                                answered,
                            ),
                            _ => false,
                        }
                    },
                },
            }
        }
    }
}

fn give_argument(invocation: &mut PendingVerbInvocation, value: Value)
    requires
        old(invocation).parameter < old(invocation).parameter_types@.len(),
        old(invocation).parameter < old(invocation).frame@.supplied_parameters.len(),
        old(invocation).parameter < old(invocation).frame@.locals.len(),
    ensures
        verb_answered(*old(invocation), value, *final(invocation)),
{
    let parameter: usize = invocation.parameter;
    let value = match (invocation.parameter_types[parameter], value) {
        (VerbParameterType::File, Value::Text(path)) => Value::File(path),
        _ => value,
    };
    let ghost start = invocation.frame@;
    invocation.frame.locals.set(parameter, value);
    let ghost arguments = start.arguments;
    while invocation.frame.arguments.len() <= parameter
        invariant
            parameter == old(invocation).parameter,
            *invocation == (PendingVerbInvocation { frame: invocation.frame, ..*old(invocation) }),
            invocation.frame@ == (FrameView {
                locals: start.locals.update(parameter as int, value),
                arguments: invocation.frame@.arguments,
                ..start
            }),
            invocation.frame@.arguments.len() >= start.arguments.len(),
            invocation.frame@.arguments.len() > start.arguments.len()
                ==> invocation.frame@.arguments.len() <= parameter + 1,
            forall|i: int|
                0 <= i < invocation.frame@.arguments.len()
                    ==> #[trigger] invocation.frame@.arguments[i] == if i < start.arguments.len() {
                    start.arguments[i]
                } else {
                    Value::Null
                },
        decreases parameter + 1 - invocation.frame@.arguments.len(),
    {
        invocation.frame.arguments.push(Value::Null);
    }
    invocation.frame.arguments.set(parameter, value);
    invocation.frame.supplied_parameters.set(parameter, true);
    assert(invocation.frame@.arguments =~= with_argument(
        start,
        parameter as int,
        value,
    ).arguments);
}

impl ExecutionState {
    /// Tells whether an answer that is taken goes to a parameter that exists.
    pub fn asks_known_parameter(
        &self,
        client: DatumId,
        id: u64,
        response: LocalClientPromptResponse,
    ) -> (known: bool)
        ensures
            known == (takes_answer(self.clients.prompts@, client, id, response) ==> asks_parameter(
                self.clients.prompts@[id as u128].continuation,
            )),
    {
        match self.clients.prompts.get(id as u128) {
            Some(prompt) => match &prompt.continuation {
                PendingPromptContinuation::Frames(_) => true,
                PendingPromptContinuation::Verb(invocation) => {
                    let cancels: bool = match response {
                        LocalClientPromptResponse::Null => prompt.can_cancel,
                        _ => false,
                    };
                    let parameter: usize = invocation.parameter;
                    prompt.client != client || cancels || value_of_answer(
                        id,
                        prompt,
                        response,
                    ).is_err() || (parameter < invocation.parameter_types.len() && (parameter
                        >= invocation.frame.locals.len() || parameter
                        < invocation.frame.supplied_parameters.len()))
                },
            },
            None => true,
        }
    }

    /// Supplies the answer to a prompt. Waiting frames get it as their next
    /// operand; a verb gets it as the argument it asked for.
    pub fn submit_local_prompt_response(
        &mut self,
        client: DatumId,
        id: u64,
        response: LocalClientPromptResponse,
    ) -> (outcome: Result<PromptOutcome, PromptError>)
        requires
            takes_answer(old(self).clients.prompts@, client, id, response) ==> asks_parameter(
                old(self).clients.prompts@[id as u128].continuation,
            ),
        ensures
            prompt_answered(*old(self), client, id, response, *final(self), outcome),
    {
        let prompt = match self.clients.prompts.get(id as u128) {
            Some(prompt) => prompt,
            None => {
                return Err(PromptError::Unknown(id));
            },
        };
        if prompt.client != client {
            return Err(PromptError::OtherClient(id));
        }
        let cancels: bool = match response {
            LocalClientPromptResponse::Null => match &prompt.continuation {
                PendingPromptContinuation::Verb(_) => prompt.can_cancel,
                PendingPromptContinuation::Frames(_) => false,
            },
            _ => false,
        };
        if cancels {
            let _ = self.clients.prompts.remove(id as u128);
            return Ok(PromptOutcome::Cancelled);
        }
        let value = match value_of_answer(id, prompt, response) {
            Ok(value) => value,
            Err(error) => {
                return Err(error);
            },
        };
        let prompt = match self.clients.prompts.remove(id as u128) {
            Some(prompt) => prompt,
            None => {
                assert(false);
                return Err(PromptError::Unknown(id));
            },
        };
        match prompt.continuation {
            PendingPromptContinuation::Frames(frames) => {
                let mut frames = frames;
                let ghost waiting = frames@;
                let mut top = match frames.pop() {
                    Some(top) => top,
                    None => {
                        return Err(PromptError::NoContinuation(id));
                    },
                };
                push(&mut top, value);
                frames.push(top);
                assert(frames@.drop_last() =~= waiting.drop_last());
                let ghost queue = self.scheduler;
                self.scheduler.schedule_frames(frames, 0);
                assert(continuation_scheduled(queue, frames, 0, self.scheduler));
                Ok(PromptOutcome::Scheduled)
            },
            PendingPromptContinuation::Verb(invocation) => {
                let mut invocation = invocation;
                if invocation.parameter >= invocation.frame.locals.len() {
                    return Err(PromptError::VerbParameter(id));
                }
                give_argument(&mut invocation, value);
                Ok(PromptOutcome::Verb(invocation))
            },
        }
    }

    /// How many continuations wait for an answer.
    pub fn pending_local_prompt_count(&self) -> (count: usize)
        ensures
            self.clients.prompts@.dom().finite(),
            count == self.clients.prompts@.dom().len(),
    {
        let count: usize = self.clients.prompts.len();
        proof {
            let entries = self.clients.prompts.seq();
            assert forall|i: int| 0 <= i < entries.len() implies self.clients.prompts@.contains_key(
                (#[trigger] entries[i]).0,
            ) && self.clients.prompts@[entries[i].0] == entries[i].1 by {
                lemma_entry(entries, i);
            }
            lemma_enumerates_len(entries, self.clients.prompts@);
        }
        count
    }
}

/// A refused answer leaves every prompt waiting.
pub proof fn lemma_refused_answer_changes_nothing(
    before: ExecutionState,
    client: DatumId,
    id: u64,
    response: LocalClientPromptResponse,
    after: ExecutionState,
    error: PromptError,
)
    requires
        prompt_answered(
            before,
            client,
            id,
            response,
            after,
            Err::<PromptOutcome, PromptError>(error),
        ),
        !(error is NoContinuation),
        !(error is VerbParameter),
    ensures
        after.clients.prompts@ == before.clients.prompts@,
        after.scheduler == before.scheduler,
        after.heap == before.heap,
{
}

/// An answer is taken once: whatever a prompt is answered next is refused as unknown.
pub proof fn lemma_answer_is_taken_once(
    before: ExecutionState,
    client: DatumId,
    id: u64,
    response: LocalClientPromptResponse,
    after: ExecutionState,
    outcome: PromptOutcome,
    again: LocalClientPromptResponse,
    other: DatumId,
    end: ExecutionState,
    refusal: Result<PromptOutcome, PromptError>,
)
    requires
        prompt_answered(
            before,
            client,
            id,
            response,
            after,
            Ok::<PromptOutcome, PromptError>(outcome),
        ),
        prompt_answered(after, other, id, again, end, refusal),
    ensures
        refusal == Err::<PromptOutcome, PromptError>(PromptError::Unknown(id)),
{
}

} // verus!
