//! Questions put to connected clients and the continuations that wait for the
//! answers.

use vstd::prelude::*;
use crate::frame::{frames_view, CallFrame};
use crate::program::VerbParameterType;
use crate::roots::{append_frame_roots, append_frames_roots, append_values};
use crate::roots::{frame_root_values, frames_root_values};
use crate::table::Table;
use crate::value::{DatumId, Number, Symbol, Value};

verus! {

/// What kind of answer a prompt asks for.
#[derive(Clone, Copy, PartialEq, Eq, Structural, Debug)]
pub enum LocalClientPromptKind {
    Text,
    Message,
    Color,
    File,
    Number,
    List,
    Alert,
}

/// An answer to a prompt. A typed text comes with its reading as a number.
#[derive(Clone, Copy, PartialEq, Eq, Structural, Debug)]
pub enum LocalClientPromptResponse {
    Null,
    Text(Symbol, Option<Number>),
    Number(Number),
    Choice(usize),
}

/// A verb whose remaining arguments are being asked for.
pub struct PendingVerbInvocation {
    pub frame: CallFrame,
    pub parameter_types: Vec<VerbParameterType>,
    pub parameter_names: Vec<String>,
    pub verb_name: String,
    pub parameter: usize,
}

/// What goes on once a prompt is answered.
pub enum PendingPromptContinuation {
    Frames(Vec<CallFrame>),
    Verb(PendingVerbInvocation),
}

/// A prompt that waits for its answer.
pub struct PendingLocalPrompt {
    pub client: DatumId,
    pub kind: LocalClientPromptKind,
    pub choices: Vec<Value>,
    pub can_cancel: bool,
    pub continuation: PendingPromptContinuation,
}

/// The values that a prompt keeps alive.
pub open spec fn prompt_root_values(prompt: PendingLocalPrompt) -> Seq<Value> {
    seq![Value::Datum(prompt.client)] + prompt.choices@ + match prompt.continuation {
        PendingPromptContinuation::Frames(frames) => frames_root_values(frames_view(frames@)),
        PendingPromptContinuation::Verb(invocation) => frame_root_values(invocation.frame@),
    }
}

/// The values that several prompts keep alive.
pub open spec fn prompts_root_values(prompts: Seq<(u128, PendingLocalPrompt)>) -> Seq<Value>
    decreases prompts.len(),
{
    if prompts.len() == 0 {
        Seq::empty()
    } else {
        prompts_root_values(prompts.drop_last()) + prompt_root_values(prompts.last().1)
    }
}

fn append_prompt_roots(roots: &mut Vec<Value>, prompt: &PendingLocalPrompt)
    ensures
        final(roots)@ == old(roots)@ + prompt_root_values(*prompt),
{
    let ghost before = roots@;
    roots.push(Value::Datum(prompt.client));
    append_values(roots, &prompt.choices);
    let ghost held = roots@;
    assert(held =~= before + (seq![Value::Datum(prompt.client)] + prompt.choices@));
    match &prompt.continuation {
        PendingPromptContinuation::Frames(frames) => {
            append_frames_roots(roots, frames);
        },
        PendingPromptContinuation::Verb(invocation) => {
            append_frame_roots(roots, &invocation.frame);
        },
    }
    assert(roots@ =~= before + prompt_root_values(*prompt));
}

/// Appends the values that prompts keep alive.
pub fn append_prompts_roots(roots: &mut Vec<Value>, prompts: &Table<PendingLocalPrompt>)
    ensures
        final(roots)@ == old(roots)@ + prompts_root_values(prompts.seq()),
{
    let ghost before = roots@;
    let count: usize = prompts.len();
    let mut at: usize = 0;
    assert(prompts.seq().subrange(0, 0) =~= Seq::<(u128, PendingLocalPrompt)>::empty());
    assert(roots@ =~= before + prompts_root_values(prompts.seq().subrange(0, 0)));
    while at < count
        invariant
            at <= count == prompts.seq().len(),
            roots@ == before + prompts_root_values(prompts.seq().subrange(0, at as int)),
        decreases count - at,
    {
        let entry = prompts.entry(at);
        append_prompt_roots(roots, entry.1);
        proof {
            let longer = prompts.seq().subrange(0, at + 1);
            assert(longer.drop_last() =~= prompts.seq().subrange(0, at as int));
            assert(longer.last() == prompts.seq()[at as int]);
            assert(roots@ =~= before + prompts_root_values(longer));
        }
        at += 1;
    }
    assert(prompts.seq().subrange(0, at as int) =~= prompts.seq());
}

} // verus!
