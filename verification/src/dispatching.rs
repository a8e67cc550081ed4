//! Calls whose target depends on the receiver: parent and dynamic calls.

use vstd::prelude::*;
use crate::activation::{declared_count, fresh_frame, frame_context, make_frame};
use crate::calling::{
    activate, activate_taken, activates, bound_names, call_operands, context_of, entered,
    forwarded_operands, ready, take, take_forwarded, CallOperands, CallTarget,
};
use crate::fault::Fault;
use crate::frame::{names_view, CallFrame, ColdView, FrameView};
use crate::inline::InlineRoots;
use crate::literals::top_operands;
use crate::operands::{frame_sound, module_valid, program_valid, push, same_shape};
use crate::program::{Module, ProcedureId, Program, EXPANDED_ARGUMENT_COUNT};
use crate::reading::operand;
use crate::state::ExecutionState;
use crate::text::{begins_with, chars_of, contains_text, has_text, matches_at};
use crate::value::{Symbol, Value};

verus! {

/// Whether a parent call leaves the constructor of a client for the engine.
pub open spec fn leaves_client_constructor(
    module: Module,
    procedure: ProcedureId,
    target: Option<ProcedureId>,
) -> bool {
    &&& match module.spec_path(procedure) {
        Some(path) => contains_text(path, "/client/proc/New"@),
        None => false,
    }
    &&& match target {
        Some(parent) => match module.spec_path(parent) {
            Some(path) => begins_with(path, "/datum/proc/New@dream64_native"@),
            None => false,
        },
        None => true,
    }
}

/// Whether the engine has to attach the mob of a client before its parent
/// constructor goes on.
pub open spec fn awaits_login(
    state: ExecutionState,
    module: Module,
    frame: FrameView,
    target: Option<ProcedureId>,
) -> bool {
    leaves_client_constructor(module, frame.procedure, target) && match frame.src {
        Value::Datum(client) => state.clients.mobs@.contains_key(client.0)
            && match state.heap@.field(client, state.names.mob) {
            Some(mob) => !(mob is Datum),
            None => true,
        },
        _ => false,
    }
}

/// What the engine answers once a client's mob is attached: what to call, and
/// what to call after that.
#[derive(Clone, Copy)]
pub struct LoginCall {
    pub target: CallTarget,
    pub next: Option<CallTarget>,
}

/// How a call goes on.
pub enum Entry {
    /// A frame is entered.
    Enter(CallFrame),
    /// Nothing is called.
    Skip,
    /// The engine has to answer first.
    Engine,
}

/// A frame that another follows once it returns.
pub open spec fn followed(frame: FrameView, next: FrameView) -> FrameView {
    frame.with_cold(
        (ColdView { engine_post_return: Some(Box::new(next)), ..frame.cold_or_blank() }),
    )
}

/// Whether a frame activates a procedure, followed by another where there is one.
pub open spec fn follows(
    module: Module,
    target: CallTarget,
    program: Program,
    operands: CallOperands,
    next: Option<CallTarget>,
    frame: FrameView,
) -> bool {
    match next {
        None => activates(
            frame,
            target.procedure,
            program,
            operands.arguments,
            bound_names(operands.names, Seq::empty()),
            target.context,
            operands.roots,
        ),
        Some(next) => exists|plain: FrameView| #[trigger]
            activates(
                plain,
                target.procedure,
                program,
                operands.arguments,
                bound_names(operands.names, Seq::empty()),
                target.context,
                operands.roots,
            ) && frame == followed(
                plain,
                fresh_frame(
                    next.procedure,
                    module.spec_procedure(next.procedure)->0,
                    Seq::empty(),
                    next.context,
                ),
            ),
    }
}

/// Whether a parent call enters its target, or cannot.
pub open spec fn parent_entered(
    module: Module,
    program: Program,
    frame: FrameView,
    fixed: Option<u16>,
    login: LoginCall,
    after: FrameView,
    outcome: Result<Entry, Fault>,
) -> bool {
    match login.next {
        Some(next) if module.spec_procedure(next.procedure) is None => outcome == Err::<
            Entry,
            Fault,
        >(Fault::UnknownProcedure(next.procedure)),
        _ => match forwarded_operands(frame, program, fixed) {
            Err(fault) => outcome == Err::<Entry, Fault>(fault),
            Ok(operands) => match module.spec_procedure(login.target.procedure) {
                None => outcome == Err::<Entry, Fault>(
                    Fault::UnknownProcedure(login.target.procedure),
                ),
                Some(entering) => match outcome {
                    Ok(Entry::Enter(next)) => after == operands.frame && follows(
                        module,
                        login.target,
                        entering,
                        operands,
                        login.next,
                        next@,
                    ),
                    _ => false,
                },
            },
        },
    }
}

/// What `CallParent` does, given the engine's answer where a client logs in.
pub open spec fn parent_called(
    state: ExecutionState,
    module: Module,
    program: Program,
    frame: FrameView,
    depth: int,
    limit: usize,
    target: Option<ProcedureId>,
    fixed: Option<u16>,
    login: Option<LoginCall>,
    after: FrameView,
    outcome: Result<Entry, Fault>,
) -> bool {
    if depth >= limit {
        outcome == Err::<Entry, Fault>(Fault::CallDepth(limit))
    } else if awaits_login(state, module, frame, target) {
        match login {
            None => outcome == Ok::<Entry, Fault>(Entry::Engine) && after == frame,
            Some(login) => parent_entered(module, program, frame, fixed, login, after, outcome),
        }
    } else {
        match target {
            None => if leaves_client_constructor(module, frame.procedure, target) {
                outcome == Ok::<Entry, Fault>(Entry::Skip) && after == frame.push(
                    Value::Null,
                ).advanced()
            } else {
                outcome == Err::<Entry, Fault>(Fault::NoParentTarget)
            },
            Some(parent) => parent_entered(
                module,
                program,
                frame,
                fixed,
                (LoginCall {
                    target: CallTarget { procedure: parent, context: context_of(frame) },
                    next: None,
                }),
                after,
                outcome,
            ),
        }
    }
}

fn is_client_constructor(module: &Module, procedure: ProcedureId, target: Option<ProcedureId>) -> (
left: bool)
    ensures
        left == leaves_client_constructor(*module, procedure, target),
{
    match module.procedure_path(procedure) {
        Some(path) => {
            let text = chars_of(path);
            let part = chars_of("/client/proc/New");
            if !has_text(&text, &part) {
                return false;
            }
        },
        None => {
            return false;
        },
    }
    match target {
        Some(parent) => match module.procedure_path(parent) {
            Some(path) => {
                let text = chars_of(path);
                let part = chars_of("/datum/proc/New@dream64_native");
                let begins = matches_at(&text, 0, &part);
                assert(begins == begins_with(text@, part@));
                begins
            },
            None => false,
        },
        None => true,
    }
}

/// Whether the engine has to attach the mob of a client first.
pub fn is_awaiting_login(
    state: &ExecutionState,
    module: &Module,
    frame: &CallFrame,
    target: Option<ProcedureId>,
) -> (awaits: bool)
    ensures
        awaits == awaits_login(*state, *module, frame@, target),
{
    if !is_client_constructor(module, frame.procedure, target) {
        return false;
    }
    match frame.src {
        Value::Datum(client) => {
            if !state.clients.mobs.contains_key(client.0) {
                return false;
            }
            match state.heap.datum_field(client, state.names.mob) {
                Ok(Value::Datum(_)) => false,
                _ => true,
            }
        },
        _ => false,
    }
}

fn enter_parent(
    module: &Module,
    program: &Program,
    frame: &mut CallFrame,
    fixed: Option<u16>,
    login: LoginCall,
) -> (outcome: Result<Entry, Fault>)
    requires
        module_valid(*module),
        declared_count(program.parameter_names@) <= old(frame)@.arguments.len(),
    ensures
        parent_entered(*module, *program, old(frame)@, fixed, login, final(frame)@, outcome),
        same_shape(old(frame)@, final(frame)@),
        final(frame)@.instruction == old(frame)@.instruction,
        outcome matches Ok(Entry::Enter(next)) ==> frame_sound(*module, next@),
{
    let mut follower: Option<Box<CallFrame>> = None;
    if let Some(next) = login.next {
        let none: Vec<Value> = Vec::new();
        match module.procedure(next.procedure) {
            Some(entering) => {
                let following = make_frame(next.procedure, entering, &none, &next.context);
                assert(none@ =~= Seq::<Value>::empty());
                assert(frame_sound(*module, following@)) by {
                    assert(program_valid(*entering));
                    crate::calling::lemma_declared_bound(entering.parameter_names@);
                }
                follower = Some(Box::new(following));
            },
            None => {
                return Err(Fault::UnknownProcedure(next.procedure));
            },
        }
    }
    let ghost expected = follower;
    let taken = match take_forwarded(frame, program, fixed) {
        Ok(taken) => taken,
        Err(fault) => {
            return Err(fault);
        },
    };
    let none: Vec<Option<String>> = Vec::new();
    assert(none@ =~= Seq::<Option<String>>::empty());
    match activate_taken(module, login.target.procedure, taken, &none, &login.target.context) {
        Ok(plain) => {
            let ghost shown = plain@;
            let mut entering = plain;
            if follower.is_some() {
                entering.set_engine_post_return(follower);
                assert(entering@ == followed(shown, (*expected->0)@));
            }
            Ok(Entry::Enter(entering))
        },
        Err(fault) => Err(fault),
    }
}

/// Executes `CallParent`.
pub fn call_parent(
    state: &ExecutionState,
    module: &Module,
    program: &Program,
    frame: &mut CallFrame,
    depth: usize,
    limit: usize,
    target: Option<ProcedureId>,
    fixed: Option<u16>,
    login: Option<LoginCall>,
) -> (outcome: Result<Entry, Fault>)
    requires
        module_valid(*module),
        declared_count(program.parameter_names@) <= old(frame)@.arguments.len(),
        old(frame)@.instruction < usize::MAX,
    ensures
        parent_called(
            *state,
            *module,
            *program,
            old(frame)@,
            depth as int,
            limit,
            target,
            fixed,
            login,
            final(frame)@,
            outcome,
        ),
        same_shape(old(frame)@, final(frame)@),
        !(outcome matches Ok(Entry::Skip)) ==> final(frame)@.instruction
            == old(frame)@.instruction,
        outcome matches Ok(Entry::Enter(next)) ==> frame_sound(*module, next@),
{
    if depth >= limit {
        return Err(Fault::CallDepth(limit));
    }
    if is_awaiting_login(state, module, frame, target) {
        return match login {
            Some(login) => enter_parent(module, program, frame, fixed, login),
            None => Ok(Entry::Engine),
        };
    }
    match target {
        Some(parent) => {
            let context = frame_context(frame);
            enter_parent(
                module,
                program,
                frame,
                fixed,
                LoginCall { target: CallTarget { procedure: parent, context }, next: None },
            )
        },
        None => {
            if is_client_constructor(module, frame.procedure, target) {
                push(frame, Value::Null);
                frame.instruction = frame.instruction + 1;
                Ok(Entry::Skip)
            } else {
                Err(Fault::NoParentTarget)
            }
        },
    }
}

/// What the engine answers to a dynamic call: the value that a native method
/// gave, the procedure to call, or why there is none.
#[derive(Clone, Copy)]
pub enum DynamicAnswer {
    Value(Value),
    Target(CallTarget),
    Unresolved(Symbol),
}

/// Whether a selector is text, written or computed.
pub open spec fn selects_text(selector: Option<Symbol>, computed: Value) -> bool {
    selector is Some || computed is Text
}

/// What a dynamic call finds below its arguments: the receiver and, where none
/// is written, the selector.
pub open spec fn dynamic_operands(frame: FrameView, selector: Option<Symbol>, fixed: u16) -> Result<
    CallOperands,
    Fault,
> {
    match call_operands(frame, fixed) {
        Err(fault) => Err(fault),
        Ok(operands) => if operands.frame.stack.len() < if selector is None {
            2int
        } else {
            1int
        } {
            Err(Fault::StackUnderflow)
        } else {
            Ok(operands)
        },
    }
}

/// How many operands lie below the arguments of a dynamic call.
pub open spec fn dynamic_prefix(selector: Option<Symbol>) -> int {
    if selector is None {
        2
    } else {
        1
    }
}

/// Whether the engine may know the method that a dynamic call names: those of lists
/// and datums go by text.
pub open spec fn may_be_native(receiver: Value, textual: bool) -> bool {
    receiver is List || (receiver is Datum && textual)
}

/// What `CallDynamic` does, given the engine's answer. A call of a procedure by
/// the name of a datum's member binds names; other calls bind positions only. Calls
/// that are too deep fail before a target is looked up, unless a native method may
/// answer them.
pub open spec fn dynamic_called(
    module: Module,
    frame: FrameView,
    depth: int,
    limit: usize,
    selector: Option<Symbol>,
    fixed: u16,
    written: Seq<Option<String>>,
    answer: Option<DynamicAnswer>,
    after: FrameView,
    outcome: Result<Entry, Fault>,
) -> bool {
    match dynamic_operands(frame, selector, fixed) {
        Err(fault) => outcome == Err::<Entry, Fault>(fault),
        Ok(operands) => {
            let receiver = operands.frame.operand(dynamic_prefix(selector) - 1);
            let computed = operands.frame.operand(0);
            let rest = operands.frame.dropping(dynamic_prefix(selector));
            if receiver is List && !selects_text(selector, computed) {
                outcome == Err::<Entry, Fault>(Fault::ListMethodSelector(computed))
            } else if depth >= limit && !may_be_native(
                receiver,
                selects_text(selector, computed),
            ) {
                outcome == Err::<Entry, Fault>(Fault::CallDepth(limit))
            } else {
                match answer {
                    None => outcome == Ok::<Entry, Fault>(Entry::Engine) && after == frame,
                    Some(DynamicAnswer::Value(value)) => outcome == Ok::<Entry, Fault>(Entry::Skip)
                        && after == rest.push(value).advanced(),
                    Some(DynamicAnswer::Unresolved(why)) => outcome == Err::<Entry, Fault>(
                        if depth >= limit {
                            Fault::CallDepth(limit)
                        } else {
                            Fault::Host(why)
                        },
                    ),
                    Some(DynamicAnswer::Target(target)) => if depth >= limit {
                        outcome == Err::<Entry, Fault>(Fault::CallDepth(limit))
                    } else {
                        let named = receiver is Datum && selects_text(selector, computed);
                        dynamic_entered(
                            module,
                            target,
                            operands,
                            if named {
                                bound_names(operands.names, written)
                            } else {
                                Seq::empty()
                            },
                            if named {
                                operands.roots
                            } else {
                                Seq::empty()
                            },
                            rest,
                            after,
                            outcome,
                        )
                    },
                }
            }
        },
    }
}

/// Whether a dynamic call enters its target, or cannot.
pub open spec fn dynamic_entered(
    module: Module,
    target: CallTarget,
    operands: CallOperands,
    names: Seq<Option<Seq<char>>>,
    roots: Seq<Value>,
    rest: FrameView,
    after: FrameView,
    outcome: Result<Entry, Fault>,
) -> bool {
    match module.spec_procedure(target.procedure) {
        None => outcome == Err::<Entry, Fault>(Fault::UnknownProcedure(target.procedure)),
        Some(program) => match outcome {
            Ok(Entry::Enter(next)) => after == rest && activates(
                next@,
                target.procedure,
                program,
                operands.arguments,
                names,
                target.context,
                roots,
            ),
            _ => false,
        },
    }
}

/// Executes `CallDynamic`.
pub fn call_dynamic(
    module: &Module,
    frame: &mut CallFrame,
    depth: usize,
    limit: usize,
    selector: Option<Symbol>,
    fixed: u16,
    written: &Vec<Option<String>>,
    answer: Option<DynamicAnswer>,
) -> (outcome: Result<Entry, Fault>)
    requires
        module_valid(*module),
        old(frame)@.instruction < usize::MAX,
    ensures
        dynamic_called(
            *module,
            old(frame)@,
            depth as int,
            limit,
            selector,
            fixed,
            written@,
            answer,
            final(frame)@,
            outcome,
        ),
        same_shape(old(frame)@, final(frame)@),
        !(outcome matches Ok(Entry::Skip)) ==> final(frame)@.instruction
            == old(frame)@.instruction,
        outcome matches Ok(Entry::Enter(next)) ==> frame_sound(*module, next@),
{
    let count: usize = match ready(frame, fixed) {
        Ok(count) => count,
        Err(fault) => {
            return Err(fault);
        },
    };
    let size: usize = frame.stack.len();
    let above: usize = if fixed == EXPANDED_ARGUMENT_COUNT {
        count + 1
    } else {
        count
    };
    let prefix: usize = if selector.is_none() {
        2
    } else {
        1
    };
    if size - above < prefix {
        return Err(Fault::StackUnderflow);
    }
    let ghost operands = call_operands(old(frame)@, fixed)->Ok_0;
    assert(forall|i: int|
        0 <= i < size - above ==> operands.frame.stack[i] == old(frame)@.stack[i]);
    let receiver = frame.stack.get(size - above - prefix);
    let computed = frame.stack.get(size - above - 1);
    let textual: bool = match computed {
        Value::Text(_) => true,
        _ => selector.is_some(),
    };
    if let Value::List(_) = receiver {
        if !textual {
            return Err(Fault::ListMethodSelector(computed));
        }
    }
    let native: bool = match receiver {
        Value::List(_) => true,
        Value::Datum(_) => textual,
        _ => false,
    };
    if depth >= limit && !native {
        return Err(Fault::CallDepth(limit));
    }
    let answer = match answer {
        Some(answer) => answer,
        None => {
            return Ok(Entry::Engine);
        },
    };
    match answer {
        DynamicAnswer::Value(_) => {},
        DynamicAnswer::Target(_) => {
            if depth >= limit {
                return Err(Fault::CallDepth(limit));
            }
        },
        DynamicAnswer::Unresolved(why) => {
            return Err(
                if depth >= limit {
                    Fault::CallDepth(limit)
                } else {
                    Fault::Host(why)
                },
            );
        },
    }
    let taken = match take(frame, fixed) {
        Ok(taken) => taken,
        Err(fault) => {
            return Err(fault);
        },
    };
    let left: usize = frame.stack.len();
    frame.stack.truncate(left - prefix);
    assert(frame@ == operands.frame.dropping(prefix as int));
    match answer {
        DynamicAnswer::Value(value) => {
            push(frame, value);
            frame.instruction = frame.instruction + 1;
            Ok(Entry::Skip)
        },
        DynamicAnswer::Target(target) => {
            let named: bool = match receiver {
                Value::Datum(_) => textual,
                _ => false,
            };
            let entered = if named {
                activate_taken(module, target.procedure, taken, written, &target.context)
            } else {
                let none: Vec<Option<String>> = Vec::new();
                assert(names_view(none@) =~= Seq::<Option<Seq<char>>>::empty());
                activate(
                    module,
                    target.procedure,
                    &taken.arguments,
                    &none,
                    &target.context,
                    InlineRoots::new(),
                )
            };
            match entered {
                Ok(next) => Ok(Entry::Enter(next)),
                Err(fault) => Err(fault),
            }
        },
        DynamicAnswer::Unresolved(why) => Err(Fault::Host(why)),
    }
}

/// What a method that the engine may know does, given the engine's answer: its
/// value, or the procedure that the source declares under the name.
pub open spec fn method_called(
    module: Module,
    frame: FrameView,
    depth: int,
    limit: usize,
    name: Symbol,
    count: u16,
    answer: Option<DynamicAnswer>,
    after: FrameView,
    outcome: Result<Entry, Fault>,
) -> bool {
    if frame.stack.len() < count {
        outcome == Err::<Entry, Fault>(Fault::StackUnderflow)
    } else if !(frame.src is Datum) {
        outcome == Err::<Entry, Fault>(Fault::NativeMethodSrc(name))
    } else {
        match answer {
            None => outcome == Ok::<Entry, Fault>(Entry::Engine) && after == frame,
            Some(DynamicAnswer::Value(value)) => outcome == Ok::<Entry, Fault>(Entry::Skip)
                && after == frame.dropping(count as int).push(value).advanced(),
            Some(DynamicAnswer::Unresolved(why)) => outcome == Err::<Entry, Fault>(
                Fault::Host(why),
            ),
            Some(DynamicAnswer::Target(target)) => if depth >= limit {
                outcome == Err::<Entry, Fault>(Fault::CallDepth(limit))
            } else {
                match module.spec_procedure(target.procedure) {
                    None => outcome == Err::<Entry, Fault>(
                        Fault::UnknownProcedure(target.procedure),
                    ),
                    Some(program) => match outcome {
                        Ok(Entry::Enter(next)) => after == frame.dropping(count as int)
                            && activates(
                            next@,
                            target.procedure,
                            program,
                            top_operands(frame, count as int),
                            Seq::empty(),
                            target.context,
                            Seq::empty(),
                        ),
                        _ => false,
                    },
                }
            },
        }
    }
}

/// Executes `NativeSrcMethod`.
pub fn call_method(
    module: &Module,
    frame: &mut CallFrame,
    depth: usize,
    limit: usize,
    name: Symbol,
    count: u16,
    answer: Option<DynamicAnswer>,
) -> (outcome: Result<Entry, Fault>)
    requires
        module_valid(*module),
        old(frame)@.instruction < usize::MAX,
    ensures
        method_called(
            *module,
            old(frame)@,
            depth as int,
            limit,
            name,
            count,
            answer,
            final(frame)@,
            outcome,
        ),
        same_shape(old(frame)@, final(frame)@),
        !(outcome matches Ok(Entry::Skip)) ==> final(frame)@.instruction
            == old(frame)@.instruction,
        outcome matches Ok(Entry::Enter(next)) ==> frame_sound(*module, next@),
{
    let size: usize = frame.stack.len();
    let width: usize = count as usize;
    if size < width {
        return Err(Fault::StackUnderflow);
    }
    match frame.src {
        Value::Datum(_) => {},
        _ => {
            return Err(Fault::NativeMethodSrc(name));
        },
    }
    match answer {
        None => Ok(Entry::Engine),
        Some(DynamicAnswer::Value(value)) => {
            frame.stack.truncate(size - width);
            assert(frame@.stack =~= old(frame)@.dropping(width as int).stack);
            push(frame, value);
            frame.instruction = frame.instruction + 1;
            Ok(Entry::Skip)
        },
        Some(DynamicAnswer::Unresolved(why)) => Err(Fault::Host(why)),
        Some(DynamicAnswer::Target(target)) => {
            if depth >= limit {
                return Err(Fault::CallDepth(limit));
            }
            let arguments = frame.stack.split_off(size - width);
            assert(frame@.stack =~= old(frame)@.dropping(width as int).stack);
            assert(arguments@ =~= top_operands(old(frame)@, width as int));
            let none: Vec<Option<String>> = Vec::new();
            assert(names_view(none@) =~= Seq::<Option<Seq<char>>>::empty());
            match activate(
                module,
                target.procedure,
                &arguments,
                &none,
                &target.context,
                InlineRoots::new(),
            ) {
                Ok(next) => Ok(Entry::Enter(next)),
                Err(fault) => Err(fault),
            }
        },
    }
}

} // verus!
