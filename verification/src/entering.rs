//! What a call hands to the procedure that it enters.

use vstd::prelude::*;
use crate::activation::{any_named, bind_named, declared_count, fresh_frame, is_parameter,
    named_frame, named_parameter, parameter_position};
use crate::calling::{activates, bound_names, call_operands, called, context_of, current_called,
    dispatches, CallTarget};
use crate::dispatching::{awaits_login, dynamic_called, parent_called, DynamicAnswer, Entry,
    LoginCall};
use crate::fault::Fault;
use crate::frame::{names_view, CallFrame, ExecutionContext, FrameView};
use crate::program::{Module, ProcedureId, Program, EXPANDED_ARGUMENT_COUNT};
use crate::routing::{routed, DatumKinds, Route};
use crate::state::ExecutionState;
use crate::value::{ListId, Number, Symbol, Value};

verus! {

/// Whether a frame is a new activation that runs in a context.
pub open spec fn begins(frame: FrameView, procedure: ProcedureId, context: ExecutionContext) -> bool {
    &&& frame.procedure == procedure
    &&& frame.instruction == 0
    &&& frame.stack.len() == 0
    &&& frame.result is Null
    &&& frame.src == context.src
    &&& frame.usr == context.usr
}

/// Whether the parameters of a frame hold arguments in their order: one without an argument holds
/// null and counts as not supplied, and so does every other local.
pub open spec fn holds_arguments(frame: FrameView, program: Program, arguments: Seq<Value>) -> bool {
    &&& frame.locals.len() == program.local_count
    &&& frame.supplied_parameters.len() == program.parameter_count
    &&& forall|slot: int| 0 <= slot < frame.locals.len() ==> (#[trigger] frame.locals[slot]) == if slot
        < arguments.len() && slot < program.parameter_count {
        arguments[slot]
    } else {
        Value::Null
    }
    &&& forall|slot: int|
        0 <= slot < program.parameter_count ==> (#[trigger] frame.supplied_parameters[slot] <==> slot
            < arguments.len())
}

/// A procedure begins at its first instruction with its arguments in its first locals, in order.
pub proof fn lemma_arguments_in_order(
    procedure: ProcedureId,
    program: Program,
    arguments: Seq<Value>,
    context: ExecutionContext,
)
    ensures
        begins(fresh_frame(procedure, program, arguments, context), procedure, context),
        holds_arguments(
            fresh_frame(procedure, program, arguments, context),
            program,
            arguments,
        ),
        forall|i: int| 0 <= i < arguments.len() ==> fresh_frame(
            procedure,
            program,
            arguments,
            context,
        ).arguments[i] == #[trigger] arguments[i],
{
}

/// A call to a procedure that is not dispatched takes the given number of operands off the
/// caller's stack, lowest first, hands them over as the arguments, and leaves the operands below.
/// The callee runs with the caller's source and user.
pub proof fn lemma_call_passes_operands(
    module: Module,
    frame: FrameView,
    depth: int,
    limit: usize,
    target: ProcedureId,
    program: Program,
    fixed: u16,
    after: FrameView,
    outcome: Result<Option<CallFrame>, Fault>,
)
    requires
        fixed != EXPANDED_ARGUMENT_COUNT,
        module.spec_procedure(target) == Some(program),
        !dispatches(module, target, frame.src),
        called(module, frame, depth, limit, target, fixed, Seq::empty(), None, after, outcome),
    ensures
        depth >= limit ==> outcome == Err::<Option<CallFrame>, Fault>(Fault::CallDepth(limit)),
        depth < limit && frame.stack.len() < fixed ==> outcome == Err::<Option<CallFrame>, Fault>(
            Fault::StackUnderflow,
        ),
        depth < limit && frame.stack.len() >= fixed ==> (outcome matches Ok(Some(callee)) && {
            &&& after.stack.len() == frame.stack.len() - fixed
            &&& after.stack + frame.stack.subrange(
                frame.stack.len() - fixed,
                frame.stack.len() as int,
            ) == frame.stack
            &&& after == (FrameView { stack: after.stack, ..frame })
            &&& begins(
                callee@,
                target,
                (ExecutionContext { src: frame.src, usr: frame.usr }),
            )
            &&& holds_arguments(
                callee@,
                program,
                frame.stack.subrange(frame.stack.len() - fixed, frame.stack.len() as int),
            )
        }),
{
    if depth < limit && frame.stack.len() >= fixed {
        let passed = frame.stack.subrange(frame.stack.len() - fixed, frame.stack.len() as int);
        assert(after.stack + passed =~= frame.stack);
        let callee = outcome->Ok_0->Some_0;
        assert(names_view(Seq::<Option<String>>::empty()) =~= Seq::empty());
        lemma_nameless_activation(callee@, target, program, passed, context_of(frame));
    }
}

pub(crate) proof fn lemma_nameless_activation(
    callee: FrameView,
    procedure: ProcedureId,
    program: Program,
    arguments: Seq<Value>,
    context: ExecutionContext,
)
    requires
        activates(callee, procedure, program, arguments, Seq::empty(), context, Seq::empty()),
    ensures
        callee == fresh_frame(procedure, program, arguments, context),
{
    let written = choose|written: Seq<Option<String>>| #[trigger]
        names_view(written) == Seq::<Option<Seq<char>>>::empty() && callee
            == crate::calling::rooted(
            named_frame(procedure, program, arguments, written, context),
            Seq::empty(),
        );
    assert(names_view(written).len() == written.len());
    assert(!any_named(written));
}

/// A call to the running procedure enters it again, with the same source and user, and, where it
/// says no count, with what the procedure was called with.
pub proof fn lemma_current_call_enters_again(
    module: Module,
    program: Program,
    frame: FrameView,
    depth: int,
    limit: usize,
    after: FrameView,
    outcome: Result<Option<CallFrame>, Fault>,
)
    requires
        depth < limit,
        module.spec_procedure(frame.procedure) == Some(program),
        current_called(module, program, frame, depth, limit, None, after, outcome),
    ensures
        outcome matches Ok(Some(callee)) && after == frame && begins(
            callee@,
            frame.procedure,
            (ExecutionContext { src: frame.src, usr: frame.usr }),
        ) && holds_arguments(
            callee@,
            program,
            crate::activation::forwarded(frame, declared_count(program.parameter_names@)),
        ),
{
    let callee = outcome->Ok_0->Some_0;
    assert(names_view(Seq::<Option<String>>::empty()) =~= Seq::empty());
    lemma_nameless_activation(
        callee@,
        frame.procedure,
        program,
        crate::activation::forwarded(frame, declared_count(program.parameter_names@)),
        context_of(frame),
    );
}

/// A dispatched call waits until its target is known, and runs what was found in the context that
/// was found with it.
pub proof fn lemma_dispatched_call_runs_its_target(
    module: Module,
    frame: FrameView,
    depth: int,
    limit: usize,
    target: ProcedureId,
    fixed: u16,
    found: CallTarget,
    program: Program,
    after: FrameView,
    outcome: Result<Option<CallFrame>, Fault>,
)
    requires
        depth < limit,
        fixed != EXPANDED_ARGUMENT_COUNT,
        frame.stack.len() >= fixed,
        dispatches(module, target, frame.src),
        module.spec_procedure(found.procedure) == Some(program),
    ensures
        called(module, frame, depth, limit, target, fixed, Seq::empty(), None, after, outcome)
            ==> outcome == Ok::<Option<CallFrame>, Fault>(None) && after == frame,
        called(
            module,
            frame,
            depth,
            limit,
            target,
            fixed,
            Seq::empty(),
            Some(found),
            after,
            outcome,
        ) ==> (outcome matches Ok(Some(callee)) && begins(callee@, found.procedure, found.context)
            && holds_arguments(
            callee@,
            program,
            frame.stack.subrange(frame.stack.len() - fixed, frame.stack.len() as int),
        ) && after.stack == frame.stack.subrange(0, frame.stack.len() - fixed)),
{
    if called(
        module,
        frame,
        depth,
        limit,
        target,
        fixed,
        Seq::empty(),
        Some(found),
        after,
        outcome,
    ) {
        assert(names_view(Seq::<Option<String>>::empty()) =~= Seq::empty());
        lemma_nameless_activation(
            outcome->Ok_0->Some_0@,
            found.procedure,
            program,
            frame.stack.subrange(frame.stack.len() - fixed, frame.stack.len() as int),
            found.context,
        );
    }
}

/// Only a source that is a datum has calls dispatched on it.
pub proof fn lemma_only_datums_dispatch(module: Module, target: ProcedureId, src: Value)
    requires
        !(src is Datum) || module.spec_path(target) is None,
    ensures
        !dispatches(module, target, src),
{
}

/// The parameter that a name stands for bears that name, and no other parameter before it does.
pub proof fn lemma_name_finds_its_parameter(parameters: Seq<String>, name: Seq<char>)
    ensures
        parameter_position(parameters, name) matches Some(at) ==> {
            &&& 0 <= at < parameters.len()
            &&& parameters[at]@ == name
            &&& forall|i: int| 0 <= i < at ==> (#[trigger] parameters[i])@ != name
        },
        (parameter_position(parameters, name) is None) <==> forall|i: int|
            0 <= i < parameters.len() ==> (#[trigger] parameters[i])@ != name,
{
    if parameter_position(parameters, name) is None {
        lemma_first_parameter(parameters, name, parameters.len());
    }
}

proof fn lemma_first_parameter(parameters: Seq<String>, name: Seq<char>, count: nat)
    requires
        count <= parameters.len(),
        forall|at: int| !is_parameter(parameters, name, at),
    ensures
        forall|i: int| 0 <= i < count ==> (#[trigger] parameters[i])@ != name,
    decreases count,
{
    if count > 0 {
        lemma_first_parameter(parameters, name, (count - 1) as nat);
        assert(!is_parameter(parameters, name, count - 1));
    }
}

proof fn lemma_binding(
    program: Program,
    arguments: Seq<Value>,
    names: Seq<Option<String>>,
    count: nat,
)
    ensures
        bind_named(program, arguments, names, count).positioned.len() == program.parameter_count,
        bind_named(program, arguments, names, count).supplied.len() == program.parameter_count,
        forall|slot: int|
            0 <= slot < program.parameter_count && !(
            #[trigger] bind_named(program, arguments, names, count).supplied[slot]) ==> bind_named(
                program,
                arguments,
                names,
                count,
            ).positioned[slot] is Null,
    decreases count,
{
    if count > 0 {
        lemma_binding(program, arguments, names, (count - 1) as nat);
    }
}

proof fn lemma_binding_keeps(
    program: Program,
    arguments: Seq<Value>,
    names: Seq<Option<String>>,
    from: nat,
    count: nat,
    slot: int,
)
    requires
        from <= count <= arguments.len(),
        0 <= slot < program.parameter_count,
        forall|i: int|
            from <= i < count ==> (#[trigger] named_parameter(program.parameter_names@, names, i))
                is Some && named_parameter(program.parameter_names@, names, i) != Some(slot),
    ensures
        bind_named(program, arguments, names, count).positioned[slot] == bind_named(
            program,
            arguments,
            names,
            from,
        ).positioned[slot],
        bind_named(program, arguments, names, count).supplied[slot] == bind_named(
            program,
            arguments,
            names,
            from,
        ).supplied[slot],
    decreases count,
{
    lemma_binding(program, arguments, names, count);
    if from < count {
        lemma_binding(program, arguments, names, (count - 1) as nat);
        lemma_binding_keeps(program, arguments, names, from, (count - 1) as nat, slot);
        assert(named_parameter(program.parameter_names@, names, count - 1) is Some);
    }
}

/// The last argument that names a parameter ends up in it, where every argument behind it names
/// another one.
pub proof fn lemma_named_argument_reaches_its_parameter(
    procedure: ProcedureId,
    program: Program,
    arguments: Seq<Value>,
    names: Seq<Option<String>>,
    context: ExecutionContext,
    at: int,
    slot: int,
)
    requires
        0 <= at < arguments.len(),
        at < names.len(),
        named_parameter(program.parameter_names@, names, at) == Some(slot),
        0 <= slot < program.parameter_count,
        slot < program.local_count,
        forall|i: int|
            at < i < arguments.len() ==> (#[trigger] named_parameter(
                program.parameter_names@,
                names,
                i,
            )) is Some && named_parameter(program.parameter_names@, names, i) != Some(slot),
    ensures
        named_frame(procedure, program, arguments, names, context).locals[slot] == arguments[at],
        named_frame(procedure, program, arguments, names, context).supplied_parameters[slot],
        begins(
            named_frame(procedure, program, arguments, names, context),
            procedure,
            context,
        ),
{
    assert(names[at] is Some);
    assert(any_named(names));
    lemma_binding(program, arguments, names, at as nat);
    lemma_binding(program, arguments, names, (at + 1) as nat);
    lemma_binding(program, arguments, names, arguments.len());
    assert(bind_named(program, arguments, names, (at + 1) as nat).positioned[slot]
        == arguments[at]);
    lemma_binding_keeps(program, arguments, names, (at + 1) as nat, arguments.len(), slot);
}

/// A parameter that got no argument holds null.
pub proof fn lemma_unsupplied_parameters_are_null(
    procedure: ProcedureId,
    program: Program,
    arguments: Seq<Value>,
    names: Seq<Option<String>>,
    context: ExecutionContext,
    slot: int,
)
    requires
        0 <= slot < program.local_count,
        slot < program.parameter_count ==> !named_frame(
            procedure,
            program,
            arguments,
            names,
            context,
        ).supplied_parameters[slot],
    ensures
        named_frame(procedure, program, arguments, names, context).locals[slot] is Null,
{
    lemma_binding(program, arguments, names, arguments.len());
}

proof fn lemma_binding_in_order(
    program: Program,
    arguments: Seq<Value>,
    names: Seq<Option<String>>,
    count: nat,
)
    requires
        count <= arguments.len(),
        forall|i: int|
            0 <= i < count ==> (#[trigger] named_parameter(program.parameter_names@, names, i))
                is None,
    ensures
        bind_named(program, arguments, names, count).next_positional == count,
        forall|slot: int|
            0 <= slot < count && slot < program.parameter_count ==> (#[trigger] bind_named(
                program,
                arguments,
                names,
                count,
            ).positioned[slot]) == arguments[slot],
        forall|slot: int|
            0 <= slot < program.parameter_count ==> (#[trigger] bind_named(
                program,
                arguments,
                names,
                count,
            ).supplied[slot] <==> slot < count),
    decreases count,
{
    if count > 0 {
        lemma_binding_in_order(program, arguments, names, (count - 1) as nat);
        lemma_binding(program, arguments, names, (count - 1) as nat);
        assert(named_parameter(program.parameter_names@, names, count - 1) is None);
    }
}

/// Arguments before the first one that names a parameter fill the parameters in order, where the
/// others all name parameters further on.
pub proof fn lemma_unnamed_arguments_fill_in_order(
    procedure: ProcedureId,
    program: Program,
    arguments: Seq<Value>,
    names: Seq<Option<String>>,
    context: ExecutionContext,
    count: nat,
    slot: int,
)
    requires
        count <= arguments.len(),
        0 <= slot < count,
        slot < program.parameter_count,
        slot < program.local_count,
        forall|i: int|
            0 <= i < count ==> (#[trigger] named_parameter(program.parameter_names@, names, i))
                is None,
        forall|i: int|
            count <= i < arguments.len() ==> ((#[trigger] named_parameter(
                program.parameter_names@,
                names,
                i,
            )) matches Some(other) && other >= count),
    ensures
        named_frame(procedure, program, arguments, names, context).locals[slot] == arguments[slot],
        named_frame(procedure, program, arguments, names, context).supplied_parameters[slot],
{
    lemma_binding_in_order(program, arguments, names, count);
    lemma_binding(program, arguments, names, arguments.len());
    lemma_binding(program, arguments, names, count);
    lemma_binding_keeps(program, arguments, names, count, arguments.len(), slot);
}

/// A call to the parent enters it with the same source and user, and, where it says no count, with
/// what the procedure itself was called with.
pub proof fn lemma_parent_call_enters_parent(
    state: ExecutionState,
    module: Module,
    program: Program,
    frame: FrameView,
    depth: int,
    limit: usize,
    parent: ProcedureId,
    entering: Program,
    after: FrameView,
    outcome: Result<Entry, Fault>,
)
    requires
        depth < limit,
        !awaits_login(state, module, frame, Some(parent)),
        module.spec_procedure(parent) == Some(entering),
        parent_called(
            state,
            module,
            program,
            frame,
            depth,
            limit,
            Some(parent),
            None,
            None,
            after,
            outcome,
        ),
    ensures
        outcome matches Ok(Entry::Enter(callee)) && after == frame && begins(
            callee@,
            parent,
            (ExecutionContext { src: frame.src, usr: frame.usr }),
        ) && holds_arguments(
            callee@,
            entering,
            crate::activation::forwarded(frame, declared_count(program.parameter_names@)),
        ),
{
    let callee = outcome->Ok_0->Enter_0;
    assert(names_view(Seq::<Option<String>>::empty()) =~= Seq::empty());
    reveal(crate::dispatching::follows);
    lemma_nameless_activation(
        callee@,
        parent,
        entering,
        crate::activation::forwarded(frame, declared_count(program.parameter_names@)),
        context_of(frame),
    );
}

/// A procedure without a parent cannot call it, unless it constructs a client.
pub proof fn lemma_no_parent_to_call(
    state: ExecutionState,
    module: Module,
    program: Program,
    frame: FrameView,
    depth: int,
    limit: usize,
    fixed: Option<u16>,
    login: Option<LoginCall>,
    after: FrameView,
    outcome: Result<Entry, Fault>,
)
    requires
        depth < limit,
        module.spec_path(frame.procedure) is None,
        parent_called(
            state,
            module,
            program,
            frame,
            depth,
            limit,
            None,
            fixed,
            login,
            after,
            outcome,
        ),
    ensures
        outcome == Err::<Entry, Fault>(Fault::NoParentTarget),
{
}

/// A call of a datum's method takes the receiver and the arguments off the stack. What the engine
/// answers takes their place, and a procedure that it finds gets the arguments in their order.
pub proof fn lemma_method_call_takes_receiver_and_arguments(
    module: Module,
    frame: FrameView,
    depth: int,
    limit: usize,
    selector: Symbol,
    fixed: u16,
    answer: Option<DynamicAnswer>,
    after: FrameView,
    outcome: Result<Entry, Fault>,
)
    requires
        depth < limit,
        fixed != EXPANDED_ARGUMENT_COUNT,
        frame.stack.len() > fixed,
        frame.stack[frame.stack.len() - fixed - 1] is Datum,
        dynamic_called(
            module,
            frame,
            depth,
            limit,
            Some(selector),
            fixed,
            Seq::empty(),
            answer,
            after,
            outcome,
        ),
    ensures
        answer is None ==> (outcome matches Ok(Entry::Engine) && after == frame),
        answer matches Some(DynamicAnswer::Value(value)) ==> (outcome matches Ok(Entry::Skip)
            && crate::executing::went_on(
            frame,
            after,
            frame.stack.take(frame.stack.len() - fixed - 1).push(value),
        )),
        answer matches Some(DynamicAnswer::Target(target)) ==> (module.spec_procedure(
            target.procedure,
        ) matches Some(program) ==> (outcome matches Ok(Entry::Enter(callee)) && begins(
            callee@,
            target.procedure,
            target.context,
        ) && holds_arguments(callee@, program, frame.stack.skip(frame.stack.len() - fixed))
            && after == (FrameView {
            stack: frame.stack.take(frame.stack.len() - fixed - 1),
            ..frame
        }))),
{
    let kept = frame.stack.len() - fixed;
    let passed = frame.stack.subrange(kept, frame.stack.len() as int);
    assert(passed =~= frame.stack.skip(kept));
    let below = frame.stack.subrange(0, kept);
    assert(below.subrange(0, below.len() - 1) =~= frame.stack.take(kept - 1));
    assert(below[below.len() - 1] == frame.stack[kept - 1]);
    assert(names_view(Seq::<Option<String>>::empty()) =~= Seq::empty());
    if let Some(DynamicAnswer::Target(target)) = answer {
        if module.spec_procedure(target.procedure) is Some {
            lemma_nameless_activation(
                outcome->Ok_0->Enter_0@,
                target.procedure,
                module.spec_procedure(target.procedure)->0,
                passed,
                target.context,
            );
        }
    }
}

/// A call whose arguments were spread out takes as many operands as the topmost one says, binds
/// them by the names that the spreading left, and leaves nothing for the next call.
pub proof fn lemma_spread_call_takes_its_count(
    frame: FrameView,
    number: Number,
    count: usize,
    names: Seq<Option<Seq<char>>>,
    written: Seq<Option<String>>,
)
    requires
        frame.stack.len() > count,
        frame.stack.last() == Value::Number(number),
        crate::number::is_integral(number),
        crate::number::truncated(number) == count,
        frame.cold is Some,
        frame.cold_or_blank().pending_argument_names == Some(names),
    ensures
        call_operands(frame, EXPANDED_ARGUMENT_COUNT) matches Ok(operands) && {
            &&& operands.arguments == frame.stack.subrange(
                frame.stack.len() - 1 - count,
                frame.stack.len() - 1,
            )
            &&& operands.frame.stack == frame.stack.take(frame.stack.len() - 1 - count)
            &&& operands.frame.cold_or_blank().pending_argument_names is None
            &&& operands.frame.cold_or_blank().pending_argument_roots.len() == 0
            &&& operands.frame.locals == frame.locals
            &&& operands.roots == frame.cold_or_blank().pending_argument_roots
            &&& bound_names(operands.names, written) == names
        },
        bound_names(None, written) == names_view(written),
{
    let operands = call_operands(frame, EXPANDED_ARGUMENT_COUNT)->Ok_0;
    let last = frame.stack.len() - 1;
    let counted = frame.stack.subrange(0, last);
    assert(counted.subrange(last - count, last) =~= frame.stack.subrange(last - count, last));
    assert(counted.subrange(0, last - count) =~= frame.stack.take(last - count));
    assert(operands.arguments =~= frame.stack.subrange(last - count, last));
}

/// A method of a list goes to the list where a text names it; only a datum's method can be a
/// procedure that was found.
pub proof fn lemma_methods_go_to_their_receiver(
    state: ExecutionState,
    list: ListId,
    name: Symbol,
    arguments: nat,
    target: CallTarget,
    kinds: DatumKinds,
)
    ensures
        routed(state, Value::List(list), Some(name), arguments, Some(target), kinds) == Route::List(
            list,
        ),
        routed(state, Value::List(list), None, arguments, Some(target), kinds) == Route::Untextual(
            list,
        ),
        routed(state, Value::Null, Some(name), arguments, Some(target), kinds) is Lookup,
{
}

} // verus!
