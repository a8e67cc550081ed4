//! How calls bind their arguments and how frames hand them on.

use vstd::prelude::*;
use crate::fault::Fault;
use crate::frame::{CallFrame, ExecutionContext, FrameView, PackedNumericState};
use crate::inline::{InlineFlags, InlineSlots, InlineValues};
use crate::number::{is_integral, truncated};
use crate::program::{ProcedureId, Program};
use crate::value::{Number, Value};

verus! {

/// The number of parameters up to the last one that has a name.
pub open spec fn declared_count(names: Seq<String>) -> nat
    decreases names.len(),
{
    if names.len() == 0 {
        0
    } else if names.last()@.len() > 0 {
        names.len()
    } else {
        declared_count(names.drop_last())
    }
}

/// The number of formal arguments: an unnamed trailing `...` reserves a local
/// but is none.
pub fn declared_argument_count(program: &Program) -> (count: usize)
    ensures
        count == declared_count(program.parameter_names@),
        count <= program.parameter_names@.len(),
{
    let mut end: usize = program.parameter_names.len();
    let ghost names = program.parameter_names@;
    assert(names.subrange(0, end as int) =~= names);
    while end > 0
        invariant
            end <= names.len(),
            names == program.parameter_names@,
            declared_count(names.subrange(0, end as int)) == declared_count(names),
        decreases end,
    {
        let name = &program.parameter_names[end - 1];
        let empty: bool = name.as_str().is_empty();
        assert(names.subrange(0, end as int).last() == names[end - 1]);
        assert(names.subrange(0, end as int).drop_last() =~= names.subrange(0, end - 1));
        if !empty {
            return end;
        }
        end -= 1;
    }
    0
}

/// The smaller of two naturals.
pub open spec fn smaller(a: nat, b: nat) -> nat {
    if a < b {
        a
    } else {
        b
    }
}

/// `values` followed by as many nulls as `length` still asks for.
pub open spec fn padded(values: Seq<Value>, length: nat) -> Seq<Value> {
    if values.len() < length {
        values + Seq::new((length - values.len()) as nat, |i: int| Value::Null)
    } else {
        values
    }
}

/// The locals of a fresh activation: arguments fill the parameter slots, the
/// rest is null.
pub open spec fn bound_locals(program: Program, arguments: Seq<Value>) -> Seq<Value> {
    Seq::new(
        program.local_count as nat,
        |i: int|
            if i < arguments.len() && i < program.parameter_count {
                arguments[i]
            } else {
                Value::Null
            },
    )
}

/// A fresh activation of a procedure with positional arguments.
pub open spec fn fresh_frame(
    procedure: ProcedureId,
    program: Program,
    arguments: Seq<Value>,
    context: ExecutionContext,
) -> FrameView {
    FrameView {
        procedure,
        instruction: 0,
        locals: bound_locals(program, arguments),
        stack: Seq::empty(),
        result: Value::Null,
        src: context.src,
        usr: context.usr,
        arguments: padded(arguments, declared_count(program.parameter_names@)),
        args_list: None,
        declared_argument_count: declared_count(program.parameter_names@) as usize,
        supplied_parameters: Seq::new(
            program.parameter_count as nat,
            |i: int| i < arguments.len(),
        ),
        cold: None,
        detached_waitfor: false,
        static_locals: Seq::empty(),
        atoms_profile_entry_counted: false,
        atoms_profile_root: false,
        tgm_profile_root: false,
    }
}

/// Activates a procedure with positional arguments.
pub fn make_frame(
    procedure: ProcedureId,
    program: &Program,
    arguments: &Vec<Value>,
    context: &ExecutionContext,
) -> (frame: CallFrame)
    ensures
        frame@ == fresh_frame(procedure, *program, arguments@, *context),
{
    let mut values = InlineValues::new();
    let mut at: usize = 0;
    while at < arguments.len()
        invariant
            at <= arguments@.len(),
            values@ =~= arguments@.subrange(0, at as int),
        decreases arguments@.len() - at,
    {
        values.push(arguments[at]);
        at += 1;
    }
    assert(values@ =~= arguments@);
    make_frame_inline(procedure, program, values, context)
}

/// Activates a procedure with positional arguments that it takes over.
pub fn make_frame_owned(
    procedure: ProcedureId,
    program: &Program,
    arguments: InlineValues,
    context: &ExecutionContext,
) -> (frame: CallFrame)
    ensures
        frame@ == fresh_frame(procedure, *program, arguments@, *context),
{
    make_frame_inline(procedure, program, arguments, context)
}

fn make_frame_inline(
    procedure: ProcedureId,
    program: &Program,
    supplied: InlineValues,
    context: &ExecutionContext,
) -> (frame: CallFrame)
    ensures
        frame@ == fresh_frame(procedure, *program, supplied@, *context),
{
    let mut arguments = supplied;
    let ghost given = arguments@;
    let declared_argument_count: usize = declared_argument_count(program);
    let count: usize = arguments.len();
    let mut locals = InlineValues::new();
    let mut slot: usize = 0;
    while slot < program.local_count
        invariant
            slot <= program.local_count,
            count == given.len(),
            arguments@ == given,
            locals@ =~= bound_locals(*program, given).subrange(0, slot as int),
        decreases program.local_count - slot,
    {
        if slot < count && slot < program.parameter_count {
            locals.push(arguments.get(slot));
        } else {
            locals.push(Value::Null);
        }
        slot += 1;
    }
    assert(locals@ =~= bound_locals(*program, given));
    while arguments.len() < declared_argument_count
        invariant
            given.len() <= arguments@.len(),
            arguments@.len() <= given.len() || arguments@.len() <= declared_argument_count,
            arguments@ =~= padded(given, arguments@.len()),
        decreases declared_argument_count - arguments@.len(),
    {
        arguments.push(Value::Null);
    }
    assert(arguments@ =~= padded(given, declared_argument_count as nat));
    let mut supplied_parameters = InlineFlags::new();
    let mut parameter: usize = 0;
    while parameter < program.parameter_count
        invariant
            parameter <= program.parameter_count,
            count == given.len(),
            supplied_parameters@ =~= Seq::new(parameter as nat, |i: int| i < given.len()),
        decreases program.parameter_count - parameter,
    {
        supplied_parameters.push(parameter < count);
        parameter += 1;
    }
    CallFrame {
        procedure,
        instruction: 0,
        locals,
        stack: InlineValues::new(),
        result: Value::Null,
        src: context.src,
        usr: context.usr,
        arguments,
        args_list: None,
        declared_argument_count,
        supplied_parameters,
        cold: None,
        detached_waitfor: false,
        static_locals: InlineSlots::new(),
        atoms_profile_entry_counted: false,
        atoms_profile_root: false,
        tgm_profile_root: false,
    }
}

/// Whether the parameter at `at` is the first one called `name`.
pub open spec fn is_parameter(names: Seq<String>, name: Seq<char>, at: int) -> bool {
    &&& 0 <= at < names.len()
    &&& names[at]@ == name
    &&& forall|i: int| 0 <= i < at ==> (#[trigger] names[i])@ != name
}

/// The position of the first parameter called `name`.
pub open spec fn parameter_position(names: Seq<String>, name: Seq<char>) -> Option<int> {
    if exists|at: int| is_parameter(names, name, at) {
        Some(choose|at: int| is_parameter(names, name, at))
    } else {
        None
    }
}

/// The parameter that the argument at `index` names, if it names one.
pub open spec fn named_parameter(
    parameters: Seq<String>,
    names: Seq<Option<String>>,
    index: int,
) -> Option<int> {
    if index < names.len() {
        match names[index] {
            Some(name) => parameter_position(parameters, name@),
            None => None,
        }
    } else {
        None
    }
}

/// Arguments sorted into parameter slots.
pub struct NamedBinding {
    pub positioned: Seq<Value>,
    pub supplied: Seq<bool>,
    pub extras: Seq<Value>,
    pub next_positional: nat,
}

/// The binding of the first `count` arguments: a named one goes to its
/// parameter, any other to the next position; what has no slot is kept in order.
pub open spec fn bind_named(
    program: Program,
    arguments: Seq<Value>,
    names: Seq<Option<String>>,
    count: nat,
) -> NamedBinding
    decreases count,
{
    if count == 0 {
        NamedBinding {
            positioned: Seq::new(program.parameter_count as nat, |i: int| Value::Null),
            supplied: Seq::new(program.parameter_count as nat, |i: int| false),
            extras: Seq::empty(),
            next_positional: 0,
        }
    } else {
        let index = count - 1;
        let before = bind_named(program, arguments, names, index as nat);
        let named = named_parameter(program.parameter_names@, names, index);
        let slot = match named {
            Some(slot) => slot,
            None => before.next_positional as int,
        };
        let next_positional = match named {
            Some(_) => before.next_positional,
            None => before.next_positional + 1,
        };
        if slot < before.positioned.len() {
            NamedBinding {
                positioned: before.positioned.update(slot, arguments[index]),
                supplied: before.supplied.update(slot, true),
                extras: before.extras,
                next_positional,
            }
        } else {
            NamedBinding {
                positioned: before.positioned,
                supplied: before.supplied,
                extras: before.extras.push(arguments[index]),
                next_positional,
            }
        }
    }
}

/// Whether any argument is named.
pub open spec fn any_named(names: Seq<Option<String>>) -> bool {
    exists|i: int| 0 <= i < names.len() && (#[trigger] names[i]) is Some
}

/// A fresh activation whose arguments may be named.
pub open spec fn named_frame(
    procedure: ProcedureId,
    program: Program,
    arguments: Seq<Value>,
    names: Seq<Option<String>>,
    context: ExecutionContext,
) -> FrameView {
    if any_named(names) {
        let binding = bind_named(program, arguments, names, arguments.len());
        FrameView {
            arguments: binding.positioned.subrange(
                0,
                declared_count(program.parameter_names@) as int,
            ) + binding.extras,
            supplied_parameters: binding.supplied,
            ..fresh_frame(procedure, program, binding.positioned, context)
        }
    } else {
        fresh_frame(procedure, program, arguments, context)
    }
}

/// Whether any argument is named.
pub fn has_named(names: &Vec<Option<String>>) -> (found: bool)
    ensures
        found == any_named(names@),
{
    let mut at: usize = 0;
    while at < names.len()
        invariant
            at <= names@.len(),
            forall|i: int| 0 <= i < at ==> (#[trigger] names@[i]) is None,
        decreases names@.len() - at,
    {
        if names[at].is_some() {
            return true;
        }
        at += 1;
    }
    false
}

fn find_parameter(names: &Vec<String>, name: &String) -> (found: Option<usize>)
    ensures
        parameter_position(names@, name@) == match found {
            Some(at) => Some(at as int),
            None => None,
        },
        match found {
            Some(at) => at < names@.len(),
            None => true,
        },
{
    let mut at: usize = 0;
    while at < names.len()
        invariant
            at <= names@.len(),
            forall|i: int| 0 <= i < at ==> (#[trigger] names@[i])@ != name@,
        decreases names@.len() - at,
    {
        if names[at] == *name {
            proof {
                assert(is_parameter(names@, name@, at as int));
                let chosen = choose|i: int| is_parameter(names@, name@, i);
                assert(is_parameter(names@, name@, chosen));
                if chosen < at {
                    assert(names@[chosen]@ != name@);
                }
            }
            return Some(at);
        }
        at += 1;
    }
    None
}

/// Activates a procedure with arguments some of which may be named.
pub fn make_frame_named(
    procedure: ProcedureId,
    program: &Program,
    arguments: &Vec<Value>,
    argument_names: &Vec<Option<String>>,
    context: &ExecutionContext,
) -> (frame: CallFrame)
    requires
        any_named(argument_names@) ==> declared_count(program.parameter_names@)
            <= program.parameter_count,
    ensures
        frame@ == named_frame(procedure, *program, arguments@, argument_names@, *context),
{
    if !has_named(argument_names) {
        return make_frame(procedure, program, arguments, context);
    }
    let parameter_count: usize = program.parameter_count;
    let mut positioned: Vec<Value> = Vec::new();
    let mut supplied = InlineFlags::new();
    while positioned.len() < parameter_count
        invariant
            positioned@.len() <= parameter_count,
            positioned@ =~= Seq::new(positioned@.len(), |i: int| Value::Null),
            supplied@ =~= Seq::new(positioned@.len(), |i: int| false),
        decreases parameter_count - positioned@.len(),
    {
        positioned.push(Value::Null);
        supplied.push(false);
    }
    let mut extras: Vec<Value> = Vec::new();
    let mut next_positional: usize = 0;
    let mut index: usize = 0;
    while index < arguments.len()
        invariant
            index <= arguments@.len(),
            next_positional <= index,
            ({
                let binding = bind_named(*program, arguments@, argument_names@, index as nat);
                &&& positioned@ == binding.positioned
                &&& supplied@ == binding.supplied
                &&& extras@ == binding.extras
                &&& next_positional == binding.next_positional
            }),
            positioned@.len() == parameter_count == program.parameter_count,
            supplied@.len() == parameter_count,
        decreases arguments@.len() - index,
    {
        let named: Option<usize> = if index < argument_names.len() {
            match &argument_names[index] {
                Some(name) => find_parameter(&program.parameter_names, name),
                None => None,
            }
        } else {
            None
        };
        let slot: usize = match named {
            Some(slot) => slot,
            None => {
                let slot: usize = next_positional;
                next_positional += 1;
                slot
            },
        };
        if slot < positioned.len() {
            positioned.set(slot, arguments[index]);
            supplied.set(slot, true);
        } else {
            extras.push(arguments[index]);
        }
        index += 1;
    }
    let mut frame = make_frame(procedure, program, &positioned, context);
    let declared: usize = declared_argument_count(program);
    let mut values = InlineValues::new();
    let mut at: usize = 0;
    while at < declared
        invariant
            at <= declared <= positioned@.len(),
            values@ =~= positioned@.subrange(0, at as int),
        decreases declared - at,
    {
        values.push(positioned[at]);
        at += 1;
    }
    let mut extra: usize = 0;
    while extra < extras.len()
        invariant
            extra <= extras@.len(),
            declared <= positioned@.len(),
            values@ =~= positioned@.subrange(0, declared as int) + extras@.subrange(
                0,
                extra as int,
            ),
        decreases extras@.len() - extra,
    {
        values.push(extras[extra]);
        extra += 1;
    }
    assert(extras@.subrange(0, extras@.len() as int) =~= extras@);
    frame.arguments = values;
    frame.supplied_parameters = supplied;
    frame
}

/// The owner and user of a frame.
pub fn frame_context(frame: &CallFrame) -> (context: ExecutionContext)
    ensures
        context.src == frame@.src,
        context.usr == frame@.usr,
{
    ExecutionContext::new(frame.src, frame.usr)
}

/// The arguments that an argumentless self or parent call forwards: the live
/// parameter variables, then any extra values of the original call.
pub open spec fn forwarded(frame: FrameView, declared: nat) -> Seq<Value> {
    Seq::new(
        frame.arguments.len(),
        |i: int|
            if i < declared && i < frame.locals.len() {
                frame.locals[i]
            } else {
                frame.arguments[i]
            },
    )
}

/// Collects the arguments that an argumentless self or parent call forwards.
pub fn forwarded_frame_arguments(frame: &CallFrame, program: &Program) -> (arguments: InlineValues)
    requires
        smaller(frame@.locals.len(), declared_count(program.parameter_names@))
            <= frame@.arguments.len(),
    ensures
        arguments@ == forwarded(frame@, declared_count(program.parameter_names@)),
{
    let mut arguments = frame.arguments.clone();
    let declared: usize = declared_argument_count(program);
    let mut index: usize = 0;
    while index < declared && index < frame.locals.len()
        invariant
            index <= declared,
            index <= frame@.locals.len(),
            smaller(frame@.locals.len(), declared as nat) <= frame@.arguments.len(),
            arguments@ =~= forwarded(frame@, index as nat),
        decreases declared - index,
    {
        arguments.set(index, frame.locals.get(index));
        index += 1;
    }
    assert(arguments@ =~= forwarded(frame@, declared as nat));
    arguments
}

/// The list position that a value denotes.
pub open spec fn list_position(key: Value) -> Option<usize> {
    match key {
        Value::Number(number) if is_integral(number) && 0 <= truncated(number) <= usize::MAX =>
            Some(truncated(number) as usize),
        _ => None,
    }
}

/// Reads a list position from a key.
pub fn value_to_list_index(key: Value) -> (index: Result<usize, Fault>)
    ensures
        match index {
            Ok(index) => list_position(key) == Some(index),
            Err(fault) => list_position(key) is None && fault == Fault::InvalidListIndex(key),
        },
{
    match key {
        Value::Number(number) => match number.list_index() {
            Some(index) => Ok(index),
            None => Err(Fault::InvalidListIndex(key)),
        },
        _ => Err(Fault::InvalidListIndex(key)),
    }
}

/// The frame after `args[position] = value`: a declared position also writes
/// its parameter variable.
pub open spec fn argument_written(
    frame: FrameView,
    declared: nat,
    position: int,
    value: Value,
) -> FrameView {
    let slot = position - 1;
    FrameView {
        arguments: frame.arguments.update(slot, value),
        locals: if slot < declared && slot < frame.locals.len() {
            frame.locals.update(slot, value)
        } else {
            frame.locals
        },
        ..frame
    }
}

/// Carries a write to the `args` list over to the frame.
pub fn synchronize_frame_argument_write(
    frame: &mut CallFrame,
    program: &Program,
    key: Value,
    value: Value,
) -> (written: Result<(), Fault>)
    ensures
        match written {
            Ok(()) => list_position(key) is Some && 1 <= list_position(key)->0 <= old(
                frame,
            )@.arguments.len() && final(frame)@ == argument_written(
                old(frame)@,
                declared_count(program.parameter_names@),
                list_position(key)->0 as int,
                value,
            ),
            Err(fault) => final(frame)@ == old(frame)@ && match list_position(key) {
                Some(position) => !(1 <= position <= old(frame)@.arguments.len()) && fault
                    == (Fault::ArgsPosition {
                    position,
                    length: old(frame)@.arguments.len() as usize,
                }),
                None => fault == Fault::InvalidListIndex(key),
            },
        },
{
    let index: usize = match value_to_list_index(key) {
        Ok(index) => index,
        Err(fault) => {
            return Err(fault);
        },
    };
    let length: usize = frame.arguments.len();
    if index == 0 || index > length {
        return Err(Fault::ArgsPosition { position: index, length });
    }
    let slot: usize = index - 1;
    frame.arguments.set(slot, value);
    if slot < declared_argument_count(program) && slot < frame.locals.len() {
        frame.locals.set(slot, value);
    }
    Ok(())
}

/// Whether a value is null or a number.
pub open spec fn is_numeric(value: Value) -> bool {
    value is Null || value is Number
}

/// The packed form of a null or a number.
pub open spec fn packed(value: Value) -> Option<Number> {
    match value {
        Value::Number(number) => Some(number),
        _ => None,
    }
}

/// The value that a packed form stands for.
pub open spec fn unpacked(number: Option<Number>) -> Value {
    match number {
        Some(number) => Value::Number(number),
        None => Value::Null,
    }
}

/// Whether a frame holds only nulls and numbers.
pub open spec fn frame_is_numeric(frame: FrameView) -> bool {
    &&& forall|i: int| 0 <= i < frame.locals.len() ==> is_numeric(#[trigger] frame.locals[i])
    &&& forall|i: int| 0 <= i < frame.stack.len() ==> is_numeric(#[trigger] frame.stack[i])
    &&& is_numeric(frame.result)
}

fn pack_values(values: &InlineValues) -> (packed_values: Option<Vec<Option<Number>>>)
    ensures
        match packed_values {
            Some(numbers) => (forall|i: int|
                0 <= i < values@.len() ==> is_numeric(#[trigger] values@[i])) && numbers@
                == values@.map_values(|value: Value| packed(value)),
            None => exists|i: int| 0 <= i < values@.len() && !is_numeric(#[trigger] values@[i]),
        },
{
    let mut numbers: Vec<Option<Number>> = Vec::new();
    let mut at: usize = 0;
    while at < values.len()
        invariant
            at <= values@.len(),
            forall|i: int| 0 <= i < at ==> is_numeric(#[trigger] values@[i]),
            numbers@ =~= values@.subrange(0, at as int).map_values(|value: Value| packed(value)),
        decreases values@.len() - at,
    {
        let value = values.get(at);
        match value {
            Value::Null => {
                numbers.push(None);
            },
            Value::Number(number) => {
                numbers.push(Some(number));
            },
            _ => {
                assert(!is_numeric(values@[at as int]));
                return None;
            },
        }
        at += 1;
    }
    assert(values@.subrange(0, at as int) =~= values@);
    Some(numbers)
}

fn unpack_values(numbers: &Vec<Option<Number>>) -> (values: InlineValues)
    ensures
        values@ == numbers@.map_values(|number: Option<Number>| unpacked(number)),
{
    let mut values = InlineValues::new();
    let mut at: usize = 0;
    while at < numbers.len()
        invariant
            at <= numbers@.len(),
            values@ =~= numbers@.subrange(0, at as int).map_values(
                |number: Option<Number>| unpacked(number),
            ),
        decreases numbers@.len() - at,
    {
        match numbers[at] {
            Some(number) => {
                values.push(Value::Number(number));
            },
            None => {
                values.push(Value::Null);
            },
        }
        at += 1;
    }
    assert(numbers@.subrange(0, at as int) =~= numbers@);
    values
}

impl PackedNumericState {
    /// Packs a frame that holds only nulls and numbers.
    pub fn from_rich(frame: &CallFrame) -> (state: Option<PackedNumericState>)
        ensures
            match state {
                Some(state) => frame_is_numeric(frame@) && state.locals@
                    == frame@.locals.map_values(|value: Value| packed(value)) && state.stack@
                    == frame@.stack.map_values(|value: Value| packed(value)) && state.result
                    == packed(frame@.result),
                None => !frame_is_numeric(frame@),
            },
    {
        let locals = match pack_values(&frame.locals) {
            Some(locals) => locals,
            None => {
                proof {
                    let i = choose|i: int|
                        0 <= i < frame.locals@.len() && !is_numeric(#[trigger] frame.locals@[i]);
                    assert(!is_numeric(frame@.locals[i]));
                }
                return None;
            },
        };
        let stack = match pack_values(&frame.stack) {
            Some(stack) => stack,
            None => {
                proof {
                    let i = choose|i: int|
                        0 <= i < frame.stack@.len() && !is_numeric(#[trigger] frame.stack@[i]);
                    assert(!is_numeric(frame@.stack[i]));
                }
                return None;
            },
        };
        let result: Option<Number> = match frame.result {
            Value::Null => None,
            Value::Number(number) => Some(number),
            _ => {
                return None;
            },
        };
        Some(PackedNumericState { locals, stack, result })
    }

    /// Writes the packed values back into a frame.
    pub fn materialize(self, frame: &mut CallFrame)
        ensures
            final(frame)@ == (FrameView {
                locals: self.locals@.map_values(|number: Option<Number>| unpacked(number)),
                stack: self.stack@.map_values(|number: Option<Number>| unpacked(number)),
                result: unpacked(self.result),
                ..old(frame)@
            }),
    {
        frame.locals = unpack_values(&self.locals);
        frame.stack = unpack_values(&self.stack);
        frame.result = match self.result {
            Some(number) => Value::Number(number),
            None => Value::Null,
        };
    }
}

/// Packing a numeric frame and writing it back restores every value.
pub proof fn lemma_packing_round_trip(values: Seq<Value>)
    requires
        forall|i: int| 0 <= i < values.len() ==> is_numeric(#[trigger] values[i]),
    ensures
        values.map_values(|value: Value| packed(value)).map_values(
            |number: Option<Number>| unpacked(number),
        ) == values,
{
    assert(values.map_values(|value: Value| packed(value)).map_values(
        |number: Option<Number>| unpacked(number),
    ) =~= values);
}

/// An argumentless call forwards what a fresh activation received.
pub proof fn lemma_fresh_frame_forwards(
    procedure: ProcedureId,
    program: Program,
    arguments: Seq<Value>,
    context: ExecutionContext,
)
    requires
        declared_count(program.parameter_names@) <= program.parameter_count,
        declared_count(program.parameter_names@) <= program.local_count,
    ensures
        forwarded(
            fresh_frame(procedure, program, arguments, context),
            declared_count(program.parameter_names@),
        ) == padded(arguments, declared_count(program.parameter_names@)),
{
    let declared = declared_count(program.parameter_names@);
    assert(forwarded(fresh_frame(procedure, program, arguments, context), declared) =~= padded(
        arguments,
        declared,
    ));
}

/// A new frame holds at least the declared arguments and remembers how many
/// there are.
pub proof fn lemma_named_frame_fits(
    procedure: ProcedureId,
    program: Program,
    arguments: Seq<Value>,
    names: Seq<Option<String>>,
    context: ExecutionContext,
)
    requires
        declared_count(program.parameter_names@) <= program.parameter_count,
    ensures
        named_frame(procedure, program, arguments, names, context).procedure == procedure,
        named_frame(procedure, program, arguments, names, context).declared_argument_count
            == declared_count(program.parameter_names@) as usize,
        named_frame(procedure, program, arguments, names, context).arguments.len()
            >= declared_count(program.parameter_names@),
{
    lemma_binding_width(program, arguments, names, arguments.len());
}

proof fn lemma_binding_width(
    program: Program,
    arguments: Seq<Value>,
    names: Seq<Option<String>>,
    count: nat,
)
    ensures
        bind_named(program, arguments, names, count).positioned.len() == program.parameter_count,
    decreases count,
{
    if count > 0 {
        lemma_binding_width(program, arguments, names, (count - 1) as nat);
    }
}

} // verus!
