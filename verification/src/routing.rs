//! The way that a dynamic call takes: a declared procedure, or a native method.

use vstd::prelude::*;
use crate::calling::{call_operands, ready, CallTarget};
use crate::dispatching::{dynamic_operands, dynamic_prefix};
use crate::fault::Fault;
use crate::frame::{CallFrame, FrameView};
use crate::program::EXPANDED_ARGUMENT_COUNT;
use crate::savefiles::{is_live_savefile, is_savefile};
use crate::state::ExecutionState;
use crate::symbols::SymbolTable;
use crate::value::{DatumId, ListId, Symbol, Value};

verus! {

/// The operands of a dynamic call.
pub struct DynamicCall {
    pub receiver: Value,
    /// The selector, where it is computed.
    pub selector: Option<Value>,
    /// The method that the selector names, where it is text.
    pub method: Option<Symbol>,
    pub arguments: Vec<Value>,
}

/// The method that a selector names.
pub open spec fn called_method(selector: Option<Symbol>, computed: Value) -> Option<Symbol> {
    match (selector, computed) {
        (Some(name), _) => Some(name),
        (None, Value::Text(name)) => Some(name),
        _ => None,
    }
}

/// Whether `outcome` holds the operands of a dynamic call.
pub open spec fn dynamic_read(
    frame: FrameView,
    selector: Option<Symbol>,
    fixed: u16,
    outcome: Result<DynamicCall, Fault>,
) -> bool {
    match dynamic_operands(frame, selector, fixed) {
        Err(fault) => outcome == Err::<DynamicCall, Fault>(fault),
        Ok(operands) => {
            let computed = operands.frame.operand(0);
            &&& outcome matches Ok(call)
            &&& call.receiver == operands.frame.operand(dynamic_prefix(selector) - 1)
            &&& call.selector == if selector is None {
                Some(computed)
            } else {
                None
            }
            &&& call.method == called_method(selector, computed)
            &&& call.arguments@ == operands.arguments
        },
    }
}

/// Reads the operands of a dynamic call and leaves them where they are.
pub fn read_dynamic(frame: &CallFrame, selector: Option<Symbol>, fixed: u16) -> (outcome: Result<
    DynamicCall,
    Fault,
>)
    ensures
        dynamic_read(frame@, selector, fixed, outcome),
{
    let count: usize = match ready(frame, fixed) {
        Ok(count) => count,
        Err(fault) => {
            return Err(fault);
        },
    };
    let size: usize = frame.stack.len();
    let above: usize = if fixed == EXPANDED_ARGUMENT_COUNT {
        count + 1
    } else {
        count
    };
    let prefix: usize = if selector.is_none() {
        2
    } else {
        1
    };
    if size - above < prefix {
        return Err(Fault::StackUnderflow);
    }
    let ghost operands = call_operands(frame@, fixed)->Ok_0;
    let first: usize = size - above;
    assert(forall|i: int| 0 <= i < first ==> operands.frame.stack[i] == frame@.stack[i]);
    assert(forall|i: int|
        0 <= i < count ==> operands.arguments[i] == #[trigger] frame@.stack[first + i]);
    let receiver = frame.stack.get(first - prefix);
    let computed = frame.stack.get(first - 1);
    let method: Option<Symbol> = match (selector, computed) {
        (Some(name), _) => Some(name),
        (None, Value::Text(name)) => Some(name),
        _ => None,
    };
    let mut arguments: Vec<Value> = Vec::new();
    let mut at: usize = 0;
    while at < count
        invariant
            at <= count,
            first + count <= size == frame@.stack.len(),
            arguments@.len() == at,
            forall|i: int| 0 <= i < at ==> arguments@[i] == #[trigger] frame@.stack[first + i],
        decreases count - at,
    {
        arguments.push(frame.stack.get(first + at));
        at += 1;
    }
    assert(arguments@ =~= operands.arguments) by {
        assert forall|i: int| 0 <= i < count implies arguments@[i] == operands.arguments[i] by {
            assert(arguments@[i] == frame@.stack[first + i]);
        }
    }
    let selector = if selector.is_none() {
        Some(computed)
    } else {
        None
    };
    Ok(DynamicCall { receiver, selector, method, arguments })
}

/// What the engine knows a datum to be.
#[derive(Clone, Copy, PartialEq, Eq, Structural, Debug)]
pub struct DatumKinds {
    pub matrix: bool,
    pub vector: bool,
    pub regex: bool,
    pub icon: bool,
}

/// The way that a dynamic call takes.
#[derive(Clone, Copy, PartialEq, Eq, Structural, Debug)]
pub enum Route {
    /// A list runs its method.
    List(ListId),
    /// The selector of a list's method is no text.
    Untextual(ListId),
    /// The procedure that the receiver's type declares is called.
    Procedure(CallTarget),
    /// A savefile writes an entry as text.
    Export(DatumId),
    /// A matrix runs its method.
    Matrix(DatumId),
    /// A vector runs its method.
    Vector(DatumId),
    /// A regex replaces what it matches.
    Replace(DatumId),
    /// The arguments of a replacement are too few or too many.
    RefusedReplace(DatumId),
    /// A regex runs another method.
    Regex(DatumId),
    /// An icon runs its method.
    Icon(DatumId),
    /// The target is looked up by the receiver and the selector.
    Lookup,
}

/// Whether icons have a method of that name.
pub open spec fn names_icon_method(symbols: SymbolTable, name: Symbol) -> bool {
    ||| symbols.spells(name, "MapColors"@)
    ||| symbols.spells(name, "Blend"@)
    ||| symbols.spells(name, "SetIntensity"@)
    ||| symbols.spells(name, "Scale"@)
    ||| symbols.spells(name, "Crop"@)
    ||| symbols.spells(name, "Shift"@)
    ||| symbols.spells(name, "Width"@)
    ||| symbols.spells(name, "Height"@)
    ||| symbols.spells(name, "DrawBox"@)
    ||| symbols.spells(name, "Insert"@)
    ||| symbols.spells(name, "GetPixel"@)
    ||| symbols.spells(name, "Turn"@)
    ||| symbols.spells(name, "Flip"@)
    ||| symbols.spells(name, "SwapColor"@)
}

fn is_icon_method(symbols: &SymbolTable, name: Symbol) -> (named: bool)
    ensures
        named == names_icon_method(*symbols, name),
{
    symbols.is(name, "MapColors") || symbols.is(name, "Blend") || symbols.is(name, "SetIntensity")
        || symbols.is(name, "Scale") || symbols.is(name, "Crop") || symbols.is(name, "Shift")
        || symbols.is(name, "Width") || symbols.is(name, "Height") || symbols.is(name, "DrawBox")
        || symbols.is(name, "Insert") || symbols.is(name, "GetPixel") || symbols.is(name, "Turn")
        || symbols.is(name, "Flip") || symbols.is(name, "SwapColor")
}

/// The native method that answers a call on a datum whose type declares no procedure
/// of that name.
pub open spec fn native_route(
    state: ExecutionState,
    datum: DatumId,
    name: Symbol,
    arguments: nat,
    kinds: DatumKinds,
) -> Route {
    if is_savefile(state, datum) && state.symbols.spells(name, "ExportText"@) {
        Route::Export(datum)
    } else if kinds.matrix {
        Route::Matrix(datum)
    } else if kinds.vector {
        Route::Vector(datum)
    } else if kinds.regex {
        if !state.symbols.spells(name, "Replace"@) {
            Route::Regex(datum)
        } else if 2 <= arguments <= 4 {
            Route::Replace(datum)
        } else {
            Route::RefusedReplace(datum)
        }
    } else if kinds.icon && names_icon_method(state.symbols, name) {
        Route::Icon(datum)
    } else {
        Route::Lookup
    }
}

/// The way that a dynamic call takes, given the procedure that a lookup of the method
/// on the receiver found, and what the engine knows the receiver to be.
pub open spec fn routed(
    state: ExecutionState,
    receiver: Value,
    method: Option<Symbol>,
    arguments: nat,
    resolved: Option<CallTarget>,
    kinds: DatumKinds,
) -> Route {
    match (receiver, method) {
        (Value::List(list), Some(_)) => Route::List(list),
        (Value::List(list), None) => Route::Untextual(list),
        (Value::Datum(datum), Some(name)) => match resolved {
            Some(target) => Route::Procedure(target),
            None => native_route(state, datum, name, arguments, kinds),
        },
        _ => Route::Lookup,
    }
}

/// Finds the way that a dynamic call takes.
pub fn route_dynamic(
    state: &ExecutionState,
    call: &DynamicCall,
    resolved: Option<CallTarget>,
    kinds: DatumKinds,
) -> (route: Route)
    ensures
        route == routed(
            *state,
            call.receiver,
            call.method,
            call.arguments@.len(),
            resolved,
            kinds,
        ),
{
    let (datum, name) = match (call.receiver, call.method) {
        (Value::List(list), Some(_)) => {
            return Route::List(list);
        },
        (Value::List(list), None) => {
            return Route::Untextual(list);
        },
        (Value::Datum(datum), Some(name)) => (datum, name),
        _ => {
            return Route::Lookup;
        },
    };
    if let Some(target) = resolved {
        return Route::Procedure(target);
    }
    if is_live_savefile(state, datum) && state.symbols.is(name, "ExportText") {
        return Route::Export(datum);
    }
    if kinds.matrix {
        return Route::Matrix(datum);
    }
    if kinds.vector {
        return Route::Vector(datum);
    }
    if kinds.regex {
        let count: usize = call.arguments.len();
        if !state.symbols.is(name, "Replace") {
            return Route::Regex(datum);
        }
        if 2 <= count && count <= 4 {
            return Route::Replace(datum);
        }
        return Route::RefusedReplace(datum);
    }
    if kinds.icon && is_icon_method(&state.symbols, name) {
        return Route::Icon(datum);
    }
    Route::Lookup
}

/// A procedure that the receiver's type declares hides the native method of its name.
pub proof fn lemma_declared_method_wins(
    state: ExecutionState,
    datum: DatumId,
    name: Symbol,
    arguments: nat,
    target: CallTarget,
    kinds: DatumKinds,
)
    ensures
        routed(state, Value::Datum(datum), Some(name), arguments, Some(target), kinds)
            == Route::Procedure(target),
{
}

/// A replacement is routed exactly where its arguments can be ordered.
pub proof fn lemma_replacement_is_ordered(
    state: ExecutionState,
    datum: DatumId,
    name: Symbol,
    arguments: Seq<Value>,
    kinds: DatumKinds,
)
    ensures
        native_route(state, datum, name, arguments.len(), kinds) == Route::Replace(datum)
            ==> crate::making::replacement_of(datum, arguments) is Some,
        native_route(state, datum, name, arguments.len(), kinds) == Route::RefusedReplace(datum)
            ==> crate::making::replacement_of(datum, arguments) is None,
{
}

} // verus!
