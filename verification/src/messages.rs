//! What runtime errors say.

use vstd::prelude::*;
use crate::arguments::{owned_spelling, spelling_or_empty};
use crate::fault::Fault;
use crate::program::NativeOperation;
use crate::symbols::SymbolTable;
use crate::text::{chars_of, decimal, numbered, push_decimal, string_of};
use crate::value::Value;

verus! {

/// What an error says: a text, and the value that is written behind it.
pub struct MessageView {
    pub text: Seq<char>,
    pub value: Option<Value>,
}

/// What an error says: a text, and the value that is written behind it.
pub struct Message {
    pub text: String,
    pub value: Option<Value>,
}

impl View for Message {
    type V = MessageView;

    open spec fn view(&self) -> MessageView {
        MessageView { text: self.text@, value: self.value }
    }
}

/// A message without a value.
pub open spec fn said(text: Seq<char>) -> Option<MessageView> {
    Some(MessageView { text, value: None })
}

/// A message about a value.
pub open spec fn received(text: Seq<char>, value: Value) -> Option<MessageView> {
    Some(MessageView { text, value: Some(value) })
}

/// What a native operation says of its operands; `None` for those whose operands
/// the instruction fixes.
pub open spec fn operands_message(operation: NativeOperation) -> Option<MessageView> {
    match operation {
        NativeOperation::MakeRegex => said("invalid regex constructor stack"@),
        NativeOperation::MakeMutableAppearance => said(
            "invalid mutable_appearance constructor stack"@,
        ),
        NativeOperation::MakeMatrix => said("invalid matrix constructor stack"@),
        NativeOperation::MakeVector => said("invalid vector constructor stack"@),
        NativeOperation::ReplaceText { .. } => said("invalid replacetext builtin stack"@),
        NativeOperation::CopyText { .. } => said("invalid copytext builtin stack"@),
        NativeOperation::ExternalCall => said("external call stack underflow"@),
        NativeOperation::Range => said("invalid range builtin stack"@),
        NativeOperation::Block => said("invalid block builtin stack"@),
        NativeOperation::TypesOf => said("invalid typesof builtin stack"@),
        NativeOperation::Rand => said("invalid rand builtin stack"@),
        NativeOperation::Roll => said("invalid roll builtin stack"@),
        NativeOperation::Round => said("invalid round builtin stack"@),
        NativeOperation::TypePredicate(_) => said("invalid type predicate builtin stack"@),
        _ => None,
    }
}

/// What a fault says; `None` where the code behind it writes the message: heap
/// accesses, names and positions that cannot be read, jumps and procedures that do
/// not exist.
pub open spec fn fault_message(symbols: SymbolTable, fault: Fault) -> Option<MessageView> {
    match fault {
        Fault::StackUnderflow => said("bytecode stack underflow"@),
        Fault::ProgramEnded => said("program ended without Return"@),
        Fault::HandlerTarget => said("exception handler target is outside the procedure"@),
        Fault::EndTryWithoutTry => said("EndTry without an active exception handler"@),
        Fault::ModifiedTypeBase => said("modified type requires a base type path"@),
        Fault::ArglistNotList => said("arglist requires a list value"@),
        Fault::ArglistNameNotText => said("arglist contains a non-text named argument"@),
        Fault::TooManyArguments => said("expanded call has more than 65535 arguments"@),
        Fault::AnimateOperands => said("animate stack underflow"@),
        Fault::FilterOperands => said("filter stack underflow"@),
        Fault::PickOperands => said("invalid pick builtin stack"@),
        Fault::ArrayDimension => said("array dimension must be numeric"@),
        Fault::ListIndexNull => said("list index operation received null"@),
        Fault::ListLiteralTooLarge => said("list literal is too large"@),
        Fault::AlistLiteralTooLarge => said("alist literal is too large"@),
        Fault::AlistLength => said("alist length can only be assigned zero"@),
        Fault::VisibilityIndexWrite => said(
            "cannot write to an index of a visibility relationship list"@,
        ),
        Fault::GlobalVarsKey => said("global.vars writes require a text key"@),
        Fault::DatumVarsKey => said("datum.vars writes require a text key"@),
        Fault::IterationList => said("local list iteration received a non-list snapshot"@),
        Fault::IterationIndex => said("local list iteration received a non-numeric index"@),
        Fault::FieldReadNull => said("field read received null"@),
        Fault::FieldWriteNull => said("field write received null"@),
        Fault::NoParentTarget => said("parent procedure call has no resolved target"@),
        Fault::UncaughtException(value) => received("uncaught exception: "@, value),
        Fault::Crash(value) => received("CRASH: "@, value),
        Fault::ConstructorOperand(value) => received("new requires a type path, received "@, value),
        Fault::UnqualifiedNew(value) => received(
            "unqualified new requires datum src, received "@, value,
        ),
        Fault::ProbOperand(value) => received("prob requires a number, received "@, value),
        Fault::ListIndexOperand(value) => received("list index operation received "@, value),
        Fault::ListAssignmentOperand(value) => received("list assignment received "@, value),
        Fault::ListMutationOperand(value) => received(
            "list mutation requires a list, received "@, value,
        ),
        Fault::ListLengthOperand(value) => received("list length operation received "@, value),
        Fault::VisibilityMember(value) => received(
            "visibility lists can only contain atoms, received "@, value,
        ),
        Fault::VarsOperand(value) => received("vars requires a datum, received "@, value),
        Fault::FieldReadOperand(value) => received(
            "field read requires a datum, received "@, value,
        ),
        Fault::FieldWriteOperand(value) => received(
            "field write requires a datum or list.len, received "@, value,
        ),
        Fault::FieldMutationOperand(value) => received(
            "increment/decrement field requires a datum or list.len, received "@, value,
        ),
        Fault::InitialOperand(value) => received(
            "initial requires a datum or type path receiver, received "@, value,
        ),
        Fault::InitialKey(value) => received("initial vars index requires text, received "@, value),
        Fault::SleepDelay(value) => received("sleep delay must be numeric, received "@, value),
        Fault::SpawnDelay(value) => received("spawn delay must be numeric, received "@, value),
        Fault::SavefileInput(value) => received("savefile input received "@, value),
        Fault::ListMethodSelector(value) => received(
            "list procedure selector must be text, received "@, value,
        ),
        Fault::InvalidLocalSlot(slot) => said("invalid local slot "@ + decimal(slot as nat)),
        Fault::InvalidStaticLocalSlot(slot) => said(
            "invalid static local slot "@ + decimal(slot as nat),
        ),
        Fault::InvalidCatchLocal(slot) => said("invalid catch local "@ + decimal(slot as nat)),
        Fault::BudgetExhausted(steps) => said(
            "instruction budget of "@ + decimal(steps as nat) + " exhausted"@,
        ),
        Fault::CallDepth(depth) => said(
            "maximum call depth "@ + decimal(depth as nat) + " exceeded"@,
        ),
        Fault::ArgsPosition { position, length } => said(
            "DM args position "@ + decimal(position as nat) + " exceeds length "@ + decimal(
                length as nat,
            ),
        ),
        Fault::NativeMethodSrc(name) => said(
            "native method "@ + spelling_or_empty(symbols, name) + " requires a datum src"@,
        ),
        Fault::NativeOperands(operation) => operands_message(operation),
        Fault::Host(message) => said(spelling_or_empty(symbols, message)),
        _ => None,
    }
}

fn say(text: &str) -> (message: Message)
    ensures
        Some(message@) == said(text@),
{
    Message { text: text.to_owned(), value: None }
}

fn receive(text: &str, value: Value) -> (message: Message)
    ensures
        Some(message@) == received(text@, value),
{
    Message { text: text.to_owned(), value: Some(value) }
}

fn finish(text: Vec<char>, end: &str) -> (message: Message)
    ensures
        Some(message@) == said(text@ + end@),
{
    let mut text = text;
    let mut end = chars_of(end);
    text.append(&mut end);
    Message { text: string_of(text), value: None }
}

/// Whether a written message is the one that is due.
pub open spec fn is_message(written: Option<Message>, due: Option<MessageView>) -> bool {
    match written {
        Some(message) => due == Some(message@),
        None => due is None,
    }
}

fn say_operands(operation: NativeOperation) -> (message: Option<Message>)
    ensures
        is_message(message, operands_message(operation)),
{
    match operation {
        NativeOperation::MakeRegex => Some(say("invalid regex constructor stack")),
        NativeOperation::MakeMutableAppearance => Some(
            say("invalid mutable_appearance constructor stack"),
        ),
        NativeOperation::MakeMatrix => Some(say("invalid matrix constructor stack")),
        NativeOperation::MakeVector => Some(say("invalid vector constructor stack")),
        NativeOperation::ReplaceText { .. } => Some(say("invalid replacetext builtin stack")),
        NativeOperation::CopyText { .. } => Some(say("invalid copytext builtin stack")),
        NativeOperation::ExternalCall => Some(say("external call stack underflow")),
        NativeOperation::Range => Some(say("invalid range builtin stack")),
        NativeOperation::Block => Some(say("invalid block builtin stack")),
        NativeOperation::TypesOf => Some(say("invalid typesof builtin stack")),
        NativeOperation::Rand => Some(say("invalid rand builtin stack")),
        NativeOperation::Roll => Some(say("invalid roll builtin stack")),
        NativeOperation::Round => Some(say("invalid round builtin stack")),
        NativeOperation::TypePredicate(_) => Some(say("invalid type predicate builtin stack")),
        _ => None,
    }
}

/// Writes what a fault says.
pub fn describe(symbols: &SymbolTable, fault: Fault) -> (message: Option<Message>)
    ensures
        is_message(message, fault_message(*symbols, fault)),
{
    match fault {
        Fault::StackUnderflow => Some(say("bytecode stack underflow")),
        Fault::ProgramEnded => Some(say("program ended without Return")),
        Fault::HandlerTarget => Some(say("exception handler target is outside the procedure")),
        Fault::EndTryWithoutTry => Some(say("EndTry without an active exception handler")),
        Fault::ModifiedTypeBase => Some(say("modified type requires a base type path")),
        Fault::ArglistNotList => Some(say("arglist requires a list value")),
        Fault::ArglistNameNotText => Some(say("arglist contains a non-text named argument")),
        Fault::TooManyArguments => Some(say("expanded call has more than 65535 arguments")),
        Fault::AnimateOperands => Some(say("animate stack underflow")),
        Fault::FilterOperands => Some(say("filter stack underflow")),
        Fault::PickOperands => Some(say("invalid pick builtin stack")),
        Fault::ArrayDimension => Some(say("array dimension must be numeric")),
        Fault::ListIndexNull => Some(say("list index operation received null")),
        Fault::ListLiteralTooLarge => Some(say("list literal is too large")),
        Fault::AlistLiteralTooLarge => Some(say("alist literal is too large")),
        Fault::AlistLength => Some(say("alist length can only be assigned zero")),
        Fault::VisibilityIndexWrite => Some(
            say("cannot write to an index of a visibility relationship list"),
        ),
        Fault::GlobalVarsKey => Some(say("global.vars writes require a text key")),
        Fault::DatumVarsKey => Some(say("datum.vars writes require a text key")),
        Fault::IterationList => Some(say("local list iteration received a non-list snapshot")),
        Fault::IterationIndex => Some(say("local list iteration received a non-numeric index")),
        Fault::FieldReadNull => Some(say("field read received null")),
        Fault::FieldWriteNull => Some(say("field write received null")),
        Fault::NoParentTarget => Some(say("parent procedure call has no resolved target")),
        Fault::UncaughtException(value) => Some(receive("uncaught exception: ", value)),
        Fault::Crash(value) => Some(receive("CRASH: ", value)),
        Fault::ConstructorOperand(value) => Some(
            receive("new requires a type path, received ", value),
        ),
        Fault::UnqualifiedNew(value) => Some(
            receive("unqualified new requires datum src, received ", value),
        ),
        Fault::ProbOperand(value) => Some(receive("prob requires a number, received ", value)),
        Fault::ListIndexOperand(value) => Some(receive("list index operation received ", value)),
        Fault::ListAssignmentOperand(value) => Some(receive("list assignment received ", value)),
        Fault::ListMutationOperand(value) => Some(
            receive("list mutation requires a list, received ", value),
        ),
        Fault::ListLengthOperand(value) => Some(receive("list length operation received ", value)),
        Fault::VisibilityMember(value) => Some(
            receive("visibility lists can only contain atoms, received ", value),
        ),
        Fault::VarsOperand(value) => Some(receive("vars requires a datum, received ", value)),
        Fault::FieldReadOperand(value) => Some(
            receive("field read requires a datum, received ", value),
        ),
        Fault::FieldWriteOperand(value) => Some(
            receive("field write requires a datum or list.len, received ", value),
        ),
        Fault::FieldMutationOperand(value) => Some(
            receive("increment/decrement field requires a datum or list.len, received ", value),
        ),
        Fault::InitialOperand(value) => Some(
            receive("initial requires a datum or type path receiver, received ", value),
        ),
        Fault::InitialKey(value) => Some(
            receive("initial vars index requires text, received ", value),
        ),
        Fault::SleepDelay(value) => Some(receive("sleep delay must be numeric, received ", value)),
        Fault::SpawnDelay(value) => Some(receive("spawn delay must be numeric, received ", value)),
        Fault::SavefileInput(value) => Some(receive("savefile input received ", value)),
        Fault::ListMethodSelector(value) => Some(
            receive("list procedure selector must be text, received ", value),
        ),
        Fault::InvalidLocalSlot(slot) => Some(
            Message { text: numbered("invalid local slot ", slot as u64), value: None },
        ),
        Fault::InvalidStaticLocalSlot(slot) => Some(
            Message { text: numbered("invalid static local slot ", slot as u64), value: None },
        ),
        Fault::InvalidCatchLocal(slot) => Some(
            Message { text: numbered("invalid catch local ", slot as u64), value: None },
        ),
        Fault::BudgetExhausted(steps) => {
            let mut text = chars_of("instruction budget of ");
            push_decimal(&mut text, steps);
            Some(finish(text, " exhausted"))
        },
        Fault::CallDepth(depth) => {
            let mut text = chars_of("maximum call depth ");
            push_decimal(&mut text, depth as u64);
            Some(finish(text, " exceeded"))
        },
        Fault::ArgsPosition { position, length } => {
            let mut text = chars_of("DM args position ");
            push_decimal(&mut text, position as u64);
            let mut middle = chars_of(" exceeds length ");
            text.append(&mut middle);
            push_decimal(&mut text, length as u64);
            Some(Message { text: string_of(text), value: None })
        },
        Fault::NativeMethodSrc(name) => {
            let mut text = chars_of("native method ");
            let name = owned_spelling(symbols, name);
            let mut name = chars_of(name.as_str());
            text.append(&mut name);
            Some(finish(text, " requires a datum src"))
        },
        Fault::NativeOperands(operation) => say_operands(operation),
        Fault::Host(message) => Some(
            Message { text: owned_spelling(symbols, message), value: None },
        ),
        _ => None,
    }
}

} // verus!
