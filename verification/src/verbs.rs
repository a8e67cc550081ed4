//! The verbs that clients and mobs offer, and the commands that run them.

use vstd::prelude::*;
use crate::activation::{fresh_frame, make_frame};
use crate::calling::CallTarget;
use crate::clients::{read_field, ClientError};
use crate::commands::{
    all_blank, normalize_client_command_name, normalized_name, parse_client_command_arguments,
    scanned, split_client_command, splits, texts, ClientCommandError,
};
use crate::frame::{CallFrame, FrameView};
use crate::heap::{HeapError, HeapView};
use crate::inline::InlineFlags;
use crate::maps::SymbolMap;
use crate::program::{Module, ProcedureId, Program, VerbParameterType};
use crate::prompts::PendingVerbInvocation;
use crate::scheduling::{continuation_scheduled, same_beside_queue};
use crate::state::ExecutionState;
use crate::symbols::{know, SymbolTable};
use crate::text::{
    before_mark, chars_of, contains_text, last_place, occurs_last, range_of, string_of, up_to_mark,
};
use crate::value::{DatumId, Number, Symbol, TypePath, Value};

verus! {

/// Where the last `/verb/` of a path stands.
pub open spec fn verb_mark(path: Seq<char>) -> Option<int> {
    if contains_text(path, "/verb/"@) {
        Some(choose|at: int| occurs_last(path, "/verb/"@, at))
    } else {
        None
    }
}

/// The owner and the name of a verb's path.
pub open spec fn verb_parts(path: Seq<char>) -> Option<(Seq<char>, Seq<char>)> {
    match verb_mark(path) {
        Some(at) => Some((path.subrange(0, at), path.subrange(at + 6, path.len() as int))),
        None => None,
    }
}

pub(crate) fn parts_of(path: &Vec<char>) -> (parts: Option<(Vec<char>, Vec<char>)>)
    ensures
        verb_parts(path@) == match parts {
            Some((owner, name)) => Some((owner@, name@)),
            None => None,
        },
{
    proof {
        reveal_strlit("/verb/");
    }
    let part = chars_of("/verb/");
    match last_place(path, &part) {
        Some(at) => {
            let count: usize = path.len();
            let chosen = Ghost(choose|at: int| occurs_last(path@, "/verb/"@, at));
            assert(occurs_last(path@, "/verb/"@, chosen@));
            assert(chosen@ == at);
            Some((range_of(path, 0, at), range_of(path, at + 6, count)))
        },
        None => None,
    }
}

/// The type paths among list entries.
pub open spec fn paths_in(heap: HeapView, items: Seq<Value>) -> Seq<TypePath>
    decreases items.len(),
{
    if items.len() == 0 {
        Seq::empty()
    } else {
        let rest = paths_in(heap, items.drop_last());
        match items.last() {
            Value::TypePath(path) => rest.push(path),
            Value::ModifiedTypePath(id) => if heap.modified.contains_key(id) {
                rest.push(heap.modified[id].base)
            } else {
                rest
            },
            _ => rest,
        }
    }
}

/// The verbs that a datum offers.
pub open spec fn offered_verbs(state: ExecutionState, datum: DatumId) -> Result<
    Seq<TypePath>,
    ClientError,
> {
    match read_field(state, datum, state.names.verbs) {
        Err(error) => Err(error),
        Ok(Value::List(list)) => if state.heap@.lists.contains_key(list) {
            Ok(paths_in(state.heap@, state.heap@.lists[list].items))
        } else {
            Err(ClientError::Heap(HeapError::StaleList(list)))
        },
        Ok(_) => Ok(Seq::empty()),
    }
}

/// Whether a verb answers to a normalized name. A verb is named by its program,
/// else by its path.
pub open spec fn answers_to(
    symbols: SymbolTable,
    module: Module,
    effective: Map<Symbol, ProcedureId>,
    verb: TypePath,
    wanted: Seq<char>,
) -> bool {
    symbols.knows(verb.0) && match verb_parts(symbols.spelling(verb.0)) {
        None => false,
        Some((_, selector)) => effective.contains_key(verb.0) && match module.spec_procedure(
            effective[verb.0],
        ) {
            None => false,
            Some(program) => normalized_name(
                match program.verb_name {
                    Some(name) => name@,
                    None => before_mark(selector, '@'),
                },
            ) == wanted,
        },
    }
}

/// The verbs that answer to a normalized name.
pub open spec fn answering(
    symbols: SymbolTable,
    module: Module,
    effective: Map<Symbol, ProcedureId>,
    verbs: Seq<TypePath>,
    wanted: Seq<char>,
) -> Seq<TypePath>
    decreases verbs.len(),
{
    if verbs.len() == 0 {
        Seq::empty()
    } else {
        let rest = answering(symbols, module, effective, verbs.drop_last(), wanted);
        if answers_to(symbols, module, effective, verbs.last(), wanted) {
            rest.push(verbs.last())
        } else {
            rest
        }
    }
}

/// One argument of a command: its text and its reading as a number.
#[derive(Clone, Copy, PartialEq, Eq, Structural, Debug)]
pub struct CommandArgument {
    pub text: Symbol,
    pub number: Option<Number>,
}

/// Why a command cannot be run.
#[derive(Clone, Copy, PartialEq, Eq, Structural, Debug)]
pub enum CommandError {
    /// The verb takes fewer arguments.
    TooManyArguments { limit: usize, given: usize },
    /// An argument is no number.
    InvalidNumber(usize),
    UnknownProcedure(ProcedureId),
    /// No verb answers to the command.
    UnknownCommand,
    /// The command cannot be read.
    Syntax(ClientCommandError),
    /// The client cannot give commands.
    Client(ClientError),
}

/// The value of an argument for a parameter; `None` where it has to be asked
/// for.
pub open spec fn argument_value(kind: VerbParameterType, argument: CommandArgument, at: usize) -> Result<
    Option<Value>,
    CommandError,
> {
    match kind {
        VerbParameterType::Text => Ok(Some(Value::Text(argument.text))),
        VerbParameterType::Message => Ok(Some(Value::Text(argument.text))),
        VerbParameterType::Color => Ok(Some(Value::Text(argument.text))),
        VerbParameterType::Number => match argument.number {
            Some(number) => Ok(Some(Value::Number(number))),
            None => Err(CommandError::InvalidNumber(at)),
        },
        VerbParameterType::File => Ok(Some(Value::File(argument.text))),
        _ => Ok(None),
    }
}

/// The values of the first arguments of a command.
pub open spec fn argument_values(
    kinds: Seq<VerbParameterType>,
    arguments: Seq<CommandArgument>,
    count: nat,
) -> Result<Seq<Option<Value>>, CommandError>
    decreases count,
{
    if count == 0 {
        Ok(Seq::empty())
    } else {
        match argument_values(kinds, arguments, (count - 1) as nat) {
            Err(error) => Err(error),
            Ok(rest) => match argument_value(
                kinds[count - 1],
                arguments[count - 1],
                (count - 1) as usize,
            ) {
                Err(error) => Err(error),
                Ok(value) => Ok(rest.push(value)),
            },
        }
    }
}

/// The values of all parameters, null where none was given.
pub open spec fn parameter_values(given: Seq<Option<Value>>, count: nat) -> Seq<Value> {
    Seq::new(
        count,
        |i: int|
            if i < given.len() {
                match given[i] {
                    Some(value) => value,
                    None => Value::Null,
                }
            } else {
                Value::Null
            },
    )
}

/// Which parameters were given.
pub open spec fn parameters_given(given: Seq<Option<Value>>, count: nat) -> Seq<bool> {
    Seq::new(count, |i: int| i < given.len() && given[i] is Some)
}

/// The frame of a command's verb.
pub open spec fn command_frame(
    target: CallTarget,
    program: Program,
    given: Seq<Option<Value>>,
) -> FrameView {
    FrameView {
        supplied_parameters: parameters_given(given, program.parameter_count as nat),
        ..fresh_frame(
            target.procedure,
            program,
            parameter_values(given, program.parameter_count as nat),
            target.context,
        )
    }
}

/// What a command with its arguments leads to.
pub enum CommandOutcome {
    /// The verb is scheduled for the current tick.
    Scheduled,
    /// Arguments are missing and have to be asked for.
    Verb(PendingVerbInvocation),
}

/// The copies of a program's parameter names.
pub open spec fn same_texts(a: Seq<String>, b: Seq<String>) -> bool {
    a.len() == b.len() && forall|i: int| 0 <= i < a.len() ==> (#[trigger] a[i])@ == b[i]@
}

/// Whether an invocation waits for the missing arguments of a verb.
pub open spec fn awaits_arguments(
    invocation: PendingVerbInvocation,
    target: CallTarget,
    program: Program,
    given: Seq<Option<Value>>,
    command: Seq<char>,
) -> bool {
    &&& invocation.frame@ == command_frame(target, program, given)
    &&& invocation.parameter_types@ == program.verb_parameter_types@
    &&& same_texts(invocation.parameter_names@, program.parameter_names@)
    &&& invocation.verb_name@ == match program.verb_name {
        Some(name) => name@,
        None => command,
    }
    &&& invocation.parameter == 0
}

/// What running a command does.
pub open spec fn command_run(
    before: ExecutionState,
    module: Module,
    command: Seq<char>,
    target: CallTarget,
    arguments: Seq<CommandArgument>,
    after: ExecutionState,
    outcome: Result<CommandOutcome, CommandError>,
) -> bool {
    match module.spec_procedure(target.procedure) {
        None => after == before && outcome == Err::<CommandOutcome, CommandError>(
            CommandError::UnknownProcedure(target.procedure),
        ),
        Some(program) => if arguments.len() > program.parameter_count {
            after == before && outcome == Err::<CommandOutcome, CommandError>(
                CommandError::TooManyArguments {
                    limit: program.parameter_count,
                    given: arguments.len() as usize,
                },
            )
        } else {
            match argument_values(
                program.verb_parameter_types@,
                arguments,
                arguments.len(),
            ) {
                Err(error) => after == before && outcome == Err::<CommandOutcome, CommandError>(
                    error,
                ),
                Ok(given) => if forall|i: int|
                    0 <= i < program.parameter_count ==> #[trigger] parameters_given(
                        given,
                        program.parameter_count as nat,
                    )[i] {
                    outcome == Ok::<CommandOutcome, CommandError>(CommandOutcome::Scheduled)
                        && same_beside_queue(before, after) && exists|frames: Vec<CallFrame>|
                        #[trigger]
                        continuation_scheduled(before.scheduler, frames, 0, after.scheduler)
                            && frames@.len() == 1 && frames@[0]@ == command_frame(
                            target,
                            program,
                            given,
                        )
                } else {
                    after == before && match outcome {
                        Ok(CommandOutcome::Verb(invocation)) => awaits_arguments(
                            invocation,
                            target,
                            program,
                            given,
                            command,
                        ),
                        _ => false,
                    }
                },
            }
        },
    }
}

/// A command that a client gave: whose it is, and what it says.
pub struct ClientCommand {
    pub client: DatumId,
    pub mob: DatumId,
    pub name: String,
    pub arguments: String,
}

/// What reading a command of a client gives.
pub open spec fn command_read(
    state: ExecutionState,
    client: DatumId,
    command: Seq<char>,
    outcome: Result<ClientCommand, CommandError>,
) -> bool {
    if !state.clients.mobs@.contains_key(client.0) {
        outcome == Err::<ClientCommand, CommandError>(CommandError::Client(ClientError::Detached))
    } else {
        let mob = state.clients.mobs@[client.0];
        if !state.heap@.datums.contains_key(client) {
            outcome == Err::<ClientCommand, CommandError>(
                CommandError::Client(ClientError::Heap(HeapError::StaleDatum(client))),
            )
        } else if !state.heap@.datums.contains_key(mob) {
            outcome == Err::<ClientCommand, CommandError>(
                CommandError::Client(ClientError::Heap(HeapError::StaleDatum(mob))),
            )
        } else {
            match outcome {
                Ok(read) => read.client == client && read.mob == mob && splits(
                    command,
                    read.name@,
                    read.arguments@,
                ),
                Err(error) => all_blank(command) && error == CommandError::Syntax(
                    ClientCommandError::Empty,
                ),
            }
        }
    }
}

/// The name by which the procedure of a verb is looked up.
pub open spec fn verb_selector(path: Seq<char>) -> Option<Seq<char>> {
    match verb_parts(path) {
        Some((_, selector)) => Some("verb/"@ + before_mark(selector, '@')),
        None => None,
    }
}

/// The number that an argument was read as.
pub open spec fn number_at(numbers: Seq<Option<Number>>, index: int) -> Option<Number> {
    if index < numbers.len() {
        numbers[index]
    } else {
        None
    }
}

/// Whether the texts of arguments became known, each with the number it was read as.
pub open spec fn arguments_known(
    before: ExecutionState,
    written: Seq<Seq<char>>,
    numbers: Seq<Option<Number>>,
    arguments: Seq<CommandArgument>,
    after: ExecutionState,
) -> bool {
    &&& after == (ExecutionState { symbols: after.symbols, ..before })
    &&& before.symbols@.is_prefix_of(after.symbols@)
    &&& arguments.len() == written.len()
    &&& forall|i: int|
        0 <= i < arguments.len() ==> after.symbols.spells(
            (#[trigger] arguments[i]).text,
            written[i],
        ) && arguments[i].number == number_at(numbers, i)
}

/// Where the verbs lead that answer to a command: for each verb of the client,
/// and for each verb of its mob, in the order they are offered, the procedure
/// that it was resolved to.
pub struct ResolvedVerbs {
    pub own: Vec<Option<CallTarget>>,
    /// Why the verbs of the mob cannot be read, where they cannot.
    pub mobs: Result<Vec<Option<CallTarget>>, ClientError>,
}

/// The first verb that was resolved.
pub open spec fn first_resolved(targets: Seq<Option<CallTarget>>) -> Option<CallTarget>
    decreases targets.len(),
{
    if targets.len() == 0 {
        None
    } else {
        match first_resolved(targets.drop_last()) {
            Some(target) => Some(target),
            None => targets.last(),
        }
    }
}

/// The verb that a command runs: the first of the client's that was resolved, else
/// the first of the mob's.
pub open spec fn chosen_target(resolved: ResolvedVerbs) -> Result<Option<CallTarget>, ClientError> {
    match first_resolved(resolved.own@) {
        Some(target) => Ok(Some(target)),
        None => match resolved.mobs {
            Ok(targets) => Ok(first_resolved(targets@)),
            Err(error) => Err(error),
        },
    }
}

/// Whether a verb knows the kinds of as many parameters as arguments are given,
/// where it takes that many.
pub open spec fn knows_kinds(module: Module, target: CallTarget, count: nat) -> bool {
    match module.spec_procedure(target.procedure) {
        Some(program) => count <= program.parameter_count ==> count
            <= program.verb_parameter_types@.len(),
        None => true,
    }
}

fn find_resolved(targets: &Vec<Option<CallTarget>>) -> (target: Option<CallTarget>)
    ensures
        target == first_resolved(targets@),
{
    let mut at: usize = 0;
    assert(targets@.subrange(0, 0) =~= Seq::<Option<CallTarget>>::empty());
    while at < targets.len()
        invariant
            at <= targets@.len(),
            first_resolved(targets@.subrange(0, at as int)) is None,
        decreases targets@.len() - at,
    {
        proof {
            let longer = targets@.subrange(0, at + 1);
            assert(longer.drop_last() =~= targets@.subrange(0, at as int));
            assert(longer.last() == targets@[at as int]);
        }
        match targets[at] {
            Some(target) => {
                proof {
                    lemma_resolved_stays(targets@, (at + 1) as nat, targets@.len());
                    assert(targets@.subrange(0, targets@.len() as int) =~= targets@);
                }
                return Some(target);
            },
            None => {},
        }
        at += 1;
    }
    assert(targets@.subrange(0, at as int) =~= targets@);
    None
}

proof fn lemma_resolved_stays(targets: Seq<Option<CallTarget>>, few: nat, many: nat)
    requires
        few <= many <= targets.len(),
        first_resolved(targets.subrange(0, few as int)) is Some,
    ensures
        first_resolved(targets.subrange(0, many as int)) == first_resolved(
            targets.subrange(0, few as int),
        ),
    decreases many,
{
    if few < many {
        lemma_resolved_stays(targets, few, (many - 1) as nat);
        assert(targets.subrange(0, many as int).drop_last() =~= targets.subrange(0, many - 1));
    }
}

/// The verb that a command runs.
///
/// # Errors
///
/// Returns why the verbs of the mob cannot be read, where none of the client's
/// was resolved.
pub fn choose_target(resolved: &ResolvedVerbs) -> (target: Result<
    Option<CallTarget>,
    ClientError,
>)
    ensures
        target == chosen_target(*resolved),
{
    match find_resolved(&resolved.own) {
        Some(target) => Ok(Some(target)),
        None => match &resolved.mobs {
            Ok(targets) => Ok(find_resolved(targets)),
            Err(error) => Err(*error),
        },
    }
}

/// A verb of the client that is resolved is run whatever the mob offers.
pub proof fn lemma_client_verbs_first(resolved: ResolvedVerbs, at: int)
    requires
        0 <= at < resolved.own@.len(),
        resolved.own@[at] is Some,
    ensures
        chosen_target(resolved) is Ok,
        chosen_target(resolved)->Ok_0 is Some,
        resolved.own@.contains(chosen_target(resolved)->Ok_0),
{
    lemma_first_found(resolved.own@, at);
}

proof fn lemma_first_found(targets: Seq<Option<CallTarget>>, at: int)
    requires
        0 <= at < targets.len(),
        targets[at] is Some,
    ensures
        first_resolved(targets) is Some,
        targets.contains(first_resolved(targets)),
    decreases targets.len(),
{
    let rest = targets.drop_last();
    if first_resolved(rest) is Some {
        lemma_found_within(rest);
        let i = choose|i: int| 0 <= i < rest.len() && rest[i] == first_resolved(rest);
        assert(targets[i] == first_resolved(targets));
    } else {
        if at < rest.len() {
            lemma_first_found(rest, at);
        }
        assert(targets[targets.len() - 1] == first_resolved(targets));
    }
}

proof fn lemma_found_within(targets: Seq<Option<CallTarget>>)
    requires
        first_resolved(targets) is Some,
    ensures
        targets.contains(first_resolved(targets)),
    decreases targets.len(),
{
    let rest = targets.drop_last();
    if first_resolved(rest) is Some {
        lemma_found_within(rest);
        let i = choose|i: int| 0 <= i < rest.len() && rest[i] == first_resolved(rest);
        assert(targets[i] == first_resolved(targets));
    } else {
        assert(targets[targets.len() - 1] == first_resolved(targets));
    }
}

/// What giving a command does once its verb was looked up.
pub open spec fn command_queued(
    before: ExecutionState,
    module: Module,
    name: Seq<char>,
    arguments: Seq<char>,
    target: Result<Option<CallTarget>, ClientError>,
    numbers: Seq<Option<Number>>,
    after: ExecutionState,
    outcome: Result<CommandOutcome, CommandError>,
) -> bool {
    match target {
        Err(error) => after == before && outcome == Err::<CommandOutcome, CommandError>(
            CommandError::Client(error),
        ),
        Ok(None) => after == before && outcome == Err::<CommandOutcome, CommandError>(
            CommandError::UnknownCommand,
        ),
        Ok(Some(target)) => if module.spec_procedure(target.procedure) is None {
            after == before && outcome == Err::<CommandOutcome, CommandError>(
                CommandError::UnknownProcedure(target.procedure),
            )
        } else {
            let scan = scanned(arguments, arguments.len());
            if scan.quoted {
                after == before && outcome == Err::<CommandOutcome, CommandError>(
                    CommandError::Syntax(ClientCommandError::UnterminatedQuote),
                )
            } else {
                exists|given: Seq<CommandArgument>, known: ExecutionState| #[trigger]
                    arguments_known(before, scan.closed(), numbers, given, known)
                        && #[trigger] command_run(
                        known,
                        module,
                        name,
                        target,
                        given,
                        after,
                        outcome,
                    )
            }
        },
    }
}

fn read_argument(kind: VerbParameterType, argument: CommandArgument, at: usize) -> (value: Result<
    Option<Value>,
    CommandError,
>)
    ensures
        value == argument_value(kind, argument, at),
{
    match kind {
        VerbParameterType::Text => Ok(Some(Value::Text(argument.text))),
        VerbParameterType::Message => Ok(Some(Value::Text(argument.text))),
        VerbParameterType::Color => Ok(Some(Value::Text(argument.text))),
        VerbParameterType::Number => match argument.number {
            Some(number) => Ok(Some(Value::Number(number))),
            None => Err(CommandError::InvalidNumber(at)),
        },
        VerbParameterType::File => Ok(Some(Value::File(argument.text))),
        _ => Ok(None),
    }
}

proof fn lemma_argument_fault_stays(
    kinds: Seq<VerbParameterType>,
    arguments: Seq<CommandArgument>,
    early: nat,
    late: nat,
    error: CommandError,
)
    requires
        early <= late,
        argument_values(kinds, arguments, early) == Err::<Seq<Option<Value>>, CommandError>(error),
    ensures
        argument_values(kinds, arguments, late) == Err::<Seq<Option<Value>>, CommandError>(error),
    decreases late,
{
    if early < late {
        lemma_argument_fault_stays(kinds, arguments, early, (late - 1) as nat, error);
    }
}

fn read_arguments(kinds: &Vec<VerbParameterType>, arguments: &Vec<CommandArgument>) -> (given:
    Result<Vec<Option<Value>>, CommandError>)
    requires
        arguments@.len() <= kinds@.len(),
    ensures
        match given {
            Ok(given) => argument_values(kinds@, arguments@, arguments@.len()) == Ok::<
                Seq<Option<Value>>,
                CommandError,
            >(given@),
            Err(error) => argument_values(kinds@, arguments@, arguments@.len()) == Err::<
                Seq<Option<Value>>,
                CommandError,
            >(error),
        },
{
    let mut given: Vec<Option<Value>> = Vec::new();
    let mut at: usize = 0;
    assert(given@ =~= Seq::<Option<Value>>::empty());
    while at < arguments.len()
        invariant
            at <= arguments@.len() <= kinds@.len(),
            argument_values(kinds@, arguments@, at as nat) == Ok::<
                Seq<Option<Value>>,
                CommandError,
            >(given@),
        decreases arguments@.len() - at,
    {
        match read_argument(kinds[at], arguments[at], at) {
            Ok(value) => {
                given.push(value);
            },
            Err(error) => {
                proof {
                    assert(argument_values(kinds@, arguments@, (at + 1) as nat) == Err::<
                        Seq<Option<Value>>,
                        CommandError,
                    >(error));
                    lemma_argument_fault_stays(
                        kinds@,
                        arguments@,
                        (at + 1) as nat,
                        arguments@.len(),
                        error,
                    );
                }
                return Err(error);
            },
        }
        at += 1;
    }
    Ok(given)
}

fn copy_texts(texts: &Vec<String>) -> (copy: Vec<String>)
    ensures
        same_texts(copy@, texts@),
{
    let mut copy: Vec<String> = Vec::new();
    let mut at: usize = 0;
    while at < texts.len()
        invariant
            at <= texts@.len(),
            copy@.len() == at,
            forall|i: int| 0 <= i < at ==> (#[trigger] copy@[i])@ == texts@[i]@,
        decreases texts@.len() - at,
    {
        copy.push(texts[at].clone());
        at += 1;
    }
    copy
}

fn copy_kinds(kinds: &Vec<VerbParameterType>) -> (copy: Vec<VerbParameterType>)
    ensures
        copy@ == kinds@,
{
    let mut copy: Vec<VerbParameterType> = Vec::new();
    let mut at: usize = 0;
    while at < kinds.len()
        invariant
            at <= kinds@.len(),
            copy@ =~= kinds@.subrange(0, at as int),
        decreases kinds@.len() - at,
    {
        copy.push(kinds[at]);
        at += 1;
    }
    copy
}

fn build_frame(target: &CallTarget, program: &Program, given: &Vec<Option<Value>>) -> (built: (
    CallFrame,
    bool,
))
    ensures
        built.0@ == command_frame(*target, *program, given@),
        built.1 == (forall|i: int|
            0 <= i < program.parameter_count ==> #[trigger] parameters_given(
                given@,
                program.parameter_count as nat,
            )[i]),
{
    let count: usize = program.parameter_count;
    let mut values: Vec<Value> = Vec::new();
    let mut flags = InlineFlags::new();
    let mut all: bool = true;
    let ghost wanted = parameters_given(given@, count as nat);
    let mut at: usize = 0;
    while at < count
        invariant
            at <= count == program.parameter_count,
            wanted == parameters_given(given@, count as nat),
            values@ == parameter_values(given@, count as nat).subrange(0, at as int),
            flags@ == wanted.subrange(0, at as int),
            all == (forall|i: int| 0 <= i < at ==> #[trigger] wanted[i]),
        decreases count - at,
    {
        let value: Option<Value> = if at < given.len() {
            given[at]
        } else {
            None
        };
        match value {
            Some(value) => {
                values.push(value);
                flags.push(true);
                assert(wanted[at as int]);
            },
            None => {
                values.push(Value::Null);
                flags.push(false);
                all = false;
                assert(!wanted[at as int]);
            },
        }
        at += 1;
        assert(values@ =~= parameter_values(given@, count as nat).subrange(0, at as int));
        assert(flags@ =~= wanted.subrange(0, at as int));
    }
    assert(values@ =~= parameter_values(given@, count as nat));
    assert(flags@ =~= wanted);
    let mut frame = make_frame(target.procedure, program, &values, &target.context);
    frame.supplied_parameters = flags;
    (frame, all)
}

impl ExecutionState {
    /// The verbs that a datum offers.
    pub fn local_verb_inventory(&self, datum: DatumId) -> (verbs: Result<
        Vec<TypePath>,
        ClientError,
    >)
        ensures
            match verbs {
                Ok(verbs) => offered_verbs(*self, datum) == Ok::<Seq<TypePath>, ClientError>(
                    verbs@,
                ),
                Err(error) => offered_verbs(*self, datum) == Err::<Seq<TypePath>, ClientError>(
                    error,
                ),
            },
    {
        let mut verbs: Vec<TypePath> = Vec::new();
        assert(verbs@ =~= Seq::<TypePath>::empty());
        let list = match self.client_field(datum, self.names.verbs) {
            Ok(Value::List(list)) => list,
            Ok(_) => {
                return Ok(verbs);
            },
            Err(error) => {
                return Err(error);
            },
        };
        let values = match self.heap.list(list) {
            Ok(values) => values,
            Err(error) => {
                return Err(ClientError::Heap(error));
            },
        };
        let count: usize = values.len();
        let mut at: usize = 0;
        assert(values@.items.subrange(0, 0) =~= Seq::<Value>::empty());
        while at < count
            invariant
                at <= count == values@.items.len(),
                verbs@ == paths_in(self.heap@, values@.items.subrange(0, at as int)),
            decreases count - at,
        {
            match values.item(at) {
                Value::TypePath(path) => {
                    verbs.push(path);
                },
                Value::ModifiedTypePath(id) => {
                    if let Some(path) = self.heap.modified(id) {
                        verbs.push(path.base);
                    }
                },
                _ => {},
            }
            at += 1;
            assert(values@.items.subrange(0, at as int).drop_last() =~= values@.items.subrange(
                0,
                at - 1,
            ));
        }
        assert(values@.items.subrange(0, at as int) =~= values@.items);
        Ok(verbs)
    }

    fn verb_answers(
        &self,
        module: &Module,
        effective: &SymbolMap<ProcedureId>,
        verb: TypePath,
        wanted: &String,
    ) -> (answers: bool)
        ensures
            answers == answers_to(self.symbols, *module, effective@, verb, wanted@),
    {
        let path = match self.symbols.chars(verb.0) {
            Some(path) => path,
            None => {
                return false;
            },
        };
        let selector = match parts_of(path) {
            Some((_, selector)) => selector,
            None => {
                return false;
            },
        };
        let procedure = match effective.get(verb.0) {
            Some(procedure) => *procedure,
            None => {
                return false;
            },
        };
        let program = match module.procedure(procedure) {
            Some(program) => program,
            None => {
                return false;
            },
        };
        let name = match &program.verb_name {
            Some(name) => normalize_client_command_name(name.as_str()),
            None => {
                let own = string_of(up_to_mark(&selector, '@'));
                normalize_client_command_name(own.as_str())
            },
        };
        crate::symbols::str_equal(name.as_str(), wanted.as_str())
    }

    /// The verbs of a datum that answer to a command, in the order they are
    /// offered. The effective procedure of each verb comes from the engine.
    pub fn command_candidates(
        &self,
        module: &Module,
        effective: &SymbolMap<ProcedureId>,
        datum: DatumId,
        command: &str,
    ) -> (candidates: Result<Vec<TypePath>, ClientError>)
        ensures
            match offered_verbs(*self, datum) {
                Err(error) => candidates == Err::<Vec<TypePath>, ClientError>(error),
                Ok(verbs) => candidates is Ok && candidates->Ok_0@ == answering(
                    self.symbols,
                    *module,
                    effective@,
                    verbs,
                    normalized_name(command@),
                ),
            },
    {
        let wanted = normalize_client_command_name(command);
        let verbs = match self.local_verb_inventory(datum) {
            Ok(verbs) => verbs,
            Err(error) => {
                return Err(error);
            },
        };
        let mut found: Vec<TypePath> = Vec::new();
        let mut at: usize = 0;
        assert(verbs@.subrange(0, 0) =~= Seq::<TypePath>::empty());
        assert(found@ =~= Seq::<TypePath>::empty());
        while at < verbs.len()
            invariant
                at <= verbs@.len(),
                wanted@ == normalized_name(command@),
                found@ == answering(
                    self.symbols,
                    *module,
                    effective@,
                    verbs@.subrange(0, at as int),
                    wanted@,
                ),
            decreases verbs@.len() - at,
        {
            let verb = verbs[at];
            if self.verb_answers(module, effective, verb, &wanted) {
                found.push(verb);
            }
            at += 1;
            assert(verbs@.subrange(0, at as int).drop_last() =~= verbs@.subrange(0, at - 1));
        }
        assert(verbs@.subrange(0, at as int) =~= verbs@);
        Ok(found)
    }

    /// Reads a command that a client gave.
    pub fn read_client_command(&self, client: DatumId, command: &str) -> (outcome: Result<
        ClientCommand,
        CommandError,
    >)
        ensures
            command_read(*self, client, command@, outcome),
    {
        let mob = match self.clients.mobs.get(client.0) {
            Some(mob) => *mob,
            None => {
                return Err(CommandError::Client(ClientError::Detached));
            },
        };
        if !self.heap.has_datum(client) {
            return Err(CommandError::Client(ClientError::Heap(HeapError::StaleDatum(client))));
        }
        if !self.heap.has_datum(mob) {
            return Err(CommandError::Client(ClientError::Heap(HeapError::StaleDatum(mob))));
        }
        match split_client_command(command) {
            Ok((name, arguments)) => Ok(ClientCommand { client, mob, name, arguments }),
            Err(error) => Err(CommandError::Syntax(error)),
        }
    }

    /// The name by which the procedure of a verb is looked up.
    pub fn find_verb_selector(&self, verb: TypePath) -> (selector: Option<String>)
        ensures
            match selector {
                Some(selector) => self.symbols.knows(verb.0) && verb_selector(
                    self.symbols.spelling(verb.0),
                ) == Some(selector@),
                None => !self.symbols.knows(verb.0) || verb_selector(
                    self.symbols.spelling(verb.0),
                ) is None,
            },
    {
        let path = match self.symbols.chars(verb.0) {
            Some(path) => path,
            None => {
                return None;
            },
        };
        match parts_of(path) {
            Some((_, selector)) => {
                let mut name = chars_of("verb/");
                let mut own = up_to_mark(&selector, '@');
                name.append(&mut own);
                Some(string_of(name))
            },
            None => None,
        }
    }

    /// Gives a command whose verbs were looked up. The numbers are what the
    /// arguments read as.
    pub fn queue_local_client_command(
        &mut self,
        module: &Module,
        command: &ClientCommand,
        resolved: &ResolvedVerbs,
        numbers: &Vec<Option<Number>>,
    ) -> (outcome: Result<CommandOutcome, CommandError>)
        requires
            scanned(command.arguments@, command.arguments@.len()).quoted || match chosen_target(
                *resolved,
            ) {
                Ok(Some(target)) => knows_kinds(
                    *module,
                    target,
                    scanned(command.arguments@, command.arguments@.len()).closed().len(),
                ),
                _ => true,
            },
        ensures
            command_queued(
                *old(self),
                *module,
                command.name@,
                command.arguments@,
                chosen_target(*resolved),
                numbers@,
                *final(self),
                outcome,
            ),
    {
        let target = match choose_target(resolved) {
            Ok(Some(target)) => target,
            Ok(None) => {
                return Err(CommandError::UnknownCommand);
            },
            Err(error) => {
                return Err(CommandError::Client(error));
            },
        };
        if module.procedure(target.procedure).is_none() {
            return Err(CommandError::UnknownProcedure(target.procedure));
        }
        let written = match parse_client_command_arguments(command.arguments.as_str()) {
            Ok(written) => written,
            Err(error) => {
                return Err(CommandError::Syntax(error));
            },
        };
        let ghost start = *self;
        let mut arguments: Vec<CommandArgument> = Vec::new();
        let mut at: usize = 0;
        while at < written.len()
            invariant
                at <= written@.len(),
                *self == (ExecutionState { symbols: self.symbols, ..start }),
                start.symbols@.is_prefix_of(self.symbols@),
                arguments@.len() == at,
                forall|i: int|
                    0 <= i < at ==> self.symbols.spells(
                        (#[trigger] arguments@[i]).text,
                        written@[i]@,
                    ) && arguments@[i].number == number_at(numbers@, i),
            decreases written@.len() - at,
        {
            let ghost earlier = self.symbols;
            let text = know(&mut self.symbols, written[at].as_str());
            let number = if at < numbers.len() {
                numbers[at]
            } else {
                None
            };
            arguments.push(CommandArgument { text, number });
            assert forall|i: int| 0 <= i < at + 1 implies self.symbols.spells(
                (#[trigger] arguments@[i]).text,
                written@[i]@,
            ) by {
                if i < at {
                    assert(earlier.spells(arguments@[i].text, written@[i]@));
                }
            }
            at += 1;
        }
        let ghost known = *self;
        let outcome = self.run_command(module, command.name.as_str(), target, &arguments);
        assert(texts(written@).len() == arguments@.len());
        assert(arguments_known(start, texts(written@), numbers@, arguments@, known));
        outcome
    }

    /// Runs a command whose verb is resolved: schedules it where all arguments
    /// are given, else hands back what has to be asked for.
    pub fn run_command(
        &mut self,
        module: &Module,
        command: &str,
        target: CallTarget,
        arguments: &Vec<CommandArgument>,
    ) -> (outcome: Result<CommandOutcome, CommandError>)
        requires
            knows_kinds(*module, target, arguments@.len()),
        ensures
            command_run(
                *old(self),
                *module,
                command@,
                target,
                arguments@,
                *final(self),
                outcome,
            ),
    {
        let program = match module.procedure(target.procedure) {
            Some(program) => program,
            None => {
                return Err(CommandError::UnknownProcedure(target.procedure));
            },
        };
        if arguments.len() > program.parameter_count {
            return Err(
                CommandError::TooManyArguments {
                    limit: program.parameter_count,
                    given: arguments.len(),
                },
            );
        }
        let given = match read_arguments(&program.verb_parameter_types, arguments) {
            Ok(given) => given,
            Err(error) => {
                return Err(error);
            },
        };
        let (frame, all) = build_frame(&target, program, &given);
        if all {
            let frames: Vec<CallFrame> = vec![frame];
            assert(frames@[0]@ == command_frame(target, *program, given@));
            self.schedule_frames(frames, 0);
            assert(continuation_scheduled(old(self).scheduler, frames, 0, self.scheduler));
            return Ok(CommandOutcome::Scheduled);
        }
        let verb_name = match &program.verb_name {
            Some(name) => name.clone(),
            None => command.to_owned(),
        };
        Ok(
            CommandOutcome::Verb(
                PendingVerbInvocation {
                    frame,
                    parameter_types: copy_kinds(&program.verb_parameter_types),
                    parameter_names: copy_texts(&program.parameter_names),
                    verb_name,
                    parameter: 0,
                },
            ),
        )
    }
}

} // verus!
