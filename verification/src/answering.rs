//! What clients' answers and commands come to, and how argument lists spread out.

use vstd::prelude::*;
use crate::answers::{answer_value, prompt_answered, verb_answered, PromptError, PromptOutcome};
use crate::arguments::{expand_effect, expanded, list_expanded, Expansion};
use crate::calling::CallTarget;
use crate::clients::ClientError;
use crate::commands::{is_blank, normalized_name, scanned};
use crate::fault::Fault;
use crate::frame::{CallFrame, FrameView};
use crate::list::ListView;
use crate::program::{Module, ProcedureId, Program, VerbParameterType};
use crate::prompts::{LocalClientPromptKind, LocalClientPromptResponse, PendingPromptContinuation,
    PendingVerbInvocation};
use crate::scheduling::continuation_scheduled;
use crate::state::ExecutionState;
use crate::symbols::SymbolTable;
use crate::value::{DatumId, Number, Symbol, TypePath, Value};
use crate::verbs::{answering, answers_to, argument_value, argument_values, chosen_target,
    command_run, first_resolved, CommandArgument, CommandError, CommandOutcome, ResolvedVerbs};

verus! {

/// A choice stands for the value offered at its place, and only lists and alerts offer values.
pub proof fn lemma_choice_is_what_was_offered(
    id: u64,
    kind: LocalClientPromptKind,
    choices: Seq<Value>,
    can_cancel: bool,
    index: usize,
)
    ensures
        answer_value(id, kind, choices, can_cancel, LocalClientPromptResponse::Choice(index))
            is Ok <==> (kind is List || kind is Alert) && index < choices.len(),
        answer_value(
            id,
            kind,
            choices,
            can_cancel,
            LocalClientPromptResponse::Choice(index),
        ) matches Ok(value) ==> value == choices[index as int],
{
}

/// A prompt is left without an answer only where it may be cancelled, and then with null.
pub proof fn lemma_cancelling_gives_null(
    id: u64,
    kind: LocalClientPromptKind,
    choices: Seq<Value>,
    can_cancel: bool,
)
    ensures
        answer_value(id, kind, choices, can_cancel, LocalClientPromptResponse::Null) is Ok
            <==> can_cancel,
        answer_value(id, kind, choices, can_cancel, LocalClientPromptResponse::Null) matches Ok(
            value,
        ) ==> value is Null,
{
}

/// A text answers what asks for one, as a file where a file was asked for and as a number where a
/// number was; a number answers only what asks for a number.
pub proof fn lemma_texts_and_numbers_answer_their_kind(
    id: u64,
    kind: LocalClientPromptKind,
    choices: Seq<Value>,
    can_cancel: bool,
    text: Symbol,
    number: Number,
)
    ensures
        kind is Text || kind is Message || kind is Color ==> answer_value(
            id,
            kind,
            choices,
            can_cancel,
            LocalClientPromptResponse::Text(text, None),
        ) == Ok::<Value, PromptError>(Value::Text(text)),
        kind is File ==> answer_value(
            id,
            kind,
            choices,
            can_cancel,
            LocalClientPromptResponse::Text(text, None),
        ) == Ok::<Value, PromptError>(Value::File(text)),
        kind is Number ==> answer_value(
            id,
            kind,
            choices,
            can_cancel,
            LocalClientPromptResponse::Text(text, Some(number)),
        ) == Ok::<Value, PromptError>(Value::Number(number)),
        kind is Number ==> answer_value(
            id,
            kind,
            choices,
            can_cancel,
            LocalClientPromptResponse::Text(text, None),
        ) is Err,
        answer_value(id, kind, choices, can_cancel, LocalClientPromptResponse::Number(number))
            is Ok <==> kind is Number && crate::number::is_finite(number),
        answer_value(
            id,
            kind,
            choices,
            can_cancel,
            LocalClientPromptResponse::Number(number),
        ) matches Ok(value) ==> value == Value::Number(number),
{
}

/// An answer makes the frames that wait for it due at once, with the answer on top of the
/// innermost stack; the prompt is gone and every other prompt stays.
pub proof fn lemma_answer_resumes_the_asker(
    before: ExecutionState,
    client: DatumId,
    id: u64,
    response: LocalClientPromptResponse,
    after: ExecutionState,
    outcome: Result<PromptOutcome, PromptError>,
    frames: Vec<CallFrame>,
    value: Value,
)
    requires
        prompt_answered(before, client, id, response, after, outcome),
        before.clients.prompts@.contains_key(id as u128),
        before.clients.prompts@[id as u128].client == client,
        before.clients.prompts@[id as u128].continuation == PendingPromptContinuation::Frames(
            frames,
        ),
        frames@.len() > 0,
        answer_value(
            id,
            before.clients.prompts@[id as u128].kind,
            before.clients.prompts@[id as u128].choices@,
            before.clients.prompts@[id as u128].can_cancel,
            response,
        ) == Ok::<Value, PromptError>(value),
    ensures
        outcome is Ok,
        after.scheduler.spawns@.len() == before.scheduler.spawns@.len() + 1,
        after.scheduler.spawns@.last().due_tick == before.scheduler.tick,
        after.scheduler.spawns@.last().frames.frames@.len() == frames@.len(),
        forall|i: int| 0 <= i < frames@.len() - 1 ==> (
        #[trigger] after.scheduler.spawns@.last().frames.frames@[i]) == frames@[i],
        after.scheduler.spawns@.last().frames.frames@.last()@.stack == frames@.last()@.stack.push(
            value,
        ),
        after.scheduler.spawns@.last().frames.frames@.last()@.instruction
            == frames@.last()@.instruction,
        after.scheduler.spawns@.last().frames.frames@.last()@.locals == frames@.last()@.locals,
        !after.clients.prompts@.contains_key(id as u128),
        forall|other: u128| other != id ==> #[trigger] after.clients.prompts@.contains_key(other)
            == before.clients.prompts@.contains_key(other),
{
    let scheduled = choose|scheduled: Vec<CallFrame>| #[trigger]
        continuation_scheduled(before.scheduler, scheduled, 0, after.scheduler)
            && scheduled@.len() == frames@.len() && scheduled@.drop_last() == frames@.drop_last()
            && scheduled@.last()@ == frames@.last()@.push(value);
    assert(continuation_scheduled(before.scheduler, scheduled, 0, after.scheduler));
    assert(after.scheduler.spawns@.last().frames.frames == scheduled);
    assert forall|i: int| 0 <= i < frames@.len() - 1 implies (
    #[trigger] after.scheduler.spawns@.last().frames.frames@[i]) == frames@[i] by {
        assert(scheduled@.drop_last()[i] == frames@.drop_last()[i]);
    }
}

/// Nobody answers for another client.
pub proof fn lemma_only_the_asked_client_answers(
    before: ExecutionState,
    client: DatumId,
    id: u64,
    response: LocalClientPromptResponse,
    after: ExecutionState,
    outcome: Result<PromptOutcome, PromptError>,
)
    requires
        prompt_answered(before, client, id, response, after, outcome),
        before.clients.prompts@.contains_key(id as u128) ==> before.clients.prompts@[id as u128].client
            != client,
    ensures
        outcome is Err,
        after.clients.prompts@ == before.clients.prompts@,
        after.scheduler == before.scheduler,
{
}

/// An answer to a verb becomes the argument that was asked for and no other.
pub proof fn lemma_answer_is_the_asked_argument(
    invocation: PendingVerbInvocation,
    value: Value,
    answered: PendingVerbInvocation,
    other: int,
)
    requires
        verb_answered(invocation, value, answered),
        !(invocation.parameter_types@[invocation.parameter as int] is File),
        invocation.parameter < invocation.frame@.locals.len(),
        invocation.parameter < invocation.frame@.supplied_parameters.len(),
        0 <= other < invocation.frame@.locals.len(),
        other != invocation.parameter,
    ensures
        answered.frame@.locals[invocation.parameter as int] == value,
        answered.frame@.supplied_parameters[invocation.parameter as int],
        invocation.parameter < answered.frame@.arguments.len(),
        answered.frame@.arguments[invocation.parameter as int] == value,
        answered.frame@.locals.len() == invocation.frame@.locals.len(),
        answered.frame@.locals[other] == invocation.frame@.locals[other],
        other < invocation.frame@.supplied_parameters.len()
            ==> answered.frame@.supplied_parameters[other]
            == invocation.frame@.supplied_parameters[other],
        other < invocation.frame@.arguments.len() ==> answered.frame@.arguments[other]
            == invocation.frame@.arguments[other],
        answered.frame@.procedure == invocation.frame@.procedure,
        answered.frame@.instruction == invocation.frame@.instruction,
        answered.parameter == invocation.parameter,
{
}

/// A text that answers a file parameter becomes a file.
pub proof fn lemma_file_parameter_takes_a_file(
    invocation: PendingVerbInvocation,
    text: Symbol,
    answered: PendingVerbInvocation,
)
    requires
        verb_answered(invocation, Value::Text(text), answered),
        invocation.parameter_types@[invocation.parameter as int] is File,
        invocation.parameter < invocation.frame@.locals.len(),
    ensures
        answered.frame@.locals[invocation.parameter as int] == Value::File(text),
{
}

/// A letter or digit of a command's name.
pub open spec fn counts(c: char) -> bool {
    ('a' <= c && c <= 'z') || ('A' <= c && c <= 'Z') || ('0' <= c && c <= '9')
}

/// A name is normalized piece by piece.
pub proof fn lemma_normalizing_pieces(left: Seq<char>, right: Seq<char>)
    ensures
        normalized_name(left + right) == normalized_name(left) + normalized_name(right),
    decreases right.len(),
{
    if right.len() == 0 {
        assert(left + right =~= left);
        assert(normalized_name(left) + normalized_name(right) =~= normalized_name(left));
    } else {
        assert((left + right).drop_last() =~= left + right.drop_last());
        lemma_normalizing_pieces(left, right.drop_last());
        assert(normalized_name(left + right) =~= normalized_name(left) + normalized_name(right));
    }
}

/// Of a single character, a small letter or a digit stays, a capital becomes small, and anything
/// else goes.
pub proof fn lemma_normalizing_one(c: char)
    ensures
        !counts(c) ==> normalized_name(seq![c]).len() == 0,
        counts(c) ==> normalized_name(seq![c]).len() == 1,
        'a' <= c <= 'z' || '0' <= c <= '9' ==> normalized_name(seq![c]) == seq![c],
        'A' <= c <= 'Z' ==> normalized_name(seq![c])[0] as u32 == c as u32 + ('a' as u32
            - 'A' as u32),
{
    assert(seq![c].drop_last() =~= Seq::<char>::empty());
    assert(normalized_name(Seq::<char>::empty()) =~= Seq::empty());
    if 'a' <= c <= 'z' || '0' <= c <= '9' {
        assert(normalized_name(seq![c]) =~= seq![c]);
    }
}

/// Blanks separate arguments: a word without quotes behind a blank is one argument more, spelled
/// as it stands, also where it holds a backslash.
pub proof fn lemma_word_is_an_argument(text: Seq<char>, blank: char, word: Seq<char>)
    requires
        !scanned(text, text.len()).quoted,
        !scanned(text, text.len()).escaped,
        is_blank(blank),
        blank != '"',
        word.len() > 0,
        forall|i: int| 0 <= i < word.len() ==> !is_blank(#[trigger] word[i]) && word[i] != '"',
    ensures
        !scanned(text.push(blank) + word, text.len() + 1 + word.len()).quoted,
        scanned(text.push(blank) + word, text.len() + 1 + word.len()).closed() == scanned(
            text,
            text.len(),
        ).closed().push(word),
{
    lemma_word_is_read(text, blank, word, word.len());
    assert(word.take(word.len() as int) =~= word);
}

proof fn lemma_scan_prefix(text: Seq<char>, rest: Seq<char>, count: nat)
    requires
        count <= text.len(),
    ensures
        scanned(text + rest, count) == scanned(text, count),
    decreases count,
{
    if count > 0 {
        lemma_scan_prefix(text, rest, (count - 1) as nat);
    }
}

proof fn lemma_word_is_read(text: Seq<char>, blank: char, word: Seq<char>, count: nat)
    requires
        count <= word.len(),
        !scanned(text, text.len()).quoted,
        !scanned(text, text.len()).escaped,
        is_blank(blank),
        blank != '"',
        forall|i: int| 0 <= i < word.len() ==> !is_blank(#[trigger] word[i]) && word[i] != '"',
    ensures
        scanned(text.push(blank) + word, text.len() + 1 + count).parsed == scanned(
            text,
            text.len(),
        ).closed(),
        scanned(text.push(blank) + word, text.len() + 1 + count).current == word.take(
            count as int,
        ),
        !scanned(text.push(blank) + word, text.len() + 1 + count).quoted,
        !scanned(text.push(blank) + word, text.len() + 1 + count).escaped,
    decreases count,
{
    let all = text.push(blank) + word;
    if count == 0 {
        assert(all =~= text + (seq![blank] + word));
        lemma_scan_prefix(text, seq![blank] + word, text.len());
        assert(all[text.len() as int] == blank);
        assert(word.take(0) =~= Seq::<char>::empty());
    } else {
        lemma_word_is_read(text, blank, word, (count - 1) as nat);
        assert(all[(text.len() + count) as int] == word[count - 1]);
        assert(word.take(count - 1).push(word[count - 1]) =~= word.take(count as int));
    }
}

/// A list without associations spreads out into its items, in order and without names.
pub proof fn lemma_plain_list_spreads(
    symbols: SymbolTable,
    list: ListView,
    start: Expansion,
    count: nat,
)
    requires
        count <= list.items.len(),
        forall|i: int| 0 <= i < count ==> !list.associated.contains_key(#[trigger] list.items[i]),
    ensures
        list_expanded(symbols, list, start, count) matches Ok(end) && {
            &&& end.values == start.values + list.items.take(count as int)
            &&& end.names == start.names + Seq::new(count, |i: int| None::<Seq<char>>)
            &&& end.roots == start.roots
        },
    decreases count,
{
    if count == 0 {
        assert(start.values + list.items.take(0) =~= start.values);
        assert(start.names + Seq::new(0, |i: int| None::<Seq<char>>) =~= start.names);
    } else {
        lemma_plain_list_spreads(symbols, list, start, (count - 1) as nat);
        assert(!list.associated.contains_key(list.items[count - 1]));
        assert((start.values + list.items.take(count - 1)).push(list.items[count - 1])
            =~= start.values + list.items.take(count as int));
        assert((start.names + Seq::new((count - 1) as nat, |i: int| None::<Seq<char>>)).push(None)
            =~= start.names + Seq::new(count, |i: int| None::<Seq<char>>));
    }
}

/// A text key with a value spreads out into the value under the name that the key spells.
pub proof fn lemma_keyed_entry_names_its_argument(
    symbols: SymbolTable,
    list: ListView,
    start: Expansion,
    name: Symbol,
)
    requires
        list.items.len() == 1,
        list.items[0] == Value::Text(name),
        list.associated.contains_key(Value::Text(name)),
        symbols.knows(name),
    ensures
        list_expanded(symbols, list, start, 1) matches Ok(end) && end.values == start.values.push(
            list.associated[Value::Text(name)],
        ) && end.names == start.names.push(Some(symbols.spelling(name))),
{
    reveal_with_fuel(list_expanded, 2);
}

/// Arguments of which none is to be spread out stay as they are, each under its written name.
pub proof fn lemma_unmarked_arguments_stay(
    state: ExecutionState,
    source: Seq<Value>,
    names: Seq<Option<String>>,
    indices: Seq<u16>,
    count: nat,
)
    requires
        count <= source.len(),
        forall|i: int| 0 <= i < count ==> !indices.contains(#[trigger] (i as u16)),
    ensures
        expanded(state, source, names, indices, count) matches Ok(end) && end.values
            == source.take(count as int) && end.names.len() == count && end.roots.len() == 0,
    decreases count,
{
    if count == 0 {
        assert(source.take(0) =~= Seq::empty());
    } else {
        lemma_unmarked_arguments_stay(state, source, names, indices, (count - 1) as nat);
        assert(!indices.contains((count - 1) as u16));
        assert(source.take(count - 1).push(source[count - 1]) =~= source.take(count as int));
    }
}

/// An argument that is to be spread out is a list, whose items take its place, or null, which
/// leaves nothing.
pub proof fn lemma_marked_argument_spreads(
    state: ExecutionState,
    source: Seq<Value>,
    names: Seq<Option<String>>,
    indices: Seq<u16>,
    count: nat,
    before: Expansion,
)
    requires
        0 < count <= source.len(),
        indices.contains((count - 1) as u16),
        expanded(state, source, names, indices, (count - 1) as nat) == Ok::<Expansion, Fault>(
            before,
        ),
    ensures
        source[count - 1] is Null ==> expanded(state, source, names, indices, count) == Ok::<
            Expansion,
            Fault,
        >(before),
        source[count - 1] matches Value::List(list) ==> state.heap@.lists.contains_key(list) && (
        forall|i: int| 0 <= i < state.heap@.lists[list].items.len()
            ==> !state.heap@.lists[list].associated.contains_key(
            #[trigger] state.heap@.lists[list].items[i],
        )) ==> (expanded(state, source, names, indices, count) matches Ok(end) && end.values
            == before.values + state.heap@.lists[list].items && end.roots == before.roots.push(
            source[count - 1],
        )),
        !(source[count - 1] is Null || source[count - 1] is List) ==> expanded(
            state,
            source,
            names,
            indices,
            count,
        ) is Err,
{
    if let Value::List(list) = source[count - 1] {
        if state.heap@.lists.contains_key(list) && (forall|i: int|
            0 <= i < state.heap@.lists[list].items.len()
                ==> !state.heap@.lists[list].associated.contains_key(
                #[trigger] state.heap@.lists[list].items[i],
            )) {
            let shown = state.heap@.lists[list];
            lemma_plain_list_spreads(
                state.symbols,
                shown,
                (Expansion { roots: before.roots.push(Value::List(list)), ..before }),
                shown.items.len(),
            );
            assert(shown.items.take(shown.items.len() as int) =~= shown.items);
        }
    }
}

/// Spreading out leaves the operands below the arguments, the arguments, and how many there are.
pub proof fn lemma_spread_arguments_on_the_stack(
    state: ExecutionState,
    frame: FrameView,
    argument_count: u16,
    names: Seq<Option<String>>,
    indices: Seq<u16>,
    end: Expansion,
)
    requires
        argument_count <= frame.stack.len(),
        expanded(
            state,
            frame.stack.skip(frame.stack.len() - argument_count),
            names,
            indices,
            argument_count as nat,
        ) == Ok::<Expansion, Fault>(end),
        end.values.len() <= 65_535,
    ensures
        expand_effect(state, frame, argument_count, names, indices) matches Ok(after) && {
            &&& after.stack.len() == frame.stack.len() - argument_count + end.values.len() + 1
            &&& after.stack.take(frame.stack.len() - argument_count) == frame.stack.take(
                frame.stack.len() - argument_count,
            )
            &&& after.stack.drop_last().skip(frame.stack.len() - argument_count) == end.values
            &&& after.stack.last() matches Value::Number(number) && crate::number::truncated(number)
                == end.values.len()
            &&& after.locals == frame.locals
        },
{
    let kept = frame.stack.len() - argument_count;
    assert(frame.stack.skip(kept) =~= frame.stack.subrange(kept, frame.stack.len() as int));
    let after = expand_effect(state, frame, argument_count, names, indices)->Ok_0;
    assert(after.stack.take(kept) =~= frame.stack.take(kept));
    assert(after.stack.drop_last().skip(kept) =~= end.values);
    let number = Number { bits: crate::number::nearest_bits(end.values.len()) as u32 };
    crate::number::lemma_nearest_small(end.values.len());
    crate::number::lemma_integer_round_trip(end.values.len(), number);
}

proof fn lemma_argument_values_in_place(
    kinds: Seq<VerbParameterType>,
    arguments: Seq<CommandArgument>,
    count: nat,
    given: Seq<Option<Value>>,
)
    requires
        argument_values(kinds, arguments, count) == Ok::<Seq<Option<Value>>, CommandError>(given),
    ensures
        given.len() == count,
        forall|i: int| 0 <= i < count ==> argument_value(
            kinds[i],
            #[trigger] arguments[i],
            i as usize,
        ) == Ok::<Option<Value>, CommandError>(given[i]),
    decreases count,
{
    if count > 0 {
        let rest = argument_values(kinds, arguments, (count - 1) as nat)->Ok_0;
        lemma_argument_values_in_place(kinds, arguments, (count - 1) as nat, rest);
    }
}

/// A command that can run at once runs with each of its words in the parameter at the word's
/// place: as a text, as the number that it spells, or as a file.
pub proof fn lemma_command_words_fill_parameters(
    before: ExecutionState,
    module: Module,
    command: Seq<char>,
    target: CallTarget,
    program: Program,
    arguments: Seq<CommandArgument>,
    after: ExecutionState,
    at: int,
)
    requires
        module.spec_procedure(target.procedure) == Some(program),
        command_run(
            before,
            module,
            command,
            target,
            arguments,
            after,
            Ok::<CommandOutcome, CommandError>(CommandOutcome::Scheduled),
        ),
        0 <= at < program.parameter_count,
        at < program.local_count,
    ensures
        arguments.len() == program.parameter_count,
        after.scheduler.spawns@.len() == before.scheduler.spawns@.len() + 1,
        after.scheduler.spawns@.last().due_tick == before.scheduler.tick,
        after.scheduler.spawns@.last().frames.frames@.len() == 1,
        crate::entering::begins(
            after.scheduler.spawns@.last().frames.frames@[0]@,
            target.procedure,
            target.context,
        ),
        program.verb_parameter_types@[at] is Text || program.verb_parameter_types@[at] is Message
            || program.verb_parameter_types@[at] is Color
            ==> after.scheduler.spawns@.last().frames.frames@[0]@.locals[at] == Value::Text(
            arguments[at].text,
        ),
        program.verb_parameter_types@[at] is File
            ==> after.scheduler.spawns@.last().frames.frames@[0]@.locals[at] == Value::File(
            arguments[at].text,
        ),
        program.verb_parameter_types@[at] is Number ==> (arguments[at].number matches Some(number)
            && after.scheduler.spawns@.last().frames.frames@[0]@.locals[at] == Value::Number(
            number,
        )),
        after.heap == before.heap,
        after.globals == before.globals,
{
    let kinds = program.verb_parameter_types@;
    let given = argument_values(kinds, arguments, arguments.len())->Ok_0;
    lemma_argument_values_in_place(kinds, arguments, arguments.len(), given);
    assert forall|i: int| 0 <= i < program.parameter_count implies i < given.len() && (
    #[trigger] given[i]) is Some by {
        assert(crate::verbs::parameters_given(given, program.parameter_count as nat)[i]);
    }
    if arguments.len() < program.parameter_count {
        assert(crate::verbs::parameters_given(
            given,
            program.parameter_count as nat,
        )[arguments.len() as int]);
    }
    let frames = choose|frames: Vec<CallFrame>| #[trigger]
        continuation_scheduled(before.scheduler, frames, 0, after.scheduler) && frames@.len() == 1
            && frames@[0]@ == crate::verbs::command_frame(target, program, given);
    assert(continuation_scheduled(before.scheduler, frames, 0, after.scheduler));
    assert(after.scheduler.spawns@.last().frames.frames == frames);
    assert(given[at] is Some);
    assert(argument_value(kinds[at], arguments[at], at as usize) == Ok::<
        Option<Value>,
        CommandError,
    >(given[at]));
    assert(frames@[0]@.locals[at] == given[at]->0);
}

/// A command with more words than its verb has parameters is refused.
pub proof fn lemma_too_many_words_are_refused(
    before: ExecutionState,
    module: Module,
    command: Seq<char>,
    target: CallTarget,
    program: Program,
    arguments: Seq<CommandArgument>,
    after: ExecutionState,
    outcome: Result<CommandOutcome, CommandError>,
)
    requires
        module.spec_procedure(target.procedure) == Some(program),
        command_run(before, module, command, target, arguments, after, outcome),
        arguments.len() > program.parameter_count,
    ensures
        outcome is Err,
        after == before,
{
}

/// The verbs that a command may mean are those of the offered ones that answer to its name, in the
/// order in which they are offered.
pub proof fn lemma_candidates_answer(
    symbols: SymbolTable,
    module: Module,
    effective: Map<Symbol, ProcedureId>,
    verbs: Seq<TypePath>,
    wanted: Seq<char>,
)
    ensures
        answering(symbols, module, effective, verbs, wanted) == verbs.filter(
            |verb: TypePath| answers_to(symbols, module, effective, verb, wanted),
        ),
    decreases verbs.len(),
{
    reveal(Seq::filter);
    if verbs.len() > 0 {
        lemma_candidates_answer(symbols, module, effective, verbs.drop_last(), wanted);
    }
}

/// A verb with a name of its own answers to that name, however it is written: case, blanks and
/// signs do not count.
pub proof fn lemma_verbs_answer_to_their_name(
    symbols: SymbolTable,
    module: Module,
    effective: Map<Symbol, ProcedureId>,
    verb: TypePath,
    program: Program,
    wanted: Seq<char>,
)
    requires
        symbols.knows(verb.0),
        crate::verbs::verb_parts(symbols.spelling(verb.0)) is Some,
        effective.contains_key(verb.0),
        module.spec_procedure(effective[verb.0]) == Some(program),
        program.verb_name is Some,
    ensures
        answers_to(symbols, module, effective, verb, normalized_name(program.verb_name->0@)),
        answers_to(symbols, module, effective, verb, normalized_name(wanted)) <==> normalized_name(
            wanted,
        ) == normalized_name(program.verb_name->0@),
{
}

/// A command means the first verb that could be resolved: those of the client come before those of
/// its mob.
pub proof fn lemma_first_resolved_verb_is_meant(resolved: ResolvedVerbs, at: int)
    requires
        0 <= at < resolved.own@.len(),
        resolved.own@[at] is Some,
        forall|i: int| 0 <= i < at ==> (#[trigger] resolved.own@[i]) is None,
    ensures
        chosen_target(resolved) == Ok::<Option<CallTarget>, ClientError>(resolved.own@[at]),
{
    lemma_first_of(resolved.own@, at);
}

/// Where the client has no such verb, the first one of its mob is meant.
pub proof fn lemma_first_verb_of_the_mob_is_meant(
    resolved: ResolvedVerbs,
    targets: Vec<Option<CallTarget>>,
    at: int,
)
    requires
        forall|i: int| 0 <= i < resolved.own@.len() ==> (#[trigger] resolved.own@[i]) is None,
        resolved.mobs == Ok::<Vec<Option<CallTarget>>, ClientError>(targets),
        0 <= at < targets@.len(),
        targets@[at] is Some,
        forall|i: int| 0 <= i < at ==> (#[trigger] targets@[i]) is None,
    ensures
        chosen_target(resolved) == Ok::<Option<CallTarget>, ClientError>(targets@[at]),
{
    lemma_none_of(resolved.own@);
    lemma_first_of(targets@, at);
}

proof fn lemma_none_of(targets: Seq<Option<CallTarget>>)
    requires
        forall|i: int| 0 <= i < targets.len() ==> (#[trigger] targets[i]) is None,
    ensures
        first_resolved(targets) is None,
    decreases targets.len(),
{
    if targets.len() > 0 {
        lemma_none_of(targets.drop_last());
    }
}

proof fn lemma_first_of(targets: Seq<Option<CallTarget>>, at: int)
    requires
        0 <= at < targets.len(),
        targets[at] is Some,
        forall|i: int| 0 <= i < at ==> (#[trigger] targets[i]) is None,
    ensures
        first_resolved(targets) == targets[at],
    decreases targets.len(),
{
    if at < targets.len() - 1 {
        lemma_first_of(targets.drop_last(), at);
    } else {
        lemma_none_of(targets.drop_last());
    }
}

} // verus!
