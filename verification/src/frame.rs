//! Call frames: the hot per-procedure state, with rare state behind a cold
//! allocation that exists only while something in it is live.

use vstd::prelude::*;
use crate::inline::{InlineFlags, InlineRoots, InlineSlots, InlineValues};
use crate::program::ProcedureId;
use crate::value::{DatumId, ListId, Number, Symbol, TypePath, Value};

verus! {

/// An active `try` block.
#[derive(Clone, Copy, PartialEq, Eq, Structural, Debug)]
pub struct ExceptionHandler {
    pub start: usize,
    pub end: usize,
    pub catch: usize,
    pub local: Option<u16>,
    pub stack_depth: usize,
}

/// What to report once a traced shuttle call returns.
#[derive(Clone, Copy, PartialEq, Eq, Structural, Debug)]
pub enum ShuttleTracePostReturn {
    NullifyNode { slot: Option<usize> },
    AtmosInit,
}

/// A resumable scan for a place where a ruin may stand.
pub struct RuinCandidateScan {
    pub low: (i32, i32, i32),
    pub next: (i32, i32, i32),
    pub high: (i32, i32, i32),
    pub empty: bool,
    pub turfs: Vec<DatumId>,
    pub areas: Vec<Value>,
    pub validating: bool,
    pub validate_index: usize,
}

/// Where a suspended map load stands.
#[derive(Clone, Copy, PartialEq, Eq, Structural, Debug)]
pub enum TgmLoadPhase {
    Commit,
    AwaitCoordinate,
    Tick,
}

/// A suspended map load: what it keeps alive and where it goes on.
pub struct TgmLoadContinuation {
    pub phase: TgmLoadPhase,
    pub model_cache: Value,
    pub models: Vec<(Symbol, Value)>,
    pub bounds: Value,
    pub coordinate_target: Option<(TypePath, ProcedureId)>,
}

/// Locals, operands and result of a frame that holds only null and numbers.
pub struct PackedNumericState {
    pub locals: Vec<Option<Number>>,
    pub stack: Vec<Option<Number>>,
    pub result: Option<Number>,
}

/// Rare frame state: argument names, exceptions, diagnostics, continuations.
pub struct CallFrameCold {
    pub pending_argument_names: Option<Vec<Option<String>>>,
    pub pending_argument_roots: InlineRoots,
    pub retained_call_roots: InlineRoots,
    pub exception_handlers: Vec<ExceptionHandler>,
    pub shuttle_trace_target: Option<DatumId>,
    pub shuttle_trace_post_return: Option<ShuttleTracePostReturn>,
    pub boot_trace_started: Option<u64>,
    pub boot_trace_heap: Option<(usize, usize, usize)>,
    pub boot_trace_step: u64,
    pub caller_result_override: Option<Value>,
    pub engine_post_return: Option<Box<CallFrame>>,
    pub numeric_jit_state: Option<u64>,
    pub packed_numeric_state: Option<PackedNumericState>,
    pub tgm_load: Option<TgmLoadContinuation>,
    pub ruin_scan: Option<RuinCandidateScan>,
    pub tgm_route_trace_mask: u8,
}

/// One procedure activation.
pub struct CallFrame {
    pub procedure: ProcedureId,
    pub instruction: usize,
    pub locals: InlineValues,
    pub stack: InlineValues,
    pub result: Value,
    pub src: Value,
    pub usr: Value,
    pub arguments: InlineValues,
    pub args_list: Option<ListId>,
    pub declared_argument_count: usize,
    pub supplied_parameters: InlineFlags,
    pub cold: Option<Box<CallFrameCold>>,
    pub detached_waitfor: bool,
    pub static_locals: InlineSlots,
    pub atoms_profile_entry_counted: bool,
    pub atoms_profile_root: bool,
    pub tgm_profile_root: bool,
}

/// Whose procedure runs and on whose behalf.
#[derive(Clone, Copy, PartialEq, Eq, Structural, Debug)]
pub struct ExecutionContext {
    pub src: Value,
    pub usr: Value,
}

impl ExecutionContext {
    /// A context with the given owner and user.
    pub fn new(src: Value, usr: Value) -> (context: Self)
        ensures
            context.src == src,
            context.usr == usr,
    {
        ExecutionContext { src, usr }
    }
}

impl Default for ExecutionContext {
    fn default() -> (context: Self)
        ensures
            context.src == Value::Null,
            context.usr == Value::Null,
    {
        ExecutionContext { src: Value::Null, usr: Value::Null }
    }
}

/// What a ruin scan holds.
pub struct RuinView {
    pub low: (i32, i32, i32),
    pub next: (i32, i32, i32),
    pub high: (i32, i32, i32),
    pub empty: bool,
    pub turfs: Seq<DatumId>,
    pub areas: Seq<Value>,
    pub validating: bool,
    pub validate_index: usize,
}

impl View for RuinCandidateScan {
    type V = RuinView;

    open spec fn view(&self) -> RuinView {
        RuinView {
            low: self.low,
            next: self.next,
            high: self.high,
            empty: self.empty,
            turfs: self.turfs@,
            areas: self.areas@,
            validating: self.validating,
            validate_index: self.validate_index,
        }
    }
}

/// What a suspended map load holds.
pub struct TgmView {
    pub phase: TgmLoadPhase,
    pub model_cache: Value,
    pub models: Seq<(Symbol, Value)>,
    pub bounds: Value,
    pub coordinate_target: Option<(TypePath, ProcedureId)>,
}

impl View for TgmLoadContinuation {
    type V = TgmView;

    open spec fn view(&self) -> TgmView {
        TgmView {
            phase: self.phase,
            model_cache: self.model_cache,
            models: self.models@,
            bounds: self.bounds,
            coordinate_target: self.coordinate_target,
        }
    }
}

/// What a packed numeric state holds.
pub struct PackedView {
    pub locals: Seq<Option<Number>>,
    pub stack: Seq<Option<Number>>,
    pub result: Option<Number>,
}

impl View for PackedNumericState {
    type V = PackedView;

    open spec fn view(&self) -> PackedView {
        PackedView { locals: self.locals@, stack: self.stack@, result: self.result }
    }
}

/// The spelling of an optional name.
pub open spec fn name_view(name: Option<String>) -> Option<Seq<char>> {
    match name {
        Some(name) => Some(name@),
        None => None,
    }
}

/// The spellings of a list of optional names.
pub open spec fn names_view(names: Seq<Option<String>>) -> Seq<Option<Seq<char>>> {
    names.map_values(|name: Option<String>| name_view(name))
}

/// What the rare part of a frame holds.
pub struct ColdView {
    pub pending_argument_names: Option<Seq<Option<Seq<char>>>>,
    pub pending_argument_roots: Seq<Value>,
    pub retained_call_roots: Seq<Value>,
    pub exception_handlers: Seq<ExceptionHandler>,
    pub shuttle_trace_target: Option<DatumId>,
    pub shuttle_trace_post_return: Option<ShuttleTracePostReturn>,
    pub boot_trace_started: Option<u64>,
    pub boot_trace_heap: Option<(usize, usize, usize)>,
    pub boot_trace_step: u64,
    pub caller_result_override: Option<Value>,
    pub engine_post_return: Option<Box<FrameView>>,
    pub numeric_jit_state: Option<u64>,
    pub packed_numeric_state: Option<PackedView>,
    pub tgm_load: Option<TgmView>,
    pub ruin_scan: Option<RuinView>,
    pub tgm_route_trace_mask: u8,
}

/// What a frame holds.
pub struct FrameView {
    pub procedure: ProcedureId,
    pub instruction: usize,
    pub locals: Seq<Value>,
    pub stack: Seq<Value>,
    pub result: Value,
    pub src: Value,
    pub usr: Value,
    pub arguments: Seq<Value>,
    pub args_list: Option<ListId>,
    pub declared_argument_count: usize,
    pub supplied_parameters: Seq<bool>,
    pub cold: Option<ColdView>,
    pub detached_waitfor: bool,
    pub static_locals: Seq<u16>,
    pub atoms_profile_entry_counted: bool,
    pub atoms_profile_root: bool,
    pub tgm_profile_root: bool,
}

/// What the rare part of a frame holds, nested frames included.
pub open spec fn cold_view(cold: CallFrameCold) -> ColdView
    decreases cold,
{
    ColdView {
        pending_argument_names: match cold.pending_argument_names {
            Some(names) => Some(names_view(names@)),
            None => None,
        },
        pending_argument_roots: cold.pending_argument_roots@,
        retained_call_roots: cold.retained_call_roots@,
        exception_handlers: cold.exception_handlers@,
        shuttle_trace_target: cold.shuttle_trace_target,
        shuttle_trace_post_return: cold.shuttle_trace_post_return,
        boot_trace_started: cold.boot_trace_started,
        boot_trace_heap: cold.boot_trace_heap,
        boot_trace_step: cold.boot_trace_step,
        caller_result_override: cold.caller_result_override,
        engine_post_return: match cold.engine_post_return {
            Some(frame) => Some(Box::new(frame_view(*frame))),
            None => None,
        },
        numeric_jit_state: cold.numeric_jit_state,
        packed_numeric_state: match cold.packed_numeric_state {
            Some(state) => Some(state@),
            None => None,
        },
        tgm_load: match cold.tgm_load {
            Some(load) => Some(load@),
            None => None,
        },
        ruin_scan: match cold.ruin_scan {
            Some(scan) => Some(scan@),
            None => None,
        },
        tgm_route_trace_mask: cold.tgm_route_trace_mask,
    }
}

/// What a frame holds, nested frames included.
pub open spec fn frame_view(frame: CallFrame) -> FrameView
    decreases frame,
{
    FrameView {
        procedure: frame.procedure,
        instruction: frame.instruction,
        locals: frame.locals@,
        stack: frame.stack@,
        result: frame.result,
        src: frame.src,
        usr: frame.usr,
        arguments: frame.arguments@,
        args_list: frame.args_list,
        declared_argument_count: frame.declared_argument_count,
        supplied_parameters: frame.supplied_parameters@,
        cold: match frame.cold {
            Some(cold) => Some(cold_view(*cold)),
            None => None,
        },
        detached_waitfor: frame.detached_waitfor,
        static_locals: frame.static_locals@,
        atoms_profile_entry_counted: frame.atoms_profile_entry_counted,
        atoms_profile_root: frame.atoms_profile_root,
        tgm_profile_root: frame.tgm_profile_root,
    }
}

impl View for CallFrameCold {
    type V = ColdView;

    open spec fn view(&self) -> ColdView {
        cold_view(*self)
    }
}

impl View for CallFrame {
    type V = FrameView;

    open spec fn view(&self) -> FrameView {
        frame_view(*self)
    }
}

/// What a stack of frames holds.
pub open spec fn frames_view(frames: Seq<CallFrame>) -> Seq<FrameView> {
    frames.map_values(|frame: CallFrame| frame@)
}

impl ColdView {
    /// Rare state in which nothing is live.
    pub open spec fn blank() -> ColdView {
        ColdView {
            pending_argument_names: None,
            pending_argument_roots: Seq::empty(),
            retained_call_roots: Seq::empty(),
            exception_handlers: Seq::empty(),
            shuttle_trace_target: None,
            shuttle_trace_post_return: None,
            boot_trace_started: None,
            boot_trace_heap: None,
            boot_trace_step: 0,
            caller_result_override: None,
            engine_post_return: None,
            numeric_jit_state: None,
            packed_numeric_state: None,
            tgm_load: None,
            ruin_scan: None,
            tgm_route_trace_mask: 0,
        }
    }
}

impl FrameView {
    /// The rare state, blank where none is allocated.
    pub open spec fn cold_or_blank(self) -> ColdView {
        match self.cold {
            Some(cold) => cold,
            None => ColdView::blank(),
        }
    }

    /// The frame with its rare state replaced.
    pub open spec fn with_cold(self, cold: ColdView) -> FrameView {
        FrameView { cold: Some(cold), ..self }
    }

    /// The frame without rare state, if nothing in it is live.
    pub open spec fn pruned(self) -> FrameView {
        if self.cold == Some(ColdView::blank()) {
            FrameView { cold: None, ..self }
        } else {
            self
        }
    }

    /// The frame whose caller gets a value in place of its result, or not.
    pub open spec fn overriding(self, value: Option<Value>) -> FrameView {
        if value is Some || self.cold is Some {
            self.with_cold(
                (ColdView { caller_result_override: value, ..self.cold_or_blank() }),
            ).pruned()
        } else {
            self
        }
    }

    /// The frame with an operand pushed.
    pub open spec fn push(self, value: Value) -> FrameView {
        FrameView { stack: self.stack.push(value), ..self }
    }

    /// The frame at another instruction.
    pub open spec fn at(self, instruction: usize) -> FrameView {
        FrameView { instruction, ..self }
    }
}

impl CallFrameCold {
    /// Rare state in which nothing is live.
    pub fn blank() -> (cold: Self)
        ensures
            cold@ == ColdView::blank(),
    {
        CallFrameCold {
            pending_argument_names: None,
            pending_argument_roots: InlineRoots::new(),
            retained_call_roots: InlineRoots::new(),
            exception_handlers: Vec::new(),
            shuttle_trace_target: None,
            shuttle_trace_post_return: None,
            boot_trace_started: None,
            boot_trace_heap: None,
            boot_trace_step: 0,
            caller_result_override: None,
            engine_post_return: None,
            numeric_jit_state: None,
            packed_numeric_state: None,
            tgm_load: None,
            ruin_scan: None,
            tgm_route_trace_mask: 0,
        }
    }

    /// Whether nothing in the rare state is live.
    pub fn is_empty(&self) -> (empty: bool)
        ensures
            empty == (self@ == ColdView::blank()),
    {
        let empty: bool = self.pending_argument_names.is_none() && self.pending_argument_roots.len()
            == 0 && self.retained_call_roots.len() == 0 && self.exception_handlers.len() == 0
            && self.shuttle_trace_target.is_none() && self.shuttle_trace_post_return.is_none()
            && self.boot_trace_started.is_none() && self.boot_trace_heap.is_none()
            && self.boot_trace_step == 0 && self.caller_result_override.is_none()
            && self.engine_post_return.is_none() && self.numeric_jit_state.is_none()
            && self.packed_numeric_state.is_none() && self.tgm_load.is_none()
            && self.ruin_scan.is_none() && self.tgm_route_trace_mask == 0;
        proof {
            if empty {
                assert(self@.pending_argument_roots =~= Seq::<Value>::empty());
                assert(self@.retained_call_roots =~= Seq::<Value>::empty());
                assert(self@.exception_handlers =~= Seq::<ExceptionHandler>::empty());
            }
        }
        empty
    }
}

impl CallFrame {
    /// Moves the rare state out, blank where none is allocated.
    fn take_cold(&mut self) -> (cold: CallFrameCold)
        ensures
            cold@ == old(self)@.cold_or_blank(),
            final(self)@ == (FrameView { cold: None, ..old(self)@ }),
    {
        match self.cold.take() {
            Some(cold) => *cold,
            None => CallFrameCold::blank(),
        }
    }

    /// Drops the rare state if nothing in it is live.
    pub fn prune_empty_cold(&mut self)
        ensures
            final(self)@ == old(self)@.pruned(),
    {
        let empty: bool = match &self.cold {
            Some(cold) => cold.is_empty(),
            None => false,
        };
        if empty {
            self.cold = None;
        }
    }

    /// The names that an argument expansion left for the next call.
    pub fn pending_argument_names(&self) -> (names: Option<&Vec<Option<String>>>)
        ensures
            match names {
                Some(names) => self@.cold_or_blank().pending_argument_names == Some(
                    names_view(names@),
                ),
                None => self@.cold_or_blank().pending_argument_names is None,
            },
    {
        match &self.cold {
            Some(cold) => cold.pending_argument_names.as_ref(),
            None => None,
        }
    }

    /// Leaves names for the next call.
    pub fn set_pending_argument_names(&mut self, names: Vec<Option<String>>)
        ensures
            final(self)@ == old(self)@.with_cold(
                (ColdView {
                    pending_argument_names: Some(names_view(names@)),
                    ..old(self)@.cold_or_blank()
                }),
            ),
    {
        let mut cold = self.take_cold();
        cold.pending_argument_names = Some(names);
        self.cold = Some(Box::new(cold));
    }

    /// Takes the names left for the next call.
    pub fn take_pending_argument_names(&mut self) -> (names: Option<Vec<Option<String>>>)
        ensures
            match names {
                Some(names) => old(self)@.cold_or_blank().pending_argument_names == Some(
                    names_view(names@),
                ),
                None => old(self)@.cold_or_blank().pending_argument_names is None,
            },
            final(self)@ == match old(self)@.cold {
                Some(cold) => old(self)@.with_cold(
                    (ColdView { pending_argument_names: None, ..cold }),
                ),
                None => old(self)@,
            },
    {
        if self.cold.is_none() {
            return None;
        }
        let mut cold = self.take_cold();
        let names = cold.pending_argument_names.take();
        self.cold = Some(Box::new(cold));
        names
    }

    /// Forgets the names left for the next call.
    pub fn clear_pending_argument_names(&mut self)
        ensures
            final(self)@ == match old(self)@.cold {
                Some(cold) => old(self)@.with_cold(
                    (ColdView { pending_argument_names: None, ..cold }),
                ),
                None => old(self)@,
            },
    {
        let _ = self.take_pending_argument_names();
    }

    /// The lists that an argument expansion keeps alive.
    pub fn pending_argument_roots(&self) -> (roots: Vec<Value>)
        ensures
            roots@ == self@.cold_or_blank().pending_argument_roots,
    {
        match &self.cold {
            Some(cold) => root_values(&cold.pending_argument_roots),
            None => Vec::new(),
        }
    }

    /// Records the lists that an argument expansion keeps alive.
    pub fn set_pending_argument_roots(&mut self, roots: InlineRoots)
        ensures
            final(self)@ == if roots@.len() > 0 || old(self)@.cold is Some {
                old(self)@.with_cold(
                    (ColdView { pending_argument_roots: roots@, ..old(self)@.cold_or_blank() }),
                )
            } else {
                old(self)@
            },
    {
        if roots.len() > 0 || self.cold.is_some() {
            let mut cold = self.take_cold();
            cold.pending_argument_roots = roots;
            self.cold = Some(Box::new(cold));
        }
    }

    /// Takes the lists that an argument expansion keeps alive.
    pub fn take_pending_argument_roots(&mut self) -> (roots: InlineRoots)
        ensures
            roots@ == old(self)@.cold_or_blank().pending_argument_roots,
            final(self)@ == match old(self)@.cold {
                Some(cold) => old(self)@.with_cold(
                    (ColdView { pending_argument_roots: Seq::empty(), ..cold }),
                ),
                None => old(self)@,
            },
    {
        if self.cold.is_none() {
            return InlineRoots::new();
        }
        let mut cold = self.take_cold();
        let mut roots = InlineRoots::new();
        core::mem::swap(&mut cold.pending_argument_roots, &mut roots);
        self.cold = Some(Box::new(cold));
        roots
    }

    /// Releases the lists that an argument expansion keeps alive.
    pub fn clear_pending_argument_roots(&mut self)
        ensures
            final(self)@ == match old(self)@.cold {
                Some(cold) => old(self)@.with_cold(
                    (ColdView { pending_argument_roots: Seq::empty(), ..cold }),
                ),
                None => old(self)@,
            },
    {
        let _ = self.take_pending_argument_roots();
    }

    /// The lists that this call keeps alive until it returns.
    pub fn retained_call_roots(&self) -> (roots: Vec<Value>)
        ensures
            roots@ == self@.cold_or_blank().retained_call_roots,
    {
        match &self.cold {
            Some(cold) => root_values(&cold.retained_call_roots),
            None => Vec::new(),
        }
    }

    /// Records the lists that this call keeps alive until it returns.
    pub fn set_retained_call_roots(&mut self, roots: InlineRoots)
        ensures
            final(self)@ == if roots@.len() > 0 || old(self)@.cold is Some {
                old(self)@.with_cold(
                    (ColdView { retained_call_roots: roots@, ..old(self)@.cold_or_blank() }),
                )
            } else {
                old(self)@
            },
    {
        if roots.len() > 0 || self.cold.is_some() {
            let mut cold = self.take_cold();
            cold.retained_call_roots = roots;
            self.cold = Some(Box::new(cold));
        }
    }

    /// Opens a `try` block.
    pub fn push_exception_handler(&mut self, handler: ExceptionHandler)
        ensures
            final(self)@ == old(self)@.with_cold(
                (ColdView {
                    exception_handlers: old(self)@.cold_or_blank().exception_handlers.push(handler),
                    ..old(self)@.cold_or_blank()
                }),
            ),
    {
        let mut cold = self.take_cold();
        cold.exception_handlers.push(handler);
        self.cold = Some(Box::new(cold));
    }

    /// Closes the innermost `try` block, if one is open.
    pub fn pop_exception_handler(&mut self) -> (handler: Option<ExceptionHandler>)
        ensures
            ({
                let cold = old(self)@.cold_or_blank();
                let open = cold.exception_handlers;
                &&& handler == if open.len() > 0 {
                    Some(open.last())
                } else {
                    None
                }
                &&& final(self)@ == old(self)@.with_cold(
                    (ColdView {
                        exception_handlers: if open.len() > 0 {
                            open.drop_last()
                        } else {
                            open
                        },
                        ..cold
                    }),
                )
            }),
    {
        let mut cold = self.take_cold();
        let handler = cold.exception_handlers.pop();
        self.cold = Some(Box::new(cold));
        handler
    }

    /// Keeps only the outermost `count` open `try` blocks.
    pub fn truncate_exception_handlers(&mut self, count: usize)
        requires
            count <= old(self)@.cold_or_blank().exception_handlers.len(),
        ensures
            final(self)@ == old(self)@.with_cold(
                (ColdView {
                    exception_handlers: old(self)@.cold_or_blank().exception_handlers.subrange(
                        0,
                        count as int,
                    ),
                    ..old(self)@.cold_or_blank()
                }),
            ),
    {
        let mut cold = self.take_cold();
        cold.exception_handlers.truncate(count);
        assert(cold@.exception_handlers =~= old(self)@.cold_or_blank().exception_handlers.subrange(
            0,
            count as int,
        ));
        self.cold = Some(Box::new(cold));
    }

    /// The innermost open `try` block that covers the current instruction.
    pub fn covering_handler(&self) -> (found: Option<(usize, ExceptionHandler)>)
        ensures
            covering_handler(self@) == match found {
                Some((position, _)) => Some(position as int),
                None => None,
            },
            match found {
                Some((position, handler)) => position
                    < self@.cold_or_blank().exception_handlers.len() && handler
                    == self@.cold_or_blank().exception_handlers[position as int],
                None => true,
            },
    {
        let cold = match &self.cold {
            Some(cold) => cold,
            None => {
                proof {
                    lemma_no_handler(self@);
                }
                return None;
            },
        };
        let mut end: usize = cold.exception_handlers.len();
        let ghost handlers = self@.cold_or_blank().exception_handlers;
        while end > 0
            invariant
                end <= handlers.len(),
                self.cold == Some(*cold),
                handlers == cold.exception_handlers@,
                handlers == self@.cold_or_blank().exception_handlers,
                forall|i: int| end <= i < handlers.len() ==> !covers(self@, #[trigger] handlers[i]),
            decreases end,
        {
            let handler = cold.exception_handlers[end - 1];
            if handler.start <= self.instruction && self.instruction <= handler.end {
                proof {
                    assert(is_covering(self@, end - 1));
                    let chosen = choose|at: int| is_covering(self@, at);
                    assert(is_covering(self@, chosen));
                    if chosen < end - 1 {
                        assert(!covers(self@, handlers[end - 1]));
                    }
                }
                return Some((end - 1, handler));
            }
            end -= 1;
        }
        proof {
            lemma_no_handler(self@);
        }
        None
    }

    /// The shuttle part whose trace this call belongs to.
    pub fn shuttle_trace_target(&self) -> (target: Option<DatumId>)
        ensures
            target == self@.cold_or_blank().shuttle_trace_target,
    {
        match &self.cold {
            Some(cold) => cold.shuttle_trace_target,
            None => None,
        }
    }

    /// Records the shuttle part whose trace this call belongs to.
    pub fn set_shuttle_trace_target(&mut self, target: Option<DatumId>)
        ensures
            final(self)@ == if target is Some || old(self)@.cold is Some {
                old(self)@.with_cold(
                    (ColdView { shuttle_trace_target: target, ..old(self)@.cold_or_blank() }),
                )
            } else {
                old(self)@
            },
    {
        if target.is_some() || self.cold.is_some() {
            let mut cold = self.take_cold();
            cold.shuttle_trace_target = target;
            self.cold = Some(Box::new(cold));
        }
    }

    /// What to report once this traced call returns.
    pub fn shuttle_trace_post_return(&self) -> (value: Option<ShuttleTracePostReturn>)
        ensures
            value == self@.cold_or_blank().shuttle_trace_post_return,
    {
        match &self.cold {
            Some(cold) => cold.shuttle_trace_post_return,
            None => None,
        }
    }

    /// Takes what to report once this traced call returns.
    pub fn take_shuttle_trace_post_return(&mut self) -> (value: Option<ShuttleTracePostReturn>)
        ensures
            value == old(self)@.cold_or_blank().shuttle_trace_post_return,
            final(self)@ == match old(self)@.cold {
                Some(cold) => old(self)@.with_cold(
                    (ColdView { shuttle_trace_post_return: None, ..cold }),
                ),
                None => old(self)@,
            },
    {
        if self.cold.is_none() {
            return None;
        }
        let mut cold = self.take_cold();
        let value = cold.shuttle_trace_post_return.take();
        self.cold = Some(Box::new(cold));
        value
    }

    /// Records what to report once this traced call returns.
    pub fn set_shuttle_trace_post_return(&mut self, value: Option<ShuttleTracePostReturn>)
        ensures
            final(self)@ == if value is Some || old(self)@.cold is Some {
                old(self)@.with_cold(
                    (ColdView { shuttle_trace_post_return: value, ..old(self)@.cold_or_blank() }),
                )
            } else {
                old(self)@
            },
    {
        if value.is_some() || self.cold.is_some() {
            let mut cold = self.take_cold();
            cold.shuttle_trace_post_return = value;
            self.cold = Some(Box::new(cold));
        }
    }

    /// The value that the caller receives in place of this call's result.
    pub fn caller_result_override(&self) -> (value: Option<Value>)
        ensures
            value == self@.cold_or_blank().caller_result_override,
    {
        match &self.cold {
            Some(cold) => cold.caller_result_override,
            None => None,
        }
    }

    /// Replaces the value that the caller receives.
    pub fn set_caller_result_override(&mut self, value: Option<Value>)
        ensures
            final(self)@ == old(self)@.overriding(value),
    {
        if value.is_some() || self.cold.is_some() {
            let mut cold = self.take_cold();
            cold.caller_result_override = value;
            self.cold = Some(Box::new(cold));
            self.prune_empty_cold();
        }
    }

    /// The frame that runs once this one has returned.
    pub fn engine_post_return(&self) -> (frame: Option<&CallFrame>)
        ensures
            match frame {
                Some(frame) => self@.cold_or_blank().engine_post_return == Some(
                    Box::new(frame@),
                ),
                None => self@.cold_or_blank().engine_post_return is None,
            },
            match frame {
                Some(frame) => self.cold is Some && self.cold->0.engine_post_return == Some(
                    Box::new(*frame),
                ),
                None => true,
            },
    {
        match &self.cold {
            Some(cold) => match &cold.engine_post_return {
                Some(frame) => Some(frame),
                None => None,
            },
            None => None,
        }
    }

    /// Records the frame that runs once this one has returned.
    pub fn set_engine_post_return(&mut self, frame: Option<Box<CallFrame>>)
        ensures
            final(self)@ == if frame is Some || old(self)@.cold is Some {
                old(self)@.with_cold(
                    (ColdView {
                        engine_post_return: match frame {
                            Some(frame) => Some(Box::new((*frame)@)),
                            None => None,
                        },
                        ..old(self)@.cold_or_blank()
                    }),
                )
            } else {
                old(self)@
            },
    {
        if frame.is_some() || self.cold.is_some() {
            let mut cold = self.take_cold();
            cold.engine_post_return = frame;
            self.cold = Some(Box::new(cold));
        }
    }

    /// Takes the frame that runs once this one has returned.
    pub fn take_engine_post_return(&mut self) -> (frame: Option<Box<CallFrame>>)
        ensures
            match frame {
                Some(frame) => old(self)@.cold_or_blank().engine_post_return == Some(
                    Box::new((*frame)@),
                ),
                None => old(self)@.cold_or_blank().engine_post_return is None,
            },
            final(self)@ == match old(self)@.cold {
                Some(cold) => old(self)@.with_cold(
                    (ColdView { engine_post_return: None, ..cold }),
                ).pruned(),
                None => old(self)@,
            },
    {
        if self.cold.is_none() {
            return None;
        }
        let mut cold = self.take_cold();
        let frame = cold.engine_post_return.take();
        self.cold = Some(Box::new(cold));
        self.prune_empty_cold();
        frame
    }

    /// The suspended native numeric trace.
    pub fn numeric_jit_state(&self) -> (state: Option<u64>)
        ensures
            state == self@.cold_or_blank().numeric_jit_state,
    {
        match &self.cold {
            Some(cold) => cold.numeric_jit_state,
            None => None,
        }
    }

    /// Records the suspended native numeric trace.
    pub fn set_numeric_jit_state(&mut self, state: Option<u64>)
        ensures
            final(self)@ == if state is Some || old(self)@.cold is Some {
                old(self)@.with_cold(
                    (ColdView { numeric_jit_state: state, ..old(self)@.cold_or_blank() }),
                ).pruned()
            } else {
                old(self)@
            },
    {
        if state.is_some() || self.cold.is_some() {
            let mut cold = self.take_cold();
            cold.numeric_jit_state = state;
            self.cold = Some(Box::new(cold));
            self.prune_empty_cold();
        }
    }

    /// Takes the packed interpreter state kept across a yield.
    pub fn take_packed_numeric_state(&mut self) -> (state: Option<PackedNumericState>)
        ensures
            match state {
                Some(state) => old(self)@.cold_or_blank().packed_numeric_state == Some(state@),
                None => old(self)@.cold_or_blank().packed_numeric_state is None,
            },
            final(self)@ == match old(self)@.cold {
                Some(cold) => old(self)@.with_cold(
                    (ColdView { packed_numeric_state: None, ..cold }),
                ),
                None => old(self)@,
            },
    {
        if self.cold.is_none() {
            return None;
        }
        let mut cold = self.take_cold();
        let state = cold.packed_numeric_state.take();
        self.cold = Some(Box::new(cold));
        state
    }

    /// Keeps packed interpreter state across a yield.
    pub fn set_packed_numeric_state(&mut self, state: Option<PackedNumericState>)
        ensures
            final(self)@ == if state is Some || old(self)@.cold is Some {
                old(self)@.with_cold(
                    (ColdView {
                        packed_numeric_state: match state {
                            Some(state) => Some(state@),
                            None => None,
                        },
                        ..old(self)@.cold_or_blank()
                    }),
                ).pruned()
            } else {
                old(self)@
            },
    {
        if state.is_some() || self.cold.is_some() {
            let mut cold = self.take_cold();
            cold.packed_numeric_state = state;
            self.cold = Some(Box::new(cold));
            self.prune_empty_cold();
        }
    }
}

/// Whether a handler covers the frame's current instruction.
pub open spec fn covers(frame: FrameView, handler: ExceptionHandler) -> bool {
    handler.start <= frame.instruction <= handler.end
}

/// Whether the handler at a position covers the current instruction and no
/// inner one does.
pub open spec fn is_covering(frame: FrameView, at: int) -> bool {
    let handlers = frame.cold_or_blank().exception_handlers;
    &&& 0 <= at < handlers.len()
    &&& covers(frame, handlers[at])
    &&& forall|i: int| at < i < handlers.len() ==> !covers(frame, #[trigger] handlers[i])
}

/// The position of the innermost handler that covers the current instruction.
pub open spec fn covering_handler(frame: FrameView) -> Option<int> {
    if exists|at: int| is_covering(frame, at) {
        Some(choose|at: int| is_covering(frame, at))
    } else {
        None
    }
}

proof fn lemma_no_handler(frame: FrameView)
    requires
        forall|i: int|
            0 <= i < frame.cold_or_blank().exception_handlers.len() ==> !covers(
                frame,
                #[trigger] frame.cold_or_blank().exception_handlers[i],
            ),
    ensures
        covering_handler(frame) is None,
{
}

/// The values of a root vector.
fn root_values(roots: &InlineRoots) -> (values: Vec<Value>)
    ensures
        values@ == roots@,
{
    let mut values: Vec<Value> = Vec::new();
    let mut at: usize = 0;
    while at < roots.len()
        invariant
            at <= roots@.len(),
            values@ =~= roots@.subrange(0, at as int),
        decreases roots@.len() - at,
    {
        values.push(roots.get(at));
        at += 1;
    }
    assert(values@ =~= roots@);
    values
}

/// Rare state takes storage only while there is any: a frame without it has
/// storage while it overrides its result, and is as it was once it does not.
pub proof fn lemma_rare_state_only_while_live(frame: FrameView, value: Value)
    requires
        frame.cold is None,
    ensures
        frame.overriding(Some(value)).cold is Some,
        frame.overriding(Some(value)).cold_or_blank().caller_result_override == Some(value),
        frame.overriding(Some(value)).overriding(None) == frame,
{
    let cold = ColdView { caller_result_override: Some(value), ..ColdView::blank() };
    assert(frame.overriding(Some(value)).cold == Some(cold));
    assert((ColdView { caller_result_override: None, ..cold }) == ColdView::blank());
}

} // verus!
