//! What happens where the constructor of a client reaches the engine: the client gets
//! its mob, the mob its key, and the mob is constructed before it logs in.

use vstd::prelude::*;
use crate::activation::fresh_frame;
use crate::calling::CallTarget;
use crate::clients::{
    client_attached, client_is_at, introduced, mob_recorded, Attachment, ClientError,
    LocalClientState,
};
use crate::dispatching::{awaits_login, parent_called, Entry, LoginCall};
use crate::fault::Fault;
use crate::frame::FrameView;
use crate::geometry::field_or_initial;
use crate::literals::same_beside_heap;
use crate::program::{Module, ProcedureId, Program};
use crate::state::ExecutionState;
use crate::value::{DatumId, Value};

verus! {

/// The key that a client hands to its mob: its own, where the mob has a key at all.
pub open spec fn handed_key(state: ExecutionState, client: DatumId, mob: DatumId) -> Option<Value> {
    if field_or_initial(state.heap@, state.catalog@, mob, state.names.key) is Some {
        state.heap@.field(client, state.names.key)
    } else {
        None
    }
}

/// Whether a client handed its key to its mob.
pub open spec fn key_handed(
    before: ExecutionState,
    client: DatumId,
    mob: DatumId,
    after: ExecutionState,
) -> bool {
    &&& same_beside_heap(before, after)
    &&& match handed_key(before, client, mob) {
        Some(key) => after.heap@ == before.heap@.with_datum(
            mob,
            before.heap@.datums[mob].with_field(before.names.key, key),
        ),
        None => after.heap@ == before.heap@,
    }
}

/// What the start of a login does: client and mob know each other, and the mob gets
/// the key unless it has to be placed first.
pub open spec fn login_begun(
    before: ExecutionState,
    client: DatumId,
    mob: DatumId,
    after: ExecutionState,
    outcome: Result<Attachment, ClientError>,
) -> bool {
    exists|mid: ExecutionState| #[trigger]
        client_attached(before, client, mob, mid, outcome) && match outcome {
            Ok(Attachment::Attached(_)) => key_handed(mid, client, mob, after),
            _ => after == mid,
        }
}

/// What the login of a mob that was placed does: it is recorded and gets the key.
pub open spec fn login_placed(
    before: ExecutionState,
    client: DatumId,
    mob: DatumId,
    after: ExecutionState,
    outcome: Result<LocalClientState, ClientError>,
) -> bool {
    exists|mid: ExecutionState| #[trigger]
        mob_recorded(before, client, mob, mid) && client_is_at(mid, client, outcome)
            && match outcome {
            Ok(_) => key_handed(mid, client, mob, after),
            Err(_) => after == mid,
        }
}

/// What is called once a mob is attached: its constructor where it has one, and after
/// that its login.
pub open spec fn login_plan(login: CallTarget, constructor: Option<CallTarget>) -> LoginCall {
    match constructor {
        Some(constructor) => LoginCall { target: constructor, next: Some(login) },
        None => LoginCall { target: login, next: None },
    }
}

/// Plans what is called once a mob is attached.
pub fn plan_login(login: CallTarget, constructor: Option<CallTarget>) -> (plan: LoginCall)
    ensures
        plan == login_plan(login, constructor),
{
    match constructor {
        Some(constructor) => LoginCall { target: constructor, next: Some(login) },
        None => LoginCall { target: login, next: None },
    }
}

impl ExecutionState {
    fn hand_key(&mut self, client: DatumId, mob: DatumId)
        ensures
            key_handed(*old(self), client, mob, *final(self)),
    {
        let name = self.names.key;
        if self.datum_field_or_initial(mob, name).is_err() {
            return;
        }
        if let Ok(key) = self.heap.datum_field(client, name) {
            let _ = self.heap.set_datum_field(mob, name, key);
        }
    }

    /// Begins the login of a client with its mob.
    pub fn begin_login(&mut self, client: DatumId, mob: DatumId) -> (outcome: Result<
        Attachment,
        ClientError,
    >)
        ensures
            login_begun(*old(self), client, mob, *final(self), outcome),
    {
        let outcome = self.attach_local_client(client, mob);
        assert(client_attached(*old(self), client, mob, *self, outcome));
        if let Ok(Attachment::Attached(_)) = outcome {
            self.hand_key(client, mob);
        }
        outcome
    }

    /// Goes on with the login of a client whose mob was placed.
    pub fn continue_login(&mut self, client: DatumId, mob: DatumId) -> (outcome: Result<
        LocalClientState,
        ClientError,
    >)
        ensures
            login_placed(*old(self), client, mob, *final(self), outcome),
    {
        let outcome = self.record_local_client(client, mob);
        assert(mob_recorded(*old(self), client, mob, *self));
        if outcome.is_ok() {
            self.hand_key(client, mob);
        }
        outcome
    }
}

/// Before anything of a mob runs, client and mob know each other and the mob has the
/// key that its client hands over.
pub proof fn lemma_login_introduces(
    before: ExecutionState,
    client: DatumId,
    mob: DatumId,
    after: ExecutionState,
    placed: LocalClientState,
)
    requires
        before.names.valid(&before.symbols),
        client != mob,
        login_begun(
            before,
            client,
            mob,
            after,
            Ok::<Attachment, ClientError>(Attachment::Attached(placed)),
        ),
    ensures
        after.heap@.field(client, before.names.mob) == Some(Value::Datum(mob)),
        after.heap@.field(mob, before.names.client) == Some(Value::Datum(client)),
        after.clients.mobs@.contains_key(client.0) && after.clients.mobs@[client.0] == mob,
        before.heap@.field(client, before.names.key) is Some && field_or_initial(
            before.heap@,
            before.catalog@,
            mob,
            before.names.key,
        ) is Some ==> after.heap@.field(mob, before.names.key) == before.heap@.field(
            client,
            before.names.key,
        ),
{
    reveal_strlit("key");
    reveal_strlit("mob");
    reveal_strlit("client");
    let names = before.names;
    assert(names.key != names.client) by {
        assert(before.symbols.spelling(names.key.0).len() == 3);
        assert(before.symbols.spelling(names.client.0).len() == 6);
    }
    assert(names.key != names.mob) by {
        assert(before.symbols.spelling(names.key.0)[0] == 'k');
        assert(before.symbols.spelling(names.mob.0)[0] == 'm');
    }
    let mid = choose|mid: ExecutionState| #[trigger]
        client_attached(
            before,
            client,
            mob,
            mid,
            Ok::<Attachment, ClientError>(Attachment::Attached(placed)),
        ) && key_handed(mid, client, mob, after);
    assert(mid.heap@ == introduced(before.heap@, names, client, mob));
}

/// Where a client's mob has a constructor, the call that its login enters is that of
/// the constructor, and the login follows when it returns.
pub proof fn lemma_constructor_before_login(
    state: ExecutionState,
    module: Module,
    program: Program,
    frame: FrameView,
    depth: int,
    limit: usize,
    parent: Option<ProcedureId>,
    fixed: Option<u16>,
    login: CallTarget,
    constructor: CallTarget,
    after: FrameView,
    entered: crate::frame::CallFrame,
)
    requires
        awaits_login(state, module, frame, parent),
        parent_called(
            state,
            module,
            program,
            frame,
            depth,
            limit,
            parent,
            fixed,
            Some(login_plan(login, Some(constructor))),
            after,
            Ok::<Entry, Fault>(Entry::Enter(entered)),
        ),
    ensures
        entered@.procedure == constructor.procedure,
        entered@.src == constructor.context.src,
        entered@.cold_or_blank().engine_post_return == Some(
            Box::new(
                fresh_frame(
                    login.procedure,
                    module.spec_procedure(login.procedure)->0,
                    Seq::empty(),
                    login.context,
                ),
            ),
        ),
{
}

} // verus!
