//! Skins: which of them open a client, and which one clients connect with.

use vstd::prelude::*;
use crate::clients::session_installed;
use crate::heap::DatumView;
use crate::state::{ClientTable, ExecutionState, Skin};
use crate::value::DatumId;

verus! {

/// How bad a finding in a skin is.
#[derive(Clone, Copy, PartialEq, Eq, Structural, Debug)]
pub enum DiagnosticSeverity {
    Error,
    Warning,
}

/// A finding in the text of a skin.
#[derive(Debug)]
pub struct Diagnostic {
    pub severity: DiagnosticSeverity,
    pub message: String,
}

/// Why a skin opens no client: the errors in it, in their order.
#[derive(Debug)]
pub struct LocalClientError {
    pub diagnostics: Vec<Diagnostic>,
}

/// The errors among the first findings in a skin.
pub open spec fn errors_among(diagnostics: Seq<Diagnostic>, count: nat) -> Seq<Diagnostic>
    decreases count,
{
    if count == 0 {
        Seq::empty()
    } else {
        let earlier = errors_among(diagnostics, (count - 1) as nat);
        if diagnostics[count - 1].severity == DiagnosticSeverity::Error {
            earlier.push(diagnostics[count - 1])
        } else {
            earlier
        }
    }
}

/// What is wrong with a skin.
pub open spec fn skin_errors(diagnostics: Seq<Diagnostic>) -> Seq<Diagnostic> {
    errors_among(diagnostics, diagnostics.len())
}

/// A finding is among the errors exactly where it is one.
proof fn lemma_errors_among(diagnostics: Seq<Diagnostic>, count: nat)
    requires
        count <= diagnostics.len(),
    ensures
        (errors_among(diagnostics, count).len() == 0) == (forall|at: int|
            0 <= at < count ==> (#[trigger] diagnostics[at]).severity
                != DiagnosticSeverity::Error),
    decreases count,
{
    if count > 0 {
        lemma_errors_among(diagnostics, (count - 1) as nat);
        if diagnostics[count - 1].severity != DiagnosticSeverity::Error {
            assert forall|at: int| 0 <= at < count && (forall|other: int|
                0 <= other < count - 1 ==> (#[trigger] diagnostics[other]).severity
                    != DiagnosticSeverity::Error) implies (#[trigger] diagnostics[at]).severity
                != DiagnosticSeverity::Error by {
                if at < count - 1 {
                    assert(diagnostics[at].severity != DiagnosticSeverity::Error);
                }
            }
        }
    }
}

/// What opening a client with a skin does: a skin with errors changes nothing.
pub open spec fn client_opened(
    before: ExecutionState,
    diagnostics: Seq<Diagnostic>,
    skin: Skin,
    after: ExecutionState,
    outcome: Result<DatumId, LocalClientError>,
) -> bool {
    let errors = skin_errors(diagnostics);
    match outcome {
        Err(error) => errors.len() > 0 && error.diagnostics@ == errors && after == before,
        Ok(client) => {
            &&& errors.len() == 0
            &&& !before.heap@.datums.contains_key(client)
            &&& after.heap@ == before.heap@.with_datum(
                client,
                DatumView::of_type(before.names.client_path),
            )
            &&& session_installed(
                ExecutionState { heap: after.heap, ..before },
                client,
                Some(skin),
                after,
            )
        },
    }
}

impl ExecutionState {
    /// Opens a client with a parsed skin.
    ///
    /// # Errors
    ///
    /// Returns the errors found in the skin, without making a client.
    pub fn open_local_client(&mut self, diagnostics: &Vec<Diagnostic>, skin: Skin) -> (outcome:
        Result<DatumId, LocalClientError>)
        ensures
            client_opened(*old(self), diagnostics@, skin, *final(self), outcome),
    {
        let mut errors: Vec<Diagnostic> = Vec::new();
        let mut at: usize = 0;
        while at < diagnostics.len()
            invariant
                at <= diagnostics@.len(),
                errors@ == errors_among(diagnostics@, at as nat),
            decreases diagnostics@.len() - at,
        {
            let found = &diagnostics[at];
            if found.severity == DiagnosticSeverity::Error {
                errors.push(
                    Diagnostic { severity: found.severity, message: found.message.clone() },
                );
            }
            at += 1;
        }
        if errors.len() > 0 {
            return Err(LocalClientError { diagnostics: errors });
        }
        let client = self.heap.allocate_datum(self.names.client_path);
        self.install_client_session(client, Some(skin));
        Ok(client)
    }

    /// Where the skin is still to be read from: the project's root, where no
    /// skin was chosen yet.
    pub fn missing_skin_root(&self) -> (root: Option<&String>)
        ensures
            match root {
                Some(root) => self.clients.skin is None && self.services.project_root == Some(
                    *root,
                ),
                None => self.clients.skin is Some || self.services.project_root is None,
            },
    {
        if self.clients.skin.is_some() {
            None
        } else {
            self.services.project_root.as_ref()
        }
    }

    /// Chooses a skin that was read, or tells of the first error in it.
    ///
    /// # Errors
    ///
    /// Returns what the first error in the skin says.
    pub fn adopt_skin(&mut self, diagnostics: &Vec<Diagnostic>, skin: Skin) -> (outcome: Result<
        (),
        String,
    >)
        ensures
            match outcome {
                Err(message) => skin_errors(diagnostics@).len() > 0 && message@ == skin_errors(
                    diagnostics@,
                )[0].message@ && *final(self) == *old(self),
                Ok(_) => skin_errors(diagnostics@).len() == 0 && *final(self) == (ExecutionState {
                    clients: (ClientTable { skin: Some(skin), ..old(self).clients }),
                    ..*old(self)
                }),
            },
    {
        let mut at: usize = 0;
        while at < diagnostics.len()
            invariant
                at <= diagnostics@.len(),
                errors_among(diagnostics@, at as nat).len() == 0,
                *self == *old(self),
            decreases diagnostics@.len() - at,
        {
            let found = &diagnostics[at];
            if found.severity == DiagnosticSeverity::Error {
                proof {
                    let first = errors_among(diagnostics@, (at + 1) as nat);
                    assert(first.len() == 1 && first[0] == diagnostics@[at as int]);
                    lemma_errors_grow(diagnostics@, (at + 1) as nat, diagnostics@.len());
                }
                return Err(found.message.clone());
            }
            at += 1;
        }
        self.set_local_client_skin(skin);
        Ok(())
    }
}

/// Later findings come behind earlier ones.
proof fn lemma_errors_grow(diagnostics: Seq<Diagnostic>, few: nat, many: nat)
    requires
        few <= many,
    ensures
        errors_among(diagnostics, few).is_prefix_of(errors_among(diagnostics, many)),
    decreases many,
{
    if few < many {
        lemma_errors_grow(diagnostics, few, (many - 1) as nat);
    }
}

/// A skin opens a client exactly where no finding in it is an error.
pub proof fn lemma_sound_skin_opens(
    before: ExecutionState,
    diagnostics: Seq<Diagnostic>,
    skin: Skin,
    after: ExecutionState,
    outcome: Result<DatumId, LocalClientError>,
)
    requires
        client_opened(before, diagnostics, skin, after, outcome),
    ensures
        (outcome is Ok) == (forall|at: int|
            0 <= at < diagnostics.len() ==> (#[trigger] diagnostics[at]).severity
                != DiagnosticSeverity::Error),
{
    lemma_errors_among(diagnostics, diagnostics.len());
}

} // verus!
