//! Note relevance screening.
//!
//! During a state sync the client reports every committed note; the faucet
//! keeps only those it is itself tracking as output notes. The store lookup
//! is the runtime's work; the decision over its answer is here.

use vstd::prelude::*;

verus! {

/// What the screener tells the sync to do with a committed note.
#[derive(Clone, Copy, PartialEq, Eq, Structural, Debug)]
pub enum NoteAction {
    /// The note is a tracked output note: commit it.
    Commit,
    /// The note is not relevant to the faucet: discard it.
    Discard,
}

/// Screens one committed note: it is relevant exactly when the store lists
/// it among the faucet's own output notes.
pub fn on_note_received(output_note_present: bool) -> (a: NoteAction)
    ensures
        a is Commit <==> output_note_present,
{
    if output_note_present {
        NoteAction::Commit
    } else {
        NoteAction::Discard
    }
}

} // verus!
