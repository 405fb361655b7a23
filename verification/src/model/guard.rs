//! What stands between a view's action and the model: on a document with
//! unexported edits, clearing and opening another file ask first.
use super::actions::Action;
use std::path::PathBuf;
use vstd::prelude::*;

verus! {

/// The outcome of guarding an action.
pub enum Guarded {
    /// Ask before discarding the edits; `pending_open` is the file to open
    /// once confirmed (`None`: clear the document).
    Confirm { pending_open: Option<PathBuf> },
    /// Hand this action to the model.
    Proceed(Action),
}

/// The guard rule: a clear request asks on a dirty document and clears a
/// clean one at once; a picked file asks on a dirty document; everything
/// else passes.
pub open spec fn guarded(action: Action, dirty: bool) -> Guarded {
    match action {
        Action::ClearRequested => if dirty {
            Guarded::Confirm { pending_open: None }
        } else {
            Guarded::Proceed(Action::ClearConfirmed)
        },
        Action::FilePicked(Some(path)) => if dirty {
            Guarded::Confirm { pending_open: Some(path) }
        } else {
            Guarded::Proceed(Action::FilePicked(Some(path)))
        },
        a => Guarded::Proceed(a),
    }
}

/// Guards `action` given whether the document has unexported edits.
pub fn guard(action: Action, dirty: bool) -> (r: Guarded)
    ensures
        r == guarded(action, dirty),
{
    match action {
        Action::ClearRequested => if dirty {
            Guarded::Confirm { pending_open: None }
        } else {
            Guarded::Proceed(Action::ClearConfirmed)
        },
        Action::FilePicked(Some(path)) => if dirty {
            Guarded::Confirm { pending_open: Some(path) }
        } else {
            Guarded::Proceed(Action::FilePicked(Some(path)))
        },
        a => Guarded::Proceed(a),
    }
}

/// The action a confirmed discard carries out: open the pending file, or
/// clear the document.
pub fn confirmed(pending_open: Option<PathBuf>) -> (r: Action)
    ensures
        r == match pending_open {
            Some(p) => Action::FilePicked(Some(p)),
            None => Action::ClearConfirmed,
        },
{
    match pending_open {
        Some(p) => Action::FilePicked(Some(p)),
        None => Action::ClearConfirmed,
    }
}

/// Actions that replace or drop the document (the views then reset their
/// drafts and texture caches).
pub open spec fn switches_document(a: Action) -> bool {
    ||| a matches Action::FilePicked(Some(_))
    ||| a is LoadFinished
    ||| a is ClearConfirmed
}

/// Whether `action` replaces or drops the document.
pub fn is_document_switch(action: &Action) -> (r: bool)
    ensures
        r == switches_document(*action),
{
    match action {
        Action::FilePicked(Some(_)) => true,
        Action::LoadFinished(_) => true,
        Action::ClearConfirmed => true,
        _ => false,
    }
}

} // verus!
