//! Errors of the cluster layer.

use vstd::prelude::*;

verus! {

/// What went wrong.
#[derive(Debug, PartialEq, Eq)]
pub enum ClusterError {
    /// The node is not approved to join.
    NotApproved(u128),
    /// Something is not in place.
    Internal(String),
    /// Consensus refused a change.
    RaftError(String),
    /// The mode does not allow it.
    ModeTransitionRejected(String),
}

/// Model of [`ClusterError`].
pub enum ErrorView {
    NotApproved(u128),
    Internal(Seq<char>),
    RaftError(Seq<char>),
    ModeTransitionRejected(Seq<char>),
}

impl View for ClusterError {
    type V = ErrorView;

    open spec fn view(&self) -> ErrorView {
        match self {
            ClusterError::NotApproved(id) => ErrorView::NotApproved(*id),
            ClusterError::Internal(m) => ErrorView::Internal(m@),
            ClusterError::RaftError(m) => ErrorView::RaftError(m@),
            ClusterError::ModeTransitionRejected(m) => ErrorView::ModeTransitionRejected(m@),
        }
    }
}

/// An error is modelled by its kind and what it carries.
pub proof fn models_say_what_went_wrong(e: ClusterError)
    ensures
        e matches ClusterError::NotApproved(id) ==> e@ == ErrorView::NotApproved(id),
        e matches ClusterError::Internal(m) ==> e@ == ErrorView::Internal(m@),
        e matches ClusterError::RaftError(m) ==> e@ == ErrorView::RaftError(m@),
        e matches ClusterError::ModeTransitionRejected(m) ==> e@
            == ErrorView::ModeTransitionRejected(m@),
{
}

} // verus!
