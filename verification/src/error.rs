//! The error type of the agents.

use vstd::prelude::*;

verus! {

/// Why an agent could not handle its input.
#[derive(Debug)]
pub enum AgentError {
    /// The input, or something derived from it, is not acceptable.
    InvalidValue(String),
    /// A request, a response or a document could not be handled.
    IoError(String),
    /// A required setting is missing.
    InvalidConfig(String),
}

/// An [`AgentError`] with its message as a sequence of characters.
pub enum ErrorView {
    InvalidValue(Seq<char>),
    IoError(Seq<char>),
    InvalidConfig(Seq<char>),
}

impl View for AgentError {
    type V = ErrorView;

    open spec fn view(&self) -> ErrorView {
        match self {
            AgentError::InvalidValue(m) => ErrorView::InvalidValue(m@),
            AgentError::IoError(m) => ErrorView::IoError(m@),
            AgentError::InvalidConfig(m) => ErrorView::InvalidConfig(m@),
        }
    }
}

impl AgentError {
    /// The message the error carries.
    pub fn message(&self) -> (m: &String)
        ensures
            m@ == match self@ {
                ErrorView::InvalidValue(m) => m,
                ErrorView::IoError(m) => m,
                ErrorView::InvalidConfig(m) => m,
            },
    {
        match self {
            AgentError::InvalidValue(m) => m,
            AgentError::IoError(m) => m,
            AgentError::InvalidConfig(m) => m,
        }
    }
}

} // verus!
