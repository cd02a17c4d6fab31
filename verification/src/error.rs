//! Errors of an RLM run.

use vstd::prelude::*;

use crate::text::{decimal, push_decimal};

verus! {

/// Why a run ended without an answer.
#[derive(Debug)]
pub enum RlmError {
    /// The engine's depth is at or beyond its maximum depth.
    MaxDepthExceeded(usize),
    /// The model did not call `done()` within the iteration budget.
    MaxIterationsExceeded(usize),
    /// Executing a script failed outside the script itself.
    ScriptError(String),
    /// More consecutive script errors than the retry budget allows.
    MaxRetriesExceeded(usize),
    /// The provider call failed; holds the provider's message.
    ProviderError(String),
    /// The run was cancelled.
    Cancelled,
}

/// An `RlmError` with its text taken by view.
pub enum RlmErrorView {
    MaxDepthExceeded(usize),
    MaxIterationsExceeded(usize),
    ScriptError(Seq<char>),
    MaxRetriesExceeded(usize),
    ProviderError(Seq<char>),
    Cancelled,
}

impl View for RlmError {
    type V = RlmErrorView;

    open spec fn view(&self) -> RlmErrorView {
        match self {
            RlmError::MaxDepthExceeded(d) => RlmErrorView::MaxDepthExceeded(*d),
            RlmError::MaxIterationsExceeded(n) => RlmErrorView::MaxIterationsExceeded(*n),
            RlmError::ScriptError(m) => RlmErrorView::ScriptError(m@),
            RlmError::MaxRetriesExceeded(n) => RlmErrorView::MaxRetriesExceeded(*n),
            RlmError::ProviderError(m) => RlmErrorView::ProviderError(m@),
            RlmError::Cancelled => RlmErrorView::Cancelled,
        }
    }
}

/// The message that describes an error to a person.
pub open spec fn error_message(e: RlmErrorView) -> Seq<char> {
    match e {
        RlmErrorView::MaxDepthExceeded(d) => "max depth "@ + decimal(d as nat) + " exceeded"@,
        RlmErrorView::MaxIterationsExceeded(n) => "max iterations "@ + decimal(n as nat)
            + " exceeded without calling done()"@,
        RlmErrorView::ScriptError(m) => "script error: "@ + m,
        RlmErrorView::MaxRetriesExceeded(n) => "max script retries ("@ + decimal(n as nat)
            + ") exceeded for one cell"@,
        RlmErrorView::ProviderError(m) => "provider error: "@ + m,
        RlmErrorView::Cancelled => "run cancelled"@,
    }
}

impl RlmError {
    /// The message that describes this error to a person.
    pub fn message(&self) -> (m: String)
        ensures
            m@ == error_message(self@),
    {
        let mut m = String::new();
        match self {
            RlmError::MaxDepthExceeded(d) => {
                m.append("max depth ");
                push_decimal(&mut m, *d);
                m.append(" exceeded");
            },
            RlmError::MaxIterationsExceeded(n) => {
                m.append("max iterations ");
                push_decimal(&mut m, *n);
                m.append(" exceeded without calling done()");
            },
            RlmError::ScriptError(e) => {
                m.append("script error: ");
                m.append(e.as_str());
            },
            RlmError::MaxRetriesExceeded(n) => {
                m.append("max script retries (");
                push_decimal(&mut m, *n);
                m.append(") exceeded for one cell");
            },
            RlmError::ProviderError(e) => {
                m.append("provider error: ");
                m.append(e.as_str());
            },
            RlmError::Cancelled => {
                m.append("run cancelled");
            },
        }
        assert(m@ =~= error_message(self@));
        m
    }
}

} // verus!
