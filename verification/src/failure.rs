//! What an operation of the agent can fail with.

use vstd::prelude::*;

verus! {

/// The class of a failure, as the standard library's I/O errors have one.
#[derive(Clone, Copy, Debug, PartialEq, Eq, Structural)]
pub enum ErrorKind {
    InvalidInput,
    InvalidData,
    UnexpectedEof,
    Interrupted,
    Other,
}

/// A failure: its class and a text for people.
#[derive(Debug, PartialEq, Eq)]
pub struct Failure {
    pub kind: ErrorKind,
    pub text: String,
}

/// The contents of a [`Failure`].
pub struct FailureView {
    pub kind: ErrorKind,
    pub text: Seq<char>,
}

impl View for Failure {
    type V = FailureView;

    open spec fn view(&self) -> FailureView {
        FailureView { kind: self.kind, text: self.text@ }
    }
}

impl Failure {
    pub fn new(kind: ErrorKind, text: &str) -> (r: Failure)
        ensures
            r@ == (FailureView { kind, text: text@ }),
    {
        Failure { kind, text: text.to_owned() }
    }

    pub fn kind(&self) -> (r: ErrorKind)
        ensures
            r == self@.kind,
    {
        self.kind
    }

    pub fn message(&self) -> (r: &str)
        ensures
            r@ == self@.text,
    {
        self.text.as_str()
    }
}

/// A failure is taken as it is.
pub proof fn lemma_failure_view(e: Failure)
    ensures
        e@ == (FailureView { kind: e.kind, text: e.text@ }),
{
}

} // verus!
