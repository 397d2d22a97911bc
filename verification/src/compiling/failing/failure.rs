//! The two grades of failure that a parser returns.

use vstd::prelude::*;
use crate::compiling::failing::message::{Message, MessageView};
use crate::compiling::failing::position_info::{PositionInfo, PositionInfoView};

verus! {

/// Why a piece of syntax did not parse.
///
/// A quiet failure says that the syntax does not apply here; the caller
/// may try another. A loud failure says that the input is malformed; it
/// ends the parse and is shown to the user.
#[derive(Debug, PartialEq, Eq)]
pub enum Failure {
    /// A mismatch, with the span where it was found.
    Quiet(PositionInfo),
    /// A diagnostic for the user.
    Loud(Message),
}

/// A failure as a mathematical value.
pub enum FailureView {
    Quiet(PositionInfoView),
    Loud(MessageView),
}

impl View for Failure {
    type V = FailureView;

    open spec fn view(&self) -> FailureView {
        match self {
            Failure::Quiet(info) => FailureView::Quiet(info@),
            Failure::Loud(message) => FailureView::Loud(message@),
        }
    }
}

impl Clone for Failure {
    fn clone(&self) -> (out: Failure)
        ensures
            out@ == self@,
    {
        match self {
            Failure::Quiet(info) => Failure::Quiet(info.clone()),
            Failure::Loud(message) => Failure::Loud(message.clone()),
        }
    }
}

impl Failure {
    /// Whether the failure is quiet.
    pub fn is_quiet(&self) -> (quiet: bool)
        ensures
            quiet == (self is Quiet),
    {
        match self {
            Failure::Quiet(_) => true,
            Failure::Loud(_) => false,
        }
    }

    /// Whether the failure is loud.
    pub fn is_loud(&self) -> (loud: bool)
        ensures
            loud == (self is Loud),
    {
        match self {
            Failure::Quiet(_) => false,
            Failure::Loud(_) => true,
        }
    }

    /// The span of a quiet failure.
    pub fn unwrap_quiet(self) -> (info: PositionInfo)
        requires
            self is Quiet,
        ensures
            self == Failure::Quiet(info),
    {
        match self {
            Failure::Quiet(info) => info,
            Failure::Loud(_) => vstd::pervasive::unreached(),
        }
    }

    /// The message of a loud failure.
    pub fn unwrap_loud(self) -> (message: Message)
        requires
            self is Loud,
        ensures
            self == Failure::Loud(message),
    {
        match self {
            Failure::Quiet(_) => vstd::pervasive::unreached(),
            Failure::Loud(message) => message,
        }
    }
}

} // verus!
