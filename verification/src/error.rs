//! The one failure that the node's own rules can raise.

use vstd::prelude::*;
use vstd::string::*;

verus! {

/// A payload that is out of place where it arrived. Every violation is fatal
/// to the node: none is retried or skipped.
#[derive(Debug, Clone, Copy, PartialEq, Eq, Structural)]
pub enum ProtocolViolation {
    /// The first message that a node received was not an `init` request.
    ExpectedInit,
    /// A payload arrived as a request that has no reply: a reply of another
    /// node, or a payload that this kind of node does not answer.
    UnexpectedPayload,
    /// A `topology` request assigned no neighbour list to the node it was
    /// sent to.
    MissingTopology,
}

impl ProtocolViolation {
    /// The text of `describe`.
    pub open spec fn text(self) -> Seq<char> {
        match self {
            ProtocolViolation::ExpectedInit => "did not receive init message"@,
            ProtocolViolation::UnexpectedPayload => "unexpected message received"@,
            ProtocolViolation::MissingTopology => "missing topology for node"@,
        }
    }

    /// A one-line diagnostic.
    pub fn describe(&self) -> (line: String)
        ensures
            line@ == self.text(),
    {
        match self {
            ProtocolViolation::ExpectedInit => String::from_str("did not receive init message"),
            ProtocolViolation::UnexpectedPayload => String::from_str("unexpected message received"),
            ProtocolViolation::MissingTopology => String::from_str("missing topology for node"),
        }
    }
}

} // verus!
