//! The error taxonomy of the collection engine.

use vstd::prelude::*;
use vstd::string::*;

verus! {

/// An error arising while collecting data.
///
/// `BadParams` and `BadSchema` are pre-flight failures: the run aborts
/// before any partition is dispatched.  `RpcError` and `CollectError`
/// are per-work-item failures: they mark one partition errored and the
/// run continues.  `Cancelled` records a task stopped by upstream
/// cancellation.
#[derive(Debug, Clone)]
pub enum CollectError {
    /// Caller or configuration error.
    BadParams(String),
    /// A schema could not be resolved.
    BadSchema(String),
    /// Transport, timeout or decoder failure.
    RpcError(String),
    /// Logical failure, such as a missing block.
    CollectError(String),
    /// Task stopped due to upstream cancellation.
    Cancelled,
}

impl CollectError {
    /// A one-line description, used when tallying errors in summaries.
    pub fn describe(&self) -> (r: String)
        ensures
            r@ == self.spec_describe(),
    {
        match self {
            CollectError::BadParams(msg) => String::from_str("bad params: ").concat(msg.as_str()),
            CollectError::BadSchema(msg) => String::from_str("bad schema: ").concat(msg.as_str()),
            CollectError::RpcError(msg) => String::from_str("rpc error: ").concat(msg.as_str()),
            CollectError::CollectError(msg) => {
                String::from_str("collect error: ").concat(msg.as_str())
            },
            CollectError::Cancelled => String::from_str("cancelled"),
        }
    }

    /// What `describe` returns, as a sequence of characters.
    pub open spec fn spec_describe(&self) -> Seq<char> {
        match self {
            CollectError::BadParams(msg) => "bad params: "@ + msg@,
            CollectError::BadSchema(msg) => "bad schema: "@ + msg@,
            CollectError::RpcError(msg) => "rpc error: "@ + msg@,
            CollectError::CollectError(msg) => "collect error: "@ + msg@,
            CollectError::Cancelled => "cancelled"@,
        }
    }

    /// True of the pre-flight errors, which abort a run before any
    /// partition dispatches.
    pub open spec fn is_preflight(&self) -> bool {
        self is BadParams || self is BadSchema
    }
}

/// A logical collection failure carrying the given message.
pub fn err(message: &str) -> (r: CollectError)
    ensures
        r matches CollectError::CollectError(m) && m@ == message@,
        !r.is_preflight(),
{
    CollectError::CollectError(message.to_owned())
}

} // verus!
