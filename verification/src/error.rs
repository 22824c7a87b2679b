//! The ways in which freeing a port can fail.

use vstd::prelude::*;
use vstd::string::*;

verus! {

/// Why a port could not be freed.
#[derive(Debug)]
pub enum KillportError {
    /// The signal name is not one the platform knows.
    InvalidSignal(String),
    /// The platform offers no way to find the owners of a port.
    UnsupportedPlatform,
    /// A socket is bound to the port, but no process that could be read
    /// holds it: the owner may belong to another user.
    OwnerNotFound,
    /// The system or the container runtime could not be asked for the owners
    /// of the port; the text is its own account of the failure.
    Resolution(String),
    /// A candidate could not be terminated; the text is the system's or the
    /// runtime's own account of the failure.
    Termination(String),
    /// The engine was told of an outcome it had not asked for.
    UnexpectedEvent,
}

/// The account of a termination that failed: the name of the candidate and
/// the reason the system or the runtime gave.
pub open spec fn refusal(name: Seq<char>, reason: Seq<char>) -> Seq<char> {
    "Failed to kill '"@ + name + "': "@ + reason
}

/// Writes the account of a termination that failed.
pub fn describe_refusal(name: &str, reason: &str) -> (text: String)
    ensures
        text@ == refusal(name@, reason@),
{
    let mut text = "Failed to kill '".to_owned();
    text.append(name);
    text.append("': ");
    text.append(reason);
    text
}

} // verus!
