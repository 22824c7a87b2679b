//! The signal a candidate is terminated with, held by its name.

use crate::error::KillportError;
use std::str::FromStr;
use vstd::prelude::*;

verus! {

/// Whether `name` is the name of a signal on the platform the library was
/// built for, such as `SIGKILL`.
pub uninterp spec fn signal_name_known(name: Seq<char>) -> bool;

/// Asks `nix::sys::signal::Signal::from_str` whether it knows `name`. The
/// answer depends on the name alone: the signals are a fixed list of names
/// in upper case, chosen when the library is built.
#[verifier::external_body]
fn is_signal_name(name: &str) -> (known: bool)
    ensures
        known == signal_name_known(name@),
{
    nix::sys::signal::Signal::from_str(name).is_ok()
}

/// A signal, held by the name under which the platform knows it.
#[derive(Debug, Clone, PartialEq, Eq)]
pub struct KillportSignal(pub String);

impl View for KillportSignal {
    type V = Seq<char>;

    open spec fn view(&self) -> Seq<char> {
        self.0@
    }
}

impl KillportSignal {
    /// Makes the signal `value` where the platform was found to know that
    /// name, and rejects the name where it was not.
    pub fn from_lookup(value: &str, known: bool) -> (signal: Result<Self, KillportError>)
        ensures
            signal is Ok <==> known,
            signal matches Ok(s) ==> s@ == value@,
            signal matches Err(e) ==> e matches KillportError::InvalidSignal(name) && name@
                == value@,
    {
        if known {
            Ok(KillportSignal(value.to_owned()))
        } else {
            Err(KillportError::InvalidSignal(value.to_owned()))
        }
    }

    /// Parses a signal from its name, which is matched as it stands: the
    /// names the platform knows are in upper case.
    pub fn from_str(value: &str) -> (signal: Result<Self, KillportError>)
        ensures
            signal is Ok <==> signal_name_known(value@),
            signal matches Ok(s) ==> s@ == value@,
            signal matches Err(e) ==> e matches KillportError::InvalidSignal(name) && name@
                == value@,
    {
        let known = is_signal_name(value);
        Self::from_lookup(value, known)
    }

    /// The name of the signal, as it was parsed.
    pub fn to_string(&self) -> (name: String)
        ensures
            name@ == self@,
    {
        self.0.clone()
    }

    /// A second signal of the same name.
    pub fn duplicate(&self) -> (copy: Self)
        ensures
            copy == *self,
    {
        KillportSignal(self.0.clone())
    }
}

} // verus!
