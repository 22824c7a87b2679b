//! The policy values a caller selects: which classes of entity to target,
//! and with which signal.

use crate::error::KillportError;
use crate::killport::KillableType;
use crate::signal::{signal_name_known, KillportSignal};
use vstd::prelude::*;
use vstd::string::*;

verus! {

/// Which classes of entity a resolution may target.
#[derive(Debug, Clone, Copy, PartialEq, Eq, Structural)]
pub enum Mode {
    /// Native processes and containers.
    Auto,
    /// Native processes only.
    Process,
    /// Containers only.
    Container,
}

impl Mode {
    /// The word a caller selects the mode by.
    pub fn to_string(&self) -> (word: String)
        ensures
            word@ == match *self {
                Mode::Auto => "auto"@,
                Mode::Process => "process"@,
                Mode::Container => "container"@,
            },
    {
        let variant = match *self {
            Mode::Auto => "auto",
            Mode::Process => "process",
            Mode::Container => "container",
        };
        variant.to_owned()
    }
}

/// Returns the noun for what a mode targets, in the singular and in the
/// plural.
pub fn service_descriptors(mode: Mode) -> (nouns: (&'static str, &'static str))
    ensures
        nouns.0@ == match mode {
            Mode::Auto => "service"@,
            Mode::Process => "process"@,
            Mode::Container => "container"@,
        },
        nouns.1@ == match mode {
            Mode::Auto => "services"@,
            Mode::Process => "processes"@,
            Mode::Container => "containers"@,
        },
{
    match mode {
        Mode::Auto => ("service", "services"),
        Mode::Process => ("process", "processes"),
        Mode::Container => ("container", "containers"),
    }
}

/// `text` with every character in upper case, as `str::to_uppercase` gives
/// it.
pub uninterp spec fn uppercase(text: Seq<char>) -> Seq<char>;

/// `str::to_uppercase` maps each character to its upper case by the rules
/// of Unicode, which depend on the text alone.
pub assume_specification[ str::to_uppercase ](text: &str) -> (upper: String)
    ensures
        upper@ == uppercase(text@),
;

/// Parses the signal a caller names, in whatever case it is written.
pub fn parse_signal(arg: &str) -> (signal: Result<KillportSignal, KillportError>)
    ensures
        signal is Ok <==> signal_name_known(uppercase(arg@)),
        signal matches Ok(s) ==> s@ == uppercase(arg@),
        signal matches Err(e) ==> e matches KillportError::InvalidSignal(name) && name@
            == uppercase(arg@),
{
    let upper = arg.to_uppercase();
    KillportSignal::from_str(upper.as_str())
}

/// The numeral of one decimal digit.
pub open spec fn digit(d: nat) -> Seq<char> {
    if d == 0 {
        "0"@
    } else if d == 1 {
        "1"@
    } else if d == 2 {
        "2"@
    } else if d == 3 {
        "3"@
    } else if d == 4 {
        "4"@
    } else if d == 5 {
        "5"@
    } else if d == 6 {
        "6"@
    } else if d == 7 {
        "7"@
    } else if d == 8 {
        "8"@
    } else {
        "9"@
    }
}

/// The decimal numeral of `n`, without leading zeros.
pub open spec fn decimal(n: nat) -> Seq<char>
    decreases n,
{
    if n < 10 {
        digit(n)
    } else {
        decimal(n / 10) + digit(n % 10)
    }
}

/// The line that says that nothing of what the mode targets uses the port.
pub open spec fn nothing_found(mode: Mode, port: u16) -> Seq<char> {
    "No "@ + (match mode {
        Mode::Auto => "service"@,
        Mode::Process => "process"@,
        Mode::Container => "container"@,
    }) + " found using port "@ + decimal(port as nat)
}

/// The line that says what was done, or in a dry run would be done, to one
/// candidate.
pub open spec fn acted_on(dry_run: bool, kind: KillableType, name: Seq<char>, port: u16) -> Seq<
    char,
> {
    (if dry_run {
        "Would kill "@
    } else {
        "Successfully killed "@
    }) + (match kind {
        KillableType::Process => "process"@,
        KillableType::Container => "container"@,
    }) + " '"@ + name + "' listening on port "@ + decimal(port as nat)
}

fn digit_numeral(d: u16) -> (numeral: &'static str)
    requires
        d < 10,
    ensures
        numeral@ == digit(d as nat),
{
    if d == 0 {
        "0"
    } else if d == 1 {
        "1"
    } else if d == 2 {
        "2"
    } else if d == 3 {
        "3"
    } else if d == 4 {
        "4"
    } else if d == 5 {
        "5"
    } else if d == 6 {
        "6"
    } else if d == 7 {
        "7"
    } else if d == 8 {
        "8"
    } else {
        "9"
    }
}

/// Writes a port number as a decimal numeral.
pub fn port_numeral(port: u16) -> (numeral: String)
    ensures
        numeral@ == decimal(port as nat),
    decreases port,
{
    if port < 10 {
        digit_numeral(port).to_owned()
    } else {
        let mut numeral = port_numeral(port / 10);
        numeral.append(digit_numeral(port % 10));
        numeral
    }
}

/// Writes the line that says that nothing of what the mode targets uses
/// the port.
pub fn describe_nothing_found(mode: Mode, port: u16) -> (line: String)
    ensures
        line@ == nothing_found(mode, port),
{
    let (singular, _plural) = service_descriptors(mode);
    let numeral = port_numeral(port);
    let mut line = "No ".to_owned();
    line.append(singular);
    line.append(" found using port ");
    line.append(numeral.as_str());
    line
}

/// Writes the line that says what was done, or in a dry run would be done,
/// to one candidate.
pub fn describe_acted_on(dry_run: bool, kind: KillableType, name: &str, port: u16) -> (line: String)
    ensures
        line@ == acted_on(dry_run, kind, name@, port),
{
    let action = if dry_run {
        "Would kill "
    } else {
        "Successfully killed "
    };
    let class = kind.to_string();
    let numeral = port_numeral(port);
    let mut line = action.to_owned();
    line.append(class.as_str());
    line.append(" '");
    line.append(name);
    line.append("' listening on port ");
    line.append(numeral.as_str());
    line
}

} // verus!
