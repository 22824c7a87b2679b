//! The process candidate shared by the unix-like resolvers, and the rule by
//! which they keep one candidate per process identifier.

use crate::error::{describe_refusal, refusal};
use crate::killport::{Event, KillableType};
use vstd::prelude::*;

verus! {

/// What a process candidate stands for: an identifier and a display name.
pub struct ProcessView {
    pub pid: int,
    pub name: Seq<char>,
}

/// A process on a unix-like system that owns the target port.
#[derive(Debug)]
pub struct UnixProcess {
    /// System native process ID.
    pid: i32,
    name: String,
}

impl View for UnixProcess {
    type V = ProcessView;

    closed spec fn view(&self) -> ProcessView {
        ProcessView { pid: self.pid as int, name: self.name@ }
    }
}

/// The views of a sequence of candidates, in the same order.
pub open spec fn process_views(processes: Seq<UnixProcess>) -> Seq<ProcessView> {
    processes.map_values(|p: UnixProcess| p@)
}

/// Whether a candidate with identifier `pid` is among `candidates`.
pub open spec fn has_pid(candidates: Seq<ProcessView>, pid: int) -> bool {
    exists|i: int| 0 <= i < candidates.len() && (#[trigger] candidates[i]).pid == pid
}

/// The name shown for a process: the one that was looked up, or `Unknown`
/// where the lookup failed.
pub open spec fn display_name(name: Option<String>) -> Seq<char> {
    match name {
        Some(n) => n@,
        None => "Unknown"@,
    }
}

/// What the system answered when the process was sent the signal.
#[derive(Debug)]
pub enum SignalOutcome {
    /// The signal was delivered.
    Delivered,
    /// There is no such process: it had exited by itself.
    NoSuchProcess,
    /// The system refused, for the reason given.
    Refused(String),
}

impl UnixProcess {
    /// The candidate for the process `pid`, shown as `name`.
    pub fn new(pid: i32, name: String) -> (process: Self)
        ensures
            process@ == (ProcessView { pid: pid as int, name: name@ }),
    {
        Self { pid, name }
    }

    /// The process identifier.
    pub fn pid(&self) -> (pid: i32)
        ensures
            pid as int == self@.pid,
    {
        self.pid
    }

    /// A process candidate is always of the process class.
    pub fn get_type(&self) -> (kind: KillableType)
        ensures
            kind == KillableType::Process,
    {
        KillableType::Process
    }

    /// The display name.
    pub fn get_name(&self) -> (name: String)
        ensures
            name@ == self@.name,
    {
        self.name.clone()
    }

    /// Judges what sending the signal came to. A process that was gone
    /// before the signal reached it counts as terminated: the port is free
    /// of it. A refusal is a failure, told with the name of the process.
    pub fn kill(&self, outcome: SignalOutcome) -> (event: Event)
        ensures
            match outcome {
                SignalOutcome::Delivered => event == Event::Terminated(true),
                SignalOutcome::NoSuchProcess => event == Event::Terminated(true),
                SignalOutcome::Refused(reason) => event matches Event::TerminationFailed(text)
                    && text@ == refusal(self@.name, reason@),
            },
    {
        match outcome {
            SignalOutcome::Delivered => Event::Terminated(true),
            SignalOutcome::NoSuchProcess => Event::Terminated(true),
            SignalOutcome::Refused(reason) => Event::TerminationFailed(
                describe_refusal(self.name.as_str(), reason.as_str()),
            ),
        }
    }
}

/// One process as a resolver saw it: who it is, and whether it holds a socket
/// on the target port.
pub struct Sighting {
    pub pid: int,
    pub name: Seq<char>,
    pub owns_port: bool,
}

/// The candidates a scan yields: the processes that own the port, in the
/// order of the scan, each identifier once, under the name it was first seen
/// with.
pub open spec fn owners(sightings: Seq<Sighting>) -> Seq<ProcessView>
    decreases sightings.len(),
{
    if sightings.len() == 0 {
        Seq::empty()
    } else {
        let earlier = owners(sightings.drop_last());
        let seen = sightings.last();
        if seen.owns_port && !has_pid(earlier, seen.pid) {
            earlier.push(ProcessView { pid: seen.pid, name: seen.name })
        } else {
            earlier
        }
    }
}

/// Whether the sighting at `k` is the first in `sightings` to show its
/// process owning the port.
pub open spec fn first_owning(sightings: Seq<Sighting>, k: int) -> bool {
    &&& 0 <= k < sightings.len()
    &&& sightings[k].owns_port
    &&& forall|j: int|
        0 <= j < k ==> !((#[trigger] sightings[j]).owns_port && sightings[j].pid
            == sightings[k].pid)
}

/// Every candidate stands for a process that was seen owning the port, under
/// the name of the first such sighting.
pub proof fn lemma_owners_sound(sightings: Seq<Sighting>, i: int)
    requires
        0 <= i < owners(sightings).len(),
    ensures
        exists|k: int|
            #[trigger] first_owning(sightings, k) && sightings[k].pid == owners(sightings)[i].pid
                && sightings[k].name == owners(sightings)[i].name,
    decreases sightings.len(),
{
    if sightings.len() > 0 {
        let earlier = sightings.drop_last();
        let seen = sightings.last();
        let last = sightings.len() - 1;
        if i < owners(earlier).len() {
            lemma_owners_sound(earlier, i);
            let k = choose|k: int|
                #[trigger] first_owning(earlier, k) && earlier[k].pid == owners(earlier)[i].pid
                    && earlier[k].name == owners(earlier)[i].name;
            assert forall|j: int| 0 <= j < k implies !((#[trigger] sightings[j]).owns_port
                && sightings[j].pid == sightings[k].pid) by {
                assert(earlier[j] == sightings[j]);
            }
            assert(first_owning(sightings, k));
        } else {
            assert forall|j: int| 0 <= j < last implies !((#[trigger] sightings[j]).owns_port
                && sightings[j].pid == seen.pid) by {
                if sightings[j].owns_port && sightings[j].pid == seen.pid {
                    assert(earlier[j] == sightings[j]);
                    lemma_owners_complete(earlier, j);
                }
            }
            assert(first_owning(sightings, last));
        }
    }
}

/// Every process that was seen owning the port is among the candidates.
pub proof fn lemma_owners_complete(sightings: Seq<Sighting>, k: int)
    requires
        0 <= k < sightings.len(),
        sightings[k].owns_port,
    ensures
        has_pid(owners(sightings), sightings[k].pid),
    decreases sightings.len(),
{
    let earlier = sightings.drop_last();
    let before = owners(earlier);
    if k < sightings.len() - 1 {
        lemma_owners_complete(earlier, k);
        let i = choose|i: int| 0 <= i < before.len() && (#[trigger] before[i]).pid == earlier[k].pid;
        assert(owners(sightings)[i].pid == sightings[k].pid);
    } else if has_pid(before, sightings[k].pid) {
        let i = choose|i: int|
            0 <= i < before.len() && (#[trigger] before[i]).pid == sightings[k].pid;
        assert(owners(sightings)[i].pid == sightings[k].pid);
    } else {
        assert(owners(sightings)[before.len() as int].pid == sightings[k].pid);
    }
}

/// No two candidates share a process identifier.
pub proof fn lemma_owners_distinct(sightings: Seq<Sighting>, i: int, j: int)
    requires
        0 <= i < j < owners(sightings).len(),
    ensures
        owners(sightings)[i].pid != owners(sightings)[j].pid,
    decreases sightings.len(),
{
    if sightings.len() > 0 {
        let earlier = sightings.drop_last();
        if j < owners(earlier).len() {
            lemma_owners_distinct(earlier, i, j);
        } else {
            assert(owners(earlier)[i].pid != sightings.last().pid);
        }
    }
}

/// Where no process was seen owning the port, there is no candidate.
pub proof fn lemma_no_owner_no_candidate(sightings: Seq<Sighting>)
    requires
        forall|k: int| 0 <= k < sightings.len() ==> !(#[trigger] sightings[k]).owns_port,
    ensures
        owners(sightings) == Seq::<ProcessView>::empty(),
    decreases sightings.len(),
{
    if sightings.len() > 0 {
        let earlier = sightings.drop_last();
        assert forall|k: int| 0 <= k < earlier.len() implies !(#[trigger] earlier[k]).owns_port by {
            assert(earlier[k] == sightings[k]);
        }
        lemma_no_owner_no_candidate(earlier);
    }
}

/// A process that was seen owning the port is a candidate exactly once,
/// and the candidate carries the identity of its first such sighting.
pub proof fn lemma_owner_resolved_once(sightings: Seq<Sighting>, k: int)
    requires
        first_owning(sightings, k),
    ensures
        exists|i: int|
            0 <= i < owners(sightings).len() && #[trigger] owners(sightings)[i] == (ProcessView {
                pid: sightings[k].pid,
                name: sightings[k].name,
            }),
        forall|i: int, j: int|
            0 <= i < owners(sightings).len() && 0 <= j < owners(sightings).len()
                && (#[trigger] owners(sightings)[i]).pid == sightings[k].pid
                && (#[trigger] owners(sightings)[j]).pid == sightings[k].pid ==> i == j,
{
    let found = owners(sightings);
    lemma_owners_complete(sightings, k);
    let i = choose|i: int| 0 <= i < found.len() && (#[trigger] found[i]).pid == sightings[k].pid;
    lemma_owners_sound(sightings, i);
    let first = choose|f: int|
        #[trigger] first_owning(sightings, f) && sightings[f].pid == found[i].pid
            && sightings[f].name == found[i].name;
    assert(first == k) by {
        if first < k {
            assert(sightings[first].owns_port && sightings[first].pid == sightings[k].pid);
        } else if k < first {
            assert(sightings[k].owns_port && sightings[k].pid == sightings[first].pid);
        }
    }
    assert(found[i] == (ProcessView { pid: sightings[k].pid, name: sightings[k].name }));
    assert forall|a: int, b: int|
        0 <= a < found.len() && 0 <= b < found.len() && (#[trigger] found[a]).pid
            == sightings[k].pid && (#[trigger] found[b]).pid == sightings[k].pid implies a
        == b by {
        if a < b {
            lemma_owners_distinct(sightings, a, b);
        } else if b < a {
            lemma_owners_distinct(sightings, b, a);
        }
    }
}

/// Whether `targets` already holds a candidate with identifier `pid`.
pub fn holds_pid(targets: &Vec<UnixProcess>, pid: i32) -> (found: bool)
    ensures
        found == has_pid(process_views(targets@), pid as int),
{
    let mut i: usize = 0;
    while i < targets.len()
        invariant
            i <= targets.len(),
            forall|j: int| 0 <= j < i ==> (#[trigger] process_views(targets@)[j]).pid != pid as int,
        decreases targets.len() - i,
    {
        if targets[i].pid() == pid {
            assert(process_views(targets@)[i as int].pid == pid as int);
            return true;
        }
        i += 1;
    }
    false
}

/// Adds the process `pid` to `targets` unless a candidate with that
/// identifier is there already; a missing name degrades to `Unknown`.
pub fn record_owner(targets: &mut Vec<UnixProcess>, pid: i32, name: &Option<String>)
    ensures
        process_views(final(targets)@) == if has_pid(process_views(old(targets)@), pid as int) {
            process_views(old(targets)@)
        } else {
            process_views(old(targets)@).push(
                ProcessView { pid: pid as int, name: display_name(*name) },
            )
        },
{
    if !holds_pid(targets, pid) {
        let shown = match name {
            Some(n) => n.clone(),
            None => "Unknown".to_owned(),
        };
        let ghost before = targets@;
        targets.push(UnixProcess::new(pid, shown));
        assert(process_views(targets@) =~= process_views(before).push(
            ProcessView { pid: pid as int, name: display_name(*name) },
        ));
    }
}

} // verus!
