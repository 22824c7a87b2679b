//! Resolution where the system lists each process's sockets: a process owns
//! the port if one of its internet sockets is bound to it.

use crate::port::NetworkPort;
use crate::unix::{
    display_name, first_owning, lemma_no_owner_no_candidate, lemma_owner_resolved_once, owners,
    process_views, record_owner, ProcessView, Sighting, UnixProcess,
};
use vstd::prelude::*;

verus! {

/// The protocol family a socket belongs to, as far as resolution tells them
/// apart.
#[derive(Debug, Clone, Copy, PartialEq, Eq, Structural)]
pub enum SocketKind {
    /// An internet datagram socket.
    In,
    /// A TCP socket.
    Tcp,
    /// Any other kind: local, kernel event, kernel control and the like.
    Other,
}

/// What the system reports of one socket.
#[derive(Debug, Clone, Copy, PartialEq, Eq, Structural)]
pub struct SocketInfo {
    pub kind: SocketKind,
    /// The local port as stored, in network byte order.
    pub local_port: NetworkPort,
}

/// One open file descriptor of a process.
#[derive(Debug, Clone, Copy, PartialEq, Eq, Structural)]
pub enum Descriptor {
    /// A socket; `None` where the system refused to describe it.
    Socket(Option<SocketInfo>),
    /// A file, a pipe, or anything else that is no socket.
    Other,
}

/// One running process with its descriptors.
#[derive(Debug)]
pub struct ProcessSockets {
    pub pid: i32,
    /// The name the system gave for the process, if the lookup succeeded.
    pub name: Option<String>,
    /// The open descriptors; `None` where the list could not be read.
    pub descriptors: Option<Vec<Descriptor>>,
}

/// Whether `descriptor` is an internet socket bound to `port`.
pub open spec fn bound_to(descriptor: Descriptor, port: u16) -> bool {
    descriptor matches Descriptor::Socket(Some(info)) && (info.kind is In || info.kind is Tcp)
        && info.local_port.spec_host_order() == port
}

/// Whether one of the descriptors is an internet socket bound to `port`.
pub open spec fn any_bound_to(descriptors: Seq<Descriptor>, port: u16) -> bool {
    exists|i: int| 0 <= i < descriptors.len() && bound_to(#[trigger] descriptors[i], port)
}

/// Whether `process` owns `port`. A process whose descriptors could not be
/// read owns nothing.
pub open spec fn owns_port(process: ProcessSockets, port: u16) -> bool {
    process.descriptors matches Some(ds) && any_bound_to(ds@, port)
}

/// How the resolver sees `process` when it looks for `port`.
pub open spec fn sighting(process: ProcessSockets, port: u16) -> Sighting {
    Sighting {
        pid: process.pid as int,
        name: display_name(process.name),
        owns_port: owns_port(process, port),
    }
}

/// The sightings of all processes, in the order of the snapshot.
pub open spec fn sightings(processes: Seq<ProcessSockets>, port: u16) -> Seq<Sighting> {
    processes.map_values(|p: ProcessSockets| sighting(p, port))
}

/// Where no process has an internet socket bound to the port, no process
/// is a candidate.
pub proof fn lemma_free_port_has_no_candidate(processes: Seq<ProcessSockets>, port: u16)
    requires
        forall|k: int| 0 <= k < processes.len() ==> !owns_port(#[trigger] processes[k], port),
    ensures
        owners(sightings(processes, port)) == Seq::<ProcessView>::empty(),
{
    let seen = sightings(processes, port);
    assert forall|k: int| 0 <= k < seen.len() implies !(#[trigger] seen[k]).owns_port by {
        assert(seen[k] == sighting(processes[k], port));
    }
    lemma_no_owner_no_candidate(seen);
}

/// A process with an internet socket bound to the port is a candidate
/// exactly once, under its own identifier and name, however many of its
/// sockets are bound to the port. Where the snapshot lists an identifier
/// more than once, this holds of the first owner listed.
pub proof fn lemma_owner_resolved_once_by_query(processes: Seq<ProcessSockets>, port: u16, k: int)
    requires
        0 <= k < processes.len(),
        owns_port(processes[k], port),
        forall|j: int|
            0 <= j < k ==> !(owns_port(#[trigger] processes[j], port) && processes[j].pid
                == processes[k].pid),
    ensures
        owners(sightings(processes, port)).contains(
            ProcessView { pid: processes[k].pid as int, name: display_name(processes[k].name) },
        ),
        forall|i: int, j: int|
            #![trigger owners(sightings(processes, port))[i], owners(sightings(processes, port))[j]]
            0 <= i < owners(sightings(processes, port)).len() && 0 <= j < owners(
                sightings(processes, port),
            ).len() && owners(sightings(processes, port))[i].pid == processes[k].pid && owners(
                sightings(processes, port),
            )[j].pid == processes[k].pid ==> i == j,
{
    let seen = sightings(processes, port);
    assert(first_owning(seen, k)) by {
        assert forall|j: int| 0 <= j < k implies !((#[trigger] seen[j]).owns_port && seen[j].pid
            == seen[k].pid) by {
            assert(seen[j] == sighting(processes[j], port));
        }
    }
    lemma_owner_resolved_once(seen, k);
}

/// Decides whether `descriptor` is an internet socket bound to `port`.
pub fn is_bound_to(descriptor: &Descriptor, port: u16) -> (bound: bool)
    ensures
        bound == bound_to(*descriptor, port),
{
    match descriptor {
        Descriptor::Socket(Some(info)) => {
            match info.kind {
                SocketKind::In | SocketKind::Tcp => info.local_port.host_order() == port,
                SocketKind::Other => false,
            }
        },
        _ => false,
    }
}

/// Decides whether `process` owns `port`.
pub fn process_owns_port(process: &ProcessSockets, port: u16) -> (owns: bool)
    ensures
        owns == owns_port(*process, port),
{
    match &process.descriptors {
        None => false,
        Some(descriptors) => {
            let mut i: usize = 0;
            while i < descriptors.len()
                invariant
                    i <= descriptors.len(),
                    process.descriptors == Some(*descriptors),
                    forall|j: int| 0 <= j < i ==> !bound_to(#[trigger] descriptors@[j], port),
                decreases descriptors.len() - i,
            {
                if is_bound_to(&descriptors[i], port) {
                    assert(bound_to(descriptors@[i as int], port));
                    return true;
                }
                i += 1;
            }
            false
        },
    }
}

/// Finds the processes that own `port` in a snapshot of the running
/// processes.
///
/// Every process with an internet socket bound to the port is returned once,
/// in the order of the snapshot. A process whose descriptors could not be
/// read is skipped, and a process without a name is shown as `Unknown`.
pub fn find_target_processes(processes: &Vec<ProcessSockets>, port: u16) -> (targets: Vec<
    UnixProcess,
>)
    ensures
        process_views(targets@) == owners(sightings(processes@, port)),
{
    let mut targets: Vec<UnixProcess> = Vec::new();
    let mut i: usize = 0;
    assert(sightings(processes@.take(0), port) =~= Seq::empty());
    while i < processes.len()
        invariant
            i <= processes.len(),
            process_views(targets@) == owners(sightings(processes@.take(i as int), port)),
        decreases processes.len() - i,
    {
        let process = &processes[i];
        proof {
            let now = sightings(processes@.take(i as int + 1), port);
            assert(now.drop_last() =~= sightings(processes@.take(i as int), port));
            assert(now.last() == sighting(*process, port));
        }
        if process_owns_port(process, port) {
            record_owner(&mut targets, process.pid, &process.name);
        }
        i += 1;
    }
    assert(processes@.take(i as int) =~= processes@);
    targets
}

} // verus!
