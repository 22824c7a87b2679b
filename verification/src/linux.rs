//! Resolution by socket inode: the kernel's socket tables give the inodes
//! bound to the port, and a process owns the port if one of its open
//! descriptors is a socket with such an inode.

use crate::unix::{
    display_name, first_owning, lemma_no_owner_no_candidate, lemma_owner_resolved_once, owners,
    process_views, record_owner, ProcessView, Sighting, UnixProcess,
};
use vstd::prelude::*;

verus! {

/// One row of a socket table: the port of the local address and the inode
/// of the socket.
#[derive(Debug, Clone, Copy, PartialEq, Eq, Structural)]
pub struct NetEntry {
    pub local_port: u16,
    pub inode: u64,
}

/// The four socket tables of the kernel. A table that could not be read is
/// `None` and contributes nothing.
#[derive(Debug)]
pub struct SocketTables {
    pub tcp: Option<Vec<NetEntry>>,
    pub tcp6: Option<Vec<NetEntry>>,
    pub udp: Option<Vec<NetEntry>>,
    pub udp6: Option<Vec<NetEntry>>,
}

/// What an open file descriptor points at.
#[derive(Debug, Clone, Copy, PartialEq, Eq, Structural)]
pub enum FdTarget {
    /// A socket, with its inode.
    Socket(u64),
    /// A file, a pipe, or anything else that is no socket.
    Other,
}

/// One running process with its descriptor table.
#[derive(Debug)]
pub struct ProcessEntry {
    pub pid: i32,
    /// The identifier of the parent, as the process table reports it.
    pub ppid: i32,
    /// The name of the process, if it could be read.
    pub name: Option<String>,
    /// The open descriptors; `None` where the table could not be read, as
    /// when the process has exited or belongs to another user.
    pub descriptors: Option<Vec<FdTarget>>,
}

/// The inodes of the rows whose local port is `port`, in the order of the
/// rows.
pub open spec fn inodes_on_port(entries: Seq<NetEntry>, port: u16) -> Seq<u64> {
    entries.filter(|e: NetEntry| e.local_port == port).map_values(|e: NetEntry| e.inode)
}

/// The inodes one table contributes.
pub open spec fn table_inodes(table: Option<Vec<NetEntry>>, port: u16) -> Seq<u64> {
    match table {
        Some(entries) => inodes_on_port(entries@, port),
        None => Seq::empty(),
    }
}

/// The inodes of all sockets bound to `port`: stream sockets first, then
/// datagram sockets, IPv4 before IPv6.
pub open spec fn target_inodes(tables: SocketTables, port: u16) -> Seq<u64> {
    table_inodes(tables.tcp, port) + table_inodes(tables.tcp6, port) + table_inodes(
        tables.udp,
        port,
    ) + table_inodes(tables.udp6, port)
}

/// Whether `target` is a socket whose inode is one of `inodes`.
pub open spec fn targets_inode(target: FdTarget, inodes: Seq<u64>) -> bool {
    target matches FdTarget::Socket(inode) && inodes.contains(inode)
}

/// Whether one of the descriptors is a socket whose inode is one of `inodes`.
pub open spec fn any_targets_inode(descriptors: Seq<FdTarget>, inodes: Seq<u64>) -> bool {
    exists|i: int| 0 <= i < descriptors.len() && targets_inode(#[trigger] descriptors[i], inodes)
}

/// Whether `process` holds one of the sockets `inodes`. A process whose
/// descriptor table could not be read holds none.
pub open spec fn holds_socket(process: ProcessEntry, inodes: Seq<u64>) -> bool {
    process.descriptors matches Some(ds) && any_targets_inode(ds@, inodes)
}

/// How the resolver sees `process` when it looks for the sockets `inodes`.
pub open spec fn sighting(process: ProcessEntry, inodes: Seq<u64>) -> Sighting {
    Sighting {
        pid: process.pid as int,
        name: display_name(process.name),
        owns_port: holds_socket(process, inodes),
    }
}

/// The sightings of all processes, in the order of the snapshot.
pub open spec fn sightings(processes: Seq<ProcessEntry>, inodes: Seq<u64>) -> Seq<Sighting> {
    processes.map_values(|p: ProcessEntry| sighting(p, inodes))
}

/// Where no socket is bound to the port, no process is a candidate.
pub proof fn lemma_free_port_has_no_candidate(
    tables: SocketTables,
    processes: Seq<ProcessEntry>,
    port: u16,
)
    requires
        target_inodes(tables, port).len() == 0,
    ensures
        owners(sightings(processes, target_inodes(tables, port))) == Seq::<ProcessView>::empty(),
{
    lemma_no_owner_no_candidate(sightings(processes, target_inodes(tables, port)));
}

/// A process that holds a socket bound to the port is a candidate exactly
/// once, under its own identifier and name, however many of its
/// descriptors refer to such a socket. Where the snapshot lists an
/// identifier more than once, this holds of the first holder listed.
pub proof fn lemma_holder_resolved_once(processes: Seq<ProcessEntry>, inodes: Seq<u64>, k: int)
    requires
        0 <= k < processes.len(),
        holds_socket(processes[k], inodes),
        forall|j: int|
            0 <= j < k ==> !(holds_socket(#[trigger] processes[j], inodes) && processes[j].pid
                == processes[k].pid),
    ensures
        owners(sightings(processes, inodes)).contains(
            ProcessView { pid: processes[k].pid as int, name: display_name(processes[k].name) },
        ),
        forall|i: int, j: int|
            #![trigger owners(sightings(processes, inodes))[i], owners(sightings(processes, inodes))[j]]
            0 <= i < owners(sightings(processes, inodes)).len() && 0 <= j < owners(
                sightings(processes, inodes),
            ).len() && owners(sightings(processes, inodes))[i].pid == processes[k].pid
                && owners(sightings(processes, inodes))[j].pid == processes[k].pid ==> i == j,
{
    let seen = sightings(processes, inodes);
    assert(first_owning(seen, k)) by {
        assert forall|j: int| 0 <= j < k implies !((#[trigger] seen[j]).owns_port && seen[j].pid
            == seen[k].pid) by {
            assert(seen[j] == sighting(processes[j], inodes));
        }
    }
    lemma_owner_resolved_once(seen, k);
}

/// Appends to `target_inodes` the inodes of the rows of one table whose
/// local port is `port`. A table that could not be read adds nothing.
pub fn add_matching_inodes(
    target_inodes: &mut Vec<u64>,
    net_entries: &Option<Vec<NetEntry>>,
    port: u16,
)
    ensures
        final(target_inodes)@ == old(target_inodes)@ + table_inodes(*net_entries, port),
{
    match net_entries {
        None => {
            assert(target_inodes@ =~= target_inodes@ + Seq::<u64>::empty());
        },
        Some(entries) => {
            let ghost before = target_inodes@;
            let ghost on_port = |e: NetEntry| e.local_port == port;
            let ghost inode = |e: NetEntry| e.inode;
            let mut i: usize = 0;
            proof {
                reveal(Seq::filter);
                assert(entries@.take(0) =~= Seq::empty());
                assert(target_inodes@ =~= before + inodes_on_port(entries@.take(0), port));
            }
            while i < entries.len()
                invariant
                    i <= entries.len(),
                    on_port == |e: NetEntry| e.local_port == port,
                    inode == |e: NetEntry| e.inode,
                    target_inodes@ == before + entries@.take(i as int).filter(on_port).map_values(
                        inode,
                    ),
                decreases entries.len() - i,
            {
                proof {
                    reveal(Seq::filter);
                    let now = entries@.take(i as int + 1);
                    assert(now.drop_last() =~= entries@.take(i as int));
                    assert(now.last() == entries@[i as int]);
                    let kept = entries@.take(i as int).filter(on_port);
                    if on_port(entries@[i as int]) {
                        assert(now.filter(on_port) == kept.push(entries@[i as int]));
                        assert(kept.push(entries@[i as int]).map_values(inode) =~= kept.map_values(
                            inode,
                        ).push(entries@[i as int].inode));
                    } else {
                        assert(now.filter(on_port) == kept);
                    }
                }
                if entries[i].local_port == port {
                    target_inodes.push(entries[i].inode);
                }
                i += 1;
            }
            assert(entries@.take(i as int) =~= entries@);
        },
    }
}

/// Finds the inodes of the sockets bound to `port` in the four socket
/// tables, stream and datagram, IPv4 and IPv6.
pub fn find_target_inodes(tables: &SocketTables, port: u16) -> (inodes: Vec<u64>)
    ensures
        inodes@ == target_inodes(*tables, port),
{
    let mut found: Vec<u64> = Vec::new();
    add_matching_inodes(&mut found, &tables.tcp, port);
    add_matching_inodes(&mut found, &tables.tcp6, port);
    add_matching_inodes(&mut found, &tables.udp, port);
    add_matching_inodes(&mut found, &tables.udp6, port);
    assert(found@ =~= target_inodes(*tables, port));
    found
}

/// Decides whether `inode` is one of `inodes`.
pub fn is_target_inode(inodes: &Vec<u64>, inode: u64) -> (found: bool)
    ensures
        found == inodes@.contains(inode),
{
    let mut i: usize = 0;
    while i < inodes.len()
        invariant
            i <= inodes.len(),
            forall|j: int| 0 <= j < i ==> inodes@[j] != inode,
        decreases inodes.len() - i,
    {
        if inodes[i] == inode {
            return true;
        }
        i += 1;
    }
    false
}

/// Decides whether `process` holds one of the sockets `inodes`.
pub fn process_holds_socket(process: &ProcessEntry, inodes: &Vec<u64>) -> (holds: bool)
    ensures
        holds == holds_socket(*process, inodes@),
{
    match &process.descriptors {
        None => false,
        Some(descriptors) => {
            let mut i: usize = 0;
            while i < descriptors.len()
                invariant
                    i <= descriptors.len(),
                    process.descriptors == Some(*descriptors),
                    forall|j: int|
                        0 <= j < i ==> !targets_inode(#[trigger] descriptors@[j], inodes@),
                decreases descriptors.len() - i,
            {
                let found = match descriptors[i] {
                    FdTarget::Socket(inode) => is_target_inode(inodes, inode),
                    FdTarget::Other => false,
                };
                if found {
                    assert(targets_inode(descriptors@[i as int], inodes@));
                    return true;
                }
                i += 1;
            }
            false
        },
    }
}

/// Finds the processes that own `port`, given the socket tables and a
/// snapshot of the running processes.
///
/// Every process holding a socket bound to the port is returned once, in the
/// order of the snapshot, however many of its descriptors refer to such a
/// socket. A process whose descriptor table could not be read is skipped,
/// and a process without a name is shown as `Unknown`.
pub fn find_target_processes(
    tables: &SocketTables,
    processes: &Vec<ProcessEntry>,
    port: u16,
) -> (targets: Vec<UnixProcess>)
    ensures
        process_views(targets@) == owners(sightings(processes@, target_inodes(*tables, port))),
{
    let inodes = find_target_inodes(tables, port);
    let mut targets: Vec<UnixProcess> = Vec::new();
    let mut i: usize = 0;
    assert(sightings(processes@.take(0), inodes@) =~= Seq::empty());
    while i < processes.len()
        invariant
            i <= processes.len(),
            process_views(targets@) == owners(sightings(processes@.take(i as int), inodes@)),
        decreases processes.len() - i,
    {
        let process = &processes[i];
        proof {
            let now = sightings(processes@.take(i as int + 1), inodes@);
            assert(now.drop_last() =~= sightings(processes@.take(i as int), inodes@));
            assert(now.last() == sighting(*process, inodes@));
        }
        if process_holds_socket(process, &inodes) {
            record_owner(&mut targets, process.pid, &process.name);
        }
        i += 1;
    }
    assert(processes@.take(i as int) =~= processes@);
    targets
}

} // verus!
