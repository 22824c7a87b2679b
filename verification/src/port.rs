//! Network ports as the operating system stores them, and the plan that
//! frees a port by terminating whole process families.

use crate::error::KillportError;
use crate::linux::{find_target_inodes, holds_socket, target_inodes, ProcessEntry, SocketTables};
use crate::process::{
    descendants, first_occurrences, has_holder, inode_plan, is_descendant, keep_first_occurrences,
    kill_processes_by_inode, lemma_descendants_exact, lemma_first_occurrences_same,
    termination_order,
};
use vstd::prelude::*;

verus! {

/// A port number in network byte order: the two bytes in the order in which
/// they lie in memory, most significant first.
#[derive(Debug, Clone, Copy, PartialEq, Eq, Structural)]
pub struct NetworkPort {
    pub high: u8,
    pub low: u8,
}

impl NetworkPort {
    /// The port number the two bytes stand for.
    pub open spec fn spec_host_order(self) -> u16 {
        (self.high as int * 256 + self.low as int) as u16
    }

    /// The bytes of `port`, most significant first.
    pub fn from_host_order(port: u16) -> (stored: NetworkPort)
        ensures
            stored.spec_host_order() == port,
            stored.high as int == port as int / 256,
            stored.low as int == port as int % 256,
    {
        NetworkPort { high: (port / 256) as u8, low: (port % 256) as u8 }
    }

    /// Converts the stored bytes to a number the host can compare.
    #[verifier::when_used_as_spec(spec_host_order)]
    pub fn host_order(self) -> (port: u16)
        ensures
            port == self.spec_host_order(),
            port as int == self.high as int * 256 + self.low as int,
    {
        let high: u16 = self.high as u16;
        let low: u16 = self.low as u16;
        high * 256 + low
    }
}

/// The processes to terminate for the sockets `inodes`, socket by socket;
/// a process may occur more than once.
pub open spec fn port_plan(inodes: Seq<u64>, table: Seq<ProcessEntry>) -> Seq<i32>
    decreases inodes.len(),
{
    if inodes.len() == 0 {
        Seq::empty()
    } else {
        port_plan(inodes.drop_last(), table) + inode_plan(table, table, inodes.last())
    }
}

/// Whether every socket of `inodes` is held by a process of the table.
pub open spec fn all_held(inodes: Seq<u64>, table: Seq<ProcessEntry>) -> bool {
    forall|i: int| 0 <= i < inodes.len() ==> has_holder(table, #[trigger] inodes[i])
}

proof fn lemma_inode_plan_holds(
    scanned: Seq<ProcessEntry>,
    table: Seq<ProcessEntry>,
    inode: u64,
    k: int,
    pid: i32,
)
    requires
        0 <= k < scanned.len(),
        holds_socket(scanned[k], seq![inode]),
        termination_order(table, scanned[k].pid).contains(pid),
    ensures
        inode_plan(scanned, table, inode).contains(pid),
    decreases scanned.len(),
{
    let earlier = inode_plan(scanned.drop_last(), table, inode);
    let all = inode_plan(scanned, table, inode);
    if k < scanned.len() - 1 {
        assert(scanned.drop_last()[k] == scanned[k]);
        lemma_inode_plan_holds(scanned.drop_last(), table, inode, k, pid);
        let at = choose|at: int| 0 <= at < earlier.len() && earlier[at] == pid;
        assert(all[at] == pid);
    } else {
        let family = termination_order(table, scanned[k].pid);
        let at = choose|at: int| 0 <= at < family.len() && family[at] == pid;
        assert(all[earlier.len() + at] == pid);
    }
}

proof fn lemma_port_plan_holds(inodes: Seq<u64>, table: Seq<ProcessEntry>, i: int, pid: i32)
    requires
        0 <= i < inodes.len(),
        inode_plan(table, table, inodes[i]).contains(pid),
    ensures
        port_plan(inodes, table).contains(pid),
    decreases inodes.len(),
{
    let earlier = port_plan(inodes.drop_last(), table);
    let all = port_plan(inodes, table);
    if i < inodes.len() - 1 {
        assert(inodes.drop_last()[i] == inodes[i]);
        lemma_port_plan_holds(inodes.drop_last(), table, i, pid);
        let at = choose|at: int| 0 <= at < earlier.len() && earlier[at] == pid;
        assert(all[at] == pid);
    } else {
        let part = inode_plan(table, table, inodes[i]);
        let at = choose|at: int| 0 <= at < part.len() && part[at] == pid;
        assert(all[earlier.len() + at] == pid);
    }
}

/// One plan clears a whole family: a process that holds a socket bound to
/// the port is in the plan, and so is every process that descends from it,
/// such as a child that inherited the socket.
pub proof fn lemma_plan_clears_family(
    inodes: Seq<u64>,
    table: Seq<ProcessEntry>,
    i: int,
    k: int,
    pid: i32,
)
    requires
        0 <= i < inodes.len(),
        0 <= k < table.len(),
        holds_socket(table[k], seq![inodes[i]]),
        pid == table[k].pid || is_descendant(table, table[k].pid, pid),
    ensures
        first_occurrences(port_plan(inodes, table)).contains(pid),
{
    let root = table[k].pid;
    let family = termination_order(table, root);
    if pid == root {
        assert(family[family.len() - 1] == pid);
    } else {
        lemma_descendants_exact(table, root, pid);
        let found = descendants(table, root);
        assert(found.contains(pid));
        let at = choose|at: int| 0 <= at < found.len() && found[at] == pid;
        assert(family[at] == pid);
    }
    lemma_inode_plan_holds(table, table, inodes[i], k, pid);
    lemma_port_plan_holds(inodes, table, i, pid);
    lemma_first_occurrences_same(port_plan(inodes, table), pid);
}

/// Plans the termination of every process that holds `port`, each with its
/// descendants: the identifiers to signal, in this order, each once.
///
/// An empty plan says that nothing is bound to the port. The plan fails
/// with `UnsupportedPlatform` off the unix family, before anything is looked
/// at, and with `OwnerNotFound` where a socket bound to the port is held by
/// no process that could be read.
pub fn kill_port(
    unix_family: bool,
    tables: &SocketTables,
    processes: &Vec<ProcessEntry>,
    port: u16,
) -> (plan: Result<Vec<i32>, KillportError>)
    ensures
        plan is Ok <==> unix_family && all_held(target_inodes(*tables, port), processes@),
        plan matches Ok(order) ==> order@ == first_occurrences(
            port_plan(target_inodes(*tables, port), processes@),
        ),
        plan matches Err(e) ==> if unix_family {
            e is OwnerNotFound
        } else {
            e is UnsupportedPlatform
        },
{
    if !unix_family {
        return Err(KillportError::UnsupportedPlatform);
    }
    let inodes = find_target_inodes(tables, port);
    let mut order: Vec<i32> = Vec::new();
    let mut i: usize = 0;
    assert(inodes@.take(0) =~= Seq::empty());
    while i < inodes.len()
        invariant
            i <= inodes.len(),
            unix_family,
            inodes@ == target_inodes(*tables, port),
            order@ == port_plan(inodes@.take(i as int), processes@),
            all_held(inodes@.take(i as int), processes@),
        decreases inodes.len() - i,
    {
        assert(inodes@.take(i as int + 1).drop_last() =~= inodes@.take(i as int));
        match kill_processes_by_inode(inodes[i], processes) {
            Ok(mut family) => {
                order.append(&mut family);
            },
            Err(e) => {
                return Err(e);
            },
        }
        i += 1;
    }
    assert(inodes@.take(i as int) =~= inodes@);
    Ok(keep_first_occurrences(&order))
}

} // verus!
