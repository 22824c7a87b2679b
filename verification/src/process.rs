//! Extending a matched process to its descendants, so that children that
//! inherited the socket are terminated with it.

use crate::error::KillportError;
use crate::linux::{holds_socket, process_holds_socket, ProcessEntry};
use vstd::prelude::*;

verus! {

/// One pass over the process table: `found`, extended by the children of
/// `parent` that it does not hold yet, in the order of the table. `root` is
/// never added.
pub open spec fn scan_children(
    table: Seq<ProcessEntry>,
    parent: i32,
    root: i32,
    found: Seq<i32>,
) -> Seq<i32>
    decreases table.len(),
{
    if table.len() == 0 {
        found
    } else {
        let earlier = scan_children(table.drop_last(), parent, root, found);
        let entry = table.last();
        if entry.ppid == parent && entry.pid != root && !earlier.contains(entry.pid) {
            earlier.push(entry.pid)
        } else {
            earlier
        }
    }
}

/// Repeated passes: the children of `found[next]`, of `found[next + 1]` and
/// so on are added until no process is left to look at, or `passes` passes
/// have been made.
pub open spec fn expand(
    table: Seq<ProcessEntry>,
    root: i32,
    found: Seq<i32>,
    next: int,
    passes: nat,
) -> Seq<i32>
    decreases passes,
{
    if passes == 0 || next < 0 || next >= found.len() {
        found
    } else {
        expand(
            table,
            root,
            scan_children(table, found[next], root, found),
            next + 1,
            (passes - 1) as nat,
        )
    }
}

/// The descendants of `root` in the process table: its children in the
/// order of the table, then their children, and so on, each process once
/// and `root` itself never.
pub open spec fn descendants(table: Seq<ProcessEntry>, root: i32) -> Seq<i32> {
    expand(table, root, scan_children(table, root, root, Seq::empty()), 0, table.len())
}

/// The order in which a matched process and its descendants are
/// terminated: the descendants first, the matched process last.
pub open spec fn termination_order(table: Seq<ProcessEntry>, root: i32) -> Seq<i32> {
    descendants(table, root).push(root)
}

/// The processes to terminate for one socket: for each process of `scanned`
/// that holds the socket `inode`, its descendants in `table` and then the
/// process itself.
pub open spec fn inode_plan(
    scanned: Seq<ProcessEntry>,
    table: Seq<ProcessEntry>,
    inode: u64,
) -> Seq<i32>
    decreases scanned.len(),
{
    if scanned.len() == 0 {
        Seq::empty()
    } else {
        let earlier = inode_plan(scanned.drop_last(), table, inode);
        if holds_socket(scanned.last(), seq![inode]) {
            earlier + termination_order(table, scanned.last().pid)
        } else {
            earlier
        }
    }
}

/// Whether a process of the table holds the socket `inode`.
pub open spec fn has_holder(table: Seq<ProcessEntry>, inode: u64) -> bool {
    exists|k: int| 0 <= k < table.len() && holds_socket(#[trigger] table[k], seq![inode])
}

/// Whether the table lists `child` with `parent` as its parent.
pub open spec fn is_child(table: Seq<ProcessEntry>, parent: i32, child: i32) -> bool {
    exists|k: int|
        0 <= k < table.len() && (#[trigger] table[k]).pid == child && table[k].ppid == parent
}

/// Whether `chain` is a line of descent from `root`: its first process is
/// a child of `root`, and each further one a child of the one before it.
pub open spec fn is_lineage(table: Seq<ProcessEntry>, root: i32, chain: Seq<i32>) -> bool {
    &&& chain.len() > 0
    &&& is_child(table, root, chain[0])
    &&& forall|i: int| 0 < i < chain.len() ==> is_child(table, chain[i - 1], #[trigger] chain[i])
}

/// Whether parent links lead from `pid` up to `root`.
pub open spec fn is_descendant(table: Seq<ProcessEntry>, root: i32, pid: i32) -> bool {
    exists|chain: Seq<i32>| #[trigger] is_lineage(table, root, chain) && chain.last() == pid
}

/// Whether the table lists a process `pid`.
pub open spec fn is_listed(table: Seq<ProcessEntry>, pid: i32) -> bool {
    exists|k: int| 0 <= k < table.len() && (#[trigger] table[k]).pid == pid
}

/// Whether the parent of `found[i]` is `root` or stands before it in
/// `found`.
pub open spec fn follows_parent(table: Seq<ProcessEntry>, root: i32, found: Seq<i32>, i: int) -> bool {
    is_child(table, root, found[i]) || exists|j: int|
        0 <= j < i && is_child(table, #[trigger] found[j], found[i])
}

/// What holds of the processes found at any moment of the search: none
/// occurs twice, `root` is not among them, each is listed, and each follows
/// its parent.
pub open spec fn well_found(table: Seq<ProcessEntry>, root: i32, found: Seq<i32>) -> bool {
    &&& found.no_duplicates()
    &&& !found.contains(root)
    &&& forall|i: int| 0 <= i < found.len() ==> is_listed(table, #[trigger] found[i])
    &&& forall|i: int| 0 <= i < found.len() ==> #[trigger] follows_parent(table, root, found, i)
}

/// Whether every child of `parent`, but for `root`, is in `found`.
pub open spec fn holds_children(
    table: Seq<ProcessEntry>,
    root: i32,
    parent: i32,
    found: Seq<i32>,
) -> bool {
    forall|k: int|
        0 <= k < table.len() && (#[trigger] table[k]).ppid == parent && table[k].pid != root
            ==> found.contains(table[k].pid)
}

/// Whether `found` holds the children of `root` and of its own first `next`
/// processes.
pub open spec fn closed_upto(table: Seq<ProcessEntry>, root: i32, found: Seq<i32>, next: int) -> bool {
    &&& holds_children(table, root, root, found)
    &&& forall|m: int|
        0 <= m < next && m < found.len() ==> holds_children(table, root, #[trigger] found[m], found)
}

proof fn lemma_scan(
    part: Seq<ProcessEntry>,
    table: Seq<ProcessEntry>,
    parent: i32,
    root: i32,
    found: Seq<i32>,
)
    requires
        well_found(table, root, found),
        part.is_prefix_of(table),
        parent == root || found.contains(parent),
    ensures
        well_found(table, root, scan_children(part, parent, root, found)),
        found.is_prefix_of(scan_children(part, parent, root, found)),
        holds_children(part, root, parent, scan_children(part, parent, root, found)),
    decreases part.len(),
{
    if part.len() > 0 {
        let earlier = scan_children(part.drop_last(), parent, root, found);
        let entry = part.last();
        let last = part.len() - 1;
        lemma_scan(part.drop_last(), table, parent, root, found);
        let now = scan_children(part, parent, root, found);
        assert(table[last] == entry);
        assert forall|k: int|
            0 <= k < part.len() && (#[trigger] part[k]).ppid == parent && part[k].pid
                != root implies now.contains(part[k].pid) by {
            if k < last {
                assert(part.drop_last()[k] == part[k]);
                let at = choose|at: int| 0 <= at < earlier.len() && earlier[at] == part[k].pid;
                assert(now[at] == part[k].pid);
            } else if earlier.contains(entry.pid) {
                let at = choose|at: int| 0 <= at < earlier.len() && earlier[at] == entry.pid;
                assert(now[at] == entry.pid);
            } else {
                assert(now[earlier.len() as int] == entry.pid);
            }
        }
        if entry.ppid == parent && entry.pid != root && !earlier.contains(entry.pid) {
            let n = earlier.len() as int;
            assert(is_listed(table, now[n]));
            assert(follows_parent(table, root, now, n)) by {
                if parent != root {
                    let at = choose|at: int| 0 <= at < found.len() && found[at] == parent;
                    assert(now[at] == parent);
                    assert(is_child(table, now[at], now[n]));
                }
            }
            assert forall|i: int| 0 <= i < now.len() implies #[trigger] follows_parent(
                table,
                root,
                now,
                i,
            ) by {
                if i < n {
                    assert(follows_parent(table, root, earlier, i));
                    if !is_child(table, root, earlier[i]) {
                        let j = choose|j: int|
                            0 <= j < i && is_child(table, #[trigger] earlier[j], earlier[i]);
                        assert(is_child(table, now[j], now[i]));
                    }
                }
            }
            assert forall|i: int| 0 <= i < now.len() implies is_listed(table, #[trigger] now[i]) by {
                if i < n {
                    assert(now[i] == earlier[i]);
                }
            }
        }
    }
}

proof fn lemma_holds_children_grows(
    table: Seq<ProcessEntry>,
    root: i32,
    parent: i32,
    found: Seq<i32>,
    more: Seq<i32>,
)
    requires
        holds_children(table, root, parent, found),
        found.is_prefix_of(more),
    ensures
        holds_children(table, root, parent, more),
{
    assert forall|k: int|
        0 <= k < table.len() && (#[trigger] table[k]).ppid == parent && table[k].pid
            != root implies more.contains(table[k].pid) by {
        let at = choose|at: int| 0 <= at < found.len() && found[at] == table[k].pid;
        assert(more[at] == table[k].pid);
    }
}

proof fn lemma_expand(table: Seq<ProcessEntry>, root: i32, found: Seq<i32>, next: int, passes: nat)
    requires
        well_found(table, root, found),
        0 <= next <= found.len(),
        closed_upto(table, root, found, next),
    ensures
        well_found(table, root, expand(table, root, found, next, passes)),
        found.is_prefix_of(expand(table, root, found, next, passes)),
        closed_upto(table, root, expand(table, root, found, next, passes), next + passes),
    decreases passes,
{
    if passes == 0 || next >= found.len() {
    } else {
        let more = scan_children(table, found[next], root, found);
        lemma_scan(table, table, found[next], root, found);
        lemma_holds_children_grows(table, root, root, found, more);
        assert forall|m: int| 0 <= m < next + 1 && m < more.len() implies holds_children(
            table,
            root,
            #[trigger] more[m],
            more,
        ) by {
            assert(more[m] == found[m]);
            if m < next {
                lemma_holds_children_grows(table, root, found[m], found, more);
            }
        }
        lemma_expand(table, root, more, next + 1, (passes - 1) as nat);
    }
}

/// Distinct listed processes are no more than the table has rows.
proof fn lemma_found_fits(table: Seq<ProcessEntry>, root: i32, found: Seq<i32>)
    requires
        well_found(table, root, found),
    ensures
        found.len() <= table.len(),
{
    broadcast use vstd::seq_lib::seq_to_set_is_finite;

    let pids = table.map_values(|e: ProcessEntry| e.pid);
    found.unique_seq_to_set();
    pids.lemma_cardinality_of_set();
    assert(found.to_set().subset_of(pids.to_set())) by {
        assert forall|p: i32| found.to_set().contains(p) implies pids.to_set().contains(p) by {
            let i = choose|i: int| 0 <= i < found.len() && found[i] == p;
            assert(is_listed(table, found[i]));
            let k = choose|k: int| 0 <= k < table.len() && (#[trigger] table[k]).pid == p;
            assert(pids[k] == p);
        }
    }
    vstd::set_lib::lemma_len_subset(found.to_set(), pids.to_set());
}

/// What the search establishes of its result.
proof fn lemma_descendants(table: Seq<ProcessEntry>, root: i32)
    ensures
        well_found(table, root, descendants(table, root)),
        closed_upto(table, root, descendants(table, root), descendants(table, root).len() as int),
{
    let first = scan_children(table, root, root, Seq::empty());
    assert(well_found(table, root, Seq::<i32>::empty()));
    lemma_scan(table, table, root, root, Seq::empty());
    lemma_expand(table, root, first, 0, table.len());
    lemma_found_fits(table, root, descendants(table, root));
}

/// No process is planned twice among the descendants, and the root is not
/// among them.
pub proof fn lemma_descendants_distinct(table: Seq<ProcessEntry>, root: i32)
    ensures
        descendants(table, root).no_duplicates(),
        !descendants(table, root).contains(root),
{
    lemma_descendants(table, root);
}

/// Each descendant comes after its parent, unless its parent is the root.
pub proof fn lemma_descendants_follow_parents(table: Seq<ProcessEntry>, root: i32, i: int)
    requires
        0 <= i < descendants(table, root).len(),
    ensures
        follows_parent(table, root, descendants(table, root), i),
{
    lemma_descendants(table, root);
}

proof fn lemma_found_lineage(table: Seq<ProcessEntry>, root: i32, found: Seq<i32>, i: int) -> (chain:
    Seq<i32>)
    requires
        well_found(table, root, found),
        0 <= i < found.len(),
    ensures
        is_lineage(table, root, chain),
        chain.last() == found[i],
    decreases i,
{
    assert(follows_parent(table, root, found, i));
    if is_child(table, root, found[i]) {
        seq![found[i]]
    } else {
        let j = choose|j: int| 0 <= j < i && is_child(table, #[trigger] found[j], found[i]);
        let upper = lemma_found_lineage(table, root, found, j);
        let chain = upper.push(found[i]);
        assert forall|n: int| 0 < n < chain.len() implies is_child(
            table,
            chain[n - 1],
            #[trigger] chain[n],
        ) by {
            if n < upper.len() {
                assert(chain[n] == upper[n]);
            }
        }
        chain
    }
}

proof fn lemma_closed_holds_lineage(
    table: Seq<ProcessEntry>,
    root: i32,
    found: Seq<i32>,
    chain: Seq<i32>,
    i: int,
)
    requires
        closed_upto(table, root, found, found.len() as int),
        is_lineage(table, root, chain),
        0 <= i < chain.len(),
    ensures
        chain[i] == root || found.contains(chain[i]),
    decreases i,
{
    if chain[i] != root {
        let parent = if i == 0 {
            root
        } else {
            chain[i - 1]
        };
        assert(is_child(table, parent, chain[i]));
        let k = choose|k: int|
            0 <= k < table.len() && (#[trigger] table[k]).pid == chain[i] && table[k].ppid
                == parent;
        if parent == root {
            assert(holds_children(table, root, root, found));
        } else {
            lemma_closed_holds_lineage(table, root, found, chain, i - 1);
            let m = choose|m: int| 0 <= m < found.len() && found[m] == parent;
            assert(holds_children(table, root, found[m], found));
        }
        assert(found.contains(table[k].pid));
    }
}

/// The planned descendants are exactly the processes, other than the root,
/// from which parent links lead up to the root.
pub proof fn lemma_descendants_exact(table: Seq<ProcessEntry>, root: i32, pid: i32)
    ensures
        descendants(table, root).contains(pid) <==> pid != root && is_descendant(table, root, pid),
{
    let found = descendants(table, root);
    lemma_descendants(table, root);
    if found.contains(pid) {
        let i = choose|i: int| 0 <= i < found.len() && found[i] == pid;
        let chain = lemma_found_lineage(table, root, found, i);
        assert(is_lineage(table, root, chain) && chain.last() == pid);
    }
    if pid != root && is_descendant(table, root, pid) {
        let chain = choose|chain: Seq<i32>|
            #[trigger] is_lineage(table, root, chain) && chain.last() == pid;
        lemma_closed_holds_lineage(table, root, found, chain, chain.len() - 1);
    }
}

/// `pids` with every repetition of an earlier identifier removed.
pub open spec fn first_occurrences(pids: Seq<i32>) -> Seq<i32>
    decreases pids.len(),
{
    if pids.len() == 0 {
        Seq::empty()
    } else {
        let earlier = first_occurrences(pids.drop_last());
        if earlier.contains(pids.last()) {
            earlier
        } else {
            earlier.push(pids.last())
        }
    }
}

/// Removing repetitions removes no identifier and adds none.
pub proof fn lemma_first_occurrences_same(pids: Seq<i32>, pid: i32)
    ensures
        first_occurrences(pids).contains(pid) <==> pids.contains(pid),
    decreases pids.len(),
{
    if pids.len() > 0 {
        let shorter = pids.drop_last();
        let earlier = first_occurrences(shorter);
        let kept = first_occurrences(pids);
        let last = pids.len() - 1;
        lemma_first_occurrences_same(shorter, pid);
        if kept.contains(pid) {
            let i = choose|i: int| 0 <= i < kept.len() && kept[i] == pid;
            if i < earlier.len() {
                assert(earlier[i] == pid);
                assert(shorter.contains(pid));
                let j = choose|j: int| 0 <= j < shorter.len() && shorter[j] == pid;
                assert(pids[j] == pid);
            } else {
                assert(pids[last] == pid);
            }
        }
        if pids.contains(pid) {
            let j = choose|j: int| 0 <= j < pids.len() && pids[j] == pid;
            if j < last {
                assert(shorter[j] == pid);
            }
            if earlier.contains(pid) {
                let i = choose|i: int| 0 <= i < earlier.len() && earlier[i] == pid;
                assert(kept[i] == pid);
            } else {
                assert(pids[last] == pid);
                assert(kept[earlier.len() as int] == pid);
            }
        }
    }
}

/// After repetitions are removed, no identifier occurs twice.
pub proof fn lemma_first_occurrences_distinct(pids: Seq<i32>)
    ensures
        first_occurrences(pids).no_duplicates(),
    decreases pids.len(),
{
    if pids.len() > 0 {
        lemma_first_occurrences_distinct(pids.drop_last());
    }
}

/// Decides whether `pid` is one of `pids`.
pub fn contains_pid(pids: &Vec<i32>, pid: i32) -> (found: bool)
    ensures
        found == pids@.contains(pid),
{
    let mut i: usize = 0;
    while i < pids.len()
        invariant
            i <= pids.len(),
            forall|j: int| 0 <= j < i ==> pids@[j] != pid,
        decreases pids.len() - i,
    {
        if pids[i] == pid {
            return true;
        }
        i += 1;
    }
    false
}

/// Removes from `pids` every repetition of an earlier identifier.
pub fn keep_first_occurrences(pids: &Vec<i32>) -> (kept: Vec<i32>)
    ensures
        kept@ == first_occurrences(pids@),
{
    let mut kept: Vec<i32> = Vec::new();
    let mut i: usize = 0;
    assert(pids@.take(0) =~= Seq::empty());
    while i < pids.len()
        invariant
            i <= pids.len(),
            kept@ == first_occurrences(pids@.take(i as int)),
        decreases pids.len() - i,
    {
        assert(pids@.take(i as int + 1).drop_last() =~= pids@.take(i as int));
        if !contains_pid(&kept, pids[i]) {
            kept.push(pids[i]);
        }
        i += 1;
    }
    assert(pids@.take(i as int) =~= pids@);
    kept
}

/// Adds to `found` the children of `parent` that it does not hold yet.
fn add_children(processes: &Vec<ProcessEntry>, parent: i32, root: i32, found: &mut Vec<i32>)
    ensures
        final(found)@ == scan_children(processes@, parent, root, old(found)@),
{
    let mut i: usize = 0;
    assert(processes@.take(0) =~= Seq::empty());
    while i < processes.len()
        invariant
            i <= processes.len(),
            found@ == scan_children(processes@.take(i as int), parent, root, old(found)@),
        decreases processes.len() - i,
    {
        assert(processes@.take(i as int + 1).drop_last() =~= processes@.take(i as int));
        let entry = &processes[i];
        if entry.ppid == parent && entry.pid != root && !contains_pid(found, entry.pid) {
            found.push(entry.pid);
        }
        i += 1;
    }
    assert(processes@.take(i as int) =~= processes@);
}

/// A pass keeps what was found before it and only adds to it.
pub proof fn lemma_scan_keeps(table: Seq<ProcessEntry>, parent: i32, root: i32, found: Seq<i32>)
    ensures
        found.is_prefix_of(scan_children(table, parent, root, found)),
    decreases table.len(),
{
    if table.len() > 0 {
        lemma_scan_keeps(table.drop_last(), parent, root, found);
    }
}

/// Collects the descendants of `pid` from a snapshot of the process table:
/// its children, their children and so on, each once.
pub fn collect_child_pids(pid: i32, processes: &Vec<ProcessEntry>) -> (child_pids: Vec<i32>)
    ensures
        child_pids@ == descendants(processes@, pid),
{
    let mut found: Vec<i32> = Vec::new();
    add_children(processes, pid, pid, &mut found);
    let mut next: usize = 0;
    let mut passes: usize = processes.len();
    while passes > 0 && next < found.len()
        invariant
            next <= found.len(),
            expand(processes@, pid, found@, next as int, passes as nat) == descendants(
                processes@,
                pid,
            ),
        decreases passes,
    {
        let parent = found[next];
        proof {
            lemma_scan_keeps(processes@, parent, pid, found@);
        }
        add_children(processes, parent, pid, &mut found);
        next += 1;
        passes -= 1;
    }
    found
}

/// Plans the termination of the process `pid` and of its descendants: the
/// descendants come first and `pid` last.
pub fn kill_process_and_children(pid: i32, processes: &Vec<ProcessEntry>) -> (order: Vec<i32>)
    ensures
        order@ == termination_order(processes@, pid),
{
    let mut order = collect_child_pids(pid, processes);
    order.push(pid);
    order
}

/// Plans the termination of every process that holds the socket
/// `target_inode`, each with its descendants.
///
/// Fails with `OwnerNotFound` where no process of the snapshot holds the
/// socket.
pub fn kill_processes_by_inode(target_inode: u64, processes: &Vec<ProcessEntry>) -> (plan: Result<
    Vec<i32>,
    KillportError,
>)
    ensures
        plan is Ok <==> has_holder(processes@, target_inode),
        plan matches Ok(order) ==> order@ == inode_plan(processes@, processes@, target_inode),
        plan matches Err(e) ==> e is OwnerNotFound,
{
    let mut wanted: Vec<u64> = Vec::new();
    wanted.push(target_inode);
    assert(wanted@ =~= seq![target_inode]);
    let mut order: Vec<i32> = Vec::new();
    let mut killed_any = false;
    let mut i: usize = 0;
    assert(processes@.take(0) =~= Seq::empty());
    while i < processes.len()
        invariant
            i <= processes.len(),
            wanted@ == seq![target_inode],
            order@ == inode_plan(processes@.take(i as int), processes@, target_inode),
            killed_any == has_holder(processes@.take(i as int), target_inode),
        decreases processes.len() - i,
    {
        let ghost seen = processes@.take(i as int);
        let ghost now = processes@.take(i as int + 1);
        assert(now.drop_last() =~= seen);
        if process_holds_socket(&processes[i], &wanted) {
            let mut family = kill_process_and_children(processes[i].pid, processes);
            order.append(&mut family);
            killed_any = true;
            assert(holds_socket(now[i as int], seq![target_inode]));
        } else {
            proof {
                if has_holder(now, target_inode) {
                    let k = choose|k: int|
                        0 <= k < now.len() && holds_socket(#[trigger] now[k], seq![target_inode]);
                    assert(seen[k] == now[k]);
                }
                if has_holder(seen, target_inode) {
                    let k = choose|k: int|
                        0 <= k < seen.len() && holds_socket(
                            #[trigger] seen[k],
                            seq![target_inode],
                        );
                    assert(seen[k] == now[k]);
                }
            }
        }
        i += 1;
    }
    assert(processes@.take(i as int) =~= processes@);
    if killed_any {
        Ok(order)
    } else {
        Err(KillportError::OwnerNotFound)
    }
}

} // verus!
