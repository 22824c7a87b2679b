//! Resolution from the extended socket tables: each row names the port and
//! the process that owns it; names and parents come from a snapshot of the
//! running processes.

use crate::error::{describe_refusal, refusal};
use crate::killport::{Event, KillableType};
use crate::port::NetworkPort;
use crate::unix::ProcessView;
use std::collections::HashMap;
use vstd::prelude::*;
use vstd::utf8::{decode_utf8, valid_utf8};

verus! {

broadcast use vstd::std_specs::hash::group_hash_axioms;

/// The code with which a table call reports success: `NO_ERROR`.
pub const NO_ERROR: u32 = 0;

/// The code with which a table call reports that the buffer it was given is
/// too small for the table: `ERROR_INSUFFICIENT_BUFFER`.
pub const ERROR_INSUFFICIENT_BUFFER: u32 = 122;

/// What follows a call that asked the system for an extended table.
#[derive(Debug, Clone, Copy, PartialEq, Eq, Structural)]
pub enum TableRead {
    /// The buffer holds the table: its rows can be walked.
    Walk,
    /// The buffer was too small: the call is made again with a buffer of
    /// this many bytes.
    Retry(u32),
    /// The call failed with this code: the resolution of the port fails.
    Fail(u32),
}

/// Decides what follows a table call that returned `code` and reported the
/// size `size`. The call is repeated only after it found the buffer too
/// small; success and every other failure end the reading.
pub fn after_table_call(code: u32, size: u32) -> (next: TableRead)
    ensures
        next == if code == NO_ERROR {
            TableRead::Walk
        } else if code == ERROR_INSUFFICIENT_BUFFER {
            TableRead::Retry(size)
        } else {
            TableRead::Fail(code)
        },
{
    if code == NO_ERROR {
        TableRead::Walk
    } else if code == ERROR_INSUFFICIENT_BUFFER {
        TableRead::Retry(size)
    } else {
        TableRead::Fail(code)
    }
}

/// One row of an extended table, as far as resolution reads it.
#[derive(Debug, Clone, Copy, PartialEq, Eq, Structural)]
pub struct TableRow {
    /// The local port as stored, in network byte order.
    pub local_port: NetworkPort,
    pub owning_pid: u32,
}

/// Where the fields that resolution reads lie in the extended table of one
/// class, counted in bytes.
#[derive(Debug, Clone, Copy, PartialEq, Eq, Structural)]
pub struct TableLayout {
    /// From the start of the table to its first row. The number of rows
    /// stands in the first four bytes of the table.
    pub rows_offset: usize,
    /// From one row to the next.
    pub row_size: usize,
    /// From the start of a row to the four bytes of its local port.
    pub port_offset: usize,
    /// From the start of a row to the four bytes of its owning process.
    pub pid_offset: usize,
}

/// The number that four bytes of `bytes` stand for, starting at `at`, least
/// significant byte first.
pub open spec fn le_u32(bytes: Seq<u8>, at: int) -> int {
    bytes[at] as int + 256 * (bytes[at + 1] as int) + 65536 * (bytes[at + 2] as int) + 16777216 * (
    bytes[at + 3] as int)
}

/// Whether `buffer` holds a whole table of the layout `layout`: the number
/// of rows, and then so many rows, each wide enough for the fields.
pub open spec fn holds_table(buffer: Seq<u8>, layout: TableLayout) -> bool {
    &&& 4 <= layout.rows_offset
    &&& layout.port_offset + 4 <= layout.row_size
    &&& layout.pid_offset + 4 <= layout.row_size
    &&& 4 <= buffer.len()
    &&& layout.rows_offset + le_u32(buffer, 0) * layout.row_size <= buffer.len()
}

/// Row `i` of the table in `buffer`. The port is stored in network byte
/// order in the first two of its four bytes.
pub open spec fn row_at(buffer: Seq<u8>, layout: TableLayout, i: int) -> TableRow {
    let start = layout.rows_offset + i * layout.row_size;
    TableRow {
        local_port: NetworkPort {
            high: buffer[start + layout.port_offset],
            low: buffer[start + layout.port_offset + 1],
        },
        owning_pid: le_u32(buffer, start + layout.pid_offset) as u32,
    }
}

/// The rows of the table in `buffer`, in order.
pub open spec fn table_rows(buffer: Seq<u8>, layout: TableLayout) -> Seq<TableRow> {
    Seq::new(le_u32(buffer, 0) as nat, |i: int| row_at(buffer, layout, i))
}

fn read_le_u32(bytes: &Vec<u8>, at: usize) -> (value: u32)
    requires
        at + 4 <= bytes.len(),
    ensures
        value as int == le_u32(bytes@, at as int),
{
    let b0: u32 = bytes[at] as u32;
    let b1: u32 = bytes[at + 1] as u32;
    let b2: u32 = bytes[at + 2] as u32;
    let b3: u32 = bytes[at + 3] as u32;
    b0 + 256 * b1 + 65536 * b2 + 16777216 * b3
}

/// Reads the rows of an extended table from the buffer the system filled.
///
/// Gives `None` where the buffer does not hold a whole table of the layout:
/// no row is read beyond the end of the buffer.
pub fn read_table(buffer: &Vec<u8>, layout: &TableLayout) -> (rows: Option<Vec<TableRow>>)
    ensures
        rows is Some <==> holds_table(buffer@, *layout),
        rows matches Some(read) ==> read@ == table_rows(buffer@, *layout),
{
    if layout.rows_offset < 4 || layout.row_size < 4 || layout.port_offset > layout.row_size - 4
        || layout.pid_offset > layout.row_size - 4 || buffer.len() < 4 || layout.rows_offset
        > buffer.len() {
        assert(!holds_table(buffer@, *layout)) by (nonlinear_arith)
            requires
                layout.rows_offset < 4 || layout.row_size < 4 || layout.port_offset
                    > layout.row_size - 4 || layout.pid_offset > layout.row_size - 4
                    || buffer@.len() < 4 || layout.rows_offset > buffer@.len(),
                0 <= le_u32(buffer@, 0),
                0 <= layout.row_size,
        {
        }
        return None;
    }
    let count = read_le_u32(buffer, 0);
    let mut rows: Vec<TableRow> = Vec::new();
    let mut offset: usize = layout.rows_offset;
    let mut i: u32 = 0;
    assert(offset == layout.rows_offset + 0 * layout.row_size) by (nonlinear_arith)
        requires
            offset == layout.rows_offset,
    {
    }
    while i < count
        invariant
            i <= count,
            count as int == le_u32(buffer@, 0),
            4 <= layout.rows_offset,
            4 <= layout.row_size,
            layout.port_offset + 4 <= layout.row_size,
            layout.pid_offset + 4 <= layout.row_size,
            offset == layout.rows_offset + i * layout.row_size,
            offset <= buffer.len(),
            rows@ == Seq::new(i as nat, |k: int| row_at(buffer@, *layout, k)),
        decreases count - i,
    {
        if buffer.len() - offset < layout.row_size {
            assert(!holds_table(buffer@, *layout)) by (nonlinear_arith)
                requires
                    i < count,
                    count as int == le_u32(buffer@, 0),
                    offset == layout.rows_offset + i * layout.row_size,
                    buffer@.len() - offset < layout.row_size,
                    0 <= layout.row_size,
            {
                assert((i + 1) * layout.row_size <= count * layout.row_size);
                assert((i + 1) * layout.row_size == i * layout.row_size + layout.row_size);
            }
            return None;
        }
        let pid = read_le_u32(buffer, offset + layout.pid_offset);
        let row = TableRow {
            local_port: NetworkPort {
                high: buffer[offset + layout.port_offset],
                low: buffer[offset + layout.port_offset + 1],
            },
            owning_pid: pid,
        };
        assert(row == row_at(buffer@, *layout, i as int));
        let ghost before = rows@;
        rows.push(row);
        assert(rows@ =~= Seq::new((i + 1) as nat, |k: int| row_at(buffer@, *layout, k)));
        assert(offset + layout.row_size == layout.rows_offset + (i + 1) * layout.row_size)
            by (nonlinear_arith)
            requires
                offset == layout.rows_offset + i * layout.row_size,
        {
        }
        offset = offset + layout.row_size;
        i = i + 1;
    }
    Some(rows)
}

/// The rows of the four extended tables.
#[derive(Debug)]
pub struct ExtendedTables {
    pub tcp4: Vec<TableRow>,
    pub tcp6: Vec<TableRow>,
    pub udp4: Vec<TableRow>,
    pub udp6: Vec<TableRow>,
}

/// One pass over a table: `pids`, extended by the owners of the rows bound
/// to `port` that it does not hold yet, in the order of the rows.
pub open spec fn table_owners(rows: Seq<TableRow>, port: u16, pids: Seq<u32>) -> Seq<u32>
    decreases rows.len(),
{
    if rows.len() == 0 {
        pids
    } else {
        let earlier = table_owners(rows.drop_last(), port, pids);
        let row = rows.last();
        if row.local_port.spec_host_order() == port && !earlier.contains(row.owning_pid) {
            earlier.push(row.owning_pid)
        } else {
            earlier
        }
    }
}

/// The owners of `port` over the four tables, each once: TCP before UDP,
/// IPv4 before IPv6.
pub open spec fn port_owners(tables: ExtendedTables, port: u16) -> Seq<u32> {
    table_owners(
        tables.udp6@,
        port,
        table_owners(
            tables.udp4@,
            port,
            table_owners(tables.tcp6@, port, table_owners(tables.tcp4@, port, Seq::empty())),
        ),
    )
}

/// Whether a row of `rows` is bound to `port` and owned by `pid`.
pub open spec fn has_row(rows: Seq<TableRow>, port: u16, pid: u32) -> bool {
    exists|i: int|
        0 <= i < rows.len() && (#[trigger] rows[i]).local_port.spec_host_order() == port
            && rows[i].owning_pid == pid
}

/// A pass over a table adds exactly the owners of the rows bound to the
/// port, and adds none twice.
pub proof fn lemma_table_owners(rows: Seq<TableRow>, port: u16, pids: Seq<u32>, pid: u32)
    ensures
        table_owners(rows, port, pids).contains(pid) <==> pids.contains(pid) || has_row(
            rows,
            port,
            pid,
        ),
        pids.no_duplicates() ==> table_owners(rows, port, pids).no_duplicates(),
    decreases rows.len(),
{
    if rows.len() > 0 {
        let shorter = rows.drop_last();
        let earlier = table_owners(shorter, port, pids);
        let all = table_owners(rows, port, pids);
        let row = rows.last();
        let last = rows.len() - 1;
        lemma_table_owners(shorter, port, pids, pid);
        if all.contains(pid) {
            let at = choose|at: int| 0 <= at < all.len() && all[at] == pid;
            if at < earlier.len() {
                assert(earlier[at] == pid);
                if has_row(shorter, port, pid) {
                    let i = choose|i: int|
                        0 <= i < shorter.len() && (#[trigger] shorter[i]).local_port.spec_host_order()
                            == port && shorter[i].owning_pid == pid;
                    assert(rows[i] == shorter[i]);
                }
            } else {
                assert(rows[last].owning_pid == pid);
            }
        }
        if pids.contains(pid) || has_row(rows, port, pid) {
            let known = pids.contains(pid) || has_row(shorter, port, pid);
            if !known {
                let i = choose|i: int|
                    0 <= i < rows.len() && (#[trigger] rows[i]).local_port.spec_host_order() == port
                        && rows[i].owning_pid == pid;
                if i < last {
                    assert(shorter[i] == rows[i]);
                }
                assert(i == last);
            }
            if earlier.contains(pid) {
                let at = choose|at: int| 0 <= at < earlier.len() && earlier[at] == pid;
                assert(all[at] == pid);
            } else {
                assert(all[earlier.len() as int] == pid);
            }
        }
    }
}

/// The owners of a port are the processes that a row of one of the four
/// tables names for it, each once. A port no row is bound to has no owner.
pub proof fn lemma_port_owners(tables: ExtendedTables, port: u16, pid: u32)
    ensures
        port_owners(tables, port).no_duplicates(),
        port_owners(tables, port).contains(pid) <==> has_row(tables.tcp4@, port, pid) || has_row(
            tables.tcp6@,
            port,
            pid,
        ) || has_row(tables.udp4@, port, pid) || has_row(tables.udp6@, port, pid),
{
    let none = Seq::<u32>::empty();
    let first = table_owners(tables.tcp4@, port, none);
    let second = table_owners(tables.tcp6@, port, first);
    let third = table_owners(tables.udp4@, port, second);
    lemma_table_owners(tables.tcp4@, port, none, pid);
    lemma_table_owners(tables.tcp6@, port, first, pid);
    lemma_table_owners(tables.udp4@, port, second, pid);
    lemma_table_owners(tables.udp6@, port, third, pid);
}

/// Decides whether `pid` is one of `pids`.
pub fn contains_owner(pids: &Vec<u32>, pid: u32) -> (found: bool)
    ensures
        found == pids@.contains(pid),
{
    let mut i: usize = 0;
    while i < pids.len()
        invariant
            i <= pids.len(),
            forall|j: int| 0 <= j < i ==> pids@[j] != pid,
        decreases pids.len() - i,
    {
        if pids[i] == pid {
            return true;
        }
        i += 1;
    }
    false
}

/// Walks the rows of one extended table and adds to `pids` the owner of
/// each row bound to `port`, unless `pids` holds it already.
pub fn use_extended_table(rows: &Vec<TableRow>, port: u16, pids: &mut Vec<u32>)
    ensures
        final(pids)@ == table_owners(rows@, port, old(pids)@),
{
    let mut i: usize = 0;
    assert(rows@.take(0) =~= Seq::empty());
    while i < rows.len()
        invariant
            i <= rows.len(),
            pids@ == table_owners(rows@.take(i as int), port, old(pids)@),
        decreases rows.len() - i,
    {
        assert(rows@.take(i as int + 1).drop_last() =~= rows@.take(i as int));
        let row = rows[i];
        if row.local_port.host_order() == port && !contains_owner(pids, row.owning_pid) {
            pids.push(row.owning_pid);
        }
        i += 1;
    }
    assert(rows@.take(i as int) =~= rows@);
}

/// State for the snapshot iterator
#[derive(Debug, Clone, Copy, PartialEq, Eq, Structural)]
pub enum SnapshotState {
    /// Can read the first entry
    First,
    /// Can read the next entry
    Next,
    /// Reached the end, cannot iterate further
    End,
}

/// The state after a read in state `state`: a read that yields an entry
/// leads on, a read that yields none ends the iteration for good.
pub open spec fn after_read(state: SnapshotState, yielded: bool) -> SnapshotState {
    match state {
        SnapshotState::End => SnapshotState::End,
        _ => if yielded {
            SnapshotState::Next
        } else {
            SnapshotState::End
        },
    }
}

/// The course of one iteration over the snapshot of the running processes:
/// it says which read comes next and takes what the read yielded.
#[derive(Debug)]
pub struct WindowsProcessesSnapshot {
    /// State of reading
    state: SnapshotState,
}

impl WindowsProcessesSnapshot {
    /// The state of reading.
    pub closed spec fn spec_state(&self) -> SnapshotState {
        self.state
    }

    /// Starts an iteration: the first entry is read next.
    pub fn create() -> (snapshot: Self)
        ensures
            snapshot.spec_state() == SnapshotState::First,
    {
        Self { state: SnapshotState::First }
    }

    /// The state of reading: which read comes next, if any.
    #[verifier::when_used_as_spec(spec_state)]
    pub fn state(&self) -> (state: SnapshotState)
        ensures
            state == self.spec_state(),
    {
        self.state
    }

    /// Takes what the read asked for by the state yielded and hands it on.
    /// Once a read has yielded nothing, or the end was reached before,
    /// nothing is handed on any more.
    pub fn next(&mut self, read: Option<SnapshotEntry>) -> (entry: Option<SnapshotEntry>)
        ensures
            final(self).spec_state() == after_read(old(self).spec_state(), read is Some),
            entry == if old(self).spec_state() is End {
                None
            } else {
                read
            },
    {
        match self.state {
            SnapshotState::End => None,
            _ => {
                if read.is_some() {
                    self.state = SnapshotState::Next;
                } else {
                    self.state = SnapshotState::End;
                }
                read
            },
        }
    }
}

/// One entry of the process snapshot.
#[derive(Debug)]
pub struct SnapshotEntry {
    pub pid: u32,
    pub parent_pid: u32,
    /// The executable's file name as the system stores it: the bytes of the
    /// name, then a zero byte, then whatever the buffer held before.
    pub exe_file: Vec<u8>,
}

/// The error of `String::from_utf8`. Nothing is read from it.
#[verifier::external_type_specification]
#[verifier::external_body]
pub struct ExFromUtf8Error(std::string::FromUtf8Error);

/// `String::from_utf8` succeeds on exactly the byte sequences that are valid
/// UTF-8, and then yields the text they encode.
pub assume_specification[ String::from_utf8 ](vec: Vec<u8>) -> (decoded: Result<
    String,
    std::string::FromUtf8Error,
>)
    ensures
        decoded is Ok <==> valid_utf8(vec@),
        decoded matches Ok(text) ==> text@ == decode_utf8(vec@),
;

/// Whether the name stored in `bytes` ends before index `end`: no zero byte
/// comes earlier, and either a zero byte stands there or the buffer ends.
pub open spec fn is_name_end(bytes: Seq<u8>, end: int) -> bool {
    &&& 0 <= end <= bytes.len()
    &&& forall|i: int| 0 <= i < end ==> bytes[i] != 0
    &&& end == bytes.len() || bytes[end] == 0
}

/// The bytes of the name stored in `bytes`: those before the first zero
/// byte.
pub open spec fn name_bytes(bytes: Seq<u8>) -> Seq<u8> {
    bytes.take(choose|end: int| is_name_end(bytes, end))
}

/// The name of a snapshot entry: the stored name where it is valid UTF-8,
/// else `Unknown`.
pub open spec fn entry_name(exe_file: Seq<u8>) -> Seq<char> {
    if valid_utf8(name_bytes(exe_file)) {
        decode_utf8(name_bytes(exe_file))
    } else {
        "Unknown"@
    }
}

/// Parses the name from a process entry; falls back to `Unknown` for names
/// that are not valid UTF-8.
pub fn get_process_entry_name(entry: &SnapshotEntry) -> (name: String)
    ensures
        name@ == entry_name(entry.exe_file@),
{
    let mut name_chars: Vec<u8> = Vec::new();
    let mut i: usize = 0;
    while i < entry.exe_file.len() && entry.exe_file[i] != 0
        invariant
            i <= entry.exe_file.len(),
            name_chars@ == entry.exe_file@.take(i as int),
            forall|j: int| 0 <= j < i ==> entry.exe_file@[j] != 0,
        decreases entry.exe_file.len() - i,
    {
        name_chars.push(entry.exe_file[i]);
        assert(entry.exe_file@.take(i as int + 1) =~= entry.exe_file@.take(i as int).push(
            entry.exe_file@[i as int],
        ));
        i += 1;
    }
    proof {
        let bytes = entry.exe_file@;
        assert(is_name_end(bytes, i as int));
        let end = choose|end: int| is_name_end(bytes, end);
        assert(end == i) by {
            if end < i {
                assert(bytes[end] != 0);
            } else if i < end {
                assert(bytes[i as int] == 0);
            }
        }
    }
    match String::from_utf8(name_chars) {
        Ok(name) => name,
        Err(_) => "Unknown".to_owned(),
    }
}

/// Whether the snapshot lists a process `pid`.
pub open spec fn is_running(entries: Seq<SnapshotEntry>, pid: u32) -> bool {
    exists|i: int| 0 <= i < entries.len() && (#[trigger] entries[i]).pid == pid
}

/// Checks if the snapshot lists a running process with the provided pid.
pub fn is_process_running(entries: &Vec<SnapshotEntry>, pid: u32) -> (running: bool)
    ensures
        running == is_running(entries@, pid),
{
    let mut i: usize = 0;
    while i < entries.len()
        invariant
            i <= entries.len(),
            forall|j: int| 0 <= j < i ==> (#[trigger] entries@[j]).pid != pid,
        decreases entries.len() - i,
    {
        if entries[i].pid == pid {
            return true;
        }
        i += 1;
    }
    false
}

/// The names the snapshot gives, by process identifier; of two entries for
/// one identifier the later counts.
pub open spec fn names_of(entries: Seq<SnapshotEntry>) -> Map<u32, Seq<char>>
    decreases entries.len(),
{
    if entries.len() == 0 {
        Map::empty()
    } else {
        names_of(entries.drop_last()).insert(
            entries.last().pid,
            entry_name(entries.last().exe_file@),
        )
    }
}

/// The parents the snapshot gives, by process identifier; of two entries
/// for one identifier the later counts.
pub open spec fn parents_of(entries: Seq<SnapshotEntry>) -> Map<u32, u32>
    decreases entries.len(),
{
    if entries.len() == 0 {
        Map::empty()
    } else {
        parents_of(entries.drop_last()).insert(entries.last().pid, entries.last().parent_pid)
    }
}

/// The name shown for `pid`: the one in `names`, or `Unknown` where it has
/// none.
pub open spec fn shown_name(names: Map<u32, Seq<char>>, pid: u32) -> Seq<char> {
    if names.contains_key(pid) {
        names[pid]
    } else {
        "Unknown"@
    }
}

/// Lookup table for finding the names and parents for a process using its
/// pid.
pub struct ProcessLookupTable {
    /// Mapping from pid to name
    process_names: HashMap<u32, String>,
    /// Mapping from pid to parent pid
    process_parents: HashMap<u32, u32>,
}

impl ProcessLookupTable {
    /// The names in the table, by process identifier.
    pub closed spec fn names(&self) -> Map<u32, Seq<char>> {
        self.process_names@.map_values(|name: String| name@)
    }

    /// The parents in the table, by process identifier.
    pub closed spec fn parents(&self) -> Map<u32, u32> {
        self.process_parents@
    }

    /// Builds the table from the entries of a process snapshot.
    pub fn create(entries: &Vec<SnapshotEntry>) -> (table: Self)
        ensures
            table.names() == names_of(entries@),
            table.parents() == parents_of(entries@),
    {
        let mut process_names: HashMap<u32, String> = HashMap::new();
        let mut process_parents: HashMap<u32, u32> = HashMap::new();
        let mut i: usize = 0;
        assert(entries@.take(0) =~= Seq::empty());
        assert(process_names@.map_values(|name: String| name@) =~= Map::empty());
        while i < entries.len()
            invariant
                i <= entries.len(),
                process_names@.map_values(|name: String| name@) == names_of(
                    entries@.take(i as int),
                ),
                process_parents@ == parents_of(entries@.take(i as int)),
            decreases entries.len() - i,
        {
            let entry = &entries[i];
            let name = get_process_entry_name(entry);
            let ghost before = process_names@;
            assert(entries@.take(i as int + 1).drop_last() =~= entries@.take(i as int));
            process_names.insert(entry.pid, name);
            process_parents.insert(entry.pid, entry.parent_pid);
            assert(process_names@.map_values(|name: String| name@) =~= before.map_values(
                |name: String| name@,
            ).insert(entry.pid, name@));
            i += 1;
        }
        assert(entries@.take(i as int) =~= entries@);
        Self { process_names, process_parents }
    }

    /// The name shown for `pid`.
    pub fn name_of(&self, pid: u32) -> (name: String)
        ensures
            name@ == shown_name(self.names(), pid),
    {
        match self.process_names.get(&pid) {
            Some(name) => name.clone(),
            None => "Unknown".to_owned(),
        }
    }

    /// The parent the table gives for `pid`, if it lists `pid`.
    pub fn parent_of(&self, pid: u32) -> (parent: Option<u32>)
        ensures
            parent == if self.parents().contains_key(pid) {
                Some(self.parents()[pid])
            } else {
                None
            },
    {
        match self.process_parents.get(&pid) {
            Some(parent) => Some(*parent),
            None => None,
        }
    }
}

/// How many parents of a matched process are taken to own the port with it.
/// Walking further up would reach shells and session managers.
pub const MAX_PARENT_DEPTH: u8 = 1;

/// The parents recorded for `pid`, nearest first: at most `depth` of them,
/// fewer where the table gives no parent.
pub open spec fn ancestors(
    names: Map<u32, Seq<char>>,
    parents: Map<u32, u32>,
    pid: u32,
    depth: nat,
) -> Seq<ProcessView>
    decreases depth,
{
    if depth == 0 || !parents.contains_key(pid) {
        Seq::empty()
    } else {
        seq![ProcessView { pid: parents[pid] as int, name: shown_name(names, parents[pid]) }]
            + ancestors(names, parents, parents[pid], (depth - 1) as nat)
    }
}

/// The candidate for `pid`: the process itself, then the parents recorded
/// for it.
pub open spec fn candidate(names: Map<u32, Seq<char>>, parents: Map<u32, u32>, pid: u32) -> Seq<
    ProcessView,
> {
    seq![ProcessView { pid: pid as int, name: shown_name(names, pid) }] + ancestors(
        names,
        parents,
        pid,
        MAX_PARENT_DEPTH as nat,
    )
}

/// No more parents are recorded than the depth allows.
pub proof fn lemma_ancestors_bounded(
    names: Map<u32, Seq<char>>,
    parents: Map<u32, u32>,
    pid: u32,
    depth: nat,
)
    ensures
        ancestors(names, parents, pid, depth).len() <= depth,
    decreases depth,
{
    if depth > 0 && parents.contains_key(pid) {
        lemma_ancestors_bounded(names, parents, parents[pid], (depth - 1) as nat);
    }
}

/// Represents a windows native process
#[derive(Debug)]
pub struct WindowsProcess {
    pid: u32,
    name: String,
    parent: Option<Box<WindowsProcess>>,
}

impl WindowsProcess {
    /// The process identifier.
    pub closed spec fn spec_pid(&self) -> u32 {
        self.pid
    }

    /// The process and the parents recorded for it, nearest first.
    pub closed spec fn lineage(&self) -> Seq<ProcessView>
        decreases self,
    {
        match self.parent {
            None => seq![ProcessView { pid: self.pid as int, name: self.name@ }],
            Some(parent) => seq![ProcessView { pid: self.pid as int, name: self.name@ }]
                + parent.lineage(),
        }
    }

    /// The lineage holds the process itself first.
    pub proof fn lemma_lineage_starts(&self)
        ensures
            self.lineage().len() >= 1,
            self.lineage()[0].pid == self.spec_pid() as int,
    {
    }

    /// The candidate for the process `pid`, shown as `name`, with no parent
    /// recorded.
    pub fn new(pid: u32, name: String) -> (process: Self)
        ensures
            process@ == seq![ProcessView { pid: pid as int, name: name@ }],
            process.spec_pid() == pid,
    {
        Self { pid, name, parent: None }
    }

    /// The process identifier.
    #[verifier::when_used_as_spec(spec_pid)]
    pub fn pid(&self) -> (pid: u32)
        ensures
            pid == self.spec_pid(),
            pid as int == self@[0].pid,
    {
        self.pid
    }

    /// A process candidate is always of the process class.
    pub fn get_type(&self) -> (kind: KillableType)
        ensures
            kind == KillableType::Process,
    {
        KillableType::Process
    }

    /// The display name.
    pub fn get_name(&self) -> (name: String)
        ensures
            name@ == self@[0].name,
    {
        self.name.clone()
    }

    /// The identifiers to terminate for this candidate, in order: the
    /// process itself, then the parents recorded for it.
    pub fn kill_order(&self) -> (order: Vec<u32>)
        ensures
            order@.len() == self@.len(),
            forall|i: int| 0 <= i < order@.len() ==> order@[i] as int == (#[trigger] self@[i]).pid,
    {
        let mut order: Vec<u32> = Vec::new();
        let mut current: &WindowsProcess = self;
        order.push(current.pid);
        loop
            invariant
                order@.len() >= 1,
                order@.len() - 1 + current.lineage().len() == self.lineage().len(),
                forall|i: int|
                    0 <= i < order@.len() ==> order@[i] as int == (#[trigger] self.lineage()[i]).pid,
                forall|i: int|
                    0 <= i < current.lineage().len() ==> current.lineage()[i]
                        == self.lineage()[order@.len() - 1 + i],
            ensures
                order@.len() == self.lineage().len(),
                forall|i: int|
                    0 <= i < order@.len() ==> order@[i] as int == (#[trigger] self.lineage()[i]).pid,
            decreases current.lineage().len(),
        {
            match &current.parent {
                None => {
                    break ;
                },
                Some(parent) => {
                    proof {
                        parent.lemma_lineage_starts();
                        assert(parent.lineage()[0] == current.lineage()[1]);
                        assert forall|i: int| 0 <= i < parent.lineage().len() implies parent.lineage()[i]
                            == self.lineage()[order@.len() + i] by {
                            assert(parent.lineage()[i] == current.lineage()[i + 1]);
                        }
                    }
                    current = &**parent;
                    order.push(current.pid);
                },
            }
        }
        order
    }
}

impl View for WindowsProcess {
    type V = Seq<ProcessView>;

    closed spec fn view(&self) -> Seq<ProcessView> {
        self.lineage()
    }
}

/// The lineages of a sequence of candidates, in the same order.
pub open spec fn lineages(processes: Seq<WindowsProcess>) -> Seq<Seq<ProcessView>> {
    processes.map_values(|p: WindowsProcess| p@)
}

/// What a chain of recorded parents stands for.
spec fn chain_lineage(chain: Option<Box<WindowsProcess>>) -> Seq<ProcessView> {
    match chain {
        None => Seq::empty(),
        Some(parent) => parent.lineage(),
    }
}

fn ancestor_chain(lookup_table: &ProcessLookupTable, pid: u32, depth: u8) -> (chain: Option<
    Box<WindowsProcess>,
>)
    ensures
        chain_lineage(chain) == ancestors(
            lookup_table.names(),
            lookup_table.parents(),
            pid,
            depth as nat,
        ),
        chain is Some <==> depth > 0 && lookup_table.parents().contains_key(pid),
    decreases depth,
{
    if depth == 0 {
        return None;
    }
    match lookup_table.parent_of(pid) {
        None => None,
        Some(parent_pid) => {
            let name = lookup_table.name_of(parent_pid);
            let parent = ancestor_chain(lookup_table, parent_pid, depth - 1);
            Some(Box::new(WindowsProcess { pid: parent_pid, name, parent }))
        },
    }
}

/// Finds the parents of the provided process, up to `MAX_PARENT_DEPTH` of
/// them, and records them with it. A process the table gives no parent for
/// is left as it is.
pub fn lookup_process_parents(lookup_table: &ProcessLookupTable, process: &mut WindowsProcess)
    ensures
        final(process).spec_pid() == old(process).spec_pid(),
        final(process)@ == if lookup_table.parents().contains_key(old(process).spec_pid()) {
            seq![old(process)@[0]] + ancestors(
                lookup_table.names(),
                lookup_table.parents(),
                old(process).spec_pid(),
                MAX_PARENT_DEPTH as nat,
            )
        } else {
            old(process)@
        },
{
    let chain = ancestor_chain(lookup_table, process.pid, MAX_PARENT_DEPTH);
    if chain.is_some() {
        process.parent = chain;
    }
}

/// Finds the processes that own `port`, given the rows of the four extended
/// tables and the lookup table of a process snapshot.
///
/// Each owner is returned once, in the order in which the tables first name
/// it, together with at most `MAX_PARENT_DEPTH` of its parents. A process
/// the snapshot does not know is shown as `Unknown`.
pub fn find_target_processes(
    tables: &ExtendedTables,
    lookup_table: &ProcessLookupTable,
    port: u16,
) -> (processes: Vec<WindowsProcess>)
    ensures
        lineages(processes@) == port_owners(*tables, port).map_values(
            |pid: u32| candidate(lookup_table.names(), lookup_table.parents(), pid),
        ),
{
    let mut pids: Vec<u32> = Vec::new();
    use_extended_table(&tables.tcp4, port, &mut pids);
    use_extended_table(&tables.tcp6, port, &mut pids);
    use_extended_table(&tables.udp4, port, &mut pids);
    use_extended_table(&tables.udp6, port, &mut pids);
    let ghost made = |pid: u32| candidate(lookup_table.names(), lookup_table.parents(), pid);
    let mut processes: Vec<WindowsProcess> = Vec::new();
    let mut i: usize = 0;
    assert(lineages(processes@) =~= pids@.take(0).map_values(made));
    while i < pids.len()
        invariant
            i <= pids.len(),
            pids@ == port_owners(*tables, port),
            made == |pid: u32| candidate(lookup_table.names(), lookup_table.parents(), pid),
            lineages(processes@) == pids@.take(i as int).map_values(made),
        decreases pids.len() - i,
    {
        let pid = pids[i];
        let process_name = lookup_table.name_of(pid);
        let mut process = WindowsProcess::new(pid, process_name);
        lookup_process_parents(lookup_table, &mut process);
        let ghost before = processes@;
        processes.push(process);
        proof {
            assert(ancestors(
                lookup_table.names(),
                lookup_table.parents(),
                pid,
                MAX_PARENT_DEPTH as nat,
            ).len() == 0 || lookup_table.parents().contains_key(pid));
            assert(process@ =~= made(pid));
            assert(lineages(processes@) =~= lineages(before).push(made(pid)));
            assert(pids@.take(i as int + 1).map_values(made) =~= pids@.take(i as int).map_values(
                made,
            ).push(made(pid)));
        }
        i += 1;
    }
    assert(pids@.take(i as int) =~= pids@);
    processes
}

/// Why a process could not be terminated.
#[derive(Debug, Clone, Copy, PartialEq, Eq, Structural)]
pub enum KillFailure {
    /// No handle to the process could be had although it is running.
    Open,
    /// The running processes could not be listed.
    List,
    /// The system refused to terminate the process.
    Terminate,
    /// An outcome was reported that the step before had not asked for.
    Unexpected,
}

/// Where the termination of one process stands, and with it what is to be
/// done next.
#[derive(Debug, Clone, Copy, PartialEq, Eq, Structural)]
pub enum KillStep {
    /// Obtain a handle to the process.
    Open,
    /// List the running processes.
    List,
    /// Terminate the process through the handle, then close the handle.
    Terminate,
    /// The process is gone.
    Done,
    /// The process could not be terminated.
    Failed(KillFailure),
}

/// What the step that was asked for came to.
#[derive(Debug)]
pub enum KillOutcome {
    /// A handle was obtained.
    Opened,
    /// No handle was obtained.
    NotOpened,
    /// The running processes, as listed.
    Listed(Vec<SnapshotEntry>),
    /// The running processes could not be listed.
    NotListed,
    /// The process was terminated.
    Terminated,
    /// The process was not terminated.
    NotTerminated,
}

/// The step that follows `step` once it came to `outcome`, in the
/// termination of the process `pid`.
pub open spec fn after_kill_step(pid: u32, step: KillStep, outcome: KillOutcome) -> KillStep {
    match (step, outcome) {
        (KillStep::Done, _) => KillStep::Done,
        (KillStep::Failed(failure), _) => KillStep::Failed(failure),
        (KillStep::Open, KillOutcome::Opened) => KillStep::Terminate,
        (KillStep::Open, KillOutcome::NotOpened) => KillStep::List,
        (KillStep::List, KillOutcome::Listed(entries)) => if is_running(entries@, pid) {
            KillStep::Failed(KillFailure::Open)
        } else {
            KillStep::Done
        },
        (KillStep::List, KillOutcome::NotListed) => KillStep::Failed(KillFailure::List),
        (KillStep::Terminate, KillOutcome::Terminated) => KillStep::Done,
        (KillStep::Terminate, KillOutcome::NotTerminated) => KillStep::Failed(
            KillFailure::Terminate,
        ),
        _ => KillStep::Failed(KillFailure::Unexpected),
    }
}

/// Decides how the termination of the process `pid` goes on after `step`
/// came to `outcome`. It starts at `KillStep::Open`.
///
/// A process to which no handle can be had and which is no longer running
/// counts as terminated: it had exited by itself.
pub fn kill_process(pid: u32, step: KillStep, outcome: KillOutcome) -> (next: KillStep)
    ensures
        next == after_kill_step(pid, step, outcome),
{
    match step {
        KillStep::Done => KillStep::Done,
        KillStep::Failed(failure) => KillStep::Failed(failure),
        KillStep::Open => match outcome {
            KillOutcome::Opened => KillStep::Terminate,
            KillOutcome::NotOpened => KillStep::List,
            _ => KillStep::Failed(KillFailure::Unexpected),
        },
        KillStep::List => match outcome {
            KillOutcome::Listed(entries) => {
                if is_process_running(&entries, pid) {
                    KillStep::Failed(KillFailure::Open)
                } else {
                    KillStep::Done
                }
            },
            KillOutcome::NotListed => KillStep::Failed(KillFailure::List),
            _ => KillStep::Failed(KillFailure::Unexpected),
        },
        KillStep::Terminate => match outcome {
            KillOutcome::Terminated => KillStep::Done,
            KillOutcome::NotTerminated => KillStep::Failed(KillFailure::Terminate),
            _ => KillStep::Failed(KillFailure::Unexpected),
        },
    }
}

/// The step among `ended` that settles the termination of a candidate as
/// failed: the first that is not `Done`.
pub open spec fn first_unfinished(ended: Seq<KillStep>) -> Option<KillStep>
    decreases ended.len(),
{
    if ended.len() == 0 {
        None
    } else {
        match first_unfinished(ended.drop_last()) {
            Some(step) => Some(step),
            None => if ended.last() is Done {
                None
            } else {
                Some(ended.last())
            },
        }
    }
}

/// The reason told for a termination that ended at `step`.
pub open spec fn failure_reason(step: KillStep) -> Seq<char> {
    match step {
        KillStep::Failed(KillFailure::Open) => "no handle to the process could be obtained"@,
        KillStep::Failed(KillFailure::List) => "the running processes could not be listed"@,
        KillStep::Failed(KillFailure::Terminate) => "the system refused to terminate it"@,
        _ => "the termination was not carried through"@,
    }
}

impl WindowsProcess {
    /// Judges what the termination of the candidate came to, from the step
    /// at which the termination of each process of `kill_order` ended, in
    /// that order.
    ///
    /// The candidate is terminated where every process of the order ended
    /// `Done`. The first that did not, or a process that was left out,
    /// makes it a failure, told with the name of the candidate.
    pub fn kill(&self, ended: &Vec<KillStep>) -> (event: Event)
        ensures
            match first_unfinished(ended@) {
                Some(step) => event matches Event::TerminationFailed(text) && text@ == refusal(
                    self@[0].name,
                    failure_reason(step),
                ),
                None => if ended@.len() == self@.len() {
                    event == Event::Terminated(true)
                } else {
                    event matches Event::TerminationFailed(text) && text@ == refusal(
                        self@[0].name,
                        failure_reason(KillStep::Open),
                    )
                },
            },
    {
        let mut i: usize = 0;
        assert(ended@.take(0) =~= Seq::empty());
        while i < ended.len()
            invariant
                i <= ended.len(),
                first_unfinished(ended@.take(i as int)) is None,
            decreases ended.len() - i,
        {
            assert(ended@.take(i as int + 1).drop_last() =~= ended@.take(i as int));
            let step = ended[i];
            match step {
                KillStep::Done => {},
                _ => {
                    proof {
                        lemma_first_unfinished_stays(ended@, i as int + 1);
                    }
                    return self.refuse(step);
                },
            }
            i += 1;
        }
        assert(ended@.take(i as int) =~= ended@);
        let order = self.kill_order();
        if ended.len() == order.len() {
            Event::Terminated(true)
        } else {
            self.refuse(KillStep::Open)
        }
    }

    fn refuse(&self, step: KillStep) -> (event: Event)
        ensures
            event matches Event::TerminationFailed(text) && text@ == refusal(
                self@[0].name,
                failure_reason(step),
            ),
    {
        let reason = match step {
            KillStep::Failed(KillFailure::Open) => "no handle to the process could be obtained",
            KillStep::Failed(KillFailure::List) => "the running processes could not be listed",
            KillStep::Failed(KillFailure::Terminate) => "the system refused to terminate it",
            _ => "the termination was not carried through",
        };
        Event::TerminationFailed(describe_refusal(self.name.as_str(), reason))
    }
}

/// Once a step has settled the failure, later steps do not change it.
proof fn lemma_first_unfinished_stays(ended: Seq<KillStep>, upto: int)
    requires
        0 <= upto <= ended.len(),
        first_unfinished(ended.take(upto)) is Some,
    ensures
        first_unfinished(ended) == first_unfinished(ended.take(upto)),
    decreases ended.len() - upto,
{
    if upto < ended.len() {
        assert(ended.take(upto + 1).drop_last() =~= ended.take(upto));
        lemma_first_unfinished_stays(ended, upto + 1);
    } else {
        assert(ended.take(upto) =~= ended);
    }
}

} // verus!
