use killport::killport::{Event, KillableType};
use killport::port::NetworkPort;
use killport::windows::{
    after_table_call, find_target_processes, get_process_entry_name, is_process_running,
    kill_process, lookup_process_parents, read_table, use_extended_table, ExtendedTables,
    KillFailure, KillOutcome, KillStep, ProcessLookupTable, SnapshotEntry, SnapshotState,
    TableLayout, TableRead, TableRow, WindowsProcess, WindowsProcessesSnapshot,
    ERROR_INSUFFICIENT_BUFFER, MAX_PARENT_DEPTH, NO_ERROR,
};

fn exe(name: &[u8]) -> Vec<u8> {
    let mut buffer = name.to_vec();
    buffer.push(0);
    buffer.extend_from_slice(b"stale bytes");
    buffer
}

fn snapshot_entry(pid: u32, parent_pid: u32, name: &[u8]) -> SnapshotEntry {
    SnapshotEntry {
        pid,
        parent_pid,
        exe_file: exe(name),
    }
}

fn row(port: u16, owning_pid: u32) -> TableRow {
    TableRow {
        local_port: NetworkPort::from_host_order(port),
        owning_pid,
    }
}

fn snapshot() -> Vec<SnapshotEntry> {
    vec![
        snapshot_entry(4, 0, b"System"),
        snapshot_entry(100, 4, b"explorer.exe"),
        snapshot_entry(200, 100, b"wrapper.exe"),
        snapshot_entry(300, 200, b"svc.exe"),
    ]
}

#[test]
fn entry_name_ends_at_the_first_zero_byte() {
    assert_eq!(
        get_process_entry_name(&snapshot_entry(1, 0, b"svc.exe")),
        "svc.exe"
    );
    let unterminated = SnapshotEntry {
        pid: 1,
        parent_pid: 0,
        exe_file: b"abc".to_vec(),
    };
    assert_eq!(get_process_entry_name(&unterminated), "abc");
    let empty = SnapshotEntry {
        pid: 1,
        parent_pid: 0,
        exe_file: vec![0, b'x'],
    };
    assert_eq!(get_process_entry_name(&empty), "");
}

#[test]
fn entry_name_that_is_not_utf8_is_unknown() {
    assert_eq!(
        get_process_entry_name(&snapshot_entry(1, 0, &[0xff, 0xfe, b'a'])),
        "Unknown"
    );
    assert_eq!(
        get_process_entry_name(&snapshot_entry(1, 0, "caf\u{e9}.exe".as_bytes())),
        "caf\u{e9}.exe"
    );
}

#[test]
fn running_process_is_found_in_the_snapshot() {
    let entries = snapshot();
    assert!(is_process_running(&entries, 300));
    assert!(!is_process_running(&entries, 301));
    assert!(!is_process_running(&vec![], 300));
}

#[test]
fn lookup_table_gives_names_and_parents() {
    let table = ProcessLookupTable::create(&snapshot());
    assert_eq!(table.name_of(300), "svc.exe");
    assert_eq!(table.name_of(999), "Unknown");
    assert_eq!(table.parent_of(300), Some(200));
    assert_eq!(table.parent_of(999), None);
}

#[test]
fn later_snapshot_entry_counts_for_a_repeated_identifier() {
    let table = ProcessLookupTable::create(&vec![
        snapshot_entry(7, 1, b"old.exe"),
        snapshot_entry(7, 2, b"new.exe"),
    ]);
    assert_eq!(table.name_of(7), "new.exe");
    assert_eq!(table.parent_of(7), Some(2));
}

#[test]
fn new_process_has_no_parent() {
    let process = WindowsProcess::new(300, "svc.exe".to_string());
    assert_eq!(process.pid(), 300);
    assert_eq!(process.get_name(), "svc.exe");
    assert_eq!(process.get_type(), KillableType::Process);
    assert_eq!(process.kill_order(), vec![300]);
}

#[test]
fn parents_are_recorded_one_hop_up_and_no_further() {
    assert_eq!(MAX_PARENT_DEPTH, 1);
    let table = ProcessLookupTable::create(&snapshot());
    let mut process = WindowsProcess::new(300, "svc.exe".to_string());
    lookup_process_parents(&table, &mut process);
    // 200 is the parent; 100 and 4, further up, are left alone.
    assert_eq!(process.kill_order(), vec![300, 200]);
    assert_eq!(process.get_name(), "svc.exe");
}

#[test]
fn process_the_snapshot_does_not_list_keeps_no_parent() {
    let table = ProcessLookupTable::create(&snapshot());
    let mut process = WindowsProcess::new(999, "Unknown".to_string());
    lookup_process_parents(&table, &mut process);
    assert_eq!(process.kill_order(), vec![999]);
}

#[test]
fn table_walk_collects_each_owner_once() {
    let mut pids = vec![];
    use_extended_table(
        &vec![row(8080, 300), row(80, 100), row(8080, 300), row(8080, 200)],
        8080,
        &mut pids,
    );
    assert_eq!(pids, vec![300, 200]);
    use_extended_table(&vec![row(8080, 200), row(8080, 5)], 8080, &mut pids);
    assert_eq!(pids, vec![300, 200, 5]);
}

#[test]
fn table_walk_converts_the_stored_port() {
    let mut pids = vec![];
    let stored = TableRow {
        local_port: NetworkPort {
            high: 0x1f,
            low: 0x90,
        },
        owning_pid: 1,
    };
    use_extended_table(&vec![stored], 36895, &mut pids);
    assert!(pids.is_empty());
    use_extended_table(&vec![stored], 8080, &mut pids);
    assert_eq!(pids, vec![1]);
}

#[test]
fn owners_are_resolved_over_the_four_tables() {
    let lookup = ProcessLookupTable::create(&snapshot());
    let tables = ExtendedTables {
        tcp4: vec![row(8080, 300), row(443, 100)],
        tcp6: vec![row(8080, 300)],
        udp4: vec![row(8080, 999)],
        udp6: vec![row(8080, 4)],
    };
    let found = find_target_processes(&tables, &lookup, 8080);
    let seen: Vec<(String, Vec<u32>)> = found
        .iter()
        .map(|p| (p.get_name(), p.kill_order()))
        .collect();
    assert_eq!(
        seen,
        vec![
            ("svc.exe".to_string(), vec![300, 200]),
            ("Unknown".to_string(), vec![999]),
            // The snapshot names 0 as the parent of 4, listed or not.
            ("System".to_string(), vec![4, 0]),
        ]
    );
    assert!(find_target_processes(&tables, &lookup, 8081).is_empty());
}

#[test]
fn table_call_is_repeated_only_for_a_small_buffer() {
    assert_eq!(NO_ERROR, 0);
    assert_eq!(ERROR_INSUFFICIENT_BUFFER, 122);
    assert_eq!(after_table_call(0, 4096), TableRead::Walk);
    assert_eq!(after_table_call(122, 8192), TableRead::Retry(8192));
    assert_eq!(after_table_call(5, 4096), TableRead::Fail(5));
    assert_eq!(after_table_call(87, 0), TableRead::Fail(87));
}

#[test]
fn snapshot_iteration_reads_first_then_next_then_ends() {
    let mut snapshot = WindowsProcessesSnapshot::create();
    assert_eq!(snapshot.state(), SnapshotState::First);
    let first = snapshot.next(Some(snapshot_entry(1, 0, b"a")));
    assert_eq!(first.unwrap().pid, 1);
    assert_eq!(snapshot.state(), SnapshotState::Next);
    let second = snapshot.next(Some(snapshot_entry(2, 1, b"b")));
    assert_eq!(second.unwrap().pid, 2);
    assert_eq!(snapshot.state(), SnapshotState::Next);
    assert!(snapshot.next(None).is_none());
    assert_eq!(snapshot.state(), SnapshotState::End);
    // After the end nothing is handed on, whatever a read yields.
    assert!(snapshot.next(Some(snapshot_entry(3, 1, b"c"))).is_none());
    assert_eq!(snapshot.state(), SnapshotState::End);
}

#[test]
fn snapshot_iteration_ends_when_the_first_read_fails() {
    let mut snapshot = WindowsProcessesSnapshot::create();
    assert!(snapshot.next(None).is_none());
    assert_eq!(snapshot.state(), SnapshotState::End);
}

#[test]
fn opened_process_is_terminated() {
    let step = kill_process(300, KillStep::Open, KillOutcome::Opened);
    assert_eq!(step, KillStep::Terminate);
    assert_eq!(
        kill_process(300, step, KillOutcome::Terminated),
        KillStep::Done
    );
    assert_eq!(
        kill_process(300, step, KillOutcome::NotTerminated),
        KillStep::Failed(KillFailure::Terminate)
    );
}

#[test]
fn process_that_had_exited_counts_as_terminated() {
    let step = kill_process(300, KillStep::Open, KillOutcome::NotOpened);
    assert_eq!(step, KillStep::List);
    let gone = vec![snapshot_entry(4, 0, b"System")];
    assert_eq!(
        kill_process(300, step, KillOutcome::Listed(gone)),
        KillStep::Done
    );
    assert_eq!(
        kill_process(300, step, KillOutcome::Listed(snapshot())),
        KillStep::Failed(KillFailure::Open)
    );
    assert_eq!(
        kill_process(300, step, KillOutcome::NotListed),
        KillStep::Failed(KillFailure::List)
    );
}

#[test]
fn outcome_that_was_not_asked_for_fails_the_termination() {
    assert_eq!(
        kill_process(300, KillStep::Open, KillOutcome::Terminated),
        KillStep::Failed(KillFailure::Unexpected)
    );
    assert_eq!(
        kill_process(300, KillStep::Terminate, KillOutcome::Opened),
        KillStep::Failed(KillFailure::Unexpected)
    );
    assert_eq!(
        kill_process(300, KillStep::Done, KillOutcome::NotTerminated),
        KillStep::Done
    );
    assert_eq!(
        kill_process(
            300,
            KillStep::Failed(KillFailure::Open),
            KillOutcome::Terminated
        ),
        KillStep::Failed(KillFailure::Open)
    );
}

#[test]
fn candidate_is_terminated_when_its_whole_order_is_done() {
    let table = ProcessLookupTable::create(&snapshot());
    let mut process = WindowsProcess::new(300, "svc.exe".to_string());
    lookup_process_parents(&table, &mut process);
    assert!(matches!(
        process.kill(&vec![KillStep::Done, KillStep::Done]),
        Event::Terminated(true)
    ));
    match process.kill(&vec![KillStep::Done, KillStep::Failed(KillFailure::Terminate)]) {
        Event::TerminationFailed(text) => assert_eq!(
            text,
            "Failed to kill 'svc.exe': the system refused to terminate it"
        ),
        other => panic!("unexpected event {:?}", other),
    }
    match process.kill(&vec![KillStep::Failed(KillFailure::Open)]) {
        Event::TerminationFailed(text) => assert_eq!(
            text,
            "Failed to kill 'svc.exe': no handle to the process could be obtained"
        ),
        other => panic!("unexpected event {:?}", other),
    }
    // The parent was left out.
    match process.kill(&vec![KillStep::Done]) {
        Event::TerminationFailed(text) => assert_eq!(
            text,
            "Failed to kill 'svc.exe': the termination was not carried through"
        ),
        other => panic!("unexpected event {:?}", other),
    }
}

/// The layout of the TCP table over IPv4: rows of 160 bytes after a header
/// of 8, the port at 8 and the owner at 20.
fn tcp4_layout() -> TableLayout {
    TableLayout {
        rows_offset: 8,
        row_size: 160,
        port_offset: 8,
        pid_offset: 20,
    }
}

fn table_bytes(layout: &TableLayout, rows: &[(u16, u32)]) -> Vec<u8> {
    let mut buffer = vec![0xaau8; layout.rows_offset + rows.len() * layout.row_size];
    buffer[0..4].copy_from_slice(&(rows.len() as u32).to_le_bytes());
    for (i, (port, pid)) in rows.iter().enumerate() {
        let start = layout.rows_offset + i * layout.row_size;
        let at = start + layout.port_offset;
        buffer[at..at + 2].copy_from_slice(&port.to_be_bytes());
        buffer[at + 2..at + 4].copy_from_slice(&[0, 0]);
        let at = start + layout.pid_offset;
        buffer[at..at + 4].copy_from_slice(&pid.to_le_bytes());
    }
    buffer
}

#[test]
fn table_rows_are_read_from_the_buffer() {
    let layout = tcp4_layout();
    let buffer = table_bytes(&layout, &[(8080, 300), (443, 0x01020304), (65535, u32::MAX)]);
    assert_eq!(
        read_table(&buffer, &layout).unwrap(),
        vec![row(8080, 300), row(443, 0x01020304), row(65535, u32::MAX)]
    );
    assert_eq!(
        read_table(&table_bytes(&layout, &[]), &layout).unwrap(),
        vec![]
    );
}

#[test]
fn buffer_longer_than_the_table_is_read_up_to_the_last_row() {
    let layout = tcp4_layout();
    let mut buffer = table_bytes(&layout, &[(8080, 300)]);
    buffer.extend_from_slice(&[0u8; 500]);
    assert_eq!(read_table(&buffer, &layout).unwrap(), vec![row(8080, 300)]);
}

#[test]
fn table_that_does_not_fit_the_buffer_is_not_read() {
    let layout = tcp4_layout();
    let mut buffer = table_bytes(&layout, &[(8080, 300), (8080, 301)]);
    buffer.pop();
    assert!(read_table(&buffer, &layout).is_none());
    // A count that promises more rows than there are bytes.
    let mut lying = table_bytes(&layout, &[(8080, 300)]);
    lying[0..4].copy_from_slice(&u32::MAX.to_le_bytes());
    assert!(read_table(&lying, &layout).is_none());
    assert!(read_table(&vec![1, 0, 0], &layout).is_none());
    assert!(read_table(&vec![], &layout).is_none());
}

#[test]
fn layout_whose_rows_cannot_hold_the_fields_is_not_read() {
    let buffer = table_bytes(&tcp4_layout(), &[(8080, 300)]);
    let narrow = TableLayout {
        rows_offset: 8,
        row_size: 22,
        port_offset: 8,
        pid_offset: 20,
    };
    assert!(read_table(&buffer, &narrow).is_none());
    let early = TableLayout {
        rows_offset: 2,
        row_size: 160,
        port_offset: 8,
        pid_offset: 20,
    };
    assert!(read_table(&buffer, &early).is_none());
    let empty_rows = TableLayout {
        rows_offset: 8,
        row_size: 0,
        port_offset: 0,
        pid_offset: 0,
    };
    assert!(read_table(&buffer, &empty_rows).is_none());
}

#[test]
fn rows_read_from_the_buffer_give_the_owners() {
    let layout = tcp4_layout();
    let buffer = table_bytes(&layout, &[(8080, 300), (80, 5), (8080, 300), (8080, 7)]);
    let rows = read_table(&buffer, &layout).unwrap();
    let mut pids = vec![];
    use_extended_table(&rows, 8080, &mut pids);
    assert_eq!(pids, vec![300, 7]);
}
