use tabterm::{
    initial_geometry, resolve_home_dir, shell_command, PtyError, ReadOutcome, ReaderEvent,
    SessionReader, SessionTable,
};

fn chunk(s: &[u8]) -> ReadOutcome {
    ReadOutcome::Chunk(s.to_vec())
}

#[test]
fn registered_ids_are_distinct_and_increasing() {
    let mut table: SessionTable<u32> = SessionTable::new();
    let a = table.register(10);
    let b = table.register(20);
    let c = table.register(30);
    assert_eq!(a, "tab-1");
    assert_eq!(b, "tab-2");
    assert_eq!(c, "tab-3");
    assert_eq!(table.next_tab_number(), 4);
    assert_eq!(table.list_ids(), vec![a, b, c]);
}

#[test]
fn allocated_ids_skip_nothing_and_add_no_session() {
    let mut table: SessionTable<u32> = SessionTable::new();
    let a = table.allocate_tab_id();
    assert_eq!(a, "tab-1");
    assert!(table.list_ids().is_empty());
    let b = table.register(5);
    assert_eq!(b, "tab-2");
}

#[test]
fn write_to_unissued_id_is_tab_not_found() {
    let mut table: SessionTable<u32> = SessionTable::new();
    table.register(1);
    match table.write_target("tab-9") {
        Err(PtyError::TabNotFound(s)) => assert_eq!(s, "tab-9"),
        _ => panic!("expected TabNotFound"),
    }
}

#[test]
fn write_after_close_is_tab_not_found() {
    let mut table: SessionTable<u32> = SessionTable::new();
    let a = table.register(1);
    assert_eq!(*table.write_target(&a).ok().unwrap(), 1);
    table.close_tab(&a);
    assert!(matches!(table.write_target(&a), Err(PtyError::TabNotFound(_))));
    table.register(2);
    assert!(matches!(table.write_target(&a), Err(PtyError::TabNotFound(_))));
}

#[test]
fn close_of_unknown_id_changes_nothing() {
    let mut table: SessionTable<u32> = SessionTable::new();
    let a = table.register(7);
    table.close_tab("tab-999");
    assert_eq!(table.list_ids(), vec![a.clone()]);
    assert_eq!(table.get(&a), Some(&7));
}

#[test]
fn remove_hands_the_handle_back_once() {
    let mut table: SessionTable<u32> = SessionTable::new();
    let a = table.register(7);
    let b = table.register(8);
    assert_eq!(table.remove(&a), Some(7));
    assert_eq!(table.remove(&a), None);
    assert_eq!(table.get(&b), Some(&8));
    assert_eq!(table.list_ids(), vec![b]);
}

#[test]
fn writes_go_to_the_named_session_only() {
    let mut table: SessionTable<&str> = SessionTable::new();
    let first = table.register("first");
    let second = table.register("second");
    assert_eq!(*table.write_target(&first).ok().unwrap(), "first");
    assert_eq!(*table.write_target(&second).ok().unwrap(), "second");
}

#[test]
fn output_is_tagged_with_its_own_tab() {
    let mut table: SessionTable<u32> = SessionTable::new();
    let first = table.register(1);
    let second = table.register(2);
    let mut r1 = SessionReader::new(first.clone());
    let mut r2 = SessionReader::new(second.clone());
    match r1.step(&mut table, chunk(b"/home/user\r\n")) {
        Some(ReaderEvent::Data(d)) => {
            assert_eq!(d.tab_id, first);
            assert_eq!(d.data, "/home/user\r\n");
        }
        _ => panic!("expected data"),
    }
    match r2.step(&mut table, chunk(b"$ ")) {
        Some(ReaderEvent::Data(d)) => {
            assert_eq!(d.tab_id, second);
            assert_eq!(d.data, "$ ");
        }
        _ => panic!("expected data"),
    }
}

#[test]
fn invalid_bytes_are_replaced() {
    let mut table: SessionTable<u32> = SessionTable::new();
    let a = table.register(1);
    let mut r = SessionReader::new(a);
    match r.step(&mut table, chunk(&[b'h', b'i', 0xff])) {
        Some(ReaderEvent::Data(d)) => assert_eq!(d.data, "hi\u{fffd}"),
        _ => panic!("expected data"),
    }
    assert!(r.is_running());
}

#[test]
fn end_of_stream_closes_once() {
    let mut table: SessionTable<u32> = SessionTable::new();
    let a = table.register(1);
    let b = table.register(2);
    let mut r = SessionReader::new(a.clone());
    match r.step(&mut table, chunk(b"")) {
        Some(ReaderEvent::Closed(c)) => assert_eq!(c.tab_id, a),
        _ => panic!("expected the closed notice"),
    }
    assert!(!r.is_running());
    assert_eq!(table.list_ids(), vec![b.clone()]);
    assert!(r.step(&mut table, ReadOutcome::Failed).is_none());
    assert!(r.step(&mut table, chunk(b"late")).is_none());
    assert_eq!(table.list_ids(), vec![b]);
}

#[test]
fn read_error_closes_the_session() {
    let mut table: SessionTable<u32> = SessionTable::new();
    let a = table.register(1);
    let mut r = SessionReader::new(a.clone());
    assert!(matches!(r.step(&mut table, ReadOutcome::Failed), Some(ReaderEvent::Closed(_))));
    assert!(table.list_ids().is_empty());
}

#[test]
fn explicit_close_then_end_gives_one_notice_and_no_data() {
    let mut table: SessionTable<u32> = SessionTable::new();
    let a = table.register(1);
    let b = table.register(2);
    let mut r = SessionReader::new(a.clone());
    table.close_tab(&a);
    assert!(r.step(&mut table, chunk(b"buffered")).is_none());
    assert!(r.is_running());
    let mut notices = 0;
    for outcome in [ReadOutcome::Failed, ReadOutcome::Failed, chunk(b"")] {
        if let Some(ReaderEvent::Closed(c)) = r.step(&mut table, outcome) {
            assert_eq!(c.tab_id, a);
            notices += 1;
        }
    }
    assert_eq!(notices, 1);
    assert_eq!(table.list_ids(), vec![b]);
}

#[test]
fn home_directory_falls_back_in_order() {
    assert_eq!(resolve_home_dir(Some("C:\\u".to_string()), Some("/h".to_string())), "C:\\u");
    assert_eq!(resolve_home_dir(None, Some("/h".to_string())), "/h");
    assert_eq!(resolve_home_dir(None, None), ".");
}

#[test]
fn shell_for_each_platform() {
    let w = shell_command(true, "C:\\u".to_string());
    assert_eq!(w.program, "cmd.exe");
    assert!(w.args.is_empty());
    assert_eq!(w.cwd.as_deref(), Some("C:\\u"));
    let u = shell_command(false, "/h".to_string());
    assert_eq!(u.program, "zsh");
    assert_eq!(u.args, vec!["-l".to_string()]);
    assert_eq!(u.cwd.as_deref(), Some("/h"));
    assert_eq!(u.env, vec![("TERM".to_string(), "xterm-256color".to_string())]);
}

#[test]
fn sessions_open_at_twenty_four_by_eighty() {
    let g = initial_geometry();
    assert_eq!((g.rows, g.cols), (24, 80));
}

#[test]
fn listed_ids_stay_in_numeric_order_across_closes() {
    let mut table: SessionTable<u32> = SessionTable::new();
    for n in 0..11 {
        table.register(n);
    }
    table.close_tab("tab-2");
    let again = table.register(99);
    assert_eq!(again, "tab-12");
    let ids = table.list_ids();
    let expected: Vec<String> = (1..13).filter(|n| *n != 2).map(|n| format!("tab-{}", n)).collect();
    assert_eq!(ids, expected);
    assert!(matches!(table.write_target("tab-2"), Err(PtyError::TabNotFound(_))));
}
