use sedock::check::{
    apparmor_label, cgroup_version_label, check_ntp_sync, default_since, format_uptime,
    parse_version_plain, selinux_enforce_label,
};
use sedock::event::{
    assemble_event, classify, text_header, text_row, compose_event, create_event, truncate_string, EventDeduplicator,
    FAN_ACCESS, FAN_MODIFY, FAN_OPEN,
};
use sedock::fanotify::{decode_batch, subscription_mask, BatchEnd, Monitor, RawEvent};
use sedock::process::{get_process_info, startup_check, status_read_error, BinPathCache};
use sedock::types::{EventType, ProcessInfo, SedockerError};

fn record(event_len: u32, version: u8, mask: u64, fd: i32, pid: i32) -> Vec<u8> {
    let mut b = Vec::new();
    b.extend_from_slice(&event_len.to_le_bytes());
    b.push(version);
    b.push(0);
    b.extend_from_slice(&24u16.to_le_bytes());
    b.extend_from_slice(&mask.to_le_bytes());
    b.extend_from_slice(&fd.to_le_bytes());
    b.extend_from_slice(&pid.to_le_bytes());
    b
}

fn info(pid: i32, exe: &str) -> ProcessInfo {
    ProcessInfo { pid, uid: 0, gid: 0, container_pid: None, comm: "cat".into(), exe: exe.into() }
}

#[test]
fn classification_first_rule_wins() {
    assert_eq!(classify(FAN_MODIFY | FAN_OPEN), EventType::Write);
    assert_eq!(classify(FAN_OPEN | FAN_ACCESS), EventType::Open);
    assert_eq!(classify(FAN_ACCESS), EventType::Read);
    assert_eq!(classify(0), EventType::Read);
    assert_eq!(EventType::Write.label(), "WRITE");
    assert_eq!(EventType::Modify.label(), "MODIFY");
}

#[test]
fn dedup_twice_gives_false_then_true() {
    let mut d = EventDeduplicator::new();
    assert!(!d.is_duplicate(1, 1, "/d/a.txt"));
    assert!(d.is_duplicate(1, 1, "/d/a.txt"));
    assert!(!d.is_duplicate(1, 2, "/d/a.txt"));
    assert!(!d.is_duplicate(2, 2, "/d/a.txt"));
    assert!(!d.is_duplicate(2, 2, "/d/b.txt"));
}

#[test]
fn fresh_dedup_does_not_match_zero_key() {
    let mut d = EventDeduplicator::new();
    assert!(!d.is_duplicate(0, 0, ""));
}

#[test]
fn batch_decodes_records_in_order() {
    let mut buf = record(24, 3, FAN_OPEN, 5, 100);
    buf.extend(record(24, 3, FAN_ACCESS, 6, 100));
    let n = buf.len();
    buf.resize(16384, 0);
    let d = decode_batch(&buf, n);
    assert_eq!(d.end, BatchEnd::Complete);
    assert_eq!(d.events, vec![
        RawEvent { event_len: 24, version: 3, mask: FAN_OPEN, fd: 5, pid: 100 },
        RawEvent { event_len: 24, version: 3, mask: FAN_ACCESS, fd: 6, pid: 100 },
    ]);
}

#[test]
fn batch_stops_at_version_mismatch() {
    let mut buf = record(24, 3, FAN_MODIFY, 5, 1);
    buf.extend(record(24, 2, FAN_ACCESS, 6, 1));
    buf.extend(record(24, 3, FAN_ACCESS, 7, 1));
    let d = decode_batch(&buf, buf.len());
    assert_eq!(d.end, BatchEnd::VersionMismatch);
    assert_eq!(d.events.len(), 1);
    assert_eq!(d.events[0].fd, 5);
}

#[test]
fn batch_stops_at_malformed_record() {
    let buf = record(8, 3, FAN_ACCESS, 5, 1);
    let d = decode_batch(&buf, buf.len());
    assert_eq!(d.end, BatchEnd::Malformed);
    assert!(d.events.is_empty());
    let buf = record(24, 3, FAN_ACCESS, 5, 1);
    let d = decode_batch(&buf, 20);
    assert_eq!(d.end, BatchEnd::Malformed);
    let d = decode_batch(&buf, 0);
    assert_eq!(d.end, BatchEnd::Complete);
    assert!(d.events.is_empty());
}

#[test]
fn subscription_mask_value() {
    assert_eq!(subscription_mask(), 0x0800_0023);
}

#[test]
fn repeated_reads_collapse_with_dedup_on() {
    let ev = RawEvent { event_len: 24, version: 3, mask: FAN_ACCESS, fd: 9, pid: 300 };
    let mut on = Monitor::new(true);
    let mut off = Monitor::new(false);
    let mut emitted_on = 0;
    let mut emitted_off = 0;
    for _ in 0..5 {
        let snap: Result<ProcessInfo, SedockerError> = Ok(info(300, "/usr/bin/cat"));
        let a = on.decide(&ev, "/d/a.txt", &snap);
        let b = off.decide(&ev, "/d/a.txt", &snap);
        assert_eq!(a.close_fd, 9);
        assert_eq!(b.close_fd, 9);
        emitted_on += a.emit as u32;
        emitted_off += b.emit as u32;
    }
    assert_eq!(emitted_on, 1);
    assert_eq!(emitted_off, 5);
}

#[test]
fn failed_snapshot_is_skipped_but_fd_released() {
    let ev = RawEvent { event_len: 24, version: 3, mask: FAN_ACCESS, fd: 11, pid: 5 };
    let mut m = Monitor::new(true);
    let snap: Result<ProcessInfo, SedockerError> = Err(SedockerError::System("boom".into()));
    let d = m.decide(&ev, "/d/a.txt", &snap);
    assert!(!d.emit);
    assert_eq!(d.close_fd, 11);
    let gone: Result<ProcessInfo, SedockerError> = Err(SedockerError::ProcessGone(5));
    assert!(m.decide(&ev, "/d/a.txt", &gone).emit);
}

#[test]
fn gone_process_uses_cached_path() {
    let ev = RawEvent { event_len: 24, version: 3, mask: FAN_OPEN, fd: 3, pid: 77 };
    let mut m = Monitor::new(false);
    let snap: Result<ProcessInfo, SedockerError> = Ok(info(77, "/usr/bin/head"));
    m.decide(&ev, "/d/a.txt", &snap);
    assert_eq!(m.cached_path(77), Some("/usr/bin/head".to_string()));
    assert_eq!(m.cached_path(78), None);
    let bins = BinPathCache::new(vec![("head".into(), "/usr/bin/head".into())]);
    assert_eq!(m.adopt_fetched(78, "[78]".into(), &bins), "[78]");
    assert_eq!(m.cached_path(78), None);
    assert_eq!(m.adopt_fetched(79, "/bin/sh".into(), &bins), "/bin/sh");
    assert_eq!(m.cached_path(79), Some("/bin/sh".to_string()));
    assert_eq!(m.adopt_fetched(80, "head".into(), &bins), "/usr/bin/head");
    assert_eq!(m.cached_path(80), Some("/usr/bin/head".to_string()));
    assert_eq!(m.adopt_fetched(81, "tail".into(), &bins), "tail");
    assert_eq!(m.cached_path(81), None);
}

#[test]
fn only_absolute_paths_are_cached() {
    let ev = RawEvent { event_len: 24, version: 3, mask: FAN_OPEN, fd: 3, pid: 90 };
    let mut m = Monitor::new(false);
    let snap: Result<ProcessInfo, SedockerError> = Ok(info(90, "cat"));
    m.decide(&ev, "/d/a.txt", &snap);
    assert_eq!(m.cached_path(90), None);
    let snap: Result<ProcessInfo, SedockerError> = Ok(info(90, "[90]"));
    m.decide(&ev, "/d/a.txt", &snap);
    assert_eq!(m.cached_path(90), None);
}

#[test]
fn bracketed_bare_name_resolves_itself() {
    let c = BinPathCache::new(vec![
        ("[abc".into(), "/usr/bin/[abc".into()),
        ("cat".into(), "/usr/bin/cat".into()),
        ("[".into(), "/usr/bin/[".into()),
    ]);
    let status = "Name:\tcat\nUid:\t0\n";
    assert_eq!(get_process_info(5, status, "[abc".into(), &c).exe, "/usr/bin/[abc");
    assert_eq!(get_process_info(5, status, "[zzz".into(), &c).exe, "[zzz");
    assert_eq!(get_process_info(5, status, "[".into(), &c).exe, "/usr/bin/[");
    assert_eq!(get_process_info(5, status, "[6]".into(), &c).exe, "[6]");
    assert_eq!(get_process_info(5, status, "[5]".into(), &c).exe, "/usr/bin/cat");
}

#[test]
fn gone_process_record_has_zero_ids() {
    let e = compose_event(FAN_ACCESS, 77, "/d/a.txt".into(), None, "[77]".into(), None, "t".into());
    assert_eq!(e.event_type, "READ");
    assert_eq!((e.uid, e.gid, e.container_pid), (0, 0, None));
    assert_eq!(e.process_path, "[77]");
    assert_eq!(e.file_path, "/d/a.txt");
    assert_eq!(e.timestamp, "t");
}

#[test]
fn record_takes_snapshot_identity() {
    let mut i = info(42111, "/usr/bin/vim");
    i.uid = 1000;
    i.gid = 1000;
    i.container_pid = Some(17);
    let e = compose_event(FAN_MODIFY, 42111, "/srv/data/notes.txt".into(), Some(i), "x".into(),
        Some("a1b2c3d4e5f6".into()), "2025-01-15 09:41:12".into());
    assert_eq!(e.event_type, "WRITE");
    assert_eq!((e.pid, e.container_pid, e.uid, e.gid), (42111, Some(17), 1000, 1000));
    assert_eq!(e.process_path, "/usr/bin/vim");
    assert_eq!(e.container_id, Some("a1b2c3d4e5f6".to_string()));
}

#[test]
fn created_event_has_a_timestamp() {
    let e = create_event(EventType::Open, 1, None, 0, 0, "/bin/cat".into(), "/d/a".into(), None);
    assert_eq!(e.event_type, "OPEN");
    assert_eq!(e.timestamp.len(), 19);
    assert_eq!(&e.timestamp[4..5], "-");
    let a = assemble_event(EventType::Read, "x".into(), 1, None, 0, 0, "p".into(), "f".into(), None);
    assert_eq!(a.timestamp, "x");
}

#[test]
fn truncation_keeps_the_end() {
    assert_eq!(truncate_string("/usr/bin/cat", 25), "/usr/bin/cat");
    let long = "/very/long/path/to/some/binary/name";
    let t = truncate_string(long, 25);
    assert_eq!(t, "...th/to/some/binary/name");
    assert_eq!(t.chars().count(), 25);
    assert_eq!(truncate_string("abcd", 3), "...");
}

#[test]
fn bin_cache_first_entry_wins() {
    let c = BinPathCache::new(vec![
        ("cat".into(), "/usr/bin/cat".into()),
        ("ls".into(), "/bin/ls".into()),
        ("cat".into(), "/bin/cat".into()),
    ]);
    assert_eq!(c.resolve("cat"), Some("/usr/bin/cat"));
    assert_eq!(c.resolve("cat"), Some("/usr/bin/cat"));
    assert_eq!(c.resolve("ls"), Some("/bin/ls"));
    assert_eq!(c.resolve("vim"), None);
}

#[test]
fn snapshot_resolves_names_through_cache() {
    let c = BinPathCache::new(vec![("head".into(), "/usr/bin/head".into())]);
    let status = "Name:\thead\nUid:\t0\t0\t0\t0\nGid:\t0\t0\t0\t0\nNSpid:\t99\n";
    let p = get_process_info(99, status, "[99]".into(), &c);
    assert_eq!(p.exe, "/usr/bin/head");
    assert_eq!((p.pid, p.uid, p.gid, p.container_pid), (99, 0, 0, None));
    let p = get_process_info(99, status, "head".into(), &c);
    assert_eq!(p.exe, "/usr/bin/head");
    let p = get_process_info(99, status, "other".into(), &c);
    assert_eq!(p.exe, "other");
    let p = get_process_info(99, "Uid:\t0\n", "[99]".into(), &c);
    assert_eq!(p.exe, "[99]");
    let p = get_process_info(99, status, "/opt/head".into(), &c);
    assert_eq!(p.exe, "/opt/head");
}

#[test]
fn read_errors_classified() {
    assert!(matches!(status_read_error(5, true, None, "m".into()), SedockerError::ProcessGone(5)));
    assert!(matches!(status_read_error(5, false, Some(3), "m".into()), SedockerError::ProcessGone(5)));
    match status_read_error(5, false, Some(13), "m".into()) {
        SedockerError::System(m) => assert_eq!(m, "m"),
        _ => panic!("expected a system error"),
    }
}

#[test]
fn startup_requires_directory_then_root() {
    match startup_check("/nope", false, 0) {
        Err(SedockerError::System(m)) => assert_eq!(m, "Directory does not exist: /nope"),
        _ => panic!("expected a missing directory"),
    }
    match startup_check("/tmp", true, 1000) {
        Err(SedockerError::Permission(m)) => assert!(m.contains("root privileges")),
        _ => panic!("expected a privilege error"),
    }
    assert!(startup_check("/tmp", true, 0).is_ok());
}

#[test]
fn version_plain_server_section() {
    let out = "Client:\n Version:  20.10.5\n API version: 1.41\n\nServer: Docker Engine\n Engine:\n  Version:          24.0.7\n  API version:      1.43 (minimum version 1.12)\n  Go version:       go1.20.10\n  Built:            Thu Oct 26 09:08:17 2023\n  OS/Arch:          linux/amd64\n";
    let v = parse_version_plain(out).ok().unwrap();
    assert_eq!(v.server_version, "24.0.7");
    assert_eq!(v.api_version, "1.43 (minimum version 1.12)");
    assert_eq!(v.go_version, "go1.20.10");
    assert_eq!(v.os_arch, "linux/amd64");
    assert_eq!(v.build_time, "Thu Oct 26 09:08:17 2023");
}

#[test]
fn version_plain_without_server_fails() {
    assert!(matches!(parse_version_plain("Client:\n Version: 1.0\n"), Err(SedockerError::Parse(_))));
    assert!(matches!(parse_version_plain(""), Err(SedockerError::Parse(_))));
}

#[test]
fn uptime_text() {
    assert_eq!(format_uptime(0), "0m");
    assert_eq!(format_uptime(3599), "59m");
    assert_eq!(format_uptime(3600 + 120), "1h 2m");
    assert_eq!(format_uptime(2 * 86400 + 5 * 60), "2d 0h 5m");
}

#[test]
fn host_labels() {
    assert_eq!(default_since(), "24h");
    assert_eq!(cgroup_version_label(true, true), "v2");
    assert_eq!(cgroup_version_label(false, true), "v1");
    assert_eq!(cgroup_version_label(false, false), "unknown");
    assert_eq!(apparmor_label(false, true), "enabled");
    assert_eq!(apparmor_label(false, false), "disabled");
    assert_eq!(selinux_enforce_label("1\n"), "enforcing");
    assert_eq!(selinux_enforce_label("0"), "permissive");
    assert_eq!(selinux_enforce_label("2"), "unknown");
    assert!(check_ntp_sync(Some("System clock synchronized: yes"), false));
    assert!(!check_ntp_sync(Some("NTP synchronized: no"), true));
    assert!(check_ntp_sync(Some("nothing"), true));
    assert!(!check_ntp_sync(None, false));
}

fn run_batch(buf: &Vec<u8>, statuses: &dyn Fn(i32) -> Result<ProcessInfo, SedockerError>, cgroup: &str, path: &str) -> Vec<sedock::types::FileAccessEvent> {
    let mut m = Monitor::new(true);
    let d = decode_batch(buf, buf.len());
    let mut out = Vec::new();
    for ev in &d.events {
        let snap = statuses(ev.pid);
        let decision = m.decide(ev, path, &snap);
        assert_eq!(decision.close_fd, ev.fd);
        if decision.emit {
            let cid = sedock::container::get_container_id(cgroup);
            let (info, fallback) = match snap {
                Ok(i) => (Some(i), String::new()),
                Err(_) => (None, m.cached_path(ev.pid).unwrap_or_else(|| m.adopt_fetched(ev.pid, format!("[{}]", ev.pid), &BinPathCache::new(vec![])))),
            };
            out.push(compose_event(ev.mask, ev.pid, path.to_string(), info, fallback, cid, "t".into()));
        }
    }
    out
}

fn root_cat(pid: i32) -> Result<ProcessInfo, SedockerError> {
    let c = BinPathCache::new(vec![("cat".into(), "/usr/bin/cat".into())]);
    Ok(get_process_info(pid, "Name:\tcat\nNSpid:\t4000\nUid:\t0\t0\t0\t0\nGid:\t0\t0\t0\t0\n", "/usr/bin/cat".into(), &c))
}

#[test]
fn read_event_scenario() {
    let mut buf = record(24, 3, FAN_OPEN, 5, 4000);
    buf.extend(record(24, 3, FAN_ACCESS, 5, 4000));
    let out = run_batch(&buf, &root_cat, "0::/user.slice\n", "/tmp/D/a.txt");
    let kinds: Vec<&str> = out.iter().map(|e| e.event_type.as_str()).collect();
    assert_eq!(kinds, vec!["OPEN", "READ"]);
    for e in &out {
        assert!(e.file_path.ends_with("/a.txt"));
        assert_eq!(e.process_path, "/usr/bin/cat");
        assert_eq!((e.uid, e.gid, e.container_id.clone()), (0, 0, None));
    }
}

#[test]
fn write_event_scenario() {
    let buf = record(24, 3, FAN_MODIFY, 6, 4000);
    let out = run_batch(&buf, &root_cat, "", "/tmp/D/b.txt");
    assert_eq!(out.len(), 1);
    assert_eq!(out[0].event_type, "WRITE");
    assert_eq!(out[0].file_path, "/tmp/D/b.txt");
}

#[test]
fn process_gone_scenario() {
    let buf = record(24, 3, FAN_ACCESS, 6, 4100);
    let gone = |pid: i32| -> Result<ProcessInfo, SedockerError> { Err(SedockerError::ProcessGone(pid)) };
    let out = run_batch(&buf, &gone, "", "/tmp/D/a.txt");
    assert_eq!(out.len(), 1);
    assert_eq!(out[0].process_path, "[4100]");
    assert_eq!((out[0].uid, out[0].gid), (0, 0));
}

#[test]
fn containerized_process_scenario() {
    let hex = "0123456789abcdef0123456789abcdef0123456789abcdef0123456789abcdef";
    let cgroup = format!("0::/system.slice/docker/{}\n", hex);
    let inner = |pid: i32| -> Result<ProcessInfo, SedockerError> {
        let c = BinPathCache::new(vec![]);
        Ok(get_process_info(pid, "Name:\tcat\nNSpid:\t5000\t1\nUid:\t0\t0\t0\t0\nGid:\t0\t0\t0\t0\n", "/bin/cat".into(), &c))
    };
    let out = run_batch(&record(24, 3, FAN_ACCESS, 7, 5000), &inner, &cgroup, "/mounted/D/c.txt");
    assert_eq!(out[0].container_id, Some("0123456789ab".to_string()));
    assert_eq!(out[0].container_pid, Some(1));
}

#[test]
fn text_rows_match_the_table_layout() {
    let e = assemble_event(EventType::Write, "t".into(), 42111, Some(17), 1000, 1000,
        "/usr/bin/vim".into(), "/srv/data/notes.txt".into(), Some("a1b2c3d4e5f6".into()));
    let want = format!("[{:<5}] {:<13} {:<5} {:<5} {:<25} {:<15} {}",
        "WRITE", "42111/17", 1000, 1000, "/usr/bin/vim", "a1b2c3d4e5f6", "/srv/data/notes.txt");
    assert_eq!(text_row(&e), want);
    let e = assemble_event(EventType::Read, "t".into(), 7, None, 0, 0,
        "/very/long/path/to/some/binary/name".into(), "/d/a.txt".into(), None);
    assert_eq!(text_row(&e), "[READ ] 7             0     0     ...th/to/some/binary/name -               /d/a.txt");
    let (names, rule) = text_header();
    assert_eq!(names, format!("{:<7} {:<13} {:<5} {:<5} {:<25} {:<15} {}",
        "EVENT", "PID(H/C)", "UID", "GID", "PROCESS_PATH", "CONTAINER", "FILE_PATH"));
    assert_eq!(rule, "-".repeat(130));
}

#[test]
fn process_cache_holds_at_most_its_capacity() {
    let mut m = Monitor::new(false);
    for pid in 0..1100 {
        let ev = RawEvent { event_len: 24, version: 3, mask: FAN_OPEN, fd: 3, pid };
        let snap: Result<ProcessInfo, SedockerError> = Ok(info(pid, "/bin/x"));
        m.decide(&ev, "/d", &snap);
    }
    let kept = (0..1100).filter(|p| m.cached_path(*p).is_some()).count();
    assert_eq!(kept, sedock::fanotify::PROCESS_CACHE_CAPACITY);
    assert_eq!(m.cached_path(0), None);
    assert_eq!(m.cached_path(1099), Some("/bin/x".to_string()));
}
