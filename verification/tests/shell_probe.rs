use viberot::platform::{ProcessLifecycleEvent, ProbeSource};
use viberot::shell_probe::{
    extract_json_messages, socket_path_for, ShellEventType, ShellMessage, ShellSessionTracker,
    SyntheticPidAllocator, SYNTHETIC_PID_FLOOR,
};

fn start_message(session: &str, command_b64: Option<&str>, command: Option<&str>) -> ShellMessage {
    ShellMessage {
        session_id: session.to_string(),
        event_type: ShellEventType::CommandStart,
        command: command.map(|s| s.to_string()),
        command_b64: command_b64.map(|s| s.to_string()),
        exit_code: None,
        working_directory: None,
        working_directory_b64: None,
        environment: None,
    }
}

fn end_message(session: &str, exit_code: i64) -> ShellMessage {
    ShellMessage {
        session_id: session.to_string(),
        event_type: ShellEventType::CommandEnd,
        command: None,
        command_b64: None,
        exit_code: Some(exit_code),
        working_directory: None,
        working_directory_b64: None,
        environment: None,
    }
}

#[test]
fn command_start_decodes_base64_and_allocates_pid() {
    let mut tracker = ShellSessionTracker::new();
    let ev = tracker
        .handle_shell_message(start_message("S", Some("Y2FyZ28gYnVpbGQ="), None))
        .unwrap();
    match ev {
        ProcessLifecycleEvent::Started(e) => {
            assert_eq!(e.command, "cargo build");
            assert!(e.pid >= SYNTHETIC_PID_FLOOR);
            assert_eq!(e.shell_session_id.as_deref(), Some("S"));
            assert!(matches!(e.probe_source, ProbeSource::PosixShell));
        }
        ProcessLifecycleEvent::Ended { .. } => panic!("expected a Started event"),
    }
}

#[test]
fn command_end_carries_the_stored_pid() {
    let mut tracker = ShellSessionTracker::new();
    let started = tracker
        .handle_shell_message(start_message("S", Some("Y2FyZ28gYnVpbGQ="), None))
        .unwrap();
    let start_pid = match started {
        ProcessLifecycleEvent::Started(e) => e.pid,
        ProcessLifecycleEvent::Ended { .. } => panic!("expected a Started event"),
    };
    let ended = tracker.handle_shell_message(end_message("S", 0)).unwrap();
    match ended {
        ProcessLifecycleEvent::Ended { pid } => assert_eq!(pid, start_pid),
        ProcessLifecycleEvent::Started(_) => panic!("expected an Ended event"),
    }
    // the session is forgotten: a second end is dropped
    assert!(tracker.handle_shell_message(end_message("S", 0)).is_none());
}

#[test]
fn unknown_session_end_is_dropped() {
    let mut tracker = ShellSessionTracker::new();
    assert!(tracker.handle_shell_message(end_message("nobody", 1)).is_none());
}

#[test]
fn decode_failure_falls_back_to_plain_command() {
    let mut tracker = ShellSessionTracker::new();
    let ev = tracker
        .handle_shell_message(start_message("S", Some("!!!not base64!!!"), Some("fallback cmd")))
        .unwrap();
    match ev {
        ProcessLifecycleEvent::Started(e) => assert_eq!(e.command, "fallback cmd"),
        ProcessLifecycleEvent::Ended { .. } => panic!("expected a Started event"),
    }
    let ev2 = tracker
        .handle_shell_message(start_message("T", Some("!!!not base64!!!"), None))
        .unwrap();
    match ev2 {
        ProcessLifecycleEvent::Started(e) => assert_eq!(e.command, "<decode error>"),
        ProcessLifecycleEvent::Ended { .. } => panic!("expected a Started event"),
    }
    let ev3 = tracker.handle_shell_message(start_message("U", None, None)).unwrap();
    match ev3 {
        ProcessLifecycleEvent::Started(e) => assert_eq!(e.command, "<unknown command>"),
        ProcessLifecycleEvent::Ended { .. } => panic!("expected a Started event"),
    }
}

#[test]
fn working_directory_is_decoded() {
    let mut tracker = ShellSessionTracker::new();
    let mut msg = start_message("S", Some("bHM="), None);
    msg.working_directory_b64 = Some("L2hvbWUvdXNlcg==".to_string());
    let ev = tracker.handle_shell_message(msg).unwrap();
    match ev {
        ProcessLifecycleEvent::Started(e) => {
            assert_eq!(e.command, "ls");
            assert_eq!(e.working_directory.as_deref(), Some("/home/user"));
        }
        ProcessLifecycleEvent::Ended { .. } => panic!("expected a Started event"),
    }
}

#[test]
fn synthetic_pids_are_unique_and_partitioned() {
    let mut alloc = SyntheticPidAllocator::new();
    let a = alloc.generate_synthetic_pid();
    let b = alloc.generate_synthetic_pid();
    let c = alloc.generate_synthetic_pid();
    assert!(a >= 1_000_000 && b >= 1_000_000 && c >= 1_000_000);
    assert!(a != b && b != c && a != c);
    assert_eq!(b, a + 1);
}

#[test]
fn pids_stay_unique_across_sessions() {
    let mut tracker = ShellSessionTracker::new();
    let mut pids = Vec::new();
    for session in ["a", "b", "c", "d"] {
        let ev = tracker
            .handle_shell_message(start_message(session, Some("bHM="), None))
            .unwrap();
        match ev {
            ProcessLifecycleEvent::Started(e) => pids.push(e.pid),
            ProcessLifecycleEvent::Ended { .. } => panic!("expected a Started event"),
        }
    }
    for i in 0..pids.len() {
        assert!(pids[i] >= SYNTHETIC_PID_FLOOR);
        for j in (i + 1)..pids.len() {
            assert_ne!(pids[i], pids[j]);
        }
    }
}

#[test]
fn framing_extracts_complete_lines() {
    let mut buffer = "{\"a\":1}\n{\"b\":2}\npartial".to_string();
    let msgs = extract_json_messages(&mut buffer);
    assert_eq!(msgs, vec!["{\"a\":1}".to_string(), "{\"b\":2}".to_string()]);
    assert_eq!(buffer, "partial");
}

#[test]
fn framing_keeps_incomplete_fragments() {
    let mut buffer = "not json\n{\"ok\":true}\n{half".to_string();
    let msgs = extract_json_messages(&mut buffer);
    assert_eq!(msgs, vec!["{\"ok\":true}".to_string()]);
    assert_eq!(buffer, "not json\n{half");
}

#[test]
fn framing_skips_blank_lines_and_trims() {
    let mut buffer = "\n  \n  {\"x\":0}  \r\n".to_string();
    let msgs = extract_json_messages(&mut buffer);
    assert_eq!(msgs, vec!["{\"x\":0}".to_string()]);
    assert_eq!(buffer, "");
}

#[test]
fn framing_takes_a_line_without_trailing_newline() {
    let mut buffer = "{\"x\":0}".to_string();
    let msgs = extract_json_messages(&mut buffer);
    assert_eq!(msgs, vec!["{\"x\":0}".to_string()]);
    assert_eq!(buffer, "");
}

#[test]
fn framing_on_empty_buffer() {
    let mut buffer = String::new();
    let msgs = extract_json_messages(&mut buffer);
    assert!(msgs.is_empty());
    assert_eq!(buffer, "");
}

#[test]
fn socket_path_honors_runtime_dir() {
    assert_eq!(
        socket_path_for(Some("/run/user/1000".to_string())),
        "/run/user/1000/viberot-shell.sock"
    );
    assert_eq!(socket_path_for(None), "/tmp/viberot-shell.sock");
}
