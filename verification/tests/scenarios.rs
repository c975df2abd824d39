use viberot::action_orchestrator::{ActionOrchestrator, ChildHandle, ResolveContext};
use viberot::config::{Action, Actions, Commands, Config, Rule};
use viberot::config_watcher::{paths_include_config, ConfigStore};
use viberot::event_bus;
use viberot::platform::{
    ended_event, started_event_from_lookup, ProbeSource, ProcessEvent, ProcessLifecycleEvent,
};
use viberot::rule_engine::RuleEngine;
use viberot::strutil::{u32_to_string, u64_to_string};
use viberot::supervisor::{handle_lifecycle_event, SupervisorOutcome};

fn one_rule_config(pattern: &str, action: Action) -> Config {
    Config {
        rules: vec![Rule {
            command: Commands::Single(pattern.to_string()),
            action: Actions::Single(action),
        }],
        viberot_home: None,
    }
}

fn started(pid: u32, command: &str) -> ProcessLifecycleEvent {
    ProcessLifecycleEvent::Started(ProcessEvent::new(
        pid,
        command.to_string(),
        ProbeSource::KernelTrace,
    ))
}

#[test]
fn single_instance_overlay_lifecycle() {
    let config = one_rule_config(
        "*cargo build*",
        Action::Executable { path: "overlay".to_string(), args: None, single_instance: true },
    );
    let mut engine = RuleEngine::new();
    let mut orch = ActionOrchestrator::new();
    let ctx = ResolveContext { viberot_root: Some("/opt/viberot".to_string()), env_vars: vec![] };

    // Started{pid=42}: one child spawned, env VIBEROT_PID="42", key claimed
    let outcome = handle_lifecycle_event(
        &mut engine,
        &mut orch,
        started(42, "sh -c cargo build --release"),
        &config,
        &ctx,
    );
    let batch = match outcome {
        SupervisorOutcome::Launched(b) => b,
        SupervisorOutcome::Released(_) => panic!("expected a launch decision"),
    };
    assert_eq!(batch.spawns.len(), 1);
    assert!(batch.errors.is_empty());
    let spawn = &batch.spawns[0];
    assert!(spawn.env.iter().any(|e| e.name == "VIBEROT_PID" && e.value == "42"));
    assert_eq!(orch.running_single_instance_actions, vec!["exec:overlay:".to_string()]);
    let pid = spawn.pid;
    let action = spawn.action.clone();
    orch.register_spawned(pid, action, ChildHandle { id: 10 });

    // a second matching Started spawns nothing and leaves the key set alone
    let outcome2 =
        handle_lifecycle_event(&mut engine, &mut orch, started(43, "cargo build"), &config, &ctx);
    match outcome2 {
        SupervisorOutcome::Launched(b) => assert!(b.spawns.is_empty() && b.errors.is_empty()),
        SupervisorOutcome::Released(_) => panic!("expected a launch decision"),
    }
    assert_eq!(orch.running_single_instance_actions.len(), 1);

    // Ended{pid=42}: the child is released, the key removed
    let outcome3 = handle_lifecycle_event(
        &mut engine,
        &mut orch,
        ProcessLifecycleEvent::Ended { pid: 42 },
        &config,
        &ctx,
    );
    match outcome3 {
        SupervisorOutcome::Released(removed) => {
            assert_eq!(removed.len(), 1);
            assert_eq!(removed[0].child, ChildHandle { id: 10 });
        }
        SupervisorOutcome::Launched(_) => panic!("expected a release decision"),
    }
    assert!(orch.active_actions.is_empty());
    assert!(orch.running_single_instance_actions.is_empty());

    // Ended{pid=43}: nothing was bound, a no-op
    let outcome4 = handle_lifecycle_event(
        &mut engine,
        &mut orch,
        ProcessLifecycleEvent::Ended { pid: 43 },
        &config,
        &ctx,
    );
    match outcome4 {
        SupervisorOutcome::Released(removed) => assert!(removed.is_empty()),
        SupervisorOutcome::Launched(_) => panic!("expected a release decision"),
    }
}

#[test]
fn multi_action_binding() {
    let config = Config {
        rules: vec![Rule {
            command: Commands::Single("*make*".to_string()),
            action: Actions::Multiple(vec![
                Action::Executable { path: "a".to_string(), args: None, single_instance: false },
                Action::Executable { path: "b".to_string(), args: None, single_instance: true },
            ]),
        }],
        viberot_home: None,
    };
    let mut engine = RuleEngine::new();
    let mut orch = ActionOrchestrator::new();
    let ctx = ResolveContext { viberot_root: Some("/r".to_string()), env_vars: vec![] };
    let outcome = handle_lifecycle_event(&mut engine, &mut orch, started(7, "make all"), &config, &ctx);
    let batch = match outcome {
        SupervisorOutcome::Launched(b) => b,
        SupervisorOutcome::Released(_) => panic!("expected a launch decision"),
    };
    assert_eq!(batch.spawns.len(), 2);
    assert_eq!(orch.running_single_instance_actions, vec!["exec:b:".to_string()]);
    let mut id: u64 = 1;
    for spawn in batch.spawns {
        let pid = spawn.pid;
        orch.register_spawned(pid, spawn.action, ChildHandle { id });
        id += 1;
    }
    let outcome2 = handle_lifecycle_event(
        &mut engine,
        &mut orch,
        ProcessLifecycleEvent::Ended { pid: 7 },
        &config,
        &ctx,
    );
    match outcome2 {
        SupervisorOutcome::Released(removed) => assert_eq!(removed.len(), 2),
        SupervisorOutcome::Launched(_) => panic!("expected a release decision"),
    }
    assert!(orch.running_single_instance_actions.is_empty());
}

#[test]
fn hot_reload_changes_future_matches_only() {
    let tool = Action::Executable { path: "tool".to_string(), args: None, single_instance: false };
    let initial = one_rule_config("ls*", tool.clone());
    let replacement = one_rule_config("echo*", tool);
    assert_ne!(initial.fingerprint(), replacement.fingerprint());

    let mut store = ConfigStore::new(initial);
    let mut engine = RuleEngine::new();
    let mut orch = ActionOrchestrator::new();
    let ctx = ResolveContext { viberot_root: Some("/r".to_string()), env_vars: vec![] };

    // under the initial config, "ls" launches the action
    let outcome =
        handle_lifecycle_event(&mut engine, &mut orch, started(1, "ls"), store.snapshot(), &ctx);
    let batch = match outcome {
        SupervisorOutcome::Launched(b) => b,
        SupervisorOutcome::Released(_) => panic!("expected a launch decision"),
    };
    assert_eq!(batch.spawns.len(), 1);
    let spawn = batch.spawns.into_iter().next().unwrap();
    let pid = spawn.pid;
    orch.register_spawned(pid, spawn.action, ChildHandle { id: 1 });

    // the config file is replaced; the stored snapshot changes hands whole
    let changed = store.apply_reload(Ok(replacement));
    assert!(changed);

    // "ls" no longer matches; "echo hi" does
    let o2 = handle_lifecycle_event(&mut engine, &mut orch, started(2, "ls"), store.snapshot(), &ctx);
    match o2 {
        SupervisorOutcome::Launched(b) => assert!(b.spawns.is_empty()),
        SupervisorOutcome::Released(_) => panic!("expected a launch decision"),
    }
    let o3 =
        handle_lifecycle_event(&mut engine, &mut orch, started(3, "echo hi"), store.snapshot(), &ctx);
    match o3 {
        SupervisorOutcome::Launched(b) => assert_eq!(b.spawns.len(), 1),
        SupervisorOutcome::Released(_) => panic!("expected a launch decision"),
    }

    // the running action for pid 1 is untouched until its Ended arrives
    assert_eq!(orch.active_actions.len(), 1);
    assert_eq!(orch.active_actions[0].pid, 1);
    let o4 = handle_lifecycle_event(
        &mut engine,
        &mut orch,
        ProcessLifecycleEvent::Ended { pid: 1 },
        store.snapshot(),
        &ctx,
    );
    match o4 {
        SupervisorOutcome::Released(removed) => assert_eq!(removed.len(), 1),
        SupervisorOutcome::Launched(_) => panic!("expected a release decision"),
    }
}

#[test]
fn parse_failure_keeps_previous_config() {
    let initial = one_rule_config(
        "ls*",
        Action::Executable { path: "tool".to_string(), args: None, single_instance: false },
    );
    let fp = initial.fingerprint();
    let mut store = ConfigStore::new(initial);
    let changed = store.apply_reload(Err("unexpected token".to_string()));
    assert!(!changed);
    assert_eq!(store.snapshot().fingerprint(), fp);
}

#[test]
fn watcher_path_filter() {
    let config_path = "/home/u/.config/viberot-service/config.toml".to_string();
    let touched = vec![
        "/home/u/.config/viberot-service/other.txt".to_string(),
        "/home/u/.config/viberot-service/config.toml".to_string(),
    ];
    assert!(paths_include_config(&touched, &config_path));
    let unrelated = vec!["/tmp/x".to_string()];
    assert!(!paths_include_config(&unrelated, &config_path));
}

#[test]
fn kernel_probe_event_shapes() {
    let ev = started_event_from_lookup(5, Some("car\0go build\0".to_string()));
    match ev {
        ProcessLifecycleEvent::Started(e) => {
            assert_eq!(e.pid, 5);
            assert_eq!(e.command, "cargo build");
            assert!(matches!(e.probe_source, ProbeSource::KernelTrace));
        }
        ProcessLifecycleEvent::Ended { .. } => panic!("expected a Started event"),
    }
    let unknown = started_event_from_lookup(6, None);
    match unknown {
        ProcessLifecycleEvent::Started(e) => assert_eq!(e.command, "<unknown>"),
        ProcessLifecycleEvent::Ended { .. } => panic!("expected a Started event"),
    }
    match ended_event(9) {
        ProcessLifecycleEvent::Ended { pid } => assert_eq!(pid, 9),
        ProcessLifecycleEvent::Started(_) => panic!("expected an Ended event"),
    }
}

#[test]
fn event_builders() {
    let e = ProcessEvent::new(3, "ls".to_string(), ProbeSource::PosixShell)
        .with_working_directory("/w".to_string())
        .with_shell_session_id("sess".to_string());
    assert_eq!(e.pid, 3);
    assert_eq!(e.command, "ls");
    assert_eq!(e.working_directory.as_deref(), Some("/w"));
    assert_eq!(e.shell_session_id.as_deref(), Some("sess"));
    let wire = event_bus::ProcessEvent::new(4, "pwd".to_string());
    assert_eq!(wire.pid, 4);
    assert_eq!(wire.command, "pwd");
}

#[test]
fn decimal_rendering() {
    assert_eq!(u32_to_string(0), "0");
    assert_eq!(u32_to_string(42), "42");
    assert_eq!(u32_to_string(u32::MAX), "4294967295");
    assert_eq!(u64_to_string(1_000_000), "1000000");
    assert_eq!(u64_to_string(u64::MAX), "18446744073709551615");
}
