use viberot::action_orchestrator::{
    ActionOrchestrator, ChildHandle, ChildPhase, ChildTermination, EnvVar, ResolveContext,
    build_child_env, expand_environment_variables, resolve_action_path, start_executable_action,
    TERMINATION_GRACE_SECS,
};
use viberot::config::Action;
use viberot::platform::{ProbeSource, ProcessEvent};

fn ctx_with_root(root: &str) -> ResolveContext {
    ResolveContext { viberot_root: Some(root.to_string()), env_vars: Vec::new() }
}

fn env_value(env: &[EnvVar], name: &str) -> Option<String> {
    env.iter().find(|e| e.name == name).map(|e| e.value.clone())
}

#[test]
fn bare_name_is_left_to_path_lookup() {
    let ctx = ctx_with_root("/opt/viberot");
    let r = resolve_action_path(&"python".to_string(), &ctx);
    assert_eq!(r.unwrap(), "python");
}

#[test]
fn bare_name_is_trimmed() {
    let ctx = ctx_with_root("/opt/viberot");
    let r = resolve_action_path(&"  python \n".to_string(), &ctx);
    assert_eq!(r.unwrap(), "python");
}

#[test]
fn actions_placeholder_resolves_under_root() {
    let ctx = ctx_with_root("/opt/viberot");
    let r = resolve_action_path(&"${VIBEROT_ACTIONS}/overlay".to_string(), &ctx);
    assert_eq!(r.unwrap(), "/opt/viberot/actions/overlay");
}

#[test]
fn home_placeholder_resolves_to_root() {
    let ctx = ctx_with_root("/opt/viberot");
    let r = resolve_action_path(&"${VIBEROT_HOME}/bin/tool".to_string(), &ctx);
    assert_eq!(r.unwrap(), "/opt/viberot/bin/tool");
}

#[test]
fn relative_path_joins_project_root() {
    let ctx = ctx_with_root("/r");
    let r = resolve_action_path(&"./local/tool".to_string(), &ctx);
    assert_eq!(r.unwrap(), "/r/./local/tool");
}

#[test]
fn absolute_path_is_kept() {
    let ctx = ctx_with_root("/r");
    let r = resolve_action_path(&"/usr/bin/tool".to_string(), &ctx);
    assert_eq!(r.unwrap(), "/usr/bin/tool");
}

#[test]
fn environment_variable_is_expanded() {
    let ctx = ResolveContext {
        viberot_root: Some("/r".to_string()),
        env_vars: vec![EnvVar { name: "FOO".to_string(), value: "bar".to_string() }],
    };
    let r = resolve_action_path(&"${FOO}/x.sh".to_string(), &ctx);
    assert_eq!(r.unwrap(), "/r/bar/x.sh");
}

#[test]
fn unknown_variable_stays_literal() {
    let ctx = ctx_with_root("/r");
    let expanded = expand_environment_variables(
        &"${NOPE}/tool.sh".chars().collect(),
        &ctx,
    );
    let out: String = expanded.unwrap().into_iter().collect();
    assert_eq!(out, "${NOPE}/tool.sh");
}

#[test]
fn malformed_placeholder_keeps_rest_literal() {
    let ctx = ctx_with_root("/r");
    let expanded = expand_environment_variables(&"a${unclosed".chars().collect(), &ctx);
    let out: String = expanded.unwrap().into_iter().collect();
    assert_eq!(out, "a${unclosed");
}

#[test]
fn missing_root_is_an_error() {
    let ctx = ResolveContext { viberot_root: None, env_vars: Vec::new() };
    let r = resolve_action_path(&"${VIBEROT_HOME}/tool.sh".to_string(), &ctx);
    let e = r.unwrap_err();
    assert_eq!(
        e.message(),
        "could not resolve action path '${VIBEROT_HOME}/tool.sh': project root not found"
    );
}

#[test]
fn child_env_bindings() {
    let ctx = ctx_with_root("/opt/viberot");
    let event = ProcessEvent::new(42, "cargo build".to_string(), ProbeSource::KernelTrace)
        .with_working_directory("/work".to_string());
    let env = build_child_env(&event, &ctx);
    assert_eq!(env_value(&env, "VIBEROT_PID").unwrap(), "42");
    assert_eq!(env_value(&env, "VIBEROT_COMMAND").unwrap(), "cargo build");
    assert_eq!(env_value(&env, "VIBEROT_WORKING_DIRECTORY").unwrap(), "/work");
    assert_eq!(env_value(&env, "VIBEROT_PID_TYPE").unwrap(), "system");
    assert_eq!(env_value(&env, "VIBEROT_HOME").unwrap(), "/opt/viberot");
    assert!(env_value(&env, "VIBEROT_SHELL_SESSION_ID").is_none());
    assert!(env_value(&env, "VIBEROT_TIMESTAMP").is_some());
}

#[test]
fn shell_events_are_tagged_synthetic() {
    let ctx = ctx_with_root("/opt/viberot");
    let event = ProcessEvent::new(1_000_001, "ls".to_string(), ProbeSource::PosixShell)
        .with_shell_session_id("S1".to_string());
    let env = build_child_env(&event, &ctx);
    assert_eq!(env_value(&env, "VIBEROT_PID_TYPE").unwrap(), "synthetic");
    assert_eq!(env_value(&env, "VIBEROT_SHELL_SESSION_ID").unwrap(), "S1");
}

#[test]
fn spawn_spec_carries_cwd_and_pid() {
    let ctx = ctx_with_root("/opt/viberot");
    let event = ProcessEvent::new(7, "cargo build".to_string(), ProbeSource::KernelTrace);
    let action = Action::Executable {
        path: "${VIBEROT_ACTIONS}/overlay".to_string(),
        args: Some(vec!["--flag".to_string()]),
        single_instance: false,
    };
    let spec = start_executable_action(
        "${VIBEROT_ACTIONS}/overlay".to_string(),
        Some(vec!["--flag".to_string()]),
        action,
        &event,
        &ctx,
    )
    .unwrap();
    assert_eq!(spec.resolved_path, "/opt/viberot/actions/overlay");
    assert_eq!(spec.original_path, "${VIBEROT_ACTIONS}/overlay");
    assert_eq!(spec.cwd.unwrap(), "/opt/viberot");
    assert_eq!(spec.pid, 7);
    assert_eq!(spec.args, vec!["--flag".to_string()]);
}

#[test]
fn single_instance_skips_second_start() {
    let ctx = ctx_with_root("/opt/viberot");
    let mut orch = ActionOrchestrator::new();
    let action = Action::Executable {
        path: "overlay".to_string(),
        args: None,
        single_instance: true,
    };
    let event = ProcessEvent::new(42, "cargo build".to_string(), ProbeSource::KernelTrace);
    let first = orch.start_action(action.clone(), &event, &ctx).unwrap();
    assert!(first.is_some());
    assert_eq!(orch.running_single_instance_actions, vec!["exec:overlay:".to_string()]);
    let event2 = ProcessEvent::new(43, "cargo build".to_string(), ProbeSource::KernelTrace);
    let second = orch.start_action(action, &event2, &ctx).unwrap();
    assert!(second.is_none());
    assert_eq!(orch.running_single_instance_actions.len(), 1);
}

#[test]
fn batch_reports_errors_but_continues() {
    let ctx = ResolveContext { viberot_root: None, env_vars: Vec::new() };
    let mut orch = ActionOrchestrator::new();
    let bad = Action::Executable {
        path: "${VIBEROT_HOME}/tool".to_string(),
        args: None,
        single_instance: false,
    };
    let good = Action::Executable { path: "python".to_string(), args: None, single_instance: false };
    let event = ProcessEvent::new(1, "ls".to_string(), ProbeSource::KernelTrace);
    let batch = orch.start_actions(vec![bad, good], &event, &ctx);
    assert_eq!(batch.errors.len(), 1);
    assert_eq!(batch.spawns.len(), 1);
    assert_eq!(batch.spawns[0].resolved_path, "python");
}

#[test]
fn lua_actions_spawn_nothing() {
    let ctx = ctx_with_root("/r");
    let mut orch = ActionOrchestrator::new();
    let lua = Action::Lua { script: "beep.lua".to_string(), single_instance: true };
    let event = ProcessEvent::new(1, "ls".to_string(), ProbeSource::KernelTrace);
    let r = orch.start_action(lua, &event, &ctx).unwrap();
    assert!(r.is_none());
    // no child is spawned, so no single-instance key is claimed
    assert!(orch.running_single_instance_actions.is_empty());
}

#[test]
fn failed_start_claims_no_key() {
    // a single-instance action whose path cannot be resolved must not pin
    // its key: once the root is known, the same action starts normally
    let no_root = ResolveContext { viberot_root: None, env_vars: Vec::new() };
    let mut orch = ActionOrchestrator::new();
    let action = Action::Executable {
        path: "${VIBEROT_HOME}/tool".to_string(),
        args: None,
        single_instance: true,
    };
    let event = ProcessEvent::new(1, "ls".to_string(), ProbeSource::KernelTrace);
    assert!(orch.start_action(action.clone(), &event, &no_root).is_err());
    assert!(orch.running_single_instance_actions.is_empty());
    let with_root = ctx_with_root("/r");
    let spawned = orch.start_action(action, &event, &with_root).unwrap();
    assert!(spawned.is_some());
    assert_eq!(orch.running_single_instance_actions.len(), 1);
}

#[test]
fn spawn_failure_releases_the_key() {
    // the runner could not perform a decided spawn: releasing the key frees
    // the action to start again
    let ctx = ctx_with_root("/r");
    let mut orch = ActionOrchestrator::new();
    let action = Action::Executable {
        path: "overlay".to_string(),
        args: None,
        single_instance: true,
    };
    let event = ProcessEvent::new(1, "ls".to_string(), ProbeSource::KernelTrace);
    let spawn = orch.start_action(action, &event, &ctx).unwrap().unwrap();
    assert_eq!(orch.running_single_instance_actions, vec!["exec:overlay:".to_string()]);
    orch.release_action_key(&spawn.action);
    assert!(orch.running_single_instance_actions.is_empty());
    let again = orch.start_action(spawn.action, &event, &ctx).unwrap();
    assert!(again.is_some());
}

#[test]
fn finish_releases_children_and_keys() {
    let ctx = ctx_with_root("/r");
    let mut orch = ActionOrchestrator::new();
    let action = Action::Executable {
        path: "overlay".to_string(),
        args: None,
        single_instance: true,
    };
    let event = ProcessEvent::new(42, "cargo build".to_string(), ProbeSource::KernelTrace);
    let spawn = orch.start_action(action.clone(), &event, &ctx).unwrap().unwrap();
    orch.register_spawned(spawn.pid, spawn.action, ChildHandle { id: 1 });
    assert_eq!(orch.active_actions.len(), 1);
    let removed = orch.finish_action(42);
    assert_eq!(removed.len(), 1);
    assert_eq!(removed[0].child, ChildHandle { id: 1 });
    assert!(orch.active_actions.is_empty());
    assert!(orch.running_single_instance_actions.is_empty());
    // an Ended for a pid with no children is a no-op
    let none = orch.finish_action(43);
    assert!(none.is_empty());
    // after the key is released the action may start again
    let again = orch.start_action(action, &event, &ctx).unwrap();
    assert!(again.is_some());
}

#[test]
fn multiple_actions_bound_to_one_pid() {
    let ctx = ctx_with_root("/r");
    let mut orch = ActionOrchestrator::new();
    let a = Action::Executable { path: "a".to_string(), args: None, single_instance: false };
    let b = Action::Executable { path: "b".to_string(), args: None, single_instance: true };
    let event = ProcessEvent::new(7, "make".to_string(), ProbeSource::KernelTrace);
    let batch = orch.start_actions(vec![a, b], &event, &ctx);
    assert_eq!(batch.spawns.len(), 2);
    assert_eq!(orch.running_single_instance_actions, vec!["exec:b:".to_string()]);
    let mut id: u64 = 1;
    for spawn in batch.spawns {
        orch.register_spawned(spawn.pid, spawn.action, ChildHandle { id });
        id += 1;
    }
    assert_eq!(orch.active_actions.len(), 1);
    assert_eq!(orch.active_actions[0].pid, 7);
    assert_eq!(orch.active_actions[0].actions.len(), 2);
    let removed = orch.finish_action(7);
    assert_eq!(removed.len(), 2);
    assert!(orch.running_single_instance_actions.is_empty());
}

#[test]
fn shutdown_drains_everything() {
    let ctx = ctx_with_root("/r");
    let mut orch = ActionOrchestrator::new();
    let a = Action::Executable { path: "a".to_string(), args: None, single_instance: true };
    let e1 = ProcessEvent::new(1, "x".to_string(), ProbeSource::KernelTrace);
    let e2 = ProcessEvent::new(2, "y".to_string(), ProbeSource::KernelTrace);
    let s1 = orch.start_action(a.clone(), &e1, &ctx).unwrap().unwrap();
    orch.register_spawned(s1.pid, s1.action, ChildHandle { id: 1 });
    let b = Action::Executable { path: "b".to_string(), args: None, single_instance: false };
    let s2 = orch.start_action(b, &e2, &ctx).unwrap().unwrap();
    orch.register_spawned(s2.pid, s2.action, ChildHandle { id: 2 });
    let all = orch.shutdown();
    assert_eq!(all.len(), 2);
    assert!(orch.active_actions.is_empty());
    assert!(orch.running_single_instance_actions.is_empty());
}

#[test]
fn termination_grace_sequence() {
    let mut term = ChildTermination::new();
    assert_eq!(term.phase, ChildPhase::Running);
    term.close_stdin(100);
    assert_eq!(term.phase, ChildPhase::StdinClosed { closed_at: 100 });
    term.force_kill(100 + TERMINATION_GRACE_SECS);
    assert_eq!(term.phase, ChildPhase::Killed { killed_at: 103 });
}

#[test]
fn termination_graceful_exit() {
    let mut term = ChildTermination::new();
    term.close_stdin(7);
    term.observe_exit();
    assert_eq!(term.phase, ChildPhase::Exited);
}
