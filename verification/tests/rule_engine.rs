use viberot::config::{Action, Actions, Commands, Config, Rule};
use viberot::rule_engine::RuleEngine;

fn exec_action(path: &str, single: bool) -> Action {
    Action::Executable { path: path.to_string(), args: None, single_instance: single }
}

fn one_rule_config(pattern: &str, action: Action) -> Config {
    Config {
        rules: vec![Rule {
            command: Commands::Single(pattern.to_string()),
            action: Actions::Single(action),
        }],
        viberot_home: None,
    }
}

fn action_path(a: &Action) -> &str {
    match a {
        Action::Executable { path, .. } => path.as_str(),
        Action::Lua { script, .. } => script.as_str(),
    }
}

#[test]
fn glob_match_returns_rule_actions() {
    let config = one_rule_config("*cargo build*", exec_action("overlay", false));
    let mut engine = RuleEngine::new();
    let actions = engine.match_command("nice cargo build --release", &config);
    assert_eq!(actions.len(), 1);
    assert_eq!(action_path(&actions[0]), "overlay");
    let none = engine.match_command("cargo check", &config);
    assert!(none.is_empty());
}

#[test]
fn star_crosses_path_separators() {
    let config = one_rule_config("*cargo build*", exec_action("overlay", false));
    let mut engine = RuleEngine::new();
    let actions = engine.match_command("/usr/bin/cargo build src/main.rs", &config);
    assert_eq!(actions.len(), 1);
}

#[test]
fn bad_glob_is_skipped_and_others_match() {
    let config = Config {
        rules: vec![
            Rule {
                command: Commands::Single("[unclosed".to_string()),
                action: Actions::Single(exec_action("broken", false)),
            },
            Rule {
                command: Commands::Single("*git*".to_string()),
                action: Actions::Single(exec_action("git-notify", false)),
            },
        ],
        viberot_home: None,
    };
    let mut engine = RuleEngine::new();
    let actions = engine.match_command("git status", &config);
    assert_eq!(actions.len(), 1);
    assert_eq!(action_path(&actions[0]), "git-notify");
}

#[test]
fn actions_keep_rule_declaration_order() {
    let config = Config {
        rules: vec![
            Rule {
                command: Commands::Single("*build*".to_string()),
                action: Actions::Multiple(vec![
                    exec_action("first", false),
                    exec_action("second", true),
                ]),
            },
            Rule {
                command: Commands::Multiple(vec![
                    "*cargo*".to_string(),
                    "*build*".to_string(),
                ]),
                action: Actions::Single(exec_action("third", false)),
            },
        ],
        viberot_home: None,
    };
    let mut engine = RuleEngine::new();
    let actions = engine.match_command("cargo build", &config);
    let paths: Vec<&str> = actions.iter().map(action_path).collect();
    // rule one's two actions, then rule two's action once per matching pattern
    assert_eq!(paths, vec!["first", "second", "third", "third"]);
}

#[test]
fn duplicate_actions_from_distinct_rules_pass_through() {
    let config = Config {
        rules: vec![
            Rule {
                command: Commands::Single("ls*".to_string()),
                action: Actions::Single(exec_action("tool", false)),
            },
            Rule {
                command: Commands::Single("ls -l*".to_string()),
                action: Actions::Single(exec_action("tool", false)),
            },
        ],
        viberot_home: None,
    };
    let mut engine = RuleEngine::new();
    let actions = engine.match_command("ls -l /tmp", &config);
    assert_eq!(actions.len(), 2);
}

#[test]
fn match_is_deterministic_for_fixed_inputs() {
    let config = Config {
        rules: vec![Rule {
            command: Commands::Multiple(vec!["*npm*".to_string(), "*yarn*".to_string()]),
            action: Actions::Multiple(vec![
                exec_action("notify", false),
                exec_action("overlay", true),
            ]),
        }],
        viberot_home: None,
    };
    let mut engine = RuleEngine::new();
    let first = engine.match_command("npm install", &config);
    let second = engine.match_command("npm install", &config);
    assert_eq!(first.len(), second.len());
    for (a, b) in first.iter().zip(second.iter()) {
        assert!(a.action_eq(b));
    }
}

#[test]
fn fingerprint_is_stable_and_tracks_changes() {
    let a = one_rule_config("ls*", exec_action("tool", false));
    let b = one_rule_config("ls*", exec_action("tool", false));
    let c = one_rule_config("echo*", exec_action("tool", false));
    assert_eq!(a.fingerprint(), b.fingerprint());
    assert_ne!(a.fingerprint(), c.fingerprint());
}

#[test]
fn cache_key_follows_config() {
    let a = one_rule_config("ls*", exec_action("tool", false));
    let c = one_rule_config("echo*", exec_action("tool", false));
    let mut engine = RuleEngine::new();
    engine.match_command("ls", &a);
    let hash_a = match &engine.cached_glob_data {
        Some(d) => d.config_hash,
        None => panic!("matcher was not built"),
    };
    assert_eq!(hash_a, a.fingerprint());
    // same config: the cache key does not move
    engine.match_command("ls -l", &a);
    let hash_a2 = match &engine.cached_glob_data {
        Some(d) => d.config_hash,
        None => panic!("matcher was dropped"),
    };
    assert_eq!(hash_a, hash_a2);
    // changed config: the cache is rebuilt under the new fingerprint
    engine.match_command("echo hi", &c);
    let hash_c = match &engine.cached_glob_data {
        Some(d) => d.config_hash,
        None => panic!("matcher was not rebuilt"),
    };
    assert_eq!(hash_c, c.fingerprint());
    assert_ne!(hash_a, hash_c);
}

#[test]
fn invalidate_cache_forces_rebuild() {
    let a = one_rule_config("ls*", exec_action("tool", false));
    let mut engine = RuleEngine::new();
    engine.match_command("ls", &a);
    assert!(engine.cached_glob_data.is_some());
    engine.invalidate_cache();
    assert!(engine.cached_glob_data.is_none());
    let actions = engine.match_command("ls", &a);
    assert_eq!(actions.len(), 1);
}

#[test]
fn commands_and_actions_list_forms() {
    let cmds = Commands::Multiple(vec!["a*".to_string(), "b*".to_string()]);
    assert_eq!(cmds.as_vec().len(), 2);
    let single = Commands::Single("x".to_string());
    assert_eq!(single.as_vec().len(), 1);
    let acts = Actions::Multiple(vec![exec_action("p", false), exec_action("q", true)]);
    assert_eq!(acts.as_vec().len(), 2);
    let owned = acts.into_vec();
    assert_eq!(owned.len(), 2);
    let one = Actions::Single(exec_action("p", false));
    assert_eq!(one.clone().into_vec().len(), 1);
}

#[test]
fn action_key_formula() {
    let plain = exec_action("overlay", true);
    assert_eq!(plain.get_action_key(), "exec:overlay:");
    let with_args = Action::Executable {
        path: "python".to_string(),
        args: Some(vec!["-m".to_string(), "mod".to_string()]),
        single_instance: true,
    };
    assert_eq!(with_args.get_action_key(), "exec:python:-m mod");
    let lua = Action::Lua { script: "beep.lua".to_string(), single_instance: true };
    assert_eq!(lua.get_action_key(), "lua:beep.lua");
    assert!(lua.is_single_instance());
    assert!(!exec_action("x", false).is_single_instance());
}

#[test]
fn config_equality_and_clone() {
    let a = one_rule_config("ls*", exec_action("tool", false));
    let b = a.clone();
    assert!(a.config_eq(&b));
    let c = one_rule_config("ls*", exec_action("tool", true));
    assert!(!a.config_eq(&c));
}

#[test]
fn default_config_has_no_rules() {
    let c = Config::default();
    assert!(c.rules.is_empty());
    assert!(c.viberot_home.is_none());
    let mut engine = RuleEngine::new();
    assert!(engine.match_command("anything", &c).is_empty());
}
