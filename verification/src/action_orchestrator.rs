//! The action orchestrator: decides which actions to launch for a matched
//! command (enforcing single-instance keys), resolves action paths, builds
//! the child environment, tracks running children by the observed pid, and
//! releases them when the command ends. Spawning, stdin-closing and killing
//! are performed outside this crate by a runner that follows the orchestrator's
//! decisions; the termination discipline itself is the `ChildTermination`
//! state machine below.

use vstd::prelude::*;
use crate::config::{Action, ActionV, action_key_spec, action_single_instance};
use crate::platform::{ProbeSource, ProcessEvent, ProcessEventV};
use crate::strutil::{
    contains_char, dec_digits, find_index, lemma_find_index_at, lemma_find_index_none, subvec,
    trim_chars, trim_spec, str_to_chars, chars_to_string, u32_to_string, u64_to_string,
};

verus! {

/// One environment binding handed to a spawned child.
pub struct EnvVar {
    pub name: String,
    pub value: String,
}

/// Mathematical view of an `EnvVar`.
pub struct EnvVarV {
    pub name: Seq<char>,
    pub value: Seq<char>,
}

impl View for EnvVar {
    type V = EnvVarV;

    open spec fn view(&self) -> EnvVarV {
        EnvVarV { name: self.name@, value: self.value@ }
    }
}

impl DeepView for EnvVar {
    type V = EnvVarV;

    open spec fn deep_view(&self) -> EnvVarV {
        self.view()
    }
}

/// What the orchestrator knows about its surroundings when it resolves a
/// path: the project root, if one was discovered, and a snapshot of the
/// process environment.
pub struct ResolveContext {
    pub viberot_root: Option<String>,
    pub env_vars: Vec<EnvVar>,
}

impl ResolveContext {
    /// The project root as a character sequence, if discovered.
    pub open spec fn root_view(&self) -> Option<Seq<char>> {
        match &self.viberot_root {
            Option::Some(r) => Option::Some(r@),
            Option::None => Option::None,
        }
    }

    /// The environment snapshot as name/value character sequences.
    pub open spec fn env_view(&self) -> Seq<EnvVarV> {
        self.env_vars.deep_view()
    }
}

/// The value of the first binding of `name`, searching in order.
pub open spec fn env_lookup(env: Seq<EnvVarV>, name: Seq<char>) -> Option<Seq<char>>
    decreases env.len(),
{
    if env.len() == 0 {
        Option::None
    } else if env[0].name == name {
        Option::Some(env[0].value)
    } else {
        env_lookup(env.subrange(1, env.len() as int), name)
    }
}

/// How one `${NAME}` placeholder expands.
pub enum VarExpansion {
    /// Replaced by this value.
    Value(Seq<char>),
    /// Unknown name: the placeholder stays literal.
    Literal,
    /// The name demands the project root, and none was discovered.
    RootMissing,
}

/// The expansion of the variable `name`: `VIBEROT_HOME` is the project root,
/// `VIBEROT_ACTIONS` the root's `actions` directory, any other name the
/// environment variable of that name (left literal when unset).
pub open spec fn var_value(
    name: Seq<char>,
    root: Option<Seq<char>>,
    env: Seq<EnvVarV>,
) -> VarExpansion {
    if name == "VIBEROT_HOME"@ {
        match root {
            Option::Some(r) => VarExpansion::Value(r),
            Option::None => VarExpansion::RootMissing,
        }
    } else if name == "VIBEROT_ACTIONS"@ {
        match root {
            Option::Some(r) => VarExpansion::Value(r + "/actions"@),
            Option::None => VarExpansion::RootMissing,
        }
    } else {
        match env_lookup(env, name) {
            Option::Some(v) => VarExpansion::Value(v),
            Option::None => VarExpansion::Literal,
        }
    }
}

/// `s` with every `${NAME}` placeholder expanded left to right, in a single
/// pass. A `${` without a closing `}` ends expansion, keeping the rest
/// literally. `None` means a placeholder demanded the missing project root.
pub open spec fn expand_vars_spec(
    s: Seq<char>,
    root: Option<Seq<char>>,
    env: Seq<EnvVarV>,
) -> Option<Seq<char>>
    decreases s.len(),
{
    if s.len() == 0 {
        Option::Some(Seq::<char>::empty())
    } else if s.len() >= 2 && s[0] == '$' && s[1] == '{' {
        let j = find_index(s.subrange(2, s.len() as int), '}');
        if j < 0 || 2 + j + 1 > s.len() {
            Option::Some(s)
        } else {
            let name = s.subrange(2, 2 + j);
            let rest = s.subrange(2 + j + 1, s.len() as int);
            match var_value(name, root, env) {
                VarExpansion::Value(v) => match expand_vars_spec(rest, root, env) {
                    Option::Some(t) => Option::Some(v + t),
                    Option::None => Option::None,
                },
                VarExpansion::Literal => match expand_vars_spec(rest, root, env) {
                    Option::Some(t) => Option::Some(s.subrange(0, 2 + j + 1) + t),
                    Option::None => Option::None,
                },
                VarExpansion::RootMissing => Option::None,
            }
        }
    } else {
        match expand_vars_spec(s.subrange(1, s.len() as int), root, env) {
            Option::Some(t) => Option::Some(seq![s[0]] + t),
            Option::None => Option::None,
        }
    }
}

/// Looks up `name` in the context's environment snapshot, first match wins.
fn env_lookup_exec(env: &Vec<EnvVar>, name: &String) -> (r: Option<String>)
    ensures
        match r {
            Option::Some(v) => env_lookup(env.deep_view(), name@) == Option::Some(v@),
            Option::None => env_lookup(env.deep_view(), name@) is None,
        },
{
    let ghost full = env.deep_view();
    let mut i: usize = 0;
    proof {
        assert(full.subrange(0, full.len() as int) =~= full);
    }
    while i < env.len()
        invariant
            i <= env@.len(),
            full == env.deep_view(),
            env_lookup(full, name@) == env_lookup(
                full.subrange(i as int, full.len() as int),
                name@,
            ),
        decreases env.len() - i,
    {
        proof {
            let cur = full.subrange(i as int, full.len() as int);
            assert(cur[0] == full[i as int]);
            assert(cur.subrange(1, cur.len() as int) =~= full.subrange(
                i + 1,
                full.len() as int,
            ));
        }
        let e = &env[i];
        if crate::config::strings_equal(&e.name, name) {
            return Option::Some(e.value.clone());
        }
        i = i + 1;
    }
    Option::None
}

/// Expands `${NAME}` placeholders in `path`; `None` when a placeholder needs
/// the project root and the context has none.
#[verifier::loop_isolation(false)]
#[verifier::rlimit(60)]
pub fn expand_environment_variables(path: &Vec<char>, ctx: &ResolveContext) -> (r: Option<
    Vec<char>,
>)
    ensures
        match r {
            Option::Some(out) => expand_vars_spec(path@, ctx.root_view(), ctx.env_view())
                == Option::Some(out@),
            Option::None => expand_vars_spec(path@, ctx.root_view(), ctx.env_view()) is None,
        },
{
    let ghost rootv = ctx.root_view();
    let ghost envv = ctx.env_view();
    let n = path.len();
    let mut out: Vec<char> = Vec::new();
    let mut i: usize = 0;
    proof {
        assert(path@.subrange(0, n as int) =~= path@);
    }
    while i < n
        invariant
            i <= n,
            expand_vars_spec(path@, rootv, envv) == (match expand_vars_spec(
                path@.subrange(i as int, n as int),
                rootv,
                envv,
            ) {
                Option::Some(t) => Option::Some(out@ + t),
                Option::None => Option::<Seq<char>>::None,
            }),
        decreases n - i,
    {
        let ghost suffix = path@.subrange(i as int, n as int);
        if path[i] == '$' && i + 1 < n && path[i + 1] == '{' {
            // scan for the closing brace
            let mut k: usize = i + 2;
            while k < n && path[k] != '}'
                invariant
                    i + 2 <= k <= n,
                    forall|m: int| i + 2 <= m < k ==> path@[m] != '}',
                decreases n - k,
            {
                k = k + 1;
            }
            let ghost tail = suffix.subrange(2, suffix.len() as int);
            proof {
                assert(tail =~= path@.subrange(i + 2, n as int));
            }
            if k == n {
                // malformed placeholder: keep the rest literally and stop
                proof {
                    assert(forall|m: int| 0 <= m < tail.len() ==> tail[m] == path@[i + 2 + m]
                        && tail[m] != '}');
                    lemma_find_index_none(tail, '}');
                    assert(expand_vars_spec(suffix, rootv, envv) == Option::Some(suffix));
                }
                let mut rest = subvec(path, i, n);
                out.append(&mut rest);
                proof {
                    assert(out@ =~= expand_vars_spec(path@, rootv, envv)->0);
                }
                return Option::Some(out);
            }
            let ghost j = k - (i + 2);
            let ghost namev = path@.subrange(i + 2, k as int);
            let ghost restv = path@.subrange(k + 1, n as int);
            proof {
                assert(forall|m: int| 0 <= m < j ==> tail[m] == path@[i + 2 + m]
                    && tail[m] != '}');
                assert(tail[j] == path@[k as int]);
                lemma_find_index_at(tail, '}', j);
                assert(suffix.subrange(2, 2 + j) =~= namev);
                assert(suffix.subrange(2 + j + 1, suffix.len() as int) =~= restv);
                assert(suffix.subrange(0, 2 + j + 1) =~= path@.subrange(i as int, k + 1));
            }
            let name_chars = subvec(path, i + 2, k);
            let name = chars_to_string(&name_chars);
            let ghost out_pre = out@;
            if crate::config::strings_equal(&name, &String::from_str("VIBEROT_HOME")) {
                match &ctx.viberot_root {
                    Option::Some(root) => {
                        let mut rv = str_to_chars(root.as_str());
                        out.append(&mut rv);
                    },
                    Option::None => {
                        return Option::None;
                    },
                }
            } else if crate::config::strings_equal(&name, &String::from_str("VIBEROT_ACTIONS")) {
                match &ctx.viberot_root {
                    Option::Some(root) => {
                        let mut rv = str_to_chars(root.as_str());
                        out.append(&mut rv);
                        let mut sfx = str_to_chars("/actions");
                        out.append(&mut sfx);
                        assert(out@ =~= out_pre + (root@ + "/actions"@));
                    },
                    Option::None => {
                        return Option::None;
                    },
                }
            } else {
                match env_lookup_exec(&ctx.env_vars, &name) {
                    Option::Some(v) => {
                        let mut vv = str_to_chars(v.as_str());
                        out.append(&mut vv);
                    },
                    Option::None => {
                        // unknown variable: keep the placeholder literally
                        let mut lit = subvec(path, i, k + 1);
                        out.append(&mut lit);
                    },
                }
            }
            proof {
                match var_value(namev, rootv, envv) {
                    VarExpansion::Value(v) => {
                        assert(out@ == out_pre + v);
                        if expand_vars_spec(restv, rootv, envv) is Some {
                            let t = expand_vars_spec(restv, rootv, envv)->0;
                            assert((out_pre + v) + t =~= out_pre + (v + t));
                        }
                    },
                    VarExpansion::Literal => {
                        assert(out@ == out_pre + suffix.subrange(0, 2 + j + 1));
                        if expand_vars_spec(restv, rootv, envv) is Some {
                            let t = expand_vars_spec(restv, rootv, envv)->0;
                            assert((out_pre + suffix.subrange(0, 2 + j + 1)) + t =~= out_pre + (
                            suffix.subrange(0, 2 + j + 1) + t));
                        }
                    },
                    VarExpansion::RootMissing => {
                        assert(false);
                    },
                }
            }
            i = k + 1;
        } else {
            proof {
                assert(suffix[0] == path@[i as int]);
                assert(suffix.subrange(1, suffix.len() as int) =~= path@.subrange(
                    i + 1,
                    n as int,
                ));
            }
            out.push(path[i]);
            i = i + 1;
        }
    }
    proof {
        assert(path@.subrange(n as int, n as int) =~= Seq::<char>::empty());
        assert(out@ + Seq::<char>::empty() =~= out@);
    }
    Option::Some(out)
}

/// Whether the path is a bare executable name, left to the OS `PATH` lookup:
/// no path separator and no dot.
pub open spec fn is_bare_name(s: Seq<char>) -> bool {
    !s.contains('/') && !s.contains('\\') && !s.contains('.')
}

/// An ASCII letter, as in a drive prefix.
pub open spec fn is_ascii_alpha(c: char) -> bool {
    (97 <= c as u32 && c as u32 <= 122) || (65 <= c as u32 && c as u32 <= 90)
}

/// Whether the path stands on its own: it starts with a separator, or with a
/// drive letter followed by one.
pub open spec fn is_absolute_path(s: Seq<char>) -> bool {
    (s.len() > 0 && (s[0] == '/' || s[0] == '\\')) || (s.len() >= 3 && is_ascii_alpha(s[0])
        && s[1] == ':' && (s[2] == '/' || s[2] == '\\'))
}

/// Where an action path leads: trimmed; bare names pass through untouched for
/// the `PATH` lookup; otherwise `${NAME}` placeholders are expanded, and a
/// relative result is joined under the project root. `None` means the project
/// root was needed and not discovered.
pub open spec fn resolve_spec(
    path: Seq<char>,
    root: Option<Seq<char>>,
    env: Seq<EnvVarV>,
) -> Option<Seq<char>> {
    let t = trim_spec(path);
    if is_bare_name(t) {
        Option::Some(t)
    } else {
        match expand_vars_spec(t, root, env) {
            Option::Some(e) => if is_absolute_path(e) {
                Option::Some(e)
            } else {
                match root {
                    Option::Some(r) => Option::Some(r + seq!['/'] + e),
                    Option::None => Option::None,
                }
            },
            Option::None => Option::None,
        }
    }
}

/// Why an action could not be prepared for launch.
#[derive(Debug)]
pub enum ActionError {
    /// The action path needs the project root, and none was discovered.
    RootUnavailable { original_path: String },
}

impl View for ActionError {
    type V = Seq<char>;

    /// The path of the action that failed.
    open spec fn view(&self) -> Seq<char> {
        match self {
            ActionError::RootUnavailable { original_path } => original_path@,
        }
    }
}

impl DeepView for ActionError {
    type V = Seq<char>;

    open spec fn deep_view(&self) -> Seq<char> {
        self.view()
    }
}

impl ActionError {
    /// A description of the failure.
    pub fn message(&self) -> (r: String)
        ensures
            self matches ActionError::RootUnavailable { original_path } ==> r@
                == "could not resolve action path '"@ + original_path@
                + "': project root not found"@,
    {
        match self {
            ActionError::RootUnavailable { original_path } => {
                let mut m = String::from_str("could not resolve action path '");
                m.append(original_path.as_str());
                m.append("': project root not found");
                m
            },
        }
    }
}

fn is_absolute(v: &Vec<char>) -> (r: bool)
    ensures
        r == is_absolute_path(v@),
{
    if v.len() > 0 {
        let c0 = v[0];
        if c0 == '/' || c0 == '\\' {
            return true;
        }
        if v.len() >= 3 {
            let u = c0 as u32;
            if ((97 <= u && u <= 122) || (65 <= u && u <= 90)) && v[1] == ':' && (v[2] == '/'
                || v[2] == '\\') {
                return true;
            }
        }
    }
    false
}

/// Resolves an action path against the context, per `resolve_spec`.
pub fn resolve_action_path(path: &String, ctx: &ResolveContext) -> (r: Result<String, ActionError>)
    ensures
        r matches Ok(p) ==> resolve_spec(path@, ctx.root_view(), ctx.env_view())
            == Option::Some(p@),
        r matches Err(e) ==> resolve_spec(path@, ctx.root_view(), ctx.env_view()) is None && (
        e matches ActionError::RootUnavailable { original_path } && original_path@ == path@),
{
    let chars = str_to_chars(path.as_str());
    let t = trim_chars(&chars);
    if !contains_char(&t, '/') && !contains_char(&t, '\\') && !contains_char(&t, '.') {
        return Result::Ok(chars_to_string(&t));
    }
    match expand_environment_variables(&t, ctx) {
        Option::Some(e) => {
            if is_absolute(&e) {
                Result::Ok(chars_to_string(&e))
            } else {
                match &ctx.viberot_root {
                    Option::Some(root) => {
                        let mut full = str_to_chars(root.as_str());
                        full.push('/');
                        let mut tail = e;
                        full.append(&mut tail);
                        proof {
                            assert(full@ =~= root@ + seq!['/'] + expand_vars_spec(
                                trim_spec(path@),
                                ctx.root_view(),
                                ctx.env_view(),
                            )->0);
                        }
                        Result::Ok(chars_to_string(&full))
                    },
                    Option::None => Result::Err(
                        ActionError::RootUnavailable { original_path: path.clone() },
                    ),
                }
            }
        },
        Option::None => Result::Err(ActionError::RootUnavailable { original_path: path.clone() }),
    }
}

/// The pid-type tag handed to children: shell probes allocate synthetic pids,
/// everything else reports a real system pid.
pub open spec fn pid_type_str(ps: ProbeSource) -> Seq<char> {
    if ps == ProbeSource::PosixShell {
        "synthetic"@
    } else {
        "system"@
    }
}

/// The environment bindings a spawned child receives, in order: the observed
/// pid, command and timestamp, the optional working directory and shell
/// session, the pid type, and the project root when discovered.
pub open spec fn child_env_spec(e: ProcessEventV, root: Option<Seq<char>>) -> Seq<EnvVarV> {
    seq![
        EnvVarV { name: "VIBEROT_PID"@, value: dec_digits(e.pid as nat) },
        EnvVarV { name: "VIBEROT_COMMAND"@, value: e.command },
        EnvVarV { name: "VIBEROT_TIMESTAMP"@, value: dec_digits(e.timestamp as nat) },
    ] + (match e.working_directory {
        Option::Some(w) => seq![EnvVarV { name: "VIBEROT_WORKING_DIRECTORY"@, value: w }],
        Option::None => Seq::<EnvVarV>::empty(),
    }) + (match e.shell_session_id {
        Option::Some(s) => seq![EnvVarV { name: "VIBEROT_SHELL_SESSION_ID"@, value: s }],
        Option::None => Seq::<EnvVarV>::empty(),
    }) + seq![EnvVarV { name: "VIBEROT_PID_TYPE"@, value: pid_type_str(e.probe_source) }] + (
    match root {
        Option::Some(r) => seq![EnvVarV { name: "VIBEROT_HOME"@, value: r }],
        Option::None => Seq::<EnvVarV>::empty(),
    })
}

/// Builds the child environment for an event, per `child_env_spec`.
pub fn build_child_env(event: &ProcessEvent, ctx: &ResolveContext) -> (r: Vec<EnvVar>)
    ensures
        r.deep_view() == child_env_spec(event@, ctx.root_view()),
{
    let mut r: Vec<EnvVar> = Vec::new();
    r.push(
        EnvVar { name: String::from_str("VIBEROT_PID"), value: u32_to_string(event.pid) },
    );
    r.push(
        EnvVar { name: String::from_str("VIBEROT_COMMAND"), value: event.command.clone() },
    );
    r.push(
        EnvVar {
            name: String::from_str("VIBEROT_TIMESTAMP"),
            value: u64_to_string(event.timestamp),
        },
    );
    match &event.working_directory {
        Option::Some(w) => {
            r.push(
                EnvVar {
                    name: String::from_str("VIBEROT_WORKING_DIRECTORY"),
                    value: w.clone(),
                },
            );
        },
        Option::None => {},
    }
    match &event.shell_session_id {
        Option::Some(s) => {
            r.push(
                EnvVar {
                    name: String::from_str("VIBEROT_SHELL_SESSION_ID"),
                    value: s.clone(),
                },
            );
        },
        Option::None => {},
    }
    let pid_type = match event.probe_source {
        ProbeSource::PosixShell => String::from_str("synthetic"),
        _ => String::from_str("system"),
    };
    r.push(EnvVar { name: String::from_str("VIBEROT_PID_TYPE"), value: pid_type });
    match &ctx.viberot_root {
        Option::Some(root) => {
            r.push(EnvVar { name: String::from_str("VIBEROT_HOME"), value: root.clone() });
        },
        Option::None => {},
    }
    proof {
        assert(r.deep_view() =~= child_env_spec(event@, ctx.root_view()));
    }
    r
}

/// Everything a runner needs to spawn one action child: the resolved program
/// path, arguments, environment, working directory, and the observed pid the
/// child is tracked under.
pub struct SpawnSpec {
    pub original_path: String,
    pub resolved_path: String,
    pub args: Vec<String>,
    pub env: Vec<EnvVar>,
    pub cwd: Option<String>,
    pub pid: u32,
    pub action: Action,
}

/// Mathematical view of a `SpawnSpec`.
pub struct SpawnSpecV {
    pub original_path: Seq<char>,
    pub resolved_path: Seq<char>,
    pub args: Seq<Seq<char>>,
    pub env: Seq<EnvVarV>,
    pub cwd: Option<Seq<char>>,
    pub pid: u32,
    pub action: ActionV,
}

impl View for SpawnSpec {
    type V = SpawnSpecV;

    open spec fn view(&self) -> SpawnSpecV {
        SpawnSpecV {
            original_path: self.original_path@,
            resolved_path: self.resolved_path@,
            args: self.args.deep_view(),
            env: self.env.deep_view(),
            cwd: match &self.cwd {
                Option::Some(c) => Option::Some(c@),
                Option::None => Option::None,
            },
            pid: self.pid,
            action: self.action@,
        }
    }
}

impl DeepView for SpawnSpec {
    type V = SpawnSpecV;

    open spec fn deep_view(&self) -> SpawnSpecV {
        self.view()
    }
}

/// The spawn produced for an executable action whose path resolves.
pub open spec fn spawn_spec_of(
    path: Seq<char>,
    args: Option<Seq<Seq<char>>>,
    a: ActionV,
    e: ProcessEventV,
    root: Option<Seq<char>>,
    env: Seq<EnvVarV>,
) -> SpawnSpecV {
    SpawnSpecV {
        original_path: path,
        resolved_path: resolve_spec(path, root, env)->0,
        args: match args {
            Option::Some(x) => x,
            Option::None => Seq::<Seq<char>>::empty(),
        },
        env: child_env_spec(e, root),
        cwd: root,
        pid: e.pid,
        action: a,
    }
}

/// Clones a string list, keeping each string's characters.
fn clone_string_vec(v: &Vec<String>) -> (r: Vec<String>)
    ensures
        r.deep_view() == v.deep_view(),
{
    let r = v.clone();
    proof {
        assert forall|i: int| 0 <= i < v@.len() implies r@[i] == v@[i] by {
            assert(cloned::<String>(v@[i], r@[i]));
        }
        assert(r.deep_view() =~= v.deep_view());
    }
    r
}

/// Prepares the launch of one executable action: resolves its path, builds
/// the child environment and working directory, and names the pid the child
/// will be tracked under. Fails exactly when the path cannot be resolved.
pub fn start_executable_action(
    path: String,
    args: Option<Vec<String>>,
    action: Action,
    event: &ProcessEvent,
    ctx: &ResolveContext,
) -> (r: Result<SpawnSpec, ActionError>)
    ensures
        r matches Ok(s) ==> resolve_spec(path@, ctx.root_view(), ctx.env_view()) is Some && s@
            == spawn_spec_of(
            path@,
            args.deep_view(),
            action@,
            event@,
            ctx.root_view(),
            ctx.env_view(),
        ),
        r matches Err(e) ==> resolve_spec(path@, ctx.root_view(), ctx.env_view()) is None && (
        e matches ActionError::RootUnavailable { original_path } && original_path@ == path@),
{
    let resolved = match resolve_action_path(&path, ctx) {
        Result::Ok(p) => p,
        Result::Err(e) => {
            return Result::Err(e);
        },
    };
    let args_vec: Vec<String> = match &args {
        Option::Some(list) => clone_string_vec(list),
        Option::None => Vec::new(),
    };
    let cwd: Option<String> = match &ctx.viberot_root {
        Option::Some(root) => Option::Some(root.clone()),
        Option::None => Option::None,
    };
    let env = build_child_env(event, ctx);
    proof {
        assert(args_vec.deep_view() =~= (match args.deep_view() {
            Option::Some(x) => x,
            Option::None => Seq::<Seq<char>>::empty(),
        }));
    }
    Result::Ok(
        SpawnSpec {
            original_path: path,
            resolved_path: resolved,
            args: args_vec,
            env,
            cwd,
            pid: event.pid,
            action,
        },
    )
}

/// A token standing for one spawned child process; the runner maps it to the
/// real process handle.
#[derive(Clone, Copy, PartialEq, Eq, Structural, Debug)]
pub struct ChildHandle {
    pub id: u64,
}

/// A running child together with the action it came from (retained to
/// recover the single-instance key on termination).
pub struct ActiveAction {
    pub child: ChildHandle,
    pub action: Action,
}

/// Mathematical view of an `ActiveAction`.
pub struct ActiveActionV {
    pub child: u64,
    pub action: ActionV,
}

impl View for ActiveAction {
    type V = ActiveActionV;

    open spec fn view(&self) -> ActiveActionV {
        ActiveActionV { child: self.child.id, action: self.action@ }
    }
}

impl DeepView for ActiveAction {
    type V = ActiveActionV;

    open spec fn deep_view(&self) -> ActiveActionV {
        self.view()
    }
}

/// The children bound to one observed pid.
pub struct PidEntry {
    pub pid: u32,
    pub actions: Vec<ActiveAction>,
}

/// Mathematical view of a `PidEntry`.
pub struct PidEntryV {
    pub pid: u32,
    pub actions: Seq<ActiveActionV>,
}

impl View for PidEntry {
    type V = PidEntryV;

    open spec fn view(&self) -> PidEntryV {
        PidEntryV { pid: self.pid, actions: self.actions.deep_view() }
    }
}

impl DeepView for PidEntry {
    type V = PidEntryV;

    open spec fn deep_view(&self) -> PidEntryV {
        self.view()
    }
}

/// Whether `k` is one of the tracked single-instance keys.
pub open spec fn key_in(keys: Seq<Seq<char>>, k: Seq<char>) -> bool {
    exists|i: int| 0 <= i < keys.len() && keys[i] == k
}

/// The index of the entry tracking `pid`, or -1.
pub open spec fn pid_index(entries: Seq<PidEntryV>, pid: u32) -> int
    decreases entries.len(),
{
    if entries.len() == 0 {
        -1
    } else if entries[0].pid == pid {
        0
    } else {
        let r = pid_index(entries.subrange(1, entries.len() as int), pid);
        if r < 0 {
            -1
        } else {
            r + 1
        }
    }
}

/// `pid_index` returns the position of the first entry for `pid`.
pub proof fn lemma_pid_index_at(entries: Seq<PidEntryV>, pid: u32, j: int)
    requires
        0 <= j < entries.len(),
        entries[j].pid == pid,
        forall|k: int| 0 <= k < j ==> entries[k].pid != pid,
    ensures
        pid_index(entries, pid) == j,
    decreases j,
{
    if j > 0 {
        let t = entries.subrange(1, entries.len() as int);
        assert(forall|k: int| 0 <= k < j - 1 ==> t[k] == entries[k + 1] && t[k].pid != pid);
        assert(t[j - 1] == entries[j]);
        lemma_pid_index_at(t, pid, j - 1);
    }
}

/// A non-negative `pid_index` points at an entry for `pid`; a negative one
/// means no entry tracks `pid`.
pub proof fn lemma_pid_index_props(entries: Seq<PidEntryV>, pid: u32)
    ensures
        pid_index(entries, pid) < 0 ==> forall|k: int|
            0 <= k < entries.len() ==> entries[k].pid != pid,
        pid_index(entries, pid) >= 0 ==> pid_index(entries, pid) < entries.len()
            && entries[pid_index(entries, pid)].pid == pid,
    decreases entries.len(),
{
    if entries.len() > 0 {
        let t = entries.subrange(1, entries.len() as int);
        lemma_pid_index_props(t, pid);
        if entries[0].pid == pid {
        } else {
            let r = pid_index(t, pid);
            if r >= 0 {
                assert(t[r] == entries[r + 1]);
            } else {
                assert forall|k: int| 0 <= k < entries.len() implies entries[k].pid != pid by {
                    if k > 0 {
                        assert(entries[k] == t[k - 1]);
                    }
                }
            }
        }
    }
}

/// `pid_index` returns -1 exactly when no entry tracks `pid`.
pub proof fn lemma_pid_index_none(entries: Seq<PidEntryV>, pid: u32)
    requires
        forall|k: int| 0 <= k < entries.len() ==> entries[k].pid != pid,
    ensures
        pid_index(entries, pid) == -1,
    decreases entries.len(),
{
    if entries.len() > 0 {
        let t = entries.subrange(1, entries.len() as int);
        assert(forall|k: int| 0 <= k < t.len() ==> t[k] == entries[k + 1] && t[k].pid != pid);
        lemma_pid_index_none(t, pid);
    }
}

/// The orchestrator's bookkeeping: which children run for which observed
/// pid, and which single-instance keys are live.
pub struct ActionOrchestrator {
    pub active_actions: Vec<PidEntry>,
    pub running_single_instance_actions: Vec<String>,
}

impl ActionOrchestrator {
    /// The tracked single-instance keys.
    pub open spec fn keys_view(self) -> Seq<Seq<char>> {
        self.running_single_instance_actions.deep_view()
    }

    /// The tracked pid entries.
    pub open spec fn active_view(self) -> Seq<PidEntryV> {
        self.active_actions.deep_view()
    }

    /// Each pid has at most one entry; each key is tracked once.
    pub open spec fn wf(self) -> bool {
        &&& forall|i: int, j: int|
            0 <= i < j < self.active_view().len() ==> self.active_view()[i].pid
                != self.active_view()[j].pid
        &&& forall|i: int, j: int|
            0 <= i < j < self.keys_view().len() ==> self.keys_view()[i] != self.keys_view()[j]
    }

    /// An orchestrator tracking nothing.
    pub fn new() -> (r: Self)
        ensures
            r.wf(),
            r.active_view() == Seq::<PidEntryV>::empty(),
            r.keys_view() == Seq::<Seq<char>>::empty(),
    {
        let r = ActionOrchestrator {
            active_actions: Vec::new(),
            running_single_instance_actions: Vec::new(),
        };
        proof {
            assert(r.active_view() =~= Seq::<PidEntryV>::empty());
            assert(r.keys_view() =~= Seq::<Seq<char>>::empty());
        }
        r
    }

    /// Whether `key` is currently tracked.
    fn key_running(&self, key: &String) -> (r: bool)
        ensures
            r == key_in(self.keys_view(), key@),
    {
        let mut i: usize = 0;
        while i < self.running_single_instance_actions.len()
            invariant
                i <= self.keys_view().len(),
                forall|k: int| 0 <= k < i ==> self.keys_view()[k] != key@,
            decreases self.running_single_instance_actions.len() - i,
        {
            if crate::config::strings_equal(&self.running_single_instance_actions[i], key) {
                assert(self.keys_view()[i as int] == key@);
                assert(key_in(self.keys_view(), key@));
                return true;
            }
            i = i + 1;
        }
        false
    }

    /// The position of `pid`'s entry, if one exists.
    fn find_pid(&self, pid: u32) -> (r: Option<usize>)
        ensures
            r matches Some(i) ==> i < self.active_view().len() && pid_index(
                self.active_view(),
                pid,
            ) == i && self.active_view()[i as int].pid == pid,
            r is None ==> pid_index(self.active_view(), pid) == -1,
    {
        let mut i: usize = 0;
        while i < self.active_actions.len()
            invariant
                i <= self.active_view().len(),
                forall|k: int| 0 <= k < i ==> self.active_view()[k].pid != pid,
            decreases self.active_actions.len() - i,
        {
            if self.active_actions[i].pid == pid {
                proof {
                    lemma_pid_index_at(self.active_view(), pid, i as int);
                }
                return Option::Some(i);
            }
            i = i + 1;
        }
        proof {
            lemma_pid_index_none(self.active_view(), pid);
        }
        Option::None
    }

    /// Records a child the runner has spawned from a `SpawnSpec`: the action
    /// is appended to `pid`'s children, under a fresh entry if `pid` had none.
    /// The key set is untouched — the key was claimed when the spawn was
    /// decided.
    pub fn register_spawned(&mut self, pid: u32, action: Action, child: ChildHandle)
        requires
            old(self).wf(),
        ensures
            final(self).wf(),
            final(self).keys_view() == old(self).keys_view(),
            pid_index(old(self).active_view(), pid) < 0 ==> final(self).active_view()
                =~= old(self).active_view().push(
                PidEntryV {
                    pid,
                    actions: seq![ActiveActionV { child: child.id, action: action@ }],
                },
            ),
            pid_index(old(self).active_view(), pid) >= 0 ==> ({
                let i = pid_index(old(self).active_view(), pid);
                final(self).active_view() =~= old(self).active_view().update(
                    i,
                    PidEntryV {
                        pid,
                        actions: old(self).active_view()[i].actions.push(
                            ActiveActionV { child: child.id, action: action@ },
                        ),
                    },
                )
            }),
    {
        let aa = ActiveAction { child, action };
        let ghost aav = aa@;
        match self.find_pid(pid) {
            Option::Some(i) => {
                let ghost pre_exec = self.active_actions@;
                let ghost pre = self.active_view();
                self.active_actions[i].actions.push(aa);
                proof {
                    let cur = self.active_actions@;
                    assert(cur == pre_exec.update(i as int, cur[i as int]));
                    assert(cur[i as int].pid == pre_exec[i as int].pid);
                    assert(cur[i as int].actions@ == pre_exec[i as int].actions@.push(aa));
                    crate::strutil::lemma_deep_view_push(
                        pre_exec[i as int].actions,
                        cur[i as int].actions,
                        cur[i as int].actions@[cur[i as int].actions@.len() - 1],
                    );
                    let target = pre.update(
                        i as int,
                        PidEntryV { pid, actions: pre[i as int].actions.push(aav) },
                    );
                    assert forall|j: int| 0 <= j < cur.len() implies self.active_view()[j]
                        == target[j] by {
                        if j != i {
                            assert(cur[j] == pre_exec[j]);
                        }
                    }
                    assert(self.active_view() =~= target);
                    assert forall|x: int, y: int|
                        0 <= x < y < self.active_view().len() implies self.active_view()[x].pid
                        != self.active_view()[y].pid by {
                        assert(self.active_view()[x].pid == pre[x].pid);
                        assert(self.active_view()[y].pid == pre[y].pid);
                    }
                    assert forall|x: int, y: int|
                        0 <= x < y < self.keys_view().len() implies self.keys_view()[x]
                        != self.keys_view()[y] by {
                        assert(old(self).keys_view()[x] != old(self).keys_view()[y]);
                    }
                }
            },
            Option::None => {
                let ghost prev = self.active_actions;
                let mut actions: Vec<ActiveAction> = Vec::new();
                actions.push(aa);
                assert(actions.deep_view() =~= seq![aav]);
                self.active_actions.push(PidEntry { pid, actions });
                proof {
                    crate::strutil::lemma_deep_view_push(
                        prev,
                        self.active_actions,
                        self.active_actions@[self.active_actions@.len() - 1],
                    );
                    lemma_pid_index_props(prev.deep_view(), pid);
                    assert forall|x: int, y: int|
                        0 <= x < y < self.keys_view().len() implies self.keys_view()[x]
                        != self.keys_view()[y] by {
                        assert(old(self).keys_view()[x] != old(self).keys_view()[y]);
                    }
                    let cur = self.active_view();
                    let pre = prev.deep_view();
                    assert(cur =~= pre.push(PidEntryV { pid, actions: seq![aav] }));
                    assert forall|x: int, y: int|
                        0 <= x < y < cur.len() implies cur[x].pid != cur[y].pid by {
                        if y < pre.len() {
                            assert(cur[x] == pre[x] && cur[y] == pre[y]);
                        } else {
                            assert(cur[x] == pre[x] && pre[x].pid != pid);
                        }
                    }
                }
            },
        }
    }
}

/// The key set after deciding one action: a fresh single-instance action
/// claims its key exactly when a spawn is decided for it, that is, when it
/// is executable and its path resolves. Skipped duplicates, scripted actions
/// and failing actions leave the set alone, so a claimed key always belongs
/// to an action that is actually launched.
pub open spec fn start_keys_after(
    keys: Seq<Seq<char>>,
    a: ActionV,
    root: Option<Seq<char>>,
    env: Seq<EnvVarV>,
) -> Seq<Seq<char>> {
    if action_single_instance(a) && !key_in(keys, action_key_spec(a)) && (
    a matches ActionV::Executable { path, .. } && resolve_spec(path, root, env) is Some) {
        keys.push(action_key_spec(a))
    } else {
        keys
    }
}

/// The outcome of deciding one action under the given key set: `None` is a
/// path-resolution failure; `Some(None)` means nothing is spawned (a
/// single-instance duplicate, or an unsupported scripted action);
/// `Some(Some(s))` is the spawn to perform.
pub open spec fn start_result(
    keys: Seq<Seq<char>>,
    a: ActionV,
    e: ProcessEventV,
    root: Option<Seq<char>>,
    env: Seq<EnvVarV>,
) -> Option<Option<SpawnSpecV>> {
    if action_single_instance(a) && key_in(keys, action_key_spec(a)) {
        Option::Some(Option::None)
    } else {
        match a {
            ActionV::Executable { path, args, .. } => match resolve_spec(path, root, env) {
                Option::Some(_) => Option::Some(
                    Option::Some(spawn_spec_of(path, args, a, e, root, env)),
                ),
                Option::None => Option::None,
            },
            ActionV::Lua { .. } => Option::Some(Option::None),
        }
    }
}

/// The path (or script) field of an action.
pub open spec fn action_path_of(a: ActionV) -> Seq<char> {
    match a {
        ActionV::Executable { path, .. } => path,
        ActionV::Lua { script, .. } => script,
    }
}

/// The key set after deciding a whole list of actions in order.
pub open spec fn plan_keys(
    keys: Seq<Seq<char>>,
    actions: Seq<ActionV>,
    root: Option<Seq<char>>,
    env: Seq<EnvVarV>,
) -> Seq<Seq<char>>
    decreases actions.len(),
{
    if actions.len() == 0 {
        keys
    } else {
        plan_keys(
            start_keys_after(keys, actions[0], root, env),
            actions.subrange(1, actions.len() as int),
            root,
            env,
        )
    }
}

/// The spawns performed for a list of actions, in order: exactly one per
/// action that is launched, none for skipped or failing actions.
pub open spec fn plan_spawns(
    keys: Seq<Seq<char>>,
    actions: Seq<ActionV>,
    e: ProcessEventV,
    root: Option<Seq<char>>,
    env: Seq<EnvVarV>,
) -> Seq<SpawnSpecV>
    decreases actions.len(),
{
    if actions.len() == 0 {
        Seq::<SpawnSpecV>::empty()
    } else {
        (match start_result(keys, actions[0], e, root, env) {
            Option::Some(Option::Some(s)) => seq![s],
            _ => Seq::<SpawnSpecV>::empty(),
        }) + plan_spawns(
            start_keys_after(keys, actions[0], root, env),
            actions.subrange(1, actions.len() as int),
            e,
            root,
            env,
        )
    }
}

/// The paths of the actions that fail to start, in order.
pub open spec fn plan_error_paths(
    keys: Seq<Seq<char>>,
    actions: Seq<ActionV>,
    e: ProcessEventV,
    root: Option<Seq<char>>,
    env: Seq<EnvVarV>,
) -> Seq<Seq<char>>
    decreases actions.len(),
{
    if actions.len() == 0 {
        Seq::<Seq<char>>::empty()
    } else {
        (if start_result(keys, actions[0], e, root, env) is None {
            seq![action_path_of(actions[0])]
        } else {
            Seq::<Seq<char>>::empty()
        }) + plan_error_paths(
            start_keys_after(keys, actions[0], root, env),
            actions.subrange(1, actions.len() as int),
            e,
            root,
            env,
        )
    }
}

/// Deciding one more action continues the plan from the keys reached so far.
pub proof fn lemma_plan_snoc(
    keys: Seq<Seq<char>>,
    actions: Seq<ActionV>,
    e: ProcessEventV,
    root: Option<Seq<char>>,
    env: Seq<EnvVarV>,
    i: int,
)
    requires
        0 <= i < actions.len(),
    ensures
        plan_keys(keys, actions.subrange(0, i + 1), root, env) == start_keys_after(
            plan_keys(keys, actions.subrange(0, i), root, env),
            actions[i],
            root,
            env,
        ),
        plan_spawns(keys, actions.subrange(0, i + 1), e, root, env) == plan_spawns(
            keys,
            actions.subrange(0, i),
            e,
            root,
            env,
        ) + (match start_result(plan_keys(keys, actions.subrange(0, i), root, env), actions[i], e, root, env) {
            Option::Some(Option::Some(s)) => seq![s],
            _ => Seq::<SpawnSpecV>::empty(),
        }),
        plan_error_paths(keys, actions.subrange(0, i + 1), e, root, env) == plan_error_paths(
            keys,
            actions.subrange(0, i),
            e,
            root,
            env,
        ) + (if start_result(plan_keys(keys, actions.subrange(0, i), root, env), actions[i], e, root, env)
            is None {
            seq![action_path_of(actions[i])]
        } else {
            Seq::<Seq<char>>::empty()
        }),
    decreases i,
{
    let a = actions.subrange(0, i + 1);
    let b = actions.subrange(0, i);
    if i == 0 {
        assert(a.len() == 1);
        assert(a[0] == actions[0]);
        assert(a.subrange(1, 1) =~= Seq::<ActionV>::empty());
        assert(b =~= Seq::<ActionV>::empty());
        let k0 = start_keys_after(keys, actions[0], root, env);
        let head = (match start_result(keys, actions[0], e, root, env) {
            Option::Some(Option::Some(s)) => seq![s],
            _ => Seq::<SpawnSpecV>::empty(),
        });
        assert(plan_keys(keys, a, root, env) == plan_keys(k0, a.subrange(1, 1), root, env));
        assert(plan_keys(k0, Seq::<ActionV>::empty(), root, env) == k0);
        assert(plan_keys(keys, Seq::<ActionV>::empty(), root, env) == keys);
        assert(plan_spawns(keys, a, e, root, env) == head + plan_spawns(
            k0,
            a.subrange(1, 1),
            e,
            root,
            env,
        ));
        assert(plan_spawns(k0, Seq::<ActionV>::empty(), e, root, env)
            == Seq::<SpawnSpecV>::empty());
        assert(plan_spawns(keys, Seq::<ActionV>::empty(), e, root, env)
            == Seq::<SpawnSpecV>::empty());
        assert(head + Seq::<SpawnSpecV>::empty() =~= head);
        assert(Seq::<SpawnSpecV>::empty() + head =~= head);
        let ehead = (if start_result(keys, actions[0], e, root, env) is None {
            seq![action_path_of(actions[0])]
        } else {
            Seq::<Seq<char>>::empty()
        });
        assert(plan_error_paths(keys, a, e, root, env) == ehead + plan_error_paths(
            k0,
            a.subrange(1, 1),
            e,
            root,
            env,
        ));
        assert(plan_error_paths(k0, Seq::<ActionV>::empty(), e, root, env)
            == Seq::<Seq<char>>::empty());
        assert(plan_error_paths(keys, Seq::<ActionV>::empty(), e, root, env)
            == Seq::<Seq<char>>::empty());
        assert(ehead + Seq::<Seq<char>>::empty() =~= ehead);
        assert(Seq::<Seq<char>>::empty() + ehead =~= ehead);
    } else {
        let rest = actions.subrange(1, actions.len() as int);
        lemma_plan_snoc(start_keys_after(keys, actions[0], root, env), rest, e, root, env, i - 1);
        assert(a[0] == actions[0]);
        assert(a.subrange(1, a.len() as int) =~= rest.subrange(0, i));
        assert(b[0] == actions[0]);
        assert(b.subrange(1, b.len() as int) =~= rest.subrange(0, i - 1));
        assert(rest[i - 1] == actions[i]);
        let k0 = start_keys_after(keys, actions[0], root, env);
        let step = (match start_result(plan_keys(k0, rest.subrange(0, i - 1), root, env),
        rest[i - 1], e, root, env) {
            Option::Some(Option::Some(s)) => seq![s],
            _ => Seq::<SpawnSpecV>::empty(),
        });
        let head = (match start_result(keys, actions[0], e, root, env) {
            Option::Some(Option::Some(s)) => seq![s],
            _ => Seq::<SpawnSpecV>::empty(),
        });
        assert(plan_spawns(keys, a, e, root, env) == head + plan_spawns(
            k0,
            rest.subrange(0, i),
            e,
            root,
            env,
        ));
        assert(plan_spawns(keys, b, e, root, env) == head + plan_spawns(
            k0,
            rest.subrange(0, i - 1),
            e,
            root,
            env,
        ));
        assert(head + (plan_spawns(k0, rest.subrange(0, i - 1), e, root, env) + step) =~= (head
            + plan_spawns(k0, rest.subrange(0, i - 1), e, root, env)) + step);
        let estep = (if start_result(plan_keys(k0, rest.subrange(0, i - 1), root, env),
        rest[i - 1], e, root, env) is None {
            seq![action_path_of(rest[i - 1])]
        } else {
            Seq::<Seq<char>>::empty()
        });
        let ehead = (if start_result(keys, actions[0], e, root, env) is None {
            seq![action_path_of(actions[0])]
        } else {
            Seq::<Seq<char>>::empty()
        });
        assert(plan_error_paths(keys, a, e, root, env) == ehead + plan_error_paths(
            k0,
            rest.subrange(0, i),
            e,
            root,
            env,
        ));
        assert(plan_error_paths(keys, b, e, root, env) == ehead + plan_error_paths(
            k0,
            rest.subrange(0, i - 1),
            e,
            root,
            env,
        ));
        assert(ehead + (plan_error_paths(k0, rest.subrange(0, i - 1), e, root, env) + estep) =~= (
        ehead + plan_error_paths(k0, rest.subrange(0, i - 1), e, root, env)) + estep);
    }
}

/// The result of a batch start: the spawns to perform and the actions that
/// could not be prepared.
pub struct StartBatch {
    pub spawns: Vec<SpawnSpec>,
    pub errors: Vec<ActionError>,
}

impl ActionOrchestrator {
    /// Claims a fresh single-instance key.
    fn claim_key(&mut self, key: String)
        requires
            old(self).wf(),
            !key_in(old(self).keys_view(), key@),
        ensures
            final(self).wf(),
            final(self).active_view() == old(self).active_view(),
            final(self).keys_view() == old(self).keys_view().push(key@),
    {
        let ghost keys0 = self.keys_view();
        let ghost prevk = self.running_single_instance_actions;
        self.running_single_instance_actions.push(key);
        proof {
            crate::strutil::lemma_deep_view_push(
                prevk,
                self.running_single_instance_actions,
                self.running_single_instance_actions@[
                    self.running_single_instance_actions@.len() - 1],
            );
            assert(self.keys_view() =~= keys0.push(key@));
            let cur = self.keys_view();
            assert forall|x: int, y: int| 0 <= x < y < cur.len() implies cur[x] != cur[y] by {
                if y < keys0.len() {
                    assert(cur[x] == keys0[x] && cur[y] == keys0[y]);
                    assert(old(self).keys_view()[x] != old(self).keys_view()[y]);
                } else {
                    assert(cur[x] == keys0[x]);
                    assert(!key_in(keys0, cur[y]));
                }
            }
            assert forall|x: int, y: int|
                0 <= x < y < self.active_view().len() implies self.active_view()[x].pid
                != self.active_view()[y].pid by {
                assert(old(self).active_view()[x].pid != old(self).active_view()[y].pid);
            }
        }
    }

    /// Decides one action: skips a single-instance duplicate silently and
    /// prepares the spawn of an executable action; the single-instance key
    /// is claimed only once the spawn is decided, so a skipped, scripted or
    /// failing action never pins its key. Children already running are
    /// untouched.
    pub fn start_action(&mut self, action: Action, event: &ProcessEvent, ctx: &ResolveContext)
        -> (r: Result<Option<SpawnSpec>, ActionError>)
        requires
            old(self).wf(),
        ensures
            final(self).wf(),
            final(self).active_view() == old(self).active_view(),
            final(self).keys_view() == start_keys_after(
                old(self).keys_view(),
                action@,
                ctx.root_view(),
                ctx.env_view(),
            ),
            match r {
                Result::Ok(Option::None) => start_result(
                    old(self).keys_view(),
                    action@,
                    event@,
                    ctx.root_view(),
                    ctx.env_view(),
                ) == Option::Some(Option::<SpawnSpecV>::None),
                Result::Ok(Option::Some(s)) => start_result(
                    old(self).keys_view(),
                    action@,
                    event@,
                    ctx.root_view(),
                    ctx.env_view(),
                ) == Option::Some(Option::Some(s@)),
                Result::Err(e) => start_result(
                    old(self).keys_view(),
                    action@,
                    event@,
                    ctx.root_view(),
                    ctx.env_view(),
                ) is None && e@ == action_path_of(action@),
            },
    {
        let mut claimed: Option<String> = Option::None;
        if action.is_single_instance() {
            let key = action.get_action_key();
            if self.key_running(&key) {
                return Result::Ok(Option::None);
            }
            claimed = Option::Some(key);
        }
        let cloned = action.clone();
        match cloned {
            Action::Executable { path, args, single_instance: _ } => {
                match start_executable_action(path, args, action, event, ctx) {
                    Result::Ok(s) => {
                        match claimed {
                            Option::Some(key) => {
                                self.claim_key(key);
                            },
                            Option::None => {},
                        }
                        Result::Ok(Option::Some(s))
                    },
                    Result::Err(e) => Result::Err(e),
                }
            },
            Action::Lua { script: _, single_instance: _ } => Result::Ok(Option::None),
        }
    }

    /// Releases the single-instance key claimed for a decided spawn that the
    /// runner could not perform; an action without the flag holds no key and
    /// nothing changes.
    pub fn release_action_key(&mut self, action: &Action)
        requires
            old(self).wf(),
        ensures
            final(self).wf(),
            final(self).active_view() == old(self).active_view(),
            action_single_instance(action@) ==> final(self).keys_view() == remove_key_once(
                old(self).keys_view(),
                action_key_spec(action@),
            ),
            !action_single_instance(action@) ==> *final(self) == *old(self),
    {
        if action.is_single_instance() {
            let key = action.get_action_key();
            self.release_key(&key);
        }
    }

    /// Decides a whole batch of actions in order, collecting the spawns to
    /// perform and the per-action failures; a failure does not stop the
    /// actions after it.
    pub fn start_actions(&mut self, actions: Vec<Action>, event: &ProcessEvent, ctx:
        &ResolveContext) -> (r: StartBatch)
        requires
            old(self).wf(),
        ensures
            final(self).wf(),
            final(self).active_view() == old(self).active_view(),
            final(self).keys_view() == plan_keys(
                old(self).keys_view(),
                actions.deep_view(),
                ctx.root_view(),
                ctx.env_view(),
            ),
            actions@.len() == 0 ==> *final(self) == *old(self),
            r.spawns.deep_view() == plan_spawns(
                old(self).keys_view(),
                actions.deep_view(),
                event@,
                ctx.root_view(),
                ctx.env_view(),
            ),
            r.errors.deep_view() == plan_error_paths(
                old(self).keys_view(),
                actions.deep_view(),
                event@,
                ctx.root_view(),
                ctx.env_view(),
            ),
    {
        let ghost keys0 = self.keys_view();
        let ghost av = actions.deep_view();
        let ghost ev = event@;
        let ghost rootv = ctx.root_view();
        let ghost envv = ctx.env_view();
        let mut spawns: Vec<SpawnSpec> = Vec::new();
        let mut errors: Vec<ActionError> = Vec::new();
        let mut i: usize = 0;
        proof {
            assert(av.subrange(0, 0) =~= Seq::<ActionV>::empty());
            assert(spawns.deep_view() =~= plan_spawns(keys0, av.subrange(0, 0), ev, rootv, envv));
            assert(errors.deep_view() =~= plan_error_paths(
                keys0,
                av.subrange(0, 0),
                ev,
                rootv,
                envv,
            ));
        }
        while i < actions.len()
            invariant
                i <= actions@.len(),
                av == actions.deep_view(),
                ev == event@,
                rootv == ctx.root_view(),
                envv == ctx.env_view(),
                self.wf(),
                self.active_view() == old(self).active_view(),
                keys0 == old(self).keys_view(),
                i == 0 ==> *self == *old(self),
                self.keys_view() == plan_keys(keys0, av.subrange(0, i as int), rootv, envv),
                spawns.deep_view() == plan_spawns(keys0, av.subrange(0, i as int), ev, rootv, envv),
                errors.deep_view() == plan_error_paths(
                    keys0,
                    av.subrange(0, i as int),
                    ev,
                    rootv,
                    envv,
                ),
            decreases actions.len() - i,
        {
            let a = actions[i].clone();
            proof {
                lemma_plan_snoc(keys0, av, ev, rootv, envv, i as int);
                assert(a@ == av[i as int]);
            }
            match self.start_action(a, event, ctx) {
                Result::Ok(Option::Some(s)) => {
                    let ghost prevs = spawns;
                    spawns.push(s);
                    proof {
                        crate::strutil::lemma_deep_view_push(
                            prevs,
                            spawns,
                            spawns@[spawns@.len() - 1],
                        );
                        assert(spawns.deep_view() =~= plan_spawns(
                            keys0,
                            av.subrange(0, i + 1),
                            ev,
                            rootv,
                            envv,
                        ));
                        assert(errors.deep_view() + Seq::<Seq<char>>::empty()
                            =~= errors.deep_view());
                    }
                },
                Result::Ok(Option::None) => {
                    proof {
                        assert(spawns.deep_view() + Seq::<SpawnSpecV>::empty()
                            =~= spawns.deep_view());
                        assert(errors.deep_view() + Seq::<Seq<char>>::empty()
                            =~= errors.deep_view());
                    }
                },
                Result::Err(e) => {
                    let ghost preve = errors;
                    errors.push(e);
                    proof {
                        crate::strutil::lemma_deep_view_push(
                            preve,
                            errors,
                            errors@[errors@.len() - 1],
                        );
                        assert(errors.deep_view() =~= plan_error_paths(
                            keys0,
                            av.subrange(0, i + 1),
                            ev,
                            rootv,
                            envv,
                        ));
                        assert(spawns.deep_view() + Seq::<SpawnSpecV>::empty()
                            =~= spawns.deep_view());
                    }
                },
            }
            i = i + 1;
        }
        proof {
            assert(av.subrange(0, actions@.len() as int) =~= av);
        }
        StartBatch { spawns, errors }
    }
}

/// `keys` with the first occurrence of `k` removed, if one exists.
pub open spec fn remove_key_once(keys: Seq<Seq<char>>, k: Seq<char>) -> Seq<Seq<char>>
    decreases keys.len(),
{
    if keys.len() == 0 {
        keys
    } else if keys[0] == k {
        keys.subrange(1, keys.len() as int)
    } else {
        seq![keys[0]] + remove_key_once(keys.subrange(1, keys.len() as int), k)
    }
}

/// Removing at the first occurrence cuts that element out.
pub proof fn lemma_remove_key_once_at(keys: Seq<Seq<char>>, k: Seq<char>, m: int)
    requires
        0 <= m < keys.len(),
        keys[m] == k,
        forall|j: int| 0 <= j < m ==> keys[j] != k,
    ensures
        remove_key_once(keys, k) == keys.subrange(0, m) + keys.subrange(m + 1, keys.len() as int),
    decreases m,
{
    if m == 0 {
        assert(keys.subrange(0, 0) + keys.subrange(1, keys.len() as int) =~= keys.subrange(
            1,
            keys.len() as int,
        ));
    } else {
        let t = keys.subrange(1, keys.len() as int);
        assert(forall|j: int| 0 <= j < m - 1 ==> t[j] == keys[j + 1] && t[j] != k);
        assert(t[m - 1] == keys[m]);
        lemma_remove_key_once_at(t, k, m - 1);
        assert(t.subrange(0, m - 1) =~= keys.subrange(1, m));
        assert(t.subrange(m, t.len() as int) =~= keys.subrange(m + 1, keys.len() as int));
        assert(seq![keys[0]] + (keys.subrange(1, m) + keys.subrange(m + 1, keys.len() as int))
            =~= keys.subrange(0, m) + keys.subrange(m + 1, keys.len() as int));
    }
}

/// Removing an absent key changes nothing.
pub proof fn lemma_remove_key_once_none(keys: Seq<Seq<char>>, k: Seq<char>)
    requires
        forall|j: int| 0 <= j < keys.len() ==> keys[j] != k,
    ensures
        remove_key_once(keys, k) == keys,
    decreases keys.len(),
{
    if keys.len() > 0 {
        let t = keys.subrange(1, keys.len() as int);
        assert(forall|j: int| 0 <= j < t.len() ==> t[j] == keys[j + 1] && t[j] != k);
        lemma_remove_key_once_none(t, k);
        assert(seq![keys[0]] + t =~= keys);
    }
}

/// The key set after releasing the keys of the removed actions, in order;
/// only single-instance actions hold keys.
pub open spec fn remove_action_keys(keys: Seq<Seq<char>>, removed: Seq<ActiveActionV>) -> Seq<
    Seq<char>,
>
    decreases removed.len(),
{
    if removed.len() == 0 {
        keys
    } else {
        remove_action_keys(
            if action_single_instance(removed[0].action) {
                remove_key_once(keys, action_key_spec(removed[0].action))
            } else {
                keys
            },
            removed.subrange(1, removed.len() as int),
        )
    }
}

/// Releasing one more action's key continues from the keys reached so far.
pub proof fn lemma_remove_action_keys_snoc(
    keys: Seq<Seq<char>>,
    removed: Seq<ActiveActionV>,
    i: int,
)
    requires
        0 <= i < removed.len(),
    ensures
        remove_action_keys(keys, removed.subrange(0, i + 1)) == ({
            let cur = remove_action_keys(keys, removed.subrange(0, i));
            if action_single_instance(removed[i].action) {
                remove_key_once(cur, action_key_spec(removed[i].action))
            } else {
                cur
            }
        }),
    decreases i,
{
    let a = removed.subrange(0, i + 1);
    let b = removed.subrange(0, i);
    if i == 0 {
        assert(a.len() == 1);
        assert(a[0] == removed[0]);
        assert(a.subrange(1, 1) =~= Seq::<ActiveActionV>::empty());
        assert(b =~= Seq::<ActiveActionV>::empty());
        let k0 = if action_single_instance(a[0].action) {
            remove_key_once(keys, action_key_spec(a[0].action))
        } else {
            keys
        };
        assert(remove_action_keys(keys, a) == remove_action_keys(k0, a.subrange(1, 1)));
        assert(remove_action_keys(k0, Seq::<ActiveActionV>::empty()) == k0);
        assert(remove_action_keys(keys, Seq::<ActiveActionV>::empty()) == keys);
    } else {
        let k0 = if action_single_instance(removed[0].action) {
            remove_key_once(keys, action_key_spec(removed[0].action))
        } else {
            keys
        };
        let rest = removed.subrange(1, removed.len() as int);
        lemma_remove_action_keys_snoc(k0, rest, i - 1);
        assert(a[0] == removed[0]);
        assert(a.subrange(1, a.len() as int) =~= rest.subrange(0, i));
        assert(b[0] == removed[0]);
        assert(b.subrange(1, b.len() as int) =~= rest.subrange(0, i - 1));
        assert(rest[i - 1] == removed[i]);
    }
}

/// Every child of every entry, in entry order.
pub open spec fn flatten_actions(entries: Seq<PidEntryV>) -> Seq<ActiveActionV>
    decreases entries.len(),
{
    if entries.len() == 0 {
        Seq::<ActiveActionV>::empty()
    } else {
        entries[0].actions + flatten_actions(entries.subrange(1, entries.len() as int))
    }
}

impl ActionOrchestrator {
    /// Releases the first tracked occurrence of `key`, if any.
    #[verifier::loop_isolation(false)]
    fn release_key(&mut self, key: &String)
        requires
            old(self).wf(),
        ensures
            final(self).wf(),
            final(self).active_view() == old(self).active_view(),
            final(self).keys_view() == remove_key_once(old(self).keys_view(), key@),
    {
        let ghost keys0 = self.keys_view();
        let mut i: usize = 0;
        while i < self.running_single_instance_actions.len()
            invariant
                i <= self.keys_view().len(),
                self == old(self),
                keys0 == self.keys_view(),
                forall|j: int| 0 <= j < i ==> self.keys_view()[j] != key@,
            decreases self.running_single_instance_actions.len() - i,
        {
            if crate::config::strings_equal(&self.running_single_instance_actions[i], key) {
                let ghost prevk = self.running_single_instance_actions@;
                self.running_single_instance_actions.remove(i);
                proof {
                    lemma_remove_key_once_at(keys0, key@, i as int);
                    let cur = self.keys_view();
                    let target = keys0.subrange(0, i as int) + keys0.subrange(
                        i + 1,
                        keys0.len() as int,
                    );
                    assert forall|j: int| 0 <= j < cur.len() implies cur[j] == target[j] by {
                        if j < i {
                            assert(self.running_single_instance_actions@[j] == prevk[j]);
                        } else {
                            assert(self.running_single_instance_actions@[j] == prevk[j + 1]);
                        }
                    }
                    assert(cur =~= target);
                    assert forall|x: int, y: int|
                        0 <= x < y < cur.len() implies cur[x] != cur[y] by {
                        if y < i {
                            assert(cur[x] == keys0[x] && cur[y] == keys0[y]);
                            assert(keys0[x] != keys0[y]);
                        } else if x < i {
                            assert(cur[x] == keys0[x] && cur[y] == keys0[y + 1]);
                            assert(keys0[x] != keys0[y + 1]);
                        } else {
                            assert(cur[x] == keys0[x + 1] && cur[y] == keys0[y + 1]);
                            assert(keys0[x + 1] != keys0[y + 1]);
                        }
                    }
                    assert forall|x: int, y: int|
                        0 <= x < y < self.active_view().len() implies self.active_view()[x].pid
                        != self.active_view()[y].pid by {
                        assert(old(self).active_view()[x].pid != old(self).active_view()[y].pid);
                    }
                }
                return ;
            }
            i = i + 1;
        }
        proof {
            lemma_remove_key_once_none(keys0, key@);
        }
    }

    /// Called when the observed process with `target_pid` ends: unbinds and
    /// returns its children, releasing the keys of its single-instance
    /// actions. With no children bound to the pid, nothing changes.
    pub fn finish_action(&mut self, target_pid: u32) -> (removed: Vec<ActiveAction>)
        requires
            old(self).wf(),
        ensures
            final(self).wf(),
            pid_index(old(self).active_view(), target_pid) < 0 ==> *final(self) == *old(self)
                && removed@.len() == 0,
            pid_index(old(self).active_view(), target_pid) >= 0 ==> ({
                let i = pid_index(old(self).active_view(), target_pid);
                &&& removed.deep_view() == old(self).active_view()[i].actions
                &&& final(self).active_view() == old(self).active_view().subrange(0, i)
                    + old(self).active_view().subrange(i + 1, old(self).active_view().len() as int)
                &&& final(self).keys_view() == remove_action_keys(
                    old(self).keys_view(),
                    removed.deep_view(),
                )
            }),
    {
        let idx = match self.find_pid(target_pid) {
            Option::Some(i) => i,
            Option::None => {
                return Vec::new();
            },
        };
        let ghost pre = self.active_view();
        let ghost pre_exec = self.active_actions@;
        let entry = self.active_actions.remove(idx);
        proof {
            let cur = self.active_view();
            let target = pre.subrange(0, idx as int) + pre.subrange(idx + 1, pre.len() as int);
            assert forall|j: int| 0 <= j < cur.len() implies cur[j] == target[j] by {
                if j < idx {
                    assert(self.active_actions@[j] == pre_exec[j]);
                } else {
                    assert(self.active_actions@[j] == pre_exec[j + 1]);
                }
            }
            assert(cur =~= target);
            assert forall|x: int, y: int|
                0 <= x < y < cur.len() implies cur[x].pid != cur[y].pid by {
                if y < idx {
                } else if x < idx {
                    assert(cur[y] == pre[y + 1]);
                } else {
                    assert(cur[x] == pre[x + 1] && cur[y] == pre[y + 1]);
                }
            }
            assert(entry@ == pre[idx as int]);
            assert forall|x: int, y: int|
                0 <= x < y < self.keys_view().len() implies self.keys_view()[x]
                != self.keys_view()[y] by {
                assert(old(self).keys_view()[x] != old(self).keys_view()[y]);
            }
        }
        let removed = entry.actions;
        let ghost removedv = removed.deep_view();
        let ghost keys0 = self.keys_view();
        let ghost active1 = self.active_view();
        let mut i: usize = 0;
        proof {
            assert(removedv.subrange(0, 0) =~= Seq::<ActiveActionV>::empty());
        }
        while i < removed.len()
            invariant
                i <= removed@.len(),
                removedv == removed.deep_view(),
                self.wf(),
                self.active_view() == active1,
                self.keys_view() == remove_action_keys(keys0, removedv.subrange(0, i as int)),
            decreases removed.len() - i,
        {
            proof {
                lemma_remove_action_keys_snoc(keys0, removedv, i as int);
            }
            let a = &removed[i];
            if a.action.is_single_instance() {
                let key = a.action.get_action_key();
                self.release_key(&key);
            }
            i = i + 1;
        }
        proof {
            assert(removedv.subrange(0, removed@.len() as int) =~= removedv);
        }
        removed
    }

    /// Drains every tracked child for daemon shutdown, in entry order, and
    /// clears the single-instance keys.
    pub fn shutdown(&mut self) -> (all: Vec<ActiveAction>)
        requires
            old(self).wf(),
        ensures
            final(self).wf(),
            final(self).active_view() == Seq::<PidEntryV>::empty(),
            final(self).keys_view() == Seq::<Seq<char>>::empty(),
            all.deep_view() == flatten_actions(old(self).active_view()),
    {
        let ghost orig = self.active_view();
        let mut out: Vec<ActiveAction> = Vec::new();
        let ghost i: int = 0;
        proof {
            assert(orig.subrange(0, orig.len() as int) =~= orig);
            assert(out.deep_view() =~= Seq::<ActiveActionV>::empty());
            assert(out.deep_view() + flatten_actions(orig) =~= flatten_actions(orig));
        }
        while self.active_actions.len() > 0
            invariant
                0 <= i <= orig.len(),
                self.active_view() =~= orig.subrange(i, orig.len() as int),
                out.deep_view() + flatten_actions(orig.subrange(i, orig.len() as int))
                    == flatten_actions(orig),
            decreases self.active_actions.len(),
        {
            let ghost pre_exec = self.active_actions@;
            let ghost cur_entries = self.active_view();
            let mut entry = self.active_actions.remove(0);
            proof {
                assert(entry@ == cur_entries[0]);
                let now = self.active_view();
                assert forall|j: int| 0 <= j < now.len() implies now[j] == cur_entries[j + 1] by {
                    assert(self.active_actions@[j] == pre_exec[j + 1]);
                }
                assert(now =~= cur_entries.subrange(1, cur_entries.len() as int));
                assert(now =~= orig.subrange(i + 1, orig.len() as int));
            }
            let ghost out_pre = out.deep_view();
            let ghost entry_actions = entry.actions.deep_view();
            out.append(&mut entry.actions);
            proof {
                let cur = out.deep_view();
                assert forall|j: int| 0 <= j < cur.len() implies cur[j] == (out_pre
                    + entry_actions)[j] by {}
                assert(cur =~= out_pre + entry_actions);
                assert(flatten_actions(orig.subrange(i, orig.len() as int)) == cur_entries[0]
                    .actions + flatten_actions(orig.subrange(i + 1, orig.len() as int)));
                assert((out_pre + entry_actions) + flatten_actions(
                    orig.subrange(i + 1, orig.len() as int),
                ) =~= out_pre + (entry_actions + flatten_actions(
                    orig.subrange(i + 1, orig.len() as int),
                )));
                i = i + 1;
            }
        }
        proof {
            assert(orig.subrange(i, orig.len() as int).len() == 0);
            assert(i == orig.len());
            assert(flatten_actions(orig.subrange(orig.len() as int, orig.len() as int))
                == Seq::<ActiveActionV>::empty());
            assert(out.deep_view() + Seq::<ActiveActionV>::empty() =~= out.deep_view());
        }
        self.running_single_instance_actions.clear();
        proof {
            assert(self.active_view() =~= Seq::<PidEntryV>::empty());
            assert(self.keys_view() =~= Seq::<Seq<char>>::empty());
        }
        out
    }
}

/// Seconds a child is given between its stdin closing and a forced kill.
pub const TERMINATION_GRACE_SECS: u64 = 3;

/// Where one spawned child stands in its termination lifecycle.
#[derive(Clone, Copy, PartialEq, Eq, Structural, Debug)]
pub enum ChildPhase {
    /// Spawned; its command has not ended.
    Running,
    /// Its command ended and its stdin was closed, at `closed_at` (epoch
    /// seconds), to signal shutdown.
    StdinClosed { closed_at: u64 },
    /// Exited on its own after the stdin close.
    Exited,
    /// Force-killed at `killed_at` after outliving the grace period.
    Killed { killed_at: u64 },
}

/// The permitted transitions: stdin closes only while running; after the
/// close the child either exits on its own or, no earlier than the grace
/// period after the close, is killed.
pub open spec fn phase_step(pre: ChildPhase, post: ChildPhase) -> bool {
    match (pre, post) {
        (ChildPhase::Running, ChildPhase::StdinClosed { .. }) => true,
        (ChildPhase::StdinClosed { .. }, ChildPhase::Exited) => true,
        (ChildPhase::StdinClosed { closed_at }, ChildPhase::Killed { killed_at }) => killed_at
            >= closed_at + TERMINATION_GRACE_SECS,
        _ => false,
    }
}

/// The termination discipline for one child, driven by the runner: close
/// stdin when the command ends, then reap or — after the grace period —
/// kill.
pub struct ChildTermination {
    pub phase: ChildPhase,
}

impl ChildTermination {
    /// A freshly spawned child.
    pub fn new() -> (r: Self)
        ensures
            r.phase == ChildPhase::Running,
    {
        ChildTermination { phase: ChildPhase::Running }
    }

    /// Closes the child's stdin, exactly once, when its command ends.
    pub fn close_stdin(&mut self, now: u64)
        requires
            old(self).phase == ChildPhase::Running,
        ensures
            final(self).phase == (ChildPhase::StdinClosed { closed_at: now }),
            phase_step(old(self).phase, final(self).phase),
    {
        self.phase = ChildPhase::StdinClosed { closed_at: now };
    }

    /// Records that the child exited on its own after the stdin close.
    pub fn observe_exit(&mut self)
        requires
            old(self).phase matches ChildPhase::StdinClosed { .. },
        ensures
            final(self).phase == ChildPhase::Exited,
            phase_step(old(self).phase, final(self).phase),
    {
        self.phase = ChildPhase::Exited;
    }

    /// Force-kills the child; permitted only once the grace period since the
    /// stdin close has passed.
    pub fn force_kill(&mut self, now: u64)
        requires
            old(self).phase matches ChildPhase::StdinClosed { closed_at } && now >= closed_at
                + TERMINATION_GRACE_SECS,
        ensures
            final(self).phase == (ChildPhase::Killed { killed_at: now }),
            phase_step(old(self).phase, final(self).phase),
    {
        self.phase = ChildPhase::Killed { killed_at: now };
    }
}

/// A run of one child's phases: it starts out running, and every step is a
/// permitted transition.
pub open spec fn valid_trace(tr: Seq<ChildPhase>) -> bool {
    tr.len() > 0 && tr[0] == ChildPhase::Running && forall|i: int|
        0 <= i < tr.len() - 1 ==> phase_step(tr[i], #[trigger] tr[i + 1])
}

/// Lifetime law: in any permitted run, a forced kill is preceded by a stdin
/// close — between the spawn and the kill there is a close event.
pub proof fn lemma_kill_after_stdin_close(tr: Seq<ChildPhase>, j: int)
    requires
        valid_trace(tr),
        0 <= j < tr.len(),
        tr[j] matches ChildPhase::Killed { .. },
    ensures
        j > 0,
        tr[j - 1] matches ChildPhase::StdinClosed { .. },
        exists|i: int| 0 <= i < j && (#[trigger] tr[i]) matches ChildPhase::StdinClosed { .. },
{
    if j == 0 {
        assert(tr[0] == ChildPhase::Running);
        assert(false);
    }
    assert(phase_step(tr[j - 1], tr[(j - 1) + 1]));
    assert(phase_step(tr[j - 1], tr[j]));
}

/// Grace law: no child is force-killed before its stdin has been closed for
/// at least the grace period.
pub proof fn lemma_grace_period(tr: Seq<ChildPhase>, j: int)
    requires
        valid_trace(tr),
        0 <= j < tr.len(),
        tr[j] matches ChildPhase::Killed { .. },
    ensures
        j > 0 && (tr[j - 1] matches ChildPhase::StdinClosed { closed_at } && (
        tr[j] matches ChildPhase::Killed { killed_at } && killed_at >= closed_at
            + TERMINATION_GRACE_SECS)),
{
    if j == 0 {
        assert(tr[0] == ChildPhase::Running);
        assert(false);
    }
    assert(phase_step(tr[j - 1], tr[(j - 1) + 1]));
    assert(phase_step(tr[j - 1], tr[j]));
}

/// Binding law: in a batch start, each action contributes exactly one spawn
/// per `Started` event when it is executable, its path resolves and — if
/// single-instance — its key is free at its turn; otherwise it contributes
/// none. A skipped single-instance action's key was already held, and a
/// launched one's key is tracked afterwards.
pub proof fn lemma_binding(
    keys: Seq<Seq<char>>,
    actions: Seq<ActionV>,
    e: ProcessEventV,
    root: Option<Seq<char>>,
    env: Seq<EnvVarV>,
    i: int,
)
    requires
        0 <= i < actions.len(),
    ensures
        ({
            let before = plan_spawns(keys, actions.subrange(0, i), e, root, env);
            let after = plan_spawns(keys, actions.subrange(0, i + 1), e, root, env);
            let kcur = plan_keys(keys, actions.subrange(0, i), root, env);
            match start_result(kcur, actions[i], e, root, env) {
                Option::Some(Option::Some(s)) => after == before.push(s) && s.action == actions[i]
                    && (action_single_instance(actions[i]) ==> !key_in(
                    kcur,
                    action_key_spec(actions[i]),
                ) && key_in(
                    plan_keys(keys, actions.subrange(0, i + 1), root, env),
                    action_key_spec(actions[i]),
                )),
                Option::Some(Option::None) => after == before && (actions[i] matches
                ActionV::Executable { .. } ==> action_single_instance(actions[i]) && key_in(
                    kcur,
                    action_key_spec(actions[i]),
                )),
                Option::None => after == before,
            }
        }),
{
    lemma_plan_snoc(keys, actions, e, root, env, i);
    let before = plan_spawns(keys, actions.subrange(0, i), e, root, env);
    let kcur = plan_keys(keys, actions.subrange(0, i), root, env);
    match start_result(kcur, actions[i], e, root, env) {
        Option::Some(Option::Some(s)) => {
            assert(before + seq![s] =~= before.push(s));
            if action_single_instance(actions[i]) {
                lemma_key_claimed(kcur, actions[i], root, env);
            }
        },
        _ => {
            assert(before + Seq::<SpawnSpecV>::empty() =~= before);
        },
    }
}

/// A single-instance action for which a spawn is decided — it is executable
/// and its path resolves — has its key tracked afterwards.
pub proof fn lemma_key_claimed(
    keys: Seq<Seq<char>>,
    a: ActionV,
    root: Option<Seq<char>>,
    env: Seq<EnvVarV>,
)
    requires
        action_single_instance(a),
        a matches ActionV::Executable { path, .. } && resolve_spec(path, root, env) is Some,
    ensures
        key_in(start_keys_after(keys, a, root, env), action_key_spec(a)),
{
    if !key_in(keys, action_key_spec(a)) {
        let k2 = keys.push(action_key_spec(a));
        assert(k2[keys.len() as int] == action_key_spec(a));
    }
}

} // verus!
