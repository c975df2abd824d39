//! The rule configuration model: rules pairing command glob patterns with
//! actions to launch, together with the action key used for single-instance
//! tracking and the configuration fingerprint that the rule engine's cache is
//! keyed by.

use vstd::prelude::*;
use crate::strutil::join_sep;
use crate::strutil::join_with_spaces;

verus! {

/// Mathematical view of an `Action`.
pub enum ActionV {
    Executable { path: Seq<char>, args: Option<Seq<Seq<char>>>, single_instance: bool },
    Lua { script: Seq<char>, single_instance: bool },
}

/// Mathematical view of `Commands`.
pub enum CommandsV {
    Single(Seq<char>),
    Multiple(Seq<Seq<char>>),
}

/// Mathematical view of `Actions`.
pub enum ActionsV {
    Single(ActionV),
    Multiple(Seq<ActionV>),
}

/// Mathematical view of a `Rule`.
pub struct RuleV {
    pub command: CommandsV,
    pub action: ActionsV,
}

/// Mathematical view of a `Config`.
pub struct ConfigV {
    pub rules: Seq<RuleV>,
    pub viberot_home: Option<Seq<char>>,
}

/// One program to launch when a command matches a rule.
pub enum Action {
    Executable { path: String, args: Option<Vec<String>>, single_instance: bool },
    Lua { script: String, single_instance: bool },
}

/// One glob pattern, or several, that a rule applies to.
pub enum Commands {
    Single(String),
    Multiple(Vec<String>),
}

/// One action, or several, that a rule launches.
pub enum Actions {
    Single(Action),
    Multiple(Vec<Action>),
}

/// A pairing of command patterns with the actions they launch.
pub struct Rule {
    pub command: Commands,
    pub action: Actions,
}

/// The ordered rule set, replaced atomically on reload.
pub struct Config {
    pub rules: Vec<Rule>,
    pub viberot_home: Option<String>,
}

impl View for Action {
    type V = ActionV;

    open spec fn view(&self) -> ActionV {
        match self {
            Action::Executable { path, args, single_instance } => ActionV::Executable {
                path: path@,
                args: args.deep_view(),
                single_instance: *single_instance,
            },
            Action::Lua { script, single_instance } => ActionV::Lua {
                script: script@,
                single_instance: *single_instance,
            },
        }
    }
}

impl DeepView for Action {
    type V = ActionV;

    open spec fn deep_view(&self) -> ActionV {
        self.view()
    }
}

impl View for Commands {
    type V = CommandsV;

    open spec fn view(&self) -> CommandsV {
        match self {
            Commands::Single(s) => CommandsV::Single(s@),
            Commands::Multiple(v) => CommandsV::Multiple(v.deep_view()),
        }
    }
}

impl View for Actions {
    type V = ActionsV;

    open spec fn view(&self) -> ActionsV {
        match self {
            Actions::Single(a) => ActionsV::Single(a@),
            Actions::Multiple(v) => ActionsV::Multiple(v.deep_view()),
        }
    }
}

impl View for Rule {
    type V = RuleV;

    open spec fn view(&self) -> RuleV {
        RuleV { command: self.command@, action: self.action@ }
    }
}

impl DeepView for Rule {
    type V = RuleV;

    open spec fn deep_view(&self) -> RuleV {
        self.view()
    }
}

impl View for Config {
    type V = ConfigV;

    open spec fn view(&self) -> ConfigV {
        ConfigV { rules: self.rules.deep_view(), viberot_home: self.viberot_home.deep_view() }
    }
}

/// The command patterns of a rule, in declaration order.
pub open spec fn commands_seq(c: CommandsV) -> Seq<Seq<char>> {
    match c {
        CommandsV::Single(s) => seq![s],
        CommandsV::Multiple(v) => v,
    }
}

/// The actions of a rule, in declaration order.
pub open spec fn actions_seq(a: ActionsV) -> Seq<ActionV> {
    match a {
        ActionsV::Single(x) => seq![x],
        ActionsV::Multiple(v) => v,
    }
}

impl Commands {
    /// The patterns as a list, whether the rule wrote one or many.
    pub fn as_vec(&self) -> (r: Vec<&String>)
        ensures
            r.deep_view() == commands_seq(self@),
    {
        match self {
            Commands::Single(cmd) => {
                let mut v: Vec<&String> = Vec::new();
                v.push(cmd);
                assert(v.deep_view() =~= commands_seq(self@));
                v
            },
            Commands::Multiple(cmds) => {
                let mut v: Vec<&String> = Vec::new();
                let mut i: usize = 0;
                while i < cmds.len()
                    invariant
                        i <= cmds.len(),
                        v.deep_view() == cmds.deep_view().subrange(0, i as int),
                    decreases cmds.len() - i,
                {
                    let ghost prev = v;
                    v.push(&cmds[i]);
                    i = i + 1;
                    proof {
                        crate::strutil::lemma_deep_view_push(prev, v, &cmds@[i - 1]);
                        assert(v.deep_view() =~= cmds.deep_view().subrange(0, i as int));
                    }
                }
                assert(v.deep_view() =~= commands_seq(self@));
                v
            },
        }
    }
}

impl Actions {
    /// The actions as a list of borrows, whether the rule wrote one or many.
    pub fn as_vec(&self) -> (r: Vec<&Action>)
        ensures
            r.deep_view() == actions_seq(self@),
    {
        match self {
            Actions::Single(a) => {
                let mut v: Vec<&Action> = Vec::new();
                v.push(a);
                assert(v.deep_view() =~= actions_seq(self@));
                v
            },
            Actions::Multiple(list) => {
                let mut v: Vec<&Action> = Vec::new();
                let mut i: usize = 0;
                while i < list.len()
                    invariant
                        i <= list.len(),
                        v.deep_view() == list.deep_view().subrange(0, i as int),
                    decreases list.len() - i,
                {
                    let ghost prev = v;
                    v.push(&list[i]);
                    i = i + 1;
                    proof {
                        crate::strutil::lemma_deep_view_push(prev, v, &list@[i - 1]);
                        assert(v.deep_view() =~= list.deep_view().subrange(0, i as int));
                    }
                }
                assert(v.deep_view() =~= actions_seq(self@));
                v
            },
        }
    }

    /// The actions as an owned list.
    pub fn into_vec(self) -> (r: Vec<Action>)
        ensures
            r.deep_view() == actions_seq(self@),
    {
        match self {
            Actions::Single(a) => {
                let mut v: Vec<Action> = Vec::new();
                let ghost av = a@;
                v.push(a);
                assert(v.deep_view() =~= seq![av]);
                v
            },
            Actions::Multiple(list) => {
                assert(list.deep_view() =~= actions_seq(self@));
                list
            },
        }
    }
}

impl Clone for Action {
    /// A clone carries the same path, arguments and single-instance flag.
    fn clone(&self) -> (r: Self)
        ensures
            r@ == self@,
    {
        match self {
            Action::Executable { path, args, single_instance } => {
                let args2: Option<Vec<String>> = match args {
                    Option::Some(a) => {
                        let ac = a.clone();
                        proof {
                            assert forall|i: int| 0 <= i < a@.len() implies ac@[i] == a@[i] by {
                                assert(cloned::<String>(a@[i], ac@[i]));
                            }
                            assert(ac@ =~= a@);
                        }
                        Option::Some(ac)
                    },
                    Option::None => Option::None,
                };
                assert(args2.deep_view() =~= args.deep_view());
                Action::Executable {
                    path: path.clone(),
                    args: args2,
                    single_instance: *single_instance,
                }
            },
            Action::Lua { script, single_instance } => Action::Lua {
                script: script.clone(),
                single_instance: *single_instance,
            },
        }
    }
}

impl Clone for Commands {
    /// A clone carries the same patterns.
    fn clone(&self) -> (r: Self)
        ensures
            r@ == self@,
    {
        match self {
            Commands::Single(s) => Commands::Single(s.clone()),
            Commands::Multiple(v) => {
                let vc = v.clone();
                proof {
                    assert forall|i: int| 0 <= i < v@.len() implies vc@[i] == v@[i] by {
                        assert(cloned::<String>(v@[i], vc@[i]));
                    }
                    assert(vc@ =~= v@);
                }
                Commands::Multiple(vc)
            },
        }
    }
}

impl Clone for Actions {
    /// A clone carries the same actions.
    fn clone(&self) -> (r: Self)
        ensures
            r@ == self@,
    {
        match self {
            Actions::Single(a) => Actions::Single(a.clone()),
            Actions::Multiple(v) => {
                let vc = clone_action_vec(v);
                Actions::Multiple(vc)
            },
        }
    }
}

/// Clones a list of actions, keeping each action's view.
pub fn clone_action_vec(v: &Vec<Action>) -> (r: Vec<Action>)
    ensures
        r.deep_view() == v.deep_view(),
{
    let r = v.clone();
    proof {
        assert forall|i: int| 0 <= i < v@.len() implies r.deep_view()[i] == v.deep_view()[i] by {
            assert(cloned::<Action>(v@[i], r@[i]));
        }
        assert(r.deep_view() =~= v.deep_view());
    }
    r
}

impl Clone for Rule {
    /// A clone carries the same patterns and actions.
    fn clone(&self) -> (r: Self)
        ensures
            r@ == self@,
    {
        Rule { command: self.command.clone(), action: self.action.clone() }
    }
}

impl Clone for Config {
    /// A clone carries the same rules.
    fn clone(&self) -> (r: Self)
        ensures
            r@ == self@,
    {
        let rules = self.rules.clone();
        proof {
            assert forall|i: int| 0 <= i < self.rules@.len() implies rules.deep_view()[i]
                == self.rules.deep_view()[i] by {
                assert(cloned::<Rule>(self.rules@[i], rules@[i]));
            }
            assert(rules.deep_view() =~= self.rules.deep_view());
        }
        let home: Option<String> = match &self.viberot_home {
            Option::Some(s) => Option::Some(s.clone()),
            Option::None => Option::None,
        };
        assert(home.deep_view() =~= self.viberot_home.deep_view());
        Config { rules, viberot_home: home }
    }
}

impl Default for Config {
    /// The configuration a fresh installation starts with: no rules.
    fn default() -> (r: Self)
        ensures
            r@.rules.len() == 0,
            r@.viberot_home is None,
    {
        Config { rules: Vec::new(), viberot_home: Option::None }
    }
}

/// Whether two strings hold the same characters.
pub fn strings_equal(a: &String, b: &String) -> (r: bool)
    ensures
        r == (a@ == b@),
{
    a.eq(b)
}

/// Whether two string lists hold the same strings.
pub fn string_vecs_eq(a: &Vec<String>, b: &Vec<String>) -> (r: bool)
    ensures
        r == (a.deep_view() == b.deep_view()),
{
    if a.len() != b.len() {
        assert(a.deep_view().len() != b.deep_view().len());
        return false;
    }
    let mut i: usize = 0;
    while i < a.len()
        invariant
            i <= a.len(),
            a@.len() == b@.len(),
            forall|j: int| 0 <= j < i ==> a.deep_view()[j] == b.deep_view()[j],
        decreases a.len() - i,
    {
        if !strings_equal(&a[i], &b[i]) {
            assert(a.deep_view()[i as int] != b.deep_view()[i as int]);
            return false;
        }
        i = i + 1;
    }
    proof {
        assert(a.deep_view() =~= b.deep_view());
    }
    true
}

impl Action {
    /// Whether two actions are the same in every field.
    pub fn action_eq(&self, other: &Action) -> (r: bool)
        ensures
            r == (self@ == other@),
    {
        match (self, other) {
            (
                Action::Executable { path: p1, args: a1, single_instance: s1 },
                Action::Executable { path: p2, args: a2, single_instance: s2 },
            ) => {
                let paths = strings_equal(p1, p2);
                let args = match (a1, a2) {
                    (Option::Some(v1), Option::Some(v2)) => string_vecs_eq(v1, v2),
                    (Option::None, Option::None) => true,
                    _ => {
                        assert(a1.deep_view() != a2.deep_view());
                        false
                    },
                };
                paths && args && (*s1 == *s2)
            },
            (
                Action::Lua { script: c1, single_instance: s1 },
                Action::Lua { script: c2, single_instance: s2 },
            ) => strings_equal(c1, c2) && (*s1 == *s2),
            _ => false,
        }
    }
}

/// Whether two action lists are the same, elementwise.
pub fn action_vecs_eq(a: &Vec<Action>, b: &Vec<Action>) -> (r: bool)
    ensures
        r == (a.deep_view() == b.deep_view()),
{
    if a.len() != b.len() {
        assert(a.deep_view().len() != b.deep_view().len());
        return false;
    }
    let mut i: usize = 0;
    while i < a.len()
        invariant
            i <= a.len(),
            a@.len() == b@.len(),
            forall|j: int| 0 <= j < i ==> a.deep_view()[j] == b.deep_view()[j],
        decreases a.len() - i,
    {
        if !a[i].action_eq(&b[i]) {
            assert(a.deep_view()[i as int] != b.deep_view()[i as int]);
            return false;
        }
        i = i + 1;
    }
    proof {
        assert(a.deep_view() =~= b.deep_view());
    }
    true
}

impl Rule {
    /// Whether two rules are the same in every pattern and action.
    pub fn rule_eq(&self, other: &Rule) -> (r: bool)
        ensures
            r == (self@ == other@),
    {
        let commands = match (&self.command, &other.command) {
            (Commands::Single(s1), Commands::Single(s2)) => strings_equal(s1, s2),
            (Commands::Multiple(v1), Commands::Multiple(v2)) => string_vecs_eq(v1, v2),
            _ => false,
        };
        let actions = match (&self.action, &other.action) {
            (Actions::Single(a1), Actions::Single(a2)) => a1.action_eq(a2),
            (Actions::Multiple(v1), Actions::Multiple(v2)) => action_vecs_eq(v1, v2),
            _ => false,
        };
        commands && actions
    }
}

impl Config {
    /// Whether two configurations are the same rule for rule.
    pub fn config_eq(&self, other: &Config) -> (r: bool)
        ensures
            r == (self@ == other@),
    {
        if self.rules.len() != other.rules.len() {
            assert(self.rules.deep_view().len() != other.rules.deep_view().len());
            return false;
        }
        let mut i: usize = 0;
        while i < self.rules.len()
            invariant
                i <= self.rules.len(),
                self.rules@.len() == other.rules@.len(),
                forall|j: int|
                    0 <= j < i ==> self.rules.deep_view()[j] == other.rules.deep_view()[j],
            decreases self.rules.len() - i,
        {
            if !self.rules[i].rule_eq(&other.rules[i]) {
                assert(self.rules.deep_view()[i as int] != other.rules.deep_view()[i as int]);
                return false;
            }
            i = i + 1;
        }
        proof {
            assert(self.rules.deep_view() =~= other.rules.deep_view());
        }
        match (&self.viberot_home, &other.viberot_home) {
            (Option::Some(h1), Option::Some(h2)) => strings_equal(h1, h2),
            (Option::None, Option::None) => true,
            _ => false,
        }
    }
}

/// Whether the user asked for at most one live child of this action at a time.
pub open spec fn action_single_instance(a: ActionV) -> bool {
    match a {
        ActionV::Executable { single_instance, .. } => single_instance,
        ActionV::Lua { single_instance, .. } => single_instance,
    }
}

/// The key under which a single-instance action is tracked while it runs.
pub open spec fn action_key_spec(a: ActionV) -> Seq<char> {
    match a {
        ActionV::Executable { path, args, .. } => {
            let args_str = match args {
                Option::Some(list) => join_sep(list, " "@),
                Option::None => Seq::<char>::empty(),
            };
            "exec:"@ + path + ":"@ + args_str
        },
        ActionV::Lua { script, .. } => "lua:"@ + script,
    }
}

impl Action {
    /// Whether this action is configured to run as a single instance.
    pub fn is_single_instance(&self) -> (r: bool)
        ensures
            r == action_single_instance(self@),
    {
        match self {
            Action::Executable { single_instance, .. } => *single_instance,
            Action::Lua { single_instance, .. } => *single_instance,
        }
    }

    /// The unique key used to track single instances of this action.
    pub fn get_action_key(&self) -> (r: String)
        ensures
            r@ == action_key_spec(self@),
    {
        match self {
            Action::Executable { path, args, .. } => {
                let args_str: String = match args {
                    Option::Some(list) => join_with_spaces(list),
                    Option::None => String::new(),
                };
                let mut k = String::from_str("exec:");
                k.append(path.as_str());
                k.append(":");
                k.append(args_str.as_str());
                k
            },
            Action::Lua { script, .. } => {
                let mut k = String::from_str("lua:");
                k.append(script.as_str());
                k
            },
        }
    }
}

/// One mixing step of the fingerprint (FNV-1a style, 64 bit).
pub open spec fn fnv_step(h: u64, x: u64) -> u64 {
    vstd::wrapping::u64_specs::wrapping_mul(h ^ x, 0x100000001b3)
}

/// Folds the characters of `s` into the fingerprint, then a terminator.
pub open spec fn fp_chars(h: u64, s: Seq<char>) -> u64
    decreases s.len(),
{
    if s.len() == 0 {
        fnv_step(h, 0x101)
    } else {
        fp_chars(fnv_step(h, s[0] as u32 as u64), s.subrange(1, s.len() as int))
    }
}

/// Folds an optional string into the fingerprint.
pub open spec fn fp_opt_chars(h: u64, o: Option<Seq<char>>) -> u64 {
    match o {
        Option::Some(s) => fp_chars(fnv_step(h, 1), s),
        Option::None => fnv_step(h, 2),
    }
}

/// Folds a list of strings into the fingerprint.
pub open spec fn fp_strs(h: u64, ss: Seq<Seq<char>>) -> u64
    decreases ss.len(),
{
    if ss.len() == 0 {
        fnv_step(h, 0x102)
    } else {
        fp_strs(fp_chars(h, ss[0]), ss.subrange(1, ss.len() as int))
    }
}

/// Folds one action into the fingerprint.
pub open spec fn fp_action(h: u64, a: ActionV) -> u64 {
    match a {
        ActionV::Executable { path, args, single_instance } => {
            let h1 = fp_chars(fnv_step(h, 3), path);
            let h2 = match args {
                Option::Some(list) => fp_strs(fnv_step(h1, 1), list),
                Option::None => fnv_step(h1, 2),
            };
            fnv_step(h2, if single_instance { 1 } else { 0 })
        },
        ActionV::Lua { script, single_instance } => {
            let h1 = fp_chars(fnv_step(h, 4), script);
            fnv_step(h1, if single_instance { 1 } else { 0 })
        },
    }
}

/// Folds a list of actions into the fingerprint.
pub open spec fn fp_action_seq(h: u64, s: Seq<ActionV>) -> u64
    decreases s.len(),
{
    if s.len() == 0 {
        fnv_step(h, 0x103)
    } else {
        fp_action_seq(fp_action(h, s[0]), s.subrange(1, s.len() as int))
    }
}

/// Folds one rule into the fingerprint.
pub open spec fn fp_rule(h: u64, r: RuleV) -> u64 {
    let h1 = match r.command {
        CommandsV::Single(s) => fp_chars(fnv_step(h, 5), s),
        CommandsV::Multiple(ss) => fp_strs(fnv_step(h, 6), ss),
    };
    match r.action {
        ActionsV::Single(a) => fp_action(fnv_step(h1, 5), a),
        ActionsV::Multiple(list) => fp_action_seq(fnv_step(h1, 6), list),
    }
}

/// Folds a list of rules into the fingerprint.
pub open spec fn fp_rules(h: u64, rs: Seq<RuleV>) -> u64
    decreases rs.len(),
{
    if rs.len() == 0 {
        fnv_step(h, 0x104)
    } else {
        fp_rules(fp_rule(h, rs[0]), rs.subrange(1, rs.len() as int))
    }
}

/// The fingerprint of a configuration: a value that changes only when the
/// configuration changes, used to detect "same rule set" across reloads.
pub open spec fn config_fingerprint(c: ConfigV) -> u64 {
    fp_opt_chars(fp_rules(0xcbf29ce484222325, c.rules), c.viberot_home)
}

fn fnv_step_exec(h: u64, x: u64) -> (r: u64)
    ensures
        r == fnv_step(h, x),
{
    (h ^ x).wrapping_mul(0x100000001b3)
}

fn fp_chars_exec(h: u64, s: &str) -> (r: u64)
    ensures
        r == fp_chars(h, s@),
{
    let n = s.unicode_len();
    let mut cur: u64 = h;
    let mut i: usize = 0;
    proof {
        assert(s@.subrange(0, n as int) =~= s@);
    }
    while i < n
        invariant
            i <= n,
            n == s@.len(),
            fp_chars(h, s@) == fp_chars(cur, s@.subrange(i as int, n as int)),
        decreases n - i,
    {
        let c = s.get_char(i);
        proof {
            let rest = s@.subrange(i as int, n as int);
            assert(rest[0] == s@[i as int]);
            assert(rest.subrange(1, rest.len() as int) =~= s@.subrange(i + 1, n as int));
        }
        cur = fnv_step_exec(cur, c as u32 as u64);
        i = i + 1;
    }
    proof {
        assert(s@.subrange(n as int, n as int) =~= Seq::<char>::empty());
        assert(s@.subrange(0, n as int) =~= s@);
    }
    fnv_step_exec(cur, 0x101)
}

fn fp_strs_exec(h: u64, ss: &Vec<String>) -> (r: u64)
    ensures
        r == fp_strs(h, ss.deep_view()),
{
    let mut cur: u64 = h;
    let mut i: usize = 0;
    proof {
        assert(ss.deep_view().subrange(0, ss@.len() as int) =~= ss.deep_view());
    }
    while i < ss.len()
        invariant
            i <= ss.len(),
            fp_strs(h, ss.deep_view()) == fp_strs(
                cur,
                ss.deep_view().subrange(i as int, ss@.len() as int),
            ),
        decreases ss.len() - i,
    {
        proof {
            let rest = ss.deep_view().subrange(i as int, ss@.len() as int);
            assert(rest[0] == ss.deep_view()[i as int]);
            assert(rest.subrange(1, rest.len() as int) =~= ss.deep_view().subrange(
                i + 1,
                ss@.len() as int,
            ));
        }
        cur = fp_chars_exec(cur, parts_index(ss, i).as_str());
        i = i + 1;
    }
    proof {
        assert(ss.deep_view().subrange(ss@.len() as int, ss@.len() as int)
            =~= Seq::<Seq<char>>::empty());
        assert(ss.deep_view().subrange(0, ss@.len() as int) =~= ss.deep_view());
    }
    fnv_step_exec(cur, 0x102)
}

fn parts_index<'a>(ss: &'a Vec<String>, i: usize) -> (r: &'a String)
    requires
        i < ss@.len(),
    ensures
        r@ == ss.deep_view()[i as int],
{
    &ss[i]
}

fn fp_action_exec(h: u64, a: &Action) -> (r: u64)
    ensures
        r == fp_action(h, a@),
{
    match a {
        Action::Executable { path, args, single_instance } => {
            let h1 = fp_chars_exec(fnv_step_exec(h, 3), path.as_str());
            let h2 = match args {
                Option::Some(list) => fp_strs_exec(fnv_step_exec(h1, 1), list),
                Option::None => fnv_step_exec(h1, 2),
            };
            fnv_step_exec(h2, if *single_instance { 1 } else { 0 })
        },
        Action::Lua { script, single_instance } => {
            let h1 = fp_chars_exec(fnv_step_exec(h, 4), script.as_str());
            fnv_step_exec(h1, if *single_instance { 1 } else { 0 })
        },
    }
}

fn fp_action_seq_exec(h: u64, list: &Vec<Action>) -> (r: u64)
    ensures
        r == fp_action_seq(h, list.deep_view()),
{
    let mut cur: u64 = h;
    let mut i: usize = 0;
    proof {
        assert(list.deep_view().subrange(0, list@.len() as int) =~= list.deep_view());
    }
    while i < list.len()
        invariant
            i <= list.len(),
            fp_action_seq(h, list.deep_view()) == fp_action_seq(
                cur,
                list.deep_view().subrange(i as int, list@.len() as int),
            ),
        decreases list.len() - i,
    {
        proof {
            let rest = list.deep_view().subrange(i as int, list@.len() as int);
            assert(rest[0] == list.deep_view()[i as int]);
            assert(rest.subrange(1, rest.len() as int) =~= list.deep_view().subrange(
                i + 1,
                list@.len() as int,
            ));
        }
        cur = fp_action_exec(cur, &list[i]);
        i = i + 1;
    }
    proof {
        assert(list.deep_view().subrange(list@.len() as int, list@.len() as int)
            =~= Seq::<ActionV>::empty());
        assert(list.deep_view().subrange(0, list@.len() as int) =~= list.deep_view());
    }
    fnv_step_exec(cur, 0x103)
}

fn fp_rule_exec(h: u64, r: &Rule) -> (res: u64)
    ensures
        res == fp_rule(h, r@),
{
    let h1 = match &r.command {
        Commands::Single(s) => fp_chars_exec(fnv_step_exec(h, 5), s.as_str()),
        Commands::Multiple(ss) => fp_strs_exec(fnv_step_exec(h, 6), ss),
    };
    match &r.action {
        Actions::Single(a) => fp_action_exec(fnv_step_exec(h1, 5), a),
        Actions::Multiple(list) => fp_action_seq_exec(fnv_step_exec(h1, 6), list),
    }
}

impl Config {
    /// Computes the configuration's fingerprint.
    pub fn fingerprint(&self) -> (r: u64)
        ensures
            r == config_fingerprint(self@),
    {
        let mut cur: u64 = 0xcbf29ce484222325;
        let mut i: usize = 0;
        proof {
            assert(self.rules.deep_view().subrange(0, self.rules@.len() as int)
                =~= self.rules.deep_view());
        }
        while i < self.rules.len()
            invariant
                i <= self.rules.len(),
                fp_rules(0xcbf29ce484222325, self.rules.deep_view()) == fp_rules(
                    cur,
                    self.rules.deep_view().subrange(i as int, self.rules@.len() as int),
                ),
            decreases self.rules.len() - i,
        {
            proof {
                let rest = self.rules.deep_view().subrange(i as int, self.rules@.len() as int);
                assert(rest[0] == self.rules.deep_view()[i as int]);
                assert(rest.subrange(1, rest.len() as int) =~= self.rules.deep_view().subrange(
                    i + 1,
                    self.rules@.len() as int,
                ));
            }
            cur = fp_rule_exec(cur, &self.rules[i]);
            i = i + 1;
        }
        proof {
            assert(self.rules.deep_view().subrange(
                self.rules@.len() as int,
                self.rules@.len() as int,
            ) =~= Seq::<RuleV>::empty());
            assert(self.rules.deep_view().subrange(0, self.rules@.len() as int)
                =~= self.rules.deep_view());
        }
        let after_rules = fnv_step_exec(cur, 0x104);
        match &self.viberot_home {
            Option::Some(s) => fp_chars_exec(fnv_step_exec(after_rules, 1), s.as_str()),
            Option::None => fnv_step_exec(after_rules, 2),
        }
    }
}

} // verus!
