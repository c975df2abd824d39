//! The rule engine: compiles the configuration's glob patterns into a single
//! matcher (through the `globset` crate) and returns, for a command string,
//! the actions of every rule whose pattern matches, in declaration order.
//! The compiled matcher is cached and keyed by the configuration fingerprint.

use vstd::prelude::*;
use crate::config::{
    Action, ActionV, Actions, Config, ConfigV, RuleV, actions_seq, commands_seq,
    config_fingerprint,
};

verus! {

#[verifier::external_type_specification]
#[verifier::external_body]
pub struct ExGlob(globset::Glob);

#[verifier::external_type_specification]
#[verifier::external_body]
pub struct ExGlobSet(globset::GlobSet);

#[verifier::external_type_specification]
#[verifier::external_body]
pub struct ExGlobSetBuilder(globset::GlobSetBuilder);

/// Whether `pattern` is a well-formed glob, accepted by globset's parser.
/// globset reads `\\` per the compile target — an escape on Unix, a path
/// separator elsewhere — so this name, like `glob_matches`, denotes the
/// behaviour of the target this crate is built for.
pub uninterp spec fn glob_ok(pattern: Seq<char>) -> bool;

/// Whether the glob `pattern` matches `text`, under the compile target's
/// reading of `\\` (see `glob_ok`).
pub uninterp spec fn glob_matches(pattern: Seq<char>, text: Seq<char>) -> bool;

/// The pattern a compiled `Glob` was made from.
pub uninterp spec fn glob_pattern(g: globset::Glob) -> Seq<char>;

/// The patterns added to a `GlobSetBuilder` so far, in order.
pub uninterp spec fn builder_patterns(b: globset::GlobSetBuilder) -> Seq<Seq<char>>;

/// Whether building a single matcher from these patterns succeeds.
pub uninterp spec fn globset_build_ok(patterns: Seq<Seq<char>>) -> bool;

/// The patterns a built `GlobSet` matches against, in order.
pub uninterp spec fn globset_patterns(s: globset::GlobSet) -> Seq<Seq<char>>;

/// Relies on globset::Glob::new: parses one glob pattern, rejecting
/// malformed ones (such as an unclosed character class).
#[verifier::external_body]
fn glob_new(pattern: &str) -> (r: Option<globset::Glob>)
    ensures
        r is Some <==> glob_ok(pattern@),
        r matches Some(g) ==> glob_pattern(g) == pattern@,
{
    globset::Glob::new(pattern).ok()
}

/// Relies on globset::GlobSetBuilder::new: a fresh builder holds no patterns.
#[verifier::external_body]
fn globset_builder_new() -> (r: globset::GlobSetBuilder)
    ensures
        builder_patterns(r) == Seq::<Seq<char>>::empty(),
{
    globset::GlobSetBuilder::new()
}

/// Relies on globset::GlobSetBuilder::add: appends the pattern to the set.
#[verifier::external_body]
fn globset_builder_add(b: &mut globset::GlobSetBuilder, g: globset::Glob)
    ensures
        builder_patterns(*final(b)) == builder_patterns(*old(b)).push(glob_pattern(g)),
{
    b.add(g);
}

/// Relies on globset::GlobSetBuilder::build: on success the matcher covers
/// exactly the patterns added so far, in order.
#[verifier::external_body]
fn globset_builder_build(b: &globset::GlobSetBuilder) -> (r: Option<globset::GlobSet>)
    ensures
        r is Some <==> globset_build_ok(builder_patterns(*b)),
        r matches Some(s) ==> globset_patterns(s) == builder_patterns(*b),
{
    b.build().ok()
}

/// Relies on globset::GlobSet::matches: returns the sequence number of every
/// pattern that matches the text, in ascending order.
#[verifier::external_body]
fn globset_set_matches(s: &globset::GlobSet, text: &str) -> (r: Vec<usize>)
    ensures
        forall|k: int|
            0 <= k < r@.len() ==> r@[k] < globset_patterns(*s).len() && glob_matches(
                globset_patterns(*s)[r@[k] as int],
                text@,
            ),
        forall|i: int|
            0 <= i < globset_patterns(*s).len() && glob_matches(globset_patterns(*s)[i], text@)
                ==> exists|k: int| 0 <= k < r@.len() && r@[k] == i,
        forall|k1: int, k2: int| 0 <= k1 < k2 < r@.len() ==> r@[k1] < r@[k2],
{
    s.matches(text)
}

/// One pattern of a rule, paired with the rule's full action list.
pub struct MatchEntry {
    pub pattern: Seq<char>,
    pub actions: Seq<ActionV>,
}

/// The entries contributed by one rule: one per pattern, each carrying the
/// rule's actions.
pub open spec fn entries_of_patterns(ps: Seq<Seq<char>>, acts: Seq<ActionV>) -> Seq<MatchEntry>
    decreases ps.len(),
{
    if ps.len() == 0 {
        Seq::<MatchEntry>::empty()
    } else {
        seq![MatchEntry { pattern: ps[0], actions: acts }] + entries_of_patterns(
            ps.subrange(1, ps.len() as int),
            acts,
        )
    }
}

/// The entries contributed by one rule.
pub open spec fn rule_entries(r: RuleV) -> Seq<MatchEntry> {
    entries_of_patterns(commands_seq(r.command), actions_seq(r.action))
}

/// The entries of all rules, in declaration order.
pub open spec fn entries_of_rules(rs: Seq<RuleV>) -> Seq<MatchEntry>
    decreases rs.len(),
{
    if rs.len() == 0 {
        Seq::<MatchEntry>::empty()
    } else {
        rule_entries(rs[0]) + entries_of_rules(rs.subrange(1, rs.len() as int))
    }
}

/// The entries of a configuration.
pub open spec fn config_entries(c: ConfigV) -> Seq<MatchEntry> {
    entries_of_rules(c.rules)
}

/// The patterns that survive glob compilation, in order; malformed patterns
/// are skipped.
pub open spec fn kept_patterns(es: Seq<MatchEntry>) -> Seq<Seq<char>>
    decreases es.len(),
{
    if es.len() == 0 {
        Seq::<Seq<char>>::empty()
    } else if glob_ok(es[0].pattern) {
        seq![es[0].pattern] + kept_patterns(es.subrange(1, es.len() as int))
    } else {
        kept_patterns(es.subrange(1, es.len() as int))
    }
}

/// The action lists parallel to `kept_patterns`.
pub open spec fn kept_actions(es: Seq<MatchEntry>) -> Seq<Seq<ActionV>>
    decreases es.len(),
{
    if es.len() == 0 {
        Seq::<Seq<ActionV>>::empty()
    } else if glob_ok(es[0].pattern) {
        seq![es[0].actions] + kept_actions(es.subrange(1, es.len() as int))
    } else {
        kept_actions(es.subrange(1, es.len() as int))
    }
}

/// The actions selected for `cmd` from position `i` on: the concatenation of
/// the action lists whose pattern matches.
pub open spec fn selected_actions(
    cmd: Seq<char>,
    kp: Seq<Seq<char>>,
    ka: Seq<Seq<ActionV>>,
    i: int,
) -> Seq<ActionV>
    decreases kp.len() - i,
{
    if i < 0 || i >= kp.len() || kp.len() != ka.len() {
        Seq::<ActionV>::empty()
    } else {
        (if glob_matches(kp[i], cmd) {
            ka[i]
        } else {
            Seq::<ActionV>::empty()
        }) + selected_actions(cmd, kp, ka, i + 1)
    }
}

/// What `match` returns for a command under a configuration: for every
/// well-formed pattern that matches the command, the owning rule's actions,
/// in rule-declaration order, then pattern order, then action order.
pub open spec fn match_spec(cmd: Seq<char>, c: ConfigV) -> Seq<ActionV> {
    selected_actions(
        cmd,
        kept_patterns(config_entries(c)),
        kept_actions(config_entries(c)),
        0,
    )
}

/// `kept_patterns` and `kept_actions` always have the same length.
pub proof fn lemma_kept_lens(es: Seq<MatchEntry>)
    ensures
        kept_patterns(es).len() == kept_actions(es).len(),
    decreases es.len(),
{
    if es.len() > 0 {
        lemma_kept_lens(es.subrange(1, es.len() as int));
    }
}

/// `kept_patterns` distributes over concatenation.
pub proof fn lemma_kept_patterns_add(a: Seq<MatchEntry>, b: Seq<MatchEntry>)
    ensures
        kept_patterns(a + b) == kept_patterns(a) + kept_patterns(b),
    decreases a.len(),
{
    if a.len() == 0 {
        assert(a + b =~= b);
        assert(kept_patterns(a) + kept_patterns(b) =~= kept_patterns(b));
    } else {
        let t = a.subrange(1, a.len() as int);
        lemma_kept_patterns_add(t, b);
        assert((a + b).subrange(1, (a + b).len() as int) =~= t + b);
        assert((a + b)[0] == a[0]);
        if glob_ok(a[0].pattern) {
            assert(seq![a[0].pattern] + (kept_patterns(t) + kept_patterns(b)) =~= (seq![
                a[0].pattern,
            ] + kept_patterns(t)) + kept_patterns(b));
        }
    }
}

/// `kept_actions` distributes over concatenation.
pub proof fn lemma_kept_actions_add(a: Seq<MatchEntry>, b: Seq<MatchEntry>)
    ensures
        kept_actions(a + b) == kept_actions(a) + kept_actions(b),
    decreases a.len(),
{
    if a.len() == 0 {
        assert(a + b =~= b);
        assert(kept_actions(a) + kept_actions(b) =~= kept_actions(b));
    } else {
        let t = a.subrange(1, a.len() as int);
        lemma_kept_actions_add(t, b);
        assert((a + b).subrange(1, (a + b).len() as int) =~= t + b);
        assert((a + b)[0] == a[0]);
        if glob_ok(a[0].pattern) {
            assert(seq![a[0].actions] + (kept_actions(t) + kept_actions(b)) =~= (seq![
                a[0].actions,
            ] + kept_actions(t)) + kept_actions(b));
        }
    }
}

/// A malformed pattern is skipped, never fatal: an entry whose pattern does
/// not compile contributes nothing to the matcher, and the entries around it
/// keep exactly their patterns and action lists.
pub proof fn lemma_bad_glob_skipped(es: Seq<MatchEntry>, i: int)
    requires
        0 <= i < es.len(),
        !glob_ok(es[i].pattern),
    ensures
        kept_patterns(es) == kept_patterns(
            es.subrange(0, i) + es.subrange(i + 1, es.len() as int),
        ),
        kept_actions(es) == kept_actions(
            es.subrange(0, i) + es.subrange(i + 1, es.len() as int),
        ),
{
    let a = es.subrange(0, i);
    let b = es.subrange(i + 1, es.len() as int);
    let single = seq![es[i]];
    assert(es =~= a + (single + b));
    lemma_kept_patterns_add(a, single + b);
    lemma_kept_patterns_add(single, b);
    lemma_kept_patterns_add(a, b);
    lemma_kept_actions_add(a, single + b);
    lemma_kept_actions_add(single, b);
    lemma_kept_actions_add(a, b);
    assert(single[0] == es[i]);
    assert(single.subrange(1, 1) =~= Seq::<MatchEntry>::empty());
    assert(kept_patterns(single) == kept_patterns(single.subrange(1, 1)));
    assert(kept_patterns(single) == Seq::<Seq<char>>::empty());
    assert(kept_actions(single) == kept_actions(single.subrange(1, 1)));
    assert(kept_actions(single) == Seq::<Seq<ActionV>>::empty());
    assert(kept_patterns(a) + (Seq::<Seq<char>>::empty() + kept_patterns(b)) =~= kept_patterns(a)
        + kept_patterns(b));
    assert(kept_actions(a) + (Seq::<Seq<ActionV>>::empty() + kept_actions(b)) =~= kept_actions(a)
        + kept_actions(b));
}

/// Taking one more rule appends that rule's entries.
pub proof fn lemma_entries_of_rules_snoc(rs: Seq<RuleV>, i: int)
    requires
        0 <= i < rs.len(),
    ensures
        entries_of_rules(rs.subrange(0, i + 1)) == entries_of_rules(rs.subrange(0, i))
            + rule_entries(rs[i]),
    decreases i,
{
    let a = rs.subrange(0, i + 1);
    let b = rs.subrange(0, i);
    if i == 0 {
        assert(a.len() == 1);
        assert(entries_of_rules(a) == rule_entries(a[0]) + entries_of_rules(
            a.subrange(1, 1),
        ));
        assert(a.subrange(1, 1) =~= Seq::<RuleV>::empty());
        assert(b =~= Seq::<RuleV>::empty());
        assert(entries_of_rules(b) =~= Seq::<MatchEntry>::empty());
        assert(entries_of_rules(a) =~= rule_entries(rs[0]));
        assert(entries_of_rules(b) + rule_entries(rs[0]) =~= rule_entries(rs[0]));
    } else {
        let rest = rs.subrange(1, rs.len() as int);
        lemma_entries_of_rules_snoc(rest, i - 1);
        assert(a[0] == rs[0]);
        assert(a.subrange(1, a.len() as int) =~= rest.subrange(0, i));
        assert(b[0] == rs[0]);
        assert(b.subrange(1, b.len() as int) =~= rest.subrange(0, i - 1));
        assert(rest[i - 1] == rs[i]);
        assert(entries_of_rules(a) == rule_entries(rs[0]) + entries_of_rules(rest.subrange(0, i)));
        assert(entries_of_rules(b) == rule_entries(rs[0]) + entries_of_rules(
            rest.subrange(0, i - 1),
        ));
        assert(rule_entries(rs[0]) + (entries_of_rules(rest.subrange(0, i - 1)) + rule_entries(
            rs[i],
        )) =~= (rule_entries(rs[0]) + entries_of_rules(rest.subrange(0, i - 1))) + rule_entries(
            rs[i],
        ));
    }
}

/// Taking one more pattern appends one entry.
pub proof fn lemma_entries_of_patterns_snoc(ps: Seq<Seq<char>>, acts: Seq<ActionV>, i: int)
    requires
        0 <= i < ps.len(),
    ensures
        entries_of_patterns(ps.subrange(0, i + 1), acts) == entries_of_patterns(
            ps.subrange(0, i),
            acts,
        ) + seq![MatchEntry { pattern: ps[i], actions: acts }],
    decreases i,
{
    let a = ps.subrange(0, i + 1);
    let b = ps.subrange(0, i);
    if i == 0 {
        assert(a.len() == 1);
        assert(a.subrange(1, 1) =~= Seq::<Seq<char>>::empty());
        assert(b =~= Seq::<Seq<char>>::empty());
        assert(entries_of_patterns(a, acts) == seq![
            MatchEntry { pattern: a[0], actions: acts },
        ] + entries_of_patterns(a.subrange(1, 1), acts));
        assert(a[0] == ps[0]);
        assert(entries_of_patterns(a.subrange(1, 1), acts) == Seq::<MatchEntry>::empty());
        assert(entries_of_patterns(a, acts) =~= seq![
            MatchEntry { pattern: ps[0], actions: acts },
        ]);
        assert(entries_of_patterns(b, acts) + seq![MatchEntry { pattern: ps[0], actions: acts }]
            =~= seq![MatchEntry { pattern: ps[0], actions: acts }]);
    } else {
        let rest = ps.subrange(1, ps.len() as int);
        lemma_entries_of_patterns_snoc(rest, acts, i - 1);
        assert(a[0] == ps[0]);
        assert(a.subrange(1, a.len() as int) =~= rest.subrange(0, i));
        assert(b.subrange(1, b.len() as int) =~= rest.subrange(0, i - 1));
        assert(rest[i - 1] == ps[i]);
        let e0 = seq![MatchEntry { pattern: ps[0], actions: acts }];
        let ei = seq![MatchEntry { pattern: ps[i], actions: acts }];
        assert(entries_of_patterns(a, acts) == e0 + entries_of_patterns(rest.subrange(0, i), acts));
        assert(entries_of_patterns(b, acts) == e0 + entries_of_patterns(
            rest.subrange(0, i - 1),
            acts,
        ));
        assert(e0 + (entries_of_patterns(rest.subrange(0, i - 1), acts) + ei) =~= (e0
            + entries_of_patterns(rest.subrange(0, i - 1), acts)) + ei);
    }
}

/// The compiled matcher, the action lists parallel to its patterns, and the
/// configuration (with its fingerprint) they were built from.
pub struct CachedGlobData {
    pub config_hash: u64,
    pub config: Config,
    pub glob_set: globset::GlobSet,
    pub rule_actions: Vec<Vec<Action>>,
}

/// The cache is consistent: the matcher's patterns and the action lists are
/// exactly those compiled from the stored configuration, whose fingerprint is
/// the stored hash.
pub open spec fn cache_wf(d: CachedGlobData) -> bool {
    &&& d.config_hash == config_fingerprint(d.config@)
    &&& globset_build_ok(kept_patterns(config_entries(d.config@)))
    &&& globset_patterns(d.glob_set) == kept_patterns(config_entries(d.config@))
    &&& d.rule_actions.deep_view() == kept_actions(config_entries(d.config@))
}

/// The engine: a memoized glob matcher keyed by the configuration fingerprint.
pub struct RuleEngine {
    pub cached_glob_data: Option<CachedGlobData>,
}

impl RuleEngine {
    /// Whether the engine's cache, if present, is consistent.
    pub open spec fn wf(self) -> bool {
        self.cached_glob_data matches Some(d) ==> cache_wf(d)
    }

    /// An engine with an empty cache.
    pub fn new() -> (r: Self)
        ensures
            r.wf(),
            r.cached_glob_data is None,
    {
        RuleEngine { cached_glob_data: Option::None }
    }

    /// Drops the compiled matcher, forcing the next `match_command` to rebuild.
    pub fn invalidate_cache(&mut self)
        ensures
            final(self).wf(),
            final(self).cached_glob_data is None,
    {
        self.cached_glob_data = Option::None;
    }
}

/// The actions of a rule as an owned list.
fn owned_actions(a: &Actions) -> (r: Vec<Action>)
    ensures
        r.deep_view() == actions_seq(a@),
{
    match a {
        Actions::Single(x) => {
            let mut v: Vec<Action> = Vec::new();
            let ghost xv = x@;
            v.push(x.clone());
            assert(v.deep_view() =~= seq![xv]);
            v
        },
        Actions::Multiple(list) => crate::config::clone_action_vec(list),
    }
}

/// Whether `x` occurs in `v`.
fn contains_usize(v: &Vec<usize>, x: usize) -> (r: bool)
    ensures
        r == exists|k: int| 0 <= k < v@.len() && v@[k] == x,
{
    let mut i: usize = 0;
    while i < v.len()
        invariant
            i <= v.len(),
            forall|k: int| 0 <= k < i ==> v@[k] != x,
        decreases v.len() - i,
    {
        if v[i] == x {
            return true;
        }
        i = i + 1;
    }
    false
}

/// Appends clones of `add`'s actions to `out`.
fn append_cloned(out: &mut Vec<Action>, add: &Vec<Action>)
    ensures
        final(out).deep_view() == old(out).deep_view() + add.deep_view(),
{
    let mut i: usize = 0;
    while i < add.len()
        invariant
            i <= add.len(),
            out.deep_view() == old(out).deep_view() + add.deep_view().subrange(0, i as int),
        decreases add.len() - i,
    {
        let ghost prev = *out;
        let c = add[i].clone();
        let ghost cv = c;
        out.push(c);
        i = i + 1;
        proof {
            crate::strutil::lemma_deep_view_push(prev, *out, cv);
            assert(cv.deep_view() == add.deep_view()[i - 1]);
            assert(out.deep_view() =~= old(out).deep_view() + add.deep_view().subrange(
                0,
                i as int,
            ));
        }
    }
    proof {
        assert(add.deep_view().subrange(0, add@.len() as int) =~= add.deep_view());
        assert(out.deep_view() == old(out).deep_view() + add.deep_view());
    }
}

impl RuleEngine {
    /// Compiles the configuration's patterns into a fresh cache entry,
    /// skipping malformed patterns. Fails only if the matcher itself cannot
    /// be built from the surviving patterns.
    #[verifier::loop_isolation(false)]
    fn rebuild_cache(config: &Config, fp: u64) -> (r: Option<CachedGlobData>)
        requires
            fp == config_fingerprint(config@),
        ensures
            r is Some <==> globset_build_ok(kept_patterns(config_entries(config@))),
            r matches Some(d) ==> cache_wf(d) && d.config@ == config@ && d.config_hash == fp,
    {
        let mut builder = globset_builder_new();
        let mut rule_actions: Vec<Vec<Action>> = Vec::new();
        let ghost rules_v = config@.rules;
        let mut ri: usize = 0;
        proof {
            assert(rules_v.subrange(0, 0) =~= Seq::<RuleV>::empty());
        }
        while ri < config.rules.len()
            invariant
                ri <= config.rules.len(),
                builder_patterns(builder) == kept_patterns(
                    entries_of_rules(rules_v.subrange(0, ri as int)),
                ),
                rule_actions.deep_view() == kept_actions(
                    entries_of_rules(rules_v.subrange(0, ri as int)),
                ),
            decreases config.rules.len() - ri,
        {
            let rule = &config.rules[ri];
            let cmds = rule.command.as_vec();
            let acts = owned_actions(&rule.action);
            let ghost base = entries_of_rules(rules_v.subrange(0, ri as int));
            let ghost pats_v = commands_seq(rule@.command);
            let ghost acts_v = actions_seq(rule@.action);
            let mut ci: usize = 0;
            proof {
                assert(pats_v.subrange(0, 0) =~= Seq::<Seq<char>>::empty());
                assert(entries_of_patterns(pats_v.subrange(0, 0), acts_v)
                    == Seq::<MatchEntry>::empty());
                assert(base + Seq::<MatchEntry>::empty() =~= base);
            }
            while ci < cmds.len()
                invariant
                    ci <= cmds.len(),
                    cmds.deep_view() == pats_v,
                    acts.deep_view() == acts_v,
                    builder_patterns(builder) == kept_patterns(
                        base + entries_of_patterns(pats_v.subrange(0, ci as int), acts_v),
                    ),
                    rule_actions.deep_view() == kept_actions(
                        base + entries_of_patterns(pats_v.subrange(0, ci as int), acts_v),
                    ),
                decreases cmds.len() - ci,
            {
                let pat: &String = cmds[ci];
                let ghost e_pre = base + entries_of_patterns(pats_v.subrange(0, ci as int), acts_v);
                let ghost entry = MatchEntry { pattern: pats_v[ci as int], actions: acts_v };
                proof {
                    lemma_entries_of_patterns_snoc(pats_v, acts_v, ci as int);
                    assert(base + entries_of_patterns(pats_v.subrange(0, ci + 1), acts_v)
                        =~= e_pre + seq![entry]);
                    lemma_kept_patterns_add(e_pre, seq![entry]);
                    lemma_kept_actions_add(e_pre, seq![entry]);
                    let single = seq![entry];
                    assert(single.len() == 1);
                    assert(single[0] == entry);
                    assert(single.subrange(1, 1) =~= Seq::<MatchEntry>::empty());
                    assert(kept_patterns(Seq::<MatchEntry>::empty()) == Seq::<Seq<char>>::empty());
                    assert(kept_actions(Seq::<MatchEntry>::empty())
                        == Seq::<Seq<ActionV>>::empty());
                    if glob_ok(entry.pattern) {
                        assert(kept_patterns(single) == seq![single[0].pattern] + kept_patterns(
                            single.subrange(1, 1),
                        ));
                        assert(kept_patterns(single) =~= seq![entry.pattern]);
                        assert(kept_actions(single) == seq![single[0].actions] + kept_actions(
                            single.subrange(1, 1),
                        ));
                        assert(kept_actions(single) =~= seq![entry.actions]);
                    } else {
                        assert(kept_patterns(single) == kept_patterns(single.subrange(1, 1)));
                        assert(kept_patterns(single) =~= Seq::<Seq<char>>::empty());
                        assert(kept_actions(single) == kept_actions(single.subrange(1, 1)));
                        assert(kept_actions(single) =~= Seq::<Seq<ActionV>>::empty());
                    }
                }
                match glob_new(pat.as_str()) {
                    Option::Some(g) => {
                        globset_builder_add(&mut builder, g);
                        let ghost prev = rule_actions;
                        rule_actions.push(crate::config::clone_action_vec(&acts));
                        proof {
                            crate::strutil::lemma_deep_view_push(
                                prev,
                                rule_actions,
                                rule_actions@[rule_actions@.len() - 1],
                            );
                            assert(builder_patterns(builder) =~= kept_patterns(e_pre) + seq![
                                entry.pattern,
                            ]);
                            assert(rule_actions.deep_view() =~= kept_actions(e_pre) + seq![
                                entry.actions,
                            ]);
                        }
                    },
                    Option::None => {
                        proof {
                            assert(kept_patterns(e_pre + seq![entry]) =~= kept_patterns(e_pre));
                            assert(kept_actions(e_pre + seq![entry]) =~= kept_actions(e_pre));
                        }
                    },
                }
                ci = ci + 1;
            }
            proof {
                assert(pats_v.subrange(0, pats_v.len() as int) =~= pats_v);
                assert(entries_of_patterns(pats_v, acts_v) == rule_entries(rule@));
                lemma_entries_of_rules_snoc(rules_v, ri as int);
                assert(base + rule_entries(rules_v[ri as int]) == entries_of_rules(
                    rules_v.subrange(0, ri + 1),
                ));
            }
            ri = ri + 1;
        }
        proof {
            assert(rules_v.subrange(0, rules_v.len() as int) =~= rules_v);
        }
        match globset_builder_build(&builder) {
            Option::Some(glob_set) => Option::Some(
                CachedGlobData { config_hash: fp, config: config.clone(), glob_set, rule_actions },
            ),
            Option::None => Option::None,
        }
    }

    /// Runs the cached matcher for `command` and collects, in order, the
    /// action lists of every matching pattern.
    #[verifier::loop_isolation(false)]
    fn collect_matches(d: &CachedGlobData, command: &str) -> (r: Vec<Action>)
        requires
            cache_wf(*d),
        ensures
            r.deep_view() == match_spec(command@, d.config@),
    {
        let ghost kp = kept_patterns(config_entries(d.config@));
        let ghost ka = kept_actions(config_entries(d.config@));
        proof {
            lemma_kept_lens(config_entries(d.config@));
        }
        let idxs = globset_set_matches(&d.glob_set, command);
        let mut out: Vec<Action> = Vec::new();
        let mut i: usize = 0;
        while i < d.rule_actions.len()
            invariant
                i <= d.rule_actions.len(),
                out.deep_view() + selected_actions(command@, kp, ka, i as int) == selected_actions(
                    command@,
                    kp,
                    ka,
                    0,
                ),
            decreases d.rule_actions.len() - i,
        {
            let ghost pre = out.deep_view();
            if contains_usize(&idxs, i) {
                proof {
                    let k = choose|k: int| 0 <= k < idxs@.len() && idxs@[k] == i;
                    assert(glob_matches(kp[i as int], command@));
                    assert(selected_actions(command@, kp, ka, i as int) == ka[i as int]
                        + selected_actions(command@, kp, ka, i + 1));
                }
                append_cloned(&mut out, &d.rule_actions[i]);
                proof {
                    assert(d.rule_actions@[i as int].deep_view() == ka[i as int]);
                    assert((pre + ka[i as int]) + selected_actions(command@, kp, ka, i + 1)
                        =~= pre + (ka[i as int] + selected_actions(command@, kp, ka, i + 1)));
                }
            } else {
                proof {
                    assert(!glob_matches(kp[i as int], command@));
                    assert(selected_actions(command@, kp, ka, i as int)
                        == Seq::<ActionV>::empty() + selected_actions(command@, kp, ka, i + 1));
                    assert(Seq::<ActionV>::empty() + selected_actions(command@, kp, ka, i + 1)
                        =~= selected_actions(command@, kp, ka, i + 1));
                }
            }
            i = i + 1;
        }
        proof {
            assert(selected_actions(command@, kp, ka, i as int) == Seq::<ActionV>::empty());
            assert(out.deep_view() + Seq::<ActionV>::empty() =~= out.deep_view());
        }
        out
    }

    /// Returns the actions of every rule whose pattern matches `command`,
    /// under `config`, rebuilding the compiled matcher only when the
    /// configuration fingerprint (checked against the stored configuration)
    /// has changed. If the matcher cannot be built at all, no actions are
    /// returned and the old cache is kept.
    pub fn match_command(&mut self, command: &str, config: &Config) -> (r: Vec<Action>)
        requires
            old(self).wf(),
        ensures
            final(self).wf(),
            globset_build_ok(kept_patterns(config_entries(config@))) ==> r.deep_view()
                == match_spec(command@, config@),
            !globset_build_ok(kept_patterns(config_entries(config@))) ==> r@.len() == 0
                && *final(self) == *old(self),
            old(self).cached_glob_data matches Some(d) ==> ((d.config_hash
                == config_fingerprint(config@) && d.config@ == config@) ==> *final(self) == *old(
                self,
            )),
            globset_build_ok(kept_patterns(config_entries(config@))) ==> (
            final(self).cached_glob_data matches Some(d) && d.config@ == config@ && d.config_hash
                == config_fingerprint(config@)),
    {
        let fp = config.fingerprint();
        let hit = match &self.cached_glob_data {
            Option::Some(d) => d.config_hash == fp && d.config.config_eq(config),
            Option::None => false,
        };
        if !hit {
            match Self::rebuild_cache(config, fp) {
                Option::Some(d) => {
                    self.cached_glob_data = Option::Some(d);
                },
                Option::None => {
                    return Vec::new();
                },
            }
        }
        match &self.cached_glob_data {
            Option::Some(d) => {
                assert(d.config@ == config@);
                Self::collect_matches(d, command)
            },
            Option::None => {
                assert(false);
                Vec::new()
            },
        }
    }
}

/// Rule-order determinism: for a fixed command and configuration, the
/// matched action sequence is uniquely determined — two results that both
/// satisfy the `match` contract are equal.
pub proof fn lemma_match_deterministic(
    cmd: Seq<char>,
    c: ConfigV,
    r1: Seq<ActionV>,
    r2: Seq<ActionV>,
)
    requires
        r1 == match_spec(cmd, c),
        r2 == match_spec(cmd, c),
    ensures
        r1 == r2,
{
}

} // verus!
