//! The supervisor's dispatch: for each lifecycle event, a `Started` is
//! matched against the rules and the resulting actions are handed to the
//! orchestrator; an `Ended` releases the children bound to the pid. The
//! surrounding event loop — the broadcast channel, the interrupt signal and
//! the shutdown sequence — runs outside this crate and performs the spawns
//! and terminations this dispatch decides.

use vstd::prelude::*;
use crate::action_orchestrator::{
    ActionOrchestrator, ActiveAction, ResolveContext, StartBatch, plan_error_paths, plan_keys,
    plan_spawns, remove_action_keys, pid_index,
};
use crate::config::Config;
use crate::platform::ProcessLifecycleEvent;
use crate::rule_engine::{RuleEngine, config_entries, globset_build_ok, kept_patterns, match_spec};

verus! {

/// What the supervisor decided for one lifecycle event: children to launch,
/// or children released by a command's end.
pub enum SupervisorOutcome {
    Launched(StartBatch),
    Released(Vec<ActiveAction>),
}

/// Handles one lifecycle event: on `Started`, matches the command under the
/// current configuration and decides the batch of spawns; on `Ended`,
/// unbinds the pid's children for termination.
pub fn handle_lifecycle_event(
    engine: &mut RuleEngine,
    orchestrator: &mut ActionOrchestrator,
    event: ProcessLifecycleEvent,
    config: &Config,
    ctx: &ResolveContext,
) -> (r: SupervisorOutcome)
    requires
        old(engine).wf(),
        old(orchestrator).wf(),
    ensures
        final(engine).wf(),
        final(orchestrator).wf(),
        event matches ProcessLifecycleEvent::Started(e) ==> ({
            &&& r matches SupervisorOutcome::Launched(b)
            &&& globset_build_ok(kept_patterns(config_entries(config@))) ==> ({
                let matched = match_spec(e.command@, config@);
                &&& final(orchestrator).keys_view() == plan_keys(
                    old(orchestrator).keys_view(),
                    matched,
                    ctx.root_view(),
                    ctx.env_view(),
                )
                &&& b.spawns.deep_view() == plan_spawns(
                    old(orchestrator).keys_view(),
                    matched,
                    e@,
                    ctx.root_view(),
                    ctx.env_view(),
                )
                &&& b.errors.deep_view() == plan_error_paths(
                    old(orchestrator).keys_view(),
                    matched,
                    e@,
                    ctx.root_view(),
                    ctx.env_view(),
                )
            })
            &&& !globset_build_ok(kept_patterns(config_entries(config@))) ==> (b.spawns@.len()
                == 0 && b.errors@.len() == 0 && *final(orchestrator) == *old(orchestrator)
                && *final(engine) == *old(engine))
            &&& final(orchestrator).active_view() == old(orchestrator).active_view()
        }),
        event matches ProcessLifecycleEvent::Ended { pid } ==> ({
            &&& r matches SupervisorOutcome::Released(removed)
            &&& *final(engine) == *old(engine)
            &&& pid_index(old(orchestrator).active_view(), pid) < 0 ==> *final(orchestrator)
                == *old(orchestrator) && removed@.len() == 0
            &&& pid_index(old(orchestrator).active_view(), pid) >= 0 ==> ({
                let i = pid_index(old(orchestrator).active_view(), pid);
                &&& removed.deep_view() == old(orchestrator).active_view()[i].actions
                &&& final(orchestrator).active_view() == old(orchestrator).active_view().subrange(
                    0,
                    i,
                ) + old(orchestrator).active_view().subrange(
                    i + 1,
                    old(orchestrator).active_view().len() as int,
                )
                &&& final(orchestrator).keys_view() == remove_action_keys(
                    old(orchestrator).keys_view(),
                    removed.deep_view(),
                )
            })
        }),
{
    match event {
        ProcessLifecycleEvent::Started(e) => {
            let actions = engine.match_command(e.command.as_str(), config);
            let ghost adv = actions.deep_view();
            let ghost keys0 = orchestrator.keys_view();
            let batch = orchestrator.start_actions(actions, &e, ctx);
            proof {
                if !globset_build_ok(kept_patterns(config_entries(config@))) {
                    assert(adv.len() == 0);
                    assert(crate::action_orchestrator::plan_spawns(
                        keys0,
                        adv,
                        e@,
                        ctx.root_view(),
                        ctx.env_view(),
                    ) == Seq::<crate::action_orchestrator::SpawnSpecV>::empty());
                    assert(plan_error_paths(keys0, adv, e@, ctx.root_view(), ctx.env_view())
                        == Seq::<Seq<char>>::empty());
                    assert(batch.spawns@.len() == batch.spawns.deep_view().len());
                    assert(batch.errors@.len() == batch.errors.deep_view().len());
                }
            }
            SupervisorOutcome::Launched(batch)
        },
        ProcessLifecycleEvent::Ended { pid } => {
            SupervisorOutcome::Released(orchestrator.finish_action(pid))
        },
    }
}

} // verus!
