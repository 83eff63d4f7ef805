use vstd::prelude::*;

use crate::action::Action;
use crate::context::ContextState;
use crate::error::{BuiltinError, DeployError, ExecutionError, RestoreError, StartError};
use crate::model::{
    accepts_all, action_step, acts, acts_on_all, adds_builtin, all_fit, asks_for_identifier,
    brings_up, calls, can_be_restored, carried_out, converted, deploy_step, deploys, deploys_all,
    deploys_to_end, executes_transaction, follow, handled_in_turn, handles_all, is_history,
    is_wrong_runtime, lists_identifier, lists_recorded, lookup_with, moves, moves_anyhow,
    registers, restart_step, restarts_all, restarts_service, restores, restores_identifier,
    resumes, runs_to_end, starts_identifier, starts_service, DispatcherState,
};
use crate::runtime::{waited, Deployment, Runtime};
use crate::schema::{artifact_added, instance_added, Record};
use crate::types::{
    Any, AnyTx, ArtifactId, CallInfo, InstanceSpec, InternalRequest, ServiceInstanceId, Signed,
    CORE_ID,
};

verus! {

/// `after` extends `before`, is consistent if `before` is, and runs and hosts what is recorded if
/// `before` does.
spec fn keeps<R>(before: DispatcherState<R>, after: DispatcherState<R>) -> bool {
    &&& after.extends(before)
    &&& before.is_consistent() ==> after.is_consistent()
    &&& before.runs_recorded() ==> after.runs_recorded()
    &&& before.hosts_recorded() ==> after.hosts_recorded()
}

proof fn lemma_keeps_is_transitive<R>(
    first: DispatcherState<R>,
    second: DispatcherState<R>,
    third: DispatcherState<R>,
)
    requires
        keeps(first, second),
        keeps(second, third),
    ensures
        keeps(first, third),
{
    assert forall|id: ServiceInstanceId| #[trigger]
        first.runtime_lookup.dom().contains(id) implies third.runtime_lookup.dom().contains(id)
        && first.runtime_lookup[id] == third.runtime_lookup[id] by {
        assert(second.runtime_lookup.dom().contains(id));
        assert(third.runtime_lookup.dom().contains(id));
    }
    assert forall|i: int| 0 <= i < first.records.len() implies first.records[i]
        == third.records[i] by {
        assert(first.records[i] == second.records[i]);
    }
}

/// What each step relates, many steps relate, if the relation is reflexive and transitive.
proof fn lemma_handling_relates<S, T, E>(
    step: spec_fn(S, T, S, Result<(), E>) -> bool,
    relation: spec_fn(S, S) -> bool,
    states: Seq<S>,
    items: Seq<T>,
    result: Result<(), E>,
    n: int,
)
    requires
        handled_in_turn(step, states, items, result),
        forall|b: S, item: T, a: S, r: Result<(), E>| #[trigger]
            step(b, item, a, r) ==> relation(b, a),
        forall|s: S| #[trigger] relation(s, s),
        forall|r: S, s: S, t: S| #[trigger]
            relation(r, s) && #[trigger] relation(s, t) ==> relation(r, t),
        0 <= n < states.len(),
    ensures
        relation(states[0], states[n]),
    decreases n,
{
    if n > 0 {
        lemma_handling_relates(step, relation, states, items, result, n - 1);
        let _ = items[n - 1];
        assert(relation(states[n - 1], states[n]));
    }
}

/// If each step keeps what there is, so do many.
proof fn lemma_handling_keeps<R, T, E>(
    step: spec_fn(DispatcherState<R>, T, DispatcherState<R>, Result<(), E>) -> bool,
    before: DispatcherState<R>,
    items: Seq<T>,
    after: DispatcherState<R>,
    result: Result<(), E>,
)
    requires
        handles_all(step, before, items, after, result),
        forall|b: DispatcherState<R>, item: T, a: DispatcherState<R>, r: Result<(), E>| #[trigger]
            step(b, item, a, r) ==> keeps(b, a),
    ensures
        keeps(before, after),
{
    let states = choose|states: Seq<DispatcherState<R>>| #[trigger]
        handled_in_turn(step, states, items, result) && states.first() == before && states.last()
            == after;
    let relation = |b: DispatcherState<R>, a: DispatcherState<R>| keeps(b, a);
    assert forall|r: DispatcherState<R>, s: DispatcherState<R>, t: DispatcherState<R>| #[trigger]
        relation(r, s) && #[trigger] relation(s, t) implies relation(r, t) by {
        lemma_keeps_is_transitive(r, s, t);
    }
    lemma_handling_relates(step, relation, states, items, result, states.len() - 1);
}

proof fn lemma_deploy_keeps<R: Runtime>(
    before: DispatcherState<R>,
    artifact: ArtifactId,
    after: DispatcherState<R>,
    deployment: Deployment<R>,
)
    requires
        deploys(before, artifact, after, deployment),
    ensures
        keeps(before, after),
{
    if before.runtimes.contains_key(artifact.runtime_id) {
        assert(after.runtimes.dom() =~= before.runtimes.dom());
    }
}

proof fn lemma_deploy_to_end_keeps<R: Runtime>(
    before: DispatcherState<R>,
    artifact: ArtifactId,
    after: DispatcherState<R>,
    result: Result<(), DeployError>,
)
    requires
        deploys_to_end(before, artifact, after, result),
    ensures
        keeps(before, after),
{
    let deployment = choose|deployment: Deployment<R>| #[trigger]
        deploys(before, artifact, after, deployment) && deployment.ends(result);
    lemma_deploy_keeps(before, artifact, after, deployment);
}

proof fn lemma_register_keeps<R: Runtime>(
    before: DispatcherState<R>,
    fork_before: R::Fork,
    artifact: ArtifactId,
    after: DispatcherState<R>,
    fork_after: R::Fork,
    result: Result<(), DeployError>,
)
    requires
        registers(before, fork_before, artifact, after, fork_after, result),
    ensures
        keeps(before, after),
{
    assert forall|deployed: DispatcherState<R>, outcome: Result<(), DeployError>| #[trigger]
        deploys_to_end(before, artifact, deployed, outcome) implies keeps(before, deployed) by {
        lemma_deploy_to_end_keeps(before, artifact, deployed, outcome);
    }
}

proof fn lemma_start_keeps<R: Runtime>(
    before: DispatcherState<R>,
    fork_before: R::Fork,
    spec: InstanceSpec,
    constructor: Any,
    after: DispatcherState<R>,
    fork_after: R::Fork,
    result: Result<(), StartError>,
)
    requires
        starts_service(before, fork_before, spec, constructor, after, fork_after, result),
    ensures
        keeps(before, after),
{
    if !before.identifier_exists(spec.id) && before.runtimes.contains_key(
        spec.artifact.runtime_id,
    ) {
        assert(after.runtimes.dom() =~= before.runtimes.dom());
    }
}

/// Each step of `deploy_step` keeps what there is, and so do many.
proof fn lemma_deploy_all_keeps<R: Runtime>(
    before: DispatcherState<R>,
    artifacts: Seq<ArtifactId>,
    after: DispatcherState<R>,
    result: Result<(), DeployError>,
)
    requires
        deploys_all(before, artifacts, after, result),
    ensures
        keeps(before, after),
{
    let step = deploy_step::<R>();
    assert forall|
        b: DispatcherState<R>,
        item: ArtifactId,
        a: DispatcherState<R>,
        r: Result<(), DeployError>,
    | #[trigger] step(b, item, a, r) implies keeps(b, a) by {
        lemma_deploy_to_end_keeps(b, item, a, r);
    }
    lemma_handling_keeps(step, before, artifacts, after, result);
}

/// `after` has the running instances, the requests and the records of `before`.
spec fn same_books<R>(before: DispatcherState<R>, after: DispatcherState<R>) -> bool {
    &&& after.runtime_lookup == before.runtime_lookup
    &&& after.requests == before.requests
    &&& after.records == before.records
}

/// The deployment of artifacts does not touch the books.
proof fn lemma_deploy_all_keeps_books<R: Runtime>(
    before: DispatcherState<R>,
    artifacts: Seq<ArtifactId>,
    after: DispatcherState<R>,
    result: Result<(), DeployError>,
)
    requires
        deploys_all(before, artifacts, after, result),
    ensures
        same_books(before, after),
{
    let step = deploy_step::<R>();
    let states = choose|states: Seq<DispatcherState<R>>| #[trigger]
        handled_in_turn(step, states, artifacts, result) && states.first() == before
            && states.last() == after;
    let relation = |b: DispatcherState<R>, a: DispatcherState<R>| same_books(b, a);
    lemma_handling_relates(step, relation, states, artifacts, result, states.len() - 1);
}

/// What the restart of the first `n` instances leads to. A last one that has failed is not
/// entered in the lookup table.
proof fn lemma_restarts_so_far<R: Runtime>(
    states: Seq<DispatcherState<R>>,
    instances: Seq<InstanceSpec>,
    result: Result<(), StartError>,
    n: int,
)
    requires
        handled_in_turn(restart_step::<R>(), states, instances, result),
        0 <= n < states.len(),
    ensures
        states[n].runtimes.dom() == states[0].runtimes.dom(),
        states[n].requests == states[0].requests,
        states[n].records == states[0].records,
        states[n].runtime_lookup == lookup_with(
            states[0].runtime_lookup,
            instances.take(
                if n > 0 && n == states.len() - 1 && result is Err {
                    n - 1
                } else {
                    n
                },
            ),
        ),
        forall|i: int|
            0 <= i < n && (i < states.len() - 2 || result is Ok)
                ==> states[0].runtimes.contains_key(
                (#[trigger] instances[i]).artifact.runtime_id,
            ),
    decreases n,
{
    if n > 0 {
        lemma_restarts_so_far(states, instances, result, n - 1);
        let spec = instances[n - 1];
        assert(restarts_service(
            states[n - 1],
            spec,
            states[n],
            if n == states.len() - 1 {
                result
            } else {
                Ok(())
            },
        ));
        assert(states[n].runtimes.dom() =~= states[n - 1].runtimes.dom());
        assert(instances.take(n).drop_last() == instances.take(n - 1));
    }
}

/// What is listed last under an identifier is entered under it.
proof fn lemma_last_listed_is_entered(
    lookup: Map<ServiceInstanceId, u32>,
    instances: Seq<InstanceSpec>,
    i: int,
)
    requires
        0 <= i < instances.len(),
        forall|j: int| i < j < instances.len() ==> (#[trigger] instances[j]).id != instances[i].id,
    ensures
        lookup_with(lookup, instances).contains_key(instances[i].id),
        lookup_with(lookup, instances)[instances[i].id] == instances[i].artifact.runtime_id,
    decreases instances.len(),
{
    if i < instances.len() - 1 {
        let fewer = instances.drop_last();
        assert forall|j: int| i < j < fewer.len() implies (#[trigger] fewer[j]).id
            != fewer[i].id by {
            assert(instances[j].id != instances[i].id);
        }
        lemma_last_listed_is_entered(lookup, fewer, i);
        assert(instances[instances.len() - 1].id != instances[i].id);
    }
}

/// Nothing is entered under an identifier that is not listed.
proof fn lemma_unlisted_is_spared(
    lookup: Map<ServiceInstanceId, u32>,
    instances: Seq<InstanceSpec>,
    id: ServiceInstanceId,
)
    requires
        forall|i: int| 0 <= i < instances.len() ==> (#[trigger] instances[i]).id != id,
    ensures
        lookup_with(lookup, instances).contains_key(id) == lookup.contains_key(id),
        lookup.contains_key(id) ==> lookup_with(lookup, instances)[id] == lookup[id],
    decreases instances.len(),
{
    if instances.len() > 0 {
        let fewer = instances.drop_last();
        assert forall|i: int| 0 <= i < fewer.len() implies (#[trigger] fewer[i]).id != id by {
            assert(instances[i].id != id);
        }
        lemma_unlisted_is_spared(lookup, fewer, id);
        assert(instances[instances.len() - 1].id != id);
    }
}

/// An entry of the lookup table with the instances in it is that of one of them, or it was there
/// before.
proof fn lemma_entries_are_listed(
    lookup: Map<ServiceInstanceId, u32>,
    instances: Seq<InstanceSpec>,
    id: ServiceInstanceId,
) -> (i: int)
    requires
        lookup_with(lookup, instances).contains_key(id),
    ensures
        -1 <= i < instances.len(),
        i >= 0 ==> instances[i].id == id && lookup_with(lookup, instances)[id]
            == instances[i].artifact.runtime_id,
        i < 0 ==> lookup.contains_key(id) && lookup_with(lookup, instances)[id] == lookup[id],
    decreases instances.len(),
{
    if instances.len() == 0 {
        -1
    } else if instances.last().id == id {
        instances.len() - 1
    } else {
        lemma_entries_are_listed(lookup, instances.drop_last(), id)
    }
}

/// Identifiers stay in the lookup table.
proof fn lemma_lookup_grows(
    lookup: Map<ServiceInstanceId, u32>,
    instances: Seq<InstanceSpec>,
    id: ServiceInstanceId,
)
    requires
        lookup.contains_key(id),
    ensures
        lookup_with(lookup, instances).contains_key(id),
    decreases instances.len(),
{
    if instances.len() > 0 {
        lemma_lookup_grows(lookup, instances.drop_last(), id);
    }
}

proof fn lemma_restart_all_keeps<R: Runtime>(
    before: DispatcherState<R>,
    instances: Seq<InstanceSpec>,
    after: DispatcherState<R>,
    result: Result<(), StartError>,
)
    requires
        restarts_all(before, instances, after, result),
        can_be_restored(before, instances),
    ensures
        keeps(before, after),
{
    let states = choose|states: Seq<DispatcherState<R>>| #[trigger]
        handled_in_turn(restart_step::<R>(), states, instances, result) && states.first() == before
            && states.last() == after;
    let n = states.len() - 1;
    lemma_restarts_so_far(states, instances, result, n);
    let entered = instances.take(
        if n > 0 && result is Err {
            n - 1
        } else {
            n
        },
    );
    assert forall|id: ServiceInstanceId| #[trigger]
        before.runtime_lookup.dom().contains(id) implies after.runtime_lookup.dom().contains(id)
        && after.runtime_lookup[id] == before.runtime_lookup[id] by {
        lemma_lookup_grows(before.runtime_lookup, entered, id);
        let i = lemma_entries_are_listed(before.runtime_lookup, entered, id);
        if i >= 0 {
            assert(entered[i] == instances[i]);
        }
    }
    assert forall|id: ServiceInstanceId| #[trigger]
        after.runtime_lookup.contains_key(id) && before.is_consistent() implies id != CORE_ID
        && after.runtimes.contains_key(after.runtime_lookup[id]) by {
        let i = lemma_entries_are_listed(before.runtime_lookup, entered, id);
        if i >= 0 {
            assert(entered[i] == instances[i]);
            assert(before.runtimes.dom().contains(instances[i].artifact.runtime_id));
        } else {
            assert(before.runtimes.dom().contains(before.runtime_lookup[id]));
        }
    }
    if before.runs_recorded() {
        assert forall|i: int| 0 <= i < after.records.len() implies (
        #[trigger] after.records[i] matches Record::Instance(spec, _) ==> after.is_running(
            spec,
        )) by {
            if after.records[i] is Instance {
                let spec = after.records[i]->Instance_0;
                assert(before.is_running(spec));
                assert(before.runtime_lookup.dom().contains(spec.id));
            }
        }
    }
}

/// The deployments and the restarts that `restore_state` consists of: the state between them,
/// and what each came to. If a deployment has failed, there are no restarts.
pub(crate) proof fn lemma_parts_of_restoring<R: Runtime>(
    before: DispatcherState<R>,
    artifacts: Seq<ArtifactId>,
    instances: Seq<InstanceSpec>,
    after: DispatcherState<R>,
    result: Result<(), RestoreError>,
) -> (parts: (DispatcherState<R>, Result<(), DeployError>, Result<(), StartError>))
    requires
        restores(before, artifacts, instances, after, result),
    ensures
        deploys_all(before, artifacts, parts.0, parts.1),
        parts.1 is Ok ==> restarts_all(parts.0, instances, after, parts.2),
        parts.1 is Err ==> after == parts.0,
        result is Ok <==> parts.1 is Ok && parts.2 is Ok,
{
    let (deployed, outcome) = choose|
        deployed: DispatcherState<R>,
        outcome: Result<(), DeployError>,
    | #[trigger]
        deploys_all(before, artifacts, deployed, outcome) && match outcome {
            Ok(_) => exists|restart: Result<(), StartError>| #[trigger]
                restarts_all(deployed, instances, after, restart) && match restart {
                    Ok(_) => result is Ok,
                    Err(error) => result == Err::<(), RestoreError>(RestoreError::Restart(error)),
                },
            Err(error) => {
                &&& after == deployed
                &&& result == Err::<(), RestoreError>(RestoreError::Deploy(error))
            },
        };
    let restart = choose|restart: Result<(), StartError>| #[trigger]
        restarts_all(deployed, instances, after, restart) && match restart {
            Ok(_) => result is Ok,
            Err(error) => result == Err::<(), RestoreError>(RestoreError::Restart(error)),
        };
    (deployed, outcome, restart)
}

proof fn lemma_restore_keeps<R: Runtime>(
    before: DispatcherState<R>,
    artifacts: Seq<ArtifactId>,
    instances: Seq<InstanceSpec>,
    after: DispatcherState<R>,
    result: Result<(), RestoreError>,
)
    requires
        restores(before, artifacts, instances, after, result),
        can_be_restored(before, instances),
    ensures
        keeps(before, after),
{
    let (deployed, outcome, restart) = lemma_parts_of_restoring(
        before,
        artifacts,
        instances,
        after,
        result,
    );
    lemma_deploy_all_keeps(before, artifacts, deployed, outcome);
    if outcome is Ok {
        lemma_deploy_all_keeps_books(before, artifacts, deployed, outcome);
        lemma_restart_all_keeps(deployed, instances, after, restart);
        lemma_keeps_is_transitive(before, deployed, after);
    }
}

proof fn lemma_add_builtin_keeps<R: Runtime>(
    before: DispatcherState<R>,
    fork_before: R::Fork,
    spec: InstanceSpec,
    constructor: Any,
    after: DispatcherState<R>,
    fork_after: R::Fork,
    result: Result<(), BuiltinError>,
)
    requires
        adds_builtin(before, fork_before, spec, constructor, after, fork_after, result),
    ensures
        keeps(before, after),
{
    assert forall|registered: DispatcherState<R>, fork: R::Fork, outcome: Result<(), DeployError>|
     #[trigger]
        registers(before, fork_before, spec.artifact, registered, fork, outcome) implies keeps(
        before,
        registered,
    ) by {
        lemma_register_keeps(before, fork_before, spec.artifact, registered, fork, outcome);
    }
    assert forall|registered: DispatcherState<R>, fork: R::Fork, start: Result<(), StartError>|
        keeps(before, registered) && #[trigger] starts_service(
            registered,
            fork,
            spec,
            constructor,
            after,
            fork_after,
            start,
        ) implies keeps(before, after) by {
        lemma_start_keeps(registered, fork, spec, constructor, after, fork_after, start);
        lemma_keeps_is_transitive(before, registered, after);
    }
}

proof fn lemma_action_keeps<R: Runtime>(
    before: DispatcherState<R>,
    fork_before: R::Fork,
    action: Action,
    after: DispatcherState<R>,
    fork_after: R::Fork,
    result: Result<(), ExecutionError>,
)
    requires
        acts(before, fork_before, action, after, fork_after, result),
    ensures
        keeps(before, after),
{
    match action {
        Action::DeployArtifact { artifact } => {
            let outcome = choose|outcome: Result<(), DeployError>| #[trigger]
                deploys_to_end(before, artifact, after, outcome);
            lemma_deploy_to_end_keeps(before, artifact, after, outcome);
        },
        Action::RegisterArtifact { artifact } => {
            let outcome = choose|outcome: Result<(), DeployError>| #[trigger]
                registers(before, fork_before, artifact, after, fork_after, outcome);
            lemma_register_keeps(before, fork_before, artifact, after, fork_after, outcome);
        },
        Action::StartService { spec, config } => {
            assert forall|started: DispatcherState<R>, outcome: Result<(), StartError>| #[trigger]
                starts_service(
                    before,
                    fork_before,
                    spec,
                    config,
                    started,
                    fork_after,
                    outcome,
                ) implies keeps(before, started) by {
                lemma_start_keeps(before, fork_before, spec, config, started, fork_after, outcome);
            }
        },
    }
}

proof fn lemma_actions_keep<R: Runtime>(
    before: DispatcherState<R>,
    fork_before: R::Fork,
    actions: Seq<Action>,
    after: DispatcherState<R>,
    fork_after: R::Fork,
    result: Result<(), ExecutionError>,
)
    requires
        acts_on_all(before, fork_before, actions, after, fork_after, result),
    ensures
        keeps(before, after),
{
    let step = action_step::<R>();
    let states = choose|states: Seq<(DispatcherState<R>, R::Fork)>| #[trigger]
        handled_in_turn(step, states, actions, result) && states.first() == (before, fork_before)
            && states.last() == (after, fork_after);
    let relation = |b: (DispatcherState<R>, R::Fork), a: (DispatcherState<R>, R::Fork)|
        keeps(b.0, a.0);
    assert forall|
        b: (DispatcherState<R>, R::Fork),
        item: Action,
        a: (DispatcherState<R>, R::Fork),
        r: Result<(), ExecutionError>,
    | #[trigger] step(b, item, a, r) implies relation(b, a) by {
        lemma_action_keeps(b.0, b.1, item, a.0, a.1, r);
    }
    assert forall|
        r: (DispatcherState<R>, R::Fork),
        s: (DispatcherState<R>, R::Fork),
        t: (DispatcherState<R>, R::Fork),
    | #[trigger] relation(r, s) && #[trigger] relation(s, t) implies relation(r, t) by {
        lemma_keeps_is_transitive(r.0, s.0, t.0);
    }
    lemma_handling_relates(step, relation, states, actions, result, states.len() - 1);
}

/// What is resumed is the beginning of the pending actions.
proof fn lemma_resumed_part<R: Runtime>(
    before: DispatcherState<R>,
    fork_before: R::Fork,
    pending: Seq<Action>,
    after: DispatcherState<R>,
    fork_after: R::Fork,
    left: Seq<Action>,
    result: Result<(), ExecutionError>,
) -> (n: int)
    requires
        resumes(before, fork_before, pending, after, fork_after, left, result),
    ensures
        0 <= n <= pending.len(),
        acts_on_all(before, fork_before, pending.take(n), after, fork_after, result),
        result is Ok ==> left == pending.skip(n) && (left.len() == 0 || after.requests.len() > 0),
        result is Err ==> left.len() == 0 && n > 0,
        before.requests.len() == 0 && result is Ok && pending.len() > 0 ==> n > 0,
{
    let states = choose|states: Seq<(DispatcherState<R>, R::Fork)>| #[trigger]
        carried_out(states, pending, result) && states.first() == (before, fork_before)
            && states.last() == (after, fork_after) && left == match result {
            Ok(_) => pending.skip(states.len() - 1),
            Err(_) => Seq::<Action>::empty(),
        };
    states.len() - 1
}

proof fn lemma_resume_keeps<R: Runtime>(
    before: DispatcherState<R>,
    fork_before: R::Fork,
    pending: Seq<Action>,
    after: DispatcherState<R>,
    fork_after: R::Fork,
    left: Seq<Action>,
    result: Result<(), ExecutionError>,
)
    requires
        resumes(before, fork_before, pending, after, fork_after, left, result),
    ensures
        keeps(before, after),
{
    let n = lemma_resumed_part(before, fork_before, pending, after, fork_after, left, result);
    lemma_actions_keep(before, fork_before, pending.take(n), after, fork_after, result);
}

proof fn lemma_transaction_keeps<R: Runtime>(
    before: DispatcherState<R>,
    fork_before: R::Fork,
    tx_id: crate::types::Hash,
    tx: Signed<AnyTx>,
    after: DispatcherState<R>,
    fork_after: R::Fork,
    result: Result<ContextState<R::Fork>, ExecutionError>,
)
    requires
        executes_transaction(before, fork_before, tx_id, tx, after, fork_after, result),
    ensures
        keeps(before, after),
{
    assert forall|
        fork: R::Fork,
        pending: Seq<Action>,
        left: Seq<Action>,
        done: Result<(), ExecutionError>,
    | #[trigger] resumes(before, fork, pending, after, fork_after, left, done) implies keeps(
        before,
        after,
    ) by {
        lemma_resume_keeps(before, fork, pending, after, fork_after, left, done);
    }
}

/// Whatever a dispatcher is asked to do, it keeps its runtimes, each running instance stays
/// in its runtime, and no record is lost. If each running instance lived in one of the
/// runtimes and none used the identifier of the core, that stays so; and so does it if each
/// instance on record was running and no two of them had one identifier, and if the runtime of
/// each artifact on record was there.
pub proof fn law_requests_keep_instances<R: Runtime>(
    before: DispatcherState<R>,
    after: DispatcherState<R>,
)
    requires
        moves(before, after),
    ensures
        after.extends(before),
        before.is_consistent() ==> after.is_consistent(),
        before.runs_recorded() ==> after.runs_recorded(),
        before.hosts_recorded() ==> after.hosts_recorded(),
{
    if exists|artifact: ArtifactId, deployment: Deployment<R>| #[trigger]
        deploys(before, artifact, after, deployment) {
        let (artifact, deployment) = choose|artifact: ArtifactId, deployment: Deployment<R>|
         #[trigger] deploys(before, artifact, after, deployment);
        lemma_deploy_keeps(before, artifact, after, deployment);
    } else if exists|
        artifacts: Seq<ArtifactId>,
        instances: Seq<InstanceSpec>,
        result: Result<(), RestoreError>,
    | #[trigger]
        restores(before, artifacts, instances, after, result) && can_be_restored(
            before,
            instances,
        ) {
        let (artifacts, instances, result) = choose|
            artifacts: Seq<ArtifactId>,
            instances: Seq<InstanceSpec>,
            result: Result<(), RestoreError>,
        | #[trigger]
            restores(before, artifacts, instances, after, result) && can_be_restored(
                before,
                instances,
            );
        lemma_restore_keeps(before, artifacts, instances, after, result);
    } else {
        assert forall|
            fork_before: R::Fork,
            artifact: ArtifactId,
            fork_after: R::Fork,
            result: Result<(), DeployError>,
        | #[trigger]
            registers(before, fork_before, artifact, after, fork_after, result) implies keeps(
            before,
            after,
        ) by {
            lemma_register_keeps(before, fork_before, artifact, after, fork_after, result);
        }
        assert forall|
            fork_before: R::Fork,
            spec: InstanceSpec,
            constructor: Any,
            fork_after: R::Fork,
            result: Result<(), StartError>,
        | #[trigger]
            starts_service(
                before,
                fork_before,
                spec,
                constructor,
                after,
                fork_after,
                result,
            ) implies keeps(before, after) by {
            lemma_start_keeps(before, fork_before, spec, constructor, after, fork_after, result);
        }
        assert forall|
            fork_before: R::Fork,
            spec: InstanceSpec,
            constructor: Any,
            fork_after: R::Fork,
            result: Result<(), BuiltinError>,
        | #[trigger]
            adds_builtin(
                before,
                fork_before,
                spec,
                constructor,
                after,
                fork_after,
                result,
            ) implies keeps(before, after) by {
            lemma_add_builtin_keeps(
                before,
                fork_before,
                spec,
                constructor,
                after,
                fork_after,
                result,
            );
        }
        assert forall|
            fork_before: R::Fork,
            action: Action,
            fork_after: R::Fork,
            result: Result<(), ExecutionError>,
        | #[trigger]
            acts(before, fork_before, action, after, fork_after, result) implies keeps(
            before,
            after,
        ) by {
            lemma_action_keeps(before, fork_before, action, after, fork_after, result);
        }
        assert forall|
            fork_before: R::Fork,
            pending: Seq<Action>,
            fork_after: R::Fork,
            left: Seq<Action>,
            result: Result<(), ExecutionError>,
        | #[trigger]
            resumes(before, fork_before, pending, after, fork_after, left, result) implies keeps(
            before,
            after,
        ) by {
            lemma_resume_keeps(before, fork_before, pending, after, fork_after, left, result);
        }
        assert forall|
            fork_before: R::Fork,
            tx_id: crate::types::Hash,
            tx: Signed<AnyTx>,
            fork_after: R::Fork,
            result: Result<ContextState<R::Fork>, ExecutionError>,
        | #[trigger]
            executes_transaction(
                before,
                fork_before,
                tx_id,
                tx,
                after,
                fork_after,
                result,
            ) implies keeps(before, after) by {
            lemma_transaction_keeps(before, fork_before, tx_id, tx, after, fork_after, result);
        }
    }
}

/// At all times in the life of a dispatcher each running instance lives in one of its
/// runtimes, none uses the identifier of the core, each instance on record is running, no two
/// of them have one identifier, the runtime of each artifact on record is there, and what was
/// running or recorded once is so ever after.
pub proof fn law_instances_run_for_life<R: Runtime>(
    states: Seq<DispatcherState<R>>,
    earlier: int,
    later: int,
)
    requires
        is_history(states),
        0 <= earlier <= later < states.len(),
    ensures
        states[later].extends(states[earlier]),
        states[later].is_consistent(),
        states[later].runs_recorded(),
        states[later].hosts_recorded(),
    decreases later,
{
    if later > 0 {
        law_requests_keep_instances(states[later - 1], states[later]);
        law_instances_run_for_life(states, 0, later - 1);
        if earlier < later {
            law_instances_run_for_life(states, earlier, later - 1);
            lemma_keeps_is_transitive(states[earlier], states[later - 1], states[later]);
        }
    }
}

/// The identifier of the core is never given to a service.
pub proof fn law_core_identifier_is_refused<R: Runtime>(
    before: DispatcherState<R>,
    fork_before: R::Fork,
    spec: InstanceSpec,
    constructor: Any,
    after: DispatcherState<R>,
    fork_after: R::Fork,
    result: Result<(), StartError>,
)
    requires
        starts_service(before, fork_before, spec, constructor, after, fork_after, result),
        spec.id == CORE_ID,
    ensures
        result == Err::<(), StartError>(StartError::ServiceIdExists),
        after == before,
        fork_after == fork_before,
{
}

/// An identifier is used once: an instance with the identifier of one that is running, or was
/// running in an earlier state, is refused, and nothing changes.
pub proof fn law_identifier_is_used_once<R: Runtime>(
    earlier: DispatcherState<R>,
    before: DispatcherState<R>,
    fork_before: R::Fork,
    spec: InstanceSpec,
    constructor: Any,
    after: DispatcherState<R>,
    fork_after: R::Fork,
    result: Result<(), StartError>,
)
    requires
        earlier.runtime_lookup.contains_key(spec.id),
        before.extends(earlier),
        starts_service(before, fork_before, spec, constructor, after, fork_after, result),
    ensures
        result == Err::<(), StartError>(StartError::ServiceIdExists),
        after == before,
        fork_after == fork_before,
{
    assert(before.runtime_lookup.dom().contains(spec.id));
}

/// An instance is running after a start, where it was not before, exactly if a write to the
/// schema has followed. Then its runtime has started and configured it, and the start has the
/// result of the write. Else the start has failed, nothing is entered in the lookup table, and
/// the fork has not been touched but by the configuration, if it came to that.
pub proof fn law_running_if_and_only_if_recorded<R: Runtime>(
    before: DispatcherState<R>,
    fork_before: R::Fork,
    spec: InstanceSpec,
    constructor: Any,
    after: DispatcherState<R>,
    fork_after: R::Fork,
    result: Result<(), StartError>,
)
    requires
        starts_service(before, fork_before, spec, constructor, after, fork_after, result),
        !before.identifier_exists(spec.id),
    ensures
        after.runtime_lookup.contains_key(spec.id) <==> after.records == before.records.push(
            Record::Instance(spec, result),
        ),
        after.runtime_lookup.contains_key(spec.id) ==> {
            let id = spec.artifact.runtime_id;
            &&& after.runtime_lookup == before.runtime_lookup.insert(spec.id, id)
            &&& exists|configured: R::Fork| #[trigger]
                instance_added(configured, fork_after, spec, result) && brings_up(
                    before.runtimes[id],
                    fork_before,
                    spec,
                    constructor,
                    after.runtimes[id],
                    configured,
                    Ok(()),
                )
        },
        !after.runtime_lookup.contains_key(spec.id) ==> {
            let id = spec.artifact.runtime_id;
            &&& result is Err
            &&& after.records == before.records
            &&& after.runtime_lookup == before.runtime_lookup
            &&& if before.runtimes.contains_key(id) {
                brings_up(
                    before.runtimes[id],
                    fork_before,
                    spec,
                    constructor,
                    after.runtimes[id],
                    fork_after,
                    result,
                )
            } else {
                after == before && fork_after == fork_before
            }
        },
        result is Ok ==> after.runtime_lookup.contains_key(spec.id),
{
    assert(before.records.push(Record::Instance(spec, result)).len() == before.records.len() + 1);
    let id = spec.artifact.runtime_id;
    if before.runtimes.contains_key(id) {
        let (runtime, configured, outcome) = choose|
            runtime: R,
            configured: R::Fork,
            outcome: Result<(), StartError>,
        | #[trigger]
            brings_up(
                before.runtimes[id],
                fork_before,
                spec,
                constructor,
                runtime,
                configured,
                outcome,
            ) && match outcome {
                Ok(_) => {
                    &&& instance_added(configured, fork_after, spec, result)
                    &&& after == before.with_runtime(id, runtime).with_running(spec).with_record(
                        Record::Instance(spec, result),
                    )
                },
                Err(_) => {
                    &&& result == outcome
                    &&& after == before.with_runtime(id, runtime)
                    &&& fork_after == configured
                },
            };
        if outcome is Ok {
            assert(outcome->Ok_0 == ());
            assert(instance_added(configured, fork_after, spec, result));
        }
    }
}

/// A runtime has brought an instance up exactly if it has both started and configured it; an
/// instance that was started but could not be configured has been stopped, and an error is
/// reported.
pub proof fn law_brought_up_if_and_only_if_configured<R: Runtime>(
    before: R,
    fork_before: R::Fork,
    spec: InstanceSpec,
    constructor: Any,
    after: R,
    fork_after: R::Fork,
    result: Result<(), StartError>,
)
    requires
        brings_up(before, fork_before, spec, constructor, after, fork_after, result),
    ensures
        result is Ok ==> R::starts(before, after, spec, Ok(())) && after.configures(
            fork_before,
            fork_after,
            spec,
            constructor,
            Ok(()),
        ),
        result is Err ==> {
            ||| R::starts(before, after, spec, result) && fork_after == fork_before
            ||| exists|
                started: R,
                configure: Result<(), StartError>,
                stop: Result<(), StartError>,
            |
                #![trigger R::stops(started, after, spec, stop), started.configures(fork_before, fork_after, spec, constructor, configure)]
                R::starts(before, started, spec, Ok(())) && started.configures(
                    fork_before,
                    fork_after,
                    spec,
                    constructor,
                    configure,
                ) && configure is Err && R::stops(started, after, spec, stop) && result
                    == match stop {
                    Ok(_) => configure,
                    Err(_) => stop,
                }
        },
{
    let (started, start) = choose|started: R, start: Result<(), StartError>| #[trigger]
        R::starts(before, started, spec, start) && match start {
            Ok(_) => exists|configure: Result<(), StartError>| #[trigger]
                started.configures(fork_before, fork_after, spec, constructor, configure)
                    && match configure {
                    Ok(_) => after == started && result is Ok,
                    Err(_) => exists|stop: Result<(), StartError>| #[trigger]
                        R::stops(started, after, spec, stop) && result == match stop {
                            Ok(_) => configure,
                            Err(_) => stop,
                        },
                },
            Err(_) => after == started && fork_after == fork_before && result == start,
        };
    if start is Ok {
        assert(start->Ok_0 == ());
        let configure = choose|configure: Result<(), StartError>| #[trigger]
            started.configures(fork_before, fork_after, spec, constructor, configure)
                && match configure {
                Ok(_) => after == started && result is Ok,
                Err(_) => exists|stop: Result<(), StartError>| #[trigger]
                    R::stops(started, after, spec, stop) && result == match stop {
                        Ok(_) => configure,
                        Err(_) => stop,
                    },
            };
        if configure is Ok {
            assert(configure->Ok_0 == ());
        }
    }
}

/// A call of an instance that is running, or was in an earlier state, goes to the runtime of
/// the instance.
proof fn lemma_running_service_is_called_in_its_runtime<R: Runtime>(
    earlier: DispatcherState<R>,
    spec: InstanceSpec,
    later: DispatcherState<R>,
    context: ContextState<R::Fork>,
    call_info: CallInfo,
    payload: Seq<u8>,
    called: ContextState<R::Fork>,
    result: Result<(), ExecutionError>,
)
    requires
        earlier.is_running(spec),
        earlier.runtimes.contains_key(spec.artifact.runtime_id),
        later.extends(earlier),
        call_info.instance_id == spec.id,
        calls(later, context, call_info, payload, called, result),
    ensures
        later.runtimes[spec.artifact.runtime_id].executes(
            later,
            context,
            called,
            call_info,
            payload,
            result,
        ),
{
    assert(earlier.runtime_lookup.dom().contains(spec.id));
    assert(later.runtime_lookup.dom().contains(spec.id));
    assert(earlier.runtimes.dom().contains(spec.artifact.runtime_id));
    assert(later.runtimes.dom().contains(spec.artifact.runtime_id));
}

/// From its start on, a call of a service instance goes to the runtime that it was started in.
pub proof fn law_started_service_is_called_in_its_runtime<R: Runtime>(
    before: DispatcherState<R>,
    fork_before: R::Fork,
    spec: InstanceSpec,
    constructor: Any,
    after: DispatcherState<R>,
    fork_after: R::Fork,
    started: Result<(), StartError>,
    later: DispatcherState<R>,
    context: ContextState<R::Fork>,
    call_info: CallInfo,
    payload: Seq<u8>,
    called: ContextState<R::Fork>,
    result: Result<(), ExecutionError>,
)
    requires
        starts_service(before, fork_before, spec, constructor, after, fork_after, started),
        started is Ok,
        later.extends(after),
        call_info.instance_id == spec.id,
        calls(later, context, call_info, payload, called, result),
    ensures
        later.runtimes[spec.artifact.runtime_id].executes(
            later,
            context,
            called,
            call_info,
            payload,
            result,
        ),
{
    lemma_running_service_is_called_in_its_runtime(
        after,
        spec,
        later,
        context,
        call_info,
        payload,
        called,
        result,
    );
}

/// In a consistent state the dispatcher itself refuses a call exactly if the called instance
/// is not running; any other call is answered by the runtime of the instance.
pub proof fn law_running_instance_is_reached<R: Runtime>(
    dispatcher: DispatcherState<R>,
    before: ContextState<R::Fork>,
    call_info: CallInfo,
    payload: Seq<u8>,
    after: ContextState<R::Fork>,
    result: Result<(), ExecutionError>,
)
    requires
        dispatcher.is_consistent(),
        calls(dispatcher, before, call_info, payload, after, result),
    ensures
        dispatcher.runtime_lookup.contains_key(call_info.instance_id)
            ==> dispatcher.runtimes[dispatcher.runtime_lookup[call_info.instance_id]].executes(
            dispatcher,
            before,
            after,
            call_info,
            payload,
            result,
        ),
        !dispatcher.runtime_lookup.contains_key(call_info.instance_id) ==> after == before
            && is_wrong_runtime(result),
{
}

/// A transaction that calls an instance which is not running is refused, and changes nothing.
pub proof fn law_transaction_to_unknown_instance_is_refused<R: Runtime>(
    before: DispatcherState<R>,
    fork_before: R::Fork,
    tx_id: crate::types::Hash,
    tx: Signed<AnyTx>,
    after: DispatcherState<R>,
    fork_after: R::Fork,
    result: Result<ContextState<R::Fork>, ExecutionError>,
)
    requires
        executes_transaction(before, fork_before, tx_id, tx, after, fork_after, result),
        !before.runtime_lookup.contains_key(tx.payload.call_info.instance_id),
    ensures
        after == before,
        fork_after == fork_before,
        is_wrong_runtime(result),
{
}

/// An artifact is written to the schema exactly if its deployment has succeeded; then the
/// registration has the result of the write. Else it has that of the deployment, and the fork is
/// as it was.
pub proof fn law_recorded_if_and_only_if_deployed<R: Runtime>(
    before: DispatcherState<R>,
    fork_before: R::Fork,
    artifact: ArtifactId,
    after: DispatcherState<R>,
    fork_after: R::Fork,
    result: Result<(), DeployError>,
)
    requires
        registers(before, fork_before, artifact, after, fork_after, result),
    ensures
        after.records == before.records || after.records == before.records.push(
            Record::Artifact(artifact, result),
        ),
        after.records == before.records ==> {
            &&& result is Err
            &&& deploys_to_end(before, artifact, after, result)
            &&& fork_after == fork_before
        },
        after.records != before.records ==> artifact_added(
            fork_before,
            fork_after,
            artifact,
            result,
        ) && exists|deployed: DispatcherState<R>, outcome: Result<(), DeployError>| #[trigger]
            deploys_to_end(before, artifact, deployed, outcome) && outcome is Ok,
        result is Ok ==> after.records != before.records,
{
    assert(before.records.push(Record::Artifact(artifact, result)).len() == before.records.len()
        + 1);
    let (deployed, outcome) = choose|
        deployed: DispatcherState<R>,
        outcome: Result<(), DeployError>,
    | #[trigger]
        deploys_to_end(before, artifact, deployed, outcome) && match outcome {
            Ok(_) => {
                &&& artifact_added(fork_before, fork_after, artifact, result)
                &&& after == deployed.with_record(Record::Artifact(artifact, result))
            },
            Err(_) => result == outcome && after == deployed && fork_after == fork_before,
        };
    assert(deployed.records == before.records);
}

/// The registration of an artifact concerns its own runtime alone.
pub proof fn law_registration_spares_other_runtimes<R: Runtime>(
    before: DispatcherState<R>,
    fork_before: R::Fork,
    artifact: ArtifactId,
    after: DispatcherState<R>,
    fork_after: R::Fork,
    result: Result<(), DeployError>,
    other: u32,
)
    requires
        registers(before, fork_before, artifact, after, fork_after, result),
        other != artifact.runtime_id,
        before.runtimes.contains_key(other),
    ensures
        after.runtimes.contains_key(other),
        after.runtimes[other] == before.runtimes[other],
{
}

/// The start of an instance concerns its own runtime alone.
pub proof fn law_start_spares_other_runtimes<R: Runtime>(
    before: DispatcherState<R>,
    fork_before: R::Fork,
    spec: InstanceSpec,
    constructor: Any,
    after: DispatcherState<R>,
    fork_after: R::Fork,
    result: Result<(), StartError>,
    other: u32,
)
    requires
        starts_service(before, fork_before, spec, constructor, after, fork_after, result),
        other != spec.artifact.runtime_id,
        before.runtimes.contains_key(other),
    ensures
        after.runtimes.contains_key(other),
        after.runtimes[other] == before.runtimes[other],
{
}

/// Restoring keeps the runtimes that there are, and neither records nor requests anything.
/// Instances that are not listed are running after it exactly where they were before.
pub proof fn law_restoring_spares_the_rest<R: Runtime>(
    before: DispatcherState<R>,
    artifacts: Seq<ArtifactId>,
    instances: Seq<InstanceSpec>,
    after: DispatcherState<R>,
    result: Result<(), RestoreError>,
    id: ServiceInstanceId,
)
    requires
        restores(before, artifacts, instances, after, result),
        forall|i: int| 0 <= i < instances.len() ==> (#[trigger] instances[i]).id != id,
    ensures
        after.runtimes.dom() == before.runtimes.dom(),
        after.requests == before.requests,
        after.records == before.records,
        after.runtime_lookup.contains_key(id) == before.runtime_lookup.contains_key(id),
        before.runtime_lookup.contains_key(id) ==> after.runtime_lookup[id]
            == before.runtime_lookup[id],
{
    let (deployed, outcome, restart) = lemma_parts_of_restoring(
        before,
        artifacts,
        instances,
        after,
        result,
    );
    lemma_deploy_all_keeps(before, artifacts, deployed, outcome);
    lemma_deploy_all_keeps_books(before, artifacts, deployed, outcome);
    if outcome is Ok {
        let states = choose|states: Seq<DispatcherState<R>>| #[trigger]
            handled_in_turn(restart_step::<R>(), states, instances, restart) && states.first()
                == deployed && states.last() == after;
        let n = states.len() - 1;
        lemma_restarts_so_far(states, instances, restart, n);
        let entered = instances.take(
            if n > 0 && restart is Err {
                n - 1
            } else {
                n
            },
        );
        assert forall|i: int| 0 <= i < entered.len() implies (#[trigger] entered[i]).id != id by {
            assert(entered[i] == instances[i]);
        }
        lemma_unlisted_is_spared(deployed.runtime_lookup, entered, id);
    }
}

/// The lookup table of a restored state is the earlier one with the listed instances in it, and
/// the runtimes of all of them are there.
proof fn lemma_restored_lookup<R: Runtime>(
    before: DispatcherState<R>,
    artifacts: Seq<ArtifactId>,
    instances: Seq<InstanceSpec>,
    after: DispatcherState<R>,
    result: Result<(), RestoreError>,
)
    requires
        restores(before, artifacts, instances, after, result),
        result is Ok,
    ensures
        after.runtime_lookup == lookup_with(before.runtime_lookup, instances),
        forall|i: int|
            0 <= i < instances.len() ==> after.runtimes.contains_key(
                (#[trigger] instances[i]).artifact.runtime_id,
            ),
{
    let (deployed, outcome, restart) = lemma_parts_of_restoring(
        before,
        artifacts,
        instances,
        after,
        result,
    );
    lemma_deploy_all_keeps_books(before, artifacts, deployed, outcome);
    let states = choose|states: Seq<DispatcherState<R>>| #[trigger]
        handled_in_turn(restart_step::<R>(), states, instances, restart) && states.first()
            == deployed && states.last() == after;
    lemma_restarts_so_far(states, instances, restart, states.len() - 1);
    assert(instances.take(instances.len() as int) == instances);
    assert forall|i: int| 0 <= i < instances.len() implies after.runtimes.contains_key(
        (#[trigger] instances[i]).artifact.runtime_id,
    ) by {
        assert(after.runtimes.dom().contains(instances[i].artifact.runtime_id));
    }
}

/// A dispatcher that has been restored runs each saved instance in the runtime of its artifact,
/// if no other instance is listed after it under the same identifier.
pub proof fn law_restored_instance_is_running<R: Runtime>(
    before: DispatcherState<R>,
    artifacts: Seq<ArtifactId>,
    instances: Seq<InstanceSpec>,
    after: DispatcherState<R>,
    result: Result<(), RestoreError>,
    i: int,
)
    requires
        restores(before, artifacts, instances, after, result),
        result is Ok,
        0 <= i < instances.len(),
        forall|j: int| i < j < instances.len() ==> (#[trigger] instances[j]).id != instances[i].id,
    ensures
        after.is_running(instances[i]),
        after.identifier_exists(instances[i].id),
        after.runtimes.contains_key(instances[i].artifact.runtime_id),
{
    lemma_restored_lookup(before, artifacts, instances, after, result);
    lemma_last_listed_is_entered(before.runtime_lookup, instances, i);
}

/// From the restoring on, a call of a saved instance goes to the runtime of its artifact.
pub proof fn law_restored_instance_is_called_in_its_runtime<R: Runtime>(
    before: DispatcherState<R>,
    artifacts: Seq<ArtifactId>,
    instances: Seq<InstanceSpec>,
    after: DispatcherState<R>,
    restored: Result<(), RestoreError>,
    i: int,
    later: DispatcherState<R>,
    context: ContextState<R::Fork>,
    call_info: CallInfo,
    payload: Seq<u8>,
    called: ContextState<R::Fork>,
    result: Result<(), ExecutionError>,
)
    requires
        restores(before, artifacts, instances, after, restored),
        restored is Ok,
        0 <= i < instances.len(),
        forall|j: int| i < j < instances.len() ==> (#[trigger] instances[j]).id != instances[i].id,
        later.extends(after),
        call_info.instance_id == instances[i].id,
        calls(later, context, call_info, payload, called, result),
    ensures
        later.runtimes[instances[i].artifact.runtime_id].executes(
            later,
            context,
            called,
            call_info,
            payload,
            result,
        ),
{
    law_restored_instance_is_running(before, artifacts, instances, after, restored, i);
    lemma_running_service_is_called_in_its_runtime(
        after,
        instances[i],
        later,
        context,
        call_info,
        payload,
        called,
        result,
    );
}

/// What is handled with success is handled with success as far as each of the items.
proof fn lemma_handling_begins<S, T, E>(
    step: spec_fn(S, T, S, Result<(), E>) -> bool,
    states: Seq<S>,
    items: Seq<T>,
    i: int,
)
    requires
        handled_in_turn(step, states, items, Ok::<(), E>(())),
        0 <= i <= items.len(),
    ensures
        handles_all(step, states[0], items.take(i), states[i], Ok::<(), E>(())),
{
    let begun = states.take(i + 1);
    let first = items.take(i);
    assert forall|k: int| #![trigger first[k]] 0 <= k < begun.len() - 1 implies step(
        begun[k],
        first[k],
        begun[k + 1],
        Ok(()),
    ) by {
        let _ = items[k];
    }
    assert(handled_in_turn(step, begun, first, Ok::<(), E>(())));
}

/// When the artifacts are deployed in turn from `before` on, the deployment of `artifact` comes
/// up and succeeds.
pub open spec fn deploys_among<R: Runtime>(
    before: DispatcherState<R>,
    artifacts: Seq<ArtifactId>,
    artifact: ArtifactId,
) -> bool {
    exists|i: int, b: DispatcherState<R>, a: DispatcherState<R>|
        #![trigger deploys_all(before, artifacts.take(i), b, Ok::<(), DeployError>(())), deploys_to_end(b, artifact, a, Ok::<(), DeployError>(()))]
        0 <= i < artifacts.len() && artifacts[i] == artifact && deploys_all(
            before,
            artifacts.take(i),
            b,
            Ok::<(), DeployError>(()),
        ) && deploys_to_end(b, artifact, a, Ok::<(), DeployError>(()))
}

/// When the instances are started again in turn from `before` on, the start of `spec` comes up
/// and succeeds.
pub open spec fn restarts_among<R: Runtime>(
    before: DispatcherState<R>,
    instances: Seq<InstanceSpec>,
    spec: InstanceSpec,
) -> bool {
    exists|i: int, b: DispatcherState<R>, a: DispatcherState<R>|
        #![trigger restarts_all(before, instances.take(i), b, Ok::<(), StartError>(())), restarts_service(b, spec, a, Ok::<(), StartError>(()))]
        0 <= i < instances.len() && instances[i] == spec && restarts_all(
            before,
            instances.take(i),
            b,
            Ok::<(), StartError>(()),
        ) && restarts_service(b, spec, a, Ok::<(), StartError>(()))
}

/// Restoring that has succeeded has deployed each listed artifact, and then started each listed
/// instance, all with success.
pub proof fn law_restoring_leaves_nothing_out<R: Runtime>(
    before: DispatcherState<R>,
    artifacts: Seq<ArtifactId>,
    instances: Seq<InstanceSpec>,
    after: DispatcherState<R>,
    result: Result<(), RestoreError>,
)
    requires
        restores(before, artifacts, instances, after, result),
        result is Ok,
    ensures
        forall|artifact: ArtifactId| #[trigger]
            artifacts.contains(artifact) ==> deploys_among(before, artifacts, artifact),
        exists|deployed: DispatcherState<R>|
            {
                &&& #[trigger] deploys_all(before, artifacts, deployed, Ok::<(), DeployError>(()))
                &&& forall|spec: InstanceSpec| #[trigger]
                    instances.contains(spec) ==> restarts_among(deployed, instances, spec)
            },
{
    let (deployed, outcome, restart) = lemma_parts_of_restoring(
        before,
        artifacts,
        instances,
        after,
        result,
    );
    assert(outcome->Ok_0 == ());
    assert(restart->Ok_0 == ());
    let deployments = choose|states: Seq<DispatcherState<R>>| #[trigger]
        handled_in_turn(deploy_step::<R>(), states, artifacts, outcome) && states.first() == before
            && states.last() == deployed;
    let restarts = choose|states: Seq<DispatcherState<R>>| #[trigger]
        handled_in_turn(restart_step::<R>(), states, instances, restart) && states.first()
            == deployed && states.last() == after;
    assert forall|artifact: ArtifactId| #[trigger]
        artifacts.contains(artifact) implies deploys_among(before, artifacts, artifact) by {
        let i = artifacts.index_of(artifact);
        assert(artifacts[i] == artifact);
        lemma_handling_begins(deploy_step::<R>(), deployments, artifacts, i);
        assert(deploys_all(
            before,
            artifacts.take(i),
            deployments[i],
            Ok::<(), DeployError>(()),
        ));
        assert(deploys_to_end(
            deployments[i],
            artifact,
            deployments[i + 1],
            Ok::<(), DeployError>(()),
        ));
    }
    assert forall|spec: InstanceSpec| #[trigger] instances.contains(spec) implies restarts_among(
        deployed,
        instances,
        spec,
    ) by {
        let i = instances.index_of(spec);
        assert(instances[i] == spec);
        lemma_handling_begins(restart_step::<R>(), restarts, instances, i);
        assert(restarts_all(
            deployed,
            instances.take(i),
            restarts[i],
            Ok::<(), StartError>(()),
        ));
        assert(restarts_service(restarts[i], spec, restarts[i + 1], Ok::<(), StartError>(())));
    }
    assert(deploys_all(before, artifacts, deployed, Ok::<(), DeployError>(())));
}

/// A dispatcher that is restored, as good as new, from instances that were running in another
/// runs each of them in the runtime that it was running in, and runs nothing else.
pub proof fn law_saved_instances_run_where_they_ran<R: Runtime, Q: Runtime>(
    saved: DispatcherState<R>,
    before: DispatcherState<Q>,
    artifacts: Seq<ArtifactId>,
    instances: Seq<InstanceSpec>,
    after: DispatcherState<Q>,
    result: Result<(), RestoreError>,
)
    requires
        forall|spec: InstanceSpec| #[trigger] instances.contains(spec) ==> saved.is_running(spec),
        before.is_fresh(),
        restores(before, artifacts, instances, after, result),
        result is Ok,
    ensures
        forall|spec: InstanceSpec| #[trigger] instances.contains(spec) ==> after.is_running(spec),
        after.runtime_lookup.submap_of(saved.runtime_lookup),
        forall|id: ServiceInstanceId| #[trigger]
            after.runtime_lookup.contains_key(id) ==> exists|i: int|
                0 <= i < instances.len() && (#[trigger] instances[i]).id == id,
{
    lemma_restored_lookup(before, artifacts, instances, after, result);
    assert forall|id: ServiceInstanceId| #[trigger]
        after.runtime_lookup.contains_key(id) implies saved.runtime_lookup.contains_key(id)
        && saved.runtime_lookup[id] == after.runtime_lookup[id] && exists|i: int|
        0 <= i < instances.len() && (#[trigger] instances[i]).id == id by {
        let i = lemma_entries_are_listed(before.runtime_lookup, instances, id);
        assert(instances.contains(instances[i]));
    }
    assert forall|id: ServiceInstanceId| #[trigger]
        after.runtime_lookup.dom().contains(id) implies saved.runtime_lookup.dom().contains(id)
        && after.runtime_lookup[id] == saved.runtime_lookup[id] by {
        assert(after.runtime_lookup.contains_key(id));
    }
    assert forall|spec: InstanceSpec| #[trigger] instances.contains(spec) implies after.is_running(
        spec,
    ) by {
        let i = instances.index_of(spec);
        lemma_listed_is_entered(before.runtime_lookup, instances, i);
        assert(after.runtime_lookup.contains_key(spec.id));
    }
}

/// Something is entered under each identifier that is listed.
proof fn lemma_listed_is_entered(
    lookup: Map<ServiceInstanceId, u32>,
    instances: Seq<InstanceSpec>,
    i: int,
)
    requires
        0 <= i < instances.len(),
    ensures
        lookup_with(lookup, instances).contains_key(instances[i].id),
    decreases instances.len(),
{
    if i < instances.len() - 1 {
        lemma_listed_is_entered(lookup, instances.drop_last(), i);
    }
}

/// What one dispatcher has registered and started is what another restores. If a new dispatcher
/// is restored from the artifacts and the instances that another has written to the schema in
/// its life, then it has deployed each of the artifacts, and it runs each of the instances in
/// the runtime in which the other runs it. It runs nothing that the other does not; if the other
/// runs nothing but what it has written to the schema, both run the same.
pub proof fn law_what_is_recorded_is_restored<R: Runtime, Q: Runtime>(
    states: Seq<DispatcherState<R>>,
    before: DispatcherState<Q>,
    artifacts: Seq<ArtifactId>,
    instances: Seq<InstanceSpec>,
    after: DispatcherState<Q>,
    result: Result<(), RestoreError>,
)
    requires
        is_history(states),
        lists_recorded(states.last().records, artifacts, instances),
        before.is_fresh(),
        restores(before, artifacts, instances, after, result),
        result is Ok,
    ensures
        forall|artifact: ArtifactId| #[trigger]
            states.last().records.contains(Record::Artifact(artifact, Ok(()))) ==> deploys_among(
                before,
                artifacts,
                artifact,
            ),
        forall|spec: InstanceSpec| #[trigger]
            states.last().records.contains(Record::Instance(spec, Ok(()))) ==> after.is_running(
                spec,
            ) && states.last().is_running(spec),
        after.runtime_lookup.submap_of(states.last().runtime_lookup),
        (forall|id: ServiceInstanceId| #[trigger]
            states.last().runtime_lookup.contains_key(id) ==> exists|spec: InstanceSpec|
                #[trigger]
                states.last().records.contains(Record::Instance(spec, Ok(()))) && spec.id == id)
            ==> after.runtime_lookup == states.last().runtime_lookup,
{
    let saved = states.last();
    let n = states.len() - 1;
    law_instances_run_for_life(states, n, n);
    assert forall|spec: InstanceSpec| #[trigger] instances.contains(spec) implies saved.is_running(
        spec,
    ) by {
        let i = saved.records.index_of(Record::Instance(spec, Ok(())));
        assert(saved.records[i] == Record::Instance(spec, Ok(())));
    }
    law_saved_instances_run_where_they_ran(saved, before, artifacts, instances, after, result);
    law_restoring_leaves_nothing_out(before, artifacts, instances, after, result);
    assert forall|artifact: ArtifactId| #[trigger]
        saved.records.contains(Record::Artifact(artifact, Ok(()))) implies deploys_among(
        before,
        artifacts,
        artifact,
    ) by {
        assert(artifacts.contains(artifact));
    }
    assert forall|spec: InstanceSpec| #[trigger]
        saved.records.contains(Record::Instance(spec, Ok(()))) implies after.is_running(spec)
        && saved.is_running(spec) by {
        assert(instances.contains(spec));
    }
    if forall|id: ServiceInstanceId| #[trigger]
        saved.runtime_lookup.contains_key(id) ==> exists|spec: InstanceSpec| #[trigger]
            saved.records.contains(Record::Instance(spec, Ok(()))) && spec.id == id {
        assert forall|id: ServiceInstanceId| saved.runtime_lookup.dom().contains(id)
            == after.runtime_lookup.dom().contains(id) by {
            if saved.runtime_lookup.contains_key(id) {
                let spec = choose|spec: InstanceSpec| #[trigger]
                    saved.records.contains(Record::Instance(spec, Ok(()))) && spec.id == id;
                assert(after.is_running(spec));
            }
        }
        assert(after.runtime_lookup =~= saved.runtime_lookup);
    }
}

/// Deployments that are accepted succeed, and leave all runtimes fit.
proof fn lemma_accepted_deployments_succeed<R: Runtime>(
    states: Seq<DispatcherState<R>>,
    artifacts: Seq<ArtifactId>,
    instances: Seq<InstanceSpec>,
    result: Result<(), DeployError>,
    fit: spec_fn(u32, R) -> bool,
    n: int,
)
    requires
        handled_in_turn(deploy_step::<R>(), states, artifacts, result),
        accepts_all(fit, artifacts, instances),
        all_fit(states[0], fit),
        forall|i: int|
            0 <= i < artifacts.len() ==> states[0].runtimes.contains_key(
                (#[trigger] artifacts[i]).runtime_id,
            ),
        0 <= n < states.len(),
    ensures
        all_fit(states[n], fit),
        states[n].runtimes.dom() == states[0].runtimes.dom(),
        0 < n == states.len() - 1 ==> result is Ok,
    decreases n,
{
    if n > 0 {
        lemma_accepted_deployments_succeed(states, artifacts, instances, result, fit, n - 1);
        let artifact = artifacts[n - 1];
        let outcome = if n == states.len() - 1 {
            result
        } else {
            Ok(())
        };
        assert(artifacts.contains(artifact));
        assert(deploys_to_end(states[n - 1], artifact, states[n], outcome));
        let deployment = choose|deployment: Deployment<R>| #[trigger]
            deploys(states[n - 1], artifact, states[n], deployment) && deployment.ends(outcome);
        assert(states[n - 1].runtimes.dom().contains(artifact.runtime_id));
        assert(states[n].runtimes.dom() =~= states[n - 1].runtimes.dom());
        assert(deployment is Started);
        assert(waited::<R>(deployment->Started_0, outcome));
        assert forall|id: u32| #[trigger] states[n].runtimes.contains_key(id) implies fit(
            id,
            states[n].runtimes[id],
        ) by {
            assert(states[n - 1].runtimes.contains_key(id));
        }
    }
}

/// Starts that are accepted succeed, and leave all runtimes fit.
proof fn lemma_accepted_restarts_succeed<R: Runtime>(
    states: Seq<DispatcherState<R>>,
    artifacts: Seq<ArtifactId>,
    instances: Seq<InstanceSpec>,
    result: Result<(), StartError>,
    fit: spec_fn(u32, R) -> bool,
    n: int,
)
    requires
        handled_in_turn(restart_step::<R>(), states, instances, result),
        accepts_all(fit, artifacts, instances),
        all_fit(states[0], fit),
        forall|i: int|
            0 <= i < instances.len() ==> states[0].runtimes.contains_key(
                (#[trigger] instances[i]).artifact.runtime_id,
            ),
        0 <= n < states.len(),
    ensures
        all_fit(states[n], fit),
        states[n].runtimes.dom() == states[0].runtimes.dom(),
        0 < n == states.len() - 1 ==> result is Ok,
    decreases n,
{
    if n > 0 {
        lemma_accepted_restarts_succeed(states, artifacts, instances, result, fit, n - 1);
        let spec = instances[n - 1];
        assert(instances.contains(spec));
        assert(restarts_service(
            states[n - 1],
            spec,
            states[n],
            if n == states.len() - 1 {
                result
            } else {
                Ok(())
            },
        ));
        assert(states[n - 1].runtimes.dom().contains(spec.artifact.runtime_id));
        assert(states[n].runtimes.dom() =~= states[n - 1].runtimes.dom());
        assert forall|id: u32| #[trigger] states[n].runtimes.contains_key(id) implies fit(
            id,
            states[n].runtimes[id],
        ) by {
            assert(states[n - 1].runtimes.contains_key(id));
        }
    }
}

/// Restoring succeeds if the runtimes of all listed artifacts and instances are there and accept
/// each deployment and each start.
pub proof fn law_accepted_state_is_restored<R: Runtime>(
    before: DispatcherState<R>,
    artifacts: Seq<ArtifactId>,
    instances: Seq<InstanceSpec>,
    after: DispatcherState<R>,
    result: Result<(), RestoreError>,
    fit: spec_fn(u32, R) -> bool,
)
    requires
        restores(before, artifacts, instances, after, result),
        accepts_all(fit, artifacts, instances),
        all_fit(before, fit),
        forall|i: int|
            0 <= i < artifacts.len() ==> before.runtimes.contains_key(
                (#[trigger] artifacts[i]).runtime_id,
            ),
        forall|i: int|
            0 <= i < instances.len() ==> before.runtimes.contains_key(
                (#[trigger] instances[i]).artifact.runtime_id,
            ),
    ensures
        result is Ok,
{
    let (deployed, outcome, restart) = lemma_parts_of_restoring(
        before,
        artifacts,
        instances,
        after,
        result,
    );
    let deployments = choose|states: Seq<DispatcherState<R>>| #[trigger]
        handled_in_turn(deploy_step::<R>(), states, artifacts, outcome) && states.first() == before
            && states.last() == deployed;
    lemma_accepted_deployments_succeed(
        deployments,
        artifacts,
        instances,
        outcome,
        fit,
        deployments.len() - 1,
    );
    let restarts = choose|states: Seq<DispatcherState<R>>| #[trigger]
        handled_in_turn(restart_step::<R>(), states, instances, restart) && states.first()
            == deployed && states.last() == after;
    assert forall|i: int| 0 <= i < instances.len() implies deployed.runtimes.contains_key(
        (#[trigger] instances[i]).artifact.runtime_id,
    ) by {
        assert(before.runtimes.dom().contains(instances[i].artifact.runtime_id));
    }
    lemma_accepted_restarts_succeed(
        restarts,
        artifacts,
        instances,
        restart,
        fit,
        restarts.len() - 1,
    );
}

/// What one dispatcher has registered and started can be restored in another that has runtimes
/// with the same identifiers, if they accept each deployment and each start.
pub proof fn law_what_is_recorded_can_be_restored<R: Runtime, Q: Runtime>(
    states: Seq<DispatcherState<R>>,
    before: DispatcherState<Q>,
    artifacts: Seq<ArtifactId>,
    instances: Seq<InstanceSpec>,
    after: DispatcherState<Q>,
    result: Result<(), RestoreError>,
    fit: spec_fn(u32, Q) -> bool,
)
    requires
        is_history(states),
        lists_recorded(states.last().records, artifacts, instances),
        before.runtimes.dom() == states.last().runtimes.dom(),
        restores(before, artifacts, instances, after, result),
        accepts_all(fit, artifacts, instances),
        all_fit(before, fit),
    ensures
        result is Ok,
{
    let saved = states.last();
    let n = states.len() - 1;
    law_instances_run_for_life(states, n, n);
    assert forall|i: int| 0 <= i < artifacts.len() implies before.runtimes.contains_key(
        (#[trigger] artifacts[i]).runtime_id,
    ) by {
        assert(artifacts.contains(artifacts[i]));
        let k = saved.records.index_of(Record::Artifact(artifacts[i], Ok(())));
        assert(saved.records[k] == Record::Artifact(artifacts[i], Ok(())));
        assert(saved.runtimes.dom().contains(artifacts[i].runtime_id));
    }
    assert forall|i: int| 0 <= i < instances.len() implies before.runtimes.contains_key(
        (#[trigger] instances[i]).artifact.runtime_id,
    ) by {
        assert(instances.contains(instances[i]));
        let k = saved.records.index_of(Record::Instance(instances[i], Ok(())));
        assert(saved.records[k] == Record::Instance(instances[i], Ok(())));
        assert(saved.is_running(instances[i]));
        assert(saved.runtimes.dom().contains(instances[i].artifact.runtime_id));
    }
    law_accepted_state_is_restored(before, artifacts, instances, after, result, fit);
}

/// The start of an instance makes no other instance callable, and never the core.
proof fn lemma_start_enters_its_own<R: Runtime>(
    before: DispatcherState<R>,
    fork_before: R::Fork,
    spec: InstanceSpec,
    constructor: Any,
    after: DispatcherState<R>,
    fork_after: R::Fork,
    result: Result<(), StartError>,
    id: ServiceInstanceId,
)
    requires
        starts_service(before, fork_before, spec, constructor, after, fork_after, result),
        after.runtime_lookup.contains_key(id),
        !before.runtime_lookup.contains_key(id),
    ensures
        spec.id == id,
        id != CORE_ID,
{
}

/// An action makes no instance callable but the one that it is to start.
proof fn lemma_action_enters_its_own<R: Runtime>(
    before: DispatcherState<R>,
    fork_before: R::Fork,
    action: Action,
    after: DispatcherState<R>,
    fork_after: R::Fork,
    result: Result<(), ExecutionError>,
    id: ServiceInstanceId,
)
    requires
        acts(before, fork_before, action, after, fork_after, result),
        after.runtime_lookup.contains_key(id),
        !before.runtime_lookup.contains_key(id),
    ensures
        action matches Action::StartService { spec, .. } && spec.id == id,
        id != CORE_ID,
{
    match action {
        Action::DeployArtifact { artifact } => {},
        Action::RegisterArtifact { artifact } => {},
        Action::StartService { spec, config } => {
            assert forall|started: DispatcherState<R>, outcome: Result<(), StartError>| #[trigger]
                starts_service(before, fork_before, spec, config, started, fork_after, outcome)
                    && started.runtime_lookup.contains_key(id) implies spec.id == id && id
                != CORE_ID by {
                lemma_start_enters_its_own(
                    before,
                    fork_before,
                    spec,
                    config,
                    started,
                    fork_after,
                    outcome,
                    id,
                );
            }
        },
    }
}

/// Actions make no instance callable but those that they are to start.
proof fn lemma_actions_enter_their_own<R: Runtime>(
    states: Seq<(DispatcherState<R>, R::Fork)>,
    actions: Seq<Action>,
    result: Result<(), ExecutionError>,
    n: int,
    id: ServiceInstanceId,
)
    requires
        handled_in_turn(action_step::<R>(), states, actions, result),
        0 <= n < states.len(),
        states[n].0.runtime_lookup.contains_key(id),
        !states[0].0.runtime_lookup.contains_key(id),
    ensures
        asks_for_identifier(actions, id),
        id != CORE_ID,
    decreases n,
{
    let action = actions[n - 1];
    if states[n - 1].0.runtime_lookup.contains_key(id) {
        lemma_actions_enter_their_own(states, actions, result, n - 1, id);
    } else {
        lemma_action_enters_its_own(
            states[n - 1].0,
            states[n - 1].1,
            action,
            states[n].0,
            states[n].1,
            if n == states.len() - 1 {
                result
            } else {
                Ok(())
            },
            id,
        );
    }
}

proof fn lemma_resume_enters_its_own<R: Runtime>(
    before: DispatcherState<R>,
    fork_before: R::Fork,
    pending: Seq<Action>,
    after: DispatcherState<R>,
    fork_after: R::Fork,
    left: Seq<Action>,
    result: Result<(), ExecutionError>,
    id: ServiceInstanceId,
)
    requires
        resumes(before, fork_before, pending, after, fork_after, left, result),
        after.runtime_lookup.contains_key(id),
        !before.runtime_lookup.contains_key(id),
    ensures
        asks_for_identifier(pending, id),
        id != CORE_ID,
{
    let n = lemma_resumed_part(before, fork_before, pending, after, fork_after, left, result);
    let begun = pending.take(n);
    let states = choose|states: Seq<(DispatcherState<R>, R::Fork)>| #[trigger]
        handled_in_turn(action_step::<R>(), states, begun, result) && states.first() == (
            before,
            fork_before,
        ) && states.last() == (after, fork_after);
    lemma_actions_enter_their_own(states, begun, result, states.len() - 1, id);
    let i = choose|i: int|
        0 <= i < begun.len() && (#[trigger] begun[i] matches Action::StartService { spec, .. }
            && spec.id == id);
    assert(pending[i] == begun[i]);
}

/// An instance becomes callable by a start that was given its identifier, or by a restoring of a
/// state that lists it, and by nothing else. The core becomes callable by such a restoring
/// alone.
pub proof fn law_only_what_is_given_becomes_callable<R: Runtime>(
    before: DispatcherState<R>,
    after: DispatcherState<R>,
    id: ServiceInstanceId,
)
    requires
        moves_anyhow(before, after),
        !before.runtime_lookup.contains_key(id),
        after.runtime_lookup.contains_key(id),
    ensures
        restores_identifier(before, after, id) || (id != CORE_ID && starts_identifier(
            before,
            after,
            id,
        )),
{
    if exists|
        artifacts: Seq<ArtifactId>,
        instances: Seq<InstanceSpec>,
        result: Result<(), RestoreError>,
    | #[trigger] restores(before, artifacts, instances, after, result) {
        let (artifacts, instances, result) = choose|
            artifacts: Seq<ArtifactId>,
            instances: Seq<InstanceSpec>,
            result: Result<(), RestoreError>,
        | #[trigger] restores(before, artifacts, instances, after, result);
        if !lists_identifier(instances, id) {
            law_restoring_spares_the_rest(before, artifacts, instances, after, result, id);
        }
    } else {
        assert forall|
            fork_before: R::Fork,
            spec: InstanceSpec,
            constructor: Any,
            fork_after: R::Fork,
            result: Result<(), StartError>,
        | #[trigger]
            starts_service(
                before,
                fork_before,
                spec,
                constructor,
                after,
                fork_after,
                result,
            ) implies spec.id == id && id != CORE_ID by {
            lemma_start_enters_its_own(
                before,
                fork_before,
                spec,
                constructor,
                after,
                fork_after,
                result,
                id,
            );
        }
        assert forall|
            fork_before: R::Fork,
            spec: InstanceSpec,
            constructor: Any,
            fork_after: R::Fork,
            result: Result<(), BuiltinError>,
        | #[trigger]
            adds_builtin(
                before,
                fork_before,
                spec,
                constructor,
                after,
                fork_after,
                result,
            ) implies spec.id == id && id != CORE_ID by {
            assert forall|
                registered: DispatcherState<R>,
                fork: R::Fork,
                outcome: Result<(), DeployError>,
            | #[trigger]
                registers(
                    before,
                    fork_before,
                    spec.artifact,
                    registered,
                    fork,
                    outcome,
                ) implies registered.runtime_lookup == before.runtime_lookup by {}
            assert forall|
                registered: DispatcherState<R>,
                fork: R::Fork,
                start: Result<(), StartError>,
            |
                registered.runtime_lookup == before.runtime_lookup && #[trigger] starts_service(
                    registered,
                    fork,
                    spec,
                    constructor,
                    after,
                    fork_after,
                    start,
                ) implies spec.id == id && id != CORE_ID by {
                lemma_start_enters_its_own(
                    registered,
                    fork,
                    spec,
                    constructor,
                    after,
                    fork_after,
                    start,
                    id,
                );
            }
        }
        assert forall|
            fork_before: R::Fork,
            action: Action,
            fork_after: R::Fork,
            result: Result<(), ExecutionError>,
        | #[trigger]
            acts(
                before,
                fork_before,
                action,
                after,
                fork_after,
                result,
            ) implies asks_for_identifier(seq![action], id) && id != CORE_ID by {
            lemma_action_enters_its_own(
                before,
                fork_before,
                action,
                after,
                fork_after,
                result,
                id,
            );
            assert(seq![action][0] == action);
        }
        assert forall|
            fork_before: R::Fork,
            pending: Seq<Action>,
            fork_after: R::Fork,
            left: Seq<Action>,
            result: Result<(), ExecutionError>,
        | #[trigger]
            resumes(
                before,
                fork_before,
                pending,
                after,
                fork_after,
                left,
                result,
            ) implies asks_for_identifier(pending, id) && id != CORE_ID by {
            lemma_resume_enters_its_own(
                before,
                fork_before,
                pending,
                after,
                fork_after,
                left,
                result,
                id,
            );
        }
    }
}

/// An identifier that no start and no restoring has been given is not callable, whatever else the
/// dispatcher has been asked to do.
pub proof fn law_what_is_not_given_is_not_callable<R: Runtime>(
    states: Seq<DispatcherState<R>>,
    id: ServiceInstanceId,
    n: int,
)
    requires
        0 <= n < states.len(),
        states[0].is_fresh(),
        forall|i: int| 0 < i < states.len() ==> moves_anyhow(states[i - 1], #[trigger] states[i]),
        forall|i: int|
            0 < i < states.len() ==> !starts_identifier(states[i - 1], #[trigger] states[i], id)
                && !restores_identifier(states[i - 1], states[i], id),
    ensures
        !states[n].runtime_lookup.contains_key(id),
    decreases n,
{
    if n > 0 {
        law_what_is_not_given_is_not_callable(states, id, n - 1);
        if states[n].runtime_lookup.contains_key(id) {
            law_only_what_is_given_becomes_callable(states[n - 1], states[n], id);
        }
    }
}

/// The core is not callable, whatever the dispatcher has been asked to do, unless a state that
/// lists its identifier has been restored.
pub proof fn law_core_is_not_callable<R: Runtime>(states: Seq<DispatcherState<R>>, n: int)
    requires
        0 <= n < states.len(),
        states[0].is_fresh(),
        forall|i: int| 0 < i < states.len() ==> moves_anyhow(states[i - 1], #[trigger] states[i]),
        forall|i: int|
            0 < i < states.len() ==> !restores_identifier(
                states[i - 1],
                #[trigger] states[i],
                CORE_ID as u32,
            ),
    ensures
        !states[n].runtime_lookup.contains_key(CORE_ID as u32),
    decreases n,
{
    if n > 0 {
        law_core_is_not_callable(states, n - 1);
        if states[n].runtime_lookup.contains_key(CORE_ID as u32) {
            law_only_what_is_given_becomes_callable(states[n - 1], states[n], CORE_ID as u32);
        }
    }
}

/// `handled_in_turn` of a beginning, and of what follows it, is `handled_in_turn` of the whole.
proof fn lemma_handling_joins<S, T, E>(
    step: spec_fn(S, T, S, Result<(), E>) -> bool,
    begun: Seq<S>,
    first: Seq<T>,
    done: Result<(), E>,
    ended: Seq<S>,
    rest: Seq<T>,
    result: Result<(), E>,
)
    requires
        handled_in_turn(step, begun, first, done),
        done is Ok,
        handled_in_turn(step, ended, rest, result),
        begun.last() == ended.first(),
    ensures
        handled_in_turn(step, begun + ended.drop_first(), first + rest, result),
{
    let states = begun + ended.drop_first();
    let items = first + rest;
    let unit = done->Ok_0;
    assert(unit == ());
    if result is Ok {
        let other = result->Ok_0;
        assert(other == ());
    }
    assert forall|i: int|
        #![trigger items[i]]
        0 <= i < states.len() - 1 implies step(
        states[i],
        items[i],
        states[i + 1],
        if i == states.len() - 2 {
            result
        } else {
            Ok(())
        },
    ) by {
        if i < first.len() {
            let _ = first[i];
            if ended.len() == 1 {
                assert(result is Ok);
            }
        } else {
            let _ = rest[i - first.len()];
        }
    }
}

/// Items are handled in turn: to handle two lists one after the other is to handle the first,
/// and, if that succeeds, to go on with the second from where the first has led. A failure in
/// the first list ends it all.
pub proof fn law_items_are_handled_in_turn<S, T, E>(
    step: spec_fn(S, T, S, Result<(), E>) -> bool,
    before: S,
    first: Seq<T>,
    rest: Seq<T>,
    after: S,
    result: Result<(), E>,
)
    ensures
        handles_all(step, before, first + rest, after, result) <==> {
            ||| result is Err && handles_all(step, before, first, after, result)
            ||| exists|middle: S| #[trigger]
                handles_all(step, before, first, middle, Ok::<(), E>(())) && handles_all(
                    step,
                    middle,
                    rest,
                    after,
                    result,
                )
        },
{
    let items = first + rest;
    if handles_all(step, before, items, after, result) {
        let states = choose|states: Seq<S>| #[trigger]
            handled_in_turn(step, states, items, result) && states.first() == before
                && states.last() == after;
        if states.len() <= first.len() + 1 && result is Err {
            assert forall|i: int|
                #![trigger first[i]]
                0 <= i < states.len() - 1 implies step(
                states[i],
                first[i],
                states[i + 1],
                if i == states.len() - 2 {
                    result
                } else {
                    Ok(())
                },
            ) by {
                let _ = items[i];
            }
            assert(handled_in_turn(step, states, first, result));
        } else {
            let begun = states.take(first.len() as int + 1);
            let ended = states.skip(first.len() as int);
            if result is Ok {
                let unit = result->Ok_0;
                assert(unit == ());
            }
            assert forall|i: int|
                #![trigger first[i]]
                0 <= i < begun.len() - 1 implies step(
                begun[i],
                first[i],
                begun[i + 1],
                Ok(()),
            ) by {
                let _ = items[i];
            }
            assert(handled_in_turn(step, begun, first, Ok::<(), E>(())));
            assert forall|i: int|
                #![trigger rest[i]]
                0 <= i < ended.len() - 1 implies step(
                ended[i],
                rest[i],
                ended[i + 1],
                if i == ended.len() - 2 {
                    result
                } else {
                    Ok(())
                },
            ) by {
                let _ = items[i + first.len()];
            }
            assert(handled_in_turn(step, ended, rest, result));
            assert(handles_all(step, before, first, begun.last(), Ok::<(), E>(())));
        }
    }
    if result is Err && handles_all(step, before, first, after, result) {
        let states = choose|states: Seq<S>| #[trigger]
            handled_in_turn(step, states, first, result) && states.first() == before
                && states.last() == after;
        assert forall|i: int|
            #![trigger items[i]]
            0 <= i < states.len() - 1 implies step(
            states[i],
            items[i],
            states[i + 1],
            if i == states.len() - 2 {
                result
            } else {
                Ok(())
            },
        ) by {
            let _ = first[i];
        }
        assert(handled_in_turn(step, states, items, result));
    }
    if exists|middle: S| #[trigger]
        handles_all(step, before, first, middle, Ok::<(), E>(())) && handles_all(
            step,
            middle,
            rest,
            after,
            result,
        ) {
        let middle = choose|middle: S| #[trigger]
            handles_all(step, before, first, middle, Ok::<(), E>(())) && handles_all(
                step,
                middle,
                rest,
                after,
                result,
            );
        let begun = choose|states: Seq<S>| #[trigger]
            handled_in_turn(step, states, first, Ok::<(), E>(())) && states.first() == before
                && states.last() == middle;
        let ended = choose|states: Seq<S>| #[trigger]
            handled_in_turn(step, states, rest, result) && states.first() == middle
                && states.last() == after;
        lemma_handling_joins(step, begun, first, Ok::<(), E>(()), ended, rest, result);
        let states = begun + ended.drop_first();
        if ended.len() == 1 {
            assert(states.last() == begun.last());
        } else {
            assert(states.last() == ended.last());
        }
    }
}

/// The actions of a transaction are carried out in turn: those of a longer list are those of
/// its beginning and, if they succeed, those of the rest. A failure ends it all, and what the
/// actions before it have done stands.
pub proof fn law_actions_are_carried_out_in_turn<R: Runtime>(
    before: DispatcherState<R>,
    fork_before: R::Fork,
    first: Seq<Action>,
    rest: Seq<Action>,
    after: DispatcherState<R>,
    fork_after: R::Fork,
    result: Result<(), ExecutionError>,
)
    ensures
        acts_on_all(before, fork_before, first + rest, after, fork_after, result) <==> {
            ||| result is Err && acts_on_all(before, fork_before, first, after, fork_after, result)
            ||| exists|middle: DispatcherState<R>, fork: R::Fork| #[trigger]
                acts_on_all(before, fork_before, first, middle, fork, Ok::<(), ExecutionError>(()))
                    && acts_on_all(middle, fork, rest, after, fork_after, result)
        },
{
    let step = action_step::<R>();
    let b = (before, fork_before);
    let a = (after, fork_after);
    let done = Ok::<(), ExecutionError>(());
    law_items_are_handled_in_turn(step, b, first, rest, a, result);
    if exists|middle: (DispatcherState<R>, R::Fork)| #[trigger]
        handles_all(step, b, first, middle, done) && handles_all(step, middle, rest, a, result) {
        let middle = choose|middle: (DispatcherState<R>, R::Fork)| #[trigger]
            handles_all(step, b, first, middle, done) && handles_all(
                step,
                middle,
                rest,
                a,
                result,
            );
        assert(middle == (middle.0, middle.1));
        assert(acts_on_all(before, fork_before, first, middle.0, middle.1, done));
    }
    if exists|middle: DispatcherState<R>, fork: R::Fork| #[trigger]
        acts_on_all(before, fork_before, first, middle, fork, done) && acts_on_all(
            middle,
            fork,
            rest,
            after,
            fork_after,
            result,
        ) {
        let (middle, fork) = choose|middle: DispatcherState<R>, fork: R::Fork| #[trigger]
            acts_on_all(before, fork_before, first, middle, fork, done) && acts_on_all(
                middle,
                fork,
                rest,
                after,
                fork_after,
                result,
            );
        assert(handles_all(step, b, first, (middle, fork), done));
    }
}

/// An action asks for a restart of the API exactly if it has started a service.
pub proof fn law_restart_is_requested_for_each_start<R: Runtime>(
    before: DispatcherState<R>,
    fork_before: R::Fork,
    action: Action,
    after: DispatcherState<R>,
    fork_after: R::Fork,
    result: Result<(), ExecutionError>,
)
    requires
        acts(before, fork_before, action, after, fork_after, result),
    ensures
        after.requests == if action is StartService && result is Ok {
            before.requests.push(InternalRequest::RestartApi)
        } else {
            before.requests
        },
{
}

/// The number of actions that start a service.
pub open spec fn starts_among(actions: Seq<Action>) -> nat
    decreases actions.len(),
{
    if actions.len() == 0 {
        0
    } else {
        starts_among(actions.drop_last()) + if actions.last() is StartService {
            1nat
        } else {
            0nat
        }
    }
}

/// Actions that have all succeeded have asked for as many restarts of the API as there were
/// services to start among them.
pub proof fn law_restarts_are_counted<R: Runtime>(
    before: DispatcherState<R>,
    fork_before: R::Fork,
    actions: Seq<Action>,
    after: DispatcherState<R>,
    fork_after: R::Fork,
    result: Result<(), ExecutionError>,
)
    requires
        acts_on_all(before, fork_before, actions, after, fork_after, result),
        result is Ok,
    ensures
        after.requests == before.requests + Seq::new(
            starts_among(actions),
            |i: int| InternalRequest::RestartApi,
        ),
{
    let step = action_step::<R>();
    let states = choose|states: Seq<(DispatcherState<R>, R::Fork)>| #[trigger]
        handled_in_turn(step, states, actions, result) && states.first() == (before, fork_before)
            && states.last() == (after, fork_after);
    lemma_requests_so_far(states, actions, result, actions.len() as int);
    assert(actions.take(actions.len() as int) == actions);
}

/// After `n` actions that have succeeded.
proof fn lemma_requests_so_far<R: Runtime>(
    states: Seq<(DispatcherState<R>, R::Fork)>,
    actions: Seq<Action>,
    result: Result<(), ExecutionError>,
    n: int,
)
    requires
        handled_in_turn(action_step::<R>(), states, actions, result),
        result is Ok,
        0 <= n <= actions.len(),
    ensures
        states[n].0.requests == states[0].0.requests + Seq::new(
            starts_among(actions.take(n)),
            |i: int| InternalRequest::RestartApi,
        ),
    decreases n,
{
    if n == 0 {
        assert(states[0].0.requests == states[0].0.requests + Seq::new(
            0,
            |i: int| InternalRequest::RestartApi,
        ));
    } else {
        lemma_requests_so_far(states, actions, result, n - 1);
        let _ = actions[n - 1];
        assert(actions.take(n).drop_last() == actions.take(n - 1));
        assert(states[n].0.requests == states[0].0.requests + Seq::new(
            starts_among(actions.take(n)),
            |i: int| InternalRequest::RestartApi,
        ));
    }
}

/// When `resume` comes back, at most one request waits. There is one if actions are left, and
/// none after a failure. If none waited before, actions have become fewer: to resume again and
/// again comes to an end.
pub proof fn law_one_request_waits_at_a_time<R: Runtime>(
    before: DispatcherState<R>,
    fork_before: R::Fork,
    pending: Seq<Action>,
    after: DispatcherState<R>,
    fork_after: R::Fork,
    left: Seq<Action>,
    result: Result<(), ExecutionError>,
)
    requires
        resumes(before, fork_before, pending, after, fork_after, left, result),
        before.requests.len() == 0,
    ensures
        after.requests.len() <= 1,
        left.len() > 0 ==> after.requests == seq![InternalRequest::RestartApi],
        result is Err ==> after.requests.len() == 0,
        pending.len() > 0 ==> left.len() < pending.len(),
{
    let states = choose|states: Seq<(DispatcherState<R>, R::Fork)>| #[trigger]
        carried_out(states, pending, result) && states.first() == (before, fork_before)
            && states.last() == (after, fork_after) && left == match result {
            Ok(_) => pending.skip(states.len() - 1),
            Err(_) => Seq::<Action>::empty(),
        };
    let n = states.len() - 1;
    if n > 0 {
        let begun = pending.take(n);
        let action = begun[n - 1];
        law_restart_is_requested_for_each_start(
            states[n - 1].0,
            states[n - 1].1,
            action,
            after,
            fork_after,
            result,
        );
    }
}

/// `state` with more requests ahead of its own.
spec fn with_earlier<R>(
    state: DispatcherState<R>,
    earlier: Seq<InternalRequest>,
) -> DispatcherState<R> {
    state.with_requests(earlier + state.requests)
}

proof fn lemma_deployment_ignores_requests<R: Runtime>(
    before: DispatcherState<R>,
    artifact: ArtifactId,
    after: DispatcherState<R>,
    result: Result<(), DeployError>,
    earlier: Seq<InternalRequest>,
)
    requires
        deploys_to_end(before, artifact, after, result),
    ensures
        deploys_to_end(
            with_earlier(before, earlier),
            artifact,
            with_earlier(after, earlier),
            result,
        ),
{
    let deployment = choose|deployment: Deployment<R>| #[trigger]
        deploys(before, artifact, after, deployment) && deployment.ends(result);
    assert(deploys(
        with_earlier(before, earlier),
        artifact,
        with_earlier(after, earlier),
        deployment,
    ));
}

proof fn lemma_registration_ignores_requests<R: Runtime>(
    before: DispatcherState<R>,
    fork_before: R::Fork,
    artifact: ArtifactId,
    after: DispatcherState<R>,
    fork_after: R::Fork,
    result: Result<(), DeployError>,
    earlier: Seq<InternalRequest>,
)
    requires
        registers(before, fork_before, artifact, after, fork_after, result),
    ensures
        registers(
            with_earlier(before, earlier),
            fork_before,
            artifact,
            with_earlier(after, earlier),
            fork_after,
            result,
        ),
{
    let (deployed, outcome) = choose|
        deployed: DispatcherState<R>,
        outcome: Result<(), DeployError>,
    | #[trigger]
        deploys_to_end(before, artifact, deployed, outcome) && match outcome {
            Ok(_) => {
                &&& artifact_added(fork_before, fork_after, artifact, result)
                &&& after == deployed.with_record(Record::Artifact(artifact, result))
            },
            Err(_) => result == outcome && after == deployed && fork_after == fork_before,
        };
    lemma_deployment_ignores_requests(before, artifact, deployed, outcome, earlier);
}

proof fn lemma_start_ignores_requests<R: Runtime>(
    before: DispatcherState<R>,
    fork_before: R::Fork,
    spec: InstanceSpec,
    constructor: Any,
    after: DispatcherState<R>,
    fork_after: R::Fork,
    result: Result<(), StartError>,
    earlier: Seq<InternalRequest>,
)
    requires
        starts_service(before, fork_before, spec, constructor, after, fork_after, result),
    ensures
        starts_service(
            with_earlier(before, earlier),
            fork_before,
            spec,
            constructor,
            with_earlier(after, earlier),
            fork_after,
            result,
        ),
        after.requests == before.requests,
{
}

/// What an action does has nothing to do with the requests that wait.
proof fn lemma_action_ignores_requests<R: Runtime>(
    before: DispatcherState<R>,
    fork_before: R::Fork,
    action: Action,
    after: DispatcherState<R>,
    fork_after: R::Fork,
    result: Result<(), ExecutionError>,
    earlier: Seq<InternalRequest>,
)
    requires
        acts(before, fork_before, action, after, fork_after, result),
    ensures
        acts(
            with_earlier(before, earlier),
            fork_before,
            action,
            with_earlier(after, earlier),
            fork_after,
            result,
        ),
{
    match action {
        Action::DeployArtifact { artifact } => {
            let outcome = choose|outcome: Result<(), DeployError>| #[trigger]
                deploys_to_end(before, artifact, after, outcome) && result == converted(outcome)
                    && fork_after == fork_before;
            lemma_deployment_ignores_requests(before, artifact, after, outcome, earlier);
        },
        Action::RegisterArtifact { artifact } => {
            let outcome = choose|outcome: Result<(), DeployError>| #[trigger]
                registers(before, fork_before, artifact, after, fork_after, outcome) && result
                    == converted(outcome);
            lemma_registration_ignores_requests(
                before,
                fork_before,
                artifact,
                after,
                fork_after,
                outcome,
                earlier,
            );
        },
        Action::StartService { spec, config } => {
            let (started, outcome) = choose|
                started: DispatcherState<R>,
                outcome: Result<(), StartError>,
            | #[trigger]
                starts_service(before, fork_before, spec, config, started, fork_after, outcome)
                    && result == converted(outcome) && after == match outcome {
                    Ok(_) => started.with_restart_request(),
                    Err(_) => started,
                };
            lemma_start_ignores_requests(
                before,
                fork_before,
                spec,
                config,
                started,
                fork_after,
                outcome,
                earlier,
            );
            if outcome is Ok {
                assert(with_earlier(after, earlier) =~= with_earlier(
                    started,
                    earlier,
                ).with_restart_request());
            }
        },
    }
}

proof fn lemma_actions_ignore_requests<R: Runtime>(
    before: DispatcherState<R>,
    fork_before: R::Fork,
    actions: Seq<Action>,
    after: DispatcherState<R>,
    fork_after: R::Fork,
    result: Result<(), ExecutionError>,
    earlier: Seq<InternalRequest>,
)
    requires
        acts_on_all(before, fork_before, actions, after, fork_after, result),
    ensures
        acts_on_all(
            with_earlier(before, earlier),
            fork_before,
            actions,
            with_earlier(after, earlier),
            fork_after,
            result,
        ),
{
    let step = action_step::<R>();
    let states = choose|states: Seq<(DispatcherState<R>, R::Fork)>| #[trigger]
        handled_in_turn(step, states, actions, result) && states.first() == (before, fork_before)
            && states.last() == (after, fork_after);
    let others = states.map_values(
        |state: (DispatcherState<R>, R::Fork)| (with_earlier(state.0, earlier), state.1),
    );
    assert forall|i: int| #![trigger actions[i]] 0 <= i < others.len() - 1 implies step(
        others[i],
        actions[i],
        others[i + 1],
        if i == others.len() - 2 {
            result
        } else {
            Ok(())
        },
    ) by {
        lemma_action_ignores_requests(
            states[i].0,
            states[i].1,
            actions[i],
            states[i + 1].0,
            states[i + 1].1,
            if i == states.len() - 2 {
                result
            } else {
                Ok(())
            },
            earlier,
        );
    }
    assert(handled_in_turn(step, others, actions, result));
}

/// A transaction that is carried out with a pause for each request comes to the same as one that
/// is carried out at one go: all actions are carried out in turn until one fails, and the
/// requests that have been sent are those that come up on the way.
pub proof fn law_pauses_change_nothing<R: Runtime>(
    before: DispatcherState<R>,
    fork_before: R::Fork,
    pending: Seq<Action>,
    after: DispatcherState<R>,
    fork_after: R::Fork,
    sent: Seq<InternalRequest>,
    result: Result<(), ExecutionError>,
)
    requires
        before.requests.len() == 0,
        runs_to_end(before, fork_before, pending, after, fork_after, sent, result),
    ensures
        acts_on_all(before, fork_before, pending, after.with_requests(sent), fork_after, result),
        after.requests.len() == 0,
    decreases pending.len(),
{
    let (paused, fork, left, done, rest) = choose|
        paused: DispatcherState<R>,
        fork: R::Fork,
        left: Seq<Action>,
        done: Result<(), ExecutionError>,
        rest: Seq<InternalRequest>,
    |
        #![trigger resumes(before, fork_before, pending, paused, fork, left, done), follow(paused.requests, rest, sent)]
        resumes(before, fork_before, pending, paused, fork, left, done) && follow(
            paused.requests,
            rest,
            sent,
        ) && if done is Err || left.len() == 0 {
            &&& result == done
            &&& after == paused.without_requests()
            &&& fork_after == fork
            &&& rest.len() == 0
        } else {
            &&& left.len() < pending.len()
            &&& runs_to_end(
                paused.without_requests(),
                fork,
                left,
                after,
                fork_after,
                rest,
                result,
            )
        };
    let n = lemma_resumed_part(before, fork_before, pending, paused, fork, left, done);
    let first = pending.take(n);
    let others = pending.skip(n);
    assert(first + others == pending);
    if done is Err || left.len() == 0 {
        assert(after.with_requests(sent) =~= paused);
        if done is Err {
            law_actions_are_carried_out_in_turn(
                before,
                fork_before,
                first,
                others,
                paused,
                fork,
                result,
            );
        } else {
            assert(first == pending);
        }
    } else {
        assert(done->Ok_0 == ());
        law_pauses_change_nothing(
            paused.without_requests(),
            fork,
            left,
            after,
            fork_after,
            rest,
            result,
        );
        lemma_actions_ignore_requests(
            paused.without_requests(),
            fork,
            left,
            after.with_requests(rest),
            fork_after,
            result,
            paused.requests,
        );
        assert(with_earlier(paused.without_requests(), paused.requests) =~= paused);
        assert(with_earlier(after.with_requests(rest), paused.requests) =~= after.with_requests(
            sent,
        ));
        law_actions_are_carried_out_in_turn(
            before,
            fork_before,
            first,
            others,
            after.with_requests(sent),
            fork_after,
            result,
        );
    }
}

/// The deployment of an artifact registers nothing: the fork is as it was, and no record, no
/// running instance and no request comes of it.
pub proof fn law_deployment_registers_nothing<R: Runtime>(
    before: DispatcherState<R>,
    fork_before: R::Fork,
    artifact: ArtifactId,
    after: DispatcherState<R>,
    fork_after: R::Fork,
    result: Result<(), ExecutionError>,
)
    requires
        acts(
            before,
            fork_before,
            Action::DeployArtifact { artifact },
            after,
            fork_after,
            result,
        ),
    ensures
        fork_after == fork_before,
        after.runtime_lookup == before.runtime_lookup,
        after.requests == before.requests,
        after.records == before.records,
{
}

/// A built-in service that has been added is running in the runtime of its artifact, and both
/// the artifact and the instance have been written to the schema, the artifact first. No restart
/// of the API is asked for.
pub proof fn law_builtin_service_is_running<R: Runtime>(
    before: DispatcherState<R>,
    fork_before: R::Fork,
    spec: InstanceSpec,
    constructor: Any,
    after: DispatcherState<R>,
    fork_after: R::Fork,
    result: Result<(), BuiltinError>,
)
    requires
        adds_builtin(before, fork_before, spec, constructor, after, fork_after, result),
    ensures
        result is Ok ==> after.runtime_lookup == before.runtime_lookup.insert(
            spec.id,
            spec.artifact.runtime_id,
        ),
        result is Ok ==> after.runtimes.contains_key(spec.artifact.runtime_id),
        result is Ok ==> after.records == before.records.push(
            Record::Artifact(spec.artifact, Ok(())),
        ).push(Record::Instance(spec, Ok(()))),
        result is Ok ==> exists|fork: R::Fork, configured: R::Fork|
            #![trigger artifact_added(fork_before, fork, spec.artifact, Ok(())), instance_added(configured, fork_after, spec, Ok(()))]
            artifact_added(fork_before, fork, spec.artifact, Ok(())) && after.runtimes[
                spec.artifact.runtime_id
            ].configures(fork, configured, spec, constructor, Ok(())) && instance_added(
                configured,
                fork_after,
                spec,
                Ok(()),
            ),
        after.requests == before.requests,
{
    let (registered, fork, outcome) = choose|
        registered: DispatcherState<R>,
        fork: R::Fork,
        outcome: Result<(), DeployError>,
    | #[trigger]
        registers(before, fork_before, spec.artifact, registered, fork, outcome) && match outcome {
            Ok(_) => exists|start: Result<(), StartError>| #[trigger]
                starts_service(registered, fork, spec, constructor, after, fork_after, start)
                    && match start {
                    Ok(_) => result is Ok,
                    Err(error) => result == Err::<(), BuiltinError>(BuiltinError::Start(error)),
                },
            Err(error) => {
                &&& after == registered
                &&& fork_after == fork
                &&& result == Err::<(), BuiltinError>(BuiltinError::Register(error))
            },
        };
    law_recorded_if_and_only_if_deployed(
        before,
        fork_before,
        spec.artifact,
        registered,
        fork,
        outcome,
    );
    assert(registered.requests == before.requests);
    assert(registered.runtime_lookup == before.runtime_lookup);
    if outcome is Ok {
        assert(outcome->Ok_0 == ());
        let start = choose|start: Result<(), StartError>| #[trigger]
            starts_service(registered, fork, spec, constructor, after, fork_after, start)
                && match start {
                Ok(_) => result is Ok,
                Err(error) => result == Err::<(), BuiltinError>(BuiltinError::Start(error)),
            };
        if start is Ok {
            assert(start->Ok_0 == ());
            let id = spec.artifact.runtime_id;
            law_running_if_and_only_if_recorded(
                registered,
                fork,
                spec,
                constructor,
                after,
                fork_after,
                start,
            );
            let configured = choose|configured: R::Fork| #[trigger]
                instance_added(configured, fork_after, spec, start) && brings_up(
                    registered.runtimes[id],
                    fork,
                    spec,
                    constructor,
                    after.runtimes[id],
                    configured,
                    Ok(()),
                );
            law_brought_up_if_and_only_if_configured(
                registered.runtimes[id],
                fork,
                spec,
                constructor,
                after.runtimes[id],
                configured,
                Ok(()),
            );
        }
    }
}

} // verus!
