use vstd::prelude::*;

use crate::action::Action;
use crate::context::{ContextState, ExecutionContext};
use crate::error::{
    BuiltinError, DeployError, ErrorKind, ExecutionError, RestoreError, StartError,
};
use crate::gathering::{lemma_walk_names_each, lemma_walk_of_few};
use crate::laws::lemma_parts_of_restoring;
use crate::model::{
    acts, adds_builtin, brings_up, calls, carried_out, converted, deploy_step, deploys,
    deploys_all, deploys_to_end, executes_transaction, handled_in_turn, is_walk, listed_artifacts,
    precommits_all, registers, restart_step, restarts_all, restarts_service, restores, resumes,
    starts_service, tells_all_of_commit, DispatcherState,
};
use crate::runtime::{Deployment, Runtime};
use crate::schema::{Record, Schema};
use crate::types::{
    Any, AnyTx, ArtifactId, CallInfo, Caller, InstanceSpec, InternalRequest, PublicKey, SecretKey,
    ServiceInstanceId, Signed, CORE_ID,
};

verus! {

/// A change of one part of the state is a change of that part alone.
pub proof fn law_state_changes_in_one_part<R>(
    state: DispatcherState<R>,
    id: u32,
    runtime: R,
    spec: InstanceSpec,
    record: Record,
    requests: Seq<InternalRequest>,
)
    ensures
        state.with_runtime(id, runtime) == (DispatcherState {
            runtimes: state.runtimes.insert(id, runtime),
            runtime_lookup: state.runtime_lookup,
            requests: state.requests,
            records: state.records,
        }),
        state.with_running(spec) == (DispatcherState {
            runtimes: state.runtimes,
            runtime_lookup: state.runtime_lookup.insert(spec.id, spec.artifact.runtime_id),
            requests: state.requests,
            records: state.records,
        }),
        state.with_record(record) == (DispatcherState {
            runtimes: state.runtimes,
            runtime_lookup: state.runtime_lookup,
            requests: state.requests,
            records: state.records.push(record),
        }),
        state.with_restart_request() == (DispatcherState {
            runtimes: state.runtimes,
            runtime_lookup: state.runtime_lookup,
            requests: state.requests.push(InternalRequest::RestartApi),
            records: state.records,
        }),
        state.with_requests(requests) == (DispatcherState {
            runtimes: state.runtimes,
            runtime_lookup: state.runtime_lookup,
            requests,
            records: state.records,
        }),
        state.without_requests() == (DispatcherState {
            runtimes: state.runtimes,
            runtime_lookup: state.runtime_lookup,
            requests: Seq::empty(),
            records: state.records,
        }),
{
}

/// An identifier is in use exactly if it is the core's or in the lookup table, and an instance is
/// running exactly if the table names the runtime of its artifact.
pub proof fn law_lookup_table_decides<R>(state: DispatcherState<R>, spec: InstanceSpec)
    ensures
        state.identifier_exists(spec.id) <==> spec.id == CORE_ID
            || state.runtime_lookup.contains_key(spec.id),
        state.is_running(spec) <==> state.runtime_lookup.contains_key(spec.id)
            && state.runtime_lookup[spec.id] == spec.artifact.runtime_id,
{
}

/// A context holds its fork, its caller and its actions, and a change of the fork in it is a
/// change of the fork alone.
pub proof fn law_context_is_what_it_holds<F>(context: ExecutionContext<F>, fork: F)
    ensures
        context@.fork == *old(context.fork),
        context@.caller == context.caller,
        context@.actions == context.actions@,
        context@.with_fork(fork) == (ContextState {
            fork,
            caller: context.caller,
            actions: context.actions@,
        }),
{
}

/// Each pair of a name and a runtime is listed as the artifact with that name in that runtime, in
/// the same place.
pub proof fn law_listed_artifacts_are_those_saved(listed: Seq<(String, u32)>)
    ensures
        listed_artifacts(listed).len() == listed.len(),
        forall|i: int|
            0 <= i < listed.len() ==> (#[trigger] listed_artifacts(listed)[i]).name == listed[i].0
                && listed_artifacts(listed)[i].runtime_id == listed[i].1,
{
}

/// An error of a call that came of a deployment or of a start is that very error.
pub proof fn law_errors_are_passed_on(
    deploy_error: DeployError,
    start_error: StartError,
    error: ExecutionError,
    kind: ErrorKind,
    description: Seq<char>,
)
    ensures
        <ExecutionError as vstd::std_specs::convert::FromSpec<DeployError>>::obeys_from_spec(),
        <ExecutionError as vstd::std_specs::convert::FromSpec<DeployError>>::from_spec(deploy_error)
            == (ExecutionError { kind: ErrorKind::Deploy(deploy_error), description: None }),
        <ExecutionError as vstd::std_specs::convert::FromSpec<StartError>>::obeys_from_spec(),
        <ExecutionError as vstd::std_specs::convert::FromSpec<StartError>>::from_spec(start_error)
            == (ExecutionError { kind: ErrorKind::Start(start_error), description: None }),
        error.is_described(kind, description) <==> error.kind == kind && error.description is Some
            && error.description->Some_0@ == description,
{
}

/// A deployment begins in the runtime that the artifact names, with that artifact, and concerns
/// that runtime alone. If there is no such runtime, nothing begins, and that is the error.
pub proof fn law_deployment_begins_in_its_runtime<R: Runtime>(
    before: DispatcherState<R>,
    artifact: ArtifactId,
    after: DispatcherState<R>,
    deployment: Deployment<R>,
)
    requires
        deploys(before, artifact, after, deployment),
    ensures
        before.runtimes.contains_key(artifact.runtime_id) ==> {
            &&& deployment is Started
            &&& R::deploy_begins(
                before.runtimes[artifact.runtime_id],
                after.runtimes[artifact.runtime_id],
                artifact,
                deployment->Started_0,
            )
            &&& after.runtimes == before.runtimes.insert(
                artifact.runtime_id,
                after.runtimes[artifact.runtime_id],
            )
        },
        !before.runtimes.contains_key(artifact.runtime_id) ==> {
            &&& deployment == Deployment::<R>::Failed(DeployError::WrongRuntime)
            &&& after.runtimes == before.runtimes
        },
        after.runtime_lookup == before.runtime_lookup,
        after.requests == before.requests,
        after.records == before.records,
{
}

/// A deployment that has begun ends with what its runtime makes of it; one that has failed before
/// it began keeps its error.
pub proof fn law_deployment_ends_as_its_runtime_says<R: Runtime>(
    deployment: Deployment<R>,
    result: Result<(), DeployError>,
)
    requires
        deployment.ends(result),
    ensures
        deployment is Started ==> call_ensures(R::wait, (deployment->Started_0,), result),
        deployment is Failed ==> result is Err && result->Err_0 == deployment->Failed_0,
{
}

/// A deployment that is waited for was begun in the runtime that the artifact names, and has the
/// result that waiting for it gave.
pub proof fn law_awaited_deployment_is_that_of_its_runtime<R: Runtime>(
    before: DispatcherState<R>,
    artifact: ArtifactId,
    after: DispatcherState<R>,
    result: Result<(), DeployError>,
)
    requires
        deploys_to_end(before, artifact, after, result),
    ensures
        before.runtimes.contains_key(artifact.runtime_id) ==> {
            &&& after.runtimes == before.runtimes.insert(
                artifact.runtime_id,
                after.runtimes[artifact.runtime_id],
            )
            &&& exists|future: R::DeployFuture| #[trigger]
                R::deploy_begins(
                    before.runtimes[artifact.runtime_id],
                    after.runtimes[artifact.runtime_id],
                    artifact,
                    future,
                ) && call_ensures(R::wait, (future,), result)
        },
        !before.runtimes.contains_key(artifact.runtime_id) ==> {
            &&& result == Err::<(), DeployError>(DeployError::WrongRuntime)
            &&& after.runtimes == before.runtimes
        },
        after.runtime_lookup == before.runtime_lookup,
        after.requests == before.requests,
        after.records == before.records,
{
    let deployment = choose|deployment: Deployment<R>| #[trigger]
        deploys(before, artifact, after, deployment) && deployment.ends(result);
    law_deployment_begins_in_its_runtime(before, artifact, after, deployment);
    law_deployment_ends_as_its_runtime_says(deployment, result);
}

/// A registration deploys the artifact in its runtime and waits for the end. After a failure the
/// error is that of the deployment and the fork is as it was; after a success the schema is asked
/// to add that very artifact, once, and its answer is the result.
pub proof fn law_registration_deploys_and_then_writes<R: Runtime>(
    before: DispatcherState<R>,
    fork_before: R::Fork,
    artifact: ArtifactId,
    after: DispatcherState<R>,
    fork_after: R::Fork,
    result: Result<(), DeployError>,
)
    requires
        registers(before, fork_before, artifact, after, fork_after, result),
    ensures
        before.runtimes.contains_key(artifact.runtime_id) ==> {
            &&& after.runtimes == before.runtimes.insert(
                artifact.runtime_id,
                after.runtimes[artifact.runtime_id],
            )
            &&& exists|future: R::DeployFuture| #[trigger]
                R::deploy_begins(
                    before.runtimes[artifact.runtime_id],
                    after.runtimes[artifact.runtime_id],
                    artifact,
                    future,
                ) && {
                    ||| {
                        &&& result is Err
                        &&& call_ensures(R::wait, (future,), result)
                        &&& fork_after == fork_before
                        &&& after.records == before.records
                    }
                    ||| {
                        &&& call_ensures(R::wait, (future,), Ok::<(), DeployError>(()))
                        &&& <R::Fork as Schema>::adds_artifact(
                            fork_before,
                            fork_after,
                            artifact,
                            result,
                        )
                        &&& after.records == before.records.push(
                            Record::Artifact(artifact, result),
                        )
                    }
                }
        },
        !before.runtimes.contains_key(artifact.runtime_id) ==> {
            &&& result == Err::<(), DeployError>(DeployError::WrongRuntime)
            &&& after.runtimes == before.runtimes
            &&& after.records == before.records
            &&& fork_after == fork_before
        },
        after.runtime_lookup == before.runtime_lookup,
        after.requests == before.requests,
{
    let (deployed, outcome) = choose|
        deployed: DispatcherState<R>,
        outcome: Result<(), DeployError>,
    | #[trigger]
        deploys_to_end(before, artifact, deployed, outcome) && match outcome {
            Ok(_) => {
                &&& crate::schema::artifact_added(fork_before, fork_after, artifact, result)
                &&& after == deployed.with_record(Record::Artifact(artifact, result))
            },
            Err(_) => result == outcome && after == deployed && fork_after == fork_before,
        };
    law_awaited_deployment_is_that_of_its_runtime(before, artifact, deployed, outcome);
    let id = artifact.runtime_id;
    if before.runtimes.contains_key(id) {
        let future = choose|future: R::DeployFuture| #[trigger]
            R::deploy_begins(before.runtimes[id], deployed.runtimes[id], artifact, future)
                && call_ensures(R::wait, (future,), outcome);
        assert(after.runtimes == deployed.runtimes);
        assert(R::deploy_begins(before.runtimes[id], after.runtimes[id], artifact, future));
        if outcome is Ok {
            assert(outcome->Ok_0 == ());
            assert(outcome == Ok::<(), DeployError>(()));
        }
    }
}

/// An instance whose identifier is the core's, or is in the lookup table, is refused: nothing
/// changes, neither in the dispatcher nor in the fork.
pub proof fn law_identifier_in_use_is_refused<R: Runtime>(
    before: DispatcherState<R>,
    fork_before: R::Fork,
    spec: InstanceSpec,
    constructor: Any,
    after: DispatcherState<R>,
    fork_after: R::Fork,
    result: Result<(), StartError>,
)
    requires
        starts_service(before, fork_before, spec, constructor, after, fork_after, result),
        spec.id == CORE_ID || before.runtime_lookup.contains_key(spec.id),
    ensures
        result == Err::<(), StartError>(StartError::ServiceIdExists),
        after == before,
        fork_after == fork_before,
{
}

/// An instance with a free identifier but without a runtime is refused for want of the runtime:
/// nothing changes, neither in the dispatcher nor in the fork.
pub proof fn law_instance_without_runtime_is_refused<R: Runtime>(
    before: DispatcherState<R>,
    fork_before: R::Fork,
    spec: InstanceSpec,
    constructor: Any,
    after: DispatcherState<R>,
    fork_after: R::Fork,
    result: Result<(), StartError>,
)
    requires
        starts_service(before, fork_before, spec, constructor, after, fork_after, result),
        spec.id != CORE_ID,
        !before.runtime_lookup.contains_key(spec.id),
        !before.runtimes.contains_key(spec.artifact.runtime_id),
    ensures
        result == Err::<(), StartError>(StartError::WrongRuntime),
        after == before,
        fork_after == fork_before,
{
}

/// A free identifier is never refused: the runtime of the artifact is asked to start that very
/// instance.
///
/// If it does not start, its error is the result. If it starts, the runtime is asked to configure
/// it with the given parameters on the fork as it was. If that fails, the instance is stopped. If
/// it succeeds, the instance is entered in the lookup table with the runtime of its artifact, the
/// schema is asked to add it, once, and the answer of the schema is the result.
pub proof fn law_free_identifier_is_not_refused<R: Runtime>(
    before: DispatcherState<R>,
    fork_before: R::Fork,
    spec: InstanceSpec,
    constructor: Any,
    after: DispatcherState<R>,
    fork_after: R::Fork,
    result: Result<(), StartError>,
)
    requires
        starts_service(before, fork_before, spec, constructor, after, fork_after, result),
        spec.id != CORE_ID,
        !before.runtime_lookup.contains_key(spec.id),
        before.runtimes.contains_key(spec.artifact.runtime_id),
    ensures
        after.requests == before.requests,
        exists|started: R, start: Result<(), StartError>| #[trigger]
            R::starts(before.runtimes[spec.artifact.runtime_id], started, spec, start)
                && match start {
                Err(_) => {
                    &&& result == start
                    &&& after.runtimes == before.runtimes.insert(spec.artifact.runtime_id, started)
                    &&& after.runtime_lookup == before.runtime_lookup
                    &&& after.records == before.records
                    &&& fork_after == fork_before
                },
                Ok(_) => exists|configured: R::Fork, configure: Result<(), StartError>| #[trigger]
                    started.configures(fork_before, configured, spec, constructor, configure)
                        && match configure {
                        Ok(_) => {
                            &&& after.runtimes == before.runtimes.insert(
                                spec.artifact.runtime_id,
                                started,
                            )
                            &&& after.runtime_lookup == before.runtime_lookup.insert(
                                spec.id,
                                spec.artifact.runtime_id,
                            )
                            &&& after.records == before.records.push(
                                Record::Instance(spec, result),
                            )
                            &&& <R::Fork as Schema>::adds_instance(
                                configured,
                                fork_after,
                                spec,
                                result,
                            )
                        },
                        Err(_) => {
                            &&& after.runtime_lookup == before.runtime_lookup
                            &&& after.records == before.records
                            &&& fork_after == configured
                            &&& exists|stopped: R, stop: Result<(), StartError>| #[trigger]
                                R::stops(started, stopped, spec, stop) && after.runtimes
                                    == before.runtimes.insert(spec.artifact.runtime_id, stopped)
                                    && result == match stop {
                                    Ok(_) => configure,
                                    Err(_) => stop,
                                }
                        },
                    },
            },
{
    let id = spec.artifact.runtime_id;
    let (runtime, configured, outcome) = choose|
        runtime: R,
        configured: R::Fork,
        outcome: Result<(), StartError>,
    | #[trigger]
        brings_up(
            before.runtimes[id],
            fork_before,
            spec,
            constructor,
            runtime,
            configured,
            outcome,
        ) && match outcome {
            Ok(_) => {
                &&& crate::schema::instance_added(configured, fork_after, spec, result)
                &&& after == before.with_runtime(id, runtime).with_running(spec).with_record(
                    Record::Instance(spec, result),
                )
            },
            Err(_) => {
                &&& result == outcome
                &&& after == before.with_runtime(id, runtime)
                &&& fork_after == configured
            },
        };
    let (started, start) = choose|started: R, start: Result<(), StartError>| #[trigger]
        R::starts(before.runtimes[id], started, spec, start) && match start {
            Ok(_) => exists|configure: Result<(), StartError>| #[trigger]
                started.configures(fork_before, configured, spec, constructor, configure)
                    && match configure {
                    Ok(_) => runtime == started && outcome is Ok,
                    Err(_) => exists|stop: Result<(), StartError>| #[trigger]
                        R::stops(started, runtime, spec, stop) && outcome == match stop {
                            Ok(_) => configure,
                            Err(_) => stop,
                        },
                },
            Err(_) => runtime == started && configured == fork_before && outcome == start,
        };
    if start is Ok {
        let configure = choose|configure: Result<(), StartError>| #[trigger]
            started.configures(fork_before, configured, spec, constructor, configure)
                && match configure {
                Ok(_) => runtime == started && outcome is Ok,
                Err(_) => exists|stop: Result<(), StartError>| #[trigger]
                    R::stops(started, runtime, spec, stop) && outcome == match stop {
                        Ok(_) => configure,
                        Err(_) => stop,
                    },
            };
        if configure is Err {
            let stop = choose|stop: Result<(), StartError>| #[trigger]
                R::stops(started, runtime, spec, stop) && outcome == match stop {
                    Ok(_) => configure,
                    Err(_) => stop,
                };
            assert(R::stops(started, runtime, spec, stop));
            assert(outcome is Err);
        }
    }
}

/// An instance is started again by the runtime of its artifact, whatever is running. If that
/// succeeds, the lookup table names that runtime for it; else it is as it was.
pub proof fn law_instance_is_started_again_by_its_runtime<R: Runtime>(
    before: DispatcherState<R>,
    spec: InstanceSpec,
    after: DispatcherState<R>,
    result: Result<(), StartError>,
)
    requires
        restarts_service(before, spec, after, result),
    ensures
        before.runtimes.contains_key(spec.artifact.runtime_id) ==> {
            &&& R::starts(
                before.runtimes[spec.artifact.runtime_id],
                after.runtimes[spec.artifact.runtime_id],
                spec,
                result,
            )
            &&& after.runtimes == before.runtimes.insert(
                spec.artifact.runtime_id,
                after.runtimes[spec.artifact.runtime_id],
            )
        },
        !before.runtimes.contains_key(spec.artifact.runtime_id) ==> {
            &&& result == Err::<(), StartError>(StartError::WrongRuntime)
            &&& after.runtimes == before.runtimes
        },
        after.runtime_lookup == if result is Ok {
            before.runtime_lookup.insert(spec.id, spec.artifact.runtime_id)
        } else {
            before.runtime_lookup
        },
        after.requests == before.requests,
        after.records == before.records,
{
    if before.runtimes.contains_key(spec.artifact.runtime_id) {
        let id = spec.artifact.runtime_id;
        let runtime = choose|runtime: R| #[trigger]
            R::starts(before.runtimes[id], runtime, spec, result) && after == match result {
                Ok(_) => before.with_runtime(id, runtime).with_running(spec),
                Err(_) => before.with_runtime(id, runtime),
            };
        assert(after.runtimes[id] == runtime);
    }
}

/// A call of an instance in the lookup table is executed by the runtime that the table names, in
/// the context of the call, with its call info and its payload and nothing else. Any other call
/// is refused as one to a wrong runtime, and leaves the context as it was.
pub proof fn law_call_is_executed_by_the_named_runtime<R: Runtime>(
    dispatcher: DispatcherState<R>,
    before: ContextState<R::Fork>,
    call_info: CallInfo,
    payload: Seq<u8>,
    after: ContextState<R::Fork>,
    result: Result<(), ExecutionError>,
)
    requires
        calls(dispatcher, before, call_info, payload, after, result),
    ensures
        ({
            let lookup = dispatcher.runtime_lookup;
            let id = call_info.instance_id;
            if lookup.contains_key(id) && dispatcher.runtimes.contains_key(lookup[id]) {
                dispatcher.runtimes[lookup[id]].executes(
                    dispatcher,
                    before,
                    after,
                    call_info,
                    payload,
                    result,
                )
            } else {
                &&& after == before
                &&& result is Err
                &&& result->Err_0.kind == ErrorKind::WrongRuntime
                &&& result->Err_0.description is Some
                &&& result->Err_0.description->Some_0@ == "Wrong runtime"@
            }
        }),
{
}

/// A transaction to an instance in the lookup table is executed by the runtime that the table
/// names, on the fork as it was, in the name of its author and under its hash, with exactly its
/// call info and exactly the bytes of its payload.
///
/// If the runtime fails, its error is the result, and neither the dispatcher nor the fork changes
/// any further. If it succeeds, the actions that it left are resumed on the fork as it left it.
pub proof fn law_transaction_is_executed_as_it_is_signed<R: Runtime>(
    before: DispatcherState<R>,
    fork_before: R::Fork,
    tx_id: crate::types::Hash,
    tx: Signed<AnyTx>,
    after: DispatcherState<R>,
    fork_after: R::Fork,
    result: Result<ContextState<R::Fork>, ExecutionError>,
)
    requires
        executes_transaction(before, fork_before, tx_id, tx, after, fork_after, result),
        before.runtime_lookup.contains_key(tx.payload.call_info.instance_id),
        before.runtimes.contains_key(before.runtime_lookup[tx.payload.call_info.instance_id]),
    ensures
        exists|called: ContextState<R::Fork>, outcome: Result<(), ExecutionError>| #[trigger]
            before.runtimes[before.runtime_lookup[tx.payload.call_info.instance_id]].executes(
                before,
                ContextState {
                    fork: fork_before,
                    caller: Caller::Transaction { author: tx.author, hash: tx_id },
                    actions: Seq::empty(),
                },
                called,
                tx.payload.call_info,
                tx.payload.payload@,
                outcome,
            ) && match outcome {
                Err(error) => {
                    &&& result is Err
                    &&& result->Err_0 == error
                    &&& after == before
                    &&& fork_after == called.fork
                },
                Ok(_) => exists|left: Seq<Action>, done: Result<(), ExecutionError>| #[trigger]
                    resumes(before, called.fork, called.actions, after, fork_after, left, done)
                        && match done {
                        Err(error) => result is Err && result->Err_0 == error,
                        Ok(_) => {
                            &&& result is Ok
                            &&& result->Ok_0.fork == fork_after
                            &&& result->Ok_0.caller == called.caller
                            &&& result->Ok_0.actions == left
                        },
                    },
            },
{
}

/// A transaction to an instance that is not in the lookup table, or whose runtime is not there,
/// is refused as one to a wrong runtime, and nothing changes.
pub proof fn law_transaction_without_runtime_is_refused<R: Runtime>(
    before: DispatcherState<R>,
    fork_before: R::Fork,
    tx_id: crate::types::Hash,
    tx: Signed<AnyTx>,
    after: DispatcherState<R>,
    fork_after: R::Fork,
    result: Result<ContextState<R::Fork>, ExecutionError>,
)
    requires
        executes_transaction(before, fork_before, tx_id, tx, after, fork_after, result),
        !before.runtime_lookup.contains_key(tx.payload.call_info.instance_id)
            || !before.runtimes.contains_key(
            before.runtime_lookup[tx.payload.call_info.instance_id],
        ),
    ensures
        after == before,
        fork_after == fork_before,
        result is Err,
        result->Err_0.kind == ErrorKind::WrongRuntime,
        result->Err_0.description is Some,
        result->Err_0.description->Some_0@ == "Wrong runtime"@,
{
}

/// The action to deploy an artifact deploys that artifact in its runtime and waits for the end.
/// The fork, the lookup table, the requests and the records are as they were.
pub proof fn law_deploy_action_deploys<R: Runtime>(
    before: DispatcherState<R>,
    fork_before: R::Fork,
    artifact: ArtifactId,
    after: DispatcherState<R>,
    fork_after: R::Fork,
    result: Result<(), ExecutionError>,
)
    requires
        acts(before, fork_before, Action::DeployArtifact { artifact }, after, fork_after, result),
    ensures
        fork_after == fork_before,
        after.runtime_lookup == before.runtime_lookup,
        after.requests == before.requests,
        after.records == before.records,
        before.runtimes.contains_key(artifact.runtime_id) ==> {
            &&& after.runtimes == before.runtimes.insert(
                artifact.runtime_id,
                after.runtimes[artifact.runtime_id],
            )
            &&& exists|future: R::DeployFuture, outcome: Result<(), DeployError>|
                #![trigger R::deploy_begins(before.runtimes[artifact.runtime_id], after.runtimes[artifact.runtime_id], artifact, future), call_ensures(R::wait, (future,), outcome)]
                R::deploy_begins(
                    before.runtimes[artifact.runtime_id],
                    after.runtimes[artifact.runtime_id],
                    artifact,
                    future,
                ) && call_ensures(R::wait, (future,), outcome) && match outcome {
                    Ok(_) => result is Ok,
                    Err(error) => result == Err::<(), ExecutionError>(
                        ExecutionError { kind: ErrorKind::Deploy(error), description: None },
                    ),
                }
        },
        !before.runtimes.contains_key(artifact.runtime_id) ==> {
            &&& after.runtimes == before.runtimes
            &&& result == Err::<(), ExecutionError>(
                ExecutionError {
                    kind: ErrorKind::Deploy(DeployError::WrongRuntime),
                    description: None,
                },
            )
        },
{
    let outcome = choose|outcome: Result<(), DeployError>| #[trigger]
        deploys_to_end(before, artifact, after, outcome) && result == converted(outcome)
            && fork_after == fork_before;
    law_awaited_deployment_is_that_of_its_runtime(before, artifact, after, outcome);
}

/// The action to register an artifact is the registration of that artifact on the fork, and has
/// its result. The lookup table and the requests are as they were.
pub proof fn law_register_action_registers<R: Runtime>(
    before: DispatcherState<R>,
    fork_before: R::Fork,
    artifact: ArtifactId,
    after: DispatcherState<R>,
    fork_after: R::Fork,
    result: Result<(), ExecutionError>,
)
    requires
        acts(before, fork_before, Action::RegisterArtifact { artifact }, after, fork_after, result),
    ensures
        after.runtime_lookup == before.runtime_lookup,
        after.requests == before.requests,
        exists|outcome: Result<(), DeployError>| #[trigger]
            registers(before, fork_before, artifact, after, fork_after, outcome) && match outcome {
                Ok(_) => result is Ok,
                Err(error) => result == Err::<(), ExecutionError>(
                    ExecutionError { kind: ErrorKind::Deploy(error), description: None },
                ),
            },
{
    let outcome = choose|outcome: Result<(), DeployError>| #[trigger]
        registers(before, fork_before, artifact, after, fork_after, outcome) && result
            == converted(outcome);
    law_registration_deploys_and_then_writes(
        before,
        fork_before,
        artifact,
        after,
        fork_after,
        outcome,
    );
}

/// The action to start a service is the start of that instance with that configuration on the
/// fork, and has its result. One request to restart the API follows if it has succeeded, and none
/// else.
pub proof fn law_start_action_starts<R: Runtime>(
    before: DispatcherState<R>,
    fork_before: R::Fork,
    spec: InstanceSpec,
    config: Any,
    after: DispatcherState<R>,
    fork_after: R::Fork,
    result: Result<(), ExecutionError>,
)
    requires
        acts(
            before,
            fork_before,
            Action::StartService { spec, config },
            after,
            fork_after,
            result,
        ),
    ensures
        exists|started: DispatcherState<R>, outcome: Result<(), StartError>| #[trigger]
            starts_service(before, fork_before, spec, config, started, fork_after, outcome) && {
                &&& after.runtimes == started.runtimes
                &&& after.runtime_lookup == started.runtime_lookup
                &&& after.records == started.records
                &&& match outcome {
                    Ok(_) => {
                        &&& result is Ok
                        &&& after.requests == before.requests.push(InternalRequest::RestartApi)
                    },
                    Err(error) => {
                        &&& result == Err::<(), ExecutionError>(
                            ExecutionError { kind: ErrorKind::Start(error), description: None },
                        )
                        &&& after.requests == before.requests
                    },
                }
            },
{
    let (started, outcome) = choose|started: DispatcherState<R>, outcome: Result<(), StartError>|
     #[trigger]
        starts_service(before, fork_before, spec, config, started, fork_after, outcome) && result
            == converted(outcome) && after == match outcome {
            Ok(_) => started.with_restart_request(),
            Err(_) => started,
        };
    assert(started.requests == before.requests);
}

/// Pending actions are carried out from the first on, each once, each on what the one before it
/// left, and each only while no request waits. A failure ends it and is the result; the rest is
/// given up. Without a failure all are carried out, unless a request has come up: then those
/// that are left are left in their order.
pub proof fn law_pending_actions_are_carried_out_in_order<R: Runtime>(
    before: DispatcherState<R>,
    fork_before: R::Fork,
    pending: Seq<Action>,
    after: DispatcherState<R>,
    fork_after: R::Fork,
    left: Seq<Action>,
    result: Result<(), ExecutionError>,
)
    requires
        resumes(before, fork_before, pending, after, fork_after, left, result),
    ensures
        exists|states: Seq<(DispatcherState<R>, R::Fork)>|
            {
                &&& 1 <= states.len() <= pending.len() + 1
                &&& #[trigger] states.first() == (before, fork_before)
                &&& states.last() == (after, fork_after)
                &&& forall|i: int|
                    #![trigger pending[i]]
                    0 <= i < states.len() - 1 ==> states[i].0.requests.len() == 0 && acts(
                        states[i].0,
                        states[i].1,
                        pending[i],
                        states[i + 1].0,
                        states[i + 1].1,
                        if i == states.len() - 2 {
                            result
                        } else {
                            Ok(())
                        },
                    )
                &&& match result {
                    Ok(_) => {
                        &&& left == pending.skip(states.len() - 1)
                        &&& states.len() == pending.len() + 1 || after.requests.len() > 0
                    },
                    Err(_) => left.len() == 0 && states.len() > 1,
                }
            },
{
    let states = choose|states: Seq<(DispatcherState<R>, R::Fork)>| #[trigger]
        carried_out(states, pending, result) && states.first() == (before, fork_before)
            && states.last() == (after, fork_after) && left == match result {
            Ok(_) => pending.skip(states.len() - 1),
            Err(_) => Seq::<Action>::empty(),
        };
    let begun = pending.take(states.len() - 1);
    assert forall|i: int|
        #![trigger pending[i]]
        0 <= i < states.len() - 1 implies states[i].0.requests.len() == 0 && acts(
        states[i].0,
        states[i].1,
        pending[i],
        states[i + 1].0,
        states[i + 1].1,
        if i == states.len() - 2 {
            result
        } else {
            Ok(())
        },
    ) by {
        assert(begun[i] == pending[i]);
    }
}

/// A built-in service is added by the registration of its artifact and, if that succeeds, by the
/// start of that very instance with those parameters, on the fork as the registration left it.
/// The error is that of the part which has failed.
pub proof fn law_builtin_service_is_registered_and_started<R: Runtime>(
    before: DispatcherState<R>,
    fork_before: R::Fork,
    spec: InstanceSpec,
    constructor: Any,
    after: DispatcherState<R>,
    fork_after: R::Fork,
    result: Result<(), BuiltinError>,
)
    requires
        adds_builtin(before, fork_before, spec, constructor, after, fork_after, result),
    ensures
        exists|registered: DispatcherState<R>, fork: R::Fork, outcome: Result<(), DeployError>|
         #[trigger]
            registers(before, fork_before, spec.artifact, registered, fork, outcome)
                && match outcome {
                Err(error) => {
                    &&& result == Err::<(), BuiltinError>(BuiltinError::Register(error))
                    &&& after == registered
                    &&& fork_after == fork
                },
                Ok(_) => exists|start: Result<(), StartError>| #[trigger]
                    starts_service(registered, fork, spec, constructor, after, fork_after, start)
                        && match start {
                        Err(error) => result == Err::<(), BuiltinError>(BuiltinError::Start(error)),
                        Ok(_) => result is Ok,
                    },
            },
{
}

/// Restoring that succeeds has put each listed artifact and then each listed instance through its
/// runtime.
///
/// `chain` are the runtimes before, between and after: each artifact in turn was deployed by the
/// runtime that it names, and each instance in turn was started by the runtime of its artifact,
/// all with success and each on the runtimes as the one before it left them. `tables` are the
/// lookup tables: each instance in turn was entered with the runtime of its artifact.
pub proof fn law_restoring_puts_all_through_their_runtimes<R: Runtime>(
    before: DispatcherState<R>,
    artifacts: Seq<ArtifactId>,
    instances: Seq<InstanceSpec>,
    after: DispatcherState<R>,
    result: Result<(), RestoreError>,
)
    requires
        restores(before, artifacts, instances, after, result),
        result is Ok,
    ensures
        exists|chain: Seq<Map<u32, R>>, tables: Seq<Map<ServiceInstanceId, u32>>|
            {
                &&& chain.len() == artifacts.len() + instances.len() + 1
                &&& tables.len() == instances.len() + 1
                &&& #[trigger] chain.first() == before.runtimes
                &&& chain.last() == after.runtimes
                &&& #[trigger] tables.first() == before.runtime_lookup
                &&& tables.last() == after.runtime_lookup
                &&& forall|i: int|
                    #![trigger artifacts[i]]
                    0 <= i < artifacts.len() ==> {
                        let id = artifacts[i].runtime_id;
                        &&& chain[i].contains_key(id)
                        &&& chain[i + 1] == chain[i].insert(id, chain[i + 1][id])
                        &&& exists|future: R::DeployFuture| #[trigger]
                            R::deploy_begins(chain[i][id], chain[i + 1][id], artifacts[i], future)
                                && call_ensures(R::wait, (future,), Ok::<(), DeployError>(()))
                    }
                &&& forall|i: int|
                    #![trigger instances[i]]
                    0 <= i < instances.len() ==> {
                        let id = instances[i].artifact.runtime_id;
                        let k = artifacts.len() + i;
                        &&& chain[k].contains_key(id)
                        &&& chain[k + 1] == chain[k].insert(id, chain[k + 1][id])
                        &&& R::starts(chain[k][id], chain[k + 1][id], instances[i], Ok(()))
                        &&& tables[i + 1] == tables[i].insert(instances[i].id, id)
                    }
            },
        after.requests == before.requests,
        after.records == before.records,
{
    let (deployed, outcome, restart) = lemma_parts_of_restoring(
        before,
        artifacts,
        instances,
        after,
        result,
    );
    assert(outcome->Ok_0 == ());
    assert(restart->Ok_0 == ());
    let deployments = choose|states: Seq<DispatcherState<R>>| #[trigger]
        handled_in_turn(deploy_step::<R>(), states, artifacts, outcome) && states.first() == before
            && states.last() == deployed;
    let restarts = choose|states: Seq<DispatcherState<R>>| #[trigger]
        handled_in_turn(restart_step::<R>(), states, instances, restart) && states.first()
            == deployed && states.last() == after;
    let n = artifacts.len() as int;
    lemma_deployments_keep_books(deployments, artifacts, outcome, n);
    lemma_restarts_keep_books(restarts, instances, restart, instances.len() as int);
    let chain = Seq::new(
        artifacts.len() + instances.len() + 1,
        |i: int|
            if i <= n {
                deployments[i].runtimes
            } else {
                restarts[i - n].runtimes
            },
    );
    let tables = restarts.map_values(|state: DispatcherState<R>| state.runtime_lookup);
    assert(deployments[n].runtimes == restarts[0].runtimes);
    assert(chain.first() == before.runtimes);
    assert(chain.last() == after.runtimes);
    assert(tables.first() == before.runtime_lookup);
    assert(tables.last() == after.runtime_lookup);
    assert forall|i: int| #![trigger artifacts[i]] 0 <= i < artifacts.len() implies {
        let id = artifacts[i].runtime_id;
        &&& chain[i].contains_key(id)
        &&& chain[i + 1] == chain[i].insert(id, chain[i + 1][id])
        &&& exists|future: R::DeployFuture| #[trigger]
            R::deploy_begins(chain[i][id], chain[i + 1][id], artifacts[i], future) && call_ensures(
                R::wait,
                (future,),
                Ok::<(), DeployError>(()),
            )
    } by {
        assert(deploys_to_end(
            deployments[i],
            artifacts[i],
            deployments[i + 1],
            Ok::<(), DeployError>(()),
        ));
        law_awaited_deployment_is_that_of_its_runtime(
            deployments[i],
            artifacts[i],
            deployments[i + 1],
            Ok::<(), DeployError>(()),
        );
        assert(chain[i] == deployments[i].runtimes);
        assert(chain[i + 1] == deployments[i + 1].runtimes);
    }
    assert forall|i: int| #![trigger instances[i]] 0 <= i < instances.len() implies {
        let id = instances[i].artifact.runtime_id;
        let k = artifacts.len() + i;
        &&& chain[k].contains_key(id)
        &&& chain[k + 1] == chain[k].insert(id, chain[k + 1][id])
        &&& R::starts(chain[k][id], chain[k + 1][id], instances[i], Ok(()))
        &&& tables[i + 1] == tables[i].insert(instances[i].id, id)
    } by {
        assert(restarts_service(
            restarts[i],
            instances[i],
            restarts[i + 1],
            Ok::<(), StartError>(()),
        ));
        law_instance_is_started_again_by_its_runtime(
            restarts[i],
            instances[i],
            restarts[i + 1],
            Ok::<(), StartError>(()),
        );
        assert(chain[n + i] == restarts[i].runtimes);
        assert(chain[n + i + 1] == restarts[i + 1].runtimes);
    }
}

/// Deployments leave the lookup table, the requests and the records as they were.
proof fn lemma_deployments_keep_books<R: Runtime>(
    states: Seq<DispatcherState<R>>,
    artifacts: Seq<ArtifactId>,
    result: Result<(), DeployError>,
    n: int,
)
    requires
        handled_in_turn(deploy_step::<R>(), states, artifacts, result),
        0 <= n < states.len(),
    ensures
        states[n].runtime_lookup == states[0].runtime_lookup,
        states[n].requests == states[0].requests,
        states[n].records == states[0].records,
    decreases n,
{
    if n > 0 {
        lemma_deployments_keep_books(states, artifacts, result, n - 1);
        let artifact = artifacts[n - 1];
        let outcome = if n == states.len() - 1 {
            result
        } else {
            Ok(())
        };
        assert(deploys_to_end(states[n - 1], artifact, states[n], outcome));
        law_awaited_deployment_is_that_of_its_runtime(
            states[n - 1],
            artifact,
            states[n],
            outcome,
        );
    }
}

/// Restarts leave the requests and the records as they were.
proof fn lemma_restarts_keep_books<R: Runtime>(
    states: Seq<DispatcherState<R>>,
    instances: Seq<InstanceSpec>,
    result: Result<(), StartError>,
    n: int,
)
    requires
        handled_in_turn(restart_step::<R>(), states, instances, result),
        0 <= n < states.len(),
    ensures
        states[n].requests == states[0].requests,
        states[n].records == states[0].records,
    decreases n,
{
    if n > 0 {
        lemma_restarts_keep_books(states, instances, result, n - 1);
        let spec = instances[n - 1];
        let outcome = if n == states.len() - 1 {
            result
        } else {
            Ok(())
        };
        assert(restarts_service(states[n - 1], spec, states[n], outcome));
        law_instance_is_started_again_by_its_runtime(states[n - 1], spec, states[n], outcome);
    }
}

/// Restoring that fails in a deployment has deployed the artifacts before it, each in its
/// runtime, and has the error of that deployment. Nothing that is listed after it is touched: no
/// instance is started or entered in the lookup table.
pub proof fn law_restoring_ends_with_a_failed_deployment<R: Runtime>(
    before: DispatcherState<R>,
    artifacts: Seq<ArtifactId>,
    instances: Seq<InstanceSpec>,
    after: DispatcherState<R>,
    error: DeployError,
)
    requires
        restores(before, artifacts, instances, after, Err(RestoreError::Deploy(error))),
    ensures
        exists|chain: Seq<Map<u32, R>>|
            {
                &&& 1 < chain.len() <= artifacts.len() + 1
                &&& #[trigger] chain.first() == before.runtimes
                &&& chain.last() == after.runtimes
                &&& forall|i: int|
                    #![trigger artifacts[i]]
                    0 <= i < chain.len() - 1 ==> {
                        let id = artifacts[i].runtime_id;
                        let outcome = if i == chain.len() - 2 {
                            Err::<(), DeployError>(error)
                        } else {
                            Ok(())
                        };
                        if chain[i].contains_key(id) {
                            &&& chain[i + 1] == chain[i].insert(id, chain[i + 1][id])
                            &&& exists|future: R::DeployFuture| #[trigger]
                                R::deploy_begins(
                                    chain[i][id],
                                    chain[i + 1][id],
                                    artifacts[i],
                                    future,
                                ) && call_ensures(R::wait, (future,), outcome)
                        } else {
                            &&& i == chain.len() - 2
                            &&& error == DeployError::WrongRuntime
                            &&& chain[i + 1] == chain[i]
                        }
                    }
            },
        after.runtime_lookup == before.runtime_lookup,
        after.requests == before.requests,
        after.records == before.records,
{
    let (deployed, outcome) = choose|
        deployed: DispatcherState<R>,
        outcome: Result<(), DeployError>,
    | #[trigger]
        deploys_all(before, artifacts, deployed, outcome) && match outcome {
            Ok(_) => exists|restart: Result<(), StartError>| #[trigger]
                restarts_all(deployed, instances, after, restart) && match restart {
                    Ok(_) => false,
                    Err(other) => Err::<(), RestoreError>(RestoreError::Deploy(error)) == Err::<
                        (),
                        RestoreError,
                    >(RestoreError::Restart(other)),
                },
            Err(other) => {
                &&& after == deployed
                &&& Err::<(), RestoreError>(RestoreError::Deploy(error)) == Err::<
                    (),
                    RestoreError,
                >(RestoreError::Deploy(other))
            },
        };
    assert(outcome == Err::<(), DeployError>(error));
    let states = choose|states: Seq<DispatcherState<R>>| #[trigger]
        handled_in_turn(deploy_step::<R>(), states, artifacts, outcome) && states.first() == before
            && states.last() == deployed;
    lemma_deployments_keep_books(states, artifacts, outcome, states.len() - 1);
    let chain = states.map_values(|state: DispatcherState<R>| state.runtimes);
    assert(chain.first() == before.runtimes);
    assert(chain.last() == after.runtimes);
    assert forall|i: int| #![trigger artifacts[i]] 0 <= i < chain.len() - 1 implies {
        let id = artifacts[i].runtime_id;
        let outcome = if i == chain.len() - 2 {
            Err::<(), DeployError>(error)
        } else {
            Ok(())
        };
        if chain[i].contains_key(id) {
            &&& chain[i + 1] == chain[i].insert(id, chain[i + 1][id])
            &&& exists|future: R::DeployFuture| #[trigger]
                R::deploy_begins(chain[i][id], chain[i + 1][id], artifacts[i], future)
                    && call_ensures(R::wait, (future,), outcome)
        } else {
            &&& i == chain.len() - 2
            &&& error == DeployError::WrongRuntime
            &&& chain[i + 1] == chain[i]
        }
    } by {
        let step = if i == chain.len() - 2 {
            outcome
        } else {
            Ok(())
        };
        assert(deploys_to_end(states[i], artifacts[i], states[i + 1], step));
        law_awaited_deployment_is_that_of_its_runtime(
            states[i],
            artifacts[i],
            states[i + 1],
            step,
        );
    }
}

/// Restoring that fails in a start has deployed all artifacts and started the instances before
/// it, each in its runtime, and has the error of that start. The instances before it are entered
/// in the lookup table; it and those after it are not.
pub proof fn law_restoring_ends_with_a_failed_start<R: Runtime>(
    before: DispatcherState<R>,
    artifacts: Seq<ArtifactId>,
    instances: Seq<InstanceSpec>,
    after: DispatcherState<R>,
    error: StartError,
)
    requires
        restores(before, artifacts, instances, after, Err(RestoreError::Restart(error))),
    ensures
        exists|chain: Seq<Map<u32, R>>, tables: Seq<Map<ServiceInstanceId, u32>>|
            {
                &&& 0 < tables.len() <= instances.len()
                &&& chain.len() == artifacts.len() + tables.len() + 1
                &&& #[trigger] chain.first() == before.runtimes
                &&& chain.last() == after.runtimes
                &&& #[trigger] tables.first() == before.runtime_lookup
                &&& tables.last() == after.runtime_lookup
                &&& forall|i: int|
                    #![trigger artifacts[i]]
                    0 <= i < artifacts.len() ==> {
                        let id = artifacts[i].runtime_id;
                        &&& chain[i].contains_key(id)
                        &&& chain[i + 1] == chain[i].insert(id, chain[i + 1][id])
                        &&& exists|future: R::DeployFuture| #[trigger]
                            R::deploy_begins(chain[i][id], chain[i + 1][id], artifacts[i], future)
                                && call_ensures(R::wait, (future,), Ok::<(), DeployError>(()))
                    }
                &&& forall|i: int|
                    #![trigger instances[i]]
                    0 <= i < tables.len() - 1 ==> {
                        let id = instances[i].artifact.runtime_id;
                        let k = artifacts.len() + i;
                        &&& chain[k].contains_key(id)
                        &&& chain[k + 1] == chain[k].insert(id, chain[k + 1][id])
                        &&& R::starts(chain[k][id], chain[k + 1][id], instances[i], Ok(()))
                        &&& tables[i + 1] == tables[i].insert(instances[i].id, id)
                    }
                &&& {
                    let spec = instances[tables.len() - 1];
                    let id = spec.artifact.runtime_id;
                    let k = artifacts.len() + tables.len() - 1;
                    if chain[k].contains_key(id) {
                        &&& chain[k + 1] == chain[k].insert(id, chain[k + 1][id])
                        &&& R::starts(chain[k][id], chain[k + 1][id], spec, Err(error))
                    } else {
                        error == StartError::WrongRuntime && chain[k + 1] == chain[k]
                    }
                }
            },
        after.requests == before.requests,
        after.records == before.records,
{
    let result = Err::<(), RestoreError>(RestoreError::Restart(error));
    let (deployed, outcome) = choose|
        deployed: DispatcherState<R>,
        outcome: Result<(), DeployError>,
    | #[trigger]
        deploys_all(before, artifacts, deployed, outcome) && match outcome {
            Ok(_) => exists|restart: Result<(), StartError>| #[trigger]
                restarts_all(deployed, instances, after, restart) && match restart {
                    Ok(_) => result is Ok,
                    Err(error) => result == Err::<(), RestoreError>(RestoreError::Restart(error)),
                },
            Err(error) => {
                &&& after == deployed
                &&& result == Err::<(), RestoreError>(RestoreError::Deploy(error))
            },
        };
    assert(outcome is Ok && outcome->Ok_0 == ());
    let restart = choose|restart: Result<(), StartError>| #[trigger]
        restarts_all(deployed, instances, after, restart) && match restart {
            Ok(_) => result is Ok,
            Err(error) => result == Err::<(), RestoreError>(RestoreError::Restart(error)),
        };
    assert(restart == Err::<(), StartError>(error));
    let deployments = choose|states: Seq<DispatcherState<R>>| #[trigger]
        handled_in_turn(deploy_step::<R>(), states, artifacts, outcome) && states.first() == before
            && states.last() == deployed;
    let restarts = choose|states: Seq<DispatcherState<R>>| #[trigger]
        handled_in_turn(restart_step::<R>(), states, instances, restart) && states.first()
            == deployed && states.last() == after;
    let n = artifacts.len() as int;
    let m = restarts.len() - 1;
    lemma_deployments_keep_books(deployments, artifacts, outcome, n);
    lemma_restarts_keep_books(restarts, instances, restart, m);
    let chain = Seq::new(
        (n + m + 1) as nat,
        |i: int|
            if i <= n {
                deployments[i].runtimes
            } else {
                restarts[i - n].runtimes
            },
    );
    let tables = Seq::new(m as nat, |i: int| restarts[i].runtime_lookup);
    assert(deployments[n].runtimes == restarts[0].runtimes);
    assert(chain.first() == before.runtimes);
    assert(chain.last() == after.runtimes);
    assert(tables.first() == before.runtime_lookup);
    let last = instances[m - 1];
    assert(restarts_service(restarts[m - 1], last, restarts[m], restart));
    law_instance_is_started_again_by_its_runtime(restarts[m - 1], last, restarts[m], restart);
    assert(tables.last() == after.runtime_lookup);
    assert(chain[n + m - 1] == restarts[m - 1].runtimes);
    assert(chain[n + m] == restarts[m].runtimes);
    assert forall|i: int| #![trigger artifacts[i]] 0 <= i < artifacts.len() implies {
        let id = artifacts[i].runtime_id;
        &&& chain[i].contains_key(id)
        &&& chain[i + 1] == chain[i].insert(id, chain[i + 1][id])
        &&& exists|future: R::DeployFuture| #[trigger]
            R::deploy_begins(chain[i][id], chain[i + 1][id], artifacts[i], future) && call_ensures(
                R::wait,
                (future,),
                Ok::<(), DeployError>(()),
            )
    } by {
        assert(deploys_to_end(
            deployments[i],
            artifacts[i],
            deployments[i + 1],
            Ok::<(), DeployError>(()),
        ));
        law_awaited_deployment_is_that_of_its_runtime(
            deployments[i],
            artifacts[i],
            deployments[i + 1],
            Ok::<(), DeployError>(()),
        );
        assert(chain[i] == deployments[i].runtimes);
        assert(chain[i + 1] == deployments[i + 1].runtimes);
    }
    assert forall|i: int| #![trigger instances[i]] 0 <= i < tables.len() - 1 implies {
        let id = instances[i].artifact.runtime_id;
        let k = artifacts.len() + i;
        &&& chain[k].contains_key(id)
        &&& chain[k + 1] == chain[k].insert(id, chain[k + 1][id])
        &&& R::starts(chain[k][id], chain[k + 1][id], instances[i], Ok(()))
        &&& tables[i + 1] == tables[i].insert(instances[i].id, id)
    } by {
        assert(restarts_service(
            restarts[i],
            instances[i],
            restarts[i + 1],
            Ok::<(), StartError>(()),
        ));
        law_instance_is_started_again_by_its_runtime(
            restarts[i],
            instances[i],
            restarts[i + 1],
            Ok::<(), StartError>(()),
        );
        assert(chain[n + i] == restarts[i].runtimes);
        assert(chain[n + i + 1] == restarts[i + 1].runtimes);
    }
}

/// Whatever services are running, each runtime takes part in what comes before a commit exactly
/// once: the fork goes through all of them, one after another in some order, and through nothing
/// else.
pub proof fn law_each_runtime_precommits_once<R: Runtime>(
    dispatcher: DispatcherState<R>,
    before: R::Fork,
    after: R::Fork,
)
    requires
        precommits_all(dispatcher, before, after),
    ensures
        exists|order: Seq<u32>, forks: Seq<R::Fork>|
            {
                &&& #[trigger] order.no_duplicates()
                &&& forall|id: u32| #[trigger]
                    order.contains(id) <==> dispatcher.runtimes.contains_key(id)
                &&& forks.len() == order.len() + 1
                &&& #[trigger] forks.first() == before
                &&& forks.last() == after
                &&& forall|i: int|
                    #![trigger order[i]]
                    0 <= i < order.len() ==> dispatcher.runtimes[order[i]].precommits(
                        dispatcher,
                        forks[i],
                        forks[i + 1],
                    )
            },
        forall|id: u32| #[trigger]
            dispatcher.runtimes.contains_key(id) ==> exists|b: R::Fork, a: R::Fork| #[trigger]
                dispatcher.runtimes[id].precommits(dispatcher, b, a),
{
    let (order, forks) = choose|order: Seq<u32>, forks: Seq<R::Fork>| #[trigger]
        is_walk(order, dispatcher.runtimes) && #[trigger] forks.first() == before && forks.last()
            == after && forks.len() == order.len() + 1 && forall|i: int|
            0 <= i < order.len() ==> dispatcher.runtimes[#[trigger] order[i]].precommits(
                dispatcher,
                forks[i],
                forks[i + 1],
            );
    lemma_walk_names_each(order, dispatcher.runtimes);
    assert forall|id: u32| #[trigger] dispatcher.runtimes.contains_key(id) implies exists|
        b: R::Fork,
        a: R::Fork,
    | #[trigger] dispatcher.runtimes[id].precommits(dispatcher, b, a) by {
        let i = order.index_of(id);
        assert(order.contains(id));
        assert(dispatcher.runtimes[order[i]].precommits(dispatcher, forks[i], forks[i + 1]));
    }
}

/// With one runtime, what comes before a commit is what that runtime does to the fork; with none,
/// the fork is as it was.
pub proof fn law_precommit_of_few_runtimes<R: Runtime>(
    dispatcher: DispatcherState<R>,
    before: R::Fork,
    after: R::Fork,
    only: u32,
)
    requires
        precommits_all(dispatcher, before, after),
    ensures
        dispatcher.runtimes.dom() == set![only] ==> dispatcher.runtimes[only].precommits(
            dispatcher,
            before,
            after,
        ),
        dispatcher.runtimes.dom() == Set::<u32>::empty() ==> after == before,
{
    let (order, forks) = choose|order: Seq<u32>, forks: Seq<R::Fork>| #[trigger]
        is_walk(order, dispatcher.runtimes) && #[trigger] forks.first() == before && forks.last()
            == after && forks.len() == order.len() + 1 && forall|i: int|
            0 <= i < order.len() ==> dispatcher.runtimes[#[trigger] order[i]].precommits(
                dispatcher,
                forks[i],
                forks[i + 1],
            );
    lemma_walk_of_few(order, dispatcher.runtimes, only);
    if dispatcher.runtimes.dom() == set![only] {
        assert(order[0] == only);
        assert(dispatcher.runtimes[order[0]].precommits(dispatcher, forks[0], forks[1]));
    }
}

/// Whatever services are running, each runtime is told of a commit exactly once, with that
/// snapshot and those keys: the sender goes through all of them, one after another in some
/// order, and through nothing else.
pub proof fn law_each_runtime_hears_of_commit_once<R: Runtime>(
    runtimes: Map<u32, R>,
    snapshot: R::Snapshot,
    service_keypair: (PublicKey, SecretKey),
    before: R::ApiSender,
    after: R::ApiSender,
)
    requires
        tells_all_of_commit(runtimes, snapshot, service_keypair, before, after),
    ensures
        exists|order: Seq<u32>, senders: Seq<R::ApiSender>|
            {
                &&& #[trigger] order.no_duplicates()
                &&& forall|id: u32| #[trigger] order.contains(id) <==> runtimes.contains_key(id)
                &&& senders.len() == order.len() + 1
                &&& #[trigger] senders.first() == before
                &&& senders.last() == after
                &&& forall|i: int|
                    #![trigger order[i]]
                    0 <= i < order.len() ==> runtimes[order[i]].hears_of_commit(
                        snapshot,
                        service_keypair,
                        senders[i],
                        senders[i + 1],
                    )
            },
        forall|id: u32| #[trigger]
            runtimes.contains_key(id) ==> exists|b: R::ApiSender, a: R::ApiSender| #[trigger]
                runtimes[id].hears_of_commit(snapshot, service_keypair, b, a),
{
    let (order, senders) = choose|order: Seq<u32>, senders: Seq<R::ApiSender>| #[trigger]
        is_walk(order, runtimes) && #[trigger] senders.first() == before && senders.last() == after
            && senders.len() == order.len() + 1 && forall|i: int|
            0 <= i < order.len() ==> runtimes[#[trigger] order[i]].hears_of_commit(
                snapshot,
                service_keypair,
                senders[i],
                senders[i + 1],
            );
    lemma_walk_names_each(order, runtimes);
    assert forall|id: u32| #[trigger] runtimes.contains_key(id) implies exists|
        b: R::ApiSender,
        a: R::ApiSender,
    | #[trigger] runtimes[id].hears_of_commit(snapshot, service_keypair, b, a) by {
        let i = order.index_of(id);
        assert(order.contains(id));
        assert(runtimes[order[i]].hears_of_commit(
            snapshot,
            service_keypair,
            senders[i],
            senders[i + 1],
        ));
    }
}

/// With one runtime, that one is told of the commit, and the sender is as it leaves it; with
/// none, the sender is as it was.
pub proof fn law_commit_of_few_runtimes<R: Runtime>(
    runtimes: Map<u32, R>,
    snapshot: R::Snapshot,
    service_keypair: (PublicKey, SecretKey),
    before: R::ApiSender,
    after: R::ApiSender,
    only: u32,
)
    requires
        tells_all_of_commit(runtimes, snapshot, service_keypair, before, after),
    ensures
        runtimes.dom() == set![only] ==> runtimes[only].hears_of_commit(
            snapshot,
            service_keypair,
            before,
            after,
        ),
        runtimes.dom() == Set::<u32>::empty() ==> after == before,
{
    let (order, senders) = choose|order: Seq<u32>, senders: Seq<R::ApiSender>| #[trigger]
        is_walk(order, runtimes) && #[trigger] senders.first() == before && senders.last() == after
            && senders.len() == order.len() + 1 && forall|i: int|
            0 <= i < order.len() ==> runtimes[#[trigger] order[i]].hears_of_commit(
                snapshot,
                service_keypair,
                senders[i],
                senders[i + 1],
            );
    lemma_walk_of_few(order, runtimes, only);
    if runtimes.dom() == set![only] {
        assert(order[0] == only);
        assert(runtimes[order[0]].hears_of_commit(
            snapshot,
            service_keypair,
            senders[0],
            senders[1],
        ));
    }
}

} // verus!
