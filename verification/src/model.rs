use vstd::prelude::*;

use crate::action::Action;
use crate::context::ContextState;
use crate::error::{
    BuiltinError, DeployError, ExecutionError, RestoreError, StartError, WRONG_RUNTIME,
};
use crate::runtime::{gave_api, gave_hashes, waited, Deployment, Runtime};
use crate::schema::{artifact_added, instance_added, Record};
use crate::types::{
    Any, AnyTx, ArtifactId, CallInfo, Caller, InstanceSpec, InternalRequest, PublicKey, SecretKey,
    ServiceInstanceId, Signed, CORE_ID,
};

verus! {

/// State of a dispatcher.
#[verifier::ext_equal]
pub struct DispatcherState<R> {
    /// The runtimes, by identifier.
    pub runtimes: Map<u32, R>,
    /// The runtime of each running service instance.
    pub runtime_lookup: Map<ServiceInstanceId, u32>,
    /// The requests to the node that have not been taken yet.
    pub requests: Seq<InternalRequest>,
    /// The writes made to the information schema.
    pub records: Seq<Record>,
}

impl<R> DispatcherState<R> {
    /// The identifier cannot be given to a new instance.
    pub open spec fn identifier_exists(self, id: ServiceInstanceId) -> bool {
        id == CORE_ID || self.runtime_lookup.contains_key(id)
    }

    /// Each running instance lives in one of the runtimes, and none uses the identifier of
    /// the core.
    pub open spec fn is_consistent(self) -> bool {
        &&& !self.runtime_lookup.contains_key(CORE_ID as u32)
        &&& forall|id: ServiceInstanceId| #[trigger]
            self.runtime_lookup.contains_key(id) ==> self.runtimes.contains_key(
                self.runtime_lookup[id],
            )
    }

    /// The instance `spec` is running in the runtime of its artifact.
    pub open spec fn is_running(self, spec: InstanceSpec) -> bool {
        &&& self.runtime_lookup.contains_key(spec.id)
        &&& self.runtime_lookup[spec.id] == spec.artifact.runtime_id
    }

    /// Each instance that the dispatcher has written to the schema, or has tried to, is running,
    /// and no two of them have one identifier.
    pub open spec fn runs_recorded(self) -> bool {
        &&& forall|i: int|
            0 <= i < self.records.len() ==> (#[trigger] self.records[i] matches Record::Instance(
                spec,
                _,
            ) ==> self.is_running(spec))
        &&& forall|i: int, j: int|
            0 <= i < j < self.records.len() && #[trigger] self.records[i] is Instance
                && #[trigger] self.records[j] is Instance ==> self.records[i]->Instance_0.id
                != self.records[j]->Instance_0.id
    }

    /// The runtime of each artifact that the dispatcher has written to the schema, or has tried
    /// to, is there.
    pub open spec fn hosts_recorded(self) -> bool {
        forall|i: int|
            0 <= i < self.records.len() ==> (#[trigger] self.records[i] matches Record::Artifact(
                artifact,
                _,
            ) ==> self.runtimes.contains_key(artifact.runtime_id))
    }

    /// The state with `runtime` in place of the runtime `id`.
    pub open spec fn with_runtime(self, id: u32, runtime: R) -> Self {
        DispatcherState { runtimes: self.runtimes.insert(id, runtime), ..self }
    }

    /// The state after a write to the information schema.
    pub open spec fn with_record(self, record: Record) -> Self {
        DispatcherState { records: self.records.push(record), ..self }
    }

    /// The state with the instance `spec` in the lookup table.
    pub open spec fn with_running(self, spec: InstanceSpec) -> Self {
        DispatcherState {
            runtime_lookup: self.runtime_lookup.insert(spec.id, spec.artifact.runtime_id),
            ..self
        }
    }

    /// The state after a request to restart the API.
    pub open spec fn with_restart_request(self) -> Self {
        DispatcherState { requests: self.requests.push(InternalRequest::RestartApi), ..self }
    }

    /// `self` has the runtimes of `earlier`, though they may have changed in themselves, and
    /// no running instance and no record of `earlier` has gone or changed.
    pub open spec fn extends(self, earlier: Self) -> bool {
        &&& self.runtimes.dom() == earlier.runtimes.dom()
        &&& earlier.runtime_lookup.submap_of(self.runtime_lookup)
        &&& earlier.records.is_prefix_of(self.records)
    }

    /// The state of a dispatcher that has just been made.
    pub open spec fn is_fresh(self) -> bool {
        &&& self.runtime_lookup == Map::<ServiceInstanceId, u32>::empty()
        &&& self.requests == Seq::<InternalRequest>::empty()
        &&& self.records == Seq::<Record>::empty()
    }

    /// The state with other requests.
    pub open spec fn with_requests(self, requests: Seq<InternalRequest>) -> Self {
        DispatcherState { requests, ..self }
    }

    /// The state once the requests have been taken.
    pub open spec fn without_requests(self) -> Self {
        DispatcherState { requests: Seq::empty(), ..self }
    }

    /// `self` differs from `earlier` in the runtime `id` alone, if at all.
    pub open spec fn differs_in_runtime(self, earlier: Self, id: u32) -> bool {
        &&& earlier.runtimes.contains_key(id)
        &&& self == earlier.with_runtime(id, self.runtimes[id])
    }
}

/// The first items of `items` have been handled in turn, and `states` are the states before,
/// between and after. Each item but the last one handled succeeded; the last one came to
/// `result`. Items are left over only after a failure.
pub open spec fn handled_in_turn<S, T, E>(
    step: spec_fn(S, T, S, Result<(), E>) -> bool,
    states: Seq<S>,
    items: Seq<T>,
    result: Result<(), E>,
) -> bool {
    &&& 1 <= states.len() <= items.len() + 1
    &&& forall|i: int|
        #![trigger items[i]]
        0 <= i < states.len() - 1 ==> step(
            states[i],
            items[i],
            states[i + 1],
            if i == states.len() - 2 {
                result
            } else {
                Ok(())
            },
        )
    &&& match result {
        Ok(_) => states.len() == items.len() + 1,
        Err(_) => states.len() > 1,
    }
}

/// The first `n` items of `items` have been handled in turn with success, and `states` are the
/// states before, between and after.
pub open spec fn handled_so_far<S, T, E>(
    step: spec_fn(S, T, S, Result<(), E>) -> bool,
    states: Seq<S>,
    items: Seq<T>,
    n: int,
) -> bool {
    &&& states.len() == n + 1
    &&& forall|i: int|
        #![trigger items[i]]
        0 <= i < n ==> step(states[i], items[i], states[i + 1], Ok(()))
}

/// `items` are handled in turn until one fails, from `before` to `after`.
pub open spec fn handles_all<S, T, E>(
    step: spec_fn(S, T, S, Result<(), E>) -> bool,
    before: S,
    items: Seq<T>,
    after: S,
    result: Result<(), E>,
) -> bool {
    exists|states: Seq<S>| #[trigger]
        handled_in_turn(step, states, items, result) && states.first() == before && states.last()
            == after
}

/// The runtimes that `with_runtimes` makes of `pairs`: a later runtime takes the place of an
/// earlier one with the same identifier.
pub open spec fn runtimes_of<R>(pairs: Seq<(u32, R)>) -> Map<u32, R>
    decreases pairs.len(),
{
    if pairs.len() == 0 {
        Map::empty()
    } else {
        runtimes_of(pairs.drop_last()).insert(pairs.last().0, pairs.last().1)
    }
}

/// `deploy_artifact`.
pub open spec fn deploys<R: Runtime>(
    before: DispatcherState<R>,
    artifact: ArtifactId,
    after: DispatcherState<R>,
    deployment: Deployment<R>,
) -> bool {
    let id = artifact.runtime_id;
    if before.runtimes.contains_key(id) {
        &&& after.differs_in_runtime(before, id)
        &&& deployment matches Deployment::Started(future)
        &&& R::deploy_begins(before.runtimes[id], after.runtimes[id], artifact, future)
    } else {
        &&& after == before
        &&& deployment == Deployment::<R>::Failed(DeployError::WrongRuntime)
    }
}

/// `deploy_artifact`, and the wait for the deployment to end.
pub open spec fn deploys_to_end<R: Runtime>(
    before: DispatcherState<R>,
    artifact: ArtifactId,
    after: DispatcherState<R>,
    result: Result<(), DeployError>,
) -> bool {
    exists|deployment: Deployment<R>| #[trigger]
        deploys(before, artifact, after, deployment) && deployment.ends(result)
}

/// `register_artifact`: one write to the schema follows a deployment that has succeeded. After a
/// deployment that has failed the fork is as it was.
pub open spec fn registers<R: Runtime>(
    before: DispatcherState<R>,
    fork_before: R::Fork,
    artifact: ArtifactId,
    after: DispatcherState<R>,
    fork_after: R::Fork,
    result: Result<(), DeployError>,
) -> bool {
    exists|deployed: DispatcherState<R>, outcome: Result<(), DeployError>| #[trigger]
        deploys_to_end(before, artifact, deployed, outcome) && match outcome {
            Ok(_) => {
                &&& artifact_added(fork_before, fork_after, artifact, result)
                &&& after == deployed.with_record(Record::Artifact(artifact, result))
            },
            Err(_) => result == outcome && after == deployed && fork_after == fork_before,
        }
}

/// A runtime starts an instance and configures it. An instance that cannot be configured is
/// stopped, and the result is the error of the configuration, or that of stopping the instance
/// if that fails too. An instance that cannot be started is not configured.
pub open spec fn brings_up<R: Runtime>(
    before: R,
    fork_before: R::Fork,
    spec: InstanceSpec,
    constructor: Any,
    after: R,
    fork_after: R::Fork,
    result: Result<(), StartError>,
) -> bool {
    exists|started: R, start: Result<(), StartError>| #[trigger]
        R::starts(before, started, spec, start) && match start {
            Ok(_) => exists|configure: Result<(), StartError>| #[trigger]
                started.configures(fork_before, fork_after, spec, constructor, configure)
                    && match configure {
                    Ok(_) => after == started && result is Ok,
                    Err(_) => exists|stop: Result<(), StartError>| #[trigger]
                        R::stops(started, after, spec, stop) && result == match stop {
                            Ok(_) => configure,
                            Err(_) => stop,
                        },
                },
            Err(_) => after == started && fork_after == fork_before && result == start,
        }
}

/// `start_service`: an instance that its runtime has brought up is running from then on, and one
/// write to the schema follows, whose result is the result of it all. An instance that has not
/// been brought up is neither running nor written to the schema.
pub open spec fn starts_service<R: Runtime>(
    before: DispatcherState<R>,
    fork_before: R::Fork,
    spec: InstanceSpec,
    constructor: Any,
    after: DispatcherState<R>,
    fork_after: R::Fork,
    result: Result<(), StartError>,
) -> bool {
    let id = spec.artifact.runtime_id;
    if before.identifier_exists(spec.id) {
        &&& after == before
        &&& fork_after == fork_before
        &&& result == Err::<(), StartError>(StartError::ServiceIdExists)
    } else if !before.runtimes.contains_key(id) {
        &&& after == before
        &&& fork_after == fork_before
        &&& result == Err::<(), StartError>(StartError::WrongRuntime)
    } else {
        exists|runtime: R, configured: R::Fork, outcome: Result<(), StartError>| #[trigger]
            brings_up(
                before.runtimes[id],
                fork_before,
                spec,
                constructor,
                runtime,
                configured,
                outcome,
            ) && match outcome {
                Ok(_) => {
                    &&& instance_added(configured, fork_after, spec, result)
                    &&& after == before.with_runtime(id, runtime).with_running(spec).with_record(
                        Record::Instance(spec, result),
                    )
                },
                Err(_) => {
                    &&& result == outcome
                    &&& after == before.with_runtime(id, runtime)
                    &&& fork_after == configured
                },
            }
    }
}

/// `restart_service`: an instance that its runtime has started again is running from then on.
pub open spec fn restarts_service<R: Runtime>(
    before: DispatcherState<R>,
    spec: InstanceSpec,
    after: DispatcherState<R>,
    result: Result<(), StartError>,
) -> bool {
    let id = spec.artifact.runtime_id;
    if before.runtimes.contains_key(id) {
        exists|runtime: R| #[trigger]
            R::starts(before.runtimes[id], runtime, spec, result) && after == match result {
                Ok(_) => before.with_runtime(id, runtime).with_running(spec),
                Err(_) => before.with_runtime(id, runtime),
            }
    } else {
        after == before && result == Err::<(), StartError>(StartError::WrongRuntime)
    }
}

/// The lookup table once `instances` have been entered in it in turn.
pub open spec fn lookup_with(
    lookup: Map<ServiceInstanceId, u32>,
    instances: Seq<InstanceSpec>,
) -> Map<ServiceInstanceId, u32>
    decreases instances.len(),
{
    if instances.len() == 0 {
        lookup
    } else {
        lookup_with(lookup, instances.drop_last()).insert(
            instances.last().id,
            instances.last().artifact.runtime_id,
        )
    }
}

/// The artifacts that the schema lists as pairs of a name and a runtime.
pub open spec fn listed_artifacts(listed: Seq<(String, u32)>) -> Seq<ArtifactId> {
    listed.map_values(|entry: (String, u32)| ArtifactId { runtime_id: entry.1, name: entry.0 })
}

/// The deployment of one of many artifacts.
pub open spec fn deploy_step<R: Runtime>() -> spec_fn(
    DispatcherState<R>,
    ArtifactId,
    DispatcherState<R>,
    Result<(), DeployError>,
) -> bool {
    |before, artifact, after, result| deploys_to_end(before, artifact, after, result)
}

/// The artifacts are deployed in turn, until one fails.
pub open spec fn deploys_all<R: Runtime>(
    before: DispatcherState<R>,
    artifacts: Seq<ArtifactId>,
    after: DispatcherState<R>,
    result: Result<(), DeployError>,
) -> bool {
    handles_all(deploy_step::<R>(), before, artifacts, after, result)
}

/// The restart of one of many instances.
pub open spec fn restart_step<R: Runtime>() -> spec_fn(
    DispatcherState<R>,
    InstanceSpec,
    DispatcherState<R>,
    Result<(), StartError>,
) -> bool {
    |before, spec, after, result| restarts_service(before, spec, after, result)
}

/// The instances are started again in turn, until one fails.
pub open spec fn restarts_all<R: Runtime>(
    before: DispatcherState<R>,
    instances: Seq<InstanceSpec>,
    after: DispatcherState<R>,
    result: Result<(), StartError>,
) -> bool {
    handles_all(restart_step::<R>(), before, instances, after, result)
}

/// `restore_state`: all artifacts are deployed in turn, then all instances are started again in
/// turn and are running from then on.
pub open spec fn restores<R: Runtime>(
    before: DispatcherState<R>,
    artifacts: Seq<ArtifactId>,
    instances: Seq<InstanceSpec>,
    after: DispatcherState<R>,
    result: Result<(), RestoreError>,
) -> bool {
    exists|deployed: DispatcherState<R>, outcome: Result<(), DeployError>| #[trigger]
        deploys_all(before, artifacts, deployed, outcome) && match outcome {
            Ok(_) => exists|restart: Result<(), StartError>| #[trigger]
                restarts_all(deployed, instances, after, restart) && match restart {
                    Ok(_) => result is Ok,
                    Err(error) => result == Err::<(), RestoreError>(RestoreError::Restart(error)),
                },
            Err(error) => {
                &&& after == deployed
                &&& result == Err::<(), RestoreError>(RestoreError::Deploy(error))
            },
        }
}

/// `add_builtin_service`: the artifact is registered, then the instance is started.
pub open spec fn adds_builtin<R: Runtime>(
    before: DispatcherState<R>,
    fork_before: R::Fork,
    spec: InstanceSpec,
    constructor: Any,
    after: DispatcherState<R>,
    fork_after: R::Fork,
    result: Result<(), BuiltinError>,
) -> bool {
    exists|registered: DispatcherState<R>, fork: R::Fork, outcome: Result<(), DeployError>|
     #[trigger]
        registers(before, fork_before, spec.artifact, registered, fork, outcome) && match outcome {
            Ok(_) => exists|start: Result<(), StartError>| #[trigger]
                starts_service(registered, fork, spec, constructor, after, fork_after, start)
                    && match start {
                    Ok(_) => result is Ok,
                    Err(error) => result == Err::<(), BuiltinError>(BuiltinError::Start(error)),
                },
            Err(error) => {
                &&& after == registered
                &&& fork_after == fork
                &&& result == Err::<(), BuiltinError>(BuiltinError::Register(error))
            },
        }
}

/// The dispatcher's answer to a call of an instance that no runtime runs.
pub open spec fn is_wrong_runtime<T>(result: Result<T, ExecutionError>) -> bool {
    result matches Err(error) && error.is_described(WRONG_RUNTIME, "Wrong runtime"@)
}

/// `call`: the call goes to the runtime of the called instance.
pub open spec fn calls<R: Runtime>(
    dispatcher: DispatcherState<R>,
    before: ContextState<R::Fork>,
    call_info: CallInfo,
    payload: Seq<u8>,
    after: ContextState<R::Fork>,
    result: Result<(), ExecutionError>,
) -> bool {
    let lookup = dispatcher.runtime_lookup;
    let id = call_info.instance_id;
    if lookup.contains_key(id) && dispatcher.runtimes.contains_key(lookup[id]) {
        dispatcher.runtimes[lookup[id]].executes(
            dispatcher,
            before,
            after,
            call_info,
            payload,
            result,
        )
    } else {
        after == before && is_wrong_runtime(result)
    }
}

/// `Action::execute`: a deployment leaves the fork as it is.
pub open spec fn acts<R: Runtime>(
    before: DispatcherState<R>,
    fork_before: R::Fork,
    action: Action,
    after: DispatcherState<R>,
    fork_after: R::Fork,
    result: Result<(), ExecutionError>,
) -> bool {
    match action {
        Action::DeployArtifact { artifact } => exists|outcome: Result<(), DeployError>| #[trigger]
            deploys_to_end(before, artifact, after, outcome) && result == converted(outcome)
                && fork_after == fork_before,
        Action::RegisterArtifact { artifact } => exists|outcome: Result<(), DeployError>| #[trigger]
            registers(before, fork_before, artifact, after, fork_after, outcome) && result
                == converted(outcome),
        Action::StartService { spec, config } => exists|
            started: DispatcherState<R>,
            outcome: Result<(), StartError>,
        | #[trigger]
            starts_service(before, fork_before, spec, config, started, fork_after, outcome)
                && result == converted(outcome) && after == match outcome {
                Ok(_) => started.with_restart_request(),
                Err(_) => started,
            },
    }
}

/// One of many actions, from a dispatcher and a fork to what they are after it.
pub open spec fn action_step<R: Runtime>() -> spec_fn(
    (DispatcherState<R>, R::Fork),
    Action,
    (DispatcherState<R>, R::Fork),
    Result<(), ExecutionError>,
) -> bool {
    |
        before: (DispatcherState<R>, R::Fork),
        action: Action,
        after: (DispatcherState<R>, R::Fork),
        result: Result<(), ExecutionError>,
    |
        acts(before.0, before.1, action, after.0, after.1, result)
}

/// The actions are carried out in turn, until one fails.
pub open spec fn acts_on_all<R: Runtime>(
    before: DispatcherState<R>,
    fork_before: R::Fork,
    actions: Seq<Action>,
    after: DispatcherState<R>,
    fork_after: R::Fork,
    result: Result<(), ExecutionError>,
) -> bool {
    handles_all(action_step::<R>(), (before, fork_before), actions, (after, fork_after), result)
}

/// A result with its error in the form that calls report.
pub open spec fn converted<E>(result: Result<(), E>) -> Result<(), ExecutionError> where
    ExecutionError: From<E>,
 {
    match result {
        Ok(_) => Ok(()),
        Err(error) => Err(
            <ExecutionError as vstd::std_specs::convert::FromSpec<E>>::from_spec(error),
        ),
    }
}

/// The context in which a transaction is called, before the call.
pub open spec fn transaction_context<F>(
    fork: F,
    tx_id: crate::types::Hash,
    tx: Signed<AnyTx>,
) -> ContextState<F> {
    ContextState {
        fork,
        caller: Caller::Transaction { author: tx.author, hash: tx_id },
        actions: Seq::empty(),
    }
}

/// The first of the `pending` actions have been carried out in turn, and `states` are the states
/// before, between and after. None was begun while a request to the node waited to be taken. If
/// all succeeded, none is left over, or a request has come up.
pub open spec fn carried_out<R: Runtime>(
    states: Seq<(DispatcherState<R>, R::Fork)>,
    pending: Seq<Action>,
    result: Result<(), ExecutionError>,
) -> bool {
    let n = states.len() - 1;
    &&& 0 <= n <= pending.len()
    &&& handled_in_turn(action_step::<R>(), states, pending.take(n), result)
    &&& forall|i: int| 0 <= i < n ==> (#[trigger] states[i]).0.requests.len() == 0
    &&& result is Ok ==> n == pending.len() || states.last().0.requests.len() > 0
}

/// `resume`: pending actions are carried out in turn, as far as the first that fails or that
/// leaves a request to the node. Those that come after a request are left for the time when it
/// has been taken; those that come after a failure are given up.
pub open spec fn resumes<R: Runtime>(
    before: DispatcherState<R>,
    fork_before: R::Fork,
    pending: Seq<Action>,
    after: DispatcherState<R>,
    fork_after: R::Fork,
    left: Seq<Action>,
    result: Result<(), ExecutionError>,
) -> bool {
    exists|states: Seq<(DispatcherState<R>, R::Fork)>| #[trigger]
        carried_out(states, pending, result) && states.first() == (before, fork_before)
            && states.last() == (after, fork_after) && left == match result {
            Ok(_) => pending.skip(states.len() - 1),
            Err(_) => Seq::<Action>::empty(),
        }
}

/// `execute`: if the call succeeds, the actions that it left are carried out, on the fork as the
/// call left it, as far as `resume` does. The result is the context with what is left of them.
pub open spec fn executes_transaction<R: Runtime>(
    before: DispatcherState<R>,
    fork_before: R::Fork,
    tx_id: crate::types::Hash,
    tx: Signed<AnyTx>,
    after: DispatcherState<R>,
    fork_after: R::Fork,
    result: Result<ContextState<R::Fork>, ExecutionError>,
) -> bool {
    exists|called: ContextState<R::Fork>, outcome: Result<(), ExecutionError>| #[trigger]
        calls(
            before,
            transaction_context(fork_before, tx_id, tx),
            tx.payload.call_info,
            tx.payload.payload@,
            called,
            outcome,
        ) && match outcome {
            Ok(_) => exists|left: Seq<Action>, done: Result<(), ExecutionError>| #[trigger]
                resumes(before, called.fork, called.actions, after, fork_after, left, done)
                    && result == match done {
                    Ok(_) => Ok::<ContextState<R::Fork>, ExecutionError>(
                        ContextState { fork: fork_after, caller: called.caller, actions: left },
                    ),
                    Err(error) => Err(error),
                },
            Err(error) => {
                &&& result == Err::<ContextState<R::Fork>, ExecutionError>(error)
                &&& after == before
                &&& fork_after == called.fork
            },
        }
}

/// `all` are the requests `first`, then the requests `rest`.
pub open spec fn follow(
    first: Seq<InternalRequest>,
    rest: Seq<InternalRequest>,
    all: Seq<InternalRequest>,
) -> bool {
    all == first + rest
}

/// The pending actions of a transaction are carried out to the end: `resume` is called as often
/// as it takes, and each time the node takes and sends the requests that have come up. `sent` are
/// the requests that have been sent, in order.
pub open spec fn runs_to_end<R: Runtime>(
    before: DispatcherState<R>,
    fork_before: R::Fork,
    pending: Seq<Action>,
    after: DispatcherState<R>,
    fork_after: R::Fork,
    sent: Seq<InternalRequest>,
    result: Result<(), ExecutionError>,
) -> bool
    decreases pending.len(),
{
    exists|
        paused: DispatcherState<R>,
        fork: R::Fork,
        left: Seq<Action>,
        done: Result<(), ExecutionError>,
        rest: Seq<InternalRequest>,
    |
        #![trigger resumes(before, fork_before, pending, paused, fork, left, done), follow(paused.requests, rest, sent)]
        resumes(before, fork_before, pending, paused, fork, left, done) && follow(
            paused.requests,
            rest,
            sent,
        ) && if done is Err || left.len() == 0 {
            &&& result == done
            &&& after == paused.without_requests()
            &&& fork_after == fork
            &&& rest.len() == 0
        } else {
            &&& left.len() < pending.len()
            &&& runs_to_end(
                paused.without_requests(),
                fork,
                left,
                after,
                fork_after,
                rest,
                result,
            )
        }
}

/// `order` names each of the runtimes once.
pub open spec fn is_walk<R>(order: Seq<u32>, runtimes: Map<u32, R>) -> bool {
    &&& order.no_duplicates()
    &&& order.to_set() == runtimes.dom()
}

/// The contents of the vectors, one after another.
pub open spec fn joined<T>(parts: Seq<Vec<T>>) -> Seq<T> {
    parts.map_values(|part: Vec<T>| part@).flatten()
}

/// `state_hashes`: the hashes of all runtimes, one runtime after another in some order.
pub open spec fn collects_hashes<R: Runtime>(
    runtimes: Map<u32, R>,
    snapshot: R::Snapshot,
    hashes: Seq<(ServiceInstanceId, Vec<crate::types::Hash>)>,
) -> bool {
    exists|
        order: Seq<u32>,
        parts: Seq<Vec<(ServiceInstanceId, Vec<crate::types::Hash>)>>,
    | #[trigger]
        is_walk(order, runtimes) && #[trigger] joined(parts) == hashes && parts.len() == order.len()
            && forall|i: int|
            0 <= i < order.len() ==> gave_hashes(
                runtimes[#[trigger] order[i]],
                snapshot,
                parts[i],
            )
}

/// `services_api`: the APIs of all runtimes, one runtime after another in some order.
pub open spec fn collects_api<R: Runtime>(
    runtimes: Map<u32, R>,
    api: Seq<(String, R::ApiBuilder)>,
) -> bool {
    exists|order: Seq<u32>, parts: Seq<Vec<(String, R::ApiBuilder)>>| #[trigger]
        is_walk(order, runtimes) && #[trigger] joined(parts) == api && parts.len() == order.len()
            && forall|i: int|
            0 <= i < order.len() ==> gave_api(runtimes[#[trigger] order[i]], parts[i])
}

/// `before_commit`: the fork goes through all runtimes, one after another in some order.
pub open spec fn precommits_all<R: Runtime>(
    dispatcher: DispatcherState<R>,
    before: R::Fork,
    after: R::Fork,
) -> bool {
    exists|order: Seq<u32>, forks: Seq<R::Fork>| #[trigger]
        is_walk(order, dispatcher.runtimes) && #[trigger] forks.first() == before && forks.last()
            == after && forks.len() == order.len() + 1 && forall|i: int|
            0 <= i < order.len() ==> dispatcher.runtimes[#[trigger] order[i]].precommits(
                dispatcher,
                forks[i],
                forks[i + 1],
            )
}

/// `after_commit`: the sender goes through all runtimes, one after another in some order, and
/// each is told of the commit once.
pub open spec fn tells_all_of_commit<R: Runtime>(
    runtimes: Map<u32, R>,
    snapshot: R::Snapshot,
    service_keypair: (PublicKey, SecretKey),
    before: R::ApiSender,
    after: R::ApiSender,
) -> bool {
    exists|order: Seq<u32>, senders: Seq<R::ApiSender>| #[trigger]
        is_walk(order, runtimes) && #[trigger] senders.first() == before && senders.last() == after
            && senders.len() == order.len() + 1 && forall|i: int|
            0 <= i < order.len() ==> runtimes[#[trigger] order[i]].hears_of_commit(
                snapshot,
                service_keypair,
                senders[i],
                senders[i + 1],
            )
}

/// None of the saved instances has the identifier of the core, or that of an instance which is
/// running in another runtime.
pub open spec fn can_be_restored<R>(
    dispatcher: DispatcherState<R>,
    instances: Seq<InstanceSpec>,
) -> bool {
    forall|i: int|
        0 <= i < instances.len() ==> {
            let spec = #[trigger] instances[i];
            &&& spec.id != CORE_ID
            &&& dispatcher.runtime_lookup.contains_key(spec.id)
                ==> dispatcher.runtime_lookup[spec.id] == spec.artifact.runtime_id
        }
}

/// An instance with the identifier is listed.
pub open spec fn lists_identifier(instances: Seq<InstanceSpec>, id: ServiceInstanceId) -> bool {
    exists|i: int| 0 <= i < instances.len() && (#[trigger] instances[i]).id == id
}

/// One of the actions is to start an instance with the identifier.
pub open spec fn asks_for_identifier(actions: Seq<Action>, id: ServiceInstanceId) -> bool {
    exists|i: int|
        0 <= i < actions.len() && (#[trigger] actions[i] matches Action::StartService { spec, .. }
            && spec.id == id)
}

/// A restoring of a state that lists the identifier takes the dispatcher from `before` to
/// `after`.
pub open spec fn restores_identifier<R: Runtime>(
    before: DispatcherState<R>,
    after: DispatcherState<R>,
    id: ServiceInstanceId,
) -> bool {
    exists|
        artifacts: Seq<ArtifactId>,
        instances: Seq<InstanceSpec>,
        result: Result<(), RestoreError>,
    | #[trigger]
        restores(before, artifacts, instances, after, result) && lists_identifier(instances, id)
}

/// A start that was given the identifier takes the dispatcher from `before` to `after`: that of a
/// service, that of a built-in service, or one among the actions that are carried out, be it for
/// a transaction or not.
pub open spec fn starts_identifier<R: Runtime>(
    before: DispatcherState<R>,
    after: DispatcherState<R>,
    id: ServiceInstanceId,
) -> bool {
    ||| exists|
        fork_before: R::Fork,
        spec: InstanceSpec,
        constructor: Any,
        fork_after: R::Fork,
        result: Result<(), StartError>,
    | #[trigger]
        starts_service(before, fork_before, spec, constructor, after, fork_after, result)
            && spec.id == id
    ||| exists|
        fork_before: R::Fork,
        spec: InstanceSpec,
        constructor: Any,
        fork_after: R::Fork,
        result: Result<(), BuiltinError>,
    | #[trigger]
        adds_builtin(before, fork_before, spec, constructor, after, fork_after, result) && spec.id
            == id
    ||| exists|
        fork_before: R::Fork,
        action: Action,
        fork_after: R::Fork,
        result: Result<(), ExecutionError>,
    | #[trigger]
        acts(before, fork_before, action, after, fork_after, result) && asks_for_identifier(
            seq![action],
            id,
        )
    ||| exists|
        fork_before: R::Fork,
        pending: Seq<Action>,
        fork_after: R::Fork,
        left: Seq<Action>,
        result: Result<(), ExecutionError>,
    | #[trigger]
        resumes(before, fork_before, pending, after, fork_after, left, result)
            && asks_for_identifier(pending, id)
}

/// `artifacts` and `instances` are those that `records` say were written to the schema.
pub open spec fn lists_recorded(
    records: Seq<Record>,
    artifacts: Seq<ArtifactId>,
    instances: Seq<InstanceSpec>,
) -> bool {
    &&& forall|artifact: ArtifactId| #[trigger]
        artifacts.contains(artifact) <==> records.contains(Record::Artifact(artifact, Ok(())))
    &&& forall|spec: InstanceSpec| #[trigger]
        instances.contains(spec) <==> records.contains(Record::Instance(spec, Ok(())))
}

/// `fit` holds of runtimes, by identifier, that accept the deployment of each of the artifacts
/// and the start of each of the instances, and still holds of them after it.
pub open spec fn accepts_all<R: Runtime>(
    fit: spec_fn(u32, R) -> bool,
    artifacts: Seq<ArtifactId>,
    instances: Seq<InstanceSpec>,
) -> bool {
    &&& forall|artifact: ArtifactId, b: R, a: R, future: R::DeployFuture|
        artifacts.contains(artifact) && fit(artifact.runtime_id, b) && #[trigger] R::deploy_begins(
            b,
            a,
            artifact,
            future,
        ) ==> fit(artifact.runtime_id, a) && forall|r: Result<(), DeployError>| #[trigger]
            waited::<R>(future, r) ==> r is Ok
    &&& forall|spec: InstanceSpec, b: R, a: R, r: Result<(), StartError>|
        instances.contains(spec) && fit(spec.artifact.runtime_id, b) && #[trigger] R::starts(
            b,
            a,
            spec,
            r,
        ) ==> fit(spec.artifact.runtime_id, a) && r is Ok
}

/// `fit` holds of all runtimes of the dispatcher.
pub open spec fn all_fit<R>(dispatcher: DispatcherState<R>, fit: spec_fn(u32, R) -> bool) -> bool {
    forall|id: u32| #[trigger]
        dispatcher.runtimes.contains_key(id) ==> fit(id, dispatcher.runtimes[id])
}

/// One of the dispatcher's methods takes it from `before` to `after`. A restored state is one
/// whose instances do not stand in the way of those that are running.
pub open spec fn moves<R: Runtime>(before: DispatcherState<R>, after: DispatcherState<R>) -> bool {
    ||| exists|artifact: ArtifactId, deployment: Deployment<R>| #[trigger]
        deploys(before, artifact, after, deployment)
    ||| exists|
        fork_before: R::Fork,
        artifact: ArtifactId,
        fork_after: R::Fork,
        result: Result<(), DeployError>,
    | #[trigger]
        registers(before, fork_before, artifact, after, fork_after, result)
    ||| exists|
        fork_before: R::Fork,
        spec: InstanceSpec,
        constructor: Any,
        fork_after: R::Fork,
        result: Result<(), StartError>,
    | #[trigger]
        starts_service(before, fork_before, spec, constructor, after, fork_after, result)
    ||| exists|
        artifacts: Seq<ArtifactId>,
        instances: Seq<InstanceSpec>,
        result: Result<(), RestoreError>,
    | #[trigger]
        restores(before, artifacts, instances, after, result) && can_be_restored(before, instances)
    ||| exists|
        fork_before: R::Fork,
        spec: InstanceSpec,
        constructor: Any,
        fork_after: R::Fork,
        result: Result<(), BuiltinError>,
    | #[trigger]
        adds_builtin(before, fork_before, spec, constructor, after, fork_after, result)
    ||| exists|
        fork_before: R::Fork,
        action: Action,
        fork_after: R::Fork,
        result: Result<(), ExecutionError>,
    | #[trigger]
        acts(before, fork_before, action, after, fork_after, result)
    ||| exists|
        fork_before: R::Fork,
        pending: Seq<Action>,
        fork_after: R::Fork,
        left: Seq<Action>,
        result: Result<(), ExecutionError>,
    | #[trigger]
        resumes(before, fork_before, pending, after, fork_after, left, result)
    ||| exists|
        fork_before: R::Fork,
        tx_id: crate::types::Hash,
        tx: Signed<AnyTx>,
        fork_after: R::Fork,
        result: Result<ContextState<R::Fork>, ExecutionError>,
    | #[trigger]
        executes_transaction(before, fork_before, tx_id, tx, after, fork_after, result)
    ||| after == before.without_requests()
}

/// One of the dispatcher's methods takes it from `before` to `after`, whatever it is given.
pub open spec fn moves_anyhow<R: Runtime>(
    before: DispatcherState<R>,
    after: DispatcherState<R>,
) -> bool {
    ||| moves(before, after)
    ||| exists|
        artifacts: Seq<ArtifactId>,
        instances: Seq<InstanceSpec>,
        result: Result<(), RestoreError>,
    | #[trigger] restores(before, artifacts, instances, after, result)
}

/// States that a dispatcher goes through, from the one in which it was made.
pub open spec fn is_history<R: Runtime>(states: Seq<DispatcherState<R>>) -> bool {
    &&& states.len() > 0
    &&& states[0].is_fresh()
    &&& forall|i: int| 0 < i < states.len() ==> moves(states[i - 1], #[trigger] states[i])
}

} // verus!
