use vstd::prelude::*;

use std::collections::hash_map::Entry;
use std::collections::HashMap;

use vstd::std_specs::iter::IteratorSpec;

use crate::action::Action;
use crate::context::{ContextState, ExecutionContext};
use crate::error::{
    BuiltinError, DeployError, ExecutionError, RestoreError, StartError, WRONG_RUNTIME,
};
use crate::model::{
    action_step, adds_builtin, brings_up, calls, carried_out, collects_api, collects_hashes,
    deploy_step, deploys, deploys_all, deploys_to_end, executes_transaction, handled_in_turn,
    handled_so_far, is_walk, joined, listed_artifacts, precommits_all, registers, restart_step,
    restarts_all, restarts_service, restores, resumes, runtimes_of, starts_service, tells_all_of_commit,
    transaction_context, DispatcherState,
};
use crate::runtime::{gave_api, gave_hashes, Deployment, Runtime};
use crate::schema::{artifact_added, instance_added, Record, Schema};
use crate::types::{
    Any, AnyTx, ArtifactId, CallInfo, Caller, InstanceSpec, InternalRequest, PublicKey, SecretKey,
    ServiceInstanceId, Signed, CORE_ID,
};

verus! {

broadcast use vstd::std_specs::hash::group_hash_axioms;

/// Keeper of the runtimes of a node.
pub struct Dispatcher<R> {
    runtimes: HashMap<u32, R>,
    /// The runtime of each running service instance.
    runtime_lookup: HashMap<ServiceInstanceId, u32>,
    /// Requests to the node, until they are taken and sent.
    requests: Vec<InternalRequest>,
    /// The writes made to the information schema, in order.
    records: Ghost<Seq<Record>>,
}

impl<R> View for Dispatcher<R> {
    type V = DispatcherState<R>;

    closed spec fn view(&self) -> DispatcherState<R> {
        DispatcherState {
            runtimes: self.runtimes@,
            runtime_lookup: self.runtime_lookup@,
            requests: self.requests@,
            records: self.records@,
        }
    }
}

/// The keys of the pairs.
spec fn keys_of<R>(pairs: Seq<(&u32, &R)>) -> Seq<u32> {
    pairs.map_values(|pair: (&u32, &R)| *pair.0)
}

/// The pairs that an iteration over a map gives name each key of the map once.
proof fn lemma_keys_are_walk<R>(pairs: Seq<(&u32, &R)>, runtimes: Map<u32, R>)
    requires
        pairs.no_duplicates(),
        forall|i: int|
            0 <= i < pairs.len() ==> runtimes.contains_key(*(#[trigger] pairs[i]).0)
                && runtimes[*pairs[i].0] == *pairs[i].1,
        forall|id: u32| #[trigger]
            runtimes.contains_key(id) ==> pairs.contains((&id, &runtimes[id])),
    ensures
        is_walk(keys_of(pairs), runtimes),
{
    let order = keys_of(pairs);
    assert forall|id: u32| order.to_set().contains(id) == runtimes.dom().contains(id) by {
        if runtimes.contains_key(id) {
            let i = pairs.index_of((&id, &runtimes[id]));
            assert(order[i] == id);
        }
    }
    assert(order.to_set() == runtimes.dom());
}

/// One more part is joined at the end.
pub(crate) proof fn lemma_joined_push<T>(parts: Seq<Vec<T>>, part: Vec<T>)
    ensures
        joined(parts.push(part)) == joined(parts) + part@,
{
    let contents = parts.map_values(|part: Vec<T>| part@);
    assert(parts.push(part).map_values(|part: Vec<T>| part@) == contents.push(part@));
    contents.lemma_flatten_push(part@);
}

/// What has been carried out of the pending actions is handled in turn.
proof fn lemma_beginning_is_handled<R: Runtime>(
    states: Seq<(DispatcherState<R>, R::Fork)>,
    pending: Seq<Action>,
    result: Result<(), ExecutionError>,
)
    requires
        1 <= states.len() <= pending.len() + 1,
        forall|i: int|
            #![trigger pending[i]]
            0 <= i < states.len() - 1 ==> action_step::<R>()(
                states[i],
                pending[i],
                states[i + 1],
                if i == states.len() - 2 {
                    result
                } else {
                    Ok(())
                },
            ),
        result is Err ==> states.len() > 1,
    ensures
        handled_in_turn(action_step::<R>(), states, pending.take(states.len() - 1), result),
{
    let begun = pending.take(states.len() - 1);
    assert forall|i: int| #![trigger begun[i]] 0 <= i < states.len() - 1 implies action_step::<
        R,
    >()(
        states[i],
        begun[i],
        states[i + 1],
        if i == states.len() - 2 {
            result
        } else {
            Ok(())
        },
    ) by {
        let _ = pending[i];
    }
}

impl<R: Runtime> Dispatcher<R> {
    /// Creates a new dispatcher with the specified runtimes.
    pub fn with_runtimes(runtimes: Vec<(u32, R)>) -> (dispatcher: Self)
        ensures
            dispatcher@ == (DispatcherState {
                runtimes: runtimes_of(runtimes@),
                runtime_lookup: Map::empty(),
                requests: Seq::empty(),
                records: Seq::empty(),
            }),
    {
        let mut by_id: HashMap<u32, R> = HashMap::new();
        for pair in pairs: runtimes
            invariant
                pairs.seq() == runtimes@,
                by_id@ == runtimes_of(runtimes@.take(pairs.index())),
        {
            assert(runtimes@.take(pairs.index() + 1).drop_last() == runtimes@.take(pairs.index()));
            by_id.insert(pair.0, pair.1);
        }
        assert(runtimes@.take(runtimes@.len() as int) == runtimes@);
        Dispatcher {
            runtimes: by_id,
            runtime_lookup: HashMap::new(),
            requests: Vec::new(),
            records: Ghost(Seq::empty()),
        }
    }

    /// The runtimes, by identifier.
    pub fn runtimes(&self) -> (runtimes: &HashMap<u32, R>)
        ensures
            runtimes@ == self@.runtimes,
    {
        &self.runtimes
    }

    /// Begins to deploy an artifact in its runtime.
    pub fn deploy_artifact(&mut self, artifact: ArtifactId) -> (deployment: Deployment<R>)
        ensures
            deploys(old(self)@, artifact, final(self)@, deployment),
    {
        let deployment = match self.runtimes.entry(artifact.runtime_id) {
            Entry::Occupied(entry) => {
                let runtime = entry.into_mut();
                Deployment::Started(runtime.deploy_artifact(artifact))
            },
            Entry::Vacant(_) => Deployment::Failed(DeployError::WrongRuntime),
        };
        assert(self@.runtimes == old(self)@.runtimes || self@.runtimes
            == old(self)@.runtimes.insert(
            artifact.runtime_id,
            self@.runtimes[artifact.runtime_id],
        ));
        deployment
    }

    /// Registers a deployed artifact in the dispatcher's information schema.
    pub fn register_artifact(
        &mut self,
        fork: &mut R::Fork,
        artifact: ArtifactId,
    ) -> (result: Result<(), DeployError>)
        ensures
            registers(old(self)@, *old(fork), artifact, final(self)@, *final(fork), result),
    {
        // Ensures that the artifact is deployed.
        let deployment = self.deploy_artifact(artifact.clone());
        let outcome = deployment.wait();
        assert(deploys_to_end(old(self)@, artifact, self@, outcome));
        match outcome {
            Ok(_) => self.record_artifact(fork, artifact),
            Err(error) => Err(error),
        }
    }

    /// Starts and configures a new service instance. After that it writes information about
    /// the instance to the dispatcher's information schema.
    pub fn start_service(
        &mut self,
        context: &mut ExecutionContext<R::Fork>,
        spec: InstanceSpec,
        constructor: Any,
    ) -> (result: Result<(), StartError>)
        ensures
            starts_service(
                old(self)@,
                old(context)@.fork,
                spec,
                constructor,
                final(self)@,
                final(context)@.fork,
                result,
            ),
            final(context)@ == old(context)@.with_fork(final(context)@.fork),
            *final(final(context).fork) == *final(old(context).fork),
    {
        // Checks that the service does not use an existing identifier.
        if self.identifier_exists(spec.id) {
            return Err(StartError::ServiceIdExists);
        }
        // Tries to start and configure the service instance.
        match self.runtimes.entry(spec.artifact.runtime_id) {
            Entry::Occupied(entry) => {
                let runtime = entry.into_mut();
                match Self::bring_up(runtime, context.fork, &spec, constructor) {
                    Ok(_) => {},
                    Err(error) => {
                        return Err(error);
                    },
                }
            },
            Entry::Vacant(_) => {
                assert(self@.runtimes == old(self)@.runtimes);
                return Err(StartError::WrongRuntime);
            },
        }
        self.register_running_service(&spec);
        // Adds the service instance to the information schema.
        self.record_instance(context.fork, spec)
    }

    /// Starts a service instance in its runtime and configures it. An instance that cannot be
    /// configured is stopped.
    fn bring_up(
        runtime: &mut R,
        fork: &mut R::Fork,
        spec: &InstanceSpec,
        constructor: Any,
    ) -> (result: Result<(), StartError>)
        ensures
            brings_up(
                *old(runtime),
                *old(fork),
                *spec,
                constructor,
                *final(runtime),
                *final(fork),
                result,
            ),
    {
        match runtime.start_service(spec) {
            Ok(_) => {},
            Err(error) => {
                return Err(error);
            },
        }
        match runtime.configure_service(fork, spec, constructor) {
            Ok(_) => Ok(()),
            Err(error) => {
                // The error of the configuration stands, unless the instance cannot be stopped.
                match runtime.stop_service(spec) {
                    Ok(_) => Err(error),
                    Err(stop_error) => Err(stop_error),
                }
            },
        }
    }

    /// Registers a service instance in the runtime lookup table.
    fn register_running_service(&mut self, spec: &InstanceSpec)
        ensures
            final(self)@ == old(self)@.with_running(*spec),
    {
        self.runtime_lookup.insert(spec.id, spec.artifact.runtime_id);
    }

    fn identifier_exists(&self, id: ServiceInstanceId) -> (found: bool)
        ensures
            found == self@.identifier_exists(id),
    {
        id == CORE_ID as u32 || self.runtime_lookup.contains_key(&id)
    }

    /// Adds an artifact to the information schema.
    fn record_artifact(
        &mut self,
        fork: &mut R::Fork,
        artifact: ArtifactId,
    ) -> (result: Result<(), DeployError>)
        ensures
            artifact_added(*old(fork), *final(fork), artifact, result),
            final(self)@ == old(self)@.with_record(Record::Artifact(artifact, result)),
    {
        let result = fork.add_artifact(artifact);
        proof {
            self.records@ = self.records@.push(Record::Artifact(artifact, result));
        }
        result
    }

    /// Adds a service instance to the information schema.
    fn record_instance(
        &mut self,
        fork: &mut R::Fork,
        spec: InstanceSpec,
    ) -> (result: Result<(), StartError>)
        ensures
            instance_added(*old(fork), *final(fork), spec, result),
            final(self)@ == old(self)@.with_record(Record::Instance(spec, result)),
    {
        let result = fork.add_service_instance(spec);
        proof {
            self.records@ = self.records@.push(Record::Instance(spec, result));
        }
        result
    }

    /// Restores the dispatcher from the artifacts and the service instances that a snapshot of
    /// the information schema lists: deploys the artifacts, and starts the instances again. Stops
    /// at the first of them that fails.
    pub fn restore_state(
        &mut self,
        artifacts: Vec<(String, u32)>,
        instances: Vec<InstanceSpec>,
    ) -> (result: Result<(), RestoreError>)
        ensures
            restores(
                old(self)@,
                listed_artifacts(artifacts@),
                instances@,
                final(self)@,
                result,
            ),
    {
        // Restores information about the deployed services.
        let deployed = self.deploy_all(artifacts);
        match deployed {
            Ok(_) => {},
            Err(error) => {
                return Err(RestoreError::Deploy(error));
            },
        }
        // Restarts active service instances.
        match self.restart_all(&instances) {
            Ok(_) => Ok(()),
            Err(error) => Err(RestoreError::Restart(error)),
        }
    }

    /// Deploys the listed artifacts, until one fails.
    fn deploy_all(&mut self, artifacts: Vec<(String, u32)>) -> (result: Result<(), DeployError>)
        ensures
            deploys_all(old(self)@, listed_artifacts(artifacts@), final(self)@, result),
    {
        let ghost items = listed_artifacts(artifacts@);
        let ghost mut states: Seq<DispatcherState<R>> = seq![self@];
        for entry in entries: artifacts
            invariant
                entries.seq() == artifacts@,
                items == listed_artifacts(artifacts@),
                handled_so_far(deploy_step::<R>(), states, items, entries.index()),
                states.first() == old(self)@,
                states.last() == self@,
        {
            let ghost before = self@;
            let artifact = ArtifactId { runtime_id: entry.1, name: entry.0 };
            let deployment = self.deploy_artifact(artifact);
            let outcome = deployment.wait();
            assert(deploys_to_end(before, artifact, self@, outcome));
            proof {
                states = states.push(self@);
            }
            match outcome {
                Ok(done) => {
                    assert(done == ());
                },
                Err(error) => {
                    assert(handled_in_turn(deploy_step::<R>(), states, items, outcome));
                    return Err(error);
                },
            }
        }
        assert(handled_in_turn(deploy_step::<R>(), states, items, Ok::<(), DeployError>(())));
        Ok(())
    }

    /// Restarts the instances, until one fails.
    fn restart_all(&mut self, instances: &Vec<InstanceSpec>) -> (result: Result<(), StartError>)
        ensures
            restarts_all(old(self)@, instances@, final(self)@, result),
    {
        let ghost mut states: Seq<DispatcherState<R>> = seq![self@];
        for k in 0..instances.len()
            invariant
                handled_so_far(restart_step::<R>(), states, instances@, k as int),
                states.first() == old(self)@,
                states.last() == self@,
        {
            let outcome = self.restart_service(&instances[k]);
            proof {
                states = states.push(self@);
            }
            match outcome {
                Ok(done) => {
                    assert(done == ());
                },
                Err(error) => {
                    assert(handled_in_turn(restart_step::<R>(), states, instances@, outcome));
                    return Err(error);
                },
            }
        }
        assert(handled_in_turn(
            restart_step::<R>(),
            states,
            instances@,
            Ok::<(), StartError>(()),
        ));
        Ok(())
    }

    /// Starts a service instance again and registers it as running.
    fn restart_service(&mut self, spec: &InstanceSpec) -> (result: Result<(), StartError>)
        ensures
            restarts_service(old(self)@, *spec, final(self)@, result),
    {
        let result = match self.runtimes.entry(spec.artifact.runtime_id) {
            Entry::Occupied(entry) => {
                let runtime = entry.into_mut();
                runtime.start_service(spec)
            },
            Entry::Vacant(_) => {
                assert(self@.runtimes == old(self)@.runtimes);
                return Err(StartError::WrongRuntime);
            },
        };
        if result.is_ok() {
            self.register_running_service(spec);
        }
        result
    }

    /// Adds a built-in service with a predefined identifier.
    pub fn add_builtin_service(
        &mut self,
        fork: &mut R::Fork,
        spec: InstanceSpec,
        constructor: Any,
    ) -> (result: Result<(), BuiltinError>)
        ensures
            adds_builtin(
                old(self)@,
                *old(fork),
                spec,
                constructor,
                final(self)@,
                *final(fork),
                result,
            ),
    {
        // Registers the artifact of the service in its runtime.
        match self.register_artifact(fork, spec.artifact.clone()) {
            Ok(_) => {},
            Err(error) => {
                return Err(BuiltinError::Register(error));
            },
        }
        // Starts the built-in service instance.
        let mut context = ExecutionContext::new(fork, Caller::Blockchain);
        match self.start_service(&mut context, spec, constructor) {
            Ok(_) => Ok(()),
            Err(error) => Err(BuiltinError::Start(error)),
        }
    }

    /// Calls the corresponding runtime method.
    pub fn call(
        &self,
        context: &mut ExecutionContext<R::Fork>,
        call_info: CallInfo,
        payload: &[u8],
    ) -> (result: Result<(), ExecutionError>)
        ensures
            calls(self@, old(context)@, call_info, payload@, final(context)@, result),
            *final(final(context).fork) == *final(old(context).fork),
    {
        let runtime_id = match self.runtime_lookup.get(&call_info.instance_id) {
            Some(runtime_id) => *runtime_id,
            None => {
                return Err(ExecutionError::with_description(WRONG_RUNTIME, "Wrong runtime"));
            },
        };
        match self.runtimes.get(&runtime_id) {
            Some(runtime) => runtime.execute(self, context, call_info, payload),
            None => Err(ExecutionError::with_description(WRONG_RUNTIME, "Wrong runtime")),
        }
    }

    /// Requests the node to restart its API.
    pub(crate) fn restart_api(&mut self)
        ensures
            final(self)@ == old(self)@.with_restart_request(),
    {
        self.requests.push(InternalRequest::RestartApi);
    }

    /// Takes the requests to the node that have come up since they were last taken.
    pub fn take_requests(&mut self) -> (requests: Vec<InternalRequest>)
        ensures
            requests@ == old(self)@.requests,
            final(self)@ == old(self)@.without_requests(),
    {
        let mut requests: Vec<InternalRequest> = Vec::new();
        std::mem::swap(&mut self.requests, &mut requests);
        requests
    }

    /// Executes a transaction: makes the call, then carries out the actions that the call left.
    ///
    /// An action may leave a request to the node. The node takes and sends it before the next
    /// action is carried out: the context comes back with the actions that are left, for
    /// `resume` to go on with. If none is left, the transaction is done.
    pub fn execute<'a>(
        &mut self,
        fork: &'a mut R::Fork,
        tx_id: crate::types::Hash,
        tx: &Signed<AnyTx>,
    ) -> (result: Result<ExecutionContext<'a, R::Fork>, ExecutionError>)
        ensures
            match result {
                Ok(context) => {
                    &&& executes_transaction(
                        old(self)@,
                        *old(fork),
                        tx_id,
                        *tx,
                        final(self)@,
                        context@.fork,
                        Ok(context@),
                    )
                    &&& *final(context.fork) == *final(fork)
                },
                Err(error) => executes_transaction(
                    old(self)@,
                    *old(fork),
                    tx_id,
                    *tx,
                    final(self)@,
                    *final(fork),
                    Err(error),
                ),
            },
    {
        let mut context = ExecutionContext::new(
            fork,
            Caller::Transaction { author: tx.author(), hash: tx_id },
        );
        assert(context@ == transaction_context(*old(fork), tx_id, *tx));
        let outcome = self.call(&mut context, tx.payload.call_info, tx.payload.payload.as_slice());
        let ghost called: ContextState<R::Fork> = context@;
        assert(calls(
            self@,
            transaction_context(*old(fork), tx_id, *tx),
            tx.payload.call_info,
            tx.payload.payload@,
            called,
            outcome,
        ));
        match outcome {
            Ok(_) => {},
            Err(error) => {
                return Err(error);
            },
        }
        // Executes pending dispatcher actions.
        let outcome = self.resume(&mut context);
        assert(resumes(
            old(self)@,
            called.fork,
            called.actions,
            self@,
            context@.fork,
            context@.actions,
            outcome,
        ));
        match outcome {
            Ok(_) => {
                assert(context@ == (ContextState {
                    fork: context@.fork,
                    caller: called.caller,
                    actions: context@.actions,
                }));
                Ok(context)
            },
            Err(error) => Err(error),
        }
    }

    /// Goes on with the actions of a transaction, until one fails or leaves a request to the
    /// node. Does nothing as long as a request waits to be taken. After a failure the actions
    /// that are left are given up.
    pub fn resume(&mut self, context: &mut ExecutionContext<R::Fork>) -> (result: Result<
        (),
        ExecutionError,
    >)
        ensures
            resumes(
                old(self)@,
                old(context)@.fork,
                old(context)@.actions,
                final(self)@,
                final(context)@.fork,
                final(context)@.actions,
                result,
            ),
            final(context)@.caller == old(context)@.caller,
            *final(final(context).fork) == *final(old(context).fork),
    {
        let ghost pending = context@.actions;
        let ghost mut states: Seq<(DispatcherState<R>, R::Fork)> = seq![(self@, context@.fork)];
        while self.requests.len() == 0 && context.actions.len() > 0
            invariant
                pending == old(context)@.actions,
                1 <= states.len() <= pending.len() + 1,
                handled_so_far(action_step::<R>(), states, pending, states.len() - 1),
                states.first() == (old(self)@, old(context)@.fork),
                states.last() == (self@, context@.fork),
                forall|i: int|
                    0 <= i < states.len() - 1 ==> (#[trigger] states[i]).0.requests.len() == 0,
                context@.actions == pending.skip(states.len() - 1),
                context@.caller == old(context)@.caller,
                *final(context.fork) == *final(old(context).fork),
            decreases context@.actions.len(),
        {
            let action = context.actions.remove(0);
            let outcome = action.execute(self, context);
            proof {
                let n = states.len() - 1;
                assert(action == pending[n]);
                assert(context@.actions == pending.skip(n + 1));
                states = states.push((self@, context@.fork));
            }
            match outcome {
                Ok(done) => {
                    assert(done == ());
                },
                Err(error) => {
                    // What is left is given up.
                    let _ = context.take_actions();
                    proof {
                        lemma_beginning_is_handled(states, pending, outcome);
                        assert(carried_out(states, pending, outcome));
                    }
                    return Err(error);
                },
            }
        }
        proof {
            lemma_beginning_is_handled(states, pending, Ok::<(), ExecutionError>(()));
            assert(carried_out(states, pending, Ok::<(), ExecutionError>(())));
        }
        Ok(())
    }

    /// The state hashes of the services of all runtimes.
    pub fn state_hashes(
        &self,
        snapshot: &R::Snapshot,
    ) -> (hashes: Vec<(ServiceInstanceId, Vec<crate::types::Hash>)>)
        ensures
            collects_hashes(self@.runtimes, *snapshot, hashes@),
    {
        let mut hashes: Vec<(ServiceInstanceId, Vec<crate::types::Hash>)> = Vec::new();
        let ghost mut parts: Seq<Vec<(ServiceInstanceId, Vec<crate::types::Hash>)>> = Seq::empty();
        assert(joined(parts) == hashes@);
        let iter = self.runtimes.iter();
        proof {
            lemma_keys_are_walk(iter.remaining(), self@.runtimes);
        }
        for pair in pairs: iter
            invariant
                is_walk(keys_of(pairs.seq()), self@.runtimes),
                forall|i: int|
                    0 <= i < pairs.seq().len() ==> self@.runtimes[*(#[trigger] pairs.seq()[i]).0]
                        == *pairs.seq()[i].1,
                parts.len() == pairs.index(),
                joined(parts) == hashes@,
                forall|i: int|
                    0 <= i < pairs.index() ==> gave_hashes(
                        self@.runtimes[#[trigger] keys_of(pairs.seq())[i]],
                        *snapshot,
                        parts[i],
                    ),
        {
            let mut part = pair.1.state_hashes(snapshot);
            proof {
                lemma_joined_push(parts, part);
                parts = parts.push(part);
            }
            hashes.append(&mut part);
        }
        hashes
    }

    /// The APIs of the services of all runtimes, by service name.
    pub fn services_api(&self) -> (api: Vec<(String, R::ApiBuilder)>)
        ensures
            collects_api(self@.runtimes, api@),
    {
        let mut api: Vec<(String, R::ApiBuilder)> = Vec::new();
        let ghost mut parts: Seq<Vec<(String, R::ApiBuilder)>> = Seq::empty();
        assert(joined(parts) == api@);
        let iter = self.runtimes.iter();
        proof {
            lemma_keys_are_walk(iter.remaining(), self@.runtimes);
        }
        for pair in pairs: iter
            invariant
                is_walk(keys_of(pairs.seq()), self@.runtimes),
                forall|i: int|
                    0 <= i < pairs.seq().len() ==> self@.runtimes[*(#[trigger] pairs.seq()[i]).0]
                        == *pairs.seq()[i].1,
                parts.len() == pairs.index(),
                joined(parts) == api@,
                forall|i: int|
                    0 <= i < pairs.index() ==> gave_api(
                        self@.runtimes[#[trigger] keys_of(pairs.seq())[i]],
                        parts[i],
                    ),
        {
            let mut part = pair.1.services_api();
            proof {
                lemma_joined_push(parts, part);
                parts = parts.push(part);
            }
            api.append(&mut part);
        }
        api
    }

    /// Lets each runtime change the fork before the block is committed.
    pub fn before_commit(&self, fork: &mut R::Fork)
        ensures
            precommits_all(self@, *old(fork), *final(fork)),
    {
        let ghost mut forks: Seq<R::Fork> = seq![*fork];
        let iter = self.runtimes.iter();
        proof {
            lemma_keys_are_walk(iter.remaining(), self@.runtimes);
        }
        for pair in pairs: iter
            invariant
                is_walk(keys_of(pairs.seq()), self@.runtimes),
                forall|i: int|
                    0 <= i < pairs.seq().len() ==> self@.runtimes[*(#[trigger] pairs.seq()[i]).0]
                        == *pairs.seq()[i].1,
                forks.len() == pairs.index() + 1,
                forks.first() == *old(fork),
                forks.last() == *fork,
                forall|i: int|
                    0 <= i < pairs.index()
                        ==> self@.runtimes[#[trigger] keys_of(pairs.seq())[i]].precommits(
                        self@,
                        forks[i],
                        forks[i + 1],
                    ),
        {
            pair.1.before_commit(self, fork);
            proof {
                forks = forks.push(*fork);
            }
        }
    }

    /// Tells each runtime that a block has been committed.
    pub fn after_commit(
        &self,
        snapshot: R::Snapshot,
        service_keypair: &(PublicKey, SecretKey),
        tx_sender: &mut R::ApiSender,
    )
        ensures
            tells_all_of_commit(
                self@.runtimes,
                snapshot,
                *service_keypair,
                *old(tx_sender),
                *final(tx_sender),
            ),
    {
        let ghost mut senders: Seq<R::ApiSender> = seq![*tx_sender];
        let iter = self.runtimes.iter();
        proof {
            lemma_keys_are_walk(iter.remaining(), self@.runtimes);
        }
        for pair in pairs: iter
            invariant
                is_walk(keys_of(pairs.seq()), self@.runtimes),
                forall|i: int|
                    0 <= i < pairs.seq().len() ==> self@.runtimes[*(#[trigger] pairs.seq()[i]).0]
                        == *pairs.seq()[i].1,
                senders.len() == pairs.index() + 1,
                senders.first() == *old(tx_sender),
                senders.last() == *tx_sender,
                forall|i: int|
                    0 <= i < pairs.index()
                        ==> self@.runtimes[#[trigger] keys_of(pairs.seq())[i]].hears_of_commit(
                        snapshot,
                        *service_keypair,
                        senders[i],
                        senders[i + 1],
                    ),
        {
            pair.1.after_commit(&snapshot, service_keypair, tx_sender);
            proof {
                senders = senders.push(*tx_sender);
            }
        }
    }
}

} // verus!
