use vstd::prelude::*;

use std::collections::HashMap;

use crate::action::Action;
use crate::context::{ContextState, ExecutionContext};
use crate::dispatcher::Dispatcher;
use crate::error::{
    BuiltinError, DeployError, ErrorKind, ExecutionError, RestoreError, StartError,
};
use crate::model::{
    acts, adds_builtin, calls, collects_api, collects_hashes, deploys, executes_transaction,
    precommits_all, registers, restores, resumes, starts_service, tells_all_of_commit,
};
use crate::runtime::{Deployment, Runtime};
use crate::types::{
    Any, AnyTx, ArtifactId, CallInfo, Caller, InstanceSpec, InternalRequest, MethodId, PublicKey,
    SecretKey, ServiceInstanceId, Signed,
};

verus! {

/// A new dispatcher has the last runtime that it is given under each identifier and no other,
/// runs nothing, and has requested and recorded nothing.
pub proof fn law_with_runtimes<R: Runtime>(
    args: (Vec<(u32, R)>,),
    dispatcher: Dispatcher<R>,
    id: u32,
    last: int,
)
    requires
        call_ensures(Dispatcher::<R>::with_runtimes, args, dispatcher),
    ensures
        dispatcher@.runtimes.contains_key(id) ==> exists|i: int|
            0 <= i < args.0@.len() && (#[trigger] args.0@[i]).0 == id,
        0 <= last < args.0@.len() && (forall|j: int|
            last < j < args.0@.len() ==> (#[trigger] args.0@[j]).0 != args.0@[last].0)
            ==> dispatcher@.runtimes.contains_key(args.0@[last].0)
            && dispatcher@.runtimes[args.0@[last].0] == args.0@[last].1,
        dispatcher@.runtime_lookup == Map::<ServiceInstanceId, u32>::empty(),
        dispatcher@.requests.len() == 0,
        dispatcher@.records.len() == 0,
{
    if forall|i: int| 0 <= i < args.0@.len() ==> (#[trigger] args.0@[i]).0 != id {
        crate::gathering::law_no_runtime_is_made_up(args.0@, id);
    }
    if 0 <= last < args.0@.len() && (forall|j: int|
        last < j < args.0@.len() ==> (#[trigger] args.0@[j]).0 != args.0@[last].0) {
        crate::gathering::law_last_runtime_is_kept(args.0@, last);
    }
}

/// `runtimes` gives the runtimes of the dispatcher.
pub proof fn law_runtimes<R: Runtime>(dispatcher: Dispatcher<R>, runtimes: &HashMap<u32, R>)
    requires
        call_ensures(Dispatcher::<R>::runtimes, (&dispatcher,), runtimes),
    ensures
        runtimes@ == dispatcher@.runtimes,
{
}

/// `deploy_artifact` begins the deployment of the artifact that it is given.
pub proof fn law_deploy_artifact<R: Runtime>(
    args: (&mut Dispatcher<R>, ArtifactId),
    deployment: Deployment<R>,
)
    requires
        call_ensures(Dispatcher::<R>::deploy_artifact, args, deployment),
    ensures
        deploys((*old(args.0))@, args.1, (*final(args.0))@, deployment),
{
}

/// `wait` gives what the deployment comes to.
pub proof fn law_wait<R: Runtime>(deployment: Deployment<R>, result: Result<(), DeployError>)
    requires
        call_ensures(Deployment::<R>::wait, (deployment,), result),
    ensures
        deployment.ends(result),
{
}

/// `register_artifact` registers the artifact that it is given, on the fork that it is given.
pub proof fn law_register_artifact<R: Runtime>(
    args: (&mut Dispatcher<R>, &mut R::Fork, ArtifactId),
    result: Result<(), DeployError>,
)
    requires
        call_ensures(Dispatcher::<R>::register_artifact, args, result),
    ensures
        registers(
            (*old(args.0))@,
            *old(args.1),
            args.2,
            (*final(args.0))@,
            *final(args.1),
            result,
        ),
{
}

/// `start_service` starts the instance that it is given with the parameters that it is given, on
/// the fork of the context, and leaves the rest of the context as it was.
pub proof fn law_start_service<R: Runtime>(
    args: (&mut Dispatcher<R>, &mut ExecutionContext<R::Fork>, InstanceSpec, Any),
    result: Result<(), StartError>,
)
    requires
        call_ensures(Dispatcher::<R>::start_service, args, result),
    ensures
        starts_service(
            (*old(args.0))@,
            (*old(args.1))@.fork,
            args.2,
            args.3,
            (*final(args.0))@,
            (*final(args.1))@.fork,
            result,
        ),
        (*final(args.1))@.caller == (*old(args.1))@.caller,
        (*final(args.1))@.actions == (*old(args.1))@.actions,
        *final((*final(args.1)).fork) == *final((*old(args.1)).fork),
{
}

/// `restore_state` restores the artifacts and the instances that it is given, all of them and in
/// that order.
pub proof fn law_restore_state<R: Runtime>(
    args: (&mut Dispatcher<R>, Vec<(String, u32)>, Vec<InstanceSpec>),
    result: Result<(), RestoreError>,
)
    requires
        call_ensures(Dispatcher::<R>::restore_state, args, result),
    ensures
        restores(
            (*old(args.0))@,
            args.1@.map_values(
                |entry: (String, u32)| ArtifactId { runtime_id: entry.1, name: entry.0 },
            ),
            args.2@,
            (*final(args.0))@,
            result,
        ),
{
}

/// `add_builtin_service` adds the instance that it is given with the parameters that it is given,
/// on the fork that it is given.
pub proof fn law_add_builtin_service<R: Runtime>(
    args: (&mut Dispatcher<R>, &mut R::Fork, InstanceSpec, Any),
    result: Result<(), BuiltinError>,
)
    requires
        call_ensures(Dispatcher::<R>::add_builtin_service, args, result),
    ensures
        adds_builtin(
            (*old(args.0))@,
            *old(args.1),
            args.2,
            args.3,
            (*final(args.0))@,
            *final(args.1),
            result,
        ),
{
}

/// `call` makes the call that it is given, in the context that it is given.
pub proof fn law_call<R: Runtime>(
    args: (&Dispatcher<R>, &mut ExecutionContext<R::Fork>, CallInfo, &[u8]),
    result: Result<(), ExecutionError>,
)
    requires
        call_ensures(Dispatcher::<R>::call, args, result),
    ensures
        calls(args.0@, (*old(args.1))@, args.2, args.3@, (*final(args.1))@, result),
        *final((*final(args.1)).fork) == *final((*old(args.1)).fork),
{
}

/// `execute` executes the transaction that it is given under the hash that it is given, on the
/// fork that it is given. The context that it returns leads to that fork.
pub proof fn law_execute<'a, R: Runtime>(
    args: (&mut Dispatcher<R>, &'a mut R::Fork, crate::types::Hash, &Signed<AnyTx>),
    result: Result<ExecutionContext<'a, R::Fork>, ExecutionError>,
)
    requires
        call_ensures(Dispatcher::<R>::execute, args, result),
    ensures
        result is Ok ==> {
            &&& executes_transaction(
                (*old(args.0))@,
                *old(args.1),
                args.2,
                *args.3,
                (*final(args.0))@,
                result->Ok_0@.fork,
                Ok::<ContextState<R::Fork>, ExecutionError>(result->Ok_0@),
            )
            &&& *final(result->Ok_0.fork) == *final(args.1)
        },
        result is Err ==> executes_transaction(
            (*old(args.0))@,
            *old(args.1),
            args.2,
            *args.3,
            (*final(args.0))@,
            *final(args.1),
            Err::<ContextState<R::Fork>, ExecutionError>(result->Err_0),
        ),
{
}

/// `resume` goes on with the actions of the context, on its fork.
pub proof fn law_resume<R: Runtime>(
    args: (&mut Dispatcher<R>, &mut ExecutionContext<R::Fork>),
    result: Result<(), ExecutionError>,
)
    requires
        call_ensures(Dispatcher::<R>::resume, args, result),
    ensures
        resumes(
            (*old(args.0))@,
            (*old(args.1))@.fork,
            (*old(args.1))@.actions,
            (*final(args.0))@,
            (*final(args.1))@.fork,
            (*final(args.1))@.actions,
            result,
        ),
        (*final(args.1))@.caller == (*old(args.1))@.caller,
        *final((*final(args.1)).fork) == *final((*old(args.1)).fork),
{
}

/// `execute` of an action carries it out on the fork of the context, and leaves the rest of the
/// context as it was.
pub proof fn law_action_execute<R: Runtime>(
    args: (Action, &mut Dispatcher<R>, &mut ExecutionContext<R::Fork>),
    result: Result<(), ExecutionError>,
)
    requires
        call_ensures(Action::execute::<R>, args, result),
    ensures
        acts(
            (*old(args.1))@,
            (*old(args.2))@.fork,
            args.0,
            (*final(args.1))@,
            (*final(args.2))@.fork,
            result,
        ),
        (*final(args.2))@.caller == (*old(args.2))@.caller,
        (*final(args.2))@.actions == (*old(args.2))@.actions,
        *final((*final(args.2)).fork) == *final((*old(args.2)).fork),
{
}

/// `take_requests` hands out all requests that wait, in their order; none waits after it, and
/// nothing else changes.
pub proof fn law_take_requests<R: Runtime>(
    args: (&mut Dispatcher<R>,),
    requests: Vec<InternalRequest>,
)
    requires
        call_ensures(Dispatcher::<R>::take_requests, args, requests),
    ensures
        requests@ == (*old(args.0))@.requests,
        (*final(args.0))@.requests.len() == 0,
        (*final(args.0))@.runtimes == (*old(args.0))@.runtimes,
        (*final(args.0))@.runtime_lookup == (*old(args.0))@.runtime_lookup,
        (*final(args.0))@.records == (*old(args.0))@.records,
{
}

/// `state_hashes` gathers the state hashes of the runtimes of the dispatcher in the snapshot that
/// it is given.
pub proof fn law_state_hashes<R: Runtime>(
    dispatcher: Dispatcher<R>,
    snapshot: R::Snapshot,
    hashes: Vec<(ServiceInstanceId, Vec<crate::types::Hash>)>,
)
    requires
        call_ensures(Dispatcher::<R>::state_hashes, (&dispatcher, &snapshot), hashes),
    ensures
        collects_hashes(dispatcher@.runtimes, snapshot, hashes@),
{
}

/// `services_api` gathers the APIs of the runtimes of the dispatcher.
pub proof fn law_services_api<R: Runtime>(
    dispatcher: Dispatcher<R>,
    api: Vec<(String, R::ApiBuilder)>,
)
    requires
        call_ensures(Dispatcher::<R>::services_api, (&dispatcher,), api),
    ensures
        collects_api(dispatcher@.runtimes, api@),
{
}

/// `before_commit` takes the fork that it is given through all runtimes of the dispatcher.
pub proof fn law_before_commit<R: Runtime>(args: (&Dispatcher<R>, &mut R::Fork))
    requires
        call_ensures(Dispatcher::<R>::before_commit, args, ()),
    ensures
        precommits_all(args.0@, *old(args.1), *final(args.1)),
{
}

/// `after_commit` takes the sender that it is given through all runtimes of the dispatcher, with
/// the snapshot and the keys that it is given.
pub proof fn law_after_commit<R: Runtime>(
    args: (&Dispatcher<R>, R::Snapshot, &(PublicKey, SecretKey), &mut R::ApiSender),
)
    requires
        call_ensures(Dispatcher::<R>::after_commit, args, ()),
    ensures
        tells_all_of_commit(args.0@.runtimes, args.1, *args.2, *old(args.3), *final(args.3)),
{
}

/// A new context leads to the fork that it is given, in the name of the caller that it is given,
/// and holds no actions.
pub proof fn law_new_context<'a, F>(args: (&'a mut F, Caller), context: ExecutionContext<'a, F>)
    requires
        call_ensures(ExecutionContext::<'a, F>::new, args, context),
    ensures
        context@.fork == *old(args.0),
        context@.caller == args.1,
        context@.actions.len() == 0,
        *final(context.fork) == *final(args.0),
{
}

/// `take_actions` hands out all actions of a context, in their order; none is left in it, and
/// nothing else changes.
pub proof fn law_take_actions<F>(args: (&mut ExecutionContext<F>,), actions: Vec<Action>)
    requires
        call_ensures(ExecutionContext::<F>::take_actions, args, actions),
    ensures
        actions@ == (*old(args.0))@.actions,
        (*final(args.0))@.actions.len() == 0,
        (*final(args.0))@.fork == (*old(args.0))@.fork,
        (*final(args.0))@.caller == (*old(args.0))@.caller,
        *final((*final(args.0)).fork) == *final((*old(args.0)).fork),
{
}

/// Errors are made of what they are given.
pub proof fn law_new_errors(
    code: u8,
    error: ExecutionError,
    kind: ErrorKind,
    description: &str,
    described: ExecutionError,
)
    requires
        call_ensures(ExecutionError::new, (code,), error),
        call_ensures(ExecutionError::with_description, (kind, description), described),
    ensures
        error.kind == ErrorKind::Service(code),
        error.description is None,
        described.kind == kind,
        described.description is Some,
        described.description->Some_0@ == description@,
{
}

/// Identifiers are made of what they are given, and a message is that of its author.
pub proof fn law_new_identifiers(
    runtime_id: u32,
    name: &str,
    artifact: ArtifactId,
    instance_id: ServiceInstanceId,
    method_id: MethodId,
    info: CallInfo,
    tx: Signed<AnyTx>,
    author: PublicKey,
)
    requires
        call_ensures(ArtifactId::new, (runtime_id, name), artifact),
        call_ensures(CallInfo::new, (instance_id, method_id), info),
        call_ensures(Signed::<AnyTx>::author, (&tx,), author),
    ensures
        artifact.runtime_id == runtime_id,
        artifact.name@ == name@,
        info.instance_id == instance_id,
        info.method_id == method_id,
        author == tx.author,
{
}

/// A clone is equal to what it is a clone of, and a default value is empty.
pub proof fn law_clones_and_defaults(
    artifact: ArtifactId,
    artifact_copy: ArtifactId,
    spec: InstanceSpec,
    spec_copy: InstanceSpec,
    any: Any,
)
    requires
        call_ensures(<ArtifactId as Clone>::clone, (&artifact,), artifact_copy),
        call_ensures(<InstanceSpec as Clone>::clone, (&spec,), spec_copy),
        call_ensures(<Any as Default>::default, (), any),
    ensures
        artifact_copy == artifact,
        spec_copy == spec,
        any.type_url@.len() == 0,
        any.value@.len() == 0,
{
}

/// An error of a deployment or of a start becomes the error of a call that names it.
pub proof fn law_converted_errors(
    deploy_error: DeployError,
    of_deployment: ExecutionError,
    start_error: StartError,
    of_start: ExecutionError,
)
    requires
        call_ensures(
            <ExecutionError as From<DeployError>>::from,
            (deploy_error,),
            of_deployment,
        ),
        call_ensures(<ExecutionError as From<StartError>>::from, (start_error,), of_start),
    ensures
        of_deployment == (ExecutionError {
            kind: ErrorKind::Deploy(deploy_error),
            description: None,
        }),
        of_start == (ExecutionError { kind: ErrorKind::Start(start_error), description: None }),
{
}

} // verus!
