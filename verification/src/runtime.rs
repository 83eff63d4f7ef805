use vstd::prelude::*;

use futures::Future;

use crate::context::{ContextState, ExecutionContext};
use crate::dispatcher::Dispatcher;
use crate::error::{DeployError, ExecutionError, StartError};
use crate::model::DispatcherState;
use crate::schema::Schema;
use crate::types::{
    Any, ArtifactId, CallInfo, InstanceSpec, PublicKey, SecretKey, ServiceInstanceId,
};

verus! {

/// An environment that runs services.
///
/// What a runtime answers is for the runtime to decide: no method promises success. The
/// relations of the trait are an implementation's own account of the methods that change
/// something behind a mutable reference. An implementation that gives none has the relations
/// that always hold; what is proved of the dispatcher is proved for all of them alike.
pub trait Runtime: Sized {
    /// The state of the storage that a call or a block changes.
    type Fork: Schema;

    /// A state of the storage at the end of a block.
    type Snapshot;

    /// A deployment that is under way.
    type DeployFuture;

    /// The part of the API that a service brings with it.
    type ApiBuilder;

    /// The way by which a runtime sends transactions of its own.
    type ApiSender;

    /// `deploy_artifact` takes the runtime from `before` to `after` and returns `future`.
    open spec fn deploy_begins(
        before: Self,
        after: Self,
        artifact: ArtifactId,
        future: Self::DeployFuture,
    ) -> bool {
        true
    }

    /// `start_service` takes the runtime from `before` to `after` and returns `result`.
    open spec fn starts(
        before: Self,
        after: Self,
        spec: InstanceSpec,
        result: Result<(), StartError>,
    ) -> bool {
        true
    }

    /// `stop_service` takes the runtime from `before` to `after` and returns `result`.
    open spec fn stops(
        before: Self,
        after: Self,
        spec: InstanceSpec,
        result: Result<(), StartError>,
    ) -> bool {
        true
    }

    /// `configure_service`, called on `self`, takes the fork from `before` to `after` and
    /// returns `result`.
    open spec fn configures(
        self,
        before: Self::Fork,
        after: Self::Fork,
        spec: InstanceSpec,
        parameters: Any,
        result: Result<(), StartError>,
    ) -> bool {
        true
    }

    /// `execute`, called on `self` by a dispatcher in the given state, takes the context from
    /// `before` to `after` and returns `result`.
    open spec fn executes(
        self,
        dispatcher: DispatcherState<Self>,
        before: ContextState<Self::Fork>,
        after: ContextState<Self::Fork>,
        call_info: CallInfo,
        payload: Seq<u8>,
        result: Result<(), ExecutionError>,
    ) -> bool {
        true
    }

    /// `before_commit`, called on `self` by a dispatcher in the given state, takes the fork
    /// from `before` to `after`.
    open spec fn precommits(
        self,
        dispatcher: DispatcherState<Self>,
        before: Self::Fork,
        after: Self::Fork,
    ) -> bool {
        true
    }

    /// `after_commit`, called on `self`, takes the sender from `before` to `after`.
    open spec fn hears_of_commit(
        self,
        snapshot: Self::Snapshot,
        service_keypair: (PublicKey, SecretKey),
        before: Self::ApiSender,
        after: Self::ApiSender,
    ) -> bool {
        true
    }

    /// Begins to deploy an artifact.
    fn deploy_artifact(&mut self, artifact: ArtifactId) -> (future: Self::DeployFuture)
        ensures
            Self::deploy_begins(*old(self), *final(self), artifact, future),
    ;

    /// Waits for a deployment to end.
    fn wait(future: Self::DeployFuture) -> Result<(), DeployError>;

    /// Starts a service instance.
    fn start_service(&mut self, spec: &InstanceSpec) -> (result: Result<(), StartError>)
        ensures
            Self::starts(*old(self), *final(self), *spec, result),
    ;

    /// Stops a service instance.
    fn stop_service(&mut self, spec: &InstanceSpec) -> (result: Result<(), StartError>)
        ensures
            Self::stops(*old(self), *final(self), *spec, result),
    ;

    /// Configures a started service instance.
    fn configure_service(
        &self,
        fork: &mut Self::Fork,
        spec: &InstanceSpec,
        parameters: Any,
    ) -> (result: Result<(), StartError>)
        ensures
            self.configures(*old(fork), *final(fork), *spec, parameters, result),
    ;

    /// Calls a method of a service. The context is left with the fork that it came with: a
    /// runtime may change the fork, but not put another in its place.
    fn execute(
        &self,
        dispatcher: &Dispatcher<Self>,
        context: &mut ExecutionContext<Self::Fork>,
        call_info: CallInfo,
        payload: &[u8],
    ) -> (result: Result<(), ExecutionError>)
        ensures
            self.executes(
                dispatcher@,
                old(context)@,
                final(context)@,
                call_info,
                payload@,
                result,
            ),
            *final(final(context).fork) == *final(old(context).fork),
    ;

    /// The state hashes of the services of the runtime.
    fn state_hashes(
        &self,
        snapshot: &Self::Snapshot,
    ) -> Vec<(ServiceInstanceId, Vec<crate::types::Hash>)>;

    /// The APIs of the services of the runtime, by service name. A runtime that does not say
    /// otherwise has none.
    fn services_api(&self) -> (api: Vec<(String, Self::ApiBuilder)>)
        default_ensures
            api@.len() == 0,
    {
        Vec::new()
    }

    /// Called before a block is committed.
    fn before_commit(&self, dispatcher: &Dispatcher<Self>, fork: &mut Self::Fork)
        ensures
            self.precommits(dispatcher@, *old(fork), *final(fork)),
    ;

    /// Called after a block has been committed.
    fn after_commit(
        &self,
        snapshot: &Self::Snapshot,
        service_keypair: &(PublicKey, SecretKey),
        tx_sender: &mut Self::ApiSender,
    )
        ensures
            self.hears_of_commit(*snapshot, *service_keypair, *old(tx_sender), *final(tx_sender)),
    ;
}

/// `result` is what waiting for `future` came to.
pub open spec fn waited<R: Runtime>(
    future: R::DeployFuture,
    result: Result<(), DeployError>,
) -> bool {
    call_ensures(R::wait, (future,), result)
}

/// `hashes` is what `runtime` gave as its state hashes in `snapshot`.
pub open spec fn gave_hashes<R: Runtime>(
    runtime: R,
    snapshot: R::Snapshot,
    hashes: Vec<(ServiceInstanceId, Vec<crate::types::Hash>)>,
) -> bool {
    call_ensures(R::state_hashes, (&runtime, &snapshot), hashes)
}

/// `api` is what `runtime` gave as the APIs of its services.
pub open spec fn gave_api<R: Runtime>(runtime: R, api: Vec<(String, R::ApiBuilder)>) -> bool {
    call_ensures(R::services_api, (&runtime,), api)
}

/// The deployment of an artifact, as the dispatcher hands it out.
pub enum Deployment<R: Runtime> {
    /// The runtime of the artifact has begun to deploy it.
    Started(R::DeployFuture),
    /// The deployment has failed before it began.
    Failed(DeployError),
}

impl<R: Runtime> Deployment<R> {
    /// `result` is what the deployment came to.
    pub open spec fn ends(self, result: Result<(), DeployError>) -> bool {
        match self {
            Deployment::Started(future) => waited::<R>(future, result),
            Deployment::Failed(error) => result == Err::<(), DeployError>(error),
        }
    }

    /// Waits for the deployment to end.
    pub fn wait(self) -> (result: Result<(), DeployError>)
        ensures
            self.ends(result),
    {
        match self {
            Deployment::Started(future) => R::wait(future),
            Deployment::Failed(error) => wait_failed(error),
        }
    }
}

/// Waits for the future that `futures::future::err` makes of `error`.
///
/// Taken on trust of `futures`: that future is complete from the start, so `Future::wait`
/// returns at once, with the error that the future was made of.
#[verifier::external_body]
fn wait_failed(error: DeployError) -> (result: Result<(), DeployError>)
    ensures
        result is Err,
        result->Err_0 == error,
{
    futures::future::err::<(), DeployError>(error).wait()
}

} // verus!
