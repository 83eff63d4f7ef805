use vstd::prelude::*;

use crate::context::ExecutionContext;
use crate::dispatcher::Dispatcher;
use crate::error::ExecutionError;
use crate::model::{acts, deploys_to_end};
use crate::runtime::Runtime;
use crate::types::{Any, ArtifactId, InstanceSpec};

verus! {

/// What a call asks the dispatcher to do once the call itself has succeeded.
#[derive(Debug)]
pub enum Action {
    /// Deploys the artifact on this node without registering it. In this way one can be sure
    /// that the artifact is deployed in its runtime before it is registered.
    DeployArtifact { artifact: ArtifactId },
    /// Registers the deployed artifact in the dispatcher.
    RegisterArtifact { artifact: ArtifactId },
    /// Starts a service instance with the given configuration.
    StartService { spec: InstanceSpec, config: Any },
}

impl Action {
    /// Carries out the action. The start of a service ends with a request to the node, which is
    /// for the node to take and send before anything else is done.
    pub fn execute<R: Runtime>(
        self,
        dispatcher: &mut Dispatcher<R>,
        context: &mut ExecutionContext<R::Fork>,
    ) -> (result: Result<(), ExecutionError>)
        ensures
            acts(
                old(dispatcher)@,
                old(context)@.fork,
                self,
                final(dispatcher)@,
                final(context)@.fork,
                result,
            ),
            final(context)@ == old(context)@.with_fork(final(context)@.fork),
            *final(final(context).fork) == *final(old(context).fork),
    {
        match self {
            Action::DeployArtifact { artifact } => {
                let deployment = dispatcher.deploy_artifact(artifact);
                let outcome = deployment.wait();
                assert(deploys_to_end(old(dispatcher)@, artifact, dispatcher@, outcome));
                match outcome {
                    Ok(_) => Ok(()),
                    Err(error) => Err(ExecutionError::from(error)),
                }
            },
            Action::RegisterArtifact { artifact } => {
                match dispatcher.register_artifact(context.fork, artifact) {
                    Ok(_) => Ok(()),
                    Err(error) => Err(ExecutionError::from(error)),
                }
            },
            Action::StartService { spec, config } => {
                match dispatcher.start_service(context, spec, config) {
                    Ok(_) => {},
                    Err(error) => {
                        return Err(ExecutionError::from(error));
                    },
                }
                dispatcher.restart_api();
                Ok(())
            },
        }
    }
}

} // verus!
