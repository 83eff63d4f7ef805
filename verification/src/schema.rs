use vstd::prelude::*;

use crate::error::{DeployError, StartError};
use crate::types::{ArtifactId, InstanceSpec};

verus! {

/// The dispatcher's information schema, as a fork of the storage gives access to it.
///
/// Nothing is promised of what a write comes to: that is for the schema to decide. The relations
/// of the trait are an implementation's own account of its writes. An implementation that gives
/// none has the relations that always hold; what is proved of the dispatcher is proved for all
/// of them alike.
pub trait Schema: Sized {
    /// `add_artifact` takes the fork from `before` to `after` and returns `result`.
    open spec fn adds_artifact(
        before: Self,
        after: Self,
        artifact: ArtifactId,
        result: Result<(), DeployError>,
    ) -> bool {
        true
    }

    /// `add_service_instance` takes the fork from `before` to `after` and returns `result`.
    open spec fn adds_instance(
        before: Self,
        after: Self,
        spec: InstanceSpec,
        result: Result<(), StartError>,
    ) -> bool {
        true
    }

    /// Adds an artifact to the registered ones.
    fn add_artifact(&mut self, artifact: ArtifactId) -> (result: Result<(), DeployError>)
        ensures
            Self::adds_artifact(*old(self), *final(self), artifact, result),
    ;

    /// Adds a service instance to the started ones.
    fn add_service_instance(&mut self, spec: InstanceSpec) -> (result: Result<(), StartError>)
        ensures
            Self::adds_instance(*old(self), *final(self), spec, result),
    ;
}

/// A write to the information schema, and what came of it.
pub enum Record {
    Artifact(ArtifactId, Result<(), DeployError>),
    Instance(InstanceSpec, Result<(), StartError>),
}

/// The write of `artifact` to the schema takes the fork from `before` to `after` and comes to
/// `result`.
pub open spec fn artifact_added<F: Schema>(
    before: F,
    after: F,
    artifact: ArtifactId,
    result: Result<(), DeployError>,
) -> bool {
    F::adds_artifact(before, after, artifact, result)
}

/// The write of the instance `spec` to the schema takes the fork from `before` to `after` and
/// comes to `result`.
pub open spec fn instance_added<F: Schema>(
    before: F,
    after: F,
    spec: InstanceSpec,
    result: Result<(), StartError>,
) -> bool {
    F::adds_instance(before, after, spec, result)
}

} // verus!
