use vstd::prelude::*;

verus! {

/// Why an artifact could not be deployed or registered.
#[derive(Debug, Clone, Copy, PartialEq, Eq)]
pub enum DeployError {
    /// There is no such runtime, or the artifact belongs to another one.
    WrongRuntime,
    /// The runtime does not know the artifact.
    WrongArtifact,
    /// A reason of the runtime's or the schema's own, by its number.
    Other(u32),
}

/// Why a service instance could not be started.
#[derive(Debug, Clone, Copy, PartialEq, Eq)]
pub enum StartError {
    /// There is no such runtime, or the artifact belongs to another one.
    WrongRuntime,
    /// The runtime does not know the artifact.
    WrongArtifact,
    /// The identifier of the instance is in use.
    ServiceIdExists,
    /// A reason of the runtime's or the schema's own, by its number.
    Other(u32),
}

/// What went wrong in a call.
#[derive(Debug, Clone, Copy, PartialEq, Eq)]
pub enum ErrorKind {
    /// No runtime runs the called instance.
    WrongRuntime,
    /// An artifact could not be deployed or registered.
    Deploy(DeployError),
    /// A service instance could not be started.
    Start(StartError),
    /// The service reported an error of its own.
    Service(u8),
}

/// Kind of the error of a call to an instance that no runtime runs.
pub const WRONG_RUNTIME: ErrorKind = ErrorKind::WrongRuntime;

/// Error of a call or of an action that the call left behind.
#[derive(Debug, PartialEq, Eq)]
pub struct ExecutionError {
    pub kind: ErrorKind,
    pub description: Option<String>,
}

impl ExecutionError {
    /// An error of a service, with the code that the service gave it.
    pub fn new(code: u8) -> (error: Self)
        ensures
            error == (ExecutionError { kind: ErrorKind::Service(code), description: None }),
    {
        ExecutionError { kind: ErrorKind::Service(code), description: None }
    }

    /// An error of the given kind, described in words.
    pub fn with_description(kind: ErrorKind, description: &str) -> (error: Self)
        ensures
            error.is_described(kind, description@),
    {
        ExecutionError { kind, description: Some(description.to_owned()) }
    }

    /// The error is of the given kind and carries the given description.
    pub open spec fn is_described(self, kind: ErrorKind, description: Seq<char>) -> bool {
        &&& self.kind == kind
        &&& self.description matches Some(text)
        &&& text@ == description
    }
}

impl From<DeployError> for ExecutionError {
    fn from(error: DeployError) -> (converted: Self) {
        ExecutionError { kind: ErrorKind::Deploy(error), description: None }
    }
}

impl vstd::std_specs::convert::FromSpecImpl<DeployError> for ExecutionError {
    open spec fn obeys_from_spec() -> bool {
        true
    }

    open spec fn from_spec(error: DeployError) -> Self {
        ExecutionError { kind: ErrorKind::Deploy(error), description: None }
    }
}

impl From<StartError> for ExecutionError {
    fn from(error: StartError) -> (converted: Self) {
        ExecutionError { kind: ErrorKind::Start(error), description: None }
    }
}

impl vstd::std_specs::convert::FromSpecImpl<StartError> for ExecutionError {
    open spec fn obeys_from_spec() -> bool {
        true
    }

    open spec fn from_spec(error: StartError) -> Self {
        ExecutionError { kind: ErrorKind::Start(error), description: None }
    }
}

/// Why the dispatcher could not be brought back to a saved state.
#[derive(Debug, Clone, Copy, PartialEq, Eq)]
pub enum RestoreError {
    /// An artifact could not be deployed again.
    Deploy(DeployError),
    /// A service instance could not be started again.
    Restart(StartError),
}

/// Why a built-in service could not be added.
#[derive(Debug, Clone, Copy, PartialEq, Eq)]
pub enum BuiltinError {
    /// The artifact of the service could not be registered.
    Register(DeployError),
    /// The instance could not be started.
    Start(StartError),
}

} // verus!
