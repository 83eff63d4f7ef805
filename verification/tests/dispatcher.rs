use std::collections::BTreeMap;

use futures::{Future, IntoFuture};

use exonum_dispatcher::context::ExecutionContext;
use exonum_dispatcher::dispatcher::Dispatcher;
use exonum_dispatcher::error::{DeployError, ExecutionError, StartError};
use exonum_dispatcher::runtime::Runtime;
use exonum_dispatcher::schema::Schema;
use exonum_dispatcher::types::{
    Any, ArtifactId, CallInfo, Caller, InstanceSpec, MethodId, PublicKey, SecretKey,
    ServiceInstanceId,
};

const FIRST: u32 = 2;
const SECOND: u32 = 3;
const RUST: u32 = 0;

/// A schema that takes each name once.
#[derive(Debug, Default)]
struct Fork {
    artifacts: BTreeMap<String, u32>,
    instances: BTreeMap<String, InstanceSpec>,
}

impl Schema for Fork {
    fn add_artifact(&mut self, artifact: ArtifactId) -> Result<(), DeployError> {
        if self.artifacts.contains_key(&artifact.name) {
            return Err(DeployError::WrongArtifact);
        }
        self.artifacts.insert(artifact.name, artifact.runtime_id);
        Ok(())
    }

    fn add_service_instance(&mut self, spec: InstanceSpec) -> Result<(), StartError> {
        if self.instances.contains_key(&spec.name) {
            return Err(StartError::WrongArtifact);
        }
        self.instances.insert(spec.name.clone(), spec);
        Ok(())
    }
}

struct DispatcherBuilder<R> {
    runtimes: Vec<(u32, R)>,
}

impl<R: Runtime> DispatcherBuilder<R> {
    fn new() -> Self {
        Self { runtimes: Vec::new() }
    }

    /// Adds additional runtime.
    fn with_runtime(mut self, id: u32, runtime: R) -> Self {
        self.runtimes.push((id, runtime));
        self
    }

    fn finalize(self) -> Dispatcher<R> {
        Dispatcher::with_runtimes(self.runtimes)
    }
}

#[derive(Debug)]
struct SampleRuntime {
    runtime_type: u32,
    instance_id: ServiceInstanceId,
    method_id: MethodId,
}

impl SampleRuntime {
    fn new(runtime_type: u32, instance_id: ServiceInstanceId, method_id: MethodId) -> Self {
        Self { runtime_type, instance_id, method_id }
    }
}

impl Runtime for SampleRuntime {
    type Fork = Fork;
    type Snapshot = ();
    type DeployFuture = Box<dyn Future<Item = (), Error = DeployError>>;
    type ApiBuilder = ();
    type ApiSender = ();

    fn deploy_artifact(
        &mut self,
        artifact: ArtifactId,
    ) -> Box<dyn Future<Item = (), Error = DeployError>> {
        Box::new(
            if artifact.runtime_id == self.runtime_type {
                Ok(())
            } else {
                Err(DeployError::WrongRuntime)
            }
            .into_future(),
        )
    }

    fn wait(future: Box<dyn Future<Item = (), Error = DeployError>>) -> Result<(), DeployError> {
        future.wait()
    }

    fn start_service(&mut self, spec: &InstanceSpec) -> Result<(), StartError> {
        if spec.artifact.runtime_id == self.runtime_type {
            Ok(())
        } else {
            Err(StartError::WrongRuntime)
        }
    }

    fn stop_service(&mut self, spec: &InstanceSpec) -> Result<(), StartError> {
        if spec.artifact.runtime_id == self.runtime_type {
            Ok(())
        } else {
            Err(StartError::WrongRuntime)
        }
    }

    fn configure_service(
        &self,
        _fork: &mut Fork,
        spec: &InstanceSpec,
        _parameters: Any,
    ) -> Result<(), StartError> {
        if spec.artifact.runtime_id == self.runtime_type {
            Ok(())
        } else {
            Err(StartError::WrongRuntime)
        }
    }

    fn execute(
        &self,
        _: &Dispatcher<Self>,
        _: &mut ExecutionContext<Fork>,
        call_info: CallInfo,
        _: &[u8],
    ) -> Result<(), ExecutionError> {
        if call_info.instance_id == self.instance_id && call_info.method_id == self.method_id {
            Ok(())
        } else {
            Err(ExecutionError::new(0xFF_u8))
        }
    }

    fn state_hashes(
        &self,
        _snapshot: &(),
    ) -> Vec<(ServiceInstanceId, Vec<exonum_dispatcher::types::Hash>)> {
        vec![]
    }

    fn before_commit(&self, _dispatcher: &Dispatcher<Self>, _fork: &mut Fork) {}

    fn after_commit(
        &self,
        _snapshot: &(),
        _service_keypair: &(PublicKey, SecretKey),
        _tx_sender: &mut (),
    ) {
    }
}

/// A runtime without services.
#[derive(Debug, Default)]
struct RustRuntime;

impl Runtime for RustRuntime {
    type Fork = Fork;
    type Snapshot = ();
    type DeployFuture = Box<dyn Future<Item = (), Error = DeployError>>;
    type ApiBuilder = ();
    type ApiSender = ();

    fn deploy_artifact(
        &mut self,
        _: ArtifactId,
    ) -> Box<dyn Future<Item = (), Error = DeployError>> {
        Box::new(Err(DeployError::WrongArtifact).into_future())
    }

    fn wait(future: Box<dyn Future<Item = (), Error = DeployError>>) -> Result<(), DeployError> {
        future.wait()
    }

    fn start_service(&mut self, _: &InstanceSpec) -> Result<(), StartError> {
        Err(StartError::WrongArtifact)
    }

    fn stop_service(&mut self, _: &InstanceSpec) -> Result<(), StartError> {
        Err(StartError::WrongArtifact)
    }

    fn configure_service(&self, _: &mut Fork, _: &InstanceSpec, _: Any) -> Result<(), StartError> {
        Err(StartError::WrongArtifact)
    }

    fn execute(
        &self,
        _: &Dispatcher<Self>,
        _: &mut ExecutionContext<Fork>,
        _: CallInfo,
        _: &[u8],
    ) -> Result<(), ExecutionError> {
        Err(ExecutionError::new(0xFE_u8))
    }

    fn state_hashes(
        &self,
        _: &(),
    ) -> Vec<(ServiceInstanceId, Vec<exonum_dispatcher::types::Hash>)> {
        vec![]
    }

    fn before_commit(&self, _: &Dispatcher<Self>, _: &mut Fork) {}

    fn after_commit(&self, _: &(), _: &(PublicKey, SecretKey), _: &mut ()) {}
}

#[test]
fn test_builder() {
    let runtime_a = SampleRuntime::new(FIRST, 0, 0);
    let runtime_b = SampleRuntime::new(SECOND, 1, 0);

    let dispatcher = DispatcherBuilder::new()
        .with_runtime(runtime_a.runtime_type, runtime_a)
        .with_runtime(runtime_b.runtime_type, runtime_b)
        .finalize();

    assert!(dispatcher.runtimes().get(&FIRST).is_some());
    assert!(dispatcher.runtimes().get(&SECOND).is_some());
}

#[test]
fn test_dispatcher_simple() {
    const RUST_SERVICE_ID: ServiceInstanceId = 2;
    const JAVA_SERVICE_ID: ServiceInstanceId = 3;
    const RUST_SERVICE_NAME: &str = "rust-service";
    const JAVA_SERVICE_NAME: &str = "java-service";
    const RUST_METHOD_ID: MethodId = 0;
    const JAVA_METHOD_ID: MethodId = 1;

    // Create dispatcher and test data.
    let runtime_a = SampleRuntime::new(FIRST, RUST_SERVICE_ID, RUST_METHOD_ID);
    let runtime_b = SampleRuntime::new(SECOND, JAVA_SERVICE_ID, JAVA_METHOD_ID);

    let mut dispatcher = DispatcherBuilder::new()
        .with_runtime(runtime_a.runtime_type, runtime_a)
        .with_runtime(runtime_b.runtime_type, runtime_b)
        .finalize();

    let sample_rust_spec = ArtifactId { runtime_id: FIRST, name: "first".into() };
    let sample_java_spec = ArtifactId { runtime_id: SECOND, name: "second".into() };

    // Check if we can deploy services.
    let mut fork = Fork::default();
    dispatcher
        .register_artifact(&mut fork, sample_rust_spec.clone())
        .expect("Deploy artifact failed for rust");
    dispatcher
        .register_artifact(&mut fork, sample_java_spec.clone())
        .expect("Deploy artifact failed for java");

    // Check if we can init services.
    let mut context = ExecutionContext::new(&mut fork, Caller::Blockchain);

    dispatcher
        .start_service(
            &mut context,
            InstanceSpec {
                artifact: sample_rust_spec.clone(),
                id: RUST_SERVICE_ID,
                name: RUST_SERVICE_NAME.into(),
            },
            Any::default(),
        )
        .expect("start_service failed for rust");

    dispatcher
        .start_service(
            &mut context,
            InstanceSpec {
                artifact: sample_java_spec.clone(),
                id: JAVA_SERVICE_ID,
                name: JAVA_SERVICE_NAME.into(),
            },
            Any::default(),
        )
        .expect("start_service failed for java");

    // Check if we can execute transactions.
    let tx_payload = [0x00_u8; 1];

    dispatcher
        .call(&mut context, CallInfo::new(RUST_SERVICE_ID, RUST_METHOD_ID), &tx_payload)
        .expect("Correct tx rust");

    dispatcher
        .call(&mut context, CallInfo::new(RUST_SERVICE_ID, JAVA_METHOD_ID), &tx_payload)
        .expect_err("Incorrect tx rust");

    dispatcher
        .call(&mut context, CallInfo::new(JAVA_SERVICE_ID, JAVA_METHOD_ID), &tx_payload)
        .expect("Correct tx java");

    dispatcher
        .call(&mut context, CallInfo::new(JAVA_SERVICE_ID, RUST_METHOD_ID), &tx_payload)
        .expect_err("Incorrect tx java");
}

#[test]
fn test_dispatcher_rust_runtime_no_service() {
    const RUST_SERVICE_ID: ServiceInstanceId = 2;
    const RUST_SERVICE_NAME: &str = "rust-service";
    const RUST_METHOD_ID: MethodId = 0;

    // Create dispatcher and test data.
    let mut dispatcher = DispatcherBuilder::new()
        .with_runtime(RUST, RustRuntime::default())
        .finalize();

    let sample_rust_spec = ArtifactId::new(RUST, "foo");

    // Check deploy.
    assert_eq!(
        dispatcher
            .deploy_artifact(sample_rust_spec.clone())
            .wait()
            .expect_err("deploy artifact succeed"),
        DeployError::WrongArtifact
    );

    // Checks if we can start services.
    let mut fork = Fork::default();
    let mut context = ExecutionContext::new(&mut fork, Caller::Blockchain);

    assert_eq!(
        dispatcher
            .start_service(
                &mut context,
                InstanceSpec {
                    artifact: sample_rust_spec.clone(),
                    id: RUST_SERVICE_ID,
                    name: RUST_SERVICE_NAME.into()
                },
                Any::default()
            )
            .expect_err("start service succeed"),
        StartError::WrongArtifact
    );

    // Check if we can execute transactions.
    let tx_payload = [0x00_u8; 1];

    dispatcher
        .call(&mut context, CallInfo::new(RUST_SERVICE_ID, RUST_METHOD_ID), &tx_payload)
        .expect_err("execute succeed");
}
