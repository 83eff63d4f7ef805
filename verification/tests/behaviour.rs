use std::cell::RefCell;
use std::rc::Rc;

use exonum_dispatcher::action::Action;
use exonum_dispatcher::context::ExecutionContext;
use exonum_dispatcher::dispatcher::Dispatcher;
use exonum_dispatcher::error::{
    BuiltinError, DeployError, ErrorKind, ExecutionError, RestoreError, StartError, WRONG_RUNTIME,
};
use exonum_dispatcher::runtime::{Deployment, Runtime};
use exonum_dispatcher::schema::Schema;
use exonum_dispatcher::types::{
    Any, AnyTx, ArtifactId, CallInfo, Caller, InstanceSpec, InternalRequest, PublicKey, SecretKey,
    ServiceInstanceId, Signed,
};

type Log = Rc<RefCell<Vec<String>>>;

fn note(log: &Log, line: String) {
    log.borrow_mut().push(line);
}

fn lines(log: &Log) -> Vec<String> {
    log.borrow_mut().drain(..).collect()
}

/// A fork that refuses the names in `refused`, and lists the others.
struct Fork {
    log: Log,
    refused: Vec<String>,
    artifacts: Vec<(String, u32)>,
    instances: Vec<InstanceSpec>,
    commits: u32,
}

impl Schema for Fork {
    fn add_artifact(&mut self, artifact: ArtifactId) -> Result<(), DeployError> {
        note(&self.log, format!("record artifact {}:{}", artifact.runtime_id, artifact.name));
        if self.refused.contains(&artifact.name) {
            return Err(DeployError::WrongArtifact);
        }
        self.artifacts.push((artifact.name, artifact.runtime_id));
        Ok(())
    }

    fn add_service_instance(&mut self, spec: InstanceSpec) -> Result<(), StartError> {
        note(&self.log, format!("record instance {}:{}", spec.id, spec.name));
        if self.refused.contains(&spec.name) {
            return Err(StartError::WrongArtifact);
        }
        self.instances.push(spec);
        Ok(())
    }
}

/// A runtime that does what it is told and takes notes.
struct Scripted {
    number: u32,
    log: Log,
    deploy: Result<(), DeployError>,
    start: Result<(), StartError>,
    configure: Result<(), StartError>,
    stop: Result<(), StartError>,
    call: Option<u8>,
    leave: RefCell<Vec<Action>>,
}

impl Scripted {
    fn new(number: u32, log: &Log) -> Self {
        Scripted {
            number,
            log: log.clone(),
            deploy: Ok(()),
            start: Ok(()),
            configure: Ok(()),
            stop: Ok(()),
            call: None,
            leave: RefCell::new(Vec::new()),
        }
    }
}

impl Runtime for Scripted {
    type Fork = Fork;
    type Snapshot = u64;
    type DeployFuture = (Log, u32, String, Result<(), DeployError>);
    type ApiBuilder = u32;
    type ApiSender = Vec<String>;

    fn deploy_artifact(&mut self, artifact: ArtifactId) -> Self::DeployFuture {
        note(&self.log, format!("{} deploy {}", self.number, artifact.name));
        (self.log.clone(), self.number, artifact.name, self.deploy)
    }

    fn wait(future: Self::DeployFuture) -> Result<(), DeployError> {
        note(&future.0, format!("{} deployed {}", future.1, future.2));
        future.3
    }

    fn start_service(&mut self, spec: &InstanceSpec) -> Result<(), StartError> {
        note(&self.log, format!("{} start {}", self.number, spec.id));
        self.start
    }

    fn stop_service(&mut self, spec: &InstanceSpec) -> Result<(), StartError> {
        note(&self.log, format!("{} stop {}", self.number, spec.id));
        self.stop
    }

    fn configure_service(
        &self,
        _: &mut Fork,
        spec: &InstanceSpec,
        parameters: Any,
    ) -> Result<(), StartError> {
        note(&self.log, format!("{} configure {} {:?}", self.number, spec.id, parameters.value));
        self.configure
    }

    fn execute(
        &self,
        _: &Dispatcher<Self>,
        context: &mut ExecutionContext<Fork>,
        call_info: CallInfo,
        payload: &[u8],
    ) -> Result<(), ExecutionError> {
        note(
            &self.log,
            format!(
                "{} call {}.{} {:?} {}",
                self.number,
                call_info.instance_id,
                call_info.method_id,
                payload,
                context.caller
                    == Caller::Transaction {
                        author: PublicKey([7; 32]),
                        hash: exonum_dispatcher::types::Hash([9; 32])
                    }
            ),
        );
        context.actions.append(&mut self.leave.borrow_mut());
        match self.call {
            None => Ok(()),
            Some(code) => Err(ExecutionError::new(code)),
        }
    }

    fn state_hashes(
        &self,
        snapshot: &u64,
    ) -> Vec<(ServiceInstanceId, Vec<exonum_dispatcher::types::Hash>)> {
        vec![
            (self.number * 10, vec![exonum_dispatcher::types::Hash([*snapshot as u8; 32])]),
            (self.number * 10 + 1, vec![]),
        ]
    }

    fn services_api(&self) -> Vec<(String, u32)> {
        vec![(format!("service-{}", self.number), self.number)]
    }

    fn before_commit(&self, _: &Dispatcher<Self>, fork: &mut Fork) {
        fork.commits += self.number;
    }

    fn after_commit(
        &self,
        snapshot: &u64,
        _: &(PublicKey, SecretKey),
        tx_sender: &mut Vec<String>,
    ) {
        tx_sender.push(format!("{} committed {}", self.number, snapshot));
    }
}

fn fork(log: &Log) -> Fork {
    Fork {
        log: log.clone(),
        refused: Vec::new(),
        artifacts: Vec::new(),
        instances: Vec::new(),
        commits: 0,
    }
}

fn artifact(runtime_id: u32) -> ArtifactId {
    ArtifactId::new(runtime_id, "artifact")
}

fn instance(runtime_id: u32, id: ServiceInstanceId) -> InstanceSpec {
    InstanceSpec { artifact: artifact(runtime_id), id, name: format!("instance-{}", id) }
}

fn parameters() -> Any {
    Any { type_url: String::new(), value: vec![1, 2] }
}

fn transaction(instance_id: ServiceInstanceId) -> Signed<AnyTx> {
    Signed {
        payload: AnyTx { call_info: CallInfo::new(instance_id, 6), payload: vec![4, 5] },
        author: PublicKey([7; 32]),
    }
}

const TX_ID: exonum_dispatcher::types::Hash = exonum_dispatcher::types::Hash([9; 32]);

fn start(
    dispatcher: &mut Dispatcher<Scripted>,
    fork: &mut Fork,
    spec: InstanceSpec,
) -> Result<(), StartError> {
    let mut context = ExecutionContext::new(fork, Caller::Blockchain);
    dispatcher.start_service(&mut context, spec, parameters())
}

/// Executes a transaction to the end, and notes each request when it is sent.
fn run(
    dispatcher: &mut Dispatcher<Scripted>,
    fork: &mut Fork,
    tx: &Signed<AnyTx>,
) -> Result<(), ExecutionError> {
    let log = fork.log.clone();
    let send = |dispatcher: &mut Dispatcher<Scripted>| {
        for request in dispatcher.take_requests() {
            note(&log, format!("send {:?}", request));
        }
    };
    let mut context = dispatcher.execute(fork, TX_ID, tx)?;
    send(dispatcher);
    while !context.actions.is_empty() {
        dispatcher.resume(&mut context)?;
        send(dispatcher);
    }
    Ok(())
}

#[test]
fn the_last_of_several_runtimes_is_kept() {
    let log = Log::default();
    let dispatcher = Dispatcher::with_runtimes(vec![
        (1, Scripted::new(10, &log)),
        (2, Scripted::new(20, &log)),
        (1, Scripted::new(30, &log)),
    ]);
    assert_eq!(dispatcher.runtimes().len(), 2);
    assert_eq!(dispatcher.runtimes()[&1].number, 30);
    assert_eq!(dispatcher.runtimes()[&2].number, 20);
}

#[test]
fn deployment_goes_to_the_runtime_of_the_artifact() {
    let log = Log::default();
    let mut dispatcher = Dispatcher::with_runtimes(vec![
        (1, Scripted::new(1, &log)),
        (2, Scripted::new(2, &log)),
    ]);
    let deployment = dispatcher.deploy_artifact(artifact(2));
    assert_eq!(lines(&log), vec!["2 deploy artifact"]);
    assert_eq!(deployment.wait(), Ok(()));
    assert_eq!(lines(&log), vec!["2 deployed artifact"]);
}

#[test]
fn deployment_without_a_runtime_fails() {
    let log = Log::default();
    let mut dispatcher = Dispatcher::with_runtimes(vec![(1, Scripted::new(1, &log))]);
    let deployment = dispatcher.deploy_artifact(artifact(2));
    assert!(matches!(deployment, Deployment::Failed(DeployError::WrongRuntime)));
    assert_eq!(deployment.wait(), Err(DeployError::WrongRuntime));
    assert!(lines(&log).is_empty());
}

#[test]
fn a_failed_deployment_keeps_its_error() {
    let deployment: Deployment<Scripted> = Deployment::Failed(DeployError::WrongArtifact);
    assert_eq!(deployment.wait(), Err(DeployError::WrongArtifact));
}

#[test]
fn an_artifact_is_recorded_once_it_is_deployed() {
    let log = Log::default();
    let mut fork = fork(&log);
    let mut dispatcher = Dispatcher::with_runtimes(vec![(1, Scripted::new(1, &log))]);
    assert_eq!(dispatcher.register_artifact(&mut fork, artifact(1)), Ok(()));
    assert_eq!(
        lines(&log),
        vec!["1 deploy artifact", "1 deployed artifact", "record artifact 1:artifact"]
    );
}

#[test]
fn an_artifact_that_is_not_deployed_is_not_recorded() {
    let log = Log::default();
    let mut fork = fork(&log);
    let mut runtime = Scripted::new(1, &log);
    runtime.deploy = Err(DeployError::WrongArtifact);
    let mut dispatcher = Dispatcher::with_runtimes(vec![(1, runtime)]);
    assert_eq!(
        dispatcher.register_artifact(&mut fork, artifact(1)),
        Err(DeployError::WrongArtifact)
    );
    assert_eq!(lines(&log), vec!["1 deploy artifact", "1 deployed artifact"]);
    assert_eq!(
        dispatcher.register_artifact(&mut fork, artifact(2)),
        Err(DeployError::WrongRuntime)
    );
    assert!(lines(&log).is_empty());
}

#[test]
fn a_refused_record_is_the_result_of_the_registration() {
    let log = Log::default();
    let mut fork = fork(&log);
    fork.refused.push("artifact".into());
    let mut dispatcher = Dispatcher::with_runtimes(vec![(1, Scripted::new(1, &log))]);
    assert_eq!(
        dispatcher.register_artifact(&mut fork, artifact(1)),
        Err(DeployError::WrongArtifact)
    );
    assert_eq!(lines(&log).last().unwrap(), "record artifact 1:artifact");
}

#[test]
fn a_service_is_started_configured_and_recorded() {
    let log = Log::default();
    let mut fork = fork(&log);
    let mut dispatcher = Dispatcher::with_runtimes(vec![
        (1, Scripted::new(1, &log)),
        (2, Scripted::new(2, &log)),
    ]);
    assert_eq!(start(&mut dispatcher, &mut fork, instance(2, 5)), Ok(()));
    assert_eq!(
        lines(&log),
        vec!["2 start 5", "2 configure 5 [1, 2]", "record instance 5:instance-5"]
    );
    assert!(dispatcher.take_requests().is_empty());

    let mut context = ExecutionContext::new(&mut fork, Caller::Blockchain);
    assert_eq!(dispatcher.call(&mut context, CallInfo::new(5, 1), &[8]), Ok(()));
    assert_eq!(lines(&log), vec!["2 call 5.1 [8] false"]);
}

#[test]
fn the_identifier_of_the_core_is_refused() {
    let log = Log::default();
    let mut fork = fork(&log);
    let mut dispatcher = Dispatcher::with_runtimes(vec![(1, Scripted::new(1, &log))]);
    assert_eq!(
        start(&mut dispatcher, &mut fork, instance(1, 0)),
        Err(StartError::ServiceIdExists)
    );
    assert!(lines(&log).is_empty());
}

#[test]
fn an_identifier_is_used_once() {
    let log = Log::default();
    let mut fork = fork(&log);
    let mut dispatcher = Dispatcher::with_runtimes(vec![
        (1, Scripted::new(1, &log)),
        (2, Scripted::new(2, &log)),
    ]);
    assert_eq!(start(&mut dispatcher, &mut fork, instance(1, 5)), Ok(()));
    lines(&log);
    assert_eq!(
        start(&mut dispatcher, &mut fork, instance(2, 5)),
        Err(StartError::ServiceIdExists)
    );
    assert!(lines(&log).is_empty());
    // An identifier in use comes before a runtime that is not there.
    assert_eq!(
        start(&mut dispatcher, &mut fork, instance(9, 5)),
        Err(StartError::ServiceIdExists)
    );
}

#[test]
fn a_service_without_a_runtime_is_not_started() {
    let log = Log::default();
    let mut fork = fork(&log);
    let mut dispatcher = Dispatcher::with_runtimes(vec![(1, Scripted::new(1, &log))]);
    assert_eq!(start(&mut dispatcher, &mut fork, instance(2, 5)), Err(StartError::WrongRuntime));
    assert!(lines(&log).is_empty());
    // The identifier is still free.
    assert_eq!(start(&mut dispatcher, &mut fork, instance(1, 5)), Ok(()));
}

#[test]
fn a_service_that_does_not_start_is_not_running() {
    let log = Log::default();
    let mut fork = fork(&log);
    let mut runtime = Scripted::new(1, &log);
    runtime.start = Err(StartError::WrongArtifact);
    let mut dispatcher = Dispatcher::with_runtimes(vec![(1, runtime)]);
    assert_eq!(start(&mut dispatcher, &mut fork, instance(1, 5)), Err(StartError::WrongArtifact));
    assert_eq!(lines(&log), vec!["1 start 5"]);
    let mut context = ExecutionContext::new(&mut fork, Caller::Blockchain);
    assert!(dispatcher.call(&mut context, CallInfo::new(5, 1), &[]).is_err());
}

#[test]
fn a_service_that_is_neither_configured_nor_stopped_is_not_running() {
    let log = Log::default();
    let mut fork = fork(&log);
    let mut runtime = Scripted::new(1, &log);
    runtime.configure = Err(StartError::WrongArtifact);
    runtime.stop = Err(StartError::WrongRuntime);
    let mut dispatcher = Dispatcher::with_runtimes(vec![(1, runtime)]);
    assert_eq!(start(&mut dispatcher, &mut fork, instance(1, 5)), Err(StartError::WrongRuntime));
    assert_eq!(lines(&log), vec!["1 start 5", "1 configure 5 [1, 2]", "1 stop 5"]);
    assert_eq!(start(&mut dispatcher, &mut fork, instance(1, 5)), Err(StartError::WrongRuntime));
}

#[test]
fn a_service_that_cannot_be_configured_is_stopped_and_not_recorded() {
    let log = Log::default();
    let mut fork = fork(&log);
    let mut runtime = Scripted::new(1, &log);
    runtime.configure = Err(StartError::WrongArtifact);
    let mut dispatcher = Dispatcher::with_runtimes(vec![(1, runtime)]);
    assert_eq!(start(&mut dispatcher, &mut fork, instance(1, 5)), Err(StartError::WrongArtifact));
    assert_eq!(lines(&log), vec!["1 start 5", "1 configure 5 [1, 2]", "1 stop 5"]);
    assert!(fork.instances.is_empty());
    // It is not running, and its identifier is still free.
    let mut context = ExecutionContext::new(&mut fork, Caller::Blockchain);
    assert!(dispatcher.call(&mut context, CallInfo::new(5, 1), &[]).is_err());
    assert_eq!(start(&mut dispatcher, &mut fork, instance(1, 5)), Err(StartError::WrongArtifact));
    assert_eq!(lines(&log), vec!["1 start 5", "1 configure 5 [1, 2]", "1 stop 5"]);
}

#[test]
fn errors_of_a_runtime_are_passed_on() {
    let log = Log::default();
    let mut fork = fork(&log);
    let mut runtime = Scripted::new(1, &log);
    runtime.deploy = Err(DeployError::Other(12));
    runtime.start = Err(StartError::Other(13));
    let mut dispatcher = Dispatcher::with_runtimes(vec![(1, runtime)]);
    assert_eq!(
        dispatcher.register_artifact(&mut fork, artifact(1)),
        Err(DeployError::Other(12))
    );
    assert_eq!(start(&mut dispatcher, &mut fork, instance(1, 5)), Err(StartError::Other(13)));
    assert!(fork.artifacts.is_empty());
    assert!(fork.instances.is_empty());
}

#[test]
fn a_service_runs_though_its_record_is_refused() {
    let log = Log::default();
    let mut fork = fork(&log);
    fork.refused.push("instance-5".into());
    let mut dispatcher = Dispatcher::with_runtimes(vec![(1, Scripted::new(1, &log))]);
    assert_eq!(start(&mut dispatcher, &mut fork, instance(1, 5)), Err(StartError::WrongArtifact));
    let mut context = ExecutionContext::new(&mut fork, Caller::Blockchain);
    assert_eq!(dispatcher.call(&mut context, CallInfo::new(5, 1), &[]), Ok(()));
    assert_eq!(
        start(&mut dispatcher, &mut fork, instance(1, 5)),
        Err(StartError::ServiceIdExists)
    );
}

#[test]
fn a_call_of_an_unknown_instance_is_refused() {
    let log = Log::default();
    let mut fork = fork(&log);
    let dispatcher = Dispatcher::with_runtimes(vec![(1, Scripted::new(1, &log))]);
    let mut context = ExecutionContext::new(&mut fork, Caller::Blockchain);
    assert_eq!(
        dispatcher.call(&mut context, CallInfo::new(5, 1), &[]),
        Err(ExecutionError { kind: WRONG_RUNTIME, description: Some("Wrong runtime".into()) })
    );
    assert!(lines(&log).is_empty());
}

#[test]
fn a_transaction_makes_its_call_and_carries_out_the_actions() {
    let log = Log::default();
    let mut fork = fork(&log);
    let runtime = Scripted::new(1, &log);
    runtime.leave.borrow_mut().push(Action::DeployArtifact { artifact: artifact(1) });
    runtime.leave.borrow_mut().push(Action::RegisterArtifact { artifact: artifact(1) });
    runtime
        .leave
        .borrow_mut()
        .push(Action::StartService { spec: instance(1, 6), config: parameters() });
    runtime
        .leave
        .borrow_mut()
        .push(Action::StartService { spec: instance(1, 7), config: Any::default() });
    let mut dispatcher = Dispatcher::with_runtimes(vec![(1, runtime)]);
    assert_eq!(start(&mut dispatcher, &mut fork, instance(1, 5)), Ok(()));
    lines(&log);

    assert_eq!(run(&mut dispatcher, &mut fork, &transaction(5)), Ok(()));
    assert_eq!(
        lines(&log),
        vec![
            "1 call 5.6 [4, 5] true",
            "1 deploy artifact",
            "1 deployed artifact",
            "1 deploy artifact",
            "1 deployed artifact",
            "record artifact 1:artifact",
            "1 start 6",
            "1 configure 6 [1, 2]",
            "record instance 6:instance-6",
            "send RestartApi",
            "1 start 7",
            "1 configure 7 []",
            "record instance 7:instance-7",
            "send RestartApi",
        ]
    );
    assert!(dispatcher.take_requests().is_empty());
}

#[test]
fn a_failed_call_leaves_no_action_to_carry_out() {
    let log = Log::default();
    let mut fork = fork(&log);
    let mut runtime = Scripted::new(1, &log);
    runtime.call = Some(3);
    runtime.leave.borrow_mut().push(Action::DeployArtifact { artifact: artifact(1) });
    let mut dispatcher = Dispatcher::with_runtimes(vec![(1, runtime)]);
    assert_eq!(start(&mut dispatcher, &mut fork, instance(1, 5)), Ok(()));
    lines(&log);
    assert_eq!(
        run(&mut dispatcher, &mut fork, &transaction(5)),
        Err(ExecutionError { kind: ErrorKind::Service(3), description: None })
    );
    assert_eq!(lines(&log), vec!["1 call 5.6 [4, 5] true"]);
}

#[test]
fn a_transaction_to_an_unknown_instance_is_refused() {
    let log = Log::default();
    let mut fork = fork(&log);
    let mut dispatcher = Dispatcher::with_runtimes(vec![(1, Scripted::new(1, &log))]);
    let error = run(&mut dispatcher, &mut fork, &transaction(5)).unwrap_err();
    assert_eq!(error.kind, ErrorKind::WrongRuntime);
    assert_eq!(error.description.unwrap(), "Wrong runtime");
    assert!(lines(&log).is_empty());
}

#[test]
fn the_first_action_that_fails_is_the_last() {
    let log = Log::default();
    let mut fork = fork(&log);
    let runtime = Scripted::new(1, &log);
    runtime
        .leave
        .borrow_mut()
        .push(Action::StartService { spec: instance(1, 6), config: parameters() });
    runtime
        .leave
        .borrow_mut()
        .push(Action::StartService { spec: instance(1, 6), config: parameters() });
    runtime.leave.borrow_mut().push(Action::DeployArtifact { artifact: artifact(1) });
    let mut dispatcher = Dispatcher::with_runtimes(vec![(1, runtime)]);
    assert_eq!(start(&mut dispatcher, &mut fork, instance(1, 5)), Ok(()));
    lines(&log);
    assert_eq!(
        run(&mut dispatcher, &mut fork, &transaction(5)),
        Err(ExecutionError {
            kind: ErrorKind::Start(StartError::ServiceIdExists),
            description: None
        })
    );
    assert_eq!(
        lines(&log),
        vec![
            "1 call 5.6 [4, 5] true",
            "1 start 6",
            "1 configure 6 [1, 2]",
            "record instance 6:instance-6",
            "send RestartApi",
        ]
    );
    // What was done before the failure stands.
    assert!(dispatcher.take_requests().is_empty());
    let mut context = ExecutionContext::new(&mut fork, Caller::Blockchain);
    assert_eq!(dispatcher.call(&mut context, CallInfo::new(6, 1), &[]), Ok(()));
}

#[test]
fn no_action_is_carried_out_while_a_request_waits() {
    let log = Log::default();
    let mut fork = fork(&log);
    let runtime = Scripted::new(1, &log);
    runtime
        .leave
        .borrow_mut()
        .push(Action::StartService { spec: instance(1, 6), config: parameters() });
    runtime.leave.borrow_mut().push(Action::DeployArtifact { artifact: artifact(1) });
    runtime.leave.borrow_mut().push(Action::RegisterArtifact { artifact: artifact(1) });
    let mut dispatcher = Dispatcher::with_runtimes(vec![(1, runtime)]);
    assert_eq!(start(&mut dispatcher, &mut fork, instance(1, 5)), Ok(()));
    lines(&log);

    let mut context = dispatcher.execute(&mut fork, TX_ID, &transaction(5)).unwrap();
    assert_eq!(context.actions.len(), 2);
    assert_eq!(
        lines(&log),
        vec![
            "1 call 5.6 [4, 5] true",
            "1 start 6",
            "1 configure 6 [1, 2]",
            "record instance 6:instance-6",
        ]
    );
    // The request has not been taken yet.
    assert_eq!(dispatcher.resume(&mut context), Ok(()));
    assert_eq!(context.actions.len(), 2);
    assert!(lines(&log).is_empty());

    assert_eq!(dispatcher.take_requests(), vec![InternalRequest::RestartApi]);
    assert_eq!(dispatcher.resume(&mut context), Ok(()));
    assert!(context.actions.is_empty());
    assert_eq!(
        lines(&log),
        vec![
            "1 deploy artifact",
            "1 deployed artifact",
            "1 deploy artifact",
            "1 deployed artifact",
            "record artifact 1:artifact",
        ]
    );
    assert!(dispatcher.take_requests().is_empty());
    assert_eq!(fork.artifacts, vec![("artifact".to_string(), 1)]);
}

#[test]
fn after_a_failure_the_actions_that_are_left_are_given_up() {
    let log = Log::default();
    let mut fork = fork(&log);
    let mut dispatcher = Dispatcher::with_runtimes(vec![(1, Scripted::new(1, &log))]);
    let mut context = ExecutionContext::new(&mut fork, Caller::Blockchain);
    context.actions.push(Action::DeployArtifact { artifact: artifact(2) });
    context.actions.push(Action::DeployArtifact { artifact: artifact(1) });
    assert_eq!(
        dispatcher.resume(&mut context),
        Err(ExecutionError::from(DeployError::WrongRuntime))
    );
    assert!(context.actions.is_empty());
    assert!(lines(&log).is_empty());
}

#[test]
fn the_core_is_not_callable() {
    let log = Log::default();
    let mut fork = fork(&log);
    let mut dispatcher = Dispatcher::with_runtimes(vec![(1, Scripted::new(1, &log))]);
    assert!(start(&mut dispatcher, &mut fork, instance(1, 0)).is_err());
    assert!(dispatcher.add_builtin_service(&mut fork, instance(1, 0), parameters()).is_err());
    assert_eq!(start(&mut dispatcher, &mut fork, instance(1, 5)), Ok(()));
    let mut context = ExecutionContext::new(&mut fork, Caller::Blockchain);
    for id in [0, 6] {
        assert_eq!(
            dispatcher.call(&mut context, CallInfo::new(id, 1), &[]).unwrap_err().kind,
            WRONG_RUNTIME
        );
    }
}

#[test]
fn what_is_gathered_is_what_each_runtime_gives() {
    let log = Log::default();
    let made = |numbers: &[u32]| -> Dispatcher<Scripted> {
        Dispatcher::with_runtimes(numbers.iter().map(|n| (*n, Scripted::new(*n, &log))).collect())
    };
    let ids = |dispatcher: &Dispatcher<Scripted>| -> Vec<u32> {
        dispatcher.state_hashes(&8).iter().map(|pair| pair.0).collect()
    };
    let mut apart = ids(&made(&[1, 2]));
    apart.append(&mut ids(&made(&[3])));
    let mut together = ids(&made(&[1, 2, 3]));
    apart.sort();
    together.sort();
    assert_eq!(apart, together);

    let mut apart = made(&[1, 2]).services_api();
    apart.append(&mut made(&[3]).services_api());
    let mut together = made(&[1, 2, 3]).services_api();
    apart.sort();
    together.sort();
    assert_eq!(apart, together);
}

#[test]
fn actions_report_deployment_errors() {
    let log = Log::default();
    let mut fork = fork(&log);
    let mut dispatcher = Dispatcher::with_runtimes(vec![(1, Scripted::new(1, &log))]);
    let mut context = ExecutionContext::new(&mut fork, Caller::Blockchain);
    let wrong = ExecutionError {
        kind: ErrorKind::Deploy(DeployError::WrongRuntime),
        description: None,
    };
    assert_eq!(
        Action::DeployArtifact { artifact: artifact(2) }.execute(&mut dispatcher, &mut context),
        Err(wrong)
    );
    assert_eq!(
        Action::RegisterArtifact { artifact: artifact(2) }.execute(&mut dispatcher, &mut context),
        Err(ExecutionError::from(DeployError::WrongRuntime))
    );
}

#[test]
fn actions_are_taken_out_of_the_context_once() {
    let log = Log::default();
    let mut fork = fork(&log);
    let mut context = ExecutionContext::new(&mut fork, Caller::Blockchain);
    context.actions.push(Action::DeployArtifact { artifact: artifact(1) });
    assert_eq!(context.take_actions().len(), 1);
    assert!(context.take_actions().is_empty());
}

#[test]
fn a_builtin_service_is_registered_and_started() {
    let log = Log::default();
    let mut fork = fork(&log);
    let mut dispatcher = Dispatcher::with_runtimes(vec![(1, Scripted::new(1, &log))]);
    assert_eq!(dispatcher.add_builtin_service(&mut fork, instance(1, 5), parameters()), Ok(()));
    assert_eq!(
        lines(&log),
        vec![
            "1 deploy artifact",
            "1 deployed artifact",
            "record artifact 1:artifact",
            "1 start 5",
            "1 configure 5 [1, 2]",
            "record instance 5:instance-5",
        ]
    );
}

#[test]
fn a_builtin_service_may_fail() {
    let log = Log::default();
    let mut fork = fork(&log);
    let mut dispatcher = Dispatcher::with_runtimes(vec![(1, Scripted::new(1, &log))]);
    assert_eq!(
        dispatcher.add_builtin_service(&mut fork, instance(2, 5), parameters()),
        Err(BuiltinError::Register(DeployError::WrongRuntime))
    );
    assert!(lines(&log).is_empty());
    assert_eq!(
        dispatcher.add_builtin_service(&mut fork, instance(1, 0), parameters()),
        Err(BuiltinError::Start(StartError::ServiceIdExists))
    );
}

#[test]
fn restoring_deploys_artifacts_and_restarts_instances() {
    let log = Log::default();
    let mut fork = fork(&log);
    let mut dispatcher = Dispatcher::with_runtimes(vec![
        (1, Scripted::new(1, &log)),
        (2, Scripted::new(2, &log)),
    ]);
    assert_eq!(
        dispatcher.restore_state(
            vec![("a".into(), 1), ("b".into(), 2)],
            vec![instance(2, 6), instance(1, 5)],
        ),
        Ok(())
    );
    assert_eq!(
        lines(&log),
        vec![
            "1 deploy a",
            "1 deployed a",
            "2 deploy b",
            "2 deployed b",
            "2 start 6",
            "1 start 5",
        ]
    );
    // The instances are running, and their identifiers are in use.
    let mut context = ExecutionContext::new(&mut fork, Caller::Blockchain);
    assert_eq!(dispatcher.call(&mut context, CallInfo::new(5, 1), &[]), Ok(()));
    assert_eq!(dispatcher.call(&mut context, CallInfo::new(6, 2), &[3]), Ok(()));
    assert_eq!(lines(&log), vec!["1 call 5.1 [] false", "2 call 6.2 [3] false"]);
    assert_eq!(
        start(&mut dispatcher, &mut fork, instance(1, 6)),
        Err(StartError::ServiceIdExists)
    );
    assert!(lines(&log).is_empty());
    assert!(dispatcher.take_requests().is_empty());
}

#[test]
fn of_instances_saved_under_one_identifier_the_last_is_called() {
    let log = Log::default();
    let mut fork = fork(&log);
    let mut dispatcher = Dispatcher::with_runtimes(vec![
        (1, Scripted::new(1, &log)),
        (2, Scripted::new(2, &log)),
    ]);
    assert_eq!(dispatcher.restore_state(vec![], vec![instance(1, 5), instance(2, 5)]), Ok(()));
    lines(&log);
    let mut context = ExecutionContext::new(&mut fork, Caller::Blockchain);
    assert_eq!(dispatcher.call(&mut context, CallInfo::new(5, 1), &[]), Ok(()));
    assert_eq!(lines(&log), vec!["2 call 5.1 [] false"]);
}

#[test]
fn what_one_dispatcher_records_another_restores() {
    let log = Log::default();
    let mut fork = fork(&log);
    fork.refused.push("instance-7".into());
    let mut first = Dispatcher::with_runtimes(vec![
        (1, Scripted::new(1, &log)),
        (2, Scripted::new(2, &log)),
    ]);
    assert_eq!(first.register_artifact(&mut fork, artifact(1)), Ok(()));
    assert_eq!(first.add_builtin_service(&mut fork, instance(2, 5), parameters()), Ok(()));
    assert_eq!(start(&mut first, &mut fork, instance(1, 6)), Ok(()));
    assert_eq!(start(&mut first, &mut fork, instance(1, 7)), Err(StartError::WrongArtifact));
    assert_eq!(start(&mut first, &mut fork, instance(3, 8)), Err(StartError::WrongRuntime));
    lines(&log);

    let mut second = Dispatcher::with_runtimes(vec![
        (1, Scripted::new(1, &log)),
        (2, Scripted::new(2, &log)),
    ]);
    assert_eq!(second.restore_state(fork.artifacts.clone(), fork.instances.clone()), Ok(()));
    assert_eq!(
        lines(&log),
        vec![
            "1 deploy artifact",
            "1 deployed artifact",
            "2 deploy artifact",
            "2 deployed artifact",
            "2 start 5",
            "1 start 6",
        ]
    );
    let mut context = ExecutionContext::new(&mut fork, Caller::Blockchain);
    assert_eq!(second.call(&mut context, CallInfo::new(5, 1), &[]), Ok(()));
    assert_eq!(second.call(&mut context, CallInfo::new(6, 1), &[]), Ok(()));
    assert_eq!(lines(&log), vec!["2 call 5.1 [] false", "1 call 6.1 [] false"]);
    // What was not recorded is not restored.
    assert!(second.call(&mut context, CallInfo::new(7, 1), &[]).is_err());
    assert!(second.call(&mut context, CallInfo::new(8, 1), &[]).is_err());
}

#[test]
fn a_deployment_that_is_not_a_registration_leaves_the_fork_as_it_is() {
    let log = Log::default();
    let mut fork = fork(&log);
    let mut dispatcher = Dispatcher::with_runtimes(vec![(1, Scripted::new(1, &log))]);
    let mut context = ExecutionContext::new(&mut fork, Caller::Blockchain);
    assert_eq!(
        Action::DeployArtifact { artifact: artifact(1) }.execute(&mut dispatcher, &mut context),
        Ok(())
    );
    assert!(fork.artifacts.is_empty());
    assert_eq!(lines(&log), vec!["1 deploy artifact", "1 deployed artifact"]);
    let mut context = ExecutionContext::new(&mut fork, Caller::Blockchain);
    assert_eq!(
        Action::RegisterArtifact { artifact: artifact(1) }.execute(&mut dispatcher, &mut context),
        Ok(())
    );
    assert_eq!(fork.artifacts, vec![("artifact".to_string(), 1)]);
}

#[test]
fn restoring_stops_at_the_first_failure() {
    let log = Log::default();
    let mut dispatcher = Dispatcher::with_runtimes(vec![(1, Scripted::new(1, &log))]);
    assert_eq!(
        dispatcher.restore_state(
            vec![("a".into(), 1), ("b".into(), 2), ("c".into(), 1)],
            vec![instance(1, 5)],
        ),
        Err(RestoreError::Deploy(DeployError::WrongRuntime))
    );
    assert_eq!(lines(&log), vec!["1 deploy a", "1 deployed a"]);
    assert_eq!(
        dispatcher.restore_state(vec![], vec![instance(1, 5), instance(2, 6), instance(1, 7)]),
        Err(RestoreError::Restart(StartError::WrongRuntime))
    );
    assert_eq!(lines(&log), vec!["1 start 5"]);
    assert_eq!(dispatcher.restore_state(vec![], vec![]), Ok(()));
}

#[test]
fn hashes_and_apis_are_gathered_from_all_runtimes() {
    let log = Log::default();
    let dispatcher = Dispatcher::with_runtimes(vec![
        (1, Scripted::new(1, &log)),
        (2, Scripted::new(2, &log)),
    ]);
    let mut ids: Vec<u32> = dispatcher.state_hashes(&8).iter().map(|pair| pair.0).collect();
    // The hashes of one runtime stay together.
    assert_eq!(ids[0] + 1, ids[1]);
    assert_eq!(ids[2] + 1, ids[3]);
    ids.sort();
    assert_eq!(ids, vec![10, 11, 20, 21]);
    assert!(dispatcher
        .state_hashes(&8)
        .contains(&(20, vec![exonum_dispatcher::types::Hash([8; 32])])));

    let mut api = dispatcher.services_api();
    api.sort();
    assert_eq!(api, vec![("service-1".to_string(), 1), ("service-2".to_string(), 2)]);
}

#[test]
fn all_runtimes_take_part_in_a_commit() {
    let log = Log::default();
    let mut fork = fork(&log);
    let dispatcher = Dispatcher::with_runtimes(vec![
        (1, Scripted::new(1, &log)),
        (2, Scripted::new(2, &log)),
        (4, Scripted::new(4, &log)),
    ]);
    dispatcher.before_commit(&mut fork);
    assert_eq!(fork.commits, 7);

    let mut told: Vec<String> = Vec::new();
    dispatcher.after_commit(3, &(PublicKey([1; 32]), SecretKey([2; 64])), &mut told);
    // Each runtime is told once.
    told.sort();
    assert_eq!(told, vec!["1 committed 3", "2 committed 3", "4 committed 3"]);
}

#[test]
fn a_dispatcher_without_runtimes_gives_nothing() {
    let dispatcher: Dispatcher<Scripted> = Dispatcher::with_runtimes(Vec::new());
    assert!(dispatcher.state_hashes(&1).is_empty());
    assert!(dispatcher.services_api().is_empty());
}
