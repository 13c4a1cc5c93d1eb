use bebop::rushb::{DmaOperation, RushCommand, RushEvent, RushEventKind, RushResponse, WaitMode};
use bebop::runtime::{LoopAction, Rejection, RushBackend, RushMessage, RushRequest, RushRuntime, RuntimeError, WaitPhase};
use std::collections::VecDeque;

struct FakeBackend {
    submitted: Vec<(u64, u32)>,
    events: VecDeque<RushEvent>,
    cycles: u64,
    shutdown: bool,
}

impl RushBackend for FakeBackend {
    type Prepared = ();

    fn prepare(&mut self, _command: &mut RushCommand, _dma: DmaOperation) -> Result<(), String> {
        Ok(())
    }

    fn submit(&mut self, command: &RushCommand) -> Result<(), String> {
        self.submitted.push((command.id, command.core_id));
        self.events.push_back(RushEvent { command_id: command.id, core_id: command.core_id, kind: RushEventKind::Accepted });
        self.events.push_back(RushEvent { command_id: command.id, core_id: command.core_id, kind: RushEventKind::Completed });
        Ok(())
    }

    fn poll_event(&mut self) -> Result<Option<RushEvent>, String> {
        Ok(self.events.pop_front())
    }

    fn finish(&mut self, _command: &RushCommand, _prepared: ()) -> Result<RushResponse, String> {
        Ok(RushResponse::empty())
    }

    fn tick(&mut self) -> Result<(), String> {
        self.cycles += 1;
        Ok(())
    }

    fn cycles(&self) -> u64 {
        self.cycles
    }

    fn is_idle(&self) -> bool {
        self.events.is_empty()
    }

    fn reset_idle_resources(&mut self) {}

    fn diagnostics(&self, _core_id: u32) -> String {
        "fake-backend".to_string()
    }

    fn shutdown(&mut self) -> Result<(), String> {
        self.shutdown = true;
        Ok(())
    }
}

fn backend() -> FakeBackend {
    FakeBackend { submitted: Vec::new(), events: VecDeque::new(), cycles: 0, shutdown: false }
}

fn request(id: u64, core_id: u32, wait: WaitMode) -> RushRequest<u64> {
    RushRequest {
        command: RushCommand { id, core_id, xs1: 1, xs2: 2, funct7: 3 },
        wait,
        dma: DmaOperation::NoDma,
        response: id,
    }
}

#[test]
fn rejects_unknown_completion_ids() {
    let mut backend = backend();
    let mut runtime: RushRuntime<u64, ()> = RushRuntime::new(100);
    let error = runtime
        .process_event(&mut backend, RushEvent { command_id: 99, core_id: 0, kind: RushEventKind::Completed })
        .unwrap_err();
    let error = error.message();
    assert!(error.contains("unknown Core") || error.contains("unknown or duplicate command 99"));
}

#[test]
fn schedules_one_command_per_core_and_answers_at_completion() {
    let mut backend = backend();
    let mut runtime: RushRuntime<u64, ()> = RushRuntime::new(100);
    let mut shutdown: Option<()> = None;
    assert!(runtime.handle_message(RushMessage::Command(request(7, 65_536, WaitMode::Completed)), &mut shutdown).unwrap().is_none());
    assert!(runtime.handle_message(RushMessage::Command(request(8, 65_536, WaitMode::Completed)), &mut shutdown).unwrap().is_none());
    runtime.submit_available(&mut backend).unwrap();
    assert_eq!(backend.submitted, vec![(7, 65_536)]);
    let accepted = backend.poll_event().unwrap().unwrap();
    assert!(runtime.process_event(&mut backend, accepted).unwrap().is_none());
    runtime.submit_available(&mut backend).unwrap();
    assert_eq!(backend.submitted.len(), 1);
    let completed = backend.poll_event().unwrap().unwrap();
    let reply = runtime.process_event(&mut backend, completed).unwrap().unwrap();
    assert_eq!(reply.0, 7);
    runtime.submit_available(&mut backend).unwrap();
    assert_eq!(backend.submitted, vec![(7, 65_536), (8, 65_536)]);
    assert!(!runtime.is_drained(backend.is_idle()));
}

#[test]
fn answers_at_acceptance_and_consumes_the_later_completion() {
    let mut backend = backend();
    let mut runtime: RushRuntime<u64, ()> = RushRuntime::new(100);
    let mut shutdown: Option<()> = None;
    runtime.handle_message(RushMessage::Command(request(3, 1, WaitMode::Accepted)), &mut shutdown).unwrap();
    runtime.submit_available(&mut backend).unwrap();
    let accepted = backend.poll_event().unwrap().unwrap();
    let reply = runtime.process_event(&mut backend, accepted).unwrap().unwrap();
    assert_eq!(reply.0, 3);
    assert!(!runtime.is_drained(true));
    let completed = backend.poll_event().unwrap().unwrap();
    assert!(runtime.process_event(&mut backend, completed).unwrap().is_none());
    assert!(runtime.is_drained(true));
}

#[test]
fn refuses_duplicate_ids_and_commands_after_shutdown() {
    let mut runtime: RushRuntime<u64, ()> = RushRuntime::new(100);
    let mut shutdown: Option<()> = None;
    runtime.handle_message(RushMessage::Command(request(5, 0, WaitMode::Completed)), &mut shutdown).unwrap();
    let refused = runtime.handle_message(RushMessage::Command(request(5, 0, WaitMode::Completed)), &mut shutdown).unwrap();
    assert!(matches!(refused, Some((5, Rejection::DuplicateId(5)))));
    assert!(runtime.handle_message(RushMessage::Shutdown(()), &mut shutdown).unwrap().is_none());
    let refused = runtime.handle_message(RushMessage::Command(request(6, 0, WaitMode::Completed)), &mut shutdown).unwrap();
    assert!(matches!(refused, Some((6, Rejection::ShuttingDown))));
    let again = runtime.handle_message(RushMessage::Shutdown(()), &mut shutdown);
    assert!(matches!(again, Err(RuntimeError::DuplicateShutdown)));
}

#[test]
fn times_out_a_command_that_is_never_accepted() {
    let mut backend = backend();
    let mut runtime: RushRuntime<u64, ()> = RushRuntime::new(2);
    let mut shutdown: Option<()> = None;
    runtime.handle_message(RushMessage::Command(request(1, 4, WaitMode::Completed)), &mut shutdown).unwrap();
    runtime.submit_available(&mut backend).unwrap();
    assert!(runtime.check_timeouts(&backend).is_ok());
    backend.tick().unwrap();
    backend.tick().unwrap();
    let error = runtime.check_timeouts(&backend).unwrap_err();
    assert!(error.message().contains("timed out waiting for acceptance: command=1 core=4"));
}

#[test]
fn acceptance_of_another_command_is_an_error() {
    let mut backend = backend();
    let mut runtime: RushRuntime<u64, ()> = RushRuntime::new(100);
    let mut shutdown: Option<()> = None;
    runtime.handle_message(RushMessage::Command(request(1, 0, WaitMode::Completed)), &mut shutdown).unwrap();
    runtime.submit_available(&mut backend).unwrap();
    let error = runtime
        .process_event(&mut backend, RushEvent { command_id: 2, core_id: 0, kind: RushEventKind::Accepted })
        .unwrap_err();
    assert_eq!(error.message(), "rushB acceptance id mismatch: expected=1 actual=2");
}

/// Runs the library's loop steps over the messages the host has sent, as
/// the service loop does, until a round decides to shut down; returns the
/// answers handed out.
fn drive(
    runtime: &mut RushRuntime<u64, ()>,
    backend: &mut FakeBackend,
    mut messages: VecDeque<RushMessage<u64, u8>>,
) -> Vec<(u64, RushResponse)> {
    let mut shutdown: Option<u8> = None;
    let mut answers = Vec::new();
    loop {
        while let Some(message) = messages.pop_front() {
            runtime.handle_message(message, &mut shutdown).unwrap();
        }
        while let Some(event) = backend.poll_event().unwrap() {
            if let Some(reply) = runtime.process_event(backend, event).unwrap() {
                answers.push(reply);
            }
        }
        runtime.submit_available(backend).unwrap();
        if runtime.settle_idle(backend.is_idle()) {
            backend.reset_idle_resources();
        }
        match runtime.next_action(shutdown.is_some(), backend.is_idle()) {
            LoopAction::Shutdown => {
                backend.shutdown().unwrap();
                return answers;
            }
            LoopAction::WaitForHost => panic!("the host sent nothing more"),
            LoopAction::Tick => {}
        }
        backend.tick().unwrap();
        while let Some(event) = backend.poll_event().unwrap() {
            if let Some(reply) = runtime.process_event(backend, event).unwrap() {
                answers.push(reply);
            }
        }
        runtime.check_timeouts(backend).unwrap();
    }
}

#[test]
fn schedules_commands_by_core() {
    let mut backend = backend();
    let mut runtime: RushRuntime<u64, ()> = RushRuntime::new(100);
    let mut messages = VecDeque::new();
    messages.push_back(RushMessage::Command(request(7, 65_536, WaitMode::Completed)));
    messages.push_back(RushMessage::Shutdown(1u8));
    let answers = drive(&mut runtime, &mut backend, messages);
    assert_eq!(answers.len(), 1);
    assert_eq!(answers[0].0, 7);
    assert!(answers[0].1.output.is_empty());
    assert_eq!(backend.submitted, vec![(7, 65_536)]);
    assert!(backend.shutdown);
}

#[test]
fn a_round_decides_release_shutdown_wait_or_tick() {
    let mut runtime: RushRuntime<u64, ()> = RushRuntime::new(100);
    assert!(runtime.settle_idle(true));
    assert_eq!(runtime.next_action(false, true), LoopAction::WaitForHost);
    assert!(!runtime.settle_idle(true));
    assert_eq!(runtime.next_action(true, true), LoopAction::Shutdown);
    assert!(!runtime.settle_idle(false));
    assert_eq!(runtime.next_action(true, false), LoopAction::Tick);
    assert!(runtime.settle_idle(true));
}

#[test]
fn error_and_refusal_texts_name_the_command() {
    assert_eq!(RuntimeError::UnknownCompletion { command_id: 99 }.message(), "rushB completed unknown or duplicate command 99");
    assert_eq!(RuntimeError::AcceptedUnknownCore { command_id: 7 }.message(), "rushB accepted command 7 for an unknown Core");
    assert_eq!(RuntimeError::DuplicateShutdown.message(), "duplicate rushB runtime shutdown request");
    let timeout = RuntimeError::Timeout {
        core_id: 4,
        command: RushCommand { id: 1, core_id: 4, xs1: 0x10, xs2: 0xabc, funct7: 33 },
        phase: WaitPhase::Completion,
        diagnostics: "probes=0".to_string(),
    };
    assert_eq!(
        timeout.message(),
        "rushB runtime timed out waiting for completion: command=1 core=4 funct7=33 xs1=0x0000000000000010 xs2=0x0000000000000abc probes=0"
    );
    assert_eq!(RuntimeError::Backend("boom".to_string()).message(), "boom");
    assert_eq!(Rejection::ShuttingDown.message(), "rushB runtime is shutting down");
    assert_eq!(Rejection::DuplicateId(5).message(), "duplicate rushB command id 5");
}
