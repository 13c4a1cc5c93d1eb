//! The backend-neutral scheduler of host commands: one queue per core, one
//! command in flight per core, answers at acceptance or at completion.

use vstd::prelude::*;
use std::collections::HashMap;
use crate::rushb::{CommandId, DmaOperation, RushCommand, RushEvent, RushEventKind, RushResponse, WaitMode};
use crate::text::{decimal, push_all, spec_decimal, string_from_utf8_lossy, utf8_lossy};
use crate::trace::{hex16, spec_hex16};
use vstd::utf8::encode_utf8;

verus! {

broadcast use vstd::std_specs::hash::group_hash_axioms;

/// A command from the host, with the means to answer it.
pub struct RushRequest<R> {
    pub command: RushCommand,
    pub wait: WaitMode,
    pub dma: DmaOperation,
    pub response: R,
}

/// What the host sends to the runtime.
pub enum RushMessage<R, S> {
    Command(RushRequest<R>),
    Shutdown(S),
}

/// Backend-specific mechanics used by the backend-neutral scheduler.
pub trait RushBackend {
    type Prepared;

    fn prepare(&mut self, command: &mut RushCommand, dma: DmaOperation) -> Result<Self::Prepared, String>;

    fn submit(&mut self, command: &RushCommand) -> Result<(), String>;

    fn poll_event(&mut self) -> Result<Option<RushEvent>, String>;

    fn finish(&mut self, command: &RushCommand, prepared: Self::Prepared) -> Result<RushResponse, String>;

    fn tick(&mut self) -> Result<(), String>;

    fn cycles(&self) -> u64;

    fn is_idle(&self) -> bool;

    fn reset_idle_resources(&mut self);

    fn diagnostics(&self, core_id: u32) -> String;

    fn shutdown(&mut self) -> Result<(), String>;
}

/// A command submitted to the backend, waiting for acceptance or for
/// completion since `started_cycle`.
pub struct InFlight<R, P> {
    pub request: RushRequest<R>,
    pub prepared: P,
    pub started_cycle: u64,
}

/// The commands of one core.
pub struct CoreQueue<R, P> {
    pub core_id: u32,
    /// Waiting commands, oldest first.
    pub queued: Vec<RushRequest<R>>,
    pub active: Option<InFlight<R, P>>,
    pub completion_wait: Option<InFlight<R, P>>,
}

/// Which wait of a command ran out of cycles.
#[derive(Clone, Copy, Debug, PartialEq, Eq, Structural)]
pub enum WaitPhase {
    Acceptance,
    Completion,
}

/// Why the runtime stopped.
#[derive(Debug)]
pub enum RuntimeError {
    /// An acceptance event named a core with no queue.
    AcceptedUnknownCore { command_id: CommandId },
    /// An acceptance event arrived while the core had no command pending.
    AcceptedWithoutPending { command_id: CommandId },
    /// An acceptance event named another command than the pending one.
    AcceptanceMismatch { expected: CommandId, actual: CommandId },
    /// A completion event named a core with no queue.
    CompletedUnknownCore { command_id: CommandId },
    /// A completion event named no command that is waiting.
    UnknownCompletion { command_id: CommandId },
    /// A completion event named another core than the command's.
    CompletionCoreMismatch { command_id: CommandId },
    /// A second shutdown request.
    DuplicateShutdown,
    /// A command waited `max_wait_cycles` or more.
    Timeout { core_id: u32, command: RushCommand, phase: WaitPhase, diagnostics: String },
    /// The backend failed.
    Backend(String),
}

/// Why a command was refused without being queued.
#[derive(Clone, Copy, Debug, PartialEq, Eq, Structural)]
pub enum Rejection {
    ShuttingDown,
    DuplicateId(CommandId),
}

/// The text of `s` as bytes.
pub open spec fn lit(s: &str) -> Seq<u8> {
    encode_utf8(s@)
}

/// The text of a runtime error, as the host is shown it.
pub open spec fn spec_error_text(e: &RuntimeError) -> Seq<u8> {
    match e {
        RuntimeError::AcceptedUnknownCore { command_id } => lit("rushB accepted command ") + spec_decimal(
            *command_id as nat,
        ) + lit(" for an unknown Core"),
        RuntimeError::AcceptedWithoutPending { command_id } => lit("rushB accepted command ") + spec_decimal(
            *command_id as nat,
        ) + lit(" with no pending command"),
        RuntimeError::AcceptanceMismatch { expected, actual } => lit(
            "rushB acceptance id mismatch: expected=",
        ) + spec_decimal(*expected as nat) + lit(" actual=") + spec_decimal(*actual as nat),
        RuntimeError::CompletedUnknownCore { command_id } => lit("rushB completed command ") + spec_decimal(
            *command_id as nat,
        ) + lit(" for an unknown Core"),
        RuntimeError::UnknownCompletion { command_id } => lit("rushB completed unknown or duplicate command ")
            + spec_decimal(*command_id as nat),
        RuntimeError::CompletionCoreMismatch { command_id } => lit(
            "rushB completion Core mismatch for command ",
        ) + spec_decimal(*command_id as nat),
        RuntimeError::DuplicateShutdown => lit("duplicate rushB runtime shutdown request"),
        RuntimeError::Timeout { core_id, command, phase, diagnostics } => lit("rushB runtime timed out waiting for ")
            + match phase {
            WaitPhase::Acceptance => lit("acceptance"),
            WaitPhase::Completion => lit("completion"),
        } + lit(": command=") + spec_decimal(command.id as nat) + lit(" core=") + spec_decimal(*core_id as nat)
            + lit(" funct7=") + spec_decimal(command.funct7 as nat) + lit(" xs1=0x") + spec_hex16(command.xs1)
            + lit(" xs2=0x") + spec_hex16(command.xs2) + lit(" ") + encode_utf8(diagnostics@),
        RuntimeError::Backend(m) => encode_utf8(m@),
    }
}

/// The text of a refusal, as the host is shown it.
pub open spec fn spec_rejection_text(r: Rejection) -> Seq<u8> {
    match r {
        Rejection::ShuttingDown => lit("rushB runtime is shutting down"),
        Rejection::DuplicateId(id) => lit("duplicate rushB command id ") + spec_decimal(id as nat),
    }
}

impl RuntimeError {
    /// The text of the error.
    pub fn text(&self) -> (r: Vec<u8>)
        ensures
            r@ == spec_error_text(self),
    {
        let mut out: Vec<u8> = Vec::new();
        match self {
            RuntimeError::AcceptedUnknownCore { command_id } => {
                push_all(&mut out, "rushB accepted command ".as_bytes());
                push_all(&mut out, decimal(*command_id).as_slice());
                push_all(&mut out, " for an unknown Core".as_bytes());
            },
            RuntimeError::AcceptedWithoutPending { command_id } => {
                push_all(&mut out, "rushB accepted command ".as_bytes());
                push_all(&mut out, decimal(*command_id).as_slice());
                push_all(&mut out, " with no pending command".as_bytes());
            },
            RuntimeError::AcceptanceMismatch { expected, actual } => {
                push_all(&mut out, "rushB acceptance id mismatch: expected=".as_bytes());
                push_all(&mut out, decimal(*expected).as_slice());
                push_all(&mut out, " actual=".as_bytes());
                push_all(&mut out, decimal(*actual).as_slice());
            },
            RuntimeError::CompletedUnknownCore { command_id } => {
                push_all(&mut out, "rushB completed command ".as_bytes());
                push_all(&mut out, decimal(*command_id).as_slice());
                push_all(&mut out, " for an unknown Core".as_bytes());
            },
            RuntimeError::UnknownCompletion { command_id } => {
                push_all(&mut out, "rushB completed unknown or duplicate command ".as_bytes());
                push_all(&mut out, decimal(*command_id).as_slice());
            },
            RuntimeError::CompletionCoreMismatch { command_id } => {
                push_all(&mut out, "rushB completion Core mismatch for command ".as_bytes());
                push_all(&mut out, decimal(*command_id).as_slice());
            },
            RuntimeError::DuplicateShutdown => {
                push_all(&mut out, "duplicate rushB runtime shutdown request".as_bytes());
            },
            RuntimeError::Timeout { core_id, command, phase, diagnostics } => {
                push_all(&mut out, "rushB runtime timed out waiting for ".as_bytes());
                match phase {
                    WaitPhase::Acceptance => push_all(&mut out, "acceptance".as_bytes()),
                    WaitPhase::Completion => push_all(&mut out, "completion".as_bytes()),
                }
                push_all(&mut out, ": command=".as_bytes());
                push_all(&mut out, decimal(command.id).as_slice());
                push_all(&mut out, " core=".as_bytes());
                push_all(&mut out, decimal(*core_id as u64).as_slice());
                push_all(&mut out, " funct7=".as_bytes());
                push_all(&mut out, decimal(command.funct7 as u64).as_slice());
                push_all(&mut out, " xs1=0x".as_bytes());
                push_all(&mut out, hex16(command.xs1).as_slice());
                push_all(&mut out, " xs2=0x".as_bytes());
                push_all(&mut out, hex16(command.xs2).as_slice());
                push_all(&mut out, " ".as_bytes());
                push_all(&mut out, diagnostics.as_str().as_bytes());
            },
            RuntimeError::Backend(m) => {
                push_all(&mut out, m.as_str().as_bytes());
            },
        }
        out
    }

    /// The message the host is shown: the error's text as a string.
    pub fn message(&self) -> (r: String)
        ensures
            encode_utf8(r@) == utf8_lossy(spec_error_text(self)),
    {
        let t = self.text();
        string_from_utf8_lossy(t.as_slice())
    }
}

impl Rejection {
    /// The text of the refusal.
    pub fn text(&self) -> (r: Vec<u8>)
        ensures
            r@ == spec_rejection_text(*self),
    {
        let mut out: Vec<u8> = Vec::new();
        match self {
            Rejection::ShuttingDown => push_all(&mut out, "rushB runtime is shutting down".as_bytes()),
            Rejection::DuplicateId(id) => {
                push_all(&mut out, "duplicate rushB command id ".as_bytes());
                push_all(&mut out, decimal(*id).as_slice());
            },
        }
        out
    }

    /// The message the host is shown: the refusal's text as a string.
    pub fn message(&self) -> (r: String)
        ensures
            encode_utf8(r@) == utf8_lossy(spec_rejection_text(*self)),
    {
        let t = self.text();
        string_from_utf8_lossy(t.as_slice())
    }
}

/// The scheduler's state.
pub struct RushRuntime<R, P> {
    /// One queue per core that ever got a command, in order of first use.
    pub queues: Vec<CoreQueue<R, P>>,
    /// Commands answered at acceptance whose completion is still due, with
    /// their core.
    pub accepted_only: HashMap<CommandId, u32>,
    /// Ids of the commands not yet completed.
    pub outstanding: Vec<CommandId>,
    pub max_wait_cycles: u64,
    pub resources_idle: bool,
}

/// `i` is the queue of core `core_id`.
pub open spec fn is_queue_of<R, P>(queues: Seq<CoreQueue<R, P>>, core_id: u32, i: int) -> bool {
    0 <= i < queues.len() && queues[i].core_id == core_id
}

/// The queue of core `core_id`, when there is one.
pub open spec fn queue_index<R, P>(queues: Seq<CoreQueue<R, P>>, core_id: u32) -> Option<int> {
    if exists|i: int| #[trigger] is_queue_of(queues, core_id, i) {
        Some(choose|i: int| #[trigger] is_queue_of(queues, core_id, i))
    } else {
        None
    }
}

/// A queue holds no work.
pub open spec fn queue_empty<R, P>(q: CoreQueue<R, P>) -> bool {
    q.queued@.len() == 0 && q.active is None && q.completion_wait is None
}

/// The ids of the commands in `q`.
pub open spec fn queued_ids<R>(q: Seq<RushRequest<R>>) -> Seq<CommandId> {
    Seq::new(q.len(), |i: int| q[i].command.id)
}

impl<R, P> RushRuntime<R, P> {
    /// Every core has at most one queue, and no command id is outstanding
    /// twice.
    pub open spec fn wf(&self) -> bool {
        &&& forall|i: int, j: int|
            0 <= i < j < self.queues@.len() ==> self.queues@[i].core_id != self.queues@[j].core_id
        &&& self.outstanding@.no_duplicates()
    }

    /// A runtime with no commands that times a wait out after
    /// `max_wait_cycles` cycles.
    pub fn new(max_wait_cycles: u64) -> (r: RushRuntime<R, P>)
        ensures
            r.wf(),
            r.queues@.len() == 0,
            r.accepted_only@ == Map::<CommandId, u32>::empty(),
            r.outstanding@.len() == 0,
            r.max_wait_cycles == max_wait_cycles,
            !r.resources_idle,
    {
        RushRuntime {
            queues: Vec::new(),
            accepted_only: HashMap::new(),
            outstanding: Vec::new(),
            max_wait_cycles,
            resources_idle: false,
        }
    }

    /// The queue of core `core_id`.
    pub fn find_queue(&self, core_id: u32) -> (r: Option<usize>)
        ensures
            match r {
                Some(i) => is_queue_of(self.queues@, core_id, i as int),
                None => queue_index(self.queues@, core_id) is None,
            },
    {
        let mut i: usize = 0;
        while i < self.queues.len()
            invariant
                i <= self.queues@.len(),
                forall|j: int| 0 <= j < i ==> self.queues@[j].core_id != core_id,
            decreases self.queues@.len() - i,
        {
            if self.queues[i].core_id == core_id {
                return Some(i);
            }
            i = i + 1;
        }
        proof {
            if exists|j: int| #[trigger] is_queue_of(self.queues@, core_id, j) {
                let j = choose|j: int| #[trigger] is_queue_of(self.queues@, core_id, j);
                assert(self.queues@[j].core_id != core_id);
            }
        }
        None
    }

    /// Whether `id` is outstanding.
    pub fn is_outstanding(&self, id: CommandId) -> (r: bool)
        ensures
            r == self.outstanding@.contains(id),
    {
        let mut i: usize = 0;
        while i < self.outstanding.len()
            invariant
                i <= self.outstanding@.len(),
                forall|j: int| 0 <= j < i ==> self.outstanding@[j] != id,
            decreases self.outstanding@.len() - i,
        {
            if self.outstanding[i] == id {
                return true;
            }
            i = i + 1;
        }
        false
    }

    /// Takes `id` off the outstanding list.
    pub fn remove_outstanding(&mut self, id: CommandId)
        requires
            old(self).wf(),
        ensures
            final(self).wf(),
            forall|x: CommandId| #[trigger] final(self).outstanding@.contains(x) == (old(self).outstanding@.contains(x) && x != id),
            final(self).queues == old(self).queues,
            final(self).accepted_only == old(self).accepted_only,
            final(self).max_wait_cycles == old(self).max_wait_cycles,
            final(self).resources_idle == old(self).resources_idle,
    {
        let mut kept: Vec<CommandId> = Vec::new();
        let mut i: usize = 0;
        while i < self.outstanding.len()
            invariant
                i <= self.outstanding@.len(),
                self.outstanding == old(self).outstanding,
                self.outstanding@.no_duplicates(),
                self.queues == old(self).queues,
                kept@.no_duplicates(),
                forall|x: CommandId| #[trigger] kept@.contains(x) == (exists|k: int| 0 <= k < i && self.outstanding@[k] == x && x != id),
            decreases self.outstanding@.len() - i,
        {
            let x = self.outstanding[i];
            if x != id {
                proof {
                    assert(!kept@.contains(x)) by {
                        if kept@.contains(x) {
                            let k = choose|k: int| 0 <= k < i && self.outstanding@[k] == x;
                            assert(self.outstanding@[k] != self.outstanding@[i as int]);
                        }
                    }
                }
                let ghost prev = kept@;
                kept.push(x);
                proof {
                    assert forall|a: int, b: int| 0 <= a < b < kept@.len() implies kept@[a] != kept@[b] by {
                        if b == kept@.len() - 1 {
                            assert(prev.contains(prev[a]));
                        } else {
                            assert(prev[a] != prev[b]);
                        }
                    }
                    assert forall|y: CommandId| #[trigger] kept@.contains(y) == (exists|k: int| 0 <= k < i + 1 && self.outstanding@[k] == y && y != id) by {
                        if y == x {
                            assert(kept@[kept@.len() - 1] == x);
                        }
                        if kept@.contains(y) {
                            let k = choose|k: int| 0 <= k < kept@.len() && kept@[k] == y;
                            if k < kept@.len() - 1 {
                                assert(prev[k] == y);
                                assert(prev.contains(y));
                            }
                        }
                        if exists|k: int| 0 <= k < i && self.outstanding@[k] == y && y != id {
                            assert(prev.contains(y));
                            let k = choose|k: int| 0 <= k < prev.len() && prev[k] == y;
                            assert(kept@[k] == y);
                        }
                    }
                }
            }
            i = i + 1;
        }
        self.outstanding = kept;
    }

    /// Takes a host message. A command is queued on its core unless the
    /// runtime is shutting down or its id is outstanding; then it is handed
    /// back with the reason, to be refused. A shutdown request is kept in
    /// `shutdown`; a second one is an error.
    pub fn handle_message<S>(&mut self, message: RushMessage<R, S>, shutdown: &mut Option<S>) -> (r:
        Result<Option<(R, Rejection)>, RuntimeError>)
        requires
            old(self).wf(),
        ensures
            final(self).wf(),
            final(self).max_wait_cycles == old(self).max_wait_cycles,
            final(self).accepted_only == old(self).accepted_only,
            match message {
                RushMessage::Shutdown(_) => final(self).queues == old(self).queues && final(self).outstanding == old(self).outstanding && final(self).resources_idle == old(self).resources_idle && (*final(shutdown)) is Some && ((*old(shutdown)) is Some
                    <==> r matches Err(RuntimeError::DuplicateShutdown)) && ((*old(shutdown)) is None
                    <==> r matches Ok(None)),
                RushMessage::Command(req) => *final(shutdown) == *old(shutdown) && if (*old(shutdown)) is Some {
                    r matches Ok(Some((_, Rejection::ShuttingDown))) && final(self).queues == old(self).queues && final(self).outstanding == old(self).outstanding
                        && final(self).resources_idle == old(self).resources_idle
                } else if old(self).outstanding@.contains(req.command.id) {
                    r matches Ok(Some((_, Rejection::DuplicateId(id)))) && id == req.command.id
                        && final(self).queues == old(self).queues && final(self).outstanding == old(self).outstanding && final(self).resources_idle == old(self).resources_idle
                } else {
                    &&& r matches Ok(None)
                    &&& final(self).outstanding@ == old(self).outstanding@.push(req.command.id)
                    &&& !final(self).resources_idle
                    &&& match queue_index(old(self).queues@, req.command.core_id) {
                        Some(i) => final(self).queues@.len() == old(self).queues@.len()
                            && final(self).queues@[i].core_id == req.command.core_id
                            && queued_ids(final(self).queues@[i].queued@) == queued_ids(
                            old(self).queues@[i].queued@,
                        ).push(req.command.id) && forall|j: int|
                            0 <= j < old(self).queues@.len() && j != i ==> #[trigger] final(self).queues@[j] == old(self).queues@[j],
                        None => final(self).queues@.len() == old(self).queues@.len() + 1 && (
                        forall|j: int|
                            0 <= j < old(self).queues@.len() ==> #[trigger] final(self).queues@[j]
                                == old(self).queues@[j]) && final(self).queues@.last().core_id
                            == req.command.core_id && queued_ids(
                            final(self).queues@.last().queued@,
                        ) == seq![req.command.id] && final(self).queues@.last().active is None
                            && final(self).queues@.last().completion_wait is None,
                    }
                },
            },
    {
        match message {
            RushMessage::Command(request) => {
                if shutdown.is_some() {
                    return Ok(Some((request.response, Rejection::ShuttingDown)));
                }
                let id = request.command.id;
                if self.is_outstanding(id) {
                    return Ok(Some((request.response, Rejection::DuplicateId(id))));
                }
                proof {
                    assert(self.outstanding@.push(id).no_duplicates()) by {
                        let s = self.outstanding@.push(id);
                        assert forall|a: int, b: int| 0 <= a < b < s.len() implies s[a] != s[b] by {
                            if b == s.len() - 1 {
                                assert(self.outstanding@[a] != id);
                            }
                        }
                    }
                }
                self.outstanding.push(id);
                let core_id = request.command.core_id;
                match self.find_queue(core_id) {
                    Some(i) => {
                        let ghost before = self.queues@;
                        let mut q = self.queues.remove(i);
                        let ghost old_q = q.queued@;
                        q.queued.push(request);
                        assert(queued_ids(q.queued@) =~= queued_ids(old_q).push(id));
                        self.queues.insert(i, q);
                        proof {
                            assert(queue_index(before, core_id) == Some(i as int)) by {
                                assert(is_queue_of(before, core_id, i as int));
                                let k = choose|k: int| #[trigger] is_queue_of(before, core_id, k);
                                if k != i {
                                    assert(before[k].core_id != before[i as int].core_id);
                                }
                            }
                            assert forall|j: int| 0 <= j < before.len() && j != i implies #[trigger] self.queues@[j]
                                == before[j] by {}
                        }
                    },
                    None => {
                        let mut queued: Vec<RushRequest<R>> = Vec::new();
                        queued.push(request);
                        assert(queued_ids(queued@) =~= seq![id]);
                        self.queues.push(
                            CoreQueue { core_id, queued, active: None, completion_wait: None },
                        );
                        proof {
                            assert forall|a: int, b: int| 0 <= a < b < self.queues@.len() implies self.queues@[a].core_id
                                != self.queues@[b].core_id by {
                                if b == self.queues@.len() - 1 {
                                    assert(!is_queue_of(old(self).queues@, core_id, a));
                                }
                            }
                        }
                    },
                }
                self.resources_idle = false;
                Ok(None)
            },
            RushMessage::Shutdown(reply) => {
                let previous = shutdown.take();
                *shutdown = Some(reply);
                if previous.is_some() {
                    Err(RuntimeError::DuplicateShutdown)
                } else {
                    Ok(None)
                }
            },
        }
    }
}


/// What acceptance or completion of a command hands back for the host: the
/// means to answer it and the answer.
pub type Reply<R> = (R, RushResponse);

impl<R, P> RushRuntime<R, P> {
    /// Submits the oldest waiting command of every core that has nothing in
    /// flight: its host-memory side goes to `prepare`, which may rewrite the
    /// command, then it is submitted and becomes the core's pending command.
    /// Stops at the first backend error.
    pub fn submit_available<B: RushBackend<Prepared = P>>(&mut self, backend: &mut B) -> (r: Result<
        (),
        RuntimeError,
    >)
        requires
            old(self).wf(),
        ensures
            final(self).wf(),
            final(self).queues@.len() == old(self).queues@.len(),
            final(self).outstanding == old(self).outstanding,
            final(self).accepted_only == old(self).accepted_only,
            final(self).max_wait_cycles == old(self).max_wait_cycles,
            final(self).resources_idle == old(self).resources_idle,
            forall|i: int| 0 <= i < old(self).queues@.len() ==> #[trigger] final(self).queues@[i].core_id == old(self).queues@[i].core_id,
            r is Err ==> (r matches Err(RuntimeError::Backend(_))),
            (forall|i: int|
                0 <= i < old(self).queues@.len() ==> !(#[trigger] old(self).queues@[i].active is None
                    && old(self).queues@[i].completion_wait is None && old(self).queues@[i].queued@.len() > 0))
                ==> r is Ok && final(self).queues@ == old(self).queues@,
            r is Ok ==> forall|i: int|
                0 <= i < old(self).queues@.len() ==> {
                    let q0 = old(self).queues@[i];
                    let q1 = #[trigger] final(self).queues@[i];
                    if q0.active is None && q0.completion_wait is None && q0.queued@.len() > 0 {
                        &&& queued_ids(q1.queued@) == queued_ids(q0.queued@).drop_first()
                        &&& q1.active matches Some(a) && a.request.wait == q0.queued@[0].wait
                        &&& q1.completion_wait is None
                    } else {
                        q1 == q0
                    }
                },
    {
        let n = self.queues.len();
        let mut i: usize = 0;
        while i < n
            invariant
                i <= n,
                n == self.queues@.len(),
                n == old(self).queues@.len(),
                self.wf(),
                self.outstanding == old(self).outstanding,
                self.accepted_only == old(self).accepted_only,
                self.max_wait_cycles == old(self).max_wait_cycles,
                self.resources_idle == old(self).resources_idle,
                forall|k: int| 0 <= k < n ==> #[trigger] self.queues@[k].core_id == old(self).queues@[k].core_id,
                forall|k: int| i <= k < n ==> #[trigger] self.queues@[k] == old(self).queues@[k],
                forall|k: int|
                    0 <= k < i ==> {
                        let q0 = old(self).queues@[k];
                        let q1 = #[trigger] self.queues@[k];
                        if q0.active is None && q0.completion_wait is None && q0.queued@.len() > 0 {
                            &&& queued_ids(q1.queued@) == queued_ids(q0.queued@).drop_first()
                            &&& q1.active matches Some(a) && a.request.wait == q0.queued@[0].wait
                            &&& q1.completion_wait is None
                        } else {
                            q1 == q0
                        }
                    },
            decreases n - i,
        {
            let idle = self.queues[i].active.is_none() && self.queues[i].completion_wait.is_none()
                && self.queues[i].queued.len() > 0;
            if idle {
                let ghost before = self.queues@;
                let mut q = self.queues.remove(i);
                let ghost q0 = q;
                let mut request = q.queued.remove(0);
                assert(queued_ids(q.queued@) =~= queued_ids(q0.queued@).drop_first());
                let mut dma = DmaOperation::NoDma;
                std::mem::swap(&mut dma, &mut request.dma);
                let prepared = match backend.prepare(&mut request.command, dma) {
                    Ok(p) => p,
                    Err(e) => {
                        self.queues.insert(i, q);
                        proof {
                            assert forall|a: int, b: int| 0 <= a < b < self.queues@.len() implies self.queues@[a].core_id
                                != self.queues@[b].core_id by {
                                assert(old(self).queues@[a].core_id != old(self).queues@[b].core_id);
                            }
                        }
                        return Err(RuntimeError::Backend(e));
                    },
                };
                match backend.submit(&request.command) {
                    Ok(()) => {},
                    Err(e) => {
                        self.queues.insert(i, q);
                        proof {
                            assert forall|a: int, b: int| 0 <= a < b < self.queues@.len() implies self.queues@[a].core_id
                                != self.queues@[b].core_id by {
                                assert(old(self).queues@[a].core_id != old(self).queues@[b].core_id);
                            }
                        }
                        return Err(RuntimeError::Backend(e));
                    },
                }
                let started_cycle = backend.cycles();
                q.active = Some(InFlight { request, prepared, started_cycle });
                self.queues.insert(i, q);
                proof {
                    assert forall|k: int| 0 <= k < n implies #[trigger] self.queues@[k].core_id == old(self).queues@[k].core_id by {
                        if k != i {
                            assert(self.queues@[k] == before[k]);
                        }
                    }
                    assert forall|a: int, b: int| 0 <= a < b < self.queues@.len() implies self.queues@[a].core_id
                        != self.queues@[b].core_id by {
                        assert(old(self).queues@[a].core_id != old(self).queues@[b].core_id);
                    }
                }
            }
            i = i + 1;
        }
        Ok(())
    }
}


impl<R, P> RushRuntime<R, P> {
    /// What handling the acceptance `event` does: `pre` is the runtime before,
    /// `post` after, and `r` the answer.
    pub open spec fn accepted_post(pre: &Self, post: &Self, event: RushEvent, r: Result<Option<Reply<R>>, RuntimeError>) -> bool {
        match queue_index(pre.queues@, event.core_id) {
            None => (r matches Err(RuntimeError::AcceptedUnknownCore { command_id })
                && command_id == event.command_id) && post.queues == pre.queues
                && post.accepted_only == pre.accepted_only,
            Some(i) => {
                let q0 = pre.queues@[i];
                let q1 = post.queues@[i];
                &&& forall|j: int| 0 <= j < pre.queues@.len() && j != i ==> #[trigger] post.queues@[j] == pre.queues@[j]
                &&& q1.core_id == q0.core_id
                &&& q1.queued == q0.queued
                &&& q1.active is None
                &&& match q0.active {
                    None => (r matches Err(RuntimeError::AcceptedWithoutPending { command_id })
                        && command_id == event.command_id) && q1.completion_wait == q0.completion_wait
                        && post.accepted_only == pre.accepted_only,
                    Some(a) => if a.request.command.id != event.command_id {
                        (r matches Err(RuntimeError::AcceptanceMismatch { expected, actual })
                            && expected == a.request.command.id && actual == event.command_id)
                            && q1.completion_wait == q0.completion_wait
                            && post.accepted_only == pre.accepted_only
                    } else if a.request.wait == WaitMode::Accepted {
                        &&& q1.completion_wait == q0.completion_wait
                        &&& r is Err ==> ((r matches Err(RuntimeError::Backend(_)))
                            && post.accepted_only == pre.accepted_only)
                        &&& r is Ok ==> ((r matches Ok(Some(rp)) && rp.0 == a.request.response)
                            && post.accepted_only@ == pre.accepted_only@.insert(
                            a.request.command.id,
                            event.core_id,
                        ))
                    } else {
                        &&& r matches Ok(None)
                        &&& post.accepted_only == pre.accepted_only
                        &&& q1.completion_wait matches Some(w) && w.request.command
                            == a.request.command && w.request.wait == a.request.wait
                            && w.request.response == a.request.response && w.prepared == a.prepared
                    },
                }
            },
        }
    }

    /// What handling the completion `event` does: `pre` is the runtime before,
    /// `post` after, and `r` the answer.
    pub open spec fn completed_post(pre: &Self, post: &Self, event: RushEvent, r: Result<Option<Reply<R>>, RuntimeError>) -> bool {
        match queue_index(pre.queues@, event.core_id) {
            None => (r matches Err(RuntimeError::CompletedUnknownCore { command_id })
                && command_id == event.command_id) && post.queues == pre.queues
                && post.accepted_only == pre.accepted_only && post.outstanding
                == pre.outstanding,
            Some(i) => {
                let q0 = pre.queues@[i];
                let q1 = post.queues@[i];
                &&& forall|j: int| 0 <= j < pre.queues@.len() && j != i ==> #[trigger] post.queues@[j] == pre.queues@[j]
                &&& q1.core_id == q0.core_id
                &&& q1.queued == q0.queued
                &&& q1.active == q0.active
                &&& if (q0.completion_wait matches Some(w) && w.request.command.id == event.command_id) {
                    &&& q1.completion_wait is None
                    &&& post.accepted_only == pre.accepted_only
                    &&& r is Err ==> (r matches Err(RuntimeError::Backend(_)))
                    &&& r is Ok ==> ((r matches Ok(Some(rp)) && rp.0 == q0.completion_wait->Some_0.request.response)
                        && forall|x: CommandId| #[trigger] post.outstanding@.contains(x) == (pre.outstanding@.contains(x) && x != event.command_id))
                } else {
                    &&& q1.completion_wait == q0.completion_wait
                    &&& post.accepted_only@ == pre.accepted_only@.remove(event.command_id)
                    &&& if !pre.accepted_only@.contains_key(event.command_id) {
                        (r matches Err(RuntimeError::UnknownCompletion { command_id }) && command_id == event.command_id)
                            && post.outstanding == pre.outstanding
                    } else if pre.accepted_only@[event.command_id] != event.core_id {
                        (r matches Err(RuntimeError::CompletionCoreMismatch { command_id }) && command_id == event.command_id)
                            && post.outstanding == pre.outstanding
                    } else {
                        r matches Ok(None) && forall|x: CommandId| #[trigger] post.outstanding@.contains(x) == (pre.outstanding@.contains(x) && x != event.command_id)
                    }
                }
            },
        }
    }

    /// Handles the acceptance of a core's pending command. A command that
    /// waits for acceptance is finished and answered now and its completion
    /// is still expected; one that waits for completion starts waiting.
    pub fn process_accepted<B: RushBackend<Prepared = P>>(&mut self, backend: &mut B, event: RushEvent) -> (r:
        Result<Option<Reply<R>>, RuntimeError>)
        requires
            old(self).wf(),
        ensures
            final(self).wf(),
            final(self).outstanding == old(self).outstanding,
            final(self).max_wait_cycles == old(self).max_wait_cycles,
            final(self).resources_idle == old(self).resources_idle,
            final(self).queues@.len() == old(self).queues@.len(),
            Self::accepted_post(old(self), final(self), event, r),
    {
        let i = match self.find_queue(event.core_id) {
            None => {
                return Err(RuntimeError::AcceptedUnknownCore { command_id: event.command_id });
            },
            Some(i) => i,
        };
        let ghost before = self.queues@;
        proof {
            assert(queue_index(before, event.core_id) == Some(i as int)) by {
                let k = choose|k: int| #[trigger] is_queue_of(before, event.core_id, k);
                if k != i {
                    assert(before[k].core_id != before[i as int].core_id);
                }
            }
        }
        let mut q = self.queues.remove(i);
        let active = q.active.take();
        let result = match active {
            None => Err(RuntimeError::AcceptedWithoutPending { command_id: event.command_id }),
            Some(a) => {
                let InFlight { request, prepared, started_cycle: _ } = a;
                let RushRequest { command, wait, dma, response } = request;
                if command.id != event.command_id {
                    Err(RuntimeError::AcceptanceMismatch {
                        expected: command.id,
                        actual: event.command_id,
                    })
                } else {
                    match wait {
                        WaitMode::Accepted => {
                            match backend.finish(&command, prepared) {
                                Ok(resp) => {
                                    self.accepted_only.insert(command.id, event.core_id);
                                    Ok(Some((response, resp)))
                                },
                                Err(e) => Err(RuntimeError::Backend(e)),
                            }
                        },
                        WaitMode::Completed => {
                            let started_cycle = backend.cycles();
                            q.completion_wait = Some(
                                InFlight {
                                    request: RushRequest { command, wait, dma, response },
                                    prepared,
                                    started_cycle,
                                },
                            );
                            Ok(None)
                        },
                    }
                }
            },
        };
        self.queues.insert(i, q);
        proof {
            assert forall|a: int, b: int| 0 <= a < b < self.queues@.len() implies self.queues@[a].core_id
                != self.queues@[b].core_id by {
                assert(before[a].core_id != before[b].core_id);
            }
            assert forall|j: int| 0 <= j < before.len() && j != i implies #[trigger] self.queues@[j]
                == before[j] by {}
        }
        result
    }
}


/// A wait that began at `started` has lasted `max_wait` cycles or more at
/// `cycle`.
pub open spec fn timed_out(started: u64, cycle: u64, max_wait: u64) -> bool {
    (if cycle >= started {
        cycle - started
    } else {
        0
    }) >= max_wait
}

/// The in-flight commands of queue `q` that ran out of cycles.
pub open spec fn queue_timed_out<R, P>(q: CoreQueue<R, P>, cycle: u64, max_wait: u64) -> bool {
    (q.active matches Some(a) && timed_out(a.started_cycle, cycle, max_wait)) || (
    q.completion_wait matches Some(w) && timed_out(w.started_cycle, cycle, max_wait))
}

impl<R, P> RushRuntime<R, P> {
    /// Handles the completion of a command: a command waiting for completion
    /// on its core is finished and answered; otherwise the command must have
    /// been answered at acceptance on the same core. Either way it is no
    /// longer outstanding.
    pub fn process_completed<B: RushBackend<Prepared = P>>(&mut self, backend: &mut B, event: RushEvent) -> (r:
        Result<Option<Reply<R>>, RuntimeError>)
        requires
            old(self).wf(),
        ensures
            final(self).wf(),
            final(self).max_wait_cycles == old(self).max_wait_cycles,
            final(self).resources_idle == old(self).resources_idle,
            final(self).queues@.len() == old(self).queues@.len(),
            Self::completed_post(old(self), final(self), event, r),
    {
        let i = match self.find_queue(event.core_id) {
            None => {
                return Err(RuntimeError::CompletedUnknownCore { command_id: event.command_id });
            },
            Some(i) => i,
        };
        let ghost before = self.queues@;
        proof {
            assert(queue_index(before, event.core_id) == Some(i as int)) by {
                let k = choose|k: int| #[trigger] is_queue_of(before, event.core_id, k);
                if k != i {
                    assert(before[k].core_id != before[i as int].core_id);
                }
            }
        }
        let is_waiting = match &self.queues[i].completion_wait {
            Some(w) => w.request.command.id == event.command_id,
            None => false,
        };
        if is_waiting {
            let mut q = self.queues.remove(i);
            let w = q.completion_wait.take().unwrap();
            self.queues.insert(i, q);
            proof {
                assert forall|a: int, b: int| 0 <= a < b < self.queues@.len() implies self.queues@[a].core_id
                    != self.queues@[b].core_id by {
                    assert(before[a].core_id != before[b].core_id);
                }
                assert forall|j: int| 0 <= j < before.len() && j != i implies #[trigger] self.queues@[j]
                    == before[j] by {}
            }
            let InFlight { request, prepared, started_cycle: _ } = w;
            let RushRequest { command, wait: _, dma: _, response } = request;
            let resp = match backend.finish(&command, prepared) {
                Ok(resp) => resp,
                Err(e) => {
                    return Err(RuntimeError::Backend(e));
                },
            };
            self.remove_outstanding(event.command_id);
            return Ok(Some((response, resp)));
        }
        let core = self.accepted_only.remove(&event.command_id);
        match core {
            None => Err(RuntimeError::UnknownCompletion { command_id: event.command_id }),
            Some(c) => {
                if c != event.core_id {
                    Err(RuntimeError::CompletionCoreMismatch { command_id: event.command_id })
                } else {
                    self.remove_outstanding(event.command_id);
                    Ok(None)
                }
            },
        }
    }

    /// Handles one backend event.
    pub fn process_event<B: RushBackend<Prepared = P>>(&mut self, backend: &mut B, event: RushEvent) -> (r:
        Result<Option<Reply<R>>, RuntimeError>)
        requires
            old(self).wf(),
        ensures
            final(self).wf(),
            final(self).max_wait_cycles == old(self).max_wait_cycles,
            final(self).resources_idle == old(self).resources_idle,
            final(self).queues@.len() == old(self).queues@.len(),
            match event.kind {
                RushEventKind::Accepted => final(self).outstanding == old(self).outstanding
                    && Self::accepted_post(old(self), final(self), event, r),
                RushEventKind::Completed => Self::completed_post(old(self), final(self), event, r),
            },
    {
        match event.kind {
            RushEventKind::Accepted => self.process_accepted(backend, event),
            RushEventKind::Completed => self.process_completed(backend, event),
        }
    }

    /// The first queue, in queue order, with a command that has waited
    /// `max_wait_cycles` or more at `cycle`, and which wait ran out:
    /// acceptance is checked before completion.
    pub fn first_timeout(&self, cycle: u64) -> (r: Option<(usize, WaitPhase)>)
        ensures
            match r {
                None => forall|i: int| 0 <= i < self.queues@.len() ==> !queue_timed_out(#[trigger] self.queues@[i], cycle, self.max_wait_cycles),
                Some((i, phase)) => {
                    &&& i < self.queues@.len()
                    &&& forall|j: int| 0 <= j < i ==> !queue_timed_out(#[trigger] self.queues@[j], cycle, self.max_wait_cycles)
                    &&& phase == WaitPhase::Acceptance <==> (self.queues@[i as int].active matches Some(a) && timed_out(a.started_cycle, cycle, self.max_wait_cycles))
                    &&& phase == WaitPhase::Completion ==> (self.queues@[i as int].completion_wait matches Some(w) && timed_out(w.started_cycle, cycle, self.max_wait_cycles))
                },
            },
    {
        let mut i: usize = 0;
        while i < self.queues.len()
            invariant
                i <= self.queues@.len(),
                forall|j: int| 0 <= j < i ==> !queue_timed_out(#[trigger] self.queues@[j], cycle, self.max_wait_cycles),
            decreases self.queues@.len() - i,
        {
            let q = &self.queues[i];
            match &q.active {
                Some(a) => {
                    let waited = if cycle >= a.started_cycle {
                        cycle - a.started_cycle
                    } else {
                        0
                    };
                    if waited >= self.max_wait_cycles {
                        return Some((i, WaitPhase::Acceptance));
                    }
                },
                None => {},
            }
            match &q.completion_wait {
                Some(w) => {
                    let waited = if cycle >= w.started_cycle {
                        cycle - w.started_cycle
                    } else {
                        0
                    };
                    if waited >= self.max_wait_cycles {
                        return Some((i, WaitPhase::Completion));
                    }
                },
                None => {},
            }
            i = i + 1;
        }
        None
    }

    /// `r` answers a timeout check at backend cycle `c`: an error exactly
    /// when a queue has a command that waited `max_wait_cycles` or more, and
    /// then the timeout of the first such queue, naming its core and the
    /// command whose wait ran out.
    pub open spec fn timeout_verdict(&self, c: u64, r: Result<(), RuntimeError>) -> bool {
        &&& r is Err <==> exists|i: int|
            0 <= i < self.queues@.len() && #[trigger] queue_timed_out(self.queues@[i], c, self.max_wait_cycles)
        &&& r is Err ==> exists|i: int|
            0 <= i < self.queues@.len() && #[trigger] queue_timed_out(self.queues@[i], c, self.max_wait_cycles)
                && (forall|j: int| 0 <= j < i ==> !queue_timed_out(#[trigger] self.queues@[j], c, self.max_wait_cycles))
                && (r matches Err(RuntimeError::Timeout { core_id, command, phase, diagnostics: _ })
                && core_id == self.queues@[i].core_id && (phase == WaitPhase::Acceptance ==> (
                self.queues@[i].active matches Some(a) && a.request.command == command)) && (phase
                == WaitPhase::Completion ==> (self.queues@[i].completion_wait matches Some(w)
                && w.request.command == command)))
    }

    /// Fails with a timeout when a command has waited `max_wait_cycles` or
    /// more by the backend's clock.
    pub fn check_timeouts<B: RushBackend<Prepared = P>>(&self, backend: &B) -> (r: Result<(), RuntimeError>)
        ensures
            exists|c: u64| #[trigger] self.timeout_verdict(c, r),
            (forall|i: int|
                0 <= i < self.queues@.len() ==> (#[trigger] self.queues@[i]).active is None
                    && self.queues@[i].completion_wait is None) ==> r is Ok,
            self.max_wait_cycles == 0 && (exists|i: int|
                0 <= i < self.queues@.len() && ((#[trigger] self.queues@[i]).active is Some
                    || self.queues@[i].completion_wait is Some)) ==> r is Err,
    {
        let cycle = backend.cycles();
        match self.first_timeout(cycle) {
            None => {
                proof {
                    if self.max_wait_cycles == 0 {
                        assert forall|i: int| 0 <= i < self.queues@.len() implies (#[trigger] self.queues@[i]).active is None
                            && self.queues@[i].completion_wait is None by {
                            assert(!queue_timed_out(self.queues@[i], cycle, self.max_wait_cycles));
                        }
                    }
                    assert(self.timeout_verdict(cycle, Ok(())));
                }
                Ok(())
            },
            Some((i, phase)) => {
                assert(queue_timed_out(self.queues@[i as int], cycle, self.max_wait_cycles));
                let q = &self.queues[i];
                let command = match phase {
                    WaitPhase::Acceptance => match &q.active {
                        Some(a) => a.request.command,
                        None => q.completion_wait.as_ref().unwrap().request.command,
                    },
                    WaitPhase::Completion => q.completion_wait.as_ref().unwrap().request.command,
                };
                let diagnostics = backend.diagnostics(q.core_id);
                let r = Err(RuntimeError::Timeout { core_id: q.core_id, command, phase, diagnostics });
                proof {
                    assert(forall|j: int| 0 <= j < i ==> !queue_timed_out(#[trigger] self.queues@[j], cycle, self.max_wait_cycles));
                    assert(self.timeout_verdict(cycle, r));
                }
                r
            },
        }
    }

    /// No core has work and no acceptance-only command awaits completion.
    pub open spec fn runtime_idle(&self) -> bool {
        &&& forall|i: int| 0 <= i < self.queues@.len() ==> queue_empty(#[trigger] self.queues@[i])
        &&& self.accepted_only@.len() == 0
    }

    /// Whether the runtime has no work left, given whether the backend is
    /// idle.
    pub fn is_drained(&self, backend_idle: bool) -> (r: bool)
        ensures
            r == (self.runtime_idle() && backend_idle),
    {
        let mut i: usize = 0;
        while i < self.queues.len()
            invariant
                i <= self.queues@.len(),
                forall|j: int| 0 <= j < i ==> queue_empty(#[trigger] self.queues@[j]),
            decreases self.queues@.len() - i,
        {
            let q = &self.queues[i];
            if !(q.queued.len() == 0 && q.active.is_none() && q.completion_wait.is_none()) {
                return false;
            }
            i = i + 1;
        }
        self.accepted_only.is_empty() && backend_idle
    }

    /// Whether the runtime still has work, given whether the backend is idle.
    pub fn has_runtime_work(&self, backend_idle: bool) -> (r: bool)
        ensures
            r == !(self.runtime_idle() && backend_idle),
    {
        !self.is_drained(backend_idle)
    }
}

/// What the run loop does next, once messages, events and submissions of
/// a round are handled.
#[derive(Clone, Copy, Debug, PartialEq, Eq, Structural)]
pub enum LoopAction {
    /// Shut the backend down and answer the shutdown request.
    Shutdown,
    /// Nothing is in flight: block until the host sends a message.
    WaitForHost,
    /// Advance the backend a cycle, then take its events and check for
    /// timeouts.
    Tick,
}

impl<R, P> RushRuntime<R, P> {
    /// Settles the end of a round: the runtime is drained when no queue has
    /// work, nothing awaits completion, and the backend reports idle.
    /// Returns whether it has just become drained, when the backend's idle
    /// resources are to be released; the drained state is kept.
    pub fn settle_idle(&mut self, backend_idle: bool) -> (reset: bool)
        ensures
            final(self).queues == old(self).queues,
            final(self).accepted_only == old(self).accepted_only,
            final(self).outstanding == old(self).outstanding,
            final(self).max_wait_cycles == old(self).max_wait_cycles,
            final(self).resources_idle == (old(self).runtime_idle() && backend_idle),
            reset == (old(self).runtime_idle() && backend_idle && !old(self).resources_idle),
    {
        let idle = self.is_drained(backend_idle);
        let reset = idle && !self.resources_idle;
        self.resources_idle = idle;
        reset
    }

    /// What the run loop does once the round is settled: a pending shutdown
    /// is carried out when the runtime was found drained; otherwise the loop
    /// waits for the host when there is no work (the backend asked again,
    /// after any release), and ticks the backend when there is.
    pub fn next_action(&self, shutdown_requested: bool, backend_idle_after: bool) -> (r: LoopAction)
        ensures
            r == (if shutdown_requested && self.resources_idle {
                LoopAction::Shutdown
            } else if self.runtime_idle() && backend_idle_after {
                LoopAction::WaitForHost
            } else {
                LoopAction::Tick
            }),
    {
        if shutdown_requested && self.resources_idle {
            LoopAction::Shutdown
        } else if !self.has_runtime_work(backend_idle_after) {
            LoopAction::WaitForHost
        } else {
            LoopAction::Tick
        }
    }
}

/// A run of the ids queued on one core, `qs`, taking in the ids `ins` and
/// handing out the ids `outs`, in order: at each step the queue stays as it
/// was, gains the next received id at its back (a command is queued), or
/// hands out the id at its front (the oldest command is submitted).
pub open spec fn fifo_run(qs: Seq<Seq<CommandId>>, ins: Seq<CommandId>, outs: Seq<CommandId>) -> bool
    decreases qs.len(),
{
    if qs.len() <= 1 {
        ins.len() == 0 && outs.len() == 0
    } else {
        let pre = qs[qs.len() - 2];
        let post = qs.last();
        let rest = qs.drop_last();
        ||| post == pre && fifo_run(rest, ins, outs)
        ||| ins.len() > 0 && post == pre.push(ins.last()) && fifo_run(rest, ins.drop_last(), outs)
        ||| outs.len() > 0 && pre.len() > 0 && outs.last() == pre[0] && post == pre.drop_first() && fifo_run(
            rest,
            ins,
            outs.drop_last(),
        )
    }
}

/// Commands of one core are submitted in the order they were received:
/// over any run of its queue that starts empty, the ids handed out are the
/// first ids taken in, in the same order, and the queue holds the rest.
pub proof fn law_core_queue_is_first_in_first_out(
    qs: Seq<Seq<CommandId>>,
    ins: Seq<CommandId>,
    outs: Seq<CommandId>,
)
    requires
        qs.len() >= 1,
        qs[0].len() == 0,
        fifo_run(qs, ins, outs),
    ensures
        outs.len() <= ins.len(),
        outs == ins.take(outs.len() as int),
        qs.last() == ins.skip(outs.len() as int),
    decreases qs.len(),
{
    if qs.len() == 1 {
        assert(ins.take(0) =~= outs);
        assert(ins.skip(0) =~= qs[0]);
    } else {
        let pre = qs[qs.len() - 2];
        let post = qs.last();
        let rest = qs.drop_last();
        assert(rest.last() == pre);
        assert(rest[0] == qs[0]);
        if post == pre && fifo_run(rest, ins, outs) {
            law_core_queue_is_first_in_first_out(rest, ins, outs);
        } else if ins.len() > 0 && post == pre.push(ins.last()) && fifo_run(rest, ins.drop_last(), outs) {
            let i0 = ins.drop_last();
            law_core_queue_is_first_in_first_out(rest, i0, outs);
            assert(ins.take(outs.len() as int) =~= i0.take(outs.len() as int));
            assert(ins.skip(outs.len() as int) =~= i0.skip(outs.len() as int).push(ins.last()));
        } else {
            let o0 = outs.drop_last();
            law_core_queue_is_first_in_first_out(rest, ins, o0);
            assert(pre == ins.skip(o0.len() as int));
            assert(outs =~= ins.take(outs.len() as int)) by {
                assert(outs =~= o0.push(outs.last()));
                assert(ins.take(outs.len() as int) =~= ins.take(o0.len() as int).push(ins[o0.len() as int]));
            }
            assert(ins.skip(outs.len() as int) =~= pre.drop_first());
        }
    }
}

} // verus!
