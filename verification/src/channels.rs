//! Turning the RTL's per-core acceptance and completion counters into
//! scheduler events.

use vstd::prelude::*;
use crate::rushb::{CommandId, RushCommand, RushEvent, RushEventKind};

verus! {

/// The funct7 of a fence.
pub const FUNCT7_FENCE: u32 = 0;

/// The command submitted to a core and not yet accepted.
#[derive(Clone, Copy, Debug, PartialEq, Eq, Structural)]
pub struct PendingCommand {
    pub id: CommandId,
    /// The acceptance counter when it was submitted.
    pub accepted_before: u64,
    /// Fences complete as soon as they are accepted.
    pub fence: bool,
}

/// What the host knows of one core's command channel.
pub struct ChannelState {
    pub core_id: u32,
    pub pending: Option<PendingCommand>,
    /// Accepted commands not yet completed, oldest first.
    pub inflight: Vec<CommandId>,
    pub accepted_seen: u64,
    pub completed_seen: u64,
}

/// Counter readings that do not fit the commands the host submitted.
#[derive(Clone, Copy, Debug, PartialEq, Eq, Structural)]
pub enum ChannelError {
    AcceptedBackwards { core_id: u32, before: u64, after: u64 },
    AcceptedSkipped { core_id: u32, before: u64, after: u64 },
    AcceptedUnsubmitted { core_id: u32 },
    BaselineChanged { command_id: CommandId, core_id: u32 },
    CompletedBackwards { core_id: u32, before: u64, after: u64 },
    CompletedNotInFlight { core_id: u32 },
    PendingExists { command_id: CommandId, core_id: u32 },
    CountersChanged { command_id: CommandId, core_id: u32 },
}

/// All command channels and the events not yet handed to the scheduler.
pub struct ChannelTracker {
    pub channels: Vec<ChannelState>,
    /// Oldest first.
    pub events: Vec<RushEvent>,
}

/// The error, if any, of reading `accepted` from channel `c`.
pub open spec fn acceptance_error(c: ChannelState, accepted: u64) -> Option<ChannelError> {
    if accepted < c.accepted_seen {
        Some(
            ChannelError::AcceptedBackwards {
                core_id: c.core_id,
                before: c.accepted_seen,
                after: accepted,
            },
        )
    } else if accepted == c.accepted_seen {
        None
    } else if accepted != c.accepted_seen + 1 {
        Some(
            ChannelError::AcceptedSkipped {
                core_id: c.core_id,
                before: c.accepted_seen,
                after: accepted,
            },
        )
    } else if c.pending is None {
        Some(ChannelError::AcceptedUnsubmitted { core_id: c.core_id })
    } else if c.pending->Some_0.accepted_before != c.accepted_seen {
        Some(
            ChannelError::BaselineChanged {
                command_id: c.pending->Some_0.id,
                core_id: c.core_id,
            },
        )
    } else {
        None
    }
}

/// The commands in flight after reading `accepted` without error.
pub open spec fn inflight_after_accept(c: ChannelState, accepted: u64) -> Seq<CommandId> {
    if accepted == c.accepted_seen {
        c.inflight@
    } else {
        c.inflight@.push(c.pending->Some_0.id)
    }
}

/// The events of reading `accepted` without error.
pub open spec fn acceptance_events(c: ChannelState, accepted: u64) -> Seq<RushEvent> {
    if accepted == c.accepted_seen {
        Seq::empty()
    } else {
        seq![RushEvent { command_id: c.pending->Some_0.id, core_id: c.core_id, kind: RushEventKind::Accepted }]
    }
}

/// The completion events of the first `n` commands of `inflight`.
pub open spec fn completion_events(core_id: u32, inflight: Seq<CommandId>, n: int) -> Seq<RushEvent> {
    Seq::new(
        n as nat,
        |k: int| RushEvent { command_id: inflight[k], core_id, kind: RushEventKind::Completed },
    )
}

impl ChannelTracker {
    /// No core has two channels.
    pub open spec fn wf(&self) -> bool {
        forall|i: int, j: int|
            0 <= i < j < self.channels@.len() ==> self.channels@[i].core_id != self.channels@[j].core_id
    }

    /// No channels and no events.
    pub fn new() -> (r: ChannelTracker)
        ensures
            r.wf(),
            r.channels@.len() == 0,
            r.events@.len() == 0,
    {
        ChannelTracker { channels: Vec::new(), events: Vec::new() }
    }

    /// The channel of core `core_id`.
    pub fn find_channel(&self, core_id: u32) -> (r: Option<usize>)
        ensures
            match r {
                Some(i) => i < self.channels@.len() && self.channels@[i as int].core_id == core_id,
                None => forall|i: int| 0 <= i < self.channels@.len() ==> self.channels@[i].core_id != core_id,
            },
    {
        let mut i: usize = 0;
        while i < self.channels.len()
            invariant
                i <= self.channels@.len(),
                forall|j: int| 0 <= j < i ==> self.channels@[j].core_id != core_id,
            decreases self.channels@.len() - i,
        {
            if self.channels[i].core_id == core_id {
                return Some(i);
            }
            i = i + 1;
        }
        None
    }

    /// Records that `command` is being submitted to its core, whose counters
    /// read `accepted` and `completed`. A core seen for the first time takes
    /// these readings as its baseline. Refused while the core still has a
    /// pending command or when its counters moved since they were last read.
    pub fn submit(&mut self, command: &RushCommand, accepted: u64, completed: u64) -> (r: Result<
        (),
        ChannelError,
    >)
        requires
            old(self).wf(),
        ensures
            final(self).wf(),
            final(self).events == old(self).events,
            ({
                let known = exists|i: int|
                    0 <= i < old(self).channels@.len() && old(self).channels@[i].core_id
                        == command.core_id;
                if !known {
                    &&& final(self).channels@.len() == old(self).channels@.len() + 1
                    &&& forall|j: int| 0 <= j < old(self).channels@.len() ==> #[trigger] final(self).channels@[j] == old(self).channels@[j]
                    &&& final(self).channels@.last().core_id == command.core_id
                    &&& final(self).channels@.last().inflight@.len() == 0
                    &&& final(self).channels@.last().accepted_seen == accepted
                    &&& final(self).channels@.last().completed_seen == completed
                    &&& r is Ok
                    &&& final(self).channels@.last().pending == Some(
                        PendingCommand {
                            id: command.id,
                            accepted_before: accepted,
                            fence: command.funct7 == FUNCT7_FENCE,
                        },
                    )
                } else {
                    forall|i: int|
                        #![trigger old(self).channels@[i]]
                        0 <= i < old(self).channels@.len() && old(self).channels@[i].core_id
                            == command.core_id ==> {
                            let c0 = old(self).channels@[i];
                            let c1 = final(self).channels@[i];
                            &&& final(self).channels@.len() == old(self).channels@.len()
                            &&& forall|j: int| 0 <= j < old(self).channels@.len() && j != i ==> #[trigger] final(self).channels@[j] == old(self).channels@[j]
                            &&& c1.core_id == c0.core_id
                            &&& c1.inflight == c0.inflight
                            &&& c1.accepted_seen == c0.accepted_seen
                            &&& c1.completed_seen == c0.completed_seen
                            &&& if c0.pending is Some {
                                r == Err::<(), ChannelError>(ChannelError::PendingExists { command_id: command.id, core_id: command.core_id })
                                    && c1.pending == c0.pending
                            } else if accepted != c0.accepted_seen || completed != c0.completed_seen {
                                r == Err::<(), ChannelError>(ChannelError::CountersChanged { command_id: command.id, core_id: command.core_id })
                                    && c1.pending == c0.pending
                            } else {
                                r is Ok && c1.pending == Some(
                                    PendingCommand {
                                        id: command.id,
                                        accepted_before: accepted,
                                        fence: command.funct7 == FUNCT7_FENCE,
                                    },
                                )
                            }
                        }
                }
            }),
    {
        let core_id = command.core_id;
        let pending = PendingCommand {
            id: command.id,
            accepted_before: accepted,
            fence: command.funct7 == FUNCT7_FENCE,
        };
        match self.find_channel(core_id) {
            None => {
                self.channels.push(
                    ChannelState {
                        core_id,
                        pending: Some(pending),
                        inflight: Vec::new(),
                        accepted_seen: accepted,
                        completed_seen: completed,
                    },
                );
                Ok(())
            },
            Some(i) => {
                let ghost before = self.channels@;
                proof {
                    assert forall|j: int| 0 <= j < before.len() && before[j].core_id == core_id implies j == i by {
                        if j != i {
                            assert(before[j].core_id != before[i as int].core_id);
                        }
                    }
                }
                if self.channels[i].pending.is_some() {
                    return Err(ChannelError::PendingExists { command_id: command.id, core_id });
                }
                if accepted != self.channels[i].accepted_seen || completed
                    != self.channels[i].completed_seen {
                    return Err(ChannelError::CountersChanged { command_id: command.id, core_id });
                }
                let mut c = self.channels.remove(i);
                c.pending = Some(pending);
                self.channels.insert(i, c);
                proof {
                    assert forall|a: int, b: int| 0 <= a < b < self.channels@.len() implies self.channels@[a].core_id
                        != self.channels@[b].core_id by {
                        assert(before[a].core_id != before[b].core_id);
                    }
                }
                Ok(())
            },
        }
    }

    /// Reads the counters of channel `i`, `accepted` and `completed`: an
    /// acceptance moves the pending command in flight, each completion
    /// retires the oldest command in flight, and each becomes an event.
    /// Returns whether the core must be told to complete a just accepted
    /// fence.
    #[verifier::loop_isolation(false)]
    pub fn observe(&mut self, i: usize, accepted: u64, completed: u64) -> (r: Result<bool, ChannelError>)
        requires
            old(self).wf(),
            i < old(self).channels@.len(),
        ensures
            final(self).wf(),
            final(self).channels@.len() == old(self).channels@.len(),
            forall|j: int| 0 <= j < old(self).channels@.len() && j != i ==> #[trigger] final(self).channels@[j] == old(self).channels@[j],
            final(self).channels@[i as int].core_id == old(self).channels@[i as int].core_id,
            ({
                let c0 = old(self).channels@[i as int];
                let inflight1 = inflight_after_accept(c0, accepted);
                let n = completed - c0.completed_seen;
                let c1 = final(self).channels@[i as int];
                let pending1 = if accepted == c0.accepted_seen { c0.pending } else { None };
                match acceptance_error(c0, accepted) {
                    Some(e) => {
                        &&& r == Err::<bool, ChannelError>(e)
                        &&& final(self).events == old(self).events
                        &&& c1.accepted_seen == c0.accepted_seen
                        &&& c1.completed_seen == c0.completed_seen
                        &&& c1.inflight == c0.inflight
                        &&& c1.pending == (if e is BaselineChanged { None } else { c0.pending })
                    },
                    None => if completed < c0.completed_seen {
                        &&& r == Err::<bool, ChannelError>(ChannelError::CompletedBackwards { core_id: c0.core_id, before: c0.completed_seen, after: completed })
                        &&& c1.accepted_seen == accepted
                        &&& c1.completed_seen == c0.completed_seen
                        &&& c1.pending == pending1
                        &&& c1.inflight@ == inflight1
                        &&& final(self).events@ == old(self).events@ + acceptance_events(c0, accepted)
                    } else if n > inflight1.len() {
                        &&& r == Err::<bool, ChannelError>(ChannelError::CompletedNotInFlight { core_id: c0.core_id })
                        &&& c1.accepted_seen == accepted
                        &&& c1.completed_seen == c0.completed_seen + inflight1.len()
                        &&& c1.pending == pending1
                        &&& c1.inflight@.len() == 0
                        &&& final(self).events@ == old(self).events@ + acceptance_events(c0, accepted)
                            + completion_events(c0.core_id, inflight1, inflight1.len() as int)
                    } else {
                        &&& r == Ok::<bool, ChannelError>(accepted != c0.accepted_seen && c0.pending->Some_0.fence)
                        &&& c1.accepted_seen == accepted
                        &&& c1.completed_seen == completed
                        &&& c1.pending == (if accepted == c0.accepted_seen { c0.pending } else { None })
                        &&& c1.inflight@ == inflight1.skip(n)
                        &&& final(self).events@ == old(self).events@ + acceptance_events(c0, accepted)
                            + completion_events(c0.core_id, inflight1, n)
                    },
                }
            }),
    {
        let ghost before = self.channels@;
        let ghost c0 = self.channels@[i as int];
        let mut c = self.channels.remove(i);
        let ghost rest = self.channels@;
        let core_id = c.core_id;
        let mut fence = false;
        let result = if accepted < c.accepted_seen {
            Err(ChannelError::AcceptedBackwards { core_id, before: c.accepted_seen, after: accepted })
        } else if accepted > c.accepted_seen && accepted != c.accepted_seen + 1 {
            Err(ChannelError::AcceptedSkipped { core_id, before: c.accepted_seen, after: accepted })
        } else if accepted > c.accepted_seen && c.pending.is_none() {
            Err(ChannelError::AcceptedUnsubmitted { core_id })
        } else if accepted > c.accepted_seen && c.pending.unwrap().accepted_before != c.accepted_seen {
            let p = c.pending.take().unwrap();
            Err(ChannelError::BaselineChanged { command_id: p.id, core_id })
        } else {
            if accepted > c.accepted_seen {
                let p = c.pending.take().unwrap();
                c.accepted_seen = accepted;
                c.inflight.push(p.id);
                self.events.push(RushEvent { command_id: p.id, core_id, kind: RushEventKind::Accepted });
                fence = p.fence;
            }
            assert(c.inflight@ == inflight_after_accept(c0, accepted));
            let ghost inflight1 = c.inflight@;
            let ghost events1 = self.events@;
            assert(events1 == old(self).events@ + acceptance_events(c0, accepted));
            if completed < c.completed_seen {
                Err(ChannelError::CompletedBackwards { core_id, before: c.completed_seen, after: completed })
            } else {
                let n1 = c.inflight.len();
                let ghost acc1 = c.accepted_seen;
                let ghost pend1 = c.pending;
                let mut popped: usize = 0;
                while c.completed_seen < completed && c.inflight.len() > 0
                    invariant
                        c.completed_seen <= completed,
                        c.completed_seen == c0.completed_seen + popped,
                        n1 == inflight1.len(),
                        popped <= inflight1.len(),
                        c.inflight@ == inflight1.skip(popped as int),
                        self.events@ == events1 + completion_events(core_id, inflight1, popped as int),
                        c.core_id == core_id,
                        c.accepted_seen == acc1,
                        c.pending == pend1,
                        self.channels@ == rest,
                    decreases completed - c.completed_seen,
                {
                    let id = c.inflight.remove(0);
                    assert(id == inflight1[popped as int]);
                    c.completed_seen = c.completed_seen + 1;
                    self.events.push(RushEvent { command_id: id, core_id, kind: RushEventKind::Completed });
                    popped = popped + 1;
                    assert(c.inflight@ =~= inflight1.skip(popped as int));
                    assert(completion_events(core_id, inflight1, popped as int) =~= completion_events(core_id, inflight1, popped - 1).push(
                        RushEvent { command_id: id, core_id, kind: RushEventKind::Completed },
                    ));
                }
                if c.completed_seen < completed {
                    assert(popped == inflight1.len());
                    Err(ChannelError::CompletedNotInFlight { core_id })
                } else {
                    assert(popped == completed - c0.completed_seen);
                    Ok(fence)
                }
            }
        };
        self.channels.insert(i, c);
        proof {
            assert forall|a: int, b: int| 0 <= a < b < self.channels@.len() implies self.channels@[a].core_id
                != self.channels@[b].core_id by {
                assert(before[a].core_id != before[b].core_id);
            }
        }
        result
    }

    /// The oldest event not yet handed out.
    pub fn pop_event(&mut self) -> (r: Option<RushEvent>)
        ensures
            final(self).channels == old(self).channels,
            match r {
                Some(e) => old(self).events@.len() > 0 && e == old(self).events@[0] && final(self).events@
                    == old(self).events@.drop_first(),
                None => old(self).events@.len() == 0 && final(self).events == old(self).events,
            },
    {
        if self.events.len() == 0 {
            None
        } else {
            Some(self.events.remove(0))
        }
    }

    /// No event is waiting and no channel has a command pending or in
    /// flight; the hardware's own in-flight counts are checked apart.
    pub fn channels_idle(&self) -> (r: bool)
        ensures
            r == (self.events@.len() == 0 && forall|i: int|
                0 <= i < self.channels@.len() ==> (#[trigger] self.channels@[i]).pending is None
                    && self.channels@[i].inflight@.len() == 0),
    {
        if self.events.len() != 0 {
            return false;
        }
        let mut i: usize = 0;
        while i < self.channels.len()
            invariant
                i <= self.channels@.len(),
                forall|j: int|
                    0 <= j < i ==> (#[trigger] self.channels@[j]).pending is None
                        && self.channels@[j].inflight@.len() == 0,
            decreases self.channels@.len() - i,
        {
            if self.channels[i].pending.is_some() || self.channels[i].inflight.len() != 0 {
                return false;
            }
            i = i + 1;
        }
        true
    }
}

} // verus!
