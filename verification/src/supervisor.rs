use vstd::prelude::*;

use crate::config::ConnectState;

verus! {

// ---------------------------------------------------------------------------
// Error classification
// ---------------------------------------------------------------------------

/// The I/O error classes the supervisor distinguishes. Anything it does
/// not know by name is `OtherIo`.
#[derive(Clone, Copy, Debug, PartialEq, Eq, Structural)]
pub enum IoErrorKind {
    UnexpectedEof,
    InvalidData,
    WouldBlock,
    TimedOut,
    Uncategorized,
    OtherIo,
}

/// A failed transport read leaves the driver's buffers desynchronised:
/// only a fresh socket recovers. These two kinds tear the connection
/// down; every other error is retried per operation.
pub open spec fn spec_is_fatal(k: IoErrorKind) -> bool {
    k == IoErrorKind::UnexpectedEof || k == IoErrorKind::InvalidData
}

/// Whether a transport error ends the connection (reconnect with backoff)
/// or only fails the one command.
pub fn is_fatal(k: IoErrorKind) -> (r: bool)
    ensures
        r == spec_is_fatal(k),
{
    match k {
        IoErrorKind::UnexpectedEof | IoErrorKind::InvalidData => true,
        _ => false,
    }
}

// ---------------------------------------------------------------------------
// Address arithmetic
// ---------------------------------------------------------------------------

/// The effective register address: the declared address plus the
/// connection's signed offset, in the 16-bit unsigned domain. `None`
/// where the sum leaves the domain; the caller reports the bad definition
/// and skips the poll instead of wrapping silently.
pub fn effective_address(address: u16, offset: i8) -> (r: Option<u16>)
    ensures
        match r {
            Some(a) => a as int == address + offset,
            None => address + offset < 0 || address + offset > 65535,
        },
{
    let wide: i32 = (address as i32) + (offset as i32);
    if 0 <= wide && wide <= 65535 {
        Some(wide as u16)
    } else {
        None
    }
}

// ---------------------------------------------------------------------------
// Backoff
// ---------------------------------------------------------------------------

/// The first wait after a failure, in seconds.
pub open spec fn spec_start_backoff() -> int {
    2
}

/// The longest wait between reconnect attempts, in seconds.
pub open spec fn spec_max_backoff() -> int {
    300
}

/// The wait after one more consecutive failure: doubled, up to the cap.
pub open spec fn spec_next_backoff(b: u64) -> u64 {
    if 2 * b <= 300 {
        (2 * b) as u64
    } else {
        300
    }
}

pub fn next_backoff(b: u64) -> (r: u64)
    requires
        b <= 300,
    ensures
        r == spec_next_backoff(b),
{
    if 2 * b <= 300 {
        2 * b
    } else {
        300
    }
}

// ---------------------------------------------------------------------------
// The supervisor state machine
// ---------------------------------------------------------------------------

/// The supervisor's lifecycle states.
#[derive(Clone, Copy, Debug, PartialEq, Eq, Structural)]
pub enum SupervisorState {
    /// Connecting to the device.
    Opening,
    /// Connected; serving the command inbox.
    Serving,
    /// Torn down after a failure; waiting out the current backoff.
    Backoff,
    /// Shutting down; terminal.
    Draining,
}

/// How serving one inbox command went.
#[derive(Clone, Copy, Debug, PartialEq, Eq, Structural)]
pub enum CommandOutcome {
    /// The command round-tripped: the reply carried the device's answer.
    Success,
    /// The transport failed for this operation only; the connection
    /// stays up and the requester got the error.
    Transient,
    /// The transport failed in a way that needs a fresh connection.
    Fatal,
}

/// What the world tells the supervisor.
#[derive(Clone, Copy, Debug, PartialEq, Eq, Structural)]
pub enum SupervisorEvent {
    /// The transport connect finished.
    ConnectFinished { ok: bool },
    /// One inbox command was served and its reply sent.
    CommandFinished { outcome: CommandOutcome },
    /// Every command sender is gone.
    InboxClosed,
    /// The process is shutting down.
    ShutdownRequested,
    /// The backoff sleep ran out.
    BackoffElapsed,
}

/// What the supervisor asks its runtime to do, in order.
#[derive(Clone, Copy, Debug, PartialEq, Eq, Structural)]
pub enum SupervisorAction {
    /// Publish this state on the connection's `state` topic (best effort).
    PublishState(ConnectState),
    /// Publish the failure text on the connection's `last_error` topic.
    PublishLastError,
    /// Open the transport.
    Connect,
    /// Sleep this many seconds, cancellable by shutdown.
    Sleep(u64),
    /// Tear everything down; no further events will be handled.
    Stop,
}

/// The supervisor of one Modbus connection: its lifecycle state and the
/// current reconnect backoff.
#[derive(Clone, Copy, Debug, PartialEq, Eq, Structural)]
pub struct Supervisor {
    pub state: SupervisorState,
    pub backoff_secs: u64,
}

/// The backoff is always between its start value and its cap.
pub open spec fn supervisor_wf(s: Supervisor) -> bool {
    spec_start_backoff() <= s.backoff_secs <= spec_max_backoff()
}

/// One transition of the lifecycle table: the next state and the actions
/// its entry performs.
pub open spec fn spec_step(s: Supervisor, e: SupervisorEvent) -> (Supervisor, Seq<
    SupervisorAction,
>) {
    match s.state {
        SupervisorState::Opening => match e {
            SupervisorEvent::ConnectFinished { ok: true } => (
                Supervisor { state: SupervisorState::Serving, ..s },
                seq![SupervisorAction::PublishState(ConnectState::Connected)],
            ),
            SupervisorEvent::ConnectFinished { ok: false } => (
                Supervisor {
                    state: SupervisorState::Backoff,
                    backoff_secs: spec_next_backoff(s.backoff_secs),
                },
                seq![
                    SupervisorAction::PublishState(ConnectState::Errored),
                    SupervisorAction::PublishLastError,
                    SupervisorAction::Sleep(s.backoff_secs),
                ],
            ),
            SupervisorEvent::ShutdownRequested => (
                Supervisor { state: SupervisorState::Draining, ..s },
                seq![
                    SupervisorAction::PublishState(ConnectState::Disconnected),
                    SupervisorAction::Stop,
                ],
            ),
            _ => (s, Seq::empty()),
        },
        SupervisorState::Serving => match e {
            SupervisorEvent::CommandFinished { outcome: CommandOutcome::Success } => (
                Supervisor { backoff_secs: spec_start_backoff() as u64, ..s },
                Seq::empty(),
            ),
            SupervisorEvent::CommandFinished { outcome: CommandOutcome::Transient } => (
                s,
                Seq::empty(),
            ),
            SupervisorEvent::CommandFinished { outcome: CommandOutcome::Fatal } => (
                Supervisor {
                    state: SupervisorState::Backoff,
                    backoff_secs: spec_next_backoff(s.backoff_secs),
                },
                seq![
                    SupervisorAction::PublishState(ConnectState::Errored),
                    SupervisorAction::PublishLastError,
                    SupervisorAction::Sleep(s.backoff_secs),
                ],
            ),
            SupervisorEvent::InboxClosed | SupervisorEvent::ShutdownRequested => (
                Supervisor { state: SupervisorState::Draining, ..s },
                seq![
                    SupervisorAction::PublishState(ConnectState::Disconnected),
                    SupervisorAction::Stop,
                ],
            ),
            _ => (s, Seq::empty()),
        },
        SupervisorState::Backoff => match e {
            SupervisorEvent::BackoffElapsed => (
                Supervisor { state: SupervisorState::Opening, ..s },
                seq![
                    SupervisorAction::PublishState(ConnectState::Connecting),
                    SupervisorAction::Connect,
                ],
            ),
            SupervisorEvent::ShutdownRequested => (
                Supervisor { state: SupervisorState::Draining, ..s },
                seq![
                    SupervisorAction::PublishState(ConnectState::Disconnected),
                    SupervisorAction::Stop,
                ],
            ),
            _ => (s, Seq::empty()),
        },
        SupervisorState::Draining => (s, Seq::empty()),
    }
}

impl Supervisor {
    /// A fresh supervisor, about to open its transport. The caller
    /// performs the returned entry actions of the initial state.
    pub fn new() -> (r: (Supervisor, Vec<SupervisorAction>))
        ensures
            r.0 == (Supervisor { state: SupervisorState::Opening, backoff_secs: 2 }),
            supervisor_wf(r.0),
            r.1@ == seq![
                SupervisorAction::PublishState(ConnectState::Connecting),
                SupervisorAction::Connect,
            ],
    {
        let mut actions: Vec<SupervisorAction> = Vec::new();
        actions.push(SupervisorAction::PublishState(ConnectState::Connecting));
        actions.push(SupervisorAction::Connect);
        proof {
            assert(actions@ =~= seq![
                SupervisorAction::PublishState(ConnectState::Connecting),
                SupervisorAction::Connect,
            ]);
        }
        (Supervisor { state: SupervisorState::Opening, backoff_secs: 2 }, actions)
    }

    /// Feeds one event through the lifecycle table.
    pub fn step(&mut self, e: SupervisorEvent) -> (actions: Vec<SupervisorAction>)
        requires
            supervisor_wf(*old(self)),
        ensures
            supervisor_wf(*final(self)),
            (*final(self), actions@) == spec_step(*old(self), e),
    {
        let mut actions: Vec<SupervisorAction> = Vec::new();
        match self.state {
            SupervisorState::Opening => match e {
                SupervisorEvent::ConnectFinished { ok } => {
                    if ok {
                        self.state = SupervisorState::Serving;
                        actions.push(SupervisorAction::PublishState(ConnectState::Connected));
                    } else {
                        actions.push(SupervisorAction::PublishState(ConnectState::Errored));
                        actions.push(SupervisorAction::PublishLastError);
                        actions.push(SupervisorAction::Sleep(self.backoff_secs));
                        self.state = SupervisorState::Backoff;
                        self.backoff_secs = next_backoff(self.backoff_secs);
                    }
                },
                SupervisorEvent::ShutdownRequested => {
                    self.state = SupervisorState::Draining;
                    actions.push(SupervisorAction::PublishState(ConnectState::Disconnected));
                    actions.push(SupervisorAction::Stop);
                },
                _ => {},
            },
            SupervisorState::Serving => match e {
                SupervisorEvent::CommandFinished { outcome } => match outcome {
                    CommandOutcome::Fatal => {
                        actions.push(SupervisorAction::PublishState(ConnectState::Errored));
                        actions.push(SupervisorAction::PublishLastError);
                        actions.push(SupervisorAction::Sleep(self.backoff_secs));
                        self.state = SupervisorState::Backoff;
                        self.backoff_secs = next_backoff(self.backoff_secs);
                    },
                    CommandOutcome::Success => {
                        // only a successful round-trip resets the backoff
                        self.backoff_secs = 2;
                    },
                    CommandOutcome::Transient => {},
                },
                SupervisorEvent::InboxClosed | SupervisorEvent::ShutdownRequested => {
                    self.state = SupervisorState::Draining;
                    actions.push(SupervisorAction::PublishState(ConnectState::Disconnected));
                    actions.push(SupervisorAction::Stop);
                },
                _ => {},
            },
            SupervisorState::Backoff => match e {
                SupervisorEvent::BackoffElapsed => {
                    self.state = SupervisorState::Opening;
                    actions.push(SupervisorAction::PublishState(ConnectState::Connecting));
                    actions.push(SupervisorAction::Connect);
                },
                SupervisorEvent::ShutdownRequested => {
                    self.state = SupervisorState::Draining;
                    actions.push(SupervisorAction::PublishState(ConnectState::Disconnected));
                    actions.push(SupervisorAction::Stop);
                },
                _ => {},
            },
            SupervisorState::Draining => {},
        }
        proof {
            assert((*self, actions@) =~~= spec_step(*old(self), e));
        }
        actions
    }
}

// ---------------------------------------------------------------------------
// The command inbox
// ---------------------------------------------------------------------------

/// One command in the supervisor's inbox, as the ordering model sees it:
/// which monitor sent it, identified by its reply channel.
#[derive(Clone, Copy, Debug, PartialEq, Eq, Structural)]
pub struct InboxCommand {
    pub sender: u64,
}

/// The replies the supervisor sends for an inbox: it serves one command
/// at a time in arrival order, so the i-th reply answers the i-th command
/// and goes back to its sender. At most one Modbus operation is ever in
/// flight, because the reply to a command is produced before the next
/// command is taken.
pub open spec fn replies_of(cmds: Seq<InboxCommand>) -> Seq<u64> {
    Seq::new(cmds.len(), |i: int| cmds[i].sender)
}

/// The request positions a sender sees answered, in reply order.
pub open spec fn sender_positions(cmds: Seq<InboxCommand>, sender: u64) -> Seq<int>
    decreases cmds.len(),
{
    if cmds.len() == 0 {
        Seq::empty()
    } else {
        let prefix = sender_positions(cmds.drop_last(), sender);
        if cmds.last().sender == sender {
            prefix.push(cmds.len() - 1)
        } else {
            prefix
        }
    }
}

/// The inbox preserves the total order of requests to replies per sender:
/// the replies a sender sees answer exactly its own requests, in their
/// arrival order — of two commands from one sender the earlier one is
/// answered earlier, and every reply goes to the sender of the command it
/// answers.
pub proof fn lemma_inbox_fifo(cmds: Seq<InboxCommand>, sender: u64)
    ensures
        forall|k: int|
            0 <= k < sender_positions(cmds, sender).len() ==> {
                let p = #[trigger] sender_positions(cmds, sender)[k];
                0 <= p < cmds.len() && cmds[p].sender == sender && replies_of(cmds)[p] == sender
            },
        forall|k: int|
            0 < k < sender_positions(cmds, sender).len() ==> sender_positions(cmds, sender)[k - 1]
                < #[trigger] sender_positions(cmds, sender)[k],
    decreases cmds.len(),
{
    if cmds.len() > 0 {
        lemma_inbox_fifo(cmds.drop_last(), sender);
        let prefix = sender_positions(cmds.drop_last(), sender);
        let whole = sender_positions(cmds, sender);
        assert forall|k: int| 0 <= k < whole.len() implies {
            let p = #[trigger] whole[k];
            0 <= p < cmds.len() && cmds[p].sender == sender && replies_of(cmds)[p] == sender
        } by {
            if k < prefix.len() {
                assert(whole[k] == prefix[k]);
                assert(cmds.drop_last()[prefix[k]] == cmds[prefix[k]]);
            } else {
                assert(whole[k] == cmds.len() - 1);
            }
        }
        assert forall|k: int| 0 < k < whole.len() implies whole[k - 1] < #[trigger] whole[k] by {
            if k < prefix.len() {
                assert(whole[k] == prefix[k] && whole[k - 1] == prefix[k - 1]);
            } else if k == prefix.len() && whole.len() > prefix.len() {
                assert(whole[k] == cmds.len() - 1);
                assert(whole[k - 1] == prefix[k - 1]);
                assert(0 <= prefix[k - 1] < cmds.drop_last().len());
            }
        }
    }
}

} // verus!