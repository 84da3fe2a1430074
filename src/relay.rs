//! The lifecycle of one connection, as a state machine.
//!
//! The task that owns a connection feeds each thing that happens to it into
//! `step` and carries out the commands it gets back, in order. The policy for
//! the greeting is serialize-before-input: the `Connect` event is queued
//! before the read loop starts, so it is always dispatched before the peer's
//! first message.
use vstd::prelude::*;
use crate::event::{ChatEvent, EventView, encoding};
use crate::registry::PeerId;

verus! {

/// Where a connection is in its life.
#[derive(PartialEq, Eq, Structural, Clone, Copy, Debug)]
pub enum RelayState {
    Handshaking,
    Active,
    Draining,
    Closed,
}

/// What happened to the connection.
pub enum RelayInput {
    /// The transport was upgraded to a framed duplex stream.
    HandshakeDone,
    /// The upgrade failed.
    HandshakeFailed,
    /// A text frame arrived, with its payload.
    Text(String),
    /// A frame of another kind arrived.
    NonText,
    /// One half of the connection stopped: the peer closed it, a read or a
    /// write failed, or the half was told to stop.
    HalfEnded,
    /// Everything queued for dispatch, the `Disconnect` included, has been
    /// dispatched.
    QueueDrained,
}

/// What the connection's task must do next.
pub enum Command {
    /// Put this peer's outbound channel in the registry.
    Register,
    /// Push a payload onto this connection's inbound queue.
    Enqueue(String),
    /// Cancel the half of the connection that is still running.
    CancelOther,
    /// Remove this peer from the registry.
    Unregister,
    /// Drop this connection's inbound queue and outbound channel.
    Release,
}

pub enum InputView {
    HandshakeDone,
    HandshakeFailed,
    Text(Seq<char>),
    NonText,
    HalfEnded,
    QueueDrained,
}

pub enum CommandView {
    Register,
    Enqueue(Seq<char>),
    CancelOther,
    Unregister,
    Release,
}

impl View for RelayInput {
    type V = InputView;

    open spec fn view(&self) -> InputView {
        match self {
            RelayInput::HandshakeDone => InputView::HandshakeDone,
            RelayInput::HandshakeFailed => InputView::HandshakeFailed,
            RelayInput::Text(t) => InputView::Text(t@),
            RelayInput::NonText => InputView::NonText,
            RelayInput::HalfEnded => InputView::HalfEnded,
            RelayInput::QueueDrained => InputView::QueueDrained,
        }
    }
}

impl View for Command {
    type V = CommandView;

    open spec fn view(&self) -> CommandView {
        match self {
            Command::Register => CommandView::Register,
            Command::Enqueue(t) => CommandView::Enqueue(t@),
            Command::CancelOther => CommandView::CancelOther,
            Command::Unregister => CommandView::Unregister,
            Command::Release => CommandView::Release,
        }
    }
}

/// The views of a sequence of commands.
pub open spec fn commands_view(s: Seq<Command>) -> Seq<CommandView> {
    s.map_values(|c: Command| c@)
}

/// The transition table: next state and commands, for the connection of
/// `peer`. An input that does not apply in a state changes nothing.
pub open spec fn transition(state: RelayState, input: InputView, peer: Seq<char>) -> (
    RelayState,
    Seq<CommandView>,
) {
    match (state, input) {
        (RelayState::Handshaking, InputView::HandshakeDone) => (
            RelayState::Active,
            seq![
                CommandView::Register,
                CommandView::Enqueue(encoding(EventView::Connect(peer))),
            ],
        ),
        (RelayState::Handshaking, InputView::HandshakeFailed) => (RelayState::Closed, seq![]),
        (RelayState::Active, InputView::Text(t)) => (
            RelayState::Active,
            seq![CommandView::Enqueue(t)],
        ),
        (RelayState::Active, InputView::HalfEnded) => (
            RelayState::Draining,
            seq![
                CommandView::CancelOther,
                CommandView::Enqueue(encoding(EventView::Disconnect(peer))),
            ],
        ),
        (RelayState::Draining, InputView::QueueDrained) => (
            RelayState::Closed,
            seq![CommandView::Unregister, CommandView::Release],
        ),
        _ => (state, seq![]),
    }
}

/// Advances the connection of `peer` from `state` on `input`.
pub fn step(state: RelayState, input: RelayInput, peer: &PeerId) -> (r: (RelayState, Vec<Command>))
    ensures
        (r.0, commands_view(r.1@)) == transition(state, input@, peer@),
{
    let ghost iv = input@;
    let mut cmds: Vec<Command> = Vec::new();
    let next = match (state, input) {
        (RelayState::Handshaking, RelayInput::HandshakeDone) => {
            let hello = ChatEvent::Connect { addr: peer.addr.clone() };
            cmds.push(Command::Register);
            cmds.push(Command::Enqueue(hello.encode()));
            RelayState::Active
        },
        (RelayState::Handshaking, RelayInput::HandshakeFailed) => RelayState::Closed,
        (RelayState::Active, RelayInput::Text(t)) => {
            cmds.push(Command::Enqueue(t));
            RelayState::Active
        },
        (RelayState::Active, RelayInput::HalfEnded) => {
            let bye = ChatEvent::Disconnect { addr: peer.addr.clone() };
            cmds.push(Command::CancelOther);
            cmds.push(Command::Enqueue(bye.encode()));
            RelayState::Draining
        },
        (RelayState::Draining, RelayInput::QueueDrained) => {
            cmds.push(Command::Unregister);
            cmds.push(Command::Release);
            RelayState::Closed
        },
        (s, _) => s,
    };
    assert(commands_view(cmds@) =~= transition(state, iv, peer@).1);
    (next, cmds)
}

/// A connection whose handshake fails never asks to be registered, and a
/// closed connection stays closed whatever happens to it.
pub proof fn lemma_failed_handshake_never_registers(peer: Seq<char>, input: InputView)
    ensures
        transition(RelayState::Handshaking, InputView::HandshakeFailed, peer) == (
            RelayState::Closed,
            Seq::<CommandView>::empty(),
        ),
        transition(RelayState::Closed, input, peer) == (
            RelayState::Closed,
            Seq::<CommandView>::empty(),
        ),
{
}

} // verus!
