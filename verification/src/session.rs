//! The client side of the chat: the state machine of one logical session
//! with the server.
//!
//! The machine does no input or output. At every moment its state names one
//! piece of outside work, the [`Action`]: dial, transmit a frame, wait for a
//! frame, sleep. Whoever drives the machine does that work and hands back
//! what came of it as an [`Input`]; the machine moves to its next state and
//! may emit an [`Event`] for the user of the session. An input that does
//! not belong to the state's action is ignored.

use vstd::prelude::*;
use crate::codec::{
    CodecError, client_text, decode_server, server_result_view,
};
use crate::message::{
    ClientMessageView, MessageData, ServerMessageView, UserView, WebSocketClientToServerMessage,
    WebSocketServerToClientMessage, roster_view,
};

verus! {

/// The pause before a failed dial is tried again, in milliseconds.
pub const RETRY_MILLIS: u64 = 1000;

/// How many commands can wait to be transmitted.
pub const QUEUE_CAPACITY: usize = 10;

// ---------------------------------------------------------------------------
// The machine as a mathematical object
// ---------------------------------------------------------------------------

/// How far an attempt to connect has come.
pub enum AttemptView {
    /// The transport is being dialled.
    Dialing,
    /// The transport is up and `Connect` is being transmitted.
    Greeting,
    /// `Connect` was sent; the server's `Connected` is awaited.
    AwaitingIdentity,
    /// `Connected` gave the id and the name; the server's roster is
    /// awaited.
    AwaitingRoster(u32, Seq<char>),
    /// The attempt failed; the next one starts after a pause.
    BackingOff,
}

/// The state of a session.
pub enum SessionView {
    /// Nothing is known yet of the server or the user.
    WaitingForConfig,
    /// The url and the name were supplied and are about to be taken up.
    AwaitingDial { url: Seq<char>, name: Seq<char> },
    /// There is no live connection; an attempt to get one is under way.
    Disconnected { url: Seq<char>, name: Seq<char>, attempt: AttemptView },
    /// The handshake is complete. `queue` holds the commands that wait to
    /// be transmitted, oldest first; while `sending`, the oldest is being
    /// transmitted.
    Connected {
        url: Seq<char>,
        name: Seq<char>,
        id: u32,
        queue: Seq<ClientMessageView>,
        sending: bool,
    },
}

/// What came of the outside work.
pub enum InputView {
    /// The user of the session supplied the server's url and a display
    /// name.
    Configured(Seq<char>, Seq<char>),
    /// No outside work was asked for; the machine may go on.
    Proceed,
    /// The transport was established.
    DialSucceeded,
    /// The transport could not be established.
    DialFailed,
    /// The frame was transmitted.
    Transmitted,
    /// The frame could not be transmitted.
    TransmitFailed,
    /// A text frame arrived.
    Frame(Seq<char>),
    /// A frame arrived that is no text frame.
    OtherFrame,
    /// The transport failed or was closed.
    TransportClosed,
    /// A command waits in the queue.
    CommandReady,
    /// Nobody holds the session any more: no command will ever arrive.
    CommandsClosed,
    /// The pause is over.
    BackoffElapsed,
}

/// What the session tells its user.
pub enum EventView {
    /// The session is live: the id that the server gave, and who is
    /// connected.
    Connected(u32, Seq<UserView>),
    /// The session is not live (any more); the machine is trying again.
    Disconnected,
    /// The server sent a message.
    MessageReceived(ServerMessageView),
}

/// The outside work that a state asks for.
pub enum ActionView {
    /// Wait until the user supplies the url and the name.
    AwaitConfig,
    /// Nothing: hand the machine `Proceed`.
    Proceed,
    /// Drop the transport of the last attempt, if there is one, and dial
    /// the url.
    Dial(Seq<char>),
    /// Transmit the text frame.
    Transmit(Seq<char>),
    /// Wait for the next frame.
    AwaitFrame,
    /// Wait for the next frame or the next command, whichever comes first.
    AwaitEither,
    /// Drop the transport, if there is one, and sleep for so many
    /// milliseconds.
    Backoff(u64),
}

/// The invariant of a session's state: at most `QUEUE_CAPACITY` commands
/// wait, and one is being transmitted only if one waits.
pub open spec fn session_ok(s: SessionView) -> bool {
    match s {
        SessionView::Connected { queue, sending, .. } => queue.len() <= QUEUE_CAPACITY && (sending
            ==> queue.len() > 0),
        _ => true,
    }
}

/// The outside work that the state `s` asks for.
pub open spec fn action_of(s: SessionView) -> ActionView {
    match s {
        SessionView::WaitingForConfig => ActionView::AwaitConfig,
        SessionView::AwaitingDial { .. } => ActionView::Proceed,
        SessionView::Disconnected { url, name, attempt } => match attempt {
            AttemptView::Dialing => ActionView::Dial(url),
            AttemptView::Greeting => ActionView::Transmit(
                client_text(ClientMessageView::Connect(name)),
            ),
            AttemptView::AwaitingIdentity => ActionView::AwaitFrame,
            AttemptView::AwaitingRoster(_, _) => ActionView::AwaitFrame,
            AttemptView::BackingOff => ActionView::Backoff(RETRY_MILLIS),
        },
        SessionView::Connected { queue, sending, .. } => if sending && queue.len() > 0 {
            ActionView::Transmit(client_text(queue[0]))
        } else {
            ActionView::AwaitEither
        },
    }
}

/// The state in which a failed attempt leaves the session: the same url and
/// name, and a pause before the next attempt.
pub open spec fn retrying(url: Seq<char>, name: Seq<char>) -> SessionView {
    SessionView::Disconnected { url, name, attempt: AttemptView::BackingOff }
}

/// The state in which a lost connection leaves the session: the same url
/// and name, and a new attempt at once.
pub open spec fn redialing(url: Seq<char>, name: Seq<char>) -> SessionView {
    SessionView::Disconnected { url, name, attempt: AttemptView::Dialing }
}

/// Whether the input `i` ends the attempt that is in the stage `attempt`.
pub open spec fn attempt_fails(attempt: AttemptView, i: InputView) -> bool {
    match attempt {
        AttemptView::Dialing => i is DialFailed,
        AttemptView::Greeting => i is TransmitFailed || i is TransportClosed,
        AttemptView::AwaitingIdentity => match i {
            InputView::Frame(f) => !(decode_server(f) matches Ok(ServerMessageView::Connected(_, _))),
            InputView::OtherFrame => true,
            InputView::TransportClosed => true,
            _ => false,
        },
        AttemptView::AwaitingRoster(_, _) => match i {
            InputView::Frame(f) => !(decode_server(f) matches Ok(ServerMessageView::AllUsers(_))),
            InputView::OtherFrame => true,
            InputView::TransportClosed => true,
            _ => false,
        },
        AttemptView::BackingOff => false,
    }
}

/// Whether the input `i` ends the live connection.
pub open spec fn connection_ends(sending: bool, i: InputView) -> bool {
    i is TransportClosed || i is CommandsClosed || (sending && i is TransmitFailed)
}

/// The state that follows `s` on the input `i`.
pub open spec fn next_state(s: SessionView, i: InputView) -> SessionView {
    match s {
        SessionView::WaitingForConfig => match i {
            InputView::Configured(url, name) => SessionView::AwaitingDial { url, name },
            _ => s,
        },
        SessionView::AwaitingDial { url, name } => match i {
            InputView::Proceed => redialing(url, name),
            _ => s,
        },
        SessionView::Disconnected { url, name, attempt } => if attempt_fails(attempt, i) {
            retrying(url, name)
        } else {
            match (attempt, i) {
                (AttemptView::Dialing, InputView::DialSucceeded) => SessionView::Disconnected {
                    url,
                    name,
                    attempt: AttemptView::Greeting,
                },
                (AttemptView::Greeting, InputView::Transmitted) => SessionView::Disconnected {
                    url,
                    name,
                    attempt: AttemptView::AwaitingIdentity,
                },
                (AttemptView::AwaitingIdentity, InputView::Frame(f)) => match decode_server(f) {
                    Ok(ServerMessageView::Connected(id, given)) => SessionView::Disconnected {
                        url,
                        name,
                        attempt: AttemptView::AwaitingRoster(id, given),
                    },
                    _ => s,
                },
                (AttemptView::AwaitingRoster(id, given), InputView::Frame(f)) => match decode_server(
                    f,
                ) {
                    Ok(ServerMessageView::AllUsers(_)) => SessionView::Connected {
                        url,
                        name: given,
                        id,
                        queue: Seq::empty(),
                        sending: false,
                    },
                    _ => s,
                },
                (AttemptView::BackingOff, InputView::BackoffElapsed) => redialing(url, name),
                _ => s,
            }
        },
        SessionView::Connected { url, name, id, queue, sending } => if connection_ends(sending, i) {
            redialing(url, name)
        } else {
            match i {
                InputView::CommandReady => if !sending && queue.len() > 0 {
                    SessionView::Connected { url, name, id, queue, sending: true }
                } else {
                    s
                },
                InputView::Transmitted => if sending && queue.len() > 0 {
                    SessionView::Connected { url, name, id, queue: queue.skip(1), sending: false }
                } else {
                    s
                },
                _ => s,
            }
        },
    }
}

/// What the session tells its user when the input `i` arrives in the state
/// `s`.
pub open spec fn emitted(s: SessionView, i: InputView) -> Option<EventView> {
    match s {
        SessionView::WaitingForConfig => None,
        SessionView::AwaitingDial { .. } => None,
        SessionView::Disconnected { attempt, .. } => if attempt_fails(attempt, i) {
            Some(EventView::Disconnected)
        } else {
            match (attempt, i) {
                (AttemptView::AwaitingRoster(id, _), InputView::Frame(f)) => match decode_server(f) {
                    Ok(ServerMessageView::AllUsers(users)) => Some(EventView::Connected(id, users)),
                    _ => None,
                },
                _ => None,
            }
        },
        SessionView::Connected { sending, .. } => if connection_ends(sending, i) {
            Some(EventView::Disconnected)
        } else {
            match i {
                InputView::Frame(f) => match decode_server(f) {
                    Ok(m) => Some(EventView::MessageReceived(m)),
                    Err(_) => None,
                },
                _ => None,
            }
        },
    }
}

/// Why a command was not taken.
#[derive(Debug, Clone, Copy, PartialEq, Eq, Structural)]
pub enum SendError {
    /// As many commands wait as the queue can hold.
    Full,
    /// The session is not connected.
    Closed,
}

/// What submitting a command in the state `s` returns.
pub open spec fn submit_result(s: SessionView) -> Result<(), SendError> {
    match s {
        SessionView::Connected { queue, .. } => if queue.len() >= QUEUE_CAPACITY {
            Err(SendError::Full)
        } else {
            Ok(())
        },
        _ => Err(SendError::Closed),
    }
}

/// The state after the command `m` was submitted in the state `s`.
pub open spec fn submitted(s: SessionView, m: ClientMessageView) -> SessionView {
    match s {
        SessionView::Connected { url, name, id, queue, sending } => if queue.len()
            >= QUEUE_CAPACITY {
            s
        } else {
            SessionView::Connected { url, name, id, queue: queue.push(m), sending }
        },
        _ => s,
    }
}

// ---------------------------------------------------------------------------
// The machine as data
// ---------------------------------------------------------------------------

/// How far an attempt to connect has come; see [`AttemptView`].
#[derive(Debug, Clone, PartialEq, Eq)]
pub enum Attempt {
    Dialing,
    Greeting,
    AwaitingIdentity,
    AwaitingRoster(u32, String),
    BackingOff,
}

impl View for Attempt {
    type V = AttemptView;

    open spec fn view(&self) -> AttemptView {
        match self {
            Attempt::Dialing => AttemptView::Dialing,
            Attempt::Greeting => AttemptView::Greeting,
            Attempt::AwaitingIdentity => AttemptView::AwaitingIdentity,
            Attempt::AwaitingRoster(id, name) => AttemptView::AwaitingRoster(*id, name@),
            Attempt::BackingOff => AttemptView::BackingOff,
        }
    }
}

/// The value of each command of a list.
pub open spec fn commands_view(queue: Seq<WebSocketClientToServerMessage>) -> Seq<
    ClientMessageView,
> {
    Seq::new(queue.len(), |i: int| queue[i]@)
}

/// The state of a session; see [`SessionView`].
#[derive(Debug, Clone, PartialEq, Eq)]
pub enum SessionState {
    WaitingForConfig,
    AwaitingDial { url: String, name: String },
    Disconnected { url: String, name: String, attempt: Attempt },
    Connected {
        url: String,
        name: String,
        id: u32,
        queue: Vec<WebSocketClientToServerMessage>,
        sending: bool,
    },
}

impl View for SessionState {
    type V = SessionView;

    open spec fn view(&self) -> SessionView {
        match self {
            SessionState::WaitingForConfig => SessionView::WaitingForConfig,
            SessionState::AwaitingDial { url, name } => SessionView::AwaitingDial {
                url: url@,
                name: name@,
            },
            SessionState::Disconnected { url, name, attempt } => SessionView::Disconnected {
                url: url@,
                name: name@,
                attempt: attempt@,
            },
            SessionState::Connected { url, name, id, queue, sending } => SessionView::Connected {
                url: url@,
                name: name@,
                id: *id,
                queue: commands_view(queue@),
                sending: *sending,
            },
        }
    }
}

/// What came of the outside work; see [`InputView`].
#[derive(Debug, Clone, PartialEq, Eq)]
pub enum Input {
    Configured(String, String),
    Proceed,
    DialSucceeded,
    DialFailed,
    Transmitted,
    TransmitFailed,
    Frame(String),
    OtherFrame,
    TransportClosed,
    CommandReady,
    CommandsClosed,
    BackoffElapsed,
}

impl View for Input {
    type V = InputView;

    open spec fn view(&self) -> InputView {
        match self {
            Input::Configured(url, name) => InputView::Configured(url@, name@),
            Input::Proceed => InputView::Proceed,
            Input::DialSucceeded => InputView::DialSucceeded,
            Input::DialFailed => InputView::DialFailed,
            Input::Transmitted => InputView::Transmitted,
            Input::TransmitFailed => InputView::TransmitFailed,
            Input::Frame(f) => InputView::Frame(f@),
            Input::OtherFrame => InputView::OtherFrame,
            Input::TransportClosed => InputView::TransportClosed,
            Input::CommandReady => InputView::CommandReady,
            Input::CommandsClosed => InputView::CommandsClosed,
            Input::BackoffElapsed => InputView::BackoffElapsed,
        }
    }
}

/// What the session tells its user; see [`EventView`].
#[derive(Debug, Clone, PartialEq, Eq)]
pub enum Event {
    Connected(u32, Vec<(u32, String)>),
    Disconnected,
    MessageReceived(WebSocketServerToClientMessage),
}

impl View for Event {
    type V = EventView;

    open spec fn view(&self) -> EventView {
        match self {
            Event::Connected(id, users) => EventView::Connected(*id, roster_view(users@)),
            Event::Disconnected => EventView::Disconnected,
            Event::MessageReceived(m) => EventView::MessageReceived(m@),
        }
    }
}

/// The view of an event that may not be there.
pub open spec fn event_view(e: Option<Event>) -> Option<EventView> {
    match e {
        Some(e) => Some(e@),
        None => None,
    }
}

/// The outside work that a state asks for; see [`ActionView`].
#[derive(Debug, Clone, PartialEq, Eq)]
pub enum Action {
    AwaitConfig,
    Proceed,
    Dial(String),
    Transmit(String),
    AwaitFrame,
    AwaitEither,
    Backoff(u64),
}

impl View for Action {
    type V = ActionView;

    open spec fn view(&self) -> ActionView {
        match self {
            Action::AwaitConfig => ActionView::AwaitConfig,
            Action::Proceed => ActionView::Proceed,
            Action::Dial(url) => ActionView::Dial(url@),
            Action::Transmit(frame) => ActionView::Transmit(frame@),
            Action::AwaitFrame => ActionView::AwaitFrame,
            Action::AwaitEither => ActionView::AwaitEither,
            Action::Backoff(millis) => ActionView::Backoff(*millis),
        }
    }
}

#[derive(Debug)]
/// One logical session with the server: its state, and with it the queue
/// of commands that the user has submitted and that wait to be
/// transmitted.
pub struct Connection {
    state: SessionState,
}

impl View for Connection {
    type V = SessionView;

    closed spec fn view(&self) -> SessionView {
        self.state@
    }
}

/// A session in its first state, before anything is known of the server or
/// the user.
pub fn connect() -> (session: Connection)
    ensures
        session.wf(),
        session@ == SessionView::WaitingForConfig,
{
    Connection { state: SessionState::WaitingForConfig }
}

fn fail(url: String, name: String) -> (r: (SessionState, Option<Event>))
    ensures
        r.0@ == retrying(url@, name@),
        event_view(r.1) == Some(EventView::Disconnected),
{
    (SessionState::Disconnected { url, name, attempt: Attempt::BackingOff }, Some(Event::Disconnected))
}

fn lose(url: String, name: String) -> (r: (SessionState, Option<Event>))
    ensures
        r.0@ == redialing(url@, name@),
        event_view(r.1) == Some(EventView::Disconnected),
{
    (SessionState::Disconnected { url, name, attempt: Attempt::Dialing }, Some(Event::Disconnected))
}

fn attempt_step(url: String, name: String, attempt: Attempt, input: Input) -> (r: (
    SessionState,
    Option<Event>,
))
    ensures
        r.0@ == next_state(
            SessionView::Disconnected { url: url@, name: name@, attempt: attempt@ },
            input@,
        ),
        event_view(r.1) == emitted(
            SessionView::Disconnected { url: url@, name: name@, attempt: attempt@ },
            input@,
        ),
{
    match attempt {
        Attempt::Dialing => match input {
            Input::DialSucceeded => (
                SessionState::Disconnected { url, name, attempt: Attempt::Greeting },
                None,
            ),
            Input::DialFailed => fail(url, name),
            _ => (SessionState::Disconnected { url, name, attempt: Attempt::Dialing }, None),
        },
        Attempt::Greeting => match input {
            Input::Transmitted => (
                SessionState::Disconnected { url, name, attempt: Attempt::AwaitingIdentity },
                None,
            ),
            Input::TransmitFailed => fail(url, name),
            Input::TransportClosed => fail(url, name),
            _ => (SessionState::Disconnected { url, name, attempt: Attempt::Greeting }, None),
        },
        Attempt::AwaitingIdentity => match input {
            Input::Frame(f) => {
                let decoded = WebSocketServerToClientMessage::decode(f.as_str());
                assert(server_result_view(decoded) == decode_server(f@));
                match decoded {
                    Ok(WebSocketServerToClientMessage::Connected(id, given)) => (
                        SessionState::Disconnected {
                            url,
                            name,
                            attempt: Attempt::AwaitingRoster(id, given),
                        },
                        None,
                    ),
                    _ => fail(url, name),
                }
            },
            Input::OtherFrame => fail(url, name),
            Input::TransportClosed => fail(url, name),
            _ => (
                SessionState::Disconnected { url, name, attempt: Attempt::AwaitingIdentity },
                None,
            ),
        },
        Attempt::AwaitingRoster(id, given) => match input {
            Input::Frame(f) => {
                let decoded = WebSocketServerToClientMessage::decode(f.as_str());
                assert(server_result_view(decoded) == decode_server(f@));
                match decoded {
                    Ok(WebSocketServerToClientMessage::AllUsers(users)) => {
                        let queue: Vec<WebSocketClientToServerMessage> = Vec::new();
                        assert(commands_view(queue@) =~= Seq::<ClientMessageView>::empty());
                        (
                            SessionState::Connected {
                                url,
                                name: given,
                                id,
                                queue,
                                sending: false,
                            },
                            Some(Event::Connected(id, users)),
                        )
                    },
                    _ => fail(url, name),
                }
            },
            Input::OtherFrame => fail(url, name),
            Input::TransportClosed => fail(url, name),
            _ => (
                SessionState::Disconnected {
                    url,
                    name,
                    attempt: Attempt::AwaitingRoster(id, given),
                },
                None,
            ),
        },
        Attempt::BackingOff => match input {
            Input::BackoffElapsed => (
                SessionState::Disconnected { url, name, attempt: Attempt::Dialing },
                None,
            ),
            _ => (SessionState::Disconnected { url, name, attempt: Attempt::BackingOff }, None),
        },
    }
}

fn live_step(
    url: String,
    name: String,
    id: u32,
    queue: Vec<WebSocketClientToServerMessage>,
    sending: bool,
    input: Input,
) -> (r: (SessionState, Option<Event>))
    ensures
        r.0@ == next_state(
            SessionView::Connected {
                url: url@,
                name: name@,
                id,
                queue: commands_view(queue@),
                sending,
            },
            input@,
        ),
        event_view(r.1) == emitted(
            SessionView::Connected {
                url: url@,
                name: name@,
                id,
                queue: commands_view(queue@),
                sending,
            },
            input@,
        ),
{
    match input {
        Input::TransportClosed => lose(url, name),
        Input::CommandsClosed => lose(url, name),
        Input::TransmitFailed => if sending {
            lose(url, name)
        } else {
            (SessionState::Connected { url, name, id, queue, sending }, None)
        },
        Input::Frame(f) => {
            let decoded = WebSocketServerToClientMessage::decode(f.as_str());
            assert(server_result_view(decoded) == decode_server(f@));
            let event = match decoded {
                Ok(m) => Some(Event::MessageReceived(m)),
                Err(_) => None,
            };
            (SessionState::Connected { url, name, id, queue, sending }, event)
        },
        Input::CommandReady => if !sending && queue.len() > 0 {
            (SessionState::Connected { url, name, id, queue, sending: true }, None)
        } else {
            (SessionState::Connected { url, name, id, queue, sending }, None)
        },
        Input::Transmitted => if sending && queue.len() > 0 {
            let mut rest = queue;
            let _ = rest.remove(0);
            assert(commands_view(rest@) =~= commands_view(queue@).skip(1));
            (SessionState::Connected { url, name, id, queue: rest, sending: false }, None)
        } else {
            (SessionState::Connected { url, name, id, queue, sending }, None)
        },
        _ => (SessionState::Connected { url, name, id, queue, sending }, None),
    }
}

fn advance(state: SessionState, input: Input) -> (r: (SessionState, Option<Event>))
    ensures
        r.0@ == next_state(state@, input@),
        event_view(r.1) == emitted(state@, input@),
{
    match state {
        SessionState::WaitingForConfig => match input {
            Input::Configured(url, name) => (SessionState::AwaitingDial { url, name }, None),
            _ => (SessionState::WaitingForConfig, None),
        },
        SessionState::AwaitingDial { url, name } => match input {
            Input::Proceed => (
                SessionState::Disconnected { url, name, attempt: Attempt::Dialing },
                None,
            ),
            _ => (SessionState::AwaitingDial { url, name }, None),
        },
        SessionState::Disconnected { url, name, attempt } => attempt_step(url, name, attempt, input),
        SessionState::Connected { url, name, id, queue, sending } => live_step(
            url,
            name,
            id,
            queue,
            sending,
            input,
        ),
    }
}

impl Connection {
    /// The session's invariant; see [`session_ok`].
    pub open spec fn wf(&self) -> bool {
        session_ok(self@)
    }

    /// The state of the session.
    pub fn state(&self) -> (state: &SessionState)
        ensures
            state@ == self@,
    {
        &self.state
    }

    /// Whether the session is live.
    pub fn is_connected(&self) -> (b: bool)
        ensures
            b == (self@ is Connected),
    {
        match &self.state {
            SessionState::Connected { .. } => true,
            _ => false,
        }
    }

    /// The outside work that the session asks for in its present state.
    pub fn action(&self) -> (action: Action)
        ensures
            action@ == action_of(self@),
    {
        match &self.state {
            SessionState::WaitingForConfig => Action::AwaitConfig,
            SessionState::AwaitingDial { .. } => Action::Proceed,
            SessionState::Disconnected { url, name, attempt } => match attempt {
                Attempt::Dialing => Action::Dial(url.clone()),
                Attempt::Greeting => {
                    let greeting = WebSocketClientToServerMessage::Connect(name.clone());
                    Action::Transmit(greeting.encode())
                },
                Attempt::AwaitingIdentity => Action::AwaitFrame,
                Attempt::AwaitingRoster(_, _) => Action::AwaitFrame,
                Attempt::BackingOff => Action::Backoff(RETRY_MILLIS),
            },
            SessionState::Connected { queue, sending, .. } => if *sending && queue.len() > 0 {
                Action::Transmit(queue[0].encode())
            } else {
                Action::AwaitEither
            },
        }
    }

    /// Takes what came of the outside work, moves to the next state, and
    /// returns what the user of the session is to be told, if anything.
    pub fn step(&mut self, input: Input) -> (event: Option<Event>)
        requires
            old(self).wf(),
        ensures
            final(self).wf(),
            final(self)@ == next_state(old(self)@, input@),
            event_view(event) == emitted(old(self)@, input@),
    {
        proof {
            step_keeps_invariant(self@, input@);
        }
        let mut state = SessionState::WaitingForConfig;
        std::mem::swap(&mut state, &mut self.state);
        let (next, event) = advance(state, input);
        self.state = next;
        event
    }

    /// Submits a command, to be transmitted after those that wait already.
    /// It never waits: where the session is not live or the queue is full,
    /// the command is refused at once and dropped.
    pub fn send(&mut self, message: WebSocketClientToServerMessage) -> (r: Result<(), SendError>)
        requires
            old(self).wf(),
        ensures
            final(self).wf(),
            r == submit_result(old(self)@),
            final(self)@ == submitted(old(self)@, message@),
    {
        let mut state = SessionState::WaitingForConfig;
        std::mem::swap(&mut state, &mut self.state);
        match state {
            SessionState::Connected { url, name, id, queue, sending } => {
                if queue.len() >= QUEUE_CAPACITY {
                    self.state = SessionState::Connected { url, name, id, queue, sending };
                    Err(SendError::Full)
                } else {
                    let mut longer = queue;
                    longer.push(message);
                    assert(commands_view(longer@) =~= commands_view(queue@).push(message@));
                    self.state = SessionState::Connected { url, name, id, queue: longer, sending };
                    Ok(())
                }
            },
            other => {
                self.state = other;
                Err(SendError::Closed)
            },
        }
    }

    /// Submits a chat message with the text `body`, written under the
    /// session's id and name; see [`Connection::send`].
    pub fn submit(&mut self, body: String) -> (r: Result<(), SendError>)
        requires
            old(self).wf(),
        ensures
            final(self).wf(),
            r == submit_result(old(self)@),
            final(self)@ == match old(self)@ {
                SessionView::Connected { id, name, .. } => submitted(
                    old(self)@,
                    ClientMessageView::UserMessage(
                        crate::message::MessageDataView { id, name, data: body@ },
                    ),
                ),
                _ => old(self)@,
            },
    {
        let author = match &self.state {
            SessionState::Connected { id, name, .. } => Some((*id, name.clone())),
            _ => None,
        };
        match author {
            Some((id, name)) => self.send(
                WebSocketClientToServerMessage::UserMessage(MessageData { id, name, data: body }),
            ),
            None => Err(SendError::Closed),
        }
    }
}

/// Every step keeps the session's invariant.
pub proof fn step_keeps_invariant(s: SessionView, i: InputView)
    requires
        session_ok(s),
    ensures
        session_ok(next_state(s, i)),
{
}

// ---------------------------------------------------------------------------
// What holds of the machine
// ---------------------------------------------------------------------------

/// The configuration is taken once: a session that has its url and name
/// ignores any other that it is handed, whatever its state.
pub proof fn configuration_is_taken_once(s: SessionView, url: Seq<char>, name: Seq<char>)
    requires
        !(s is WaitingForConfig),
    ensures
        next_state(s, InputView::Configured(url, name)) == s,
        emitted(s, InputView::Configured(url, name)) == None::<EventView>,
{
}

/// A failed dial is answered by `Disconnected` and a pause of
/// `RETRY_MILLIS`, after which the same url is dialled again under the same
/// name. This holds of every dial, the first as well as the thousandth:
/// the state keeps no count of attempts.
pub proof fn failed_dial_is_retried(url: Seq<char>, name: Seq<char>)
    ensures
        action_of(redialing(url, name)) == ActionView::Dial(url),
        next_state(redialing(url, name), InputView::DialFailed) == retrying(url, name),
        emitted(redialing(url, name), InputView::DialFailed) == Some(EventView::Disconnected),
        action_of(retrying(url, name)) == ActionView::Backoff(RETRY_MILLIS),
        next_state(retrying(url, name), InputView::BackoffElapsed) == redialing(url, name),
        emitted(retrying(url, name), InputView::BackoffElapsed) == None::<EventView>,
{
}

/// A session that has its url never gives up: from a state without a live
/// connection every input leads to a state with the same url that is either
/// without a live connection too, under the same name, or live.
pub proof fn attempts_never_end(s: SessionView, i: InputView)
    requires
        s is Disconnected,
    ensures
        match next_state(s, i) {
            SessionView::Disconnected { url, name, .. } => url == s->Disconnected_url && name
                == s->Disconnected_name,
            SessionView::Connected { url, .. } => url == s->Disconnected_url,
            _ => false,
        },
{
}

/// A session becomes live only by the last step of the handshake: it was
/// awaiting the roster, having had its id from the server's `Connected`,
/// and the frame that arrived holds the roster. It is then live under that
/// id, with no command waiting, and tells its user the id and the roster.
pub proof fn live_only_after_handshake(s: SessionView, i: InputView)
    requires
        !(s is Connected),
        next_state(s, i) is Connected,
    ensures
        s matches SessionView::Disconnected {
            url,
            attempt: AttemptView::AwaitingRoster(id, given),
            ..
        } && i matches InputView::Frame(f) && decode_server(f) matches Ok(
            ServerMessageView::AllUsers(users),
        ) && next_state(s, i) == (SessionView::Connected {
            url,
            name: given,
            id,
            queue: Seq::empty(),
            sending: false,
        }) && emitted(s, i) == Some(EventView::Connected(id, users)),
{
}

/// The handshake goes step by step. An attempt awaits the roster only
/// after the server's `Connected` arrived while it awaited its identity; it
/// awaits its identity only after `Connect` was transmitted; `Connect` is
/// transmitted only after the dial succeeded; a dial starts only when the
/// session takes up its configuration, after a pause, or when a live
/// connection ends; and a pause starts only when an attempt fails.
pub proof fn handshake_goes_step_by_step(s: SessionView, i: InputView)
    requires
        next_state(s, i) is Disconnected,
        next_state(s, i) != s,
    ensures
        match next_state(s, i)->Disconnected_attempt {
            AttemptView::Dialing => s is AwaitingDial && i is Proceed || s is Connected
                && connection_ends(s->Connected_sending, i) || s is Disconnected
                && s->Disconnected_attempt is BackingOff && i is BackoffElapsed,
            AttemptView::Greeting => s is Disconnected && s->Disconnected_attempt is Dialing
                && i is DialSucceeded,
            AttemptView::AwaitingIdentity => s is Disconnected
                && s->Disconnected_attempt is Greeting && i is Transmitted,
            AttemptView::AwaitingRoster(id, given) => s is Disconnected
                && s->Disconnected_attempt is AwaitingIdentity && i is Frame && decode_server(
                i->Frame_0,
            ) == Ok::<ServerMessageView, CodecError>(ServerMessageView::Connected(id, given)),
            AttemptView::BackingOff => s is Disconnected && attempt_fails(
                s->Disconnected_attempt,
                i,
            ),
        },
{
}

/// While the session is live, a frame that holds a message is passed to
/// the user as it is, a frame that cannot be decoded is dropped, and
/// neither changes the state.
pub proof fn inbound_frames_are_surfaced(s: SessionView, frame: Seq<char>)
    requires
        s is Connected,
    ensures
        next_state(s, InputView::Frame(frame)) == s,
        emitted(s, InputView::Frame(frame)) == match decode_server(frame) {
            Ok(m) => Some(EventView::MessageReceived(m)),
            Err(_) => None,
        },
{
}

/// Commands leave in the order in which they were submitted: a command
/// that is taken goes behind those that wait, the one transmitted is the
/// oldest, and when it has been transmitted the others move up.
pub proof fn commands_leave_in_order(s: SessionView, m: ClientMessageView)
    requires
        session_ok(s),
        s is Connected,
    ensures
        submit_result(s) is Ok ==> submitted(s, m)->Connected_queue == s->Connected_queue.push(m),
        s->Connected_sending ==> action_of(s) == ActionView::Transmit(
            client_text(s->Connected_queue[0]),
        ) && next_state(s, InputView::Transmitted)->Connected_queue == s->Connected_queue.skip(
            1,
        ),
        !s->Connected_sending && s->Connected_queue.len() > 0 ==> action_of(
            next_state(s, InputView::CommandReady),
        ) == ActionView::Transmit(client_text(s->Connected_queue[0])),
{
}

// ---------------------------------------------------------------------------
// What holds of every run
// ---------------------------------------------------------------------------

/// The state after a run of inputs, the first of them first.
pub open spec fn after_inputs(s: SessionView, inputs: Seq<InputView>) -> SessionView
    decreases inputs.len(),
{
    if inputs.len() == 0 {
        s
    } else {
        next_state(after_inputs(s, inputs.drop_last()), inputs.last())
    }
}

/// What comes in while dial after dial fails: `n` times a failed dial and
/// the end of the pause after it.
pub open spec fn failed_dials(n: nat) -> Seq<InputView>
    decreases n,
{
    if n == 0 {
        Seq::empty()
    } else {
        failed_dials((n - 1) as nat).push(InputView::DialFailed).push(InputView::BackoffElapsed)
    }
}

/// However many dials have failed, the session dials again: there is no
/// last attempt.
pub proof fn dial_is_retried_without_end(url: Seq<char>, name: Seq<char>, n: nat)
    ensures
        after_inputs(redialing(url, name), failed_dials(n)) == redialing(url, name),
        action_of(after_inputs(redialing(url, name), failed_dials(n))) == ActionView::Dial(url),
    decreases n,
{
    if n > 0 {
        dial_is_retried_without_end(url, name, (n - 1) as nat);
        let before = failed_dials((n - 1) as nat);
        let failed = before.push(InputView::DialFailed);
        assert(failed_dials(n).drop_last() == failed);
        assert(failed.drop_last() == before);
        assert(after_inputs(redialing(url, name), failed) == retrying(url, name));
    }
}

/// A session that has its url keeps it and never stops: whatever comes in,
/// it is trying to connect to that url or is connected to it, and it keeps
/// its invariant.
pub proof fn no_run_gives_up(s: SessionView, inputs: Seq<InputView>)
    requires
        s is Disconnected || s is Connected,
        session_ok(s),
    ensures
        session_ok(after_inputs(s, inputs)),
        match after_inputs(s, inputs) {
            SessionView::Disconnected { url, .. } => url == url_of(s),
            SessionView::Connected { url, .. } => url == url_of(s),
            _ => false,
        },
    decreases inputs.len(),
{
    if inputs.len() > 0 {
        no_run_gives_up(s, inputs.drop_last());
    }
}

/// The url of a session that has one.
pub open spec fn url_of(s: SessionView) -> Seq<char> {
    match s {
        SessionView::WaitingForConfig => Seq::empty(),
        SessionView::AwaitingDial { url, .. } => url,
        SessionView::Disconnected { url, .. } => url,
        SessionView::Connected { url, .. } => url,
    }
}

} // verus!
