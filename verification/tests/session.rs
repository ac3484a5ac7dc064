use websocket_chatroom::session::{
    Action, Attempt, Input, SendError, SessionState, QUEUE_CAPACITY, RETRY_MILLIS,
};
use websocket_chatroom::{
    connect, Connection, Event, MessageData, WebSocketClientToServerMessage,
    WebSocketServerToClientMessage,
};

const URL: &str = "ws://127.0.0.1:2233";

fn frame(message: WebSocketServerToClientMessage) -> Input {
    Input::Frame(message.encode())
}

fn roster() -> Vec<(u32, String)> {
    vec![(1, "bob".to_string()), (2, "alice".to_string())]
}

fn configured() -> Connection {
    let mut session = connect();
    assert_eq!(session.action(), Action::AwaitConfig);
    assert_eq!(session.step(Input::Configured(URL.to_string(), "alice".to_string())), None);
    assert_eq!(session.action(), Action::Proceed);
    assert_eq!(session.step(Input::Proceed), None);
    session
}

fn live() -> Connection {
    let mut session = configured();
    assert_eq!(session.step(Input::DialSucceeded), None);
    assert_eq!(session.step(Input::Transmitted), None);
    assert_eq!(
        session.step(frame(WebSocketServerToClientMessage::Connected(2, "alice".to_string()))),
        None
    );
    assert_eq!(
        session.step(frame(WebSocketServerToClientMessage::AllUsers(roster()))),
        Some(Event::Connected(2, roster()))
    );
    session
}

fn dialing(name: &str) -> SessionState {
    SessionState::Disconnected {
        url: URL.to_string(),
        name: name.to_string(),
        attempt: Attempt::Dialing,
    }
}

fn backing_off() -> SessionState {
    SessionState::Disconnected {
        url: URL.to_string(),
        name: "alice".to_string(),
        attempt: Attempt::BackingOff,
    }
}

#[test]
fn a_session_starts_waiting_for_its_configuration() {
    let mut session = connect();
    assert_eq!(session.state(), &SessionState::WaitingForConfig);
    assert_eq!(session.step(Input::DialSucceeded), None);
    assert_eq!(session.step(Input::Proceed), None);
    assert_eq!(session.state(), &SessionState::WaitingForConfig);
    assert_eq!(session.step(Input::Configured(URL.to_string(), "alice".to_string())), None);
    assert_eq!(
        session.state(),
        &SessionState::AwaitingDial { url: URL.to_string(), name: "alice".to_string() }
    );
    assert_eq!(session.step(Input::Configured("other".to_string(), "x".to_string())), None);
    assert_eq!(session.step(Input::Proceed), None);
    assert_eq!(session.state(), &dialing("alice"));
    assert_eq!(session.action(), Action::Dial(URL.to_string()));
}

#[test]
fn the_handshake_takes_connect_connected_and_the_roster() {
    let mut session = configured();
    assert_eq!(session.step(Input::DialSucceeded), None);
    assert_eq!(session.action(), Action::Transmit("{\"Connect\":\"alice\"}".to_string()));
    assert_eq!(session.step(Input::Transmitted), None);
    assert_eq!(session.action(), Action::AwaitFrame);
    assert!(!session.is_connected());
    assert_eq!(
        session.step(frame(WebSocketServerToClientMessage::Connected(2, "Alice".to_string()))),
        None
    );
    assert_eq!(session.action(), Action::AwaitFrame);
    assert!(!session.is_connected());
    assert_eq!(
        session.step(frame(WebSocketServerToClientMessage::AllUsers(roster()))),
        Some(Event::Connected(2, roster()))
    );
    assert!(session.is_connected());
    assert_eq!(session.action(), Action::AwaitEither);
    assert_eq!(
        session.state(),
        &SessionState::Connected {
            url: URL.to_string(),
            name: "Alice".to_string(),
            id: 2,
            queue: vec![],
            sending: false,
        }
    );
}

#[test]
fn a_failed_dial_is_tried_again_after_a_second() {
    let mut session = configured();
    for _ in 0..50 {
        assert_eq!(session.action(), Action::Dial(URL.to_string()));
        assert_eq!(session.step(Input::DialFailed), Some(Event::Disconnected));
        assert_eq!(session.state(), &backing_off());
        assert_eq!(session.action(), Action::Backoff(1000));
        assert_eq!(RETRY_MILLIS, 1000);
        assert_eq!(session.step(Input::DialSucceeded), None);
        assert_eq!(session.state(), &backing_off());
        assert_eq!(session.step(Input::BackoffElapsed), None);
        assert_eq!(session.state(), &dialing("alice"));
    }
}

#[test]
fn a_broken_handshake_is_a_failed_attempt() {
    let wrong: Vec<Input> = vec![
        frame(WebSocketServerToClientMessage::AllUsers(roster())),
        frame(WebSocketServerToClientMessage::NewUserAdded(2, "alice".to_string())),
        Input::Frame("rubbish".to_string()),
        Input::Frame("{\"Connect\":\"alice\"}".to_string()),
        Input::OtherFrame,
        Input::TransportClosed,
    ];
    for input in wrong {
        let mut session = configured();
        assert_eq!(session.step(Input::DialSucceeded), None);
        assert_eq!(session.step(Input::Transmitted), None);
        assert_eq!(session.step(input), Some(Event::Disconnected));
        assert_eq!(session.state(), &backing_off());
    }
    let wrong: Vec<Input> = vec![
        frame(WebSocketServerToClientMessage::Connected(2, "alice".to_string())),
        frame(WebSocketServerToClientMessage::UserMessage(MessageData {
            id: 1,
            name: "bob".to_string(),
            data: "early".to_string(),
        })),
        Input::Frame(String::new()),
        Input::OtherFrame,
        Input::TransportClosed,
    ];
    for input in wrong {
        let mut session = configured();
        assert_eq!(session.step(Input::DialSucceeded), None);
        assert_eq!(session.step(Input::Transmitted), None);
        assert_eq!(
            session.step(frame(WebSocketServerToClientMessage::Connected(2, "ally".to_string()))),
            None
        );
        assert_eq!(session.step(input), Some(Event::Disconnected));
        assert_eq!(session.state(), &backing_off());
        assert!(!session.is_connected());
    }
    let mut session = configured();
    assert_eq!(session.step(Input::DialSucceeded), None);
    assert_eq!(session.step(Input::TransmitFailed), Some(Event::Disconnected));
    assert_eq!(session.state(), &backing_off());
}

#[test]
fn messages_from_the_server_are_passed_on() {
    let mut session = live();
    let message = WebSocketServerToClientMessage::UserMessage(MessageData {
        id: 1,
        name: "bob".to_string(),
        data: "hi".to_string(),
    });
    assert_eq!(session.step(frame(message.clone())), Some(Event::MessageReceived(message)));
    let joined = WebSocketServerToClientMessage::NewUserAdded(3, "carol".to_string());
    assert_eq!(session.step(frame(joined.clone())), Some(Event::MessageReceived(joined)));
    assert_eq!(session.step(Input::Frame("{\"Oops\":1}".to_string())), None);
    assert_eq!(session.step(Input::Frame("{{".to_string())), None);
    assert_eq!(session.step(Input::OtherFrame), None);
    assert!(session.is_connected());
    assert_eq!(session.action(), Action::AwaitEither);
}

#[test]
fn a_lost_connection_is_dialled_again_at_once() {
    for input in [Input::TransportClosed, Input::CommandsClosed] {
        let mut session = live();
        assert_eq!(session.step(input), Some(Event::Disconnected));
        assert_eq!(session.state(), &dialing("alice"));
        assert_eq!(session.action(), Action::Dial(URL.to_string()));
    }
    let mut session = live();
    assert_eq!(session.submit("hello".to_string()), Ok(()));
    assert_eq!(session.step(Input::CommandReady), None);
    assert_eq!(session.step(Input::TransmitFailed), Some(Event::Disconnected));
    assert_eq!(session.state(), &dialing("alice"));
    assert_eq!(session.submit("again".to_string()), Err(SendError::Closed));
}

#[test]
fn commands_are_transmitted_in_the_order_of_submission() {
    let mut session = live();
    assert_eq!(session.submit("one".to_string()), Ok(()));
    assert_eq!(
        session.send(WebSocketClientToServerMessage::UserMessage(MessageData {
            id: 2,
            name: "alice".to_string(),
            data: "two".to_string(),
        })),
        Ok(())
    );
    assert_eq!(session.action(), Action::AwaitEither);
    assert_eq!(session.step(Input::Transmitted), None);
    assert_eq!(session.step(Input::CommandReady), None);
    assert_eq!(
        session.action(),
        Action::Transmit("{\"UserMessage\":{\"id\":2,\"name\":\"alice\",\"data\":\"one\"}}".to_string())
    );
    assert_eq!(session.step(Input::CommandReady), None);
    assert_eq!(session.step(Input::Transmitted), None);
    assert_eq!(session.action(), Action::AwaitEither);
    assert_eq!(session.step(Input::CommandReady), None);
    assert_eq!(
        session.action(),
        Action::Transmit("{\"UserMessage\":{\"id\":2,\"name\":\"alice\",\"data\":\"two\"}}".to_string())
    );
    assert_eq!(session.step(Input::Transmitted), None);
    assert_eq!(session.step(Input::CommandReady), None);
    assert_eq!(session.action(), Action::AwaitEither);
}

#[test]
fn a_full_queue_refuses_at_once() {
    let mut session = live();
    assert_eq!(QUEUE_CAPACITY, 10);
    for n in 0..10 {
        assert_eq!(session.submit(format!("message {n}")), Ok(()));
    }
    assert_eq!(session.submit("one too many".to_string()), Err(SendError::Full));
    assert_eq!(session.step(Input::CommandReady), None);
    assert_eq!(session.step(Input::Transmitted), None);
    assert_eq!(session.submit("fits again".to_string()), Ok(()));
    assert_eq!(session.submit("but not this".to_string()), Err(SendError::Full));
}

#[test]
fn a_session_that_is_not_live_takes_no_command() {
    let mut session = connect();
    assert_eq!(session.submit("x".to_string()), Err(SendError::Closed));
    let mut session = configured();
    assert_eq!(
        session.send(WebSocketClientToServerMessage::Connect("alice".to_string())),
        Err(SendError::Closed)
    );
    assert_eq!(session.state(), &dialing("alice"));
    assert_eq!(session.step(Input::DialSucceeded), None);
    assert_eq!(session.submit("x".to_string()), Err(SendError::Closed));
}

#[test]
fn the_name_the_server_gave_is_kept() {
    let mut session = configured();
    assert_eq!(session.step(Input::DialSucceeded), None);
    assert_eq!(session.step(Input::Transmitted), None);
    assert_eq!(
        session.step(frame(WebSocketServerToClientMessage::Connected(5, "alice#5".to_string()))),
        None
    );
    assert_eq!(
        session.step(frame(WebSocketServerToClientMessage::AllUsers(vec![(5, "alice#5".to_string())]))),
        Some(Event::Connected(5, vec![(5, "alice#5".to_string())]))
    );
    assert_eq!(session.submit("hi".to_string()), Ok(()));
    assert_eq!(session.step(Input::CommandReady), None);
    assert_eq!(
        session.action(),
        Action::Transmit("{\"UserMessage\":{\"id\":5,\"name\":\"alice#5\",\"data\":\"hi\"}}".to_string())
    );
    assert_eq!(session.step(Input::TransportClosed), Some(Event::Disconnected));
    assert_eq!(session.state(), &dialing("alice#5"));
}
