use websocket_chatroom::server::{ChatServer, Reaction};
use websocket_chatroom::session::{Action, Input};
use websocket_chatroom::{
    connect, Connection, Event, MessageData, WebSocketClientToServerMessage,
    WebSocketServerToClientMessage,
};

/// Writes what the session wants transmitted to the server, and says what
/// the server made of it.
fn transmit(session: &mut Connection, server: &mut ChatServer, address: u64) -> Reaction {
    match session.action() {
        Action::Transmit(frame) => {
            let reaction = server.receive(address, &frame);
            assert_eq!(session.step(Input::Transmitted), None);
            reaction
        }
        other => panic!("nothing to transmit: {other:?}"),
    }
}

/// Hands the session what waits for it at the server, and collects what the
/// session tells its user.
fn deliver(session: &mut Connection, server: &mut ChatServer, address: u64) -> Vec<Event> {
    let mut events = Vec::new();
    for frame in server.take_outbound(address) {
        if let Some(event) = session.step(Input::Frame(frame)) {
            events.push(event);
        }
    }
    events
}

fn join(server: &mut ChatServer, address: u64, name: &str) -> (Connection, Vec<Event>) {
    let mut session = connect();
    assert_eq!(session.step(Input::Configured("ws://chat".to_string(), name.to_string())), None);
    assert_eq!(session.step(Input::Proceed), None);
    assert_eq!(session.action(), Action::Dial("ws://chat".to_string()));
    assert!(server.accept(address).is_ok());
    assert_eq!(session.step(Input::DialSucceeded), None);
    assert_eq!(transmit(&mut session, server, address), Reaction::Joined);
    let events = deliver(&mut session, server, address);
    (session, events)
}

#[test]
fn alice_and_bob_chat() {
    let mut server = ChatServer::starting_at(1);
    let (mut bob, events) = join(&mut server, 100, "bob");
    assert_eq!(events, vec![Event::Connected(1, vec![(1, "bob".to_string())])]);

    let (mut alice, events) = join(&mut server, 200, "alice");
    assert_eq!(
        events,
        vec![Event::Connected(2, vec![(1, "bob".to_string()), (2, "alice".to_string())])]
    );
    assert_eq!(
        deliver(&mut bob, &mut server, 100),
        vec![Event::MessageReceived(WebSocketServerToClientMessage::NewUserAdded(
            2,
            "alice".to_string()
        ))]
    );

    assert_eq!(alice.submit("hi".to_string()), Ok(()));
    assert_eq!(alice.step(Input::CommandReady), None);
    assert_eq!(
        alice.action(),
        Action::Transmit(
            WebSocketClientToServerMessage::UserMessage(MessageData {
                id: 2,
                name: "alice".to_string(),
                data: "hi".to_string(),
            })
            .encode()
        )
    );
    assert_eq!(transmit(&mut alice, &mut server, 200), Reaction::Relayed);
    assert_eq!(
        deliver(&mut bob, &mut server, 100),
        vec![Event::MessageReceived(WebSocketServerToClientMessage::UserMessage(MessageData {
            id: 2,
            name: "alice".to_string(),
            data: "hi".to_string(),
        }))]
    );
    assert_eq!(deliver(&mut alice, &mut server, 200), vec![]);

    assert_eq!(alice.step(Input::TransportClosed), Some(Event::Disconnected));
    assert_eq!(server.disconnect(200), Some((2, "alice".to_string())));
    assert_eq!(
        deliver(&mut bob, &mut server, 100),
        vec![Event::MessageReceived(WebSocketServerToClientMessage::Disconnected(
            2,
            "alice".to_string()
        ))]
    );

    let (_carol, events) = join(&mut server, 300, "carol");
    assert_eq!(
        events,
        vec![Event::Connected(3, vec![(1, "bob".to_string()), (3, "carol".to_string())])]
    );
    assert_eq!(
        deliver(&mut bob, &mut server, 100),
        vec![Event::MessageReceived(WebSocketServerToClientMessage::NewUserAdded(
            3,
            "carol".to_string()
        ))]
    );

    assert_eq!(alice.action(), Action::Dial("ws://chat".to_string()));
    assert!(server.accept(201).is_ok());
    assert_eq!(alice.step(Input::DialSucceeded), None);
    assert_eq!(transmit(&mut alice, &mut server, 201), Reaction::Joined);
    assert_eq!(
        deliver(&mut alice, &mut server, 201),
        vec![Event::Connected(
            4,
            vec![(1, "bob".to_string()), (3, "carol".to_string()), (4, "alice".to_string())]
        )]
    );
}
