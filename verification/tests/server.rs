use websocket_chatroom::codec::CodecError;
use websocket_chatroom::registry::{Outbound, PeerRegistry, RegistryError};
use websocket_chatroom::server::{ChatServer, Reaction, ServerError};
use websocket_chatroom::{MessageData, WebSocketClientToServerMessage, WebSocketServerToClientMessage};

fn connect_frame(name: &str) -> String {
    WebSocketClientToServerMessage::Connect(name.to_string()).encode()
}

fn chat_frame(id: u32, name: &str, text: &str) -> String {
    WebSocketClientToServerMessage::UserMessage(MessageData {
        id,
        name: name.to_string(),
        data: text.to_string(),
    })
    .encode()
}

fn inbox(server: &mut ChatServer, address: u64) -> Vec<WebSocketServerToClientMessage> {
    server
        .take_outbound(address)
        .iter()
        .map(|frame| WebSocketServerToClientMessage::decode(frame).unwrap())
        .collect()
}

/// A server on which an earlier connection took id 0 and left, and bob has
/// joined under id 1 from address 11.
fn server_with_bob() -> ChatServer {
    let mut server = ChatServer::new();
    assert_eq!(server.accept(10), Ok(0));
    assert_eq!(server.disconnect(10), None);
    assert_eq!(server.accept(11), Ok(1));
    assert_eq!(server.receive(11, &connect_frame("bob")), Reaction::Joined);
    assert_eq!(
        inbox(&mut server, 11),
        vec![
            WebSocketServerToClientMessage::Connected(1, "bob".to_string()),
            WebSocketServerToClientMessage::AllUsers(vec![(1, "bob".to_string())]),
        ]
    );
    server
}

fn server_with_bob_and_alice() -> ChatServer {
    let mut server = server_with_bob();
    assert_eq!(server.accept(12), Ok(2));
    assert_eq!(server.receive(12, &connect_frame("alice")), Reaction::Joined);
    let _ = server.take_outbound(11);
    let _ = server.take_outbound(12);
    server
}

#[test]
fn alice_joins_a_server_that_bob_is_on() {
    let mut server = server_with_bob();
    assert_eq!(server.accept(12), Ok(2));
    assert!(server.is_waiting(12));
    assert!(!server.is_joined(12));
    assert_eq!(server.receive(12, &connect_frame("alice")), Reaction::Joined);
    assert!(server.is_joined(12));
    assert!(!server.is_waiting(12));
    assert_eq!(
        inbox(&mut server, 12),
        vec![
            WebSocketServerToClientMessage::Connected(2, "alice".to_string()),
            WebSocketServerToClientMessage::AllUsers(vec![
                (1, "bob".to_string()),
                (2, "alice".to_string()),
            ]),
        ]
    );
    assert_eq!(
        inbox(&mut server, 11),
        vec![WebSocketServerToClientMessage::NewUserAdded(2, "alice".to_string())]
    );
    assert_eq!(server.snapshot(), vec![(1, "bob".to_string()), (2, "alice".to_string())]);
}

#[test]
fn alice_says_hi_and_only_bob_hears_it() {
    let mut server = server_with_bob_and_alice();
    assert_eq!(server.receive(12, &chat_frame(2, "alice", "hi")), Reaction::Relayed);
    assert_eq!(
        inbox(&mut server, 11),
        vec![WebSocketServerToClientMessage::UserMessage(MessageData {
            id: 2,
            name: "alice".to_string(),
            data: "hi".to_string(),
        })]
    );
    assert_eq!(inbox(&mut server, 12), vec![]);
}

#[test]
fn alice_drops_and_bob_is_told() {
    let mut server = server_with_bob_and_alice();
    assert_eq!(server.disconnect(12), Some((2, "alice".to_string())));
    assert_eq!(
        inbox(&mut server, 11),
        vec![WebSocketServerToClientMessage::Disconnected(2, "alice".to_string())]
    );
    assert!(!server.is_joined(12));
    assert_eq!(server.accept(13), Ok(3));
    assert_eq!(server.receive(13, &connect_frame("carol")), Reaction::Joined);
    assert_eq!(
        inbox(&mut server, 13),
        vec![
            WebSocketServerToClientMessage::Connected(3, "carol".to_string()),
            WebSocketServerToClientMessage::AllUsers(vec![
                (1, "bob".to_string()),
                (3, "carol".to_string()),
            ]),
        ]
    );
}

#[test]
fn a_connection_ends_only_once() {
    let mut server = server_with_bob_and_alice();
    assert_eq!(server.disconnect(12), Some((2, "alice".to_string())));
    assert_eq!(server.disconnect(12), None);
    assert_eq!(inbox(&mut server, 11).len(), 1);
    assert_eq!(server.receive(12, &chat_frame(2, "alice", "late")), Reaction::Unknown);
    assert_eq!(inbox(&mut server, 11), vec![]);
    assert_eq!(server.peer_count(), 1);
}

#[test]
fn a_message_reaches_every_other_peer_in_order() {
    let mut server = ChatServer::new();
    for (address, name) in [(1u64, "a"), (2, "b"), (3, "c"), (4, "d")] {
        assert!(server.accept(address).is_ok());
        assert_eq!(server.receive(address, &connect_frame(name)), Reaction::Joined);
    }
    for address in 1..=4 {
        let _ = server.take_outbound(address);
    }
    assert_eq!(server.receive(3, &chat_frame(2, "c", "one")), Reaction::Relayed);
    assert_eq!(server.receive(3, &chat_frame(2, "c", "two")), Reaction::Relayed);
    for address in [1u64, 2, 4] {
        let got = inbox(&mut server, address);
        assert_eq!(got.len(), 2);
        assert!(matches!(&got[0], WebSocketServerToClientMessage::UserMessage(d) if d.data == "one"));
        assert!(matches!(&got[1], WebSocketServerToClientMessage::UserMessage(d) if d.data == "two"));
    }
    assert_eq!(inbox(&mut server, 3), vec![]);
}

#[test]
fn ids_go_up_and_are_not_given_twice() {
    let mut server = ChatServer::new();
    let mut last = None;
    for address in 0..20u64 {
        let id = server.accept(address * 7).unwrap();
        if let Some(before) = last {
            assert!(id > before);
        }
        last = Some(id);
        if address % 3 == 0 {
            let _ = server.receive(address * 7, &connect_frame("x"));
        }
        if address % 2 == 0 {
            let _ = server.disconnect(address * 7);
        }
    }
    assert_eq!(last, Some(19));
    let ids: Vec<u32> = server.snapshot().iter().map(|user| user.0).collect();
    assert_eq!(ids, vec![3, 9, 15]);
}

#[test]
fn an_open_address_is_not_accepted_twice() {
    let mut server = ChatServer::new();
    assert_eq!(server.accept(5), Ok(0));
    assert_eq!(server.accept(5), Err(ServerError::DuplicateConnection));
    assert_eq!(server.receive(5, &connect_frame("x")), Reaction::Joined);
    assert_eq!(server.accept(5), Err(ServerError::DuplicateConnection));
    assert_eq!(server.disconnect(5), Some((0, "x".to_string())));
    assert_eq!(server.accept(5), Ok(1));
}

#[test]
fn the_ids_run_out_after_the_largest() {
    let mut server = ChatServer::starting_at(u32::MAX - 1);
    assert_eq!(server.accept(1), Ok(u32::MAX - 1));
    assert_eq!(server.accept(2), Ok(u32::MAX));
    assert_eq!(server.accept(3), Err(ServerError::IdsExhausted));
    assert!(!server.is_waiting(3));
    assert_eq!(server.receive(2, &connect_frame("last")), Reaction::Joined);
    assert_eq!(
        inbox(&mut server, 2)[0],
        WebSocketServerToClientMessage::Connected(u32::MAX, "last".to_string())
    );
}

#[test]
fn a_chat_message_before_connect_is_rejected() {
    let mut server = server_with_bob();
    assert_eq!(server.accept(20), Ok(2));
    assert_eq!(server.receive(20, &chat_frame(2, "eve", "hello")), Reaction::Rejected);
    assert!(!server.is_waiting(20));
    assert!(!server.is_joined(20));
    assert_eq!(inbox(&mut server, 11), vec![]);
    assert_eq!(server.receive(20, &connect_frame("eve")), Reaction::Unknown);
    assert_eq!(server.disconnect(20), None);
}

#[test]
fn a_second_connect_is_rejected_and_the_peer_leaves() {
    let mut server = server_with_bob_and_alice();
    assert_eq!(server.receive(12, &connect_frame("alice2")), Reaction::Rejected);
    assert!(!server.is_joined(12));
    assert_eq!(
        inbox(&mut server, 11),
        vec![WebSocketServerToClientMessage::Disconnected(2, "alice".to_string())]
    );
    assert_eq!(server.disconnect(12), None);
    assert_eq!(inbox(&mut server, 11), vec![]);
}

#[test]
fn frames_that_do_not_decode_are_dropped() {
    let mut server = server_with_bob();
    assert_eq!(server.receive(11, "not a frame"), Reaction::Dropped(CodecError::Malformed));
    assert_eq!(
        server.receive(11, "{\"Connected\":[1,\"bob\"]}"),
        Reaction::Dropped(CodecError::UnknownVariant)
    );
    assert!(server.is_joined(11));
    assert_eq!(server.accept(30), Ok(2));
    assert_eq!(server.receive(30, "{\"Connect\":"), Reaction::Dropped(CodecError::Malformed));
    assert!(server.is_waiting(30));
    assert_eq!(server.receive(30, &connect_frame("late")), Reaction::Joined);
}

#[test]
fn a_closed_queue_does_not_stop_a_broadcast() {
    let mut server = server_with_bob_and_alice();
    assert_eq!(server.accept(13), Ok(3));
    assert_eq!(server.receive(13, &connect_frame("carol")), Reaction::Joined);
    for address in 11..=13 {
        let _ = server.take_outbound(address);
    }
    server.close_outbound(11);
    assert_eq!(server.receive(12, &chat_frame(2, "alice", "anyone?")), Reaction::Relayed);
    assert_eq!(inbox(&mut server, 11), vec![]);
    assert_eq!(inbox(&mut server, 13).len(), 1);
    assert_eq!(server.disconnect(11), Some((1, "bob".to_string())));
    assert_eq!(
        inbox(&mut server, 12),
        vec![WebSocketServerToClientMessage::Disconnected(1, "bob".to_string())]
    );
}

#[test]
fn registry_registers_removes_and_lists() {
    let mut registry = PeerRegistry::new();
    assert!(registry.is_empty());
    registry.register(7, Outbound::new(), 1, "bob".to_string());
    registry.register(9, Outbound::new(), 2, "alice".to_string());
    assert_eq!(registry.len(), 2);
    assert!(registry.contains(7));
    assert!(!registry.contains(8));
    assert_eq!(registry.snapshot(), vec![(1, "bob".to_string()), (2, "alice".to_string())]);
    assert_eq!(registry.remove(8).err(), Some(RegistryError::NotFound));
    let peer = registry.remove(7).ok().unwrap();
    assert_eq!((peer.address, peer.id, peer.name.as_str()), (7, 1, "bob"));
    assert_eq!(registry.remove(7).err(), Some(RegistryError::NotFound));
    assert_eq!(registry.snapshot(), vec![(2, "alice".to_string())]);
}

#[test]
fn registry_sends_to_all_to_others_and_to_one() {
    let mut registry = PeerRegistry::new();
    registry.register(1, Outbound::new(), 1, "a".to_string());
    registry.register(2, Outbound::new(), 2, "b".to_string());
    registry.register(3, Outbound::new(), 3, "c".to_string());
    let left = WebSocketServerToClientMessage::Disconnected(9, "z".to_string());
    let joined = WebSocketServerToClientMessage::NewUserAdded(4, "d".to_string());
    let hello = WebSocketServerToClientMessage::Connected(2, "b".to_string());
    registry.broadcast_all(&left);
    registry.broadcast_except(2, &joined);
    assert!(registry.send_to(2, &hello));
    assert!(!registry.send_to(5, &hello));
    assert_eq!(registry.take_outbound(1), vec![left.encode(), joined.encode()]);
    assert_eq!(registry.take_outbound(2), vec![left.encode(), hello.encode()]);
    assert_eq!(registry.take_outbound(3), vec![left.encode(), joined.encode()]);
    assert_eq!(registry.take_outbound(3), Vec::<String>::new());
    assert_eq!(registry.take_outbound(5), Vec::<String>::new());
    registry.close_outbound(3);
    assert!(!registry.send_to(3, &hello));
    registry.broadcast_all(&left);
    assert_eq!(registry.take_outbound(3), Vec::<String>::new());
    assert_eq!(registry.take_outbound(1), vec![left.encode()]);
}

#[test]
fn outbound_queue_keeps_order_and_drops_when_closed() {
    let mut queue = Outbound::new();
    assert!(queue.is_open());
    assert!(queue.send("one".to_string()));
    assert!(queue.send("two".to_string()));
    assert_eq!(queue.len(), 2);
    queue.close();
    assert!(!queue.send("three".to_string()));
    assert_eq!(queue.drain(), vec!["one".to_string(), "two".to_string()]);
    assert_eq!(queue.len(), 0);
    assert!(!queue.is_open());
}
