use websocket_chatroom::WebSocketClientToServerMessage;

enum E {
    A(String),
    B(String),
}

fn change_e(e: &mut E) {
    // swap a and b
    match e {
        E::A(a) => {
            *e = E::B(a.clone());
        }
        E::B(b) => {
            *e = E::A(b.clone());
        }
    }
}

#[test]
fn test_enum() {
    let mut e = E::A("a".to_string());

    change_e(&mut e);
    assert!(matches!(&e, E::B(s) if s == "a"));
    change_e(&mut e);
    assert!(matches!(&e, E::A(s) if s == "a"));
    let m = WebSocketClientToServerMessage::Connect("a".to_string());
    assert_eq!(m.duplicate(), m);
}
