use serde_json::Value;
use websocket_chatroom::{
    CodecError, MessageData, WebSocketClientToServerMessage, WebSocketServerToClientMessage,
};

fn data(id: u32, name: &str, text: &str) -> MessageData {
    MessageData { id, name: name.to_string(), data: text.to_string() }
}

#[test]
fn connect_frame_is_a_tagged_string() {
    let m = WebSocketClientToServerMessage::Connect("alice".to_string());
    assert_eq!(m.encode(), "{\"Connect\":\"alice\"}");
}

#[test]
fn user_message_frame_lists_id_name_data() {
    let m = WebSocketClientToServerMessage::UserMessage(data(2, "alice", "hi"));
    assert_eq!(m.encode(), "{\"UserMessage\":{\"id\":2,\"name\":\"alice\",\"data\":\"hi\"}}");
}

#[test]
fn client_frames_agree_with_serde_json() {
    let m = WebSocketClientToServerMessage::UserMessage(data(4_000_000_000, "a\"b\\c", "x\ny\u{1}\u{1f}z\u{7f}é"));
    let parsed: Value = serde_json::from_str(&m.encode()).unwrap();
    let inner = &parsed["UserMessage"];
    assert_eq!(inner["id"].as_u64(), Some(4_000_000_000));
    assert_eq!(inner["name"].as_str(), Some("a\"b\\c"));
    assert_eq!(inner["data"].as_str(), Some("x\ny\u{1}\u{1f}z\u{7f}é"));
    assert_eq!(serde_json::to_string(&parsed).unwrap().len(), m.encode().len());
}

#[test]
fn strings_are_escaped_as_serde_json_escapes_them() {
    let text = "q\"s\\b\u{8}f\u{c}n\nr\rt\tu\u{0}\u{b}\u{1f} /é\u{10000}";
    let m = WebSocketClientToServerMessage::Connect(text.to_string());
    let expected = format!("{{\"Connect\":{}}}", serde_json::to_string(&Value::String(text.to_string())).unwrap());
    assert_eq!(m.encode(), expected);
}

#[test]
fn decode_reads_what_serde_json_writes() {
    let mut inner = serde_json::Map::new();
    inner.insert("id".to_string(), Value::from(7u32));
    inner.insert("name".to_string(), Value::String("bob".to_string()));
    inner.insert("data".to_string(), Value::String("tab\there \u{1} é".to_string()));
    let mut outer = serde_json::Map::new();
    outer.insert("UserMessage".to_string(), Value::Object(inner));
    let expected = WebSocketServerToClientMessage::UserMessage(data(7, "bob", "tab\there \u{1} é"));
    let compact = serde_json::to_string(&Value::Object(outer.clone())).unwrap();
    assert_eq!(WebSocketServerToClientMessage::decode(&compact), Ok(expected.clone()));
    let pretty = serde_json::to_string_pretty(&Value::Object(outer)).unwrap();
    assert_eq!(WebSocketServerToClientMessage::decode(&pretty), Ok(expected));
    let users = Value::Array(vec![
        Value::Array(vec![Value::from(1u32), Value::String("bob".to_string())]),
        Value::Array(vec![Value::from(2u32), Value::String("al\"ice".to_string())]),
    ]);
    let mut outer = serde_json::Map::new();
    outer.insert("AllUsers".to_string(), users);
    let pretty = serde_json::to_string_pretty(&Value::Object(outer)).unwrap();
    assert_eq!(
        WebSocketServerToClientMessage::decode(&pretty),
        Ok(WebSocketServerToClientMessage::AllUsers(vec![
            (1, "bob".to_string()),
            (2, "al\"ice".to_string()),
        ]))
    );
}

#[test]
fn white_space_between_tokens_is_skipped() {
    let frame = " {\n \"UserMessage\" : { \"id\" : 7 ,\r\n\"name\":\"bob\", \"data\" : \"tab\\there\" }\t} ";
    assert_eq!(
        WebSocketServerToClientMessage::decode(frame),
        Ok(WebSocketServerToClientMessage::UserMessage(data(7, "bob", "tab\there")))
    );
    assert_eq!(
        WebSocketServerToClientMessage::decode(" { \"AllUsers\" : [ ] } "),
        Ok(WebSocketServerToClientMessage::AllUsers(vec![]))
    );
    assert_eq!(
        WebSocketServerToClientMessage::decode("{\"AllUsers\":[ [ 1 , \"a\" ] , [2,\"b\"] ]}"),
        Ok(WebSocketServerToClientMessage::AllUsers(vec![(1, "a".to_string()), (2, "b".to_string())]))
    );
}

#[test]
fn members_of_a_chat_message_come_in_any_order() {
    let expected = WebSocketClientToServerMessage::UserMessage(data(3, "n", "d"));
    for inner in [
        "\"id\":3,\"name\":\"n\",\"data\":\"d\"",
        "\"id\":3,\"data\":\"d\",\"name\":\"n\"",
        "\"name\":\"n\",\"id\":3,\"data\":\"d\"",
        "\"name\":\"n\",\"data\":\"d\",\"id\":3",
        "\"data\":\"d\",\"id\":3,\"name\":\"n\"",
        "\"data\":\"d\",\"name\":\"n\",\"id\":3",
    ] {
        let frame = format!("{{\"UserMessage\":{{{inner}}}}}");
        assert_eq!(WebSocketClientToServerMessage::decode(&frame), Ok(expected.clone()), "{frame}");
    }
    for inner in [
        "",
        "\"id\":3",
        "\"id\":3,\"name\":\"n\"",
        "\"id\":3,\"name\":\"n\",",
        "\"id\":3,\"name\":\"n\",\"name\":\"m\"",
        "\"id\":3,\"id\":3,\"name\":\"n\",\"data\":\"d\"",
        "\"id\":3,\"name\":\"n\",\"data\":\"d\",\"data\":\"d\"",
        "\"id\":3,\"name\":\"n\",\"data\":\"d\",\"more\":1",
        "\"id\":3,\"name\":\"n\",\"text\":\"d\"",
        "\"id\":\"3\",\"name\":\"n\",\"data\":\"d\"",
        "\"id\":3,\"name\":4,\"data\":\"d\"",
        "\"id\":3 \"name\":\"n\",\"data\":\"d\"",
    ] {
        let frame = format!("{{\"UserMessage\":{{{inner}}}}}");
        assert_eq!(
            WebSocketClientToServerMessage::decode(&frame),
            Err(CodecError::Malformed),
            "{frame}"
        );
    }
}

#[test]
fn round_trip_of_every_client_variant() {
    let all = vec![
        WebSocketClientToServerMessage::Connect(String::new()),
        WebSocketClientToServerMessage::Connect("al\"ice\\\u{0}\u{1f}\n".to_string()),
        WebSocketClientToServerMessage::UserMessage(data(0, "", "")),
        WebSocketClientToServerMessage::UserMessage(data(u32::MAX, "名前", "hello \u{1F600}")),
    ];
    for m in all {
        assert_eq!(WebSocketClientToServerMessage::decode(&m.encode()), Ok(m));
    }
}

#[test]
fn round_trip_of_every_server_variant() {
    let all = vec![
        WebSocketServerToClientMessage::UserMessage(data(10, "bob", "a,b]c}d")),
        WebSocketServerToClientMessage::Connected(2, "alice".to_string()),
        WebSocketServerToClientMessage::NewUserAdded(109, "n".to_string()),
        WebSocketServerToClientMessage::Disconnected(4294967295, "d\t".to_string()),
        WebSocketServerToClientMessage::AllUsers(vec![]),
        WebSocketServerToClientMessage::AllUsers(vec![(1, "bob".to_string())]),
        WebSocketServerToClientMessage::AllUsers(vec![
            (1, "bob".to_string()),
            (2, "alice".to_string()),
            (30, "\"".to_string()),
        ]),
    ];
    for m in all {
        assert_eq!(WebSocketServerToClientMessage::decode(&m.encode()), Ok(m));
    }
}

#[test]
fn all_users_frame_is_a_list_of_pairs() {
    let m = WebSocketServerToClientMessage::AllUsers(vec![(1, "bob".to_string()), (2, "alice".to_string())]);
    assert_eq!(m.encode(), "{\"AllUsers\":[[1,\"bob\"],[2,\"alice\"]]}");
    assert_eq!(
        WebSocketServerToClientMessage::Connected(2, "alice".to_string()).encode(),
        "{\"Connected\":[2,\"alice\"]}"
    );
}

#[test]
fn unknown_tag_is_an_unknown_variant() {
    assert_eq!(
        WebSocketClientToServerMessage::decode("{\"Connected\":[2,\"alice\"]}"),
        Err(CodecError::UnknownVariant)
    );
    assert_eq!(
        WebSocketServerToClientMessage::decode("{\"Connect\":\"alice\"}"),
        Err(CodecError::UnknownVariant)
    );
    assert_eq!(WebSocketClientToServerMessage::decode("\"Hello\""), Err(CodecError::UnknownVariant));
    assert_eq!(WebSocketClientToServerMessage::decode("{\"Nope\""), Err(CodecError::UnknownVariant));
}

#[test]
fn broken_frames_are_malformed() {
    for frame in [
        "",
        "   ",
        "{",
        "[]",
        "12",
        "{\"Connect\"}",
        "{\"Connect\":}",
        "{\"Connect\":\"alice\"",
        "{\"Connect\":\"alice\"} x",
        "{\"Connect\":\"ali\nce\"}",
        "{\"Connect\":\"\\x\"}",
        "{\"Connect\":\"\\ud800\"}",
        "{\"Connect\":\"\\udc00\"}",
        "{\"Connect\":7}",
        "\"Connect\"",
        "{\"UserMessage\":{\"id\":01,\"name\":\"a\",\"data\":\"b\"}}",
        "{\"UserMessage\":{\"id\":-1,\"name\":\"a\",\"data\":\"b\"}}",
        "{\"UserMessage\":{\"id\":1.0,\"name\":\"a\",\"data\":\"b\"}}",
        "{\"UserMessage\":{\"id\":4294967296,\"name\":\"a\",\"data\":\"b\"}}",
        "{\"UserMessage\":{\"id\":99999999999999999999999999,\"name\":\"a\",\"data\":\"b\"}}",
        "{\"UserMessage\":{\"id\":1,\"name\":\"a\"}}",
    ] {
        assert_eq!(WebSocketClientToServerMessage::decode(frame), Err(CodecError::Malformed), "{frame}");
    }
}

#[test]
fn escapes_are_read_as_serde_json_reads_them() {
    let frame = "{\"Connect\":\"\\u0041\\u00e9\\ud83d\\ude00\\/\\b\\f\\n\\r\\t\\\"\\\\\\uABCD\"}";
    let parsed: Value = serde_json::from_str(frame).unwrap();
    let expected = parsed["Connect"].as_str().unwrap().to_string();
    assert_eq!(
        WebSocketClientToServerMessage::decode(frame),
        Ok(WebSocketClientToServerMessage::Connect(expected))
    );
}

#[test]
fn largest_id_is_read() {
    assert_eq!(
        WebSocketServerToClientMessage::decode("{\"Connected\":[4294967295,\"x\"]}"),
        Ok(WebSocketServerToClientMessage::Connected(u32::MAX, "x".to_string()))
    );
    assert_eq!(
        WebSocketServerToClientMessage::decode("{\"Connected\":[0,\"x\"]}"),
        Ok(WebSocketServerToClientMessage::Connected(0, "x".to_string()))
    );
}

#[test]
fn every_character_is_written_as_serde_json_writes_it() {
    let mut code: u32 = 0;
    while code < 0x3000 {
        if let Some(c) = char::from_u32(code) {
            let text = format!("a{c}b");
            let m = WebSocketClientToServerMessage::Connect(text.clone());
            let frame = m.encode();
            let written = serde_json::to_string(&Value::String(text.clone())).unwrap();
            assert_eq!(frame, format!("{{\"Connect\":{written}}}"), "U+{code:04X}");
            let parsed: Value = serde_json::from_str(&frame).unwrap();
            assert_eq!(parsed["Connect"].as_str(), Some(text.as_str()));
            assert_eq!(WebSocketClientToServerMessage::decode(&frame), Ok(m));
        }
        code += 1;
    }
    for c in ['\u{D7FF}', '\u{E000}', '\u{FFFF}', '\u{10000}', '\u{1F600}', '\u{10FFFF}'] {
        let m = WebSocketClientToServerMessage::Connect(c.to_string());
        assert_eq!(WebSocketClientToServerMessage::decode(&m.encode()), Ok(m));
    }
}

#[test]
fn every_unicode_escape_is_read_as_serde_json_reads_it() {
    let mut unit: u32 = 0;
    while unit < 0x10000 {
        let frame = format!("{{\"Connect\":\"\\u{unit:04x}\"}}");
        let theirs: Result<Value, _> = serde_json::from_str(&frame);
        let ours = WebSocketClientToServerMessage::decode(&frame);
        match theirs {
            Ok(value) => assert_eq!(
                ours,
                Ok(WebSocketClientToServerMessage::Connect(value["Connect"].as_str().unwrap().to_string())),
                "{frame}"
            ),
            Err(_) => assert_eq!(ours, Err(CodecError::Malformed), "{frame}"),
        }
        unit += 0x11;
    }
    for (high, low) in [(0xD800u32, 0xDC00u32), (0xDBFF, 0xDFFF), (0xD83D, 0xDE00), (0xD800, 0xDBFF), (0xD800, 0x0041), (0xDC00, 0xD800)] {
        let frame = format!("{{\"Connect\":\"\\u{high:04X}\\u{low:04X}\"}}");
        let theirs: Result<Value, _> = serde_json::from_str(&frame);
        let ours = WebSocketClientToServerMessage::decode(&frame);
        match theirs {
            Ok(value) => assert_eq!(
                ours,
                Ok(WebSocketClientToServerMessage::Connect(value["Connect"].as_str().unwrap().to_string())),
                "{frame}"
            ),
            Err(_) => assert_eq!(ours, Err(CodecError::Malformed), "{frame}"),
        }
    }
}

#[test]
fn numbers_are_read_as_serde_json_reads_them() {
    for text in [
        "0", "1", "9", "10", "4294967295", "4294967296", "00", "01", "-0", "-1", "1.0", "1e2", "+1",
        "0x10", "18446744073709551616", "", " 7 ", "7 8",
    ] {
        let frame = format!("{{\"Connected\":[{text},\"x\"]}}");
        let theirs = serde_json::from_str::<Value>(&frame)
            .ok()
            .and_then(|value| value["Connected"][0].as_u64())
            .filter(|id| *id <= u32::MAX as u64);
        let ours = WebSocketServerToClientMessage::decode(&frame);
        match theirs {
            Some(id) if !text.contains(['.', 'e']) => assert_eq!(
                ours,
                Ok(WebSocketServerToClientMessage::Connected(id as u32, "x".to_string())),
                "{frame}"
            ),
            _ => assert_eq!(ours, Err(CodecError::Malformed), "{frame}"),
        }
    }
}
