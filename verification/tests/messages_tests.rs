use tower_defense::messages::ClientMessage;
use tower_defense::messages::DebugMessage;
use tower_defense::messages::ServerMessage;
use tower_defense::server_message::Message;
use tower_defense::deserialize_client_message;
use tower_defense::deserialize_server_message;
use tower_defense::serialize_client_message;
use tower_defense::serialize_server_message;

#[test]
fn create_server_message() {
    let message = ServerMessage {
        message: Some(Message::DebugMessage(DebugMessage {
            content: String::from("Hello"),
        })),
    };

    let inner_message = message.message;
    assert!(inner_message.is_some());
    let mut content: String = String::from("");
    if let Some(Message::DebugMessage(debug_message)) = inner_message {
        content = debug_message.content
    }
    assert_eq!(content, String::from("Hello"))
}

#[test]
fn server_message_round_trip() {
    let message = ServerMessage {
        message: Some(Message::DebugMessage(DebugMessage {
            content: String::from("Welcome client 7"),
        })),
    };
    let bytes = serialize_server_message(message);
    let back = deserialize_server_message(&bytes).expect("own bytes decode");
    match back.message {
        Some(Message::DebugMessage(d)) => assert_eq!(d.content, "Welcome client 7"),
        None => panic!("payload lost"),
    }
}

#[test]
fn client_message_round_trip() {
    let message = ClientMessage {
        message: Some(tower_defense::client_message::Message::DebugMessage(DebugMessage {
            content: String::from("Hello"),
        })),
    };
    let bytes = serialize_client_message(message);
    // Tag of field 1, length 7, then the nested message: tag, length 5, "Hello".
    assert_eq!(bytes, vec![0x0A, 7, 0x0A, 5, b'H', b'e', b'l', b'l', b'o']);
    let back = deserialize_client_message(&bytes).expect("own bytes decode");
    match back.message {
        Some(tower_defense::client_message::Message::DebugMessage(d)) => {
            assert_eq!(d.content, "Hello")
        }
        None => panic!("payload lost"),
    }
}

#[test]
fn empty_message_round_trip() {
    let bytes = serialize_client_message(ClientMessage { message: None });
    assert_eq!(bytes, Vec::<u8>::new());
    let back = deserialize_client_message(&bytes).expect("empty buffer decodes");
    assert!(back.message.is_none());
}

#[test]
fn empty_content_round_trip() {
    let message = ServerMessage {
        message: Some(Message::DebugMessage(DebugMessage {
            content: String::new(),
        })),
    };
    let bytes = serialize_server_message(message);
    assert_eq!(bytes, vec![0x0A, 0]);
    let back = deserialize_server_message(&bytes).expect("empty payload decodes");
    match back.message {
        Some(Message::DebugMessage(d)) => assert_eq!(d.content, ""),
        None => panic!("payload lost"),
    }
}

#[test]
fn long_content_uses_a_two_byte_length() {
    let text: String = std::iter::repeat('a').take(200).collect();
    let message = ServerMessage {
        message: Some(Message::DebugMessage(DebugMessage { content: text.clone() })),
    };
    let bytes = serialize_server_message(message);
    // Inner message: tag, varint(200) = [0xC8, 0x01], 200 bytes; outer
    // length 203 = [0xCB, 0x01].
    assert_eq!(&bytes[..5], &[0x0A, 0xCB, 0x01, 0x0A, 0xC8]);
    let back = deserialize_server_message(&bytes).expect("own bytes decode");
    match back.message {
        Some(Message::DebugMessage(d)) => assert_eq!(d.content, text),
        None => panic!("payload lost"),
    }
}

#[test]
fn truncated_buffer_is_rejected() {
    let message = ServerMessage {
        message: Some(Message::DebugMessage(DebugMessage {
            content: String::from("Hello"),
        })),
    };
    let mut bytes = serialize_server_message(message);
    bytes.pop();
    assert!(deserialize_server_message(&bytes).is_err());
}

#[test]
fn trailing_bytes_are_rejected() {
    let message = ClientMessage {
        message: Some(tower_defense::client_message::Message::DebugMessage(DebugMessage {
            content: String::from("hi"),
        })),
    };
    let mut bytes = serialize_client_message(message);
    bytes.push(0);
    assert!(deserialize_client_message(&bytes).is_err());
}

#[test]
fn wrong_tag_is_rejected() {
    assert!(deserialize_client_message(&[0x12, 0x00]).is_err());
}

#[test]
fn invalid_utf8_is_rejected() {
    // Outer: tag, length 4; inner: tag, length 2, then an invalid byte
    // pair (a lone continuation byte cannot follow an ASCII byte).
    let bytes = [0x0A, 4, 0x0A, 2, 0x41, 0x80];
    assert!(deserialize_client_message(&bytes).is_err());
}

#[test]
fn unterminated_varint_is_rejected() {
    assert!(deserialize_client_message(&[0x0A, 0x80]).is_err());
}

#[test]
fn oversized_length_is_rejected() {
    // A length far beyond the buffer, and one that does not even fit in
    // 64 bits: both must come back as errors, not panics.
    assert!(deserialize_client_message(&[0x0A, 0xFF, 0x7F]).is_err());
    let huge = [
        0x0A, 0xFF, 0xFF, 0xFF, 0xFF, 0xFF, 0xFF, 0xFF, 0xFF, 0xFF, 0x7F,
    ];
    assert!(deserialize_client_message(&huge).is_err());
}
