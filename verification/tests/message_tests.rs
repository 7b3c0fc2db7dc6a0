use rapid_net::message::{forward_client_event, message_of, ClientEvent, ClientSession, ServerEvent};
use uuid::Uuid;

#[test]
fn test_client_event_message() {
    let client_id = Uuid::new_v4().as_u128();

    // The event's message is the payload bytes.
    let message: Vec<u8> = b"TestKey".to_vec();

    let event = ClientEvent::Message { client_id, message };

    match event {
        ClientEvent::Message { client_id: id, message: msg } => {
            assert_eq!(id, client_id);
            assert!(!msg.is_empty());
            assert_eq!(String::from_utf8_lossy(&msg), "TestKey");
        }
        _ => panic!("Expected ClientEvent::Message"),
    }
}

#[test]
fn test_client_event_connected() {
    let client_id = Uuid::new_v4().as_u128();

    let event: ClientEvent<Vec<u8>> = ClientEvent::Connected { client_id };

    match event {
        ClientEvent::Connected { client_id: id } => {
            assert_eq!(id, client_id);
        }
        _ => panic!("Expected ClientEvent::Connected"),
    }
}

#[test]
fn test_client_event_disconnected() {
    let client_id = Uuid::new_v4().as_u128();

    let event: ClientEvent<Vec<u8>> = ClientEvent::Disconnected { client_id };

    match event {
        ClientEvent::Disconnected { client_id: id } => {
            assert_eq!(id, client_id);
        }
        _ => panic!("Expected ClientEvent::Disconnected"),
    }
}

#[test]
fn test_client_event_error() {
    let client_id = Uuid::new_v4().as_u128();
    let error_message = "Test error message";

    let event: ClientEvent<Vec<u8>> = ClientEvent::Error {
        client_id,
        error: error_message.to_string(),
    };

    match event {
        ClientEvent::Error { client_id: id, error } => {
            assert_eq!(id, client_id);
            assert_eq!(error, error_message);
        }
        _ => panic!("Expected ClientEvent::Error"),
    }
}

#[test]
fn server_forwards_message_under_connection_id() {
    let ev = ClientEvent::Message { client_id: 7, message: b"TestKey".to_vec() };
    match forward_client_event(42, ev) {
        Some(ServerEvent::Message { client_id, message }) => {
            assert_eq!(client_id, 42);
            assert_eq!(message, b"TestKey".to_vec());
        }
        other => panic!("unexpected {:?}", other),
    }
}

#[test]
fn server_holds_back_connected() {
    let ev: ClientEvent<Vec<u8>> = ClientEvent::Connected { client_id: 7 };
    assert!(forward_client_event(42, ev).is_none());
}

#[test]
fn server_forwards_disconnect_and_error() {
    let ev: ClientEvent<Vec<u8>> = ClientEvent::Disconnected { client_id: 7 };
    assert!(matches!(forward_client_event(42, ev), Some(ServerEvent::Disconnected { client_id: 42 })));
    let ev: ClientEvent<Vec<u8>> = ClientEvent::Error { client_id: 7, error: "boom".to_string() };
    match forward_client_event(42, ev) {
        Some(ServerEvent::Error { client_id, error }) => {
            assert_eq!(client_id, 42);
            assert_eq!(error, "boom");
        }
        other => panic!("unexpected {:?}", other),
    }
}

#[test]
fn recv_keeps_only_messages() {
    let ev = ClientEvent::Message { client_id: 1, message: 5u32 };
    assert_eq!(message_of(ev), Some(5));
    let ev: ClientEvent<u32> = ClientEvent::Connected { client_id: 1 };
    assert_eq!(message_of(ev), None);
    let ev: ClientEvent<u32> = ClientEvent::Error { client_id: 1, error: String::new() };
    assert_eq!(message_of(ev), None);
}

#[test]
fn session_announces_first_and_last() {
    let mut s: ClientSession<Vec<u8>> = ClientSession::new(42);
    assert_eq!(s.client_id(), 42);
    let mut seen = vec![s.open()];
    let incoming: Vec<ClientEvent<Vec<u8>>> = vec![
        ClientEvent::Connected { client_id: 1 },
        ClientEvent::Message { client_id: 1, message: b"a".to_vec() },
        ClientEvent::Connected { client_id: 1 },
        ClientEvent::Error { client_id: 1, error: "e".to_string() },
    ];
    for ev in incoming {
        if let Some(out) = s.forward(ev) {
            seen.push(out);
        }
    }
    let (last, drop_id) = s.close();
    seen.push(last);
    assert_eq!(drop_id, 42);
    assert_eq!(seen.len(), 4);
    assert!(matches!(seen[0], ServerEvent::Connected { client_id: 42 }));
    assert!(matches!(&seen[1], ServerEvent::Message { client_id: 42, message } if message == b"a"));
    assert!(matches!(&seen[2], ServerEvent::Error { client_id: 42, error } if error == "e"));
    assert!(matches!(seen[3], ServerEvent::Disconnected { client_id: 42 }));
    assert_eq!(seen.iter().filter(|e| matches!(e, ServerEvent::Connected { .. })).count(), 1);
}
