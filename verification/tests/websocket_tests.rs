// The WebSocket protocol: close codes, frames and connections.

use browser_engine::websocket::{
    CloseCode, Frame, Opcode, WebSocket, WebSocketError, WebSocketMessage, WebSocketState,
};

#[test]
fn test_websocket_creation() {
    let ws = WebSocket::new("ws://example.com".to_string()).unwrap();
    assert_eq!(ws.state(), WebSocketState::Connecting);
    assert!(!ws.is_secure());
}

#[test]
fn test_secure_websocket() {
    let ws = WebSocket::new("wss://example.com".to_string()).unwrap();
    assert!(ws.is_secure());
}

#[test]
fn test_invalid_url() {
    let result = WebSocket::new("http://example.com".to_string());
    assert!(result.is_err());
    if let Err(e) = result {
        assert_eq!(e, WebSocketError::InvalidUrl);
    }
}

#[test]
fn test_open_connection() {
    let mut ws = WebSocket::new("ws://example.com".to_string()).unwrap();
    ws.open().unwrap();
    assert_eq!(ws.state(), WebSocketState::Open);
}

#[test]
fn test_send_text() {
    let mut ws = WebSocket::new("ws://example.com".to_string()).unwrap();
    ws.open().unwrap();

    ws.send_text("Hello".to_string()).unwrap();
    assert!(ws.next_outgoing_frame().is_some());
}

#[test]
fn test_send_binary() {
    let mut ws = WebSocket::new("ws://example.com".to_string()).unwrap();
    ws.open().unwrap();

    ws.send_binary(vec![1, 2, 3, 4]).unwrap();
    assert!(ws.next_outgoing_frame().is_some());
}

#[test]
fn test_close() {
    let mut ws = WebSocket::new("ws://example.com".to_string()).unwrap();
    ws.open().unwrap();

    ws.close(CloseCode::Normal, Some("Goodbye".to_string())).unwrap();
    assert_eq!(ws.state(), WebSocketState::Closing);
    assert_eq!(ws.close_code(), Some(CloseCode::Normal));
}

#[test]
fn test_ping_pong() {
    let mut ws = WebSocket::new("ws://example.com".to_string()).unwrap();
    ws.open().unwrap();

    ws.send_ping(vec![1, 2, 3]).unwrap();
    assert!(ws.next_outgoing_frame().is_some());
}

#[test]
fn test_close_code_conversion() {
    assert_eq!(CloseCode::Normal.as_u16(), 1000);
    assert_eq!(CloseCode::from_u16(1000), Some(CloseCode::Normal));
    assert_eq!(CloseCode::from_u16(9999), None);
}

#[test]
fn test_handle_incoming_text() {
    let mut ws = WebSocket::new("ws://example.com".to_string()).unwrap();
    ws.open().unwrap();

    let payload = "Hello".as_bytes().to_vec();
    ws.handle_incoming_frame(Opcode::Text as u8, payload).unwrap();

    if let Some(WebSocketMessage::Text(text)) = ws.receive() {
        assert_eq!(text, "Hello");
    } else {
        panic!("Expected text message");
    }
}

#[test]
fn test_handle_incoming_binary() {
    let mut ws = WebSocket::new("ws://example.com".to_string()).unwrap();
    ws.open().unwrap();

    let payload = vec![1, 2, 3, 4];
    ws.handle_incoming_frame(Opcode::Binary as u8, payload.clone()).unwrap();

    if let Some(WebSocketMessage::Binary(data)) = ws.receive() {
        assert_eq!(data, payload);
    } else {
        panic!("Expected binary message");
    }
}

#[test]
fn test_frame_encoding() {
    let frame = Frame::new(Opcode::Text, "Hello".as_bytes().to_vec());
    let encoded = frame.encode(false);

    // Check FIN and opcode
    assert_eq!(encoded[0] & 0x80, 0x80); // FIN bit set
    assert_eq!(encoded[0] & 0x0F, Opcode::Text as u8);
}

#[test]
fn test_send_before_open() {
    let mut ws = WebSocket::new("ws://example.com".to_string()).unwrap();

    let result = ws.send_text("Hello".to_string());
    assert_eq!(result, Err(WebSocketError::NotConnected));
}

fn open_socket() -> WebSocket {
    let mut ws = WebSocket::new("wss://example.com/chat".to_string()).unwrap();
    ws.open().unwrap();
    ws
}

#[test]
fn test_close_codes_round_trip() {
    let codes = [
        (CloseCode::Normal, 1000),
        (CloseCode::GoingAway, 1001),
        (CloseCode::ProtocolError, 1002),
        (CloseCode::UnsupportedData, 1003),
        (CloseCode::NoStatusReceived, 1005),
        (CloseCode::AbnormalClosure, 1006),
        (CloseCode::InvalidFramePayload, 1007),
        (CloseCode::PolicyViolation, 1008),
        (CloseCode::MessageTooBig, 1009),
        (CloseCode::MandatoryExtension, 1010),
        (CloseCode::InternalError, 1011),
        (CloseCode::ServiceRestart, 1012),
        (CloseCode::TryAgainLater, 1013),
        (CloseCode::BadGateway, 1014),
        (CloseCode::TlsHandshake, 1015),
    ];
    for (code, number) in codes {
        assert_eq!(code.as_u16(), number);
        assert_eq!(CloseCode::from_u16(number), Some(code));
    }
    for number in [0, 999, 1004, 1016, u16::MAX] {
        assert_eq!(CloseCode::from_u16(number), None);
    }
}

#[test]
fn test_opcodes() {
    let opcodes = [
        (Opcode::Continuation, 0),
        (Opcode::Text, 1),
        (Opcode::Binary, 2),
        (Opcode::Close, 8),
        (Opcode::Ping, 9),
        (Opcode::Pong, 10),
    ];
    for (opcode, number) in opcodes {
        assert_eq!(opcode.as_u8(), number);
        assert_eq!(Opcode::from_u8(number), Some(opcode));
    }
    for number in [3, 7, 11, 255] {
        assert_eq!(Opcode::from_u8(number), None);
    }
}

#[test]
fn test_frame_bytes_of_a_short_payload() {
    let frame = Frame::new(Opcode::Text, b"Hello".to_vec());
    assert_eq!(frame.encode(false), vec![0x81, 5, b'H', b'e', b'l', b'l', b'o']);
    assert_eq!(
        frame.encode(true),
        vec![
            0x81,
            0x85,
            0x12,
            0x34,
            0x56,
            0x78,
            b'H' ^ 0x12,
            b'e' ^ 0x34,
            b'l' ^ 0x56,
            b'l' ^ 0x78,
            b'o' ^ 0x12
        ]
    );
    let part = Frame { fin: false, opcode: Opcode::Pong, payload: vec![] };
    assert_eq!(part.encode(false), vec![0x0a, 0]);
}

#[test]
fn test_frame_length_forms() {
    let short = Frame::new(Opcode::Binary, vec![7; 125]).encode(false);
    assert_eq!(&short[..2], &[0x82, 125]);
    assert_eq!(short.len(), 2 + 125);
    let medium = Frame::new(Opcode::Binary, vec![7; 126]).encode(false);
    assert_eq!(&medium[..4], &[0x82, 126, 0, 126]);
    assert_eq!(medium.len(), 4 + 126);
    let larger = Frame::new(Opcode::Binary, vec![7; 65535]).encode(true);
    assert_eq!(&larger[..8], &[0x82, 0x80 | 126, 0xff, 0xff, 0x12, 0x34, 0x56, 0x78]);
    assert_eq!(larger.len(), 8 + 65535);
    let long = Frame::new(Opcode::Binary, vec![7; 65536 + 258]).encode(false);
    assert_eq!(&long[..10], &[0x82, 127, 0, 0, 0, 0, 0, 1, 1, 2]);
    assert_eq!(long.len(), 10 + 65536 + 258);
    assert!(long[10..].iter().all(|b| *b == 7));
}

#[test]
fn test_outgoing_frames_leave_in_order() {
    let mut ws = open_socket();
    assert_eq!(ws.url(), "wss://example.com/chat");
    ws.send_text("hi".to_string()).unwrap();
    ws.send_binary(vec![9]).unwrap();
    ws.send_ping(vec![]).unwrap();
    ws.send_pong(vec![1]).unwrap();
    assert_eq!(ws.next_outgoing_frame(), Some(Frame::new(Opcode::Text, b"hi".to_vec()).encode(true)));
    assert_eq!(ws.next_outgoing_frame(), Some(Frame::new(Opcode::Binary, vec![9]).encode(true)));
    assert_eq!(ws.next_outgoing_frame(), Some(vec![0x89, 0x80, 0x12, 0x34, 0x56, 0x78]));
    assert_eq!(ws.next_outgoing_frame(), Some(vec![0x8a, 0x81, 0x12, 0x34, 0x56, 0x78, 1 ^ 0x12]));
    assert_eq!(ws.next_outgoing_frame(), None);
}

#[test]
fn test_states_gate_the_operations() {
    let mut ws = WebSocket::new("ws://example.com".to_string()).unwrap();
    assert!(!ws.should_ping());
    assert!(!ws.should_ping_after(1000));
    assert_eq!(ws.send_binary(vec![]), Err(WebSocketError::NotConnected));
    assert_eq!(ws.send_ping(vec![]), Err(WebSocketError::NotConnected));
    assert_eq!(ws.send_pong(vec![]), Err(WebSocketError::NotConnected));
    assert_eq!(ws.handle_incoming_frame(9, vec![1]), Err(WebSocketError::NotConnected));
    assert_eq!(ws.receive(), None);
    ws.open().unwrap();
    assert_eq!(ws.open(), Err(WebSocketError::InvalidState));
    assert!(!ws.should_ping());
    assert!(ws.should_ping_after(30));
    assert!(!ws.should_ping_after(29));
    ws.close(CloseCode::GoingAway, None).unwrap();
    assert_eq!(ws.close_reason(), None);
    assert_eq!(ws.send_text("x".to_string()), Err(WebSocketError::NotConnected));
    assert_eq!(ws.send_pong(vec![]), Ok(()));
    assert_eq!(ws.next_outgoing_frame(), Some(vec![0x88, 0x82, 0x12, 0x34, 0x56, 0x78, 0x03 ^ 0x12, 0xe9 ^ 0x34]));
    ws.handle_incoming_frame(8, vec![]).unwrap();
    assert_eq!(ws.state(), WebSocketState::Closed);
    assert_eq!(ws.close(CloseCode::Normal, None), Err(WebSocketError::AlreadyClosed));
    assert_eq!(ws.close_code(), Some(CloseCode::GoingAway));
}

#[test]
fn test_close_frame_carries_code_and_reason() {
    let mut ws = open_socket();
    ws.close(CloseCode::Normal, Some("Goodbye".to_string())).unwrap();
    assert_eq!(ws.close_reason(), Some("Goodbye"));
    let mut payload = vec![0x03, 0xe8];
    payload.extend_from_slice(b"Goodbye");
    assert_eq!(ws.next_outgoing_frame(), Some(Frame::new(Opcode::Close, payload).encode(true)));
}

#[test]
fn test_incoming_frames() {
    let mut ws = open_socket();
    assert_eq!(ws.handle_incoming_frame(3, vec![]), Err(WebSocketError::InvalidFrame));
    assert_eq!(ws.handle_incoming_frame(0, vec![]), Err(WebSocketError::UnsupportedFeature));
    assert_eq!(ws.handle_incoming_frame(1, vec![0xff, 0xfe]), Err(WebSocketError::InvalidUtf8));
    assert_eq!(ws.receive(), None);
    ws.handle_incoming_frame(9, vec![4, 5]).unwrap();
    ws.handle_incoming_frame(10, vec![6]).unwrap();
    let mut close = vec![0x03, 0xf7];
    close.extend_from_slice("später".as_bytes());
    ws.handle_incoming_frame(8, close).unwrap();
    assert_eq!(ws.receive(), Some(WebSocketMessage::Ping(vec![4, 5])));
    assert_eq!(ws.receive(), Some(WebSocketMessage::Pong(vec![6])));
    assert_eq!(
        ws.receive(),
        Some(WebSocketMessage::Close(Some(CloseCode::TlsHandshake), Some("später".to_string())))
    );
    // the ping was answered
    assert_eq!(ws.next_outgoing_frame(), Some(Frame::new(Opcode::Pong, vec![4, 5]).encode(true)));
    assert_eq!(ws.state(), WebSocketState::Closed);
}

#[test]
fn test_close_frames_with_odd_payloads() {
    for (payload, expected) in [
        (vec![], WebSocketMessage::Close(None, None)),
        (vec![0x03], WebSocketMessage::Close(None, None)),
        (vec![0x03, 0xe8], WebSocketMessage::Close(Some(CloseCode::Normal), None)),
        (vec![0x00, 0x07, b'x'], WebSocketMessage::Close(None, Some("x".to_string()))),
        (vec![0x03, 0xe9, 0xff], WebSocketMessage::Close(Some(CloseCode::GoingAway), None)),
    ] {
        let mut ws = open_socket();
        ws.handle_incoming_frame(8, payload).unwrap();
        assert_eq!(ws.receive(), Some(expected));
    }
}

#[test]
fn test_websocket_error_text() {
    assert_eq!(WebSocketError::InvalidUrl.to_string(), "Invalid WebSocket URL");
    assert_eq!(WebSocketError::InvalidUtf8.to_string(), "Invalid UTF-8 in text message");
    assert_eq!(WebSocketError::UnsupportedFeature.to_string(), "Unsupported WebSocket feature");
}
