//! The WebSocket protocol: close codes, frames and the state of a
//! connection.

use vstd::prelude::*;
use crate::clock::{elapsed, instant_now, whole_secs};
use crate::text::{from_utf8, has_prefix, into_bytes, starts_with};
use std::collections::VecDeque;
use std::time::Instant;
use vstd::utf8::{encode_utf8, valid_utf8};

verus! {

/// The seconds after which a connection should send a ping again.
pub const PING_INTERVAL_SECS: u64 = 30;

/// WebSocket connection state
#[derive(Debug, Clone, Copy, PartialEq, Eq, Structural)]
pub enum WebSocketState {
    /// Connection is being established
    Connecting,
    /// Connection is open and ready
    Open,
    /// Connection is closing
    Closing,
    /// Connection is closed
    Closed,
}

/// WebSocket close codes
#[derive(Debug, Clone, Copy, PartialEq, Eq, Structural)]
pub enum CloseCode {
    Normal,
    GoingAway,
    ProtocolError,
    UnsupportedData,
    NoStatusReceived,
    AbnormalClosure,
    InvalidFramePayload,
    PolicyViolation,
    MessageTooBig,
    MandatoryExtension,
    InternalError,
    ServiceRestart,
    TryAgainLater,
    BadGateway,
    TlsHandshake,
}

impl CloseCode {
    /// The number of the close code on the wire.
    pub open spec fn number(self) -> u16 {
        match self {
            CloseCode::Normal => 1000,
            CloseCode::GoingAway => 1001,
            CloseCode::ProtocolError => 1002,
            CloseCode::UnsupportedData => 1003,
            CloseCode::NoStatusReceived => 1005,
            CloseCode::AbnormalClosure => 1006,
            CloseCode::InvalidFramePayload => 1007,
            CloseCode::PolicyViolation => 1008,
            CloseCode::MessageTooBig => 1009,
            CloseCode::MandatoryExtension => 1010,
            CloseCode::InternalError => 1011,
            CloseCode::ServiceRestart => 1012,
            CloseCode::TryAgainLater => 1013,
            CloseCode::BadGateway => 1014,
            CloseCode::TlsHandshake => 1015,
        }
    }

    /// The close code with a number; none for a number that no close code
    /// has.
    pub open spec fn of_number(code: u16) -> Option<CloseCode> {
        if code == 1000 {
            Some(CloseCode::Normal)
        } else if code == 1001 {
            Some(CloseCode::GoingAway)
        } else if code == 1002 {
            Some(CloseCode::ProtocolError)
        } else if code == 1003 {
            Some(CloseCode::UnsupportedData)
        } else if code == 1005 {
            Some(CloseCode::NoStatusReceived)
        } else if code == 1006 {
            Some(CloseCode::AbnormalClosure)
        } else if code == 1007 {
            Some(CloseCode::InvalidFramePayload)
        } else if code == 1008 {
            Some(CloseCode::PolicyViolation)
        } else if code == 1009 {
            Some(CloseCode::MessageTooBig)
        } else if code == 1010 {
            Some(CloseCode::MandatoryExtension)
        } else if code == 1011 {
            Some(CloseCode::InternalError)
        } else if code == 1012 {
            Some(CloseCode::ServiceRestart)
        } else if code == 1013 {
            Some(CloseCode::TryAgainLater)
        } else if code == 1014 {
            Some(CloseCode::BadGateway)
        } else if code == 1015 {
            Some(CloseCode::TlsHandshake)
        } else {
            None
        }
    }

    /// Reading the number of a close code gives the close code back, and a
    /// number is read as a close code only where it is the number of that
    /// code.
    pub proof fn lemma_number_round_trip(self, code: u16)
        ensures
            CloseCode::of_number(self.number()) == Some(self),
            CloseCode::of_number(code) == Some(self) <==> code == self.number(),
    {
    }

    pub fn as_u16(self) -> (code: u16)
        ensures
            code == self.number(),
    {
        match self {
            CloseCode::Normal => 1000,
            CloseCode::GoingAway => 1001,
            CloseCode::ProtocolError => 1002,
            CloseCode::UnsupportedData => 1003,
            CloseCode::NoStatusReceived => 1005,
            CloseCode::AbnormalClosure => 1006,
            CloseCode::InvalidFramePayload => 1007,
            CloseCode::PolicyViolation => 1008,
            CloseCode::MessageTooBig => 1009,
            CloseCode::MandatoryExtension => 1010,
            CloseCode::InternalError => 1011,
            CloseCode::ServiceRestart => 1012,
            CloseCode::TryAgainLater => 1013,
            CloseCode::BadGateway => 1014,
            CloseCode::TlsHandshake => 1015,
        }
    }

    pub fn from_u16(code: u16) -> (close_code: Option<Self>)
        ensures
            close_code == CloseCode::of_number(code),
    {
        match code {
            1000 => Some(CloseCode::Normal),
            1001 => Some(CloseCode::GoingAway),
            1002 => Some(CloseCode::ProtocolError),
            1003 => Some(CloseCode::UnsupportedData),
            1005 => Some(CloseCode::NoStatusReceived),
            1006 => Some(CloseCode::AbnormalClosure),
            1007 => Some(CloseCode::InvalidFramePayload),
            1008 => Some(CloseCode::PolicyViolation),
            1009 => Some(CloseCode::MessageTooBig),
            1010 => Some(CloseCode::MandatoryExtension),
            1011 => Some(CloseCode::InternalError),
            1012 => Some(CloseCode::ServiceRestart),
            1013 => Some(CloseCode::TryAgainLater),
            1014 => Some(CloseCode::BadGateway),
            1015 => Some(CloseCode::TlsHandshake),
            _ => None,
        }
    }
}

/// WebSocket message types
#[derive(Debug, Clone, PartialEq, Eq)]
pub enum WebSocketMessage {
    /// Text message (UTF-8)
    Text(String),
    /// Binary message
    Binary(Vec<u8>),
    /// Ping frame
    Ping(Vec<u8>),
    /// Pong frame
    Pong(Vec<u8>),
    /// Close frame
    Close(Option<CloseCode>, Option<String>),
}

/// WebSocket frame opcode
#[derive(Debug, Clone, Copy, PartialEq, Eq, Structural)]
pub enum Opcode {
    Continuation,
    Text,
    Binary,
    Close,
    Ping,
    Pong,
}

impl Opcode {
    /// The number of the opcode on the wire.
    pub open spec fn number(self) -> u8 {
        match self {
            Opcode::Continuation => 0,
            Opcode::Text => 1,
            Opcode::Binary => 2,
            Opcode::Close => 8,
            Opcode::Ping => 9,
            Opcode::Pong => 10,
        }
    }

    /// The opcode with a number; none for a number that no opcode has.
    pub open spec fn of_number(value: u8) -> Option<Opcode> {
        if value == 0 {
            Some(Opcode::Continuation)
        } else if value == 1 {
            Some(Opcode::Text)
        } else if value == 2 {
            Some(Opcode::Binary)
        } else if value == 8 {
            Some(Opcode::Close)
        } else if value == 9 {
            Some(Opcode::Ping)
        } else if value == 10 {
            Some(Opcode::Pong)
        } else {
            None
        }
    }

    /// The number of the opcode on the wire.
    pub fn as_u8(self) -> (value: u8)
        ensures
            value == self.number(),
    {
        match self {
            Opcode::Continuation => 0,
            Opcode::Text => 1,
            Opcode::Binary => 2,
            Opcode::Close => 8,
            Opcode::Ping => 9,
            Opcode::Pong => 10,
        }
    }

    pub fn from_u8(value: u8) -> (opcode: Option<Self>)
        ensures
            opcode == Opcode::of_number(value),
    {
        match value {
            0 => Some(Opcode::Continuation),
            1 => Some(Opcode::Text),
            2 => Some(Opcode::Binary),
            8 => Some(Opcode::Close),
            9 => Some(Opcode::Ping),
            10 => Some(Opcode::Pong),
            _ => None,
        }
    }
}

/// The key with which payload bytes are masked, by position in the
/// payload.
pub open spec fn mask_key(i: int) -> u8 {
    let k = i % 4;
    if k == 0 {
        0x12
    } else if k == 1 {
        0x34
    } else if k == 2 {
        0x56
    } else {
        0x78
    }
}

/// The two bytes of a number, the high one first.
pub open spec fn two_bytes(n: int) -> Seq<u8> {
    seq![((n / 256) % 256) as u8, (n % 256) as u8]
}

/// The eight bytes of a number, the highest first.
pub open spec fn eight_bytes(n: int) -> Seq<u8> {
    seq![
        ((n / 0x100_0000_0000_0000) % 256) as u8,
        ((n / 0x1_0000_0000_0000) % 256) as u8,
        ((n / 0x100_0000_0000) % 256) as u8,
        ((n / 0x1_0000_0000) % 256) as u8,
        ((n / 0x100_0000) % 256) as u8,
        ((n / 0x1_0000) % 256) as u8,
        ((n / 0x100) % 256) as u8,
        (n % 256) as u8,
    ]
}

/// The bytes that say how long a payload is, and whether it is masked: one
/// byte for a length under 126, the marker 126 and two bytes for a length
/// under 65536, the marker 127 and eight bytes for a longer one. The mask
/// bit is the high bit of the first byte.
pub open spec fn length_bytes(len: int, mask: bool) -> Seq<u8> {
    let bit: int = if mask {
        128
    } else {
        0
    };
    if len < 126 {
        seq![(bit + len) as u8]
    } else if len < 65536 {
        seq![(bit + 126) as u8] + two_bytes(len)
    } else {
        seq![(bit + 127) as u8] + eight_bytes(len)
    }
}

/// The payload as it stands in a frame: each byte combined with the mask
/// key of its position where the frame is masked, with the four bytes of
/// the key in front; as it is where the frame is not masked.
pub open spec fn payload_bytes(payload: Seq<u8>, mask: bool) -> Seq<u8> {
    if mask {
        seq![0x12u8, 0x34u8, 0x56u8, 0x78u8] + Seq::new(
            payload.len(),
            |i: int| payload[i] ^ mask_key(i),
        )
    } else {
        payload
    }
}

/// The bytes of a frame: the opcode with the final bit as the high bit, the
/// length, and the payload.
pub open spec fn frame_bytes(fin: bool, opcode: Opcode, payload: Seq<u8>, mask: bool) -> Seq<u8> {
    seq![(opcode.number() + if fin {
        128int
    } else {
        0int
    }) as u8] + length_bytes(payload.len() as int, mask) + payload_bytes(payload, mask)
}

/// WebSocket frame
#[derive(Debug, Clone)]
pub struct Frame {
    pub fin: bool,
    pub opcode: Opcode,
    pub payload: Vec<u8>,
}

impl Frame {
    /// A final frame with an opcode and a payload.
    pub fn new(opcode: Opcode, payload: Vec<u8>) -> (frame: Self)
        ensures
            frame.fin,
            frame.opcode == opcode,
            frame.payload == payload,
    {
        Frame { fin: true, opcode, payload }
    }

    /// The bytes of the frame.
    pub fn encode(&self, mask: bool) -> (bytes: Vec<u8>)
        ensures
            bytes@ == frame_bytes(self.fin, self.opcode, self.payload@, mask),
    {
        let mut bytes: Vec<u8> = Vec::new();
        let code = self.opcode.as_u8();
        let first_byte: u8 = if self.fin {
            code + 128
        } else {
            code
        };
        bytes.push(first_byte);
        push_length(&mut bytes, self.payload.len(), mask);
        push_payload(&mut bytes, &self.payload, mask);
        assert(bytes@ =~= frame_bytes(self.fin, self.opcode, self.payload@, mask));
        bytes
    }
}

/// Adds the bytes that say how long a payload is.
fn push_length(bytes: &mut Vec<u8>, payload_len: usize, mask: bool)
    ensures
        final(bytes)@ == old(bytes)@ + length_bytes(payload_len as int, mask),
{
    let mask_bit: u8 = if mask {
        128
    } else {
        0
    };
    if payload_len < 126 {
        bytes.push(mask_bit + (payload_len as u8));
        assert(bytes@ =~= old(bytes)@ + length_bytes(payload_len as int, mask));
    } else if payload_len < 65536 {
        bytes.push(mask_bit + 126);
        bytes.push(((payload_len / 256) % 256) as u8);
        bytes.push((payload_len % 256) as u8);
        assert(bytes@ =~= old(bytes)@ + length_bytes(payload_len as int, mask));
    } else {
        bytes.push(mask_bit + 127);
        push_eight_bytes(bytes, payload_len as u64);
        assert(bytes@ =~= old(bytes)@ + length_bytes(payload_len as int, mask));
    }
}

/// Adds the eight bytes of a number, the highest first.
fn push_eight_bytes(bytes: &mut Vec<u8>, n: u64)
    ensures
        final(bytes)@ == old(bytes)@ + eight_bytes(n as int),
{
    bytes.push(((n / 0x100_0000_0000_0000) % 256) as u8);
    bytes.push(((n / 0x1_0000_0000_0000) % 256) as u8);
    bytes.push(((n / 0x100_0000_0000) % 256) as u8);
    bytes.push(((n / 0x1_0000_0000) % 256) as u8);
    bytes.push(((n / 0x100_0000) % 256) as u8);
    bytes.push(((n / 0x1_0000) % 256) as u8);
    bytes.push(((n / 0x100) % 256) as u8);
    bytes.push((n % 256) as u8);
    assert(bytes@ =~= old(bytes)@ + eight_bytes(n as int));
}

/// Adds a payload as it stands in a frame.
fn push_payload(bytes: &mut Vec<u8>, payload: &Vec<u8>, mask: bool)
    ensures
        final(bytes)@ == old(bytes)@ + payload_bytes(payload@, mask),
{
    let ghost header = bytes@;
    if mask {
        bytes.push(0x12);
        bytes.push(0x34);
        bytes.push(0x56);
        bytes.push(0x78);
        let mut i: usize = 0;
        while i < payload.len()
            invariant
                i <= payload@.len(),
                bytes@ == header + seq![0x12u8, 0x34u8, 0x56u8, 0x78u8] + Seq::new(
                    i as nat,
                    |j: int| payload@[j] ^ mask_key(j),
                ),
            decreases payload@.len() - i,
        {
            let key: u8 = if i % 4 == 0 {
                0x12
            } else if i % 4 == 1 {
                0x34
            } else if i % 4 == 2 {
                0x56
            } else {
                0x78
            };
            bytes.push(payload[i] ^ key);
            assert(bytes@ =~= header + seq![0x12u8, 0x34u8, 0x56u8, 0x78u8] + Seq::new(
                (i + 1) as nat,
                |j: int| payload@[j] ^ mask_key(j),
            ));
            i = i + 1;
        }
        assert(bytes@ =~= header + payload_bytes(payload@, mask));
    } else {
        let mut i: usize = 0;
        while i < payload.len()
            invariant
                i <= payload@.len(),
                bytes@ == header + payload@.subrange(0, i as int),
            decreases payload@.len() - i,
        {
            bytes.push(payload[i]);
            assert(bytes@ =~= header + payload@.subrange(0, i as int + 1));
            i = i + 1;
        }
        assert(payload@.subrange(0, payload@.len() as int) =~= payload@);
    }
}

/// WebSocket error types
#[derive(Debug, Clone, Copy, PartialEq, Eq, Structural)]
pub enum WebSocketError {
    /// Invalid URL
    InvalidUrl,
    /// Invalid state
    InvalidState,
    /// Not connected
    NotConnected,
    /// Already closed
    AlreadyClosed,
    /// Invalid frame
    InvalidFrame,
    /// Invalid UTF-8
    InvalidUtf8,
    /// Connection error
    ConnectionError,
    /// Unsupported feature
    UnsupportedFeature,
}

impl WebSocketError {
    /// The text of the error.
    pub fn to_string(&self) -> (text: String)
        ensures
            text@ == match *self {
                WebSocketError::InvalidUrl => "Invalid WebSocket URL"@,
                WebSocketError::InvalidState => "Invalid WebSocket state"@,
                WebSocketError::NotConnected => "WebSocket not connected"@,
                WebSocketError::AlreadyClosed => "WebSocket already closed"@,
                WebSocketError::InvalidFrame => "Invalid WebSocket frame"@,
                WebSocketError::InvalidUtf8 => "Invalid UTF-8 in text message"@,
                WebSocketError::ConnectionError => "WebSocket connection error"@,
                WebSocketError::UnsupportedFeature => "Unsupported WebSocket feature"@,
            },
    {
        match self {
            WebSocketError::InvalidUrl => String::from_str("Invalid WebSocket URL"),
            WebSocketError::InvalidState => String::from_str("Invalid WebSocket state"),
            WebSocketError::NotConnected => String::from_str("WebSocket not connected"),
            WebSocketError::AlreadyClosed => String::from_str("WebSocket already closed"),
            WebSocketError::InvalidFrame => String::from_str("Invalid WebSocket frame"),
            WebSocketError::InvalidUtf8 => String::from_str("Invalid UTF-8 in text message"),
            WebSocketError::ConnectionError => String::from_str("WebSocket connection error"),
            WebSocketError::UnsupportedFeature => String::from_str("Unsupported WebSocket feature"),
        }
    }
}

/// A connection as a mathematical value.
pub struct WebSocketView {
    pub url: Seq<char>,
    pub state: WebSocketState,
    pub secure: bool,
    /// The messages that came in and were not received yet, oldest first
    pub incoming: Seq<WebSocketMessage>,
    /// The frames that wait to go out, oldest first
    pub outgoing: Seq<Vec<u8>>,
    /// Whether a ping was sent or the connection was opened
    pub pinged: bool,
    pub close_code: Option<CloseCode>,
    pub close_reason: Option<String>,
}

/// WebSocket connection
pub struct WebSocket {
    url: String,
    state: WebSocketState,
    secure: bool,
    incoming_messages: VecDeque<WebSocketMessage>,
    outgoing_frames: VecDeque<Vec<u8>>,
    last_ping: Option<Instant>,
    close_code: Option<CloseCode>,
    close_reason: Option<String>,
}

impl View for WebSocket {
    type V = WebSocketView;

    closed spec fn view(&self) -> WebSocketView {
        WebSocketView {
            url: self.url@,
            state: self.state,
            secure: self.secure,
            incoming: self.incoming_messages@,
            outgoing: self.outgoing_frames@,
            pinged: self.last_ping.is_some(),
            close_code: self.close_code,
            close_reason: self.close_reason,
        }
    }
}

/// The payload of a close frame: the two bytes of the code and the bytes
/// of the reason.
pub open spec fn close_payload(code: CloseCode, reason: Option<String>) -> Seq<u8> {
    two_bytes(code.number() as int) + match reason {
        Some(r) => encode_utf8(r@),
        None => Seq::empty(),
    }
}

/// The close code that the payload of a close frame names: that of the
/// number in its first two bytes. None for a shorter payload and for a
/// number that no close code has.
pub open spec fn received_close_code(payload: Seq<u8>) -> Option<CloseCode> {
    if payload.len() >= 2 {
        CloseCode::of_number((payload[0] as int * 256 + payload[1] as int) as u16)
    } else {
        None
    }
}

/// Whether `reason` is the reason that the payload of a close frame gives:
/// the text behind the first two bytes where those bytes are valid UTF-8,
/// and none else.
pub open spec fn is_received_reason(reason: Option<String>, payload: Seq<u8>) -> bool {
    let rest = payload.subrange(2, payload.len() as int);
    match reason {
        Some(r) => payload.len() > 2 && valid_utf8(rest) && encode_utf8(r@) == rest,
        None => payload.len() <= 2 || !valid_utf8(rest),
    }
}

impl WebSocket {
    /// Create a new WebSocket connection. The URL has to start with `ws://`
    /// or, for a secure connection, with `wss://`.
    pub fn new(url: String) -> (socket: Result<Self, WebSocketError>)
        ensures
            match socket {
                Ok(ws) => {
                    &&& has_prefix(url@, "ws://"@) || has_prefix(url@, "wss://"@)
                    &&& ws@ == (WebSocketView {
                        url: url@,
                        state: WebSocketState::Connecting,
                        secure: has_prefix(url@, "wss://"@),
                        incoming: Seq::empty(),
                        outgoing: Seq::empty(),
                        pinged: false,
                        close_code: None,
                        close_reason: None,
                    })
                },
                Err(e) => e == WebSocketError::InvalidUrl && !has_prefix(url@, "ws://"@)
                    && !has_prefix(url@, "wss://"@),
            },
    {
        let secure = starts_with(url.as_str(), "wss://");
        if !starts_with(url.as_str(), "ws://") && !secure {
            return Err(WebSocketError::InvalidUrl);
        }
        Ok(
            WebSocket {
                url,
                state: WebSocketState::Connecting,
                secure,
                incoming_messages: VecDeque::new(),
                outgoing_frames: VecDeque::new(),
                last_ping: None,
                close_code: None,
                close_reason: None,
            },
        )
    }

    /// Get URL
    pub fn url(&self) -> (url: &str)
        ensures
            url@ == self@.url,
    {
        self.url.as_str()
    }

    /// Get current state
    pub fn state(&self) -> (state: WebSocketState)
        ensures
            state == self@.state,
    {
        self.state
    }

    /// Check if connection is secure
    pub fn is_secure(&self) -> (secure: bool)
        ensures
            secure == self@.secure,
    {
        self.secure
    }

    /// Open connection. Only a connection that is connecting can be
    /// opened.
    pub fn open(&mut self) -> (done: Result<(), WebSocketError>)
        ensures
            match done {
                Ok(_) => old(self)@.state == WebSocketState::Connecting && final(self)@ == (
                WebSocketView { state: WebSocketState::Open, pinged: true, ..old(self)@ }),
                Err(e) => e == WebSocketError::InvalidState && old(self)@.state
                    != WebSocketState::Connecting && final(self)@ == old(self)@,
            },
    {
        if self.state != WebSocketState::Connecting {
            return Err(WebSocketError::InvalidState);
        }
        self.state = WebSocketState::Open;
        self.last_ping = Some(instant_now());
        Ok(())
    }

    /// Whether the connection is as `before` with one frame more at the end
    /// of the frames that wait to go out: a final, masked frame with the
    /// opcode and the payload.
    pub open spec fn queued(&self, before: WebSocketView, opcode: Opcode, payload: Seq<u8>) -> bool {
        &&& self@.outgoing.len() == before.outgoing.len() + 1
        &&& self@.outgoing.subrange(0, before.outgoing.len() as int) == before.outgoing
        &&& self@.outgoing.last()@ == frame_bytes(true, opcode, payload, true)
        &&& self@.url == before.url
        &&& self@.state == before.state
        &&& self@.secure == before.secure
        &&& self@.incoming == before.incoming
        &&& self@.close_code == before.close_code
        &&& self@.close_reason == before.close_reason
    }

    /// Puts a final, masked frame at the end of the frames that wait to go
    /// out.
    fn queue_frame(&mut self, opcode: Opcode, payload: Vec<u8>)
        ensures
            final(self).queued(old(self)@, opcode, payload@),
            final(self)@.pinged == old(self)@.pinged,
    {
        let frame = Frame::new(opcode, payload);
        let bytes = frame.encode(true);
        self.outgoing_frames.push_back(bytes);
        assert(self@.outgoing.subrange(0, old(self)@.outgoing.len() as int) =~= old(self)@.outgoing);
    }

    /// Send text message. Only an open connection sends.
    pub fn send_text(&mut self, text: String) -> (done: Result<(), WebSocketError>)
        ensures
            match done {
                Ok(_) => old(self)@.state == WebSocketState::Open && final(self).queued(
                    old(self)@,
                    Opcode::Text,
                    encode_utf8(text@),
                ) && final(self)@.pinged == old(self)@.pinged,
                Err(e) => e == WebSocketError::NotConnected && old(self)@.state
                    != WebSocketState::Open && final(self)@ == old(self)@,
            },
    {
        if self.state != WebSocketState::Open {
            return Err(WebSocketError::NotConnected);
        }
        self.queue_frame(Opcode::Text, into_bytes(text));
        Ok(())
    }

    /// Send binary message. Only an open connection sends.
    pub fn send_binary(&mut self, data: Vec<u8>) -> (done: Result<(), WebSocketError>)
        ensures
            match done {
                Ok(_) => old(self)@.state == WebSocketState::Open && final(self).queued(
                    old(self)@,
                    Opcode::Binary,
                    data@,
                ) && final(self)@.pinged == old(self)@.pinged,
                Err(e) => e == WebSocketError::NotConnected && old(self)@.state
                    != WebSocketState::Open && final(self)@ == old(self)@,
            },
    {
        if self.state != WebSocketState::Open {
            return Err(WebSocketError::NotConnected);
        }
        self.queue_frame(Opcode::Binary, data);
        Ok(())
    }

    /// Send ping. Only an open connection sends.
    pub fn send_ping(&mut self, data: Vec<u8>) -> (done: Result<(), WebSocketError>)
        ensures
            match done {
                Ok(_) => old(self)@.state == WebSocketState::Open && final(self).queued(
                    old(self)@,
                    Opcode::Ping,
                    data@,
                ) && final(self)@.pinged,
                Err(e) => e == WebSocketError::NotConnected && old(self)@.state
                    != WebSocketState::Open && final(self)@ == old(self)@,
            },
    {
        if self.state != WebSocketState::Open {
            return Err(WebSocketError::NotConnected);
        }
        self.queue_frame(Opcode::Ping, data);
        self.last_ping = Some(instant_now());
        Ok(())
    }

    /// Send pong. An open connection and a closing one send.
    pub fn send_pong(&mut self, data: Vec<u8>) -> (done: Result<(), WebSocketError>)
        ensures
            match done {
                Ok(_) => (old(self)@.state == WebSocketState::Open || old(self)@.state
                    == WebSocketState::Closing) && final(self).queued(
                    old(self)@,
                    Opcode::Pong,
                    data@,
                ) && final(self)@.pinged == old(self)@.pinged,
                Err(e) => e == WebSocketError::NotConnected && old(self)@.state
                    != WebSocketState::Open && old(self)@.state != WebSocketState::Closing
                    && final(self)@ == old(self)@,
            },
    {
        if self.state != WebSocketState::Open && self.state != WebSocketState::Closing {
            return Err(WebSocketError::NotConnected);
        }
        self.queue_frame(Opcode::Pong, data);
        Ok(())
    }

    /// Close connection: the connection is closing, keeps the code and the
    /// reason, and a close frame with both waits to go out. A closed
    /// connection cannot be closed.
    pub fn close(&mut self, code: CloseCode, reason: Option<String>) -> (done: Result<
        (),
        WebSocketError,
    >)
        ensures
            match done {
                Ok(_) => {
                    &&& old(self)@.state != WebSocketState::Closed
                    &&& final(self).queued(
                        WebSocketView {
                            state: WebSocketState::Closing,
                            close_code: Some(code),
                            close_reason: reason,
                            ..old(self)@
                        },
                        Opcode::Close,
                        close_payload(code, reason),
                    )
                    &&& final(self)@.pinged == old(self)@.pinged
                },
                Err(e) => e == WebSocketError::AlreadyClosed && old(self)@.state
                    == WebSocketState::Closed && final(self)@ == old(self)@,
            },
    {
        if self.state == WebSocketState::Closed {
            return Err(WebSocketError::AlreadyClosed);
        }
        self.state = WebSocketState::Closing;
        self.close_code = Some(code);
        self.close_reason = reason.clone();
        let number = code.as_u16();
        let mut payload: Vec<u8> = Vec::new();
        payload.push(((number / 256) % 256) as u8);
        payload.push((number % 256) as u8);
        if let Some(reason_str) = reason {
            let mut reason_bytes = into_bytes(reason_str);
            payload.append(&mut reason_bytes);
        }
        assert(payload@ =~= close_payload(code, reason));
        self.queue_frame(Opcode::Close, payload);
        Ok(())
    }

    /// Receive next message: the oldest message that came in.
    pub fn receive(&mut self) -> (message: Option<WebSocketMessage>)
        ensures
            match message {
                Some(m) => old(self)@.incoming.len() > 0 && m == old(self)@.incoming[0] && final(self)@ == (WebSocketView {
                    incoming: old(self)@.incoming.subrange(1, old(self)@.incoming.len() as int),
                    ..old(self)@
                }),
                None => old(self)@.incoming.len() == 0 && final(self)@ == old(self)@,
            },
    {
        self.incoming_messages.pop_front()
    }

    /// Check if should send ping: whether `PING_INTERVAL_SECS` have passed
    /// since the last ping. Never before the connection was opened.
    pub fn should_ping(&self) -> (due: bool)
        ensures
            !self@.pinged ==> !due,
    {
        match &self.last_ping {
            Some(last_ping) => {
                let passed = elapsed(last_ping);
                self.should_ping_after(whole_secs(&passed))
            },
            None => false,
        }
    }

    /// Whether a ping is due when `seconds` have passed since the last
    /// ping.
    pub fn should_ping_after(&self, seconds: u64) -> (due: bool)
        ensures
            due == (self@.pinged && seconds >= PING_INTERVAL_SECS),
    {
        self.last_ping.is_some() && seconds >= PING_INTERVAL_SECS
    }

    /// Get next outgoing frame: the oldest frame that waits.
    pub fn next_outgoing_frame(&mut self) -> (frame: Option<Vec<u8>>)
        ensures
            match frame {
                Some(f) => old(self)@.outgoing.len() > 0 && f == old(self)@.outgoing[0] && final(self)@ == (WebSocketView {
                    outgoing: old(self)@.outgoing.subrange(1, old(self)@.outgoing.len() as int),
                    ..old(self)@
                }),
                None => old(self)@.outgoing.len() == 0 && final(self)@ == old(self)@,
            },
    {
        self.outgoing_frames.pop_front()
    }

    /// Whether the connection is as `before` with one message more at the
    /// end of the messages that came in.
    pub open spec fn took_in(&self, before: WebSocketView, message: WebSocketMessage) -> bool {
        self@ == (WebSocketView { incoming: before.incoming.push(message), ..before })
    }

    /// Handle incoming frame.
    ///
    /// A text, binary or pong frame gives a message. A ping frame gives a
    /// message and is answered with a pong frame of the same payload. A
    /// close frame gives a message with its close code and reason, and
    /// closes the connection. Fails on an opcode that is none, on text that
    /// is not valid UTF-8, on a ping where no pong can be sent, and on a
    /// continuation frame; the connection is then unchanged.
    pub fn handle_incoming_frame(&mut self, opcode: u8, payload: Vec<u8>) -> (done: Result<
        (),
        WebSocketError,
    >)
        ensures
            match Opcode::of_number(opcode) {
                None => done == Err::<(), WebSocketError>(WebSocketError::InvalidFrame) && final(self)@ == old(self)@,
                Some(Opcode::Continuation) => done == Err::<(), WebSocketError>(
                    WebSocketError::UnsupportedFeature,
                ) && final(self)@ == old(self)@,
                Some(Opcode::Text) => if valid_utf8(payload@) {
                    &&& done.is_ok()
                    &&& final(self)@.incoming.len() == old(self)@.incoming.len() + 1
                    &&& match final(self)@.incoming.last() {
                        WebSocketMessage::Text(t) => encode_utf8(t@) == payload@ && final(self).took_in(old(self)@, WebSocketMessage::Text(t)),
                        _ => false,
                    }
                } else {
                    done == Err::<(), WebSocketError>(WebSocketError::InvalidUtf8) && final(self)@
                        == old(self)@
                },
                Some(Opcode::Binary) => done.is_ok() && final(self).took_in(
                    old(self)@,
                    WebSocketMessage::Binary(payload),
                ),
                Some(Opcode::Pong) => done.is_ok() && final(self).took_in(
                    old(self)@,
                    WebSocketMessage::Pong(payload),
                ),
                Some(Opcode::Ping) => if old(self)@.state == WebSocketState::Open || old(self)@.state == WebSocketState::Closing {
                    &&& done.is_ok()
                    &&& final(self)@.incoming == old(self)@.incoming.push(
                        WebSocketMessage::Ping(payload),
                    )
                    &&& final(self)@.outgoing.len() == old(self)@.outgoing.len() + 1
                    &&& final(self)@.outgoing.subrange(0, old(self)@.outgoing.len() as int) == old(self)@.outgoing
                    &&& final(self)@.outgoing.last()@ == frame_bytes(
                        true,
                        Opcode::Pong,
                        payload@,
                        true,
                    )
                    &&& final(self)@.state == old(self)@.state
                } else {
                    done == Err::<(), WebSocketError>(WebSocketError::NotConnected) && final(self)@
                        == old(self)@
                },
                Some(Opcode::Close) => {
                    &&& done.is_ok()
                    &&& final(self)@.state == WebSocketState::Closed
                    &&& final(self)@.incoming.len() == old(self)@.incoming.len() + 1
                    &&& final(self)@.incoming.subrange(0, old(self)@.incoming.len() as int) == old(self)@.incoming
                    &&& final(self)@.outgoing == old(self)@.outgoing
                    &&& match final(self)@.incoming.last() {
                        WebSocketMessage::Close(code, reason) => code == received_close_code(
                            payload@,
                        ) && is_received_reason(reason, payload@),
                        _ => false,
                    }
                },
            },
    {
        let opcode = match Opcode::from_u8(opcode) {
            Some(op) => op,
            None => {
                return Err(WebSocketError::InvalidFrame);
            },
        };
        match opcode {
            Opcode::Text => {
                let text = match from_utf8(payload) {
                    Some(t) => t,
                    None => {
                        return Err(WebSocketError::InvalidUtf8);
                    },
                };
                self.incoming_messages.push_back(WebSocketMessage::Text(text));
            },
            Opcode::Binary => {
                self.incoming_messages.push_back(WebSocketMessage::Binary(payload));
            },
            Opcode::Ping => {
                let mut copy: Vec<u8> = Vec::new();
                let mut i: usize = 0;
                while i < payload.len()
                    invariant
                        i <= payload@.len(),
                        copy@ == payload@.subrange(0, i as int),
                    decreases payload@.len() - i,
                {
                    copy.push(payload[i]);
                    assert(copy@ =~= payload@.subrange(0, i as int + 1));
                    i = i + 1;
                }
                assert(payload@.subrange(0, payload@.len() as int) =~= payload@);
                match self.send_pong(copy) {
                    Ok(_) => {},
                    Err(e) => {
                        return Err(e);
                    },
                }
                self.incoming_messages.push_back(WebSocketMessage::Ping(payload));
            },
            Opcode::Pong => {
                self.incoming_messages.push_back(WebSocketMessage::Pong(payload));
            },
            Opcode::Close => {
                let code = if payload.len() >= 2 {
                    let number: u16 = (payload[0] as u16) * 256 + (payload[1] as u16);
                    CloseCode::from_u16(number)
                } else {
                    None
                };
                let reason = if payload.len() > 2 {
                    let mut rest: Vec<u8> = Vec::new();
                    let mut i: usize = 2;
                    while i < payload.len()
                        invariant
                            2 <= i <= payload@.len(),
                            rest@ == payload@.subrange(2, i as int),
                        decreases payload@.len() - i,
                    {
                        rest.push(payload[i]);
                        assert(rest@ =~= payload@.subrange(2, i as int + 1));
                        i = i + 1;
                    }
                    from_utf8(rest)
                } else {
                    None
                };
                self.incoming_messages.push_back(WebSocketMessage::Close(code, reason));
                self.state = WebSocketState::Closed;
                assert(self@.incoming.subrange(0, old(self)@.incoming.len() as int) =~= old(self)@.incoming);
            },
            Opcode::Continuation => {
                return Err(WebSocketError::UnsupportedFeature);
            },
        }
        Ok(())
    }

    /// Get close code
    pub fn close_code(&self) -> (code: Option<CloseCode>)
        ensures
            code == self@.close_code,
    {
        self.close_code
    }

    /// Get close reason
    pub fn close_reason(&self) -> (reason: Option<&str>)
        ensures
            match reason {
                Some(r) => self@.close_reason.is_some() && r@ == self@.close_reason.unwrap()@,
                None => self@.close_reason.is_none(),
            },
    {
        match &self.close_reason {
            Some(r) => Some(r.as_str()),
            None => None,
        }
    }
}

} // verus!
