//! The channel to a receiver: frames of a big-endian length and a message, the
//! messages that wait, and the numbers of requests.

use super::proto;
use super::proto::{CastMessage, MessageView, Payload, PayloadView, ProtoError};
use crate::json;
use crate::json::{Json, JsonView};
use crate::text;
use vstd::prelude::*;

verus! {

pub const SENDER_ID: &'static str = "sender-0";

pub const RECEIVER_ID: &'static str = "receiver-0";

pub const NS_CONNECTION: &'static str = "urn:x-cast:com.google.cast.tp.connection";

pub const NS_HEARTBEAT: &'static str = "urn:x-cast:com.google.cast.tp.heartbeat";

pub const NS_RECEIVER: &'static str = "urn:x-cast:com.google.cast.receiver";

pub const NS_MEDIA: &'static str = "urn:x-cast:com.google.cast.media";

pub const NS_DEVICEAUTH: &'static str = "urn:x-cast:com.google.cast.tp.deviceauth";

/// The application that plays any address.
pub const DEFAULT_MEDIA_RECEIVER: &'static str = "CC1AD845";

/// The largest message that is read, in bytes.
pub const MAX_MESSAGE: u32 = 2_097_152;

/// What goes wrong on a channel.
#[derive(Debug)]
pub enum ChannelError {
    /// The connection, in words.
    Io(String),
    /// The encryption, in words.
    Tls(String),
    /// A message that is none.
    Proto(ProtoError),
    /// A message of so many bytes.
    Oversized(u32),
    Timeout,
    Cancelled,
    /// What the receiver said, or what it failed to say.
    Msg(String),
}

/// The contents of a [`ChannelError`].
#[verifier::ext_equal]
pub enum ErrorView {
    Io(Seq<char>),
    Tls(Seq<char>),
    Proto(ProtoError),
    Oversized(u32),
    Timeout,
    Cancelled,
    Msg(Seq<char>),
}

impl View for ChannelError {
    type V = ErrorView;

    open spec fn view(&self) -> ErrorView {
        match self {
            ChannelError::Io(e) => ErrorView::Io(e@),
            ChannelError::Tls(e) => ErrorView::Tls(e@),
            ChannelError::Proto(e) => ErrorView::Proto(*e),
            ChannelError::Oversized(n) => ErrorView::Oversized(*n),
            ChannelError::Timeout => ErrorView::Timeout,
            ChannelError::Cancelled => ErrorView::Cancelled,
            ChannelError::Msg(m) => ErrorView::Msg(m@),
        }
    }
}

/// The error in words.
pub open spec fn error_text(e: ErrorView) -> Seq<char> {
    match e {
        ErrorView::Io(m) => "TCP: "@ + m,
        ErrorView::Tls(m) => "TLS: "@ + m,
        ErrorView::Proto(p) => "protobuf: "@ + proto::error_text(p),
        ErrorView::Oversized(n) => "message too large ("@ + text::decimal(n as nat) + " bytes)"@,
        ErrorView::Timeout => "timed out waiting for Cast response"@,
        ErrorView::Cancelled => "Cast operation cancelled"@,
        ErrorView::Msg(m) => m,
    }
}

impl ChannelError {
    /// The error in words.
    pub fn message(&self) -> (s: String)
        ensures
            s@ == error_text(self@),
            self matches ChannelError::Io(e) ==> s@ == "TCP: "@ + e@,
            self matches ChannelError::Tls(e) ==> s@ == "TLS: "@ + e@,
            self matches ChannelError::Proto(p) ==> s@ == "protobuf: "@ + proto::error_text(*p),
            self matches ChannelError::Oversized(n) ==> s@ == "message too large ("@
                + text::decimal(*n as nat) + " bytes)"@,
            self is Timeout ==> s@ == "timed out waiting for Cast response"@,
            self is Cancelled ==> s@ == "Cast operation cancelled"@,
            self matches ChannelError::Msg(m) ==> s@ == m@,
    {
        match self {
            ChannelError::Io(e) => text::joined_two("TCP: ", e.as_str()),
            ChannelError::Tls(e) => text::joined_two("TLS: ", e.as_str()),
            ChannelError::Proto(e) => text::joined_two("protobuf: ", e.message()),
            ChannelError::Oversized(n) => {
                let digits = text::decimal_text(*n as u64);
                let s = text::joined_two("message too large (", digits.as_str());
                text::joined_two(s.as_str(), " bytes)")
            },
            ChannelError::Timeout => "timed out waiting for Cast response".to_string(),
            ChannelError::Cancelled => "Cast operation cancelled".to_string(),
            ChannelError::Msg(m) => m.clone(),
        }
    }
}

/// A number of 32 bits as four bytes, the high one first.
pub open spec fn be_bytes(n: nat) -> Seq<u8> {
    seq![
        (n / 0x100_0000 % 256) as u8,
        (n / 0x1_0000 % 256) as u8,
        (n / 0x100 % 256) as u8,
        (n % 256) as u8,
    ]
}

/// The number that four bytes give, the high one first.
pub open spec fn be_number(b: Seq<u8>) -> nat {
    b[0] as nat * 0x100_0000 + b[1] as nat * 0x1_0000 + b[2] as nat * 0x100 + b[3] as nat
}

/// A message as it goes over the wire: its length, to 32 bits, and its bytes.
pub open spec fn frame_of(m: MessageView) -> Seq<u8> {
    let body = proto::message_bytes(m);
    be_bytes(body.len() % 0x1_0000_0000) + body
}

/// A message as it goes over the wire.
pub fn encode_frame(message: &CastMessage) -> (out: Vec<u8>)
    ensures
        out@ == frame_of(message@),
        out@.len() == proto::message_bytes(message@).len() + 4,
        out@.skip(4) == proto::message_bytes(message@),
        out@[0] * 16_777_216 + out@[1] * 65_536 + out@[2] * 256 + out@[3]
            == proto::message_bytes(message@).len() % 4_294_967_296,
{
    let body = message.encode();
    let n: u64 = body.len() as u64 % 0x1_0000_0000;
    let mut out: Vec<u8> = Vec::new();
    out.push((n / 0x100_0000 % 256) as u8);
    out.push((n / 0x1_0000 % 256) as u8);
    out.push((n / 0x100 % 256) as u8);
    out.push((n % 256) as u8);
    out.extend_from_slice(body.as_slice());
    proof {
        assert(out@ =~= frame_of(message@));
        assert(out@.skip(4) =~= body@);
        lemma_be_number(n as nat);
        assert(be_number(be_bytes(n as nat)) == out@[0] * 16_777_216 + out@[1] * 65_536 + out@[2]
            * 256 + out@[3]);
    }
    out
}

/// The length of the message behind a header of four bytes, or that it is too large.
pub fn decode_header(header: [u8; 4]) -> (r: Result<usize, ChannelError>)
    ensures
        match r {
            Ok(n) => n == be_number(header@) && n <= MAX_MESSAGE,
            Err(e) => be_number(header@) > MAX_MESSAGE && e@ == ErrorView::Oversized(
                be_number(header@) as u32,
            ),
        },
        r matches Ok(n) ==> n == header@[0] * 16_777_216 + header@[1] * 65_536 + header@[2] * 256
            + header@[3],
        r is Ok <==> header@[0] * 16_777_216 + header@[1] * 65_536 + header@[2] * 256 + header@[3]
            <= 2_097_152,
        r matches Err(e) ==> (e matches ChannelError::Oversized(n) && n == header@[0] * 16_777_216
            + header@[1] * 65_536 + header@[2] * 256 + header@[3]),
{
    let n: u64 = header[0] as u64 * 0x100_0000 + header[1] as u64 * 0x1_0000 + header[2] as u64
        * 0x100 + header[3] as u64;
    if n > MAX_MESSAGE as u64 {
        return Err(ChannelError::Oversized(n as u32));
    }
    Ok(n as usize)
}

/// The message that the bytes behind a header are.
pub fn decode_body(body: &[u8]) -> (r: Result<CastMessage, ChannelError>)
    ensures
        match r {
            Ok(m) => proto::message_in(body@) == Ok::<MessageView, ProtoError>(m@),
            Err(e) => proto::message_in(body@) matches Err(p) && e@ == ErrorView::Proto(p),
        },
{
    match CastMessage::decode(body) {
        Ok(m) => Ok(m),
        Err(p) => Err(ChannelError::Proto(p)),
    }
}

proof fn lemma_be_number(n: nat)
    requires
        n < 0x1_0000_0000,
    ensures
        be_number(be_bytes(n)) == n,
{
    let a = n / 0x100_0000 % 256;
    let b = n / 0x1_0000 % 256;
    let c = n / 0x100 % 256;
    let d = n % 256;
    assert(n == a * 0x100_0000 + b * 0x1_0000 + c * 0x100 + d);
}

proof fn lemma_frame(m: MessageView)
    requires
        proto::message_bytes(m).len() < 0x1_0000_0000,
    ensures
        frame_of(m).take(4) == be_bytes(proto::message_bytes(m).len()),
        frame_of(m).skip(4) == proto::message_bytes(m),
{
    let body = proto::message_bytes(m);
    assert(frame_of(m).take(4) =~= be_bytes(body.len()));
    assert(frame_of(m).skip(4) =~= body);
}

/// A message that is not too large arrives as it was sent: the header of its frame
/// gives the length of the rest, and the rest is the message.
pub proof fn a_message_arrives_as_it_was_sent(m: MessageView)
    requires
        proto::message_bytes(m).len() <= MAX_MESSAGE,
    ensures
        be_number(frame_of(m).take(4)) == frame_of(m).len() - 4,
        proto::message_in(frame_of(m).skip(4)) == Ok::<MessageView, ProtoError>(m),
{
    lemma_frame(m);
    lemma_be_number(proto::message_bytes(m).len());
    proto::parts_are_not_larger(m);
    proto::decode_gives_back_what_encode_wrote(m);
}

/// Whether `out` is the first 120 bytes of a text and an ellipsis.
pub open spec fn is_shortened(t: Seq<char>, out: Seq<char>) -> bool {
    exists|front: Seq<char>|
        out == #[trigger] (front + "…"@) && vstd::utf8::encode_utf8(front)
            == vstd::utf8::encode_utf8(t).take(120)
}

/// What is shown of a message in the log: its text, at most 120 bytes of it, or how
/// many bytes it has.
pub fn short_payload(message: &CastMessage) -> (s: String)
    requires
        message.payload matches Payload::String(t) ==> vstd::utf8::encode_utf8(t@).len() <= 120
            || vstd::utf8::is_char_boundary(vstd::utf8::encode_utf8(t@), 120),
    ensures
        match message.payload {
            Payload::String(t) => if vstd::utf8::encode_utf8(t@).len() <= 120 {
                s@ == t@
            } else {
                is_shortened(t@, s@)
            },
            Payload::Binary(b) => s@ == "<"@ + text::decimal(b@.len()) + " bytes>"@,
        },
{
    match &message.payload {
        Payload::String(t) => {
            if t.as_str().as_bytes().len() > 120 {
                let (front, _rest) = t.as_str().split_at(120);
                proof {
                    assert(vstd::utf8::encode_utf8(front@) =~= vstd::utf8::encode_utf8(t@).take(
                        120,
                    ));
                }
                let s = text::joined_two(front, "…");
                proof {
                    let f = front@;
                    assert(vstd::utf8::encode_utf8(f) == vstd::utf8::encode_utf8(t@).take(120));
                    assert(s@ == (f + "…"@));
                    assert(is_shortened(t@, s@));
                }
                s
            } else {
                t.clone()
            }
        },
        Payload::Binary(b) => {
            let digits = text::decimal_text(b.len() as u64);
            let s = text::joined_two("<", digits.as_str());
            text::joined_two(s.as_str(), " bytes>")
        },
    }
}

/// The number after a request's: 0 is left out.
pub open spec fn id_after(id: u32) -> u32 {
    if id == u32::MAX {
        1
    } else {
        (id + 1) as u32
    }
}

/// A message that carries a JSON value.
pub open spec fn json_message(
    destination: Seq<char>,
    namespace: Seq<char>,
    payload: Seq<char>,
) -> MessageView {
    MessageView {
        source_id: SENDER_ID@,
        destination_id: destination,
        namespace,
        payload: PayloadView::Text(payload),
    }
}

/// A message that carries a JSON value, or why it cannot be written.
pub fn json_command(destination: &str, namespace: &str, value: &Json) -> (r: Result<
    CastMessage,
    ChannelError,
>)
    requires
        json::can_be_written(*value),
    ensures
        match r {
            Ok(m) => json::json_text(value@) matches Ok(t) && m@ == json_message(
                destination@,
                namespace@,
                t,
            ) && json::json_in(t) == Ok::<JsonView, Seq<char>>(value@),
            Err(e) => json::json_text(value@) matches Err(m) && e@ == ErrorView::Msg(
                "json: "@ + m,
            ),
        },
        r matches Ok(m) ==> {
            &&& m.source_id@ == "sender-0"@
            &&& m.destination_id@ == destination@
            &&& m.namespace@ == namespace@
            &&& m.payload matches Payload::String(t) && json::json_in(t@) == Ok::<
                JsonView,
                Seq<char>,
            >(value@)
        },
{
    match json::write_json(value) {
        Ok(t) => Ok(CastMessage::string(SENDER_ID, destination, namespace, t.as_str())),
        Err(e) => Err(ChannelError::Msg(text::joined_two("json: ", e.as_str()))),
    }
}

/// A value that says no more than its type.
pub open spec fn typed(kind: Seq<char>) -> JsonView {
    json::object_of(seq![("type"@, JsonView::Text(kind))])
}

/// A value that says no more than its type.
pub fn typed_json(kind: &str) -> (j: Json)
    ensures
        j@ == typed(kind@),
        json::can_be_written(j),
        j@.text_of("type"@) == Some(kind@),
{
    let mut members: Vec<(String, Json)> = Vec::new();
    members.push(json::pair("type", json::text_value(kind)));
    let ghost v = members@;
    proof {
        assert(json::pairs_of(v) =~= seq![("type"@, JsonView::Text(kind@))]);
        assert(json::all_nest(v, 99));
    }
    json::whole_object(members)
}

/// What a heartbeat asks for.
#[derive(Debug, Clone, Copy, PartialEq, Eq, Structural)]
pub enum Heartbeat {
    /// The message is no heartbeat.
    Other,
    /// Nothing.
    Quiet,
    /// An answer of type PONG.
    Pong,
}

/// What a text says that came as a heartbeat, where `parsed` is what it holds.
pub open spec fn is_ping(parsed: Result<JsonView, Seq<char>>) -> bool {
    match parsed {
        Ok(v) => v.text_of("type"@) == Some("PING"@),
        Err(_) => false,
    }
}

/// Whether a text that came as a heartbeat asks for an answer.
pub fn asks_for_pong(parsed: &Result<Json, String>) -> (r: bool)
    ensures
        r == is_ping(
            match *parsed {
                Ok(j) => Ok(j@),
                Err(e) => Err(e@),
            },
        ),
{
    match parsed {
        Ok(j) => match j.text_of("type") {
            Some(t) => text::same(t, "PING"),
            None => false,
        },
        Err(_e) => false,
    }
}

/// What a message asks for as a heartbeat.
pub open spec fn heartbeat_of(m: MessageView) -> Heartbeat {
    if m.namespace != NS_HEARTBEAT@ {
        Heartbeat::Other
    } else {
        match m.payload {
            PayloadView::Binary(_) => Heartbeat::Quiet,
            PayloadView::Text(s) => if is_ping(json::json_in(s)) {
                Heartbeat::Pong
            } else {
                Heartbeat::Quiet
            },
        }
    }
}

/// What a message asks for as a heartbeat.
pub fn handle_heartbeat(message: &CastMessage) -> (h: Heartbeat)
    ensures
        h == heartbeat_of(message@),
        h is Other <==> message.namespace@ != "urn:x-cast:com.google.cast.tp.heartbeat"@,
        h is Pong ==> (message.payload matches Payload::String(s) && (json::json_in(s@) matches Ok(v)
            && v.text_of("type"@) == Some("PING"@))),
        message.namespace@ == "urn:x-cast:com.google.cast.tp.heartbeat"@ && (
        message.payload matches Payload::String(s) && (json::json_in(s@) matches Ok(v) && v.text_of(
            "type"@,
        ) == Some("PING"@))) ==> h is Pong,
{
    if !text::same(message.namespace.as_str(), NS_HEARTBEAT) {
        return Heartbeat::Other;
    }
    match &message.payload {
        Payload::Binary(_b) => Heartbeat::Quiet,
        Payload::String(s) => {
            let parsed = json::parse_json(s.as_str());
            if asks_for_pong(&parsed) {
                Heartbeat::Pong
            } else {
                Heartbeat::Quiet
            }
        },
    }
}

/// Whether a wait may go on, so many milliseconds after it began: not once it was
/// cancelled, and not beyond its end.
pub fn wait_step(cancelled: bool, elapsed_ms: u64, overall_ms: u64) -> (r: Result<
    (),
    ChannelError,
>)
    ensures
        match r {
            Ok(_) => !cancelled && elapsed_ms < overall_ms,
            Err(e) => e@ == if cancelled {
                ErrorView::Cancelled
            } else {
                ErrorView::Timeout
            } && (cancelled || elapsed_ms >= overall_ms),
        },
{
    if cancelled {
        return Err(ChannelError::Cancelled);
    }
    if elapsed_ms >= overall_ms {
        return Err(ChannelError::Timeout);
    }
    Ok(())
}

} // verus!
