//! The protobuf (proto2) form of CASTV2 messages.

use crate::text::utf8_text;
use vstd::prelude::*;
use vstd::slice::slice_subrange;
use vstd::slice::slice_to_vec;
use vstd::utf8::*;

verus! {

/// Why a buffer is no message.
#[derive(Debug, Clone, Copy, PartialEq, Eq, Structural)]
pub enum ProtoError {
    /// The buffer ends inside a field.
    Truncated,
    /// A varint of more than ten bytes, or a wire type that is not known.
    BadVarint,
    /// A text field is not UTF-8.
    Utf8,
    /// The payload that the message announces is missing.
    MissingPayload,
}

/// The error in words.
pub open spec fn error_text(e: ProtoError) -> Seq<char> {
    match e {
        ProtoError::Truncated => "неполный protobuf"@,
        ProtoError::BadVarint => "некорректный varint"@,
        ProtoError::Utf8 => "некорректный UTF-8 в поле protobuf"@,
        ProtoError::MissingPayload => "ожидался payload STRING или BINARY"@,
    }
}

impl ProtoError {
    /// The error in words.
    pub fn message(self) -> (s: &'static str)
        ensures
            s@ == error_text(self),
            self is Truncated ==> s@ == "неполный protobuf"@,
            self is BadVarint ==> s@ == "некорректный varint"@,
            self is Utf8 ==> s@ == "некорректный UTF-8 в поле protobuf"@,
            self is MissingPayload ==> s@ == "ожидался payload STRING или BINARY"@,
    {
        match self {
            ProtoError::Truncated => "неполный protobuf",
            ProtoError::BadVarint => "некорректный varint",
            ProtoError::Utf8 => "некорректный UTF-8 в поле protobuf",
            ProtoError::MissingPayload => "ожидался payload STRING или BINARY",
        }
    }
}

/// The kind of payload that a message announces.
#[derive(Debug, Clone, Copy, PartialEq, Eq, Structural)]
pub enum PayloadType {
    String,
    Binary,
}

impl PayloadType {
    /// The number of the kind on the wire.
    pub open spec fn wire_number(self) -> nat {
        match self {
            PayloadType::String => 0,
            PayloadType::Binary => 1,
        }
    }

    /// The number of the kind on the wire.
    pub fn number(self) -> (n: u64)
        ensures
            n == self.wire_number(),
    {
        match self {
            PayloadType::String => 0,
            PayloadType::Binary => 1,
        }
    }
}

/// What a message carries.
#[derive(Debug, Clone)]
pub enum Payload {
    String(String),
    Binary(Vec<u8>),
}

/// One CASTV2 message.
#[derive(Debug, Clone)]
pub struct CastMessage {
    pub source_id: String,
    pub destination_id: String,
    pub namespace: String,
    pub payload: Payload,
}

/// The contents of a [`Payload`].
#[verifier::ext_equal]
pub enum PayloadView {
    Text(Seq<char>),
    Binary(Seq<u8>),
}

/// The contents of a [`CastMessage`].
#[verifier::ext_equal]
pub struct MessageView {
    pub source_id: Seq<char>,
    pub destination_id: Seq<char>,
    pub namespace: Seq<char>,
    pub payload: PayloadView,
}

impl View for Payload {
    type V = PayloadView;

    open spec fn view(&self) -> PayloadView {
        match self {
            Payload::String(s) => PayloadView::Text(s@),
            Payload::Binary(b) => PayloadView::Binary(b@),
        }
    }
}

impl View for CastMessage {
    type V = MessageView;

    open spec fn view(&self) -> MessageView {
        MessageView {
            source_id: self.source_id@,
            destination_id: self.destination_id@,
            namespace: self.namespace@,
            payload: self.payload@,
        }
    }
}

/// A number in base 128, low digits first, the top bit set on all bytes but
/// the last.
pub open spec fn varint(v: nat) -> Seq<u8>
    decreases v,
{
    if v < 128 {
        seq![v as u8]
    } else {
        seq![(v % 128 + 128) as u8] + varint(v / 128)
    }
}

/// The key of a field: its number and its wire type.
pub open spec fn field_key(field: nat, wire: nat) -> Seq<u8> {
    varint(field * 8 + wire)
}

/// A length-delimited field.
pub open spec fn bytes_field(field: nat, bytes: Seq<u8>) -> Seq<u8> {
    field_key(field, 2) + varint(bytes.len()) + bytes
}

/// A field that holds a number.
pub open spec fn number_field(field: nat, v: nat) -> Seq<u8> {
    field_key(field, 0) + varint(v)
}

/// The payload type and the payload of a message.
pub open spec fn payload_fields(p: PayloadView) -> Seq<u8> {
    match p {
        PayloadView::Text(s) => number_field(5, PayloadType::String.wire_number()) + bytes_field(
            6,
            encode_utf8(s),
        ),
        PayloadView::Binary(b) => number_field(5, PayloadType::Binary.wire_number()) + bytes_field(
            7,
            b,
        ),
    }
}

/// A message as bytes: protocol version 0, the three names, the payload.
#[verifier::opaque]
pub open spec fn message_bytes(m: MessageView) -> Seq<u8> {
    number_field(1, 0) + bytes_field(2, encode_utf8(m.source_id)) + bytes_field(
        3,
        encode_utf8(m.destination_id),
    ) + bytes_field(4, encode_utf8(m.namespace)) + payload_fields(m.payload)
}

/// How many bytes from `i` on have the top bit set.
pub open spec fn more_run(buf: Seq<u8>, i: int) -> nat
    decreases buf.len() - i,
{
    if 0 <= i < buf.len() && buf[i] >= 128 {
        1 + more_run(buf, i + 1)
    } else {
        0
    }
}

/// The number that base-128 digits spell, low digits first.
pub open spec fn digits128(bytes: Seq<u8>) -> nat
    decreases bytes.len(),
{
    if bytes.len() == 0 {
        0
    } else {
        digits128(bytes.drop_last()) + (bytes.last() % 128) as nat * pow128((bytes.len() - 1) as nat)
    }
}

/// 128 to the power of `k`.
pub open spec fn pow128(k: nat) -> nat
    decreases k,
{
    if k == 0 {
        1
    } else {
        128 * pow128((k - 1) as nat)
    }
}

/// The varint at `i` and the position behind it. At most ten bytes; the number
/// is what they spell, modulo 2^64.
pub open spec fn varint_at(buf: Seq<u8>, i: int) -> Result<(nat, int), ProtoError> {
    let run = more_run(buf, i);
    if run >= 10 {
        Err(ProtoError::BadVarint)
    } else if i + run >= buf.len() {
        Err(ProtoError::Truncated)
    } else {
        Ok((digits128(buf.subrange(i, i + run + 1)) % 0x1_0000_0000_0000_0000, i + run + 1))
    }
}

/// The length-delimited bytes at `i` and the position behind them.
pub open spec fn bytes_at(buf: Seq<u8>, i: int) -> Result<(Seq<u8>, int), ProtoError> {
    match varint_at(buf, i) {
        Err(e) => Err(e),
        Ok((len, j)) => if j + len > buf.len() {
            Err(ProtoError::Truncated)
        } else {
            Ok((buf.subrange(j, j + len), j + len))
        },
    }
}

/// The length-delimited text at `i` and the position behind it.
pub open spec fn text_at(buf: Seq<u8>, i: int) -> Result<(Seq<char>, int), ProtoError> {
    match bytes_at(buf, i) {
        Err(e) => Err(e),
        Ok((bytes, j)) => if valid_utf8(bytes) {
            Ok((decode_utf8(bytes), j))
        } else {
            Err(ProtoError::Utf8)
        },
    }
}

/// What has been read of a message so far.
#[verifier::ext_equal]
pub struct Fields {
    pub source_id: Seq<char>,
    pub destination_id: Seq<char>,
    pub namespace: Seq<char>,
    pub kind: PayloadType,
    pub text: Option<Seq<char>>,
    pub binary: Option<Seq<u8>>,
}

/// Nothing has been read.
pub open spec fn no_fields() -> Fields {
    Fields {
        source_id: Seq::empty(),
        destination_id: Seq::empty(),
        namespace: Seq::empty(),
        kind: PayloadType::String,
        text: None,
        binary: None,
    }
}

/// The field with this number and wire type, whose value stands at `i`: what is
/// known after it, and the position behind it. A later field overrides an
/// earlier one; a field that is not known is skipped by its wire type.
pub open spec fn field_at(buf: Seq<u8>, field: nat, wire: nat, i: int, f: Fields) -> Result<
    (Fields, int),
    ProtoError,
> {
    if field == 2 && wire == 2 {
        match text_at(buf, i) {
            Err(e) => Err(e),
            Ok((s, j)) => Ok((Fields { source_id: s, ..f }, j)),
        }
    } else if field == 3 && wire == 2 {
        match text_at(buf, i) {
            Err(e) => Err(e),
            Ok((s, j)) => Ok((Fields { destination_id: s, ..f }, j)),
        }
    } else if field == 4 && wire == 2 {
        match text_at(buf, i) {
            Err(e) => Err(e),
            Ok((s, j)) => Ok((Fields { namespace: s, ..f }, j)),
        }
    } else if field == 5 && wire == 0 {
        match varint_at(buf, i) {
            Err(e) => Err(e),
            Ok((v, j)) => Ok(
                (
                    Fields {
                        kind: if v == 1 {
                            PayloadType::Binary
                        } else {
                            PayloadType::String
                        },
                        ..f
                    },
                    j,
                ),
            ),
        }
    } else if field == 6 && wire == 2 {
        match text_at(buf, i) {
            Err(e) => Err(e),
            Ok((s, j)) => Ok((Fields { text: Some(s), ..f }, j)),
        }
    } else if field == 7 && wire == 2 {
        match bytes_at(buf, i) {
            Err(e) => Err(e),
            Ok((b, j)) => Ok((Fields { binary: Some(b), ..f }, j)),
        }
    } else if wire == 0 {
        match varint_at(buf, i) {
            Err(e) => Err(e),
            Ok((_v, j)) => Ok((f, j)),
        }
    } else if wire == 1 {
        if i + 8 > buf.len() {
            Err(ProtoError::Truncated)
        } else {
            Ok((f, i + 8))
        }
    } else if wire == 2 {
        match bytes_at(buf, i) {
            Err(e) => Err(e),
            Ok((_b, j)) => Ok((f, j)),
        }
    } else if wire == 5 {
        if i + 4 > buf.len() {
            Err(ProtoError::Truncated)
        } else {
            Ok((f, i + 4))
        }
    } else {
        Err(ProtoError::BadVarint)
    }
}

/// What is known once all fields from `i` on have been read. The number of a
/// field is kept to 32 bits.
#[verifier::opaque]
pub open spec fn fields_from(buf: Seq<u8>, i: int, f: Fields) -> Result<Fields, ProtoError>
    decreases buf.len() - i,
{
    if i >= buf.len() {
        Ok(f)
    } else {
        match varint_at(buf, i) {
            Err(e) => Err(e),
            Ok((key, j)) => match field_at(buf, (key / 8) % 0x1_0000_0000, key % 8, j, f) {
                Err(e) => Err(e),
                Ok((g, k)) => if k <= i {
                    Err(ProtoError::BadVarint)
                } else {
                    fields_from(buf, k, g)
                },
            },
        }
    }
}

/// The message that the fields make.
pub open spec fn message_of(f: Fields) -> Result<MessageView, ProtoError> {
    let payload = match f.kind {
        PayloadType::String => match f.text {
            Some(s) => Some(PayloadView::Text(s)),
            None => None,
        },
        PayloadType::Binary => match f.binary {
            Some(b) => Some(PayloadView::Binary(b)),
            None => None,
        },
    };
    match payload {
        None => Err(ProtoError::MissingPayload),
        Some(payload) => Ok(
            MessageView {
                source_id: f.source_id,
                destination_id: f.destination_id,
                namespace: f.namespace,
                payload,
            },
        ),
    }
}

/// What a buffer says.
pub open spec fn message_in(buf: Seq<u8>) -> Result<MessageView, ProtoError> {
    match fields_from(buf, 0, no_fields()) {
        Err(e) => Err(e),
        Ok(f) => message_of(f),
    }
}

/// The outcome of a decode, its message by contents.
pub open spec fn outcome(r: Result<CastMessage, ProtoError>) -> Result<MessageView, ProtoError> {
    match r {
        Ok(m) => Ok(m@),
        Err(e) => Err(e),
    }
}

proof fn lemma_more_run(buf: Seq<u8>, i: int, n: nat)
    requires
        0 <= i,
        i + n <= buf.len(),
        forall|k: int| i <= k < i + n ==> buf[k] >= 128,
        i + n < buf.len() ==> buf[i + n] < 128,
    ensures
        more_run(buf, i) == n,
    decreases n,
{
    if n > 0 {
        lemma_more_run(buf, i + 1, (n - 1) as nat);
    }
}

proof fn lemma_more_run_at_least(buf: Seq<u8>, i: int, n: nat)
    requires
        0 <= i,
        i + n <= buf.len(),
        forall|k: int| i <= k < i + n ==> buf[k] >= 128,
    ensures
        more_run(buf, i) >= n,
    decreases n,
{
    if n > 0 {
        lemma_more_run_at_least(buf, i + 1, (n - 1) as nat);
    }
}

proof fn lemma_pow128()
    ensures
        pow128(0) == 1,
        pow128(1) == 0x80,
        pow128(2) == 0x4000,
        pow128(3) == 0x20_0000,
        pow128(4) == 0x1000_0000,
        pow128(5) == 0x8_0000_0000,
        pow128(6) == 0x400_0000_0000,
        pow128(7) == 0x2_0000_0000_0000,
        pow128(8) == 0x100_0000_0000_0000,
        pow128(9) == 0x8000_0000_0000_0000,
        pow128(10) == 0x40_0000_0000_0000_0000,
{
    reveal_with_fuel(pow128, 11);
}

/// The varint at `i`.
pub fn read_varint(buf: &[u8], i: usize) -> (r: Result<(u64, usize), ProtoError>)
    requires
        i <= buf@.len(),
    ensures
        match r {
            Ok((v, j)) => varint_at(buf@, i as int) == Ok::<(nat, int), ProtoError>(
                (v as nat, j as int),
            ) && i < j <= buf@.len(),
            Err(e) => varint_at(buf@, i as int) == Err::<(nat, int), ProtoError>(e),
        },
{
    let mut result: u64 = 0;
    let mut scale: u64 = 1;
    let mut k: usize = 0;
    let n: usize = buf.len();
    proof {
        assert(buf@.subrange(i as int, i as int) =~= Seq::<u8>::empty());
    }
    while k < 10
        invariant
            k <= 10,
            n == buf@.len(),
            i + k <= n,
            forall|m: int| i <= m < i + k ==> buf@[m] >= 128,
            k < 10 ==> {
                &&& scale == pow128(k as nat)
                &&& result < scale
                &&& result == digits128(buf@.subrange(i as int, i + k))
            },
        decreases 10 - k,
    {
        if i + k >= n {
            proof {
                lemma_more_run(buf@, i as int, k as nat);
            }
            return Err(ProtoError::Truncated);
        }
        let b: u8 = buf[i + k];
        let low: u64 = (b % 128) as u64;
        let ghost part = buf@.subrange(i as int, i + k + 1);
        proof {
            lemma_pow128();
            assert(part.drop_last() =~= buf@.subrange(i as int, i + k));
            assert(scale <= pow128(9));
            if k < 9 {
                assert(low * scale <= 127 * scale) by (nonlinear_arith)
                    requires
                        low <= 127,
                ;
            }
        }
        let digit: u64 = if k < 9 {
            low
        } else {
            low % 2
        };
        proof {
            if k == 9 {
                assert(scale == 0x8000_0000_0000_0000);
                assert((result + low * 0x8000_0000_0000_0000int) % 0x1_0000_0000_0000_0000 == result
                    + digit * 0x8000_0000_0000_0000int);
            }
            assert(result + digit * scale <= u64::MAX);
            assert(digits128(part) == result + low * scale);
        }
        result = result + digit * scale;
        if b < 128 {
            proof {
                lemma_more_run(buf@, i as int, k as nat);
            }
            return Ok((result, i + k + 1));
        }
        if k < 9 {
            scale = if k < 8 {
                scale * 128
            } else {
                0x8000_0000_0000_0000
            };
        }
        k = k + 1;
    }
    proof {
        lemma_more_run_at_least(buf@, i as int, 10);
    }
    Err(ProtoError::BadVarint)
}

/// Writes a varint behind `out`.
pub fn write_varint(out: &mut Vec<u8>, v: u64)
    ensures
        final(out)@ == old(out)@ + varint(v as nat),
{
    let mut rest: u64 = v;
    let ghost start = out@;
    while rest >= 128
        invariant
            start + varint(v as nat) == out@ + varint(rest as nat),
        decreases rest,
    {
        let ghost before = out@;
        let b: u8 = (rest % 128 + 128) as u8;
        out.push(b);
        proof {
            assert(before + varint(rest as nat) =~= before.push(b) + varint((rest / 128) as nat));
        }
        rest = rest / 128;
    }
    out.push(rest as u8);
    proof {
        assert(out@ =~= start + varint(v as nat));
    }
}

/// Writes a length-delimited field behind `out`.
fn write_bytes(out: &mut Vec<u8>, field: u64, bytes: &[u8])
    requires
        field < 16,
    ensures
        final(out)@ == old(out)@ + bytes_field(field as nat, bytes@),
{
    let ghost start = out@;
    write_varint(out, field * 8 + 2);
    write_varint(out, bytes.len() as u64);
    out.extend_from_slice(bytes);
    proof {
        assert(out@ =~= start + bytes_field(field as nat, bytes@));
    }
}

/// Writes a field that holds a number behind `out`.
fn write_number(out: &mut Vec<u8>, field: u64, v: u64)
    requires
        field < 16,
    ensures
        final(out)@ == old(out)@ + number_field(field as nat, v as nat),
{
    let ghost start = out@;
    write_varint(out, field * 8);
    write_varint(out, v);
    proof {
        assert(out@ =~= start + number_field(field as nat, v as nat));
    }
}

/// The length-delimited bytes at `i`.
fn read_bytes(buf: &[u8], i: usize) -> (r: Result<(Vec<u8>, usize), ProtoError>)
    requires
        i <= buf@.len(),
    ensures
        match r {
            Ok((b, j)) => bytes_at(buf@, i as int) == Ok::<(Seq<u8>, int), ProtoError>(
                (b@, j as int),
            ) && i < j <= buf@.len(),
            Err(e) => bytes_at(buf@, i as int) == Err::<(Seq<u8>, int), ProtoError>(e),
        },
{
    let (len, j) = match read_varint(buf, i) {
        Ok(r) => r,
        Err(e) => return Err(e),
    };
    if len > (buf.len() - j) as u64 {
        return Err(ProtoError::Truncated);
    }
    let end: usize = j + len as usize;
    let bytes = slice_to_vec(slice_subrange(buf, j, end));
    Ok((bytes, end))
}

/// The length-delimited text at `i`.
fn read_text(buf: &[u8], i: usize) -> (r: Result<(String, usize), ProtoError>)
    requires
        i <= buf@.len(),
    ensures
        match r {
            Ok((s, j)) => text_at(buf@, i as int) == Ok::<(Seq<char>, int), ProtoError>(
                (s@, j as int),
            ) && i < j <= buf@.len(),
            Err(e) => text_at(buf@, i as int) == Err::<(Seq<char>, int), ProtoError>(e),
        },
{
    let (bytes, j) = match read_bytes(buf, i) {
        Ok(r) => r,
        Err(e) => return Err(e),
    };
    match utf8_text(bytes) {
        Ok(s) => {
            proof {
                encode_utf8_decode_utf8(s@);
            }
            Ok((s, j))
        },
        Err(_e) => Err(ProtoError::Utf8),
    }
}

/// A message while it is read.
struct Partial {
    source_id: String,
    destination_id: String,
    namespace: String,
    kind: PayloadType,
    text: Option<String>,
    binary: Option<Vec<u8>>,
}

impl View for Partial {
    type V = Fields;

    closed spec fn view(&self) -> Fields {
        Fields {
            source_id: self.source_id@,
            destination_id: self.destination_id@,
            namespace: self.namespace@,
            kind: self.kind,
            text: match self.text {
                Some(s) => Some(s@),
                None => None,
            },
            binary: match self.binary {
                Some(b) => Some(b@),
                None => None,
            },
        }
    }
}

/// Reads the field whose value stands at `i`, and gives the position behind it.
fn read_field(buf: &[u8], field: u64, wire: u64, i: usize, p: &mut Partial) -> (r: Result<
    usize,
    ProtoError,
>)
    requires
        i <= buf@.len(),
    ensures
        match r {
            Ok(j) => field_at(buf@, field as nat, wire as nat, i as int, old(p)@) == Ok::<
                (Fields, int),
                ProtoError,
            >((final(p)@, j as int)) && i < j <= buf@.len(),
            Err(e) => field_at(buf@, field as nat, wire as nat, i as int, old(p)@) == Err::<
                (Fields, int),
                ProtoError,
            >(e),
        },
{
    if field == 2 && wire == 2 {
        let (s, k) = match read_text(buf, i) {
            Ok(r) => r,
            Err(e) => return Err(e),
        };
        p.source_id = s;
        Ok(k)
    } else if field == 3 && wire == 2 {
        let (s, k) = match read_text(buf, i) {
            Ok(r) => r,
            Err(e) => return Err(e),
        };
        p.destination_id = s;
        Ok(k)
    } else if field == 4 && wire == 2 {
        let (s, k) = match read_text(buf, i) {
            Ok(r) => r,
            Err(e) => return Err(e),
        };
        p.namespace = s;
        Ok(k)
    } else if field == 5 && wire == 0 {
        let (v, k) = match read_varint(buf, i) {
            Ok(r) => r,
            Err(e) => return Err(e),
        };
        p.kind = if v == 1 {
            PayloadType::Binary
        } else {
            PayloadType::String
        };
        Ok(k)
    } else if field == 6 && wire == 2 {
        let (s, k) = match read_text(buf, i) {
            Ok(r) => r,
            Err(e) => return Err(e),
        };
        p.text = Some(s);
        Ok(k)
    } else if field == 7 && wire == 2 {
        let (b, k) = match read_bytes(buf, i) {
            Ok(r) => r,
            Err(e) => return Err(e),
        };
        p.binary = Some(b);
        Ok(k)
    } else if wire == 0 {
        let (_v, k) = match read_varint(buf, i) {
            Ok(r) => r,
            Err(e) => return Err(e),
        };
        Ok(k)
    } else if wire == 1 {
        if buf.len() - i < 8 {
            return Err(ProtoError::Truncated);
        }
        Ok(i + 8)
    } else if wire == 2 {
        let (_b, k) = match read_bytes(buf, i) {
            Ok(r) => r,
            Err(e) => return Err(e),
        };
        Ok(k)
    } else if wire == 5 {
        if buf.len() - i < 4 {
            return Err(ProtoError::Truncated);
        }
        Ok(i + 4)
    } else {
        Err(ProtoError::BadVarint)
    }
}

impl CastMessage {
    /// A message with text.
    pub fn string(source_id: &str, destination_id: &str, namespace: &str, payload: &str) -> (m:
        CastMessage)
        ensures
            m@ == (MessageView {
                source_id: source_id@,
                destination_id: destination_id@,
                namespace: namespace@,
                payload: PayloadView::Text(payload@),
            }),
    {
        CastMessage {
            source_id: source_id.to_string(),
            destination_id: destination_id.to_string(),
            namespace: namespace.to_string(),
            payload: Payload::String(payload.to_string()),
        }
    }

    /// A message with bytes.
    pub fn binary(source_id: &str, destination_id: &str, namespace: &str, payload: Vec<u8>) -> (m:
        CastMessage)
        ensures
            m@ == (MessageView {
                source_id: source_id@,
                destination_id: destination_id@,
                namespace: namespace@,
                payload: PayloadView::Binary(payload@),
            }),
    {
        CastMessage {
            source_id: source_id.to_string(),
            destination_id: destination_id.to_string(),
            namespace: namespace.to_string(),
            payload: Payload::Binary(payload),
        }
    }

    /// The message as bytes.
    pub fn encode(&self) -> (bytes: Vec<u8>)
        ensures
            bytes@ == message_bytes(self@),
    {
        let mut out: Vec<u8> = Vec::new();
        write_number(&mut out, 1, 0);
        write_bytes(&mut out, 2, self.source_id.as_str().as_bytes());
        write_bytes(&mut out, 3, self.destination_id.as_str().as_bytes());
        write_bytes(&mut out, 4, self.namespace.as_str().as_bytes());
        let ghost names = out@;
        match &self.payload {
            Payload::String(s) => {
                write_number(&mut out, 5, PayloadType::String.number());
                write_bytes(&mut out, 6, s.as_str().as_bytes());
            },
            Payload::Binary(b) => {
                write_number(&mut out, 5, PayloadType::Binary.number());
                write_bytes(&mut out, 7, b.as_slice());
            },
        }
        proof {
            reveal(message_bytes);
            assert(names =~= number_field(1, 0) + bytes_field(2, encode_utf8(self.source_id@))
                + bytes_field(3, encode_utf8(self.destination_id@)) + bytes_field(
                4,
                encode_utf8(self.namespace@),
            ));
            assert(out@ =~= names + payload_fields(self.payload@));
        }
        out
    }

    /// The message that a buffer holds.
    pub fn decode(buf: &[u8]) -> (r: Result<CastMessage, ProtoError>)
        ensures
            outcome(r) == message_in(buf@),
    {
        let mut p = Partial {
            source_id: String::new(),
            destination_id: String::new(),
            namespace: String::new(),
            kind: PayloadType::String,
            text: None,
            binary: None,
        };
        let mut i: usize = 0;
        let n: usize = buf.len();
        proof {
            assert(p@ =~= no_fields());
        }
        while i < n
            invariant
                n == buf@.len(),
                i <= n,
                fields_from(buf@, i as int, p@) == fields_from(buf@, 0, no_fields()),
            decreases n - i,
        {
            proof {
                reveal(fields_from);
            }
            let (key, j) = match read_varint(buf, i) {
                Ok(r) => r,
                Err(e) => return Err(e),
            };
            i = match read_field(buf, (key / 8) % 0x1_0000_0000, key % 8, j, &mut p) {
                Ok(k) => k,
                Err(e) => return Err(e),
            };
        }
        proof {
            reveal(fields_from);
        }
        let payload = match p.kind {
            PayloadType::String => match p.text {
                Some(s) => Payload::String(s),
                None => return Err(ProtoError::MissingPayload),
            },
            PayloadType::Binary => match p.binary {
                Some(b) => Payload::Binary(b),
                None => return Err(ProtoError::MissingPayload),
            },
        };
        Ok(
            CastMessage {
                source_id: p.source_id,
                destination_id: p.destination_id,
                namespace: p.namespace,
                payload,
            },
        )
    }
}

/// The DeviceAuthMessage that asks for nothing but a challenge.
pub fn encode_auth_challenge() -> (bytes: Vec<u8>)
    ensures
        bytes@ == bytes_field(1, Seq::<u8>::empty()),
        bytes@ == seq![0x0au8, 0x00u8],
{
    let mut out: Vec<u8> = Vec::new();
    write_varint(&mut out, 10);
    write_varint(&mut out, 0);
    proof {
        assert(out@ =~= bytes_field(1, Seq::<u8>::empty()));
        assert(out@ =~= seq![0x0au8, 0x00u8]);
    }
    out
}

proof fn lemma_one_digit(b: u8)
    ensures
        digits128(seq![b]) == (b % 128) as nat,
{
    let one = seq![b];
    assert(one.drop_last() =~= Seq::<u8>::empty());
    assert(digits128(Seq::<u8>::empty()) == 0);
    assert(pow128(0) == 1);
    let d = (b % 128) as nat;
    assert(d * pow128(0) == d) by (nonlinear_arith)
        requires
            pow128(0) == 1,
    ;
}

proof fn lemma_digits_front(b: u8, rest: Seq<u8>)
    ensures
        digits128(seq![b] + rest) == (b % 128) as nat + 128 * digits128(rest),
    decreases rest.len(),
{
    let all = seq![b] + rest;
    if rest.len() == 0 {
        assert(all.drop_last() =~= Seq::<u8>::empty());
        assert(all =~= seq![b]);
        lemma_one_digit(b);
    } else {
        lemma_digits_front(b, rest.drop_last());
        assert(all.drop_last() =~= seq![b] + rest.drop_last());
        let d = (rest.last() % 128) as nat;
        let p = pow128((rest.len() - 1) as nat);
        assert(pow128(rest.len()) == 128 * p);
        assert(d * (128 * p) == 128 * (d * p)) by (nonlinear_arith);
    }
}

proof fn lemma_varint(v: nat, k: nat)
    requires
        v < pow128(k),
        k >= 1,
    ensures
        1 <= varint(v).len() <= k,
        forall|n: int| 0 <= n < varint(v).len() - 1 ==> varint(v)[n] >= 128,
        varint(v).last() < 128,
        digits128(varint(v)) == v,
    decreases v,
{
    if v < 128 {
        lemma_one_digit(v as u8);
    } else {
        let rest = varint(v / 128);
        let b = (v % 128 + 128) as u8;
        lemma_pow128();
        assert(k != 1);
        lemma_varint(v / 128, (k - 1) as nat);
        lemma_digits_front(b, rest);
        assert(varint(v) =~= seq![b] + rest);
        assert forall|n: int| 0 <= n < varint(v).len() - 1 implies varint(v)[n] >= 128 by {
            if n > 0 {
                assert(varint(v)[n] == rest[n - 1]);
            }
        }
    }
}

proof fn lemma_varint_at(buf: Seq<u8>, i: int, v: nat)
    requires
        v < 0x1_0000_0000_0000_0000,
        0 <= i,
        i + varint(v).len() <= buf.len(),
        buf.subrange(i, i + varint(v).len()) == varint(v),
    ensures
        varint_at(buf, i) == Ok::<(nat, int), ProtoError>((v, i + varint(v).len())),
        varint(v).len() >= 1,
{
    lemma_pow128();
    lemma_varint(v, 10);
    let len = varint(v).len();
    let part = buf.subrange(i, i + len);
    assert forall|n: int| i <= n < i + len - 1 implies buf[n] >= 128 by {
        assert(buf[n] == part[n - i]);
    }
    assert(buf[i + len - 1] == part.last());
    lemma_more_run(buf, i, (len - 1) as nat);
}

/// Reads what [`bytes_field`] wrote.
proof fn lemma_bytes_field(buf: Seq<u8>, i: int, field: nat, bytes: Seq<u8>)
    requires
        field < 0x2000_0000_0000_0000,
        bytes.len() <= u64::MAX,
        0 <= i,
        i + bytes_field(field, bytes).len() <= buf.len(),
        buf.subrange(i, i + bytes_field(field, bytes).len()) == bytes_field(field, bytes),
    ensures
        ({
            let j = i + field_key(field, 2).len();
            &&& varint_at(buf, i) == Ok::<(nat, int), ProtoError>((field * 8 + 2, j))
            &&& bytes_at(buf, j) == Ok::<(Seq<u8>, int), ProtoError>(
                (bytes, i + bytes_field(field, bytes).len()),
            )
            &&& j > i
        }),
{
    let whole = bytes_field(field, bytes);
    let part = buf.subrange(i, i + whole.len());
    let key = field_key(field, 2);
    let len = varint(bytes.len());
    let j = i + key.len();
    let k = j + len.len();
    assert(buf.subrange(i, j) =~= part.subrange(0, key.len() as int));
    assert(whole.subrange(0, key.len() as int) =~= key);
    lemma_varint_at(buf, i, field * 8 + 2);
    assert(buf.subrange(j, k) =~= part.subrange(key.len() as int, (key.len() + len.len()) as int));
    assert(whole.subrange(key.len() as int, (key.len() + len.len()) as int) =~= len);
    lemma_varint_at(buf, j, bytes.len());
    assert(buf.subrange(k, k + bytes.len()) =~= part.subrange(
        (key.len() + len.len()) as int,
        whole.len() as int,
    ));
    assert(whole.subrange((key.len() + len.len()) as int, whole.len() as int) =~= bytes);
}

/// Reads what [`number_field`] wrote.
proof fn lemma_number_field(buf: Seq<u8>, i: int, field: nat, v: nat)
    requires
        field < 0x2000_0000_0000_0000,
        v <= u64::MAX,
        0 <= i,
        i + number_field(field, v).len() <= buf.len(),
        buf.subrange(i, i + number_field(field, v).len()) == number_field(field, v),
    ensures
        ({
            let j = i + field_key(field, 0).len();
            &&& varint_at(buf, i) == Ok::<(nat, int), ProtoError>((field * 8, j))
            &&& varint_at(buf, j) == Ok::<(nat, int), ProtoError>(
                (v, i + number_field(field, v).len()),
            )
            &&& j > i
        }),
{
    let whole = number_field(field, v);
    let part = buf.subrange(i, i + whole.len());
    let key = field_key(field, 0);
    let j = i + key.len();
    assert(buf.subrange(i, j) =~= part.subrange(0, key.len() as int));
    assert(whole.subrange(0, key.len() as int) =~= key);
    lemma_varint_at(buf, i, field * 8);
    assert(buf.subrange(j, i + whole.len()) =~= part.subrange(
        key.len() as int,
        whole.len() as int,
    ));
    assert(whole.subrange(key.len() as int, whole.len() as int) =~= varint(v));
    lemma_varint_at(buf, j, v);
}

/// One step of [`fields_from`] over a text field.
proof fn lemma_text_step(buf: Seq<u8>, i: int, field: nat, s: Seq<char>, f: Fields)
    requires
        field == 2 || field == 3 || field == 4 || field == 6,
        encode_utf8(s).len() <= u64::MAX,
        0 <= i,
        i + bytes_field(field, encode_utf8(s)).len() <= buf.len(),
        buf.subrange(i, i + bytes_field(field, encode_utf8(s)).len()) == bytes_field(
            field,
            encode_utf8(s),
        ),
    ensures
        fields_from(buf, i, f) == fields_from(
            buf,
            i + bytes_field(field, encode_utf8(s)).len(),
            if field == 2 {
                Fields { source_id: s, ..f }
            } else if field == 3 {
                Fields { destination_id: s, ..f }
            } else if field == 4 {
                Fields { namespace: s, ..f }
            } else {
                Fields { text: Some(s), ..f }
            },
        ),
{
    reveal(fields_from);
    lemma_bytes_field(buf, i, field, encode_utf8(s));
    encode_utf8_valid_utf8(s);
    encode_utf8_decode_utf8(s);
    let j = i + field_key(field, 2).len();
    assert(((field * 8 + 2) / 8) % 0x1_0000_0000 == field);
    assert((field * 8 + 2) % 8 == 2);
    assert(text_at(buf, j) == Ok::<(Seq<char>, int), ProtoError>(
        (s, i + bytes_field(field, encode_utf8(s)).len()),
    ));
}

/// One step of [`fields_from`] over the protocol version or the payload type.
proof fn lemma_number_step(buf: Seq<u8>, i: int, field: nat, v: nat, f: Fields)
    requires
        field == 1 || field == 5,
        v <= u64::MAX,
        0 <= i,
        i + number_field(field, v).len() <= buf.len(),
        buf.subrange(i, i + number_field(field, v).len()) == number_field(field, v),
    ensures
        fields_from(buf, i, f) == fields_from(
            buf,
            i + number_field(field, v).len(),
            if field == 1 {
                f
            } else if v == 1 {
                Fields { kind: PayloadType::Binary, ..f }
            } else {
                Fields { kind: PayloadType::String, ..f }
            },
        ),
{
    reveal(fields_from);
    lemma_number_field(buf, i, field, v);
    assert(((field * 8) / 8) % 0x1_0000_0000 == field);
    assert((field * 8) % 8 == 0);
}

/// One step of [`fields_from`] over a binary payload.
proof fn lemma_binary_step(buf: Seq<u8>, i: int, b: Seq<u8>, f: Fields)
    requires
        b.len() <= u64::MAX,
        0 <= i,
        i + bytes_field(7, b).len() <= buf.len(),
        buf.subrange(i, i + bytes_field(7, b).len()) == bytes_field(7, b),
    ensures
        fields_from(buf, i, f) == fields_from(
            buf,
            i + bytes_field(7, b).len(),
            Fields { binary: Some(b), ..f },
        ),
{
    reveal(fields_from);
    lemma_bytes_field(buf, i, 7, b);
}

/// The part of a concatenation that stands behind `pre`.
proof fn lemma_window(pre: Seq<u8>, mid: Seq<u8>, post: Seq<u8>)
    ensures
        (pre + mid + post).subrange(pre.len() as int, (pre.len() + mid.len()) as int) == mid,
        (pre + mid + post).len() == pre.len() + mid.len() + post.len(),
{
    assert((pre + mid + post).subrange(pre.len() as int, (pre.len() + mid.len()) as int) =~= mid);
}

/// The first four parts of a concatenation of five.
proof fn lemma_windows(a: Seq<u8>, b: Seq<u8>, c: Seq<u8>, d: Seq<u8>, e: Seq<u8>)
    ensures
        ({
            let all = a + b + c + d + e;
            let p2 = a + b;
            let p3 = p2 + c;
            let p4 = p3 + d;
            &&& all.subrange(0, a.len() as int) == a
            &&& all.subrange(a.len() as int, (a.len() + b.len()) as int) == b
            &&& all.subrange(p2.len() as int, (p2.len() + c.len()) as int) == c
            &&& all.subrange(p3.len() as int, (p3.len() + d.len()) as int) == d
            &&& p2.len() == a.len() + b.len()
            &&& p3.len() == p2.len() + c.len()
            &&& p4.len() == p3.len() + d.len()
            &&& all.len() == p4.len() + e.len()
            &&& all == p4 + e
        }),
{
    let all = a + b + c + d + e;
    assert(all.subrange(0, a.len() as int) =~= a);
    assert(all.subrange(a.len() as int, (a.len() + b.len()) as int) =~= b);
    assert(all.subrange((a + b).len() as int, ((a + b).len() + c.len()) as int) =~= c);
    lemma_window(a + b + c, d, e);
}

/// Reads the payload of a message, which stands behind `pre`.
proof fn lemma_payload(pre: Seq<u8>, p: PayloadView, f: Fields)
    requires
        match p {
            PayloadView::Text(s) => encode_utf8(s).len() <= u64::MAX,
            PayloadView::Binary(b) => b.len() <= u64::MAX,
        },
    ensures
        fields_from(pre + payload_fields(p), pre.len() as int, f) == Ok::<Fields, ProtoError>(
            match p {
                PayloadView::Text(s) => Fields { kind: PayloadType::String, text: Some(s), ..f },
                PayloadView::Binary(b) => Fields { kind: PayloadType::Binary, binary: Some(b), ..f },
            },
        ),
{
    reveal(fields_from);
    let buf = pre + payload_fields(p);
    match p {
        PayloadView::Text(s) => {
            let kind = number_field(5, 0);
            let body = bytes_field(6, encode_utf8(s));
            assert(buf =~= pre + kind + body);
            lemma_window(pre, kind, body);
            lemma_number_step(buf, pre.len() as int, 5, 0, f);
            assert(buf =~= (pre + kind) + body + Seq::<u8>::empty());
            lemma_window(pre + kind, body, Seq::empty());
            lemma_text_step(
                buf,
                (pre + kind).len() as int,
                6,
                s,
                Fields { kind: PayloadType::String, ..f },
            );
        },
        PayloadView::Binary(b) => {
            let kind = number_field(5, 1);
            let body = bytes_field(7, b);
            assert(buf =~= pre + kind + body);
            lemma_window(pre, kind, body);
            lemma_number_step(buf, pre.len() as int, 5, 1, f);
            assert(buf =~= (pre + kind) + body + Seq::<u8>::empty());
            lemma_window(pre + kind, body, Seq::empty());
            lemma_binary_step(
                buf,
                (pre + kind).len() as int,
                b,
                Fields { kind: PayloadType::Binary, ..f },
            );
        },
    }
}

/// Decoding gives back what was encoded: every message survives
/// [`CastMessage::encode`] followed by [`CastMessage::decode`].
pub proof fn decode_gives_back_what_encode_wrote(m: MessageView)
    requires
        encode_utf8(m.source_id).len() <= u64::MAX,
        encode_utf8(m.destination_id).len() <= u64::MAX,
        encode_utf8(m.namespace).len() <= u64::MAX,
        match m.payload {
            PayloadView::Text(s) => encode_utf8(s).len() <= u64::MAX,
            PayloadView::Binary(b) => b.len() <= u64::MAX,
        },
    ensures
        message_in(message_bytes(m)) == Ok::<MessageView, ProtoError>(m),
{
    reveal(message_bytes);
    let buf = message_bytes(m);
    let p1 = number_field(1, 0);
    let source = bytes_field(2, encode_utf8(m.source_id));
    let p2 = p1 + source;
    let destination = bytes_field(3, encode_utf8(m.destination_id));
    let p3 = p2 + destination;
    let namespace = bytes_field(4, encode_utf8(m.namespace));
    let p4 = p3 + namespace;
    let payload = payload_fields(m.payload);
    let f0 = no_fields();
    let f2 = Fields { source_id: m.source_id, ..f0 };
    let f3 = Fields { destination_id: m.destination_id, ..f2 };
    let f4 = Fields { namespace: m.namespace, ..f3 };
    lemma_windows(p1, source, destination, namespace, payload);
    lemma_number_step(buf, 0, 1, 0, f0);
    lemma_text_step(buf, p1.len() as int, 2, m.source_id, f0);
    lemma_text_step(buf, p2.len() as int, 3, m.destination_id, f2);
    lemma_text_step(buf, p3.len() as int, 4, m.namespace, f3);
    lemma_payload(p4, m.payload, f4);
}

/// Whether fields with this number and wire type are read, and not skipped.
pub open spec fn is_known(field: nat, wire: nat) -> bool {
    (wire == 2 && (field == 2 || field == 3 || field == 4 || field == 6 || field == 7)) || (wire
        == 0 && field == 5)
}

/// `x` is one field, with this number and wire type.
pub open spec fn is_field(x: Seq<u8>, field: nat, wire: nat) -> bool {
    varint_at(x, 0) matches Ok((key, j)) && {
        &&& (key / 8) % 0x1_0000_0000 == field
        &&& key % 8 == wire
        &&& field_at(x, field, wire, j, no_fields()) matches Ok((_, k)) && k == x.len()
    }
}

/// `a` is made of whole fields.
pub open spec fn are_fields(a: Seq<u8>) -> bool {
    fields_from(a, 0, no_fields()) is Ok
}

/// A field that is not known changes nothing, whatever its number and its wire type, and
/// wherever it stands between the others: a message reads the same with it as without.
pub proof fn unknown_fields_are_skipped(
    a: Seq<u8>,
    x: Seq<u8>,
    b: Seq<u8>,
    field: nat,
    wire: nat,
)
    requires
        are_fields(a),
        is_field(x, field, wire),
        !is_known(field, wire),
    ensures
        message_in(a + x + b) == message_in(a + b),
{
    let f0 = no_fields();
    let f = fields_from(a, 0, f0)->Ok_0;
    lemma_then(a, x + b, 0, f0);
    lemma_then(a, b, 0, f0);
    lemma_one(x, field, wire, f);
    lemma_then(x, b, 0, f);
    assert(a + x + b =~= a + (x + b));
}

/// What is written under a number that is not known is a field that is not known: a
/// number, eight bytes, any run of bytes, or four bytes. The number of a field is kept
/// to 32 bits.
pub proof fn what_is_written_is_a_field(
    field: nat,
    v: nat,
    bytes: Seq<u8>,
    eight: Seq<u8>,
    four: Seq<u8>,
)
    requires
        field < 0x2000_0000_0000_0000,
        v <= u64::MAX,
        bytes.len() <= u64::MAX,
        eight.len() == 8,
        four.len() == 4,
    ensures
        !is_known(field % 0x1_0000_0000, 0) ==> is_field(
            number_field(field, v),
            field % 0x1_0000_0000,
            0,
        ),
        is_field(field_key(field, 1) + eight, field % 0x1_0000_0000, 1),
        !is_known(field % 0x1_0000_0000, 2) ==> is_field(
            bytes_field(field, bytes),
            field % 0x1_0000_0000,
            2,
        ),
        is_field(field_key(field, 5) + four, field % 0x1_0000_0000, 5),
{
    if !is_known(field % 0x1_0000_0000, 0) {
        lemma_written_number(field, v);
    }
    lemma_written_fixed(field, 1, eight);
    if !is_known(field % 0x1_0000_0000, 2) {
        lemma_written_bytes(field, bytes);
    }
    lemma_written_fixed(field, 5, four);
}

proof fn lemma_written_number(field: nat, v: nat)
    requires
        field < 0x2000_0000_0000_0000,
        v <= u64::MAX,
        !is_known(field % 0x1_0000_0000, 0),
    ensures
        is_field(number_field(field, v), field % 0x1_0000_0000, 0),
{
    let x = number_field(field, v);
    assert(x.subrange(0, x.len() as int) =~= x);
    lemma_number_field(x, 0, field, v);
    assert((field * 8) / 8 == field && (field * 8) % 8 == 0);
}

proof fn lemma_written_bytes(field: nat, bytes: Seq<u8>)
    requires
        field < 0x2000_0000_0000_0000,
        bytes.len() <= u64::MAX,
        !is_known(field % 0x1_0000_0000, 2),
    ensures
        is_field(bytes_field(field, bytes), field % 0x1_0000_0000, 2),
{
    let x = bytes_field(field, bytes);
    assert(x.subrange(0, x.len() as int) =~= x);
    lemma_bytes_field(x, 0, field, bytes);
    assert((field * 8 + 2) / 8 == field && (field * 8 + 2) % 8 == 2);
}

proof fn lemma_written_fixed(field: nat, wire: nat, value: Seq<u8>)
    requires
        field < 0x2000_0000_0000_0000,
        (wire == 1 && value.len() == 8) || (wire == 5 && value.len() == 4),
    ensures
        is_field(field_key(field, wire) + value, field % 0x1_0000_0000, wire),
{
    let x = field_key(field, wire) + value;
    assert(x.subrange(0, field_key(field, wire).len() as int) =~= field_key(field, wire));
    lemma_varint_at(x, 0, field * 8 + wire);
    assert((field * 8 + wire) / 8 == field && (field * 8 + wire) % 8 == wire);
}

/// The same is known of two messages, but for what a field with this number gives.
pub open spec fn agree_but(f: Fields, g: Fields, field: nat) -> bool {
    &&& field != 2 ==> f.source_id == g.source_id
    &&& field != 3 ==> f.destination_id == g.destination_id
    &&& field != 4 ==> f.namespace == g.namespace
    &&& field != 5 ==> f.kind == g.kind
    &&& field != 6 ==> f.text == g.text
    &&& field != 7 ==> f.binary == g.binary
}

/// Of two fields with one number the later counts: a message reads the same without
/// the earlier one, whatever stands before, between and behind them.
pub proof fn a_later_field_replaces_an_earlier_one(
    a: Seq<u8>,
    x: Seq<u8>,
    b: Seq<u8>,
    y: Seq<u8>,
    c: Seq<u8>,
    field: nat,
    wire: nat,
)
    requires
        are_fields(a),
        are_fields(b),
        is_known(field, wire),
        is_field(x, field, wire),
        is_field(y, field, wire),
    ensures
        message_in(a + x + b + y + c) == message_in(a + b + y + c),
{
    let f0 = no_fields();
    let f = fields_from(a, 0, f0)->Ok_0;
    lemma_one(x, field, wire, f);
    let g = fields_from(x, 0, f)->Ok_0;
    lemma_alike(b, 0, f, g, field);
    lemma_alike(b, 0, f0, f, field);
    let fb = fields_from(b, 0, f)->Ok_0;
    let gb = fields_from(b, 0, g)->Ok_0;
    lemma_one(y, field, wire, fb);
    lemma_one(y, field, wire, gb);
    lemma_overwrites(y, field, wire, fb, gb);
    lemma_then(a, x + (b + (y + c)), 0, f0);
    lemma_then(a, b + (y + c), 0, f0);
    lemma_then(x, b + (y + c), 0, f);
    lemma_then(b, y + c, 0, f);
    lemma_then(b, y + c, 0, g);
    lemma_then(y, c, 0, fb);
    lemma_then(y, c, 0, gb);
    assert(a + x + b + y + c =~= a + (x + (b + (y + c))));
    assert(a + b + y + c =~= a + (b + (y + c)));
}

/// How one field is read, whatever is known before it.
proof fn lemma_one(x: Seq<u8>, field: nat, wire: nat, f: Fields)
    requires
        is_field(x, field, wire),
    ensures
        fields_from(x, 0, f) matches Ok(g) && agree_but(f, g, field) && (!is_known(field, wire)
            ==> g == f),
{
    reveal(fields_from);
    let (key, j) = varint_at(x, 0)->Ok_0;
    lemma_varint_shift(Seq::empty(), x, 0);
    lemma_field_alike(x, field, wire, j, no_fields(), f, field);
    let (g, k) = field_at(x, field, wire, j, f)->Ok_0;
    assert(fields_from(x, k, g) == Ok::<Fields, ProtoError>(g));
}

/// What a known field gives does not rest on what was known before it.
proof fn lemma_overwrites(x: Seq<u8>, field: nat, wire: nat, f: Fields, g: Fields)
    requires
        is_field(x, field, wire),
        is_known(field, wire),
        agree_but(f, g, field),
    ensures
        fields_from(x, 0, f) == fields_from(x, 0, g),
{
    reveal(fields_from);
    let (key, j) = varint_at(x, 0)->Ok_0;
    lemma_varint_shift(Seq::empty(), x, 0);
    lemma_field_alike(x, field, wire, j, no_fields(), f, field);
    lemma_field_alike(x, field, wire, j, no_fields(), g, field);
    let (p, k) = field_at(x, field, wire, j, f)->Ok_0;
    let (q, l) = field_at(x, field, wire, j, g)->Ok_0;
    assert(p =~= q);
}

/// Whether a field can be read, and where it ends, does not rest on what was known
/// before it.
proof fn lemma_field_alike(
    buf: Seq<u8>,
    field: nat,
    wire: nat,
    i: int,
    f: Fields,
    g: Fields,
    but: nat,
)
    ensures
        match (field_at(buf, field, wire, i, f), field_at(buf, field, wire, i, g)) {
            (Ok((p, j)), Ok((q, k))) => j == k && (agree_but(f, g, but) ==> agree_but(p, q, but))
                && agree_but(g, q, field),
            (Err(d), Err(e)) => d == e,
            _ => false,
        },
{
}

/// Whether fields can be read does not rest on what was known before them, and they
/// leave alike what was alike.
proof fn lemma_alike(buf: Seq<u8>, i: int, f: Fields, g: Fields, but: nat)
    ensures
        match (fields_from(buf, i, f), fields_from(buf, i, g)) {
            (Ok(p), Ok(q)) => agree_but(f, g, but) ==> agree_but(p, q, but),
            (Err(d), Err(e)) => d == e,
            _ => false,
        },
    decreases buf.len() - i,
{
    reveal(fields_from);
    if i < buf.len() {
        match varint_at(buf, i) {
            Ok((key, j)) => {
                let field = (key / 8) % 0x1_0000_0000;
                lemma_field_alike(buf, field, key % 8, j, f, g, but);
                match (field_at(buf, field, key % 8, j, f), field_at(buf, field, key % 8, j, g)) {
                    (Ok((p, k)), Ok((q, _))) => {
                        if k > i {
                            lemma_alike(buf, k, p, q, but);
                        }
                    },
                    _ => {},
                }
            },
            Err(_) => {},
        }
    }
}

/// What stands behind whole fields is read once they are.
proof fn lemma_then(a: Seq<u8>, b: Seq<u8>, i: int, f: Fields)
    requires
        0 <= i <= a.len(),
        fields_from(a, i, f) is Ok,
    ensures
        fields_from(a + b, i, f) == fields_from(b, 0, fields_from(a, i, f)->Ok_0),
    decreases a.len() - i,
{
    reveal(fields_from);
    if i == a.len() {
        lemma_shift(a, b, 0, f);
    } else {
        let (key, j) = varint_at(a, i)->Ok_0;
        let field = (key / 8) % 0x1_0000_0000;
        lemma_varint_front(a, b, i);
        lemma_field_front(a, b, field, key % 8, j, f);
        let (g, k) = field_at(a, field, key % 8, j, f)->Ok_0;
        lemma_then(a, b, k, g);
    }
}

proof fn lemma_run_front(a: Seq<u8>, b: Seq<u8>, i: int)
    requires
        0 <= i,
        i + more_run(a, i) < a.len(),
    ensures
        more_run(a + b, i) == more_run(a, i),
    decreases a.len() - i,
{
    if i < a.len() && a[i] >= 128 {
        lemma_run_front(a, b, i + 1);
    }
}

/// A number that can be read is read the same where more stands behind it.
proof fn lemma_varint_front(a: Seq<u8>, b: Seq<u8>, i: int)
    requires
        0 <= i,
        varint_at(a, i) is Ok,
    ensures
        varint_at(a + b, i) == varint_at(a, i),
        i < varint_at(a, i)->Ok_0.1 <= a.len(),
{
    lemma_run_front(a, b, i);
    let run = more_run(a, i);
    assert((a + b).subrange(i, i + run + 1) =~= a.subrange(i, i + run + 1));
}

proof fn lemma_bytes_front(a: Seq<u8>, b: Seq<u8>, i: int)
    requires
        0 <= i,
        bytes_at(a, i) is Ok,
    ensures
        bytes_at(a + b, i) == bytes_at(a, i),
        i < bytes_at(a, i)->Ok_0.1 <= a.len(),
{
    lemma_varint_front(a, b, i);
    let (len, j) = varint_at(a, i)->Ok_0;
    assert((a + b).subrange(j, j + len) =~= a.subrange(j, j + len));
}

/// A field that can be read is read the same where more stands behind it.
proof fn lemma_field_front(a: Seq<u8>, b: Seq<u8>, field: nat, wire: nat, i: int, f: Fields)
    requires
        0 <= i,
        field_at(a, field, wire, i, f) is Ok,
    ensures
        field_at(a + b, field, wire, i, f) == field_at(a, field, wire, i, f),
        i < field_at(a, field, wire, i, f)->Ok_0.1 <= a.len(),
{
    if varint_at(a, i) is Ok {
        lemma_varint_front(a, b, i);
    }
    if bytes_at(a, i) is Ok {
        lemma_bytes_front(a, b, i);
    }
}

proof fn lemma_run_shift(pre: Seq<u8>, buf: Seq<u8>, i: int)
    requires
        0 <= i,
    ensures
        more_run(pre + buf, pre.len() + i) == more_run(buf, i),
    decreases buf.len() - i,
{
    if i < buf.len() && buf[i] >= 128 {
        lemma_run_shift(pre, buf, i + 1);
    }
}

proof fn lemma_varint_shift(pre: Seq<u8>, buf: Seq<u8>, i: int)
    requires
        0 <= i,
    ensures
        varint_at(pre + buf, pre.len() + i) == match varint_at(buf, i) {
            Ok((v, j)) => Ok((v, pre.len() + j)),
            Err(e) => Err(e),
        },
        varint_at(buf, i) matches Ok((v, j)) ==> i < j <= buf.len(),
{
    lemma_run_shift(pre, buf, i);
    let run = more_run(buf, i);
    if i + run < buf.len() {
        assert((pre + buf).subrange(pre.len() + i, pre.len() + i + run + 1) =~= buf.subrange(
            i,
            i + run + 1,
        ));
    }
}

proof fn lemma_bytes_shift(pre: Seq<u8>, buf: Seq<u8>, i: int)
    requires
        0 <= i,
    ensures
        bytes_at(pre + buf, pre.len() + i) == match bytes_at(buf, i) {
            Ok((v, j)) => Ok((v, pre.len() + j)),
            Err(e) => Err(e),
        },
        bytes_at(buf, i) matches Ok((v, j)) ==> i < j <= buf.len(),
{
    lemma_varint_shift(pre, buf, i);
    match varint_at(buf, i) {
        Ok((len, j)) => {
            if j + len <= buf.len() {
                assert((pre + buf).subrange(pre.len() + j, pre.len() + j + len) =~= buf.subrange(
                    j,
                    j + len,
                ));
            }
        },
        Err(e) => {},
    }
}

proof fn lemma_field_shift(pre: Seq<u8>, buf: Seq<u8>, field: nat, wire: nat, i: int, f: Fields)
    requires
        0 <= i,
    ensures
        field_at(pre + buf, field, wire, pre.len() + i, f) == match field_at(
            buf,
            field,
            wire,
            i,
            f,
        ) {
            Ok((g, j)) => Ok((g, pre.len() + j)),
            Err(e) => Err(e),
        },
        field_at(buf, field, wire, i, f) matches Ok((g, j)) ==> i < j,
{
    lemma_varint_shift(pre, buf, i);
    lemma_bytes_shift(pre, buf, i);
}

proof fn lemma_shift(pre: Seq<u8>, buf: Seq<u8>, i: int, f: Fields)
    requires
        0 <= i,
    ensures
        fields_from(pre + buf, pre.len() + i, f) == fields_from(buf, i, f),
    decreases buf.len() - i,
{
    reveal(fields_from);
    if i < buf.len() {
        lemma_varint_shift(pre, buf, i);
        match varint_at(buf, i) {
            Ok((key, j)) => {
                lemma_field_shift(pre, buf, (key / 8) % 0x1_0000_0000, key % 8, j, f);
                match field_at(buf, (key / 8) % 0x1_0000_0000, key % 8, j, f) {
                    Ok((g, k)) => {
                        assert(j < k);
                        lemma_shift(pre, buf, k, g);
                    },
                    Err(e) => {},
                }
            },
            Err(e) => {},
        }
    }
}

/// No part of a message takes more bytes than the message.
pub proof fn parts_are_not_larger(m: MessageView)
    ensures
        encode_utf8(m.source_id).len() <= message_bytes(m).len(),
        encode_utf8(m.destination_id).len() <= message_bytes(m).len(),
        encode_utf8(m.namespace).len() <= message_bytes(m).len(),
        match m.payload {
            PayloadView::Text(s) => encode_utf8(s).len() <= message_bytes(m).len(),
            PayloadView::Binary(b) => b.len() <= message_bytes(m).len(),
        },
{
    reveal(message_bytes);
}

/// A number is written in digits of seven bits, the lowest first, of which all but the
/// last have their top bit set, and is read as it was written wherever it stands.
pub proof fn a_number_is_written_lowest_digits_first(v: nat, before: Seq<u8>, behind: Seq<u8>)
    requires
        v <= u64::MAX,
    ensures
        v < 128 ==> varint(v) == seq![v as u8],
        v >= 128 ==> varint(v)[0] == v % 128 + 128 && varint(v).skip(1) == varint(v / 128),
        1 <= varint(v).len() <= 10,
        varint(v).last() < 128,
        varint_at(before + varint(v) + behind, before.len() as int) == Ok::<
            (nat, int),
            ProtoError,
        >((v, (before.len() + varint(v).len()) as int)),
{
    lemma_pow128();
    lemma_varint(v, 10);
    lemma_window(before, varint(v), behind);
    let buf = before + varint(v) + behind;
    let i = before.len() as int;
    assert(buf.subrange(i, i + varint(v).len()) =~= varint(v));
    lemma_varint_at(buf, i, v);
    if v >= 128 {
        assert(varint(v).skip(1) =~= varint(v / 128));
    }
}

/// A number of more than ten bytes is refused, and one that goes on beyond the end of the
/// buffer too.
pub proof fn a_number_has_ten_bytes_at_most(buf: Seq<u8>, i: int, n: nat)
    requires
        0 <= i,
        i + n <= buf.len(),
        forall|k: int| i <= k < i + n ==> buf[k] >= 128,
    ensures
        n >= 10 ==> varint_at(buf, i) == Err::<(nat, int), ProtoError>(ProtoError::BadVarint),
        n < 10 && i + n == buf.len() ==> varint_at(buf, i) == Err::<(nat, int), ProtoError>(
            ProtoError::Truncated,
        ),
{
    lemma_more_run_at_least(buf, i, n);
    if i + n == buf.len() {
        lemma_more_run(buf, i, n);
    }
}

/// A message on the wire: the version of the protocol, which is 0, as field 1, the sender
/// as field 2, the receiver as field 3, the namespace as field 4, the kind of the payload
/// as field 5, and the payload as field 6 where it is text and as field 7 where it is not.
pub proof fn a_message_on_the_wire(m: MessageView)
    ensures
        ({
            let source = encode_utf8(m.source_id);
            let destination = encode_utf8(m.destination_id);
            let namespace = encode_utf8(m.namespace);
            let front = seq![0x08u8, 0x00u8, 0x12u8] + varint(source.len()) + source
                + seq![0x1au8] + varint(destination.len()) + destination + seq![0x22u8] + varint(
                namespace.len(),
            ) + namespace;
            message_bytes(m) == match m.payload {
                PayloadView::Text(s) => front + seq![0x28u8, 0x00u8, 0x32u8] + varint(
                    encode_utf8(s).len(),
                ) + encode_utf8(s),
                PayloadView::Binary(b) => front + seq![0x28u8, 0x01u8, 0x3au8] + varint(b.len())
                    + b,
            }
        }),
{
    reveal(message_bytes);
    assert(varint(0) == seq![0u8] && varint(1) == seq![1u8]);
    assert(field_key(1, 0) == seq![0x08u8]);
    assert(field_key(2, 2) == seq![0x12u8]);
    assert(field_key(3, 2) == seq![0x1au8]);
    assert(field_key(4, 2) == seq![0x22u8]);
    assert(field_key(5, 0) == seq![0x28u8]);
    assert(field_key(6, 2) == seq![0x32u8]);
    assert(field_key(7, 2) == seq![0x3au8]);
    let source = encode_utf8(m.source_id);
    let destination = encode_utf8(m.destination_id);
    let namespace = encode_utf8(m.namespace);
    let front = seq![0x08u8, 0x00u8, 0x12u8] + varint(source.len()) + source + seq![0x1au8]
        + varint(destination.len()) + destination + seq![0x22u8] + varint(namespace.len())
        + namespace;
    let written = number_field(1, 0) + bytes_field(2, source) + bytes_field(3, destination)
        + bytes_field(4, namespace);
    assert(written =~= front);
    match m.payload {
        PayloadView::Text(s) => {
            assert(front + payload_fields(m.payload) =~= front + seq![0x28u8, 0x00u8, 0x32u8]
                + varint(encode_utf8(s).len()) + encode_utf8(s));
        },
        PayloadView::Binary(b) => {
            assert(front + payload_fields(m.payload) =~= front + seq![0x28u8, 0x01u8, 0x3au8]
                + varint(b.len()) + b);
        },
    }
}

/// Bytes without a payload are no message.
pub proof fn a_message_needs_a_payload()
    ensures
        message_in(Seq::empty()) == Err::<MessageView, ProtoError>(ProtoError::MissingPayload),
        forall|f: Fields|
            f.kind is String && f.text is None ==> #[trigger] message_of(f) == Err::<
                MessageView,
                ProtoError,
            >(ProtoError::MissingPayload),
        forall|f: Fields|
            f.kind is Binary && f.binary is None ==> #[trigger] message_of(f) == Err::<
                MessageView,
                ProtoError,
            >(ProtoError::MissingPayload),
{
    reveal(fields_from);
}

/// Text behind the tag of field 6 is a message also where its kind is not said and nobody
/// sent it.
pub proof fn a_payload_without_a_kind_is_text(s: Seq<char>)
    requires
        encode_utf8(s).len() <= u64::MAX,
    ensures
        message_in(seq![0x32u8] + varint(encode_utf8(s).len()) + encode_utf8(s)) == Ok::<
            MessageView,
            ProtoError,
        >(
            MessageView {
                source_id: Seq::empty(),
                destination_id: Seq::empty(),
                namespace: Seq::empty(),
                payload: PayloadView::Text(s),
            },
        ),
{
    let buf = bytes_field(6, encode_utf8(s));
    assert(field_key(6, 2) == seq![0x32u8]);
    assert(buf == seq![0x32u8] + varint(encode_utf8(s).len()) + encode_utf8(s));
    assert(buf.subrange(0, buf.len() as int) =~= buf);
    lemma_text_step(buf, 0, 6, s, no_fields());
    reveal(fields_from);
}

/// A payload is bytes only where its kind is 1, and text for every other kind.
pub proof fn only_kind_one_is_bytes(v: nat, s: Seq<char>, b: Seq<u8>)
    requires
        v <= u64::MAX,
        encode_utf8(s).len() <= u64::MAX,
        b.len() <= u64::MAX,
    ensures
        v != 1 ==> message_in(
            seq![0x28u8] + varint(v) + (seq![0x32u8] + varint(encode_utf8(s).len()) + encode_utf8(s)),
        ) == Ok::<MessageView, ProtoError>(
            MessageView {
                source_id: Seq::empty(),
                destination_id: Seq::empty(),
                namespace: Seq::empty(),
                payload: PayloadView::Text(s),
            },
        ),
        v != 1 ==> message_in(seq![0x28u8] + varint(v) + (seq![0x3au8] + varint(b.len()) + b))
            == Err::<MessageView, ProtoError>(ProtoError::MissingPayload),
        message_in(seq![0x28u8] + varint(1) + (seq![0x3au8] + varint(b.len()) + b)) == Ok::<
            MessageView,
            ProtoError,
        >(
            MessageView {
                source_id: Seq::empty(),
                destination_id: Seq::empty(),
                namespace: Seq::empty(),
                payload: PayloadView::Binary(b),
            },
        ),
{
    assert(field_key(5, 0) == seq![0x28u8]);
    assert(field_key(6, 2) == seq![0x32u8]);
    assert(field_key(7, 2) == seq![0x3au8]);
    lemma_kind_and_bytes(v, b);
    lemma_kind_and_bytes(1, b);
    let kind = number_field(5, v);
    let text = bytes_field(6, encode_utf8(s));
    let buf = kind + text;
    let n = kind.len() as int;
    assert(buf.subrange(0, n) =~= kind);
    assert(buf.subrange(n, n + text.len()) =~= text);
    let f0 = no_fields();
    let f1 = if v == 1 {
        Fields { kind: PayloadType::Binary, ..f0 }
    } else {
        Fields { kind: PayloadType::String, ..f0 }
    };
    lemma_number_step(buf, 0, 5, v, f0);
    lemma_text_step(buf, n, 6, s, f1);
    reveal(fields_from);
}

proof fn lemma_kind_and_bytes(v: nat, b: Seq<u8>)
    requires
        v <= u64::MAX,
        b.len() <= u64::MAX,
    ensures
        message_in(number_field(5, v) + bytes_field(7, b)) == if v == 1 {
            Ok::<MessageView, ProtoError>(
                MessageView {
                    source_id: Seq::empty(),
                    destination_id: Seq::empty(),
                    namespace: Seq::empty(),
                    payload: PayloadView::Binary(b),
                },
            )
        } else {
            Err::<MessageView, ProtoError>(ProtoError::MissingPayload)
        },
{
    let kind = number_field(5, v);
    let bytes = bytes_field(7, b);
    let buf = kind + bytes;
    let n = kind.len() as int;
    assert(buf.subrange(0, n) =~= kind);
    assert(buf.subrange(n, n + bytes.len()) =~= bytes);
    let f0 = no_fields();
    let f1 = if v == 1 {
        Fields { kind: PayloadType::Binary, ..f0 }
    } else {
        Fields { kind: PayloadType::String, ..f0 }
    };
    lemma_number_step(buf, 0, 5, v, f0);
    lemma_binary_step(buf, n, b, f1);
    reveal(fields_from);
}

/// A field of text that is not UTF-8 is refused, and so is one that is longer than what is
/// left of the buffer.
pub proof fn a_text_has_to_be_whole_and_utf8(field: nat, bytes: Seq<u8>, len: nat)
    requires
        field == 2 || field == 3 || field == 4 || field == 6,
        bytes.len() <= u64::MAX,
        len <= u64::MAX,
    ensures
        !valid_utf8(bytes) ==> message_in(bytes_field(field, bytes)) == Err::<
            MessageView,
            ProtoError,
        >(ProtoError::Utf8),
        len > bytes.len() ==> message_in(field_key(field, 2) + varint(len) + bytes) == Err::<
            MessageView,
            ProtoError,
        >(ProtoError::Truncated),
{
    reveal(fields_from);
    assert(((field * 8 + 2) / 8) % 0x1_0000_0000 == field);
    assert((field * 8 + 2) % 8 == 2);
    let whole = bytes_field(field, bytes);
    assert(whole.subrange(0, whole.len() as int) =~= whole);
    lemma_bytes_field(whole, 0, field, bytes);
    let key = field_key(field, 2);
    let buf = key + varint(len) + bytes;
    let j = key.len() as int;
    assert(buf.subrange(0, j) =~= key);
    lemma_varint_at(buf, 0, field * 8 + 2);
    assert(buf.subrange(j, j + varint(len).len()) =~= varint(len));
    lemma_varint_at(buf, j, len);
}

} // verus!
