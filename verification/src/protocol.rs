//! Protocol types and the parsers over caller-supplied buffers: the borrowing
//! parser (returns slices into the buffer), the offset parser (returns byte
//! offsets and lengths into the buffer), the conversions to owned messages,
//! and the message serializers. Every parser is proved against the one parse
//! model in [`crate::wire`], so the borrowing and the offset variant cannot
//! drift apart.

use vstd::bytes::*;
use vstd::prelude::*;
use vstd::slice::*;
use vstd::string::*;
use vstd::utf8::*;

use core::task::Poll;

use crate::wire::{
    byte_event_type, event_type_byte, message_bytes, message_wf, name_bytes, parse_audio,
    parse_event, parse_message, parse_version, EventView, MessageView, ParseStep,
};

verus! {

/// The kind of a timed marker in the stream.
#[derive(Debug, PartialEq, Eq, Structural, Clone, Copy)]
pub enum EventType {
    Word,
    Sentence,
    Range,
    Mark,
}

/// The kind of a non-header message, selected by the leading tag byte.
#[derive(Debug, PartialEq, Eq, Structural, Clone, Copy)]
pub enum ChunkType {
    Event,
    Audio,
}

/// `core::str::Utf8Error`, carried by [`Error::Utf8`]. Opaque to the proofs:
/// the contracts only say which error variant is returned, never which exact
/// decode error is inside.
#[verifier::external_type_specification]
#[verifier::external_body]
pub struct ExUtf8Error(core::str::Utf8Error);

/// Everything that can go wrong while reading or writing a message.
#[derive(Debug, Eq, PartialEq)]
pub enum Error {
    /// The reader does not have enough bytes to complete its read.
    /// The inner value is how many further bytes are needed. Recoverable.
    NotEnoughBytes(usize),
    /// An event type byte outside the values assigned in [`EventType`]. Fatal.
    InvalidEventType(u8),
    /// A chunk tag byte that selects neither audio nor event decoding. Fatal.
    InvalidChunkType(u8),
    /// The writer does not have enough space in the output buffer.
    /// The inner value is how many more bytes are necessary.
    NotEnoughSpace(usize),
    /// Declared text bytes (version or event name) are not valid UTF-8. Fatal.
    Utf8(core::str::Utf8Error),
}

/// A timed marker borrowed from a parse buffer: the name, if any, aliases
/// that buffer.
#[derive(Debug, PartialEq, Clone)]
pub struct Event<'a> {
    pub typ: EventType,
    pub start: u32,
    pub end: u32,
    pub name: Option<&'a str>,
}

/// A timed marker in owned form, independent of any parse buffer.
#[derive(Debug, PartialEq, Clone)]
pub struct EventOwned {
    pub typ: EventType,
    pub start: u32,
    pub end: u32,
    pub name: Option<String>,
}

/// One framed message borrowed from a parse buffer: payload and text fields
/// alias that buffer.
#[derive(Debug, PartialEq, Clone)]
pub enum Message<'a> {
    Version(&'a str),
    Audio(&'a [u8]),
    Event(Event<'a>),
}

/// One framed message in owned form, independent of any parse buffer.
#[derive(Debug, PartialEq, Clone)]
pub enum MessageOwned {
    Version(String),
    Audio(Vec<u8>),
    Event(EventOwned),
}

impl View for Event<'_> {
    type V = EventView;

    open spec fn view(&self) -> EventView {
        EventView {
            typ: self.typ,
            start: self.start,
            end: self.end,
            name: match self.name {
                Some(n) => Some(n@),
                None => None,
            },
        }
    }
}

impl View for EventOwned {
    type V = EventView;

    open spec fn view(&self) -> EventView {
        EventView {
            typ: self.typ,
            start: self.start,
            end: self.end,
            name: match self.name {
                Some(n) => Some(n@),
                None => None,
            },
        }
    }
}

impl View for Message<'_> {
    type V = MessageView;

    open spec fn view(&self) -> MessageView {
        match *self {
            Message::Version(v) => MessageView::Version { version: v@ },
            Message::Audio(s) => MessageView::Audio { samples: s@ },
            Message::Event(e) => MessageView::Event { event: e@ },
        }
    }
}

impl View for MessageOwned {
    type V = MessageView;

    open spec fn view(&self) -> MessageView {
        match *self {
            MessageOwned::Version(ref v) => MessageView::Version { version: v@ },
            MessageOwned::Audio(ref s) => MessageView::Audio { samples: s@ },
            MessageOwned::Event(ref e) => MessageView::Event { event: e@ },
        }
    }
}

/// Relies on `core::str::from_utf8`: it succeeds exactly on byte slices that
/// are valid UTF-8, and the returned string slice consists of exactly the
/// input bytes.
pub assume_specification[ core::str::from_utf8 ](v: &[u8]) -> (r: Result<
    &str,
    core::str::Utf8Error,
>)
    ensures
        r is Ok <==> valid_utf8(v@),
        r matches Ok(s) ==> s.spec_bytes() == v@,
;

/// What a borrowing-parser result must be, given the parse model's verdict on
/// the buffer: the exact success value, or the exact error, with only the
/// payload of a UTF-8 decode error left open.
pub open spec fn read_result_obeys<'a>(
    r: Result<(usize, Message<'a>), Error>,
    step: ParseStep,
) -> bool {
    match step {
        ParseStep::Done { consumed, msg } => {
            &&& r is Ok
            &&& r->Ok_0.0 == consumed
            &&& r->Ok_0.1@ == msg
        },
        ParseStep::NeedMore { needed } => r == Err::<(usize, Message<'a>), Error>(
            Error::NotEnoughBytes(needed as usize),
        ),
        ParseStep::BadChunk { tag } => r == Err::<(usize, Message<'a>), Error>(
            Error::InvalidChunkType(tag),
        ),
        ParseStep::BadEvent { tag } => r == Err::<(usize, Message<'a>), Error>(
            Error::InvalidEventType(tag),
        ),
        ParseStep::BadUtf8 => r matches Err(e) && e is Utf8,
    }
}

/// Decode the leading 4 bytes of `buf` as the stream's version header.
fn read_version<'a>(buf: &'a [u8]) -> (r: Result<(usize, Message<'a>), Error>)
    ensures
        read_result_obeys(r, parse_version(buf@)),
{
    if buf.len() < 4 {
        return Err(Error::NotEnoughBytes(4 - buf.len()));
    }
    match core::str::from_utf8(slice_subrange(buf, 0, 4)) {
        Ok(s) => {
            proof {
                encode_utf8_decode_utf8(s@);
            }
            Ok((4, Message::Version(s)))
        },
        Err(e) => Err(Error::Utf8(e)),
    }
}

/// Decode a chunk tag byte.
fn read_chunk_type(byte: u8) -> (r: Result<ChunkType, Error>)
    ensures
        byte == 1 ==> r == Ok::<ChunkType, Error>(ChunkType::Audio),
        byte == 2 ==> r == Ok::<ChunkType, Error>(ChunkType::Event),
        !(1 <= byte <= 2) ==> r == Err::<ChunkType, Error>(Error::InvalidChunkType(byte)),
{
    match byte {
        1 => Ok(ChunkType::Audio),
        2 => Ok(ChunkType::Event),
        i => Err(Error::InvalidChunkType(i)),
    }
}

/// Decode an event type byte.
fn read_event_type(byte: u8) -> (r: Result<EventType, Error>)
    ensures
        1 <= byte <= 4 ==> r == Ok::<EventType, Error>(byte_event_type(byte)),
        !(1 <= byte <= 4) ==> r == Err::<EventType, Error>(Error::InvalidEventType(byte)),
{
    match byte {
        1 => Ok(EventType::Word),
        2 => Ok(EventType::Sentence),
        3 => Ok(EventType::Range),
        4 => Ok(EventType::Mark),
        i => Err(Error::InvalidEventType(i)),
    }
}

/// Decode an audio message; `buf[0]` is the audio tag.
fn read_message_audio<'a>(buf: &'a [u8]) -> (r: Result<(usize, Message<'a>), Error>)
    requires
        buf@.len() >= 1,
        buf@[0] == 1,
    ensures
        read_result_obeys(r, parse_audio(buf@)),
{
    if buf.len() < 5 {
        return Err(Error::NotEnoughBytes(5 - buf.len()));
    }
    let n = u32_from_le_bytes(slice_subrange(buf, 1, 5)) as usize;
    if buf.len() - 5 < n {
        return Err(Error::NotEnoughBytes(n - (buf.len() - 5)));
    }
    let samples = slice_subrange(buf, 5, 5 + n);
    Ok((5 + n, Message::Audio(samples)))
}

/// Decode an event message; `buf[0]` is the event tag.
fn read_message_event<'a>(buf: &'a [u8]) -> (r: Result<(usize, Message<'a>), Error>)
    requires
        buf@.len() >= 1,
        buf@[0] == 2,
    ensures
        read_result_obeys(r, parse_event(buf@)),
{
    if buf.len() < 2 {
        return Err(Error::NotEnoughBytes(1));
    }
    let typ = match read_event_type(buf[1]) {
        Ok(t) => t,
        Err(e) => {
            return Err(e);
        },
    };
    if buf.len() < 6 {
        return Err(Error::NotEnoughBytes(6 - buf.len()));
    }
    if buf.len() < 10 {
        return Err(Error::NotEnoughBytes(10 - buf.len()));
    }
    if buf.len() < 14 {
        return Err(Error::NotEnoughBytes(14 - buf.len()));
    }
    let start = u32_from_le_bytes(slice_subrange(buf, 2, 6));
    let end = u32_from_le_bytes(slice_subrange(buf, 6, 10));
    let name_len = u32_from_le_bytes(slice_subrange(buf, 10, 14)) as usize;
    if buf.len() - 14 < name_len {
        return Err(Error::NotEnoughBytes(name_len - (buf.len() - 14)));
    }
    let name = if name_len == 0 {
        None
    } else {
        match core::str::from_utf8(slice_subrange(buf, 14, 14 + name_len)) {
            Ok(s) => {
                proof {
                    encode_utf8_decode_utf8(s@);
                }
                Some(s)
            },
            Err(e) => {
                return Err(Error::Utf8(e));
            },
        }
    };
    Ok((14 + name_len, Message::Event(Event { typ, start, end, name })))
}

/// Try to read one [`Message`] from the front of `buf`, borrowing payload and
/// text fields from it. With `header_already_read == false` the mandatory
/// version header is decoded; otherwise the leading tag byte selects audio or
/// event decoding. On success the returned count is how many bytes of `buf`
/// belong to the message.
///
/// # Errors
///
/// - [`Error::NotEnoughBytes`] when `buf` holds a valid prefix of a message
///   but not all of it (recoverable: supply that many more bytes and retry);
/// - [`Error::InvalidChunkType`] or [`Error::InvalidEventType`] on an
///   unassigned tag byte (fatal: the stream cannot be resynchronized);
/// - [`Error::Utf8`] when declared text bytes are not valid UTF-8 (fatal).
pub fn read_message<'a>(buf: &'a [u8], header_already_read: bool) -> (r: Result<
    (usize, Message<'a>),
    Error,
>)
    ensures
        read_result_obeys(r, parse_message(buf@, header_already_read)),
{
    if !header_already_read {
        return read_version(buf);
    }
    if buf.len() == 0 {
        return Err(Error::NotEnoughBytes(1));
    }
    let ct = match read_chunk_type(buf[0]) {
        Ok(ct) => ct,
        Err(e) => {
            return Err(e);
        },
    };
    match ct {
        ChunkType::Audio => read_message_audio(buf),
        ChunkType::Event => read_message_event(buf),
    }
}

/// `core::task::Poll`, the pending/ready shape returned by
/// [`poll_read_message`]. Declared transparently, so the proofs see which
/// variant a value is and what the ready variant carries.
#[verifier::external_type_specification]
#[verifier::reject_recursive_types(T)]
pub struct ExPoll<T>(Poll<T>);

/// Attempt to read one message from `buf`, reshaped for cooperative,
/// non-blocking callers: "not enough bytes yet" becomes [`Poll::Pending`],
/// while success and every fatal error become [`Poll::Ready`] carrying the
/// result that [`read_message`] would return.
///
/// # Errors
///
/// Ready with an error exactly when the buffer holds an unassigned tag byte
/// or text that is not valid UTF-8.
pub fn poll_read_message<'a>(buf: &'a [u8], header_already_read: bool) -> (r: Poll<
    Result<(usize, Message<'a>), Error>,
>)
    ensures
        (r matches Poll::Pending) <==> (parse_message(buf@, header_already_read)
            is NeedMore),
        r matches Poll::Ready(inner) ==> read_result_obeys(
            inner,
            parse_message(buf@, header_already_read),
        ),
{
    match read_message(buf, header_already_read) {
        Ok(happy_data) => Poll::Ready(Ok(happy_data)),
        Err(Error::NotEnoughBytes(_)) => Poll::Pending,
        Err(e) => Poll::Ready(Err(e)),
    }
}

/// A parsed message described by byte offsets and lengths into the original
/// buffer, instead of references into it.
///
/// This is useful when the parsed description must be decoupled from the
/// buffer's lifetime. Mostly, [`read_message`] and [`Message`] are what you
/// want.
#[derive(Debug, Clone, PartialEq)]
pub enum MessageType {
    Version {
        version: [u8; 4],
    },
    Audio {
        /// The index into the parse buffer where the audio payload begins.
        samples_offset: usize,
        /// The length of the slice to take from there to grab the frame.
        samples_len: usize,
    },
    Event {
        name_offset: usize,
        typ: EventType,
        start: u32,
        end: u32,
        name_len: usize,
    },
}

/// What it means for a [`MessageType`] to describe the abstract message `m`:
/// the carried fields equal `m`'s, and the offsets point at exactly the bytes
/// that hold `m`'s payload (audio at 5, event name at 14, per the layout).
pub open spec fn message_type_describes(mt: MessageType, m: MessageView) -> bool {
    match (mt, m) {
        (MessageType::Version { version }, MessageView::Version { version: v }) => version@
            == encode_utf8(v),
        (
            MessageType::Audio { samples_offset, samples_len },
            MessageView::Audio { samples },
        ) => samples_offset == 5 && samples_len == samples.len(),
        (
            MessageType::Event { name_offset, typ, start, end, name_len },
            MessageView::Event { event },
        ) => {
            &&& name_offset == 14
            &&& typ == event.typ
            &&& start == event.start
            &&& end == event.end
            &&& name_len == name_bytes(event.name).len()
        },
        _ => false,
    }
}

/// What an offset-parser result must be, given the parse model's verdict on
/// the buffer: it consumes the same bytes and fails in the same ways as the
/// borrowing parser, but reports the message through offsets.
pub open spec fn type_result_obeys(r: Result<(usize, MessageType), Error>, step: ParseStep) -> bool {
    match step {
        ParseStep::Done { consumed, msg } => {
            &&& r is Ok
            &&& r->Ok_0.0 == consumed
            &&& message_type_describes(r->Ok_0.1, msg)
        },
        ParseStep::NeedMore { needed } => r == Err::<(usize, MessageType), Error>(
            Error::NotEnoughBytes(needed as usize),
        ),
        ParseStep::BadChunk { tag } => r == Err::<(usize, MessageType), Error>(
            Error::InvalidChunkType(tag),
        ),
        ParseStep::BadEvent { tag } => r == Err::<(usize, MessageType), Error>(
            Error::InvalidEventType(tag),
        ),
        ParseStep::BadUtf8 => r matches Err(e) && e is Utf8,
    }
}

/// Decode the version header as its 4 raw bytes.
fn read_version_type(buf: &[u8]) -> (r: Result<(usize, MessageType), Error>)
    ensures
        type_result_obeys(r, parse_version(buf@)),
{
    if buf.len() < 4 {
        return Err(Error::NotEnoughBytes(4 - buf.len()));
    }
    match core::str::from_utf8(slice_subrange(buf, 0, 4)) {
        Ok(s) => {
            proof {
                decode_utf8_encode_utf8(buf@.subrange(0, 4));
            }
            let version: [u8; 4] = [buf[0], buf[1], buf[2], buf[3]];
            proof {
                assert(version@ =~= buf@.subrange(0, 4));
            }
            Ok((4, MessageType::Version { version }))
        },
        Err(e) => Err(Error::Utf8(e)),
    }
}

/// Try to read one message from the front of `buf`, reporting payload
/// locations as offsets and lengths into `buf` instead of borrowing from it.
/// It decodes exactly as [`read_message`] does, consumes the same byte
/// counts, and fails exactly when it fails: in particular, success is never
/// reported while fewer bytes are available than the message needs.
///
/// # Errors
///
/// As for [`read_message`].
pub fn read_message_type(buf: &[u8], header_already_read: bool) -> (r: Result<
    (usize, MessageType),
    Error,
>)
    ensures
        type_result_obeys(r, parse_message(buf@, header_already_read)),
{
    if !header_already_read {
        return read_version_type(buf);
    }
    if buf.len() == 0 {
        return Err(Error::NotEnoughBytes(1));
    }
    let ct = match read_chunk_type(buf[0]) {
        Ok(ct) => ct,
        Err(e) => {
            return Err(e);
        },
    };
    match ct {
        ChunkType::Audio => {
            if buf.len() < 5 {
                return Err(Error::NotEnoughBytes(5 - buf.len()));
            }
            let chunk_size = u32_from_le_bytes(slice_subrange(buf, 1, 5)) as usize;
            if buf.len() - 5 < chunk_size {
                return Err(Error::NotEnoughBytes(chunk_size - (buf.len() - 5)));
            }
            Ok((5 + chunk_size, MessageType::Audio { samples_offset: 5, samples_len: chunk_size }))
        },
        ChunkType::Event => {
            if buf.len() < 2 {
                return Err(Error::NotEnoughBytes(1));
            }
            let typ = match read_event_type(buf[1]) {
                Ok(t) => t,
                Err(e) => {
                    return Err(e);
                },
            };
            if buf.len() < 6 {
                return Err(Error::NotEnoughBytes(6 - buf.len()));
            }
            if buf.len() < 10 {
                return Err(Error::NotEnoughBytes(10 - buf.len()));
            }
            if buf.len() < 14 {
                return Err(Error::NotEnoughBytes(14 - buf.len()));
            }
            let start = u32_from_le_bytes(slice_subrange(buf, 2, 6));
            let end = u32_from_le_bytes(slice_subrange(buf, 6, 10));
            let name_len = u32_from_le_bytes(slice_subrange(buf, 10, 14)) as usize;
            if buf.len() - 14 < name_len {
                return Err(Error::NotEnoughBytes(name_len - (buf.len() - 14)));
            }
            if name_len > 0 {
                match core::str::from_utf8(slice_subrange(buf, 14, 14 + name_len)) {
                    Ok(_) => {
                        proof {
                            decode_utf8_encode_utf8(buf@.subrange(14, 14 + name_len as int));
                        }
                    },
                    Err(e) => {
                        return Err(Error::Utf8(e));
                    },
                }
            }
            Ok(
                (
                    14 + name_len,
                    MessageType::Event { name_offset: 14, typ, start, end, name_len },
                ),
            )
        },
    }
}

impl EventType {
    /// The event kind as its single wire byte.
    fn to_ne_bytes(self) -> (r: [u8; 1])
        ensures
            r@ == seq![event_type_byte(self)],
    {
        let r: [u8; 1] = match self {
            EventType::Word => [1],
            EventType::Sentence => [2],
            EventType::Range => [3],
            EventType::Mark => [4],
        };
        proof {
            assert(r@ =~= seq![event_type_byte(self)]);
        }
        r
    }
}

impl Message<'_> {
    /// Serialize the message into a fresh byte vector, in the same binary
    /// format the readers expect.
    pub fn to_bytes(&self) -> (r: Vec<u8>)
        requires
            message_wf(self@),
        ensures
            r@ == message_bytes(self@),
    {
        match self {
            Message::Version(version) => {
                let mut buf: Vec<u8> = Vec::with_capacity(4);
                buf.extend_from_slice(version.as_bytes());
                buf
            },
            Message::Audio(samples) => {
                let mut buf: Vec<u8> = Vec::with_capacity(1 + 4 + samples.len());
                buf.push(1);  // the audio chunk tag
                let len_bytes = u32_to_le_bytes(samples.len() as u32);
                buf.extend_from_slice(len_bytes.as_slice());
                buf.extend_from_slice(samples);
                proof {
                    assert(buf@ =~= message_bytes(self@));
                }
                buf
            },
            Message::Event(ev) => {
                let name_len: u32 = match ev.name {
                    Some(n) => n.len() as u32,
                    None => 0,
                };
                let mut buf: Vec<u8> = Vec::with_capacity(14 + name_len as usize);
                buf.push(2);  // the event chunk tag
                let typ_bytes = ev.typ.to_ne_bytes();
                buf.extend_from_slice(typ_bytes.as_slice());
                let start_bytes = u32_to_le_bytes(ev.start);
                buf.extend_from_slice(start_bytes.as_slice());
                let end_bytes = u32_to_le_bytes(ev.end);
                buf.extend_from_slice(end_bytes.as_slice());
                let name_len_bytes = u32_to_le_bytes(name_len);
                buf.extend_from_slice(name_len_bytes.as_slice());
                match ev.name {
                    Some(n) => buf.extend_from_slice(n.as_bytes()),
                    None => {},
                }
                proof {
                    assert(buf@ =~= message_bytes(self@));
                }
                buf
            },
        }
    }

    /// Copy the message into a [`MessageOwned`], independent of the buffer it
    /// was parsed from. Total: every borrowed message converts.
    pub fn into_owned(self) -> (r: MessageOwned)
        ensures
            r@ == self@,
    {
        match self {
            Message::Version(s) => MessageOwned::Version(s.to_owned()),
            Message::Audio(frame) => MessageOwned::Audio(slice_to_vec(frame)),
            Message::Event(ev) => MessageOwned::Event(ev.into_owned()),
        }
    }
}

impl Event<'_> {
    /// Copy the event into an [`EventOwned`], independent of the buffer it
    /// was parsed from. Total: every borrowed event converts.
    pub fn into_owned(self) -> (r: EventOwned)
        ensures
            r@ == self@,
    {
        EventOwned {
            typ: self.typ,
            start: self.start,
            end: self.end,
            name: match self.name {
                Some(n) => Some(n.to_owned()),
                None => None,
            },
        }
    }
}

/// Copy all of `src` into `dst` starting at index `at`, leaving every other
/// byte of `dst` unchanged.
fn copy_into(dst: &mut [u8], at: usize, src: &[u8])
    requires
        at + src@.len() <= old(dst)@.len(),
    ensures
        final(dst)@.len() == old(dst)@.len(),
        forall|j: int| 0 <= j < at ==> final(dst)@[j] == old(dst)@[j],
        forall|j: int| at <= j < at + src@.len() ==> final(dst)@[j] == src@[j - at],
        forall|j: int|
            at + src@.len() <= j < old(dst)@.len() ==> final(dst)@[j] == old(dst)@[j],
{
    let dst_len: usize = dst.len();
    let mut i: usize = 0;
    while i < src.len()
        invariant
            i <= src@.len(),
            at + src@.len() <= dst_len,
            dst@.len() == dst_len,
            dst@.len() == old(dst)@.len(),
            forall|j: int| 0 <= j < at ==> dst@[j] == old(dst)@[j],
            forall|j: int| at <= j < at + i ==> dst@[j] == src@[j - at],
            forall|j: int| at + src@.len() <= j < dst@.len() ==> dst@[j] == old(dst)@[j],
        decreases src@.len() - i,
    {
        dst[at + i] = src[i];
        i += 1;
    }
}

/// Serialize one message into the front of `buf`, returning how many bytes
/// of `buf` it filled. Bytes past the message are left unchanged, and on
/// failure `buf` is not touched at all.
///
/// # Errors
///
/// [`Error::NotEnoughSpace`] when `buf` is shorter than the serialized
/// message; the inner value is how many more bytes are necessary.
pub fn write_message(mt: &Message, buf: &mut [u8]) -> (r: Result<usize, Error>)
    requires
        message_wf(mt@),
    ensures
        r is Ok <==> message_bytes(mt@).len() <= old(buf)@.len(),
        r matches Ok(n) ==> n == message_bytes(mt@).len() && final(buf)@ == message_bytes(mt@)
            + old(buf)@.subrange(message_bytes(mt@).len() as int, old(buf)@.len() as int),
        r matches Err(e) ==> final(buf)@ == old(buf)@ && e == Error::NotEnoughSpace(
            (message_bytes(mt@).len() - old(buf)@.len()) as usize,
        ),
{
    proof {
        lemma_auto_spec_u32_to_from_le_bytes();
    }
    match mt {
        Message::Version(version) => {
            if buf.len() < 4 {
                return Err(Error::NotEnoughSpace(4 - buf.len()));
            }
            copy_into(buf, 0, version.as_bytes());
            proof {
                assert(buf@ =~= message_bytes(mt@) + old(buf)@.subrange(
                    4,
                    old(buf)@.len() as int,
                ));
            }
            Ok(4)
        },
        Message::Audio(samples) => {
            if buf.len() < 5 + samples.len() {
                return Err(Error::NotEnoughSpace((5 + samples.len()) - buf.len()));
            }
            buf[0] = 1;
            let len_bytes = u32_to_le_bytes(samples.len() as u32);
            copy_into(buf, 1, len_bytes.as_slice());
            copy_into(buf, 5, samples);
            proof {
                assert(buf@ =~= message_bytes(mt@) + old(buf)@.subrange(
                    message_bytes(mt@).len() as int,
                    old(buf)@.len() as int,
                ));
            }
            Ok(5 + samples.len())
        },
        Message::Event(ev) => {
            let name_len: usize = match ev.name {
                Some(n) => n.len(),
                None => 0,
            };
            if buf.len() < 14 + name_len {
                return Err(Error::NotEnoughSpace((14 + name_len) - buf.len()));
            }
            buf[0] = 2;
            let typ_bytes = ev.typ.to_ne_bytes();
            copy_into(buf, 1, typ_bytes.as_slice());
            let start_bytes = u32_to_le_bytes(ev.start);
            copy_into(buf, 2, start_bytes.as_slice());
            let end_bytes = u32_to_le_bytes(ev.end);
            copy_into(buf, 6, end_bytes.as_slice());
            let name_len_bytes = u32_to_le_bytes(name_len as u32);
            copy_into(buf, 10, name_len_bytes.as_slice());
            match ev.name {
                Some(name) => copy_into(buf, 14, name.as_bytes()),
                None => {},
            }
            proof {
                let e = ev@;
                let mb = message_bytes(mt@);
                crate::wire::lemma_event_bytes_parts(e);
                assert(name_bytes(e.name).len() == name_len);
                let tail = old(buf)@.subrange(mb.len() as int, old(buf)@.len() as int);
                assert forall|j: int| 0 <= j < buf@.len() implies buf@[j] == (mb + tail)[j] by {
                    if j < mb.len() {
                        assert((mb + tail)[j] == mb[j]);
                        if 2 <= j < 6 {
                            assert(mb[j] == mb.subrange(2, 6)[j - 2]);
                            assert(buf@[j] == spec_u32_to_le_bytes(e.start)[j - 2]);
                        } else if 6 <= j < 10 {
                            assert(mb[j] == mb.subrange(6, 10)[j - 6]);
                            assert(buf@[j] == spec_u32_to_le_bytes(e.end)[j - 6]);
                        } else if 10 <= j < 14 {
                            assert(mb[j] == mb.subrange(10, 14)[j - 10]);
                            assert(buf@[j] == spec_u32_to_le_bytes(name_len as u32)[j - 10]);
                        } else if 14 <= j {
                            assert(mb[j] == mb.subrange(14, mb.len() as int)[j - 14]);
                            assert(buf@[j] == name_bytes(e.name)[j - 14]);
                        }
                    } else {
                        assert((mb + tail)[j] == tail[j - mb.len()]);
                        assert(tail[j - mb.len()] == old(buf)@[j]);
                        assert(buf@[j] == old(buf)@[j]);
                    }
                }
                assert(buf@ =~= mb + tail);
            }
            Ok(14 + name_len)
        },
    }
}

} // verus!
