//! The wire format: the byte-level layout of each message kind, as spec
//! functions, together with the parse model and the laws relating the two.
//!
//! Layout (all integers little-endian):
//! - `Version` (first message of a stream, no leading tag): 4 bytes, UTF-8.
//! - `Audio`: tag `1` (1 byte), length (4 bytes, `u32`), then that many
//!   payload bytes.
//! - `Event`: tag `2` (1 byte), event type (1 byte, `1..=4`), start (4 bytes),
//!   end (4 bytes), name length (4 bytes), then that many UTF-8 name bytes.

use vstd::bytes::*;
use vstd::prelude::*;
use vstd::utf8::*;

use crate::protocol::EventType;

verus! {

/// Abstract form of a timed event marker: what both the borrowed and the
/// owned event type denote.
pub struct EventView {
    pub typ: EventType,
    pub start: u32,
    pub end: u32,
    pub name: Option<Seq<char>>,
}

/// Abstract form of one framed message: what both the borrowed and the owned
/// message types denote.
pub enum MessageView {
    Version { version: Seq<char> },
    Audio { samples: Seq<u8> },
    Event { event: EventView },
}

/// The tag byte that encodes an event kind on the wire.
pub open spec fn event_type_byte(t: EventType) -> u8 {
    match t {
        EventType::Word => 1,
        EventType::Sentence => 2,
        EventType::Range => 3,
        EventType::Mark => 4,
    }
}

/// The event kind encoded by a tag byte in `1..=4`.
pub open spec fn byte_event_type(b: u8) -> EventType
    recommends
        1 <= b <= 4,
{
    if b == 1 {
        EventType::Word
    } else if b == 2 {
        EventType::Sentence
    } else if b == 3 {
        EventType::Range
    } else {
        EventType::Mark
    }
}

/// The bytes of an optional event name: the UTF-8 encoding of the name, or
/// nothing when the name is absent.
pub open spec fn name_bytes(name: Option<Seq<char>>) -> Seq<u8> {
    match name {
        Some(n) => encode_utf8(n),
        None => Seq::empty(),
    }
}

/// The serialization of an event message, tag byte included.
pub open spec fn event_bytes(e: EventView) -> Seq<u8> {
    seq![2u8, event_type_byte(e.typ)] + spec_u32_to_le_bytes(e.start) + spec_u32_to_le_bytes(e.end)
        + spec_u32_to_le_bytes(name_bytes(e.name).len() as u32) + name_bytes(e.name)
}

/// The serialization of one message.
pub open spec fn message_bytes(m: MessageView) -> Seq<u8> {
    match m {
        MessageView::Version { version } => encode_utf8(version),
        MessageView::Audio { samples } => seq![1u8] + spec_u32_to_le_bytes(
            samples.len() as u32,
        ) + samples,
        MessageView::Event { event } => event_bytes(event),
    }
}

/// Well-formedness of an event per the data model: an absent name is `None`,
/// never an empty string, and a present name fits the 4-byte length field.
pub open spec fn event_wf(e: EventView) -> bool {
    match e.name {
        Some(n) => 0 < encode_utf8(n).len() <= u32::MAX,
        None => true,
    }
}

/// Well-formedness of a message per the data model: the version header is
/// exactly 4 bytes, and every length field fits its wire width and the
/// machine's address space.
pub open spec fn message_wf(m: MessageView) -> bool {
    match m {
        MessageView::Version { version } => encode_utf8(version).len() == 4,
        MessageView::Audio { samples } => samples.len() <= u32::MAX && samples.len() + 5
            <= usize::MAX,
        MessageView::Event { event } => event_wf(event) && name_bytes(event.name).len() + 14
            <= usize::MAX,
    }
}

/// The outcome of attempting to parse one message from the front of a buffer.
pub enum ParseStep {
    /// The buffer holds a valid prefix of a message; `needed` more bytes are
    /// required before the message can be completed. Recoverable.
    NeedMore { needed: int },
    /// The leading tag byte is neither the audio nor the event tag. Fatal.
    BadChunk { tag: u8 },
    /// The event type byte is outside `1..=4`. Fatal.
    BadEvent { tag: u8 },
    /// Declared text bytes (version or event name) are not valid UTF-8. Fatal.
    BadUtf8,
    /// A complete message: `consumed` bytes belong to it, and `msg` is its
    /// abstract form.
    Done { consumed: int, msg: MessageView },
}

/// Parse the mandatory 4-byte version header from the front of `b`.
pub open spec fn parse_version(b: Seq<u8>) -> ParseStep {
    if b.len() < 4 {
        ParseStep::NeedMore { needed: 4 - b.len() }
    } else if valid_utf8(b.subrange(0, 4)) {
        ParseStep::Done {
            consumed: 4,
            msg: MessageView::Version { version: decode_utf8(b.subrange(0, 4)) },
        }
    } else {
        ParseStep::BadUtf8
    }
}

/// Parse an audio message from the front of `b`; `b[0]` is the audio tag.
pub open spec fn parse_audio(b: Seq<u8>) -> ParseStep
    recommends
        b.len() >= 1,
        b[0] == 1,
{
    if b.len() < 5 {
        ParseStep::NeedMore { needed: 5 - b.len() }
    } else {
        let n = spec_u32_from_le_bytes(b.subrange(1, 5)) as int;
        if b.len() < 5 + n {
            ParseStep::NeedMore { needed: 5 + n - b.len() }
        } else {
            ParseStep::Done {
                consumed: 5 + n,
                msg: MessageView::Audio { samples: b.subrange(5, 5 + n) },
            }
        }
    }
}

/// Parse an event message from the front of `b`; `b[0]` is the event tag.
pub open spec fn parse_event(b: Seq<u8>) -> ParseStep
    recommends
        b.len() >= 1,
        b[0] == 2,
{
    if b.len() < 2 {
        ParseStep::NeedMore { needed: 1 }
    } else if !(1 <= b[1] <= 4) {
        ParseStep::BadEvent { tag: b[1] }
    } else if b.len() < 6 {
        ParseStep::NeedMore { needed: 6 - b.len() }
    } else if b.len() < 10 {
        ParseStep::NeedMore { needed: 10 - b.len() }
    } else if b.len() < 14 {
        ParseStep::NeedMore { needed: 14 - b.len() }
    } else {
        let n = spec_u32_from_le_bytes(b.subrange(10, 14)) as int;
        if b.len() < 14 + n {
            ParseStep::NeedMore { needed: 14 + n - b.len() }
        } else if n == 0 {
            ParseStep::Done {
                consumed: 14,
                msg: MessageView::Event {
                    event: EventView {
                        typ: byte_event_type(b[1]),
                        start: spec_u32_from_le_bytes(b.subrange(2, 6)),
                        end: spec_u32_from_le_bytes(b.subrange(6, 10)),
                        name: None,
                    },
                },
            }
        } else if valid_utf8(b.subrange(14, 14 + n)) {
            ParseStep::Done {
                consumed: 14 + n,
                msg: MessageView::Event {
                    event: EventView {
                        typ: byte_event_type(b[1]),
                        start: spec_u32_from_le_bytes(b.subrange(2, 6)),
                        end: spec_u32_from_le_bytes(b.subrange(6, 10)),
                        name: Some(decode_utf8(b.subrange(14, 14 + n))),
                    },
                },
            }
        } else {
            ParseStep::BadUtf8
        }
    }
}

/// Parse one message from the front of `b`. When the stream header has not
/// been read yet, the version header is forced; otherwise the leading tag
/// byte selects audio or event decoding.
pub open spec fn parse_message(b: Seq<u8>, header_already_read: bool) -> ParseStep {
    if !header_already_read {
        parse_version(b)
    } else if b.len() == 0 {
        ParseStep::NeedMore { needed: 1 }
    } else if b[0] == 1 {
        parse_audio(b)
    } else if b[0] == 2 {
        parse_event(b)
    } else {
        ParseStep::BadChunk { tag: b[0] }
    }
}

/// Law: a parse never claims more bytes than the buffer holds, always makes
/// strictly positive progress on success, and always asks for a strictly
/// positive number of further bytes when the buffer is short. Together with
/// the absence of panics in the parsers this makes a parse-and-advance loop
/// over any byte sequence safe and terminating.
pub proof fn lemma_parse_progress(b: Seq<u8>, header_already_read: bool)
    ensures
        parse_message(b, header_already_read) matches ParseStep::Done { consumed, .. } ==> 0
            < consumed <= b.len(),
        parse_message(b, header_already_read) matches ParseStep::NeedMore { needed } ==> needed
            > 0,
{
}

/// The serialization of a sequence of messages, in order.
pub open spec fn messages_bytes(ms: Seq<MessageView>) -> Seq<u8>
    decreases ms.len(),
{
    if ms.len() == 0 {
        Seq::empty()
    } else {
        message_bytes(ms[0]) + messages_bytes(ms.drop_first())
    }
}

/// Serializing one more message appends its bytes to the stream.
pub proof fn lemma_messages_bytes_push(ms: Seq<MessageView>, m: MessageView)
    ensures
        messages_bytes(ms.push(m)) == messages_bytes(ms) + message_bytes(m),
    decreases ms.len(),
{
    reveal_with_fuel(messages_bytes, 3);
    if ms.len() == 0 {
        assert(ms.push(m).drop_first() =~= Seq::<MessageView>::empty());
        assert(ms.push(m)[0] == m);
        assert(message_bytes(m) + Seq::<u8>::empty() =~= message_bytes(m));
        assert(messages_bytes(ms) + message_bytes(m) =~= message_bytes(m));
    } else {
        assert(ms.push(m).drop_first() =~= ms.drop_first().push(m));
        lemma_messages_bytes_push(ms.drop_first(), m);
        assert(ms.push(m)[0] == ms[0]);
        assert((message_bytes(ms[0]) + messages_bytes(ms.drop_first())) + message_bytes(m)
            =~= message_bytes(ms[0]) + (messages_bytes(ms.drop_first()) + message_bytes(m)));
    }
}

/// Where each field of an event lies within its serialization.
pub proof fn lemma_event_bytes_parts(e: EventView)
    ensures
        event_bytes(e).len() == 14 + name_bytes(e.name).len(),
        event_bytes(e)[0] == 2,
        event_bytes(e)[1] == event_type_byte(e.typ),
        event_bytes(e).subrange(2, 6) == spec_u32_to_le_bytes(e.start),
        event_bytes(e).subrange(6, 10) == spec_u32_to_le_bytes(e.end),
        event_bytes(e).subrange(10, 14) == spec_u32_to_le_bytes(name_bytes(e.name).len() as u32),
        event_bytes(e).subrange(14, event_bytes(e).len() as int) == name_bytes(e.name),
{
    lemma_auto_spec_u32_to_from_le_bytes();
    assert(event_bytes(e).subrange(2, 6) =~= spec_u32_to_le_bytes(e.start));
    assert(event_bytes(e).subrange(6, 10) =~= spec_u32_to_le_bytes(e.end));
    assert(event_bytes(e).subrange(10, 14) =~= spec_u32_to_le_bytes(
        name_bytes(e.name).len() as u32,
    ));
    assert(event_bytes(e).subrange(14, event_bytes(e).len() as int) =~= name_bytes(e.name));
}

/// Law (round-trip, header): parsing the serialization of a 4-byte version
/// header, with any trailing bytes, yields that header back and consumes
/// exactly its 4 bytes.
pub proof fn lemma_version_round_trip(version: Seq<char>, rest: Seq<u8>)
    requires
        encode_utf8(version).len() == 4,
    ensures
        parse_message(encode_utf8(version) + rest, false) == (ParseStep::Done {
            consumed: 4int,
            msg: MessageView::Version { version },
        }),
{
    let b = encode_utf8(version) + rest;
    assert(b.subrange(0, 4) =~= encode_utf8(version));
    encode_utf8_valid_utf8(version);
    encode_utf8_decode_utf8(version);
}

/// Law (round-trip, body): parsing the serialization of a well-formed audio
/// or event message, with any trailing bytes, yields that message back and
/// consumes exactly its serialization.
pub proof fn lemma_message_round_trip(m: MessageView, rest: Seq<u8>)
    requires
        message_wf(m),
        !(m is Version),
    ensures
        parse_message(message_bytes(m) + rest, true) == (ParseStep::Done {
            consumed: message_bytes(m).len() as int,
            msg: m,
        }),
{
    let b = message_bytes(m) + rest;
    lemma_auto_spec_u32_to_from_le_bytes();
    match m {
        MessageView::Audio { samples } => {
            let n = samples.len() as int;
            assert(b[0] == 1);
            assert(b.subrange(1, 5) =~= spec_u32_to_le_bytes(samples.len() as u32));
            assert(b.subrange(5, 5 + n) =~= samples);
        },
        MessageView::Event { event } => {
            let nb = name_bytes(event.name);
            let n = nb.len() as int;
            assert(b[0] == 2);
            assert(b[1] == event_type_byte(event.typ));
            assert(b.subrange(2, 6) =~= spec_u32_to_le_bytes(event.start));
            assert(b.subrange(6, 10) =~= spec_u32_to_le_bytes(event.end));
            assert(b.subrange(10, 14) =~= spec_u32_to_le_bytes(nb.len() as u32));
            assert(b.subrange(14, 14 + n) =~= nb);
            match event.name {
                Some(name) => {
                    encode_utf8_valid_utf8(name);
                    encode_utf8_decode_utf8(name);
                },
                None => {},
            }
        },
        MessageView::Version { .. } => {},
    }
}

/// Law (round-trip, stream): a stream consisting of a 4-byte version header
/// followed by one well-formed audio or event message reads back as exactly
/// that header and then that message, each consuming its own bytes.
pub proof fn lemma_stream_round_trip(version: Seq<char>, m: MessageView)
    requires
        encode_utf8(version).len() == 4,
        message_wf(m),
        !(m is Version),
    ensures
        parse_message(encode_utf8(version) + message_bytes(m), false) == (ParseStep::Done {
            consumed: 4int,
            msg: MessageView::Version { version },
        }),
        parse_message((encode_utf8(version) + message_bytes(m)).skip(4), true) == (ParseStep::Done {
            consumed: message_bytes(m).len() as int,
            msg: m,
        }),
{
    lemma_version_round_trip(version, message_bytes(m));
    lemma_message_round_trip(m, Seq::empty());
    assert((encode_utf8(version) + message_bytes(m)).skip(4) =~= message_bytes(m) + Seq::empty());
}

/// Law (name emptiness, serialize direction): an event without a name
/// serializes to a zero name-length field and no name bytes, 14 bytes in all;
/// a well-formed event with a name serializes to a nonzero name-length field.
pub proof fn lemma_name_absent_serializes_empty(e: EventView)
    requires
        event_wf(e),
    ensures
        e.name is None ==> event_bytes(e).len() == 14 && spec_u32_from_le_bytes(
            event_bytes(e).subrange(10, 14),
        ) == 0,
        e.name is Some ==> spec_u32_from_le_bytes(event_bytes(e).subrange(10, 14)) != 0,
{
    lemma_auto_spec_u32_to_from_le_bytes();
    assert(event_bytes(e).subrange(10, 14) =~= spec_u32_to_le_bytes(
        name_bytes(e.name).len() as u32,
    ));
}

/// Law (name emptiness, parse direction): a parsed event has an absent name
/// exactly when the name-length field of its encoding is zero.
pub proof fn lemma_zero_name_len_parses_none(b: Seq<u8>)
    ensures
        parse_message(b, true) matches ParseStep::Done {
            msg: MessageView::Event { event },
            ..
        } ==> (event.name is None <==> spec_u32_from_le_bytes(b.subrange(10, 14)) == 0),
{
}

} // verus!
