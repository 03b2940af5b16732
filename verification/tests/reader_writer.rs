//! Tests for the incremental reader and the sink-backed writer.

use spiel::{
    Error, Event, EventOwned, EventType, Message, MessageOwned, Reader, Writer,
};

#[test]
fn message_roundtrip_audio() {
    let msg = Message::Audio(&[1, 2, 3, 250][..]);
    let mut writer = Writer::new(Vec::new());
    writer.write_message(&msg).expect("a Vec sink never fails");
    let mut reader = Reader::from(writer.into_inner());
    let header = reader.try_read().expect("the auto-written header reads back");
    assert_eq!(header, Message::Version("0.01").into_owned());
    let decoded = reader.try_read().expect("the message reads back");
    assert_eq!(msg.into_owned(), decoded);
}

#[test]
fn message_roundtrip_event_with_name() {
    let msg = Message::Event(Event {
        typ: EventType::Mark,
        start: 7,
        end: 1_000_000,
        name: Some("paragraph one — début"),
    });
    let mut writer = Writer::new(Vec::new());
    writer.write_message(&msg).expect("a Vec sink never fails");
    let mut reader = Reader::from(writer.into_inner());
    let header = reader.try_read().expect("the auto-written header reads back");
    assert_eq!(header, MessageOwned::Version("0.01".to_string()));
    let decoded = reader.try_read().expect("the message reads back");
    assert_eq!(msg.into_owned(), decoded);
}

#[test]
fn message_roundtrip_event_without_name() {
    let msg = Message::Event(Event {
        typ: EventType::Sentence,
        start: 0,
        end: 0,
        name: None,
    });
    let mut writer = Writer::new(Vec::new());
    writer.write_message(&msg).expect("a Vec sink never fails");
    let mut reader = Reader::from(writer.into_inner());
    reader.try_read().expect("the auto-written header reads back");
    let decoded = reader.try_read().expect("the message reads back");
    let MessageOwned::Event(event) = decoded else {
        panic!("expected an event back, got {decoded:?}");
    };
    // An absent name encodes as a zero length and decodes back to None.
    assert_eq!(
        event,
        EventOwned {
            typ: EventType::Sentence,
            start: 0,
            end: 0,
            name: None,
        }
    );
}

#[test]
fn write_messages_preserves_order() {
    let messages = [
        Message::Audio(&[5, 6][..]),
        Message::Event(Event {
            typ: EventType::Word,
            start: 0,
            end: 4,
            name: None,
        }),
        Message::Audio(&[7][..]),
    ];
    let mut writer = Writer::new(Vec::new());
    writer.write_messages(&messages[..]).expect("a Vec sink never fails");
    writer.flush().expect("flushing a Vec never fails");
    let mut reader = Reader::from(writer.into_inner());
    assert_eq!(
        reader.try_read(),
        Ok(MessageOwned::Version("0.01".to_string()))
    );
    for msg in messages {
        assert_eq!(reader.try_read(), Ok(msg.into_owned()));
    }
    // The stream is fully consumed; one more tag byte would be needed.
    assert_eq!(reader.try_read(), Err(Error::NotEnoughBytes(1)));
}

#[test]
fn header_is_written_once() {
    let mut writer = Writer::new(Vec::new());
    writer.write_message(&Message::Audio(&[1][..])).expect("write");
    writer.write_message(&Message::Audio(&[2][..])).expect("write");
    let bytes = writer.into_inner();
    assert_eq!(
        bytes,
        vec![b'0', b'.', b'0', b'1', 1, 1, 0, 0, 0, 1, 1, 1, 0, 0, 0, 2]
    );
}

#[test]
fn reader_assembles_partial_pushes() {
    let mut reader = Reader::default();
    assert_eq!(reader.try_read(), Err(Error::NotEnoughBytes(4)));
    reader.push(b"0.");
    assert_eq!(reader.try_read(), Err(Error::NotEnoughBytes(2)));
    reader.push(b"01");
    assert_eq!(
        reader.try_read(),
        Ok(MessageOwned::Version("0.01".to_string()))
    );
    // An audio frame arriving one byte at a time parses exactly once the
    // last byte is in.
    let frame = [1u8, 2, 0, 0, 0, 40, 41];
    for byte in &frame[..frame.len() - 1] {
        reader.push(&[*byte]);
        assert!(matches!(reader.try_read(), Err(Error::NotEnoughBytes(_))));
    }
    reader.push(&[frame[frame.len() - 1]]);
    assert_eq!(reader.try_read(), Ok(MessageOwned::Audio(vec![40, 41])));
}

#[test]
fn try_read_is_idempotent_on_missing_bytes() {
    let mut reader = Reader::from(vec![2u8, 1]);
    let mut header_reader = Reader::default();
    header_reader.push(b"0.01");
    assert_eq!(
        header_reader.try_read(),
        Ok(MessageOwned::Version("0.01".to_string()))
    );
    // The header is done; the truncated event stays truncated across calls.
    header_reader.push(&[2, 1]);
    let first = header_reader.try_read();
    let second = header_reader.try_read();
    assert_eq!(first, Err(Error::NotEnoughBytes(4)));
    assert_eq!(first, second);
    // Supplying the missing bytes completes the read.
    header_reader.push(&[0, 0, 0, 0, 4, 0, 0, 0, 0, 0, 0, 0]);
    assert_eq!(
        header_reader.try_read(),
        Ok(MessageOwned::Event(EventOwned {
            typ: EventType::Word,
            start: 0,
            end: 4,
            name: None,
        }))
    );
    // A reader that has not seen its header reports the header's count.
    assert_eq!(reader.try_read(), Err(Error::NotEnoughBytes(2)));
    assert_eq!(reader.try_read(), Err(Error::NotEnoughBytes(2)));
}

#[test]
fn reader_stops_on_fatal_errors() {
    let mut reader = Reader::default();
    reader.push(b"0.01");
    reader.try_read().expect("header reads back");
    reader.push(&[9, 1, 2]);
    assert_eq!(reader.try_read(), Err(Error::InvalidChunkType(9)));
    // The buffer is kept as-is: the same fatal error surfaces again.
    assert_eq!(reader.try_read(), Err(Error::InvalidChunkType(9)));
}

#[test]
fn reader_from_source_reads_everything() {
    let msg = Message::Event(Event {
        typ: EventType::Range,
        start: 3,
        end: 9,
        name: Some("chunk"),
    });
    let mut writer = Writer::new(Vec::new());
    writer.write_message(&msg).expect("a Vec sink never fails");
    let stream = writer.into_inner();
    // A byte slice is a `std::io::Read` source.
    let mut reader = Reader::from_source(&stream[..]).expect("reading a slice never fails");
    assert_eq!(
        reader.try_read(),
        Ok(MessageOwned::Version("0.01".to_string()))
    );
    assert_eq!(reader.try_read(), Ok(msg.into_owned()));
}

#[test]
fn owned_conversion_is_total_and_faithful() {
    let event = Event {
        typ: EventType::Word,
        start: 1,
        end: 2,
        name: Some("name"),
    };
    assert_eq!(
        event.clone().into_owned(),
        EventOwned {
            typ: EventType::Word,
            start: 1,
            end: 2,
            name: Some("name".to_string()),
        }
    );
    assert_eq!(
        Message::Version("abcd").into_owned(),
        MessageOwned::Version("abcd".to_string())
    );
    assert_eq!(
        Message::Audio(&[1, 2][..]).into_owned(),
        MessageOwned::Audio(vec![1, 2])
    );
    assert_eq!(
        Message::Event(event).into_owned(),
        MessageOwned::Event(EventOwned {
            typ: EventType::Word,
            start: 1,
            end: 2,
            name: Some("name".to_string()),
        })
    );
}
