//! Tests for the borrowing and offset parsers and the buffer serializer.

use spiel::{
    poll_read_message, read_message, read_message_type, write_message, Error, Event, EventType,
    Message, MessageType,
};
use std::task::Poll;

#[test]
fn test_read_write_version() {
    let mt = Message::Version("wowz");
    let buf = &mut [0; 1024];
    let _offset = write_message(&mt.clone(), &mut buf[..]);
    let (_read_offset, mt2) = read_message(&buf[..], false).expect("Valid MessageType!");
    assert_eq!(mt, mt2);
}

#[test]
fn test_read_write_event() {
    let mt_name = "WTF is this!?";
    let mt = Message::Event(Event {
        typ: EventType::Word,
        start: 872,
        end: 99999,
        name: Some(mt_name),
    });
    let data = &mut [0u8; 1024];
    // No need to write this to the `data` buffer because we start with all 0s.
    let data_writer = &mut data[14..(14 + mt_name.len())];
    data_writer.copy_from_slice(mt_name.as_bytes());
    let buf = &mut [0u8; 1024];
    let _offset = write_message(&mt.clone(), &mut buf[..]);
    let (_read_offset, mt2) = read_message(&buf[..], true).expect("Valid MessageType!");
    assert_eq!(mt, mt2);
}

#[test]
fn test_read_write_audio() {
    let samples: [u8; 11] = [123, 93, 87, 16, 15, 15, 15, 0, 0, 0, 0];
    let mt = Message::Audio(&samples[..]);
    let data = &mut [0u8; 1024];
    let data_writer = &mut data[5..(5 + samples.len())];
    data_writer.copy_from_slice(&samples[..]);
    let buf = &mut [0u8; 1024];
    let _offset = write_message(&mt.clone(), &mut buf[..]);
    let (_read_offset, mt2) = read_message(&buf[..], true).expect("Valid MessageType");
    let Message::Audio(samples2) = mt2 else {
        assert_eq!(mt, mt2);
        panic!();
    };
    assert_eq!(&samples, &samples2);
    assert_eq!(mt, mt2);
}

#[test]
fn version_header_scenario() {
    // A stream opens with the 4 version bytes and no leading tag.
    let bytes = "0.01".as_bytes();
    let (consumed, msg) = read_message(bytes, false).expect("a 4-byte header parses");
    assert_eq!(consumed, 4);
    assert_eq!(msg, Message::Version("0.01"));

    // Next, a sentence event from 0 to 4 with no name; integers little-endian.
    let event_bytes: &[u8] = &[2, 2, 0, 0, 0, 0, 4, 0, 0, 0, 0, 0, 0, 0];
    let (consumed, msg) = read_message(event_bytes, true).expect("a complete event parses");
    assert_eq!(consumed, 14);
    assert_eq!(
        msg,
        Message::Event(Event {
            typ: EventType::Sentence,
            start: 0,
            end: 4,
            name: None,
        })
    );
}

#[test]
fn audio_with_spare_byte_scenario() {
    // Tag, length 3 (little-endian), 3 payload bytes, 1 spare trailing byte.
    let bytes: &[u8] = &[1, 3, 0, 0, 0, 9, 9, 9, 7];
    let (consumed, msg) = read_message(bytes, true).expect("a complete audio frame parses");
    assert_eq!(msg, Message::Audio(&[9, 9, 9][..]));
    assert_eq!(consumed, 8);
    // One byte is left unconsumed for the next call.
    assert_eq!(bytes.len() - consumed, 1);
}

#[test]
fn truncated_event_needs_more_bytes() {
    // Tag and event type only: the fixed fields are still missing.
    let bytes: &[u8] = &[2, 1];
    let first = read_message(bytes, true);
    let Err(Error::NotEnoughBytes(needed)) = first else {
        panic!("expected NotEnoughBytes, got {first:?}");
    };
    assert!(needed > 0);
    // Retrying on the same bytes gives the same answer; feeding the missing
    // bytes makes the parse succeed.
    assert_eq!(read_message(bytes, true), first);
    let full: &[u8] = &[2, 1, 0, 0, 0, 0, 4, 0, 0, 0, 0, 0, 0, 0];
    let (consumed, msg) = read_message(full, true).expect("completed event parses");
    assert_eq!(consumed, 14);
    assert_eq!(
        msg,
        Message::Event(Event {
            typ: EventType::Word,
            start: 0,
            end: 4,
            name: None,
        })
    );
}

#[test]
fn not_enough_bytes_counts_are_exact() {
    assert_eq!(read_message(&[], false), Err(Error::NotEnoughBytes(4)));
    assert_eq!(read_message(b"0.", false), Err(Error::NotEnoughBytes(2)));
    assert_eq!(read_message(&[], true), Err(Error::NotEnoughBytes(1)));
    assert_eq!(read_message(&[1], true), Err(Error::NotEnoughBytes(4)));
    assert_eq!(read_message(&[1, 2, 0, 0, 0, 9], true), Err(Error::NotEnoughBytes(1)));
    assert_eq!(read_message(&[2], true), Err(Error::NotEnoughBytes(1)));
    assert_eq!(read_message(&[2, 3, 0, 0], true), Err(Error::NotEnoughBytes(2)));
    assert_eq!(
        read_message(&[2, 3, 0, 0, 0, 0, 0, 0], true),
        Err(Error::NotEnoughBytes(2))
    );
    assert_eq!(
        read_message(&[2, 3, 0, 0, 0, 0, 0, 0, 0, 0, 0], true),
        Err(Error::NotEnoughBytes(3))
    );
    // Fixed fields complete, but 2 of the 2-byte name still missing.
    assert_eq!(
        read_message(&[2, 3, 0, 0, 0, 0, 0, 0, 0, 0, 2, 0, 0, 0], true),
        Err(Error::NotEnoughBytes(2))
    );
}

#[test]
fn invalid_tags_are_fatal() {
    assert_eq!(read_message(&[5, 0, 0], true), Err(Error::InvalidChunkType(5)));
    assert_eq!(read_message(&[0], true), Err(Error::InvalidChunkType(0)));
    assert_eq!(read_message(&[2, 9], true), Err(Error::InvalidEventType(9)));
    assert_eq!(read_message(&[2, 0], true), Err(Error::InvalidEventType(0)));
}

#[test]
fn invalid_text_is_fatal() {
    // 0xff can never appear in UTF-8.
    let bad_header = read_message(&[0xff, 0xff, 0xff, 0xff], false);
    assert!(matches!(bad_header, Err(Error::Utf8(_))), "{bad_header:?}");
    // A complete event whose 1-byte name is not valid UTF-8.
    let bad_name = read_message(&[2, 1, 0, 0, 0, 0, 0, 0, 0, 0, 1, 0, 0, 0, 0xff], true);
    assert!(matches!(bad_name, Err(Error::Utf8(_))), "{bad_name:?}");
}

#[test]
fn to_bytes_matches_the_layout() {
    assert_eq!(Message::Version("0.01").to_bytes(), b"0.01".to_vec());
    assert_eq!(
        Message::Audio(&[10, 20, 30][..]).to_bytes(),
        vec![1, 3, 0, 0, 0, 10, 20, 30]
    );
    let event = Message::Event(Event {
        typ: EventType::Range,
        start: 258,
        end: 772,
        name: Some("ab"),
    });
    assert_eq!(
        event.to_bytes(),
        vec![2, 3, 2, 1, 0, 0, 4, 3, 0, 0, 2, 0, 0, 0, b'a', b'b']
    );
    let unnamed = Message::Event(Event {
        typ: EventType::Mark,
        start: 1,
        end: 2,
        name: None,
    });
    assert_eq!(unnamed.to_bytes(), vec![2, 4, 1, 0, 0, 0, 2, 0, 0, 0, 0, 0, 0, 0]);
}

#[test]
fn write_message_reports_missing_space() {
    let msg = Message::Audio(&[9, 9][..]);
    let buf = &mut [0u8; 3];
    assert_eq!(write_message(&msg, &mut buf[..]), Err(Error::NotEnoughSpace(4)));
    // The buffer is untouched on failure.
    assert_eq!(buf, &[0, 0, 0]);
    let exact = &mut [0u8; 7];
    assert_eq!(write_message(&msg, &mut exact[..]), Ok(7));
    assert_eq!(exact, &[1, 2, 0, 0, 0, 9, 9]);
}

#[test]
fn write_message_leaves_trailing_bytes() {
    let buf = &mut [0xaau8; 10];
    let n = write_message(&Message::Version("spdx"), &mut buf[..]).expect("4 bytes fit");
    assert_eq!(n, 4);
    assert_eq!(&buf[..4], b"spdx");
    assert_eq!(&buf[4..], &[0xaa; 6]);
}

#[test]
fn offsets_point_at_the_payload() {
    let bytes: &[u8] = &[1, 3, 0, 0, 0, 9, 8, 7, 42];
    let (consumed, mt) = read_message_type(bytes, true).expect("complete audio frame");
    assert_eq!(consumed, 8);
    let MessageType::Audio { samples_offset, samples_len } = mt else {
        panic!("expected an audio description, got {mt:?}");
    };
    assert_eq!((samples_offset, samples_len), (5, 3));
    assert_eq!(&bytes[samples_offset..samples_offset + samples_len], &[9, 8, 7]);

    let event_bytes: &[u8] = &[2, 1, 7, 0, 0, 0, 9, 0, 0, 0, 2, 0, 0, 0, b'h', b'i'];
    let (consumed, mt) = read_message_type(event_bytes, true).expect("complete event");
    assert_eq!(consumed, 16);
    let MessageType::Event { name_offset, typ, start, end, name_len } = mt else {
        panic!("expected an event description, got {mt:?}");
    };
    assert_eq!(typ, EventType::Word);
    assert_eq!((start, end), (7, 9));
    assert_eq!((name_offset, name_len), (14, 2));
    assert_eq!(&event_bytes[name_offset..name_offset + name_len], b"hi");
}

#[test]
fn offset_parser_checks_what_the_borrowing_parser_checks() {
    // Missing audio payload is not a success for either parser.
    let short: &[u8] = &[1, 3, 0, 0, 0, 9];
    assert_eq!(read_message_type(short, true), Err(Error::NotEnoughBytes(2)));
    assert_eq!(read_message(short, true), Err(Error::NotEnoughBytes(2)));
    // Nor is a version header that is not UTF-8.
    assert!(matches!(
        read_message_type(&[0xff, 0xff, 0xff, 0xff], false),
        Err(Error::Utf8(_))
    ));
    // Nor an event name that is not UTF-8.
    assert!(matches!(
        read_message_type(&[2, 1, 0, 0, 0, 0, 0, 0, 0, 0, 1, 0, 0, 0, 0xff], true),
        Err(Error::Utf8(_))
    ));
}

#[test]
fn version_offsets_carry_the_raw_bytes() {
    let (consumed, mt) = read_message_type(b"0.01rest", false).expect("header parses");
    assert_eq!(consumed, 4);
    assert_eq!(mt, MessageType::Version { version: *b"0.01" });
}

#[test]
fn poll_wraps_parse_outcomes() {
    // Too few bytes: pending, not an error.
    assert!(matches!(poll_read_message(&[2, 1], true), Poll::Pending));
    assert!(matches!(poll_read_message(b"0.", false), Poll::Pending));
    // A complete message: ready and successful.
    match poll_read_message(b"0.01", false) {
        Poll::Ready(Ok((consumed, msg))) => {
            assert_eq!(consumed, 4);
            assert_eq!(msg, Message::Version("0.01"));
        },
        other => panic!("expected a ready header, got {other:?}"),
    }
    // A fatal error: ready and failed.
    match poll_read_message(&[9], true) {
        Poll::Ready(Err(Error::InvalidChunkType(9))) => {},
        other => panic!("expected a ready fatal error, got {other:?}"),
    }
}

#[test]
fn parse_and_advance_always_terminates() {
    // Driving the parser over arbitrary bytes either errors out or makes
    // strictly positive progress, so this loop always ends.
    let streams: [&[u8]; 5] = [
        b"0.01\x01\x02\x00\x00\x00ab\x02\x02\x05\x00\x00\x00\x07\x00\x00\x00\x00\x00\x00\x00",
        &[1, 0, 0, 0, 0, 1, 0, 0, 0, 0],
        &[255, 254, 253],
        &[2, 4, 1, 2],
        &[],
    ];
    for (case, stream) in streams.iter().enumerate() {
        let mut data = &stream[..];
        let mut header = case != 0;
        let mut steps = 0usize;
        loop {
            if data.is_empty() {
                break;
            }
            let Ok((offset, _msg)) = read_message(data, header) else {
                break;
            };
            assert!(offset > 0, "progress must be strictly positive");
            header = true;
            data = &data[offset..];
            steps += 1;
            assert!(steps <= stream.len(), "cannot take more steps than bytes");
        }
    }
}
