//! A compact binary framing protocol for streaming synthesized-speech output:
//! audio sample frames interleaved with timed event markers, preceded by a
//! one-time version header. This crate defines the wire format, parsers for
//! complete and partial buffers, an incremental reader, and a writer.
//!
//! All integers on the wire are little-endian.

mod protocol;
mod reader;
mod wire;
mod writer;

pub use protocol::{
    message_type_describes, poll_read_message, read_message, read_message_type, read_result_obeys,
    type_result_obeys, write_message, ChunkType, Error, Event, EventOwned, EventType, Message,
    MessageOwned, MessageType,
};
pub use reader::{lemma_try_read_idempotent, try_read_result_obeys, Reader, ReaderView};
pub use wire::{
    byte_event_type, event_bytes, event_type_byte, event_wf, lemma_event_bytes_parts,
    lemma_message_round_trip, lemma_messages_bytes_push, lemma_name_absent_serializes_empty,
    lemma_parse_progress, lemma_stream_round_trip, lemma_version_round_trip,
    lemma_zero_name_len_parses_none, message_bytes, message_wf, messages_bytes, name_bytes,
    parse_audio, parse_event, parse_message, parse_version, EventView, MessageView, ParseStep,
};
pub use writer::{message_views, pending_header_bytes, Writer, WriterView};
