//! The incremental reader: accumulates pushed (or read) bytes in an internal
//! buffer and yields one owned message per `try_read` as soon as enough bytes
//! are present, retaining the leftover bytes across calls.

use vstd::bytes::*;
use vstd::prelude::*;
use vstd::slice::*;
use vstd::utf8::*;

use crate::protocol::{read_message_type, Error, EventOwned, MessageOwned, MessageType};
use crate::wire::{lemma_parse_progress, parse_message, MessageView, ParseStep};

verus! {

/// Abstract state of an incremental reader: whether the stream's version
/// header has been read, and the bytes buffered but not yet consumed.
pub struct ReaderView {
    pub header_done: bool,
    pub buffer: Seq<u8>,
}

/// A stateful, incremental reader over a byte stream. Its internal buffer is
/// the only persistent state: it grows by [`Reader::push`] and shrinks by
/// exactly the bytes of each message that [`Reader::try_read`] yields.
pub struct Reader {
    header_done: bool,
    buffer: Vec<u8>,
}

impl View for Reader {
    type V = ReaderView;

    closed spec fn view(&self) -> ReaderView {
        ReaderView { header_done: self.header_done, buffer: self.buffer@ }
    }
}

impl Default for Reader {
    /// An empty reader: no bytes buffered, header not yet read.
    fn default() -> (r: Self)
        ensures
            !r@.header_done,
            r@.buffer == Seq::<u8>::empty(),
    {
        Reader { header_done: false, buffer: Vec::new() }
    }
}

impl From<Vec<u8>> for Reader {
    /// A reader whose buffer starts out holding `buf`, header not yet read.
    fn from(buf: Vec<u8>) -> (r: Self)
        ensures
            !r@.header_done,
            r@.buffer == buf@,
    {
        Reader { header_done: false, buffer: buf }
    }
}

impl vstd::std_specs::convert::FromSpecImpl<Vec<u8>> for Reader {
    open spec fn obeys_from_spec() -> bool {
        true
    }

    closed spec fn from_spec(buf: Vec<u8>) -> Reader {
        Reader { header_done: false, buffer: buf }
    }
}

/// Relies on `std::io::Read::read_to_end`: reads `source` until its end into
/// a fresh vector. Which bytes arrive depends on the source alone, so nothing
/// is assumed about the result.
#[verifier::external_body]
fn read_source_to_end<T: std::io::Read>(mut source: T) -> (r: Result<Vec<u8>, std::io::Error>) {
    let mut buffer_vec = Vec::new();
    match source.read_to_end(&mut buffer_vec) {
        Ok(_) => Ok(buffer_vec),
        Err(e) => Err(e),
    }
}

/// What a `try_read` result must be, given the parse model's verdict on the
/// reader's buffer: the parsed message in owned form, or the exact error,
/// with only the payload of a UTF-8 decode error left open.
pub open spec fn try_read_result_obeys(r: Result<MessageOwned, Error>, step: ParseStep) -> bool {
    match step {
        ParseStep::Done { consumed, msg } => r is Ok && r->Ok_0@ == msg,
        ParseStep::NeedMore { needed } => r == Err::<MessageOwned, Error>(
            Error::NotEnoughBytes(needed as usize),
        ),
        ParseStep::BadChunk { tag } => r == Err::<MessageOwned, Error>(
            Error::InvalidChunkType(tag),
        ),
        ParseStep::BadEvent { tag } => r == Err::<MessageOwned, Error>(
            Error::InvalidEventType(tag),
        ),
        ParseStep::BadUtf8 => r matches Err(e) && e is Utf8,
    }
}

/// Law (idempotent partial read): when a reader's buffer holds too few bytes
/// for a message, any two results that [`Reader::try_read`]'s contract admits
/// on that state are one and the same "not enough bytes" error. Since that
/// contract also leaves the reader untouched on every error, calling
/// `try_read` twice with no intervening [`Reader::push`] returns the same
/// outcome both times and leaves the buffer unchanged.
pub proof fn lemma_try_read_idempotent(
    s: ReaderView,
    r1: Result<MessageOwned, Error>,
    r2: Result<MessageOwned, Error>,
)
    requires
        parse_message(s.buffer, s.header_done) is NeedMore,
        try_read_result_obeys(r1, parse_message(s.buffer, s.header_done)),
        try_read_result_obeys(r2, parse_message(s.buffer, s.header_done)),
    ensures
        r1 == r2,
        r1 matches Err(e) && e is NotEnoughBytes,
{
}

impl Reader {
    /// Construct a reader over everything `reader` will yield: reads the
    /// source to its end, blocking until complete, and buffers the bytes.
    ///
    /// # Errors
    ///
    /// Fails when reading the source fails.
    pub fn from_source<T>(reader: T) -> (r: Result<Self, std::io::Error>) where T: std::io::Read
        ensures
            r matches Ok(rd) ==> !rd@.header_done,
    {
        match read_source_to_end(reader) {
            Ok(buffer) => Ok(Reader { header_done: false, buffer }),
            Err(e) => Err(e),
        }
    }

    /// Append `other` to the internal buffer. Amortized linear in the new
    /// bytes; nothing else changes.
    pub fn push(&mut self, other: &[u8])
        ensures
            final(self)@.header_done == old(self)@.header_done,
            final(self)@.buffer == old(self)@.buffer + other@,
    {
        self.buffer.extend_from_slice(other);
    }

    /// Attempt to read one message from the internal buffer, in owned form
    /// (the buffer is mutated right after, so a borrowed message would
    /// dangle). On success, exactly the message's bytes are removed from the
    /// front of the buffer, and the header is marked read. On any error the
    /// reader is left exactly as it was: in particular, after a
    /// [`Error::NotEnoughBytes`] result, retrying without pushing new bytes
    /// returns the same outcome.
    ///
    /// # Errors
    ///
    /// As for [`read_message_type`]: not enough bytes yet (recoverable), or a
    /// fatal malformed tag, type or text encoding, on which callers should
    /// stop reading the stream.
    pub fn try_read(&mut self) -> (r: Result<MessageOwned, Error>)
        ensures
            try_read_result_obeys(r, parse_message(old(self)@.buffer, old(self)@.header_done)),
            r is Ok ==> final(self)@.header_done,
            parse_message(old(self)@.buffer, old(self)@.header_done) matches ParseStep::Done {
                consumed,
                ..
            } ==> final(self)@.buffer == old(self)@.buffer.skip(consumed),
            r is Err ==> final(self)@ == old(self)@,
    {
        proof {
            lemma_parse_progress(self.buffer@, self.header_done);
        }
        let (consumed, message_type) = match read_message_type(
            self.buffer.as_slice(),
            self.header_done,
        ) {
            Ok(x) => x,
            Err(e) => {
                return Err(e);
            },
        };
        let msg = match message_type {
            MessageType::Version { version } => {
                match core::str::from_utf8(version.as_slice()) {
                    Ok(s) => {
                        proof {
                            match parse_message(self.buffer@, self.header_done) {
                                ParseStep::Done { msg: MessageView::Version { version: v }, .. } => {
                                    encode_utf8_valid_utf8(v);
                                    encode_utf8_decode_utf8(v);
                                    encode_utf8_decode_utf8(s@);
                                },
                                _ => {},
                            }
                        }
                        self.header_done = true;
                        MessageOwned::Version(s.to_owned())
                    },
                    Err(e) => {
                        proof {
                            match parse_message(old(self)@.buffer, old(self)@.header_done) {
                                ParseStep::Done { msg: MessageView::Version { version: v }, .. } => {
                                    encode_utf8_valid_utf8(v);
                                },
                                _ => {},
                            }
                        }
                        return Err(Error::Utf8(e));
                    },
                }
            },
            MessageType::Audio { samples_offset, samples_len } => {
                let samples = slice_to_vec(
                    slice_subrange(self.buffer.as_slice(), samples_offset, samples_offset
                        + samples_len),
                );
                MessageOwned::Audio(samples)
            },
            MessageType::Event { typ, start, end, name_offset, name_len } => {
                proof {
                    let b = old(self)@.buffer;
                    match parse_message(b, old(self)@.header_done) {
                        ParseStep::Done { .. } => {
                            if b.len() >= 14 {
                                let n = spec_u32_from_le_bytes(b.subrange(10, 14)) as int;
                                if n > 0 && b.len() >= 14 + n && valid_utf8(
                                    b.subrange(14, 14 + n),
                                ) {
                                    decode_utf8_encode_utf8(b.subrange(14, 14 + n));
                                }
                            }
                        },
                        _ => {},
                    }
                }
                let name = if name_len == 0 {
                    None
                } else {
                    match core::str::from_utf8(
                        slice_subrange(self.buffer.as_slice(), name_offset, name_offset
                            + name_len),
                    ) {
                        Ok(s) => {
                            proof {
                                encode_utf8_decode_utf8(s@);
                            }
                            Some(s.to_owned())
                        },
                        Err(e) => {
                            return Err(Error::Utf8(e));
                        },
                    }
                };
                MessageOwned::Event(EventOwned { typ, start, end, name })
            },
        };
        let rest = self.buffer.split_off(consumed);
        self.buffer = rest;
        proof {
            assert(self.buffer@ =~= old(self)@.buffer.skip(consumed as int));
        }
        Ok(msg)
    }
}

} // verus!
