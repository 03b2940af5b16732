//! The writer: serializes outbound messages into a byte sink, emitting the
//! one-time version header before the first payload message.
//!
//! The sink itself is opaque to the proofs, so correctness is stated over the
//! stream of bytes the writer has handed to the sink: on success that stream
//! grows by exactly the serialization of the header (once) and of each
//! message, in order.

use vstd::prelude::*;
use vstd::utf8::*;

use crate::protocol::Message;
use crate::wire::{
    lemma_messages_bytes_push, message_bytes, message_wf, messages_bytes, MessageView,
};

verus! {

/// `std::io::Error`, the failure a byte sink reports. Opaque to the proofs:
/// the writer's contracts say what was handed to the sink, never why the sink
/// failed.
#[verifier::external_type_specification]
#[verifier::external_body]
pub struct ExIoError(std::io::Error);

/// The views of a sequence of messages.
pub open spec fn message_views<'a>(ms: Seq<Message<'a>>) -> Seq<MessageView> {
    ms.map_values(|m: Message<'a>| m@)
}

/// Abstract state of a writer: its configured version string, whether the
/// header has been emitted, and every byte handed to the sink so far, in
/// order.
pub struct WriterView {
    pub header_done: bool,
    pub version: Seq<char>,
    pub written: Seq<u8>,
}

/// The bytes a write will prepend when the header is still owed: the version
/// header's serialization, or nothing once the header is done.
pub open spec fn pending_header_bytes(w: WriterView) -> Seq<u8> {
    if w.header_done {
        Seq::empty()
    } else {
        encode_utf8(w.version)
    }
}

/// Serializes messages into the byte sink `W`, writing the one-time version
/// header (by default `"0.01"`) before the first payload message.
pub struct Writer<W> {
    inner: W,
    header_done: bool,
    version: String,
    written: Ghost<Seq<u8>>,
}

/// Relies on `std::io::Write::write_all` to hand the whole buffer to the
/// sink, or report the first error. Nothing is assumed about the result.
#[verifier::external_body]
fn write_all_to<W: std::io::Write>(sink: &mut W, bytes: &[u8]) -> (r: Result<(), std::io::Error>) {
    sink.write_all(bytes)
}

/// Relies on `std::io::Write::flush`. Nothing is assumed about the result.
#[verifier::external_body]
fn flush_sink<W: std::io::Write>(sink: &mut W) -> (r: Result<(), std::io::Error>) {
    sink.flush()
}

impl<W> View for Writer<W> {
    type V = WriterView;

    closed spec fn view(&self) -> WriterView {
        WriterView {
            header_done: self.header_done,
            version: self.version@,
            written: self.written@,
        }
    }
}

impl<W: std::io::Write> Writer<W> {
    /// The writer's invariant: its configured version string serializes to
    /// exactly the 4 bytes the header must occupy on the wire.
    pub open spec fn wf(&self) -> bool {
        encode_utf8(self@.version).len() == 4
    }

    /// Wrap `inner` as the byte sink of a new writer, with the default
    /// version string and nothing written yet.
    pub fn new(inner: W) -> (r: Self)
        ensures
            r.wf(),
            !r@.header_done,
            r@.written == Seq::<u8>::empty(),
            r@.version == "0.01"@,
    {
        proof {
            reveal_strlit("0.01");
            assert(is_ascii_chars("0.01"@));
            is_ascii_chars_encode_utf8("0.01"@);
        }
        Writer {
            inner,
            version: "0.01".to_owned(),
            header_done: false,
            written: Ghost(Seq::empty()),
        }
    }

    /// Write a single message to the sink, preceded by the version header if
    /// this is the first write. On success the bytes handed to the sink have
    /// grown by exactly the header (when it was still owed) and the message's
    /// serialization.
    ///
    /// # Errors
    ///
    /// Fails when the underlying sink's write fails; there is no internal
    /// retry. The header alone may then already have been handed to the sink,
    /// but never a partial message serialization.
    pub fn write_message(&mut self, message: &Message) -> (r: Result<(), std::io::Error>)
        requires
            old(self).wf(),
            message_wf(message@),
        ensures
            final(self).wf(),
            final(self)@.version == old(self)@.version,
            r is Ok ==> final(self)@.header_done && final(self)@.written == old(self)@.written
                + pending_header_bytes(old(self)@) + message_bytes(message@),
            r is Err ==> final(self)@ == old(self)@ || (!old(self)@.header_done
                && final(self)@.header_done && final(self)@.written == old(self)@.written
                + encode_utf8(old(self)@.version)),
    {
        if !self.header_done {
            let header_msg = Message::Version(self.version.as_str());
            let bytes = header_msg.to_bytes();
            match write_all_to(&mut self.inner, bytes.as_slice()) {
                Ok(u) => u,
                Err(e) => {
                    return Err(e);
                },
            }
            self.written = Ghost(self.written@ + bytes@);
            self.header_done = true;
        }
        let bytes = message.to_bytes();
        match write_all_to(&mut self.inner, bytes.as_slice()) {
            Ok(u) => u,
            Err(e) => {
                return Err(e);
            },
        }
        self.written = Ghost(self.written@ + bytes@);
        Ok(())
    }

    /// Write each message of `messages` to the sink in order, as
    /// [`Writer::write_message`] would, stopping at the first sink error.
    ///
    /// # Errors
    ///
    /// Fails when the underlying sink's write fails. Some prefix of the
    /// messages, and possibly the header, has then been handed to the sink.
    pub fn write_messages(&mut self, messages: &[Message]) -> (r: Result<(), std::io::Error>)
        requires
            old(self).wf(),
            forall|i: int| 0 <= i < messages@.len() ==> message_wf(#[trigger] messages@[i]@),
        ensures
            final(self).wf(),
            final(self)@.version == old(self)@.version,
            r is Ok ==> final(self)@.written == old(self)@.written + (if messages@.len() == 0 {
                Seq::<u8>::empty()
            } else {
                pending_header_bytes(old(self)@)
            }) + messages_bytes(message_views(messages@)),
            r is Ok && messages@.len() == 0 ==> final(self)@ == old(self)@,
            r is Err ==> exists|k: int|
                0 <= k <= messages@.len() && (final(self)@.written == old(self)@.written
                    + messages_bytes(message_views(messages@.take(k))) || final(self)@.written
                    == old(self)@.written + encode_utf8(old(self)@.version) + messages_bytes(
                    message_views(messages@.take(k)),
                )),
    {
        let mut i: usize = 0;
        while i < messages.len()
            invariant
                self.wf(),
                self@.version == old(self)@.version,
                i <= messages@.len(),
                forall|k: int| 0 <= k < messages@.len() ==> message_wf(#[trigger] messages@[k]@),
                i == 0 ==> self@ == old(self)@,
                i > 0 ==> self@.header_done && self@.written == old(self)@.written
                    + pending_header_bytes(old(self)@) + messages_bytes(
                    message_views(messages@.take(i as int)),
                ),
            decreases messages@.len() - i,
        {
            proof {
                assert(message_views(messages@.take(i as int)).push(messages@[i as int]@)
                    =~= message_views(messages@.take(i + 1)));
                lemma_messages_bytes_push(
                    message_views(messages@.take(i as int)),
                    messages@[i as int]@,
                );
            }
            let message = vstd::slice::slice_index_get(messages, i);
            match self.write_message(message) {
                Ok(u) => u,
                Err(e) => {
                    proof {
                        if i == 0 {
                            assert(message_views(messages@.take(0)) =~= Seq::<
                                MessageView,
                            >::empty());
                            assert(messages_bytes(message_views(messages@.take(0)))
                                =~= Seq::<u8>::empty());
                        }
                    }
                    return Err(e);
                },
            }
            i += 1;
        }
        proof {
            if messages@.len() == 0 {
                assert(message_views(messages@) =~= Seq::<MessageView>::empty());
            } else {
                assert(messages@.take(messages@.len() as int) =~= messages@);
            }
        }
        Ok(())
    }

    /// Flush the sink. The stream of bytes handed to the sink is unchanged.
    ///
    /// # Errors
    ///
    /// Fails when the underlying sink's flush fails.
    pub fn flush(&mut self) -> (r: Result<(), std::io::Error>)
        ensures
            final(self)@ == old(self)@,
    {
        flush_sink(&mut self.inner)
    }

    /// The underlying sink, as a spec-level value.
    pub closed spec fn spec_inner(&self) -> W {
        self.inner
    }

    /// Consume the writer and hand back the underlying sink.
    pub fn into_inner(self) -> (r: W)
        ensures
            r == self.spec_inner(),
    {
        self.inner
    }
}

} // verus!
