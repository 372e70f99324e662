//! Framing for one JSON message per exchange on a byte stream: the
//! writer appends a fixed sentinel byte, the reader accumulates bytes
//! until it sees the sentinel. The framing exists because a raw stream
//! has no message boundaries, and reading to end-of-stream would block
//! forever on a connection the peer keeps open.

use vstd::prelude::*;
use vstd::string::*;

verus! {

/// The byte that marks the end of one message. It never occurs in the
/// JSON texts of the command vocabulary.
pub const MESSAGE_END_MARKER: u8 = 1;

/// What can go wrong in one exchange: the transport failed, the decoder
/// refused the payload, the encoder failed, or the payload was not
/// text. The unverified edge maps its concrete errors onto these kinds.
#[derive(Clone, Copy, PartialEq, Eq, Structural, Debug)]
pub enum JsonHandlerError {
    ReadFail,
    DecoderError,
    EncoderError,
    Utf8Error,
}

/// Serialises a message for the stream: the text's bytes, then the end
/// marker.
pub fn string_to_bytes_with_end_marker(string: String) -> (r: Vec<u8>)
    ensures
        r@ == vstd::utf8::encode_utf8(string@).push(MESSAGE_END_MARKER),
{
    let mut bytes = string.as_str().as_bytes_vec();
    bytes.push(MESSAGE_END_MARKER);
    bytes
}

/// What feeding one chunk of stream bytes does to the reader: bytes up
/// to the first end marker join the payload, the marker completes the
/// message, and everything after it in the chunk is dropped, as a
/// reader that stops at the marker drops the rest of its buffer.
pub open spec fn spec_feed(payload: Seq<u8>, complete: bool, chunk: Seq<u8>) -> (Seq<u8>, bool)
    decreases chunk.len(),
{
    if chunk.len() == 0 {
        (payload, complete)
    } else if complete {
        (payload, true)
    } else if chunk[0] == MESSAGE_END_MARKER {
        (payload, true)
    } else {
        spec_feed(payload.push(chunk[0]), false, chunk.skip(1))
    }
}

/// Accumulates one message out of a byte stream, fed chunk by chunk as
/// the bytes arrive.
pub struct FrameReader {
    payload: Vec<u8>,
    complete: bool,
}

impl FrameReader {
    /// The payload bytes gathered so far.
    pub closed spec fn spec_payload(self) -> Seq<u8> {
        self.payload@
    }

    /// Whether the end marker has been seen.
    pub closed spec fn spec_complete(self) -> bool {
        self.complete
    }

    /// A fresh reader: nothing gathered, no marker seen.
    pub fn new() -> (r: FrameReader)
        ensures
            r.spec_payload() == Seq::<u8>::empty(),
            !r.spec_complete(),
    {
        FrameReader { payload: Vec::new(), complete: false }
    }

    /// Feeds the bytes of one read from the stream.
    pub fn push_bytes(&mut self, chunk: &[u8])
        ensures
            (final(self).spec_payload(), final(self).spec_complete()) == spec_feed(
                old(self).spec_payload(),
                old(self).spec_complete(),
                chunk@,
            ),
    {
        let mut i: usize = 0;
        proof {
            assert(chunk@.skip(0) =~= chunk@);
        }
        while i < chunk.len()
            invariant
                0 <= i <= chunk@.len(),
                spec_feed(old(self).spec_payload(), old(self).spec_complete(), chunk@)
                    == spec_feed(self.payload@, self.complete, chunk@.skip(i as int)),
            decreases chunk@.len() - i,
        {
            proof {
                assert(chunk@.skip(i as int)[0] == chunk@[i as int]);
                assert(chunk@.skip(i as int).skip(1) =~= chunk@.skip(i + 1));
            }
            if !self.complete {
                let b = chunk[i];
                if b == MESSAGE_END_MARKER {
                    self.complete = true;
                } else {
                    self.payload.push(b);
                }
            } else {
                proof {
                    assert(spec_feed(self.payload@, self.complete, chunk@.skip(i as int))
                        == spec_feed(self.payload@, self.complete, chunk@.skip(i + 1)));
                }
            }
            i = i + 1;
        }
        proof {
            assert(chunk@.skip(chunk@.len() as int) =~= Seq::<u8>::empty());
        }
    }

    /// Whether a whole message has arrived.
    pub fn is_complete(&self) -> (r: bool)
        ensures
            r == self.spec_complete(),
    {
        self.complete
    }

    /// The payload before the marker, once the message is complete.
    pub fn payload(&self) -> (r: &Vec<u8>)
        ensures
            r@ == self.spec_payload(),
    {
        &self.payload
    }
}

proof fn lemma_feed_clean(payload: Seq<u8>, extra: Seq<u8>)
    requires
        !extra.contains(MESSAGE_END_MARKER),
    ensures
        spec_feed(payload, false, extra.push(MESSAGE_END_MARKER)) == (payload + extra, true),
    decreases extra.len(),
{
    if extra.len() == 0 {
        assert(extra.push(MESSAGE_END_MARKER)[0] == MESSAGE_END_MARKER);
        assert(payload + extra =~= payload);
    } else {
        assert(extra[0] != MESSAGE_END_MARKER);
        assert(!extra.skip(1).contains(MESSAGE_END_MARKER)) by {
            if extra.skip(1).contains(MESSAGE_END_MARKER) {
                let k = choose|k: int|
                    0 <= k < extra.skip(1).len() && extra.skip(1)[k] == MESSAGE_END_MARKER;
                assert(extra[k + 1] == MESSAGE_END_MARKER);
            }
        }
        lemma_feed_clean(payload.push(extra[0]), extra.skip(1));
        assert(extra.push(MESSAGE_END_MARKER)[0] == extra[0]);
        assert(extra.push(MESSAGE_END_MARKER).skip(1) =~= extra.skip(1).push(MESSAGE_END_MARKER));
        assert(payload.push(extra[0]) + extra.skip(1) =~= payload + extra);
    }
}

/// Round trip through the framing: for any payload free of the marker
/// byte, writing it with the marker appended and reading the bytes back
/// recovers exactly the payload, complete.
pub proof fn lemma_frame_round_trip(payload: Seq<u8>)
    requires
        !payload.contains(MESSAGE_END_MARKER),
    ensures
        spec_feed(Seq::<u8>::empty(), false, payload.push(MESSAGE_END_MARKER)) == (payload, true),
{
    lemma_feed_clean(Seq::<u8>::empty(), payload);
    assert(Seq::<u8>::empty() + payload =~= payload);
}

/// A partial write followed by the remaining bytes decodes identically
/// to one full write: feeding a chunk in two pieces leaves the reader
/// exactly where feeding it whole does.
pub proof fn lemma_feed_split(payload: Seq<u8>, complete: bool, c1: Seq<u8>, c2: Seq<u8>)
    ensures
        spec_feed(payload, complete, c1 + c2) == ({
            let mid = spec_feed(payload, complete, c1);
            spec_feed(mid.0, mid.1, c2)
        }),
    decreases c1.len(),
{
    if c1.len() == 0 {
        assert(c1 + c2 =~= c2);
    } else {
        let whole = c1 + c2;
        assert(whole[0] == c1[0]);
        assert(whole.skip(1) =~= c1.skip(1) + c2);
        if complete {
            lemma_feed_complete(payload, c2);
            lemma_feed_complete(payload, c1);
        } else if c1[0] == MESSAGE_END_MARKER {
            lemma_feed_complete(payload, c2);
            lemma_feed_split_complete(payload, c1, c2);
        } else {
            lemma_feed_split(payload.push(c1[0]), false, c1.skip(1), c2);
        }
    }
}

proof fn lemma_feed_complete(payload: Seq<u8>, chunk: Seq<u8>)
    ensures
        spec_feed(payload, true, chunk) == (payload, true),
    decreases chunk.len(),
{
}

proof fn lemma_feed_split_complete(payload: Seq<u8>, c1: Seq<u8>, c2: Seq<u8>)
    requires
        c1.len() > 0,
        c1[0] == MESSAGE_END_MARKER,
    ensures
        spec_feed(payload, false, c1 + c2) == (payload, true),
{
    assert((c1 + c2)[0] == MESSAGE_END_MARKER);
    assert((c1 + c2).len() > 0);
}

} // verus!
