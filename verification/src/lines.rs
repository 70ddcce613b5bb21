//! Framing: a stream of bytes cut into lines of text.
//!
//! A line is everything up to and including a line feed. Bytes that no line
//! feed has followed yet wait in the decoder for more to come: a line may be
//! as long as its sender likes. A line has to be UTF-8; one that is not is
//! an error, and whoever reads the lines decides what follows from it.

use vstd::prelude::*;
use vstd::utf8::{decode_utf8, valid_utf8};

verus! {

/// The byte that ends a line.
pub const LINE_FEED: u8 = 0x0a;

/// `std::io::Error`, the error of the codec. Nothing is known of what it holds.
#[verifier::external_type_specification]
#[verifier::external_body]
pub struct ExIoError(std::io::Error);

/// A line that is not UTF-8.
#[derive(Clone, Copy, Debug, PartialEq, Eq, Structural)]
pub struct InvalidUtf8;

/// What one attempt to take a line off the front of `bytes` yields: the
/// line, line feed included, and what is left; or the same bytes, if they
/// hold no line feed.
pub open spec fn split_line(bytes: Seq<u8>) -> (Option<Seq<u8>>, Seq<u8>) {
    match bytes.index_of_first(LINE_FEED) {
        Some(at) => (Some(bytes.take(at + 1)), bytes.skip(at + 1)),
        None => (None, bytes),
    }
}

/// `LinesCodec::decode` of asynchronous-codec, on a buffer held as a `Vec`.
///
/// The codec looks for the first line feed. Without one it yields nothing
/// and leaves the buffer alone. With one it takes everything up to and
/// including it off the buffer, and yields that as text if it is UTF-8 and
/// an error if not. Believed, not proved.
#[verifier::external_body]
fn decode_line(buffer: &mut Vec<u8>) -> (r: Result<Option<String>, std::io::Error>)
    ensures
        final(buffer)@ == split_line(old(buffer)@).1,
        match split_line(old(buffer)@).0 {
            None => r matches Ok(None),
            Some(line) => if valid_utf8(line) {
                r matches Ok(Some(text)) && text@ == decode_utf8(line)
            } else {
                r is Err
            },
        },
{
    let mut src = asynchronous_codec::BytesMut::from(&buffer[..]);
    let item = asynchronous_codec::Decoder::decode(&mut asynchronous_codec::LinesCodec, &mut src);
    *buffer = src.to_vec();
    item
}

/// The first line of a stream is what stands before its first line feed,
/// with that line feed; the rest is left for later.
pub proof fn lemma_split_line_takes_first_line(content: Seq<u8>, rest: Seq<u8>)
    requires
        !content.contains(LINE_FEED),
    ensures
        split_line(content.push(LINE_FEED) + rest) == (Some(content.push(LINE_FEED)), rest),
        split_line(content) == (None::<Seq<u8>>, content),
{
    let line = content.push(LINE_FEED);
    let bytes = line + rest;
    bytes.index_of_first_ensures(LINE_FEED);
    content.index_of_first_ensures(LINE_FEED);
    assert(bytes[content.len() as int] == LINE_FEED);
    let at = bytes.index_of_first(LINE_FEED).unwrap();
    if at < content.len() {
        assert(content[at] == bytes[at]);
    }
    assert(bytes.take(at + 1) == line);
    assert(bytes.skip(at + 1) == rest);
}

/// Cuts what a peer sends into lines.
pub struct LineDecoder {
    buffer: Vec<u8>,
}

impl View for LineDecoder {
    type V = Seq<u8>;

    /// The bytes received and not yet handed out as lines.
    closed spec fn view(&self) -> Seq<u8> {
        self.buffer@
    }
}

impl LineDecoder {
    /// A decoder that has received nothing.
    pub fn new() -> (decoder: Self)
        ensures
            decoder@ == Seq::<u8>::empty(),
    {
        LineDecoder { buffer: Vec::new() }
    }

    /// Takes in what was read from the peer.
    pub fn extend(&mut self, bytes: &[u8])
        ensures
            final(self)@ == old(self)@ + bytes@,
    {
        self.buffer.extend_from_slice(bytes);
    }

    /// Hands out the next complete line, line feed included, and keeps the
    /// bytes behind it. Yields nothing, and keeps everything, while no line
    /// is complete. A line that is not UTF-8 is dropped with an error.
    pub fn decode(&mut self) -> (r: Result<Option<String>, InvalidUtf8>)
        ensures
            final(self)@ == split_line(old(self)@).1,
            match split_line(old(self)@).0 {
                None => r == Ok::<Option<String>, InvalidUtf8>(None),
                Some(line) => if valid_utf8(line) {
                    r matches Ok(Some(text)) && text@ == decode_utf8(line)
                } else {
                    r == Err::<Option<String>, InvalidUtf8>(InvalidUtf8)
                },
            },
    {
        match decode_line(&mut self.buffer) {
            Ok(line) => Ok(line),
            Err(_) => Err(InvalidUtf8),
        }
    }
}

} // verus!
