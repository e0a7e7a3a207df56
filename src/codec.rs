//! The frame codec: splits a byte stream into delimiter-terminated frames and
//! appends encoded commands to an outgoing buffer.
use bytes::BytesMut;
use vstd::prelude::*;
use vstd::utf8::{
    decode_utf8, encode_utf8, is_ascii_chars, is_ascii_chars_encode_utf8, valid_utf8,
};

use crate::command::{
    command_text, is_wire_text, lemma_command_text_is_frame, CommandModifier, LssCommand,
};
use crate::error::{LssDriverError, PacketParsingError, ParseFailure};
use crate::response::{parse_failure, LssResponse};

verus! {

/// `bytes::BytesMut`, the growable buffer that frames are read into and
/// written from; opaque here, and known only through `buffer_contents`.
#[verifier::external_type_specification]
#[verifier::external_body]
pub struct ExBytesMut(BytesMut);

/// The bytes that a buffer holds, in order.
pub uninterp spec fn buffer_contents(b: BytesMut) -> Seq<u8>;

/// Relies on `BytesMut`'s `AsRef<[u8]>`: the slice is what the buffer holds.
#[verifier::external_body]
fn buffer_bytes(b: &BytesMut) -> (r: &[u8])
    ensures
        r@ == buffer_contents(*b),
{
    b.as_ref()
}

/// Relies on `BytesMut::split_to`: the first `at` bytes move to the returned
/// buffer and the rest stay; it panics when `at` exceeds the length.
#[verifier::external_body]
fn split_front(b: &mut BytesMut, at: usize) -> (r: BytesMut)
    requires
        at <= buffer_contents(*old(b)).len(),
    ensures
        buffer_contents(r) == buffer_contents(*old(b)).take(at as int),
        buffer_contents(*final(b)) == buffer_contents(*old(b)).skip(at as int),
{
    b.split_to(at)
}

/// Relies on `BytesMut::extend_from_slice`: the bytes are appended; growing
/// the buffer past `isize::MAX` bytes panics.
#[verifier::external_body]
fn append_slice(b: &mut BytesMut, data: &[u8])
    requires
        buffer_contents(*old(b)).len() + data@.len() <= isize::MAX,
    ensures
        buffer_contents(*final(b)) == buffer_contents(*old(b)) + data@,
{
    b.extend_from_slice(data)
}

/// Relies on `std::str::from_utf8`: it accepts exactly the valid UTF-8 byte
/// sequences, and their text is the decoded characters.
#[verifier::external_body]
fn utf8_text(bytes: &[u8]) -> (r: Option<String>)
    ensures
        r is Some <==> valid_utf8(bytes@),
        r matches Some(s) ==> s@ == decode_utf8(bytes@),
{
    std::str::from_utf8(bytes).ok().map(str::to_owned)
}

/// The byte that ends every frame: carriage return.
pub const FRAME_DELIMITER: u8 = 0x0D;

/// No delimiter anywhere in the bytes.
pub open spec fn holds_no_delimiter(buf: Seq<u8>) -> bool {
    forall|i: int| 0 <= i < buf.len() ==> buf[i] != FRAME_DELIMITER
}

/// The first delimiter of the bytes is at `n`.
pub open spec fn first_delimiter_at(buf: Seq<u8>, n: int) -> bool {
    &&& 0 <= n < buf.len()
    &&& buf[n] == FRAME_DELIMITER
    &&& holds_no_delimiter(buf.take(n))
}

/// What decoding one complete frame gives: its text when it is UTF-8, and a
/// parse failure otherwise.
pub open spec fn frame_decoded(
    r: Result<Option<LssResponse>, LssDriverError>,
    frame: Seq<u8>,
) -> bool {
    if valid_utf8(frame) {
        r matches Ok(Some(response)) && response@ == decode_utf8(frame)
    } else {
        r matches Err(e) && parse_failure(e, ParseFailure::InvalidText, Seq::empty(), Seq::empty())
    }
}

/// The position of the first delimiter in the bytes, if any.
fn find_delimiter(bytes: &[u8]) -> (r: Option<usize>)
    ensures
        r is None ==> holds_no_delimiter(bytes@),
        r matches Some(n) ==> n < bytes.len() && first_delimiter_at(bytes@, n as int),
{
    let mut i: usize = 0;
    while i < bytes.len()
        invariant
            0 <= i <= bytes.len(),
            holds_no_delimiter(bytes@.take(i as int)),
        decreases bytes.len() - i,
    {
        if bytes[i] == FRAME_DELIMITER {
            return Some(i);
        }
        proof {
            assert forall|j: int| 0 <= j < i + 1 implies #[trigger] bytes@.take(i + 1)[j]
                != FRAME_DELIMITER by {
                if j < i {
                    assert(bytes@.take(i + 1)[j] == bytes@.take(i as int)[j]);
                }
            }
        }
        i = i + 1;
    }
    assert(bytes@.take(i as int) =~= bytes@);
    None
}

/// Splits frames off an incoming byte stream and encodes outgoing commands.
/// It holds no state of its own: the buffers belong to the transport.
pub struct LssCodec;

impl LssCodec {
    /// Takes the first complete frame off the front of `src`.
    ///
    /// Without a delimiter in `src` there is no frame yet and `src` is left
    /// as it is. Otherwise the bytes up to and including the first delimiter
    /// are removed, and the bytes after it stay for the next call; the frame
    /// becomes a response if it is UTF-8 text, and a parse failure if not.
    pub fn decode(&mut self, src: &mut BytesMut) -> (r: Result<Option<LssResponse>, LssDriverError>)
        ensures
            holds_no_delimiter(buffer_contents(*old(src))) ==> (r matches Ok(None)
                && buffer_contents(*final(src)) == buffer_contents(*old(src))),
            forall|n: int|
                #[trigger] first_delimiter_at(buffer_contents(*old(src)), n) ==> {
                    &&& buffer_contents(*final(src)) == buffer_contents(*old(src)).skip(n + 1)
                    &&& frame_decoded(r, buffer_contents(*old(src)).take(n + 1))
                },
    {
        let ghost before = buffer_contents(*src);
        let found = find_delimiter(buffer_bytes(src));
        match found {
            None => Ok(None),
            Some(n) => {
                proof {
                    assert forall|m: int| #[trigger] first_delimiter_at(before, m) implies m
                        == n by {
                        if m < n {
                            assert(before.take(n as int)[m] == before[m]);
                        } else if m > n {
                            assert(before.take(m)[n as int] == before[n as int]);
                        }
                    }
                }
                let line = split_front(src, n + 1);
                match utf8_text(buffer_bytes(&line)) {
                    Some(text) => Ok(Some(LssResponse::new(text))),
                    None => {
                        proof {
                            reveal_strlit("");
                            assert(""@ =~= Seq::<char>::empty());
                        }
                        Err(
                            LssDriverError::PayloadParseError(
                                PacketParsingError::new(ParseFailure::InvalidText, "", ""),
                            ),
                        )
                    },
                }
            },
        }
    }

    /// Appends the command's bytes to `buf`, verbatim: its text already
    /// starts with the start marker and ends with the delimiter. A buffer
    /// that would outgrow `isize::MAX` bytes is refused and left as it is.
    pub fn encode(&mut self, data: LssCommand, buf: &mut BytesMut) -> (r: Result<(), LssDriverError>)
        ensures
            buffer_contents(*old(buf)).len() + encode_utf8(data@).len() <= isize::MAX ==> {
                &&& r is Ok
                &&& buffer_contents(*final(buf)) == buffer_contents(*old(buf)) + encode_utf8(data@)
            },
            buffer_contents(*old(buf)).len() + encode_utf8(data@).len() > isize::MAX ==> {
                &&& r == Err::<(), LssDriverError>(LssDriverError::SendFailed)
                &&& buffer_contents(*final(buf)) == buffer_contents(*old(buf))
            },
    {
        let bytes = data.as_bytes();
        let held = buffer_bytes(buf).len();
        if held > isize::MAX as usize || bytes.len() > isize::MAX as usize - held {
            return Err(LssDriverError::SendFailed);
        }
        append_slice(buf, bytes);
        Ok(())
    }
}

/// Round trip: the bytes that encoding a command appends to an empty buffer
/// hold exactly one frame, ending at the last byte; decoding it gives back the
/// command's text, and nothing stays buffered.
pub proof fn lemma_codec_round_trip(
    id: u8,
    opcode: Seq<char>,
    parameter: Option<i32>,
    modifiers: Seq<CommandModifier>,
)
    requires
        is_wire_text(opcode),
    ensures
        ({
            let text = command_text(id, opcode, parameter, modifiers);
            let bytes = Seq::<u8>::empty() + encode_utf8(text);
            &&& first_delimiter_at(bytes, bytes.len() - 1)
            &&& valid_utf8(bytes.take(bytes.len() as int))
            &&& decode_utf8(bytes.take(bytes.len() as int)) == text
            &&& bytes.skip(bytes.len() as int) == Seq::<u8>::empty()
        }),
{
    broadcast use vstd::utf8::group_utf8_lib;

    let text = command_text(id, opcode, parameter, modifiers);
    let bytes = Seq::<u8>::empty() + encode_utf8(text);
    lemma_command_text_is_frame(id, opcode, parameter, modifiers);
    let head = text.drop_last();
    assert(is_ascii_chars(text)) by {
        assert forall|i: int| 0 <= i < text.len() implies '\0' <= #[trigger] text[i] <= '\u{7f}' by {
            if i < text.len() - 1 {
                assert(text[i] == head[i]);
            }
        }
    }
    is_ascii_chars_encode_utf8(text);
    assert(bytes =~= encode_utf8(text));
    let n = bytes.len() - 1;
    assert(bytes[n] == FRAME_DELIMITER) by {
        assert(text[n] == '\r');
        assert(text[n] as u8 == bytes[n]);
    }
    assert forall|j: int| 0 <= j < n implies #[trigger] bytes.take(n)[j] != FRAME_DELIMITER by {
        assert(bytes.take(n)[j] == bytes[j]);
        assert(text[j] as u8 == bytes[j]);
        assert(text[j] == head[j]);
        assert('\0' <= head[j] <= '\u{7f}' && head[j] != '\r');
    }
    assert(bytes.take(bytes.len() as int) =~= bytes);
    assert(bytes.skip(bytes.len() as int) =~= Seq::<u8>::empty());
}

/// Partial frames: the first `n` bytes of a frame hold no delimiter, so the
/// decoder reports no frame for them, however many have arrived. Once the
/// remaining bytes are appended, the buffer holds exactly that frame.
pub proof fn lemma_partial_frame(frame: Seq<u8>, n: int)
    requires
        first_delimiter_at(frame, frame.len() - 1),
        0 <= n < frame.len(),
    ensures
        holds_no_delimiter(frame.take(n)),
        first_delimiter_at(frame.take(n) + frame.skip(n), frame.len() - 1),
        (frame.take(n) + frame.skip(n)).take(frame.len() as int) == frame,
        (frame.take(n) + frame.skip(n)).skip(frame.len() as int) == Seq::<u8>::empty(),
{
    let last = frame.len() - 1;
    assert forall|j: int| 0 <= j < n implies #[trigger] frame.take(n)[j] != FRAME_DELIMITER by {
        assert(frame.take(n)[j] == frame.take(last)[j]);
    }
    assert(frame.take(n) + frame.skip(n) =~= frame);
    assert(frame.take(frame.len() as int) =~= frame);
    assert(frame.skip(frame.len() as int) =~= Seq::<u8>::empty());
}

/// Frames that arrive together come out one per call: the first frame is
/// taken, and what follows it stays in the buffer untouched, however many
/// further frames or partial frames it holds.
pub proof fn lemma_frames_one_at_a_time(first: Seq<u8>, rest: Seq<u8>)
    requires
        first_delimiter_at(first, first.len() - 1),
    ensures
        first_delimiter_at(first + rest, first.len() - 1),
        (first + rest).take(first.len() as int) == first,
        (first + rest).skip(first.len() as int) == rest,
{
    let last = first.len() - 1;
    assert((first + rest).take(last) =~= first.take(last));
    assert((first + rest).take(first.len() as int) =~= first);
    assert((first + rest).skip(first.len() as int) =~= rest);
}

} // verus!
