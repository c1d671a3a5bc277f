//! The frame codec: CR LF terminated lines with a bounded length.

use crate::buffer::{advance, as_slice, contents, put, put_u8, reserve, split_to};
use crate::framing::{
    decode_eof_spec, decode_spec, discard, first_delimiter, fresh, lemma_decode_bounds,
    lemma_first_delimiter, Scan, ScanState, CR, LF, MAX_LENGTH,
};
use crate::text::{text_of, utf8};
use bytes::BytesMut;
use vstd::prelude::*;
use vstd::slice::slice_to_vec;
use vstd::string::{StringExecFns, StringSliceAdditionalSpecFns};

verus! {

/// `std::io::Error`, taken as it is: the codec carries it and never looks
/// inside.
#[verifier::external_type_specification]
#[verifier::external_body]
pub struct ExIoError(std::io::Error);

/// Why decoding or encoding stopped.
#[derive(Debug)]
pub enum OGNCodecError {
    /// The maximum line length was exceeded.
    MaxLineLengthExceeded,
    /// An IO error occurred.
    Io(std::io::Error),
}

impl From<std::io::Error> for OGNCodecError {
    fn from(e: std::io::Error) -> (err: OGNCodecError) {
        OGNCodecError::Io(e)
    }
}

impl vstd::std_specs::convert::FromSpecImpl<std::io::Error> for OGNCodecError {
    open spec fn obeys_from_spec() -> bool {
        true
    }

    open spec fn from_spec(e: std::io::Error) -> OGNCodecError {
        OGNCodecError::Io(e)
    }
}

/// `ToString::to_string` of a `std::io::Error`: the text that its `Display`
/// writes. Nothing is claimed of it.
#[verifier::external_body]
fn io_error_text(e: &std::io::Error) -> String {
    e.to_string()
}

impl OGNCodecError {
    /// The error in words.
    pub fn message(&self) -> (text: String)
        ensures
            match self {
                OGNCodecError::MaxLineLengthExceeded => text@ == "max line length exceeded"@,
                OGNCodecError::Io(_) => text@.len() >= "I/O error: "@.len() && text@.take(
                    "I/O error: "@.len() as int,
                ) == "I/O error: "@,
            },
    {
        match self {
            OGNCodecError::MaxLineLengthExceeded => "max line length exceeded".to_owned(),
            OGNCodecError::Io(e) => {
                let mut text = "I/O error: ".to_owned();
                let cause = io_error_text(e);
                text.append(cause.as_str());
                assert(text@.take("I/O error: "@.len() as int) =~= "I/O error: "@);
                text
            },
        }
    }
}

/// Splits a byte stream into CR LF terminated frames and appends the
/// delimiter to outgoing lines.
pub struct OGNCodec {
    next_index: usize,
    is_discarding: bool,
}

impl View for OGNCodec {
    type V = ScanState;

    closed spec fn view(&self) -> ScanState {
        ScanState { next_index: self.next_index as int, discarding: self.is_discarding }
    }
}

/// Looks for the first delimiter that starts at `from` or later and ends
/// before `to`.
fn find_delimiter(bytes: &[u8], from: usize, to: usize) -> (found: Option<usize>)
    requires
        to <= bytes@.len(),
    ensures
        match found {
            Some(at) => first_delimiter(bytes@, from as int, to as int) == Some(at as int) && at
                + 1 < to,
            None => first_delimiter(bytes@, from as int, to as int) is None,
        },
{
    proof {
        lemma_first_delimiter(bytes@, from as int, to as int);
    }
    if to == 0 {
        return None;
    }
    let mut i: usize = from;
    while i < to - 1
        invariant
            0 < to <= bytes@.len(),
            from <= i,
            first_delimiter(bytes@, i as int, to as int) == first_delimiter(
                bytes@,
                from as int,
                to as int,
            ),
        decreases to - i,
    {
        if bytes[i] == CR && bytes[i + 1] == LF {
            return Some(i);
        }
        i += 1;
    }
    None
}

impl OGNCodec {
    /// A codec at the start of a stream.
    pub fn new() -> (codec: OGNCodec)
        ensures
            codec@ == fresh(),
    {
        OGNCodec { next_index: 0, is_discarding: false }
    }

    /// The frame length limit: an arbitrary but sane bound that keeps memory
    /// use finite when no delimiter ever arrives.
    pub fn max_length(&self) -> (limit: usize)
        ensures
            limit == MAX_LENGTH,
    {
        MAX_LENGTH
    }

    /// How many leading positions of the buffer the codec has looked at
    /// without finding a delimiter.
    pub fn next_index(&self) -> (index: usize)
        ensures
            index == self@.next_index,
    {
        self.next_index
    }

    /// Whether the codec is dropping the bytes of a frame that is too long.
    pub fn is_discarding(&self) -> (discarding: bool)
        ensures
            discarding == self@.discarding,
    {
        self.is_discarding
    }

    /// One decoding step; a frame comes out as the buffer that was split off.
    fn next_frame(&mut self, buf: &mut BytesMut) -> (r: Result<Option<BytesMut>, OGNCodecError>)
        ensures
            ({
                let step = decode_spec(old(self)@, contents(*old(buf)));
                &&& final(self)@ == step.state
                &&& contents(*final(buf)) == step.rest
                &&& match r {
                    Ok(Some(frame)) => step.result == Scan::Frame(contents(frame)),
                    Ok(None) => step.result is Pending,
                    Err(e) => e is MaxLineLengthExceeded && step.result is TooLong,
                }
            }),
    {
        loop
            invariant
                decode_spec(self@, contents(*buf)) == decode_spec(old(self)@, contents(*old(buf))),
            decreases contents(*buf).len(),
        {
            let bytes = as_slice(buf);
            let len = bytes.len();
            let read_to = if len < self.max_length() + 2 {
                len
            } else {
                self.max_length() + 2
            };
            if read_to == 0 {
                return Ok(None);
            }
            let crlf_offset = find_delimiter(bytes, self.next_index, read_to);
            match (self.is_discarding, crlf_offset) {
                (true, Some(offset)) => {
                    advance(buf, offset + 2);
                    self.is_discarding = false;
                    self.next_index = 0;
                },
                (true, None) => {
                    advance(buf, read_to);
                    self.next_index = 0;
                    if as_slice(buf).is_empty() {
                        assert(contents(*buf) =~= Seq::empty());
                        assert(discard(0, contents(*buf)) is None);
                        return Ok(None);
                    }
                },
                (false, Some(offset)) => {
                    self.next_index = 0;
                    let frame = split_to(buf, offset);
                    advance(buf, 2);
                    return Ok(Some(frame));
                },
                (false, None) => {
                    if len > self.max_length() {
                        self.is_discarding = true;
                        return Err(OGNCodecError::MaxLineLengthExceeded);
                    } else {
                        self.next_index = read_to - 1;
                        return Ok(None);
                    }
                },
            }
        }
    }

    /// The step that is made once the transport has closed; a frame comes
    /// out as the buffer that was split off.
    fn last_frame(&mut self, buf: &mut BytesMut) -> (r: Result<Option<BytesMut>, OGNCodecError>)
        ensures
            ({
                let step = decode_eof_spec(old(self)@, contents(*old(buf)));
                &&& final(self)@ == step.state
                &&& contents(*final(buf)) == step.rest
                &&& match r {
                    Ok(Some(frame)) => step.result == Scan::Frame(contents(frame)),
                    Ok(None) => step.result is Pending,
                    Err(e) => e is MaxLineLengthExceeded && step.result is TooLong,
                }
            }),
    {
        match self.next_frame(buf) {
            Ok(Some(frame)) => Ok(Some(frame)),
            Ok(None) => {
                let bytes = as_slice(buf);
                let len = bytes.len();
                if len == 0 || (len == 1 && bytes[0] == CR) {
                    assert(len == 1 ==> contents(*buf) =~= seq![CR]);
                    Ok(None)
                } else {
                    assert(contents(*buf) != seq![CR]) by {
                        if contents(*buf) == seq![CR] {
                            assert(seq![CR].len() == 1 && seq![CR][0] == CR);
                        }
                    }
                    let ghost rest = contents(*buf);
                    self.next_index = 0;
                    let frame = split_to(buf, len);
                    assert(contents(frame) =~= rest);
                    assert(contents(*buf) =~= Seq::empty());
                    Ok(Some(frame))
                }
            },
            Err(e) => Err(e),
        }
    }

    /// Takes the next frame off the front of `buf`, as bytes and without its
    /// delimiter. `Ok(None)` asks for more input; the error is returned once
    /// for each frame that is too long, and the bytes of that frame are
    /// dropped by the calls that follow.
    pub fn decode_frame(&mut self, buf: &mut BytesMut) -> (r: Result<Option<Vec<u8>>, OGNCodecError>)
        ensures
            ({
                let step = decode_spec(old(self)@, contents(*old(buf)));
                &&& final(self)@ == step.state
                &&& contents(*final(buf)) == step.rest
                &&& match r {
                    Ok(Some(frame)) => step.result == Scan::Frame(frame@),
                    Ok(None) => step.result is Pending,
                    Err(e) => e is MaxLineLengthExceeded && step.result is TooLong,
                }
            }),
    {
        match self.next_frame(buf) {
            Ok(Some(frame)) => Ok(Some(slice_to_vec(as_slice(&frame)))),
            Ok(None) => Ok(None),
            Err(e) => Err(e),
        }
    }

    /// Takes the last frame of a stream whose transport has closed: the next
    /// frame as `decode_frame` finds it, or else what is left in the buffer,
    /// unless that is nothing or a lone carriage return.
    pub fn decode_frame_eof(&mut self, buf: &mut BytesMut) -> (r: Result<
        Option<Vec<u8>>,
        OGNCodecError,
    >)
        ensures
            ({
                let step = decode_eof_spec(old(self)@, contents(*old(buf)));
                &&& final(self)@ == step.state
                &&& contents(*final(buf)) == step.rest
                &&& match r {
                    Ok(Some(frame)) => step.result == Scan::Frame(frame@),
                    Ok(None) => step.result is Pending,
                    Err(e) => e is MaxLineLengthExceeded && step.result is TooLong,
                }
            }),
    {
        match self.last_frame(buf) {
            Ok(Some(frame)) => Ok(Some(slice_to_vec(as_slice(&frame)))),
            Ok(None) => Ok(None),
            Err(e) => Err(e),
        }
    }

    /// Takes the next frame off the front of `buf` and decodes it to text.
    pub fn decode(&mut self, buf: &mut BytesMut) -> (r: Result<Option<String>, OGNCodecError>)
        ensures
            ({
                let step = decode_spec(old(self)@, contents(*old(buf)));
                &&& final(self)@ == step.state
                &&& contents(*final(buf)) == step.rest
                &&& match r {
                    Ok(Some(line)) => step.result matches Scan::Frame(frame) && line@ == text_of(
                        frame,
                    ),
                    Ok(None) => step.result is Pending,
                    Err(e) => e is MaxLineLengthExceeded && step.result is TooLong,
                }
            }),
    {
        proof {
            lemma_decode_bounds(self@, contents(*buf));
        }
        match self.next_frame(buf) {
            Ok(Some(frame)) => Ok(Some(utf8(as_slice(&frame)))),
            Ok(None) => Ok(None),
            Err(e) => Err(e),
        }
    }

    /// Takes the last frame of a stream whose transport has closed and
    /// decodes it to text.
    pub fn decode_eof(&mut self, buf: &mut BytesMut) -> (r: Result<Option<String>, OGNCodecError>)
        ensures
            ({
                let step = decode_eof_spec(old(self)@, contents(*old(buf)));
                &&& final(self)@ == step.state
                &&& contents(*final(buf)) == step.rest
                &&& match r {
                    Ok(Some(line)) => step.result matches Scan::Frame(frame) && line@ == text_of(
                        frame,
                    ),
                    Ok(None) => step.result is Pending,
                    Err(e) => e is MaxLineLengthExceeded && step.result is TooLong,
                }
            }),
    {
        proof {
            lemma_decode_bounds(self@, contents(*buf));
        }
        match self.last_frame(buf) {
            Ok(Some(frame)) => Ok(Some(utf8(as_slice(&frame)))),
            Ok(None) => Ok(None),
            Err(e) => Err(e),
        }
    }

    /// Appends `line` and the delimiter to `buf`.
    pub fn encode(&mut self, line: &str, buf: &mut BytesMut) -> (r: Result<(), OGNCodecError>)
        requires
            contents(*old(buf)).len() + line.spec_bytes().len() + 2 <= isize::MAX,
        ensures
            r is Ok,
            final(self)@ == old(self)@,
            contents(*final(buf)) == contents(*old(buf)) + line.spec_bytes() + seq![CR, LF],
    {
        let bytes = line.as_bytes();
        reserve(buf, bytes.len() + 2);
        put(buf, bytes);
        put_u8(buf, CR);
        put_u8(buf, LF);
        assert(contents(*buf) =~= contents(*old(buf)) + line.spec_bytes() + seq![CR, LF]);
        Ok(())
    }
}

} // verus!
