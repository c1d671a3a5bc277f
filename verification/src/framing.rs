//! The mathematical model of framing: where delimiters are, and what one
//! decoding step does to the scan state and to the buffer.

use vstd::prelude::*;

verus! {

/// Carriage return, the first byte of the delimiter.
pub const CR: u8 = 13;

/// Line feed, the second byte of the delimiter.
pub const LF: u8 = 10;

/// The longest frame, in bytes and without its delimiter, that the decoder
/// accepts.
pub const MAX_LENGTH: usize = 4096;

/// What a codec remembers between two calls.
pub struct ScanState {
    /// How many leading positions of the buffer are known to start no
    /// delimiter.
    pub next_index: int,
    /// Whether the bytes up to the next delimiter belong to a frame that was
    /// reported as too long.
    pub discarding: bool,
}

/// The outcome of one decoding step.
pub enum Scan {
    /// A complete frame, without its delimiter.
    Frame(Seq<u8>),
    /// No complete frame yet: more input is needed.
    Pending,
    /// The buffer holds more than `MAX_LENGTH` bytes and no delimiter in
    /// reach.
    TooLong,
}

/// A decoding step as a value: the state and the buffer it leaves, and what
/// it reports.
pub struct Decoded {
    pub state: ScanState,
    pub rest: Seq<u8>,
    pub result: Scan,
}

/// The state of a codec at the start of a stream, and after every frame.
pub open spec fn fresh() -> ScanState {
    ScanState { next_index: 0, discarding: false }
}

/// A delimiter starts at position `i` of `s`.
pub open spec fn delimiter_at(s: Seq<u8>, i: int) -> bool {
    0 <= i && i + 1 < s.len() && s[i] == CR && s[i + 1] == LF
}

/// The first position from `from` on at which a delimiter starts that ends
/// before `to`.
pub open spec fn first_delimiter(s: Seq<u8>, from: int, to: int) -> Option<int>
    decreases to - from,
{
    if from + 1 >= to {
        None
    } else if delimiter_at(s, from) {
        Some(from)
    } else {
        first_delimiter(s, from + 1, to)
    }
}

/// How many bytes of a buffer of `len` bytes one step looks at: a frame of
/// `MAX_LENGTH` bytes and its delimiter at most.
pub open spec fn window(len: int) -> int {
    if len < MAX_LENGTH + 2 {
        len
    } else {
        MAX_LENGTH + 2
    }
}

/// One step of a codec that is not discarding and has already looked at the
/// first `next_index` positions.
pub open spec fn scan(next_index: int, buf: Seq<u8>) -> Decoded {
    let to = window(buf.len() as int);
    if to == 0 {
        Decoded {
            state: ScanState { next_index, discarding: false },
            rest: buf,
            result: Scan::Pending,
        }
    } else {
        match first_delimiter(buf, next_index, to) {
            Some(at) => Decoded {
                state: fresh(),
                rest: buf.skip(at + 2),
                result: Scan::Frame(buf.take(at)),
            },
            None => if buf.len() > MAX_LENGTH {
                Decoded {
                    state: ScanState { next_index, discarding: true },
                    rest: buf,
                    result: Scan::TooLong,
                }
            } else {
                Decoded {
                    state: ScanState { next_index: to - 1, discarding: false },
                    rest: buf,
                    result: Scan::Pending,
                }
            },
        }
    }
}

/// What a discarding codec keeps of a buffer: the bytes behind the first
/// delimiter it finds, window by window, or nothing where the buffer ends
/// before one is found.
pub open spec fn discard(next_index: int, buf: Seq<u8>) -> Option<Seq<u8>>
    decreases buf.len(),
{
    let to = window(buf.len() as int);
    if to == 0 {
        None
    } else {
        match first_delimiter(buf, next_index, to) {
            Some(at) => Some(buf.skip(at + 2)),
            None => discard(0, buf.skip(to)),
        }
    }
}

/// One call of the decoder on a codec in `state` and a buffer holding `buf`.
pub open spec fn decode_spec(state: ScanState, buf: Seq<u8>) -> Decoded {
    if !state.discarding {
        scan(state.next_index, buf)
    } else if buf.len() == 0 {
        Decoded { state, rest: buf, result: Scan::Pending }
    } else {
        match discard(state.next_index, buf) {
            Some(rest) => scan(0, rest),
            None => Decoded {
                state: ScanState { next_index: 0, discarding: true },
                rest: Seq::empty(),
                result: Scan::Pending,
            },
        }
    }
}

/// The call that is made once the transport has closed: a last decoding
/// step, after which what is left in the buffer is a frame of its own, unless
/// nothing is left or only the first byte of a delimiter.
pub open spec fn decode_eof_spec(state: ScanState, buf: Seq<u8>) -> Decoded {
    let last = decode_spec(state, buf);
    if last.result is Pending && last.rest.len() > 0 && last.rest != seq![CR] {
        Decoded {
            state: ScanState { next_index: 0, discarding: last.state.discarding },
            rest: Seq::empty(),
            result: Scan::Frame(last.rest),
        }
    } else {
        last
    }
}

/// What `first_delimiter` finds is a delimiter inside the range, and the
/// first one; where it finds none, there is none.
pub proof fn lemma_first_delimiter(s: Seq<u8>, from: int, to: int)
    ensures
        match first_delimiter(s, from, to) {
            Some(at) => from <= at && at + 1 < to && delimiter_at(s, at) && forall|j: int|
                from <= j < at ==> !delimiter_at(s, j),
            None => forall|j: int| from <= j && j + 1 < to ==> !delimiter_at(s, j),
        },
    decreases to - from,
{
    if from + 1 < to && !delimiter_at(s, from) {
        lemma_first_delimiter(s, from + 1, to);
    }
}

/// A frame is never longer than `MAX_LENGTH`, a step that asks for more
/// input leaves at most `MAX_LENGTH` bytes behind, and no step adds a byte:
/// with its delimiter a frame is as long as what left the buffer at least.
/// The report of a frame that is too long leaves the codec discarding, and
/// the buffer as it was unless the codec was discarding already.
pub proof fn lemma_decode_bounds(state: ScanState, buf: Seq<u8>)
    ensures
        ({
            let step = decode_spec(state, buf);
            let last = decode_eof_spec(state, buf);
            &&& step.rest.len() <= buf.len()
            &&& step.result matches Scan::Frame(frame) ==> frame.len() <= MAX_LENGTH
                && frame.len() + 2 + step.rest.len() <= buf.len()
            &&& step.result is Pending ==> step.rest.len() <= MAX_LENGTH
            &&& step.result is TooLong ==> step.state.discarding && if state.discarding {
                step.rest.len() + 2 <= buf.len()
            } else {
                step.rest == buf
            }
            &&& last.result matches Scan::Frame(frame) ==> frame.len() <= MAX_LENGTH
        }),
{
    if !state.discarding {
        lemma_scan_bounds(state.next_index, buf);
    } else if buf.len() > 0 {
        lemma_discard_shrinks(state.next_index, buf);
        if let Some(rest) = discard(state.next_index, buf) {
            lemma_scan_bounds(0, rest);
        }
    }
}

/// The positions that a codec has marked as looked at stay inside the
/// buffer.
pub proof fn lemma_cursor_in_buffer(state: ScanState, buf: Seq<u8>)
    requires
        0 <= state.next_index <= buf.len(),
    ensures
        0 <= decode_spec(state, buf).state.next_index <= decode_spec(state, buf).rest.len(),
        0 <= decode_eof_spec(state, buf).state.next_index <= decode_eof_spec(
            state,
            buf,
        ).rest.len(),
{
    if !state.discarding {
        lemma_first_delimiter(buf, state.next_index, window(buf.len() as int));
    } else if let Some(rest) = discard(state.next_index, buf) {
        lemma_first_delimiter(rest, 0, window(rest.len() as int));
    }
}

proof fn lemma_scan_bounds(next_index: int, buf: Seq<u8>)
    ensures
        ({
            let step = scan(next_index, buf);
            &&& step.rest.len() <= buf.len()
            &&& step.result matches Scan::Frame(frame) ==> frame.len() <= MAX_LENGTH
                && frame.len() + 2 + step.rest.len() <= buf.len()
            &&& step.result is Pending ==> step.rest.len() <= MAX_LENGTH
            &&& step.result is TooLong ==> step.state.discarding && step.rest == buf
        }),
{
    lemma_first_delimiter(buf, next_index, window(buf.len() as int));
}

proof fn lemma_discard_shrinks(next_index: int, buf: Seq<u8>)
    ensures
        discard(next_index, buf) matches Some(rest) ==> rest.len() + 2 <= buf.len(),
    decreases buf.len(),
{
    let to = window(buf.len() as int);
    if to > 0 {
        lemma_first_delimiter(buf, next_index, to);
        if first_delimiter(buf, next_index, to) is None {
            lemma_discard_shrinks(0, buf.skip(to));
        }
    }
}

} // verus!
