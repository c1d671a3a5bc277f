//! The decoder on a whole stream: which frames a stream holds, what a reader
//! gets when it feeds the stream to the decoder chunk by chunk, and the laws
//! that tie the two together.

use crate::framing::{
    decode_spec, delimiter_at, discard, first_delimiter, fresh, lemma_decode_bounds,
    lemma_first_delimiter, window, Scan, ScanState, CR, LF, MAX_LENGTH,
};
use crate::text::{lemma_utf8_round_trip, text_of};
use vstd::prelude::*;
use vstd::seq_lib::lemma_flatten_concat;
use vstd::utf8::encode_utf8;

verus! {

/// No delimiter starts anywhere in `s`.
pub open spec fn no_delimiter(s: Seq<u8>) -> bool {
    forall|i: int| !delimiter_at(s, i)
}

/// The frames of a stream that are complete, in order: each runs up to the
/// first delimiter behind the frame before it.
pub open spec fn frames_in(stream: Seq<u8>) -> Seq<Seq<u8>>
    decreases stream.len(),
    via frames_in_decreases
{
    match first_delimiter(stream, 0, stream.len() as int) {
        Some(at) => seq![stream.take(at)] + frames_in(stream.skip(at + 2)),
        None => Seq::empty(),
    }
}

#[via_fn]
proof fn frames_in_decreases(stream: Seq<u8>) {
    lemma_first_delimiter(stream, 0, stream.len() as int);
}

/// What a stream holds behind its last delimiter: the beginning of a frame
/// that is not complete yet.
pub open spec fn remainder(stream: Seq<u8>) -> Seq<u8>
    decreases stream.len(),
    via remainder_decreases
{
    match first_delimiter(stream, 0, stream.len() as int) {
        Some(at) => remainder(stream.skip(at + 2)),
        None => stream,
    }
}

#[via_fn]
proof fn remainder_decreases(stream: Seq<u8>) {
    lemma_first_delimiter(stream, 0, stream.len() as int);
}

/// No complete frame of the stream is longer than `limit`, and its remainder
/// is not longer than `MAX_LENGTH`.
pub open spec fn lines_within(stream: Seq<u8>, limit: int) -> bool
    decreases stream.len(),
    via lines_within_decreases
{
    match first_delimiter(stream, 0, stream.len() as int) {
        Some(at) => at <= limit && lines_within(stream.skip(at + 2), limit),
        None => stream.len() <= MAX_LENGTH,
    }
}

#[via_fn]
proof fn lines_within_decreases(stream: Seq<u8>, limit: int) {
    lemma_first_delimiter(stream, 0, stream.len() as int);
}

/// The stream is one that the decoder takes in one piece: no frame is longer
/// than `MAX_LENGTH`, nor is what has arrived of the frame that is not
/// complete yet, the first byte of its delimiter counted.
pub open spec fn lines_fit(stream: Seq<u8>) -> bool {
    lines_within(stream, MAX_LENGTH as int)
}

/// The stream is one that the decoder takes however it is cut: every frame
/// is shorter than `MAX_LENGTH`.
pub open spec fn lines_short(stream: Seq<u8>) -> bool {
    lines_within(stream, MAX_LENGTH - 1)
}

/// A frame that can be sent and read back however the stream is cut: it
/// holds no delimiter and is shorter than `MAX_LENGTH`.
pub open spec fn well_formed(frame: Seq<u8>) -> bool {
    no_delimiter(frame) && frame.len() < MAX_LENGTH
}

/// The bytes that encoding writes for `frames`: each frame with the
/// delimiter behind it.
pub open spec fn encode_frames(frames: Seq<Seq<u8>>) -> Seq<u8>
    decreases frames.len(),
{
    if frames.len() == 0 {
        Seq::empty()
    } else {
        frames.first() + seq![CR, LF] + encode_frames(frames.drop_first())
    }
}

/// What a reader gets from the decoder, one item for each call that does not
/// ask for more input.
pub enum Yielded {
    /// A frame.
    Frame(Seq<u8>),
    /// The report of a frame that is too long.
    TooLong,
}

/// What a run of decoder calls has yielded, and the state and the buffer it
/// leaves.
pub struct Drained {
    pub items: Seq<Yielded>,
    pub state: ScanState,
    pub rest: Seq<u8>,
}

/// The frames as a reader gets them.
pub open spec fn as_frames(frames: Seq<Seq<u8>>) -> Seq<Yielded> {
    Seq::new(frames.len(), |i: int| Yielded::Frame(frames[i]))
}

/// The decoder called on one buffer again and again until it asks for more
/// input.
pub open spec fn drain(state: ScanState, buf: Seq<u8>) -> Drained
    decreases buf.len(), (if state.discarding { 0int } else { 1int }),
    via drain_decreases
{
    let step = decode_spec(state, buf);
    match step.result {
        Scan::Frame(frame) => {
            let more = drain(step.state, step.rest);
            Drained { items: seq![Yielded::Frame(frame)] + more.items, ..more }
        },
        Scan::TooLong => {
            let more = drain(step.state, step.rest);
            Drained { items: seq![Yielded::TooLong] + more.items, ..more }
        },
        Scan::Pending => Drained { items: Seq::empty(), state: step.state, rest: step.rest },
    }
}

#[via_fn]
proof fn drain_decreases(state: ScanState, buf: Seq<u8>) {
    lemma_decode_bounds(state, buf);
}

/// The decoder fed chunk by chunk: every chunk is appended to the buffer,
/// which is then drained.
pub open spec fn feed(state: ScanState, buf: Seq<u8>, chunks: Seq<Seq<u8>>) -> Drained
    decreases chunks.len(),
{
    if chunks.len() == 0 {
        Drained { items: Seq::empty(), state, rest: buf }
    } else {
        let first = drain(state, buf + chunks.first());
        let more = feed(first.state, first.rest, chunks.drop_first());
        Drained { items: first.items + more.items, ..more }
    }
}

/// Each time a chunk has arrived behind `buf`, what has arrived so far is a
/// stream that the decoder takes in one piece.
pub open spec fn reads_fit(buf: Seq<u8>, chunks: Seq<Seq<u8>>) -> bool {
    forall|k: int| 1 <= k <= chunks.len() ==> lines_fit(buf + (#[trigger] chunks.take(k)).flatten())
}

/// The codec is not discarding, and the positions it has marked as looked at
/// start no delimiter and lie before the last byte of `buf`.
pub open spec fn scanned(state: ScanState, buf: Seq<u8>) -> bool {
    &&& !state.discarding
    &&& 0 <= state.next_index
    &&& state.next_index == 0 || state.next_index < buf.len()
    &&& forall|j: int| 0 <= j < state.next_index ==> !delimiter_at(buf, j)
}

/// The delimiter behind a frame of `len` bytes lies across the end of a
/// window of `MAX_LENGTH + 2` bytes: its first byte is the last one of the
/// window.
pub open spec fn delimiter_straddles_window(len: int) -> bool {
    (len + 1) % (MAX_LENGTH as int + 2) == 0
}

proof fn lemma_delimiter_is_first(s: Seq<u8>, from: int, to: int, at: int)
    requires
        from <= at,
        at + 1 < to,
        delimiter_at(s, at),
        forall|j: int| from <= j < at ==> !delimiter_at(s, j),
    ensures
        first_delimiter(s, from, to) == Some(at),
{
    lemma_first_delimiter(s, from, to);
}

proof fn lemma_no_delimiter_found(s: Seq<u8>, from: int, to: int)
    requires
        forall|j: int| from <= j && j + 1 < to ==> !delimiter_at(s, j),
    ensures
        first_delimiter(s, from, to) is None,
{
    lemma_first_delimiter(s, from, to);
}

proof fn lemma_delimiter_behind(junk: Seq<u8>, tail: Seq<u8>)
    requires
        no_delimiter(junk),
    ensures
        delimiter_at(junk + seq![CR, LF] + tail, junk.len() as int),
        forall|j: int| j < junk.len() ==> !delimiter_at(junk + seq![CR, LF] + tail, j),
{
    let buf = junk + seq![CR, LF] + tail;
    let at = junk.len() as int;
    assert(buf[at] == CR && buf[at + 1] == LF);
    assert forall|j: int| j < at implies !delimiter_at(buf, j) by {
        if 0 <= j {
            assert(!delimiter_at(junk, j));
            assert(buf[j] == junk[j]);
            if j + 1 < at {
                assert(buf[j + 1] == junk[j + 1]);
            }
        }
    }
}

/// A state that belongs to a buffer belongs to the buffer with more input
/// behind it.
pub proof fn lemma_scanned_append(state: ScanState, buf: Seq<u8>, chunk: Seq<u8>)
    requires
        scanned(state, buf),
    ensures
        scanned(state, buf + chunk),
{
    assert forall|j: int| 0 <= j < state.next_index implies !delimiter_at(buf + chunk, j) by {
        assert(!delimiter_at(buf, j));
        assert((buf + chunk)[j] == buf[j]);
        assert((buf + chunk)[j + 1] == buf[j + 1]);
    }
}

/// On a stream that the decoder takes in one piece, a codec that belongs to
/// it yields the first frame of the stream, or asks for more input where the
/// stream holds no complete frame.
pub proof fn lemma_step_on_stream(state: ScanState, buf: Seq<u8>)
    requires
        scanned(state, buf),
        lines_fit(buf),
    ensures
        ({
            let step = decode_spec(state, buf);
            match first_delimiter(buf, 0, buf.len() as int) {
                Some(at) => step.result == Scan::Frame(buf.take(at)) && step.rest == buf.skip(
                    at + 2,
                ) && step.state == fresh(),
                None => step.result is Pending && step.rest == buf && scanned(step.state, buf),
            }
        }),
{
    let len = buf.len() as int;
    let to = window(len);
    lemma_first_delimiter(buf, 0, len);
    match first_delimiter(buf, 0, len) {
        Some(at) => {
            lemma_delimiter_is_first(buf, state.next_index, to, at);
        },
        None => {
            lemma_no_delimiter_found(buf, state.next_index, to);
        },
    }
}

/// Draining a stream that the decoder takes in one piece yields its complete
/// frames and leaves its remainder.
pub proof fn lemma_drain_on_stream(state: ScanState, buf: Seq<u8>)
    requires
        scanned(state, buf),
        lines_fit(buf),
    ensures
        drain(state, buf).items == as_frames(frames_in(buf)),
        drain(state, buf).rest == remainder(buf),
        scanned(drain(state, buf).state, remainder(buf)),
    decreases buf.len(),
{
    lemma_step_on_stream(state, buf);
    lemma_first_delimiter(buf, 0, buf.len() as int);
    match first_delimiter(buf, 0, buf.len() as int) {
        Some(at) => {
            let rest = buf.skip(at + 2);
            lemma_drain_on_stream(fresh(), rest);
            assert(as_frames(frames_in(buf)) =~= seq![Yielded::Frame(buf.take(at))] + as_frames(
                frames_in(rest),
            ));
        },
        None => {
            assert(as_frames(frames_in(buf)) =~= Seq::empty());
        },
    }
}

/// The remainder of a stream holds no complete frame.
pub proof fn lemma_remainder_is_open(stream: Seq<u8>)
    ensures
        first_delimiter(remainder(stream), 0, remainder(stream).len() as int) is None,
    decreases stream.len(),
{
    lemma_first_delimiter(stream, 0, stream.len() as int);
    if let Some(at) = first_delimiter(stream, 0, stream.len() as int) {
        lemma_remainder_is_open(stream.skip(at + 2));
    }
}

/// A stream with more input behind it: the frames are those of the stream
/// and then those of its remainder with the input behind it. Where the
/// frames of the whole are within a limit, so are those of the remainder
/// with the input behind it, and those of the stream alone as well if the
/// limit is below `MAX_LENGTH`.
pub proof fn lemma_stream_append(stream: Seq<u8>, more: Seq<u8>, limit: int)
    ensures
        frames_in(stream + more) == frames_in(stream) + frames_in(remainder(stream) + more),
        remainder(stream + more) == remainder(remainder(stream) + more),
        lines_within(stream + more, limit) ==> lines_within(remainder(stream) + more, limit),
        lines_within(stream + more, limit) && limit < MAX_LENGTH ==> lines_within(stream, limit),
    decreases stream.len(),
{
    let whole = stream + more;
    lemma_first_delimiter(stream, 0, stream.len() as int);
    lemma_first_delimiter(whole, 0, whole.len() as int);
    match first_delimiter(stream, 0, stream.len() as int) {
        Some(at) => {
            assert forall|j: int| 0 <= j < at implies !delimiter_at(whole, j) by {
                assert(!delimiter_at(stream, j));
                assert(whole[j] == stream[j]);
                assert(whole[j + 1] == stream[j + 1]);
            }
            assert(whole[at] == stream[at] && whole[at + 1] == stream[at + 1]);
            lemma_delimiter_is_first(whole, 0, whole.len() as int, at);
            assert(whole.take(at) =~= stream.take(at));
            assert(whole.skip(at + 2) =~= stream.skip(at + 2) + more);
            lemma_stream_append(stream.skip(at + 2), more, limit);
            assert(frames_in(whole) =~= frames_in(stream) + frames_in(remainder(stream) + more));
        },
        None => {
            assert(frames_in(whole) =~= frames_in(stream) + frames_in(remainder(stream) + more));
            if lines_within(whole, limit) && limit < MAX_LENGTH {
                if let Some(at) = first_delimiter(whole, 0, whole.len() as int) {
                    if at + 1 < stream.len() {
                        assert(whole[at] == stream[at] && whole[at + 1] == stream[at + 1]);
                        assert(delimiter_at(stream, at));
                    }
                }
            }
        },
    }
}

/// A limit on the frames of a stream can be raised.
pub proof fn lemma_lines_within_more(stream: Seq<u8>, limit: int, more: int)
    requires
        lines_within(stream, limit),
        limit <= more,
    ensures
        lines_within(stream, more),
    decreases stream.len(),
{
    lemma_first_delimiter(stream, 0, stream.len() as int);
    if let Some(at) = first_delimiter(stream, 0, stream.len() as int) {
        lemma_lines_within_more(stream.skip(at + 2), limit, more);
    }
}

/// A stream of frames that are all shorter than `MAX_LENGTH` is taken in one
/// piece by the decoder wherever it is cut.
pub proof fn lemma_short_lines_fit_every_read(buf: Seq<u8>, chunks: Seq<Seq<u8>>)
    requires
        lines_short(buf + chunks.flatten()),
    ensures
        reads_fit(buf, chunks),
{
    assert forall|k: int| 1 <= k <= chunks.len() implies lines_fit(
        buf + (#[trigger] chunks.take(k)).flatten(),
    ) by {
        let arrived = buf + chunks.take(k).flatten();
        let ahead = chunks.skip(k).flatten();
        assert(chunks =~= chunks.take(k) + chunks.skip(k));
        lemma_flatten_concat(chunks.take(k), chunks.skip(k));
        assert(buf + chunks.flatten() =~= arrived + ahead);
        lemma_stream_append(arrived, ahead, MAX_LENGTH - 1);
        lemma_lines_within_more(arrived, MAX_LENGTH - 1, MAX_LENGTH as int);
    }
}

/// Chunk by chunk, a codec that belongs to its buffer yields the complete
/// frames of the whole input and keeps its remainder, where the decoder
/// takes in one piece what has arrived at each read.
pub proof fn lemma_feed_on_stream(state: ScanState, buf: Seq<u8>, chunks: Seq<Seq<u8>>)
    requires
        scanned(state, buf),
        first_delimiter(buf, 0, buf.len() as int) is None,
        reads_fit(buf, chunks),
    ensures
        feed(state, buf, chunks).items == as_frames(frames_in(buf + chunks.flatten())),
        feed(state, buf, chunks).rest == remainder(buf + chunks.flatten()),
    decreases chunks.len(),
{
    if chunks.len() == 0 {
        assert(buf + chunks.flatten() =~= buf);
        assert(as_frames(frames_in(buf)) =~= Seq::empty());
    } else {
        let head = buf + chunks.first();
        let tail = chunks.drop_first();
        assert(lines_fit(head)) by {
            let one = chunks.take(1);
            one.lemma_flatten_one_element();
            assert(one.first() == chunks.first());
        }
        assert forall|k: int| 1 <= k <= tail.len() implies lines_fit(
            remainder(head) + (#[trigger] tail.take(k)).flatten(),
        ) by {
            let arrived = chunks.take(k + 1);
            assert(arrived.drop_first() =~= tail.take(k));
            assert(buf + arrived.flatten() =~= head + tail.take(k).flatten());
            lemma_stream_append(head, tail.take(k).flatten(), MAX_LENGTH as int);
        }
        assert(buf + chunks.flatten() =~= head + tail.flatten());
        lemma_stream_append(head, tail.flatten(), MAX_LENGTH as int);
        lemma_scanned_append(state, buf, chunks.first());
        lemma_drain_on_stream(state, head);
        lemma_remainder_is_open(head);
        let first = drain(state, head);
        lemma_feed_on_stream(first.state, first.rest, tail);
        assert(as_frames(frames_in(head)) + as_frames(frames_in(remainder(head) + tail.flatten()))
            =~= as_frames(frames_in(head) + frames_in(remainder(head) + tail.flatten())));
    }
}

/// The encoding of frames without a delimiter inside holds exactly these
/// frames and nothing behind them. Where the frames are well-formed, the
/// encoding is a stream that the decoder takes however it is cut.
pub proof fn lemma_encoded_frames(frames: Seq<Seq<u8>>)
    requires
        forall|i: int| 0 <= i < frames.len() ==> no_delimiter(#[trigger] frames[i]),
    ensures
        frames_in(encode_frames(frames)) == frames,
        remainder(encode_frames(frames)) == Seq::<u8>::empty(),
        (forall|i: int| 0 <= i < frames.len() ==> well_formed(#[trigger] frames[i]))
            ==> lines_short(encode_frames(frames)),
    decreases frames.len(),
{
    if frames.len() == 0 {
        assert(frames_in(encode_frames(frames)) =~= frames);
    } else {
        let frame = frames.first();
        let rest = frames.drop_first();
        let stream = encode_frames(frames);
        let at = frame.len() as int;
        assert(no_delimiter(frames[0]));
        assert(stream =~= frame + seq![CR, LF] + encode_frames(rest));
        lemma_delimiter_behind(frame, encode_frames(rest));
        lemma_delimiter_is_first(stream, 0, stream.len() as int, at);
        assert(stream.take(at) =~= frame);
        assert(stream.skip(at + 2) =~= encode_frames(rest));
        assert forall|i: int| 0 <= i < rest.len() implies no_delimiter(#[trigger] rest[i]) by {
            assert(rest[i] == frames[i + 1]);
        }
        lemma_encoded_frames(rest);
        assert(seq![frame] + rest =~= frames);
        if forall|i: int| 0 <= i < frames.len() ==> well_formed(#[trigger] frames[i]) {
            assert(well_formed(frames[0]));
            assert forall|i: int| 0 <= i < rest.len() implies well_formed(#[trigger] rest[i]) by {
                assert(rest[i] == frames[i + 1]);
            }
        }
    }
}

/// A reader that starts with a new codec and an empty buffer gets exactly
/// the frames that were encoded, in order, and is left with an empty buffer,
/// where the decoder takes in one piece what has arrived at each read.
pub proof fn lemma_frames_survive_reads_that_fit(frames: Seq<Seq<u8>>, chunks: Seq<Seq<u8>>)
    requires
        forall|i: int| 0 <= i < frames.len() ==> no_delimiter(#[trigger] frames[i]),
        chunks.flatten() == encode_frames(frames),
        reads_fit(Seq::empty(), chunks),
    ensures
        feed(fresh(), Seq::empty(), chunks).items == as_frames(frames),
        feed(fresh(), Seq::empty(), chunks).rest == Seq::<u8>::empty(),
{
    lemma_encoded_frames(frames);
    assert(Seq::<u8>::empty() + chunks.flatten() =~= chunks.flatten());
    lemma_feed_on_stream(fresh(), Seq::empty(), chunks);
}

/// However the encoding of well-formed frames is cut into chunks, a reader
/// that starts with a new codec and an empty buffer gets exactly these
/// frames, in order, and is left with an empty buffer.
pub proof fn lemma_frames_survive_chunking(frames: Seq<Seq<u8>>, chunks: Seq<Seq<u8>>)
    requires
        forall|i: int| 0 <= i < frames.len() ==> well_formed(#[trigger] frames[i]),
        chunks.flatten() == encode_frames(frames),
    ensures
        feed(fresh(), Seq::empty(), chunks).items == as_frames(frames),
        feed(fresh(), Seq::empty(), chunks).rest == Seq::<u8>::empty(),
{
    lemma_encoded_frames(frames);
    assert(Seq::<u8>::empty() + chunks.flatten() =~= chunks.flatten());
    lemma_short_lines_fit_every_read(Seq::empty(), chunks);
    lemma_frames_survive_reads_that_fit(frames, chunks);
}

/// What the encoder writes for a line, the decoder reads back as that line,
/// where the line holds no delimiter and its bytes are no more than
/// `MAX_LENGTH`.
pub proof fn lemma_encoded_line_is_decoded(line: Seq<char>, tail: Seq<u8>)
    requires
        no_delimiter(encode_utf8(line)),
        encode_utf8(line).len() <= MAX_LENGTH,
    ensures
        ({
            let step = decode_spec(fresh(), encode_utf8(line) + seq![CR, LF] + tail);
            &&& step.result == Scan::Frame(encode_utf8(line))
            &&& text_of(encode_utf8(line)) == line
            &&& step.rest == tail
            &&& step.state == fresh()
        }),
{
    let frame = encode_utf8(line);
    let buf = frame + seq![CR, LF] + tail;
    lemma_utf8_round_trip(line);
    lemma_delimiter_behind(frame, tail);
    lemma_delimiter_is_first(buf, 0, window(buf.len() as int), frame.len() as int);
    assert(buf.take(frame.len() as int) =~= frame);
    assert(buf.skip(frame.len() as int + 2) =~= tail);
}

/// A discarding codec drops the bytes up to the delimiter that ends the
/// frame it is in and keeps what follows. It drops whole windows of
/// `MAX_LENGTH + 2` bytes on its way, so the delimiter is found unless its
/// first byte is the last one of such a window.
pub proof fn lemma_discard_to_delimiter(next_index: int, junk: Seq<u8>, tail: Seq<u8>)
    requires
        no_delimiter(junk),
        next_index <= junk.len(),
        !delimiter_straddles_window(junk.len() as int),
    ensures
        discard(next_index, junk + seq![CR, LF] + tail) == Some(tail),
    decreases junk.len(),
{
    let buf = junk + seq![CR, LF] + tail;
    let at = junk.len() as int;
    let to = window(buf.len() as int);
    lemma_delimiter_behind(junk, tail);
    if at + 1 < to {
        lemma_delimiter_is_first(buf, next_index, to, at);
        assert(buf.skip(at + 2) =~= tail);
    } else {
        lemma_no_delimiter_found(buf, next_index, to);
        let shorter = junk.skip(to);
        assert forall|i: int| !delimiter_at(shorter, i) by {
            if delimiter_at(shorter, i) {
                assert(delimiter_at(junk, i + to));
            }
        }
        assert(buf.skip(to) =~= shorter + seq![CR, LF] + tail);
        lemma_discard_to_delimiter(0, shorter, tail);
    }
}

/// A discarding codec that finds no delimiter drops all it is given and goes
/// on discarding.
pub proof fn lemma_discard_without_delimiter(state: ScanState, junk: Seq<u8>)
    requires
        state.discarding,
        no_delimiter(junk),
        junk.len() > 0,
    ensures
        decode_spec(state, junk).result is Pending,
        decode_spec(state, junk).rest == Seq::<u8>::empty(),
        decode_spec(state, junk).state == (ScanState { next_index: 0, discarding: true }),
{
    lemma_discard_finds_nothing(state.next_index, junk);
}

proof fn lemma_discard_finds_nothing(next_index: int, junk: Seq<u8>)
    requires
        no_delimiter(junk),
    ensures
        discard(next_index, junk) is None,
    decreases junk.len(),
{
    let to = window(junk.len() as int);
    if to > 0 {
        lemma_no_delimiter_found(junk, next_index, to);
        let shorter = junk.skip(to);
        assert forall|i: int| !delimiter_at(shorter, i) by {
            if delimiter_at(shorter, i) {
                assert(delimiter_at(junk, i + to));
            }
        }
        lemma_discard_finds_nothing(0, shorter);
    }
}

/// A discarding codec that is given the end of the frame it drops and a
/// frame that fits behind it yields that frame and discards no longer.
pub proof fn lemma_resumes_after_discard(
    state: ScanState,
    junk: Seq<u8>,
    frame: Seq<u8>,
    tail: Seq<u8>,
)
    requires
        state.discarding,
        state.next_index <= junk.len(),
        no_delimiter(junk),
        !delimiter_straddles_window(junk.len() as int),
        no_delimiter(frame),
        frame.len() <= MAX_LENGTH,
    ensures
        ({
            let step = decode_spec(state, junk + seq![CR, LF] + frame + seq![CR, LF] + tail);
            &&& step.result == Scan::Frame(frame)
            &&& step.rest == tail
            &&& step.state == fresh()
        }),
{
    let behind = frame + seq![CR, LF] + tail;
    let buf = junk + seq![CR, LF] + frame + seq![CR, LF] + tail;
    assert(buf =~= junk + seq![CR, LF] + behind);
    lemma_discard_to_delimiter(state.next_index, junk, behind);
    lemma_delimiter_behind(frame, tail);
    lemma_delimiter_is_first(behind, 0, window(behind.len() as int), frame.len() as int);
    assert(behind.take(frame.len() as int) =~= frame);
    assert(behind.skip(frame.len() as int + 2) =~= tail);
}

/// A frame that is too long is reported and never yielded, and the call
/// after the report drops it and yields the frame behind it. The frame that
/// is too long must not end one byte before a multiple of `MAX_LENGTH + 2`:
/// the codec then drops the first byte of its delimiter and misses it.
pub proof fn lemma_recovers_after_long_frame(
    state: ScanState,
    long: Seq<u8>,
    frame: Seq<u8>,
    tail: Seq<u8>,
)
    requires
        !state.discarding,
        no_delimiter(long),
        long.len() > MAX_LENGTH,
        !delimiter_straddles_window(long.len() as int),
        no_delimiter(frame),
        frame.len() <= MAX_LENGTH,
    ensures
        ({
            let buf = long + seq![CR, LF] + frame + seq![CR, LF] + tail;
            let first = decode_spec(state, buf);
            let second = decode_spec(first.state, first.rest);
            &&& first.result is TooLong
            &&& first.rest == buf
            &&& second.result == Scan::Frame(frame)
            &&& second.rest == tail
            &&& second.state == fresh()
        }),
{
    let behind = frame + seq![CR, LF] + tail;
    let buf = long + seq![CR, LF] + frame + seq![CR, LF] + tail;
    let to = window(buf.len() as int);
    assert(long.len() >= to) by {
        if long.len() == MAX_LENGTH + 1 {
            assert(delimiter_straddles_window(long.len() as int));
        }
    }
    assert(buf =~= long + seq![CR, LF] + behind);
    lemma_delimiter_behind(long, behind);
    lemma_no_delimiter_found(buf, state.next_index, to);
    let shorter = long.skip(to);
    assert forall|i: int| !delimiter_at(shorter, i) by {
        if delimiter_at(shorter, i) {
            assert(delimiter_at(long, i + to));
        }
    }
    assert(buf.skip(to) =~= shorter + seq![CR, LF] + behind);
    lemma_discard_to_delimiter(0, shorter, behind);
    assert(discard(state.next_index, buf) == Some(behind));
    lemma_delimiter_behind(frame, tail);
    lemma_delimiter_is_first(behind, 0, window(behind.len() as int), frame.len() as int);
    assert(behind.take(frame.len() as int) =~= frame);
    assert(behind.skip(frame.len() as int + 2) =~= tail);
}

/// A reader that drains a buffer holding a frame that is too long and a
/// frame that fits behind it gets the report and then the second frame, and
/// nothing else.
pub proof fn lemma_drain_after_long_frame(state: ScanState, long: Seq<u8>, frame: Seq<u8>)
    requires
        !state.discarding,
        no_delimiter(long),
        long.len() > MAX_LENGTH,
        !delimiter_straddles_window(long.len() as int),
        no_delimiter(frame),
        frame.len() <= MAX_LENGTH,
    ensures
        ({
            let buf = long + seq![CR, LF] + frame + seq![CR, LF];
            &&& drain(state, buf).items == seq![Yielded::TooLong, Yielded::Frame(frame)]
            &&& drain(state, buf).rest == Seq::<u8>::empty()
            &&& drain(state, buf).state == fresh()
        }),
{
    let buf = long + seq![CR, LF] + frame + seq![CR, LF];
    assert(buf =~= buf + Seq::empty());
    lemma_recovers_after_long_frame(state, long, frame, Seq::empty());
    let first = decode_spec(state, buf);
    let second = decode_spec(first.state, first.rest);
    assert(drain(second.state, second.rest).items =~= Seq::empty());
    assert(drain(first.state, first.rest).items =~= seq![Yielded::Frame(frame)]);
    assert(drain(state, buf).items =~= seq![Yielded::TooLong, Yielded::Frame(frame)]);
}

} // verus!
