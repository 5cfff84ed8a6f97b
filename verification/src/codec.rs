//! Frames to bytes and back.
use bytes::BytesMut;
use vstd::prelude::*;

use crate::buffer::{
    advance, buffer_slice, buffer_view, bytes_slice, bytes_view, put_u32, put_u8,
};
use crate::error::Error;
use crate::frame::{
    be_bytes, be_round_trip, be_round_trip_bytes, be_value, read_u32, Flag, Frame, FrameView,
    StreamId, FRAME_HEADER_LEN, MAX_FRAME_PAYLOAD,
};

verus! {

/// What the front of a byte sequence amounts to.
pub enum Decoded {
    /// No frame yet, and nothing that rules one out.
    Incomplete,
    /// A frame, and the bytes behind it.
    Complete(FrameView, Seq<u8>),
    /// Bytes that no frame starts with.
    Malformed(Error),
}

/// The length that a header announces for its payload.
pub open spec fn announced(s: Seq<u8>) -> u32 {
    be_value(s.subrange(5, 9))
}

/// Reads one frame off the front of `s`.
pub open spec fn decoded(s: Seq<u8>) -> Decoded {
    if s.len() < FRAME_HEADER_LEN {
        Decoded::Incomplete
    } else if Flag::of_byte(s[0]) is None {
        Decoded::Malformed(Error::UnknownFlag)
    } else if announced(s) > MAX_FRAME_PAYLOAD {
        Decoded::Malformed(Error::FrameTooLarge)
    } else if s.len() < FRAME_HEADER_LEN + announced(s) {
        Decoded::Incomplete
    } else {
        let end = FRAME_HEADER_LEN + announced(s);
        Decoded::Complete(
            FrameView {
                flag: Flag::of_byte(s[0]).unwrap(),
                stream_id: StreamId(be_value(s.subrange(1, 5))),
                payload: s.subrange(FRAME_HEADER_LEN as int, end),
            },
            s.skip(end),
        )
    }
}

/// A stateless codec for frames.
#[derive(Clone, Copy, Debug, Default)]
pub struct FrameCodec;

impl FrameCodec {
    /// Takes one frame off the front of `src`, or `None` while its last byte
    /// has not arrived. Without a frame, `src` stays as it is.
    pub fn decode(&mut self, src: &mut BytesMut) -> (result: Result<Option<Frame>, Error>)
        ensures
            match decoded(buffer_view(*old(src))) {
                Decoded::Incomplete => result == Ok::<Option<Frame>, Error>(None) && buffer_view(
                    *final(src),
                ) == buffer_view(*old(src)),
                Decoded::Complete(frame, rest) => (result matches Ok(Some(f)) && f@ == frame)
                    && buffer_view(*final(src)) == rest,
                Decoded::Malformed(error) => result == Err::<Option<Frame>, Error>(error)
                    && buffer_view(*final(src)) == buffer_view(*old(src)),
            },
    {
        let ghost input = buffer_view(*src);
        let header = buffer_slice(src);
        let available = header.len();
        if available < FRAME_HEADER_LEN {
            return Ok(None);
        }
        let flag = match Flag::from_u8(header[0]) {
            Some(flag) => flag,
            None => {
                return Err(Error::UnknownFlag);
            },
        };
        let stream_id = StreamId(read_u32(header, 1));
        let length: u32 = read_u32(header, 5);
        if length > MAX_FRAME_PAYLOAD {
            return Err(Error::FrameTooLarge);
        }
        let total: usize = FRAME_HEADER_LEN + length as usize;
        if available < total {
            return Ok(None);
        }
        advance(src, FRAME_HEADER_LEN);
        // The payload shares the allocation of `src`: nothing is copied.
        let payload = src.split_to(length as usize).freeze();
        assert(bytes_view(payload) =~= input.subrange(FRAME_HEADER_LEN as int, total as int));
        assert(buffer_view(*src) =~= input.skip(total as int));
        Ok(Some(Frame { flag, stream_id, payload }))
    }

    /// Appends the encoding of `frame` to `dst`. A frame whose payload is too
    /// long is refused, and `dst` stays as it is.
    pub fn encode(&mut self, frame: Frame, dst: &mut BytesMut) -> (result: Result<(), Error>)
        requires
            frame@.fits() ==> buffer_view(*old(dst)).len() + frame@.wire().len() <= isize::MAX,
        ensures
            if frame@.fits() {
                &&& result == Ok::<(), Error>(())
                &&& buffer_view(*final(dst)) == buffer_view(*old(dst)) + frame@.wire()
            } else {
                &&& result == Err::<(), Error>(Error::FrameTooLarge)
                &&& buffer_view(*final(dst)) == buffer_view(*old(dst))
            },
    {
        let ghost before = buffer_view(*dst);
        let payload = bytes_slice(&frame.payload);
        let length: usize = payload.len();
        if length > MAX_FRAME_PAYLOAD as usize {
            return Err(Error::FrameTooLarge);
        }
        dst.reserve(FRAME_HEADER_LEN + length);
        put_u8(dst, frame.flag.to_u8());
        put_u32(dst, frame.stream_id.get());
        put_u32(dst, length as u32);
        dst.extend_from_slice(payload);
        assert(buffer_view(*dst) =~= before + frame@.wire());
        Ok(())
    }
}

/// Every frame off the front of a byte sequence, up to the first place where
/// none can be read.
pub struct Parsed {
    /// The frames, in order.
    pub frames: Seq<FrameView>,
    /// The bytes behind them.
    pub rest: Seq<u8>,
    /// What is wrong with the rest, where it can never become a frame.
    pub error: Option<Error>,
}

/// Reads frames off the front of `s` until none can be read.
pub open spec fn parsed(s: Seq<u8>) -> Parsed
    decreases s.len(),
{
    match decoded(s) {
        Decoded::Incomplete => Parsed { frames: Seq::empty(), rest: s, error: None },
        Decoded::Malformed(error) => Parsed { frames: Seq::empty(), rest: s, error: Some(error) },
        Decoded::Complete(frame, rest) => {
            let tail = parsed(rest);
            Parsed { frames: seq![frame] + tail.frames, rest: tail.rest, error: tail.error }
        },
    }
}

/// The bytes of frames that follow one another.
pub open spec fn wire_all(frames: Seq<FrameView>) -> Seq<u8>
    decreases frames.len(),
{
    if frames.len() == 0 {
        Seq::empty()
    } else {
        frames.first().wire() + wire_all(frames.drop_first())
    }
}

/// Every frame of a sequence has an encoding.
pub open spec fn all_fit(frames: Seq<FrameView>) -> bool {
    forall|i: int| 0 <= i < frames.len() ==> (#[trigger] frames[i]).fits()
}

/// No two flags share a byte, and every flag byte is read as its flag.
pub proof fn flag_round_trip(flag: Flag, v: u8)
    ensures
        Flag::of_byte(flag.byte()) == Some(flag),
        Flag::of_byte(v) == Some(flag) <==> flag.byte() == v,
{
}

/// An encoded frame is as long as its header and its payload.
pub proof fn wire_len(frame: FrameView)
    ensures
        frame.wire().len() == FRAME_HEADER_LEN + frame.payload.len(),
{
}

/// Decoding the encoding of a frame gives the frame back, and leaves alone
/// whatever comes behind it.
pub proof fn encode_then_decode(frame: FrameView, rest: Seq<u8>)
    requires
        frame.fits(),
    ensures
        decoded(frame.wire() + rest) == Decoded::Complete(frame, rest),
{
    let s = frame.wire() + rest;
    let length = frame.payload.len() as u32;
    flag_round_trip(frame.flag, s[0]);
    be_round_trip(frame.stream_id.0);
    be_round_trip(length);
    assert(s.subrange(1, 5) =~= be_bytes(frame.stream_id.0));
    assert(s.subrange(5, 9) =~= be_bytes(length));
    assert(s.subrange(9, 9 + length) =~= frame.payload);
    assert(s.skip(9 + length) =~= rest);
}

/// The bytes that decode to a frame are the encoding of that frame: no frame
/// has a second encoding.
pub proof fn decode_then_encode(s: Seq<u8>)
    ensures
        decoded(s) matches Decoded::Complete(frame, rest) ==> frame.fits() && s == frame.wire()
            + rest,
{
    if let Decoded::Complete(frame, rest) = decoded(s) {
        be_round_trip_bytes(s.subrange(1, 5));
        be_round_trip_bytes(s.subrange(5, 9));
        flag_round_trip(frame.flag, s[0]);
        assert(frame.payload.len() == announced(s));
        assert(s =~= frame.wire() + rest);
    }
}

/// Two frames with the same encoding are the same frame.
pub proof fn wire_injective(a: FrameView, b: FrameView)
    requires
        a.fits(),
        b.fits(),
        a.wire() == b.wire(),
    ensures
        a == b,
{
    encode_then_decode(a, Seq::empty());
    encode_then_decode(b, Seq::empty());
}

/// While a byte of a frame is missing, the decoder waits: it neither makes up
/// a frame nor rejects the bytes.
pub proof fn decode_waits(frame: FrameView, n: int)
    requires
        frame.fits(),
        0 <= n < frame.wire().len(),
    ensures
        decoded(frame.wire().take(n)) == Decoded::Incomplete,
{
    let s = frame.wire().take(n);
    if n >= FRAME_HEADER_LEN {
        let length = frame.payload.len() as u32;
        flag_round_trip(frame.flag, s[0]);
        be_round_trip(length);
        assert(s.subrange(5, 9) =~= be_bytes(length));
    }
}

/// A decision of the decoder stands, whatever arrives later.
pub proof fn decode_is_stable(s: Seq<u8>, more: Seq<u8>)
    ensures
        decoded(s) matches Decoded::Complete(frame, rest) ==> decoded(s + more)
            == Decoded::Complete(frame, rest + more),
        decoded(s) matches Decoded::Malformed(error) ==> decoded(s + more) == Decoded::Malformed(
            error,
        ),
{
    let t = s + more;
    match decoded(s) {
        Decoded::Incomplete => {},
        Decoded::Complete(frame, rest) => {
            decode_then_encode(s);
            encode_then_decode(frame, rest + more);
            assert(t =~= frame.wire() + (rest + more));
        },
        Decoded::Malformed(_) => {
            assert(t.subrange(5, 9) =~= s.subrange(5, 9));
        },
    }
}

/// Every frame takes at least its header off the input, so that reading
/// frames off any bytes whatever comes to an end.
pub proof fn decode_makes_progress(s: Seq<u8>)
    ensures
        decoded(s) matches Decoded::Complete(frame, rest) ==> rest.len() + FRAME_HEADER_LEN
            <= s.len(),
        parsed(s).rest.len() + FRAME_HEADER_LEN * parsed(s).frames.len() <= s.len(),
    decreases s.len(),
{
    if let Decoded::Complete(frame, rest) = decoded(s) {
        decode_makes_progress(rest);
    }
}

/// Parsing the encoding of a frame reads that frame first.
proof fn parse_encoded(frame: FrameView, rest: Seq<u8>)
    requires
        frame.fits(),
    ensures
        parsed(frame.wire() + rest) == (Parsed {
            frames: seq![frame] + parsed(rest).frames,
            rest: parsed(rest).rest,
            error: parsed(rest).error,
        }),
{
    encode_then_decode(frame, rest);
}

/// Concatenation is associative.
proof fn concat_assoc(a: Seq<u8>, b: Seq<u8>, c: Seq<u8>)
    ensures
        (a + b) + c == a + (b + c),
{
    assert((a + b) + c =~= a + (b + c));
}

/// The same, for two parts behind the frame.
#[verifier::spinoff_prover]
proof fn prepend_encoded(frame: FrameView, first: Seq<u8>, second: Seq<u8>)
    requires
        frame.fits(),
    ensures
        parsed((frame.wire() + first) + second) == (Parsed {
            frames: seq![frame] + parsed(first + second).frames,
            rest: parsed(first + second).rest,
            error: parsed(first + second).error,
        }),
{
    concat_assoc(frame.wire(), first, second);
    parse_encoded(frame, first + second);
}

/// Frames that were encoded one after the other are read back as they were,
/// and so are the bytes behind them.
#[verifier::spinoff_prover]
pub proof fn encode_all_then_parse(frames: Seq<FrameView>, more: Seq<u8>)
    requires
        all_fit(frames),
    ensures
        parsed(wire_all(frames) + more) == (Parsed {
            frames: frames + parsed(more).frames,
            rest: parsed(more).rest,
            error: parsed(more).error,
        }),
    decreases frames.len(),
{
    let s = wire_all(frames) + more;
    if frames.len() == 0 {
        assert(s =~= more);
        assert(frames + parsed(more).frames =~= parsed(more).frames);
    } else {
        let tail = frames.drop_first();
        assert(frames.first() == frames[0]);
        assert forall|i: int| 0 <= i < tail.len() implies (#[trigger] tail[i]).fits() by {
            assert(tail[i] == frames[i + 1]);
        }
        encode_all_then_parse(tail, more);
        prepend_encoded(frames.first(), wire_all(tail), more);
        assert(seq![frames.first()] + (tail + parsed(more).frames) =~= frames + parsed(
            more,
        ).frames);
    }
}

/// Bytes that parse are the encodings of the frames read, then the rest.
pub proof fn parse_then_encode_all(s: Seq<u8>)
    ensures
        all_fit(parsed(s).frames),
        s == wire_all(parsed(s).frames) + parsed(s).rest,
    decreases s.len(),
{
    match decoded(s) {
        Decoded::Complete(frame, rest) => {
            decode_then_encode(s);
            parse_then_encode_all(rest);
            let frames = parsed(s).frames;
            let tail = parsed(rest).frames;
            assert(frames.drop_first() =~= tail);
            assert forall|i: int| 0 <= i < frames.len() implies (#[trigger] frames[i]).fits() by {
                if i > 0 {
                    assert(frames[i] == tail[i - 1]);
                }
            }
            assert(frames.first() == frame);
            concat_assoc(frame.wire(), wire_all(tail), parsed(rest).rest);
        },
        _ => {
            assert(Seq::<u8>::empty() + s =~= s);
        },
    }
}

/// Where the input is cut makes no difference: parsing the first part, and
/// then what it left together with the second, gives the same as parsing both
/// at once.
pub proof fn parse_in_parts(first: Seq<u8>, second: Seq<u8>)
    ensures
        parsed(first).error is None ==> ({
            let after = parsed(parsed(first).rest + second);
            parsed(first + second) == (Parsed {
                frames: parsed(first).frames + after.frames,
                rest: after.rest,
                error: after.error,
            })
        }),
        parsed(first).error is Some ==> parsed(first + second) == (Parsed {
            rest: parsed(first).rest + second,
            ..parsed(first)
        }),
    decreases first.len(),
{
    decode_is_stable(first, second);
    match decoded(first) {
        Decoded::Incomplete => {
            let after = parsed(first + second);
            assert(parsed(first).frames + after.frames =~= after.frames);
        },
        Decoded::Malformed(_) => {},
        Decoded::Complete(frame, rest) => {
            parse_in_parts(rest, second);
            let after = parsed(parsed(rest).rest + second);
            assert(seq![frame] + (parsed(rest).frames + after.frames) =~= parsed(first).frames
                + after.frames);
        },
    }
}

/// What a decoder has read after the chunks of `chunks` arrived one by one,
/// starting with `pending` in its buffer.
pub open spec fn fed(pending: Seq<u8>, chunks: Seq<Seq<u8>>) -> Parsed
    decreases chunks.len(),
{
    let now = parsed(pending);
    if chunks.len() == 0 || now.error is Some {
        now
    } else {
        let later = fed(now.rest + chunks.first(), chunks.drop_first());
        Parsed { frames: now.frames + later.frames, rest: later.rest, error: later.error }
    }
}

/// Frames fed to a decoder in chunks of any sizes come out exactly as they
/// went in.
pub proof fn chunked_round_trip(frames: Seq<FrameView>, chunks: Seq<Seq<u8>>)
    requires
        all_fit(frames),
        chunks.flatten() == wire_all(frames),
    ensures
        fed(Seq::empty(), chunks) == (Parsed { frames, rest: Seq::empty(), error: None }),
{
    let none = Seq::<u8>::empty();
    encode_all_then_parse(frames, none);
    assert(none + chunks.flatten() =~= wire_all(frames) + none);
    assert(frames + parsed(none).frames =~= frames);
    fed_is_parsed(none, chunks);
}

/// Feeding chunks comes to the same as parsing them in one piece, as long as
/// the bytes are not malformed.
pub proof fn fed_is_parsed(pending: Seq<u8>, chunks: Seq<Seq<u8>>)
    requires
        parsed(pending + chunks.flatten()).error is None,
    ensures
        fed(pending, chunks) == parsed(pending + chunks.flatten()),
    decreases chunks.len(),
{
    let now = parsed(pending);
    parse_in_parts(pending, chunks.flatten());
    if chunks.len() == 0 {
        assert(pending + chunks.flatten() =~= pending);
    } else {
        let tail = chunks.drop_first();
        assert(now.rest + chunks.flatten() =~= (now.rest + chunks.first()) + tail.flatten());
        fed_is_parsed(now.rest + chunks.first(), tail);
    }
}

/// A connection that is cut off anywhere has delivered a prefix of the frames
/// that were sent: none of them changed, none out of order, and the decoder is
/// still waiting for the next one.
#[verifier::spinoff_prover]
pub proof fn prefix_parses_to_prefix(frames: Seq<FrameView>, n: int)
    requires
        all_fit(frames),
        0 <= n <= wire_all(frames).len(),
    ensures
        parsed(wire_all(frames).take(n)).error is None,
        parsed(wire_all(frames).take(n)).frames.is_prefix_of(frames),
    decreases frames.len(),
{
    let s = wire_all(frames).take(n);
    if frames.len() > 0 {
        let head = frames.first();
        let tail = frames.drop_first();
        assert(head == frames[0]);
        assert forall|i: int| 0 <= i < tail.len() implies (#[trigger] tail[i]).fits() by {
            assert(tail[i] == frames[i + 1]);
        }
        let len = head.wire().len();
        if n < len {
            decode_waits(head, n);
            assert(s =~= head.wire().take(n));
        } else {
            let cut = wire_all(tail).take(n - len);
            prefix_parses_to_prefix(tail, n - len);
            parse_encoded(head, cut);
            assert(s =~= head.wire() + cut);
            prefix_grows(head, parsed(cut).frames, tail);
            assert(seq![head] + tail =~= frames);
        }
    }
}

/// A prefix of some frames, behind another frame, is a prefix of that frame
/// and those.
proof fn prefix_grows(head: FrameView, some: Seq<FrameView>, all: Seq<FrameView>)
    requires
        some.is_prefix_of(all),
    ensures
        (seq![head] + some).is_prefix_of(seq![head] + all),
{
    assert(some == all.take(some.len() as int));
    assert(seq![head] + some =~= (seq![head] + all).take(some.len() as int + 1));
}

} // verus!
