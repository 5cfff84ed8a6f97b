//! What the bytes of a frame mean, one by one.
use vstd::prelude::*;

use crate::buffer::bytes_view;
use crate::codec::{
    announced, decode_makes_progress, decoded, parse_then_encode_all, parsed, wire_all, Decoded,
};
use crate::error::{Error, ErrorKind};
use crate::frame::{be_bytes, be_value, Flag, Frame, FrameView, StreamId};

verus! {

/// Numbers are written with the most significant byte first, and read so.
pub proof fn numbers_are_big_endian(n: u32, s: Seq<u8>)
    requires
        s.len() == 4,
    ensures
        be_bytes(n).len() == 4,
        be_bytes(n)[0] * 0x100_0000 + be_bytes(n)[1] * 0x1_0000 + be_bytes(n)[2] * 0x100
            + be_bytes(n)[3] == n,
        be_value(s) == s[0] * 0x100_0000 + s[1] * 0x1_0000 + s[2] * 0x100 + s[3],
{
}

/// The four flags are the bytes `0x01`, `0x02`, `0x04` and `0x08`, and no other
/// byte is a flag.
pub proof fn flags_are_these_bytes(flag: Flag, v: u8)
    ensures
        flag is Open ==> flag.byte() == 0x01,
        flag is Data ==> flag.byte() == 0x02,
        flag is Close ==> flag.byte() == 0x04,
        flag is GoAway ==> flag.byte() == 0x08,
        v == 0x01 <==> Flag::of_byte(v) == Some(Flag::Open),
        v == 0x02 <==> Flag::of_byte(v) == Some(Flag::Data),
        v == 0x04 <==> Flag::of_byte(v) == Some(Flag::Close),
        v == 0x08 <==> Flag::of_byte(v) == Some(Flag::GoAway),
        Flag::of_byte(v) is None <==> v != 0x01 && v != 0x02 && v != 0x04 && v != 0x08,
{
}

/// A frame can be encoded if and only if its payload has at most 16 MiB.
pub proof fn sixteen_mebibytes_fit(frame: FrameView)
    ensures
        frame.fits() <==> frame.payload.len() <= 16 * 1024 * 1024,
{
}

/// The encoding of a frame: a flag byte, four bytes of stream ID, four bytes
/// of length, and the payload.
pub proof fn encoding_is_laid_out(frame: FrameView)
    requires
        frame.payload.len() <= 16 * 1024 * 1024,
    ensures
        frame.wire().len() == 9 + frame.payload.len(),
        frame.wire()[0] == match frame.flag {
            Flag::Open => 0x01u8,
            Flag::Data => 0x02u8,
            Flag::Close => 0x04u8,
            Flag::GoAway => 0x08u8,
        },
        frame.wire()[1] * 0x100_0000 + frame.wire()[2] * 0x1_0000 + frame.wire()[3] * 0x100
            + frame.wire()[4] == frame.stream_id.0,
        frame.wire()[5] * 0x100_0000 + frame.wire()[6] * 0x1_0000 + frame.wire()[7] * 0x100
            + frame.wire()[8] == frame.payload.len(),
        forall|i: int|
            0 <= i < frame.payload.len() ==> #[trigger] frame.wire()[9 + i] == frame.payload[i],
{
    let id = be_bytes(frame.stream_id.0);
    let length = be_bytes(frame.payload.len() as u32);
    let w = frame.wire();
    numbers_are_big_endian(frame.stream_id.0, id);
    numbers_are_big_endian(frame.payload.len() as u32, length);
    assert(w[1] == id[0] && w[2] == id[1] && w[3] == id[2] && w[4] == id[3]);
    assert(w[5] == length[0] && w[6] == length[1] && w[7] == length[2] && w[8] == length[3]);
}

/// What a decoder makes of bytes, by the header that they start with: where
/// the bytes 5 to 8 stand for `n`, at most 16 MiB, a frame with exactly the `n`
/// bytes behind the header comes out as soon as all of them are there.
pub proof fn decoding_goes_by_the_header(s: Seq<u8>, n: int)
    requires
        s.len() >= 9 ==> n == s[5] * 0x100_0000 + s[6] * 0x1_0000 + s[7] * 0x100 + s[8],
    ensures
        s.len() < 9 ==> decoded(s) is Incomplete,
        s.len() >= 9 && s[0] != 0x01 && s[0] != 0x02 && s[0] != 0x04 && s[0] != 0x08
            ==> decoded(s) == Decoded::Malformed(Error::UnknownFlag),
        s.len() >= 9 && (s[0] == 0x01 || s[0] == 0x02 || s[0] == 0x04 || s[0] == 0x08) ==> ({
            &&& n > 16 * 1024 * 1024 ==> decoded(s) == Decoded::Malformed(Error::FrameTooLarge)
            &&& n <= 16 * 1024 * 1024 && s.len() < 9 + n ==> decoded(s) is Incomplete
            &&& n <= 16 * 1024 * 1024 && s.len() >= 9 + n ==> (decoded(s) matches Decoded::Complete(
                frame,
                rest,
            ) && {
                &&& frame.flag is Open <==> s[0] == 0x01
                &&& frame.flag is Data <==> s[0] == 0x02
                &&& frame.flag is Close <==> s[0] == 0x04
                &&& frame.flag is GoAway <==> s[0] == 0x08
                &&& frame.stream_id.0 == s[1] * 0x100_0000 + s[2] * 0x1_0000 + s[3] * 0x100 + s[4]
                &&& frame.payload.len() == n
                &&& forall|i: int| 0 <= i < n ==> #[trigger] frame.payload[i] == s[9 + i]
                &&& rest.len() == s.len() - 9 - n
                &&& forall|i: int| 0 <= i < rest.len() ==> #[trigger] rest[i] == s[9 + n + i]
            })
        }),
{
    if s.len() >= 9 {
        flags_are_these_bytes(Flag::Open, s[0]);
        numbers_are_big_endian(0, s.subrange(1, 5));
        numbers_are_big_endian(0, s.subrange(5, 9));
        assert(announced(s) == n);
    }
}

/// What the frames are that the crate itself makes.
pub proof fn frames_are_made_so(id: StreamId, bytes: Seq<u8>, reason: u32)
    ensures
        ({
            let frame = FrameView::open(id);
            frame.flag is Open && frame.stream_id == id && frame.payload.len() == 0
        }),
        ({
            let frame = FrameView::data(id, bytes);
            frame.flag is Data && frame.stream_id == id && frame.payload == bytes
        }),
        ({
            let frame = FrameView::close(id);
            frame.flag is Close && frame.stream_id == id && frame.payload.len() == 0
        }),
        ({
            let frame = FrameView::goaway(reason);
            let p = frame.payload;
            &&& frame.flag is GoAway
            &&& frame.stream_id.0 == 0
            &&& p.len() == 4
            &&& p[0] * 0x100_0000 + p[1] * 0x1_0000 + p[2] * 0x100 + p[3] == reason
        }),
{
    numbers_are_big_endian(reason, be_bytes(reason));
}

/// The model of a frame is what its fields hold.
pub proof fn frame_is_its_fields(frame: Frame)
    ensures
        frame@.flag == frame.flag,
        frame@.stream_id == frame.stream_id,
        frame@.payload == bytes_view(frame.payload),
{
}

/// Frames that follow one another are their encodings, one behind the other.
pub proof fn encodings_follow_one_another(first: FrameView, rest: Seq<FrameView>)
    ensures
        wire_all(Seq::empty()) == Seq::<u8>::empty(),
        wire_all(seq![first] + rest) == first.wire() + wire_all(rest),
{
    let all = seq![first] + rest;
    assert(all.first() == first);
    assert(all.drop_first() =~= rest);
}

/// Parsing leaves no byte out, stops only where no whole frame is left, and
/// reports an error if and only if the bytes there are malformed.
pub proof fn parsing_is_complete(s: Seq<u8>)
    ensures
        s == wire_all(parsed(s).frames) + parsed(s).rest,
        decoded(parsed(s).rest) !is Complete,
        parsed(s).error is Some <==> decoded(parsed(s).rest) is Malformed,
        parsed(s).error matches Some(error) ==> decoded(parsed(s).rest) == Decoded::Malformed(
            error,
        ),
    decreases s.len(),
{
    parse_then_encode_all(s);
    if let Decoded::Complete(frame, rest) = decoded(s) {
        decode_makes_progress(s);
        parsing_is_complete(rest);
    }
}

/// Each error has its class, and those about lengths and flags say which.
pub proof fn errors_are_classified(error: Error)
    ensures
        error is UnknownFlag ==> error.spec_kind() == ErrorKind::InvalidData,
        error is FrameTooLarge ==> error.spec_kind() == ErrorKind::InvalidData,
        error is Unencodable ==> error.spec_kind() == ErrorKind::InvalidData,
        error is WriteTooLarge ==> error.spec_kind() == ErrorKind::InvalidInput,
        error is BrokenPipe ==> error.spec_kind() == ErrorKind::BrokenPipe,
        error is Closed ==> error.spec_kind() == ErrorKind::Other,
        error is UnknownFlag ==> error.spec_message() == Some("unknown peaplex flag"@),
        error is FrameTooLarge ==> error.spec_message() == Some("peaplex frame too large"@),
        error is WriteTooLarge ==> error.spec_message() == Some(
            "write buffer exceeds peaplex max frame size"@,
        ),
        error is Unencodable || error is BrokenPipe || error is Closed
            ==> error.spec_message() is None,
{
}

} // verus!
