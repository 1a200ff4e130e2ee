//! What holds of the codec as a whole: every frame reads back as itself,
//! frames laid end to end read back in order, and a bad magic number is
//! refused after two bytes.

use vstd::prelude::*;

use super::maker::{be16, be32, body_bytes, frame_bytes, header_bytes};
use super::parser::{
    body_at, data_of, decode_all, decode_spec, magic_ok, serial_no_at, u16_at, u32_at,
};
use super::{
    body_packet, endpoint_code, endpoint_type_of, packet_code, packet_of, payload_len_spec,
    rw_mode_code, rw_mode_of, Body, DecodeError, Frame, SerialNo, IO_CHUNK_SIZE,
};

verus! {

proof fn lemma_be16(v: u16, s: Seq<u8>, i: int)
    requires
        0 <= i,
        i + 2 <= s.len(),
        s.subrange(i, i + 2) == be16(v),
    ensures
        u16_at(s, i) == v,
{
    assert(s[i] == be16(v)[0]);
    assert(s[i + 1] == be16(v)[1]);
}

proof fn lemma_be32(v: u32, s: Seq<u8>, i: int)
    requires
        0 <= i,
        i + 4 <= s.len(),
        s.subrange(i, i + 4) == be32(v),
    ensures
        u32_at(s, i) == v,
{
    assert(s[i] == be32(v)[0]);
    assert(s[i + 1] == be32(v)[1]);
    assert(s[i + 2] == be32(v)[2]);
    assert(s[i + 3] == be32(v)[3]);
}

proof fn lemma_serial_no(sn: SerialNo, s: Seq<u8>, i: int)
    requires
        0 <= i,
        i + 6 <= s.len(),
        s.subrange(i, i + 6) == sn@,
    ensures
        serial_no_at(s, i) == sn,
{
    let a = serial_no_at(s, i);
    assert forall|k: int| 0 <= k < 6 implies a@[k] == sn@[k] by {
        assert(s.subrange(i, i + 6)[k] == s[i + k]);
    }
    assert(a =~= sn);
}

proof fn lemma_data(d: [u8; IO_CHUNK_SIZE])
    ensures
        data_of(d@) == d,
{
    let a = data_of(d@);
    assert(a@ == d@);
    assert(a =~= d);
}

/// Every payload reads back as itself, whatever bytes follow it; with the
/// parsers' contracts, `parse_transcribe_result_payload` on the bytes of
/// `make_transcribe_result_payload(t)` and more gives `Some(t)`, and so on
/// for each payload kind.
pub proof fn lemma_payload_round_trip(b: Body, rest: Seq<u8>)
    ensures
        body_at(body_packet(b), body_bytes(b) + rest) == b,
        payload_len_spec(body_packet(b)) == Some(body_bytes(b).len()),
{
    let s = body_bytes(b) + rest;
    match b {
        Body::Register(r) => {
            assert(s.subrange(4, 6) =~= be16(r.port));
            lemma_be16(r.port, s, 4);
            assert(r.ip == [s[0], s[1], s[2], s[3]]) by {
                assert([s[0], s[1], s[2], s[3]] =~= r.ip);
            }
        },
        Body::RegOk(sn) => {
            assert(s.subrange(0, 6) =~= sn@);
            lemma_serial_no(sn, s, 0);
        },
        Body::Ack(a) => {
            assert(s.subrange(0, 6) =~= a.serial_no@);
            lemma_serial_no(a.serial_no, s, 0);
        },
        Body::ConnOk(sn, cid) => {
            assert(s.subrange(0, 6) =~= sn@);
            lemma_serial_no(sn, s, 0);
            assert(s.subrange(6, 10) =~= be32(cid));
            lemma_be32(cid, s, 6);
        },
        Body::Eos(sn, cid) => {
            assert(s.subrange(0, 6) =~= sn@);
            lemma_serial_no(sn, s, 0);
            assert(s.subrange(6, 10) =~= be32(cid));
            lemma_be32(cid, s, 6);
        },
        Body::Data(c) => {
            assert(s.subrange(1, 7) =~= c.serial_no@);
            lemma_serial_no(c.serial_no, s, 1);
            assert(s.subrange(7, 11) =~= be32(c.client_id));
            lemma_be32(c.client_id, s, 7);
            assert(s.subrange(11, 13) =~= be16(c.length));
            lemma_be16(c.length, s, 11);
            assert(s.subrange(13, 1037) =~= c.data@);
            lemma_data(c.data);
            assert(rw_mode_of(rw_mode_code(c.mode)) == c.mode);
        },
        Body::Result(t) => {
            assert(s.subrange(0, 2) =~= be16(t.length));
            lemma_be16(t.length, s, 0);
            assert(s.subrange(2, 1026) =~= t.data@);
            lemma_data(t.data);
        },
        _ => {},
    }
}

/// Every frame reads back as itself, whatever bytes follow it: decoding the
/// encoding of `f` gives `f` and consumes exactly the encoding.
pub proof fn lemma_round_trip(f: Frame, rest: Seq<u8>)
    ensures
        decode_spec(frame_bytes(f) + rest) == Ok::<(Frame, nat), DecodeError>(
            (f, frame_bytes(f).len()),
        ),
{
    let b = frame_bytes(f) + rest;
    let p = body_packet(f.body);
    let n = body_bytes(f.body).len();
    lemma_payload_round_trip(f.body, Seq::empty());
    assert(body_bytes(f.body) + Seq::<u8>::empty() =~= body_bytes(f.body));
    assert(b[0] == header_bytes(f.e_type, p)[0]);
    assert(b[1] == header_bytes(f.e_type, p)[1]);
    assert(b[2] == endpoint_code(f.e_type));
    assert(b[3] == packet_code(p));
    assert(endpoint_type_of(endpoint_code(f.e_type)) == f.e_type);
    assert(packet_of(packet_code(p)) == p);
    assert(b.subrange(4, 4 + n as int) =~= body_bytes(f.body));
}

/// The bytes of `frames` laid end to end.
pub open spec fn frames_bytes(frames: Seq<Frame>) -> Seq<u8>
    decreases frames.len(),
{
    if frames.len() == 0 {
        Seq::empty()
    } else {
        frame_bytes(frames[0]) + frames_bytes(frames.drop_first())
    }
}

/// Any number of frames laid end to end read back as the same frames, in the
/// same order, and take up the whole input.
pub proof fn lemma_framing(frames: Seq<Frame>)
    ensures
        decode_all(frames_bytes(frames)) == (frames, frames_bytes(frames).len()),
    decreases frames.len(),
{
    let b = frames_bytes(frames);
    if frames.len() == 0 {
        assert(decode_spec(b) == Err::<(Frame, nat), DecodeError>(DecodeError::UnexpectedEof));
    } else {
        let f = frames[0];
        let tail = frames.drop_first();
        let fb = frame_bytes(f);
        lemma_round_trip(f, frames_bytes(tail));
        lemma_framing(tail);
        assert(fb.len() >= 4);
        assert(b.subrange(fb.len() as int, b.len() as int) =~= frames_bytes(tail));
        assert(seq![f] + tail =~= frames);
    }
}

/// A stream that does not start with the magic number is refused as a
/// magic mismatch, and its first two bytes alone are enough to tell.
pub proof fn lemma_magic_discipline(b: Seq<u8>)
    requires
        b.len() >= 2,
        !magic_ok(b),
    ensures
        decode_spec(b) == Err::<(Frame, nat), DecodeError>(DecodeError::MagicMismatch),
        decode_spec(b.subrange(0, 2)) == Err::<(Frame, nat), DecodeError>(
            DecodeError::MagicMismatch,
        ),
{
    assert(b.subrange(0, 2)[0] == b[0]);
    assert(b.subrange(0, 2)[1] == b[1]);
}

} // verus!
