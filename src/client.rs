//! The client endpoint: the frames it sends to stream one audio file, and
//! the state machine that follows the proxy's answers.

use vstd::prelude::*;

use crate::endpoint::Endpoint;
use crate::text::split_on;
use crate::protocol::maker::{encode_frame, frame_bytes};
use crate::protocol::parser::data_of;
use crate::protocol::{
    Body, ClientId, EndpointType, Frame, IOChunk, RwMode, SerialNo, TranscribeResult,
    IO_CHUNK_SIZE,
};

verus! {

/// The proxy address and the audio file that a client sends.
#[derive(Debug)]
pub struct TcpClientConfig {
    pub ip: String,
    pub port: u16,
    pub file: String,
}

impl TcpClientConfig {
    pub fn new(ip: String, port: u16, file: String) -> (r: Self)
        ensures
            r.ip@ == ip@,
            r.port == port,
            r.file@ == file@,
    {
        TcpClientConfig { ip, port, file }
    }
}

/// Where a client stands with the proxy.
#[derive(Debug, Clone, Copy, PartialEq, Eq, Structural)]
pub enum TcpClientState {
    Init,
    Connected,
    Rejected,
    Eos,
}

/// The client endpoint.
#[derive(Debug)]
pub struct TcpClientEndpoint {
    pub ip: String,
    pub port: u16,
    pub file: String,
}

impl Endpoint for TcpClientEndpoint {
    type Config = TcpClientConfig;

    fn init(config: TcpClientConfig) -> Option<TcpClientEndpoint> {
        Some(TcpClientEndpoint { ip: config.ip, port: config.port, file: config.file })
    }
}

/// The audio chunk that carries `part` for client `client_id`, zero padded.
pub open spec fn audio_chunk(serial_no: SerialNo, client_id: ClientId, part: Seq<u8>) -> IOChunk {
    IOChunk {
        mode: RwMode::Client,
        serial_no,
        client_id,
        length: part.len() as u16,
        data: data_of(part + Seq::new((IO_CHUNK_SIZE - part.len()) as nat, |i: int| 0u8)),
    }
}

/// The `k`-th slice of at most a chunk's size of `audio`.
pub open spec fn audio_part(audio: Seq<u8>, k: int) -> Seq<u8> {
    let end = if (k + 1) * 1024 <= audio.len() {
        (k + 1) * 1024
    } else {
        audio.len() as int
    };
    audio.subrange(k * 1024, end)
}

/// How many chunks `n` bytes of audio take.
pub open spec fn chunk_count(n: nat) -> nat {
    (n + 1023) / 1024
}

/// The `Data` frame that carries the `k`-th slice of `audio`.
pub open spec fn audio_frame(serial_no: SerialNo, client_id: ClientId, audio: Seq<u8>, k: int) -> Seq<
    u8,
> {
    frame_bytes(
        Frame {
            e_type: EndpointType::Client,
            body: Body::Data(audio_chunk(serial_no, client_id, audio_part(audio, k))),
        },
    )
}

/// The `Connect` frame that opens a session.
pub fn connect_packet() -> (r: Vec<u8>)
    ensures
        r@ == frame_bytes(Frame { e_type: EndpointType::Client, body: Body::Connect }),
{
    encode_frame(&Frame { e_type: EndpointType::Client, body: Body::Connect })
}

/// The `Eos` frame that ends the session of `client_id` on worker `serial_no`.
pub fn eos_packet(serial_no: SerialNo, client_id: ClientId) -> (r: Vec<u8>)
    ensures
        r@ == frame_bytes(
            Frame { e_type: EndpointType::Client, body: Body::Eos(serial_no, client_id) },
        ),
{
    encode_frame(&Frame { e_type: EndpointType::Client, body: Body::Eos(serial_no, client_id) })
}

fn audio_chunk_at(serial_no: SerialNo, client_id: ClientId, audio: &[u8], start: usize) -> (r:
    IOChunk)
    requires
        start < audio@.len(),
        start % 1024 == 0,
    ensures
        r == audio_chunk(serial_no, client_id, audio_part(audio@, (start / 1024) as int)),
{
    let end: usize = if audio.len() - start >= IO_CHUNK_SIZE {
        start + IO_CHUNK_SIZE
    } else {
        audio.len()
    };
    let ghost part = audio@.subrange(start as int, end as int);
    assert(part == audio_part(audio@, (start / 1024) as int));
    let mut data = [0u8; IO_CHUNK_SIZE];
    let mut k: usize = 0;
    while k < end - start
        invariant
            start <= end <= audio@.len(),
            end - start <= IO_CHUNK_SIZE,
            k <= end - start,
            part == audio@.subrange(start as int, end as int),
            forall|j: int| 0 <= j < k ==> data@[j] == part[j],
            forall|j: int| k <= j < IO_CHUNK_SIZE ==> data@[j] == 0,
        decreases end - start - k,
    {
        data[k] = audio[start + k];
        k = k + 1;
    }
    proof {
        let p = part + Seq::new((IO_CHUNK_SIZE - part.len()) as nat, |i: int| 0u8);
        assert(data@ =~= p);
        let a = data_of(p);
        assert(a@ == p);
        assert(a =~= data);
    }
    IOChunk {
        mode: RwMode::Client,
        serial_no,
        client_id,
        length: (end - start) as u16,
        data,
    }
}

/// The `Data` frames that stream `audio` in slices of a chunk's size, in
/// order; the last slice may be shorter.
pub fn audio_packets(serial_no: SerialNo, client_id: ClientId, audio: &[u8]) -> (r: Vec<Vec<u8>>)
    ensures
        r@.len() == chunk_count(audio@.len()),
        forall|k: int|
            0 <= k < r@.len() ==> (#[trigger] r@[k])@ == audio_frame(
                serial_no,
                client_id,
                audio@,
                k,
            ),
{
    let mut out: Vec<Vec<u8>> = Vec::new();
    let len = audio.len();
    let n: usize = len / 1024 + if len % 1024 != 0 {
        1
    } else {
        0
    };
    assert(n == chunk_count(len as nat));
    let mut k: usize = 0;
    while k < n
        invariant
            len == audio@.len(),
            n == chunk_count(len as nat),
            k <= n,
            out@.len() == k,
            forall|j: int|
                0 <= j < out@.len() ==> (#[trigger] out@[j])@ == audio_frame(
                    serial_no,
                    client_id,
                    audio@,
                    j,
                ),
        decreases n - k,
    {
        assert(k * 1024 < len) by (nonlinear_arith)
            requires
                k < n,
                n == (len + 1023) / 1024,
        ;
        let start = k * 1024;
        assert(start / 1024 == k) by (nonlinear_arith)
            requires
                start == k * 1024,
        ;
        let c = audio_chunk_at(serial_no, client_id, audio, start);
        out.push(encode_frame(&Frame { e_type: EndpointType::Client, body: Body::Data(c) }));
        k = k + 1;
    }
    out
}

/// The transcript bytes of a result: the valid prefix of its data.
pub open spec fn result_text_spec(t: TranscribeResult) -> Seq<u8> {
    t.data@.take(if t.length <= IO_CHUNK_SIZE {
        t.length as int
    } else {
        IO_CHUNK_SIZE as int
    })
}

/// The transcript bytes of a result; a length past the chunk is read as the
/// whole chunk.
pub fn result_text(t: &TranscribeResult) -> (r: Vec<u8>)
    ensures
        r@ == result_text_spec(*t),
{
    let n: usize = if (t.length as usize) <= IO_CHUNK_SIZE {
        t.length as usize
    } else {
        IO_CHUNK_SIZE
    };
    let mut out: Vec<u8> = Vec::new();
    let mut k: usize = 0;
    while k < n
        invariant
            n <= IO_CHUNK_SIZE,
            n == (if t.length <= IO_CHUNK_SIZE {
                t.length as int
            } else {
                IO_CHUNK_SIZE as int
            }),
            k <= n,
            out@ == t.data@.take(k as int),
        decreases n - k,
    {
        out.push(t.data[k]);
        k = k + 1;
        assert(out@ =~= t.data@.take(k as int));
    }
    out
}

/// A client's view of its session with the proxy.
#[derive(Debug, Clone, Copy, PartialEq, Eq)]
pub struct ClientSession {
    pub state: TcpClientState,
    pub serial_no: SerialNo,
    pub client_id: ClientId,
}

/// The next state after frame `f`, and the transcript it carries, if any.
pub open spec fn client_step(st: ClientSession, f: Frame) -> (ClientSession, Option<Seq<u8>>) {
    match (f.e_type, f.body) {
        (EndpointType::Client, Body::ConnOk(sn, cid)) => (
            ClientSession { state: TcpClientState::Connected, serial_no: sn, client_id: cid },
            None,
        ),
        (EndpointType::Client, Body::ConnRejected) => (
            ClientSession { state: TcpClientState::Rejected, ..st },
            None,
        ),
        (EndpointType::Client, Body::Result(t)) => (st, Some(result_text_spec(t))),
        _ => (st, None),
    }
}

impl ClientSession {
    /// A session that has sent `Connect` and awaits the answer.
    pub fn new() -> (r: Self)
        ensures
            r.state == TcpClientState::Init,
            r.serial_no@ == seq![0u8, 0u8, 0u8, 0u8, 0u8, 0u8],
            r.client_id == 0,
    {
        ClientSession { state: TcpClientState::Init, serial_no: [0u8; 6], client_id: 0 }
    }

    /// Follows frame `frame` from the proxy; returns the transcript bytes
    /// of a `Result`.
    pub fn on_frame(&mut self, frame: &Frame) -> (r: Option<Vec<u8>>)
        ensures
            *final(self) == client_step(*old(self), *frame).0,
            r is Some <==> client_step(*old(self), *frame).1 is Some,
            r matches Some(v) ==> client_step(*old(self), *frame).1 == Some(v@),
    {
        match (frame.e_type, frame.body) {
            (EndpointType::Client, Body::ConnOk(sn, cid)) => {
                self.state = TcpClientState::Connected;
                self.serial_no = sn;
                self.client_id = cid;
                None
            },
            (EndpointType::Client, Body::ConnRejected) => {
                self.state = TcpClientState::Rejected;
                None
            },
            (EndpointType::Client, Body::Result(t)) => Some(result_text(&t)),
            _ => None,
        }
    }

    /// Ends a connected session: the state becomes `Eos` and the `Eos` frame
    /// to send is returned. `None`, and no change, in any other state.
    pub fn finish(&mut self) -> (r: Option<Vec<u8>>)
        ensures
            old(self).state == TcpClientState::Connected ==> {
                &&& *final(self) == (ClientSession { state: TcpClientState::Eos, ..*old(self) })
                &&& r matches Some(v) && v@ == frame_bytes(
                    Frame {
                        e_type: EndpointType::Client,
                        body: Body::Eos(old(self).serial_no, old(self).client_id),
                    },
                )
            },
            old(self).state != TcpClientState::Connected ==> *final(self) == *old(self) && r is None,
    {
        if self.state == TcpClientState::Connected {
            self.state = TcpClientState::Eos;
            Some(eos_packet(self.serial_no, self.client_id))
        } else {
            None
        }
    }
}

/// How many audio files a benchmark cycles through.
pub const PART_FILES: usize = 100;

/// The number of the file that a benchmark sends after file `i`: files go
/// from 1 to `PART_FILES`, then start again at 1.
pub fn next_part(i: usize) -> (r: usize)
    ensures
        1 <= r <= PART_FILES,
        1 <= i < PART_FILES ==> r == i + 1,
        !(1 <= i < PART_FILES) ==> r == 1,
{
    if 1 <= i && i < PART_FILES {
        i + 1
    } else {
        1
    }
}

pub open spec fn non_empty(l: Seq<u8>) -> bool {
    l.len() > 0
}

/// The non-empty lines of `text`, in order: the pieces between newlines,
/// with the empty ones dropped.
pub open spec fn lines_of(text: Seq<u8>) -> Seq<Seq<u8>> {
    split_on(text, 10).filter(|l: Seq<u8>| non_empty(l))
}

/// Splits the text that a raw-mode server sent into its non-empty lines.
pub fn split_lines(text: &[u8]) -> (r: Vec<Vec<u8>>)
    ensures
        r@.map_values(|l: Vec<u8>| l@) == lines_of(text@),
{
    let ghost ne = |l: Seq<u8>| non_empty(l);
    let mut done: Vec<Vec<u8>> = Vec::new();
    let mut cur: Vec<u8> = Vec::new();
    let mut i: usize = 0;
    proof {
        assert(text@.take(0) =~= Seq::<u8>::empty());
        assert(split_on(Seq::<u8>::empty(), 10) == seq![Seq::<u8>::empty()]);
        assert(Seq::<Seq<u8>>::empty().filter(ne) =~= Seq::<Seq<u8>>::empty());
        assert(done@.map_values(|l: Vec<u8>| l@) =~= Seq::<Seq<u8>>::empty());
    }
    while i < text.len()
        invariant
            i <= text@.len(),
            ne == (|l: Seq<u8>| non_empty(l)),
            split_on(text@.take(i as int), 10).len() >= 1,
            done@.map_values(|l: Vec<u8>| l@) == split_on(text@.take(i as int), 10).drop_last().filter(
                ne,
            ),
            cur@ == split_on(text@.take(i as int), 10).last(),
        decreases text@.len() - i,
    {
        let ghost p = split_on(text@.take(i as int), 10);
        proof {
            assert(text@.take(i + 1).drop_last() =~= text@.take(i as int));
            assert(text@.take(i + 1).last() == text@[i as int]);
            assert(p.drop_last().push(p.last()) =~= p);
            p.drop_last().lemma_filter_push(p.last(), ne);
        }
        let c = text[i];
        if c == 10 {
            let ghost before = done@.map_values(|l: Vec<u8>| l@);
            if cur.len() > 0 {
                let line = cur;
                cur = Vec::new();
                let ghost lv = line@;
                done.push(line);
                assert(done@.map_values(|l: Vec<u8>| l@) =~= before.push(lv));
            } else {
                cur = Vec::new();
            }
            proof {
                let p1 = split_on(text@.take(i + 1), 10);
                assert(p1 == p.push(Seq::<u8>::empty()));
                assert(p1.drop_last() =~= p);
                assert(cur@ =~= p1.last());
            }
        } else {
            cur.push(c);
            proof {
                let p1 = split_on(text@.take(i + 1), 10);
                assert(p1 == p.update(p.len() - 1, p.last().push(c)));
                assert(p1.drop_last() =~= p.drop_last());
            }
        }
        i = i + 1;
    }
    proof {
        let p = split_on(text@, 10);
        assert(text@.take(i as int) =~= text@);
        assert(p.drop_last().push(p.last()) =~= p);
        p.drop_last().lemma_filter_push(p.last(), ne);
    }
    if cur.len() > 0 {
        let ghost before = done@.map_values(|l: Vec<u8>| l@);
        let ghost lv = cur@;
        done.push(cur);
        assert(done@.map_values(|l: Vec<u8>| l@) =~= before.push(lv));
    }
    done
}

} // verus!
