//! The worker endpoint: its configuration, the identity it advertises, and
//! the session state machine that decides what each frame from the proxy
//! calls for. The recogniser itself is driven by the caller.

use vstd::prelude::*;

use vstd::utf8::encode_utf8;

use crate::endpoint::Endpoint;
use crate::text::{
    all_digits, decimal, is_digit, lemma_decimal_grows, lemma_split_extend, split_on,
};
use crate::protocol::maker::{encode_frame, frame_bytes};
use crate::protocol::{
    Ack, Body, ClientId, EndpointType, Frame, IOChunk, RwMode, SerialNo, IO_CHUNK_SIZE,
};

verus! {

/// The proxy address that a worker dials.
#[derive(Debug)]
pub struct TcpWorkerConfig {
    pub ip: String,
    pub port: u16,
}

impl TcpWorkerConfig {
    pub fn new(ip: String, port: u16) -> (r: Self)
        ensures
            r.ip@ == ip@,
            r.port == port,
    {
        TcpWorkerConfig { ip, port }
    }
}

/// A piece of a dotted quad that is an octet: decimal digits worth at most 255.
pub open spec fn octet_ok(g: Seq<u8>) -> bool {
    g.len() > 0 && all_digits(g) && decimal(g) <= 255
}

/// The four octets of a dotted-quad IPv4 address: the text splits on `.`
/// into four groups of decimal digits, each worth at most 255.
pub open spec fn ipv4_of(b: Seq<u8>) -> Option<Seq<int>> {
    let p = split_on(b, 46);
    if p.len() == 4 && forall|k: int| 0 <= k < 4 ==> #[trigger] octet_ok(p[k]) {
        Some(Seq::new(4, |k: int| decimal(p[k])))
    } else {
        None
    }
}

/// Once the text read so far shows a fifth piece, an empty piece, a byte
/// that is no digit, or an octet worth more than 255, no continuation is a
/// dotted quad.
proof fn lemma_not_quad(b: Seq<u8>, k: int)
    requires
        0 <= k <= b.len(),
        ({
            let p = split_on(b.take(k), 46);
            ||| p.len() >= 5
            ||| (p.len() >= 2 && p[p.len() - 2].len() == 0)
            ||| (p.len() >= 1 && !all_digits(p.last()))
            ||| (p.len() >= 1 && all_digits(p.last()) && decimal(p.last()) > 255)
        }),
    ensures
        ipv4_of(b) is None,
{
    let p = split_on(b.take(k), 46);
    let q = split_on(b, 46);
    lemma_split_extend(b, 46, k);
    if q.len() == 4 && forall|j: int| 0 <= j < 4 ==> #[trigger] octet_ok(q[j]) {
        let m = p.len() - 1;
        let g = q[m];
        assert(octet_ok(q[m]));
        if p.len() >= 2 && p[p.len() - 2].len() == 0 {
            assert(q[p.len() - 2] == p[p.len() - 2]);
            assert(octet_ok(q[p.len() - 2]));
        } else if !all_digits(p.last()) {
            let i = choose|i: int| 0 <= i < p.last().len() && !is_digit(#[trigger] p.last()[i]);
            assert(g.take(p.last().len() as int)[i] == g[i]);
        } else if all_digits(p.last()) && decimal(p.last()) > 255 {
            lemma_decimal_grows(p.last(), g);
        }
    }
}

/// The worker endpoint: the proxy's address, which is also the identity
/// that the worker advertises when it registers.
#[derive(Debug)]
pub struct TcpWorkerEndpoint {
    pub ip: String,
    pub port: u16,
}

impl Endpoint for TcpWorkerEndpoint {
    type Config = TcpWorkerConfig;

    fn init(config: TcpWorkerConfig) -> Option<TcpWorkerEndpoint> {
        Some(TcpWorkerEndpoint { ip: config.ip, port: config.port })
    }
}

impl TcpWorkerEndpoint {
    /// The four octets of the endpoint's address, or `None` when it is not a
    /// dotted-quad IPv4 address.
    pub fn exact_ip(&self) -> (r: Option<[u8; 4]>)
        ensures
            r is None <==> ipv4_of(encode_utf8(self.ip@)) is None,
            r matches Some(a) ==> ipv4_of(encode_utf8(self.ip@)) == Some(
                a@.map_values(|x: u8| x as int),
            ),
    {
        let b = self.ip.as_str().as_bytes();
        assert(b@ == encode_utf8(self.ip@));
        let mut done: [u8; 4] = [0u8; 4];
        let mut ndone: usize = 0;
        let mut cur: u16 = 0;
        let mut n: usize = 0;
        let mut i: usize = 0;
        proof {
            assert(b@.take(0) =~= Seq::<u8>::empty());
            assert(split_on(Seq::<u8>::empty(), 46) == seq![Seq::<u8>::empty()]);
        }
        while i < b.len()
            invariant
                b@ == encode_utf8(self.ip@),
                i <= b@.len(),
                ndone <= 3,
                cur <= 255,
                split_on(b@.take(i as int), 46).len() == ndone + 1,
                forall|k: int|
                    0 <= k < ndone ==> {
                        let g = #[trigger] split_on(b@.take(i as int), 46)[k];
                        octet_ok(g) && decimal(g) == done@[k] as int
                    },
                all_digits(split_on(b@.take(i as int), 46)[ndone as int]),
                decimal(split_on(b@.take(i as int), 46)[ndone as int]) == cur as int,
                split_on(b@.take(i as int), 46)[ndone as int].len() == n,
                n <= i,
            decreases b@.len() - i,
        {
            let c = b[i];
            let ghost p = split_on(b@.take(i as int), 46);
            let ghost last = p[ndone as int].push(c);
            proof {
                assert(b@.take(i + 1).drop_last() =~= b@.take(i as int));
                assert(b@.take(i + 1).last() == c);
                assert(p.last() == p[ndone as int]);
            }
            if 48 <= c && c <= 57 {
                let v = cur * 10 + (c - 48) as u16;
                proof {
                    assert(split_on(b@.take(i + 1), 46) == p.update(ndone as int, last));
                    assert(last.drop_last() =~= p[ndone as int]);
                    assert(decimal(last) == v as int);
                    assert forall|j: int| 0 <= j < last.len() implies is_digit(#[trigger] last[j]) by {
                        if j < last.len() - 1 {
                            assert(last[j] == p[ndone as int][j]);
                        }
                    }
                }
                if v > 255 {
                    proof {
                        lemma_not_quad(b@, i + 1);
                    }
                    return None;
                }
                cur = v;
                n = n + 1;
            } else if c == 46 {
                proof {
                    assert(split_on(b@.take(i + 1), 46) == p.push(Seq::<u8>::empty()));
                }
                if n == 0 || ndone == 3 {
                    proof {
                        lemma_not_quad(b@, i + 1);
                    }
                    return None;
                }
                done[ndone] = cur as u8;
                ndone = ndone + 1;
                cur = 0;
                n = 0;
            } else {
                proof {
                    assert(split_on(b@.take(i + 1), 46) == p.update(ndone as int, last));
                    assert(!is_digit(last[last.len() - 1]));
                    lemma_not_quad(b@, i + 1);
                }
                return None;
            }
            i = i + 1;
        }
        proof {
            assert(b@.take(i as int) =~= b@);
        }
        if ndone == 3 && n > 0 {
            done[3] = cur as u8;
            proof {
                let q = split_on(b@, 46);
                assert forall|k: int| 0 <= k < 4 implies #[trigger] octet_ok(q[k]) by {}
                assert(Seq::new(4, |k: int| decimal(q[k])) =~= done@.map_values(|x: u8| x as int));
            }
            Some(done)
        } else {
            proof {
                let q = split_on(b@, 46);
                if ndone == 3 {
                    assert(!octet_ok(q[3]));
                }
            }
            None
        }
    }
}

/// One little-endian signed 16-bit PCM sample.
pub open spec fn pcm_sample(lo: u8, hi: u8) -> i16 {
    let v = hi as int * 256 + lo as int;
    (if v >= 32768 {
        v - 65536
    } else {
        v
    }) as i16
}

/// The samples in the first `len` bytes of `d`.
pub open spec fn pcm_of(d: Seq<u8>, len: nat) -> Seq<i16> {
    Seq::new(len / 2, |k: int| pcm_sample(d[2 * k], d[2 * k + 1]))
}

/// Whether a chunk's valid prefix is whole PCM samples that fit the chunk.
pub open spec fn pcm_ok(c: IOChunk) -> bool {
    c.length % 2 == 0 && c.length <= IO_CHUNK_SIZE
}

/// The samples of an audio chunk, or `None` when its length is odd or runs
/// past the chunk (the chunk is then dropped).
pub fn pcm_samples(chunk: &IOChunk) -> (r: Option<Vec<i16>>)
    ensures
        r is None <==> !pcm_ok(*chunk),
        r matches Some(v) ==> v@ == pcm_of(chunk.data@, chunk.length as nat),
{
    let len = chunk.length as usize;
    if len % 2 != 0 || len > IO_CHUNK_SIZE {
        return None;
    }
    let mut out: Vec<i16> = Vec::new();
    let mut k: usize = 0;
    while k < len / 2
        invariant
            len == chunk.length,
            len <= IO_CHUNK_SIZE,
            k <= len / 2,
            out@ =~= pcm_of(chunk.data@, chunk.length as nat).take(k as int),
        decreases len / 2 - k,
    {
        let lo = chunk.data[2 * k];
        let hi = chunk.data[2 * k + 1];
        let v: u16 = (hi as u16) * 256 + (lo as u16);
        let sample: i16 = if v >= 32768 {
            (v as i32 - 65536) as i16
        } else {
            v as i16
        };
        out.push(sample);
        k = k + 1;
        assert(out@ =~= pcm_of(chunk.data@, chunk.length as nat).take(k as int));
    }
    assert(pcm_of(chunk.data@, chunk.length as nat).take(k as int) =~= pcm_of(
        chunk.data@,
        chunk.length as nat,
    ));
    Some(out)
}

/// Unicode White_Space: the characters that `str::trim` removes.
pub open spec fn is_white_space(c: char) -> bool {
    let u = c as u32;
    (0x9 <= u <= 0xd) || u == 0x20 || u == 0x85 || u == 0xa0 || u == 0x1680 || (0x2000 <= u
        <= 0x200a) || u == 0x2028 || u == 0x2029 || u == 0x202f || u == 0x205f || u == 0x3000
}

pub open spec fn trim_start(s: Seq<char>) -> Seq<char>
    decreases s.len(),
{
    if s.len() > 0 && is_white_space(s[0]) {
        trim_start(s.drop_first())
    } else {
        s
    }
}

pub open spec fn trim_end(s: Seq<char>) -> Seq<char>
    decreases s.len(),
{
    if s.len() > 0 && is_white_space(s.last()) {
        trim_end(s.drop_last())
    } else {
        s
    }
}

/// `s` without the whitespace at either end.
pub open spec fn trim_ws(s: Seq<char>) -> Seq<char> {
    trim_end(trim_start(s))
}

/// Relies on str::trim: the slice without leading and trailing characters
/// of the Unicode White_Space property.
#[verifier::external_body]
fn trim(s: &str) -> (r: &str)
    ensures
        r@ == trim_ws(s@),
{
    s.trim()
}

/// The chunk data array that holds `t` followed by zeros.
pub open spec fn padded(t: Seq<u8>) -> Seq<u8> {
    t + Seq::new((IO_CHUNK_SIZE - t.len()) as nat, |i: int| 0u8)
}

/// The `Data` frame that carries a transcript back towards client
/// `client_id`: the text trimmed, its byte length, then zero padding.
pub open spec fn transcript_frame(serial_no: SerialNo, client_id: ClientId, t: Seq<u8>) -> Frame {
    Frame {
        e_type: EndpointType::Handler,
        body: Body::Data(
            IOChunk {
                mode: RwMode::Server,
                serial_no,
                client_id,
                length: t.len() as u16,
                data: crate::protocol::parser::data_of(padded(t)),
            },
        ),
    }
}

/// The UTF-8 bytes of a transcript once trimmed.
pub open spec fn trimmed_bytes(text: Seq<char>) -> Seq<u8> {
    encode_utf8(trim_ws(text))
}

/// The frame that returns a transcript to the proxy: the text trimmed of
/// whitespace, as UTF-8. `None` when the recogniser returned nothing
/// (nothing is sent), or when the trimmed bytes do not fit a chunk; text
/// that is only whitespace gives a frame of length 0.
pub fn result_packet(serial_no: SerialNo, client_id: ClientId, text: &str) -> (r: Option<Vec<u8>>)
    ensures
        r is None <==> (text@.len() == 0 || trimmed_bytes(text@).len() > IO_CHUNK_SIZE),
        r matches Some(v) ==> v@ == frame_bytes(
            transcript_frame(serial_no, client_id, trimmed_bytes(text@)),
        ),
{
    let trimmed = trim(text);
    let bytes = trimmed.as_bytes();
    let ghost t = bytes@;
    assert(t == trimmed_bytes(text@));
    let len = bytes.len();
    if text.is_empty() || len > IO_CHUNK_SIZE {
        return None;
    }
    let mut data = [0u8; IO_CHUNK_SIZE];
    let mut k: usize = 0;
    while k < len
        invariant
            len == t.len(),
            t == bytes@,
            len <= IO_CHUNK_SIZE,
            k <= len,
            forall|j: int| 0 <= j < k ==> data@[j] == t[j],
            forall|j: int| k <= j < IO_CHUNK_SIZE ==> data@[j] == 0,
        decreases len - k,
    {
        data[k] = bytes[k];
        k = k + 1;
    }
    proof {
        let p = padded(t);
        assert(data@ =~= p);
        let a = crate::protocol::parser::data_of(p);
        assert(a@ == p);
        assert(a =~= data);
    }
    let chunk = IOChunk {
        mode: RwMode::Server,
        serial_no,
        client_id,
        length: len as u16,
        data,
    };
    Some(encode_frame(&Frame { e_type: EndpointType::Handler, body: Body::Data(chunk) }))
}

/// What a worker does after a frame from the proxy, as the contracts see it.
pub enum Act {
    Idle,
    Send(Seq<u8>),
    Transcribe(SerialNo, ClientId, Seq<i16>),
    ResetAndReport(Seq<u8>),
}

/// What a worker does after a frame from the proxy.
#[derive(Debug, PartialEq, Eq)]
pub enum WorkerAction {
    /// Nothing: the frame is ignored or dropped.
    Idle,
    /// Write these bytes to the proxy.
    Send(Vec<u8>),
    /// Hand these samples to the recogniser; a non-empty transcript goes back
    /// through `result_packet` with this serial number and client id.
    Transcribe(SerialNo, ClientId, Vec<i16>),
    /// Reset the recogniser, then write these bytes: the session is over.
    ResetAndReport(Vec<u8>),
}

impl WorkerAction {
    pub open spec fn view(&self) -> Act {
        match self {
            WorkerAction::Idle => Act::Idle,
            WorkerAction::Send(v) => Act::Send(v@),
            WorkerAction::Transcribe(sn, cid, v) => Act::Transcribe(*sn, *cid, v@),
            WorkerAction::ResetAndReport(v) => Act::ResetAndReport(v@),
        }
    }
}

/// A worker's side of the protocol: the serial number the proxy gave it,
/// whether it reports itself available, the client whose session is open,
/// if any, and the client whose session ended last, if any.
#[derive(Debug, Clone, Copy, PartialEq, Eq)]
pub struct WorkerSession {
    pub serial_no: SerialNo,
    pub available: bool,
    pub session: Option<ClientId>,
    pub closed: Option<ClientId>,
}

/// The availability report of a worker.
pub open spec fn report(serial_no: SerialNo, available: bool) -> Seq<u8> {
    frame_bytes(
        Frame {
            e_type: EndpointType::Handler,
            body: Body::Ack(Ack { serial_no, available }),
        },
    )
}

/// The next state and the action after frame `f`.
pub open spec fn worker_step(st: WorkerSession, f: Frame) -> (WorkerSession, Act) {
    match (f.e_type, f.body) {
        (EndpointType::Handler, Body::RegOk(sn)) => (WorkerSession { serial_no: sn, ..st }, Act::Idle),
        (EndpointType::Handler, Body::Status) => (st, Act::Send(report(st.serial_no, st.available))),
        (EndpointType::Client, Body::Data(c)) => if c.mode == RwMode::Client {
            (
                WorkerSession { available: false, session: Some(c.client_id), ..st },
                if pcm_ok(c) {
                    Act::Transcribe(c.serial_no, c.client_id, pcm_of(c.data@, c.length as nat))
                } else {
                    Act::Idle
                },
            )
        } else {
            (st, Act::Idle)
        },
        (EndpointType::Handler, Body::Eos(_, cid)) => if st.session != Some(cid) && st.closed
            == Some(cid) {
            (st, Act::Idle)
        } else {
            (
                WorkerSession { available: true, session: None, closed: Some(cid), ..st },
                Act::ResetAndReport(report(st.serial_no, true)),
            )
        },
        _ => (st, Act::Idle),
    }
}

impl WorkerSession {
    /// A worker that has not registered yet: available, with no session.
    pub fn new() -> (r: Self)
        ensures
            r.serial_no@ == seq![0u8, 0u8, 0u8, 0u8, 0u8, 0u8],
            r.available,
            r.session is None,
            r.closed is None,
    {
        WorkerSession { serial_no: [0u8; 6], available: true, session: None, closed: None }
    }

    /// The frame that registers a worker under `ip` and `port`.
    pub fn register_packet(ip: [u8; 4], port: u16) -> (r: Vec<u8>)
        ensures
            r@ == frame_bytes(
                Frame {
                    e_type: EndpointType::Handler,
                    body: Body::Register(crate::protocol::Register { ip, port }),
                },
            ),
    {
        encode_frame(
            &Frame {
                e_type: EndpointType::Handler,
                body: Body::Register(crate::protocol::Register { ip, port }),
            },
        )
    }

    /// Decides what frame `frame` from the proxy calls for.
    pub fn on_frame(&mut self, frame: &Frame) -> (r: WorkerAction)
        ensures
            (*final(self), r.view()) == worker_step(*old(self), *frame),
    {
        match (frame.e_type, frame.body) {
            (EndpointType::Handler, Body::RegOk(sn)) => {
                self.serial_no = sn;
                WorkerAction::Idle
            },
            (EndpointType::Handler, Body::Status) => {
                WorkerAction::Send(
                    encode_frame(
                        &Frame {
                            e_type: EndpointType::Handler,
                            body: Body::Ack(Ack { serial_no: self.serial_no, available: self.available }),
                        },
                    ),
                )
            },
            (EndpointType::Client, Body::Data(c)) => {
                if c.mode == RwMode::Client {
                    self.available = false;
                    self.session = Some(c.client_id);
                    match pcm_samples(&c) {
                        Some(samples) => WorkerAction::Transcribe(c.serial_no, c.client_id, samples),
                        None => WorkerAction::Idle,
                    }
                } else {
                    WorkerAction::Idle
                }
            },
            (EndpointType::Handler, Body::Eos(_, cid)) => {
                let open = match self.session {
                    Some(s) => s == cid,
                    None => false,
                };
                let ended = match self.closed {
                    Some(s) => s == cid,
                    None => false,
                };
                if open || !ended {
                    self.available = true;
                    self.session = None;
                    self.closed = Some(cid);
                    WorkerAction::ResetAndReport(
                        encode_frame(
                            &Frame {
                                e_type: EndpointType::Handler,
                                body: Body::Ack(Ack { serial_no: self.serial_no, available: true }),
                            },
                        ),
                    )
                } else {
                    WorkerAction::Idle
                }
            },
            _ => WorkerAction::Idle,
        }
    }

    /// No frame came within the read timeout: the worker is idle and reports
    /// itself available from now on.
    pub fn on_idle(&mut self)
        ensures
            *final(self) == (WorkerSession { available: true, ..*old(self) }),
    {
        self.available = true;
    }
}

/// The first `Eos` of a client resets the worker and reports it available,
/// with or without audio before it; a second `Eos` for the session that is
/// already closed is dropped: the worker neither resets nor reports again,
/// and its state stays as it was.
pub proof fn lemma_eos_idempotent(st: WorkerSession, e_sn: SerialNo, cid: ClientId)
    ensures
        ({
            let eos = Frame { e_type: EndpointType::Handler, body: Body::Eos(e_sn, cid) };
            let (st1, act1) = worker_step(st, eos);
            let (st2, act2) = worker_step(st1, eos);
            &&& st.closed != Some(cid) ==> act1 == Act::ResetAndReport(report(st.serial_no, true))
                && st1.available
            &&& st2 == st1
            &&& act2 == Act::Idle
        }),
{
}

/// The state and the actions after a run of frames, in order.
pub open spec fn worker_run(st: WorkerSession, frames: Seq<Frame>) -> (WorkerSession, Seq<Act>)
    decreases frames.len(),
{
    if frames.len() == 0 {
        (st, Seq::empty())
    } else {
        let (next, act) = worker_step(st, frames[0]);
        let (end, acts) = worker_run(next, frames.drop_first());
        (end, seq![act] + acts)
    }
}

pub open spec fn audio_in(c: IOChunk) -> Frame {
    Frame { e_type: EndpointType::Client, body: Body::Data(c) }
}

pub open spec fn transcription_of(c: IOChunk) -> Act {
    Act::Transcribe(c.serial_no, c.client_id, pcm_of(c.data@, c.length as nat))
}

proof fn lemma_session_tail(st: WorkerSession, chunks: Seq<IOChunk>, client_id: ClientId, eos: Frame)
    requires
        chunks.len() > 0 || st.session == Some(client_id),
        forall|i: int|
            0 <= i < chunks.len() ==> (#[trigger] chunks[i]).mode == RwMode::Client && pcm_ok(
                chunks[i],
            ) && chunks[i].client_id == client_id,
        eos.e_type == EndpointType::Handler,
        eos.body is Eos,
        eos.body->Eos_1 == client_id,
    ensures
        worker_run(st, chunks.map_values(|c: IOChunk| audio_in(c)).push(eos)).1 == chunks.map_values(
            |c: IOChunk| transcription_of(c),
        ).push(Act::ResetAndReport(report(st.serial_no, true))),
        worker_run(st, chunks.map_values(|c: IOChunk| audio_in(c)).push(eos)).0 == (WorkerSession {
            available: true,
            session: None,
            closed: Some(client_id),
            ..st
        }),
    decreases chunks.len(),
{
    let frames = chunks.map_values(|c: IOChunk| audio_in(c)).push(eos);
    if chunks.len() == 0 {
        assert(frames.drop_first() =~= Seq::<Frame>::empty());
        assert(frames[0] == eos);
        let (next, act) = worker_step(st, eos);
        assert(next == (WorkerSession { available: true, session: None, closed: Some(client_id), ..st }));
        assert(act == Act::ResetAndReport(report(st.serial_no, true)));
        assert(worker_run(next, frames.drop_first()) == (next, Seq::<Act>::empty()));
        assert(chunks.map_values(|c: IOChunk| transcription_of(c)) =~= Seq::<Act>::empty());
        assert(seq![act] + Seq::<Act>::empty() =~= Seq::<Act>::empty().push(act));
    } else {
        let c = chunks[0];
        let tail = chunks.drop_first();
        let next = WorkerSession { available: false, session: Some(client_id), ..st };
        assert(frames[0] == audio_in(c));
        assert(worker_step(st, frames[0]) == (next, transcription_of(c)));
        assert forall|i: int| 0 <= i < tail.len() implies (#[trigger] tail[i]).mode
            == RwMode::Client && pcm_ok(tail[i]) && tail[i].client_id == client_id by {
            assert(tail[i] == chunks[i + 1]);
        }
        lemma_session_tail(next, tail, client_id, eos);
        assert(frames.drop_first() =~= tail.map_values(|c: IOChunk| audio_in(c)).push(eos));
        assert(worker_run(st, frames).1 == seq![transcription_of(c)] + worker_run(
            next,
            frames.drop_first(),
        ).1);
        assert(chunks.map_values(|c: IOChunk| transcription_of(c)).push(
            Act::ResetAndReport(report(st.serial_no, true)),
        ) =~= seq![transcription_of(c)] + tail.map_values(|c: IOChunk| transcription_of(c)).push(
            Act::ResetAndReport(report(st.serial_no, true)),
        ));
    }
}

/// A session streams audio and then ends: each audio chunk of the client,
/// in the order received, is handed to the recogniser once with its
/// samples; the `Eos` that follows resets the recogniser exactly once and
/// reports the worker available.
pub proof fn lemma_session_run(
    st: WorkerSession,
    chunks: Seq<IOChunk>,
    client_id: ClientId,
    eos_serial_no: SerialNo,
)
    requires
        chunks.len() > 0,
        forall|i: int|
            0 <= i < chunks.len() ==> (#[trigger] chunks[i]).mode == RwMode::Client && pcm_ok(
                chunks[i],
            ) && chunks[i].client_id == client_id,
    ensures
        ({
            let eos = Frame {
                e_type: EndpointType::Handler,
                body: Body::Eos(eos_serial_no, client_id),
            };
            let (end, acts) = worker_run(
                st,
                chunks.map_values(|c: IOChunk| audio_in(c)).push(eos),
            );
            &&& acts == chunks.map_values(|c: IOChunk| transcription_of(c)).push(
                Act::ResetAndReport(report(st.serial_no, true)),
            )
            &&& end == (WorkerSession {
                available: true,
                session: None,
                closed: Some(client_id),
                ..st
            })
        }),
{
    let eos = Frame { e_type: EndpointType::Handler, body: Body::Eos(eos_serial_no, client_id) };
    lemma_session_tail(st, chunks, client_id, eos);
}

} // verus!
