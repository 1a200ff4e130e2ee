//! A worker as the proxy sees it, and the mailbox that serialises every
//! frame written on that worker's behalf.

use vstd::prelude::*;

use dashmap::DashMap;

use crate::protocol::maker::{encode_frame, frame_bytes};
use crate::protocol::{
    Ack, Body, ClientId, EndpointType, Frame, IOChunk, SerialNo, TranscribeResult,
};

verus! {

/// The proxy's record of one registered worker.
#[derive(Debug, Clone, Copy, PartialEq, Eq)]
pub struct WorkerChannel {
    pub serial_no: SerialNo,
    pub available: bool,
    pub stream_closed: bool,
    /// The client admitted to this worker, if any.
    pub client: Option<ClientId>,
}

impl WorkerChannel {
    pub open spec fn new_spec(serial_no: SerialNo) -> Self {
        WorkerChannel { serial_no, available: true, stream_closed: false, client: None }
    }

    /// A freshly registered worker: available, open, with no client.
    pub fn new(serial_no: SerialNo) -> (r: Self)
        ensures
            r == Self::new_spec(serial_no),
    {
        WorkerChannel { serial_no, available: true, stream_closed: false, client: None }
    }

    pub fn get_serial_no(&self) -> (r: SerialNo)
        ensures
            r == self.serial_no,
    {
        self.serial_no
    }

    pub fn is_available(&self) -> (r: bool)
        ensures
            r == self.available,
    {
        self.available
    }

    pub fn update_available(&mut self, available: bool)
        ensures
            *final(self) == (WorkerChannel { available, ..*old(self) }),
    {
        self.available = available;
    }

    pub fn is_stream_closed(&self) -> (r: bool)
        ensures
            r == self.stream_closed,
    {
        self.stream_closed
    }
}

#[verifier::external_type_specification]
#[verifier::external_body]
#[verifier::reject_recursive_types(K)]
#[verifier::reject_recursive_types(V)]
#[verifier::reject_recursive_types(S)]
pub struct ExDashMap<K, V, S>(DashMap<K, V, S>);

/// The client ids that a mailbox's client map holds.
pub uninterp spec fn client_ids_of(m: DashMap<ClientId, ()>) -> Set<ClientId>;

/// Relies on DashMap::new: the map starts empty.
#[verifier::external_body]
fn client_map_new() -> (r: DashMap<ClientId, ()>)
    ensures
        client_ids_of(r) == Set::<ClientId>::empty(),
{
    DashMap::new()
}

/// Relies on DashMap::contains_key: whether `cid` is a key.
#[verifier::external_body]
fn client_map_contains(m: &DashMap<ClientId, ()>, cid: ClientId) -> (r: bool)
    ensures
        r == client_ids_of(*m).contains(cid),
{
    m.contains_key(&cid)
}

/// Relies on DashMap::insert: `cid` becomes a key, the other keys stay.
#[verifier::external_body]
fn client_map_insert(m: &mut DashMap<ClientId, ()>, cid: ClientId)
    ensures
        client_ids_of(*final(m)) == client_ids_of(*old(m)).insert(cid),
{
    m.insert(cid, ());
}

/// Relies on DashMap::remove: `cid` is no longer a key, the other keys stay.
#[verifier::external_body]
fn client_map_remove(m: &mut DashMap<ClientId, ()>, cid: ClientId)
    ensures
        client_ids_of(*final(m)) == client_ids_of(*old(m)).remove(cid),
{
    m.remove(&cid);
}

/// Relies on DashMap::iter: every key once, in an order that the map picks.
#[verifier::external_body]
fn client_map_ids(m: &DashMap<ClientId, ()>) -> (r: Vec<ClientId>)
    ensures
        r@.to_set() == client_ids_of(*m),
        r@.no_duplicates(),
{
    m.iter().map(|e| *e.key()).collect()
}

/// What the proxy asks of a worker's mailbox. The sockets themselves stay
/// with the task that drains the mailbox.
#[derive(Debug, Clone, Copy, PartialEq, Eq)]
pub enum WorkerChannelMessage {
    /// The worker's write half was installed.
    Attach,
    RegisterOk(SerialNo),
    /// Liveness probe of the worker and of every client.
    Status,
    Alive(SerialNo, bool),
    /// A client was admitted; its write half was installed under this id.
    ConnOk(ClientId),
    ClientData(IOChunk),
    ServerData(IOChunk),
    Eos(SerialNo, ClientId),
    Detach,
}

/// The socket that a write goes to.
#[derive(Debug, Clone, Copy, PartialEq, Eq, Structural)]
pub enum Target {
    Worker,
    Client(ClientId),
    /// Shut the worker's write half down; carries no bytes.
    CloseWorker,
}

/// One write that the mailbox task performs, in order.
#[derive(Debug, PartialEq, Eq)]
pub struct Write {
    pub to: Target,
    pub bytes: Vec<u8>,
}

pub open spec fn writes_view(v: Seq<Write>) -> Seq<(Target, Seq<u8>)> {
    v.map_values(|w: Write| (w.to, w.bytes@))
}

/// The state of a mailbox as the contracts see it.
pub struct MailboxModel {
    pub serial_no: SerialNo,
    pub attached: bool,
    pub detached: bool,
    pub stream_closed: bool,
    pub clients: Set<ClientId>,
}

pub open spec fn to_worker(f: Frame) -> Seq<(Target, Seq<u8>)> {
    seq![(Target::Worker, frame_bytes(f))]
}

pub open spec fn worker_write(st: MailboxModel, f: Frame) -> Seq<(Target, Seq<u8>)> {
    if st.attached {
        to_worker(f)
    } else {
        Seq::empty()
    }
}

pub open spec fn data_frame(c: IOChunk) -> Frame {
    Frame { e_type: EndpointType::Client, body: Body::Data(c) }
}

pub open spec fn result_frame(c: IOChunk) -> Frame {
    Frame {
        e_type: EndpointType::Client,
        body: Body::Result(TranscribeResult { length: c.length, data: c.data }),
    }
}

/// The frame that probes a client during a liveness check.
pub open spec fn client_probe() -> Seq<u8> {
    frame_bytes(Frame { e_type: EndpointType::Client, body: Body::Status })
}

/// The frame that probes the worker during a liveness check.
pub open spec fn worker_probe() -> Seq<u8> {
    frame_bytes(Frame { e_type: EndpointType::Handler, body: Body::Status })
}

/// The effect of one message other than `Status` on a mailbox: the next
/// state and the writes, in order. A detached mailbox does nothing.
pub open spec fn step(st: MailboxModel, m: WorkerChannelMessage) -> (
    MailboxModel,
    Seq<(Target, Seq<u8>)>,
) {
    if st.detached {
        (st, Seq::empty())
    } else {
        match m {
            WorkerChannelMessage::Attach => (MailboxModel { attached: true, ..st }, Seq::empty()),
            WorkerChannelMessage::RegisterOk(sn) => (
                st,
                worker_write(st, Frame { e_type: EndpointType::Handler, body: Body::RegOk(sn) }),
            ),
            WorkerChannelMessage::Status => (st, Seq::empty()),
            WorkerChannelMessage::Alive(sn, a) => (
                st,
                worker_write(
                    st,
                    Frame {
                        e_type: EndpointType::Handler,
                        body: Body::Ack(Ack { serial_no: sn, available: a }),
                    },
                ),
            ),
            WorkerChannelMessage::ConnOk(cid) => if st.clients.contains(cid) {
                (st, Seq::empty())
            } else {
                (
                    MailboxModel { clients: st.clients.insert(cid), ..st },
                    seq![
                        (
                            Target::Client(cid),
                            frame_bytes(
                                Frame {
                                    e_type: EndpointType::Client,
                                    body: Body::ConnOk(st.serial_no, cid),
                                },
                            ),
                        ),
                    ],
                )
            },
            WorkerChannelMessage::ClientData(c) => (st, worker_write(st, data_frame(c))),
            WorkerChannelMessage::ServerData(c) => (
                st,
                if st.clients.contains(c.client_id) {
                    seq![(Target::Client(c.client_id), frame_bytes(result_frame(c)))]
                } else {
                    Seq::empty()
                },
            ),
            WorkerChannelMessage::Eos(sn, cid) => (
                st,
                worker_write(st, Frame { e_type: EndpointType::Handler, body: Body::Eos(sn, cid) }),
            ),
            WorkerChannelMessage::Detach => (
                MailboxModel { detached: true, ..st },
                if st.attached {
                    seq![(Target::CloseWorker, Seq::<u8>::empty())]
                } else {
                    Seq::empty()
                },
            ),
        }
    }
}

/// The mailbox of one worker inside the proxy: it owns, through the task
/// that drains it, the worker's write half and the write halves of the
/// worker's clients, and turns each message into the writes it calls for.
pub struct Mailbox {
    serial_no: SerialNo,
    attached: bool,
    detached: bool,
    stream_closed: bool,
    clients: DashMap<ClientId, ()>,
}

impl Mailbox {
    pub closed spec fn view(&self) -> MailboxModel {
        MailboxModel {
            serial_no: self.serial_no,
            attached: self.attached,
            detached: self.detached,
            stream_closed: self.stream_closed,
            clients: client_ids_of(self.clients),
        }
    }

    pub fn new(serial_no: SerialNo) -> (r: Self)
        ensures
            r.view() == (MailboxModel {
                serial_no,
                attached: false,
                detached: false,
                stream_closed: false,
                clients: Set::empty(),
            }),
    {
        Mailbox {
            serial_no,
            attached: false,
            detached: false,
            stream_closed: false,
            clients: client_map_new(),
        }
    }

    pub fn is_stream_closed(&self) -> (r: bool)
        ensures
            r == self.view().stream_closed,
    {
        self.stream_closed
    }

    pub fn is_detached(&self) -> (r: bool)
        ensures
            r == self.view().detached,
    {
        self.detached
    }

    pub fn has_client(&self, client_id: ClientId) -> (r: bool)
        ensures
            r == self.view().clients.contains(client_id),
    {
        client_map_contains(&self.clients, client_id)
    }

    /// A write to the worker failed: the stream is closed, and the sweep of
    /// the roster evicts the worker. The mailbox goes on draining.
    pub fn worker_write_failed(&mut self)
        ensures
            final(self).view() == (MailboxModel { stream_closed: true, ..old(self).view() }),
    {
        self.stream_closed = true;
    }

    /// A write to client `client_id` failed: the client is dropped, and its
    /// socket is shut down by the caller. Not fatal for the worker.
    pub fn client_write_failed(&mut self, client_id: ClientId)
        ensures
            final(self).view() == (MailboxModel {
                clients: old(self).view().clients.remove(client_id),
                ..old(self).view()
            }),
    {
        client_map_remove(&mut self.clients, client_id);
    }

    fn write_worker(&self, frame: Frame) -> (r: Vec<Write>)
        ensures
            writes_view(r@) == worker_write(self.view(), frame),
    {
        let mut out: Vec<Write> = Vec::new();
        if self.attached {
            out.push(Write { to: Target::Worker, bytes: encode_frame(&frame) });
            assert(writes_view(out@) =~= to_worker(frame));
        } else {
            assert(writes_view(out@) =~= Seq::<(Target, Seq<u8>)>::empty());
        }
        out
    }

    /// Liveness probe: one probe to each client, in the map's order, then
    /// one to the worker if it is attached.
    fn probe(&self) -> (r: Vec<Write>)
        ensures
            exists|ids: Seq<ClientId>|
                {
                    &&& ids.no_duplicates()
                    &&& ids.to_set() == self.view().clients
                    &&& writes_view(r@) == ids.map_values(
                        |c: ClientId| (Target::Client(c), client_probe()),
                    ) + (if self.view().attached {
                        seq![(Target::Worker, worker_probe())]
                    } else {
                        Seq::empty()
                    })
                },
    {
        let ids = client_map_ids(&self.clients);
        let mut out: Vec<Write> = Vec::new();
        let mut i: usize = 0;
        while i < ids.len()
            invariant
                i <= ids@.len(),
                writes_view(out@) == ids@.take(i as int).map_values(
                    |c: ClientId| (Target::Client(c), client_probe()),
                ),
            decreases ids@.len() - i,
        {
            let probe = encode_frame(&Frame { e_type: EndpointType::Client, body: Body::Status });
            let ghost before = writes_view(out@);
            out.push(Write { to: Target::Client(ids[i]), bytes: probe });
            assert(writes_view(out@) =~= before.push((Target::Client(ids@[i as int]), client_probe())));
            assert(ids@.take(i + 1) =~= ids@.take(i as int).push(ids@[i as int]));
            i = i + 1;
            assert(writes_view(out@) =~= ids@.take(i as int).map_values(
                |c: ClientId| (Target::Client(c), client_probe()),
            ));
        }
        let ghost head = writes_view(out@);
        assert(ids@.take(i as int) =~= ids@);
        if self.attached {
            let status = encode_frame(&Frame { e_type: EndpointType::Handler, body: Body::Status });
            out.push(Write { to: Target::Worker, bytes: status });
            assert(writes_view(out@) =~= head + seq![(Target::Worker, worker_probe())]);
        } else {
            assert(writes_view(out@) =~= head + Seq::<(Target, Seq<u8>)>::empty());
        }
        out
    }

    /// Handles one message and returns the writes it calls for, in order.
    /// Every write for this worker goes through here, so the frames on each
    /// socket keep the order in which the messages came.
    pub fn handle(&mut self, msg: WorkerChannelMessage) -> (r: Vec<Write>)
        ensures
            msg != WorkerChannelMessage::Status ==> (final(self).view(), writes_view(r@))
                == step(old(self).view(), msg),
            msg == WorkerChannelMessage::Status ==> final(self).view() == old(self).view(),
            msg == WorkerChannelMessage::Status && old(self).view().detached ==> r@.len() == 0,
            msg == WorkerChannelMessage::Status && !old(self).view().detached ==> exists|
                ids: Seq<ClientId>,
            |
                {
                    &&& ids.no_duplicates()
                    &&& ids.to_set() == old(self).view().clients
                    &&& writes_view(r@) == ids.map_values(
                        |c: ClientId| (Target::Client(c), client_probe()),
                    ) + (if old(self).view().attached {
                        seq![(Target::Worker, worker_probe())]
                    } else {
                        Seq::empty()
                    })
                },
    {
        if self.detached {
            let out: Vec<Write> = Vec::new();
            assert(writes_view(out@) =~= Seq::<(Target, Seq<u8>)>::empty());
            return out;
        }
        match msg {
            WorkerChannelMessage::Attach => {
                self.attached = true;
                let out: Vec<Write> = Vec::new();
                assert(writes_view(out@) =~= Seq::<(Target, Seq<u8>)>::empty());
                out
            },
            WorkerChannelMessage::RegisterOk(sn) => {
                self.write_worker(Frame { e_type: EndpointType::Handler, body: Body::RegOk(sn) })
            },
            WorkerChannelMessage::Status => self.probe(),
            WorkerChannelMessage::Alive(sn, a) => {
                self.write_worker(
                    Frame {
                        e_type: EndpointType::Handler,
                        body: Body::Ack(Ack { serial_no: sn, available: a }),
                    },
                )
            },
            WorkerChannelMessage::ConnOk(cid) => {
                let mut out: Vec<Write> = Vec::new();
                if client_map_contains(&self.clients, cid) {
                    assert(writes_view(out@) =~= Seq::<(Target, Seq<u8>)>::empty());
                } else {
                    client_map_insert(&mut self.clients, cid);
                    let f = Frame {
                        e_type: EndpointType::Client,
                        body: Body::ConnOk(self.serial_no, cid),
                    };
                    out.push(Write { to: Target::Client(cid), bytes: encode_frame(&f) });
                    assert(writes_view(out@) =~= seq![(Target::Client(cid), frame_bytes(f))]);
                }
                out
            },
            WorkerChannelMessage::ClientData(c) => {
                self.write_worker(Frame { e_type: EndpointType::Client, body: Body::Data(c) })
            },
            WorkerChannelMessage::ServerData(c) => {
                let mut out: Vec<Write> = Vec::new();
                let cid = c.client_id;
                if client_map_contains(&self.clients, cid) {
                    let f = Frame {
                        e_type: EndpointType::Client,
                        body: Body::Result(TranscribeResult { length: c.length, data: c.data }),
                    };
                    out.push(Write { to: Target::Client(cid), bytes: encode_frame(&f) });
                    assert(writes_view(out@) =~= seq![(Target::Client(cid), frame_bytes(f))]);
                } else {
                    assert(writes_view(out@) =~= Seq::<(Target, Seq<u8>)>::empty());
                }
                out
            },
            WorkerChannelMessage::Eos(sn, cid) => {
                self.write_worker(Frame { e_type: EndpointType::Handler, body: Body::Eos(sn, cid) })
            },
            WorkerChannelMessage::Detach => {
                let mut out: Vec<Write> = Vec::new();
                if self.attached {
                    out.push(Write { to: Target::CloseWorker, bytes: Vec::new() });
                    assert(writes_view(out@) =~= seq![(Target::CloseWorker, Seq::<u8>::empty())]);
                } else {
                    assert(writes_view(out@) =~= Seq::<(Target, Seq<u8>)>::empty());
                }
                self.detached = true;
                out
            },
        }
    }
}

/// The writes that a run of messages other than `Status` calls for, in order.
pub open spec fn run(st: MailboxModel, msgs: Seq<WorkerChannelMessage>) -> Seq<(Target, Seq<u8>)>
    decreases msgs.len(),
{
    if msgs.len() == 0 {
        Seq::empty()
    } else {
        let (next, out) = step(st, msgs[0]);
        out + run(next, msgs.drop_first())
    }
}

/// Audio chunks that one client sends reach the worker in the order sent:
/// each becomes one `Data` frame on the worker's socket.
pub proof fn lemma_audio_order(st: MailboxModel, chunks: Seq<IOChunk>)
    requires
        st.attached,
        !st.detached,
    ensures
        run(st, chunks.map_values(|c: IOChunk| WorkerChannelMessage::ClientData(c)))
            == chunks.map_values(|c: IOChunk| (Target::Worker, frame_bytes(data_frame(c)))),
    decreases chunks.len(),
{
    let msgs = chunks.map_values(|c: IOChunk| WorkerChannelMessage::ClientData(c));
    let want = chunks.map_values(|c: IOChunk| (Target::Worker, frame_bytes(data_frame(c))));
    if chunks.len() == 0 {
        assert(want =~= Seq::<(Target, Seq<u8>)>::empty());
    } else {
        let tail = chunks.drop_first();
        lemma_audio_order(st, tail);
        assert(msgs.drop_first() =~= tail.map_values(
            |c: IOChunk| WorkerChannelMessage::ClientData(c),
        ));
        assert(want =~= seq![(Target::Worker, frame_bytes(data_frame(chunks[0])))]
            + tail.map_values(|c: IOChunk| (Target::Worker, frame_bytes(data_frame(c)))));
    }
}

/// Results that a worker emits for one client reach that client in the
/// order emitted: each becomes one `Result` frame on the client's socket.
pub proof fn lemma_result_order(st: MailboxModel, client_id: ClientId, chunks: Seq<IOChunk>)
    requires
        !st.detached,
        st.clients.contains(client_id),
        forall|i: int| 0 <= i < chunks.len() ==> (#[trigger] chunks[i]).client_id == client_id,
    ensures
        run(st, chunks.map_values(|c: IOChunk| WorkerChannelMessage::ServerData(c)))
            == chunks.map_values(
            |c: IOChunk| (Target::Client(client_id), frame_bytes(result_frame(c))),
        ),
    decreases chunks.len(),
{
    let msgs = chunks.map_values(|c: IOChunk| WorkerChannelMessage::ServerData(c));
    let want = chunks.map_values(
        |c: IOChunk| (Target::Client(client_id), frame_bytes(result_frame(c))),
    );
    if chunks.len() == 0 {
        assert(want =~= Seq::<(Target, Seq<u8>)>::empty());
    } else {
        let tail = chunks.drop_first();
        assert forall|i: int| 0 <= i < tail.len() implies (#[trigger] tail[i]).client_id
            == client_id by {
            assert(tail[i] == chunks[i + 1]);
        }
        lemma_result_order(st, client_id, tail);
        assert(msgs.drop_first() =~= tail.map_values(
            |c: IOChunk| WorkerChannelMessage::ServerData(c),
        ));
        assert(chunks[0].client_id == client_id);
        assert(want =~= seq![(Target::Client(client_id), frame_bytes(result_frame(chunks[0])))]
            + tail.map_values(
            |c: IOChunk| (Target::Client(client_id), frame_bytes(result_frame(c))),
        ));
    }
}

/// Audio chunks followed by any other run: the chunks' `Data` frames come
/// first, in order, then what the rest calls for.
pub proof fn lemma_audio_then(st: MailboxModel, chunks: Seq<IOChunk>, rest: Seq<WorkerChannelMessage>)
    requires
        st.attached,
        !st.detached,
    ensures
        run(st, chunks.map_values(|c: IOChunk| WorkerChannelMessage::ClientData(c)) + rest)
            == chunks.map_values(|c: IOChunk| (Target::Worker, frame_bytes(data_frame(c))))
            + run(st, rest),
    decreases chunks.len(),
{
    let msgs = chunks.map_values(|c: IOChunk| WorkerChannelMessage::ClientData(c)) + rest;
    let want = chunks.map_values(|c: IOChunk| (Target::Worker, frame_bytes(data_frame(c))));
    if chunks.len() == 0 {
        assert(msgs =~= rest);
        assert(want + run(st, rest) =~= run(st, rest));
    } else {
        let tail = chunks.drop_first();
        lemma_audio_then(st, tail, rest);
        assert(msgs.drop_first() =~= tail.map_values(
            |c: IOChunk| WorkerChannelMessage::ClientData(c),
        ) + rest);
        assert(msgs[0] == WorkerChannelMessage::ClientData(chunks[0]));
        assert(want + run(st, rest) =~= seq![(Target::Worker, frame_bytes(data_frame(chunks[0])))]
            + (tail.map_values(|c: IOChunk| (Target::Worker, frame_bytes(data_frame(c))))
            + run(st, rest)));
    }
}

/// A client streams its audio and ends its session: the worker's socket
/// gets every chunk's `Data` frame, in order, none dropped or repeated, and
/// then the one `Eos` frame.
pub proof fn lemma_stream_then_eos(
    st: MailboxModel,
    chunks: Seq<IOChunk>,
    serial_no: SerialNo,
    client_id: ClientId,
)
    requires
        st.attached,
        !st.detached,
    ensures
        run(
            st,
            chunks.map_values(|c: IOChunk| WorkerChannelMessage::ClientData(c)).push(
                WorkerChannelMessage::Eos(serial_no, client_id),
            ),
        ) == chunks.map_values(|c: IOChunk| (Target::Worker, frame_bytes(data_frame(c)))).push(
            (
                Target::Worker,
                frame_bytes(
                    Frame { e_type: EndpointType::Handler, body: Body::Eos(serial_no, client_id) },
                ),
            ),
        ),
{
    let eos = WorkerChannelMessage::Eos(serial_no, client_id);
    let tail = seq![eos];
    lemma_audio_then(st, chunks, tail);
    assert(chunks.map_values(|c: IOChunk| WorkerChannelMessage::ClientData(c)).push(eos)
        =~= chunks.map_values(|c: IOChunk| WorkerChannelMessage::ClientData(c)) + tail);
    assert(tail.drop_first() =~= Seq::<WorkerChannelMessage>::empty());
    let w = (
        Target::Worker,
        frame_bytes(Frame { e_type: EndpointType::Handler, body: Body::Eos(serial_no, client_id) }),
    );
    assert(tail[0] == eos);
    assert(step(st, eos).1 == seq![w]);
    assert(run(st, tail.drop_first()) == Seq::<(Target, Seq<u8>)>::empty());
    assert(run(st, tail) =~= seq![w]);
    assert(chunks.map_values(|c: IOChunk| (Target::Worker, frame_bytes(data_frame(c)))) + seq![w]
        =~= chunks.map_values(|c: IOChunk| (Target::Worker, frame_bytes(data_frame(c)))).push(w));
}

/// Whether a write is a `Data` frame to the worker (packet type byte 7).
pub open spec fn is_data_write(w: (Target, Seq<u8>)) -> bool {
    w.0 == Target::Worker && w.1.len() > 3 && w.1[3] == 7
}

pub open spec fn is_client_data(m: WorkerChannelMessage) -> bool {
    m is ClientData
}

/// The `Data` frames written to the worker, in order.
pub open spec fn worker_data(out: Seq<(Target, Seq<u8>)>) -> Seq<Seq<u8>> {
    out.filter(|w: (Target, Seq<u8>)| is_data_write(w)).map_values(|w: (Target, Seq<u8>)| w.1)
}

/// The `Data` frames of the audio chunks among `msgs`, in order.
pub open spec fn audio_frames(msgs: Seq<WorkerChannelMessage>) -> Seq<Seq<u8>> {
    msgs.filter(|m: WorkerChannelMessage| is_client_data(m)).map_values(
        |m: WorkerChannelMessage| frame_bytes(data_frame(m->ClientData_0)),
    )
}

proof fn lemma_packet_byte(f: Frame)
    ensures
        frame_bytes(f).len() > 3,
        frame_bytes(f)[3] == crate::protocol::packet_code(crate::protocol::body_packet(f.body)),
{
}

/// Audio chunks reach the worker in the order the mailbox received them,
/// whatever other messages (but a liveness probe or a detach) come in
/// between: the `Data` frames on the worker's socket are exactly the
/// chunks' frames, in order.
pub proof fn lemma_audio_order_interleaved(st: MailboxModel, msgs: Seq<WorkerChannelMessage>)
    requires
        st.attached,
        !st.detached,
        forall|i: int|
            0 <= i < msgs.len() ==> #[trigger] msgs[i] != WorkerChannelMessage::Detach
                && msgs[i] != WorkerChannelMessage::Status,
    ensures
        worker_data(run(st, msgs)) == audio_frames(msgs),
    decreases msgs.len(),
{
    broadcast use vstd::seq_lib::group_filter_ensures;

    let dp = |w: (Target, Seq<u8>)| is_data_write(w);
    let cp = |m: WorkerChannelMessage| is_client_data(m);
    if msgs.len() == 0 {
        assert(worker_data(run(st, msgs)) =~= Seq::<Seq<u8>>::empty());
        assert(audio_frames(msgs) =~= Seq::<Seq<u8>>::empty());
    } else {
        let m = msgs[0];
        let rest = msgs.drop_first();
        let (next, out) = step(st, m);
        assert forall|i: int| 0 <= i < rest.len() implies #[trigger] rest[i]
            != WorkerChannelMessage::Detach && rest[i] != WorkerChannelMessage::Status by {
            assert(rest[i] == msgs[i + 1]);
        }
        assert(next.attached && !next.detached);
        lemma_audio_order_interleaved(next, rest);
        assert(run(st, msgs) == out + run(next, rest));
        assert(msgs =~= seq![m] + rest);
        Seq::filter_distributes_over_add(out, run(next, rest), dp);
        Seq::filter_distributes_over_add(seq![m], rest, cp);
        let od = out.filter(dp).map_values(|w: (Target, Seq<u8>)| w.1);
        let md = seq![m].filter(cp).map_values(
            |m: WorkerChannelMessage| frame_bytes(data_frame(m->ClientData_0)),
        );
        reveal_with_fuel(Seq::filter, 2);
        match m {
            WorkerChannelMessage::ClientData(c) => {
                lemma_packet_byte(data_frame(c));
                assert(od =~= seq![frame_bytes(data_frame(c))]);
                assert(md =~= seq![frame_bytes(data_frame(c))]);
            },
            WorkerChannelMessage::RegisterOk(sn) => {
                lemma_packet_byte(Frame { e_type: EndpointType::Handler, body: Body::RegOk(sn) });
                assert(od =~= Seq::<Seq<u8>>::empty());
                assert(md =~= Seq::<Seq<u8>>::empty());
            },
            WorkerChannelMessage::Alive(sn, a) => {
                lemma_packet_byte(
                    Frame {
                        e_type: EndpointType::Handler,
                        body: Body::Ack(crate::protocol::Ack { serial_no: sn, available: a }),
                    },
                );
                assert(od =~= Seq::<Seq<u8>>::empty());
                assert(md =~= Seq::<Seq<u8>>::empty());
            },
            WorkerChannelMessage::Eos(sn, cid) => {
                lemma_packet_byte(Frame { e_type: EndpointType::Handler, body: Body::Eos(sn, cid) });
                assert(od =~= Seq::<Seq<u8>>::empty());
                assert(md =~= Seq::<Seq<u8>>::empty());
            },
            _ => {
                assert(od =~= Seq::<Seq<u8>>::empty());
                assert(md =~= Seq::<Seq<u8>>::empty());
            },
        }
        assert(worker_data(run(st, msgs)) =~= od + worker_data(run(next, rest)));
        assert(audio_frames(msgs) =~= md + audio_frames(rest));
    }
}

} // verus!
