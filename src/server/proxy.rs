//! The proxy's roster of workers: registration, worker selection on
//! `Connect`, routing by serial number, availability reports and the
//! periodic sweep of workers whose stream has closed.

use vstd::prelude::*;

use super::channel::{WorkerChannel, WorkerChannelMessage};
use crate::protocol::maker::{encode_frame, frame_bytes, make_serial_no};
use crate::protocol::{
    same_serial_no, Body, ClientId, DecodeError, EndpointType, Frame, RwMode, SerialNo,
};

verus! {

/// Relies on rand::random: a client id drawn from the thread-local
/// generator. Nothing is known of the value.
#[verifier::external_body]
fn draw_client_id() -> (r: ClientId) {
    rand::random::<u32>()
}

/// The address and port that the proxy listens on.
#[derive(Debug)]
pub struct TcpListenerConfig {
    pub ip: String,
    pub port: u16,
}

impl TcpListenerConfig {
    pub fn new(ip: String, port: u16) -> (r: Self)
        ensures
            r.ip@ == ip@,
            r.port == port,
    {
        TcpListenerConfig { ip, port }
    }
}

/// No two records share a serial number.
pub open spec fn unique_serials<H>(s: Seq<(WorkerChannel, H)>) -> bool {
    forall|i: int, j: int|
        0 <= i < s.len() && 0 <= j < s.len() && i != j ==> #[trigger] s[i].0.serial_no
            != #[trigger] s[j].0.serial_no
}

/// An available worker has no client, so a worker is never handed to two
/// clients at once; and each worker has one record.
pub open spec fn roster_wf<H>(s: Seq<(WorkerChannel, H)>) -> bool {
    &&& forall|i: int| 0 <= i < s.len() && #[trigger] s[i].0.available ==> s[i].0.client is None
    &&& unique_serials(s)
}

/// Whether `i` is the first record with serial number `sn`.
pub open spec fn first_with<H>(s: Seq<(WorkerChannel, H)>, sn: SerialNo, i: int) -> bool {
    &&& 0 <= i < s.len()
    &&& s[i].0.serial_no == sn
    &&& forall|j: int| 0 <= j < i ==> (#[trigger] s[j].0.serial_no) != sn
}

pub open spec fn has_serial<H>(s: Seq<(WorkerChannel, H)>, sn: SerialNo) -> bool {
    exists|i: int| 0 <= i < s.len() && (#[trigger] s[i].0.serial_no) == sn
}

/// Whether `i` is the first available worker in roster order.
pub open spec fn first_available<H>(s: Seq<(WorkerChannel, H)>, i: int) -> bool {
    &&& 0 <= i < s.len()
    &&& s[i].0.available
    &&& forall|j: int| 0 <= j < i ==> !(#[trigger] s[j].0.available)
}

pub open spec fn has_available<H>(s: Seq<(WorkerChannel, H)>) -> bool {
    exists|i: int| 0 <= i < s.len() && #[trigger] s[i].0.available
}

pub open spec fn is_open<H>(e: (WorkerChannel, H)) -> bool {
    !e.0.stream_closed
}

pub open spec fn is_closed<H>(e: (WorkerChannel, H)) -> bool {
    e.0.stream_closed
}

/// The roster after a sweep: the records whose stream is still open, in order.
pub open spec fn swept<H>(s: Seq<(WorkerChannel, H)>) -> Seq<(WorkerChannel, H)> {
    s.filter(|e: (WorkerChannel, H)| is_open(e))
}

/// The mailbox handles of the records that a sweep drops, in order.
pub open spec fn dropped<H>(s: Seq<(WorkerChannel, H)>) -> Seq<H> {
    s.filter(|e: (WorkerChannel, H)| is_closed(e)).map_values(|e: (WorkerChannel, H)| e.1)
}

/// The record after a `Connect` was admitted to it.
pub open spec fn admitted(w: WorkerChannel, client_id: ClientId) -> WorkerChannel {
    WorkerChannel { available: false, client: Some(client_id), ..w }
}

/// The record after its worker reported its availability; a worker that
/// reports itself available has finished with its client.
pub open spec fn reported(w: WorkerChannel, available: bool) -> WorkerChannel {
    WorkerChannel { available, client: if available { None } else { w.client }, ..w }
}

/// The record after a write to its worker failed.
pub open spec fn closed(w: WorkerChannel) -> WorkerChannel {
    WorkerChannel { stream_closed: true, ..w }
}

/// The roster with every record of `sn` marked closed.
pub open spec fn marked_closed<H>(s: Seq<(WorkerChannel, H)>, sn: SerialNo) -> Seq<
    (WorkerChannel, H),
> {
    Seq::new(
        s.len(),
        |k: int|
            if s[k].0.serial_no == sn {
                (closed(s[k].0), s[k].1)
            } else {
                s[k]
            },
    )
}

/// The workers registered with the proxy, each with the handle of its mailbox.
pub struct Roster<H> {
    entries: Vec<(WorkerChannel, H)>,
}

impl<H> Roster<H> {
    pub closed spec fn view(&self) -> Seq<(WorkerChannel, H)> {
        self.entries@
    }

    pub open spec fn wf(&self) -> bool {
        roster_wf(self.view())
    }

    pub fn new() -> (r: Self)
        ensures
            r.view() == Seq::<(WorkerChannel, H)>::empty(),
            r.wf(),
    {
        Roster { entries: Vec::new() }
    }

    pub fn len(&self) -> (r: usize)
        ensures
            r == self.view().len(),
    {
        self.entries.len()
    }

    /// The record at `i` and its mailbox handle.
    pub fn get(&self, i: usize) -> (r: &(WorkerChannel, H))
        requires
            i < self.view().len(),
        ensures
            *r == self.view()[i as int],
    {
        &self.entries[i]
    }

    /// Index of the first worker with serial number `sn`; frames for an
    /// unknown serial number are dropped by the caller.
    pub fn find(&self, sn: &SerialNo) -> (r: Option<usize>)
        ensures
            r matches Some(i) ==> first_with(self.view(), *sn, i as int),
            r is None ==> !has_serial(self.view(), *sn),
    {
        let mut i: usize = 0;
        while i < self.entries.len()
            invariant
                i <= self.entries@.len(),
                forall|j: int| 0 <= j < i ==> (#[trigger] self.entries@[j].0.serial_no) != *sn,
            decreases self.entries@.len() - i,
        {
            if same_serial_no(&self.entries[i].0.serial_no, sn) {
                return Some(i);
            }
            i = i + 1;
        }
        None
    }

    fn replace_channel(&mut self, i: usize, w: WorkerChannel)
        requires
            i < old(self).view().len(),
        ensures
            final(self).view() == old(self).view().update(i as int, (w, old(self).view()[i as int].1)),
    {
        let (_, h) = self.entries.remove(i);
        self.entries.insert(i, (w, h));
        assert(self.entries@ =~= old(self).view().update(i as int, (w, old(self).view()[i as int].1)));
    }

    /// Admits a client: the first available worker in roster order becomes
    /// unavailable and takes a freshly drawn client id. `None` when no worker
    /// is available; the roster is then unchanged.
    pub fn connect(&mut self) -> (r: Option<(usize, ClientId)>)
        requires
            old(self).wf(),
        ensures
            final(self).wf(),
            r is None <==> !has_available(old(self).view()),
            r is None ==> final(self).view() == old(self).view(),
            r matches Some((i, cid)) ==> {
                &&& first_available(old(self).view(), i as int)
                &&& old(self).view()[i as int].0.client is None
                &&& final(self).view() == old(self).view().update(
                    i as int,
                    (admitted(old(self).view()[i as int].0, cid), old(self).view()[i as int].1),
                )
            },
    {
        let mut i: usize = 0;
        while i < self.entries.len()
            invariant
                self.entries@ == old(self).view(),
                roster_wf(self.entries@),
                i <= self.entries@.len(),
                forall|j: int| 0 <= j < i ==> !(#[trigger] self.entries@[j].0.available),
            decreases self.entries@.len() - i,
        {
            if self.entries[i].0.available {
                let client_id: ClientId = draw_client_id();
                let w = self.entries[i].0;
                let w2 = WorkerChannel { available: false, client: Some(client_id), ..w };
                self.replace_channel(i, w2);
                return Some((i, client_id));
            }
            i = i + 1;
        }
        None
    }

    /// Records an availability report from worker `sn`. Returns the index of
    /// its record, or `None` (the roster unchanged) for an unknown worker.
    pub fn update_available(&mut self, sn: &SerialNo, available: bool) -> (r: Option<usize>)
        requires
            old(self).wf(),
        ensures
            final(self).wf(),
            r is None <==> !has_serial(old(self).view(), *sn),
            r is None ==> final(self).view() == old(self).view(),
            r matches Some(i) ==> {
                &&& first_with(old(self).view(), *sn, i as int)
                &&& final(self).view() == old(self).view().update(
                    i as int,
                    (reported(old(self).view()[i as int].0, available), old(self).view()[i as int].1),
                )
            },
    {
        match self.find(sn) {
            None => None,
            Some(i) => {
                let w = self.entries[i].0;
                let w2 = WorkerChannel {
                    available,
                    client: if available {
                        None
                    } else {
                        w.client
                    },
                    ..w
                };
                self.replace_channel(i, w2);
                Some(i)
            },
        }
    }

    /// Registers worker `sn` with mailbox `mailbox`. A worker that registers
    /// again replaces its old record in place (the latest registration wins)
    /// and the old mailbox handle is handed back; a new one goes last.
    pub fn register(&mut self, sn: SerialNo, mailbox: H) -> (r: Option<H>)
        requires
            old(self).wf(),
        ensures
            final(self).wf(),
            r is None <==> !has_serial(old(self).view(), sn),
            r is None ==> final(self).view() == old(self).view().push(
                (WorkerChannel::new_spec(sn), mailbox),
            ),
            r matches Some(h) ==> exists|i: int|
                {
                    &&& first_with(old(self).view(), sn, i)
                    &&& h == old(self).view()[i].1
                    &&& final(self).view() == old(self).view().update(
                        i,
                        (WorkerChannel::new_spec(sn), mailbox),
                    )
                },
    {
        match self.find(&sn) {
            None => {
                self.entries.push((WorkerChannel::new(sn), mailbox));
                None
            },
            Some(i) => {
                let (_, h) = self.entries.remove(i);
                self.entries.insert(i, (WorkerChannel::new(sn), mailbox));
                assert(self.entries@ =~= old(self).view().update(
                    i as int,
                    (WorkerChannel::new_spec(sn), mailbox),
                ));
                Some(h)
            },
        }
    }

    /// Marks every record of worker `sn` as closed: a write to it failed.
    pub fn mark_stream_closed(&mut self, sn: &SerialNo)
        requires
            old(self).wf(),
        ensures
            final(self).wf(),
            final(self).view() == marked_closed(old(self).view(), *sn),
    {
        let ghost orig = self.entries@;
        let mut i: usize = 0;
        while i < self.entries.len()
            invariant
                i <= self.entries@.len(),
                self.entries@.len() == orig.len(),
                roster_wf(self.entries@),
                forall|j: int|
                    0 <= j < i ==> #[trigger] self.entries@[j] == marked_closed(orig, *sn)[j],
                forall|j: int| i <= j < orig.len() ==> #[trigger] self.entries@[j] == orig[j],
            decreases self.entries@.len() - i,
        {
            if same_serial_no(&self.entries[i].0.serial_no, sn) {
                let w = self.entries[i].0;
                self.replace_channel(i, WorkerChannel { stream_closed: true, ..w });
            }
            i = i + 1;
        }
        assert(self.entries@ =~= marked_closed(orig, *sn));
    }

    /// Drops every record whose stream has closed and hands back their
    /// mailbox handles; the others keep their order.
    pub fn sweep(&mut self) -> (r: Vec<H>)
        requires
            old(self).wf(),
        ensures
            final(self).wf(),
            final(self).view() == swept(old(self).view()),
            r@ == dropped(old(self).view()),
    {
        let ghost orig = self.entries@;
        let mut rest: Vec<(WorkerChannel, H)> = Vec::new();
        std::mem::swap(&mut rest, &mut self.entries);
        let mut removed: Vec<H> = Vec::new();
        let ghost mut j: int = 0;
        while rest.len() > 0
            invariant
                0 <= j <= orig.len(),
                roster_wf(orig),
                rest@ == orig.skip(j),
                self.entries@ == swept(orig.take(j)),
                removed@ == dropped(orig.take(j)),
                roster_wf(self.entries@),
            decreases rest@.len(),
        {
            let e = rest.remove(0);
            proof {
                assert(e == orig[j]);
                assert(orig.take(j + 1) =~= orig.take(j).push(e));
                orig.take(j).lemma_filter_push(e, |e: (WorkerChannel, H)| is_open(e));
                orig.take(j).lemma_filter_push(e, |e: (WorkerChannel, H)| is_closed(e));
                assert(orig.skip(j + 1) =~= rest@);
            }
            if e.0.stream_closed {
                let (_, h) = e;
                removed.push(h);
                proof {
                    let c = |e: (WorkerChannel, H)| is_closed(e);
                    let m = |e: (WorkerChannel, H)| e.1;
                    assert(orig.take(j).push(e).filter(c) == orig.take(j).filter(c).push(e));
                    assert(orig.take(j).filter(c).push(e).map_values(m) =~= orig.take(j).filter(
                        c,
                    ).map_values(m).push(e.1));
                }
            } else {
                proof {
                    let o = |e: (WorkerChannel, H)| is_open(e);
                    assert forall|a: int| 0 <= a < self.entries@.len() implies (
                    #[trigger] self.entries@[a]).0.serial_no != e.0.serial_no by {
                        let x = self.entries@[a];
                        assert(orig.take(j).filter(o).contains(x));
                        orig.take(j).lemma_filter_contains_rev(o, x);
                        let k = choose|k: int| 0 <= k < orig.take(j).len() && orig.take(j)[k] == x;
                        assert(orig[k] == x);
                        assert(orig[j] == e);
                    }
                }
                let ghost before = self.entries@;
                self.entries.push(e);
                proof {
                    assert forall|a: int, b: int|
                        0 <= a < self.entries@.len() && 0 <= b < self.entries@.len() && a != b
                            implies #[trigger] self.entries@[a].0.serial_no
                        != #[trigger] self.entries@[b].0.serial_no by {
                        if a < before.len() && b < before.len() {
                            assert(before[a] == self.entries@[a]);
                            assert(before[b] == self.entries@[b]);
                        } else if a < before.len() {
                            assert(before[a] == self.entries@[a]);
                        } else {
                            assert(before[b] == self.entries@[b]);
                        }
                    }
                }
                proof {
                    let c = |e: (WorkerChannel, H)| is_closed(e);
                    assert(orig.take(j).push(e).filter(c) == orig.take(j).filter(c));
                }
            }
            proof {
                j = j + 1;
            }
        }
        proof {
            assert(orig.take(j) =~= orig);
        }
        removed
    }
}

/// The worker that a `Connect` is admitted to has no client yet, and once
/// admitted it is no longer available to the next `Connect`: a worker never
/// serves two clients at once.
pub proof fn lemma_connect_exclusive<H>(s: Seq<(WorkerChannel, H)>, i: int, client_id: ClientId)
    requires
        roster_wf(s),
        first_available(s, i),
    ensures
        s[i].0.client is None,
        !s.update(i, (admitted(s[i].0, client_id), s[i].1))[i].0.available,
        roster_wf(s.update(i, (admitted(s[i].0, client_id), s[i].1))),
{
}

/// After a worker's stream is marked closed, the next sweep leaves no record
/// of it, and keeps every record whose stream is open.
pub proof fn lemma_gc_liveness<H>(s: Seq<(WorkerChannel, H)>, sn: SerialNo)
    ensures
        forall|k: int|
            0 <= k < swept(marked_closed(s, sn)).len() ==> (#[trigger] swept(
                marked_closed(s, sn),
            )[k]).0.serial_no != sn,
        forall|k: int|
            0 <= k < s.len() && s[k].0.serial_no != sn && !s[k].0.stream_closed ==> swept(
                marked_closed(s, sn),
            ).contains(#[trigger] s[k]),
{
    let m = marked_closed(s, sn);
    broadcast use vstd::seq_lib::group_filter_ensures;
    assert forall|k: int|
        0 <= k < swept(m).len() implies (#[trigger] swept(m)[k]).0.serial_no != sn by {
        let e = swept(m)[k];
        assert(is_open(e));
        assert(swept(m).contains(e));
        m.lemma_filter_contains_rev(|e: (WorkerChannel, H)| is_open(e), e);
        let t = choose|t: int| 0 <= t < m.len() && m[t] == e;
    }
    assert forall|k: int|
        0 <= k < s.len() && s[k].0.serial_no != sn && !s[k].0.stream_closed implies swept(
            m,
        ).contains(#[trigger] s[k]) by {
        assert(m[k] == s[k]);
    }
}

proof fn lemma_marked_push<H>(s: Seq<(WorkerChannel, H)>, sn: SerialNo)
    requires
        s.len() > 0,
    ensures
        marked_closed(s, sn) == marked_closed(s.drop_last(), sn).push(
            marked_closed(s, sn).last(),
        ),
{
    assert(marked_closed(s, sn) =~= marked_closed(s.drop_last(), sn).push(
        marked_closed(s, sn).last(),
    ));
}

proof fn lemma_sweep_untouched<H>(s: Seq<(WorkerChannel, H)>, sn: SerialNo)
    requires
        !has_serial(s, sn),
        forall|k: int| 0 <= k < s.len() ==> !(#[trigger] s[k]).0.stream_closed,
    ensures
        swept(marked_closed(s, sn)) == s,
    decreases s.len(),
{
    if s.len() == 0 {
        assert(marked_closed(s, sn) =~= s);
        assert(s.filter(|e: (WorkerChannel, H)| is_open(e)) =~= s);
    } else {
        let d = s.drop_last();
        assert forall|k: int| 0 <= k < d.len() implies !(#[trigger] d[k]).0.stream_closed by {
            assert(d[k] == s[k]);
        }
        if has_serial(d, sn) {
            let k = choose|k: int| 0 <= k < d.len() && (#[trigger] d[k].0.serial_no) == sn;
            assert(s[k] == d[k]);
        }
        lemma_sweep_untouched(d, sn);
        lemma_marked_push(s, sn);
        let m = marked_closed(s, sn);
        assert(s[s.len() - 1].0.serial_no != sn);
        assert(m.last() == s.last());
        marked_closed(d, sn).lemma_filter_push(m.last(), |e: (WorkerChannel, H)| is_open(e));
        assert(d.push(s.last()) =~= s);
    }
}

/// When one of N workers with open streams closes, the next sweep leaves
/// exactly the records of the other N - 1 workers, in their order.
pub proof fn lemma_crash_shrinks<H>(s: Seq<(WorkerChannel, H)>, sn: SerialNo)
    requires
        unique_serials(s),
        has_serial(s, sn),
        forall|k: int| 0 <= k < s.len() ==> !(#[trigger] s[k]).0.stream_closed,
    ensures
        exists|i: int|
            first_with(s, sn, i) && #[trigger] swept(marked_closed(s, sn)) == s.remove(i),
        swept(marked_closed(s, sn)).len() == s.len() - 1,
    decreases s.len(),
{
    let d = s.drop_last();
    let l = s.len() - 1;
    let m = marked_closed(s, sn);
    let o = |e: (WorkerChannel, H)| is_open(e);
    lemma_marked_push(s, sn);
    assert(d.push(s.last()) =~= s);
    assert forall|k: int| 0 <= k < d.len() implies !(#[trigger] d[k]).0.stream_closed by {
        assert(d[k] == s[k]);
    }
    marked_closed(d, sn).lemma_filter_push(m.last(), o);
    if s[l].0.serial_no == sn {
        assert(!has_serial(d, sn)) by {
            if has_serial(d, sn) {
                let k = choose|k: int| 0 <= k < d.len() && (#[trigger] d[k].0.serial_no) == sn;
                assert(s[k] == d[k]);
            }
        }
        lemma_sweep_untouched(d, sn);
        assert(!is_open(m.last()));
        assert(s.remove(l) =~= d);
        assert(first_with(s, sn, l)) by {
            assert forall|j: int| 0 <= j < l implies (#[trigger] s[j].0.serial_no) != sn by {
                assert(s[j].0.serial_no != s[l].0.serial_no);
            }
        }
    } else {
        assert(unique_serials(d)) by {
            assert forall|a: int, b: int|
                0 <= a < d.len() && 0 <= b < d.len() && a != b implies #[trigger] d[a].0.serial_no
                != #[trigger] d[b].0.serial_no by {
                assert(d[a] == s[a]);
                assert(d[b] == s[b]);
            }
        }
        assert(has_serial(d, sn)) by {
            let k = choose|k: int| 0 <= k < s.len() && (#[trigger] s[k].0.serial_no) == sn;
            assert(k != l);
            assert(d[k] == s[k]);
        }
        lemma_crash_shrinks(d, sn);
        let i = choose|i: int|
            first_with(d, sn, i) && #[trigger] swept(marked_closed(d, sn)) == d.remove(i);
        assert(m.last() == s.last());
        assert(is_open(s.last()));
        assert(s.remove(i) =~= d.remove(i).push(s.last()));
        assert(first_with(s, sn, i)) by {
            assert forall|j: int| 0 <= j < i implies (#[trigger] s[j].0.serial_no) != sn by {
                assert(s[j] == d[j]);
            }
            assert(s[i] == d[i]);
        }
    }
}

/// What the first frame of a new connection makes of it.
#[derive(Debug, Clone, Copy, PartialEq, Eq)]
pub enum Opening {
    /// A worker registering under this serial number.
    Worker(SerialNo),
    /// A client asking for a worker.
    Client,
    /// Anything else: the connection is closed.
    Close,
}

/// The serial number that a worker's `Register` payload names: its address,
/// then its port big-endian.
pub open spec fn serial_of(ip: [u8; 4], port: u16) -> Seq<u8> {
    ip@ + crate::protocol::maker::be16(port)
}

/// Classifies a new connection by its first frame.
pub fn classify(frame: &Frame) -> (r: Opening)
    ensures
        frame.e_type == EndpointType::Handler && frame.body is Register ==> (r matches Opening::Worker(
            sn,
        ) && sn@ == serial_of(frame.body->Register_0.ip, frame.body->Register_0.port)),
        frame.e_type == EndpointType::Client && frame.body is Connect ==> r == Opening::Client,
        !(frame.e_type == EndpointType::Handler && frame.body is Register) && !(frame.e_type
            == EndpointType::Client && frame.body is Connect) ==> r == Opening::Close,
{
    match (frame.e_type, frame.body) {
        (EndpointType::Handler, Body::Register(reg)) => Opening::Worker(
            make_serial_no(reg.ip, reg.port),
        ),
        (EndpointType::Client, Body::Connect) => Opening::Client,
        _ => Opening::Close,
    }
}

/// Where a frame read after the first one goes: the serial number of the
/// worker whose mailbox takes it, and the message. `None` for the
/// combinations that the proxy ignores.
pub open spec fn route_spec(f: Frame) -> Option<(SerialNo, WorkerChannelMessage)> {
    match (f.e_type, f.body) {
        (EndpointType::Handler, Body::Ack(a)) => Some(
            (a.serial_no, WorkerChannelMessage::Alive(a.serial_no, a.available)),
        ),
        (EndpointType::Handler, Body::Data(c)) => if c.mode == RwMode::Server {
            Some((c.serial_no, WorkerChannelMessage::ServerData(c)))
        } else {
            None
        },
        (EndpointType::Client, Body::Data(c)) => if c.mode == RwMode::Client {
            Some((c.serial_no, WorkerChannelMessage::ClientData(c)))
        } else {
            None
        },
        (EndpointType::Client, Body::Eos(sn, cid)) => Some((sn, WorkerChannelMessage::Eos(sn, cid))),
        _ => None,
    }
}

/// Routes a frame read after the first one.
pub fn route(frame: &Frame) -> (r: Option<(SerialNo, WorkerChannelMessage)>)
    ensures
        r == route_spec(*frame),
{
    match (frame.e_type, frame.body) {
        (EndpointType::Handler, Body::Ack(a)) => Some(
            (a.serial_no, WorkerChannelMessage::Alive(a.serial_no, a.available)),
        ),
        (EndpointType::Handler, Body::Data(c)) => {
            if c.mode == RwMode::Server {
                Some((c.serial_no, WorkerChannelMessage::ServerData(c)))
            } else {
                None
            }
        },
        (EndpointType::Client, Body::Data(c)) => {
            if c.mode == RwMode::Client {
                Some((c.serial_no, WorkerChannelMessage::ClientData(c)))
            } else {
                None
            }
        },
        (EndpointType::Client, Body::Eos(sn, cid)) => Some((sn, WorkerChannelMessage::Eos(sn, cid))),
        _ => None,
    }
}

/// Whether a connection is read on after a decoding error. Only a bad magic
/// number after the first frame is passed over; a bad first frame, the end
/// of the stream, a cut payload or an unknown packet kind end the reading.
pub fn keep_reading(error: DecodeError, first_frame: bool) -> (r: bool)
    ensures
        r == (error == DecodeError::MagicMismatch && !first_frame),
{
    match error {
        DecodeError::MagicMismatch => !first_frame,
        _ => false,
    }
}

/// The frame that turns a client away when no worker is available.
pub fn rejection_packet() -> (r: Vec<u8>)
    ensures
        r@ == frame_bytes(Frame { e_type: EndpointType::Client, body: Body::ConnRejected }),
{
    encode_frame(&Frame { e_type: EndpointType::Client, body: Body::ConnRejected })
}

} // verus!
