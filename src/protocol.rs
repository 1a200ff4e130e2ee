//! The wire format: a two-byte magic number, an endpoint type byte, a packet
//! type byte and a payload whose length is fixed by the packet type. All
//! multi-byte integers are big-endian.

use vstd::prelude::*;

pub mod maker;
pub mod parser;
pub mod laws;

verus! {

pub type SerialNo = [u8; 6];

pub type ClientId = u32;

pub const MAGIC_NUMBER: u16 = 0x89ab;

pub const MAGIC_HI: u8 = 0x89;

pub const MAGIC_LO: u8 = 0xab;

pub const IO_CHUNK_SIZE: usize = 1024;

/// Whether two serial numbers are the same.
pub fn same_serial_no(a: &SerialNo, b: &SerialNo) -> (r: bool)
    ensures
        r == (*a == *b),
{
    let mut i: usize = 0;
    while i < 6
        invariant
            i <= 6,
            forall|j: int| 0 <= j < i ==> a@[j] == b@[j],
        decreases 6 - i,
    {
        if a[i] != b[i] {
            return false;
        }
        i = i + 1;
    }
    assert(*a =~= *b);
    true
}

/// Which side of the proxy a frame belongs to.
#[derive(Debug, Clone, Copy, PartialEq, Eq, Structural)]
pub enum EndpointType {
    Handler,
    Client,
    Unknown,
}

pub open spec fn endpoint_type_of(b: u8) -> EndpointType {
    if b == 0 {
        EndpointType::Handler
    } else if b == 1 {
        EndpointType::Client
    } else {
        EndpointType::Unknown
    }
}

pub open spec fn endpoint_code(e: EndpointType) -> u8 {
    match e {
        EndpointType::Handler => 0,
        EndpointType::Client => 1,
        EndpointType::Unknown => 255,
    }
}

impl EndpointType {
    /// The byte that stands for this endpoint type on the wire.
    pub fn code(&self) -> (r: u8)
        ensures
            r == endpoint_code(*self),
    {
        match self {
            EndpointType::Handler => 0,
            EndpointType::Client => 1,
            EndpointType::Unknown => 255,
        }
    }
}

impl From<u8> for EndpointType {
    fn from(value: u8) -> Self {
        match value {
            0 => EndpointType::Handler,
            1 => EndpointType::Client,
            _ => EndpointType::Unknown,
        }
    }
}

impl vstd::std_specs::convert::FromSpecImpl<u8> for EndpointType {
    open spec fn obeys_from_spec() -> bool {
        true
    }

    open spec fn from_spec(v: u8) -> Self {
        endpoint_type_of(v)
    }
}

/// The kind of a frame, carried in its fourth byte.
#[derive(Debug, Clone, Copy, PartialEq, Eq, Structural)]
pub enum Packet {
    Register,
    RegOk,
    Status,
    Ack,
    Connect,
    ConnOk,
    ConnRejected,
    Data,
    Result,
    Eos,
    Unknown,
}

pub open spec fn packet_of(b: u8) -> Packet {
    if b == 0 {
        Packet::Register
    } else if b == 1 {
        Packet::RegOk
    } else if b == 2 {
        Packet::Status
    } else if b == 3 {
        Packet::Ack
    } else if b == 4 {
        Packet::Connect
    } else if b == 5 {
        Packet::ConnOk
    } else if b == 6 {
        Packet::ConnRejected
    } else if b == 7 {
        Packet::Data
    } else if b == 8 {
        Packet::Result
    } else if b == 9 {
        Packet::Eos
    } else {
        Packet::Unknown
    }
}

pub open spec fn packet_code(p: Packet) -> u8 {
    match p {
        Packet::Register => 0,
        Packet::RegOk => 1,
        Packet::Status => 2,
        Packet::Ack => 3,
        Packet::Connect => 4,
        Packet::ConnOk => 5,
        Packet::ConnRejected => 6,
        Packet::Data => 7,
        Packet::Result => 8,
        Packet::Eos => 9,
        Packet::Unknown => 255,
    }
}

impl Packet {
    /// The byte that stands for this packet kind on the wire.
    pub fn code(&self) -> (r: u8)
        ensures
            r == packet_code(*self),
    {
        match self {
            Packet::Register => 0,
            Packet::RegOk => 1,
            Packet::Status => 2,
            Packet::Ack => 3,
            Packet::Connect => 4,
            Packet::ConnOk => 5,
            Packet::ConnRejected => 6,
            Packet::Data => 7,
            Packet::Result => 8,
            Packet::Eos => 9,
            Packet::Unknown => 255,
        }
    }
}

impl From<u8> for Packet {
    fn from(value: u8) -> Self {
        match value {
            0 => Packet::Register,
            1 => Packet::RegOk,
            2 => Packet::Status,
            3 => Packet::Ack,
            4 => Packet::Connect,
            5 => Packet::ConnOk,
            6 => Packet::ConnRejected,
            7 => Packet::Data,
            8 => Packet::Result,
            9 => Packet::Eos,
            _ => Packet::Unknown,
        }
    }
}

impl vstd::std_specs::convert::FromSpecImpl<u8> for Packet {
    open spec fn obeys_from_spec() -> bool {
        true
    }

    open spec fn from_spec(v: u8) -> Self {
        packet_of(v)
    }
}

/// The payload length that a packet kind carries; `None` for `Unknown`.
pub open spec fn payload_len_spec(p: Packet) -> Option<nat> {
    match p {
        Packet::Register => Some(6),
        Packet::RegOk => Some(6),
        Packet::Status => Some(0),
        Packet::Ack => Some(7),
        Packet::Connect => Some(0),
        Packet::ConnOk => Some(10),
        Packet::ConnRejected => Some(0),
        Packet::Data => Some(1037),
        Packet::Result => Some(1026),
        Packet::Eos => Some(10),
        Packet::Unknown => None,
    }
}

/// Number of payload bytes that follow the header of a frame of kind `p`.
pub fn payload_len(p: Packet) -> (r: Option<usize>)
    ensures
        r matches Some(n) ==> payload_len_spec(p) == Some(n as nat),
        r is None <==> payload_len_spec(p) is None,
{
    match p {
        Packet::Register => Some(6),
        Packet::RegOk => Some(6),
        Packet::Status => Some(0),
        Packet::Ack => Some(7),
        Packet::Connect => Some(0),
        Packet::ConnOk => Some(10),
        Packet::ConnRejected => Some(0),
        Packet::Data => Some(1037),
        Packet::Result => Some(1026),
        Packet::Eos => Some(10),
        Packet::Unknown => None,
    }
}

/// A worker's advertised identity.
#[derive(Debug, Clone, Copy, PartialEq, Eq)]
pub struct Register {
    pub ip: [u8; 4],
    pub port: u16,
}

impl Register {
    pub fn new(ip: [u8; 4], port: u16) -> (r: Self)
        ensures
            r.ip == ip,
            r.port == port,
    {
        Register { ip, port }
    }

    pub fn get_ip(&self) -> (r: [u8; 4])
        ensures
            r == self.ip,
    {
        self.ip
    }

    pub fn get_port(&self) -> (r: u16)
        ensures
            r == self.port,
    {
        self.port
    }
}

/// A worker's availability report.
#[derive(Debug, Clone, Copy, PartialEq, Eq)]
pub struct Ack {
    pub serial_no: SerialNo,
    pub available: bool,
}

impl Ack {
    pub fn new(serial_no: SerialNo, available: bool) -> (r: Self)
        ensures
            r.serial_no == serial_no,
            r.available == available,
    {
        Ack { serial_no, available }
    }

    pub fn get_serial_no(&self) -> (r: SerialNo)
        ensures
            r == self.serial_no,
    {
        self.serial_no
    }

    pub fn is_available(&self) -> (r: bool)
        ensures
            r == self.available,
    {
        self.available
    }
}

/// Direction of an IO chunk: audio towards a worker, or text towards a client.
#[derive(Debug, Clone, Copy, PartialEq, Eq, Structural)]
pub enum RwMode {
    Client,
    Server,
    Unknown,
}

pub open spec fn rw_mode_of(b: u8) -> RwMode {
    if b == 0 {
        RwMode::Client
    } else if b == 1 {
        RwMode::Server
    } else {
        RwMode::Unknown
    }
}

pub open spec fn rw_mode_code(m: RwMode) -> u8 {
    match m {
        RwMode::Client => 0,
        RwMode::Server => 1,
        RwMode::Unknown => 255,
    }
}

impl RwMode {
    /// The byte that stands for this mode on the wire.
    pub fn code(&self) -> (r: u8)
        ensures
            r == rw_mode_code(*self),
    {
        match self {
            RwMode::Client => 0,
            RwMode::Server => 1,
            RwMode::Unknown => 255,
        }
    }
}

impl From<u8> for RwMode {
    fn from(value: u8) -> Self {
        match value {
            0 => RwMode::Client,
            1 => RwMode::Server,
            _ => RwMode::Unknown,
        }
    }
}

impl vstd::std_specs::convert::FromSpecImpl<u8> for RwMode {
    open spec fn obeys_from_spec() -> bool {
        true
    }

    open spec fn from_spec(v: u8) -> Self {
        rw_mode_of(v)
    }
}

/// The fixed-size carrier of audio (client to worker) or text (worker to
/// client); `length` names the valid prefix of `data`.
#[derive(Debug, Clone, Copy, PartialEq, Eq)]
pub struct IOChunk {
    pub mode: RwMode,
    pub serial_no: SerialNo,
    pub client_id: ClientId,
    pub length: u16,
    pub data: [u8; IO_CHUNK_SIZE],
}

impl IOChunk {
    pub fn new(
        mode: RwMode,
        serial_no: SerialNo,
        client_id: ClientId,
        length: u16,
        data: [u8; IO_CHUNK_SIZE],
    ) -> (r: Self)
        ensures
            r == (IOChunk { mode, serial_no, client_id, length, data }),
    {
        IOChunk { mode, serial_no, client_id, length, data }
    }

    pub fn get_serial_no(&self) -> (r: SerialNo)
        ensures
            r == self.serial_no,
    {
        self.serial_no
    }

    pub fn get_mode(&self) -> (r: RwMode)
        ensures
            r == self.mode,
    {
        self.mode
    }

    pub fn get_client_id(&self) -> (r: ClientId)
        ensures
            r == self.client_id,
    {
        self.client_id
    }

    pub fn get_length(&self) -> (r: u16)
        ensures
            r == self.length,
    {
        self.length
    }

    pub fn get_data(&self) -> (r: &[u8; IO_CHUNK_SIZE])
        ensures
            *r == self.data,
    {
        &self.data
    }
}

/// The text result that the proxy hands to a client.
#[derive(Debug, Clone, Copy, PartialEq, Eq)]
pub struct TranscribeResult {
    pub length: u16,
    pub data: [u8; IO_CHUNK_SIZE],
}

impl TranscribeResult {
    pub fn new(length: u16, data: [u8; IO_CHUNK_SIZE]) -> (r: Self)
        ensures
            r.length == length,
            r.data == data,
    {
        TranscribeResult { length, data }
    }

    pub fn get_length(&self) -> (r: u16)
        ensures
            r == self.length,
    {
        self.length
    }

    pub fn get_data(&self) -> (r: &[u8; IO_CHUNK_SIZE])
        ensures
            *r == self.data,
    {
        &self.data
    }
}

/// A decoded frame body: the packet kind together with its payload.
#[derive(Debug, Clone, Copy, PartialEq, Eq)]
pub enum Body {
    Register(Register),
    RegOk(SerialNo),
    Status,
    Ack(Ack),
    Connect,
    ConnOk(SerialNo, ClientId),
    ConnRejected,
    Data(IOChunk),
    Result(TranscribeResult),
    Eos(SerialNo, ClientId),
}

pub open spec fn body_packet(b: Body) -> Packet {
    match b {
        Body::Register(_) => Packet::Register,
        Body::RegOk(_) => Packet::RegOk,
        Body::Status => Packet::Status,
        Body::Ack(_) => Packet::Ack,
        Body::Connect => Packet::Connect,
        Body::ConnOk(_, _) => Packet::ConnOk,
        Body::ConnRejected => Packet::ConnRejected,
        Body::Data(_) => Packet::Data,
        Body::Result(_) => Packet::Result,
        Body::Eos(_, _) => Packet::Eos,
    }
}

impl Body {
    /// The packet kind of this body.
    pub fn packet(&self) -> (r: Packet)
        ensures
            r == body_packet(*self),
    {
        match self {
            Body::Register(_) => Packet::Register,
            Body::RegOk(_) => Packet::RegOk,
            Body::Status => Packet::Status,
            Body::Ack(_) => Packet::Ack,
            Body::Connect => Packet::Connect,
            Body::ConnOk(_, _) => Packet::ConnOk,
            Body::ConnRejected => Packet::ConnRejected,
            Body::Data(_) => Packet::Data,
            Body::Result(_) => Packet::Result,
            Body::Eos(_, _) => Packet::Eos,
        }
    }
}

/// One whole frame.
#[derive(Debug, Clone, Copy, PartialEq, Eq)]
pub struct Frame {
    pub e_type: EndpointType,
    pub body: Body,
}

/// Why a byte sequence is not a frame.
#[derive(Debug, Clone, Copy, PartialEq, Eq, Structural)]
pub enum DecodeError {
    /// Fewer than two bytes: the stream ended before a magic number.
    UnexpectedEof,
    /// The first two bytes are not the magic number.
    MagicMismatch,
    /// The packet type byte names no known packet kind.
    UnknownPacket,
    /// The header or the payload is cut short.
    TruncatedPayload,
}

} // verus!
