//! The network protocol.
//!
//! A request is `(1 B op | 1 B name length | 4 B key length | 4 B value length |
//! name | key | value)`, without the parts that its operation has no use for. A
//! response is `(1 B status | 4 B length | payload)`. Numbers are little-endian.
use crate::codec::{
    be_u32, law_be_u32, law_le_u32, law_le_u64, law_le_u64_bytes, le_u32, le_u64, len_u32, low_u32,
    push_bytes, push_u32_le, put_u32, put_u32_le, put_u64_le, read_u32_be, read_u32_le,
    read_u64_le, u32_of_be, u32_of_le, u64_of_le,
};
use crate::text::{decimal, owned, push_decimal, text_bytes};
use vstd::prelude::*;
use vstd::string::StringExecFns;
use vstd::utf8::encode_utf8;

verus! {

/// What a client can ask for.
#[derive(Debug, Clone, Copy, PartialEq, Eq, Structural)]
pub enum Operation {
    /// Get statistics about the server.
    Stats,
    /// Ping the server to check if it's alive.
    Ping,
    /// Close the connection to the server.
    Close,
    /// Create a new database.
    Create,
    /// Get information about the database.
    Info,
    /// Drop an existing database.
    Drop,
    /// Get a value for a given key.
    Get,
    /// Set a value for a given key.
    SetKey,
    /// Delete a value for a given key.
    Delete,
}

/// The operation that a byte stands for.
pub open spec fn operation_of(code: u8) -> Option<Operation> {
    if code == 0 {
        Some(Operation::Stats)
    } else if code == 1 {
        Some(Operation::Ping)
    } else if code == 2 {
        Some(Operation::Close)
    } else if code == 3 {
        Some(Operation::Create)
    } else if code == 4 {
        Some(Operation::Info)
    } else if code == 5 {
        Some(Operation::Drop)
    } else if code == 6 {
        Some(Operation::Get)
    } else if code == 7 {
        Some(Operation::SetKey)
    } else if code == 8 {
        Some(Operation::Delete)
    } else {
        None
    }
}

impl Operation {
    /// The byte that stands for the operation.
    pub open spec fn code(self) -> u8 {
        match self {
            Operation::Stats => 0,
            Operation::Ping => 1,
            Operation::Close => 2,
            Operation::Create => 3,
            Operation::Info => 4,
            Operation::Drop => 5,
            Operation::Get => 6,
            Operation::SetKey => 7,
            Operation::Delete => 8,
        }
    }

    /// The operation that a byte stands for.
    pub fn from_u8(value: u8) -> (op: Option<Self>)
        ensures
            op == operation_of(value),
    {
        match value {
            0 => Some(Operation::Stats),
            1 => Some(Operation::Ping),
            2 => Some(Operation::Close),
            3 => Some(Operation::Create),
            4 => Some(Operation::Info),
            5 => Some(Operation::Drop),
            6 => Some(Operation::Get),
            7 => Some(Operation::SetKey),
            8 => Some(Operation::Delete),
            _ => None,
        }
    }

    /// The byte that stands for the operation.
    pub fn to_u8(&self) -> (value: u8)
        ensures
            value == self.code(),
    {
        match self {
            Operation::Stats => 0,
            Operation::Ping => 1,
            Operation::Close => 2,
            Operation::Create => 3,
            Operation::Info => 4,
            Operation::Drop => 5,
            Operation::Get => 6,
            Operation::SetKey => 7,
            Operation::Delete => 8,
        }
    }
}

/// Every operation is read back from its byte, and a byte that is read as an
/// operation is the byte of that operation.
pub proof fn law_operation_reads_back(op: Operation, code: u8)
    ensures
        operation_of(op.code()) == Some(op),
        operation_of(code) matches Some(read) ==> read.code() == code,
        operation_of(code) is None <==> code > 8,
{
}

/// What the server answers.
#[derive(Debug, Clone, PartialEq, Eq)]
pub enum Response {
    Okay(Vec<u8>),
    Pong(Vec<u8>),
    DbNotFound(Vec<u8>),
    DbAlreadyExists(Vec<u8>),
    KeyValue(Vec<u8>),
    KeyNotFound(Vec<u8>),
    InvalidRequest(Vec<u8>),
    PayloadTooLarge(Vec<u8>),
    InternalError(Vec<u8>),
}

/// What an answer says.
#[verifier::ext_equal]
pub enum ResponseView {
    Okay(Seq<u8>),
    Pong(Seq<u8>),
    DbNotFound(Seq<u8>),
    DbAlreadyExists(Seq<u8>),
    KeyValue(Seq<u8>),
    KeyNotFound(Seq<u8>),
    InvalidRequest(Seq<u8>),
    PayloadTooLarge(Seq<u8>),
    InternalError(Seq<u8>),
}

impl View for Response {
    type V = ResponseView;

    open spec fn view(&self) -> ResponseView {
        match self {
            Response::Okay(p) => ResponseView::Okay(p@),
            Response::Pong(p) => ResponseView::Pong(p@),
            Response::DbNotFound(p) => ResponseView::DbNotFound(p@),
            Response::DbAlreadyExists(p) => ResponseView::DbAlreadyExists(p@),
            Response::KeyValue(p) => ResponseView::KeyValue(p@),
            Response::KeyNotFound(p) => ResponseView::KeyNotFound(p@),
            Response::InvalidRequest(p) => ResponseView::InvalidRequest(p@),
            Response::PayloadTooLarge(p) => ResponseView::PayloadTooLarge(p@),
            Response::InternalError(p) => ResponseView::InternalError(p@),
        }
    }
}

impl ResponseView {
    /// The status byte of the answer.
    pub open spec fn code(self) -> u8 {
        match self {
            ResponseView::Okay(_) => 0,
            ResponseView::Pong(_) => 1,
            ResponseView::DbNotFound(_) => 2,
            ResponseView::DbAlreadyExists(_) => 3,
            ResponseView::KeyValue(_) => 4,
            ResponseView::KeyNotFound(_) => 5,
            ResponseView::InvalidRequest(_) => 6,
            ResponseView::PayloadTooLarge(_) => 7,
            ResponseView::InternalError(_) => 8,
        }
    }

    /// The bytes that the answer carries.
    pub open spec fn payload(self) -> Seq<u8> {
        match self {
            ResponseView::Okay(p) => p,
            ResponseView::Pong(p) => p,
            ResponseView::DbNotFound(p) => p,
            ResponseView::DbAlreadyExists(p) => p,
            ResponseView::KeyValue(p) => p,
            ResponseView::KeyNotFound(p) => p,
            ResponseView::InvalidRequest(p) => p,
            ResponseView::PayloadTooLarge(p) => p,
            ResponseView::InternalError(p) => p,
        }
    }

    /// The answer as it goes over the network.
    pub open spec fn frame(self) -> Seq<u8> {
        seq![self.code()] + le_u32(low_u32(self.payload().len())) + self.payload()
    }
}

/// The answer that a status byte and a payload stand for.
pub open spec fn response_of(status: u8, payload: Seq<u8>) -> ResponseView {
    if status == 0 {
        ResponseView::Okay(payload)
    } else if status == 1 {
        ResponseView::Pong(payload)
    } else if status == 2 {
        ResponseView::DbNotFound(payload)
    } else if status == 3 {
        ResponseView::DbAlreadyExists(payload)
    } else if status == 4 {
        ResponseView::KeyValue(payload)
    } else if status == 5 {
        ResponseView::KeyNotFound(payload)
    } else if status == 6 {
        ResponseView::InvalidRequest(payload)
    } else if status == 7 {
        ResponseView::PayloadTooLarge(payload)
    } else if status == 8 {
        ResponseView::InternalError(payload)
    } else {
        ResponseView::InternalError(
            encode_utf8("Unknown response code: "@ + decimal(status as nat)),
        )
    }
}

/// Bytes of a response before its payload: status and length.
pub const RESPONSE_HEADER_LEN: usize = 1 + 4;

impl Response {
    /// The status byte and the payload of the answer.
    pub fn code_and_payload(&self) -> (parts: (u8, &[u8]))
        ensures
            parts.0 == self@.code(),
            parts.1@ == self@.payload(),
    {
        match self {
            Response::Okay(p) => (0, p.as_slice()),
            Response::Pong(p) => (1, p.as_slice()),
            Response::DbNotFound(p) => (2, p.as_slice()),
            Response::DbAlreadyExists(p) => (3, p.as_slice()),
            Response::KeyValue(p) => (4, p.as_slice()),
            Response::KeyNotFound(p) => (5, p.as_slice()),
            Response::InvalidRequest(p) => (6, p.as_slice()),
            Response::PayloadTooLarge(p) => (7, p.as_slice()),
            Response::InternalError(p) => (8, p.as_slice()),
        }
    }

    /// Leaves in `write_buf` the answer as it goes over the network, and nothing else.
    pub fn send_response(&self, write_buf: &mut Vec<u8>)
        ensures
            final(write_buf)@ == self@.frame(),
    {
        let (code, payload) = self.code_and_payload();
        write_buf.clear();
        write_buf.push(code);
        put_u32_le(write_buf, len_u32(payload.len()));
        push_bytes(write_buf, payload);
        assert(write_buf@ =~= self@.frame());
    }

    /// The status byte and the payload length that the first bytes of a response
    /// announce.
    pub fn read_header(header: &[u8]) -> (parts: (u8, u32))
        requires
            header@.len() == RESPONSE_HEADER_LEN,
        ensures
            parts.0 == header@[0],
            parts.1 == u32_of_le(header@.subrange(1, 5)),
    {
        (header[0], read_u32_le(header, 1))
    }

    /// The answer that a status byte and a payload stand for.
    pub fn read_response(status: u8, payload: Vec<u8>) -> (response: Self)
        ensures
            response@ == response_of(status, payload@),
    {
        match status {
            0 => Response::Okay(payload),
            1 => Response::Pong(payload),
            2 => Response::DbNotFound(payload),
            3 => Response::DbAlreadyExists(payload),
            4 => Response::KeyValue(payload),
            5 => Response::KeyNotFound(payload),
            6 => Response::InvalidRequest(payload),
            7 => Response::PayloadTooLarge(payload),
            8 => Response::InternalError(payload),
            _ => {
                let mut message = owned("Unknown response code: ");
                push_decimal(&mut message, status as u128);
                Response::InternalError(text_bytes(message.as_str()))
            },
        }
    }
}

/// An answer that was sent is the answer that is read, and no byte is left over.
pub proof fn law_response_reads_back(response: ResponseView)
    requires
        response.payload().len() <= u32::MAX,
    ensures
        ({
            let frame = response.frame();
            let len = u32_of_le(frame.subrange(1, RESPONSE_HEADER_LEN as int));
            &&& frame.len() == RESPONSE_HEADER_LEN + len
            &&& response_of(frame[0], frame.skip(RESPONSE_HEADER_LEN as int)) == response
        }),
{
    let frame = response.frame();
    let len = response.payload().len() as u32;
    assert(low_u32(response.payload().len()) == len);
    law_le_u32(len, le_u32(len));
    assert(frame.subrange(1, RESPONSE_HEADER_LEN as int) =~= le_u32(len));
    assert(frame.skip(RESPONSE_HEADER_LEN as int) =~= response.payload());
}

/// What the server tells about itself.
#[derive(Debug, Clone, Copy, PartialEq, Eq)]
pub struct StatsPacket {
    /// The bits of the hours that the server has been up, a 64-bit float.
    pub uptime_bits: u64,
    /// The number of databases.
    pub total_dbs: u32,
    /// The number of clients that are connected.
    pub total_active_connections: u32,
}

impl StatsPacket {
    /// The packet as bytes.
    pub open spec fn bytes(self) -> Seq<u8> {
        le_u64(self.uptime_bits) + le_u32(self.total_dbs) + le_u32(self.total_active_connections)
    }

    /// The packet as bytes.
    pub fn to_bytes(&self) -> (packet: Vec<u8>)
        ensures
            packet@ == self.bytes(),
    {
        let mut packet: Vec<u8> = Vec::new();
        put_u64_le(&mut packet, self.uptime_bits);
        put_u32_le(&mut packet, self.total_dbs);
        put_u32_le(&mut packet, self.total_active_connections);
        assert(packet@ =~= self.bytes());
        packet
    }

    /// Reads a packet back; there is none in fewer than sixteen bytes.
    pub fn from_bytes(bytes: &[u8]) -> (packet: Option<Self>)
        ensures
            match packet {
                Some(p) => bytes@.len() >= 16 && p.bytes() == bytes@.take(16),
                None => bytes@.len() < 16,
            },
    {
        if bytes.len() < 16 {
            return None;
        }
        let packet = StatsPacket {
            uptime_bits: read_u64_le(bytes, 0),
            total_dbs: read_u32_le(bytes, 8),
            total_active_connections: read_u32_le(bytes, 12),
        };
        proof {
            law_le_u64_bytes(bytes@.subrange(0, 8));
            law_le_u32(0, bytes@.subrange(8, 12));
            law_le_u32(0, bytes@.subrange(12, 16));
            assert(packet.bytes() =~= bytes@.take(16));
        }
        Some(packet)
    }
}

/// What a database tells about itself.
#[derive(Debug, Clone, Copy, PartialEq, Eq)]
pub struct InfoPacket {
    /// The bytes of the log.
    pub size_on_disk: u32,
    /// The bytes of the index, without what it points to.
    pub size_in_memory: u32,
    /// The length of the shortest key.
    pub min_key_size: u32,
    /// The mean length of the keys, rounded down.
    pub mean_key_size: u32,
    /// The length of the longest key.
    pub max_key_size: u32,
    /// The number of keys.
    pub key_count: u32,
}

impl InfoPacket {
    /// The packet as bytes. Its numbers are big-endian.
    pub open spec fn bytes(self) -> Seq<u8> {
        be_u32(self.size_on_disk) + be_u32(self.size_in_memory) + be_u32(self.min_key_size)
            + be_u32(self.mean_key_size) + be_u32(self.max_key_size) + be_u32(self.key_count)
    }

    /// The packet as bytes.
    pub fn to_bytes(&self) -> (packet: Vec<u8>)
        ensures
            packet@ == self.bytes(),
    {
        let mut packet: Vec<u8> = Vec::new();
        put_u32(&mut packet, self.size_on_disk);
        put_u32(&mut packet, self.size_in_memory);
        put_u32(&mut packet, self.min_key_size);
        put_u32(&mut packet, self.mean_key_size);
        put_u32(&mut packet, self.max_key_size);
        put_u32(&mut packet, self.key_count);
        assert(packet@ =~= self.bytes());
        packet
    }

    /// Reads a packet back; there is none in fewer than twenty-four bytes.
    pub fn from_bytes(bytes: &[u8]) -> (packet: Option<Self>)
        ensures
            match packet {
                Some(p) => bytes@.len() >= 24 && p.bytes() == bytes@.take(24),
                None => bytes@.len() < 24,
            },
    {
        if bytes.len() < 24 {
            return None;
        }
        let packet = InfoPacket {
            size_on_disk: read_u32_be(bytes, 0),
            size_in_memory: read_u32_be(bytes, 4),
            min_key_size: read_u32_be(bytes, 8),
            mean_key_size: read_u32_be(bytes, 12),
            max_key_size: read_u32_be(bytes, 16),
            key_count: read_u32_be(bytes, 20),
        };
        proof {
            law_be_u32(0, bytes@.subrange(0, 4));
            law_be_u32(0, bytes@.subrange(4, 8));
            law_be_u32(0, bytes@.subrange(8, 12));
            law_be_u32(0, bytes@.subrange(12, 16));
            law_be_u32(0, bytes@.subrange(16, 20));
            law_be_u32(0, bytes@.subrange(20, 24));
            assert(packet.bytes() =~= bytes@.take(24));
        }
        Some(packet)
    }
}

/// Packets with the same bytes are the same: what is read is what was sent.
pub proof fn law_stats_read_back(a: StatsPacket, b: StatsPacket)
    ensures
        a.bytes().len() == 16,
        a.bytes() == b.bytes() ==> a == b,
{
    lemma_stats_parts(a);
    lemma_stats_parts(b);
}

/// Packets with the same bytes are the same: what is read is what was sent.
pub proof fn law_info_reads_back(a: InfoPacket, b: InfoPacket)
    ensures
        a.bytes().len() == 24,
        a.bytes() == b.bytes() ==> a == b,
{
    lemma_info_parts(a);
    lemma_info_parts(b);
}

/// Where the numbers of a packet stand in its bytes.
proof fn lemma_stats_parts(p: StatsPacket)
    ensures
        p.bytes().len() == 16,
        u64_of_le(p.bytes().subrange(0, 8)) == p.uptime_bits,
        u32_of_le(p.bytes().subrange(8, 12)) == p.total_dbs,
        u32_of_le(p.bytes().subrange(12, 16)) == p.total_active_connections,
{
    let uptime = le_u64(p.uptime_bits);
    let dbs = le_u32(p.total_dbs);
    let connections = le_u32(p.total_active_connections);
    law_le_u64(p.uptime_bits);
    law_le_u32(p.total_dbs, dbs);
    law_le_u32(p.total_active_connections, connections);
    lemma_stats_split(uptime, dbs, connections);
}

proof fn lemma_stats_split(a: Seq<u8>, b: Seq<u8>, c: Seq<u8>)
    requires
        a.len() == 8,
        b.len() == 4,
        c.len() == 4,
    ensures
        (a + b + c).subrange(0, 8) == a,
        (a + b + c).subrange(8, 12) == b,
        (a + b + c).subrange(12, 16) == c,
{
    assert((a + b + c).subrange(0, 8) =~= a);
    assert((a + b + c).subrange(8, 12) =~= b);
    assert((a + b + c).subrange(12, 16) =~= c);
}

/// Where the numbers of a packet stand in its bytes.
proof fn lemma_info_parts(p: InfoPacket)
    ensures
        p.bytes().len() == 24,
        u32_of_be(p.bytes().subrange(0, 4)) == p.size_on_disk,
        u32_of_be(p.bytes().subrange(4, 8)) == p.size_in_memory,
        u32_of_be(p.bytes().subrange(8, 12)) == p.min_key_size,
        u32_of_be(p.bytes().subrange(12, 16)) == p.mean_key_size,
        u32_of_be(p.bytes().subrange(16, 20)) == p.max_key_size,
        u32_of_be(p.bytes().subrange(20, 24)) == p.key_count,
{
    law_be_u32(p.size_on_disk, seq![0, 0, 0, 0]);
    law_be_u32(p.size_in_memory, seq![0, 0, 0, 0]);
    law_be_u32(p.min_key_size, seq![0, 0, 0, 0]);
    law_be_u32(p.mean_key_size, seq![0, 0, 0, 0]);
    law_be_u32(p.max_key_size, seq![0, 0, 0, 0]);
    law_be_u32(p.key_count, seq![0, 0, 0, 0]);
    lemma_info_split(
        be_u32(p.size_on_disk),
        be_u32(p.size_in_memory),
        be_u32(p.min_key_size),
        be_u32(p.mean_key_size),
        be_u32(p.max_key_size),
        be_u32(p.key_count),
    );
}

proof fn lemma_info_split(
    a: Seq<u8>,
    b: Seq<u8>,
    c: Seq<u8>,
    d: Seq<u8>,
    e: Seq<u8>,
    f: Seq<u8>,
)
    requires
        a.len() == 4,
        b.len() == 4,
        c.len() == 4,
        d.len() == 4,
        e.len() == 4,
        f.len() == 4,
    ensures
        (a + b + c + d + e + f).subrange(0, 4) == a,
        (a + b + c + d + e + f).subrange(4, 8) == b,
        (a + b + c + d + e + f).subrange(8, 12) == c,
        (a + b + c + d + e + f).subrange(12, 16) == d,
        (a + b + c + d + e + f).subrange(16, 20) == e,
        (a + b + c + d + e + f).subrange(20, 24) == f,
{
    let all = a + b + c + d + e + f;
    assert(all.subrange(0, 4) =~= a);
    assert(all.subrange(4, 8) =~= b);
    assert(all.subrange(8, 12) =~= c);
    assert(all.subrange(12, 16) =~= d);
    assert(all.subrange(16, 20) =~= e);
    assert(all.subrange(20, 24) =~= f);
}

/// What is left of `n` in 8 bits.
pub open spec fn low_u8(n: nat) -> u8 {
    (n % 256) as u8
}

/// A request for an operation on a database as a whole.
pub open spec fn db_frame(op: Operation, db_name: Seq<u8>) -> Seq<u8> {
    seq![op.code(), low_u8(db_name.len())] + db_name
}

/// A request for an operation on a key.
pub open spec fn key_frame(op: Operation, db_name: Seq<u8>, key: Seq<u8>) -> Seq<u8> {
    seq![op.code(), low_u8(db_name.len())] + le_u32(low_u32(key.len())) + db_name + key
}

/// A request to give a key a value.
pub open spec fn set_frame(db_name: Seq<u8>, key: Seq<u8>, value: Seq<u8>) -> Seq<u8> {
    seq![Operation::SetKey.code(), low_u8(db_name.len())] + le_u32(low_u32(key.len())) + le_u32(
        low_u32(value.len()),
    ) + db_name + key + value
}

/// Writes a request without parts behind `out`.
fn push_op(out: &mut Vec<u8>, op: Operation)
    ensures
        final(out)@ == old(out)@ + seq![op.code()],
{
    out.push(op.to_u8());
    assert(out@ =~= old(out)@ + seq![op.code()]);
}

/// Writes a ping behind `out`.
pub fn send_ping(out: &mut Vec<u8>)
    ensures
        final(out)@ == old(out)@ + seq![Operation::Ping.code()],
{
    push_op(out, Operation::Ping);
}

/// Writes the request to close the connection behind `out`.
pub fn send_close(out: &mut Vec<u8>)
    ensures
        final(out)@ == old(out)@ + seq![Operation::Close.code()],
{
    push_op(out, Operation::Close);
}

/// Writes the request for statistics behind `out`.
pub fn send_stats(out: &mut Vec<u8>)
    ensures
        final(out)@ == old(out)@ + seq![Operation::Stats.code()],
{
    push_op(out, Operation::Stats);
}

/// Writes a request for an operation on a database as a whole behind `out`.
pub fn send_db_op(out: &mut Vec<u8>, op: Operation, db_name: &str)
    ensures
        final(out)@ == old(out)@ + db_frame(op, encode_utf8(db_name@)),
{
    let name = db_name.as_bytes();
    out.push(op.to_u8());
    out.push((name.len() % 256) as u8);
    push_bytes(out, name);
    assert(out@ =~= old(out)@ + db_frame(op, name@));
}

/// Writes the request to create a database behind `out`.
pub fn send_create(out: &mut Vec<u8>, db_name: &str)
    ensures
        final(out)@ == old(out)@ + db_frame(Operation::Create, encode_utf8(db_name@)),
{
    send_db_op(out, Operation::Create, db_name)
}

/// Writes the request for information about a database behind `out`.
pub fn send_info(out: &mut Vec<u8>, db_name: &str)
    ensures
        final(out)@ == old(out)@ + db_frame(Operation::Info, encode_utf8(db_name@)),
{
    send_db_op(out, Operation::Info, db_name)
}

/// Writes the request to drop a database behind `out`.
pub fn send_drop(out: &mut Vec<u8>, db_name: &str)
    ensures
        final(out)@ == old(out)@ + db_frame(Operation::Drop, encode_utf8(db_name@)),
{
    send_db_op(out, Operation::Drop, db_name)
}

/// Writes a request for an operation on a key behind `out`.
fn send_key_op(out: &mut Vec<u8>, op: Operation, db_name: &str, key: &[u8])
    ensures
        final(out)@ == old(out)@ + key_frame(op, encode_utf8(db_name@), key@),
{
    let name = db_name.as_bytes();
    out.push(op.to_u8());
    out.push((name.len() % 256) as u8);
    push_u32_le(out, len_u32(key.len()));
    push_bytes(out, name);
    push_bytes(out, key);
    assert(out@ =~= old(out)@ + key_frame(op, name@, key@));
}

/// Writes the request for the value of a key behind `out`.
pub fn send_get(out: &mut Vec<u8>, db_name: &str, key: &[u8])
    ensures
        final(out)@ == old(out)@ + key_frame(Operation::Get, encode_utf8(db_name@), key@),
{
    send_key_op(out, Operation::Get, db_name, key)
}

/// Writes the request to delete a key behind `out`.
pub fn send_delete(out: &mut Vec<u8>, db_name: &str, key: &[u8])
    ensures
        final(out)@ == old(out)@ + key_frame(Operation::Delete, encode_utf8(db_name@), key@),
{
    send_key_op(out, Operation::Delete, db_name, key)
}

/// Writes the request to give a key a value behind `out`.
pub fn send_set(out: &mut Vec<u8>, db_name: &str, key: &[u8], value: &[u8])
    ensures
        final(out)@ == old(out)@ + set_frame(encode_utf8(db_name@), key@, value@),
{
    let name = db_name.as_bytes();
    out.push(Operation::SetKey.to_u8());
    out.push((name.len() % 256) as u8);
    push_u32_le(out, len_u32(key.len()));
    push_u32_le(out, len_u32(value.len()));
    push_bytes(out, name);
    push_bytes(out, key);
    push_bytes(out, value);
    assert(out@ =~= old(out)@ + set_frame(name@, key@, value@));
}

} // verus!
