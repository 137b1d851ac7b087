//! What holds of every request and every response: where each part stands in the bytes.
use crate::codec::{
    be_u32, le_u32, le_u64, len_u32, low_u32, push_bytes, push_u32_le, read_u32_be, read_u32_le,
    read_u64_le,
};
use crate::protocol::{
    db_frame, key_frame, send_close, send_create, send_db_op, send_delete, send_drop, send_get,
    send_info, send_ping, send_set, send_stats, set_frame, InfoPacket, Operation, Response,
    StatsPacket,
};
use vstd::prelude::*;
use vstd::utf8::encode_utf8;

verus! {

/// The number in the four bytes from `at` on, least significant first.
pub open spec fn little_at(bytes: Seq<u8>, at: int) -> int {
    bytes[at] + 256 * bytes[at + 1] + 65536 * bytes[at + 2] + 16777216 * bytes[at + 3]
}

/// The number in the four bytes from `at` on, most significant first.
pub open spec fn big_at(bytes: Seq<u8>, at: int) -> int {
    16777216 * bytes[at] + 65536 * bytes[at + 1] + 256 * bytes[at + 2] + bytes[at + 3]
}

/// A number is written by its digits to the base 256, in the one order or in the other.
pub proof fn law_bytes_are_digits(n: u32, long: u64)
    ensures
        le_u32(n).len() == 4,
        little_at(le_u32(n), 0) == n,
        be_u32(n).len() == 4,
        big_at(be_u32(n), 0) == n,
        le_u64(long).len() == 8,
        little_at(le_u64(long), 0) + 4294967296 * little_at(le_u64(long), 4) == long,
{
    crate::codec::law_le_u32(n, le_u32(n));
    crate::codec::law_le_u64(long);
    let low = (long % 4294967296) as u32;
    let high = (long / 4294967296) as u32;
    crate::codec::law_le_u32(low, le_u32(low));
    crate::codec::law_le_u32(high, le_u32(high));
}

/// A number is written behind what is there.
pub proof fn law_number_is_written(out: &mut Vec<u8>, n: u32)
    requires
        call_ensures(push_u32_le, (out, n), ()),
    ensures
        final(out)@.len() == old(out)@.len() + 4,
        final(out)@.take(old(out)@.len() as int) == old(out)@,
        little_at(final(out)@, old(out)@.len() as int) == n,
{
    law_bytes_are_digits(n, 0);
    assert(final(out)@.take(old(out)@.len() as int) =~= old(out)@);
}

/// Bytes are written behind what is there.
pub proof fn law_bytes_are_written(out: &mut Vec<u8>, bytes: &[u8])
    requires
        call_ensures(push_bytes, (out, bytes), ()),
    ensures
        final(out)@ == old(out)@ + bytes@,
{
}

/// A number is read from the bytes where it is asked for.
pub proof fn law_number_is_read(bytes: &[u8], at: usize, little: u32, big: u32)
    requires
        at + 4 <= bytes@.len(),
        call_ensures(read_u32_le, (bytes, at), little),
        call_ensures(read_u32_be, (bytes, at), big),
    ensures
        little == little_at(bytes@, at as int),
        big == big_at(bytes@, at as int),
{
    let four = bytes@.subrange(at as int, at + 4);
    assert(four.take(4) =~= four);
}

/// A long number is read from the bytes where it is asked for.
pub proof fn law_long_number_is_read(bytes: &[u8], at: usize, long: u64)
    requires
        at + 8 <= bytes@.len(),
        call_ensures(read_u64_le, (bytes, at), long),
    ensures
        long == little_at(bytes@, at as int) + 4294967296 * little_at(bytes@, at + 4),
{
    let eight = bytes@.subrange(at as int, at + 8);
    assert(eight.skip(4)[0] == bytes@[at + 4]);
    assert(eight.skip(4)[1] == bytes@[at + 5]);
    assert(eight.skip(4)[2] == bytes@[at + 6]);
    assert(eight.skip(4)[3] == bytes@[at + 7]);
}

/// A length of no more than 32 bits is kept.
pub proof fn law_length_is_kept(len: usize, low: u32)
    requires
        call_ensures(len_u32, (len,), low),
        len <= u32::MAX,
    ensures
        low == len,
{
}

/// The packet about a database is six numbers of four bytes each.
pub proof fn law_info_packet_layout(info: InfoPacket)
    ensures
        info.bytes().len() == 24,
        big_at(info.bytes(), 0) == info.size_on_disk,
        big_at(info.bytes(), 4) == info.size_in_memory,
        big_at(info.bytes(), 8) == info.min_key_size,
        big_at(info.bytes(), 12) == info.mean_key_size,
        big_at(info.bytes(), 16) == info.max_key_size,
        big_at(info.bytes(), 20) == info.key_count,
{
    law_bytes_are_digits(info.size_on_disk, 0);
    law_bytes_are_digits(info.size_in_memory, 0);
    law_bytes_are_digits(info.min_key_size, 0);
    law_bytes_are_digits(info.mean_key_size, 0);
    law_bytes_are_digits(info.max_key_size, 0);
    law_bytes_are_digits(info.key_count, 0);
    lemma_six(
        be_u32(info.size_on_disk),
        be_u32(info.size_in_memory),
        be_u32(info.min_key_size),
        be_u32(info.mean_key_size),
        be_u32(info.max_key_size),
        be_u32(info.key_count),
    );
}

proof fn lemma_six(a: Seq<u8>, b: Seq<u8>, c: Seq<u8>, d: Seq<u8>, e: Seq<u8>, f: Seq<u8>)
    requires
        a.len() == 4,
        b.len() == 4,
        c.len() == 4,
        d.len() == 4,
        e.len() == 4,
        f.len() == 4,
    ensures
        (a + b + c + d + e + f).len() == 24,
        big_at(a + b + c + d + e + f, 0) == big_at(a, 0),
        big_at(a + b + c + d + e + f, 4) == big_at(b, 0),
        big_at(a + b + c + d + e + f, 8) == big_at(c, 0),
        big_at(a + b + c + d + e + f, 12) == big_at(d, 0),
        big_at(a + b + c + d + e + f, 16) == big_at(e, 0),
        big_at(a + b + c + d + e + f, 20) == big_at(f, 0),
{
}

/// The packet about a server is a number of eight bytes and two of four.
pub proof fn law_stats_packet_layout(stats: StatsPacket)
    ensures
        stats.bytes().len() == 16,
        little_at(stats.bytes(), 0) + 4294967296 * little_at(stats.bytes(), 4)
            == stats.uptime_bits,
        little_at(stats.bytes(), 8) == stats.total_dbs,
        little_at(stats.bytes(), 12) == stats.total_active_connections,
{
    law_bytes_are_digits(stats.total_dbs, stats.uptime_bits);
    law_bytes_are_digits(stats.total_active_connections, 0);
}

/// Packets are written by their numbers.
pub proof fn law_packets_are_written(
    info: InfoPacket,
    info_bytes: Vec<u8>,
    stats: StatsPacket,
    stats_bytes: Vec<u8>,
)
    requires
        call_ensures(InfoPacket::to_bytes, (&info,), info_bytes),
        call_ensures(StatsPacket::to_bytes, (&stats,), stats_bytes),
    ensures
        info_bytes@.len() == 24,
        big_at(info_bytes@, 0) == info.size_on_disk,
        big_at(info_bytes@, 4) == info.size_in_memory,
        big_at(info_bytes@, 8) == info.min_key_size,
        big_at(info_bytes@, 12) == info.mean_key_size,
        big_at(info_bytes@, 16) == info.max_key_size,
        big_at(info_bytes@, 20) == info.key_count,
        stats_bytes@.len() == 16,
        little_at(stats_bytes@, 0) + 4294967296 * little_at(stats_bytes@, 4) == stats.uptime_bits,
        little_at(stats_bytes@, 8) == stats.total_dbs,
        little_at(stats_bytes@, 12) == stats.total_active_connections,
{
    law_info_packet_layout(info);
    law_stats_packet_layout(stats);
}

/// The packet about a database is read from the first twenty-four bytes, and there is none
/// in fewer.
pub proof fn law_info_packet_is_read(bytes: &[u8], read: Option<InfoPacket>)
    requires
        call_ensures(InfoPacket::from_bytes, (bytes,), read),
    ensures
        bytes@.len() < 24 ==> read is None,
        bytes@.len() >= 24 ==> read is Some,
        read matches Some(info) ==> {
            &&& info.size_on_disk == big_at(bytes@, 0)
            &&& info.size_in_memory == big_at(bytes@, 4)
            &&& info.min_key_size == big_at(bytes@, 8)
            &&& info.mean_key_size == big_at(bytes@, 12)
            &&& info.max_key_size == big_at(bytes@, 16)
            &&& info.key_count == big_at(bytes@, 20)
        },
{
    if let Some(info) = read {
        law_info_packet_layout(info);
        let first = bytes@.take(24);
        assert forall|i: int| 0 <= i < 24 implies first[i] == bytes@[i] by {}
    }
}

/// The packet about a server is read from the first sixteen bytes, and there is none in
/// fewer.
pub proof fn law_stats_packet_is_read(bytes: &[u8], read: Option<StatsPacket>)
    requires
        call_ensures(StatsPacket::from_bytes, (bytes,), read),
    ensures
        bytes@.len() < 16 ==> read is None,
        bytes@.len() >= 16 ==> read is Some,
        read matches Some(stats) ==> {
            &&& stats.uptime_bits == little_at(bytes@, 0) + 4294967296 * little_at(bytes@, 4)
            &&& stats.total_dbs == little_at(bytes@, 8)
            &&& stats.total_active_connections == little_at(bytes@, 12)
        },
{
    if let Some(stats) = read {
        law_stats_packet_layout(stats);
        let first = bytes@.take(16);
        assert forall|i: int| 0 <= i < 16 implies first[i] == bytes@[i] by {}
    }
}

/// The status byte and the payload of a response.
pub open spec fn status_and_payload(response: Response) -> (u8, Seq<u8>) {
    match response {
        Response::Okay(p) => (0u8, p@),
        Response::Pong(p) => (1u8, p@),
        Response::DbNotFound(p) => (2u8, p@),
        Response::DbAlreadyExists(p) => (3u8, p@),
        Response::KeyValue(p) => (4u8, p@),
        Response::KeyNotFound(p) => (5u8, p@),
        Response::InvalidRequest(p) => (6u8, p@),
        Response::PayloadTooLarge(p) => (7u8, p@),
        Response::InternalError(p) => (8u8, p@),
    }
}

/// A response goes over the network as its status byte, the length of its payload and the
/// whole payload; what the buffer held before is gone.
pub proof fn law_response_is_framed(
    response: Response,
    write_buf: &mut Vec<u8>,
    parts: (u8, &[u8]),
)
    requires
        call_ensures(Response::send_response, (&response, write_buf), ()),
        call_ensures(Response::code_and_payload, (&response,), parts),
    ensures
        ({
            let (status, payload) = status_and_payload(response);
            let sent = final(write_buf)@;
            &&& parts.0 == status
            &&& parts.1@ == payload
            &&& sent.len() == 5 + payload.len()
            &&& sent[0] == status
            &&& payload.len() <= u32::MAX ==> little_at(sent, 1) == payload.len()
            &&& sent.skip(5) == payload
        }),
{
    let (status, payload) = status_and_payload(response);
    let sent = final(write_buf)@;
    law_bytes_are_digits(low_u32(payload.len()), 0);
    let len = le_u32(low_u32(payload.len()));
    assert(sent[1] == len[0] && sent[2] == len[1] && sent[3] == len[2] && sent[4] == len[3]);
    assert(sent.skip(5) =~= payload);
}

/// A response is read from its status byte and its whole payload, and a header from its five
/// bytes. A status byte that stands for nothing is an internal error.
pub proof fn law_response_is_read(
    header: &[u8],
    parts: (u8, u32),
    status: u8,
    payload: Vec<u8>,
    response: Response,
)
    requires
        header@.len() == 5,
        call_ensures(Response::read_header, (header,), parts),
        call_ensures(Response::read_response, (status, payload), response),
    ensures
        parts.0 == header@[0],
        parts.1 == little_at(header@, 1),
        status <= 8 ==> status_and_payload(response) == (status, payload@),
        status > 8 ==> {
            &&& response matches Response::InternalError(message)
            &&& message@ == encode_utf8(
                "Unknown response code: "@ + crate::text::decimal(status as nat),
            )
        },
{
}

/// Whether bytes are a request: the operation, the length of the name, then for a key its
/// length, for a value its length, then name, key and value.
pub open spec fn is_request(
    sent: Seq<u8>,
    code: u8,
    name: Seq<u8>,
    key: Option<Seq<u8>>,
    value: Option<Seq<u8>>,
) -> bool {
    let key_bytes = key.unwrap_or(Seq::empty());
    let value_bytes = value.unwrap_or(Seq::empty());
    let name_at = 2 + (if key is Some {
        4int
    } else {
        0
    }) + (if value is Some {
        4int
    } else {
        0
    });
    let key_at = name_at + name.len();
    let value_at = key_at + key_bytes.len();
    &&& sent.len() == value_at + value_bytes.len()
    &&& sent[0] == code
    &&& name.len() <= 255 ==> sent[1] == name.len()
    &&& key is Some && key_bytes.len() <= u32::MAX ==> little_at(sent, 2) == key_bytes.len()
    &&& value is Some && value_bytes.len() <= u32::MAX ==> little_at(sent, 6) == value_bytes.len()
    &&& sent.subrange(name_at, key_at) == name
    &&& sent.subrange(key_at, value_at) == key_bytes
    &&& sent.subrange(value_at, sent.len() as int) == value_bytes
}

/// A request for a database as a whole names the operation and the database.
pub proof fn law_db_frame_layout(op: Operation, name: Seq<u8>)
    ensures
        is_request(db_frame(op, name), op.code(), name, None, None),
{
    let sent = db_frame(op, name);
    let end = sent.len() as int;
    assert(sent.subrange(2, end) =~= name);
    assert(sent.subrange(end, end) =~= Seq::empty());
}

/// A request for a key has the whole key in it.
pub proof fn law_key_frame_layout(op: Operation, name: Seq<u8>, key: Seq<u8>)
    ensures
        is_request(key_frame(op, name, key), op.code(), name, Some(key), None),
{
    let sent = key_frame(op, name, key);
    let len = le_u32(low_u32(key.len()));
    law_bytes_are_digits(low_u32(key.len()), 0);
    let key_at = 6 + name.len();
    assert(sent[2] == len[0] && sent[3] == len[1] && sent[4] == len[2] && sent[5] == len[3]);
    assert(sent.subrange(6, key_at as int) =~= name);
    assert(sent.subrange(key_at as int, sent.len() as int) =~= key);
    assert(sent.subrange(sent.len() as int, sent.len() as int) =~= Seq::empty());
}

/// A request to give a key a value has the whole key and the whole value in it.
pub proof fn law_set_frame_layout(name: Seq<u8>, key: Seq<u8>, value: Seq<u8>)
    ensures
        is_request(set_frame(name, key, value), 7, name, Some(key), Some(value)),
{
    let start = seq![Operation::SetKey.code(), crate::protocol::low_u8(name.len())];
    let key_len = le_u32(low_u32(key.len()));
    let value_len = le_u32(low_u32(value.len()));
    law_bytes_are_digits(low_u32(key.len()), 0);
    law_bytes_are_digits(low_u32(value.len()), 0);
    lemma_set_parts(start, key_len, value_len, name, key, value);
}

proof fn lemma_set_parts(
    start: Seq<u8>,
    key_len: Seq<u8>,
    value_len: Seq<u8>,
    name: Seq<u8>,
    key: Seq<u8>,
    value: Seq<u8>,
)
    requires
        start.len() == 2,
        key_len.len() == 4,
        value_len.len() == 4,
    ensures
        ({
            let sent = start + key_len + value_len + name + key + value;
            let key_at = 10 + name.len() as int;
            let value_at = key_at + key.len();
            &&& sent.len() == value_at + value.len()
            &&& sent[0] == start[0]
            &&& sent[1] == start[1]
            &&& little_at(sent, 2) == little_at(key_len, 0)
            &&& little_at(sent, 6) == little_at(value_len, 0)
            &&& sent.subrange(10, key_at) == name
            &&& sent.subrange(key_at, value_at) == key
            &&& sent.subrange(value_at, sent.len() as int) == value
        }),
{
    let sent = start + key_len + value_len + name + key + value;
    let key_at = 10 + name.len() as int;
    let value_at = key_at + key.len();
    assert(sent.subrange(10, key_at) =~= name);
    assert(sent.subrange(key_at, value_at) =~= key);
    assert(sent.subrange(value_at, sent.len() as int) =~= value);
}

/// A request without parts is the byte of its operation, behind what is there.
pub proof fn law_short_requests_are_sent(
    ping: &mut Vec<u8>,
    close: &mut Vec<u8>,
    stats: &mut Vec<u8>,
)
    requires
        call_ensures(send_ping, (ping,), ()),
        call_ensures(send_close, (close,), ()),
        call_ensures(send_stats, (stats,), ()),
    ensures
        final(ping)@ == old(ping)@.push(1),
        final(close)@ == old(close)@.push(2),
        final(stats)@ == old(stats)@.push(0),
{
    assert(final(ping)@ =~= old(ping)@.push(1));
    assert(final(close)@ =~= old(close)@.push(2));
    assert(final(stats)@ =~= old(stats)@.push(0));
}

/// What is written behind `before`.
pub open spec fn written(before: Seq<u8>, after: Seq<u8>) -> Seq<u8> {
    after.skip(before.len() as int)
}

/// A request for a database is written behind what is there.
pub proof fn law_db_requests_are_sent(
    any: &mut Vec<u8>,
    op: Operation,
    create: &mut Vec<u8>,
    info: &mut Vec<u8>,
    drop: &mut Vec<u8>,
    name: &str,
)
    requires
        call_ensures(send_db_op, (any, op, name), ()),
        call_ensures(send_create, (create, name), ()),
        call_ensures(send_info, (info, name), ()),
        call_ensures(send_drop, (drop, name), ()),
    ensures
        final(any)@.take(old(any)@.len() as int) == old(any)@,
        final(create)@.take(old(create)@.len() as int) == old(create)@,
        final(info)@.take(old(info)@.len() as int) == old(info)@,
        final(drop)@.take(old(drop)@.len() as int) == old(drop)@,
        is_request(
            written(old(any)@, final(any)@),
            op.code(),
            encode_utf8(name@),
            None,
            None,
        ),
        is_request(written(old(create)@, final(create)@), 3, encode_utf8(name@), None, None),
        is_request(written(old(info)@, final(info)@), 4, encode_utf8(name@), None, None),
        is_request(written(old(drop)@, final(drop)@), 5, encode_utf8(name@), None, None),
{
    lemma_written(old(any)@, db_frame(op, encode_utf8(name@)));
    lemma_written(old(create)@, db_frame(Operation::Create, encode_utf8(name@)));
    lemma_written(old(info)@, db_frame(Operation::Info, encode_utf8(name@)));
    lemma_written(old(drop)@, db_frame(Operation::Drop, encode_utf8(name@)));
    law_db_frame_layout(op, encode_utf8(name@));
    law_db_frame_layout(Operation::Create, encode_utf8(name@));
    law_db_frame_layout(Operation::Info, encode_utf8(name@));
    law_db_frame_layout(Operation::Drop, encode_utf8(name@));
}

proof fn lemma_written(before: Seq<u8>, sent: Seq<u8>)
    ensures
        (before + sent).take(before.len() as int) == before,
        written(before, before + sent) == sent,
{
    assert((before + sent).take(before.len() as int) =~= before);
    assert(written(before, before + sent) =~= sent);
}

/// A request for a key is written behind what is there.
pub proof fn law_key_requests_are_sent(
    get: &mut Vec<u8>,
    delete: &mut Vec<u8>,
    set: &mut Vec<u8>,
    name: &str,
    key: &[u8],
    value: &[u8],
)
    requires
        call_ensures(send_get, (get, name, key), ()),
        call_ensures(send_delete, (delete, name, key), ()),
        call_ensures(send_set, (set, name, key, value), ()),
    ensures
        final(get)@.take(old(get)@.len() as int) == old(get)@,
        final(delete)@.take(old(delete)@.len() as int) == old(delete)@,
        final(set)@.take(old(set)@.len() as int) == old(set)@,
        is_request(written(old(get)@, final(get)@), 6, encode_utf8(name@), Some(key@), None),
        is_request(written(old(delete)@, final(delete)@), 8, encode_utf8(name@), Some(key@), None),
        is_request(
            written(old(set)@, final(set)@),
            7,
            encode_utf8(name@),
            Some(key@),
            Some(value@),
        ),
{
    let db = encode_utf8(name@);
    lemma_written(old(get)@, key_frame(Operation::Get, db, key@));
    lemma_written(old(delete)@, key_frame(Operation::Delete, db, key@));
    lemma_written(old(set)@, set_frame(db, key@, value@));
    law_key_frame_layout(Operation::Get, db, key@);
    law_key_frame_layout(Operation::Delete, db, key@);
    law_set_frame_layout(db, key@, value@);
}

} // verus!
