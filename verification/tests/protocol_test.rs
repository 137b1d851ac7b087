use mini_db::codec::{len_u32, push_bytes, push_u32_le, read_u32_be, read_u32_le, read_u64_le};
use mini_db::protocol::{
    send_close, send_create, send_db_op, send_delete, send_drop, send_get, send_info, send_ping, send_set, send_stats,
    InfoPacket, Operation, Response, StatsPacket, RESPONSE_HEADER_LEN,
};

const OPERATIONS: [Operation; 9] = [
    Operation::Stats,
    Operation::Ping,
    Operation::Close,
    Operation::Create,
    Operation::Info,
    Operation::Drop,
    Operation::Get,
    Operation::SetKey,
    Operation::Delete,
];

fn responses(payload: &[u8]) -> Vec<Response> {
    let p = payload.to_vec();
    vec![
        Response::Okay(p.clone()),
        Response::Pong(p.clone()),
        Response::DbNotFound(p.clone()),
        Response::DbAlreadyExists(p.clone()),
        Response::KeyValue(p.clone()),
        Response::KeyNotFound(p.clone()),
        Response::InvalidRequest(p.clone()),
        Response::PayloadTooLarge(p.clone()),
        Response::InternalError(p),
    ]
}

#[test]
fn numbers_are_written_in_the_order_that_std_writes_them() {
    for n in [0u32, 1, 255, 256, 0x01020304, u32::MAX, 0x80000000] {
        let mut bytes = vec![9u8];
        push_u32_le(&mut bytes, n);
        assert_eq!(&bytes[1..], &n.to_le_bytes());
        assert_eq!(read_u32_le(&bytes, 1), n);
        assert_eq!(read_u32_be(&bytes, 1), n.swap_bytes());
    }
    let n = 0x0102030405060708u64;
    assert_eq!(read_u64_le(&n.to_le_bytes(), 0), n);
    assert_eq!(len_u32(5), 5);
    assert_eq!(len_u32(0x1_0000_0003), 3);
    let mut bytes = vec![1u8];
    push_bytes(&mut bytes, &[2, 3]);
    assert_eq!(bytes, [1, 2, 3]);
}

#[test]
fn operations_have_their_documented_codes() {
    for (code, op) in OPERATIONS.iter().enumerate() {
        assert_eq!(op.to_u8(), code as u8);
        assert_eq!(Operation::from_u8(code as u8), Some(*op));
    }
    for code in 9..=255u8 {
        assert_eq!(Operation::from_u8(code), None);
    }
}

#[test]
fn responses_have_their_documented_frames() {
    for (code, response) in responses(b"abc").iter().enumerate() {
        assert_eq!(response.code_and_payload(), (code as u8, &b"abc"[..]));
        let mut frame = vec![7, 7, 7];
        response.send_response(&mut frame);
        assert_eq!(frame, [code as u8, 3, 0, 0, 0, b'a', b'b', b'c']);
    }
}

#[test]
fn responses_are_read_back() {
    for payload in [&b""[..], b"x", &[0u8; 300]] {
        for response in responses(payload) {
            let mut frame = Vec::new();
            response.send_response(&mut frame);
            let (status, len) = Response::read_header(&frame[..RESPONSE_HEADER_LEN]);
            assert_eq!(frame.len(), RESPONSE_HEADER_LEN + len as usize);
            let read = Response::read_response(status, frame[RESPONSE_HEADER_LEN..].to_vec());
            assert_eq!(read, response);
        }
    }
}

#[test]
fn unknown_status_bytes_are_internal_errors() {
    assert_eq!(
        Response::read_response(9, b"ignored".to_vec()),
        Response::InternalError(b"Unknown response code: 9".to_vec())
    );
    assert_eq!(
        Response::read_response(255, Vec::new()),
        Response::InternalError(b"Unknown response code: 255".to_vec())
    );
}

#[test]
fn stats_are_little_endian_and_read_back() {
    let stats = StatsPacket {
        uptime_bits: 1.5f64.to_bits(),
        total_dbs: 3,
        total_active_connections: 0x01020304,
    };
    let bytes = stats.to_bytes();
    let mut expected = 1.5f64.to_le_bytes().to_vec();
    expected.extend_from_slice(&[3, 0, 0, 0, 4, 3, 2, 1]);
    assert_eq!(bytes, expected);
    assert_eq!(StatsPacket::from_bytes(&bytes), Some(stats));
    assert_eq!(StatsPacket::from_bytes(&bytes[..15]), None);
    expected.push(99);
    assert_eq!(StatsPacket::from_bytes(&expected), Some(stats));
}

#[test]
fn info_is_big_endian_and_reads_back() {
    let info = InfoPacket {
        size_on_disk: 1,
        size_in_memory: 2,
        min_key_size: 3,
        mean_key_size: 4,
        max_key_size: 5,
        key_count: 0x01020304,
    };
    let bytes = info.to_bytes();
    assert_eq!(bytes, [0, 0, 0, 1, 0, 0, 0, 2, 0, 0, 0, 3, 0, 0, 0, 4, 0, 0, 0, 5, 1, 2, 3, 4]);
    assert_eq!(InfoPacket::from_bytes(&bytes), Some(info));
    assert_eq!(InfoPacket::from_bytes(&bytes[..23]), None);
}

#[test]
fn short_requests_are_one_byte() {
    let mut out = vec![42];
    send_ping(&mut out);
    send_close(&mut out);
    send_stats(&mut out);
    assert_eq!(out, [42, 1, 2, 0]);
}

#[test]
fn database_requests_carry_the_name() {
    let mut out = Vec::new();
    send_create(&mut out, "ab");
    send_info(&mut out, "c");
    send_drop(&mut out, "");
    send_db_op(&mut out, Operation::Create, "d");
    assert_eq!(out, [3, 2, b'a', b'b', 4, 1, b'c', 5, 0, 3, 1, b'd']);
}

#[test]
fn key_requests_carry_lengths_before_the_name() {
    let mut out = Vec::new();
    send_get(&mut out, "db", b"key");
    assert_eq!(out, [6, 2, 3, 0, 0, 0, b'd', b'b', b'k', b'e', b'y']);
    out.clear();
    send_delete(&mut out, "db", b"k");
    assert_eq!(out, [8, 2, 1, 0, 0, 0, b'd', b'b', b'k']);
    out.clear();
    send_set(&mut out, "db", b"k", b"val");
    assert_eq!(out, [7, 2, 1, 0, 0, 0, 3, 0, 0, 0, b'd', b'b', b'k', b'v', b'a', b'l']);
}
