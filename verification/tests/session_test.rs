use mini_db::client::{read_command, request};
use mini_db::protocol::{send_create, send_delete, send_drop, send_get, send_info, send_set, Response};
use mini_db::session::{
    handle_client, pong, send_db_result_to_client, stats, validate_db_name, validate_key, validate_value, Limits,
    Request, RequestError, Session, SessionEvent, Step, WorkerReply,
};
use mini_db::worker::DatabaseQueryOperation;

const LIMITS: Limits = Limits { max_key_size: 8, max_value_size: 16 };

/// What the server makes of bytes that a client has sent, and how many it has read.
fn serve(input: &[u8]) -> (Step, usize) {
    let mut session = Session::new();
    let mut at = 0;
    loop {
        let wanted = session.wanted();
        if input.len() - at < wanted {
            return (handle_client(session, SessionEvent::EndOfStream, LIMITS), at);
        }
        let bytes = input[at..at + wanted].to_vec();
        at += wanted;
        match handle_client(session, SessionEvent::Received(bytes), LIMITS) {
            Step::Read(next) => session = next,
            step => return (step, at),
        }
    }
}

fn refusal(input: &[u8]) -> RequestError {
    match serve(input).0 {
        Step::Refuse(error) => error,
        _ => panic!("the request is refused"),
    }
}

fn query(input: &[u8]) -> (String, DatabaseQueryOperation) {
    match serve(input).0 {
        Step::Execute(Request::Query { db_name, query }) => (db_name, query),
        _ => panic!("the request is a query"),
    }
}

#[test]
fn short_requests_are_carried_out() {
    assert!(matches!(serve(&[0]), (Step::Execute(Request::Stats), 1)));
    assert!(matches!(serve(&[1, 9]), (Step::Execute(Request::Ping), 1)));
    assert!(matches!(serve(&[2, 9]), (Step::Close, 1)));
}

#[test]
fn requests_on_databases_are_carried_out() {
    let mut out = Vec::new();
    send_create(&mut out, "db-1_X");
    let (step, read) = serve(&out);
    assert_eq!(read, out.len());
    match step {
        Step::Execute(Request::Create(name)) => assert_eq!(name, "db-1_X"),
        _ => panic!("a database is created"),
    }
    out.clear();
    send_drop(&mut out, "db");
    match serve(&out).0 {
        Step::Execute(Request::Drop(name)) => assert_eq!(name, "db"),
        _ => panic!("a database is dropped"),
    }
    out.clear();
    send_info(&mut out, "db");
    let (name, operation) = query(&out);
    assert_eq!(name, "db");
    assert!(matches!(operation, DatabaseQueryOperation::Info));
}

#[test]
fn requests_on_keys_are_carried_out() {
    let mut out = Vec::new();
    send_get(&mut out, "db", b"key");
    out.extend_from_slice(b"next request");
    let (_, read) = serve(&out);
    assert_eq!(read, out.len() - 12);
    match query(&out) {
        (name, DatabaseQueryOperation::GET { key }) => {
            assert_eq!(name, "db");
            assert_eq!(key, b"key");
        }
        _ => panic!("a key is read"),
    }
    out.clear();
    send_delete(&mut out, "db", b"key");
    match query(&out) {
        (_, DatabaseQueryOperation::DELETE { key }) => assert_eq!(key, b"key"),
        _ => panic!("a key is deleted"),
    }
    out.clear();
    send_set(&mut out, "db", b"12345678", &[7; 16]);
    match query(&out) {
        (name, DatabaseQueryOperation::SET { key, value }) => {
            assert_eq!(name, "db");
            assert_eq!(key, b"12345678");
            assert_eq!(value, [7; 16]);
        }
        _ => panic!("a key is set"),
    }
}

#[test]
fn a_stream_may_end_between_requests_only() {
    assert!(matches!(serve(&[]).0, Step::Close));
    let mut out = Vec::new();
    send_set(&mut out, "db", b"k", b"v");
    for sent in 1..out.len() {
        assert!(matches!(serve(&out[..sent]).0, Step::Disconnect));
    }
    assert!(matches!(serve(&out).0, Step::Execute(_)));
}

#[test]
fn unknown_operations_are_refused() {
    let error = refusal(&[9]);
    assert!(matches!(error, RequestError::InvalidOperation));
    assert_eq!(error.response(), Response::InvalidRequest(b"Invalid operation code".to_vec()));
    assert_eq!(error.message(), "Invalid operation code");
}

#[test]
fn empty_names_are_refused() {
    let error = refusal(&[3, 0]);
    assert!(matches!(error, RequestError::EmptyDbName));
    assert_eq!(error.response(), Response::InvalidRequest(b"Database name cannot be empty".to_vec()));
    assert_eq!(error.message(), "Database name cannot be empty");
}

#[test]
fn long_names_are_refused() {
    let name = [b'n'; 65];
    let error = validate_db_name(&name).unwrap_err();
    assert!(matches!(error, RequestError::DbNameTooLong(_)));
    assert_eq!(error.response(), Response::PayloadTooLarge(b"Database name too long".to_vec()));
    assert_eq!(
        error.message(),
        format!("Database name {} exceeds maximum allowed length of 64 bytes", "n".repeat(65))
    );
    let mut not_text = [b'n'; 65];
    not_text[0] = 0xff;
    assert_eq!(
        validate_db_name(&not_text).unwrap_err().message(),
        format!("Database name \u{fffd}{} exceeds maximum allowed length of 64 bytes", "n".repeat(64))
    );
    assert_eq!(validate_db_name(&name[..64]).unwrap(), "n".repeat(64));
}

#[test]
fn names_have_no_other_characters_than_file_names() {
    for b in 0..=255u8 {
        let allowed = b.is_ascii_alphanumeric() || b == b'_' || b == b'-';
        assert_eq!(validate_db_name(&[b'a', b]).is_ok(), allowed);
    }
    for name in [&b"../up"[..], b"a/b", b"a.log", b"a b", "ü".as_bytes()] {
        let error = validate_db_name(name).unwrap_err();
        assert!(matches!(error, RequestError::InvalidDbName));
        assert_eq!(error.response(), Response::InvalidRequest(b"Invalid characters in database name".to_vec()));
        assert_eq!(error.message(), "Invalid characters in database name");
    }
    assert_eq!(validate_db_name(b"Valid_Name-01").unwrap(), "Valid_Name-01");
}

#[test]
fn keys_keep_to_their_limits() {
    let error = validate_key(0, 8).unwrap_err();
    assert!(matches!(error, RequestError::EmptyKey));
    assert_eq!(error.response(), Response::InvalidRequest(b"Key size cannot be zero".to_vec()));
    assert_eq!(error.message(), "Key cannot be empty");
    let error = validate_key(9, 8).unwrap_err();
    assert!(matches!(error, RequestError::KeyTooLarge { size: 9, max: 8 }));
    assert_eq!(error.response(), Response::PayloadTooLarge(b"Key too large".to_vec()));
    assert_eq!(error.message(), "Key size 9 exceeds maximum allowed size of 8 bytes");
    assert!(validate_key(1, 8).is_ok() && validate_key(8, 8).is_ok());
}

#[test]
fn values_keep_to_their_limits() {
    let error = validate_value(0, 16).unwrap_err();
    assert!(matches!(error, RequestError::EmptyValue));
    assert_eq!(error.response(), Response::InvalidRequest(b"Value cannot be empty".to_vec()));
    assert_eq!(error.message(), "Value cannot be empty");
    let error = validate_value(17, 16).unwrap_err();
    assert!(matches!(error, RequestError::ValueTooLarge { size: 17, max: 16 }));
    assert_eq!(error.response(), Response::PayloadTooLarge(b"Value too large".to_vec()));
    assert_eq!(error.message(), "Value size 17 exceeds maximum allowed size of 16 bytes");
    assert!(validate_value(1, 16).is_ok() && validate_value(16, 16).is_ok());
}

#[test]
fn requests_are_refused_for_the_first_reason() {
    // the name comes before the key, and the key before the value
    let mut out = Vec::new();
    send_set(&mut out, "a.b", b"", b"");
    assert!(matches!(refusal(&out), RequestError::InvalidDbName));
    out.clear();
    send_set(&mut out, "ab", b"", b"");
    assert!(matches!(refusal(&out), RequestError::EmptyKey));
    out.clear();
    send_set(&mut out, "ab", b"123456789", b"");
    assert!(matches!(refusal(&out), RequestError::KeyTooLarge { .. }));
    out.clear();
    send_set(&mut out, "ab", b"1", b"");
    assert!(matches!(refusal(&out), RequestError::EmptyValue));
    out.clear();
    send_set(&mut out, "ab", b"1", &[0; 17]);
    assert!(matches!(refusal(&out), RequestError::ValueTooLarge { .. }));
}

#[test]
fn sizes_are_judged_before_the_key_is_read() {
    let mut out = Vec::new();
    send_get(&mut out, "ab", &[0; 9]);
    let (step, read) = serve(&out);
    assert!(matches!(step, Step::Refuse(RequestError::KeyTooLarge { size: 9, max: 8 })));
    assert_eq!(read, 8);
}

#[test]
fn pings_and_statistics_are_answered() {
    assert_eq!(pong(), Response::Pong(b"PONG".to_vec()));
    let mut expected = 0.5f64.to_le_bytes().to_vec();
    expected.extend_from_slice(&[2, 0, 0, 0, 3, 0, 0, 0]);
    assert_eq!(stats(0.5f64.to_bits(), 2, 3), Response::Okay(expected));
}

#[test]
fn replies_of_workers_are_handed_on() {
    let answer = Response::KeyValue(b"v".to_vec());
    match send_db_result_to_client(WorkerReply::Answered(answer.clone())) {
        Ok(response) => assert_eq!(response, answer),
        Err(_) => panic!("the worker has answered"),
    }
    let error = send_db_result_to_client(WorkerReply::Failed("wal: write".to_string())).unwrap_err();
    assert_eq!(error.response(), Response::InternalError(b"Something went terribly wrong: wal: write".to_vec()));
    assert_eq!(error.message(), "Internal error: wal: write");
    let error = send_db_result_to_client(WorkerReply::Gone).unwrap_err();
    assert_eq!(
        error.response(),
        Response::InternalError(b"Failed to receive response from worker".to_vec())
    );
    assert_eq!(error.message(), "Failed to receive response from worker");
}

#[test]
fn what_is_typed_is_what_is_carried_out() {
    let send = |line: &str| request(&read_command(line, "db"), "db").unwrap();
    match query(&send("set k some value\n")) {
        (name, DatabaseQueryOperation::SET { key, value }) => {
            assert_eq!(name, "db");
            assert_eq!(key, b"k");
            assert_eq!(value, b"some value");
        }
        _ => panic!("a key is set"),
    }
    assert!(matches!(query(&send("get k")).1, DatabaseQueryOperation::GET { .. }));
    assert!(matches!(query(&send("DEL k")).1, DatabaseQueryOperation::DELETE { .. }));
    assert!(matches!(query(&send("info")).1, DatabaseQueryOperation::Info));
    assert!(matches!(serve(&send("create x")).0, Step::Execute(Request::Create(_))));
    assert!(matches!(serve(&send("drop x")).0, Step::Execute(Request::Drop(_))));
    assert!(matches!(serve(&send("ping")).0, Step::Execute(Request::Ping)));
    assert!(matches!(serve(&send("stats")).0, Step::Execute(Request::Stats)));
    assert!(matches!(serve(&send("quit")).0, Step::Close));
    // the server refuses what the client lets through
    assert!(matches!(refusal(&send("create a.b")), RequestError::InvalidDbName));
    assert!(matches!(refusal(&send("get 123456789")), RequestError::KeyTooLarge { .. }));
}
