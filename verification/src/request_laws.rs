//! What holds of every request that reaches the server: which ones are carried out, which
//! are refused and why, and what the client is told.
use crate::codec::u32_of_le;
use crate::manager::DbManager;
use crate::protocol::{Operation, Response, ResponseView};
use crate::protocol_laws::{is_request, little_at, status_and_payload};
use crate::session::{
    db_name_refusal, find_worker, handle_client, name_byte, pong, received,
    send_db_result_to_client, stats, validate_db_name, validate_key, validate_value, Limits,
    PhaseView, Refusal, Request, RequestError, RequestView, Session, SessionEvent, Step, StepView,
    WorkerReply,
};
use crate::session_laws::{holds_request, judged, lemma_whole_request, served, Outcome};
use crate::text::{decimal, lemma_ascii_is_utf8, shown_text};
use crate::worker::{DatabaseQueryOperation, QueryView};
use crate::{DEFAULT_DB_NAME, MAX_DB_NAME_LEN, MAX_KEY_SIZE, MAX_VALUE_SIZE};
use vstd::prelude::*;
use vstd::utf8::{decode_utf8, decode_utf8_encode_utf8, encode_utf8, valid_utf8};

verus! {

/// Whether a byte is a letter, a digit, an underscore or a hyphen.
pub open spec fn is_plain(b: u8) -> bool {
    let c = b as char;
    'a' <= c <= 'z' || 'A' <= c <= 'Z' || '0' <= c <= '9' || c == '_' || c == '-'
}

/// Whether bytes are a database name: from 1 to 64 of them, and all plain.
pub open spec fn is_plain_name(name: Seq<u8>) -> bool {
    1 <= name.len() <= 64 && forall|i: int| 0 <= i < name.len() ==> is_plain(#[trigger] name[i])
}

proof fn lemma_plain_byte(b: u8)
    ensures
        is_plain(b) == name_byte(b),
        is_plain(b) ==> b < 128,
{
}

proof fn lemma_plain_name(name: Seq<u8>)
    ensures
        is_plain_name(name) == (db_name_refusal(name) is None),
        is_plain_name(name) ==> valid_utf8(name) && encode_utf8(decode_utf8(name)) == name,
{
    assert forall|i: int| 0 <= i < name.len() implies #[trigger] is_plain(name[i]) == name_byte(
        name[i],
    ) && (is_plain(name[i]) ==> name[i] < 128) by {
        lemma_plain_byte(name[i]);
    }
    if is_plain_name(name) {
        assert forall|i: int| 0 <= i < name.len() implies name_byte(#[trigger] name[i]) && name[i]
            < 128 by {
            assert(is_plain(name[i]));
        }
        lemma_ascii_is_utf8(name);
        decode_utf8_encode_utf8(name);
    }
    if db_name_refusal(name) is None {
        assert forall|i: int| 0 <= i < name.len() implies is_plain(#[trigger] name[i]) by {
            assert(name_byte(name[i]));
        }
    }
}

/// A session is handed the bytes that it waits for, and makes of them what `received` says;
/// if the stream ends, the connection is closed between two requests and broken off within
/// one. A new session waits for the byte of an operation.
pub proof fn law_session_goes_on(
    session: Session,
    event: SessionEvent,
    limits: Limits,
    step: Step,
    wanted: usize,
    fresh: Session,
)
    requires
        call_ensures(handle_client, (session, event, limits), step),
        call_ensures(Session::wanted, (&session,), wanted),
        call_ensures(Session::new, (), fresh),
    ensures
        event matches SessionEvent::Received(input) ==> step@ == received(
            session@,
            input@,
            limits,
        ),
        event is EndOfStream && session@ is Opcode ==> step is Close,
        event is EndOfStream && !(session@ is Opcode) ==> step is Disconnect,
        wanted == session@.wanted(),
        fresh@ == PhaseView::Opcode,
{
}

/// What is said of a step is said of its parts: the request that is carried out and each
/// byte of it, the error, the session that goes on.
pub proof fn law_step_is_what_it_shows(step: Step)
    ensures
        match step@ {
            StepView::Read(phase) => step matches Step::Read(session) && session@ == phase,
            StepView::Refuse(refusal) => step matches Step::Refuse(error) && error@ == refusal,
            StepView::Close => step is Close,
            StepView::Disconnect => step is Disconnect,
            StepView::Execute(RequestView::Stats) => step matches Step::Execute(Request::Stats),
            StepView::Execute(RequestView::Ping) => step matches Step::Execute(Request::Ping),
            StepView::Execute(RequestView::Create(name)) => step matches Step::Execute(
                Request::Create(text),
            ) && text@ == name,
            StepView::Execute(RequestView::Drop(name)) => step matches Step::Execute(
                Request::Drop(text),
            ) && text@ == name,
            StepView::Execute(RequestView::Query(name, query)) => {
                &&& step matches Step::Execute(Request::Query { db_name, query: asked })
                &&& db_name@ == name
                &&& match query {
                    QueryView::Info => asked is Info,
                    QueryView::Get(k) => asked matches DatabaseQueryOperation::GET { key } && key@
                        == k,
                    QueryView::Delete(k) => asked matches DatabaseQueryOperation::DELETE { key }
                        && key@ == k,
                    QueryView::SetKey(k, v) => asked matches DatabaseQueryOperation::SET {
                        key,
                        value,
                    } && key@ == k && value@ == v,
                }
            },
        },
{
}

proof fn lemma_holds(
    request: Seq<u8>,
    op: Operation,
    name: Seq<u8>,
    key: Option<Seq<u8>>,
    value: Option<Seq<u8>>,
    rest: Seq<u8>,
)
    requires
        is_request(request, op.code(), name, key, value),
        name.len() <= 255,
        key matches Some(k) ==> k.len() <= u32::MAX,
        value matches Some(v) ==> v.len() <= u32::MAX,
        op is Get || op is Delete ==> key is Some && value is None,
        op is SetKey ==> key is Some && value is Some,
        op is Create || op is Info || op is Drop ==> key is None && value is None,
        !(op is Stats || op is Ping || op is Close),
    ensures
        holds_request(
            request + rest,
            op,
            name,
            key.unwrap_or(Seq::empty()),
            value.unwrap_or(Seq::empty()),
            rest,
        ),
{
    let k = key.unwrap_or(Seq::empty());
    let v = value.unwrap_or(Seq::empty());
    let input = request + rest;
    let name_at = 2 + (if key is Some {
        4int
    } else {
        0
    }) + (if value is Some {
        4int
    } else {
        0
    });
    let key_at = name_at + name.len();
    let value_at = key_at + k.len();
    let end = value_at + v.len();
    assert(input.subrange(name_at, key_at) =~= request.subrange(name_at, key_at));
    assert(input.subrange(key_at, value_at) =~= request.subrange(key_at, value_at));
    assert(input.subrange(value_at, end) =~= request.subrange(value_at, end));
    assert(input.skip(end) =~= rest);
    if key is Some {
        assert(u32_of_le(input.subrange(2, 6)) == little_at(request, 2));
    }
    if value is Some {
        assert(u32_of_le(input.subrange(6, 10)) == little_at(request, 6));
    }
}

/// What becomes of a whole request with these parts, by the refusals of the session.
proof fn lemma_judged(
    request: Seq<u8>,
    op: Operation,
    name: Seq<u8>,
    key: Option<Seq<u8>>,
    value: Option<Seq<u8>>,
    rest: Seq<u8>,
    limits: Limits,
)
    requires
        is_request(request, op.code(), name, key, value),
        valid_utf8(name),
        name.len() <= 255,
        key matches Some(k) ==> k.len() <= u32::MAX,
        value matches Some(v) ==> v.len() <= u32::MAX,
        op is Get || op is Delete ==> key is Some && value is None,
        op is SetKey ==> key is Some && value is Some,
        op is Create || op is Info || op is Drop ==> key is None && value is None,
        !(op is Stats || op is Ping || op is Close),
    ensures
        served(PhaseView::Opcode, request + rest, limits) == judged(
            op,
            decode_utf8(name),
            key.unwrap_or(Seq::empty()),
            value.unwrap_or(Seq::empty()),
            rest,
            limits,
        ),
{
    lemma_holds(request, op, name, key, value, rest);
    decode_utf8_encode_utf8(name);
    lemma_whole_request(
        request + rest,
        op,
        decode_utf8(name),
        key.unwrap_or(Seq::empty()),
        value.unwrap_or(Seq::empty()),
        rest,
        limits,
    );
}

/// A whole SET with a plain name, a key that has from 1 byte to as many as the server allows,
/// and a value that has from 1 byte to as many as the server allows, is carried out: the query
/// sets that key to that value.
pub proof fn law_set_within_limits_is_accepted(
    request: Seq<u8>,
    name: Seq<u8>,
    key: Seq<u8>,
    value: Seq<u8>,
    rest: Seq<u8>,
    limits: Limits,
)
    requires
        is_request(request, 7, name, Some(key), Some(value)),
        is_plain_name(name),
        1 <= key.len() <= limits.max_key_size,
        key.len() <= u32::MAX,
        1 <= value.len() <= limits.max_value_size,
        value.len() <= u32::MAX,
    ensures
        served(PhaseView::Opcode, request + rest, limits) == Outcome::Accepted(
            RequestView::Query(decode_utf8(name), QueryView::SetKey(key, value)),
            rest,
        ),
{
    lemma_plain_name(name);
    lemma_judged(request, Operation::SetKey, name, Some(key), Some(value), rest, limits);
}

/// A whole GET, or DELETE, with a plain name and a key that has from 1 byte to as many as the
/// server allows is carried out on that key.
pub proof fn law_key_within_limits_is_accepted(
    request: Seq<u8>,
    name: Seq<u8>,
    key: Seq<u8>,
    rest: Seq<u8>,
    limits: Limits,
)
    requires
        is_plain_name(name),
        1 <= key.len() <= limits.max_key_size,
        key.len() <= u32::MAX,
    ensures
        is_request(request, 6, name, Some(key), None) ==> served(
            PhaseView::Opcode,
            request + rest,
            limits,
        ) == Outcome::Accepted(RequestView::Query(decode_utf8(name), QueryView::Get(key)), rest),
        is_request(request, 8, name, Some(key), None) ==> served(
            PhaseView::Opcode,
            request + rest,
            limits,
        ) == Outcome::Accepted(
            RequestView::Query(decode_utf8(name), QueryView::Delete(key)),
            rest,
        ),
{
    lemma_plain_name(name);
    if is_request(request, 6, name, Some(key), None) {
        lemma_judged(request, Operation::Get, name, Some(key), None, rest, limits);
    }
    if is_request(request, 8, name, Some(key), None) {
        lemma_judged(request, Operation::Delete, name, Some(key), None, rest, limits);
    }
}

/// A whole request to create, to drop or to tell about a database with a plain name is carried
/// out.
pub proof fn law_plain_name_is_accepted(
    request: Seq<u8>,
    name: Seq<u8>,
    rest: Seq<u8>,
    limits: Limits,
)
    requires
        is_plain_name(name),
    ensures
        is_request(request, 3, name, None, None) ==> served(
            PhaseView::Opcode,
            request + rest,
            limits,
        ) == Outcome::Accepted(RequestView::Create(decode_utf8(name)), rest),
        is_request(request, 4, name, None, None) ==> served(
            PhaseView::Opcode,
            request + rest,
            limits,
        ) == Outcome::Accepted(RequestView::Query(decode_utf8(name), QueryView::Info), rest),
        is_request(request, 5, name, None, None) ==> served(
            PhaseView::Opcode,
            request + rest,
            limits,
        ) == Outcome::Accepted(RequestView::Drop(decode_utf8(name)), rest),
{
    lemma_plain_name(name);
    if is_request(request, 3, name, None, None) {
        lemma_judged(request, Operation::Create, name, None, None, rest, limits);
    }
    if is_request(request, 4, name, None, None) {
        lemma_judged(request, Operation::Info, name, None, None, rest, limits);
    }
    if is_request(request, 5, name, None, None) {
        lemma_judged(request, Operation::Drop, name, None, None, rest, limits);
    }
}

/// A request with a plain name is refused for its key if it has an empty one or one that is
/// larger than the server allows, then for its value likewise, and the client is told which.
pub proof fn law_sizes_beyond_limits_are_refused(
    request: Seq<u8>,
    op: Operation,
    name: Seq<u8>,
    key: Seq<u8>,
    value: Seq<u8>,
    rest: Seq<u8>,
    limits: Limits,
)
    requires
        op is Get || op is Delete ==> is_request(request, op.code(), name, Some(key), None),
        op is SetKey ==> is_request(request, op.code(), name, Some(key), Some(value)),
        op is Get || op is Delete || op is SetKey,
        is_plain_name(name),
        key.len() <= u32::MAX,
        value.len() <= u32::MAX,
    ensures
        key.len() == 0 ==> served(PhaseView::Opcode, request + rest, limits) == Outcome::Refused(
            Refusal {
                response: ResponseView::InvalidRequest(encode_utf8("Key size cannot be zero"@)),
                message: "Key cannot be empty"@,
            },
        ),
        key.len() > limits.max_key_size && key.len() > 0 ==> served(
            PhaseView::Opcode,
            request + rest,
            limits,
        ) == Outcome::Refused(
            Refusal {
                response: ResponseView::PayloadTooLarge(encode_utf8("Key too large"@)),
                message: "Key size "@ + decimal(key.len()) + " exceeds maximum allowed size of "@
                    + decimal(limits.max_key_size as nat) + " bytes"@,
            },
        ),
        op is SetKey && 0 < key.len() <= limits.max_key_size && value.len() == 0 ==> served(
            PhaseView::Opcode,
            request + rest,
            limits,
        ) == Outcome::Refused(
            Refusal {
                response: ResponseView::InvalidRequest(encode_utf8("Value cannot be empty"@)),
                message: "Value cannot be empty"@,
            },
        ),
        op is SetKey && 0 < key.len() <= limits.max_key_size && value.len() > 0 && value.len()
            > limits.max_value_size ==> served(PhaseView::Opcode, request + rest, limits)
            == Outcome::Refused(
            Refusal {
                response: ResponseView::PayloadTooLarge(encode_utf8("Value too large"@)),
                message: "Value size "@ + decimal(value.len())
                    + " exceeds maximum allowed size of "@ + decimal(limits.max_value_size as nat)
                    + " bytes"@,
            },
        ),
{
    lemma_plain_name(name);
    if op is SetKey {
        lemma_judged(request, op, name, Some(key), Some(value), rest, limits);
    } else {
        lemma_judged(request, op, name, Some(key), None, rest, limits);
    }
}

/// A request whose name is empty, longer than 64 bytes or not plain is refused for its name,
/// whatever key and value it has, and the client is told why.
pub proof fn law_other_names_are_refused(
    request: Seq<u8>,
    op: Operation,
    name: Seq<u8>,
    key: Option<Seq<u8>>,
    value: Option<Seq<u8>>,
    rest: Seq<u8>,
    limits: Limits,
)
    requires
        is_request(request, op.code(), name, key, value),
        name.len() <= 255,
        key matches Some(k) ==> k.len() <= u32::MAX,
        value matches Some(v) ==> v.len() <= u32::MAX,
        op is Get || op is Delete ==> key is Some && value is None,
        op is SetKey ==> key is Some && value is Some,
        op is Create || op is Info || op is Drop ==> key is None && value is None,
        !(op is Stats || op is Ping || op is Close),
    ensures
        name.len() == 0 ==> served(PhaseView::Opcode, request + rest, limits) == Outcome::Refused(
            Refusal {
                response: ResponseView::InvalidRequest(
                    encode_utf8("Database name cannot be empty"@),
                ),
                message: "Database name cannot be empty"@,
            },
        ),
        name.len() > 64 ==> served(PhaseView::Opcode, request + rest, limits) == Outcome::Refused(
            Refusal {
                response: ResponseView::PayloadTooLarge(encode_utf8("Database name too long"@)),
                message: "Database name "@ + shown_text(name)
                    + " exceeds maximum allowed length of "@ + decimal(64) + " bytes"@,
            },
        ),
        1 <= name.len() <= 64 && !is_plain_name(name) ==> served(
            PhaseView::Opcode,
            request + rest,
            limits,
        ) == Outcome::Refused(
            Refusal {
                response: ResponseView::InvalidRequest(
                    encode_utf8("Invalid characters in database name"@),
                ),
                message: "Invalid characters in database name"@,
            },
        ),
{
    lemma_plain_name(name);
    lemma_holds(request, op, name, key, value, rest);
    crate::session_laws::law_session_follows_protocol(request + rest, limits);
    crate::protocol::law_operation_reads_back(op, 0);
}

/// A request that is not whole is waited for, if what there is of it is in order.
pub proof fn law_part_of_a_request_is_waited_for(
    request: Seq<u8>,
    name: Seq<u8>,
    key: Seq<u8>,
    value: Seq<u8>,
    sent: nat,
    limits: Limits,
)
    requires
        is_request(request, 7, name, Some(key), Some(value)),
        is_plain_name(name),
        1 <= key.len() <= limits.max_key_size,
        key.len() <= u32::MAX,
        1 <= value.len() <= limits.max_value_size,
        value.len() <= u32::MAX,
        sent < request.len(),
    ensures
        served(PhaseView::Opcode, request.take(sent as int), limits) == Outcome::Incomplete,
{
    let part = request.take(sent as int);
    lemma_plain_name(name);
    crate::session_laws::law_session_follows_protocol(part, limits);
    let key_at = 10 + name.len() as int;
    if sent >= 10 {
        assert(u32_of_le(part.subrange(2, 6)) == little_at(request, 2));
        assert(u32_of_le(part.subrange(6, 10)) == little_at(request, 6));
        if sent >= key_at {
            assert(part.subrange(10, key_at) =~= request.subrange(10, key_at));
        }
    }
}

/// A byte that stands for no operation is refused at once.
pub proof fn law_unknown_operation_is_refused(input: Seq<u8>, limits: Limits)
    requires
        input.len() > 0,
        input[0] > 8,
    ensures
        served(PhaseView::Opcode, input, limits) == Outcome::Refused(
            Refusal {
                response: ResponseView::InvalidRequest(encode_utf8("Invalid operation code"@)),
                message: "Invalid operation code"@,
            },
        ),
{
    crate::session_laws::law_session_follows_protocol(input, limits);
    crate::protocol::law_operation_reads_back(Operation::Ping, input[0]);
}

/// A name is taken exactly if it is plain, and as the text that it spells.
pub proof fn law_plain_names_are_valid(name: &[u8], result: Result<String, RequestError>)
    requires
        call_ensures(validate_db_name, (name,), result),
    ensures
        result is Ok <==> is_plain_name(name@),
        result matches Ok(text) ==> {
            &&& text@.len() == name@.len()
            &&& forall|i: int| 0 <= i < name@.len() ==> #[trigger] text@[i] == name@[i] as char
        },
{
    lemma_plain_name(name@);
    if is_plain_name(name@) {
        assert forall|i: int| 0 <= i < name@.len() implies #[trigger] name@[i] < 128 by {
            assert(is_plain(name@[i]));
            lemma_plain_byte(name@[i]);
        }
        lemma_ascii_is_utf8(name@);
    }
}

/// Sizes are taken exactly if they are from 1 to the limit; else the error says which limit
/// was kept and which was not.
pub proof fn law_sizes_are_valid_up_to_the_limit(
    size: usize,
    max: usize,
    key: Result<(), RequestError>,
    value: Result<(), RequestError>,
)
    requires
        call_ensures(validate_key, (size, max), key),
        call_ensures(validate_value, (size, max), value),
    ensures
        key is Ok <==> 1 <= size <= max,
        value is Ok <==> 1 <= size <= max,
        key matches Err(error) ==> error@.response == if size == 0 {
            ResponseView::InvalidRequest(encode_utf8("Key size cannot be zero"@))
        } else {
            ResponseView::PayloadTooLarge(encode_utf8("Key too large"@))
        },
        value matches Err(error) ==> error@.response == if size == 0 {
            ResponseView::InvalidRequest(encode_utf8("Value cannot be empty"@))
        } else {
            ResponseView::PayloadTooLarge(encode_utf8("Value too large"@))
        },
{
}

/// What a response shows is its status byte and its payload.
pub proof fn law_response_is_what_it_shows(response: Response)
    ensures
        response@ matches ResponseView::Okay(p) ==> status_and_payload(response) == (0u8, p),
        response@ matches ResponseView::Pong(p) ==> status_and_payload(response) == (1u8, p),
        response@ matches ResponseView::DbNotFound(p) ==> status_and_payload(response) == (2u8, p),
        response@ matches ResponseView::DbAlreadyExists(p) ==> status_and_payload(response) == (
            3u8,
            p,
        ),
        response@ matches ResponseView::KeyValue(p) ==> status_and_payload(response) == (4u8, p),
        response@ matches ResponseView::KeyNotFound(p) ==> status_and_payload(response) == (5u8, p),
        response@ matches ResponseView::InvalidRequest(p) ==> status_and_payload(response) == (
            6u8,
            p,
        ),
        response@ matches ResponseView::PayloadTooLarge(p) ==> status_and_payload(response) == (
            7u8,
            p,
        ),
        response@ matches ResponseView::InternalError(p) ==> status_and_payload(response) == (
            8u8,
            p,
        ),
{
}

/// A refused client is told what its error says, and so is the log of the server.
pub proof fn law_error_is_told(error: RequestError, response: Response, message: String)
    requires
        call_ensures(RequestError::response, (&error,), response),
        call_ensures(RequestError::message, (&error,), message),
    ensures
        response@ == error@.response,
        message@ == error@.message,
        match error {
            RequestError::InvalidOperation => status_and_payload(response) == (
                6u8,
                encode_utf8("Invalid operation code"@),
            ) && message@ == "Invalid operation code"@,
            RequestError::EmptyDbName => status_and_payload(response) == (
                6u8,
                encode_utf8("Database name cannot be empty"@),
            ) && message@ == "Database name cannot be empty"@,
            RequestError::DbNameTooLong(name) => status_and_payload(response) == (
                7u8,
                encode_utf8("Database name too long"@),
            ) && message@ == "Database name "@ + shown_text(name@)
                + " exceeds maximum allowed length of "@ + decimal(64) + " bytes"@,
            RequestError::InvalidDbName => status_and_payload(response) == (
                6u8,
                encode_utf8("Invalid characters in database name"@),
            ) && message@ == "Invalid characters in database name"@,
            RequestError::EmptyKey => status_and_payload(response) == (
                6u8,
                encode_utf8("Key size cannot be zero"@),
            ) && message@ == "Key cannot be empty"@,
            RequestError::KeyTooLarge { size, max } => status_and_payload(response) == (
                7u8,
                encode_utf8("Key too large"@),
            ) && message@ == "Key size "@ + decimal(size as nat)
                + " exceeds maximum allowed size of "@ + decimal(max as nat) + " bytes"@,
            RequestError::EmptyValue => status_and_payload(response) == (
                6u8,
                encode_utf8("Value cannot be empty"@),
            ) && message@ == "Value cannot be empty"@,
            RequestError::ValueTooLarge { size, max } => status_and_payload(response) == (
                7u8,
                encode_utf8("Value too large"@),
            ) && message@ == "Value size "@ + decimal(size as nat)
                + " exceeds maximum allowed size of "@ + decimal(max as nat) + " bytes"@,
            RequestError::DbNotFound(name) => status_and_payload(response) == (
                2u8,
                encode_utf8("Database not found"@),
            ) && message@ == "Database "@ + name@ + " not found"@,
            RequestError::Internal(cause) => status_and_payload(response) == (
                8u8,
                encode_utf8("Something went terribly wrong: "@ + cause@),
            ) && message@ == "Internal error: "@ + cause@,
            RequestError::WorkerGone => status_and_payload(response) == (
                8u8,
                encode_utf8("Failed to receive response from worker"@),
            ) && message@ == "Failed to receive response from worker"@,
        },
{
}

/// A ping is answered with `PONG`.
pub proof fn law_ping_is_answered(response: Response)
    requires
        call_ensures(pong, (), response),
    ensures
        status_and_payload(response) == (1u8, encode_utf8("PONG"@)),
{
}

/// The answer to STATS holds the bits of the uptime, the number of databases and the number of
/// connected clients, in sixteen bytes.
pub proof fn law_stats_are_answered(
    uptime_bits: u64,
    db_count: usize,
    active_connections: u32,
    response: Response,
)
    requires
        call_ensures(stats, (uptime_bits, db_count, active_connections), response),
    ensures
        response matches Response::Okay(packet) && packet@.len() == 16 && little_at(packet@, 0)
            + 4294967296 * little_at(packet@, 4) == uptime_bits && (db_count <= u32::MAX
            ==> little_at(packet@, 8) == db_count) && little_at(packet@, 12)
            == active_connections,
{
    let packet = crate::protocol::StatsPacket {
        uptime_bits,
        total_dbs: crate::codec::low_u32(db_count as nat),
        total_active_connections: active_connections,
    };
    crate::protocol_laws::law_stats_packet_layout(packet);
}

/// A query goes to the worker of the database that it names, and is refused if there is none.
pub proof fn law_query_finds_its_worker(
    manager: DbManager,
    name: &str,
    result: Result<u64, RequestError>,
)
    requires
        call_ensures(find_worker, (&manager, name), result),
    ensures
        manager@.contains_key(name@) ==> result == Ok::<u64, RequestError>(manager@[name@]),
        !manager@.contains_key(name@) ==> result is Err,
        result matches Err(error) ==> error@ == (Refusal {
            response: ResponseView::DbNotFound(encode_utf8("Database not found"@)),
            message: "Database "@ + name@ + " not found"@,
        }),
{
}

/// What a worker answers reaches the client as it is; what it reports, and that it is gone,
/// reaches the client as an internal error.
pub proof fn law_reply_reaches_the_client(
    reply: WorkerReply,
    result: Result<Response, RequestError>,
)
    requires
        call_ensures(send_db_result_to_client, (reply,), result),
    ensures
        match reply {
            WorkerReply::Answered(answer) => result matches Ok(response) && status_and_payload(
                response,
            ) == status_and_payload(answer),
            WorkerReply::Failed(cause) => result matches Err(error) && error@ == (Refusal {
                response: ResponseView::InternalError(
                    encode_utf8("Something went terribly wrong: "@ + cause@),
                ),
                message: "Internal error: "@ + cause@,
            }),
            WorkerReply::Gone => result matches Err(error) && error@ == (Refusal {
                response: ResponseView::InternalError(
                    encode_utf8("Failed to receive response from worker"@),
                ),
                message: "Failed to receive response from worker"@,
            }),
        },
{
}

/// The bounds are 2 MiB on a key, 24 MiB on a value and 64 bytes on a name; the database that
/// is always there is called `default`.
pub proof fn law_bounds_and_default_name()
    ensures
        MAX_KEY_SIZE == 2 * 1024 * 1024,
        MAX_VALUE_SIZE == 24 * 1024 * 1024,
        MAX_DB_NAME_LEN == 64,
        DEFAULT_DB_NAME@ == "default"@,
{
    assert(2usize << 20 == 2097152) by (bit_vector);
    assert(24usize << 20 == 25165824) by (bit_vector);
}

} // verus!
