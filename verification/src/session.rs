//! A client's connection, seen from the server: what to read next, which request has
//! come in, and what is answered.
//!
//! A session does no I/O. It is handed the bytes that it asked for and says what to
//! do next.
use crate::codec::{len_u32, low_u32, read_u32_le, u32_of_le};
use crate::manager::DbManager;
use crate::protocol::{operation_of, Operation, Response, ResponseView, StatsPacket};
use crate::text::{
    decimal, lemma_ascii_is_utf8, owned, push_decimal, shown, shown_text, text_bytes, utf8_text,
};
use crate::worker::{DatabaseQueryOperation, QueryView};
use crate::MAX_DB_NAME_LEN;
use vstd::prelude::*;
use vstd::string::StringExecFns;
use vstd::utf8::{decode_utf8, encode_utf8, encode_utf8_decode_utf8};

verus! {

/// The largest key and the largest value that a server accepts.
#[derive(Debug, Clone, Copy)]
pub struct Limits {
    pub max_key_size: usize,
    pub max_value_size: usize,
}

/// Why a request is refused.
#[derive(Debug)]
pub enum RequestError {
    InvalidOperation,
    EmptyDbName,
    DbNameTooLong(Vec<u8>),
    InvalidDbName,
    EmptyKey,
    KeyTooLarge { size: usize, max: usize },
    EmptyValue,
    ValueTooLarge { size: usize, max: usize },
    DbNotFound(String),
    Internal(String),
    WorkerGone,
}

/// What a refused client is told, and what the server notes.
#[verifier::ext_equal]
pub struct Refusal {
    pub response: ResponseView,
    pub message: Seq<char>,
}

/// The refusal of a request whose operation is not known.
pub open spec fn invalid_operation() -> Refusal {
    Refusal {
        response: ResponseView::InvalidRequest(encode_utf8("Invalid operation code"@)),
        message: "Invalid operation code"@,
    }
}

/// The refusal of an empty database name.
pub open spec fn empty_db_name() -> Refusal {
    Refusal {
        response: ResponseView::InvalidRequest(encode_utf8("Database name cannot be empty"@)),
        message: "Database name cannot be empty"@,
    }
}

/// The refusal of a database name that is too long.
pub open spec fn db_name_too_long(name: Seq<u8>) -> Refusal {
    Refusal {
        response: ResponseView::PayloadTooLarge(encode_utf8("Database name too long"@)),
        message: "Database name "@ + shown_text(name) + " exceeds maximum allowed length of "@
            + decimal(MAX_DB_NAME_LEN as nat) + " bytes"@,
    }
}

/// The refusal of a database name with characters that are not allowed.
pub open spec fn invalid_db_name() -> Refusal {
    Refusal {
        response: ResponseView::InvalidRequest(encode_utf8("Invalid characters in database name"@)),
        message: "Invalid characters in database name"@,
    }
}

/// The refusal of an empty key.
pub open spec fn empty_key() -> Refusal {
    Refusal {
        response: ResponseView::InvalidRequest(encode_utf8("Key size cannot be zero"@)),
        message: "Key cannot be empty"@,
    }
}

/// The refusal of a key that is too large.
pub open spec fn key_too_large(size: nat, max: nat) -> Refusal {
    Refusal {
        response: ResponseView::PayloadTooLarge(encode_utf8("Key too large"@)),
        message: "Key size "@ + decimal(size) + " exceeds maximum allowed size of "@ + decimal(max)
            + " bytes"@,
    }
}

/// The refusal of an empty value.
pub open spec fn empty_value() -> Refusal {
    Refusal {
        response: ResponseView::InvalidRequest(encode_utf8("Value cannot be empty"@)),
        message: "Value cannot be empty"@,
    }
}

/// The refusal of a value that is too large.
pub open spec fn value_too_large(size: nat, max: nat) -> Refusal {
    Refusal {
        response: ResponseView::PayloadTooLarge(encode_utf8("Value too large"@)),
        message: "Value size "@ + decimal(size) + " exceeds maximum allowed size of "@ + decimal(
            max,
        ) + " bytes"@,
    }
}

/// The refusal of a query to a database that is not there.
pub open spec fn db_not_found(name: Seq<char>) -> Refusal {
    Refusal {
        response: ResponseView::DbNotFound(encode_utf8("Database not found"@)),
        message: "Database "@ + name + " not found"@,
    }
}

/// The answer when a worker could not do what it was asked for.
pub open spec fn internal_error(error: Seq<char>) -> Refusal {
    Refusal {
        response: ResponseView::InternalError(
            encode_utf8("Something went terribly wrong: "@ + error),
        ),
        message: "Internal error: "@ + error,
    }
}

/// The answer when a worker is gone before it has answered.
pub open spec fn worker_gone() -> Refusal {
    Refusal {
        response: ResponseView::InternalError(
            encode_utf8("Failed to receive response from worker"@),
        ),
        message: "Failed to receive response from worker"@,
    }
}

impl View for RequestError {
    type V = Refusal;

    open spec fn view(&self) -> Refusal {
        match self {
            RequestError::InvalidOperation => invalid_operation(),
            RequestError::EmptyDbName => empty_db_name(),
            RequestError::DbNameTooLong(name) => db_name_too_long(name@),
            RequestError::InvalidDbName => invalid_db_name(),
            RequestError::EmptyKey => empty_key(),
            RequestError::KeyTooLarge { size, max } => key_too_large(*size as nat, *max as nat),
            RequestError::EmptyValue => empty_value(),
            RequestError::ValueTooLarge { size, max } => value_too_large(*size as nat, *max as nat),
            RequestError::DbNotFound(name) => db_not_found(name@),
            RequestError::Internal(error) => internal_error(error@),
            RequestError::WorkerGone => worker_gone(),
        }
    }
}

/// `start`, a size, `middle`, a size, and the word `bytes`.
fn size_message(start: &str, size: usize, middle: &str, max: usize) -> (message: String)
    ensures
        message@ == start@ + decimal(size as nat) + middle@ + decimal(max as nat) + " bytes"@,
{
    let mut message = owned(start);
    push_decimal(&mut message, size as u128);
    message.append(middle);
    push_decimal(&mut message, max as u128);
    message.append(" bytes");
    message
}

impl RequestError {
    /// What the client is told.
    pub fn response(&self) -> (response: Response)
        ensures
            response@ == self@.response,
    {
        match self {
            RequestError::InvalidOperation => Response::InvalidRequest(
                text_bytes("Invalid operation code"),
            ),
            RequestError::EmptyDbName => Response::InvalidRequest(
                text_bytes("Database name cannot be empty"),
            ),
            RequestError::DbNameTooLong(_) => Response::PayloadTooLarge(
                text_bytes("Database name too long"),
            ),
            RequestError::InvalidDbName => Response::InvalidRequest(
                text_bytes("Invalid characters in database name"),
            ),
            RequestError::EmptyKey => Response::InvalidRequest(
                text_bytes("Key size cannot be zero"),
            ),
            RequestError::KeyTooLarge { .. } => Response::PayloadTooLarge(
                text_bytes("Key too large"),
            ),
            RequestError::EmptyValue => Response::InvalidRequest(
                text_bytes("Value cannot be empty"),
            ),
            RequestError::ValueTooLarge { .. } => Response::PayloadTooLarge(
                text_bytes("Value too large"),
            ),
            RequestError::DbNotFound(_) => Response::DbNotFound(text_bytes("Database not found")),
            RequestError::Internal(error) => {
                let mut text = owned("Something went terribly wrong: ");
                text.append(error.as_str());
                Response::InternalError(text_bytes(text.as_str()))
            },
            RequestError::WorkerGone => Response::InternalError(
                text_bytes("Failed to receive response from worker"),
            ),
        }
    }

    /// What the server notes.
    pub fn message(&self) -> (message: String)
        ensures
            message@ == self@.message,
    {
        match self {
            RequestError::InvalidOperation => owned("Invalid operation code"),
            RequestError::EmptyDbName => owned("Database name cannot be empty"),
            RequestError::DbNameTooLong(name) => {
                let mut message = owned("Database name ");
                let name = shown(name.as_slice());
                message.append(name.as_str());
                message.append(" exceeds maximum allowed length of ");
                push_decimal(&mut message, MAX_DB_NAME_LEN as u128);
                message.append(" bytes");
                message
            },
            RequestError::InvalidDbName => owned("Invalid characters in database name"),
            RequestError::EmptyKey => owned("Key cannot be empty"),
            RequestError::KeyTooLarge { size, max } => size_message(
                "Key size ",
                *size,
                " exceeds maximum allowed size of ",
                *max,
            ),
            RequestError::EmptyValue => owned("Value cannot be empty"),
            RequestError::ValueTooLarge { size, max } => size_message(
                "Value size ",
                *size,
                " exceeds maximum allowed size of ",
                *max,
            ),
            RequestError::DbNotFound(name) => {
                let mut message = owned("Database ");
                message.append(name.as_str());
                message.append(" not found");
                message
            },
            RequestError::Internal(error) => {
                let mut message = owned("Internal error: ");
                message.append(error.as_str());
                message
            },
            RequestError::WorkerGone => owned("Failed to receive response from worker"),
        }
    }
}

/// Whether a byte may stand in a database name: an ASCII letter or digit, `_` or `-`.
pub open spec fn name_byte(b: u8) -> bool {
    ||| 48 <= b <= 57
    ||| 65 <= b <= 90
    ||| 97 <= b <= 122
    ||| b == 95
    ||| b == 45
}

/// Why a database name is refused, if it is.
pub open spec fn db_name_refusal(name: Seq<u8>) -> Option<Refusal> {
    if name.len() == 0 {
        Some(empty_db_name())
    } else if name.len() > MAX_DB_NAME_LEN {
        Some(db_name_too_long(name))
    } else if !(forall|i: int| 0 <= i < name.len() ==> name_byte(#[trigger] name[i])) {
        Some(invalid_db_name())
    } else {
        None
    }
}

/// Why a key of this size is refused, if it is.
pub open spec fn key_refusal(size: nat, max: nat) -> Option<Refusal> {
    if size == 0 {
        Some(empty_key())
    } else if size > max {
        Some(key_too_large(size, max))
    } else {
        None
    }
}

/// Why a value of this size is refused, if it is.
pub open spec fn value_refusal(size: nat, max: nat) -> Option<Refusal> {
    if size == 0 {
        Some(empty_value())
    } else if size > max {
        Some(value_too_large(size, max))
    } else {
        None
    }
}

/// The database name that bytes stand for.
pub fn validate_db_name(name_buf: &[u8]) -> (result: Result<String, RequestError>)
    ensures
        match result {
            Ok(name) => db_name_refusal(name_buf@) is None && name@ == decode_utf8(name_buf@),
            Err(error) => db_name_refusal(name_buf@) == Some(error@),
        },
{
    if name_buf.is_empty() {
        return Err(RequestError::EmptyDbName);
    }
    if name_buf.len() > MAX_DB_NAME_LEN {
        return Err(RequestError::DbNameTooLong(vstd::slice::slice_to_vec(name_buf)));
    }
    let mut i: usize = 0;
    while i < name_buf.len()
        invariant
            i <= name_buf.len(),
            0 < name_buf@.len() <= MAX_DB_NAME_LEN,
            forall|j: int| 0 <= j < i ==> name_byte(#[trigger] name_buf@[j]),
        decreases name_buf.len() - i,
    {
        let b = name_buf[i];
        let digit = 48 <= b && b <= 57;
        let letter = (65 <= b && b <= 90) || (97 <= b && b <= 122);
        let underscore_or_hyphen = b == 95 || b == 45;
        if !(digit || letter || underscore_or_hyphen) {
            assert(!name_byte(name_buf@[i as int]));
            return Err(RequestError::InvalidDbName);
        }
        i += 1;
    }
    proof {
        lemma_ascii_is_utf8(name_buf@);
    }
    match utf8_text(name_buf) {
        Some(name) => {
            proof {
                encode_utf8_decode_utf8(name@);
            }
            Ok(owned(name))
        },
        None => Err(RequestError::InvalidDbName),
    }
}

/// Checks the size of a key.
pub fn validate_key(key_size: usize, max_key_size: usize) -> (result: Result<(), RequestError>)
    ensures
        match result {
            Ok(_) => key_refusal(key_size as nat, max_key_size as nat) is None,
            Err(error) => key_refusal(key_size as nat, max_key_size as nat) == Some(error@),
        },
{
    if key_size == 0 {
        return Err(RequestError::EmptyKey);
    }
    if key_size > max_key_size {
        return Err(RequestError::KeyTooLarge { size: key_size, max: max_key_size });
    }
    Ok(())
}

/// Checks the size of a value.
pub fn validate_value(value_size: usize, max_value_size: usize) -> (result: Result<
    (),
    RequestError,
>)
    ensures
        match result {
            Ok(_) => value_refusal(value_size as nat, max_value_size as nat) is None,
            Err(error) => value_refusal(value_size as nat, max_value_size as nat) == Some(error@),
        },
{
    if value_size == 0 {
        return Err(RequestError::EmptyValue);
    }
    if value_size > max_value_size {
        return Err(RequestError::ValueTooLarge { size: value_size, max: max_value_size });
    }
    Ok(())
}

/// What a session waits for.
enum Phase {
    /// The byte of an operation.
    Opcode,
    /// The lengths that follow it.
    Head { op: Operation },
    /// The database name.
    Name { op: Operation, db_name_len: u8, key_size: u32, value_size: u32 },
    /// The key.
    Key { op: Operation, db_name: String, key_size: u32, value_size: u32 },
    /// The value.
    Value { db_name: String, key: Vec<u8>, value_size: u32 },
}

/// What a session waits for.
#[verifier::ext_equal]
pub enum PhaseView {
    Opcode,
    Head { op: Operation },
    Name { op: Operation, db_name_len: u8, key_size: u32, value_size: u32 },
    Key { op: Operation, db_name: Seq<char>, key_size: u32, value_size: u32 },
    Value { db_name: Seq<char>, key: Seq<u8>, value_size: u32 },
}

/// A connection between two reads.
pub struct Session {
    phase: Phase,
}

impl View for Session {
    type V = PhaseView;

    closed spec fn view(&self) -> PhaseView {
        match self.phase {
            Phase::Opcode => PhaseView::Opcode,
            Phase::Head { op } => PhaseView::Head { op },
            Phase::Name { op, db_name_len, key_size, value_size } => PhaseView::Name {
                op,
                db_name_len,
                key_size,
                value_size,
            },
            Phase::Key { op, db_name, key_size, value_size } => PhaseView::Key {
                op,
                db_name: db_name@,
                key_size,
                value_size,
            },
            Phase::Value { db_name, key, value_size } => PhaseView::Value {
                db_name: db_name@,
                key: key@,
                value_size,
            },
        }
    }
}

/// What a client asks for.
pub enum Request {
    Stats,
    Ping,
    Create(String),
    Drop(String),
    Query { db_name: String, query: DatabaseQueryOperation },
}

/// What a client asks for.
#[verifier::ext_equal]
pub enum RequestView {
    Stats,
    Ping,
    Create(Seq<char>),
    Drop(Seq<char>),
    Query(Seq<char>, QueryView),
}

impl View for Request {
    type V = RequestView;

    open spec fn view(&self) -> RequestView {
        match self {
            Request::Stats => RequestView::Stats,
            Request::Ping => RequestView::Ping,
            Request::Create(name) => RequestView::Create(name@),
            Request::Drop(name) => RequestView::Drop(name@),
            Request::Query { db_name, query } => RequestView::Query(db_name@, query@),
        }
    }
}

/// What a session is told.
pub enum SessionEvent {
    /// The bytes that it asked for.
    Received(Vec<u8>),
    /// The stream ended before they were all there.
    EndOfStream,
}

/// What a session wants done next.
pub enum Step {
    /// Read as many bytes as the session wants.
    Read(Session),
    /// Do what is asked for, answer it, and start over.
    Execute(Request),
    /// Tell the client why not, and end the connection with an error.
    Refuse(RequestError),
    /// End the connection.
    Close,
    /// End the connection with the error of the stream.
    Disconnect,
}

/// What a session wants done next.
#[verifier::ext_equal]
pub enum StepView {
    Read(PhaseView),
    Execute(RequestView),
    Refuse(Refusal),
    Close,
    Disconnect,
}

impl View for Step {
    type V = StepView;

    open spec fn view(&self) -> StepView {
        match self {
            Step::Read(session) => StepView::Read(session@),
            Step::Execute(request) => StepView::Execute(request@),
            Step::Refuse(error) => StepView::Refuse(error@),
            Step::Close => StepView::Close,
            Step::Disconnect => StepView::Disconnect,
        }
    }
}

/// Whether a request for an operation names a database.
pub open spec fn has_db(op: Operation) -> bool {
    !(op is Stats || op is Ping || op is Close)
}

/// Whether a request for an operation has a key.
pub open spec fn has_key(op: Operation) -> bool {
    op is Get || op is SetKey || op is Delete
}

/// The number of bytes between the byte of an operation and the database name.
pub open spec fn head_len(op: Operation) -> nat {
    if op is SetKey {
        9
    } else if has_key(op) {
        5
    } else {
        1
    }
}

impl PhaseView {
    /// Whether a session can be in this phase.
    pub open spec fn wf(self) -> bool {
        match self {
            PhaseView::Opcode => true,
            PhaseView::Head { op } => has_db(op),
            PhaseView::Name { op, .. } => has_db(op),
            PhaseView::Key { op, .. } => has_key(op),
            PhaseView::Value { .. } => true,
        }
    }

    /// The number of bytes that the session waits for.
    pub open spec fn wanted(self) -> nat {
        match self {
            PhaseView::Opcode => 1,
            PhaseView::Head { op } => head_len(op),
            PhaseView::Name { db_name_len, .. } => db_name_len as nat,
            PhaseView::Key { key_size, .. } => key_size as nat,
            PhaseView::Value { value_size, .. } => value_size as nat,
        }
    }
}

/// The request for an operation on a database as a whole.
pub open spec fn db_request(op: Operation, db_name: Seq<char>) -> RequestView {
    if op is Create {
        RequestView::Create(db_name)
    } else if op is Drop {
        RequestView::Drop(db_name)
    } else {
        RequestView::Query(db_name, QueryView::Info)
    }
}

/// Why the sizes that a request announces are refused, if they are.
pub open spec fn size_refusal(op: Operation, key_size: nat, value_size: nat, limits: Limits)
    -> Option<Refusal> {
    if has_key(op) && key_refusal(key_size, limits.max_key_size as nat) is Some {
        key_refusal(key_size, limits.max_key_size as nat)
    } else if op is SetKey {
        value_refusal(value_size, limits.max_value_size as nat)
    } else {
        None
    }
}

/// What a session does with the bytes that it waited for.
pub open spec fn received(phase: PhaseView, input: Seq<u8>, limits: Limits) -> StepView {
    match phase {
        PhaseView::Opcode => match operation_of(input[0]) {
            None => StepView::Refuse(invalid_operation()),
            Some(Operation::Stats) => StepView::Execute(RequestView::Stats),
            Some(Operation::Ping) => StepView::Execute(RequestView::Ping),
            Some(Operation::Close) => StepView::Close,
            Some(op) => StepView::Read(PhaseView::Head { op }),
        },
        PhaseView::Head { op } => StepView::Read(
            PhaseView::Name {
                op,
                db_name_len: input[0],
                key_size: if has_key(op) {
                    u32_of_le(input.subrange(1, 5))
                } else {
                    0
                },
                value_size: if op is SetKey {
                    u32_of_le(input.subrange(5, 9))
                } else {
                    0
                },
            },
        ),
        PhaseView::Name { op, db_name_len, key_size, value_size } => {
            let db_name = decode_utf8(input);
            if let Some(refusal) = db_name_refusal(input) {
                StepView::Refuse(refusal)
            } else if let Some(refusal) = size_refusal(
                op,
                key_size as nat,
                value_size as nat,
                limits,
            ) {
                StepView::Refuse(refusal)
            } else if has_key(op) {
                StepView::Read(PhaseView::Key { op, db_name, key_size, value_size })
            } else {
                StepView::Execute(db_request(op, db_name))
            }
        },
        PhaseView::Key { op, db_name, key_size, value_size } => {
            if op is Get {
                StepView::Execute(RequestView::Query(db_name, QueryView::Get(input)))
            } else if op is Delete {
                StepView::Execute(RequestView::Query(db_name, QueryView::Delete(input)))
            } else {
                StepView::Read(PhaseView::Value { db_name, key: input, value_size })
            }
        },
        PhaseView::Value { db_name, key, value_size } => StepView::Execute(
            RequestView::Query(db_name, QueryView::SetKey(key, input)),
        ),
    }
}

/// What a session does on an event.
pub open spec fn next_step(phase: PhaseView, event: SessionEvent, limits: Limits) -> StepView {
    match event {
        SessionEvent::Received(input) => received(phase, input@, limits),
        SessionEvent::EndOfStream => if phase is Opcode {
            StepView::Close
        } else {
            StepView::Disconnect
        },
    }
}

impl Session {
    /// A session that waits for a request.
    pub fn new() -> (session: Self)
        ensures
            session@ == PhaseView::Opcode,
    {
        Session { phase: Phase::Opcode }
    }

    /// The number of bytes that the session waits for.
    pub fn wanted(&self) -> (wanted: usize)
        requires
            self@.wf(),
        ensures
            wanted == self@.wanted(),
    {
        match &self.phase {
            Phase::Opcode => 1,
            Phase::Head { op } => match op {
                Operation::SetKey => 9,
                Operation::Get => 5,
                Operation::Delete => 5,
                _ => 1,
            },
            Phase::Name { db_name_len, .. } => *db_name_len as usize,
            Phase::Key { key_size, .. } => *key_size as usize,
            Phase::Value { value_size, .. } => *value_size as usize,
        }
    }
}

/// Takes note of what came from a client, and says what to do next.
pub fn handle_client(session: Session, event: SessionEvent, limits: Limits) -> (step: Step)
    requires
        session@.wf(),
        event matches SessionEvent::Received(input) ==> input@.len() == session@.wanted(),
    ensures
        step@ == next_step(session@, event, limits),
        step matches Step::Read(session) ==> session@.wf(),
{
    let input = match event {
        SessionEvent::Received(input) => input,
        SessionEvent::EndOfStream => {
            return match session.phase {
                Phase::Opcode => Step::Close,
                _ => Step::Disconnect,
            };
        },
    };
    match session.phase {
        Phase::Opcode => match Operation::from_u8(input[0]) {
            None => Step::Refuse(RequestError::InvalidOperation),
            Some(Operation::Stats) => Step::Execute(Request::Stats),
            Some(Operation::Ping) => Step::Execute(Request::Ping),
            Some(Operation::Close) => Step::Close,
            Some(op) => Step::Read(Session { phase: Phase::Head { op } }),
        },
        Phase::Head { op } => {
            let mut key_size: u32 = 0;
            let mut value_size: u32 = 0;
            match op {
                Operation::Get | Operation::Delete => {
                    key_size = read_u32_le(input.as_slice(), 1);
                },
                Operation::SetKey => {
                    key_size = read_u32_le(input.as_slice(), 1);
                    value_size = read_u32_le(input.as_slice(), 5);
                },
                _ => {},
            }
            Step::Read(
                Session { phase: Phase::Name { op, db_name_len: input[0], key_size, value_size } },
            )
        },
        Phase::Name { op, db_name_len, key_size, value_size } => {
            let db_name = match validate_db_name(input.as_slice()) {
                Ok(name) => name,
                Err(error) => {
                    return Step::Refuse(error);
                },
            };
            match op {
                Operation::Create => {
                    return Step::Execute(Request::Create(db_name));
                },
                Operation::Drop => {
                    return Step::Execute(Request::Drop(db_name));
                },
                Operation::Info => {
                    return Step::Execute(
                        Request::Query { db_name, query: DatabaseQueryOperation::Info },
                    );
                },
                _ => {},
            }
            if let Err(error) = validate_key(key_size as usize, limits.max_key_size) {
                return Step::Refuse(error);
            }
            if let Operation::SetKey = op {
                if let Err(error) = validate_value(value_size as usize, limits.max_value_size) {
                    return Step::Refuse(error);
                }
            }
            Step::Read(Session { phase: Phase::Key { op, db_name, key_size, value_size } })
        },
        Phase::Key { op, db_name, key_size, value_size } => match op {
            Operation::Get => Step::Execute(
                Request::Query { db_name, query: DatabaseQueryOperation::GET { key: input } },
            ),
            Operation::Delete => Step::Execute(
                Request::Query { db_name, query: DatabaseQueryOperation::DELETE { key: input } },
            ),
            _ => Step::Read(Session { phase: Phase::Value { db_name, key: input, value_size } }),
        },
        Phase::Value { db_name, key, value_size } => Step::Execute(
            Request::Query {
                db_name,
                query: DatabaseQueryOperation::SET { key, value: input },
            },
        ),
    }
}

/// The answer to a ping.
pub fn pong() -> (response: Response)
    ensures
        response@ == ResponseView::Pong(encode_utf8("PONG"@)),
{
    Response::Pong(text_bytes("PONG"))
}

/// The answer to a request for statistics: the hours that the server has been up, as
/// the bits of a 64-bit float, the number of databases, cut to 32 bits, and the number
/// of connected clients.
pub fn stats(uptime_bits: u64, db_count: usize, active_connections: u32) -> (response: Response)
    ensures
        response@ == ResponseView::Okay(
            (StatsPacket {
                uptime_bits,
                total_dbs: low_u32(db_count as nat),
                total_active_connections: active_connections,
            }).bytes(),
        ),
{
    let packet = StatsPacket {
        uptime_bits,
        total_dbs: len_u32(db_count),
        total_active_connections: active_connections,
    };
    Response::Okay(packet.to_bytes())
}

/// The worker that a query goes to.
pub fn find_worker(manager: &DbManager, db_name: &str) -> (result: Result<u64, RequestError>)
    ensures
        match result {
            Ok(handle) => manager@.contains_key(db_name@) && handle == manager@[db_name@],
            Err(error) => !manager@.contains_key(db_name@) && error@ == db_not_found(db_name@),
        },
{
    match manager.get_db_handle(db_name) {
        Ok(handle) => Ok(handle),
        Err(_) => Err(RequestError::DbNotFound(owned(db_name))),
    }
}

/// What came back from a worker.
pub enum WorkerReply {
    /// Its answer.
    Answered(Response),
    /// The error that it reports.
    Failed(String),
    /// Nothing: the worker is gone.
    Gone,
}

/// What a client is told about what came back from a worker. After an error the
/// connection ends.
pub fn send_db_result_to_client(reply: WorkerReply) -> (result: Result<Response, RequestError>)
    ensures
        match reply {
            WorkerReply::Answered(answer) => result matches Ok(r) && r@ == answer@,
            WorkerReply::Failed(error) => result matches Err(e) && e@ == internal_error(error@),
            WorkerReply::Gone => result matches Err(e) && e@ == worker_gone(),
        },
{
    match reply {
        WorkerReply::Answered(response) => Ok(response),
        WorkerReply::Failed(error) => Err(RequestError::Internal(error)),
        WorkerReply::Gone => Err(RequestError::WorkerGone),
    }
}

} // verus!
