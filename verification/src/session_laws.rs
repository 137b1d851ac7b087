//! What holds of every connection: the server takes a request for what the client
//! sent, whatever stands behind it, and refuses it for the first reason there is.
use crate::client;
use crate::client::{command_of, CommandView};
use crate::codec::{le_u32, lemma_len_field, low_u32, u32_of_le};
use crate::manager::log_file_of;
use crate::protocol::{
    db_frame, key_frame, law_operation_reads_back, low_u8, operation_of, set_frame, Operation,
};
use crate::server_laws::names_a_file;
use crate::session::{
    db_name_refusal, db_request, has_db, has_key, head_len, invalid_operation, name_byte, received,
    size_refusal, Limits, PhaseView, Refusal, RequestView, StepView,
};
use crate::text::lemma_ascii_is_utf8;
use crate::wal::{Entry, OP_DELETE, OP_SET};
use crate::wal_laws::readable;
use crate::worker::QueryView;
use vstd::prelude::*;
use vstd::utf8::{decode_utf8, encode_utf8, encode_utf8_decode_utf8};

verus! {

/// What becomes of the bytes that a client has sent.
#[verifier::ext_equal]
pub enum Outcome {
    /// The request is not whole yet.
    Incomplete,
    /// The client has closed the connection.
    Closed,
    /// The request is refused.
    Refused(Refusal),
    /// The request is carried out, and these bytes belong to the next one.
    Accepted(RequestView, Seq<u8>),
}

/// How many reads can follow before a request is whole.
pub open spec fn reads_left(phase: PhaseView) -> nat {
    match phase {
        PhaseView::Opcode => 4,
        PhaseView::Head { .. } => 3,
        PhaseView::Name { .. } => 2,
        PhaseView::Key { .. } => 1,
        PhaseView::Value { .. } => 0,
    }
}

/// What a session makes of the bytes that a client has sent, read by read.
pub open spec fn served(phase: PhaseView, input: Seq<u8>, limits: Limits) -> Outcome
    decreases reads_left(phase),
{
    let wanted = phase.wanted() as int;
    if input.len() < wanted {
        Outcome::Incomplete
    } else {
        match received(phase, input.take(wanted), limits) {
            StepView::Read(next) => if reads_left(next) < reads_left(phase) {
                served(next, input.skip(wanted), limits)
            } else {
                Outcome::Incomplete
            },
            StepView::Execute(request) => Outcome::Accepted(request, input.skip(wanted)),
            StepView::Refuse(refusal) => Outcome::Refused(refusal),
            StepView::Close => Outcome::Closed,
            StepView::Disconnect => Outcome::Closed,
        }
    }
}

/// What the protocol makes of the bytes that a client has sent.
///
/// The byte of the operation comes first; the lengths and the database name follow,
/// and then the key and the value. The name is judged as soon as it is there, the
/// sizes after the name, and all of them before a byte of the key is waited for.
pub open spec fn request_of(input: Seq<u8>, limits: Limits) -> Outcome {
    if input.len() == 0 {
        Outcome::Incomplete
    } else {
        match operation_of(input[0]) {
            None => Outcome::Refused(invalid_operation()),
            Some(Operation::Stats) => Outcome::Accepted(RequestView::Stats, input.skip(1)),
            Some(Operation::Ping) => Outcome::Accepted(RequestView::Ping, input.skip(1)),
            Some(Operation::Close) => Outcome::Closed,
            Some(op) => {
                let name_at = 1 + head_len(op) as int;
                let key_at = name_at + input[1];
                let key_size = if has_key(op) {
                    u32_of_le(input.subrange(2, 6)) as int
                } else {
                    0
                };
                let value_size = if op is SetKey {
                    u32_of_le(input.subrange(6, 10)) as int
                } else {
                    0
                };
                let value_at = key_at + key_size;
                let end = value_at + value_size;
                let name = input.subrange(name_at, key_at);
                let key = input.subrange(key_at, value_at);
                let value = input.subrange(value_at, end);
                if input.len() < name_at || input.len() < key_at {
                    Outcome::Incomplete
                } else if let Some(refusal) = db_name_refusal(name) {
                    Outcome::Refused(refusal)
                } else if let Some(refusal) = size_refusal(
                    op,
                    key_size as nat,
                    value_size as nat,
                    limits,
                ) {
                    Outcome::Refused(refusal)
                } else if input.len() < end {
                    Outcome::Incomplete
                } else {
                    Outcome::Accepted(
                        request_with(op, decode_utf8(name), key, value),
                        input.skip(end),
                    )
                }
            },
        }
    }
}

/// The request with these parts.
pub open spec fn request_with(
    op: Operation,
    db_name: Seq<char>,
    key: Seq<u8>,
    value: Seq<u8>,
) -> RequestView {
    if op is Get {
        RequestView::Query(db_name, QueryView::Get(key))
    } else if op is SetKey {
        RequestView::Query(db_name, QueryView::SetKey(key, value))
    } else if op is Delete {
        RequestView::Query(db_name, QueryView::Delete(key))
    } else {
        db_request(op, db_name)
    }
}

/// A session, read by read, takes the bytes of a client for what the protocol says.
pub proof fn law_session_follows_protocol(input: Seq<u8>, limits: Limits)
    ensures
        served(PhaseView::Opcode, input, limits) == request_of(input, limits),
{
    reveal_with_fuel(served, 6);
    if input.len() > 0 {
        let first = input.take(1);
        assert(first[0] == input[0]);
        if let Some(op) = operation_of(input[0]) {
            if has_db(op) {
                lemma_served_head(op, input, limits);
            }
        }
    }
}

proof fn lemma_served_head(op: Operation, input: Seq<u8>, limits: Limits)
    requires
        input.len() > 0,
        operation_of(input[0]) == Some(op),
        has_db(op),
    ensures
        served(PhaseView::Head { op }, input.skip(1), limits) == request_of(input, limits),
{
    let rest = input.skip(1);
    let head = head_len(op) as int;
    let name_at = 1 + head;
    if rest.len() >= head {
        let taken = rest.take(head);
        assert(taken[0] == input[1]);
        if has_key(op) {
            assert(taken.subrange(1, 5) =~= input.subrange(2, 6));
        }
        if op is SetKey {
            assert(taken.subrange(5, 9) =~= input.subrange(6, 10));
        }
        let key_size = if has_key(op) {
            u32_of_le(input.subrange(2, 6))
        } else {
            0
        };
        let value_size = if op is SetKey {
            u32_of_le(input.subrange(6, 10))
        } else {
            0
        };
        assert(rest.skip(head) =~= input.skip(name_at));
        lemma_served_name(op, input, key_size, value_size, limits);
    }
}

proof fn lemma_served_name(
    op: Operation,
    input: Seq<u8>,
    key_size: u32,
    value_size: u32,
    limits: Limits,
)
    requires
        operation_of(input[0]) == Some(op),
        has_db(op),
        input.len() >= 1 + head_len(op),
        key_size == (if has_key(op) {
            u32_of_le(input.subrange(2, 6))
        } else {
            0
        }),
        value_size == (if op is SetKey {
            u32_of_le(input.subrange(6, 10))
        } else {
            0
        }),
    ensures
        served(
            PhaseView::Name { op, db_name_len: input[1], key_size, value_size },
            input.skip(1 + head_len(op) as int),
            limits,
        ) == request_of(input, limits),
{
    reveal_with_fuel(served, 4);
    let name_at = 1 + head_len(op) as int;
    let key_at = name_at + input[1];
    let value_at = key_at + key_size;
    let end = value_at + value_size;
    let rest = input.skip(name_at);
    if rest.len() >= input[1] {
        let name = rest.take(input[1] as int);
        assert(name =~= input.subrange(name_at, key_at));
        let tail = rest.skip(input[1] as int);
        assert(tail =~= input.skip(key_at));
        if has_key(op) {
            if tail.len() >= key_size {
                assert(tail.take(key_size as int) =~= input.subrange(key_at, value_at));
                assert(tail.skip(key_size as int) =~= input.skip(value_at));
                if op is SetKey {
                    if input.len() >= end {
                        let last = input.skip(value_at);
                        assert(last.take(value_size as int) =~= input.subrange(value_at, end));
                        assert(last.skip(value_size as int) =~= input.skip(end));
                    }
                }
            }
        }
    }
}

/// What becomes of a whole request with these parts, with `rest` behind it.
pub open spec fn judged(
    op: Operation,
    db_name: Seq<char>,
    key: Seq<u8>,
    value: Seq<u8>,
    rest: Seq<u8>,
    limits: Limits,
) -> Outcome {
    if let Some(refusal) = db_name_refusal(encode_utf8(db_name)) {
        Outcome::Refused(refusal)
    } else if let Some(refusal) = size_refusal(op, key.len(), value.len(), limits) {
        Outcome::Refused(refusal)
    } else {
        Outcome::Accepted(request_with(op, db_name, key, value), rest)
    }
}

/// Whether `input` is a whole request with these parts, with `rest` behind it.
pub open spec fn holds_request(
    input: Seq<u8>,
    op: Operation,
    name: Seq<u8>,
    key: Seq<u8>,
    value: Seq<u8>,
    rest: Seq<u8>,
) -> bool {
    let name_at = 1 + head_len(op) as int;
    let key_at = name_at + name.len();
    let value_at = key_at + key.len();
    let end = value_at + value.len();
    &&& input.len() == end + rest.len()
    &&& input[0] == op.code()
    &&& input[1] == name.len()
    &&& has_key(op) ==> u32_of_le(input.subrange(2, 6)) == key.len()
    &&& op is SetKey ==> u32_of_le(input.subrange(6, 10)) == value.len()
    &&& !has_key(op) ==> key.len() == 0
    &&& !(op is SetKey) ==> value.len() == 0
    &&& input.subrange(name_at, key_at) == name
    &&& input.subrange(key_at, value_at) == key
    &&& input.subrange(value_at, end) == value
    &&& input.skip(end) == rest
}

pub proof fn lemma_whole_request(
    input: Seq<u8>,
    op: Operation,
    db_name: Seq<char>,
    key: Seq<u8>,
    value: Seq<u8>,
    rest: Seq<u8>,
    limits: Limits,
)
    requires
        has_db(op),
        holds_request(input, op, encode_utf8(db_name), key, value, rest),
    ensures
        served(PhaseView::Opcode, input, limits) == judged(op, db_name, key, value, rest, limits),
{
    law_session_follows_protocol(input, limits);
    law_operation_reads_back(op, 0);
    encode_utf8_decode_utf8(db_name);
}

/// What a client sends for a database as a whole is what the server carries out, unless
/// the name is refused.
pub proof fn law_db_request_is_understood(
    op: Operation,
    db_name: Seq<char>,
    rest: Seq<u8>,
    limits: Limits,
)
    requires
        has_db(op),
        !has_key(op),
        encode_utf8(db_name).len() <= u8::MAX,
    ensures
        served(PhaseView::Opcode, db_frame(op, encode_utf8(db_name)) + rest, limits) == judged(
            op,
            db_name,
            Seq::empty(),
            Seq::empty(),
            rest,
            limits,
        ),
{
    let name = encode_utf8(db_name);
    let input = db_frame(op, name) + rest;
    let end = 2 + name.len() as int;
    assert(input.subrange(2, end) =~= name);
    assert(input.subrange(end, end) =~= Seq::empty());
    assert(input.skip(end) =~= rest);
    assert(holds_request(input, op, name, Seq::empty(), Seq::empty(), rest));
    lemma_whole_request(input, op, db_name, Seq::empty(), Seq::empty(), rest, limits);
}

/// What a client sends for a key is what the server carries out, unless the name or the
/// key is refused.
pub proof fn law_key_request_is_understood(
    op: Operation,
    db_name: Seq<char>,
    key: Seq<u8>,
    rest: Seq<u8>,
    limits: Limits,
)
    requires
        op is Get || op is Delete,
        encode_utf8(db_name).len() <= u8::MAX,
        key.len() <= u32::MAX,
    ensures
        served(PhaseView::Opcode, key_frame(op, encode_utf8(db_name), key) + rest, limits)
            == judged(op, db_name, key, Seq::empty(), rest, limits),
{
    let name = encode_utf8(db_name);
    let input = key_frame(op, name, key) + rest;
    lemma_len_field(key.len());
    let key_at = 6 + name.len() as int;
    let end = key_at + key.len();
    assert(input.subrange(2, 6) =~= le_u32(low_u32(key.len())));
    assert(input.subrange(6, key_at) =~= name);
    assert(input.subrange(key_at, end) =~= key);
    assert(input.subrange(end, end) =~= Seq::empty());
    assert(input.skip(end) =~= rest);
    assert(holds_request(input, op, name, key, Seq::empty(), rest));
    lemma_whole_request(input, op, db_name, key, Seq::empty(), rest, limits);
}

/// What a client sends to set a key is what the server carries out, unless the name, the
/// key or the value is refused.
pub proof fn law_set_request_is_understood(
    db_name: Seq<char>,
    key: Seq<u8>,
    value: Seq<u8>,
    rest: Seq<u8>,
    limits: Limits,
)
    requires
        encode_utf8(db_name).len() <= u8::MAX,
        key.len() <= u32::MAX,
        value.len() <= u32::MAX,
    ensures
        served(PhaseView::Opcode, set_frame(encode_utf8(db_name), key, value) + rest, limits)
            == judged(Operation::SetKey, db_name, key, value, rest, limits),
{
    let name = encode_utf8(db_name);
    let start = seq![Operation::SetKey.code(), low_u8(name.len())];
    let key_size = le_u32(low_u32(key.len()));
    let value_size = le_u32(low_u32(value.len()));
    lemma_len_field(key.len());
    lemma_len_field(value.len());
    lemma_set_layout(start, key_size, value_size, name, key, value, rest);
    lemma_whole_request(
        set_frame(name, key, value) + rest,
        Operation::SetKey,
        db_name,
        key,
        value,
        rest,
        limits,
    );
}

/// Where the parts of a request to set a key stand.
proof fn lemma_set_layout(
    start: Seq<u8>,
    key_size: Seq<u8>,
    value_size: Seq<u8>,
    name: Seq<u8>,
    key: Seq<u8>,
    value: Seq<u8>,
    rest: Seq<u8>,
)
    requires
        start.len() == 2,
        start[0] == Operation::SetKey.code(),
        start[1] == name.len(),
        key_size.len() == 4,
        u32_of_le(key_size) == key.len(),
        value_size.len() == 4,
        u32_of_le(value_size) == value.len(),
    ensures
        holds_request(
            start + key_size + value_size + name + key + value + rest,
            Operation::SetKey,
            name,
            key,
            value,
            rest,
        ),
{
    let input = start + key_size + value_size + name + key + value + rest;
    let key_at = 10 + name.len() as int;
    let value_at = key_at + key.len();
    assert(input.subrange(2, 6) =~= key_size);
    assert(input.subrange(6, 10) =~= value_size);
    assert(input.subrange(10, key_at) =~= name);
    assert(input.subrange(key_at, value_at) =~= key);
    assert(input.subrange(value_at, value_at + value.len()) =~= value);
    assert(input.skip(value_at + value.len()) =~= rest);
}

/// What a client sends without parts is what the server carries out.
pub proof fn law_short_request_is_understood(op: Operation, rest: Seq<u8>, limits: Limits)
    requires
        !has_db(op),
    ensures
        served(PhaseView::Opcode, seq![op.code()] + rest, limits) == (match op {
            Operation::Stats => Outcome::Accepted(RequestView::Stats, rest),
            Operation::Ping => Outcome::Accepted(RequestView::Ping, rest),
            _ => Outcome::Closed,
        }),
{
    let input = seq![op.code()] + rest;
    law_session_follows_protocol(input, limits);
    law_operation_reads_back(op, 0);
    assert(input.skip(1) =~= rest);
}

/// What becomes of the request that a command sends, with `rest` behind it.
pub open spec fn command_outcome(
    command: CommandView,
    current_db: Seq<char>,
    rest: Seq<u8>,
    limits: Limits,
) -> Outcome {
    let none = Seq::<u8>::empty();
    match command {
        CommandView::Ping => Outcome::Accepted(RequestView::Ping, rest),
        CommandView::Stats => Outcome::Accepted(RequestView::Stats, rest),
        CommandView::Get(key) => judged(Operation::Get, current_db, key, none, rest, limits),
        CommandView::Put(key, value) => judged(
            Operation::SetKey,
            current_db,
            key,
            value,
            rest,
            limits,
        ),
        CommandView::Delete(key) => judged(Operation::Delete, current_db, key, none, rest, limits),
        CommandView::Create(name) => judged(Operation::Create, name, none, none, rest, limits),
        CommandView::Info(name) => judged(Operation::Info, name, none, none, rest, limits),
        CommandView::Drop(name) => judged(Operation::Drop, name, none, none, rest, limits),
        _ => Outcome::Closed,
    }
}

/// What is typed into the client is what the server carries out, unless it refuses the
/// name, the key or the value.
pub proof fn law_typed_command_is_understood(
    input: Seq<char>,
    current_db: Seq<char>,
    rest: Seq<u8>,
    limits: Limits,
)
    requires
        client::request_of(command_of(input, current_db), current_db) is Some,
        encode_utf8(current_db).len() <= u8::MAX,
        match command_of(input, current_db) {
            CommandView::Get(key) => key.len() <= u32::MAX,
            CommandView::Delete(key) => key.len() <= u32::MAX,
            CommandView::Put(key, value) => key.len() <= u32::MAX && value.len() <= u32::MAX,
            _ => true,
        },
    ensures
        served(
            PhaseView::Opcode,
            client::request_of(command_of(input, current_db), current_db)->0 + rest,
            limits,
        ) == command_outcome(command_of(input, current_db), current_db, rest, limits),
{
    match command_of(input, current_db) {
        CommandView::Quit => law_short_request_is_understood(Operation::Close, rest, limits),
        CommandView::Ping => law_short_request_is_understood(Operation::Ping, rest, limits),
        CommandView::Stats => law_short_request_is_understood(Operation::Stats, rest, limits),
        CommandView::Get(key) => law_key_request_is_understood(
            Operation::Get,
            current_db,
            key,
            rest,
            limits,
        ),
        CommandView::Put(key, value) => law_set_request_is_understood(
            current_db,
            key,
            value,
            rest,
            limits,
        ),
        CommandView::Delete(key) => law_key_request_is_understood(
            Operation::Delete,
            current_db,
            key,
            rest,
            limits,
        ),
        CommandView::Create(name) => law_db_request_is_understood(
            Operation::Create,
            name,
            rest,
            limits,
        ),
        CommandView::Info(name) => law_db_request_is_understood(
            Operation::Info,
            name,
            rest,
            limits,
        ),
        CommandView::Drop(name) => law_db_request_is_understood(
            Operation::Drop,
            name,
            rest,
            limits,
        ),
        _ => {},
    }
}

/// A request that is carried out keeps to the limits of the server and names its
/// database by a name that is allowed; the change that it asks for can be logged and
/// read back.
pub proof fn law_accepted_request_is_valid(input: Seq<u8>, limits: Limits)
    ensures
        served(PhaseView::Opcode, input, limits) matches Outcome::Accepted(
            RequestView::Query(db_name, query),
            _,
        ) ==> {
            &&& exists|name: Seq<u8>|
                db_name_refusal(name) is None && db_name == #[trigger] decode_utf8(name)
            &&& match query {
                QueryView::Info => true,
                QueryView::Get(key) => 0 < key.len() <= limits.max_key_size,
                QueryView::Delete(key) => {
                    &&& 0 < key.len() <= limits.max_key_size
                    &&& readable(Entry { op: OP_DELETE, key, value: Seq::empty() })
                },
                QueryView::SetKey(key, value) => {
                    &&& 0 < key.len() <= limits.max_key_size
                    &&& 0 < value.len() <= limits.max_value_size
                    &&& readable(Entry { op: OP_SET, key, value })
                },
            }
        },
{
    law_session_follows_protocol(input, limits);
}

/// A database name that is allowed is a file name: with the ending of a log behind it,
/// it names a file of the log directory and nothing outside it.
pub proof fn law_valid_name_is_file_name(name: Seq<u8>)
    requires
        db_name_refusal(name) is None,
    ensures
        ({
            let file_name = log_file_of(decode_utf8(name));
            &&& names_a_file(decode_utf8(name))
            &&& file_name.len() == name.len() + 4
            &&& forall|i: int|
                0 <= i < file_name.len() ==> #[trigger] file_name[i] != '/' && file_name[i] != '\\'
                    && file_name[i] != ':' && file_name[i] != '\0'
            &&& forall|i: int| 0 <= i < name.len() ==> #[trigger] file_name[i] != '.'
        }),
{
    reveal_strlit(".log");
    lemma_ascii_is_utf8(name);
    let chars = decode_utf8(name);
    let file_name = log_file_of(chars);
    assert forall|i: int| 0 <= i < name.len() implies name_byte(name[i]) && #[trigger] file_name[i]
        == name[i] as char by {
        assert(name_byte(name[i]));
        assert(file_name[i] == chars[i]);
    }
    assert forall|i: int| 0 <= i < chars.len() implies #[trigger] chars[i] != '/' && chars[i]
        != '\\' && chars[i] != ':' by {
        assert(name_byte(name[i]));
    }
}

} // verus!
