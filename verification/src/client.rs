//! The client: what a line of input asks for, and how an answer reads.
use crate::format::{fmt_bytes, size_text};
use crate::protocol::{
    db_frame, key_frame, send_close, send_create, send_delete, send_drop, send_get, send_info,
    send_ping, send_set, send_stats, set_frame, InfoPacket, Operation, Response, ResponseView,
    StatsPacket,
};
use crate::text::{
    capitals, capitals_of, decimal, owned, push_decimal, same_text, shown, shown_text, text_bytes,
    trim, trimmed,
};
use vstd::prelude::*;
use vstd::string::{StrSliceExecFns, StringExecFns};
use vstd::utf8::encode_utf8;

verus! {

/// The longest database name that fits the byte that a request has for its length.
pub const MAX_SENT_DB_NAME_LEN: usize = 255;

/// What a line of input asks for.
#[derive(Debug)]
pub enum Command {
    /// Nothing.
    Empty,
    Quit,
    Ping,
    Stats,
    Get { key: Vec<u8> },
    Put { key: Vec<u8>, value: Vec<u8> },
    Delete { key: Vec<u8> },
    Create { db_name: String },
    Info { db_name: String },
    Drop { db_name: String },
    /// Work on another database from now on.
    Use { db_name: String },
    /// The command lacks a part; this is how it is used.
    Usage { text: String },
    /// The database name does not fit a request.
    DbNameTooLong,
    /// There is no such command.
    Unknown { word: String },
}

/// What a line of input asks for.
#[verifier::ext_equal]
pub enum CommandView {
    Empty,
    Quit,
    Ping,
    Stats,
    Get(Seq<u8>),
    Put(Seq<u8>, Seq<u8>),
    Delete(Seq<u8>),
    Create(Seq<char>),
    Info(Seq<char>),
    Drop(Seq<char>),
    Use(Seq<char>),
    Usage(Seq<char>),
    DbNameTooLong,
    Unknown(Seq<char>),
}

impl View for Command {
    type V = CommandView;

    open spec fn view(&self) -> CommandView {
        match self {
            Command::Empty => CommandView::Empty,
            Command::Quit => CommandView::Quit,
            Command::Ping => CommandView::Ping,
            Command::Stats => CommandView::Stats,
            Command::Get { key } => CommandView::Get(key@),
            Command::Put { key, value } => CommandView::Put(key@, value@),
            Command::Delete { key } => CommandView::Delete(key@),
            Command::Create { db_name } => CommandView::Create(db_name@),
            Command::Info { db_name } => CommandView::Info(db_name@),
            Command::Drop { db_name } => CommandView::Drop(db_name@),
            Command::Use { db_name } => CommandView::Use(db_name@),
            Command::Usage { text } => CommandView::Usage(text@),
            Command::DbNameTooLong => CommandView::DbNameTooLong,
            Command::Unknown { word } => CommandView::Unknown(word@),
        }
    }
}

/// Where the first space of a text stands from `from` on, or the end of the text.
pub open spec fn space_at(text: Seq<char>, from: int) -> int
    decreases text.len() - from,
{
    if from >= text.len() {
        text.len() as int
    } else if text[from] == ' ' {
        from
    } else {
        space_at(text, from + 1)
    }
}

/// What stands before the first space of a text.
pub open spec fn before_space(text: Seq<char>) -> Seq<char> {
    text.take(space_at(text, 0))
}

/// What stands behind the first space of a text, if it has one.
pub open spec fn behind_space(text: Seq<char>) -> Option<Seq<char>> {
    let at = space_at(text, 0);
    if at < text.len() {
        Some(text.skip(at + 1))
    } else {
        None
    }
}

/// A database name, unless it does not fit a request.
pub open spec fn named(db_name: Seq<char>, command: CommandView) -> CommandView {
    if encode_utf8(db_name).len() > MAX_SENT_DB_NAME_LEN {
        CommandView::DbNameTooLong
    } else {
        command
    }
}

/// What a command asks for: `upper` is its word in capitals, `word` the word as it was
/// written, `rest` what stands behind the word.
pub open spec fn meaning(
    upper: Seq<char>,
    word: Seq<char>,
    rest: Option<Seq<char>>,
    current_db: Seq<char>,
) -> CommandView {
    let first = match rest {
        Some(rest) => Some(before_space(rest)),
        None => None,
    };
    let second = match rest {
        Some(rest) => behind_space(rest),
        None => None,
    };
    if upper == "QUIT"@ {
        CommandView::Quit
    } else if upper == "PING"@ {
        CommandView::Ping
    } else if upper == "STATS"@ {
        CommandView::Stats
    } else if upper == "GET"@ {
        match first {
            Some(key) => CommandView::Get(encode_utf8(key)),
            None => CommandView::Usage("Usage: GET <key>"@),
        }
    } else if upper == "SET"@ {
        match (first, second) {
            (Some(key), Some(value)) => CommandView::Put(encode_utf8(key), encode_utf8(value)),
            _ => CommandView::Usage("Usage: SET <key> <value>"@),
        }
    } else if upper == "DEL"@ {
        match first {
            Some(key) => CommandView::Delete(encode_utf8(key)),
            None => CommandView::Usage("Usage: DEL <key>"@),
        }
    } else if upper == "CREATE"@ {
        match first {
            Some(name) => named(name, CommandView::Create(name)),
            None => CommandView::Usage("Usage: CREATE <db_name>"@),
        }
    } else if upper == "INFO"@ {
        match first {
            Some(name) => named(name, CommandView::Info(name)),
            None => named(current_db, CommandView::Info(current_db)),
        }
    } else if upper == "DROP"@ {
        match first {
            Some(name) => named(name, CommandView::Drop(name)),
            None => CommandView::Usage("Usage: DROP <db_name>"@),
        }
    } else if upper == "USE"@ {
        match first {
            Some(name) => CommandView::Use(name),
            None => CommandView::Usage("Usage: USE <db_name>"@),
        }
    } else {
        CommandView::Unknown(word)
    }
}

/// What a line of input, without the white space around it, asks for.
pub open spec fn command_of(input: Seq<char>, current_db: Seq<char>) -> CommandView {
    if input.len() == 0 {
        CommandView::Empty
    } else {
        meaning(
            capitals_of(before_space(input)),
            before_space(input),
            behind_space(input),
            current_db,
        )
    }
}

/// Splits a text at its first space.
pub fn split_word(text: &str) -> (parts: (&str, Option<&str>))
    ensures
        parts.0@ == before_space(text@),
        match parts.1 {
            Some(rest) => behind_space(text@) == Some(rest@),
            None => behind_space(text@) is None,
        },
{
    let len = text.unicode_len();
    let mut at: usize = 0;
    while at < len && text.get_char(at) != ' '
        invariant
            len == text@.len(),
            at <= len,
            space_at(text@, 0) == space_at(text@, at as int),
        decreases len - at,
    {
        at += 1;
    }
    let word = text.substring_char(0, at);
    assert(text@.subrange(0, at as int) =~= text@.take(at as int));
    if at < len {
        let rest = text.substring_char(at + 1, len);
        assert(text@.subrange(at + 1, len as int) =~= text@.skip(at + 1));
        (word, Some(rest))
    } else {
        (word, None)
    }
}

/// What a line of input asks for.
pub fn read_command(line: &str, current_db: &str) -> (command: Command)
    ensures
        command@ == command_of(trimmed(line@), current_db@),
{
    let input = trim(line);
    if input.is_empty() {
        return Command::Empty;
    }
    let (word, rest) = split_word(input);
    let upper = capitals(word);
    interpret(upper.as_str(), word, rest, current_db)
}

/// Whether a database name fits a request.
fn fits_request(db_name: &str) -> (fits: bool)
    ensures
        fits == (encode_utf8(db_name@).len() <= MAX_SENT_DB_NAME_LEN),
{
    db_name.as_bytes().len() <= MAX_SENT_DB_NAME_LEN
}

/// What a command asks for: `upper` is its word in capitals, `word` the word as it was
/// written, `rest` what stands behind the word.
pub fn interpret(upper: &str, word: &str, rest: Option<&str>, current_db: &str) -> (command:
    Command)
    ensures
        command@ == meaning(
            upper@,
            word@,
            match rest {
                Some(rest) => Some(rest@),
                None => None,
            },
            current_db@,
        ),
{
    let (first, second): (Option<&str>, Option<&str>) = match rest {
        Some(rest) => {
            let (first, second) = split_word(rest);
            (Some(first), second)
        },
        None => (None, None),
    };
    if same_text(upper, "QUIT") {
        Command::Quit
    } else if same_text(upper, "PING") {
        Command::Ping
    } else if same_text(upper, "STATS") {
        Command::Stats
    } else if same_text(upper, "GET") {
        match first {
            Some(key) => Command::Get { key: text_bytes(key) },
            None => Command::Usage { text: owned("Usage: GET <key>") },
        }
    } else if same_text(upper, "SET") {
        match (first, second) {
            (Some(key), Some(value)) => Command::Put {
                key: text_bytes(key),
                value: text_bytes(value),
            },
            _ => Command::Usage { text: owned("Usage: SET <key> <value>") },
        }
    } else if same_text(upper, "DEL") {
        match first {
            Some(key) => Command::Delete { key: text_bytes(key) },
            None => Command::Usage { text: owned("Usage: DEL <key>") },
        }
    } else if same_text(upper, "CREATE") {
        match first {
            Some(name) => if fits_request(name) {
                Command::Create { db_name: owned(name) }
            } else {
                Command::DbNameTooLong
            },
            None => Command::Usage { text: owned("Usage: CREATE <db_name>") },
        }
    } else if same_text(upper, "INFO") {
        let name = match first {
            Some(name) => name,
            None => current_db,
        };
        if fits_request(name) {
            Command::Info { db_name: owned(name) }
        } else {
            Command::DbNameTooLong
        }
    } else if same_text(upper, "DROP") {
        match first {
            Some(name) => if fits_request(name) {
                Command::Drop { db_name: owned(name) }
            } else {
                Command::DbNameTooLong
            },
            None => Command::Usage { text: owned("Usage: DROP <db_name>") },
        }
    } else if same_text(upper, "USE") {
        match first {
            Some(name) => Command::Use { db_name: owned(name) },
            None => Command::Usage { text: owned("Usage: USE <db_name>") },
        }
    } else {
        Command::Unknown { word: owned(word) }
    }
}

/// The request that a command sends to the server, if it sends one.
pub open spec fn request_of(command: CommandView, current_db: Seq<char>) -> Option<Seq<u8>> {
    let db = encode_utf8(current_db);
    match command {
        CommandView::Quit => Some(seq![Operation::Close.code()]),
        CommandView::Ping => Some(seq![Operation::Ping.code()]),
        CommandView::Stats => Some(seq![Operation::Stats.code()]),
        CommandView::Get(key) => Some(key_frame(Operation::Get, db, key)),
        CommandView::Put(key, value) => Some(set_frame(db, key, value)),
        CommandView::Delete(key) => Some(key_frame(Operation::Delete, db, key)),
        CommandView::Create(name) => Some(db_frame(Operation::Create, encode_utf8(name))),
        CommandView::Info(name) => Some(db_frame(Operation::Info, encode_utf8(name))),
        CommandView::Drop(name) => Some(db_frame(Operation::Drop, encode_utf8(name))),
        _ => None,
    }
}

/// The request that a command sends to the server, if it sends one.
pub fn request(command: &Command, current_db: &str) -> (request: Option<Vec<u8>>)
    ensures
        match request {
            Some(bytes) => request_of(command@, current_db@) == Some(bytes@),
            None => request_of(command@, current_db@) is None,
        },
{
    let mut out: Vec<u8> = Vec::new();
    match command {
        Command::Quit => send_close(&mut out),
        Command::Ping => send_ping(&mut out),
        Command::Stats => send_stats(&mut out),
        Command::Get { key } => send_get(&mut out, current_db, key.as_slice()),
        Command::Put { key, value } => send_set(
            &mut out,
            current_db,
            key.as_slice(),
            value.as_slice(),
        ),
        Command::Delete { key } => send_delete(&mut out, current_db, key.as_slice()),
        Command::Create { db_name } => send_create(&mut out, db_name.as_str()),
        Command::Info { db_name } => send_info(&mut out, db_name.as_str()),
        Command::Drop { db_name } => send_drop(&mut out, db_name.as_str()),
        _ => return None,
    }
    assert forall|sent: Seq<u8>| #[trigger] (Seq::<u8>::empty() + sent) == sent by {
        assert(Seq::<u8>::empty() + sent =~= sent);
    }
    Some(out)
}

/// The lines that answer a command without the server.
pub open spec fn local_answer(command: CommandView) -> Seq<Seq<char>> {
    match command {
        CommandView::Use(name) => seq!["Switched to database '"@ + name + "'"@],
        CommandView::Usage(text) => seq![text],
        CommandView::DbNameTooLong => seq!["Error: db_name must be at most 255 bytes"@],
        CommandView::Unknown(word) => seq![
            "Unknown command: "@ + word,
            "Commands: GET | SET | DEL | PING | STATS | CREATE | INFO | DROP | USE | QUIT"@,
        ],
        _ => seq![],
    }
}

/// The lines that answer a command without the server.
pub fn answer_locally(command: &Command) -> (lines: Vec<String>)
    ensures
        lines@.map_values(|l: String| l@) == local_answer(command@),
{
    let mut lines: Vec<String> = Vec::new();
    match command {
        Command::Use { db_name } => {
            let mut line = owned("Switched to database '");
            line.append(db_name.as_str());
            line.append("'");
            lines.push(line);
        },
        Command::Usage { text } => lines.push(owned(text.as_str())),
        Command::DbNameTooLong => lines.push(owned("Error: db_name must be at most 255 bytes")),
        Command::Unknown { word } => {
            let mut line = owned("Unknown command: ");
            line.append(word.as_str());
            lines.push(line);
            lines.push(
                owned(
                    "Commands: GET | SET | DEL | PING | STATS | CREATE | INFO | DROP | USE | QUIT",
                ),
            );
        },
        _ => {},
    }
    assert(lines@.map_values(|l: String| l@) =~= local_answer(command@));
    lines
}

/// How an answer reads.
pub open spec fn response_text(response: ResponseView) -> Seq<char> {
    let text = shown_text(response.payload());
    match response {
        ResponseView::Okay(_) => if text.len() == 0 {
            "OK"@
        } else {
            text
        },
        ResponseView::Pong(_) => "Pong"@,
        ResponseView::KeyValue(_) => "\""@ + text + "\""@,
        ResponseView::KeyNotFound(_) => "(n/a) "@ + text,
        _ => "Error: "@ + text,
    }
}

/// How an answer reads.
pub fn print_response(response: &Response) -> (line: String)
    ensures
        line@ == response_text(response@),
{
    let (_, payload) = response.code_and_payload();
    let text = shown(payload);
    match response {
        Response::Okay(_) => if text.as_str().is_empty() {
            owned("OK")
        } else {
            text
        },
        Response::Pong(_) => owned("Pong"),
        Response::KeyValue(_) => {
            let mut line = owned("\"");
            line.append(text.as_str());
            line.append("\"");
            line
        },
        Response::KeyNotFound(_) => {
            let mut line = owned("(n/a) ");
            line.append(text.as_str());
            line
        },
        _ => {
            let mut line = owned("Error: ");
            line.append(text.as_str());
            line
        },
    }
}

/// A label, a number and its unit.
fn number_line(label: &str, n: u32, unit: &str) -> (line: String)
    ensures
        line@ == label@ + decimal(n as nat) + unit@,
{
    let mut line = owned(label);
    push_decimal(&mut line, n as u128);
    line.append(unit);
    line
}

/// A label and a size.
fn size_line(label: &str, size: u32) -> (line: String)
    ensures
        line@ == label@ + size_text(size as nat),
{
    let mut line = owned(label);
    let text = fmt_bytes(size as usize);
    line.append(text.as_str());
    line
}

/// What an answer tells about a database or about the server.
#[derive(Debug)]
pub enum Report {
    /// These lines, below a heading.
    Lines { lines: Vec<String> },
    /// The answer carries no packet: it reads like any other.
    Line { line: String },
    /// The answer is cut short.
    Malformed,
}

/// What an answer tells about a database or about the server.
#[verifier::ext_equal]
pub enum ReportView {
    Lines(Seq<Seq<char>>),
    Line(Seq<char>),
    Malformed,
}

impl View for Report {
    type V = ReportView;

    open spec fn view(&self) -> ReportView {
        match self {
            Report::Lines { lines } => ReportView::Lines(lines@.map_values(|l: String| l@)),
            Report::Line { line } => ReportView::Line(line@),
            Report::Malformed => ReportView::Malformed,
        }
    }
}

/// The lines that tell about a database.
pub open spec fn info_lines(info: InfoPacket) -> Seq<Seq<char>> {
    seq![
        "  keys:             "@ + decimal(info.key_count as nat) + ""@,
        "  size on disk:     "@ + size_text(info.size_on_disk as nat),
        "  size in memory:   "@ + size_text(info.size_in_memory as nat),
        "  key size (min):   "@ + decimal(info.min_key_size as nat) + " bytes"@,
        "  key size (mean):  "@ + decimal(info.mean_key_size as nat) + " bytes"@,
        "  key size (max):   "@ + decimal(info.max_key_size as nat) + " bytes"@,
    ]
}

/// Whether `report` is what an answer to a request for information tells.
pub open spec fn reports_info(response: ResponseView, report: ReportView) -> bool {
    match response {
        ResponseView::Okay(payload) => if payload.len() < 24 {
            report == ReportView::Malformed
        } else {
            exists|info: InfoPacket| #[trigger]
                info.bytes() == payload.take(24) && report == ReportView::Lines(info_lines(info))
        },
        _ => report == ReportView::Line(response_text(response)),
    }
}

/// What an answer to a request for information tells.
pub fn print_info_response(response: &Response) -> (report: Report)
    ensures
        reports_info(response@, report@),
{
    if let Response::Okay(payload) = response {
        match InfoPacket::from_bytes(payload.as_slice()) {
            Some(info) => {
                let mut lines: Vec<String> = Vec::new();
                lines.push(number_line("  keys:             ", info.key_count, ""));
                lines.push(size_line("  size on disk:     ", info.size_on_disk));
                lines.push(size_line("  size in memory:   ", info.size_in_memory));
                lines.push(number_line("  key size (min):   ", info.min_key_size, " bytes"));
                lines.push(number_line("  key size (mean):  ", info.mean_key_size, " bytes"));
                lines.push(number_line("  key size (max):   ", info.max_key_size, " bytes"));
                assert(lines@.map_values(|l: String| l@) =~= info_lines(info));
                Report::Lines { lines }
            },
            None => Report::Malformed,
        }
    } else {
        Report::Line { line: print_response(response) }
    }
}

/// The lines that tell about the server, below the one that tells how long it has been
/// up.
pub open spec fn stats_lines(stats: StatsPacket) -> Seq<Seq<char>> {
    seq![
        "  databases:        "@ + decimal(stats.total_dbs as nat) + ""@,
        "  active conns:     "@ + decimal(stats.total_active_connections as nat) + ""@,
    ]
}

/// Whether `report` is what an answer to a request for statistics tells, and
/// `uptime_bits` the bits of the uptime in it.
pub open spec fn reports_stats(
    response: ResponseView,
    uptime_bits: u64,
    report: ReportView,
) -> bool {
    match response {
        ResponseView::Okay(payload) => if payload.len() < 16 {
            report == ReportView::Malformed
        } else {
            exists|stats: StatsPacket| #[trigger]
                stats.bytes() == payload.take(16) && uptime_bits == stats.uptime_bits && report
                    == ReportView::Lines(stats_lines(stats))
        },
        _ => report == ReportView::Line(response_text(response)),
    }
}

/// What an answer to a request for statistics tells, and the bits of the uptime in it.
pub fn print_stats_response(response: &Response) -> (parts: (u64, Report))
    ensures
        reports_stats(response@, parts.0, parts.1@),
{
    if let Response::Okay(payload) = response {
        match StatsPacket::from_bytes(payload.as_slice()) {
            Some(stats) => {
                let mut lines: Vec<String> = Vec::new();
                lines.push(number_line("  databases:        ", stats.total_dbs, ""));
                lines.push(
                    number_line("  active conns:     ", stats.total_active_connections, ""),
                );
                assert(lines@.map_values(|l: String| l@) =~= stats_lines(stats));
                (stats.uptime_bits, Report::Lines { lines })
            },
            None => (0, Report::Malformed),
        }
    } else {
        (0, Report::Line { line: print_response(response) })
    }
}

} // verus!
