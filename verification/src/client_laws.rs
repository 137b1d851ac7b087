//! What holds of every line that is typed and every answer that is shown.
use crate::client::{
    answer_locally, before_space, behind_space, interpret, print_info_response, print_response,
    print_stats_response, read_command, request, space_at, split_word, Command, Report,
};
use crate::format::size_text;
use crate::protocol::Response;
use crate::protocol_laws::{
    big_at, is_request, law_db_frame_layout, law_info_packet_layout, law_key_frame_layout,
    law_set_frame_layout, law_stats_packet_layout, little_at, status_and_payload,
};
use crate::request_laws::{
    is_plain_name, law_key_within_limits_is_accepted, law_plain_name_is_accepted,
    law_set_within_limits_is_accepted,
};
use crate::session::{Limits, PhaseView, RequestView};
use crate::session_laws::{served, Outcome};
use crate::text::{capitals_of, decimal, shown};
use crate::text_laws::{
    all_capital, all_white, has_no_edges, law_capitals_of_a_word, law_trimmed, spells,
};
use crate::worker::QueryView;
use vstd::prelude::*;
use vstd::utf8::{encode_utf8, encode_utf8_decode_utf8, is_ascii_chars};

verus! {

/// Whether a text has no space in it.
pub open spec fn has_no_space(text: Seq<char>) -> bool {
    forall|i: int| 0 <= i < text.len() ==> #[trigger] text[i] != ' '
}

/// A command line without the white space around it: a word, and, behind one space each, up to
/// two parts more. Only the last part can have spaces in it.
pub open spec fn command_line(
    word: Seq<char>,
    first: Option<Seq<char>>,
    second: Option<Seq<char>>,
) -> Seq<char> {
    match (first, second) {
        (Some(a), Some(b)) => word + seq![' '] + a + seq![' '] + b,
        (Some(a), None) => word + seq![' '] + a,
        _ => word,
    }
}

proof fn lemma_space_at(word: Seq<char>, rest: Seq<char>, from: int)
    requires
        has_no_space(word),
        0 <= from <= word.len(),
    ensures
        space_at(word + seq![' '] + rest, from) == word.len(),
        space_at(word, from) == word.len(),
    decreases word.len() - from,
{
    let text = word + seq![' '] + rest;
    if from < word.len() {
        assert(word[from] != ' ');
        assert(text[from] == word[from]);
        lemma_space_at(word, rest, from + 1);
    } else {
        assert(text[from] == ' ');
    }
}

/// A text is cut at its first space, and the space itself is gone.
pub proof fn law_word_ends_at_first_space(word: Seq<char>, rest: Seq<char>)
    requires
        has_no_space(word),
    ensures
        before_space(word + seq![' '] + rest) == word,
        behind_space(word + seq![' '] + rest) == Some(rest),
        before_space(word) == word,
        behind_space(word) is None,
{
    lemma_space_at(word, rest, 0);
    let text = word + seq![' '] + rest;
    assert(before_space(text) =~= word);
    assert(text.skip(word.len() as int + 1) =~= rest);
    assert(before_space(word) =~= word);
}

/// The same of a call.
pub proof fn law_word_is_split_off(
    text: &str,
    parts: (&str, Option<&str>),
    word: Seq<char>,
    rest: Seq<char>,
)
    requires
        call_ensures(split_word, (text,), parts),
        has_no_space(word),
    ensures
        text@ == word + seq![' '] + rest ==> parts.0@ == word && parts.1 is Some && (parts.1->0)@
            == rest,
        text@ == word ==> parts.0@ == word && parts.1 is None,
{
    law_word_ends_at_first_space(word, rest);
}

proof fn lemma_command_words()
    ensures
        all_capital("QUIT"@),
        all_capital("PING"@),
        all_capital("STATS"@),
        all_capital("GET"@),
        all_capital("SET"@),
        all_capital("DEL"@),
        all_capital("CREATE"@),
        all_capital("INFO"@),
        all_capital("DROP"@),
        all_capital("USE"@),
        "QUIT"@.len() == 4 && "QUIT"@[0] == 'Q',
        "PING"@.len() == 4 && "PING"@[0] == 'P',
        "STATS"@.len() == 5,
        "GET"@.len() == 3 && "GET"@[0] == 'G',
        "SET"@.len() == 3 && "SET"@[0] == 'S',
        "DEL"@.len() == 3 && "DEL"@[0] == 'D',
        "CREATE"@.len() == 6,
        "INFO"@.len() == 4 && "INFO"@[0] == 'I',
        "DROP"@.len() == 4 && "DROP"@[0] == 'D',
        "USE"@.len() == 3 && "USE"@[0] == 'U',
{
    reveal_strlit("QUIT");
    reveal_strlit("PING");
    reveal_strlit("STATS");
    reveal_strlit("GET");
    reveal_strlit("SET");
    reveal_strlit("DEL");
    reveal_strlit("CREATE");
    reveal_strlit("INFO");
    reveal_strlit("DROP");
    reveal_strlit("USE");
}

/// What the parts of a line are.
proof fn lemma_parts(word: Seq<char>, first: Option<Seq<char>>, second: Option<Seq<char>>)
    requires
        has_no_space(word),
        first matches Some(a) ==> has_no_space(a),
        second is Some ==> first is Some,
    ensures
        ({
            let line = command_line(word, first, second);
            &&& before_space(line) == word
            &&& first is None ==> behind_space(line) is None
            &&& first matches Some(a) ==> {
                &&& behind_space(line) matches Some(rest)
                &&& before_space(rest) == a
                &&& behind_space(rest) == second
            }
        }),
{
    let line = command_line(word, first, second);
    match (first, second) {
        (Some(a), Some(b)) => {
            let rest = a + seq![' '] + b;
            assert(line =~= word + seq![' '] + rest);
            law_word_ends_at_first_space(word, rest);
            law_word_ends_at_first_space(a, b);
        },
        (Some(a), None) => {
            law_word_ends_at_first_space(word, a);
            law_word_ends_at_first_space(a, Seq::empty());
        },
        _ => {
            law_word_ends_at_first_space(word, Seq::empty());
        },
    }
}

/// What a line asks for, by the word it starts with, in whatever case it is written: `GET` and
/// `DEL` for the whole first part as a key, `SET` for the first part as a key and all the rest
/// as a value, `CREATE`, `DROP`, `INFO` and `USE` for the first part as a database name. White
/// space around the line does not count.
pub proof fn law_line_is_read(
    line: &str,
    current_db: &str,
    command: Command,
    before: Seq<char>,
    word: Seq<char>,
    first: Option<Seq<char>>,
    second: Option<Seq<char>>,
    behind: Seq<char>,
)
    requires
        call_ensures(read_command, (line, current_db), command),
        line@ == before + command_line(word, first, second) + behind,
        all_white(before),
        all_white(behind),
        has_no_edges(command_line(word, first, second)),
        has_no_space(word),
        first matches Some(a) ==> has_no_space(a),
        second is Some ==> first is Some,
    ensures
        spells(word, "QUIT"@) ==> command is Quit,
        spells(word, "PING"@) ==> command is Ping,
        spells(word, "STATS"@) ==> command is Stats,
        spells(word, "GET"@) ==> match first {
            Some(a) => command matches Command::Get { key } && key@ == encode_utf8(a),
            None => command matches Command::Usage { text } && text@ == "Usage: GET <key>"@,
        },
        spells(word, "DEL"@) ==> match first {
            Some(a) => command matches Command::Delete { key } && key@ == encode_utf8(a),
            None => command matches Command::Usage { text } && text@ == "Usage: DEL <key>"@,
        },
        spells(word, "SET"@) ==> match second {
            Some(b) => command matches Command::Put { key, value } && key@ == encode_utf8(first->0)
                && value@ == encode_utf8(b),
            None => command matches Command::Usage { text } && text@
                == "Usage: SET <key> <value>"@,
        },
        spells(word, "CREATE"@) ==> match first {
            Some(a) => if encode_utf8(a).len() <= 255 {
                command matches Command::Create { db_name } && db_name@ == a
            } else {
                command is DbNameTooLong
            },
            None => command matches Command::Usage { text } && text@
                == "Usage: CREATE <db_name>"@,
        },
        spells(word, "DROP"@) ==> match first {
            Some(a) => if encode_utf8(a).len() <= 255 {
                command matches Command::Drop { db_name } && db_name@ == a
            } else {
                command is DbNameTooLong
            },
            None => command matches Command::Usage { text } && text@ == "Usage: DROP <db_name>"@,
        },
        spells(word, "INFO"@) ==> {
            let name = first.unwrap_or(current_db@);
            if encode_utf8(name).len() <= 255 {
                command matches Command::Info { db_name } && db_name@ == name
            } else {
                command is DbNameTooLong
            }
        },
        spells(word, "USE"@) ==> match first {
            Some(a) => command matches Command::Use { db_name } && db_name@ == a,
            None => command matches Command::Usage { text } && text@ == "Usage: USE <db_name>"@,
        },
{
    let inner = command_line(word, first, second);
    law_trimmed(before, inner, behind);
    lemma_parts(word, first, second);
    lemma_command_words();
    law_capitals_of_a_word(word, "QUIT"@);
    law_capitals_of_a_word(word, "PING"@);
    law_capitals_of_a_word(word, "STATS"@);
    law_capitals_of_a_word(word, "GET"@);
    law_capitals_of_a_word(word, "SET"@);
    law_capitals_of_a_word(word, "DEL"@);
    law_capitals_of_a_word(word, "CREATE"@);
    law_capitals_of_a_word(word, "INFO"@);
    law_capitals_of_a_word(word, "DROP"@);
    law_capitals_of_a_word(word, "USE"@);
}

/// A line of white space asks for nothing. A line that starts with another word of ASCII
/// characters is not understood, and the word is kept as it was typed.
pub proof fn law_other_lines_are_not_understood(
    line: &str,
    current_db: &str,
    command: Command,
    before: Seq<char>,
    word: Seq<char>,
    first: Option<Seq<char>>,
    second: Option<Seq<char>>,
    behind: Seq<char>,
)
    requires
        call_ensures(read_command, (line, current_db), command),
        all_white(before),
        all_white(behind),
    ensures
        line@ == before ==> command is Empty,
        ({
            &&& line@ == before + command_line(word, first, second) + behind
            &&& has_no_edges(command_line(word, first, second))
            &&& has_no_space(word)
            &&& first matches Some(a) ==> has_no_space(a)
            &&& second is Some ==> first is Some
            &&& is_ascii_chars(word)
            &&& !spells(word, "QUIT"@)
            &&& !spells(word, "PING"@)
            &&& !spells(word, "STATS"@)
            &&& !spells(word, "GET"@)
            &&& !spells(word, "SET"@)
            &&& !spells(word, "DEL"@)
            &&& !spells(word, "CREATE"@)
            &&& !spells(word, "INFO"@)
            &&& !spells(word, "DROP"@)
            &&& !spells(word, "USE"@)
        }) ==> {
            &&& command matches Command::Unknown { word: kept }
            &&& kept@ == word
        },
{
    if line@ == before {
        assert(before =~= before + Seq::<char>::empty() + Seq::<char>::empty());
        law_trimmed(before, Seq::empty(), Seq::empty());
    }
    let inner = command_line(word, first, second);
    if line@ == before + inner + behind && has_no_edges(inner) && has_no_space(word) && (
    first matches Some(a) ==> has_no_space(a)) && (second is Some ==> first is Some) {
        law_trimmed(before, inner, behind);
        lemma_parts(word, first, second);
        lemma_command_words();
        law_capitals_of_a_word(word, "QUIT"@);
        law_capitals_of_a_word(word, "PING"@);
        law_capitals_of_a_word(word, "STATS"@);
        law_capitals_of_a_word(word, "GET"@);
        law_capitals_of_a_word(word, "SET"@);
        law_capitals_of_a_word(word, "DEL"@);
        law_capitals_of_a_word(word, "CREATE"@);
        law_capitals_of_a_word(word, "INFO"@);
        law_capitals_of_a_word(word, "DROP"@);
        law_capitals_of_a_word(word, "USE"@);
    }
}

/// A command is taken by its word in capitals, whatever the word was before, and by what stands
/// behind it: up to the first space a key or a name, behind it a value. A word that is no command
/// is kept as it was typed.
pub proof fn law_word_decides(
    upper: &str,
    word: &str,
    rest: Option<&str>,
    current_db: &str,
    command: Command,
    first: Seq<char>,
    second: Option<Seq<char>>,
)
    requires
        call_ensures(interpret, (upper, word, rest, current_db), command),
        has_no_space(first),
        rest matches Some(text) ==> text@ == (match second {
            Some(value) => first + seq![' '] + value,
            None => first,
        }),
    ensures
        upper@ == "QUIT"@ ==> command is Quit,
        upper@ == "PING"@ ==> command is Ping,
        upper@ == "STATS"@ ==> command is Stats,
        upper@ == "GET"@ ==> if rest is Some {
            command matches Command::Get { key } && key@ == encode_utf8(first)
        } else {
            command is Usage
        },
        upper@ == "DEL"@ ==> if rest is Some {
            command matches Command::Delete { key } && key@ == encode_utf8(first)
        } else {
            command is Usage
        },
        upper@ == "SET"@ ==> if rest is Some && second is Some {
            command matches Command::Put { key, value } && key@ == encode_utf8(first) && value@
                == encode_utf8(second->0)
        } else {
            command is Usage
        },
        upper@ == "CREATE"@ && rest is Some ==> if encode_utf8(first).len() <= 255 {
            command matches Command::Create { db_name } && db_name@ == first
        } else {
            command is DbNameTooLong
        },
        upper@ == "DROP"@ && rest is Some ==> if encode_utf8(first).len() <= 255 {
            command matches Command::Drop { db_name } && db_name@ == first
        } else {
            command is DbNameTooLong
        },
        upper@ == "INFO"@ ==> {
            let name = if rest is Some {
                first
            } else {
                current_db@
            };
            if encode_utf8(name).len() <= 255 {
                command matches Command::Info { db_name } && db_name@ == name
            } else {
                command is DbNameTooLong
            }
        },
        upper@ == "USE"@ && rest is Some ==> {
            &&& command matches Command::Use { db_name }
            &&& db_name@ == first
        },
        upper@ != "QUIT"@ && upper@ != "PING"@ && upper@ != "STATS"@ && upper@ != "GET"@ && upper@
            != "DEL"@ && upper@ != "SET"@ && upper@ != "CREATE"@ && upper@ != "DROP"@ && upper@
            != "INFO"@ && upper@ != "USE"@ ==> {
            &&& command matches Command::Unknown { word: kept }
            &&& kept@ == word@
        },
{
    lemma_command_words();
    law_word_ends_at_first_space(
        first,
        match second {
            Some(value) => value,
            None => Seq::empty(),
        },
    );
}

/// A line is read as its word in capitals and its parts are.
pub proof fn law_line_is_interpreted(
    line: &str,
    current_db: &str,
    command: Command,
    upper: &str,
    word: &str,
    rest: Option<&str>,
    interpreted: Command,
)
    requires
        call_ensures(read_command, (line, current_db), command),
        call_ensures(interpret, (upper, word, rest, current_db), interpreted),
        has_no_edges(line@),
        before_space(line@) == word@,
        capitals_of(word@) == upper@,
        match rest {
            Some(text) => behind_space(line@) == Some(text@),
            None => behind_space(line@) is None,
        },
    ensures
        command@ == interpreted@,
{
    assert(line@ =~= Seq::<char>::empty() + line@ + Seq::<char>::empty());
    law_trimmed(Seq::empty(), line@, Seq::empty());
}

/// What a command sends: its operation, the database it is for, and the whole key and value. A
/// command that needs no server sends nothing.
pub proof fn law_command_is_sent(command: Command, current_db: &str, sent: Option<Vec<u8>>)
    requires
        call_ensures(request, (&command, current_db), sent),
    ensures
        match command {
            Command::Quit => sent matches Some(bytes) && bytes@ == seq![2u8],
            Command::Ping => sent matches Some(bytes) && bytes@ == seq![1u8],
            Command::Stats => sent matches Some(bytes) && bytes@ == seq![0u8],
            Command::Get { key } => sent matches Some(bytes) && is_request(
                bytes@,
                6,
                encode_utf8(current_db@),
                Some(key@),
                None,
            ),
            Command::Put { key, value } => sent matches Some(bytes) && is_request(
                bytes@,
                7,
                encode_utf8(current_db@),
                Some(key@),
                Some(value@),
            ),
            Command::Delete { key } => sent matches Some(bytes) && is_request(
                bytes@,
                8,
                encode_utf8(current_db@),
                Some(key@),
                None,
            ),
            Command::Create { db_name } => sent matches Some(bytes) && is_request(
                bytes@,
                3,
                encode_utf8(db_name@),
                None,
                None,
            ),
            Command::Info { db_name } => sent matches Some(bytes) && is_request(
                bytes@,
                4,
                encode_utf8(db_name@),
                None,
                None,
            ),
            Command::Drop { db_name } => sent matches Some(bytes) && is_request(
                bytes@,
                5,
                encode_utf8(db_name@),
                None,
                None,
            ),
            _ => sent is None,
        },
{
    let db = encode_utf8(current_db@);
    match command {
        Command::Get { key } => law_key_frame_layout(crate::protocol::Operation::Get, db, key@),
        Command::Delete { key } => law_key_frame_layout(
            crate::protocol::Operation::Delete,
            db,
            key@,
        ),
        Command::Put { key, value } => law_set_frame_layout(db, key@, value@),
        Command::Create { db_name } => law_db_frame_layout(
            crate::protocol::Operation::Create,
            encode_utf8(db_name@),
        ),
        Command::Info { db_name } => law_db_frame_layout(
            crate::protocol::Operation::Info,
            encode_utf8(db_name@),
        ),
        Command::Drop { db_name } => law_db_frame_layout(
            crate::protocol::Operation::Drop,
            encode_utf8(db_name@),
        ),
        _ => {},
    }
}

/// What is typed reaches the server: `GET`, `DEL` or `SET` with a key, and for `SET` a value,
/// within the limits of the server, while the client works on a database with a plain name, is
/// taken for that operation on exactly the bytes of that key and that value.
pub proof fn law_typed_key_reaches_the_server(
    line: &str,
    current_db: &str,
    command: Command,
    sent: Option<Vec<u8>>,
    word: Seq<char>,
    key: Seq<char>,
    value: Option<Seq<char>>,
    behind: Seq<char>,
    rest: Seq<u8>,
    limits: Limits,
)
    requires
        call_ensures(read_command, (line, current_db), command),
        call_ensures(request, (&command, current_db), sent),
        line@ == command_line(word, Some(key), value) + behind,
        all_white(behind),
        has_no_edges(command_line(word, Some(key), value)),
        has_no_space(word),
        has_no_space(key),
        is_plain_name(encode_utf8(current_db@)),
        1 <= encode_utf8(key).len() <= limits.max_key_size,
        encode_utf8(key).len() <= u32::MAX,
        value matches Some(v) ==> 1 <= encode_utf8(v).len() <= limits.max_value_size && encode_utf8(
            v,
        ).len() <= u32::MAX,
    ensures
        spells(word, "GET"@) ==> sent is Some && served(
            PhaseView::Opcode,
            (sent->0)@ + rest,
            limits,
        ) == Outcome::Accepted(
            RequestView::Query(current_db@, QueryView::Get(encode_utf8(key))),
            rest,
        ),
        spells(word, "DEL"@) ==> sent is Some && served(
            PhaseView::Opcode,
            (sent->0)@ + rest,
            limits,
        ) == Outcome::Accepted(
            RequestView::Query(current_db@, QueryView::Delete(encode_utf8(key))),
            rest,
        ),
        spells(word, "SET"@) && value is Some ==> sent is Some && served(
            PhaseView::Opcode,
            (sent->0)@ + rest,
            limits,
        ) == Outcome::Accepted(
            RequestView::Query(
                current_db@,
                QueryView::SetKey(encode_utf8(key), encode_utf8(value->0)),
            ),
            rest,
        ),
{
    let inner = command_line(word, Some(key), value);
    assert(line@ =~= Seq::<char>::empty() + inner + behind);
    law_line_is_read(
        line,
        current_db,
        command,
        Seq::empty(),
        word,
        Some(key),
        value,
        behind,
    );
    law_command_is_sent(command, current_db, sent);
    encode_utf8_decode_utf8(current_db@);
    let name = encode_utf8(current_db@);
    if sent is Some {
        let bytes = (sent->0)@;
        law_key_within_limits_is_accepted(bytes, name, encode_utf8(key), rest, limits);
        if spells(word, "SET"@) && value is Some {
            law_set_within_limits_is_accepted(
                bytes,
                name,
                encode_utf8(key),
                encode_utf8(value->0),
                rest,
                limits,
            );
        }
    }
}

/// The same of `CREATE`, `DROP` and `INFO` with a plain name.
pub proof fn law_typed_name_reaches_the_server(
    line: &str,
    current_db: &str,
    command: Command,
    sent: Option<Vec<u8>>,
    word: Seq<char>,
    name: Seq<char>,
    behind: Seq<char>,
    rest: Seq<u8>,
    limits: Limits,
)
    requires
        call_ensures(read_command, (line, current_db), command),
        call_ensures(request, (&command, current_db), sent),
        line@ == command_line(word, Some(name), None) + behind,
        all_white(behind),
        has_no_edges(command_line(word, Some(name), None)),
        has_no_space(word),
        has_no_space(name),
        is_plain_name(encode_utf8(name)),
    ensures
        spells(word, "CREATE"@) ==> sent is Some && served(
            PhaseView::Opcode,
            (sent->0)@ + rest,
            limits,
        ) == Outcome::Accepted(RequestView::Create(name), rest),
        spells(word, "DROP"@) ==> sent is Some && served(
            PhaseView::Opcode,
            (sent->0)@ + rest,
            limits,
        ) == Outcome::Accepted(RequestView::Drop(name), rest),
        spells(word, "INFO"@) ==> sent is Some && served(
            PhaseView::Opcode,
            (sent->0)@ + rest,
            limits,
        ) == Outcome::Accepted(RequestView::Query(name, QueryView::Info), rest),
{
    let inner = command_line(word, Some(name), None);
    assert(line@ =~= Seq::<char>::empty() + inner + behind);
    law_line_is_read(
        line,
        current_db,
        command,
        Seq::empty(),
        word,
        Some(name),
        None,
        behind,
    );
    law_command_is_sent(command, current_db, sent);
    encode_utf8_decode_utf8(name);
    if sent is Some {
        law_plain_name_is_accepted((sent->0)@, encode_utf8(name), rest, limits);
    }
}

/// What is answered without the server.
pub proof fn law_local_answers(command: Command, lines: Vec<String>)
    requires
        call_ensures(answer_locally, (&command,), lines),
    ensures
        match command {
            Command::Use { db_name } => lines@.len() == 1 && lines@[0]@
                == "Switched to database '"@ + db_name@ + "'"@,
            Command::Usage { text } => lines@.len() == 1 && lines@[0]@ == text@,
            Command::DbNameTooLong => lines@.len() == 1 && lines@[0]@
                == "Error: db_name must be at most 255 bytes"@,
            Command::Unknown { word } => {
                &&& lines@.len() == 2
                &&& lines@[0]@ == "Unknown command: "@ + word@
                &&& lines@[1]@
                    == "Commands: GET | SET | DEL | PING | STATS | CREATE | INFO | DROP | USE | QUIT"@
            },
            _ => lines@.len() == 0,
        },
{
    lemma_lines(lines@, crate::client::local_answer(command@));
}

proof fn lemma_lines(lines: Seq<String>, texts: Seq<Seq<char>>)
    requires
        lines.map_values(|l: String| l@) == texts,
    ensures
        lines.len() == texts.len(),
        forall|i: int| 0 <= i < lines.len() ==> (#[trigger] lines[i])@ == texts[i],
{
    let mapped = lines.map_values(|l: String| l@);
    assert forall|i: int| 0 <= i < lines.len() implies (#[trigger] lines[i])@ == texts[i] by {
        assert(mapped[i] == lines[i]@);
    }
}

/// A value is shown whole, in quotes; other answers are shown by what they say. So it is for
/// every payload that is a text.
pub proof fn law_answer_is_shown(response: Response, line: String, text: Seq<char>)
    requires
        call_ensures(print_response, (&response,), line),
        status_and_payload(response).1 == encode_utf8(text),
    ensures
        match response {
            Response::Okay(_) => line@ == if text.len() == 0 {
                "OK"@
            } else {
                text
            },
            Response::Pong(_) => line@ == "Pong"@,
            Response::KeyValue(_) => line@ == seq!['"'] + text + seq!['"'],
            Response::KeyNotFound(_) => line@ == "(n/a) "@ + text,
            _ => line@ == "Error: "@ + text,
        },
{
    vstd::utf8::encode_utf8_valid_utf8(text);
    encode_utf8_decode_utf8(text);
    reveal_strlit("\"");
    assert("\""@ =~= seq!['"']);
}

/// The same of every payload, be it a text or not: what is shown of it is all that `shown` gives.
pub proof fn law_any_answer_is_shown(
    response: Response,
    line: String,
    payload: &[u8],
    text: String,
)
    requires
        call_ensures(print_response, (&response,), line),
        payload@ == status_and_payload(response).1,
        call_ensures(shown, (payload,), text),
    ensures
        match response {
            Response::Okay(_) => line@ == if text@.len() == 0 {
                "OK"@
            } else {
                text@
            },
            Response::Pong(_) => line@ == "Pong"@,
            Response::KeyValue(_) => line@ == seq!['"'] + text@ + seq!['"'],
            Response::KeyNotFound(_) => line@ == "(n/a) "@ + text@,
            _ => line@ == "Error: "@ + text@,
        },
{
    reveal_strlit("\"");
    assert("\""@ =~= seq!['"']);
}

/// The answer to INFO is shown by its numbers, each in its line; an answer that is too short is
/// found out, and any other answer is shown as it reads.
pub proof fn law_info_is_shown(response: Response, report: Report, line: String)
    requires
        call_ensures(print_info_response, (&response,), report),
        call_ensures(print_response, (&response,), line),
    ensures
        match response {
            Response::Okay(packet) => if packet@.len() < 24 {
                report is Malformed
            } else {
                &&& report matches Report::Lines { lines }
                &&& lines@.len() == 6
                &&& lines@[0]@ == "  keys:             "@ + decimal(big_at(packet@, 20) as nat)
                &&& lines@[1]@ == "  size on disk:     "@ + size_text(big_at(packet@, 0) as nat)
                &&& lines@[2]@ == "  size in memory:   "@ + size_text(big_at(packet@, 4) as nat)
                &&& lines@[3]@ == "  key size (min):   "@ + decimal(big_at(packet@, 8) as nat)
                    + " bytes"@
                &&& lines@[4]@ == "  key size (mean):  "@ + decimal(big_at(packet@, 12) as nat)
                    + " bytes"@
                &&& lines@[5]@ == "  key size (max):   "@ + decimal(big_at(packet@, 16) as nat)
                    + " bytes"@
            },
            _ => report matches Report::Line { line: shown } && shown@ == line@,
        },
{
    if let Response::Okay(packet) = response {
        if packet@.len() >= 24 {
            let info = choose|info: crate::protocol::InfoPacket| #[trigger]
                info.bytes() == packet@.take(24) && report@ == crate::client::ReportView::Lines(
                    crate::client::info_lines(info),
                );
            law_info_packet_layout(info);
            let first = packet@.take(24);
            assert forall|i: int| 0 <= i < 24 implies first[i] == packet@[i] by {}
            lemma_info_lines(report->lines@, info);
        }
    }
}

proof fn lemma_info_lines(lines: Seq<String>, info: crate::protocol::InfoPacket)
    requires
        lines.map_values(|l: String| l@) == crate::client::info_lines(info),
    ensures
        lines.len() == 6,
        lines[0]@ == "  keys:             "@ + decimal(info.key_count as nat),
        lines[1]@ == "  size on disk:     "@ + size_text(info.size_on_disk as nat),
        lines[2]@ == "  size in memory:   "@ + size_text(info.size_in_memory as nat),
        lines[3]@ == "  key size (min):   "@ + decimal(info.min_key_size as nat) + " bytes"@,
        lines[4]@ == "  key size (mean):  "@ + decimal(info.mean_key_size as nat) + " bytes"@,
        lines[5]@ == "  key size (max):   "@ + decimal(info.max_key_size as nat) + " bytes"@,
{
    lemma_lines(lines, crate::client::info_lines(info));
    reveal_strlit("");
    let keys = "  keys:             "@ + decimal(info.key_count as nat);
    assert(keys + ""@ =~= keys);
}

/// The answer to STATS is shown by its numbers, each in its line, below the uptime; an answer
/// that is too short is found out, and any other answer is shown as it reads.
pub proof fn law_stats_are_shown(response: Response, parts: (u64, Report), line: String)
    requires
        call_ensures(print_stats_response, (&response,), parts),
        call_ensures(print_response, (&response,), line),
    ensures
        match response {
            Response::Okay(packet) => if packet@.len() < 16 {
                parts.1 is Malformed
            } else {
                &&& parts.0 == little_at(packet@, 0) + 4294967296 * little_at(packet@, 4)
                &&& parts.1 matches Report::Lines { lines }
                &&& lines@.len() == 2
                &&& lines@[0]@ == "  databases:        "@ + decimal(little_at(packet@, 8) as nat)
                &&& lines@[1]@ == "  active conns:     "@ + decimal(little_at(packet@, 12) as nat)
            },
            _ => parts.1 matches Report::Line { line: shown } && shown@ == line@,
        },
{
    if let Response::Okay(packet) = response {
        if packet@.len() >= 16 {
            let report = parts.1;
            let stats = choose|stats: crate::protocol::StatsPacket| #[trigger]
                stats.bytes() == packet@.take(16) && parts.0 == stats.uptime_bits && report@
                    == crate::client::ReportView::Lines(crate::client::stats_lines(stats));
            law_stats_packet_layout(stats);
            let first = packet@.take(16);
            assert forall|i: int| 0 <= i < 16 implies first[i] == packet@[i] by {}
            let lines = report->lines;
            lemma_lines(lines@, crate::client::stats_lines(stats));
            reveal_strlit("");
            let dbs = "  databases:        "@ + decimal(stats.total_dbs as nat);
            let connections = "  active conns:     "@ + decimal(
                stats.total_active_connections as nat,
            );
            assert(dbs + ""@ =~= dbs);
            assert(connections + ""@ =~= connections);
        }
    }
}

} // verus!
