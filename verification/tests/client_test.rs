use mini_db::client::{
    answer_locally, print_info_response, print_response, print_stats_response, read_command, request, split_word,
    Command, Report,
};
use mini_db::protocol::{InfoPacket, Response, StatsPacket};
use mini_db::text::{capitals, push_decimal, same_bytes, same_text, shown, text_bytes, trim};

fn usage(line: &str) -> String {
    match read_command(line, "default") {
        Command::Usage { text } => text,
        other => panic!("{:?}", other),
    }
}

#[test]
fn white_space_around_a_line_is_cut_off() {
    for text in ["", " ", "a", "  a b \n", "\r\n\t x\u{b}\u{c}", "\u{a0}y\u{3000}", "\u{feff}z", "\u{1f}q"] {
        assert_eq!(trim(text), text.trim());
    }
}

#[test]
fn capitals_are_those_of_std() {
    for text in ["", "get", "GeT 9", "straße", "ǆ", "ÿ"] {
        assert_eq!(capitals(text), text.to_uppercase());
    }
    assert_eq!(capitals("quit"), "QUIT");
}

#[test]
fn bytes_are_shown_as_text() {
    assert_eq!(shown("grün".as_bytes()), "grün");
    assert_eq!(shown(&[b'a', 0xff, b'b']), "a\u{fffd}b");
    assert_eq!(text_bytes("grün"), "grün".as_bytes());
    assert!(same_text("a", "a") && !same_text("a", "b") && !same_text("a", "ab"));
    assert!(same_bytes(b"x", b"x") && !same_bytes(b"x", b"y"));
    let mut text = String::from("n=");
    push_decimal(&mut text, u128::MAX);
    assert_eq!(text, format!("n={}", u128::MAX));
}

#[test]
fn words_end_at_single_spaces() {
    assert_eq!(split_word("one two three"), ("one", Some("two three")));
    assert_eq!(split_word("one  two"), ("one", Some(" two")));
    assert_eq!(split_word("one "), ("one", Some("")));
    assert_eq!(split_word("one"), ("one", None));
    assert_eq!(split_word(""), ("", None));
    assert_eq!(split_word("ä ö"), ("ä", Some("ö")));
}

#[test]
fn empty_lines_ask_for_nothing() {
    assert!(matches!(read_command("", "default"), Command::Empty));
    assert!(matches!(read_command("  \r\n", "default"), Command::Empty));
    assert_eq!(request(&Command::Empty, "default"), None);
    assert!(answer_locally(&Command::Empty).is_empty());
}

#[test]
fn short_commands_are_read_in_any_case() {
    for line in ["quit", "QUIT\n", " Quit now "] {
        let command = read_command(line, "default");
        assert!(matches!(command, Command::Quit));
        assert_eq!(request(&command, "default"), Some(vec![2]));
    }
    assert_eq!(request(&read_command("ping", "d"), "d"), Some(vec![1]));
    assert_eq!(request(&read_command("Stats", "d"), "d"), Some(vec![0]));
}

#[test]
fn values_may_contain_spaces() {
    match read_command("set key a value with spaces \n", "default") {
        Command::Put { key, value } => {
            assert_eq!(key, b"key");
            assert_eq!(value, b"a value with spaces");
        }
        other => panic!("{:?}", other),
    }
    // what stands between two spaces is a key, even if it is empty
    match read_command("SET  v", "default") {
        Command::Put { key, value } => {
            assert_eq!(key, b"");
            assert_eq!(value, b"v");
        }
        other => panic!("{:?}", other),
    }
}

#[test]
fn commands_on_keys_send_the_current_database() {
    let get = read_command("GET k ignored", "db");
    assert_eq!(request(&get, "db"), Some(vec![6, 2, 1, 0, 0, 0, b'd', b'b', b'k']));
    let del = read_command("del k", "db");
    assert_eq!(request(&del, "db"), Some(vec![8, 2, 1, 0, 0, 0, b'd', b'b', b'k']));
    let set = read_command("SET k v", "db");
    assert_eq!(request(&set, "db"), Some(vec![7, 2, 1, 0, 0, 0, 1, 0, 0, 0, b'd', b'b', b'k', b'v']));
}

#[test]
fn commands_on_databases_send_their_own_name() {
    assert_eq!(request(&read_command("create x", "db"), "db"), Some(vec![3, 1, b'x']));
    assert_eq!(request(&read_command("drop x", "db"), "db"), Some(vec![5, 1, b'x']));
    assert_eq!(request(&read_command("info x", "db"), "db"), Some(vec![4, 1, b'x']));
    assert_eq!(request(&read_command("info", "db"), "db"), Some(vec![4, 2, b'd', b'b']));
}

#[test]
fn commands_without_their_parts_show_their_usage() {
    assert_eq!(usage("GET"), "Usage: GET <key>");
    assert_eq!(usage("SET"), "Usage: SET <key> <value>");
    assert_eq!(usage("set key"), "Usage: SET <key> <value>");
    assert_eq!(usage("DEL"), "Usage: DEL <key>");
    assert_eq!(usage("CREATE"), "Usage: CREATE <db_name>");
    assert_eq!(usage("DROP"), "Usage: DROP <db_name>");
    assert_eq!(usage("USE"), "Usage: USE <db_name>");
    let command = read_command("GET", "default");
    assert_eq!(answer_locally(&command), ["Usage: GET <key>"]);
    assert_eq!(request(&command, "default"), None);
}

#[test]
fn long_database_names_are_not_sent() {
    let name = "n".repeat(256);
    for word in ["CREATE", "INFO", "DROP"] {
        let command = read_command(&format!("{} {}", word, name), "default");
        assert!(matches!(command, Command::DbNameTooLong));
        assert_eq!(answer_locally(&command), ["Error: db_name must be at most 255 bytes"]);
    }
    assert!(matches!(read_command("INFO", &name), Command::DbNameTooLong));
    let fitting = "n".repeat(255);
    assert!(matches!(read_command(&format!("CREATE {}", fitting), "d"), Command::Create { .. }));
    // a database that is only switched to is not checked
    assert!(matches!(read_command(&format!("USE {}", name), "d"), Command::Use { .. }));
}

#[test]
fn other_commands_are_answered_without_the_server() {
    let switch = read_command("use other", "default");
    assert_eq!(answer_locally(&switch), ["Switched to database 'other'"]);
    assert_eq!(request(&switch, "default"), None);
    let unknown = read_command("Frobnicate x", "default");
    assert_eq!(
        answer_locally(&unknown),
        [
            "Unknown command: Frobnicate",
            "Commands: GET | SET | DEL | PING | STATS | CREATE | INFO | DROP | USE | QUIT",
        ]
    );
}

#[test]
fn answers_read_as_lines() {
    assert_eq!(print_response(&Response::Okay(Vec::new())), "OK");
    assert_eq!(print_response(&Response::Okay(b"done".to_vec())), "done");
    assert_eq!(print_response(&Response::Pong(b"PONG".to_vec())), "Pong");
    assert_eq!(print_response(&Response::KeyValue(b"v".to_vec())), "\"v\"");
    assert_eq!(print_response(&Response::KeyValue(vec![0xff])), "\"\u{fffd}\"");
    assert_eq!(print_response(&Response::KeyNotFound(b"Key not found".to_vec())), "(n/a) Key not found");
    for response in [
        Response::DbNotFound(b"m".to_vec()),
        Response::DbAlreadyExists(b"m".to_vec()),
        Response::InvalidRequest(b"m".to_vec()),
        Response::PayloadTooLarge(b"m".to_vec()),
        Response::InternalError(b"m".to_vec()),
    ] {
        assert_eq!(print_response(&response), "Error: m");
    }
}

#[test]
fn information_reads_as_six_lines() {
    let info = InfoPacket {
        size_on_disk: 2048,
        size_in_memory: 32,
        min_key_size: 1,
        mean_key_size: 2,
        max_key_size: 3,
        key_count: 4,
    };
    match print_info_response(&Response::Okay(info.to_bytes())) {
        Report::Lines { lines } => assert_eq!(
            lines,
            [
                "  keys:             4",
                "  size on disk:     2.000 KB",
                "  size in memory:   32 B",
                "  key size (min):   1 bytes",
                "  key size (mean):  2 bytes",
                "  key size (max):   3 bytes",
            ]
        ),
        other => panic!("{:?}", other),
    }
    assert!(matches!(print_info_response(&Response::Okay(vec![0; 23])), Report::Malformed));
    match print_info_response(&Response::DbNotFound(b"Database not found".to_vec())) {
        Report::Line { line } => assert_eq!(line, "Error: Database not found"),
        other => panic!("{:?}", other),
    }
}

#[test]
fn statistics_read_as_lines_below_the_uptime() {
    let stats = StatsPacket { uptime_bits: 2.25f64.to_bits(), total_dbs: 5, total_active_connections: 6 };
    match print_stats_response(&Response::Okay(stats.to_bytes())) {
        (bits, Report::Lines { lines }) => {
            assert_eq!(f64::from_bits(bits), 2.25);
            assert_eq!(lines, ["  databases:        5", "  active conns:     6"]);
        }
        other => panic!("{:?}", other),
    }
    assert!(matches!(print_stats_response(&Response::Okay(Vec::new())), (_, Report::Malformed)));
    assert!(matches!(print_stats_response(&Response::Pong(Vec::new())), (_, Report::Line { .. })));
}
