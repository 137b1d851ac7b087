use mini_db::bench::{
    check_response, encode_get, encode_set, is_get, print_config, share_workload, validate, Args, ArgsError, Client,
    KeySpace, Latencies, Miscount, Workload,
};
use mini_db::protocol::Response;

fn args() -> Args {
    Args {
        server_addr: "127.0.0.1:8787".to_string(),
        db_name: "default".to_string(),
        clients: 32,
        operations: 256_000,
        keyspace: 16_384,
        key_size: 16,
        value_size: 128,
        warmup: 1024,
        workload: Workload::ReadOverwrite,
        read_percent: 80,
    }
}

fn rejected(args: Args) -> (ArgsError, String) {
    let error = validate(&args).unwrap_err();
    (error, error.message())
}

#[test]
fn the_default_settings_are_shown_as_documented() {
    assert!(validate(&args()).is_ok());
    assert_eq!(
        print_config(&args()),
        [
            "Mini-db e2e benchmark",
            "  server:    127.0.0.1:8787",
            "  db:        default",
            "  workload:  ReadOverwrite",
            "  clients:   32",
            "  ops:       256000",
            "  keyspace:  16384",
            "  key/value: 16/128 bytes",
            "  mix:       80% GET / 20% SET",
            "  warmup:    1024",
            "",
        ]
    );
    let reads = Args { workload: Workload::Read, ..args() };
    let lines = print_config(&reads);
    assert_eq!(lines.len(), 10);
    assert_eq!(lines[3], "  workload:  Read");
    assert_eq!(Workload::Write.name(), "Write");
}

#[test]
fn settings_that_make_no_run_are_rejected() {
    assert_eq!(
        rejected(Args { clients: 0, ..args() }),
        (ArgsError::Clients, "--clients must be greater than zero".to_string())
    );
    assert_eq!(
        rejected(Args { operations: 127, ..args() }),
        (ArgsError::Operations, "--operations must be at least 128".to_string())
    );
    assert_eq!(
        rejected(Args { keyspace: 4095, ..args() }),
        (ArgsError::Keyspace, "--keyspace must be at least 4096".to_string())
    );
    assert_eq!(
        rejected(Args { key_size: 0, ..args() }),
        (ArgsError::KeySize, "--key-size must be greater than zero".to_string())
    );
    assert_eq!(
        rejected(Args { value_size: 0, ..args() }),
        (ArgsError::ValueSize, "--value-size must be greater than zero".to_string())
    );
    for read_percent in [0, 100, 255] {
        assert_eq!(
            rejected(Args { read_percent, ..args() }),
            (ArgsError::ReadPercent, "--read-percent must be 0..99".to_string())
        );
    }
    assert!(validate(&Args { operations: 128, keyspace: 4096, read_percent: 99, ..args() }).is_ok());
    // the first setting that is wrong is named
    assert_eq!(rejected(Args { clients: 0, operations: 0, ..args() }).0, ArgsError::Clients);
}

#[test]
fn the_workload_is_shared_out() {
    assert_eq!(share_workload(10, 3, 0), 4);
    assert_eq!(share_workload(10, 3, 1), 3);
    assert_eq!(share_workload(10, 3, 2), 3);
    assert_eq!(share_workload(usize::MAX, 1, 0), usize::MAX);
    for (total, clients) in [(0, 4), (3, 7), (1024, 32), (1000, 7)] {
        let shares: Vec<usize> = (0..clients).map(|id| share_workload(total, clients, id)).collect();
        assert_eq!(shares.iter().sum::<usize>(), total);
        assert!(shares.iter().max().unwrap() - shares.iter().min().unwrap() <= 1);
    }
}

#[test]
fn keys_and_values_are_cut_from_bytes() {
    let space = KeySpace::cut(3, b"aabbcc".to_vec(), 2, b"111222333".to_vec(), 3);
    assert_eq!(space.len(), 3);
    assert_eq!(space.get_key(0), b"aa");
    assert_eq!(space.get_key(2), b"cc");
    assert_eq!(space.get_value(1), b"222");
    let mut buffer = vec![1, 2, 3];
    space.fill_request(&mut buffer, "db", 1);
    assert_eq!(
        buffer,
        [7, 2, 2, 0, 0, 0, 3, 0, 0, 0, b'd', b'b', b'b', b'b', b'2', b'2', b'2']
    );
}

#[test]
fn values_may_be_empty() {
    let space = KeySpace::init(5, 4, 0);
    assert_eq!(space.len(), 5);
    for i in 0..5 {
        assert_eq!(space.get_key(i).len(), 4);
        assert_eq!(space.get_value(i), b"");
    }
    let space = KeySpace::cut(2, b"aabb".to_vec(), 2, Vec::new(), 0);
    assert_eq!((space.get_key(0), space.get_key(1)), (&b"aa"[..], &b"bb"[..]));
}

#[test]
fn random_keys_have_their_sizes_and_differ() {
    let space = KeySpace::init(64, 16, 5);
    assert_eq!(space.len(), 64);
    for i in 0..64 {
        assert_eq!(space.get_key(i).len(), 16);
        assert_eq!(space.get_value(i).len(), 5);
    }
    // sixteen random bytes do not come twice
    assert_ne!(space.get_key(0), space.get_key(1));
    assert_ne!(space.get_key(0), [0; 16]);
    let other = KeySpace::init(64, 16, 5);
    assert_ne!(space.get_key(0), other.get_key(0));
}

#[test]
fn requests_follow_the_protocol() {
    let mut buffer = vec![9; 40];
    encode_get(&mut buffer, "d", b"key");
    assert_eq!(buffer, [6, 1, 3, 0, 0, 0, b'd', b'k', b'e', b'y']);
    encode_set(&mut buffer, "d", b"k", b"v");
    assert_eq!(buffer, [7, 1, 1, 0, 0, 0, 1, 0, 0, 0, b'd', b'k', b'v']);
}

#[test]
fn a_workload_decides_what_is_read() {
    for roll in [0, 50, 99] {
        assert!(is_get(Workload::Read, 1, roll));
        assert!(!is_get(Workload::Write, 99, roll));
    }
    assert!(is_get(Workload::ReadOverwrite, 80, 79));
    assert!(!is_get(Workload::ReadOverwrite, 80, 80));
}

#[test]
fn clients_send_requests_of_their_workload() {
    let space = KeySpace::cut(4, b"abcd".to_vec(), 1, b"wxyz".to_vec(), 1);
    let mut client = Client::new();
    assert!(client.request().is_empty());
    client.choose_request(&space, "d", true, 2, 0);
    assert_eq!(client.request(), [6, 1, 1, 0, 0, 0, b'd', b'c']);
    client.choose_request(&space, "d", false, 2, 3);
    assert_eq!(client.request(), [7, 1, 1, 0, 0, 0, 1, 0, 0, 0, b'd', b'c', b'z']);

    let mut reads = 0;
    let mut keys = [false; 4];
    for _ in 0..2000 {
        assert!(client.next_request(&space, "d", Workload::Read, 1));
        assert_eq!(client.request().len(), 8);
        keys[(client.request()[7] - b'a') as usize] = true;
        assert!(!client.next_request(&space, "d", Workload::Write, 99));
        assert_eq!(client.request().len(), 13);
        if client.next_request(&space, "d", Workload::ReadOverwrite, 80) {
            reads += 1;
            assert_eq!(client.request()[0], 6);
        } else {
            assert_eq!(client.request()[0], 7);
        }
    }
    assert!(keys.iter().all(|key| *key));
    assert!((1400..1800).contains(&reads));
}

#[test]
fn answers_have_to_fit_the_request() {
    let payload = Vec::new();
    assert!(check_response(&Response::KeyValue(payload.clone()), true));
    assert!(check_response(&Response::Okay(payload.clone()), false));
    assert!(!check_response(&Response::KeyValue(payload.clone()), false));
    assert!(!check_response(&Response::Okay(payload.clone()), true));
    for get in [true, false] {
        assert!(!check_response(&Response::KeyNotFound(payload.clone()), get));
        assert!(!check_response(&Response::InternalError(payload.clone()), get));
    }
}

#[test]
fn times_are_put_in_order() {
    let latencies = match Latencies::init(vec![30, 10, 20, 10], 4) {
        Ok(latencies) => latencies,
        Err(_) => panic!("four times of four operations"),
    };
    assert_eq!(latencies.min(), 10);
    assert_eq!(latencies.max(), 30);
    assert_eq!(latencies.mean(), 17);
    let ranks: Vec<u64> = (0..7).map(|rank| latencies.percentile(rank)).collect();
    assert_eq!(ranks, [10, 10, 10, 20, 30, 30, 30]);
}

#[test]
fn the_mean_of_long_times_does_not_overflow() {
    let latencies = Latencies::init(vec![u64::MAX; 3], 3).ok().unwrap();
    assert_eq!(latencies.mean(), u64::MAX);
}

#[test]
fn missing_times_are_noticed() {
    match Latencies::init(vec![1, 2], 3) {
        Err(error) => {
            assert_eq!(error, Miscount { recorded: 2, expected: 3 });
            assert_eq!(error.message(), "recorded 2 ops, expected 3");
        }
        Ok(_) => panic!("a time is missing"),
    }
}
