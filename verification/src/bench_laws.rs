//! What holds of every run of the benchmark.
use crate::bench::{
    at_rank, check_response, encode_get, encode_set, is_get, mean_of, print_config, share_of,
    share_workload, sorted, total, validate, Args, ArgsError, Client, KeySpace, Latencies,
    Miscount, Workload,
};
use crate::protocol::Response;
use crate::protocol_laws::{is_request, law_key_frame_layout, law_set_frame_layout};
use crate::text::decimal;
use vstd::prelude::*;
use vstd::utf8::encode_utf8;

verus! {

/// A run can have exactly these settings: at least one client, 128 operations and 4096 keys,
/// keys and values that are not empty, and from 1 to 99 reads in a hundred. Otherwise the first
/// setting that is wrong is named.
pub proof fn law_settings_of_a_run(args: Args, result: Result<(), ArgsError>)
    requires
        call_ensures(validate, (&args,), result),
    ensures
        result is Ok <==> args.clients >= 1 && args.operations >= 128 && args.keyspace >= 4096
            && args.key_size >= 1 && args.value_size >= 1 && 1 <= args.read_percent <= 99,
        result matches Err(error) ==> match error {
            ArgsError::Clients => args.clients == 0,
            ArgsError::Operations => args.clients > 0 && args.operations < 128,
            ArgsError::Keyspace => args.clients > 0 && args.operations >= 128 && args.keyspace
                < 4096,
            ArgsError::KeySize => args.clients > 0 && args.operations >= 128 && args.keyspace
                >= 4096 && args.key_size == 0,
            ArgsError::ValueSize => args.clients > 0 && args.operations >= 128 && args.keyspace
                >= 4096 && args.key_size > 0 && args.value_size == 0,
            ArgsError::ReadPercent => args.clients > 0 && args.operations >= 128 && args.keyspace
                >= 4096 && args.key_size > 0 && args.value_size > 0 && (args.read_percent == 0
                || args.read_percent >= 100),
        },
{
}

/// Each refusal of a setting has its words.
pub proof fn law_refused_settings_have_words(error: ArgsError, message: String)
    requires
        call_ensures(ArgsError::message, (&error,), message),
    ensures
        match error {
            ArgsError::Clients => message@ == "--clients must be greater than zero"@,
            ArgsError::Operations => message@ == "--operations must be at least 128"@,
            ArgsError::Keyspace => message@ == "--keyspace must be at least 4096"@,
            ArgsError::KeySize => message@ == "--key-size must be greater than zero"@,
            ArgsError::ValueSize => message@ == "--value-size must be greater than zero"@,
            ArgsError::ReadPercent => message@ == "--read-percent must be 0..99"@,
        },
{
}

/// The settings are shown one in a line, each behind its label and whole; the mix only where
/// there is one.
pub proof fn law_settings_are_shown(args: Args, lines: Vec<String>)
    requires
        args.workload is ReadOverwrite ==> args.read_percent <= 100,
        call_ensures(print_config, (&args,), lines),
    ensures
        ({
            let n = lines@.len() as int;
            &&& n == if args.workload is ReadOverwrite {
                11
            } else {
                10int
            }
            &&& lines@[0]@ == "Mini-db e2e benchmark"@
            &&& lines@[1]@ == "  server:    "@ + args.server_addr@
            &&& lines@[2]@ == "  db:        "@ + args.db_name@
            &&& lines@[3]@ == "  workload:  "@ + match args.workload {
                Workload::Read => "Read"@,
                Workload::Write => "Write"@,
                Workload::ReadOverwrite => "ReadOverwrite"@,
            }
            &&& lines@[4]@ == "  clients:   "@ + decimal(args.clients as nat)
            &&& lines@[5]@ == "  ops:       "@ + decimal(args.operations as nat)
            &&& lines@[6]@ == "  keyspace:  "@ + decimal(args.keyspace as nat)
            &&& lines@[7]@ == "  key/value: "@ + decimal(args.key_size as nat) + "/"@ + decimal(
                args.value_size as nat,
            ) + " bytes"@
            &&& args.workload is ReadOverwrite ==> lines@[8]@ == "  mix:       "@ + decimal(
                args.read_percent as nat,
            ) + "% GET / "@ + decimal((100 - args.read_percent) as nat) + "% SET"@
            &&& lines@[n - 2]@ == "  warmup:    "@ + decimal(args.warmup as nat)
            &&& lines@[n - 1]@.len() == 0
        }),
{
    let texts = crate::bench::config_lines(args);
    let mapped = lines@.map_values(|l: String| l@);
    assert(mapped == texts);
    assert(lines@.len() == texts.len());
    assert forall|i: int| 0 <= i < lines@.len() implies (#[trigger] lines@[i])@ == texts[i] by {
        assert(mapped[i] == lines@[i]@);
    }
    reveal_strlit("");
}

/// All operations are shared out, the first clients get one more where it does not come out
/// even, and a call gives a client its share.
pub proof fn law_shares_go_down(total: usize, clients: usize, a: usize, b: usize, share: usize)
    requires
        clients > 0,
        call_ensures(share_workload, (total, clients, a), share),
    ensures
        share == share_of(total as nat, clients as nat, a as nat),
        a <= b ==> share_of(total as nat, clients as nat, b as nat) <= share,
        share * clients <= total + clients - 1,
        total < (share + 1) * clients,
        a < total % clients <==> share * clients > total - total % clients,
{
    let each = total as int / clients as int;
    let left = total as int % clients as int;
    assert(total == clients * each + left && 0 <= left < clients) by (nonlinear_arith)
        requires
            clients > 0,
            each == total as int / clients as int,
            left == total as int % clients as int,
    ;
    assert(each * clients == clients * each && (each + 1) * clients == clients * each + clients && (
    each + 2) * clients == clients * each + 2 * clients) by (nonlinear_arith);
}

/// Keys and values are cut from their bytes one behind the other, without a gap and without an
/// overlap.
pub proof fn law_keys_are_cut_from_their_bytes(
    keyspace: usize,
    keys: Vec<u8>,
    key_size: usize,
    values: Vec<u8>,
    value_size: usize,
    space: KeySpace,
    index: usize,
    key: &[u8],
    value: &[u8],
    len: usize,
)
    requires
        key_size > 0,
        keys@.len() == keyspace * key_size,
        values@.len() == keyspace * value_size,
        call_ensures(KeySpace::cut, (keyspace, keys, key_size, values, value_size), space),
        call_ensures(KeySpace::len, (&space,), len),
        index < keyspace,
        call_ensures(KeySpace::get_key, (&space, index), key),
        call_ensures(KeySpace::get_value, (&space, index), value),
    ensures
        len == keyspace,
        key@.len() == key_size,
        value@.len() == value_size,
        forall|i: int| 0 <= i < key_size ==> #[trigger] key@[i] == keys@[index * key_size + i],
        forall|i: int|
            0 <= i < value_size ==> #[trigger] value@[i] == values@[index * value_size + i],
{
    assert(0 <= index * key_size && index * key_size + key_size <= keyspace * key_size)
        by (nonlinear_arith)
        requires
            index < keyspace,
    ;
    assert(0 <= index * value_size && index * value_size + value_size <= keyspace * value_size)
        by (nonlinear_arith)
        requires
            index < keyspace,
    ;
}

/// A new key space has as many keys and values as it is asked for, all of the sizes that it is
/// asked for.
pub proof fn law_key_space_is_as_asked_for(
    keyspace: usize,
    key_size: usize,
    value_size: usize,
    space: KeySpace,
    index: usize,
    key: &[u8],
    value: &[u8],
    len: usize,
    fresh: Client,
)
    requires
        call_ensures(KeySpace::init, (keyspace, key_size, value_size), space),
        call_ensures(KeySpace::len, (&space,), len),
        index < keyspace,
        call_ensures(KeySpace::get_key, (&space, index), key),
        call_ensures(KeySpace::get_value, (&space, index), value),
        call_ensures(Client::new, (), fresh),
    ensures
        len == keyspace,
        key@.len() == key_size,
        value@.len() == value_size,
        fresh@.len() == 0,
{
}

/// A request for a key has the whole key in it, and one to store has the whole value too;
/// nothing of an earlier request is left.
pub proof fn law_benchmark_requests(
    get: &mut Vec<u8>,
    set: &mut Vec<u8>,
    name: &str,
    key: &[u8],
    value: &[u8],
)
    requires
        call_ensures(encode_get, (get, name, key), ()),
        call_ensures(encode_set, (set, name, key, value), ()),
    ensures
        is_request(final(get)@, 6, encode_utf8(name@), Some(key@), None),
        is_request(final(set)@, 7, encode_utf8(name@), Some(key@), Some(value@)),
{
    law_key_frame_layout(crate::protocol::Operation::Get, encode_utf8(name@), key@);
    law_set_frame_layout(encode_utf8(name@), key@, value@);
}

/// A client asks for the key that was chosen, or stores the value that was chosen under it; so
/// does the filling of the database, with key and value of the same number.
pub proof fn law_chosen_request_is_made(
    client: &mut Client,
    after: Client,
    sent: &[u8],
    space: KeySpace,
    name: &str,
    get: bool,
    key_index: usize,
    value_index: usize,
    key: &[u8],
    value: &[u8],
    buffer: &mut Vec<u8>,
)
    requires
        space.wf(),
        key_index < space@.keys.len(),
        value_index < space@.values.len(),
        call_ensures(
            Client::choose_request,
            (client, &space, name, get, key_index, value_index),
            (),
        ),
        after@ == final(client)@,
        call_ensures(Client::request, (&after,), sent),
        call_ensures(KeySpace::get_key, (&space, key_index), key),
        call_ensures(KeySpace::get_value, (&space, value_index), value),
        call_ensures(KeySpace::fill_request, (&space, buffer, name, key_index), ()),
    ensures
        get ==> is_request(sent@, 6, encode_utf8(name@), Some(key@), None),
        !get ==> is_request(sent@, 7, encode_utf8(name@), Some(key@), Some(value@)),
        key_index == value_index ==> is_request(
            final(buffer)@,
            7,
            encode_utf8(name@),
            Some(key@),
            Some(value@),
        ),
{
    law_key_frame_layout(crate::protocol::Operation::Get, encode_utf8(name@), key@);
    law_set_frame_layout(encode_utf8(name@), key@, value@);
}

/// Whatever is drawn, a client that only reads sends a read of one of the keys, one that only
/// writes sends a write of one of the keys with one of the values, and a mixed one sends either.
pub proof fn law_drawn_request_is_of_the_workload(
    client: &mut Client,
    space: KeySpace,
    name: &str,
    workload: Workload,
    read_percent: u8,
    get: bool,
)
    requires
        space.wf(),
        space@.keys.len() > 0,
        call_ensures(
            Client::next_request,
            (client, &space, name, workload, read_percent),
            get,
        ),
    ensures
        workload is Read ==> get,
        workload is Write ==> !get,
        workload is ReadOverwrite && read_percent == 0 ==> !get,
        workload is ReadOverwrite && read_percent >= 100 ==> get,
        get ==> exists|k: int|
            0 <= k < space@.keys.len() && is_request(
                final(client)@,
                6,
                encode_utf8(name@),
                Some(#[trigger] space@.keys[k]),
                None,
            ),
        !get ==> exists|k: int, v: int|
            0 <= k < space@.keys.len() && 0 <= v < space@.values.len() && is_request(
                final(client)@,
                7,
                encode_utf8(name@),
                Some(#[trigger] space@.keys[k]),
                Some(#[trigger] space@.values[v]),
            ),
{
    let (k, v) = choose|k: int, v: int|
        0 <= k < space@.keys.len() && 0 <= v < space@.values.len() && final(client)@
            == #[trigger] crate::bench::operation_frame(space@, name@, get, k, v);
    law_key_frame_layout(crate::protocol::Operation::Get, encode_utf8(name@), space@.keys[k]);
    law_set_frame_layout(encode_utf8(name@), space@.keys[k], space@.values[v]);
}

/// Of a hundred rolls as many read as the setting says, in a mixed workload; in the others all
/// or none.
pub proof fn law_rolls_decide(workload: Workload, read_percent: u8, roll: usize, get: bool)
    requires
        call_ensures(is_get, (workload, read_percent, roll), get),
    ensures
        workload is Read ==> get,
        workload is Write ==> !get,
        workload is ReadOverwrite ==> (get <==> roll < read_percent),
{
}

/// A read succeeds with a value and with nothing else, a write with an acknowledgement and with
/// nothing else.
pub proof fn law_success_is_told_from_failure(response: Response, read: bool, write: bool)
    requires
        call_ensures(check_response, (&response, true), read),
        call_ensures(check_response, (&response, false), write),
    ensures
        read <==> response is KeyValue,
        write <==> response is Okay,
{
}

/// The sum of times.
pub open spec fn sum_of(times: Seq<u64>) -> int {
    times.fold_left(0int, |sum: int, time: u64| sum + time)
}

proof fn lemma_total_is_sum(times: Seq<u64>)
    ensures
        total(times) == sum_of(times),
    decreases times.len(),
{
    if times.len() > 0 {
        lemma_total_is_sum(times.drop_last());
    }
}

/// The times of a run are kept, all of them, if there are as many as operations; else it is told
/// how many there are.
pub proof fn law_times_are_kept(
    times: Vec<u64>,
    completed: usize,
    result: Result<Latencies, Miscount>,
)
    requires
        completed > 0,
        call_ensures(Latencies::init, (times, completed), result),
    ensures
        result is Ok <==> times@.len() == completed,
        result matches Ok(latencies) ==> {
            &&& latencies@.len() == completed
            &&& latencies@.to_multiset() == times@.to_multiset()
            &&& forall|i: int, j: int|
                0 <= i <= j < latencies@.len() ==> latencies@[i] <= latencies@[j]
        },
        result matches Err(error) ==> error.recorded == times@.len() && error.expected
            == completed,
{
    assert(times.len() == times@.len());
    if let Ok(latencies) = result {
        times@.to_multiset_ensures();
        latencies@.to_multiset_ensures();
    }
}

/// The words for times that are missing.
pub proof fn law_miscount_has_its_words(error: Miscount, message: String)
    requires
        call_ensures(Miscount::message, (&error,), message),
    ensures
        message@ == "recorded "@ + decimal(error.recorded as nat) + " ops, expected "@ + decimal(
            error.expected as nat,
        ),
{
}

/// The shortest and the longest time are those of all, the mean times the number of times is
/// their sum, rounded down, and the time at a rank has as many times up to it as the rank says.
pub proof fn law_times_are_summed_up(
    latencies: Latencies,
    min: u64,
    max: u64,
    mean: u64,
    rank: usize,
    time: u64,
)
    requires
        latencies.wf(),
        call_ensures(Latencies::min, (&latencies,), min),
        call_ensures(Latencies::max, (&latencies,), max),
        call_ensures(Latencies::mean, (&latencies,), mean),
        call_ensures(Latencies::percentile, (&latencies, rank), time),
    ensures
        ({
            let times = latencies@;
            let n = times.len() as int;
            &&& forall|i: int| 0 <= i < n ==> min <= #[trigger] times[i] <= max
            &&& times.contains(min)
            &&& times.contains(max)
            &&& mean * n <= sum_of(times) < (mean + 1) * n
            &&& 1 <= rank <= n ==> time == times[rank - 1]
            &&& rank == 0 ==> time == min
            &&& rank > n ==> time == max
        }),
{
    let times = latencies@;
    let n = times.len() as int;
    lemma_total_is_sum(times);
    let sum = sum_of(times);
    assert(mean * n <= sum < (mean + 1) * n) by (nonlinear_arith)
        requires
            mean == sum / n,
            n > 0,
            sum >= 0,
    ;
    assert(times[0] == min && times[n - 1] == max);
    assert(sorted(times));
    assert(at_rank(times, rank as nat) == time);
    assert(mean_of(times) == mean);
}

} // verus!
