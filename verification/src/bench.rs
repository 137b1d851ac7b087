//! The benchmark client: its settings, its keys and values, the requests it sends, and
//! what it makes of the times that they took.
use crate::protocol::{key_frame, send_get, send_set, set_frame, Operation, Response};
use crate::text::{decimal, owned, push_decimal};
use rand::rngs::SmallRng;
use vstd::prelude::*;
use vstd::string::StringExecFns;
use vstd::utf8::encode_utf8;

verus! {

/// What the clients do.
#[derive(Clone, Copy, Debug, Eq, PartialEq, Structural)]
pub enum Workload {
    /// Only reads.
    Read,
    /// Only writes.
    Write,
    /// Reads and writes of keys that are there.
    ReadOverwrite,
}

impl Workload {
    /// The name of the workload.
    pub open spec fn text(self) -> Seq<char> {
        match self {
            Workload::Read => "Read"@,
            Workload::Write => "Write"@,
            Workload::ReadOverwrite => "ReadOverwrite"@,
        }
    }

    /// The name of the workload.
    pub fn name(&self) -> (name: &'static str)
        ensures
            name@ == self.text(),
    {
        match self {
            Workload::Read => "Read",
            Workload::Write => "Write",
            Workload::ReadOverwrite => "ReadOverwrite",
        }
    }
}

/// The settings of a run.
#[derive(Debug)]
pub struct Args {
    /// Address of a server that is running.
    pub server_addr: String,
    /// The database that the run works on.
    pub db_name: String,
    /// Number of clients at work at the same time.
    pub clients: usize,
    /// Number of operations of all clients together.
    pub operations: usize,
    /// Number of keys.
    pub keyspace: usize,
    /// Bytes of a key.
    pub key_size: usize,
    /// Bytes of a value.
    pub value_size: usize,
    /// Operations before the measurement starts.
    pub warmup: usize,
    /// What the clients do.
    pub workload: Workload,
    /// How many of a hundred operations of a mixed workload are reads.
    pub read_percent: u8,
}

/// Why a run is not started.
#[derive(Clone, Copy, Debug, Eq, PartialEq, Structural)]
pub enum ArgsError {
    Clients,
    Operations,
    Keyspace,
    KeySize,
    ValueSize,
    ReadPercent,
}

impl ArgsError {
    /// The error in words.
    pub open spec fn text(self) -> Seq<char> {
        match self {
            ArgsError::Clients => "--clients must be greater than zero"@,
            ArgsError::Operations => "--operations must be at least 128"@,
            ArgsError::Keyspace => "--keyspace must be at least 4096"@,
            ArgsError::KeySize => "--key-size must be greater than zero"@,
            ArgsError::ValueSize => "--value-size must be greater than zero"@,
            ArgsError::ReadPercent => "--read-percent must be 0..99"@,
        }
    }

    /// The error in words.
    pub fn message(&self) -> (message: String)
        ensures
            message@ == self.text(),
    {
        match self {
            ArgsError::Clients => owned("--clients must be greater than zero"),
            ArgsError::Operations => owned("--operations must be at least 128"),
            ArgsError::Keyspace => owned("--keyspace must be at least 4096"),
            ArgsError::KeySize => owned("--key-size must be greater than zero"),
            ArgsError::ValueSize => owned("--value-size must be greater than zero"),
            ArgsError::ReadPercent => owned("--read-percent must be 0..99"),
        }
    }
}

/// The first setting that a run cannot have.
pub open spec fn args_error(args: Args) -> Option<ArgsError> {
    if args.clients == 0 {
        Some(ArgsError::Clients)
    } else if args.operations < 128 {
        Some(ArgsError::Operations)
    } else if args.keyspace < 4096 {
        Some(ArgsError::Keyspace)
    } else if args.key_size == 0 {
        Some(ArgsError::KeySize)
    } else if args.value_size == 0 {
        Some(ArgsError::ValueSize)
    } else if args.read_percent == 0 || args.read_percent >= 100 {
        Some(ArgsError::ReadPercent)
    } else {
        None
    }
}

/// Whether a run can have these settings.
pub fn validate(args: &Args) -> (result: Result<(), ArgsError>)
    ensures
        match result {
            Ok(_) => args_error(*args) is None,
            Err(error) => args_error(*args) == Some(error),
        },
{
    if args.clients == 0 {
        return Err(ArgsError::Clients);
    }
    if args.operations < 128 {
        return Err(ArgsError::Operations);
    }
    if args.keyspace < 4096 {
        return Err(ArgsError::Keyspace);
    }
    if args.key_size == 0 {
        return Err(ArgsError::KeySize);
    }
    if args.value_size == 0 {
        return Err(ArgsError::ValueSize);
    }
    if args.read_percent == 0 || args.read_percent >= 100 {
        return Err(ArgsError::ReadPercent);
    }
    Ok(())
}

/// The lines that show the settings of a run.
pub open spec fn config_lines(args: Args) -> Seq<Seq<char>> {
    let first = seq![
        "Mini-db e2e benchmark"@,
        "  server:    "@ + args.server_addr@,
        "  db:        "@ + args.db_name@,
        "  workload:  "@ + args.workload.text(),
        "  clients:   "@ + decimal(args.clients as nat),
        "  ops:       "@ + decimal(args.operations as nat),
        "  keyspace:  "@ + decimal(args.keyspace as nat),
        "  key/value: "@ + decimal(args.key_size as nat) + "/"@ + decimal(args.value_size as nat)
            + " bytes"@,
    ];
    let mix = if args.workload is ReadOverwrite {
        seq![
            "  mix:       "@ + decimal(args.read_percent as nat) + "% GET / "@ + decimal(
                (100 - args.read_percent) as nat,
            ) + "% SET"@,
        ]
    } else {
        seq![]
    };
    let last = seq!["  warmup:    "@ + decimal(args.warmup as nat), ""@];
    first + mix + last
}

/// A label and a text.
fn text_line(label: &str, text: &str) -> (line: String)
    ensures
        line@ == label@ + text@,
{
    let mut line = owned(label);
    line.append(text);
    line
}

/// A label and a number.
fn number_line(label: &str, n: usize) -> (line: String)
    ensures
        line@ == label@ + decimal(n as nat),
{
    let mut line = owned(label);
    push_decimal(&mut line, n as u128);
    line
}

/// The lines that show the settings of a run.
pub fn print_config(args: &Args) -> (lines: Vec<String>)
    requires
        args.workload is ReadOverwrite ==> args.read_percent <= 100,
    ensures
        lines@.map_values(|l: String| l@) == config_lines(*args),
{
    let mut lines: Vec<String> = Vec::new();
    lines.push(owned("Mini-db e2e benchmark"));
    lines.push(text_line("  server:    ", args.server_addr.as_str()));
    lines.push(text_line("  db:        ", args.db_name.as_str()));
    lines.push(text_line("  workload:  ", args.workload.name()));
    lines.push(number_line("  clients:   ", args.clients));
    lines.push(number_line("  ops:       ", args.operations));
    lines.push(number_line("  keyspace:  ", args.keyspace));
    let mut sizes = number_line("  key/value: ", args.key_size);
    sizes.append("/");
    push_decimal(&mut sizes, args.value_size as u128);
    sizes.append(" bytes");
    lines.push(sizes);
    if let Workload::ReadOverwrite = args.workload {
        let mut mix = number_line("  mix:       ", args.read_percent as usize);
        mix.append("% GET / ");
        push_decimal(&mut mix, (100 - args.read_percent) as u128);
        mix.append("% SET");
        lines.push(mix);
    }
    lines.push(number_line("  warmup:    ", args.warmup));
    lines.push(owned(""));
    assert(lines@.map_values(|l: String| l@) =~= config_lines(*args));
    lines
}

/// How many of `total` operations the client `id` of `clients` performs.
pub open spec fn share_of(total: nat, clients: nat, id: nat) -> nat {
    total / clients + if id < total % clients {
        1nat
    } else {
        0nat
    }
}

/// How many of `total` operations the client `id` of `clients` performs.
pub fn share_workload(total: usize, clients: usize, id: usize) -> (share: usize)
    requires
        clients > 0,
    ensures
        share == share_of(total as nat, clients as nat, id as nat),
{
    let each = total / clients;
    let left = total % clients;
    if id < left {
        assert(each < usize::MAX) by (nonlinear_arith)
            requires
                each == total / clients,
                clients > 1,
                total <= usize::MAX,
        ;
        each + 1
    } else {
        each
    }
}

/// How many of `total` operations the first `n` of `clients` perform.
pub open spec fn shares_of_first(total: nat, clients: nat, n: nat) -> nat
    decreases n,
{
    if n == 0 {
        0
    } else {
        shares_of_first(total, clients, (n - 1) as nat) + share_of(
            total,
            clients,
            (n - 1) as nat,
        )
    }
}

/// All clients together perform all operations, and no client performs more than one
/// operation more than another.
pub proof fn law_workload_is_shared(total: nat, clients: nat, a: nat, b: nat)
    requires
        clients > 0,
    ensures
        shares_of_first(total, clients, clients) == total,
        share_of(total, clients, a) <= share_of(total, clients, b) + 1,
{
    lemma_shares_of_first(total, clients, clients);
    let each = total / clients;
    let left = total % clients;
    assert(total == clients * each + left && left < clients) by (nonlinear_arith)
        requires
            clients > 0,
            each == total / clients,
            left == total % clients,
    ;
}

proof fn lemma_shares_of_first(total: nat, clients: nat, n: nat)
    requires
        clients > 0,
    ensures
        shares_of_first(total, clients, n) == n * (total / clients) + if n < total % clients {
            n
        } else {
            total % clients
        },
    decreases n,
{
    let each = total / clients;
    if n > 0 {
        lemma_shares_of_first(total, clients, (n - 1) as nat);
        assert((n - 1) * each + each == n * each) by (nonlinear_arith);
    } else {
        assert(0 * each == 0) by (nonlinear_arith);
    }
}

/// `rand::rngs::SmallRng`, a generator of random numbers.
#[verifier::external_type_specification]
#[verifier::external_body]
pub struct ExSmallRng(SmallRng);

/// Calls `rand::Rng::fill_bytes` on the generator of the thread, `rand::rng()`: the
/// vector keeps its length, and nothing is said of its bytes, which are left to chance.
#[verifier::external_body]
fn fill_random(bytes: &mut Vec<u8>)
    ensures
        final(bytes)@.len() == old(bytes)@.len(),
{
    rand::Rng::fill_bytes(&mut rand::rng(), bytes.as_mut_slice())
}

/// Calls `rand::SeedableRng::from_rng` on the generator of the thread, `rand::rng()`:
/// a generator, of which nothing is said.
#[verifier::external_body]
fn seeded_rng() -> (rng: SmallRng) {
    rand::SeedableRng::from_rng(&mut rand::rng())
}

/// Calls `rand::RngExt::random_range` with the range from zero to `n`: some number
/// below `n`.
#[verifier::external_body]
fn random_below(rng: &mut SmallRng, n: usize) -> (i: usize)
    requires
        n > 0,
    ensures
        i < n,
{
    rand::RngExt::random_range(rng, 0..n)
}

/// The part number `i` of a byte string that is cut into parts of `size` bytes.
pub open spec fn part(bytes: Seq<u8>, size: nat, i: int) -> Seq<u8> {
    bytes.subrange(i * size, i * size + size)
}

/// The first `count` parts of a byte string that is cut into parts of `size` bytes.
pub open spec fn parts(bytes: Seq<u8>, size: nat, count: nat) -> Seq<Seq<u8>> {
    Seq::new(count, |i: int| part(bytes, size, i))
}

/// The keys and values that a run works with.
pub struct KeySpace {
    keys: Vec<u8>,
    key_size: usize,
    values: Vec<u8>,
    value_size: usize,
}

/// The keys and values that a run works with.
#[verifier::ext_equal]
pub struct KeySpaceView {
    pub keys: Seq<Seq<u8>>,
    pub values: Seq<Seq<u8>>,
}

impl View for KeySpace {
    type V = KeySpaceView;

    closed spec fn view(&self) -> KeySpaceView {
        let count = self.keys@.len() / self.key_size as nat;
        KeySpaceView {
            keys: parts(self.keys@, self.key_size as nat, count),
            values: parts(self.values@, self.value_size as nat, count),
        }
    }
}

proof fn lemma_part_ends(size: nat, count: nat, i: nat)
    requires
        i < count,
    ensures
        0 <= i * size,
        i * size + size <= count * size,
{
    assert(0 <= i * size && i * size + size <= count * size) by (nonlinear_arith)
        requires
            i < count,
    ;
}

impl KeySpace {
    /// Whether there are as many values as keys.
    pub closed spec fn wf(&self) -> bool {
        let count = self.keys@.len() / self.key_size as nat;
        &&& self.key_size > 0
        &&& self.keys@.len() == count * self.key_size
        &&& self.values@.len() == count * self.value_size
    }

    /// Makes `keyspace` random keys and as many random values.
    pub fn init(keyspace: usize, key_size: usize, value_size: usize) -> (space: Self)
        requires
            key_size > 0,
            keyspace * key_size <= isize::MAX,
            keyspace * value_size <= isize::MAX,
        ensures
            space.wf(),
            space@.keys.len() == keyspace,
            space@.values.len() == keyspace,
            forall|i: int| 0 <= i < keyspace ==> (#[trigger] space@.keys[i]).len() == key_size,
            forall|i: int| 0 <= i < keyspace ==> (#[trigger] space@.values[i]).len() == value_size,
    {
        let mut keys: Vec<u8> = vec![0u8; keyspace * key_size];
        let mut values: Vec<u8> = vec![0u8; keyspace * value_size];
        fill_random(&mut keys);
        fill_random(&mut values);
        let space = Self::cut(keyspace, keys, key_size, values, value_size);
        proof {
            assert forall|i: int| 0 <= i < keyspace implies (#[trigger] space@.keys[i]).len()
                == key_size by {
                lemma_part_ends(key_size as nat, keyspace as nat, i as nat);
            }
            assert forall|i: int| 0 <= i < keyspace implies (#[trigger] space@.values[i]).len()
                == value_size by {
                lemma_part_ends(value_size as nat, keyspace as nat, i as nat);
            }
        }
        space
    }

    /// Cuts two byte strings into `keyspace` keys and as many values.
    pub fn cut(
        keyspace: usize,
        keys: Vec<u8>,
        key_size: usize,
        values: Vec<u8>,
        value_size: usize,
    ) -> (space: Self)
        requires
            key_size > 0,
            keys@.len() == keyspace * key_size,
            values@.len() == keyspace * value_size,
        ensures
            space.wf(),
            space@.keys == parts(keys@, key_size as nat, keyspace as nat),
            space@.values == parts(values@, value_size as nat, keyspace as nat),
    {
        assert(keyspace * key_size / key_size as int == keyspace) by (nonlinear_arith)
            requires
                key_size > 0,
        ;
        KeySpace { keys, key_size, values, value_size }
    }

    /// The key number `index`.
    pub fn get_key(&self, index: usize) -> (key: &[u8])
        requires
            self.wf(),
            index < self@.keys.len(),
        ensures
            key@ == self@.keys[index as int],
    {
        proof {
            let count = self.keys@.len() / self.key_size as nat;
            lemma_part_ends(self.key_size as nat, count, index as nat);
            assert(self.keys.len() == count * self.key_size);
        }
        let start = index * self.key_size;
        &self.keys.as_slice()[start..start + self.key_size]
    }

    /// The value number `index`.
    pub fn get_value(&self, index: usize) -> (value: &[u8])
        requires
            self.wf(),
            index < self@.values.len(),
        ensures
            value@ == self@.values[index as int],
    {
        proof {
            let count = self.keys@.len() / self.key_size as nat;
            lemma_part_ends(self.value_size as nat, count, index as nat);
            assert(self.values.len() == count * self.value_size);
        }
        let start = index * self.value_size;
        &self.values.as_slice()[start..start + self.value_size]
    }

    /// The number of keys, and of values.
    pub fn len(&self) -> (len: usize)
        requires
            self.wf(),
        ensures
            len == self@.keys.len(),
            len == self@.values.len(),
    {
        self.keys.len() / self.key_size
    }

    /// Leaves in `buffer` the request that stores the value number `index` under the
    /// key with the same number, and nothing else.
    pub fn fill_request(&self, buffer: &mut Vec<u8>, db_name: &str, index: usize)
        requires
            self.wf(),
            index < self@.keys.len(),
        ensures
            final(buffer)@ == set_frame(
                encode_utf8(db_name@),
                self@.keys[index as int],
                self@.values[index as int],
            ),
    {
        encode_set(buffer, db_name, self.get_key(index), self.get_value(index));
    }
}

/// Leaves in `buffer` the request for the value of a key, and nothing else.
pub fn encode_get(buffer: &mut Vec<u8>, db_name: &str, key: &[u8])
    ensures
        final(buffer)@ == key_frame(Operation::Get, encode_utf8(db_name@), key@),
{
    buffer.clear();
    send_get(buffer, db_name, key);
    assert(buffer@ =~= key_frame(Operation::Get, encode_utf8(db_name@), key@));
}

/// Leaves in `buffer` the request to give a key a value, and nothing else.
pub fn encode_set(buffer: &mut Vec<u8>, db_name: &str, key: &[u8], value: &[u8])
    ensures
        final(buffer)@ == set_frame(encode_utf8(db_name@), key@, value@),
{
    buffer.clear();
    send_set(buffer, db_name, key, value);
    assert(buffer@ =~= set_frame(encode_utf8(db_name@), key@, value@));
}

/// Whether an operation reads, if `roll` is a number below a hundred.
pub open spec fn reads(workload: Workload, read_percent: u8, roll: int) -> bool {
    match workload {
        Workload::Read => true,
        Workload::Write => false,
        Workload::ReadOverwrite => roll < read_percent,
    }
}

/// Whether an operation reads, if `roll` is a number below a hundred.
pub fn is_get(workload: Workload, read_percent: u8, roll: usize) -> (get: bool)
    ensures
        get == reads(workload, read_percent, roll as int),
{
    match workload {
        Workload::Read => true,
        Workload::Write => false,
        Workload::ReadOverwrite => roll < read_percent as usize,
    }
}

/// The request that an operation sends: for the value of the key number `key`, or to
/// give that key the value number `value`.
pub open spec fn operation_frame(
    space: KeySpaceView,
    db_name: Seq<char>,
    get: bool,
    key: int,
    value: int,
) -> Seq<u8> {
    if get {
        key_frame(Operation::Get, encode_utf8(db_name), space.keys[key])
    } else {
        set_frame(encode_utf8(db_name), space.keys[key], space.values[value])
    }
}

/// Whether `sent` is the request of some operation of a workload: one that reads if
/// `get`.
pub open spec fn is_operation(
    space: KeySpaceView,
    db_name: Seq<char>,
    workload: Workload,
    read_percent: u8,
    get: bool,
    sent: Seq<u8>,
) -> bool {
    &&& exists|roll: int| 0 <= roll < 100 && get == #[trigger] reads(workload, read_percent, roll)
    &&& exists|key: int, value: int|
        0 <= key < space.keys.len() && 0 <= value < space.values.len() && sent
            == #[trigger] operation_frame(space, db_name, get, key, value)
}

/// A client of a run: the source of its choices, and the request that it sends.
pub struct Client {
    rng: SmallRng,
    read_buf: Vec<u8>,
}

impl View for Client {
    type V = Seq<u8>;

    closed spec fn view(&self) -> Seq<u8> {
        self.read_buf@
    }
}

impl Client {
    /// A client that has sent no request yet.
    pub fn new() -> (client: Self)
        ensures
            client@ == Seq::<u8>::empty(),
    {
        Client { rng: seeded_rng(), read_buf: Vec::new() }
    }

    /// Chooses an operation at random, and says whether it reads.
    pub fn next_request(
        &mut self,
        space: &KeySpace,
        db_name: &str,
        workload: Workload,
        read_percent: u8,
    ) -> (get: bool)
        requires
            space.wf(),
            space@.keys.len() > 0,
        ensures
            is_operation(space@, db_name@, workload, read_percent, get, final(self)@),
    {
        let key_index = random_below(&mut self.rng, space.len());
        let roll = random_below(&mut self.rng, 100);
        let value_index = random_below(&mut self.rng, space.len());
        let get = is_get(workload, read_percent, roll);
        self.choose_request(space, db_name, get, key_index, value_index);
        assert(get == reads(workload, read_percent, roll as int));
        get
    }

    /// Makes the request of an operation: for the value of a key, or to give the key a
    /// value.
    pub fn choose_request(
        &mut self,
        space: &KeySpace,
        db_name: &str,
        get: bool,
        key_index: usize,
        value_index: usize,
    )
        requires
            space.wf(),
            key_index < space@.keys.len(),
            value_index < space@.values.len(),
        ensures
            final(self)@ == operation_frame(
                space@,
                db_name@,
                get,
                key_index as int,
                value_index as int,
            ),
    {
        if get {
            encode_get(&mut self.read_buf, db_name, space.get_key(key_index));
        } else {
            encode_set(
                &mut self.read_buf,
                db_name,
                space.get_key(key_index),
                space.get_value(value_index),
            );
        }
    }

    /// The request to send.
    pub fn request(&self) -> (bytes: &[u8])
        ensures
            bytes@ == self@,
    {
        self.read_buf.as_slice()
    }
}

/// Whether an answer is one that an operation succeeds with: a value for a read, and
/// an acknowledgement for a write.
pub fn check_response(response: &Response, get: bool) -> (succeeded: bool)
    ensures
        succeeded == if get {
            response is KeyValue
        } else {
            response is Okay
        },
{
    match response {
        Response::Okay(_) => !get,
        Response::KeyValue(_) => get,
        _ => false,
    }
}

/// Whether times stand in order.
pub open spec fn sorted(times: Seq<u64>) -> bool {
    forall|i: int, j: int| 0 <= i <= j < times.len() ==> times[i] <= times[j]
}

/// Calls `sort_unstable` of a slice: the same times, in order.
#[verifier::external_body]
fn sort(times: &mut Vec<u64>)
    ensures
        sorted(final(times)@),
        final(times)@.to_multiset() == old(times)@.to_multiset(),
{
    times.sort_unstable()
}

/// All times together.
pub open spec fn total(times: Seq<u64>) -> nat
    decreases times.len(),
{
    if times.len() == 0 {
        0
    } else {
        total(times.drop_last()) + times.last() as nat
    }
}

/// The mean of times, rounded down.
pub open spec fn mean_of(times: Seq<u64>) -> nat {
    total(times) / times.len()
}

/// The time that stands at a rank, counted from one. A rank of zero is taken for one,
/// and one that is too high for the last.
pub open spec fn at_rank(times: Seq<u64>, rank: nat) -> u64 {
    if rank == 0 {
        times[0]
    } else if rank > times.len() {
        times.last()
    } else {
        times[rank - 1]
    }
}

/// More or fewer times were taken than there were operations.
#[derive(Clone, Copy, Debug, Eq, PartialEq, Structural)]
pub struct Miscount {
    pub recorded: usize,
    pub expected: usize,
}

impl Miscount {
    /// The error in words.
    pub fn message(&self) -> (message: String)
        ensures
            message@ == "recorded "@ + decimal(self.recorded as nat) + " ops, expected "@ + decimal(
                self.expected as nat,
            ),
    {
        let mut message = number_line("recorded ", self.recorded);
        message.append(" ops, expected ");
        push_decimal(&mut message, self.expected as u128);
        message
    }
}

/// The times, in nanoseconds, that the operations of a run took.
pub struct Latencies {
    sorted: Vec<u64>,
}

impl View for Latencies {
    type V = Seq<u64>;

    closed spec fn view(&self) -> Seq<u64> {
        self.sorted@
    }
}

impl Latencies {
    /// Whether there are times, and they stand in order.
    pub open spec fn wf(&self) -> bool {
        self@.len() > 0 && sorted(self@)
    }

    /// Puts the times of all operations in order.
    pub fn init(times: Vec<u64>, completed: usize) -> (result: Result<Self, Miscount>)
        requires
            completed > 0,
        ensures
            match result {
                Ok(latencies) => {
                    &&& times@.len() == completed
                    &&& latencies.wf()
                    &&& latencies@.to_multiset() == times@.to_multiset()
                },
                Err(error) => {
                    &&& times@.len() != completed
                    &&& error == Miscount { recorded: times@.len() as usize, expected: completed }
                },
            },
    {
        if times.len() != completed {
            return Err(Miscount { recorded: times.len(), expected: completed });
        }
        let mut sorted = times;
        sort(&mut sorted);
        proof {
            times@.to_multiset_ensures();
            sorted@.to_multiset_ensures();
        }
        Ok(Latencies { sorted })
    }

    /// The shortest time.
    pub fn min(&self) -> (ns: u64)
        requires
            self.wf(),
        ensures
            ns == self@[0],
    {
        self.sorted[0]
    }

    /// The longest time.
    pub fn max(&self) -> (ns: u64)
        requires
            self.wf(),
        ensures
            ns == self@.last(),
    {
        self.sorted[self.sorted.len() - 1]
    }

    /// The mean time, rounded down.
    pub fn mean(&self) -> (ns: u64)
        requires
            self.wf(),
        ensures
            ns == mean_of(self@),
    {
        let len = self.sorted.len();
        let mut sum: u128 = 0;
        let mut i: usize = 0;
        while i < len
            invariant
                len == self@.len(),
                i <= len,
                sum == total(self@.take(i as int)),
                sum <= i * 0xffff_ffff_ffff_ffff,
            decreases len - i,
        {
            assert(self@.take(i + 1).drop_last() =~= self@.take(i as int));
            assert(i * 0xffff_ffff_ffff_ffff + self@[i as int] <= (i + 1) * 0xffff_ffff_ffff_ffff);
            assert((i + 1) * 0xffff_ffff_ffff_ffff <= u128::MAX) by (nonlinear_arith)
                requires
                    i + 1 <= 0xffff_ffff_ffff_ffff,
            ;
            sum += self.sorted[i] as u128;
            i += 1;
        }
        assert(self@.take(len as int) =~= self@);
        proof {
            law_mean_is_between(self@);
        }
        (sum / len as u128) as u64
    }

    /// The time that stands at a rank, counted from one.
    pub fn percentile(&self, rank: usize) -> (ns: u64)
        requires
            self.wf(),
        ensures
            ns == at_rank(self@, rank as nat),
    {
        let len = self.sorted.len();
        if rank == 0 {
            self.sorted[0]
        } else if rank > len {
            self.sorted[len - 1]
        } else {
            self.sorted[rank - 1]
        }
    }
}

/// The mean of times lies between the shortest and the longest.
pub proof fn law_mean_is_between(times: Seq<u64>)
    requires
        times.len() > 0,
        sorted(times),
    ensures
        times[0] <= mean_of(times) <= times.last(),
{
    let len = times.len();
    let low = times[0] as nat;
    let high = times.last() as nat;
    lemma_total_is_between(times, low, high);
    let sum = total(times);
    assert(low <= sum / len <= high) by (nonlinear_arith)
        requires
            len > 0,
            low * len <= sum <= high * len,
    ;
}

proof fn lemma_total_is_between(times: Seq<u64>, low: nat, high: nat)
    requires
        forall|i: int| 0 <= i < times.len() ==> low <= #[trigger] times[i] <= high,
    ensures
        low * times.len() <= total(times) <= high * times.len(),
    decreases times.len(),
{
    let len = times.len();
    if len == 0 {
        assert(low * len == 0 && high * len == 0) by (nonlinear_arith)
            requires
                len == 0,
        ;
    } else {
        lemma_total_is_between(times.drop_last(), low, high);
        assert(low * (len - 1) + low == low * len) by (nonlinear_arith);
        assert(high * (len - 1) + high == high * len) by (nonlinear_arith);
    }
}

/// A higher rank has no shorter time; all times lie between the shortest and the
/// longest; and as many times as the rank says are not longer than the one at the rank.
pub proof fn law_percentiles_are_ordered(times: Seq<u64>, a: nat, b: nat)
    requires
        times.len() > 0,
        sorted(times),
        a <= b,
    ensures
        times[0] <= at_rank(times, a) <= at_rank(times, b) <= times.last(),
        forall|i: int|
            0 <= i < a && i < times.len() ==> #[trigger] times[i] <= at_rank(times, a),
        forall|i: int|
            a <= i < times.len() ==> at_rank(times, a) <= #[trigger] times[i],
{
}

} // verus!
