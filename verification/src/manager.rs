//! The databases of a server, each with a log file and a worker of its own.
//!
//! The manager does no I/O. It knows its databases by name, and each worker by a
//! number that its caller gives.
use crate::index::{has_size, lists_once};
use crate::protocol::{Response, ResponseView};
use crate::text::{owned, same_bytes, same_text, text_bytes, utf8_text};
use crate::DEFAULT_DB_NAME;
use rustc_hash::FxHashMap;
use vstd::prelude::*;
use vstd::string::StringExecFns;
use vstd::utf8::{encode_utf8, valid_utf8};

verus! {

/// The names of a map with their numbers.
pub uninterp spec fn registry_contents(registry: FxHashMap<String, u64>) -> Map<Seq<char>, u64>;

/// Calls `FxHashMap::default`: the map holds no name.
#[verifier::external_body]
fn registry_new() -> (registry: FxHashMap<String, u64>)
    ensures
        registry_contents(registry).dom() == Set::<Seq<char>>::empty(),
{
    FxHashMap::default()
}

/// Calls `FxHashMap::insert`: the name holds the number, all other names keep
/// theirs, and the number that the name held before comes back.
#[verifier::external_body]
fn registry_insert(registry: &mut FxHashMap<String, u64>, name: String, handle: u64) -> (previous:
    Option<u64>)
    ensures
        registry_contents(*final(registry)) == registry_contents(*old(registry)).insert(
            name@,
            handle,
        ),
        match previous {
            Some(h) => registry_contents(*old(registry)).contains_key(name@) && h
                == registry_contents(*old(registry))[name@],
            None => !registry_contents(*old(registry)).contains_key(name@),
        },
{
    registry.insert(name, handle)
}

/// Calls `FxHashMap::remove`: the name is gone, all other names keep their numbers,
/// and the number that the name held comes back.
#[verifier::external_body]
fn registry_remove(registry: &mut FxHashMap<String, u64>, name: &str) -> (previous: Option<u64>)
    ensures
        registry_contents(*final(registry)) == registry_contents(*old(registry)).remove(name@),
        match previous {
            Some(h) => registry_contents(*old(registry)).contains_key(name@) && h
                == registry_contents(*old(registry))[name@],
            None => !registry_contents(*old(registry)).contains_key(name@),
        },
{
    registry.remove(name)
}

/// Calls `FxHashMap::get`: the number of the name, if it holds one.
#[verifier::external_body]
fn registry_get(registry: &FxHashMap<String, u64>, name: &str) -> (handle: Option<u64>)
    ensures
        match handle {
            Some(h) => registry_contents(*registry).contains_key(name@) && h == registry_contents(
                *registry,
            )[name@],
            None => !registry_contents(*registry).contains_key(name@),
        },
{
    registry.get(name).copied()
}

/// Calls `FxHashMap::len`: the number of names.
#[verifier::external_body]
fn registry_len(registry: &FxHashMap<String, u64>) -> (len: usize)
    ensures
        has_size(registry_contents(*registry).dom(), len as nat),
{
    registry.len()
}

/// Whether `handles` are the numbers of all names of `databases`, one for each, in
/// any order.
pub open spec fn all_handles(handles: Seq<u64>, databases: Map<Seq<char>, u64>) -> bool {
    exists|names: Seq<Seq<char>>| #[trigger]
        lists_once(names, databases.dom()) && handles == names.map_values(
            |name: Seq<char>| databases[name],
        )
}

/// Calls `FxHashMap::values`: the number of every name, in an order that is left
/// open.
#[verifier::external_body]
fn registry_values(registry: &FxHashMap<String, u64>) -> (handles: Vec<u64>)
    ensures
        all_handles(handles@, registry_contents(*registry)),
{
    registry.values().copied().collect()
}

/// The databases of a server.
#[derive(Clone)]
pub struct DbManager {
    databases: FxHashMap<String, u64>,
}

impl View for DbManager {
    type V = Map<Seq<char>, u64>;

    closed spec fn view(&self) -> Map<Seq<char>, u64> {
        registry_contents(self.databases)
    }
}

/// Why the files of a directory cannot be opened as logs.
#[derive(Debug, Clone, Copy, PartialEq, Eq)]
pub enum ManagerError {
    /// The name of a log file is no text.
    InvalidLogFileName,
}

impl ManagerError {
    /// The error in words.
    pub open spec fn text(self) -> Seq<char> {
        "Invalid log file name"@
    }

    /// The error in words.
    pub fn message(&self) -> (message: String)
        ensures
            message@ == self.text(),
    {
        owned("Invalid log file name")
    }
}

/// What happens while the log files of a directory are opened.
pub enum InitEvent {
    /// A file of this name stands in the directory.
    File(Vec<u8>),
    /// The log of a database was read, and its worker has this number.
    Opened { name: String, handle: u64 },
    /// There are no more files.
    EndOfDirectory,
}

/// What to do next while the log files of a directory are opened.
pub enum InitStep {
    /// Go on.
    Continue,
    /// Open the log file of this database, start a worker, and register it.
    Open(String),
    /// Give up.
    Fail(ManagerError),
    /// All databases are there.
    Ready,
}

/// What to do when a database is to be created.
pub enum CreateStep {
    /// Answer so; nothing is created.
    Refuse(Response),
    /// Open the log file of this name, start a worker, and register it.
    Open(String),
}

/// What to do when a database is to be dropped.
pub enum DropStep {
    /// Answer so; nothing is dropped.
    Refuse(Response),
    /// Report this error; nothing is dropped.
    Fail(String),
    /// Stop the worker of this number, remove the log file of this name, and answer so.
    Stop { handle: u64, log_file: String, response: Response },
}

/// The name of the log file of a database.
pub open spec fn log_file_of(name: Seq<char>) -> Seq<char> {
    name + ".log"@
}

/// Whether a file is a log by its name: `log` stands behind its last dot, and
/// something before it.
pub open spec fn is_log_file(file_name: Seq<u8>) -> bool {
    file_name.len() > 4 && file_name.skip(file_name.len() - 4) == encode_utf8(".log"@)
}

/// What comes before the ending of the name of a log file.
pub open spec fn stem(file_name: Seq<u8>) -> Seq<u8> {
    file_name.take(file_name.len() - 4)
}

/// The worker of a database, if there is one of this name.
pub open spec fn handle_of(databases: Map<Seq<char>, u64>, name: Seq<char>) -> Option<u64> {
    if databases.contains_key(name) {
        Some(databases[name])
    } else {
        None
    }
}

/// What becomes of the databases on an event of the start, and what is done next.
pub open spec fn initializes(
    before: Map<Seq<char>, u64>,
    event: InitEvent,
    after: Map<Seq<char>, u64>,
    step: InitStep,
) -> bool {
    match event {
        InitEvent::File(file_name) => {
            &&& after == before
            &&& if !is_log_file(file_name@) {
                step is Continue
            } else if valid_utf8(stem(file_name@)) {
                step matches InitStep::Open(name) && encode_utf8(name@) == stem(file_name@)
            } else {
                step == InitStep::Fail(ManagerError::InvalidLogFileName)
            }
        },
        InitEvent::Opened { name, handle } => {
            &&& after == before.insert(name@, handle)
            &&& step is Continue
        },
        InitEvent::EndOfDirectory => {
            &&& after == before
            &&& if before.contains_key(DEFAULT_DB_NAME@) {
                step is Ready
            } else {
                step matches InitStep::Open(name) && name@ == DEFAULT_DB_NAME@
            }
        },
    }
}

/// What is done when a database is to be created.
pub open spec fn creates(
    databases: Map<Seq<char>, u64>,
    name: Seq<char>,
    step: CreateStep,
) -> bool {
    match step {
        CreateStep::Refuse(response) => {
            &&& databases.contains_key(name)
            &&& response@ == ResponseView::DbAlreadyExists(
                encode_utf8("Database already exists"@),
            )
        },
        CreateStep::Open(log_file) => {
            &&& !databases.contains_key(name)
            &&& log_file@ == log_file_of(name)
        },
    }
}

/// What becomes of the databases when one is to be dropped, and what is done then.
pub open spec fn drops(
    before: Map<Seq<char>, u64>,
    name: Seq<char>,
    after: Map<Seq<char>, u64>,
    step: DropStep,
) -> bool {
    match step {
        DropStep::Refuse(response) => {
            &&& name == DEFAULT_DB_NAME@
            &&& after == before
            &&& response@ == ResponseView::InvalidRequest(
                encode_utf8("Cannot drop the default database"@),
            )
        },
        DropStep::Fail(message) => {
            &&& name != DEFAULT_DB_NAME@
            &&& !before.contains_key(name)
            &&& after == before
            &&& message@ == "database not found: "@ + name
        },
        DropStep::Stop { handle, log_file, response } => {
            &&& name != DEFAULT_DB_NAME@
            &&& before.contains_key(name)
            &&& handle == before[name]
            &&& after == before.remove(name)
            &&& log_file@ == log_file_of(name)
            &&& response@ == ResponseView::Okay(encode_utf8("Database dropped successfully"@))
        },
    }
}

/// The name of the log file of a database.
pub fn log_file_name(name: &str) -> (file_name: String)
    ensures
        file_name@ == log_file_of(name@),
{
    let mut file_name = owned(name);
    file_name.append(".log");
    file_name
}

impl DbManager {
    /// A manager without databases.
    pub fn new() -> (manager: Self)
        ensures
            manager@ == Map::<Seq<char>, u64>::empty(),
    {
        let manager = DbManager { databases: registry_new() };
        assert(manager@ =~= Map::<Seq<char>, u64>::empty());
        manager
    }

    /// Takes note of an event of the start, and says what to do next: every log file is
    /// opened under its name, and the default database is opened if it has no file yet.
    pub fn init(&mut self, event: InitEvent) -> (step: InitStep)
        ensures
            initializes(old(self)@, event, final(self)@, step),
    {
        match event {
            InitEvent::File(file_name) => {
                let bytes = file_name.as_slice();
                let ending = ".log".as_bytes();
                proof {
                    reveal_strlit(".log");
                }
                if bytes.len() <= 4 {
                    return InitStep::Continue;
                }
                let cut = bytes.len() - 4;
                let ghost len = bytes@.len() as int;
                assert(bytes@.subrange(cut as int, len) =~= bytes@.skip(cut as int));
                if !same_bytes(&bytes[cut..bytes.len()], ending) {
                    return InitStep::Continue;
                }
                assert(bytes@.subrange(0, cut as int) =~= stem(bytes@));
                match utf8_text(&bytes[0..cut]) {
                    Some(name) => InitStep::Open(owned(name)),
                    None => InitStep::Fail(ManagerError::InvalidLogFileName),
                }
            },
            InitEvent::Opened { name, handle } => {
                let _ = registry_insert(&mut self.databases, name, handle);
                InitStep::Continue
            },
            InitEvent::EndOfDirectory => {
                if self.db_exists(DEFAULT_DB_NAME) {
                    InitStep::Ready
                } else {
                    InitStep::Open(owned(DEFAULT_DB_NAME))
                }
            },
        }
    }

    /// What to do when a database is to be created.
    pub fn create_db(&self, name: &str) -> (step: CreateStep)
        ensures
            creates(self@, name@, step),
    {
        if self.db_exists(name) {
            CreateStep::Refuse(Response::DbAlreadyExists(text_bytes("Database already exists")))
        } else {
            CreateStep::Open(log_file_name(name))
        }
    }

    /// Registers the worker of a database that was created, and gives the answer.
    pub fn created(&mut self, name: &str, handle: u64) -> (response: Response)
        ensures
            final(self)@ == old(self)@.insert(name@, handle),
            response@ == ResponseView::Okay(encode_utf8("Database created successfully"@)),
    {
        let _ = registry_insert(&mut self.databases, owned(name), handle);
        Response::Okay(text_bytes("Database created successfully"))
    }

    /// Takes a database out, and says what to do then. The default database stays.
    pub fn drop_db(&mut self, name: &str) -> (step: DropStep)
        ensures
            drops(old(self)@, name@, final(self)@, step),
            old(self)@.contains_key(DEFAULT_DB_NAME@) ==> final(self)@.contains_key(
                DEFAULT_DB_NAME@,
            ) && final(self)@[DEFAULT_DB_NAME@] == old(self)@[DEFAULT_DB_NAME@],
    {
        if same_text(name, DEFAULT_DB_NAME) {
            return DropStep::Refuse(
                Response::InvalidRequest(text_bytes("Cannot drop the default database")),
            );
        }
        match registry_remove(&mut self.databases, name) {
            None => {
                assert(self@ =~= old(self)@);
                let mut message = owned("database not found: ");
                message.append(name);
                DropStep::Fail(message)
            },
            Some(handle) => DropStep::Stop {
                handle,
                log_file: log_file_name(name),
                response: Response::Okay(text_bytes("Database dropped successfully")),
            },
        }
    }

    /// The worker of a database, or the answer that there is none.
    pub fn get_db_handle(&self, name: &str) -> (result: Result<u64, Response>)
        ensures
            match result {
                Ok(handle) => handle_of(self@, name@) == Some(handle),
                Err(response) => handle_of(self@, name@) is None && response@
                    == ResponseView::DbNotFound(encode_utf8("Database not found"@)),
            },
    {
        match registry_get(&self.databases, name) {
            Some(handle) => Ok(handle),
            None => Err(Response::DbNotFound(text_bytes("Database not found"))),
        }
    }

    /// Whether there is a database of this name.
    pub fn db_exists(&self, name: &str) -> (exists_: bool)
        ensures
            exists_ == self@.contains_key(name@),
    {
        registry_get(&self.databases, name).is_some()
    }

    /// The number of databases.
    pub fn db_count(&self) -> (count: usize)
        ensures
            count == self@.len(),
            self@.dom().finite(),
    {
        registry_len(&self.databases)
    }

    /// Takes all databases out, and gives the workers to be stopped.
    pub fn shutdown_all_workers(&mut self) -> (handles: Vec<u64>)
        ensures
            final(self)@ == Map::<Seq<char>, u64>::empty(),
            all_handles(handles@, old(self)@),
    {
        let handles = registry_values(&self.databases);
        self.databases = registry_new();
        assert(self@ =~= Map::<Seq<char>, u64>::empty());
        handles
    }
}

/// A database that was created is found until it is dropped; neither touches another
/// database.
pub proof fn law_created_database_is_found(
    databases: Map<Seq<char>, u64>,
    name: Seq<char>,
    handle: u64,
    other: Seq<char>,
)
    requires
        other != name,
    ensures
        handle_of(databases.insert(name, handle), name) == Some(handle),
        handle_of(databases.remove(name), name) is None,
        handle_of(databases.insert(name, handle), other) == handle_of(databases, other),
        handle_of(databases.remove(name), other) == handle_of(databases, other),
{
}

/// A log file is found again under the name of its database: what `create_db` opens,
/// the next start opens too.
pub proof fn law_database_is_found_again(
    name: Seq<char>,
    before: Map<Seq<char>, u64>,
    file_name: Vec<u8>,
    after: Map<Seq<char>, u64>,
    step: InitStep,
)
    requires
        name.len() > 0,
        file_name@ == encode_utf8(log_file_of(name)),
        initializes(before, InitEvent::File(file_name), after, step),
    ensures
        step matches InitStep::Open(found) && found@ == name,
{
    let ending = encode_utf8(".log"@);
    reveal_strlit(".log");
    lemma_encode_concat(name, ".log"@);
    vstd::utf8::is_ascii_chars_encode_utf8(".log"@);
    assert(ending.len() == 4);
    lemma_encoding_not_empty(name);
    assert(file_name@.skip(file_name@.len() - 4) =~= ending);
    assert(stem(file_name@) =~= encode_utf8(name));
    vstd::utf8::encode_utf8_valid_utf8(name);
    vstd::utf8::encode_utf8_decode_utf8(name);
    if let InitStep::Open(found) = step {
        vstd::utf8::encode_utf8_decode_utf8(found@);
    }
}

/// The encoding of a text is the encoding of its parts.
proof fn lemma_encode_concat(a: Seq<char>, b: Seq<char>)
    ensures
        encode_utf8(a + b) == encode_utf8(a) + encode_utf8(b),
    decreases a.len(),
{
    if a.len() == 0 {
        assert(a + b =~= b);
        assert(encode_utf8(a) =~= Seq::empty());
    } else {
        assert((a + b).drop_first() =~= a.drop_first() + b);
        lemma_encode_concat(a.drop_first(), b);
    }
    assert(encode_utf8(a + b) =~= encode_utf8(a) + encode_utf8(b));
}

proof fn lemma_encoding_not_empty(a: Seq<char>)
    requires
        a.len() > 0,
    ensures
        encode_utf8(a).len() > 0,
{
    vstd::utf8::encode_utf8_decode_utf8(a);
}

/// The default database is there once the start is over.
pub proof fn law_default_database_after_start(
    before: Map<Seq<char>, u64>,
    between: Map<Seq<char>, u64>,
    step: InitStep,
    after: Map<Seq<char>, u64>,
    handle: u64,
)
    requires
        initializes(before, InitEvent::EndOfDirectory, between, step),
        match step {
            InitStep::Open(name) => initializes(
                between,
                InitEvent::Opened { name, handle },
                after,
                InitStep::Continue,
            ),
            _ => after == between,
        },
    ensures
        after.contains_key(DEFAULT_DB_NAME@),
        forall|name: Seq<char>| #[trigger]
            before.contains_key(name) ==> after.contains_key(name) && after[name] == before[name],
{
}

} // verus!
