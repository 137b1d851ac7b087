//! What holds of every call on the databases of a server.
use crate::index::{lemma_lists_once, lists_once};
use crate::manager::{
    log_file_name, CreateStep, DbManager, DropStep, InitEvent, InitStep, ManagerError,
};
use crate::protocol::Response;
use crate::protocol_laws::status_and_payload;
use vstd::prelude::*;
use vstd::utf8::{encode_utf8, valid_utf8};

verus! {

/// A database can be created exactly if there is none of its name; its log file then has its
/// name and the ending of a log.
pub proof fn law_free_name_can_be_created(manager: DbManager, name: &str, step: CreateStep)
    requires
        call_ensures(DbManager::create_db, (&manager, name), step),
    ensures
        manager@.contains_key(name@) ==> {
            &&& step matches CreateStep::Refuse(response)
            &&& status_and_payload(response) == (3u8, encode_utf8("Database already exists"@))
        },
        !manager@.contains_key(name@) ==> {
            &&& step matches CreateStep::Open(log_file)
            &&& log_file@ == name@ + ".log"@
        },
{
}

/// A database that was created is found with its worker, other databases keep theirs, and the
/// client is told.
pub proof fn law_created_database_has_its_worker(
    manager: &mut DbManager,
    name: &str,
    handle: u64,
    response: Response,
    after: DbManager,
    asked: &str,
    found: Result<u64, Response>,
    exists_: bool,
)
    requires
        call_ensures(DbManager::created, (manager, name, handle), response),
        after@ == final(manager)@,
        call_ensures(DbManager::get_db_handle, (&after, asked), found),
        call_ensures(DbManager::db_exists, (&after, asked), exists_),
    ensures
        status_and_payload(response) == (0u8, encode_utf8("Database created successfully"@)),
        asked@ == name@ ==> found == Ok::<u64, Response>(handle) && exists_,
        asked@ != name@ && old(manager)@.contains_key(asked@) ==> found == Ok::<u64, Response>(
            old(manager)@[asked@],
        ) && exists_,
        asked@ != name@ && !old(manager)@.contains_key(asked@) ==> found is Err && !exists_,
{
}

/// A database is found exactly if it is there, and a client that asks for another is told so.
pub proof fn law_only_what_is_there_is_found(
    manager: DbManager,
    name: &str,
    found: Result<u64, Response>,
    exists_: bool,
)
    requires
        call_ensures(DbManager::get_db_handle, (&manager, name), found),
        call_ensures(DbManager::db_exists, (&manager, name), exists_),
    ensures
        exists_ <==> manager@.contains_key(name@),
        manager@.contains_key(name@) ==> found == Ok::<u64, Response>(manager@[name@]),
        !manager@.contains_key(name@) ==> {
            &&& found matches Err(response)
            &&& status_and_payload(response) == (2u8, encode_utf8("Database not found"@))
        },
{
}

/// A database that is there is dropped, unless it is the default one: its own worker is stopped
/// and its own log file removed, it is found no more, and other databases keep their workers.
/// Any other request to drop changes nothing.
pub proof fn law_dropped_database_is_gone(
    manager: &mut DbManager,
    name: &str,
    step: DropStep,
    after: DbManager,
    asked: &str,
    found: Result<u64, Response>,
)
    requires
        call_ensures(DbManager::drop_db, (manager, name), step),
        after@ == final(manager)@,
        call_ensures(DbManager::get_db_handle, (&after, asked), found),
    ensures
        name@ == "default"@ ==> {
            &&& step matches DropStep::Refuse(response)
            &&& status_and_payload(response) == (
                6u8,
                encode_utf8("Cannot drop the default database"@),
            )
            &&& final(manager)@ == old(manager)@
        },
        name@ != "default"@ && !old(manager)@.contains_key(name@) ==> {
            &&& step matches DropStep::Fail(message)
            &&& message@ == "database not found: "@ + name@
            &&& final(manager)@ == old(manager)@
        },
        name@ != "default"@ && old(manager)@.contains_key(name@) ==> {
            &&& step matches DropStep::Stop { handle, log_file, response }
            &&& handle == old(manager)@[name@]
            &&& log_file@ == name@ + ".log"@
            &&& status_and_payload(response) == (0u8, encode_utf8("Database dropped successfully"@))
            &&& asked@ == name@ ==> found is Err
        },
        asked@ != name@ && old(manager)@.contains_key(asked@) ==> found == Ok::<u64, Response>(
            old(manager)@[asked@],
        ),
        asked@ != name@ && !old(manager)@.contains_key(asked@) ==> found is Err,
{
}

/// A file whose name ends with `.log`, behind something that is a text, is opened as the log of
/// the database that the text names; if what stands before the ending is no text, the start
/// fails. Every other file is passed over. No database is registered by a file alone.
pub proof fn law_log_files_are_opened(
    manager: &mut DbManager,
    file_name: Vec<u8>,
    before: Seq<u8>,
    step: InitStep,
)
    requires
        call_ensures(DbManager::init, (manager, InitEvent::File(file_name)), step),
    ensures
        final(manager)@ == old(manager)@,
        file_name@ == before + encode_utf8(".log"@) && before.len() > 0 && valid_utf8(before) ==> {
            &&& step matches InitStep::Open(name)
            &&& encode_utf8(name@) == before
        },
        file_name@ == before + encode_utf8(".log"@) && before.len() > 0 && !valid_utf8(before)
            ==> step is Fail,
        (forall|start: Seq<u8>|
            start.len() > 0 ==> #[trigger] (start + encode_utf8(".log"@)) != file_name@)
            ==> step is Continue,
{
    let ending = encode_utf8(".log"@);
    reveal_strlit(".log");
    vstd::utf8::is_ascii_chars_encode_utf8(".log"@);
    assert(ending.len() == 4);
    let all = before + ending;
    assert(all.skip(all.len() - 4) =~= ending);
    assert(all.take(all.len() - 4) =~= before);
    if file_name@.len() > 4 {
        let start = file_name@.take(file_name@.len() - 4);
        let end = file_name@.skip(file_name@.len() - 4);
        assert(start + end =~= file_name@);
    }
}

/// A log that was opened is registered under its name; the start is over once the default
/// database is there, and opens it if it is not.
pub proof fn law_start_registers_databases(
    opened: &mut DbManager,
    name: String,
    handle: u64,
    opened_step: InitStep,
    ended: &mut DbManager,
    ended_step: InitStep,
    fresh: DbManager,
)
    requires
        call_ensures(DbManager::init, (opened, InitEvent::Opened { name, handle }), opened_step),
        call_ensures(DbManager::init, (ended, InitEvent::EndOfDirectory), ended_step),
        call_ensures(DbManager::new, (), fresh),
    ensures
        final(opened)@ == old(opened)@.insert(name@, handle),
        opened_step is Continue,
        final(ended)@ == old(ended)@,
        old(ended)@.contains_key("default"@) ==> ended_step is Ready,
        !old(ended)@.contains_key("default"@) ==> {
            &&& ended_step matches InitStep::Open(missing)
            &&& missing@ == "default"@
        },
        forall|any: Seq<char>| !#[trigger] fresh@.contains_key(any),
{
}

/// Whether a number is that of the worker of some database.
pub open spec fn is_worker_of_one(databases: Map<Seq<char>, u64>, handle: u64) -> bool {
    exists|name: Seq<char>| #[trigger]
        databases.contains_key(name) && databases[name] == handle
}

/// Databases are counted once each, and at the end every worker is stopped, each once. The
/// names are given as a list that has each of them once.
pub proof fn law_all_workers_are_stopped(
    manager: &mut DbManager,
    before: DbManager,
    names: Seq<Seq<char>>,
    count: usize,
    handles: Vec<u64>,
)
    requires
        before@ == old(manager)@,
        call_ensures(DbManager::db_count, (&before,), count),
        call_ensures(DbManager::shutdown_all_workers, (manager,), handles),
        names.no_duplicates(),
        forall|name: Seq<char>| #[trigger] names.contains(name) <==> before@.contains_key(name),
    ensures
        count == names.len(),
        handles@.len() == names.len(),
        forall|i: int| 0 <= i < names.len() ==> handles@.contains(before@[#[trigger] names[i]]),
        forall|i: int|
            0 <= i < handles@.len() ==> is_worker_of_one(before@, #[trigger] handles@[i]),
        forall|name: Seq<char>| !#[trigger] final(manager)@.contains_key(name),
{
    let dom = before@.dom();
    assert(names.to_set() =~= dom) by {
        assert forall|name: Seq<char>| names.to_set().contains(name) == dom.contains(name) by {
            assert(names.contains(name) <==> before@.contains_key(name));
        }
    }
    lemma_lists_once(names, dom);
    let listed = choose|listed: Seq<Seq<char>>| #[trigger]
        lists_once(listed, dom) && handles@ == listed.map_values(
            |name: Seq<char>| before@[name],
        );
    lemma_lists_once(listed, dom);
    assert forall|i: int| 0 <= i < names.len() implies handles@.contains(
        before@[#[trigger] names[i]],
    ) by {
        assert(names.contains(names[i]));
        assert(listed.to_set().contains(names[i]));
        let k = choose|k: int| 0 <= k < listed.len() && listed[k] == names[i];
        assert(handles@[k] == before@[names[i]]);
    }
    assert forall|i: int| 0 <= i < handles@.len() implies is_worker_of_one(
        before@,
        #[trigger] handles@[i],
    ) by {
        assert(listed.to_set().contains(listed[i]));
        assert(before@.contains_key(listed[i]));
        assert(before@[listed[i]] == handles@[i]);
    }
}

/// A log file has the name of its database and the ending of a log; the failure of a start has
/// its words.
pub proof fn law_file_names_and_words(
    name: &str,
    file_name: String,
    error: ManagerError,
    message: String,
)
    requires
        call_ensures(log_file_name, (name,), file_name),
        call_ensures(ManagerError::message, (&error,), message),
    ensures
        file_name@ == name@ + ".log"@,
        message@ == "Invalid log file name"@,
{
}

} // verus!
