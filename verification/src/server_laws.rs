//! What holds of a server as a whole: its databases, their workers and the directory of
//! their logs fit together, and a restart changes neither a name nor an answer.
use crate::manager::{
    all_handles, creates, drops, handle_of, initializes, is_log_file, law_database_is_found_again,
    log_file_of, stem, CreateStep, DropStep, InitEvent, InitStep,
};
use crate::protocol::ResponseView;
use crate::wal::{clean, opened, recovered, valid_len};
use crate::wal_laws::law_truncation_keeps_entries;
use crate::worker::{
    acknowledged, entry_of, executes, in_step, law_acknowledged_write_is_durable, looked_up,
    DatabaseQueryOperation, WorkerAction, WorkerEvent, WorkerView,
};
use crate::DEFAULT_DB_NAME;
use vstd::prelude::*;
use vstd::utf8::{decode_utf8, encode_utf8, encode_utf8_decode_utf8, valid_utf8};

verus! {

/// A server: its databases by name, their workers by number, and the logs of its
/// directory by the names of their databases.
#[verifier::ext_equal]
pub struct ServerView {
    pub databases: Map<Seq<char>, u64>,
    pub workers: Map<u64, WorkerView>,
    pub logs: Map<Seq<char>, Seq<u8>>,
}

/// The bytes of the log of a database; a log that is not there is empty.
pub open spec fn log_of(logs: Map<Seq<char>, Seq<u8>>, name: Seq<char>) -> Seq<u8> {
    if logs.contains_key(name) {
        logs[name]
    } else {
        Seq::empty()
    }
}

/// A log without its torn or corrupt tail.
pub open spec fn cut(log: Seq<u8>) -> Seq<u8> {
    log.take(valid_len(log) as int)
}

/// Whether a worker is one that has just started from a log.
pub open spec fn started_from(worker: WorkerView, log: Seq<u8>) -> bool {
    worker.wal == opened(log) && worker.index == recovered(log)
}

/// Whether a server fits together: every database has a log and a worker of its own that
/// is up to date with it, there is no other log, and the default database is there.
pub open spec fn consistent(server: ServerView) -> bool {
    &&& server.databases.dom() == server.logs.dom()
    &&& server.databases.contains_key(DEFAULT_DB_NAME@)
    &&& forall|name: Seq<char>| #[trigger]
        server.databases.contains_key(name) ==> {
            &&& name.len() > 0
            &&& server.workers.contains_key(server.databases[name])
            &&& in_step(server.workers[server.databases[name]], server.logs[name])
        }
    &&& forall|a: Seq<char>, b: Seq<char>|
        #![trigger server.databases[a], server.databases[b]]
        server.databases.contains_key(a) && server.databases.contains_key(b)
            && server.databases[a] == server.databases[b] ==> a == b
}

/// The answer to a read, if there is such a database.
pub open spec fn read_answer(server: ServerView, name: Seq<char>, key: Seq<u8>) -> Option<
    ResponseView,
> {
    match handle_of(server.databases, name) {
        Some(handle) => Some(looked_up(server.workers[handle].index, key)),
        None => None,
    }
}

/// Whether the log of a database stands in the directory of the logs itself: the name is
/// not empty and has no part of a path in it.
pub open spec fn names_a_file(name: Seq<char>) -> bool {
    &&& name.len() > 0
    &&& forall|i: int|
        0 <= i < name.len() ==> #[trigger] name[i] != '/' && name[i] != '\\' && name[i] != ':'
}

/// What a client can bring about.
pub enum Change {
    /// A database was to be created, and its worker would get this number.
    Create { name: Seq<char>, created: CreateStep, handle: u64 },
    /// A database was to be dropped.
    Drop { name: Seq<char>, dropped: DropStep },
    /// A query was answered at once.
    Ask { name: Seq<char>, query: DatabaseQueryOperation, reply: WorkerAction },
    /// A key was set or deleted, and the change was acknowledged.
    Write {
        name: Seq<char>,
        query: DatabaseQueryOperation,
        waiting: WorkerView,
        append: WorkerAction,
        written: WorkerView,
        next: WorkerAction,
        worker: WorkerView,
        reply: WorkerAction,
    },
}

/// Whether a change leads from one state of a server to another.
pub open spec fn changes(before: ServerView, change: Change, after: ServerView) -> bool {
    match change {
        Change::Create { name, created, handle } => {
            &&& creates(before.databases, name, created)
            &&& match created {
                CreateStep::Refuse(_) => after == before,
                CreateStep::Open(_) => {
                    &&& names_a_file(name)
                    &&& !before.workers.contains_key(handle)
                    &&& after.databases == before.databases.insert(name, handle)
                    &&& exists|worker: WorkerView| #[trigger]
                        started_from(worker, log_of(before.logs, name)) && after.workers
                            == before.workers.insert(handle, worker)
                    &&& after.logs == before.logs.insert(name, cut(log_of(before.logs, name)))
                },
            }
        },
        Change::Drop { name, dropped } => {
            &&& drops(before.databases, name, after.databases, dropped)
            &&& match dropped {
                DropStep::Stop { handle, .. } => {
                    &&& after.workers == before.workers.remove(handle)
                    &&& after.logs == before.logs.remove(name)
                },
                _ => after == before,
            }
        },
        Change::Ask { name, query, reply } => {
            &&& handle_of(before.databases, name) matches Some(handle)
            &&& reply is Reply
            &&& exists|worker: WorkerView| #[trigger]
                executes(before.workers[handle], WorkerEvent::Query(query), worker, reply)
                    && after == (ServerView {
                    workers: before.workers.insert(handle, worker),
                    ..before
                })
        },
        Change::Write { name, query, waiting, append, written, next, worker, reply } => {
            &&& handle_of(before.databases, name) matches Some(handle)
            &&& acknowledged(
                before.workers[handle],
                query,
                waiting,
                append,
                written,
                next,
                worker,
                reply,
            )
            &&& (entry_of(query)->0).lengths_fit()
            &&& after == (ServerView {
                databases: before.databases,
                workers: before.workers.insert(handle, worker),
                logs: before.logs.insert(name, before.logs[name] + waiting.wal.write_buf),
            })
        },
    }
}

/// Every change leaves a server that fits together.
pub proof fn law_server_stays_consistent(before: ServerView, change: Change, after: ServerView)
    requires
        consistent(before),
        changes(before, change, after),
    ensures
        consistent(after),
{
    match change {
        Change::Create { name, created, handle } => {
            if created is Open {
                assert(!before.logs.dom().contains(name));
                let log = log_of(before.logs, name);
                let worker = choose|worker: WorkerView| #[trigger]
                    started_from(worker, log) && after.workers == before.workers.insert(
                        handle,
                        worker,
                    );
                law_truncation_keeps_entries(log);
                assert(in_step(worker, cut(log)));
                assert(after.databases.dom() =~= after.logs.dom());
            }
        },
        Change::Drop { name, dropped } => {
            if dropped is Stop {
                assert(after.databases.dom() =~= after.logs.dom());
                assert forall|other: Seq<char>| #[trigger]
                    after.databases.contains_key(other) implies after.workers.contains_key(
                    after.databases[other],
                ) && in_step(after.workers[after.databases[other]], after.logs[other]) by {
                    assert(before.databases.contains_key(other));
                    assert(before.databases[other] != before.databases[name]);
                }
            }
        },
        Change::Ask { name, query, reply } => {
            let handle = before.databases[name];
            let worker = choose|worker: WorkerView| #[trigger]
                executes(before.workers[handle], WorkerEvent::Query(query), worker, reply)
                    && after == (ServerView {
                    workers: before.workers.insert(handle, worker),
                    ..before
                });
            assert(worker == before.workers[handle]);
            assert(after.workers =~= before.workers);
        },
        Change::Write { name, query, waiting, append, written, next, worker, reply } => {
            let handle = before.databases[name];
            assert(before.databases.contains_key(name));
            law_acknowledged_write_is_durable(
                before.logs[name],
                before.workers[handle],
                query,
                waiting,
                append,
                written,
                next,
                worker,
                reply,
            );
            assert(before.logs.dom().contains(name));
            assert(after.databases.dom() =~= after.logs.dom());
            assert forall|other: Seq<char>| #[trigger]
                after.databases.contains_key(other) implies after.workers.contains_key(
                after.databases[other],
            ) && in_step(after.workers[after.databases[other]], after.logs[other]) by {
                assert(before.databases.contains_key(other));
                if other != name {
                    assert(before.databases[other] != before.databases[name]);
                }
            }
        },
    }
}

/// Whether changes lead from each state of a server to the next.
pub open spec fn runs(states: Seq<ServerView>, done: Seq<Change>) -> bool {
    &&& states.len() == done.len() + 1
    &&& forall|i: int| 0 <= i < done.len() ==> changes(states[i], #[trigger] done[i], states[i + 1])
}

/// A server that fits together does so after any number of changes.
pub proof fn law_run_stays_consistent(states: Seq<ServerView>, done: Seq<Change>)
    requires
        runs(states, done),
        consistent(states[0]),
    ensures
        consistent(states.last()),
    decreases done.len(),
{
    if done.len() > 0 {
        let earlier = states.drop_last();
        let fewer = done.drop_last();
        assert forall|i: int| 0 <= i < fewer.len() implies changes(
            earlier[i],
            #[trigger] fewer[i],
            earlier[i + 1],
        ) by {
            assert(changes(states[i], done[i], states[i + 1]));
        }
        law_run_stays_consistent(earlier, fewer);
        let last = done.len() - 1;
        assert(changes(states[last], done[last], states[last + 1]));
        law_server_stays_consistent(earlier.last(), done.last(), states.last());
    }
}

/// Whether a server has stopped: all its workers, by their numbers, were told that no more
/// queries come, and no database is left. A worker then syncs its log and changes nothing
/// in it.
pub open spec fn stops(before: ServerView, handles: Seq<u64>, after: ServerView) -> bool {
    &&& all_handles(handles, before.databases)
    &&& after.databases == Map::<Seq<char>, u64>::empty()
    &&& after.logs == before.logs
}

/// The start of a server: the files of its directory in the order in which they are found,
/// what is done about each, the number of the worker that is started for it if it is a
/// log, and the databases before each and at the end; then what is done at the end of
/// the directory.
pub struct Start {
    pub files: Seq<Vec<u8>>,
    pub steps: Seq<InitStep>,
    pub handles: Seq<u64>,
    pub databases: Seq<Map<Seq<char>, u64>>,
    pub last_step: InitStep,
    pub last_handle: u64,
}

/// Whether the logs among files are these: each log file is the log of a database, and
/// each log has a file.
pub open spec fn lists_logs(files: Seq<Vec<u8>>, logs: Map<Seq<char>, Seq<u8>>) -> bool {
    &&& forall|i: int|
        0 <= i < files.len() && is_log_file((#[trigger] files[i])@) && valid_utf8(stem(files[i]@))
            ==> logs.contains_key(decode_utf8(stem(files[i]@)))
    &&& forall|name: Seq<char>| #[trigger]
        logs.contains_key(name) ==> name.len() > 0 && exists|i: int|
            0 <= i < files.len() && (#[trigger] files[i])@ == encode_utf8(log_file_of(name))
}

/// Whether the log of a database is opened: its worker starts from the log, and the
/// database is registered with the number of the worker.
pub open spec fn opens(
    logs: Map<Seq<char>, Seq<u8>>,
    before: Map<Seq<char>, u64>,
    name: String,
    handle: u64,
    after: Map<Seq<char>, u64>,
    workers: Map<u64, WorkerView>,
) -> bool {
    &&& initializes(before, InitEvent::Opened { name, handle }, after, InitStep::Continue)
    &&& workers.contains_key(handle)
    &&& started_from(workers[handle], log_of(logs, name@))
}

/// Whether the file number `i` of the directory is dealt with.
pub open spec fn deals_with(
    logs: Map<Seq<char>, Seq<u8>>,
    start: Start,
    i: int,
    workers: Map<u64, WorkerView>,
) -> bool {
    let before = start.databases[i];
    let after = start.databases[i + 1];
    &&& initializes(before, InitEvent::File(start.files[i]), before, start.steps[i])
    &&& match start.steps[i] {
        InitStep::Open(name) => opens(logs, before, name, start.handles[i], after, workers),
        InitStep::Continue => after == before,
        _ => false,
    }
}

/// Whether a server has started from a directory with these logs. No two workers have the
/// same number.
pub open spec fn starts(
    logs: Map<Seq<char>, Seq<u8>>,
    start: Start,
    server: ServerView,
) -> bool {
    let n = start.files.len();
    let found = start.databases[n as int];
    &&& lists_logs(start.files, logs)
    &&& start.steps.len() == n
    &&& start.handles.len() == n
    &&& start.databases.len() == n + 1
    &&& start.handles.no_duplicates()
    &&& !start.handles.contains(start.last_handle)
    &&& start.databases[0] == Map::<Seq<char>, u64>::empty()
    &&& forall|i: int| 0 <= i < n ==> #[trigger] deals_with(logs, start, i, server.workers)
    &&& initializes(found, InitEvent::EndOfDirectory, found, start.last_step)
    &&& match start.last_step {
        InitStep::Open(name) => opens(
            logs,
            found,
            name,
            start.last_handle,
            server.databases,
            server.workers,
        ),
        InitStep::Ready => server.databases == found,
        _ => false,
    }
    &&& server.logs.dom() == server.databases.dom()
    &&& forall|name: Seq<char>| #[trigger]
        server.logs.contains_key(name) ==> server.logs[name] == cut(log_of(logs, name))
}

/// Whether the first `n` files of the directory have registered a database, and as what.
spec fn registered_by(start: Start, n: int, name: Seq<char>, i: int) -> bool {
    &&& 0 <= i < n
    &&& start.steps[i] matches InitStep::Open(opened_name)
    &&& opened_name@ == name
    &&& start.databases[n][name] == start.handles[i]
}

/// What is registered after the first `n` files of the directory.
proof fn lemma_found(logs: Map<Seq<char>, Seq<u8>>, start: Start, server: ServerView, n: int)
    requires
        starts(logs, start, server),
        0 <= n <= start.files.len(),
    ensures
        forall|name: Seq<char>| #[trigger]
            start.databases[n].contains_key(name) ==> exists|i: int|
                registered_by(start, n, name, i),
        forall|i: int|
            0 <= i < n && (#[trigger] start.steps[i]) is Open ==> start.databases[n].contains_key(
                (start.steps[i]->Open_0)@,
            ),
    decreases n,
{
    if n > 0 {
        lemma_found(logs, start, server, n - 1);
        assert(deals_with(logs, start, n - 1, server.workers));
        let before = start.databases[n - 1];
        let after = start.databases[n];
        assert forall|name: Seq<char>| #[trigger] after.contains_key(name) implies exists|i: int|
            registered_by(start, n, name, i) by {
            if start.steps[n - 1] is Open && (start.steps[n - 1]->Open_0)@ == name {
                assert(registered_by(start, n, name, n - 1));
            } else {
                assert(before.contains_key(name));
                let m = n - 1;
                let i = choose|i: int| registered_by(start, m, name, i);
                assert(registered_by(start, n, name, i));
            }
        }
        assert forall|i: int|
            0 <= i < n && (#[trigger] start.steps[i]) is Open implies after.contains_key(
            (start.steps[i]->Open_0)@,
        ) by {
            if i < n - 1 {
                assert(before.contains_key((start.steps[i]->Open_0)@));
            }
        }
    }
}

/// The log of a database that a file has registered.
proof fn lemma_registered(
    logs: Map<Seq<char>, Seq<u8>>,
    start: Start,
    server: ServerView,
    name: Seq<char>,
    i: int,
)
    requires
        starts(logs, start, server),
        registered_by(start, start.files.len() as int, name, i),
    ensures
        logs.contains_key(name),
        server.workers.contains_key(start.handles[i]),
        started_from(server.workers[start.handles[i]], logs[name]),
{
    assert(deals_with(logs, start, i, server.workers));
    let file = start.files[i];
    assert(is_log_file(file@) && valid_utf8(stem(file@)));
    encode_utf8_decode_utf8(name);
    assert(decode_utf8(stem(file@)) == name);
}

/// A start opens every log of the directory under the name of its database, and the default
/// database, and no other: the databases answer by what their logs hold, and the server
/// fits together.
pub proof fn law_start_opens_every_log(
    logs: Map<Seq<char>, Seq<u8>>,
    start: Start,
    server: ServerView,
)
    requires
        starts(logs, start, server),
    ensures
        consistent(server),
        server.databases.dom() == logs.dom().insert(DEFAULT_DB_NAME@),
        forall|name: Seq<char>, key: Seq<u8>|
            server.databases.contains_key(name) ==> #[trigger] read_answer(server, name, key)
                == Some(looked_up(recovered(log_of(logs, name)), key)),
{
    let n = start.files.len() as int;
    let found = start.databases[n];
    lemma_found(logs, start, server, n);
    reveal_strlit("default");

    assert forall|name: Seq<char>| logs.contains_key(name) implies found.contains_key(name) by {
        let i = choose|i: int|
            0 <= i < n && (#[trigger] start.files[i])@ == encode_utf8(log_file_of(name));
        assert(deals_with(logs, start, i, server.workers));
        law_database_is_found_again(
            name,
            start.databases[i],
            start.files[i],
            start.databases[i],
            start.steps[i],
        );
    }
    assert forall|name: Seq<char>| found.contains_key(name) implies logs.contains_key(name) by {
        let i = choose|i: int| registered_by(start, n, name, i);
        lemma_registered(logs, start, server, name, i);
    }
    assert(server.databases.dom() =~= logs.dom().insert(DEFAULT_DB_NAME@));

    assert forall|name: Seq<char>| #[trigger] server.databases.contains_key(name) implies {
        &&& name.len() > 0
        &&& server.workers.contains_key(server.databases[name])
        &&& started_from(server.workers[server.databases[name]], log_of(logs, name))
        &&& in_step(server.workers[server.databases[name]], server.logs[name])
    } by {
        if found.contains_key(name) {
            let i = choose|i: int| registered_by(start, n, name, i);
            lemma_registered(logs, start, server, name, i);
        }
        assert(server.logs.dom().contains(name));
        law_truncation_keeps_entries(log_of(logs, name));
    }
    assert forall|a: Seq<char>, b: Seq<char>|
        #![trigger server.databases[a], server.databases[b]]
        server.databases.contains_key(a) && server.databases.contains_key(b)
            && server.databases[a] == server.databases[b] implies a == b by {
        if found.contains_key(a) {
            let i = choose|i: int| registered_by(start, n, a, i);
            assert(start.handles.contains(start.handles[i]));
        }
        if found.contains_key(b) {
            let j = choose|j: int| registered_by(start, n, b, j);
            assert(start.handles.contains(start.handles[j]));
        }
    }
}

/// A restart changes neither a name nor an answer: a server that has started from some
/// directory, that clients have changed in any way, and that has been stopped, has after
/// the next start the same databases as before, and every read gets the answer that it
/// would have got.
pub proof fn law_restart_keeps_every_answer(
    first_logs: Map<Seq<char>, Seq<u8>>,
    first_start: Start,
    states: Seq<ServerView>,
    done: Seq<Change>,
    handles: Seq<u64>,
    stopped: ServerView,
    next_start: Start,
    next: ServerView,
)
    requires
        runs(states, done),
        starts(first_logs, first_start, states[0]),
        stops(states.last(), handles, stopped),
        starts(stopped.logs, next_start, next),
    ensures
        next.databases.dom() == states.last().databases.dom(),
        forall|name: Seq<char>, key: Seq<u8>| #[trigger]
            read_answer(next, name, key) == read_answer(states.last(), name, key),
        next.logs == states.last().logs,
        consistent(next),
{
    let last = states.last();
    law_start_opens_every_log(first_logs, first_start, states[0]);
    law_run_stays_consistent(states, done);
    law_start_opens_every_log(stopped.logs, next_start, next);
    assert(last.logs.dom().contains(DEFAULT_DB_NAME@));
    assert(next.databases.dom() =~= last.databases.dom());
    assert forall|name: Seq<char>, key: Seq<u8>| #[trigger]
        read_answer(next, name, key) == read_answer(last, name, key) by {
        assert(next.databases.dom().contains(name) == last.databases.dom().contains(name));
        if last.databases.contains_key(name) {
            assert(last.logs.dom().contains(name));
            assert(next.databases.contains_key(name));
        }
    }
    assert forall|name: Seq<char>| next.logs.contains_key(name) implies next.logs[name]
        == last.logs[name] by {
        assert(next.logs.dom().contains(name));
        assert(last.databases.contains_key(name));
        assert(last.logs.dom().contains(name));
        assert(clean(last.logs[name]));
        assert(cut(last.logs[name]) =~= last.logs[name]);
    }
    assert(next.logs =~= last.logs);
}

} // verus!
