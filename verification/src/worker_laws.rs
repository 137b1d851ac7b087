//! What holds of every worker: what each query is answered, and what it changes.
use crate::codec::low_u32;
use crate::index::{
    is_longest, is_shortest, lemma_lists_once, lemma_total_len_of_list, lists_once, MemoryIndex,
};
use crate::protocol::{InfoPacket, Response};
use crate::protocol_laws::{big_at, law_info_packet_layout};
use crate::wal::{Entry, StagedEntry, Wal};
use crate::worker::{
    acknowledged, describes, executes, has_room, DatabaseQueryOperation, DatabaseWorker,
    WorkerAction, WorkerEvent, WorkerView, Write,
};
use vstd::prelude::*;
use vstd::utf8::encode_utf8;

verus! {

/// A call of `execute_queries` does what `executes` says, and nothing else.
pub proof fn law_worker_executes(
    worker: &mut DatabaseWorker,
    event: WorkerEvent,
    action: WorkerAction,
)
    requires
        call_ensures(DatabaseWorker::execute_queries, (worker, event), action),
    ensures
        executes(old(worker)@, event, final(worker)@, action),
{
}

/// A worker can always be asked to read, to tell about itself and to stop, and to change a
/// key unless the log entry would be larger than the memory.
pub proof fn law_queries_are_taken(view: WorkerView, key: Vec<u8>, value: Vec<u8>)
    requires
        key@.len() + value@.len() + 13 <= usize::MAX,
    ensures
        has_room(view, WorkerEvent::Query(DatabaseQueryOperation::Info)),
        has_room(view, WorkerEvent::Query(DatabaseQueryOperation::GET { key })),
        has_room(view, WorkerEvent::Query(DatabaseQueryOperation::SET { key, value })),
        has_room(view, WorkerEvent::Query(DatabaseQueryOperation::DELETE { key })),
        has_room(view, WorkerEvent::Closed),
{
}

/// A worker can always be told that an entry was written, unless one of its counters would
/// overflow, and how a write or a sync has failed or that a sync is done.
pub proof fn law_outcomes_are_taken(
    view: WorkerView,
    write: Write,
    entry: StagedEntry,
    cause: String,
)
    ensures
        view.wal.file_len + entry.spec_len() <= u64::MAX && view.wal.entry_count < u64::MAX
            && view.writes_executed < usize::MAX ==> has_room(
            view,
            WorkerEvent::Appended { write, entry, outcome: Ok(()) },
        ),
        has_room(view, WorkerEvent::Appended { write, entry, outcome: Err(cause) }),
        has_room(view, WorkerEvent::Synced { write, outcome: Ok(()) }),
        has_room(view, WorkerEvent::Synced { write, outcome: Err(cause) }),
{
}

/// A worker starts with the log and the index that it is given, and without writes. An
/// interval of zero is taken for one.
pub proof fn law_worker_starts_with_what_it_is_given(
    wal: Wal,
    fsync_interval: usize,
    index: MemoryIndex,
    worker: DatabaseWorker,
)
    requires
        call_ensures(DatabaseWorker::init, (wal, fsync_interval, index), worker),
    ensures
        worker@.wal == wal@,
        worker@.index == index@,
        worker@.writes_executed == 0,
        fsync_interval > 0 ==> worker@.fsync_interval == fsync_interval,
        fsync_interval == 0 ==> worker@.fsync_interval == 1,
{
}

/// A worker shows the log and the number of writes that it has.
pub proof fn law_worker_shows_its_state(worker: DatabaseWorker, wal: &Wal, writes: usize)
    requires
        call_ensures(DatabaseWorker::wal, (&worker,), wal),
        call_ensures(DatabaseWorker::writes_executed, (&worker,), writes),
    ensures
        wal@ == worker@.wal,
        writes == worker@.writes_executed,
{
}

/// A read is answered with the value of the key, all of it and nothing else, if the key has
/// one; else with the word that there is none. It changes nothing.
pub proof fn law_get_answers_the_value(
    before: WorkerView,
    key: Vec<u8>,
    after: WorkerView,
    action: WorkerAction,
)
    requires
        executes(
            before,
            WorkerEvent::Query(DatabaseQueryOperation::GET { key }),
            after,
            action,
        ),
    ensures
        after == before,
        before.index.contains_key(key@) ==> {
            &&& action matches WorkerAction::Reply(Ok(Response::KeyValue(value)))
            &&& value@ == before.index[key@]
        },
        !before.index.contains_key(key@) ==> {
            &&& action matches WorkerAction::Reply(Ok(Response::KeyNotFound(message)))
            &&& message@ == encode_utf8("Key not found"@)
        },
{
}

/// An acknowledged SET gives the key the value, touches no other key, and is answered with
/// `OK`.
pub proof fn law_set_is_made_and_answered(
    before: WorkerView,
    key: Vec<u8>,
    value: Vec<u8>,
    waiting: WorkerView,
    append: WorkerAction,
    written: WorkerView,
    next: WorkerAction,
    after: WorkerView,
    reply: WorkerAction,
)
    requires
        acknowledged(
            before,
            DatabaseQueryOperation::SET { key, value },
            waiting,
            append,
            written,
            next,
            after,
            reply,
        ),
    ensures
        after.index == before.index.insert(key@, value@),
        reply matches WorkerAction::Reply(Ok(Response::Okay(message))) && message@ == encode_utf8(
            "OK"@,
        ),
{
}

/// An acknowledged DELETE takes the key out and touches no other key. It is answered with
/// `OK` if the key was there, and with the word that there is none if it was not.
pub proof fn law_delete_is_made_and_answered(
    before: WorkerView,
    key: Vec<u8>,
    waiting: WorkerView,
    append: WorkerAction,
    written: WorkerView,
    next: WorkerAction,
    after: WorkerView,
    reply: WorkerAction,
)
    requires
        acknowledged(
            before,
            DatabaseQueryOperation::DELETE { key },
            waiting,
            append,
            written,
            next,
            after,
            reply,
        ),
    ensures
        after.index == before.index.remove(key@),
        before.index.contains_key(key@) <==> {
            &&& reply matches WorkerAction::Reply(Ok(Response::Okay(message)))
            &&& message@ == encode_utf8("OK"@)
        },
        !before.index.contains_key(key@) <==> {
            &&& reply matches WorkerAction::Reply(Ok(Response::KeyNotFound(message)))
            &&& message@ == encode_utf8("Key not found"@)
        },
{
}

/// A SET that is acknowledged is what the next GET of the key answers, whatever the value.
pub proof fn law_get_after_set(
    before: WorkerView,
    key: Vec<u8>,
    value: Vec<u8>,
    waiting: WorkerView,
    append: WorkerAction,
    written: WorkerView,
    next: WorkerAction,
    between: WorkerView,
    reply: WorkerAction,
    same_key: Vec<u8>,
    after: WorkerView,
    answer: WorkerAction,
)
    requires
        acknowledged(
            before,
            DatabaseQueryOperation::SET { key, value },
            waiting,
            append,
            written,
            next,
            between,
            reply,
        ),
        same_key@ == key@,
        executes(
            between,
            WorkerEvent::Query(DatabaseQueryOperation::GET { key: same_key }),
            after,
            answer,
        ),
    ensures
        answer matches WorkerAction::Reply(Ok(Response::KeyValue(read))) && read@ == value@,
{
}

/// After a DELETE that is acknowledged, the next GET of the key finds nothing.
pub proof fn law_get_after_delete(
    before: WorkerView,
    key: Vec<u8>,
    waiting: WorkerView,
    append: WorkerAction,
    written: WorkerView,
    next: WorkerAction,
    between: WorkerView,
    reply: WorkerAction,
    same_key: Vec<u8>,
    after: WorkerView,
    answer: WorkerAction,
)
    requires
        acknowledged(
            before,
            DatabaseQueryOperation::DELETE { key },
            waiting,
            append,
            written,
            next,
            between,
            reply,
        ),
        same_key@ == key@,
        executes(
            between,
            WorkerEvent::Query(DatabaseQueryOperation::GET { key: same_key }),
            after,
            answer,
        ),
    ensures
        answer matches WorkerAction::Reply(Ok(Response::KeyNotFound(_))),
{
}

/// An acknowledged change of one key changes no answer about another.
pub proof fn law_get_of_another_key(
    before: WorkerView,
    query: DatabaseQueryOperation,
    waiting: WorkerView,
    append: WorkerAction,
    written: WorkerView,
    next: WorkerAction,
    between: WorkerView,
    reply: WorkerAction,
    other: Vec<u8>,
    after: WorkerView,
    answer: WorkerAction,
)
    requires
        acknowledged(before, query, waiting, append, written, next, between, reply),
        match query {
            DatabaseQueryOperation::SET { key, value } => key@ != other@,
            DatabaseQueryOperation::DELETE { key } => key@ != other@,
            _ => true,
        },
        executes(
            between,
            WorkerEvent::Query(DatabaseQueryOperation::GET { key: other }),
            after,
            answer,
        ),
    ensures
        before.index.contains_key(other@) ==> {
            &&& answer matches WorkerAction::Reply(Ok(Response::KeyValue(value)))
            &&& value@ == before.index[other@]
        },
        !before.index.contains_key(other@) ==> {
            answer matches WorkerAction::Reply(Ok(Response::KeyNotFound(_)))
        },
{
}

/// A SET with a key, and a DELETE with one, are always logged first: nothing is made before
/// the bytes have reached the file, and the change that waits is the one that was asked for.
/// Without a key they are refused.
pub proof fn law_change_is_logged_first(
    before: WorkerView,
    query: DatabaseQueryOperation,
    after: WorkerView,
    action: WorkerAction,
)
    requires
        executes(before, WorkerEvent::Query(query), after, action),
    ensures
        after.index == before.index,
        after.writes_executed == before.writes_executed,
        after.fsync_interval == before.fsync_interval,
        after.wal.file_len == before.wal.file_len,
        after.wal.entry_count == before.wal.entry_count,
        query matches DatabaseQueryOperation::SET { key, value } ==> if key@.len() > 0 {
            &&& action matches WorkerAction::Append { write, entry }
            &&& write@ == Entry { op: 1, key: key@, value: value@ }
            &&& entry.spec_len() == key@.len() + value@.len() + 13
            &&& after.wal.write_buf == before.wal.write_buf + write@.bytes()
        } else {
            &&& action matches WorkerAction::Reply(Err(message))
            &&& message@ == "wal: key cannot be empty"@
            &&& after == before
        },
        query matches DatabaseQueryOperation::DELETE { key } ==> if key@.len() > 0 {
            &&& action matches WorkerAction::Append { write, entry }
            &&& write@ == Entry { op: 2, key: key@, value: Seq::empty() }
            &&& entry.spec_len() == key@.len() + 13
            &&& after.wal.write_buf == before.wal.write_buf + write@.bytes()
        } else {
            &&& action matches WorkerAction::Reply(Err(message))
            &&& message@ == "wal: key cannot be empty"@
            &&& after == before
        },
{
}

/// An entry that has reached the file counts once, with all its bytes. Every write whose
/// number is a multiple of the interval is synced before it is answered, and no other is.
pub proof fn law_written_entry_counts(
    before: WorkerView,
    event: WorkerEvent,
    after: WorkerView,
    action: WorkerAction,
)
    requires
        executes(before, event, after, action),
        before.fsync_interval > 0,
    ensures
        event matches WorkerEvent::Appended { write, entry, outcome: Ok(_) } ==> {
            &&& after.wal.file_len == before.wal.file_len + entry.spec_len()
            &&& after.wal.entry_count == before.wal.entry_count + 1
            &&& after.wal.write_buf.len() == 0
            &&& after.writes_executed == before.writes_executed + 1
            &&& after.fsync_interval == before.fsync_interval
            &&& (before.writes_executed + 1) % before.fsync_interval == 0 ==> {
                &&& action matches WorkerAction::Sync { write: waiting }
                &&& waiting@ == write@
                &&& after.index == before.index
            }
            &&& (before.writes_executed + 1) % before.fsync_interval != 0 ==> action is Reply
        },
        event matches WorkerEvent::Synced { write, outcome: Ok(_) } ==> {
            &&& after.wal == before.wal
            &&& after.writes_executed == before.writes_executed
            &&& after.fsync_interval == before.fsync_interval
            &&& action is Reply
        },
{
}

/// A change that is made is the one that was logged: a set gives its key its value, a
/// delete takes its key out, and the answer says so.
pub proof fn law_logged_change_is_made(
    before: WorkerView,
    event: WorkerEvent,
    after: WorkerView,
    action: WorkerAction,
)
    requires
        executes(before, event, after, action),
        action matches WorkerAction::Reply(Ok(_)),
    ensures
        ({
            let made = match event {
                WorkerEvent::Appended { write, outcome: Ok(_), .. } => Some(write@),
                WorkerEvent::Synced { write, outcome: Ok(_) } => Some(write@),
                _ => None,
            };
            &&& made matches Some(entry) ==> {
                &&& entry.op == 1 ==> after.index == before.index.insert(entry.key, entry.value)
                &&& entry.op == 2 ==> after.index == before.index.remove(entry.key)
            }
            &&& made is None ==> after == before
        }),
{
}

/// What could not be written or synced is reported in the words of the failure. A worker
/// that is told that no more queries come asks for a last sync.
pub proof fn law_failures_are_reported(
    before: WorkerView,
    event: WorkerEvent,
    after: WorkerView,
    action: WorkerAction,
)
    requires
        executes(before, event, after, action),
    ensures
        event matches WorkerEvent::Appended { write, entry, outcome: Err(cause) } ==> {
            &&& action matches WorkerAction::Reply(Err(message))
            &&& message@ == cause@
            &&& after.wal.write_buf.len() == 0
            &&& after.index == before.index
            &&& after.wal.file_len == before.wal.file_len
            &&& after.wal.entry_count == before.wal.entry_count
            &&& after.writes_executed == before.writes_executed
        },
        event matches WorkerEvent::Synced { write, outcome: Err(cause) } ==> {
            &&& action matches WorkerAction::Reply(Err(message))
            &&& message@ == cause@
            &&& after == before
        },
        event is Closed ==> action is FinalSync && after == before,
{
}

/// The lengths of all members of a list together.
pub open spec fn length_in_all(listed: Seq<Seq<u8>>) -> int {
    listed.fold_left(0int, |sum: int, key: Seq<u8>| sum + key.len())
}

/// The answer to INFO holds six numbers of four bytes each: the size of the log, the size of
/// the index itself, the length of the shortest key, the mean length of the keys, rounded
/// down, the length of the longest key, and the number of keys. They are exact as long as
/// none of them, nor all lengths together, has more than 32 bits. Without keys those about
/// keys are zero. The keys are given as a list that has each of them once.
pub proof fn law_info_tells_about_the_keys(
    before: WorkerView,
    listed: Seq<Seq<u8>>,
    after: WorkerView,
    action: WorkerAction,
)
    requires
        executes(before, WorkerEvent::Query(DatabaseQueryOperation::Info), after, action),
        listed.no_duplicates(),
        forall|key: Seq<u8>| #[trigger] listed.contains(key) <==> before.index.contains_key(key),
    ensures
        after == before,
        action matches WorkerAction::Reply(Ok(Response::Okay(packet))) && packet@.len() == 24 && ({
            let count = listed.len();
            let min = big_at(packet@, 8);
            let mean = big_at(packet@, 12);
            let max = big_at(packet@, 16);
            &&& before.wal.file_len <= u32::MAX ==> big_at(packet@, 0) == before.wal.file_len
            &&& vstd::layout::size_of::<MemoryIndex>() <= u32::MAX ==> big_at(packet@, 4)
                == vstd::layout::size_of::<MemoryIndex>()
            &&& count <= u32::MAX ==> big_at(packet@, 20) == count
            &&& count == 0 ==> min == 0 && mean == 0 && max == 0
            &&& 0 < count <= u32::MAX && length_in_all(listed) <= u32::MAX ==> {
                &&& forall|i: int| 0 <= i < count ==> min <= (#[trigger] listed[i]).len() <= max
                &&& exists|i: int| 0 <= i < count && min == (#[trigger] listed[i]).len()
                &&& exists|i: int| 0 <= i < count && max == (#[trigger] listed[i]).len()
                &&& mean * count <= length_in_all(listed) < (mean + 1) * count
            }
        }),
{
    let packet = action->Reply_0->Ok_0->Okay_0;
    let info = choose|info: InfoPacket| #[trigger]
        describes(info, before) && packet@ == info.bytes();
    law_info_packet_layout(info);
    lemma_description(info, before, listed);
    assert(big_at(packet@, 8) == info.min_key_size);
    assert(big_at(packet@, 16) == info.max_key_size);
}

/// What a worker tells about itself is what it answers INFO with.
pub proof fn law_info_is_what_a_worker_tells(
    worker: DatabaseWorker,
    listed: Seq<Seq<u8>>,
    info: InfoPacket,
)
    requires
        call_ensures(DatabaseWorker::info, (&worker,), info),
        listed.no_duplicates(),
        forall|key: Seq<u8>| #[trigger] listed.contains(key) <==> worker@.index.contains_key(key),
    ensures
        listed.len() <= u32::MAX ==> info.key_count == listed.len(),
        worker@.wal.file_len <= u32::MAX ==> info.size_on_disk == worker@.wal.file_len,
        listed.len() == 0 ==> info.min_key_size == 0 && info.mean_key_size == 0
            && info.max_key_size == 0,
        0 < listed.len() <= u32::MAX && length_in_all(listed) <= u32::MAX ==> {
            &&& forall|i: int|
                0 <= i < listed.len() ==> info.min_key_size <= (#[trigger] listed[i]).len()
                    <= info.max_key_size
            &&& exists|i: int|
                0 <= i < listed.len() && info.min_key_size == (#[trigger] listed[i]).len()
            &&& exists|i: int|
                0 <= i < listed.len() && info.max_key_size == (#[trigger] listed[i]).len()
            &&& info.mean_key_size * listed.len() <= length_in_all(listed) < (info.mean_key_size
                + 1) * listed.len()
        },
{
    lemma_description(info, worker@, listed);
}

proof fn lemma_description(info: InfoPacket, view: WorkerView, listed: Seq<Seq<u8>>)
    requires
        describes(info, view),
        listed.no_duplicates(),
        forall|key: Seq<u8>| #[trigger] listed.contains(key) <==> view.index.contains_key(key),
    ensures
        listed.len() <= u32::MAX ==> info.key_count == listed.len(),
        view.wal.file_len <= u32::MAX ==> info.size_on_disk == view.wal.file_len,
        vstd::layout::size_of::<MemoryIndex>() <= u32::MAX ==> info.size_in_memory
            == vstd::layout::size_of::<MemoryIndex>(),
        listed.len() == 0 ==> info.min_key_size == 0 && info.mean_key_size == 0
            && info.max_key_size == 0,
        0 < listed.len() <= u32::MAX && length_in_all(listed) <= u32::MAX ==> {
            &&& forall|i: int|
                0 <= i < listed.len() ==> info.min_key_size <= (#[trigger] listed[i]).len()
                    <= info.max_key_size
            &&& exists|i: int|
                0 <= i < listed.len() && info.min_key_size == (#[trigger] listed[i]).len()
            &&& exists|i: int|
                0 <= i < listed.len() && info.max_key_size == (#[trigger] listed[i]).len()
            &&& info.mean_key_size * listed.len() <= length_in_all(listed) < (info.mean_key_size
                + 1) * listed.len()
        },
{
    let keys = view.index.dom();
    assert(listed.to_set() =~= keys) by {
        assert forall|key: Seq<u8>| listed.to_set().contains(key) == keys.contains(key) by {
            assert(listed.contains(key) <==> view.index.contains_key(key));
        }
    }
    assert(lists_once(listed, keys));
    lemma_lists_once(listed, keys);
    lemma_total_len_of_list(listed, keys);
    let count = listed.len();
    let total = length_in_all(listed);
    if 0 < count <= u32::MAX && total <= u32::MAX {
        let shortest = choose|n: nat| #[trigger]
            is_shortest(keys, n) && info.min_key_size == low_u32(n);
        let longest = choose|n: nat| #[trigger]
            is_longest(keys, n) && info.max_key_size == low_u32(n);
        let short = choose|key: Seq<u8>| #[trigger] keys.contains(key) && key.len() == shortest;
        let long = choose|key: Seq<u8>| #[trigger] keys.contains(key) && key.len() == longest;
        assert(listed.contains(short) && listed.contains(long));
        let i = choose|i: int| 0 <= i < count && listed[i] == short;
        let j = choose|j: int| 0 <= j < count && listed[j] == long;
        assert(listed[i].len() <= total && listed[j].len() <= total);
        assert forall|k: int| 0 <= k < count implies info.min_key_size <= (
        #[trigger] listed[k]).len() <= info.max_key_size by {
            assert(listed.contains(listed[k]));
        }
        let mean = total / count as int;
        assert(mean * count <= total < (mean + 1) * count && 0 <= mean <= total)
            by (nonlinear_arith)
            requires
                mean == total / count as int,
                count > 0,
                total >= 0,
        ;
        assert(info.mean_key_size == mean);
    }
}

} // verus!
