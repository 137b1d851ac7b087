//! The worker of one database: it answers queries from its index, and logs every
//! change before it makes it.
//!
//! The worker does no I/O. It is told what happened and says what to do next; the
//! log file is written and synced by its caller.
use crate::codec::{len_u32, low_u32};
use crate::index::{is_longest, is_shortest, total_len, MemoryIndex};
use crate::protocol::{InfoPacket, Response, ResponseView};
use crate::text::text_bytes;
use crate::wal::{
    append_error, apply, clean, opened, recovered, replay, Entry, StagedEntry, Wal, WalView,
    CRC_LEN, HEADER_LEN, OP_DELETE, OP_SET,
};
use crate::wal_laws::{
    law_append_is_recovered, law_log_reads_back, law_truncation_keeps_entries, log_bytes, readable,
};
use vstd::prelude::*;
use vstd::utf8::encode_utf8;

verus! {

/// A query to a database.
pub enum DatabaseQueryOperation {
    Info,
    GET { key: Vec<u8> },
    SET { key: Vec<u8>, value: Vec<u8> },
    DELETE { key: Vec<u8> },
}

/// What a query asks for.
#[verifier::ext_equal]
pub enum QueryView {
    Info,
    Get(Seq<u8>),
    SetKey(Seq<u8>, Seq<u8>),
    Delete(Seq<u8>),
}

impl View for DatabaseQueryOperation {
    type V = QueryView;

    open spec fn view(&self) -> QueryView {
        match self {
            DatabaseQueryOperation::Info => QueryView::Info,
            DatabaseQueryOperation::GET { key } => QueryView::Get(key@),
            DatabaseQueryOperation::SET { key, value } => QueryView::SetKey(key@, value@),
            DatabaseQueryOperation::DELETE { key } => QueryView::Delete(key@),
        }
    }
}

/// A change that is logged and not yet made.
pub struct Write {
    op: u8,
    key: Vec<u8>,
    value: Vec<u8>,
}

impl View for Write {
    type V = Entry;

    closed spec fn view(&self) -> Entry {
        Entry { op: self.op, key: self.key@, value: self.value@ }
    }
}

/// What a worker is told.
pub enum WorkerEvent {
    /// A query has come in.
    Query(DatabaseQueryOperation),
    /// The write buffer was written to the log file and flushed; or it could not be, and
    /// the file was cut back to where the log ended before.
    Appended { write: Write, entry: StagedEntry, outcome: Result<(), String> },
    /// The log file was synced, or could not be.
    Synced { write: Write, outcome: Result<(), String> },
    /// No more queries will come.
    Closed,
}

/// What a worker wants done next.
pub enum WorkerAction {
    /// Answer the query.
    Reply(Result<Response, String>),
    /// Write the write buffer to the log file.
    Append { write: Write, entry: StagedEntry },
    /// Sync the log file.
    Sync { write: Write },
    /// Sync the log file and stop.
    FinalSync,
}

/// A worker: its log, its index, and how often it syncs.
pub struct DatabaseWorker {
    wal: Wal,
    fsync_interval: usize,
    memory_index: MemoryIndex,
    writes_executed: usize,
}

/// What a worker holds.
#[verifier::ext_equal]
pub struct WorkerView {
    pub wal: WalView,
    /// The number of writes from one sync to the next.
    pub fsync_interval: nat,
    pub index: Map<Seq<u8>, Seq<u8>>,
    /// The number of entries that were written since the worker started.
    pub writes_executed: nat,
}

impl View for DatabaseWorker {
    type V = WorkerView;

    closed spec fn view(&self) -> WorkerView {
        WorkerView {
            wal: self.wal@,
            fsync_interval: if self.fsync_interval == 0 {
                1
            } else {
                self.fsync_interval as nat
            },
            index: self.memory_index@,
            writes_executed: self.writes_executed as nat,
        }
    }
}

/// Whether `info` tells about a database with this log and this index.
///
/// All numbers are cut to 32 bits, the number of keys before it is compared with
/// zero and divided by.
pub open spec fn describes(info: InfoPacket, view: WorkerView) -> bool {
    let keys = view.index.dom();
    let count = low_u32(keys.len());
    &&& info.size_on_disk == low_u32(view.wal.file_len)
    &&& info.size_in_memory == low_u32(vstd::layout::size_of::<MemoryIndex>())
    &&& info.key_count == count
    &&& count == 0 ==> info.min_key_size == 0 && info.max_key_size == 0 && info.mean_key_size == 0
    &&& count > 0 ==> {
        &&& exists|n: nat| #[trigger] is_shortest(keys, n) && info.min_key_size == low_u32(n)
        &&& exists|n: nat| #[trigger] is_longest(keys, n) && info.max_key_size == low_u32(n)
        &&& info.mean_key_size == low_u32(total_len(keys) / count as nat)
    }
}

/// The answer to a read.
pub open spec fn looked_up(index: Map<Seq<u8>, Seq<u8>>, key: Seq<u8>) -> ResponseView {
    if index.contains_key(key) {
        ResponseView::KeyValue(index[key])
    } else {
        ResponseView::KeyNotFound(encode_utf8("Key not found"@))
    }
}

/// The answer to a change that was made to `index`.
pub open spec fn acknowledgement(index: Map<Seq<u8>, Seq<u8>>, entry: Entry) -> ResponseView {
    if entry.op == OP_DELETE && !index.contains_key(entry.key) {
        ResponseView::KeyNotFound(encode_utf8("Key not found"@))
    } else {
        ResponseView::Okay(encode_utf8("OK"@))
    }
}

/// Whether `action` gives the answer `response`.
pub open spec fn replies(action: WorkerAction, response: ResponseView) -> bool {
    action matches WorkerAction::Reply(Ok(r)) && r@ == response
}

/// Whether `action` reports the error `message`.
pub open spec fn reports(action: WorkerAction, message: Seq<char>) -> bool {
    action matches WorkerAction::Reply(Err(m)) && m@ == message
}

/// A change that is asked for goes into the write buffer of the log, unless it may
/// not be logged.
pub open spec fn staged(
    before: WorkerView,
    entry: Entry,
    after: WorkerView,
    action: WorkerAction,
) -> bool {
    match append_error(entry) {
        Some(error) => after == before && reports(action, error.text()),
        None => {
            &&& after == (WorkerView {
                wal: WalView { write_buf: before.wal.write_buf + entry.bytes(), ..before.wal },
                ..before
            })
            &&& action matches WorkerAction::Append { write, entry: staged }
            &&& write@ == entry
            &&& staged.spec_len() == entry.len()
        },
    }
}

/// A worker after an entry of `len` bytes has reached its log file.
pub open spec fn logged(before: WorkerView, len: nat) -> WorkerView {
    WorkerView {
        wal: WalView {
            file_len: before.wal.file_len + len,
            entry_count: before.wal.entry_count + 1,
            write_buf: Seq::empty(),
        },
        writes_executed: before.writes_executed + 1,
        ..before
    }
}

/// Whether the log file is synced before the last write is acknowledged.
pub open spec fn sync_due(view: WorkerView) -> bool {
    view.writes_executed % view.fsync_interval == 0
}

/// A logged change is made and acknowledged.
pub open spec fn made(
    before: WorkerView,
    entry: Entry,
    after: WorkerView,
    action: WorkerAction,
) -> bool {
    &&& after == (WorkerView { index: apply(before.index, entry), ..before })
    &&& replies(action, acknowledgement(before.index, entry))
}

/// What becomes of a worker on an event, and what it wants done next.
pub open spec fn executes(
    before: WorkerView,
    event: WorkerEvent,
    after: WorkerView,
    action: WorkerAction,
) -> bool {
    match event {
        WorkerEvent::Query(DatabaseQueryOperation::Info) => {
            &&& after == before
            &&& exists|info: InfoPacket| #[trigger] describes(info, before) && replies(action,
                ResponseView::Okay(info.bytes()))
        },
        WorkerEvent::Query(DatabaseQueryOperation::GET { key }) => {
            &&& after == before
            &&& replies(action, looked_up(before.index, key@))
        },
        WorkerEvent::Query(DatabaseQueryOperation::SET { key, value }) => staged(
            before,
            Entry { op: OP_SET, key: key@, value: value@ },
            after,
            action,
        ),
        WorkerEvent::Query(DatabaseQueryOperation::DELETE { key }) => staged(
            before,
            Entry { op: OP_DELETE, key: key@, value: Seq::empty() },
            after,
            action,
        ),
        WorkerEvent::Appended { write, entry, outcome: Err(message) } => {
            &&& after == (WorkerView {
                wal: WalView { write_buf: Seq::empty(), ..before.wal },
                ..before
            })
            &&& reports(action, message@)
        },
        WorkerEvent::Appended { write, entry, outcome: Ok(_) } => {
            let now = logged(before, entry.spec_len());
            if sync_due(now) {
                &&& after == now
                &&& action matches WorkerAction::Sync { write: w }
                &&& w@ == write@
            } else {
                made(now, write@, after, action)
            }
        },
        WorkerEvent::Synced { write, outcome: Err(message) } => {
            &&& after == before
            &&& reports(action, message@)
        },
        WorkerEvent::Synced { write, outcome: Ok(_) } => made(before, write@, after, action),
        WorkerEvent::Closed => after == before && action is FinalSync,
    }
}

/// Whether the counters of a worker have room for an event.
pub open spec fn has_room(view: WorkerView, event: WorkerEvent) -> bool {
    match event {
        WorkerEvent::Query(DatabaseQueryOperation::SET { key, value }) => key@.len() + value@.len()
            + HEADER_LEN + CRC_LEN <= usize::MAX,
        WorkerEvent::Query(DatabaseQueryOperation::DELETE { key }) => key@.len() + HEADER_LEN
            + CRC_LEN <= usize::MAX,
        WorkerEvent::Appended { write, entry, outcome: Ok(_) } => {
            &&& view.wal.file_len + entry.spec_len() <= u64::MAX
            &&& view.wal.entry_count < u64::MAX
            &&& view.writes_executed < usize::MAX
        },
        _ => true,
    }
}

impl DatabaseWorker {
    /// A worker with the log and the index of its database.
    pub fn init(wal: Wal, fsync_interval: usize, memory_index: MemoryIndex) -> (worker: Self)
        ensures
            worker@ == (WorkerView {
                wal: wal@,
                fsync_interval: if fsync_interval == 0 {
                    1
                } else {
                    fsync_interval as nat
                },
                index: memory_index@,
                writes_executed: 0,
            }),
    {
        DatabaseWorker { wal, fsync_interval, memory_index, writes_executed: 0 }
    }

    /// The log of the database.
    pub fn wal(&self) -> (wal: &Wal)
        ensures
            wal@ == self@.wal,
    {
        &self.wal
    }

    /// The number of entries that were written since the worker started.
    pub fn writes_executed(&self) -> (count: usize)
        ensures
            count == self@.writes_executed,
    {
        self.writes_executed
    }

    /// Takes note of an event, and says what to do next.
    pub fn execute_queries(&mut self, event: WorkerEvent) -> (action: WorkerAction)
        requires
            has_room(old(self)@, event),
        ensures
            executes(old(self)@, event, final(self)@, action),
    {
        match event {
            WorkerEvent::Query(DatabaseQueryOperation::Info) => {
                let info = self.info();
                let action = WorkerAction::Reply(Ok(Response::Okay(info.to_bytes())));
                assert(describes(info, self@) && replies(action, ResponseView::Okay(info.bytes())));
                action
            },
            WorkerEvent::Query(DatabaseQueryOperation::GET { key }) => {
                let response = match self.memory_index.get(key.as_slice()) {
                    Some(value) => Response::KeyValue(vstd::slice::slice_to_vec(value.as_slice())),
                    None => Response::KeyNotFound(text_bytes("Key not found")),
                };
                WorkerAction::Reply(Ok(response))
            },
            WorkerEvent::Query(DatabaseQueryOperation::SET { key, value }) => {
                self.stage(OP_SET, key, value)
            },
            WorkerEvent::Query(DatabaseQueryOperation::DELETE { key }) => {
                let value: Vec<u8> = Vec::new();
                assert(value@ =~= Seq::empty());
                self.stage(OP_DELETE, key, value)
            },
            WorkerEvent::Appended { write, entry, outcome } => {
                match outcome {
                    Err(message) => {
                        self.wal.discard();
                        WorkerAction::Reply(Err(message))
                    },
                    Ok(_) => {
                        let _ = self.wal.confirm(entry);
                        self.writes_executed += 1;
                        let interval = if self.fsync_interval == 0 {
                            1
                        } else {
                            self.fsync_interval
                        };
                        if self.writes_executed % interval == 0 {
                            WorkerAction::Sync { write }
                        } else {
                            self.make(write)
                        }
                    },
                }
            },
            WorkerEvent::Synced { write, outcome } => {
                match outcome {
                    Err(message) => WorkerAction::Reply(Err(message)),
                    Ok(_) => self.make(write),
                }
            },
            WorkerEvent::Closed => WorkerAction::FinalSync,
        }
    }

    /// What the database tells about itself.
    pub fn info(&self) -> (info: InfoPacket)
        ensures
            describes(info, self@),
    {
        let sizes = self.memory_index.key_sizes();
        let key_count = len_u32(sizes.count);
        let mut min_key_size: u32 = 0;
        let mut max_key_size: u32 = 0;
        let mut mean_key_size: u32 = 0;
        if key_count > 0 {
            min_key_size = len_u32(sizes.min);
            max_key_size = len_u32(sizes.max);
            mean_key_size = (sizes.total / key_count as u128 % 4294967296) as u32;
            assert(is_shortest(self@.index.dom(), sizes.min as nat));
            assert(is_longest(self@.index.dom(), sizes.max as nat));
        }
        InfoPacket {
            size_on_disk: (self.wal.size_on_disk() % 4294967296) as u32,
            size_in_memory: len_u32(core::mem::size_of::<MemoryIndex>()),
            min_key_size,
            mean_key_size,
            max_key_size,
            key_count,
        }
    }

    /// Puts a change into the write buffer of the log.
    fn stage(&mut self, op: u8, key: Vec<u8>, value: Vec<u8>) -> (action: WorkerAction)
        requires
            key@.len() + value@.len() + HEADER_LEN + CRC_LEN <= usize::MAX,
        ensures
            staged(old(self)@, Entry { op, key: key@, value: value@ }, final(self)@, action),
    {
        match self.wal.append(op, key.as_slice(), value.as_slice()) {
            Err(error) => WorkerAction::Reply(Err(error.message())),
            Ok(entry) => WorkerAction::Append { write: Write { op, key, value }, entry },
        }
    }

    /// Makes a logged change and acknowledges it.
    fn make(&mut self, write: Write) -> (action: WorkerAction)
        ensures
            made(old(self)@, write@, final(self)@, action),
    {
        let mut found = true;
        if write.op == OP_SET {
            self.memory_index.insert(write.key, write.value);
        } else if write.op == OP_DELETE {
            found = self.memory_index.remove(write.key.as_slice());
        }
        if found {
            WorkerAction::Reply(Ok(Response::Okay(text_bytes("OK"))))
        } else {
            WorkerAction::Reply(Ok(Response::KeyNotFound(text_bytes("Key not found"))))
        }
    }
}

/// Whether a worker is up to date with its log file: nothing waits to be written, and
/// the index is the one that the file stands for.
pub open spec fn in_step(view: WorkerView, file: Seq<u8>) -> bool {
    &&& clean(file)
    &&& view.wal == opened(file)
    &&& view.index == recovered(file)
}

/// Whether a change went through: it was asked for, its bytes reached the log file,
/// the file was synced if that was due, and the change was acknowledged.
pub open spec fn acknowledged(
    before: WorkerView,
    query: DatabaseQueryOperation,
    waiting: WorkerView,
    append: WorkerAction,
    written: WorkerView,
    next: WorkerAction,
    after: WorkerView,
    reply: WorkerAction,
) -> bool {
    &&& executes(before, WorkerEvent::Query(query), waiting, append)
    &&& append matches WorkerAction::Append { write, entry }
    &&& executes(
        waiting,
        WorkerEvent::Appended { write, entry, outcome: Ok(()) },
        written,
        next,
    )
    &&& match next {
        WorkerAction::Sync { write } => executes(
            written,
            WorkerEvent::Synced { write, outcome: Ok(()) },
            after,
            reply,
        ),
        _ => after == written && reply == next,
    }
}

/// The entry that a query logs.
pub open spec fn entry_of(query: DatabaseQueryOperation) -> Option<Entry> {
    match query {
        DatabaseQueryOperation::SET { key, value } => Some(
            Entry { op: OP_SET, key: key@, value: value@ },
        ),
        DatabaseQueryOperation::DELETE { key } => Some(
            Entry { op: OP_DELETE, key: key@, value: Seq::empty() },
        ),
        _ => None,
    }
}

/// An acknowledged change is in the log file: a worker that is up to date with its
/// file is up to date with the file that has the written bytes behind it, and so a
/// worker that starts from that file knows every acknowledged change.
pub proof fn law_acknowledged_write_is_durable(
    file: Seq<u8>,
    before: WorkerView,
    query: DatabaseQueryOperation,
    waiting: WorkerView,
    append: WorkerAction,
    written: WorkerView,
    next: WorkerAction,
    after: WorkerView,
    reply: WorkerAction,
)
    requires
        in_step(before, file),
        acknowledged(before, query, waiting, append, written, next, after, reply),
        (entry_of(query)->0).lengths_fit(),
    ensures
        in_step(after, file + waiting.wal.write_buf),
        recovered(file + waiting.wal.write_buf) == apply(before.index, entry_of(query)->0),
        opened(file + waiting.wal.write_buf).file_len == opened(file).file_len
            + waiting.wal.write_buf.len(),
{
    law_logged_write_is_recovered(
        file,
        before,
        query,
        waiting,
        append,
        written,
        next,
        after,
        reply,
    );
    assert(waiting.wal.write_buf =~= (entry_of(query)->0).bytes());
}

/// A change whose bytes reached the log file is in it, whatever the index holds: a worker
/// that starts from the file makes it. So it is even where an earlier change was logged
/// and then, because the file could not be synced, not made.
pub proof fn law_logged_write_is_recovered(
    file: Seq<u8>,
    before: WorkerView,
    query: DatabaseQueryOperation,
    waiting: WorkerView,
    append: WorkerAction,
    written: WorkerView,
    next: WorkerAction,
    after: WorkerView,
    reply: WorkerAction,
)
    requires
        clean(file),
        before.wal == opened(file),
        acknowledged(before, query, waiting, append, written, next, after, reply),
        (entry_of(query)->0).lengths_fit(),
    ensures
        clean(file + waiting.wal.write_buf),
        after.wal == opened(file + waiting.wal.write_buf),
        recovered(file + waiting.wal.write_buf) == apply(recovered(file), entry_of(query)->0),
{
    let entry = entry_of(query)->0;
    assert(append_error(entry) is None);
    assert(waiting.wal.write_buf =~= entry.bytes());
    law_append_is_recovered(file, entry);
    assert(opened(file + entry.bytes()) =~= after.wal);
}

/// A change that could not be written leaves nothing behind: the worker is as it was
/// before the change was asked for.
pub proof fn law_failed_write_leaves_no_trace(
    before: WorkerView,
    query: DatabaseQueryOperation,
    waiting: WorkerView,
    append: WorkerAction,
    message: String,
    after: WorkerView,
    reply: WorkerAction,
)
    requires
        before.wal.write_buf.len() == 0,
        executes(before, WorkerEvent::Query(query), waiting, append),
        append matches WorkerAction::Append { write, entry } && executes(
            waiting,
            WorkerEvent::Appended { write, entry, outcome: Err(message) },
            after,
            reply,
        ),
    ensures
        after == before,
        reports(reply, message@),
{
    assert(before.wal.write_buf =~= Seq::empty());
    assert(after.wal =~= before.wal);
}

/// A worker whose log file holds all acknowledged changes, in order and nothing else,
/// and whose index is what they leave behind, stays so by every acknowledged change.
pub proof fn law_history_is_kept(
    history: Seq<Entry>,
    before: WorkerView,
    query: DatabaseQueryOperation,
    waiting: WorkerView,
    append: WorkerAction,
    written: WorkerView,
    next: WorkerAction,
    after: WorkerView,
    reply: WorkerAction,
)
    requires
        forall|i: int| 0 <= i < history.len() ==> readable(#[trigger] history[i]),
        in_step(before, log_bytes(history)),
        acknowledged(before, query, waiting, append, written, next, after, reply),
        (entry_of(query)->0).lengths_fit(),
    ensures
        in_step(after, log_bytes(history.push(entry_of(query)->0))),
        after.index == replay(history.push(entry_of(query)->0)),
        after.wal.entry_count == history.len() + 1,
{
    let entry = entry_of(query)->0;
    let longer = history.push(entry);
    law_acknowledged_write_is_durable(
        log_bytes(history),
        before,
        query,
        waiting,
        append,
        written,
        next,
        after,
        reply,
    );
    assert(longer.drop_last() =~= history);
    assert(waiting.wal.write_buf =~= entry.bytes());
    law_log_reads_back(longer);
}

/// A worker that starts from a log file is up to date with the file once the torn or
/// corrupt tail of the file is cut off.
pub proof fn law_started_worker_is_in_step(file: Seq<u8>, view: WorkerView)
    requires
        view.wal == opened(file),
        view.index == recovered(file),
    ensures
        view.wal.file_len <= file.len(),
        in_step(view, file.take(view.wal.file_len as int)),
{
    law_truncation_keeps_entries(file);
}

/// What was set is what a read gives back, what was deleted is gone, and a change
/// touches no other key.
pub proof fn law_read_gives_back_write(
    before: WorkerView,
    query: DatabaseQueryOperation,
    waiting: WorkerView,
    append: WorkerAction,
    written: WorkerView,
    next: WorkerAction,
    after: WorkerView,
    reply: WorkerAction,
    other: Seq<u8>,
)
    requires
        acknowledged(before, query, waiting, append, written, next, after, reply),
        other != (entry_of(query)->0).key,
    ensures
        query matches DatabaseQueryOperation::SET { key, value } ==> looked_up(after.index, key@)
            == ResponseView::KeyValue(value@),
        query matches DatabaseQueryOperation::DELETE { key } ==> looked_up(after.index, key@)
            == ResponseView::KeyNotFound(encode_utf8("Key not found"@)),
        looked_up(after.index, other) == looked_up(before.index, other),
{
}

/// A change that may not be logged, or whose bytes could not be written or synced, is
/// not made: reads answer as before.
pub proof fn law_refused_write_changes_no_read(
    before: WorkerView,
    event: WorkerEvent,
    after: WorkerView,
    action: WorkerAction,
)
    requires
        executes(before, event, after, action),
        action matches WorkerAction::Reply(Err(_)),
    ensures
        after.index == before.index,
        after.wal.file_len == before.wal.file_len,
        after.wal.entry_count == before.wal.entry_count,
        after.writes_executed == before.writes_executed,
{
}

/// A worker after `n` writes.
pub open spec fn after_writes(view: WorkerView, n: nat) -> WorkerView {
    WorkerView { writes_executed: n, ..view }
}

/// Of as many successive writes as the interval has, exactly one is followed by a
/// sync before it is acknowledged.
pub proof fn law_one_sync_per_interval(view: WorkerView) -> (due: nat)
    requires
        view.fsync_interval > 0,
    ensures
        view.writes_executed < due <= view.writes_executed + view.fsync_interval,
        sync_due(after_writes(view, due)),
        forall|n: nat|
            view.writes_executed < n <= view.writes_executed + view.fsync_interval
                && #[trigger] sync_due(after_writes(view, n)) ==> n == due,
{
    let writes = view.writes_executed as int;
    let interval = view.fsync_interval as int;
    let quotient = writes / interval;
    let due = interval * (quotient + 1);
    vstd::arithmetic::div_mod::lemma_fundamental_div_mod(writes, interval);
    vstd::arithmetic::mul::lemma_mul_is_distributive_add(interval, quotient, 1);
    vstd::arithmetic::div_mod::lemma_mod_multiples_basic(quotient + 1, interval);
    vstd::arithmetic::mul::lemma_mul_is_commutative(quotient + 1, interval);
    assert forall|n: nat|
        writes < n <= writes + interval && #[trigger] sync_due(after_writes(view, n)) implies n
        == due by {
        vstd::arithmetic::div_mod::lemma_fundamental_div_mod(n as int, interval);
        let k = n as int / interval;
        assert(n == interval * k);
        if k <= quotient {
            assert(interval * k <= interval * quotient) by (nonlinear_arith)
                requires
                    k <= quotient,
                    interval > 0,
            ;
        } else if k > quotient + 1 {
            assert(interval * k >= interval * (quotient + 2)) by (nonlinear_arith)
                requires
                    k >= quotient + 2,
                    interval > 0,
            ;
            vstd::arithmetic::mul::lemma_mul_is_distributive_add(interval, quotient, 2);
        }
    }
    due as nat
}

} // verus!
