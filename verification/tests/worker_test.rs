use mini_db::index::MemoryIndex;
use mini_db::protocol::{InfoPacket, Response};
use mini_db::wal::Wal;
use mini_db::worker::{DatabaseQueryOperation, DatabaseWorker, WorkerAction, WorkerEvent};

/// A worker with its log file, in memory.
struct Database {
    worker: DatabaseWorker,
    file: Vec<u8>,
    syncs: usize,
}

impl Database {
    fn open(file: Vec<u8>, fsync_interval: usize) -> Self {
        let mut file = file;
        let (wal, index) = Wal::init(&file);
        if let Some(len) = wal.truncated_len(file.len() as u64) {
            file.truncate(len as usize);
        }
        Database { worker: DatabaseWorker::init(wal, fsync_interval, index), file, syncs: 0 }
    }

    /// Runs a query to its answer.
    fn run(&mut self, query: DatabaseQueryOperation) -> Result<Response, String> {
        let mut action = self.worker.execute_queries(WorkerEvent::Query(query));
        loop {
            action = match action {
                WorkerAction::Reply(result) => return result,
                WorkerAction::Append { write, entry } => {
                    self.file.extend_from_slice(self.worker.wal().write_buf());
                    self.worker.execute_queries(WorkerEvent::Appended { write, entry, outcome: Ok(()) })
                }
                WorkerAction::Sync { write } => {
                    self.syncs += 1;
                    self.worker.execute_queries(WorkerEvent::Synced { write, outcome: Ok(()) })
                }
                WorkerAction::FinalSync => panic!("not asked to stop"),
            };
        }
    }

    fn set(&mut self, key: &[u8], value: &[u8]) -> Result<Response, String> {
        self.run(DatabaseQueryOperation::SET { key: key.to_vec(), value: value.to_vec() })
    }

    fn get(&mut self, key: &[u8]) -> Result<Response, String> {
        self.run(DatabaseQueryOperation::GET { key: key.to_vec() })
    }

    fn delete(&mut self, key: &[u8]) -> Result<Response, String> {
        self.run(DatabaseQueryOperation::DELETE { key: key.to_vec() })
    }
}

fn okay() -> Result<Response, String> {
    Ok(Response::Okay(b"OK".to_vec()))
}

fn not_found() -> Result<Response, String> {
    Ok(Response::KeyNotFound(b"Key not found".to_vec()))
}

fn value(value: &[u8]) -> Result<Response, String> {
    Ok(Response::KeyValue(value.to_vec()))
}

#[test]
fn the_index_holds_what_was_put_in() {
    let mut index = MemoryIndex::new();
    assert!(index.is_empty());
    assert_eq!(index.len(), 0);
    index.insert(b"a".to_vec(), b"1".to_vec());
    index.insert(b"bb".to_vec(), b"2".to_vec());
    index.insert(b"a".to_vec(), b"3".to_vec());
    assert_eq!(index.len(), 2);
    assert_eq!(index.get(b"a").unwrap(), b"3");
    assert!(index.get(b"c").is_none());
    let sizes = index.key_sizes();
    assert_eq!((sizes.count, sizes.min, sizes.max, sizes.total), (2, 1, 2, 3));
    assert!(index.remove(b"a"));
    assert!(!index.remove(b"a"));
    assert!(!index.is_empty());
    assert!(index.remove(b"bb"));
    assert!(index.is_empty());
}

#[test]
fn reads_give_back_what_was_written() {
    let mut db = Database::open(Vec::new(), 16);
    assert_eq!(db.get(b"k"), not_found());
    assert_eq!(db.set(b"k", b"v"), okay());
    assert_eq!(db.set(b"other", b"w"), okay());
    assert_eq!(db.get(b"k"), value(b"v"));
    assert_eq!(db.set(b"k", b"v2"), okay());
    assert_eq!(db.get(b"k"), value(b"v2"));
    assert_eq!(db.delete(b"k"), okay());
    assert_eq!(db.get(b"k"), not_found());
    assert_eq!(db.delete(b"k"), not_found());
    assert_eq!(db.get(b"other"), value(b"w"));
}

#[test]
fn acknowledged_writes_survive_a_restart() {
    let mut db = Database::open(Vec::new(), 1);
    db.set(b"a", b"1").unwrap();
    db.set(b"b", b"2").unwrap();
    db.delete(b"a").unwrap();
    let mut file = db.file;
    // a torn write at the end of the file
    file.extend_from_slice(&[1, 4, 0]);
    let mut again = Database::open(file, 1);
    assert_eq!(again.get(b"a"), not_found());
    assert_eq!(again.get(b"b"), value(b"2"));
    assert_eq!(again.worker.wal().entry_count(), 3);
    assert_eq!(again.worker.wal().size_on_disk(), again.file.len() as u64);
    again.set(b"c", b"3").unwrap();
    let mut last = Database::open(again.file, 1);
    assert_eq!(last.get(b"c"), value(b"3"));
}

#[test]
fn a_delete_of_an_absent_key_is_logged_too() {
    let mut db = Database::open(Vec::new(), 16);
    assert_eq!(db.delete(b"gone"), not_found());
    assert_eq!(db.worker.wal().entry_count(), 1);
    assert_eq!(db.worker.writes_executed(), 1);
}

#[test]
fn one_write_of_an_interval_is_synced() {
    let mut db = Database::open(Vec::new(), 4);
    for n in 0..12u8 {
        db.set(&[n], b"v").unwrap();
        assert_eq!(db.syncs, (n as usize + 1) / 4);
    }
    db.get(b"x").unwrap();
    assert_eq!(db.syncs, 3);
    assert_eq!(db.worker.writes_executed(), 12);
}

#[test]
fn an_interval_of_zero_syncs_every_write() {
    for interval in [0, 1] {
        let mut db = Database::open(Vec::new(), interval);
        db.set(b"a", b"1").unwrap();
        db.delete(b"a").unwrap();
        assert_eq!(db.syncs, 2);
    }
}

#[test]
fn refused_writes_change_nothing() {
    let mut db = Database::open(Vec::new(), 1);
    assert_eq!(db.set(b"", b"v"), Err("wal: key cannot be empty".to_string()));
    assert_eq!(db.delete(b""), Err("wal: key cannot be empty".to_string()));
    assert!(db.file.is_empty());
    assert_eq!(db.worker.wal().entry_count(), 0);
    assert_eq!(db.worker.writes_executed(), 0);
}

#[test]
fn failed_writes_are_reported_and_not_made() {
    let mut db = Database::open(Vec::new(), 1);
    let query = DatabaseQueryOperation::SET { key: b"k".to_vec(), value: b"v".to_vec() };
    let action = db.worker.execute_queries(WorkerEvent::Query(query));
    let (write, entry) = match action {
        WorkerAction::Append { write, entry } => (write, entry),
        _ => panic!("a write is logged first"),
    };
    let outcome = Err("wal: write".to_string());
    match db.worker.execute_queries(WorkerEvent::Appended { write, entry, outcome }) {
        WorkerAction::Reply(Err(message)) => assert_eq!(message, "wal: write"),
        _ => panic!("the failure is reported"),
    }
    assert_eq!(db.get(b"k"), not_found());
    assert_eq!(db.worker.wal().entry_count(), 0);
    assert_eq!(db.worker.wal().next_offset(), 0);
    assert!(db.worker.wal().write_buf().is_empty());

    // the next write is logged alone
    db.set(b"other", b"w").unwrap();
    assert_eq!(db.worker.wal().size_on_disk(), db.file.len() as u64);
    let mut again = Database::open(db.file, 1);
    assert_eq!(again.worker.wal().entry_count(), 1);
    assert_eq!(again.get(b"k"), not_found());
    assert_eq!(again.get(b"other"), value(b"w"));
}

#[test]
fn failed_syncs_are_reported_and_not_made() {
    let mut db = Database::open(Vec::new(), 1);
    let query = DatabaseQueryOperation::SET { key: b"k".to_vec(), value: b"v".to_vec() };
    let action = db.worker.execute_queries(WorkerEvent::Query(query));
    let logged = db.worker.wal().write_buf().to_vec();
    let action = match action {
        WorkerAction::Append { write, entry } => {
            db.worker.execute_queries(WorkerEvent::Appended { write, entry, outcome: Ok(()) })
        }
        _ => panic!("a write is logged first"),
    };
    let write = match action {
        WorkerAction::Sync { write } => write,
        _ => panic!("every write is synced"),
    };
    let outcome = Err("wal: fsync".to_string());
    match db.worker.execute_queries(WorkerEvent::Synced { write, outcome }) {
        WorkerAction::Reply(Err(message)) => assert_eq!(message, "wal: fsync"),
        _ => panic!("the failure is reported"),
    }
    // the entry stands in the log, and the change is not made
    assert_eq!(db.get(b"k"), not_found());
    assert_eq!(db.worker.wal().entry_count(), 1);
    assert_eq!(db.worker.writes_executed(), 1);

    // later writes are logged behind it, and all of them are read back
    db.file.extend_from_slice(&logged);
    db.set(b"other", b"w").unwrap();
    let mut again = Database::open(db.file, 1);
    assert_eq!(again.get(b"k"), value(b"v"));
    assert_eq!(again.get(b"other"), value(b"w"));
}

#[test]
fn information_of_an_empty_database_is_zero() {
    let mut db = Database::open(Vec::new(), 16);
    let info = match db.run(DatabaseQueryOperation::Info) {
        Ok(Response::Okay(bytes)) => InfoPacket::from_bytes(&bytes).unwrap(),
        other => panic!("{:?}", other),
    };
    assert_eq!(info.size_on_disk, 0);
    assert_eq!(info.size_in_memory as usize, size_of::<MemoryIndex>());
    assert_eq!((info.min_key_size, info.mean_key_size, info.max_key_size, info.key_count), (0, 0, 0, 0));
}

#[test]
fn information_tells_sizes_of_keys_and_log() {
    let mut db = Database::open(Vec::new(), 16);
    db.set(b"a", b"1111").unwrap();
    db.set(b"four", b"2").unwrap();
    db.set(b"sixsix", b"3").unwrap();
    let info = db.worker.info();
    assert_eq!(info.size_on_disk as usize, db.file.len());
    assert_eq!(info.key_count, 3);
    assert_eq!((info.min_key_size, info.mean_key_size, info.max_key_size), (1, 3, 6));
    // the memory of the index itself, whatever it points to
    assert_eq!(info.size_in_memory, 32);
}

#[test]
fn the_last_event_asks_for_a_sync() {
    let mut db = Database::open(Vec::new(), 16);
    assert!(matches!(db.worker.execute_queries(WorkerEvent::Closed), WorkerAction::FinalSync));
}
