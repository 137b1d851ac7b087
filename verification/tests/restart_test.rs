use mini_db::manager::{log_file_name, CreateStep, DbManager, DropStep, InitEvent, InitStep};
use mini_db::protocol::Response;
use mini_db::wal::Wal;
use mini_db::worker::{DatabaseQueryOperation, DatabaseWorker, WorkerAction, WorkerEvent};
use std::collections::BTreeMap;

/// The files of a directory by name.
type Directory = BTreeMap<String, Vec<u8>>;

/// A server whose directory is in memory.
struct Server {
    manager: DbManager,
    workers: Vec<Option<DatabaseWorker>>,
    directory: Directory,
}

impl Server {
    fn start(directory: Directory) -> Self {
        let files: Vec<String> = directory.keys().cloned().collect();
        let mut server = Server { manager: DbManager::new(), workers: Vec::new(), directory };
        for file in files {
            match server.manager.init(InitEvent::File(file.into_bytes())) {
                InitStep::Open(name) => server.open(name),
                InitStep::Continue => {}
                _ => panic!("every name is a text"),
            }
        }
        if let InitStep::Open(name) = server.manager.init(InitEvent::EndOfDirectory) {
            server.open(name);
        }
        server
    }

    fn spawn(&mut self, log_file: &str) -> u64 {
        let file = self.directory.entry(log_file.to_string()).or_default();
        let (wal, index) = Wal::init(file);
        if let Some(len) = wal.truncated_len(file.len() as u64) {
            file.truncate(len as usize);
        }
        self.workers.push(Some(DatabaseWorker::init(wal, 2, index)));
        self.workers.len() as u64 - 1
    }

    fn open(&mut self, name: String) {
        let handle = self.spawn(&log_file_name(&name));
        self.manager.init(InitEvent::Opened { name, handle });
    }

    fn create(&mut self, name: &str) {
        match self.manager.create_db(name) {
            CreateStep::Open(log_file) => {
                let handle = self.spawn(&log_file);
                self.manager.created(name, handle);
            }
            CreateStep::Refuse(_) => panic!("the name is free"),
        }
    }

    fn drop_db(&mut self, name: &str) {
        match self.manager.drop_db(name) {
            DropStep::Stop { handle, log_file, .. } => {
                self.workers[handle as usize] = None;
                self.directory.remove(&log_file);
            }
            _ => panic!("the database is there"),
        }
    }

    fn run(&mut self, name: &str, query: DatabaseQueryOperation) -> Response {
        let handle = self.manager.get_db_handle(name).unwrap();
        let worker = self.workers[handle as usize].as_mut().unwrap();
        let mut action = worker.execute_queries(WorkerEvent::Query(query));
        loop {
            action = match action {
                WorkerAction::Reply(result) => return result.unwrap(),
                WorkerAction::Append { write, entry } => {
                    let file = self.directory.get_mut(&log_file_name(name)).unwrap();
                    file.extend_from_slice(worker.wal().write_buf());
                    worker.execute_queries(WorkerEvent::Appended { write, entry, outcome: Ok(()) })
                }
                WorkerAction::Sync { write } => {
                    worker.execute_queries(WorkerEvent::Synced { write, outcome: Ok(()) })
                }
                WorkerAction::FinalSync => panic!("not asked to stop"),
            };
        }
    }

    fn set(&mut self, name: &str, key: &[u8], value: &[u8]) {
        self.run(name, DatabaseQueryOperation::SET { key: key.to_vec(), value: value.to_vec() });
    }

    fn delete(&mut self, name: &str, key: &[u8]) {
        self.run(name, DatabaseQueryOperation::DELETE { key: key.to_vec() });
    }

    fn get(&mut self, name: &str, key: &[u8]) -> Response {
        self.run(name, DatabaseQueryOperation::GET { key: key.to_vec() })
    }

    /// Stops all workers; what is left is the directory.
    fn stop(mut self) -> Directory {
        for handle in self.manager.shutdown_all_workers() {
            let mut worker = self.workers[handle as usize].take().unwrap();
            assert!(matches!(worker.execute_queries(WorkerEvent::Closed), WorkerAction::FinalSync));
        }
        assert_eq!(self.manager.db_count(), 0);
        self.directory
    }
}

#[test]
fn a_restart_keeps_names_and_answers() {
    let mut directory = Directory::new();
    directory.insert("notes.txt".to_string(), b"not a log".to_vec());
    let mut server = Server::start(directory);
    server.create("users");
    server.create("gone");
    server.create("empty");
    server.set("users", b"a", b"1");
    server.set("users", b"b", b"2");
    server.set("default", b"a", b"other");
    server.set("gone", b"a", b"x");
    server.delete("users", b"b");
    server.set("users", b"a", b"3");
    server.drop_db("gone");

    let names = ["default", "empty", "users"];
    let keys = [&b"a"[..], b"b", b"c"];
    let mut answers = Vec::new();
    for name in names {
        for key in keys {
            answers.push(server.get(name, key));
        }
    }
    let directory = server.stop();
    assert_eq!(directory["notes.txt"], b"not a log");

    let mut again = Server::start(directory.clone());
    assert_eq!(again.manager.db_count(), 3);
    let mut answers_again = Vec::new();
    for name in names {
        for key in keys {
            answers_again.push(again.get(name, key));
        }
    }
    assert_eq!(answers, answers_again);
    assert_eq!(answers[0], Response::KeyValue(b"other".to_vec()));
    assert_eq!(answers[6], Response::KeyValue(b"3".to_vec()));
    assert!(!again.manager.db_exists("gone"));
    assert_eq!(again.stop(), directory);
}

#[test]
fn a_database_that_was_dropped_starts_empty_when_it_is_created_again() {
    let mut server = Server::start(Directory::new());
    server.create("db");
    server.set("db", b"k", b"v");
    server.drop_db("db");
    server.create("db");
    assert_eq!(server.get("db", b"k"), Response::KeyNotFound(b"Key not found".to_vec()));
    let mut again = Server::start(server.stop());
    assert_eq!(again.get("db", b"k"), Response::KeyNotFound(b"Key not found".to_vec()));
}
