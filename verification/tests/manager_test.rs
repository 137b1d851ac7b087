use mini_db::manager::{log_file_name, CreateStep, DbManager, DropStep, InitEvent, InitStep, ManagerError};
use mini_db::protocol::Response;
use mini_db::session::find_worker;
use mini_db::DEFAULT_DB_NAME;

fn file(manager: &mut DbManager, name: &[u8]) -> InitStep {
    manager.init(InitEvent::File(name.to_vec()))
}

fn opened_name(step: InitStep) -> String {
    match step {
        InitStep::Open(name) => name,
        _ => panic!("a log is opened"),
    }
}

/// A manager after a start from an empty directory.
fn started() -> DbManager {
    let mut manager = DbManager::new();
    let name = opened_name(manager.init(InitEvent::EndOfDirectory));
    assert_eq!(name, DEFAULT_DB_NAME);
    assert!(matches!(manager.init(InitEvent::Opened { name, handle: 0 }), InitStep::Continue));
    assert!(matches!(manager.init(InitEvent::EndOfDirectory), InitStep::Ready));
    manager
}

#[test]
fn log_files_are_opened_under_their_names() {
    let mut manager = DbManager::new();
    assert_eq!(opened_name(file(&mut manager, b"users.log")), "users");
    assert_eq!(opened_name(file(&mut manager, b"a.b.log")), "a.b");
    assert_eq!(opened_name(file(&mut manager, "grün.log".as_bytes())), "grün");
    for other in [&b"users.txt"[..], b"users", b".log", b"log", b"users.LOG", b"users.log.bak", b""] {
        assert!(matches!(file(&mut manager, other), InitStep::Continue));
    }
    assert_eq!(manager.db_count(), 0);
}

#[test]
fn log_files_whose_names_are_no_text_end_the_start() {
    let mut manager = DbManager::new();
    match file(&mut manager, &[0xff, b'.', b'l', b'o', b'g']) {
        InitStep::Fail(error) => {
            assert_eq!(error, ManagerError::InvalidLogFileName);
            assert_eq!(error.message(), "Invalid log file name");
        }
        _ => panic!("the name is no text"),
    }
    // a name that is no text matters only for a log
    assert!(matches!(file(&mut manager, &[0xff, 0xfe, b'.', b't', b'x', b't']), InitStep::Continue));
}

#[test]
fn the_default_database_is_opened_if_it_has_no_file() {
    let manager = started();
    assert_eq!(manager.db_count(), 1);
    assert!(manager.db_exists("default"));

    let mut manager = DbManager::new();
    let name = opened_name(file(&mut manager, b"default.log"));
    manager.init(InitEvent::Opened { name, handle: 7 });
    assert!(matches!(manager.init(InitEvent::EndOfDirectory), InitStep::Ready));
    assert_eq!(manager.get_db_handle("default"), Ok(7));
}

#[test]
fn created_databases_are_found_until_they_are_dropped() {
    let mut manager = started();
    match manager.create_db("users") {
        CreateStep::Open(log_file) => assert_eq!(log_file, "users.log"),
        CreateStep::Refuse(_) => panic!("the name is free"),
    }
    let answer = manager.created("users", 1);
    assert_eq!(answer, Response::Okay(b"Database created successfully".to_vec()));
    assert_eq!(manager.db_count(), 2);
    assert_eq!(manager.get_db_handle("users"), Ok(1));
    assert_eq!(manager.get_db_handle("default"), Ok(0));

    match manager.create_db("users") {
        CreateStep::Refuse(answer) => {
            assert_eq!(answer, Response::DbAlreadyExists(b"Database already exists".to_vec()))
        }
        CreateStep::Open(_) => panic!("the name is taken"),
    }

    match manager.drop_db("users") {
        DropStep::Stop { handle, log_file, response } => {
            assert_eq!(handle, 1);
            assert_eq!(log_file, "users.log");
            assert_eq!(response, Response::Okay(b"Database dropped successfully".to_vec()));
        }
        _ => panic!("the database is there"),
    }
    assert!(!manager.db_exists("users"));
    assert_eq!(manager.db_count(), 1);
    assert_eq!(
        manager.get_db_handle("users"),
        Err(Response::DbNotFound(b"Database not found".to_vec()))
    );
}

#[test]
fn the_default_database_is_never_dropped() {
    let mut manager = started();
    match manager.drop_db("default") {
        DropStep::Refuse(answer) => {
            assert_eq!(answer, Response::InvalidRequest(b"Cannot drop the default database".to_vec()))
        }
        _ => panic!("the default database stays"),
    }
    assert_eq!(manager.get_db_handle("default"), Ok(0));
}

#[test]
fn unknown_databases_cannot_be_dropped() {
    let mut manager = started();
    match manager.drop_db("nobody") {
        DropStep::Fail(message) => assert_eq!(message, "database not found: nobody"),
        _ => panic!("there is no such database"),
    }
    assert_eq!(manager.db_count(), 1);
}

#[test]
fn queries_to_unknown_databases_are_refused() {
    let manager = started();
    assert!(matches!(find_worker(&manager, "default"), Ok(0)));
    match find_worker(&manager, "nobody") {
        Err(error) => {
            assert_eq!(error.response(), Response::DbNotFound(b"Database not found".to_vec()));
            assert_eq!(error.message(), "Database nobody not found");
        }
        Ok(_) => panic!("there is no such database"),
    }
}

#[test]
fn a_log_file_is_found_again() {
    for name in ["default", "a", "A-b_9", ".", "x.log"] {
        let mut manager = DbManager::new();
        assert_eq!(opened_name(file(&mut manager, log_file_name(name).as_bytes())), name);
    }
}

#[test]
fn all_workers_are_stopped_at_the_end() {
    let mut manager = started();
    manager.created("a", 5);
    manager.created("b", 9);
    let copy = manager.clone();
    let mut handles = manager.shutdown_all_workers();
    handles.sort_unstable();
    assert_eq!(handles, [0, 5, 9]);
    assert_eq!(manager.db_count(), 0);
    assert_eq!(copy.db_count(), 3);
}
