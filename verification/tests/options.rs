use sqlite_access::error::DbError;
use sqlite_access::options::{connect, path_mapper, ConnectPlan, JournalMode, Pragmas, Setting, SqliteOptions};

fn pragmas(pairs: &[(&str, &str)]) -> Pragmas {
    let mut set = Pragmas::new();
    for (name, value) in pairs {
        set.insert(name.to_string(), value.to_string());
    }
    set
}

fn pair(name: &str, value: &str) -> (String, String) {
    (name.to_string(), value.to_string())
}

fn std_join(dir: &str, name: &str) -> String {
    let mut path = std::path::PathBuf::from(dir);
    path.push(name);
    path.to_str().unwrap().to_owned()
}

#[test]
fn journal_modes_by_name() {
    assert_eq!(JournalMode::parse("delete").unwrap(), JournalMode::Delete);
    assert_eq!(JournalMode::parse("truncate").unwrap(), JournalMode::Truncate);
    assert_eq!(JournalMode::parse("persist").unwrap(), JournalMode::Persist);
    assert_eq!(JournalMode::parse("memory").unwrap(), JournalMode::Memory);
    assert_eq!(JournalMode::parse("wal").unwrap(), JournalMode::Wal);
    assert_eq!(JournalMode::parse("off").unwrap(), JournalMode::Off);
}

#[test]
fn journal_mode_names_ignore_ascii_case() {
    assert_eq!(JournalMode::parse("WAL").unwrap(), JournalMode::Wal);
    assert_eq!(JournalMode::parse("Delete").unwrap(), JournalMode::Delete);
    assert_eq!(JournalMode::parse("tRuNcAtE").unwrap(), JournalMode::Truncate);
    assert_eq!(JournalMode::parse("OFF").unwrap(), JournalMode::Off);
}

#[test]
fn unknown_journal_mode_is_an_engine_error() {
    for text in ["", "wall", "wal ", " wal", "journal", "w\u{212a}l", "o\u{ff46}f"] {
        assert!(matches!(JournalMode::parse(text), Err(DbError::Sql(_))), "{:?}", text);
    }
}

#[test]
fn path_is_directory_then_name() {
    assert_eq!(path_mapper("/home/u/.config/app".to_string(), "app.db"), "/home/u/.config/app/app.db");
    assert_eq!(path_mapper("/home/u/.config/app/".to_string(), "app.db"), "/home/u/.config/app/app.db");
    assert_eq!(path_mapper("cfg".to_string(), "sub/app.db"), "cfg/sub/app.db");
}

#[test]
fn rooted_name_stands_alone() {
    assert_eq!(path_mapper("/home/u/.config/app".to_string(), "/tmp/app.db"), "/tmp/app.db");
    assert_eq!(path_mapper(String::new(), "/app.db"), "/app.db");
}

#[test]
fn path_edge_cases() {
    assert_eq!(path_mapper(String::new(), "app.db"), "app.db");
    assert_eq!(path_mapper("cfg".to_string(), ""), "cfg/");
    assert_eq!(path_mapper("/".to_string(), "app.db"), "/app.db");
    assert_eq!(path_mapper(String::new(), ""), "");
    assert_eq!(path_mapper("cfg".to_string(), "../x.db"), "cfg/../x.db");
    assert_eq!(path_mapper("d\u{e9}p\u{f4}t".to_string(), "donn\u{e9}es.db"), "d\u{e9}p\u{f4}t/donn\u{e9}es.db");
}

#[test]
fn path_agrees_with_the_standard_library() {
    let dirs = ["", "/", "cfg", "cfg/", "/a/b", "/a/b/", "a//", "d\u{e9}p"];
    let names = ["", "x", "/x", "x/y", "../x", "/", "x/", "\u{e9}.db"];
    for dir in dirs {
        for name in names {
            assert_eq!(path_mapper(dir.to_string(), name), std_join(dir, name), "{:?} {:?}", dir, name);
        }
    }
}

#[test]
fn plan_without_options() {
    let plan = connect("/cfg".to_string(), "app.db", None).unwrap();
    assert_eq!(
        plan,
        ConnectPlan { filepath: "/cfg/app.db".to_string(), create_if_missing: true, settings: vec![] }
    );
}

#[test]
fn plan_with_empty_options() {
    let options = SqliteOptions { pragmas: Pragmas::new(), jounal_mode: None, foreign_keys: None, busy_timeout: None };
    let plan = connect("/cfg".to_string(), "app.db", Some(options)).unwrap();
    assert_eq!(plan.filepath, "/cfg/app.db");
    assert!(plan.create_if_missing);
    assert_eq!(plan.settings, vec![]);
}

#[test]
fn plan_lists_the_settings_in_order() {
    let options = SqliteOptions {
        pragmas: pragmas(&[("synchronous", "NORMAL"), ("cache_size", "-2000")]),
        jounal_mode: Some("WAL".to_string()),
        foreign_keys: Some(true),
        busy_timeout: Some(5000),
    };
    let plan = connect("/cfg".to_string(), "app.db", Some(options)).unwrap();
    assert_eq!(
        plan.settings,
        vec![
            Setting::JournalMode(JournalMode::Wal),
            Setting::ForeignKeys(true),
            Setting::BusyTimeout(5000),
            Setting::Pragma("synchronous".to_string(), "NORMAL".to_string()),
            Setting::Pragma("cache_size".to_string(), "-2000".to_string()),
        ]
    );
}

#[test]
fn plan_with_some_settings() {
    let options = SqliteOptions {
        pragmas: pragmas(&[("journal_mode", "OFF")]),
        jounal_mode: None,
        foreign_keys: Some(false),
        busy_timeout: None,
    };
    let plan = connect("/cfg".to_string(), "app.db", Some(options)).unwrap();
    assert_eq!(
        plan.settings,
        vec![Setting::ForeignKeys(false), Setting::Pragma("journal_mode".to_string(), "OFF".to_string())]
    );
}

#[test]
fn unknown_journal_mode_fails_the_opening() {
    let options = SqliteOptions {
        pragmas: Pragmas::new(),
        jounal_mode: Some("fast".to_string()),
        foreign_keys: Some(true),
        busy_timeout: Some(1),
    };
    assert!(matches!(connect("/cfg".to_string(), "app.db", Some(options)), Err(DbError::Sql(_))));
}

#[test]
fn pragmas_hold_every_name_once() {
    let mut set = Pragmas::new();
    assert_eq!(set.len(), 0);
    assert_eq!(set.list(), vec![]);
    assert_eq!(set.insert("a".to_string(), "1".to_string()), None);
    assert_eq!(set.insert("b".to_string(), "2".to_string()), None);
    assert_eq!(set.insert("c".to_string(), "3".to_string()), None);
    assert_eq!(set.insert("b".to_string(), "4".to_string()), Some("2".to_string()));
    assert_eq!(set.insert("a".to_string(), "5".to_string()), Some("1".to_string()));
    assert_eq!(set.len(), 3);
    assert_eq!(set.list(), vec![pair("a", "5"), pair("b", "4"), pair("c", "3")]);
    assert_eq!(set.clone(), set);
    assert_eq!(Pragmas::default(), Pragmas::new());
}

#[test]
fn pragma_that_is_set_twice_is_planned_once() {
    let options = SqliteOptions {
        pragmas: pragmas(&[("cache_size", "1"), ("synchronous", "OFF"), ("cache_size", "2")]),
        jounal_mode: None,
        foreign_keys: None,
        busy_timeout: None,
    };
    let plan = connect("/cfg".to_string(), "app.db", Some(options)).unwrap();
    assert_eq!(
        plan.settings,
        vec![
            Setting::Pragma("cache_size".to_string(), "2".to_string()),
            Setting::Pragma("synchronous".to_string(), "OFF".to_string()),
        ]
    );
}
