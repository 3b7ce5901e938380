//! What is decided before a database is opened: the path of its file and
//! the settings of its connections.

use crate::error::DbError;
use sqlx::sqlite::SqliteJournalMode;
use std::str::FromStr;
use vstd::prelude::*;
use vstd::string::*;

verus! {

/// The journaling strategies that the engine knows.
#[derive(Clone, Copy, Debug, PartialEq, Eq, Structural)]
pub enum JournalMode {
    Delete,
    Truncate,
    Persist,
    Memory,
    Wal,
    Off,
}

/// The lower-case form of an ASCII capital; every other character is
/// itself.
pub open spec fn ascii_lower(c: char) -> char {
    if 'A' <= c && c <= 'Z' {
        ((c as u8) + 32) as char
    } else {
        c
    }
}

/// The journal mode that a text names, whatever the case of its ASCII
/// letters.
pub open spec fn journal_mode_named(text: Seq<char>) -> Option<JournalMode> {
    let folded = text.map_values(|c: char| ascii_lower(c));
    if folded == "delete"@ {
        Some(JournalMode::Delete)
    } else if folded == "truncate"@ {
        Some(JournalMode::Truncate)
    } else if folded == "persist"@ {
        Some(JournalMode::Persist)
    } else if folded == "memory"@ {
        Some(JournalMode::Memory)
    } else if folded == "wal"@ {
        Some(JournalMode::Wal)
    } else if folded == "off"@ {
        Some(JournalMode::Off)
    } else {
        None
    }
}

/// `SqliteJournalMode::from_str` of sqlx. It lowers the ASCII letters of the
/// text and accepts exactly the six names of the journal modes; for any
/// other text it returns an error of the engine's configuration.
#[verifier::external_body]
fn parse_journal_mode(text: &str) -> (r: Result<JournalMode, sqlx::Error>)
    ensures
        r is Ok <==> journal_mode_named(text@) is Some,
        r matches Ok(mode) ==> journal_mode_named(text@) == Some(mode),
{
    match SqliteJournalMode::from_str(text) {
        Ok(SqliteJournalMode::Delete) => Ok(JournalMode::Delete),
        Ok(SqliteJournalMode::Truncate) => Ok(JournalMode::Truncate),
        Ok(SqliteJournalMode::Persist) => Ok(JournalMode::Persist),
        Ok(SqliteJournalMode::Memory) => Ok(JournalMode::Memory),
        Ok(SqliteJournalMode::Wal) => Ok(JournalMode::Wal),
        Ok(SqliteJournalMode::Off) => Ok(JournalMode::Off),
        Err(e) => Err(e),
    }
}

impl JournalMode {
    /// Reads a journal mode from its name. A text that names none is
    /// refused with the engine's error.
    pub fn parse(text: &str) -> (r: Result<JournalMode, DbError>)
        ensures
            match r {
                Ok(mode) => journal_mode_named(text@) == Some(mode),
                Err(e) => e is Sql && journal_mode_named(text@) is None,
            },
    {
        match parse_journal_mode(text) {
            Ok(mode) => Ok(mode),
            Err(e) => Err(DbError::from(e)),
        }
    }
}

/// A directory and a name joined as a POSIX path: a name that starts at the
/// root stands alone; otherwise it follows the directory, after a `/` where
/// the directory does not end in one.
pub open spec fn joined(dir: Seq<char>, name: Seq<char>) -> Seq<char> {
    if name.len() > 0 && name[0] == '/' {
        name
    } else if dir.len() > 0 && dir.last() != '/' {
        dir + seq!['/'] + name
    } else {
        dir + name
    }
}

/// Maps the name of a database to the path of its file under the
/// application's directory.
pub fn path_mapper(app_path: String, filepath: &str) -> (path: String)
    ensures
        path@ == joined(app_path@, filepath@),
{
    if filepath.unicode_len() > 0 && filepath.get_char(0) == '/' {
        return filepath.to_owned();
    }
    let dir_len = app_path.as_str().unicode_len();
    let mut path = app_path;
    if dir_len > 0 && path.as_str().get_char(dir_len - 1) != '/' {
        proof {
            reveal_strlit("/");
        }
        path.append("/");
        assert(path@ =~= app_path@ + seq!['/']);
    }
    path.append(filepath);
    path
}

/// The pragmas of a connection: each name once, beside its value, in the
/// order in which the names were first set.
#[derive(Debug, PartialEq, Eq)]
pub struct Pragmas {
    entries: Vec<(String, String)>,
}

impl View for Pragmas {
    type V = Seq<(Seq<char>, Seq<char>)>;

    /// The names and values, in their order.
    closed spec fn view(&self) -> Seq<(Seq<char>, Seq<char>)> {
        Seq::new(self.entries@.len(), |i: int| (self.entries@[i].0@, self.entries@[i].1@))
    }
}

/// The names of a list of pragmas, in its order.
pub open spec fn pragma_names(list: Seq<(Seq<char>, Seq<char>)>) -> Seq<Seq<char>> {
    Seq::new(list.len(), |i: int| list[i].0)
}

/// A list of pragmas after a value is set under a name: the name keeps its
/// place and takes the value; a new name is added at the end.
pub open spec fn pragma_set(
    list: Seq<(Seq<char>, Seq<char>)>,
    name: Seq<char>,
    value: Seq<char>,
) -> Seq<(Seq<char>, Seq<char>)> {
    if pragma_names(list).contains(name) {
        list.update(pragma_names(list).index_of(name), (name, value))
    } else {
        list.push((name, value))
    }
}

impl Pragmas {
    /// No name occurs twice.
    #[verifier::type_invariant]
    pub closed spec fn wf(&self) -> bool {
        pragma_names(self@).no_duplicates()
    }

    /// What the invariant says, for those who hold a value.
    pub proof fn lemma_names_once(&self)
        requires
            self.wf(),
        ensures
            pragma_names(self@).no_duplicates(),
    {
    }

    /// No pragmas.
    pub fn new() -> (r: Self)
        ensures
            r@.len() == 0,
    {
        let r = Pragmas { entries: Vec::new() };
        assert(pragma_names(r@) =~= Seq::empty());
        r
    }

    /// The number of pragmas.
    pub fn len(&self) -> (n: usize)
        ensures
            n == self@.len(),
    {
        self.entries.len()
    }

    /// Where a name stands, if it is set.
    fn position(&self, name: &String) -> (r: Option<usize>)
        ensures
            match r {
                Some(at) => at < self@.len() && pragma_names(self@)[at as int] == name@,
                None => !pragma_names(self@).contains(name@),
            },
    {
        let mut i: usize = 0;
        while i < self.entries.len()
            invariant
                i <= self.entries@.len(),
                forall|k: int| 0 <= k < i ==> self.entries@[k].0@ != name@,
            decreases self.entries@.len() - i,
        {
            if self.entries[i].0 == *name {
                return Some(i);
            }
            i += 1;
        }
        None
    }

    /// Sets a pragma and hands back the value that the name had.
    pub fn insert(&mut self, name: String, value: String) -> (prev: Option<String>)
        ensures
            final(self)@ == pragma_set(old(self)@, name@, value@),
            match prev {
                Some(v) => pragma_names(old(self)@).contains(name@) && v@ == old(self)@[pragma_names(
                    old(self)@,
                ).index_of(name@)].1,
                None => !pragma_names(old(self)@).contains(name@),
            },
    {
        proof {
            use_type_invariant(&*self);
        }
        let ghost before = self@;
        let ghost names = pragma_names(before);
        let found = self.position(&name);
        let mut entries: Vec<(String, String)> = Vec::new();
        core::mem::swap(&mut self.entries, &mut entries);
        match found {
            Some(at) => {
                let (kept, prev) = entries.remove(at);
                entries.insert(at, (kept, value));
                let ghost after = Seq::new(
                    entries@.len(),
                    |k: int| (entries@[k].0@, entries@[k].1@),
                );
                proof {
                    assert(names.contains(name@));
                    assert(names.index_of(name@) == at);
                    assert(after =~= before.update(at as int, (name@, value@)));
                    assert(pragma_names(after) =~= names);
                }
                self.entries = entries;
                Some(prev)
            },
            None => {
                entries.push((name, value));
                let ghost after = Seq::new(
                    entries@.len(),
                    |k: int| (entries@[k].0@, entries@[k].1@),
                );
                proof {
                    assert(after =~= before.push((name@, value@)));
                    assert(pragma_names(after) =~= names.push(name@));
                }
                self.entries = entries;
                None
            },
        }
    }

    /// The names and values, in their order.
    pub fn list(&self) -> (r: Vec<(String, String)>)
        ensures
            r@.len() == self@.len(),
            forall|i: int| 0 <= i < r@.len() ==> (#[trigger] r@[i].0@, r@[i].1@) == self@[i],
    {
        let mut r: Vec<(String, String)> = Vec::new();
        let mut i: usize = 0;
        while i < self.entries.len()
            invariant
                i <= self.entries@.len(),
                r@.len() == i,
                forall|k: int| 0 <= k < i ==> (#[trigger] r@[k].0@, r@[k].1@) == self@[k],
            decreases self.entries@.len() - i,
        {
            r.push((self.entries[i].0.clone(), self.entries[i].1.clone()));
            i += 1;
        }
        r
    }
}

impl Clone for Pragmas {
    /// A copy with the same names and values.
    fn clone(&self) -> (r: Self)
        ensures
            r@ == self@,
    {
        proof {
            use_type_invariant(self);
        }
        let entries = self.list();
        let ghost copy = Seq::new(entries@.len(), |k: int| (entries@[k].0@, entries@[k].1@));
        assert(copy =~= self@);
        Pragmas { entries }
    }
}

impl Default for Pragmas {
    fn default() -> (r: Self)
        ensures
            r@.len() == 0,
    {
        Pragmas::new()
    }
}

/// What a caller may ask for when a database is opened.
#[derive(Clone, Debug, PartialEq, Eq)]
pub struct SqliteOptions {
    /// Pragmas by name, applied in their order after the three named
    /// settings.
    pub pragmas: Pragmas,
    /// The name of a journal mode.
    pub jounal_mode: Option<String>,
    /// Whether foreign keys are enforced.
    pub foreign_keys: Option<bool>,
    /// How long a busy database is waited for, in milliseconds.
    pub busy_timeout: Option<u64>,
}

/// One setting of a connection.
#[derive(Clone, Debug, PartialEq, Eq)]
pub enum Setting {
    JournalMode(JournalMode),
    ForeignKeys(bool),
    BusyTimeout(u64),
    Pragma(String, String),
}

/// A setting with its texts as sequences.
pub enum SettingView {
    JournalMode(JournalMode),
    ForeignKeys(bool),
    BusyTimeout(u64),
    Pragma(Seq<char>, Seq<char>),
}

impl View for Setting {
    type V = SettingView;

    open spec fn view(&self) -> SettingView {
        match self {
            Setting::JournalMode(mode) => SettingView::JournalMode(*mode),
            Setting::ForeignKeys(on) => SettingView::ForeignKeys(*on),
            Setting::BusyTimeout(millis) => SettingView::BusyTimeout(*millis),
            Setting::Pragma(name, value) => SettingView::Pragma(name@, value@),
        }
    }
}

impl SqliteOptions {
    /// True where the options name a journal mode that does not exist.
    pub open spec fn rejected(&self) -> bool {
        self.jounal_mode matches Some(text) && journal_mode_named(text@) is None
    }

    /// The settings that the options ask for, in the order in which they
    /// are applied: journal mode, foreign keys, busy timeout, then the
    /// pragmas.
    pub open spec fn settings(&self) -> Seq<SettingView> {
        let journal = match self.jounal_mode {
            Some(text) => match journal_mode_named(text@) {
                Some(mode) => seq![SettingView::JournalMode(mode)],
                None => seq![],
            },
            None => seq![],
        };
        let foreign_keys = match self.foreign_keys {
            Some(on) => seq![SettingView::ForeignKeys(on)],
            None => seq![],
        };
        let busy_timeout = match self.busy_timeout {
            Some(millis) => seq![SettingView::BusyTimeout(millis)],
            None => seq![],
        };
        let pragmas = Seq::new(
            self.pragmas@.len(),
            |i: int| SettingView::Pragma(self.pragmas@[i].0, self.pragmas@[i].1),
        );
        journal + foreign_keys + busy_timeout + pragmas
    }
}

/// All that is decided before a database is opened.
#[derive(Clone, Debug, PartialEq, Eq)]
pub struct ConnectPlan {
    /// The path of the database file.
    pub filepath: String,
    /// Whether a missing file is created.
    pub create_if_missing: bool,
    /// The settings of the connection, in the order of their application.
    pub settings: Vec<Setting>,
}

/// A list of settings with their texts as sequences.
pub open spec fn setting_views(settings: Seq<Setting>) -> Seq<SettingView> {
    Seq::new(settings.len(), |i: int| settings[i]@)
}

impl ConnectPlan {
    /// The settings with their texts as sequences.
    pub open spec fn settings_view(&self) -> Seq<SettingView> {
        setting_views(self.settings@)
    }
}

/// Plans the opening of the database `filename` under the directory
/// `app_path`: the file is created where it is missing, and the options
/// become settings. Options that name an unknown journal mode fail the
/// whole opening.
pub fn connect(app_path: String, filename: &str, options: Option<SqliteOptions>) -> (r: Result<
    ConnectPlan,
    DbError,
>)
    ensures
        r is Err <==> (options matches Some(o) && o.rejected()),
        match r {
            Ok(plan) => {
                &&& plan.filepath@ == joined(app_path@, filename@)
                &&& plan.create_if_missing
                &&& plan.settings_view() == match options {
                    Some(o) => o.settings(),
                    None => Seq::empty(),
                }
            },
            Err(e) => e is Sql,
        },
{
    let filepath = path_mapper(app_path, filename);
    let mut settings: Vec<Setting> = Vec::new();
    if let Some(o) = options {
        if let Some(text) = &o.jounal_mode {
            match JournalMode::parse(text.as_str()) {
                Ok(mode) => settings.push(Setting::JournalMode(mode)),
                Err(e) => {
                    return Err(e);
                },
            }
        }
        if let Some(on) = o.foreign_keys {
            settings.push(Setting::ForeignKeys(on));
        }
        if let Some(millis) = o.busy_timeout {
            settings.push(Setting::BusyTimeout(millis));
        }
        let ghost base = settings@;
        let ghost pragmas = Seq::new(
            o.pragmas@.len(),
            |i: int| SettingView::Pragma(o.pragmas@[i].0, o.pragmas@[i].1),
        );
        assert(setting_views(base) + pragmas =~= o.settings());
        let mut i: usize = 0;
        while i < o.pragmas.entries.len()
            invariant
                i <= o.pragmas@.len(),
                o.pragmas@.len() == o.pragmas.entries@.len(),
                settings@.len() == base.len() + i,
                forall|k: int| 0 <= k < base.len() ==> settings@[k] == base[k],
                forall|k: int|
                    0 <= k < i ==> (#[trigger] settings@[base.len() + k])@ == SettingView::Pragma(
                        o.pragmas@[k].0,
                        o.pragmas@[k].1,
                    ),
            decreases o.pragmas@.len() - i,
        {
            settings.push(
                Setting::Pragma(o.pragmas.entries[i].0.clone(), o.pragmas.entries[i].1.clone()),
            );
            i += 1;
        }
        let plan = ConnectPlan { filepath, create_if_missing: true, settings };
        assert forall|j: int| 0 <= j < plan.settings@.len() implies plan.settings_view()[j] == (
        setting_views(base) + pragmas)[j] by {
            if j >= base.len() {
                assert(plan.settings@[base.len() + (j - base.len())]@ == pragmas[j - base.len()]);
            }
        }
        assert(plan.settings_view() =~= setting_views(base) + pragmas);
        Ok(plan)
    } else {
        let plan = ConnectPlan { filepath, create_if_missing: true, settings };
        assert(plan.settings_view() =~= Seq::empty());
        Ok(plan)
    }
}

} // verus!
