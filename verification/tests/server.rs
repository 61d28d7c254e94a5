use std::collections::BTreeMap;

use pgrust_nextest_repro::names::row_id;
use pgrust_nextest_repro::protocol::{Action, Candidate, Event, Session};
use pgrust_nextest_repro::run::{TestPath, TestRun};
use pgrust_nextest_repro::schema::schema_sql;
use pgrust_nextest_repro::setup::Setup;
use pgrust_nextest_repro::sql::{Param, Statement};
use pgrust_nextest_repro::workload::{workload_statement, STATEMENTS_PER_TEST};

/// The tables of a database, by qualified name, and the sequences that number
/// their rows: the last number, and whether it was drawn.
#[derive(Clone, Debug, Default, PartialEq)]
struct Database {
    tables: BTreeMap<String, BTreeMap<i64, String>>,
    sequences: BTreeMap<String, (i64, bool)>,
    restore: Vec<String>,
}

fn digest(text: &str) -> String {
    format!("<{text}>")
}

impl Database {
    fn table(&mut self, name: &str) -> Result<&mut BTreeMap<i64, String>, String> {
        self.tables.get_mut(name).ok_or(format!("no table {name}"))
    }

    fn insert(&mut self, table: &str, id: i64, payload: String) -> Result<(), String> {
        match self.table(table)?.insert(id, payload) {
            None => Ok(()),
            Some(_) => Err(format!("{table} has a row {id}")),
        }
    }

    fn draw(&mut self, table: &str) -> i64 {
        let sequence = self.sequences.get_mut(table).unwrap();
        let next = if sequence.1 { sequence.0 + 1 } else { sequence.0 };
        *sequence = (next, true);
        next
    }

    fn script(&mut self, sql: &str) -> Result<(), String> {
        let mut body: Option<Vec<String>> = None;
        for line in sql.lines() {
            if line.starts_with("CREATE OR REPLACE PROCEDURE benchmark_baseline.restore()") {
                body = Some(vec![]);
            } else if line == "END $body$;" {
                self.restore = body.take().unwrap();
            } else if let Some(lines) = &mut body {
                lines.push(line.to_string());
            } else {
                self.line(line)?;
            }
        }
        Ok(())
    }

    fn line(&mut self, line: &str) -> Result<(), String> {
        let line = line.strip_suffix(';').unwrap();
        if let Some(rest) = line.strip_prefix("CREATE TABLE ") {
            if let Some((copy, from)) = rest.split_once(" AS TABLE ") {
                let rows = self.table(from)?.clone();
                assert!(self.tables.insert(copy.to_string(), rows).is_none());
            } else {
                let (name, columns) = rest.split_once('(').unwrap();
                assert!(self.tables.insert(name.to_string(), BTreeMap::new()).is_none());
                if columns.contains("GENERATED ALWAYS AS IDENTITY") {
                    self.sequences.insert(name.to_string(), (1, false));
                }
            }
        } else if let Some(rest) = line.strip_prefix("INSERT INTO ") {
            if let Some((name, from)) = rest
                .split_once("(id, payload) OVERRIDING SYSTEM VALUE SELECT id, payload FROM ")
            {
                for (id, payload) in self.table(from)?.clone() {
                    self.insert(name, id, payload)?;
                }
            } else {
                let (name, last) = rest
                    .split_once("(payload) SELECT md5(g::text) FROM generate_series(1, ")
                    .unwrap();
                let last: i64 = last.strip_suffix(") g").unwrap().parse().unwrap();
                for number in 1..=last {
                    let id = self.draw(name);
                    self.insert(name, id, digest(&number.to_string()))?;
                }
            }
        } else if let Some(name) = line.strip_prefix("DELETE FROM ") {
            self.table(name)?.clear();
        } else if let Some(rest) = line.strip_prefix("PERFORM setval('") {
            let (name, rest) = rest.split_once("_id_seq'::regclass, ").unwrap();
            let (value, called) = rest.strip_suffix(')').unwrap().split_once(", ").unwrap();
            *self.sequences.get_mut(name).unwrap() =
                (value.parse().unwrap(), called.parse().unwrap());
        } else {
            assert!(
                line == "CREATE SCHEMA benchmark_baseline"
                    || line.starts_with("PERFORM set_config('session_replication_role', "),
                "{line}"
            );
        }
        Ok(())
    }

    fn send(&mut self, statement: &Statement<String>) -> Result<(), String> {
        let sql = statement.sql();
        let number = match statement.params().first() {
            Some(Param::Int8(number)) => *number,
            _ => 0,
        };
        match sql.as_str() {
            "BEGIN" | "COMMIT" => Ok(()),
            "CALL benchmark_baseline.restore()" => {
                for line in self.restore.clone() {
                    self.line(&line)?;
                }
                Ok(())
            }
            "SELECT count(*) FROM public.bench_scratch" => {
                self.table("public.bench_scratch").map(|_| ())
            }
            "UPDATE public.bench_table_000 SET payload = md5(payload || ($1::bigint)::text) WHERE id = 1" => {
                let rows = self.table("public.bench_table_000")?;
                if let Some(payload) = rows.get_mut(&1) {
                    *payload = digest(&format!("{payload}{number}"));
                }
                Ok(())
            }
            _ => {
                if let Some(rest) = sql.strip_prefix("INSERT INTO ") {
                    let name = rest
                        .strip_suffix("(id, payload) VALUES ($1, md5(($1::bigint)::text))")
                        .unwrap();
                    self.insert(name, number, digest(&number.to_string()))
                } else {
                    let name = sql
                        .strip_prefix("SELECT payload FROM ")
                        .unwrap()
                        .strip_suffix(" WHERE id = $1")
                        .unwrap();
                    assert!(self.table(name)?.contains_key(&number));
                    Ok(())
                }
            }
        }
    }

    /// Runs a test: all of it, or nothing where a statement is refused.
    fn workload(&mut self, id: i64) -> Result<(), String> {
        let mut working = self.clone();
        for at in 0..STATEMENTS_PER_TEST {
            working.send(&workload_statement(id, at))?;
        }
        *self = working;
        Ok(())
    }
}

fn template() -> Database {
    let mut database = Database::default();
    database.script(&schema_sql()).unwrap();
    database
}

#[test]
fn schema_seeds_the_template() {
    let template = template();
    assert_eq!(template.tables.len(), 1 + 200 + 8);
    assert!(template.tables["public.bench_scratch"].is_empty());
    for table in 0..200 {
        let name = format!("public.bench_table_{table:03}");
        let keys: Vec<i64> = template.tables[&name].keys().copied().collect();
        assert_eq!(keys, if table < 8 { vec![1, 2, 3, 4] } else { vec![] });
        let mut copy = template.clone();
        if table < 8 {
            let baseline = format!("benchmark_baseline.bench_table_{table:03}");
            assert_eq!(template.tables[&baseline], template.tables[&name]);
            assert_eq!(copy.draw(&name), 5);
        } else if table < 50 {
            assert_eq!(copy.draw(&name), 1);
        } else {
            assert!(!template.sequences.contains_key(&name));
        }
    }
}

#[test]
fn restore_gives_the_template_back() {
    let template = template();
    let mut database = template.clone();
    database.insert("public.bench_scratch", 7, "x".to_string()).unwrap();
    for table in 0..200 {
        let name = format!("public.bench_table_{table:03}");
        if table < 50 {
            let id = database.draw(&name);
            database.insert(&name, id, "drawn".to_string()).unwrap();
        }
        database.insert(&name, 1_000 + table, "new".to_string()).unwrap();
        let rows = database.table(&name).unwrap();
        rows.remove(&2);
        if let Some(payload) = rows.get_mut(&3) {
            *payload = "changed".to_string();
        }
    }
    assert_ne!(database, template);
    database.send(&Statement::Restore).unwrap();
    assert_eq!(database, template);
}

#[test]
fn repeated_workload_is_refused_without_a_restore() {
    let id = row_id(4_711, 13);
    let mut database = template();
    database.workload(id).unwrap();
    let committed = database.clone();
    assert_eq!(
        database.workload(id),
        Err(format!("public.bench_scratch has a row {id}"))
    );
    assert_eq!(database, committed);
    database.send(&Statement::Restore).unwrap();
    assert_eq!(database, template());
    database.workload(id).unwrap();
    assert_eq!(database, committed);
}

/// Whether a database lets connections in, and its comment.
type Entry = (bool, Option<String>);

fn plain(name: &str) -> String {
    name.trim_matches('"').to_string()
}

/// What a statement does to the databases of a server.
fn change(databases: &mut BTreeMap<String, Entry>, sql: &str) {
    if let Some(rest) = sql.strip_prefix("DROP DATABASE IF EXISTS ") {
        databases.remove(&plain(rest.strip_suffix(" WITH (FORCE)").unwrap()));
    } else if let Some(rest) = sql.strip_prefix("CREATE DATABASE ") {
        let name = match rest.split_once(" TEMPLATE ") {
            Some((name, template)) => {
                assert!(databases.contains_key(template));
                name
            }
            None => rest,
        };
        assert!(databases.insert(plain(name), (true, None)).is_none(), "{name} exists");
    } else if let Some(rest) = sql.strip_prefix("ALTER DATABASE ") {
        let name = rest.strip_suffix(" ALLOW_CONNECTIONS false").unwrap();
        databases.get_mut(&plain(name)).unwrap().0 = false;
    } else if let Some(rest) = sql.strip_prefix("COMMENT ON DATABASE ") {
        let (name, comment) = rest.split_once(" IS ").unwrap();
        let comment = comment.trim_matches('\'').to_string();
        databases.get_mut(&plain(name)).unwrap().1 = Some(comment);
    } else {
        panic!("{sql}");
    }
}

/// Drives a setup on a server to its end; the action at `failing` fails. Gives
/// back the last action.
fn drive(
    databases: &mut BTreeMap<String, Entry>,
    mut setup: Setup,
    failing: usize,
) -> Action<String> {
    let mut at = 0;
    loop {
        let action = setup.action();
        let event = match &action {
            Action::Finish | Action::Fail { .. } => return action,
            _ if at == failing => Event::Failed,
            Action::Run { session: Session::Admin, statement } => match statement {
                Statement::ListLeftovers => Event::Names(
                    databases
                        .keys()
                        .filter(|name| {
                            name.as_str() == "repro_template"
                                || name.starts_with("repro_db_")
                                || name.starts_with("repro_isolated_")
                        })
                        .cloned()
                        .collect(),
                ),
                Statement::SealTemplate => Event::Done,
                Statement::CountSpares => Event::Count { value: 4, waited: 0 },
                statement => {
                    change(databases, &statement.sql());
                    Event::Done
                }
            },
            _ => Event::Done,
        };
        setup.advance(event);
        at += 1;
    }
}

/// Sets a reusable suite up on a server.
fn set_up(databases: &mut BTreeMap<String, Entry>, pool_size: usize) {
    let last = drive(databases, Setup::new(pool_size, false, None).unwrap(), usize::MAX);
    assert!(matches!(last, Action::Finish));
}

fn server() -> BTreeMap<String, Entry> {
    BTreeMap::from([
        ("postgres".to_string(), (true, Some("default".to_string()))),
        ("repro".to_string(), (false, None)),
        ("repro_db_t3_99".to_string(), (true, None)),
        ("repro_isolated_99_12".to_string(), (true, None)),
    ])
}

#[test]
fn second_setup_is_as_the_only_one() {
    for (first, second) in [(5, 2), (2, 5), (1_001, 3), (3, 3)] {
        let mut only = server();
        set_up(&mut only, second);
        let mut both = server();
        set_up(&mut both, first);
        let between = both.clone();
        set_up(&mut both, second);
        assert_eq!(both, only);
        assert_eq!(both.len(), 3 + second);
        assert_eq!(both == between, first == second);
    }
}

#[test]
fn setup_prepares_the_server() {
    let mut databases = server();
    set_up(&mut databases, 2);
    let ready = Some("repro-ready".to_string());
    assert_eq!(
        databases,
        BTreeMap::from([
            ("postgres".to_string(), (true, Some("default".to_string()))),
            ("repro".to_string(), (false, None)),
            ("repro_db_seed_000".to_string(), (false, ready.clone())),
            ("repro_db_seed_001".to_string(), (false, ready)),
            ("repro_template".to_string(), (true, None)),
        ])
    );
}

#[test]
fn ephemeral_setup_leaves_no_pool() {
    for target in [None, Some(4)] {
        let mut databases = server();
        set_up(&mut databases, 3);
        let last = drive(&mut databases, Setup::new(3, true, target).unwrap(), usize::MAX);
        assert!(matches!(last, Action::Finish));
        assert_eq!(
            databases,
            BTreeMap::from([
                ("postgres".to_string(), (true, Some("default".to_string()))),
                ("repro".to_string(), (false, None)),
                ("repro_template".to_string(), (true, None)),
            ])
        );
    }
}

#[test]
fn setup_that_is_cut_short_leaves_a_smaller_pool() {
    let leftovers = 2;
    for worker in 1..4 {
        let mut databases = server();
        let failing = 2 + leftovers + 4 + 3 * worker;
        match drive(&mut databases, Setup::new(4, false, None).unwrap(), failing) {
            Action::Fail { failure } => assert_eq!(
                failure.message(),
                Some(format!("creating reusable database {worker}"))
            ),
            other => panic!("{other:?}"),
        }
        let mut smaller = server();
        set_up(&mut smaller, worker);
        assert_eq!(databases, smaller);
    }
}

/// Drives a reusable run on a copy of the template; the action at `failing`
/// fails. Gives back how many actions there were, and the database with its mark.
fn lease(failing: usize) -> (usize, Database, bool) {
    let mut run = TestRun::new(TestPath::Reusable, 99, 3);
    let mut database = template();
    let mut marked = true;
    let mut at = 0;
    loop {
        let action = run.action();
        let event = match &action {
            Action::Finish | Action::Fail { .. } => return (at, database, marked),
            Action::Run { session, statement } if at != failing => match statement {
                Statement::ListReady => Event::Candidates(vec![Candidate {
                    oid: 17,
                    name: "repro_db_seed_000".to_string(),
                }]),
                Statement::TryLock { .. } => Event::Flag(true),
                Statement::StillReady { .. } => Event::Found(true),
                Statement::BackendPid => Event::Pid(5),
                Statement::Remaining { .. } => Event::Flag(false),
                Statement::ClearMark { name } => {
                    assert_eq!(name, "repro_db_seed_000");
                    marked = false;
                    Event::Done
                }
                Statement::MarkReady { .. } => {
                    marked = true;
                    Event::Done
                }
                statement => {
                    if *session != Session::Admin {
                        database.send(statement).unwrap();
                    }
                    Event::Done
                }
            },
            _ => Event::Done,
        };
        let event = if at == failing && action.expects(&Event::Failed) { Event::Failed } else { event };
        run.advance(event);
        at += 1;
    }
}

#[test]
fn lease_returns_the_template() {
    let (_, database, marked) = lease(usize::MAX);
    assert_eq!(database, template());
    assert!(marked);
}

#[test]
fn only_restored_databases_are_marked() {
    let (actions, _, _) = lease(usize::MAX);
    let mut unmarked = 0;
    for failing in 0..actions {
        let (_, database, marked) = lease(failing);
        if marked {
            assert_eq!(database, template());
        } else {
            unmarked += 1;
        }
    }
    assert_eq!(actions, 44);
    assert_eq!(unmarked, 34);
}
