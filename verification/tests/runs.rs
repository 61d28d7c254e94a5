use pgrust_nextest_repro::config::ConfigError;
use pgrust_nextest_repro::protocol::{Action, Candidate, Event, Failure, Session};
use pgrust_nextest_repro::run::{test_path, TestPath, TestRun};
use pgrust_nextest_repro::run_database_test;
use pgrust_nextest_repro::sql::{Call, Param, Statement};
use pgrust_nextest_repro::workload::{
    workload_statement, CONNECTIONS_PER_TEST, QUERIES_PER_TEST, STATEMENTS_PER_TEST,
};

fn session_name(session: &Session) -> String {
    match session {
        Session::Admin => "admin".to_string(),
        Session::Template => "template".to_string(),
        Session::Warmup => "warmup".to_string(),
        Session::Test(at) => format!("test{at}"),
        Session::Reset => "reset".to_string(),
    }
}

fn show_statement(statement: &Statement<String>) -> String {
    let mut shown = statement.sql();
    for param in statement.params() {
        shown += &match param {
            Param::Text(value) => format!(" [{value}]"),
            Param::Int8(value) => format!(" [{value}]"),
            Param::Int4(value) => format!(" [{value} int4]"),
        };
    }
    shown
}

fn show(action: &Action<String>) -> String {
    match action {
        Action::Connect { session, database } => format!(
            "{} connects to {}",
            session_name(session),
            database.as_deref().unwrap_or("the default")
        ),
        Action::Run { session, statement } => {
            format!("{}: {}", session_name(session), show_statement(statement))
        }
        Action::Close { session } => format!("{} closes", session_name(session)),
        Action::Hangup { session } => format!("{} hangs up", session_name(session)),
        Action::Await { session } => format!("{} is awaited", session_name(session)),
        Action::Sleep { millis } => format!("sleep {millis}"),
        Action::StartClock => "start clock".to_string(),
        Action::ReportReady { spares } => format!("{spares} ready"),
        Action::Finish => "finish".to_string(),
        Action::Fail { failure } => format!("fail: {:?}", failure.message()),
    }
}

/// Hands an event to the run, and shows the action that it came of.
fn step(run: &mut TestRun, event: Event) -> String {
    let action = run.action();
    assert!(action.expects(&event), "{action:?} {event:?}");
    let shown = show(&action);
    run.advance(event);
    shown
}

fn candidate(oid: i64, name: &str) -> Candidate<String> {
    Candidate { oid, name: name.to_string() }
}

const LIST_READY: &str = "admin: SELECT oid::bigint, datname FROM pg_database WHERE starts_with(datname, 'repro_db_') AND shobj_description(oid, 'pg_database') = $1 ORDER BY oid [repro-ready]";
const STILL_READY: &str = "admin: SELECT 1 FROM pg_database WHERE oid = $1::bigint::oid AND datname = $2 AND NOT datallowconn AND shobj_description(oid, 'pg_database') = $3";

fn lock(oid: i64) -> i64 {
    0x5250_524f_0000_0000 + oid
}

fn expected_workload(id: i64) -> Vec<String> {
    let mut expected = vec![
        "BEGIN".to_string(),
        format!("INSERT INTO public.bench_scratch(id, payload) VALUES ($1, md5(($1::bigint)::text)) [{id}]"),
        format!("INSERT INTO public.bench_table_199(id, payload) VALUES ($1, md5(($1::bigint)::text)) [{id}]"),
    ];
    for query in 0..16 {
        expected.push(format!(
            "SELECT payload FROM public.bench_table_{:03} WHERE id = $1 [{}]",
            query % 8,
            query % 4 + 1
        ));
    }
    expected.push(format!("UPDATE public.bench_table_000 SET payload = md5(payload || ($1::bigint)::text) WHERE id = 1 [{id}]"));
    expected.push("SELECT count(*) FROM public.bench_scratch".to_string());
    expected.push("COMMIT".to_string());
    expected
}

/// Drives a run from its first connection to its last statement.
fn use_database(run: &mut TestRun, database: &str, id: i64) {
    for at in 0..2 {
        assert_eq!(step(run, Event::Done), format!("test{at} connects to {database}"));
    }
    for expected in expected_workload(id) {
        assert_eq!(step(run, Event::Done), format!("test0: {expected}"));
    }
}

#[test]
fn paths_follow_mode_and_number() {
    assert_eq!(test_path(true, 0), TestPath::Ephemeral);
    assert_eq!(test_path(true, 7), TestPath::Ephemeral);
    assert_eq!(test_path(false, 0), TestPath::Isolated);
    assert_eq!(test_path(false, 12), TestPath::Isolated);
    assert_eq!(test_path(false, 1), TestPath::Reusable);
    assert_eq!(test_path(false, 13), TestPath::Reusable);
}

#[test]
fn workload_is_spelled_out() {
    assert_eq!((CONNECTIONS_PER_TEST, QUERIES_PER_TEST, STATEMENTS_PER_TEST), (2, 16, 22));
    let shown: Vec<String> = (0..STATEMENTS_PER_TEST)
        .map(|at| show_statement(&workload_statement(77, at)))
        .collect();
    assert_eq!(shown, expected_workload(77));
}

#[test]
fn workload_calls_read_nothing() {
    let calls: Vec<Call> =
        (0..STATEMENTS_PER_TEST).map(|at| workload_statement(1, at).call()).collect();
    assert_eq!(calls[0], Call::Batch);
    assert_eq!(calls[1], Call::Execute);
    assert_eq!(calls[2], Call::Execute);
    for at in 3..19 {
        assert_eq!(calls[at], Call::MaybeRow);
    }
    assert_eq!(calls[19], Call::Execute);
    assert_eq!(calls[20], Call::OneRow);
    assert_eq!(calls[21], Call::Batch);
}

#[test]
fn reusable_run_leases_and_returns() {
    let mut run = TestRun::new(TestPath::Reusable, 9, 5);
    assert_eq!(step(&mut run, Event::Done), "admin connects to the default");
    // Nothing is free: the run waits and searches again.
    assert_eq!(step(&mut run, Event::Candidates(vec![])), LIST_READY);
    assert_eq!(step(&mut run, Event::Done), "sleep 1");
    let found = vec![
        candidate(11, "repro_db_seed_000"),
        candidate(12, "repro_db_t3_8"),
        candidate(13, "repro_db_\"x"),
    ];
    assert_eq!(step(&mut run, Event::Candidates(found)), LIST_READY);
    // The first is locked by another run.
    let try_lock = |oid| format!("admin: SELECT pg_try_advisory_lock($1) [{}]", lock(oid));
    assert_eq!(step(&mut run, Event::Flag(false)), try_lock(11));
    // The second is no longer free.
    assert_eq!(step(&mut run, Event::Flag(true)), try_lock(12));
    assert_eq!(
        step(&mut run, Event::Found(false)),
        format!("{STILL_READY} [12] [repro_db_t3_8] [repro-ready]")
    );
    assert_eq!(
        step(&mut run, Event::Done),
        format!("admin: SELECT pg_advisory_unlock($1) [{}]", lock(12))
    );
    // The third is leased.
    assert_eq!(step(&mut run, Event::Flag(true)), try_lock(13));
    assert_eq!(
        step(&mut run, Event::Found(true)),
        format!("{STILL_READY} [13] [repro_db_\"x] [repro-ready]")
    );
    assert_eq!(
        step(&mut run, Event::Done),
        "admin: COMMENT ON DATABASE \"repro_db_\"\"x\" IS NULL"
    );
    assert_eq!(
        step(&mut run, Event::Done),
        "admin: ALTER DATABASE \"repro_db_\"\"x\" RENAME TO \"repro_db_t5_9\""
    );
    assert_eq!(
        step(&mut run, Event::Done),
        "admin: ALTER DATABASE \"repro_db_t5_9\" ALLOW_CONNECTIONS true"
    );
    use_database(&mut run, "repro_db_t5_9", (9 << 32) + 5);
    assert_eq!(step(&mut run, Event::Done), "reset connects to repro_db_t5_9");
    assert_eq!(step(&mut run, Event::Pid(4711)), "reset: SELECT pg_backend_pid()");
    assert_eq!(
        step(&mut run, Event::Done),
        "admin: ALTER DATABASE \"repro_db_t5_9\" ALLOW_CONNECTIONS false"
    );
    assert_eq!(
        step(&mut run, Event::Done),
        "admin: SELECT pg_terminate_backend(pid) FROM pg_stat_activity WHERE datid = $1::bigint::oid AND pid <> $2 [13] [4711 int4]"
    );
    let poll = "admin: SELECT EXISTS(SELECT 1 FROM pg_stat_activity WHERE datid = $1::bigint::oid AND pid <> $2) [13] [4711 int4]";
    for _ in 0..3 {
        assert_eq!(step(&mut run, Event::Flag(true)), poll);
        assert_eq!(step(&mut run, Event::Done), "sleep 1");
    }
    assert_eq!(step(&mut run, Event::Flag(false)), poll);
    for expected in [
        "reset: CALL benchmark_baseline.restore()",
        "reset closes",
        "test0 hangs up",
        "test1 hangs up",
        "test0 is awaited",
        "test1 is awaited",
        "admin: COMMENT ON DATABASE \"repro_db_t5_9\" IS 'repro-ready'",
        "admin closes",
    ] {
        assert_eq!(step(&mut run, Event::Done), expected);
    }
    assert_eq!(show(&run.action()), "finish");
    assert!(!run.action().expects(&Event::Done));
}

#[test]
fn isolated_run_creates_and_drops() {
    let mut run = TestRun::new(TestPath::Isolated, 9, 24);
    assert_eq!(step(&mut run, Event::Done), "admin connects to the default");
    assert_eq!(
        step(&mut run, Event::Done),
        "admin: CREATE DATABASE \"repro_isolated_9_24\" TEMPLATE repro_template"
    );
    use_database(&mut run, "repro_isolated_9_24", (9 << 32) + 24);
    for expected in [
        "test0 closes",
        "test1 closes",
        "admin: DROP DATABASE \"repro_isolated_9_24\" WITH (FORCE)",
        "admin closes",
    ] {
        assert_eq!(step(&mut run, Event::Done), expected);
    }
    assert_eq!(show(&run.action()), "finish");
}

#[test]
fn ephemeral_run_only_connects() {
    let mut run = TestRun::new(TestPath::Ephemeral, 9, 24);
    use_database(&mut run, "tdb_repro_template__9_24", (9 << 32) + 24);
    assert_eq!(step(&mut run, Event::Done), "test0 closes");
    assert_eq!(step(&mut run, Event::Done), "test1 closes");
    assert_eq!(show(&run.action()), "finish");
}

#[test]
fn failed_action_ends_the_run() {
    let mut run = TestRun::new(TestPath::Isolated, 9, 24);
    step(&mut run, Event::Done);
    step(&mut run, Event::Failed);
    match run.action() {
        Action::Fail { failure } => {
            assert_eq!(failure, Failure::Step);
            assert_eq!(failure.message(), None);
        }
        action => panic!("{action:?}"),
    }
    assert!(!run.action().expects(&Event::Done));
    assert!(!run.action().expects(&Event::Failed));
}

#[test]
fn only_fitting_events_are_expected() {
    let mut run = TestRun::new(TestPath::Reusable, 9, 5);
    assert!(run.action().expects(&Event::Done));
    assert!(run.action().expects(&Event::Failed));
    assert!(!run.action().expects(&Event::Flag(true)));
    step(&mut run, Event::Done);
    assert!(!run.action().expects(&Event::Done));
    assert!(!run.action().expects(&Event::Names(vec![])));
    assert!(run.action().expects(&Event::Candidates(vec![])));
    step(&mut run, Event::Candidates(vec![]));
    assert!(!run.action().expects(&Event::Failed));
    assert!(run.action().expects(&Event::Done));
}

#[test]
fn database_test_starts_on_its_path() {
    let url = Some("postgres://bench@localhost/postgres");
    let (config, run) = run_database_test(5, url, false, 9).unwrap();
    assert_eq!(config.get_dbname(), Some("postgres"));
    assert_eq!(show(&run.action()), "admin connects to the default");
    let (_, run) = run_database_test(5, url, true, 9).unwrap();
    assert_eq!(show(&run.action()), "test0 connects to tdb_repro_template__9_5");
    assert!(matches!(run_database_test(5, None, true, 9), Err(ConfigError::NotSet)));
    assert!(matches!(
        run_database_test(5, Some("port=x"), true, 9),
        Err(ConfigError::Invalid { .. })
    ));
}
