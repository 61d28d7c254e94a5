use pgrust_nextest_repro::protocol::{Action, Event, Failure, Session};
use pgrust_nextest_repro::setup;
use pgrust_nextest_repro::setup::{pool_size, Setup, SetupError};
use pgrust_nextest_repro::sql::Param;

const URL: &str = "postgres://bench@localhost/postgres";

fn show(action: &Action<String>) -> String {
    match action {
        Action::Connect { session, database } => {
            format!("{session:?} connects to {}", database.as_deref().unwrap_or("the default"))
        }
        Action::Run { session, statement } => {
            let mut shown = format!("{session:?}: {}", statement.sql());
            for param in statement.params() {
                match param {
                    Param::Text(value) => shown += &format!(" [{value}]"),
                    other => panic!("{other:?}"),
                }
            }
            shown
        }
        Action::Close { session } => format!("{session:?} closes"),
        Action::Sleep { millis } => format!("sleep {millis}"),
        Action::StartClock => "start clock".to_string(),
        Action::ReportReady { spares } => format!("{spares} ready"),
        Action::Finish => "finish".to_string(),
        Action::Fail { failure } => format!("fail: {}", failure.message().unwrap_or_default()),
        other => panic!("{other:?}"),
    }
}

/// Hands an event to the setup, and shows the action that it came of.
fn step(setup: &mut Setup, event: Event) -> String {
    let action = setup.action();
    assert!(action.expects(&event), "{action:?} {event:?}");
    let shown = show(&action);
    setup.advance(event);
    shown
}

/// Drives a setup until the template is there.
fn create_template(setup: &mut Setup, leftovers: &[&str]) {
    assert_eq!(step(setup, Event::Done), "Admin connects to the default");
    let names = leftovers.iter().map(|name| name.to_string()).collect();
    assert_eq!(
        step(setup, Event::Names(names)),
        "Admin: SELECT datname FROM pg_database WHERE datname = $1 OR starts_with(datname, 'repro_db_') OR starts_with(datname, 'repro_isolated_') [repro_template]"
    );
    for name in leftovers {
        assert_eq!(
            step(setup, Event::Done),
            format!("Admin: DROP DATABASE IF EXISTS \"{name}\" WITH (FORCE)")
        );
    }
    assert_eq!(step(setup, Event::Done), "Admin: CREATE DATABASE repro_template");
    assert_eq!(step(setup, Event::Done), "Template connects to repro_template");
    let schema = step(setup, Event::Done);
    assert!(schema.starts_with("Template: CREATE SCHEMA benchmark_baseline;\n"));
    assert_eq!(step(setup, Event::Done), "Template closes");
}

#[test]
fn setup_fills_the_pool() {
    let (config, mut run) = setup(URL, 2, false, None).unwrap();
    assert_eq!(config.get_user(), Some("bench"));
    create_template(&mut run, &["repro_db_seed_000", "repro_template"]);
    for expected in [
        "Admin: CREATE DATABASE repro_db_seed_000 TEMPLATE repro_template",
        "Admin: ALTER DATABASE repro_db_seed_000 ALLOW_CONNECTIONS false",
        "Admin: COMMENT ON DATABASE repro_db_seed_000 IS 'repro-ready'",
        "Admin: CREATE DATABASE repro_db_seed_001 TEMPLATE repro_template",
        "Admin: ALTER DATABASE repro_db_seed_001 ALLOW_CONNECTIONS false",
        "Admin: COMMENT ON DATABASE repro_db_seed_001 IS 'repro-ready'",
        "Admin closes",
    ] {
        assert_eq!(step(&mut run, Event::Done), expected);
    }
    assert_eq!(show(&run.action()), "finish");
}

#[test]
fn ephemeral_setup_seals_the_template() {
    for warm_pool in [None, Some("many"), Some("")] {
        let (_, mut run) = setup(URL, 2, true, warm_pool).unwrap();
        create_template(&mut run, &[]);
        assert_eq!(
            step(&mut run, Event::Done),
            "Admin: SELECT pgrust_seal_template($1) [repro_template]"
        );
        assert_eq!(step(&mut run, Event::Done), "Admin closes");
        assert_eq!(show(&run.action()), "finish");
    }
}

const COUNT: &str = "Admin: SELECT count(*) FROM pg_database WHERE datname LIKE 'tdb_spare_%'";

/// A setup that is about to count spares.
fn warming_setup(target: &str) -> Setup {
    let (_, mut run) = setup(URL, 1, true, Some(target)).unwrap();
    create_template(&mut run, &[]);
    step(&mut run, Event::Done);
    assert_eq!(step(&mut run, Event::Done), "Warmup connects to tdb_repro_template__warmup");
    assert_eq!(step(&mut run, Event::Done), "Warmup closes");
    assert_eq!(step(&mut run, Event::Done), "start clock");
    run
}

#[test]
fn setup_waits_for_spares() {
    let mut run = warming_setup("192");
    assert_eq!(step(&mut run, Event::Count { value: 0, waited: 5 }), COUNT);
    assert_eq!(step(&mut run, Event::Done), "sleep 200");
    // Five minutes are not yet too long.
    assert_eq!(step(&mut run, Event::Count { value: 191, waited: 300_000_000_000 }), COUNT);
    assert_eq!(step(&mut run, Event::Done), "sleep 200");
    // Enough is enough, however long it took.
    assert_eq!(step(&mut run, Event::Count { value: 192, waited: 300_000_000_001 }), COUNT);
    assert_eq!(step(&mut run, Event::Done), "192 ready");
    assert_eq!(step(&mut run, Event::Done), "Admin closes");
    assert_eq!(show(&run.action()), "finish");
}

#[test]
fn setup_gives_up_on_spares() {
    let mut run = warming_setup("+192");
    step(&mut run, Event::Count { value: 17, waited: 300_000_000_001 });
    match run.action() {
        Action::Fail { failure } => {
            assert_eq!(failure, Failure::WarmPool { target: 192, spares: 17 });
            assert_eq!(
                failure.message().as_deref(),
                Some("warm pool never reached 192 (have 17)")
            );
        }
        action => panic!("{action:?}"),
    }
}

#[test]
fn negative_target_is_reached_at_once() {
    let mut run = warming_setup("-1");
    step(&mut run, Event::Count { value: 0, waited: 0 });
    assert_eq!(show(&run.action()), "0 ready");
}

#[test]
fn failures_say_what_failed() {
    let (_, mut run) = setup(URL, 3, true, None).unwrap();
    create_template(&mut run, &[]);
    step(&mut run, Event::Failed);
    assert_eq!(show(&run.action()), "fail: sealing the template (pgrust test mode)");

    let (_, mut run) = setup(URL, 3, false, None).unwrap();
    create_template(&mut run, &[]);
    for _ in 0..6 {
        step(&mut run, Event::Done);
    }
    step(&mut run, Event::Failed);
    assert_eq!(show(&run.action()), "fail: creating reusable database 2");

    let (_, mut run) = setup(URL, 3, false, None).unwrap();
    step(&mut run, Event::Failed);
    assert!(matches!(run.action(), Action::Fail { failure: Failure::Step }));
}

#[test]
fn empty_pool_is_refused_first() {
    for url in [URL, "port=x"] {
        let error = setup(url, 0, false, None).err().unwrap();
        assert!(matches!(error, SetupError::EmptyPool));
        assert_eq!(error.message(), "pool size must be positive");
    }
    let error = setup("port=x", 1, false, None).err().unwrap();
    assert!(matches!(error, SetupError::Config { .. }));
    assert_eq!(error.message(), "invalid DATABASE_URL");
    assert!(Setup::new(0, true, None).is_none());
}

#[test]
fn pool_size_comes_from_argument_or_processors() {
    assert_eq!(pool_size(Some("96"), Some(4)), Some(96));
    assert_eq!(pool_size(Some("0"), Some(4)), Some(0));
    assert_eq!(pool_size(Some("-1"), Some(4)), None);
    assert_eq!(pool_size(Some("all"), None), None);
    assert_eq!(pool_size(None, Some(4)), Some(4));
    assert_eq!(pool_size(None, None), Some(1));
}

#[test]
fn admin_session_comes_first() {
    let run = Setup::new(1, false, None).unwrap();
    match run.action() {
        Action::Connect { session, database } => {
            assert_eq!(session, Session::Admin);
            assert_eq!(database, None);
        }
        action => panic!("{action:?}"),
    }
}
