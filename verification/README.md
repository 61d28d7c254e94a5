# pgrust_nextest_repro

A synthetic database test suite for comparing PostgreSQL with Pgrust. The
library decides everything about the suite: names, lock keys, SQL, the schema
and its restore procedure, the tests' source text, and the order of actions of
setup and of each kind of test. Contracts state these exactly and Verus proves
them.

- `src/run.rs`, `src/setup.rs`: runs that name their next action and move on past
  the event that it led to; `src/run_laws.rs`, `src/setup_laws.rs`: what holds of
  whole runs, on the histories of `src/history.rs`.
- `src/protocol.rs`: actions and events; `src/sql.rs`: the statements.
- `src/store.rs`: what statements do to the tables of a database;
  `src/catalogue.rs`: what they do to the databases of a server.
- `src/schema.rs`, `src/workload.rs`, `src/names.rs`, `src/ident.rs`,
  `src/text.rs`: what statements are made of.
- `src/suite.rs`, `src/cpu.rs`: the list of tests, and the test without a
  database.
- `src/config.rs`: the connection settings, through `tokio_postgres`.
- `app/`: performs the actions against a server. The program sets the suite up,
  runs a single test, or generates the source text of all tests.
