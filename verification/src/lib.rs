//! A synthetic database test suite: the names, statements and order of actions
//! of its setup and of its tests.
//!
//! The suite compares database servers on the same tests. Most database tests
//! lease a prepared database, use it, bring it back to its baseline and return
//! it to the pool; some create and drop a database of their own; and in the
//! server's own test mode all of them connect to databases that the server
//! creates by itself. A run is a value that names its next action; whoever
//! drives it performs the action and hands back what came of it.
pub mod catalogue;
pub mod config;
pub mod cpu;
pub mod history;
pub mod ident;
pub mod names;
pub mod protocol;
pub mod run;
pub mod run_laws;
pub mod schema;
pub mod setup;
pub mod setup_laws;
pub mod sql;
pub mod store;
pub mod suite;
pub mod text;
pub mod workload;

pub use cpu::run_cpu_test;
pub use run::run_database_test;
pub use setup::setup;
