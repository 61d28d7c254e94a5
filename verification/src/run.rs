//! The run of one database test.
//!
//! A reusable run leases a pooled database, uses it, brings it back to its
//! baseline and returns it to the pool. An isolated run creates a database of
//! its own and drops it again. An ephemeral run connects to a database that
//! the server creates by itself.
use tokio_postgres::Config;
use vstd::prelude::*;

use crate::config;
use crate::config::ConfigError;
use crate::history::Machine;
use crate::names;
use crate::protocol;
use crate::protocol::{Action, Candidate, Event, EventView, Failure, Session};
use crate::sql::{Ident, Statement};
use crate::workload;
use crate::workload::{CONNECTIONS_PER_TEST, STATEMENTS_PER_TEST};

verus! {

/// One database test in this many is isolated.
pub const ISOLATED_EVERY: usize = 12;

/// Where a test gets its database from.
#[derive(Clone, Copy, Debug, PartialEq, Eq, Structural)]
pub enum TestPath {
    Reusable,
    Isolated,
    Ephemeral,
}

/// The path of a test: ephemeral where the suite is, else isolated for one test
/// in twelve.
pub open spec fn path_of(ephemeral: bool, index: int) -> TestPath {
    if ephemeral {
        TestPath::Ephemeral
    } else if index % (ISOLATED_EVERY as int) == 0 {
        TestPath::Isolated
    } else {
        TestPath::Reusable
    }
}

/// The path of a test.
pub fn test_path(ephemeral: bool, index: usize) -> (path: TestPath)
    ensures
        path == path_of(ephemeral, index as int),
{
    if ephemeral {
        TestPath::Ephemeral
    } else if index % ISOLATED_EVERY == 0 {
        TestPath::Isolated
    } else {
        TestPath::Reusable
    }
}

/// The database that a test works in.
pub open spec fn database_of(path: TestPath, pid: u32, index: usize) -> Seq<char> {
    match path {
        TestPath::Reusable => names::leased(index as nat, pid as nat),
        TestPath::Isolated => names::isolated(pid as nat, index as nat),
        TestPath::Ephemeral => names::ephemeral(pid as nat, index as nat),
    }
}

/// How far a run has come: what it is about to do, or waits for.
#[derive(Clone, Copy, Debug, PartialEq, Eq, Structural)]
pub enum Stage {
    OpenAdmin,
    /// Look for databases that are marked as free.
    ListReady,
    /// Lock the candidate under the cursor.
    TryLock,
    /// See whether the locked candidate is still free.
    StillReady,
    /// Give the lock back: it is not.
    Unlock,
    /// Take the mark away from the candidate.
    ClearMark,
    /// Give the candidate the run's name.
    Rename,
    /// Let connections in.
    Admit,
    /// No candidate was left: wait a moment.
    Nap,
    /// Create an isolated database.
    Create,
    /// Open one of the test's connections.
    OpenTest { at: usize },
    /// Send one of the test's statements.
    Work { at: usize },
    OpenReset,
    ReadPid,
    /// Let no more connections in.
    Refuse { keep: i32 },
    /// End all sessions but that of the reset.
    Terminate { keep: i32 },
    /// See whether there are such sessions left.
    Poll { keep: i32 },
    /// There are: wait a moment.
    PollNap { keep: i32 },
    Restore,
    CloseReset,
    /// Drop one of the test's connections.
    Hangup { at: usize },
    /// Wait for its end.
    Await { at: usize },
    /// Mark the database as free.
    MarkReady,
    /// Close one of the test's connections.
    CloseTest { at: usize },
    /// Drop the isolated database.
    Drop,
    CloseAdmin,
    Finished,
    Failed,
}

/// A run as contracts speak of it.
pub struct RunView {
    pub path: TestPath,
    pub pid: u32,
    pub index: usize,
    /// What the last search found.
    pub candidates: Seq<Candidate<Seq<char>>>,
    /// The candidate under consideration, or the leased one.
    pub cursor: int,
    pub stage: Stage,
}

impl RunView {
    /// A run before its first action.
    pub open spec fn start(path: TestPath, pid: u32, index: usize) -> RunView {
        RunView {
            path,
            pid,
            index,
            candidates: seq![],
            cursor: 0,
            stage: if path == TestPath::Ephemeral {
                Stage::OpenTest { at: 0 }
            } else {
                Stage::OpenAdmin
            },
        }
    }

    /// The database that the run works in.
    pub open spec fn database(self) -> Seq<char> {
        database_of(self.path, self.pid, self.index)
    }

    /// The candidate under the cursor.
    pub open spec fn candidate(self) -> Candidate<Seq<char>> {
        self.candidates[self.cursor]
    }

    /// The advisory lock of the candidate under the cursor.
    pub open spec fn key(self) -> i64 {
        names::lock(self.candidate().oid)
    }

    pub open spec fn at_stage(self, stage: Stage) -> RunView {
        RunView { stage, ..self }
    }

    /// The candidate at `cursor` is next, or a moment's wait where there is none.
    pub open spec fn consider(self, cursor: int) -> RunView {
        RunView {
            cursor,
            stage: if cursor < self.candidates.len() {
                Stage::TryLock
            } else {
                Stage::Nap
            },
            ..self
        }
    }

    /// The run is between the lock on a candidate and the end of the lease.
    pub open spec fn holds_candidate(self) -> bool {
        self.path == TestPath::Reusable && !(self.stage is OpenAdmin || self.stage is ListReady
            || self.stage is TryLock || self.stage is Nap || self.stage is Finished
            || self.stage is Failed)
    }

    /// The run's fields fit its stage.
    pub open spec fn wf(self) -> bool {
        &&& (self.stage is TryLock || self.holds_candidate()) ==> 0 <= self.cursor
            < self.candidates.len()
        &&& match self.stage {
            Stage::OpenAdmin | Stage::CloseAdmin => self.path != TestPath::Ephemeral,
            Stage::ListReady | Stage::TryLock | Stage::StillReady | Stage::Unlock
            | Stage::ClearMark | Stage::Rename | Stage::Admit | Stage::Nap | Stage::OpenReset
            | Stage::ReadPid | Stage::Refuse { .. } | Stage::Terminate { .. } | Stage::Poll { .. }
            | Stage::PollNap { .. } | Stage::Restore | Stage::CloseReset | Stage::MarkReady =>
                self.path == TestPath::Reusable,
            Stage::Hangup { at } | Stage::Await { at } => self.path == TestPath::Reusable && at
                < CONNECTIONS_PER_TEST,
            Stage::Create | Stage::Drop => self.path == TestPath::Isolated,
            Stage::OpenTest { at } => at < CONNECTIONS_PER_TEST,
            Stage::Work { at } => at < STATEMENTS_PER_TEST,
            Stage::CloseTest { at } => self.path != TestPath::Reusable && at < CONNECTIONS_PER_TEST,
            Stage::Finished | Stage::Failed => true,
        }
    }

    /// A statement over the admin session.
    pub open spec fn by_admin(statement: Statement<Seq<char>>) -> Action<Seq<char>> {
        Action::Run { session: Session::Admin, statement }
    }

    /// The stage behind one that was done without an answer to decide on.
    pub open spec fn next_stage(self) -> Stage {
        match self.stage {
            Stage::OpenAdmin => if self.path == TestPath::Isolated {
                Stage::Create
            } else {
                Stage::ListReady
            },
            Stage::ClearMark => Stage::Rename,
            Stage::Rename => Stage::Admit,
            Stage::Admit | Stage::Create => Stage::OpenTest { at: 0 },
            Stage::Nap => Stage::ListReady,
            Stage::OpenTest { at } => if at + 1 < CONNECTIONS_PER_TEST {
                Stage::OpenTest { at: (at + 1) as usize }
            } else {
                Stage::Work { at: 0 }
            },
            Stage::Work { at } => if at + 1 < STATEMENTS_PER_TEST {
                Stage::Work { at: (at + 1) as usize }
            } else if self.path == TestPath::Reusable {
                Stage::OpenReset
            } else {
                Stage::CloseTest { at: 0 }
            },
            Stage::OpenReset => Stage::ReadPid,
            Stage::Refuse { keep } => Stage::Terminate { keep },
            Stage::Terminate { keep } | Stage::PollNap { keep } => Stage::Poll { keep },
            Stage::Restore => Stage::CloseReset,
            Stage::CloseReset => Stage::Hangup { at: 0 },
            Stage::Hangup { at } => if at + 1 < CONNECTIONS_PER_TEST {
                Stage::Hangup { at: (at + 1) as usize }
            } else {
                Stage::Await { at: 0 }
            },
            Stage::Await { at } => if at + 1 < CONNECTIONS_PER_TEST {
                Stage::Await { at: (at + 1) as usize }
            } else {
                Stage::MarkReady
            },
            Stage::CloseTest { at } => if at + 1 < CONNECTIONS_PER_TEST {
                Stage::CloseTest { at: (at + 1) as usize }
            } else if self.path == TestPath::Isolated {
                Stage::Drop
            } else {
                Stage::Finished
            },
            Stage::MarkReady | Stage::Drop => Stage::CloseAdmin,
            Stage::CloseAdmin => Stage::Finished,
            _ => self.stage,
        }
    }
}

impl Machine for RunView {
    /// What the run is to do next.
    open spec fn action(self) -> Action<Seq<char>> {
        let database = Ident::Quoted(self.database());
        match self.stage {
            Stage::OpenAdmin => Action::Connect { session: Session::Admin, database: None },
            Stage::ListReady => Self::by_admin(Statement::ListReady),
            Stage::TryLock => Self::by_admin(Statement::TryLock { key: self.key() }),
            Stage::StillReady => Self::by_admin(
                Statement::StillReady { oid: self.candidate().oid, name: self.candidate().name },
            ),
            Stage::Unlock => Self::by_admin(Statement::Unlock { key: self.key() }),
            Stage::ClearMark => Self::by_admin(
                Statement::ClearMark { name: self.candidate().name },
            ),
            Stage::Rename => Self::by_admin(
                Statement::Rename { from: self.candidate().name, to: self.database() },
            ),
            Stage::Admit => Self::by_admin(
                Statement::AllowConnections { database, allowed: true },
            ),
            Stage::Nap | Stage::PollNap { .. } => Action::Sleep { millis: 1 },
            Stage::Create => Self::by_admin(Statement::CloneTemplate { database }),
            Stage::OpenTest { at } => Action::Connect {
                session: Session::Test(at),
                database: Some(self.database()),
            },
            Stage::Work { at } => Action::Run {
                session: Session::Test(0),
                statement: workload::workload(names::row(self.pid, self.index))[at as int],
            },
            Stage::OpenReset => Action::Connect {
                session: Session::Reset,
                database: Some(self.database()),
            },
            Stage::ReadPid => Action::Run {
                session: Session::Reset,
                statement: Statement::BackendPid,
            },
            Stage::Refuse { .. } => Self::by_admin(
                Statement::AllowConnections { database, allowed: false },
            ),
            Stage::Terminate { keep } => Self::by_admin(
                Statement::Terminate { oid: self.candidate().oid, keep },
            ),
            Stage::Poll { keep } => Self::by_admin(
                Statement::Remaining { oid: self.candidate().oid, keep },
            ),
            Stage::Restore => Action::Run { session: Session::Reset, statement: Statement::Restore },
            Stage::CloseReset => Action::Close { session: Session::Reset },
            Stage::Hangup { at } => Action::Hangup { session: Session::Test(at) },
            Stage::Await { at } => Action::Await { session: Session::Test(at) },
            Stage::MarkReady => Self::by_admin(Statement::MarkReady { database }),
            Stage::CloseTest { at } => Action::Close { session: Session::Test(at) },
            Stage::Drop => Self::by_admin(Statement::Drop { name: self.database() }),
            Stage::CloseAdmin => Action::Close { session: Session::Admin },
            Stage::Finished => Action::Finish,
            Stage::Failed => Action::Fail { failure: Failure::Step },
        }
    }

    /// The run behind an event.
    open spec fn after(self, event: EventView) -> RunView {
        match event {
            EventView::Failed => self.at_stage(Stage::Failed),
            // What the search found is considered from the front.
            EventView::Candidates(candidates) => (RunView { candidates, ..self }).consider(0),
            EventView::Flag(flag) => if self.stage is TryLock {
                if flag {
                    self.at_stage(Stage::StillReady)
                } else {
                    self.consider(self.cursor + 1)
                }
            } else if flag {
                self.at_stage(Stage::PollNap { keep: self.stage->Poll_keep })
            } else {
                self.at_stage(Stage::Restore)
            },
            EventView::Found(found) => if found {
                self.at_stage(Stage::ClearMark)
            } else {
                self.at_stage(Stage::Unlock)
            },
            EventView::Pid(pid) => self.at_stage(Stage::Refuse { keep: pid }),
            _ => if self.stage is Unlock {
                self.consider(self.cursor + 1)
            } else {
                self.at_stage(self.next_stage())
            },
        }
    }

    proof fn lemma_failed(self) {
    }
}

/// The run of one database test.
pub struct TestRun {
    path: TestPath,
    pid: u32,
    index: usize,
    database: String,
    candidates: Vec<Candidate<String>>,
    cursor: usize,
    stage: Stage,
}

impl View for TestRun {
    type V = RunView;

    closed spec fn view(&self) -> RunView {
        RunView {
            path: self.path,
            pid: self.pid,
            index: self.index,
            candidates: protocol::candidates_view(self.candidates),
            cursor: self.cursor as int,
            stage: self.stage,
        }
    }
}

impl TestRun {
    /// The run's parts fit together.
    pub closed spec fn wf(&self) -> bool {
        &&& self@.wf()
        &&& self.database@ == self@.database()
    }

    /// A run before its first action, on the given path.
    pub fn new(path: TestPath, pid: u32, index: usize) -> (run: TestRun)
        ensures
            run.wf(),
            run@ == RunView::start(path, pid, index),
    {
        let database = match path {
            TestPath::Reusable => names::leased_name(index, pid),
            TestPath::Isolated => names::isolated_name(pid, index),
            TestPath::Ephemeral => names::ephemeral_name(pid, index),
        };
        let stage = match path {
            TestPath::Ephemeral => Stage::OpenTest { at: 0 },
            _ => Stage::OpenAdmin,
        };
        let run = TestRun {
            path,
            pid,
            index,
            database,
            candidates: Vec::new(),
            cursor: 0,
            stage,
        };
        assert(run@.candidates =~= seq![]);
        run
    }

    /// What the run is to do next.
    pub fn action(&self) -> (action: Action<String>)
        requires
            self.wf(),
        ensures
            action@ == self@.action(),
    {
        let statement = match self.stage {
            Stage::OpenAdmin => {
                return Action::Connect { session: Session::Admin, database: None };
            },
            Stage::ListReady => Statement::ListReady,
            Stage::TryLock => Statement::TryLock {
                key: names::lock_key(self.candidates[self.cursor].oid),
            },
            Stage::StillReady => Statement::StillReady {
                oid: self.candidates[self.cursor].oid,
                name: self.candidates[self.cursor].name.clone(),
            },
            Stage::Unlock => Statement::Unlock {
                key: names::lock_key(self.candidates[self.cursor].oid),
            },
            Stage::ClearMark => Statement::ClearMark {
                name: self.candidates[self.cursor].name.clone(),
            },
            Stage::Rename => Statement::Rename {
                from: self.candidates[self.cursor].name.clone(),
                to: self.database.clone(),
            },
            Stage::Admit => Statement::AllowConnections {
                database: Ident::Quoted(self.database.clone()),
                allowed: true,
            },
            Stage::Nap | Stage::PollNap { .. } => {
                return Action::Sleep { millis: 1 };
            },
            Stage::Create => Statement::CloneTemplate {
                database: Ident::Quoted(self.database.clone()),
            },
            Stage::OpenTest { at } => {
                return Action::Connect {
                    session: Session::Test(at),
                    database: Some(self.database.clone()),
                };
            },
            Stage::Work { at } => {
                return Action::Run {
                    session: Session::Test(0),
                    statement: workload::workload_statement(names::row_id(self.pid, self.index), at),
                };
            },
            Stage::OpenReset => {
                return Action::Connect {
                    session: Session::Reset,
                    database: Some(self.database.clone()),
                };
            },
            Stage::ReadPid => {
                return Action::Run {
                    session: Session::Reset,
                    statement: Statement::BackendPid,
                };
            },
            Stage::Refuse { .. } => Statement::AllowConnections {
                database: Ident::Quoted(self.database.clone()),
                allowed: false,
            },
            Stage::Terminate { keep } => Statement::Terminate {
                oid: self.candidates[self.cursor].oid,
                keep,
            },
            Stage::Poll { keep } => Statement::Remaining {
                oid: self.candidates[self.cursor].oid,
                keep,
            },
            Stage::Restore => {
                return Action::Run { session: Session::Reset, statement: Statement::Restore };
            },
            Stage::CloseReset => {
                return Action::Close { session: Session::Reset };
            },
            Stage::Hangup { at } => {
                return Action::Hangup { session: Session::Test(at) };
            },
            Stage::Await { at } => {
                return Action::Await { session: Session::Test(at) };
            },
            Stage::MarkReady => Statement::MarkReady {
                database: Ident::Quoted(self.database.clone()),
            },
            Stage::CloseTest { at } => {
                return Action::Close { session: Session::Test(at) };
            },
            Stage::Drop => Statement::Drop { name: self.database.clone() },
            Stage::CloseAdmin => {
                return Action::Close { session: Session::Admin };
            },
            Stage::Finished => {
                return Action::Finish;
            },
            Stage::Failed => {
                return Action::Fail { failure: Failure::Step };
            },
        };
        Action::Run { session: Session::Admin, statement }
    }

    /// The candidate at `cursor` is next, or a moment's wait where there is none.
    fn consider(&mut self, cursor: usize)
        ensures
            final(self)@ == old(self)@.consider(cursor as int),
            final(self).database == old(self).database,
    {
        self.cursor = cursor;
        self.stage = if cursor < self.candidates.len() {
            Stage::TryLock
        } else {
            Stage::Nap
        };
    }

    /// Moves the run on past the event that its action led to.
    pub fn advance(&mut self, event: Event)
        requires
            old(self).wf(),
            old(self)@.action().answered_by(event@),
        ensures
            final(self).wf(),
            final(self)@ == old(self)@.after(event@),
    {
        match event {
            Event::Failed => {
                self.stage = Stage::Failed;
            },
            Event::Candidates(candidates) => {
                self.candidates = candidates;
                self.consider(0);
            },
            Event::Flag(flag) => match self.stage {
                Stage::Poll { keep } => {
                    self.stage = if flag {
                        Stage::PollNap { keep }
                    } else {
                        Stage::Restore
                    };
                },
                _ => {
                    if flag {
                        self.stage = Stage::StillReady;
                    } else {
                        assert(self.cursor < self.candidates.len());
                        self.consider(self.cursor + 1);
                    }
                },
            },
            Event::Found(found) => {
                self.stage = if found {
                    Stage::ClearMark
                } else {
                    Stage::Unlock
                };
            },
            Event::Pid(pid) => {
                self.stage = Stage::Refuse { keep: pid };
            },
            _ => match self.stage {
                Stage::Unlock => {
                    assert(self.cursor < self.candidates.len());
                    self.consider(self.cursor + 1);
                },
                _ => {
                    self.stage = self.next_stage();
                },
            },
        }
    }

    /// The stage behind one that was done without an answer to decide on.
    fn next_stage(&self) -> (stage: Stage)
        requires
            self.wf(),
        ensures
            stage == self@.next_stage(),
    {
        match self.stage {
            Stage::OpenAdmin => match self.path {
                TestPath::Isolated => Stage::Create,
                _ => Stage::ListReady,
            },
            Stage::ClearMark => Stage::Rename,
            Stage::Rename => Stage::Admit,
            Stage::Admit | Stage::Create => Stage::OpenTest { at: 0 },
            Stage::Nap => Stage::ListReady,
            Stage::OpenTest { at } => if at + 1 < CONNECTIONS_PER_TEST {
                Stage::OpenTest { at: at + 1 }
            } else {
                Stage::Work { at: 0 }
            },
            Stage::Work { at } => if at + 1 < STATEMENTS_PER_TEST {
                Stage::Work { at: at + 1 }
            } else {
                match self.path {
                    TestPath::Reusable => Stage::OpenReset,
                    _ => Stage::CloseTest { at: 0 },
                }
            },
            Stage::OpenReset => Stage::ReadPid,
            Stage::Refuse { keep } => Stage::Terminate { keep },
            Stage::Terminate { keep } | Stage::PollNap { keep } => Stage::Poll { keep },
            Stage::Restore => Stage::CloseReset,
            Stage::CloseReset => Stage::Hangup { at: 0 },
            Stage::Hangup { at } => if at + 1 < CONNECTIONS_PER_TEST {
                Stage::Hangup { at: at + 1 }
            } else {
                Stage::Await { at: 0 }
            },
            Stage::Await { at } => if at + 1 < CONNECTIONS_PER_TEST {
                Stage::Await { at: at + 1 }
            } else {
                Stage::MarkReady
            },
            Stage::CloseTest { at } => if at + 1 < CONNECTIONS_PER_TEST {
                Stage::CloseTest { at: at + 1 }
            } else {
                match self.path {
                    TestPath::Isolated => Stage::Drop,
                    _ => Stage::Finished,
                }
            },
            Stage::MarkReady | Stage::Drop => Stage::CloseAdmin,
            Stage::CloseAdmin => Stage::Finished,
            _ => self.stage,
        }
    }
}

/// The run of the database test of this number in process `pid`, before its
/// first action, and the settings of the server of `url`.
pub fn run_database_test(index: usize, url: Option<&str>, ephemeral: bool, pid: u32) -> (outcome:
    Result<(Config, TestRun), ConfigError>)
    ensures
        match config::accepted(config::parsed_url(url)) {
            Err(error) => outcome == Err::<(Config, TestRun), ConfigError>(error),
            Ok(config) => {
                &&& outcome is Ok
                &&& outcome->Ok_0.0 == config
                &&& outcome->Ok_0.1.wf()
                &&& outcome->Ok_0.1@ == RunView::start(
                    path_of(ephemeral, index as int),
                    pid,
                    index,
                )
            },
        },
{
    match config::database_config(url) {
        Ok(config) => Ok((config, TestRun::new(test_path(ephemeral, index), pid, index))),
        Err(error) => Err(error),
    }
}

}
