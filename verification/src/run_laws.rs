//! What holds of whole test runs: the order of a run's actions, and what they
//! leave behind.
use vstd::prelude::*;

use crate::history;
use crate::history::Machine;
use crate::names;
use crate::protocol::{Action, Candidate, EventView, Failure, Session};
use crate::run;
use crate::run::{RunView, Stage, TestPath};
use crate::sql::{Ident, Statement};
use crate::store;
use crate::store::Store;
use crate::text;
use crate::workload;
use crate::workload::{CONNECTIONS_PER_TEST, STATEMENTS_PER_TEST};

verus! {

/// Whatever a run hears, its fields fit its stage.
pub proof fn law_stays_well_formed(run: RunView, events: Seq<EventView>)
    requires
        run.wf(),
        history::answered(run, events),
    ensures
        history::after_all(run, events).wf(),
        history::after_all(run, events).path == run.path,
        history::after_all(run, events).pid == run.pid,
        history::after_all(run, events).index == run.index,
    decreases events.len(),
{
    if events.len() > 0 {
        law_stays_well_formed(run, events.drop_last());
    }
}

/// A run whose action failed says so and does nothing more, and a run that is
/// finished does nothing more either.
pub proof fn law_ends(run: RunView, event: EventView)
    requires
        run.wf(),
    ensures
        run.after(EventView::Failed).action() == (Action::<Seq<char>>::Fail {
            failure: Failure::Step,
        }),
        run.action().is_last() <==> run.stage is Finished || run.stage is Failed,
        run.action().is_last() ==> !run.action().answered_by(event),
{
}

/// What a run's own statements have made of the database that it leases, and of
/// its locks.
pub struct Books {
    /// The advisory locks that the run holds.
    pub locks: Set<i64>,
    /// The database is marked as free.
    pub marked: bool,
    /// The database lets connections in.
    pub admitting: bool,
    /// The database holds its baseline.
    pub clean: bool,
}

impl Books {
    /// A database in the pool: free, closed, and at its baseline.
    pub open spec fn pooled() -> Books {
        Books { locks: Set::empty(), marked: true, admitting: false, clean: true }
    }

    /// What an action that led to `event` makes of it.
    pub open spec fn after(self, action: Action<Seq<char>>, event: EventView) -> Books {
        match action {
            Action::Run { session, statement } => match statement {
                Statement::TryLock { key } => if event == EventView::Flag(true) {
                    Books { locks: self.locks.insert(key), ..self }
                } else {
                    self
                },
                Statement::Unlock { key } => Books { locks: self.locks.remove(key), ..self },
                Statement::ClearMark { .. } => Books { marked: false, ..self },
                Statement::MarkReady { .. } => Books { marked: true, ..self },
                Statement::AllowConnections { allowed, .. } => Books { admitting: allowed, ..self },
                Statement::Restore => Books { clean: true, ..self },
                _ => if session is Test {
                    Books { clean: false, ..self }
                } else {
                    self
                },
            },
            // The server takes a session's locks back when it ends.
            Action::Close { session: Session::Admin } => Books { locks: Set::empty(), ..self },
            _ => self,
        }
    }
}

/// The action changes a database or enters it.
pub open spec fn uses_database(action: Action<Seq<char>>) -> bool {
    match action {
        Action::Connect { database, .. } => database is Some,
        Action::Run { session, statement } => session != Session::Admin || statement is ClearMark
            || statement is Rename || statement is AllowConnections || statement is MarkReady
            || statement is Terminate,
        _ => false,
    }
}

/// The action names the database that the run leases, wherever it changes a
/// database or enters it: by the name or the identifier that it was found under,
/// or by the name that the run gives it.
pub open spec fn names_leased(run: RunView, action: Action<Seq<char>>) -> bool {
    match action {
        Action::Connect { session, database } => session == Session::Admin && database is None
            || database == Some(run.database()),
        Action::Run { session, statement } => match statement {
            Statement::ClearMark { name } => name == run.candidate().name,
            Statement::Rename { from, to } => from == run.candidate().name && to == run.database(),
            Statement::AllowConnections { database, .. } => database == Ident::Quoted(
                run.database(),
            ),
            Statement::MarkReady { database } => database == Ident::Quoted(run.database()),
            Statement::Terminate { oid, .. } => oid == run.candidate().oid,
            Statement::Drop { .. } | Statement::DropLeftover { .. }
            | Statement::CloneTemplate { .. } => false,
            // Such a session was opened to the leased database.
            _ => session is Admin || session is Test || session is Reset,
        },
        _ => true,
    }
}

/// The books behind a number of events.
pub open spec fn books(run: RunView, events: Seq<EventView>) -> Books
    decreases events.len(),
{
    if events.len() == 0 {
        Books::pooled()
    } else {
        books(run, events.drop_last()).after(
            history::after_all(run, events.drop_last()).action(),
            events.last(),
        )
    }
}

/// The books of a reusable run, as its stage tells them.
spec fn books_at(run: RunView) -> Books {
    Books {
        locks: if run.holds_candidate() {
            set![run.key()]
        } else {
            set![]
        },
        marked: match run.stage {
            Stage::Rename | Stage::Admit | Stage::OpenTest { .. } | Stage::Work { .. }
            | Stage::OpenReset | Stage::ReadPid | Stage::Refuse { .. } | Stage::Terminate { .. }
            | Stage::Poll { .. } | Stage::PollNap { .. } | Stage::Restore | Stage::CloseReset
            | Stage::Hangup { .. } | Stage::Await { .. } | Stage::MarkReady => false,
            _ => true,
        },
        admitting: match run.stage {
            Stage::OpenTest { .. } | Stage::Work { .. } | Stage::OpenReset | Stage::ReadPid
            | Stage::Refuse { .. } => true,
            _ => false,
        },
        clean: match run.stage {
            Stage::Work { at } => at == 0,
            Stage::OpenReset | Stage::ReadPid | Stage::Refuse { .. } | Stage::Terminate { .. }
            | Stage::Poll { .. } | Stage::PollNap { .. } | Stage::Restore => false,
            _ => true,
        },
    }
}

proof fn lemma_books(pid: u32, index: usize, events: Seq<EventView>)
    requires
        history::answered(RunView::start(TestPath::Reusable, pid, index), events),
        history::after_all(RunView::start(TestPath::Reusable, pid, index), events).stage !is Failed,
    ensures
        books(RunView::start(TestPath::Reusable, pid, index), events) == books_at(
            history::after_all(RunView::start(TestPath::Reusable, pid, index), events),
        ),
    decreases events.len(),
{
    let start = RunView::start(TestPath::Reusable, pid, index);
    if events.len() == 0 {
        assert(books(start, events).locks =~= books_at(start).locks);
    } else {
        let before = history::after_all(start, events.drop_last());
        let event = events.last();
        law_stays_well_formed(start, events.drop_last());
        if before.stage is Failed {
            law_ends(before, event);
        }
        lemma_books(pid, index, events.drop_last());
        let after = before.after(event);
        if before.stage is Work {
            lemma_work_statement(before);
        }
        assert(books(start, events).locks =~= books_at(after).locks);
    }
}

/// What a test sends changes its database's contents and nothing else.
proof fn lemma_work_statement(run: RunView)
    requires
        run.wf(),
        run.stage is Work,
    ensures
        run.action() is Run,
        run.action()->Run_session == Session::Test(0),
        run.action()->statement !is TryLock,
        run.action()->statement !is Unlock,
        run.action()->statement !is ClearMark,
        run.action()->statement !is MarkReady,
        run.action()->statement !is AllowConnections,
        run.action()->statement !is Restore,
{
    let statements = workload::workload(names::row(run.pid, run.index));
    let at = run.stage->Work_at as int;
    assert(statements.len() == STATEMENTS_PER_TEST);
    assert(run.action()->statement == statements[at]);
}

/// The pool's rules, as long as no action fails. A database that is marked as
/// free lets no connections in and holds its baseline. A run that has locked a
/// candidate holds that candidate's lock and no other until it gives the lock
/// back or ends its admin session. It changes or enters no database but the one
/// that it leases, and that one only under its lock. A finished run holds no lock
/// and has left the database as it found it: free, closed, and at its baseline.
pub proof fn law_lease_keeps_pool(pid: u32, index: usize, events: Seq<EventView>)
    requires
        history::answered(RunView::start(TestPath::Reusable, pid, index), events),
        history::after_all(RunView::start(TestPath::Reusable, pid, index), events).stage !is Failed,
    ensures
        ({
            let start = RunView::start(TestPath::Reusable, pid, index);
            let run = history::after_all(start, events);
            let books = books(start, events);
            &&& books.marked ==> !books.admitting && books.clean
            &&& run.holds_candidate() ==> books.locks == set![run.key()]
            &&& !run.holds_candidate() ==> books.locks == Set::<i64>::empty()
            &&& uses_database(run.action()) ==> books.locks == set![run.key()]
            &&& names_leased(run, run.action())
            &&& run.stage is Finished ==> books == Books::pooled()
        }),
{
    lemma_books(pid, index, events);
    law_stays_well_formed(RunView::start(TestPath::Reusable, pid, index), events);
    assert(Set::<i64>::empty() =~= set![]);
    let run = history::after_all(RunView::start(TestPath::Reusable, pid, index), events);
    if run.stage is Work {
        lemma_work_statement(run);
    }
}

/// The run has restored its database's baseline and done nothing in it since.
pub open spec fn restored_at(
    actions: Seq<Action<Seq<char>>>,
    events: Seq<EventView>,
    at: int,
) -> bool {
    &&& 0 <= at < events.len()
    &&& actions[at] == (Action::<Seq<char>>::Run {
        session: Session::Reset,
        statement: Statement::Restore,
    })
    &&& events[at] == EventView::Done
    &&& forall|later: int| at < later < actions.len() ==> (#[trigger] actions[later]) !is Connect && (
    actions[later] is Run ==> actions[later]->Run_session == Session::Admin)
}

proof fn lemma_restored(run: RunView, events: Seq<EventView>)
    requires
        run == RunView::start(run.path, run.pid, run.index),
        history::answered(run, events),
    ensures
        ({
            let stage = history::after_all(run, events).stage;
            (stage is CloseReset || stage is Hangup || stage is Await || stage is MarkReady)
                ==> exists|at: int| restored_at(history::actions(run, events), events, at)
        }),
    decreases events.len(),
{
    if events.len() > 0 {
        let earlier = events.drop_last();
        let before = history::after_all(run, earlier);
        let stage = history::after_all(run, events).stage;
        let actions = history::actions(run, events);
        law_stays_well_formed(run, earlier);
        lemma_restored(run, earlier);
        history::lemma_length(run, earlier);
        history::lemma_length(run, events);
        if stage is CloseReset {
            assert(before.stage is Restore);
            assert(restored_at(actions, events, events.len() - 1));
        } else if stage is Hangup || stage is Await || stage is MarkReady {
            let at = choose|at: int|
                restored_at(history::actions(run, earlier), earlier, at);
            assert(earlier[at] == events[at]);
            assert forall|later: int| at < later < actions.len() implies (
            #[trigger] actions[later]) !is Connect && (actions[later] is Run
                ==> actions[later]->Run_session == Session::Admin) by {
                if later < earlier.len() {
                    assert(actions[later] == history::actions(run, earlier)[later]);
                }
            }
            assert(restored_at(actions, events, at));
        }
    }
}

/// No database is marked as free that was not restored: in every history of every
/// run, one that fails among them, the mark is asked for only behind a restore
/// that was done, and between the two nothing was sent to the database and no
/// connection to it was opened.
pub proof fn law_marked_only_when_restored(
    path: TestPath,
    pid: u32,
    index: usize,
    events: Seq<EventView>,
    at: int,
)
    requires
        history::answered(RunView::start(path, pid, index), events),
        0 <= at < events.len(),
        history::actions(RunView::start(path, pid, index), events)[at] is Run,
        history::actions(RunView::start(path, pid, index), events)[at]->statement is MarkReady,
    ensures
        exists|restore: int|
            restored_at(
                history::actions(RunView::start(path, pid, index), events).take(at),
                events.take(at),
                restore,
            ),
{
    let start = RunView::start(path, pid, index);
    history::lemma_moment(start, events, at);
    lemma_actions_take(start, events, at);
    law_stays_well_formed(start, events.take(at));
    let run = history::after_all(start, events.take(at));
    if run.stage is Work {
        lemma_work_statement(run);
    }
    assert(run.stage is MarkReady);
    lemma_restored(start, events.take(at));
}

proof fn lemma_actions_take(run: RunView, events: Seq<EventView>, at: int)
    requires
        0 <= at <= events.len(),
    ensures
        history::actions(run, events).take(at) == history::actions(run, events.take(at)),
    decreases events.len(),
{
    history::lemma_length(run, events);
    history::lemma_length(run, events.take(at));
    if at < events.len() {
        lemma_actions_take(run, events.drop_last(), at);
        assert(events.drop_last().take(at) =~= events.take(at));
        assert(history::actions(run, events).take(at) =~= history::actions(
            run,
            events.drop_last(),
        ).take(at));
    } else {
        assert(events.take(at) =~= events);
        assert(history::actions(run, events).take(at) =~= history::actions(run, events));
    }
}

/// What a run's own statements have made of the contents of the database that it
/// leases, where that was a copy of the template; none where the server refuses
/// one of them.
pub open spec fn contents(
    run: RunView,
    events: Seq<EventView>,
    digest: spec_fn(Seq<char>) -> Seq<char>,
) -> Option<Store>
    decreases events.len(),
{
    if events.len() == 0 {
        Some(store::template(digest))
    } else {
        match contents(run, events.drop_last(), digest) {
            Some(store) => match history::after_all(run, events.drop_last()).action() {
                Action::Run { session, statement } => if session == Session::Admin {
                    Some(store)
                } else {
                    store.after_statement(statement, digest)
                },
                _ => Some(store),
            },
            None => None,
        }
    }
}

/// The contents of a leased database, as the run's stage tells them.
spec fn contents_at(run: RunView, digest: spec_fn(Seq<char>) -> Seq<char>) -> Option<Store> {
    let template = store::template(digest);
    let id = names::row(run.pid, run.index);
    match run.stage {
        Stage::Work { at } => template.after_statements(
            workload::workload(id).take(at as int),
            digest,
        ),
        Stage::OpenReset | Stage::ReadPid | Stage::Refuse { .. } | Stage::Terminate { .. }
        | Stage::Poll { .. } | Stage::PollNap { .. } | Stage::Restore => Some(
            template.after_workload(id, digest),
        ),
        _ => Some(template),
    }
}

proof fn lemma_contents_work(run: RunView, digest: spec_fn(Seq<char>) -> Seq<char>)
    requires
        run.wf(),
        run.path == TestPath::Reusable,
        run.stage is Work,
    ensures
        contents_at(run, digest) is Some,
        (contents_at(run, digest)->0).after_statement(run.action()->statement, digest)
            == contents_at(run.after(EventView::Done), digest),
{
    let template = store::template(digest);
    let id = names::row(run.pid, run.index);
    let statements = workload::workload(id);
    let at = run.stage->Work_at as int;
    store::law_restored_database_takes_workload(template, id, id, digest);
    assert(statements.len() == STATEMENTS_PER_TEST);
    assert(run.action()->statement == statements[at]);
    store::lemma_statements_take(template, statements, at, digest);
    assert(statements.take(at + 1).drop_last() =~= statements.take(at));
    assert(template.after_statements(statements.take(at + 1), digest) == (contents_at(
        run,
        digest,
    )->0).after_statement(statements[at], digest));
    if at + 1 == STATEMENTS_PER_TEST {
        assert(statements.take(at + 1) =~= statements);
    }
}

proof fn lemma_contents_step(
    run: RunView,
    event: EventView,
    digest: spec_fn(Seq<char>) -> Seq<char>,
)
    requires
        run.wf(),
        run.path == TestPath::Reusable,
        run.action().answered_by(event),
        event !is Failed,
    ensures
        contents_at(run.after(event), digest) == (match contents_at(run, digest) {
            Some(store) => match run.action() {
                Action::Run { session, statement } => if session == Session::Admin {
                    Some(store)
                } else {
                    store.after_statement(statement, digest)
                },
                _ => Some(store),
            },
            None => None,
        }),
{
    let template = store::template(digest);
    let id = names::row(run.pid, run.index);
    if run.stage is Work {
        lemma_work_statement(run);
        lemma_contents_work(run, digest);
        assert(event is Done);
    } else if run.stage is Restore {
        store::law_restored_database_takes_workload(template, id, id, digest);
    } else if run.stage is ReadPid {
        let store = template.after_workload(id, digest);
        assert(store.after_statement(Statement::BackendPid, digest) == Some(store));
    } else if run.stage is OpenTest {
        assert(workload::workload(id).take(0) =~= seq![]);
    }
}

proof fn lemma_contents(
    pid: u32,
    index: usize,
    events: Seq<EventView>,
    digest: spec_fn(Seq<char>) -> Seq<char>,
)
    requires
        history::answered(RunView::start(TestPath::Reusable, pid, index), events),
        history::after_all(RunView::start(TestPath::Reusable, pid, index), events).stage !is Failed,
    ensures
        contents(RunView::start(TestPath::Reusable, pid, index), events, digest) == contents_at(
            history::after_all(RunView::start(TestPath::Reusable, pid, index), events),
            digest,
        ),
    decreases events.len(),
{
    let start = RunView::start(TestPath::Reusable, pid, index);
    if events.len() > 0 {
        let before = history::after_all(start, events.drop_last());
        law_stays_well_formed(start, events.drop_last());
        if before.stage is Failed {
            law_ends(before, events.last());
        }
        lemma_contents(pid, index, events.drop_last(), digest);
        lemma_contents_step(before, events.last(), digest);
    }
}

/// A run on a copy of the template, as long as no action fails, sends it no
/// statement that the server refuses, and gives back what it was given: the
/// database holds the template's rows and sequences again before it is marked as
/// free, and whenever it is.
pub proof fn law_lease_returns_template(
    pid: u32,
    index: usize,
    events: Seq<EventView>,
    digest: spec_fn(Seq<char>) -> Seq<char>,
)
    requires
        history::answered(RunView::start(TestPath::Reusable, pid, index), events),
        history::after_all(RunView::start(TestPath::Reusable, pid, index), events).stage !is Failed,
    ensures
        ({
            let start = RunView::start(TestPath::Reusable, pid, index);
            let run = history::after_all(start, events);
            let contents = contents(start, events, digest);
            let template = store::template(digest);
            &&& contents is Some
            &&& (contents->0).of_template(digest)
            &&& books(start, events).clean ==> contents == Some(template)
            &&& books(start, events).marked ==> contents == Some(template)
            &&& run.stage is MarkReady || run.stage is Finished ==> contents == Some(template)
        }),
{
    let start = RunView::start(TestPath::Reusable, pid, index);
    let run = history::after_all(start, events);
    let template = store::template(digest);
    let id = names::row(pid, index);
    let statements = workload::workload(id);
    law_stays_well_formed(start, events);
    lemma_books(pid, index, events);
    lemma_contents(pid, index, events, digest);
    store::law_restored_database_takes_workload(template, id, id, digest);
    store::law_workload_needs_free_keys(template, id, digest);
    if run.stage is Work {
        let at = run.stage->Work_at as int;
        assert(statements.len() == STATEMENTS_PER_TEST);
        store::lemma_statements_take(template, statements, at, digest);
        assert(at == 0 ==> statements.take(at) =~= seq![]);
    }
}

/// Two runs never hold the same database. The server grants an advisory lock to
/// one session at a time, so the locks of two runs are disjoint; the databases
/// that they hold then differ too.
pub proof fn law_leases_exclusive(
    pid1: u32,
    index1: usize,
    events1: Seq<EventView>,
    pid2: u32,
    index2: usize,
    events2: Seq<EventView>,
)
    requires
        ({
            let start1 = RunView::start(TestPath::Reusable, pid1, index1);
            let start2 = RunView::start(TestPath::Reusable, pid2, index2);
            let run1 = history::after_all(start1, events1);
            let run2 = history::after_all(start2, events2);
            &&& history::answered(start1, events1)
            &&& history::answered(start2, events2)
            &&& run1.holds_candidate()
            &&& run2.holds_candidate()
            &&& books(start1, events1).locks.disjoint(books(start2, events2).locks)
        }),
    ensures
        history::after_all(
            RunView::start(TestPath::Reusable, pid1, index1),
            events1,
        ).candidate().oid != history::after_all(
            RunView::start(TestPath::Reusable, pid2, index2),
            events2,
        ).candidate().oid,
{
    law_lease_keeps_pool(pid1, index1, events1);
    law_lease_keeps_pool(pid2, index2, events2);
    let run1 = history::after_all(RunView::start(TestPath::Reusable, pid1, index1), events1);
    let run2 = history::after_all(RunView::start(TestPath::Reusable, pid2, index2), events2);
    assert(set![run1.key()].contains(run1.key()));
    assert(set![run2.key()].contains(run2.key()));
}

/// How a run can lose a candidate.
pub enum Loss {
    /// Its lock is held by another run.
    Locked,
    /// It was locked, but is no longer free.
    Stale,
}

/// What a run hears as it loses a candidate.
pub open spec fn loss_events(loss: Loss) -> Seq<EventView> {
    match loss {
        Loss::Locked => seq![EventView::Flag(false)],
        Loss::Stale => seq![EventView::Flag(true)].push(EventView::Found(false)).push(
            EventView::Done,
        ),
    }
}

/// What a run does as it loses a candidate: it gives back the lock if it got it.
pub open spec fn loss_actions(candidate: Candidate<Seq<char>>, loss: Loss) -> Seq<
    Action<Seq<char>>,
> {
    let key = names::lock(candidate.oid);
    let try_lock = RunView::by_admin(Statement::TryLock { key });
    match loss {
        Loss::Locked => seq![try_lock],
        Loss::Stale => seq![
            try_lock,
            RunView::by_admin(Statement::StillReady { oid: candidate.oid, name: candidate.name }),
            RunView::by_admin(Statement::Unlock { key }),
        ],
    }
}

/// What a run hears as it loses one candidate after the other.
pub open spec fn losses_events(losses: Seq<Loss>) -> Seq<EventView>
    decreases losses.len(),
{
    if losses.len() == 0 {
        seq![]
    } else {
        losses_events(losses.drop_last()) + loss_events(losses.last())
    }
}

/// What a run does as it loses one candidate after the other.
pub open spec fn losses_actions(candidates: Seq<Candidate<Seq<char>>>, losses: Seq<Loss>) -> Seq<
    Action<Seq<char>>,
>
    decreases losses.len(),
{
    if losses.len() == 0 {
        seq![]
    } else {
        losses_actions(candidates, losses.drop_last()) + loss_actions(
            candidates[losses.len() - 1],
            losses.last(),
        )
    }
}

/// A run tries the databases that it found in the order in which they were
/// listed, each one once, and keeps no lock of those that it loses. Behind the
/// last one it waits for a millisecond and searches again.
pub proof fn law_search_in_order(run: RunView, losses: Seq<Loss>)
    requires
        run.path == TestPath::Reusable,
        losses.len() <= run.candidates.len(),
    ensures
        history::answered(run.consider(0), losses_events(losses)),
        history::actions(run.consider(0), losses_events(losses)) == losses_actions(run.candidates, losses),
        history::after_all(run.consider(0), losses_events(losses)) == run.consider(losses.len() as int),
        losses.len() == run.candidates.len() ==> {
            let waiting = run.consider(losses.len() as int);
            &&& waiting.action() == (Action::<Seq<char>>::Sleep { millis: 1 })
            &&& waiting.after(EventView::Done).action() == RunView::by_admin(Statement::ListReady)
        },
    decreases losses.len(),
{
    broadcast use history::lemma_push;

    if losses.len() > 0 {
        let earlier = losses.drop_last();
        law_search_in_order(run, earlier);
        let here = run.consider(earlier.len() as int);
        history::lemma_concat(run.consider(0), losses_events(earlier), loss_events(losses.last()));
        assert(history::actions(here, loss_events(losses.last())) =~= loss_actions(
            run.candidates[losses.len() - 1],
            losses.last(),
        ));
    }
}

/// What a run does to the candidate that it gets.
pub open spec fn lease_actions(run: RunView, candidate: Candidate<Seq<char>>) -> Seq<
    Action<Seq<char>>,
> {
    seq![
        RunView::by_admin(Statement::TryLock { key: names::lock(candidate.oid) }),
        RunView::by_admin(Statement::StillReady { oid: candidate.oid, name: candidate.name }),
        RunView::by_admin(Statement::ClearMark { name: candidate.name }),
        RunView::by_admin(Statement::Rename { from: candidate.name, to: run.database() }),
        RunView::by_admin(
            Statement::AllowConnections { database: Ident::Quoted(run.database()), allowed: true },
        ),
    ]
}

/// What a run hears as it gets a candidate.
pub open spec fn lease_events() -> Seq<EventView> {
    seq![EventView::Flag(true)].push(EventView::Found(true)) + history::dones(3)
}

/// A run leases the first database that it can lock and that is still free: it
/// takes the mark away, gives the database its own name, lets connections in,
/// and then opens its own.
pub proof fn law_first_free_is_leased(run: RunView, losses: Seq<Loss>)
    requires
        run.path == TestPath::Reusable,
        losses.len() < run.candidates.len(),
    ensures
        ({
            let events = losses_events(losses) + lease_events();
            let candidate = run.candidates[losses.len() as int];
            &&& history::answered(run.consider(0), events)
            &&& history::actions(run.consider(0), events) == losses_actions(run.candidates, losses)
                + lease_actions(run, candidate)
            &&& history::after_all(run.consider(0), events) == (RunView {
                cursor: losses.len() as int,
                stage: Stage::OpenTest { at: 0 },
                ..run
            })
        }),
{
    broadcast use history::lemma_push;

    law_search_in_order(run, losses);
    let here = run.consider(losses.len() as int);
    history::lemma_concat(run.consider(0), losses_events(losses), lease_events());
    reveal_with_fuel(history::dones, 4);
    let won = seq![EventView::Flag(true)].push(EventView::Found(true));
    history::lemma_concat(here, won, history::dones(3));
    assert(history::actions(here, lease_events()) =~= lease_actions(
        run,
        run.candidates[losses.len() as int],
    ));
}

/// What a run does in its database: it opens its connections and sends its
/// statements over the first.
pub open spec fn use_actions(run: RunView) -> Seq<Action<Seq<char>>> {
    let statements = workload::workload(names::row(run.pid, run.index));
    Seq::new(
        CONNECTIONS_PER_TEST as nat,
        |at: int|
            Action::Connect { session: Session::Test(at as usize), database: Some(run.database()) },
    ) + statements.map_values(
        |statement: Statement<Seq<char>>| Action::Run { session: Session::Test(0), statement },
    )
}

proof fn lemma_opens(run: RunView, n: nat)
    requires
        run.stage == (Stage::OpenTest { at: 0 }),
        n <= CONNECTIONS_PER_TEST,
    ensures
        history::answered(run, history::dones(n)),
        history::actions(run, history::dones(n)) == use_actions(run).take(n as int),
        n < CONNECTIONS_PER_TEST ==> history::after_all(run, history::dones(n)) == run.at_stage(
            Stage::OpenTest { at: n as usize },
        ),
        n == CONNECTIONS_PER_TEST ==> history::after_all(run, history::dones(n)) == run.at_stage(
            Stage::Work { at: 0 },
        ),
    decreases n,
{
    if n > 0 {
        let earlier = history::dones((n - 1) as nat);
        lemma_opens(run, (n - 1) as nat);
        history::lemma_push(run, earlier, EventView::Done);
        assert(history::actions(run, history::dones(n)) =~= use_actions(run).take(n as int));
    } else {
        assert(history::actions(run, history::dones(n)) =~= use_actions(run).take(n as int));
    }
}

proof fn lemma_works(run: RunView, n: nat)
    requires
        run.stage == (Stage::OpenTest { at: 0 }),
        n <= STATEMENTS_PER_TEST,
    ensures
        history::answered(run, history::dones(CONNECTIONS_PER_TEST as nat + n)),
        history::actions(run, history::dones(CONNECTIONS_PER_TEST as nat + n)) == use_actions(run).take(
            CONNECTIONS_PER_TEST + n,
        ),
        n < STATEMENTS_PER_TEST ==> history::after_all(run, history::dones(CONNECTIONS_PER_TEST as nat + n))
            == run.at_stage(Stage::Work { at: n as usize }),
        n == STATEMENTS_PER_TEST ==> history::after_all(run, history::dones(CONNECTIONS_PER_TEST as nat + n))
            == run.at_stage(
            if run.path == TestPath::Reusable {
                Stage::OpenReset
            } else {
                Stage::CloseTest { at: 0 }
            },
        ),
    decreases n,
{
    if n > 0 {
        let earlier = history::dones((CONNECTIONS_PER_TEST + n - 1) as nat);
        lemma_works(run, (n - 1) as nat);
        history::lemma_push(run, earlier, EventView::Done);
        assert(history::actions(run, history::dones(CONNECTIONS_PER_TEST as nat + n)) =~= use_actions(run).take(
            CONNECTIONS_PER_TEST + n,
        ));
    } else {
        lemma_opens(run, CONNECTIONS_PER_TEST as nat);
    }
}

/// Whatever a test's database is, the test opens all its connections, sends its
/// statements in order, and then gives the database up.
pub proof fn law_use(run: RunView)
    requires
        run.stage == (Stage::OpenTest { at: 0 }),
    ensures
        ({
            let events = history::dones((CONNECTIONS_PER_TEST + STATEMENTS_PER_TEST) as nat);
            &&& history::answered(run, events)
            &&& history::actions(run, events) == use_actions(run)
            &&& history::after_all(run, events) == run.at_stage(
                if run.path == TestPath::Reusable {
                    Stage::OpenReset
                } else {
                    Stage::CloseTest { at: 0 }
                },
            )
        }),
{
    lemma_works(run, STATEMENTS_PER_TEST as nat);
    assert(use_actions(run).take((CONNECTIONS_PER_TEST + STATEMENTS_PER_TEST) as int)
        =~= use_actions(run));
}

/// What a run hears while `polls` looks still find sessions on the database.
pub open spec fn polls_events(polls: nat) -> Seq<EventView>
    decreases polls,
{
    if polls == 0 {
        seq![]
    } else {
        polls_events((polls - 1) as nat) + seq![EventView::Flag(true)].push(EventView::Done)
    }
}

/// What a run does meanwhile: it looks again every millisecond.
pub open spec fn polls_actions(oid: i64, keep: i32, polls: nat) -> Seq<Action<Seq<char>>>
    decreases polls,
{
    if polls == 0 {
        seq![]
    } else {
        polls_actions(oid, keep, (polls - 1) as nat) + seq![
            RunView::by_admin(Statement::Remaining { oid, keep }),
            Action::Sleep { millis: 1 },
        ]
    }
}

proof fn lemma_polls(run: RunView, keep: i32, polls: nat)
    requires
        run.path == TestPath::Reusable,
        run.stage == (Stage::Poll { keep }),
    ensures
        history::answered(run, polls_events(polls)),
        history::actions(run, polls_events(polls)) == polls_actions(run.candidate().oid, keep, polls),
        history::after_all(run, polls_events(polls)) == run,
    decreases polls,
{
    broadcast use history::lemma_push;

    if polls > 0 {
        let look = seq![EventView::Flag(true)].push(EventView::Done);
        lemma_polls(run, keep, (polls - 1) as nat);
        history::lemma_concat(run, polls_events((polls - 1) as nat), look);
        assert(history::actions(run, look) =~= seq![
            RunView::by_admin(Statement::Remaining { oid: run.candidate().oid, keep }),
            Action::Sleep { millis: 1 },
        ]);
        assert(history::after_all(run, look) == run);
    }
}

/// What a run hears as it closes its database: the reset's process is `keep`.
pub open spec fn shut_events(keep: i32) -> Seq<EventView> {
    history::dones(1).push(EventView::Pid(keep)) + history::dones(2)
}

/// What a run does as it closes its database.
pub open spec fn shut_actions(run: RunView, keep: i32) -> Seq<Action<Seq<char>>> {
    seq![
        Action::Connect { session: Session::Reset, database: Some(run.database()) },
        Action::Run { session: Session::Reset, statement: Statement::BackendPid },
        RunView::by_admin(
            Statement::AllowConnections { database: Ident::Quoted(run.database()), allowed: false },
        ),
        RunView::by_admin(Statement::Terminate { oid: run.candidate().oid, keep }),
    ]
}

proof fn lemma_shut(run: RunView, keep: i32)
    requires
        run.path == TestPath::Reusable,
        run.stage is OpenReset,
    ensures
        history::answered(run, shut_events(keep)),
        history::actions(run, shut_events(keep)) == shut_actions(run, keep),
        history::after_all(run, shut_events(keep)) == run.at_stage(Stage::Poll { keep }),
{
    broadcast use history::lemma_push;

    reveal_with_fuel(history::dones, 3);
    history::lemma_concat(run, history::dones(1).push(EventView::Pid(keep)), history::dones(2));
    assert(history::actions(run, shut_events(keep)) =~= shut_actions(run, keep));
}

/// What a run hears once no session is left.
pub open spec fn free_events() -> Seq<EventView> {
    seq![EventView::Flag(false)] + history::dones(8)
}

/// What a run does once no session is left.
pub open spec fn free_actions(run: RunView, keep: i32) -> Seq<Action<Seq<char>>> {
    seq![
        RunView::by_admin(Statement::Remaining { oid: run.candidate().oid, keep }),
        Action::Run { session: Session::Reset, statement: Statement::Restore },
        Action::Close { session: Session::Reset },
        Action::Hangup { session: Session::Test(0) },
        Action::Hangup { session: Session::Test(1) },
        Action::Await { session: Session::Test(0) },
        Action::Await { session: Session::Test(1) },
        RunView::by_admin(Statement::MarkReady { database: Ident::Quoted(run.database()) }),
        Action::Close { session: Session::Admin },
    ]
}

proof fn lemma_free_stages(run: RunView)
    requires
        run.path == TestPath::Reusable,
        run.stage is Restore,
    ensures
        history::answered(run, history::dones(8)),
        history::actions(run, history::dones(8)) == seq![
            Action::Run { session: Session::Reset, statement: Statement::Restore },
            Action::Close { session: Session::Reset },
            Action::Hangup { session: Session::Test(0) },
            Action::Hangup { session: Session::Test(1) },
            Action::Await { session: Session::Test(0) },
            Action::Await { session: Session::Test(1) },
            RunView::by_admin(Statement::MarkReady { database: Ident::Quoted(run.database()) }),
            Action::Close { session: Session::Admin },
        ],
        history::after_all(run, history::dones(8)) == run.at_stage(Stage::Finished),
        forall|k: nat|
            k < 8 ==> history::reads_nothing(
                (#[trigger] history::after_all(run, history::dones(k))).action(),
            ),
{
    history::lemma_push(run, history::dones(0), EventView::Done);
    assert(history::after_all(run, history::dones(1)) == run.at_stage(Stage::CloseReset));
    history::lemma_push(run, history::dones(1), EventView::Done);
    assert(history::after_all(run, history::dones(2)) == run.at_stage(Stage::Hangup { at: 0 }));
    history::lemma_push(run, history::dones(2), EventView::Done);
    assert(history::after_all(run, history::dones(3)) == run.at_stage(Stage::Hangup { at: 1 }));
    history::lemma_push(run, history::dones(3), EventView::Done);
    assert(history::after_all(run, history::dones(4)) == run.at_stage(Stage::Await { at: 0 }));
    history::lemma_push(run, history::dones(4), EventView::Done);
    assert(history::after_all(run, history::dones(5)) == run.at_stage(Stage::Await { at: 1 }));
    history::lemma_push(run, history::dones(5), EventView::Done);
    assert(history::after_all(run, history::dones(6)) == run.at_stage(Stage::MarkReady));
    history::lemma_push(run, history::dones(6), EventView::Done);
    assert(history::after_all(run, history::dones(7)) == run.at_stage(Stage::CloseAdmin));
    history::lemma_push(run, history::dones(7), EventView::Done);
    assert(history::after_all(run, history::dones(8)) == run.at_stage(Stage::Finished));
    assert forall|k: nat| k < 8 implies history::reads_nothing(
        (#[trigger] history::after_all(run, history::dones(k))).action(),
    ) by {
        assert(k == 0 || k == 1 || k == 2 || k == 3 || k == 4 || k == 5 || k == 6 || k == 7);
    }
    assert(history::actions(run, history::dones(8)) =~= seq![
        Action::Run { session: Session::Reset, statement: Statement::Restore },
        Action::Close { session: Session::Reset },
        Action::Hangup { session: Session::Test(0) },
        Action::Hangup { session: Session::Test(1) },
        Action::Await { session: Session::Test(0) },
        Action::Await { session: Session::Test(1) },
        RunView::by_admin(Statement::MarkReady { database: Ident::Quoted(run.database()) }),
        Action::Close { session: Session::Admin },
    ]);
}

proof fn lemma_free(run: RunView, keep: i32)
    requires
        run.path == TestPath::Reusable,
        run.stage == (Stage::Poll { keep }),
    ensures
        history::answered(run, free_events()),
        history::actions(run, free_events()) == free_actions(run, keep),
        history::after_all(run, free_events()) == run.at_stage(Stage::Finished),
{
    let gone = seq![EventView::Flag(false)];
    let free = run.at_stage(Stage::Restore);
    history::lemma_push(run, seq![], EventView::Flag(false));
    history::lemma_concat(run, gone, history::dones(8));
    lemma_free_stages(free);
    assert(history::actions(run, free_events()) =~= free_actions(run, keep));
}

/// A run returns its database in this order, however often it has to look for
/// sessions that are left: it lets no more connections in, ends the sessions,
/// waits until none but that of the reset is left, restores the baseline, drops
/// its own connections, marks the database as free, and only then gives up its
/// lock, with the admin session.
pub proof fn law_return(run: RunView, keep: i32, polls: nat)
    requires
        run.path == TestPath::Reusable,
        run.stage is OpenReset,
    ensures
        ({
            let events = shut_events(keep) + polls_events(polls) + free_events();
            &&& history::answered(run, events)
            &&& history::actions(run, events) == shut_actions(run, keep) + polls_actions(
                run.candidate().oid,
                keep,
                polls,
            ) + free_actions(run, keep)
            &&& history::after_all(run, events) == run.at_stage(Stage::Finished)
        }),
{
    let polling = run.at_stage(Stage::Poll { keep });
    lemma_shut(run, keep);
    lemma_polls(polling, keep, polls);
    lemma_free(polling, keep);
    history::lemma_concat(run, shut_events(keep), polls_events(polls));
    history::lemma_concat(run, shut_events(keep) + polls_events(polls), free_events());
}

/// A search that came to nothing: what it found, and how the run lost all of it.
pub struct Round {
    pub candidates: Seq<Candidate<Seq<char>>>,
    pub losses: Seq<Loss>,
}

impl Round {
    /// Every candidate was lost.
    pub open spec fn wf(self) -> bool {
        self.losses.len() == self.candidates.len()
    }

    /// What a run hears meanwhile.
    pub open spec fn events(self) -> Seq<EventView> {
        seq![EventView::Candidates(self.candidates)] + losses_events(self.losses) + history::dones(1)
    }

    /// What a run does meanwhile: it searches, tries what it found, and waits for
    /// a millisecond.
    pub open spec fn actions(self) -> Seq<Action<Seq<char>>> {
        seq![RunView::by_admin(Statement::ListReady)] + losses_actions(
            self.candidates,
            self.losses,
        ) + seq![Action::Sleep { millis: 1 }]
    }
}

/// What a run hears while its searches come to nothing.
pub open spec fn rounds_events(rounds: Seq<Round>) -> Seq<EventView>
    decreases rounds.len(),
{
    if rounds.len() == 0 {
        seq![]
    } else {
        rounds_events(rounds.drop_last()) + rounds.last().events()
    }
}

/// What a run does meanwhile.
pub open spec fn rounds_actions(rounds: Seq<Round>) -> Seq<Action<Seq<char>>>
    decreases rounds.len(),
{
    if rounds.len() == 0 {
        seq![]
    } else {
        rounds_actions(rounds.drop_last()) + rounds.last().actions()
    }
}

/// All that a reusable run has to decide on: the searches that came to nothing,
/// what the last one found, how the run lost the first of that, the reset's
/// process, and how often sessions were left on the database.
pub struct Told {
    pub rounds: Seq<Round>,
    pub candidates: Seq<Candidate<Seq<char>>>,
    pub losses: Seq<Loss>,
    pub keep: i32,
    pub polls: nat,
}

impl Told {
    /// The last search found a database that was not lost.
    pub open spec fn wf(self) -> bool {
        &&& forall|i: int| 0 <= i < self.rounds.len() ==> (#[trigger] self.rounds[i]).wf()
        &&& self.losses.len() < self.candidates.len()
    }

    /// All that the run hears.
    pub open spec fn events(self) -> Seq<EventView> {
        history::dones(1) + rounds_events(self.rounds) + seq![
            EventView::Candidates(self.candidates),
        ] + (losses_events(self.losses) + lease_events()) + history::dones(
            (CONNECTIONS_PER_TEST + STATEMENTS_PER_TEST) as nat,
        ) + (shut_events(self.keep) + polls_events(self.polls) + free_events())
    }

    /// All that the run does.
    pub open spec fn actions(self, start: RunView) -> Seq<Action<Seq<char>>> {
        let leased = self.leased(start);
        seq![Action::Connect { session: Session::Admin, database: None }] + rounds_actions(
            self.rounds,
        ) + seq![RunView::by_admin(Statement::ListReady)] + (losses_actions(
            self.candidates,
            self.losses,
        ) + lease_actions(start, leased.candidate())) + use_actions(start) + (shut_actions(
            leased,
            self.keep,
        ) + polls_actions(leased.candidate().oid, self.keep, self.polls) + free_actions(
            leased,
            self.keep,
        ))
    }

    /// The run with the database that it leased.
    pub open spec fn leased(self, start: RunView) -> RunView {
        RunView { candidates: self.candidates, cursor: self.losses.len() as int, ..start }
    }
}

proof fn lemma_round(run: RunView, round: Round)
    requires
        run.path == TestPath::Reusable,
        run.stage is ListReady,
        round.wf(),
    ensures
        history::answered(run, round.events()),
        history::actions(run, round.events()) == round.actions(),
        history::after_all(run, round.events()) == (RunView {
            candidates: round.candidates,
            cursor: round.candidates.len() as int,
            ..run
        }),
{
    let found = RunView { candidates: round.candidates, ..run };
    let list = seq![EventView::Candidates(round.candidates)];
    let losses = losses_events(round.losses);
    history::lemma_push(run, seq![], EventView::Candidates(round.candidates));
    assert(list =~= Seq::<EventView>::empty().push(EventView::Candidates(round.candidates)));
    assert(history::actions(run, list) =~= seq![RunView::by_admin(Statement::ListReady)]);
    assert(history::after_all(run, list) == found.consider(0));
    law_search_in_order(found, round.losses);
    let waiting = found.consider(round.losses.len() as int);
    history::lemma_push(waiting, history::dones(0), EventView::Done);
    assert(history::actions(waiting, history::dones(1)) =~= seq![Action::Sleep { millis: 1 }]);
    history::lemma_concat(run, list, losses);
    history::lemma_concat(run, list + losses, history::dones(1));
}

proof fn lemma_rounds(run: RunView, rounds: Seq<Round>)
    requires
        run.path == TestPath::Reusable,
        run.stage is ListReady,
        forall|i: int| 0 <= i < rounds.len() ==> (#[trigger] rounds[i]).wf(),
    ensures
        history::answered(run, rounds_events(rounds)),
        history::actions(run, rounds_events(rounds)) == rounds_actions(rounds),
        ({
            let after = history::after_all(run, rounds_events(rounds));
            after == (RunView { candidates: after.candidates, cursor: after.cursor, ..run })
        }),
    decreases rounds.len(),
{
    if rounds.len() > 0 {
        let earlier = rounds.drop_last();
        assert forall|i: int| 0 <= i < earlier.len() implies (#[trigger] earlier[i]).wf() by {
            assert(rounds[i].wf());
        }
        lemma_rounds(run, earlier);
        let before = history::after_all(run, rounds_events(earlier));
        assert(rounds[rounds.len() - 1].wf());
        lemma_round(before, rounds.last());
        history::lemma_concat(run, rounds_events(earlier), rounds.last().events());
    }
}

/// A reusable run searches until it finds a free database, and then leases it,
/// uses it and returns it.
pub proof fn law_reusable_run(pid: u32, index: usize, told: Told)
    requires
        told.wf(),
    ensures
        ({
            let start = RunView::start(TestPath::Reusable, pid, index);
            &&& history::answered(start, told.events())
            &&& history::actions(start, told.events()) == told.actions(start)
            &&& history::after_all(start, told.events()).action() == (Action::<Seq<char>>::Finish)
        }),
{
    let start = RunView::start(TestPath::Reusable, pid, index);
    let searching = start.at_stage(Stage::ListReady);
    let found = RunView { candidates: told.candidates, ..start };
    let leased = told.leased(start);
    let open = history::dones(1);
    let rounds = rounds_events(told.rounds);
    let list = seq![EventView::Candidates(told.candidates)];
    let lease = losses_events(told.losses) + lease_events();
    let using = history::dones((CONNECTIONS_PER_TEST + STATEMENTS_PER_TEST) as nat);
    let back = shut_events(told.keep) + polls_events(told.polls) + free_events();
    history::lemma_push(start, history::dones(0), EventView::Done);
    assert(history::actions(start, open) =~= seq![
        Action::Connect { session: Session::Admin, database: None },
    ]);
    lemma_rounds(searching, told.rounds);
    let ready = history::after_all(searching, rounds);
    history::lemma_push(ready, seq![], EventView::Candidates(told.candidates));
    assert(list =~= Seq::<EventView>::empty().push(EventView::Candidates(told.candidates)));
    assert(history::actions(ready, list) =~= seq![RunView::by_admin(Statement::ListReady)]);
    assert(history::after_all(ready, list) == found.consider(0));
    law_first_free_is_leased(found, told.losses);
    let opening = leased.at_stage(Stage::OpenTest { at: 0 });
    law_use(opening);
    assert(use_actions(opening) =~= use_actions(start));
    let returning = leased.at_stage(Stage::OpenReset);
    law_return(returning, told.keep, told.polls);
    history::lemma_concat(start, open, rounds);
    history::lemma_concat(start, open + rounds, list);
    history::lemma_concat(start, open + rounds + list, lease);
    history::lemma_concat(start, open + rounds + list + lease, using);
    history::lemma_concat(start, open + rounds + list + lease + using, back);
    assert(shut_actions(returning, told.keep) =~= shut_actions(leased, told.keep));
    assert(free_actions(returning, told.keep) =~= free_actions(leased, told.keep));
}

/// What a run that leased nothing does behind its last statement.
pub open spec fn close_actions(run: RunView) -> Seq<Action<Seq<char>>> {
    let closes = seq![
        Action::Close { session: Session::Test(0) },
        Action::Close { session: Session::Test(1) },
    ];
    if run.path == TestPath::Isolated {
        closes + seq![
            RunView::by_admin(Statement::Drop { name: run.database() }),
            Action::Close { session: Session::Admin },
        ]
    } else {
        closes
    }
}

proof fn lemma_close(run: RunView)
    requires
        run.path != TestPath::Reusable,
        run.stage == (Stage::CloseTest { at: 0 }),
    ensures
        ({
            let events = history::dones(
                if run.path == TestPath::Isolated {
                    4
                } else {
                    2
                },
            );
            &&& history::answered(run, events)
            &&& history::actions(run, events) == close_actions(run)
            &&& history::after_all(run, events) == run.at_stage(Stage::Finished)
        }),
{
    broadcast use history::lemma_push;

    reveal_with_fuel(history::dones, 5);
    if run.path == TestPath::Isolated {
        assert(history::actions(run, history::dones(4)) =~= close_actions(run));
    } else {
        assert(history::actions(run, history::dones(2)) =~= close_actions(run));
    }
}

/// What an isolated run does before it opens its connections.
pub open spec fn create_actions(run: RunView) -> Seq<Action<Seq<char>>> {
    seq![
        Action::Connect { session: Session::Admin, database: None },
        RunView::by_admin(Statement::CloneTemplate { database: Ident::Quoted(run.database()) }),
    ]
}

proof fn lemma_create(run: RunView)
    requires
        run.path == TestPath::Isolated,
        run.stage is OpenAdmin,
    ensures
        history::answered(run, history::dones(2)),
        history::actions(run, history::dones(2)) == create_actions(run),
        history::after_all(run, history::dones(2)) == run.at_stage(Stage::OpenTest { at: 0 }),
{
    broadcast use history::lemma_push;

    reveal_with_fuel(history::dones, 3);
    assert(history::actions(run, history::dones(2)) =~= create_actions(run));
}

/// An isolated run creates its database, uses it, closes its connections and
/// drops the database that it created.
pub proof fn law_isolated_run(pid: u32, index: usize)
    ensures
        ({
            let start = RunView::start(TestPath::Isolated, pid, index);
            let events = history::dones((6 + CONNECTIONS_PER_TEST + STATEMENTS_PER_TEST) as nat);
            &&& history::answered(start, events)
            &&& history::actions(start, events) == create_actions(start) + use_actions(start)
                + close_actions(start)
            &&& history::after_all(start, events).action() == (Action::<Seq<char>>::Finish)
        }),
{
    let start = RunView::start(TestPath::Isolated, pid, index);
    let opened = start.at_stage(Stage::OpenTest { at: 0 });
    let used = start.at_stage(Stage::CloseTest { at: 0 });
    let middle = (CONNECTIONS_PER_TEST + STATEMENTS_PER_TEST) as nat;
    lemma_create(start);
    law_use(opened);
    lemma_close(used);
    assert(use_actions(opened) =~= use_actions(start));
    history::lemma_concat(start, history::dones(2), history::dones(middle));
    history::lemma_concat(start, history::dones(2) + history::dones(middle), history::dones(4));
    history::lemma_dones_concat(2, middle);
    history::lemma_dones_concat(2 + middle, 4);
}

/// An ephemeral run uses its database and closes its connections. It does
/// nothing else: it leases, renames, ends, restores and returns nothing.
pub proof fn law_ephemeral_run(pid: u32, index: usize)
    ensures
        ({
            let start = RunView::start(TestPath::Ephemeral, pid, index);
            let events = history::dones((2 + CONNECTIONS_PER_TEST + STATEMENTS_PER_TEST) as nat);
            &&& history::answered(start, events)
            &&& history::actions(start, events) == use_actions(start) + close_actions(start)
            &&& history::after_all(start, events).action() == (Action::<Seq<char>>::Finish)
        }),
{
    let start = RunView::start(TestPath::Ephemeral, pid, index);
    let used = start.at_stage(Stage::CloseTest { at: 0 });
    let middle = (CONNECTIONS_PER_TEST + STATEMENTS_PER_TEST) as nat;
    law_use(start);
    lemma_close(used);
    history::lemma_concat(start, history::dones(middle), history::dones(2));
    history::lemma_dones_concat(middle, 2);
}

/// A run that leases nothing hears nothing to decide on.
proof fn lemma_run_hears(run: RunView, events: Seq<EventView>)
    requires
        run == RunView::start(run.path, run.pid, run.index),
        run.path != TestPath::Reusable,
        history::answered(run, events),
        history::after_all(run, events).stage !is Failed,
    ensures
        forall|i: int| 0 <= i < events.len() ==> #[trigger] events[i] == EventView::Done,
    decreases events.len(),
{
    if events.len() > 0 {
        let earlier = events.drop_last();
        let before = history::after_all(run, earlier);
        law_stays_well_formed(run, earlier);
        if before.stage is Failed {
            law_ends(before, events.last());
        }
        lemma_run_hears(run, earlier);
        if before.stage is Work {
            let statements = workload::workload(names::row(run.pid, run.index));
            let at = before.stage->Work_at as int;
            assert(statements.len() == STATEMENTS_PER_TEST);
            assert(before.action()->statement == statements[at]);
        }
        assert forall|i: int| 0 <= i < events.len() implies #[trigger] events[i]
            == EventView::Done by {
            if i < earlier.len() {
                assert(earlier[i] == EventView::Done);
            }
        }
    }
}

/// An isolated run succeeds in one way only.
pub proof fn law_every_isolated_run(pid: u32, index: usize, events: Seq<EventView>)
    requires
        history::answered(RunView::start(TestPath::Isolated, pid, index), events),
        history::after_all(RunView::start(TestPath::Isolated, pid, index), events).action()
            is Finish,
    ensures
        ({
            let start = RunView::start(TestPath::Isolated, pid, index);
            &&& events == history::dones((6 + CONNECTIONS_PER_TEST + STATEMENTS_PER_TEST) as nat)
            &&& history::actions(start, events) == create_actions(start) + use_actions(start)
                + close_actions(start)
        }),
{
    let start = RunView::start(TestPath::Isolated, pid, index);
    let good = (6 + CONNECTIONS_PER_TEST + STATEMENTS_PER_TEST) as nat;
    law_isolated_run(pid, index);
    law_stays_well_formed(start, events);
    lemma_run_hears(start, events);
    history::lemma_dones_at(good);
    history::lemma_ends_agree(start, events, history::dones(good));
}

/// An ephemeral run succeeds in one way only.
pub proof fn law_every_ephemeral_run(pid: u32, index: usize, events: Seq<EventView>)
    requires
        history::answered(RunView::start(TestPath::Ephemeral, pid, index), events),
        history::after_all(RunView::start(TestPath::Ephemeral, pid, index), events).action()
            is Finish,
    ensures
        ({
            let start = RunView::start(TestPath::Ephemeral, pid, index);
            &&& events == history::dones((2 + CONNECTIONS_PER_TEST + STATEMENTS_PER_TEST) as nat)
            &&& history::actions(start, events) == use_actions(start) + close_actions(start)
        }),
{
    let start = RunView::start(TestPath::Ephemeral, pid, index);
    let good = (2 + CONNECTIONS_PER_TEST + STATEMENTS_PER_TEST) as nat;
    law_ephemeral_run(pid, index);
    law_stays_well_formed(start, events);
    lemma_run_hears(start, events);
    history::lemma_dones_at(good);
    history::lemma_ends_agree(start, events, history::dones(good));
}

proof fn lemma_losses_front(loss: Loss, losses: Seq<Loss>)
    ensures
        losses_events(seq![loss] + losses) == loss_events(loss) + losses_events(losses),
    decreases losses.len(),
{
    let all = seq![loss] + losses;
    if losses.len() == 0 {
        assert(all.drop_last() =~= seq![]);
        assert(all.last() == loss);
        assert(losses_events(seq![]) =~= seq![]);
        assert(losses_events(all) =~= loss_events(loss) + losses_events(losses));
    } else {
        lemma_losses_front(loss, losses.drop_last());
        assert(all.drop_last() =~= seq![loss] + losses.drop_last());
        assert(losses_events(all) =~= loss_events(loss) + losses_events(losses));
    }
}

proof fn lemma_rounds_front(round: Round, rounds: Seq<Round>)
    ensures
        rounds_events(seq![round] + rounds) == round.events() + rounds_events(rounds),
    decreases rounds.len(),
{
    let all = seq![round] + rounds;
    if rounds.len() == 0 {
        assert(all.drop_last() =~= seq![]);
        assert(all.last() == round);
        assert(rounds_events(seq![]) =~= seq![]);
        assert(rounds_events(all) =~= round.events() + rounds_events(rounds));
    } else {
        lemma_rounds_front(round, rounds.drop_last());
        assert(all.drop_last() =~= seq![round] + rounds.drop_last());
        assert(rounds_events(all) =~= round.events() + rounds_events(rounds));
    }
}

proof fn lemma_polls_front(polls: nat)
    ensures
        polls_events(polls + 1) == seq![EventView::Flag(true)].push(EventView::Done) + polls_events(
            polls,
        ),
    decreases polls,
{
    let look = seq![EventView::Flag(true)].push(EventView::Done);
    if polls == 0 {
        assert(polls_events(0) =~= seq![]);
        assert(polls_events(1) =~= look + polls_events(0));
    } else {
        lemma_polls_front((polls - 1) as nat);
        assert(polls_events(polls + 1) =~= look + polls_events(polls));
    }
}

/// What a run hears as it gets the lock of a candidate that is still free.
spec fn won_events() -> Seq<EventView> {
    seq![EventView::Flag(true)].push(EventView::Found(true))
}

/// What a run heard of a candidate's lock: whether it got it.
proof fn lemma_hears_lock(run: RunView, cursor: int, events: Seq<EventView>) -> (locked: bool)
    requires
        run.path == TestPath::Reusable,
        0 <= cursor < run.candidates.len(),
        history::succeeds(run.consider(cursor), events),
    ensures
        events.len() > 0,
        events[0] == EventView::Flag(locked),
        history::succeeds(
            if locked {
                run.consider(cursor).at_stage(Stage::StillReady)
            } else {
                run.consider(cursor + 1)
            },
            events.skip(1),
        ),
{
    history::lemma_front(run.consider(cursor), events);
    assert(events[0] is Flag);
    events[0]->Flag_0
}

/// What a run heard of a locked candidate: whether it was still free.
proof fn lemma_hears_found(run: RunView, events: Seq<EventView>) -> (free: bool)
    requires
        run.path == TestPath::Reusable,
        run.stage is StillReady,
        history::succeeds(run, events),
    ensures
        events.len() > 0,
        events[0] == EventView::Found(free),
        history::succeeds(
            run.at_stage(
                if free {
                    Stage::ClearMark
                } else {
                    Stage::Unlock
                },
            ),
            events.skip(1),
        ),
{
    history::lemma_front(run, events);
    assert(events[0] is Found);
    events[0]->Found_0
}

/// What a run heard as it gave a lock back.
proof fn lemma_hears_unlock(run: RunView, cursor: int, events: Seq<EventView>)
    requires
        run.path == TestPath::Reusable,
        0 <= cursor < run.candidates.len(),
        history::succeeds(run.consider(cursor).at_stage(Stage::Unlock), events),
    ensures
        events.len() > 0,
        events[0] == EventView::Done,
        history::succeeds(run.consider(cursor + 1), events.skip(1)),
{
    history::lemma_front(run.consider(cursor).at_stage(Stage::Unlock), events);
    assert(events[0] is Done);
}

/// What a run heard of the candidate at `cursor`: how it lost it, if it did.
proof fn lemma_hears_candidate(run: RunView, cursor: int, events: Seq<EventView>) -> (lost: Option<
    Loss,
>)
    requires
        run.path == TestPath::Reusable,
        0 <= cursor < run.candidates.len(),
        history::succeeds(run.consider(cursor), events),
    ensures
        match lost {
            Some(loss) => {
                let n = loss_events(loss).len() as int;
                &&& n <= events.len()
                &&& events == loss_events(loss) + events.skip(n)
                &&& history::succeeds(run.consider(cursor + 1), events.skip(n))
            },
            None => {
                &&& events.len() >= 2
                &&& events == won_events() + events.skip(2)
                &&& history::succeeds(
                    RunView { cursor, stage: Stage::ClearMark, ..run },
                    events.skip(2),
                )
            },
        },
{
    let here = run.consider(cursor);
    let locked = lemma_hears_lock(run, cursor, events);
    if !locked {
        assert(events =~= loss_events(Loss::Locked) + events.skip(1));
        Some(Loss::Locked)
    } else {
        let free = lemma_hears_found(here.at_stage(Stage::StillReady), events.skip(1));
        assert(events.skip(1).skip(1) =~= events.skip(2));
        if free {
            assert(events =~= won_events() + events.skip(2));
            None
        } else {
            lemma_hears_unlock(run, cursor, events.skip(2));
            assert(events.skip(2).skip(1) =~= events.skip(3));
            assert(events =~= loss_events(Loss::Stale) + events.skip(3));
            Some(Loss::Stale)
        }
    }
}

/// What a run heard of the candidates from `cursor` on: how it lost the first of
/// them, and what it heard behind that.
proof fn lemma_hears_losses(run: RunView, cursor: int, events: Seq<EventView>) -> (heard: (
    Seq<Loss>,
    Seq<EventView>,
))
    requires
        run.path == TestPath::Reusable,
        0 <= cursor <= run.candidates.len(),
        history::succeeds(run.consider(cursor), events),
    ensures
        heard.1.len() <= events.len(),
        events == losses_events(heard.0) + heard.1,
        ({
            let at = cursor + heard.0.len();
            if at < run.candidates.len() {
                &&& heard.1.len() >= 2
                &&& heard.1 == won_events() + heard.1.skip(2)
                &&& history::succeeds(
                    RunView { cursor: at, stage: Stage::ClearMark, ..run },
                    heard.1.skip(2),
                )
            } else {
                &&& at == run.candidates.len()
                &&& history::succeeds(run.consider(at), heard.1)
            }
        }),
    decreases run.candidates.len() - cursor,
{
    let none = Seq::<Loss>::empty();
    assert(losses_events(none) + events =~= events);
    if cursor == run.candidates.len() {
        (none, events)
    } else {
        let lost = lemma_hears_candidate(run, cursor, events);
        match lost {
            None => (none, events),
            Some(loss) => {
                let rest = events.skip(loss_events(loss).len() as int);
                let (losses, last) = lemma_hears_losses(run, cursor + 1, rest);
                lemma_losses_front(loss, losses);
                history::lemma_associates(loss_events(loss), losses_events(losses), last);
                (seq![loss] + losses, last)
            },
        }
    }
}

proof fn lemma_round_associates(
    a: Seq<EventView>,
    b: Seq<EventView>,
    c: Seq<EventView>,
    d: Seq<EventView>,
    e: Seq<EventView>,
)
    ensures
        a + (b + (c + (d + e))) == a + b + c + d + e,
        a + b + c + d + e == (a + b + c + d) + e,
{
    history::lemma_associates(a, b, c + (d + e));
    history::lemma_associates(a + b, c, d + e);
    history::lemma_associates(a + b + c, d, e);
}

/// What a run heard of its searches: those that came to nothing, what the last
/// one found, how the run lost the first of that, and what it heard behind that.
#[verifier::rlimit(30)]
#[verifier::spinoff_prover]
proof fn lemma_hears_rounds(run: RunView, events: Seq<EventView>) -> (heard: (
    Seq<Round>,
    Seq<Candidate<Seq<char>>>,
    Seq<Loss>,
    Seq<EventView>,
))
    requires
        run.path == TestPath::Reusable,
        run.stage is ListReady,
        history::succeeds(run, events),
    ensures
        forall|i: int| 0 <= i < heard.0.len() ==> (#[trigger] heard.0[i]).wf(),
        heard.2.len() < heard.1.len(),
        events == rounds_events(heard.0) + (seq![EventView::Candidates(heard.1)] + (losses_events(
            heard.2,
        ) + (won_events() + heard.3))),
        history::succeeds(
            RunView {
                candidates: heard.1,
                cursor: heard.2.len() as int,
                stage: Stage::ClearMark,
                ..run
            },
            heard.3,
        ),
    decreases events.len(),
{
    history::lemma_front(run, events);
    assert(events[0] is Candidates);
    let candidates = events[0]->Candidates_0;
    let list = seq![EventView::Candidates(candidates)];
    let found = RunView { candidates, ..run };
    assert(run.after(events[0]) == found.consider(0));
    let (losses, last) = lemma_hears_losses(found, 0, events.skip(1));
    let none = Seq::<Round>::empty();
    if losses.len() < candidates.len() {
        assert(rounds_events(none) + events =~= events);
        (none, candidates, losses, last.skip(2))
    } else {
        let waiting = found.consider(candidates.len() as int);
        history::lemma_front(waiting, last);
        assert(last[0] == EventView::Done);
        let (rounds, later, lost, rest) = lemma_hears_rounds(
            waiting.after(EventView::Done),
            last.skip(1),
        );
        let round = Round { candidates, losses };
        let behind = seq![EventView::Candidates(later)] + (losses_events(lost) + (won_events()
            + rest));
        lemma_rounds_front(round, rounds);
        assert(history::dones(1) =~= seq![EventView::Done]) by {
            reveal_with_fuel(history::dones, 2);
        }
        lemma_round_associates(
            list,
            losses_events(losses),
            history::dones(1),
            rounds_events(rounds),
            behind,
        );
        let all = seq![round] + rounds;
        assert forall|i: int| 0 <= i < all.len() implies (#[trigger] all[i]).wf() by {
            if i > 0 {
                assert(all[i] == rounds[i - 1]);
            }
        }
        (all, later, lost, rest)
    }
}

/// What a run heard of the sessions on its database: how often some were left,
/// and what it heard behind that.
#[verifier::rlimit(30)]
#[verifier::spinoff_prover]
proof fn lemma_hears_polls(run: RunView, keep: i32, events: Seq<EventView>) -> (heard: (
    nat,
    Seq<EventView>,
))
    requires
        run.path == TestPath::Reusable,
        run.stage == (Stage::Poll { keep }),
        history::succeeds(run, events),
    ensures
        events == polls_events(heard.0) + seq![EventView::Flag(false)] + heard.1,
        history::succeeds(run.at_stage(Stage::Restore), heard.1),
    decreases events.len(),
{
    history::lemma_front(run, events);
    let rest = events.skip(1);
    if events[0] == EventView::Flag(false) {
        assert(events =~= polls_events(0) + seq![EventView::Flag(false)] + rest);
        (0nat, rest)
    } else {
        assert(events[0] == EventView::Flag(true));
        let napping = run.at_stage(Stage::PollNap { keep });
        history::lemma_front(napping, rest);
        assert(rest[0] is Done);
        let (polls, last) = lemma_hears_polls(run, keep, rest.skip(1));
        lemma_polls_front(polls);
        assert(events =~= polls_events(polls + 1) + seq![EventView::Flag(false)] + last);
        (polls + 1, last)
    }
}

proof fn lemma_lease_reads_nothing(run: RunView)
    requires
        run.path == TestPath::Reusable,
        run.stage is ClearMark,
    ensures
        forall|k: nat|
            k < 3 ==> history::reads_nothing(
                (#[trigger] history::after_all(run, history::dones(k))).action(),
            ),
        history::after_all(run, history::dones(3)) == run.at_stage(Stage::OpenTest { at: 0 }),
{
    broadcast use history::lemma_push;

    reveal_with_fuel(history::dones, 4);
    assert forall|k: nat| k < 3 implies history::reads_nothing(
        (#[trigger] history::after_all(run, history::dones(k))).action(),
    ) by {
        assert(k == 0 || k == 1 || k == 2);
    }
}

proof fn lemma_use_reads_nothing(run: RunView)
    requires
        run.stage == (Stage::OpenTest { at: 0 }),
    ensures
        forall|k: nat|
            k < CONNECTIONS_PER_TEST + STATEMENTS_PER_TEST ==> history::reads_nothing(
                (#[trigger] history::after_all(run, history::dones(k))).action(),
            ),
{
    assert forall|k: nat| k < CONNECTIONS_PER_TEST + STATEMENTS_PER_TEST implies
        history::reads_nothing(
        (#[trigger] history::after_all(run, history::dones(k))).action(),
    ) by {
        if k < CONNECTIONS_PER_TEST {
            lemma_opens(run, k);
        } else {
            let n = (k - CONNECTIONS_PER_TEST) as nat;
            lemma_works(run, n);
            assert(CONNECTIONS_PER_TEST as nat + n == k);
            let statements = workload::workload(names::row(run.pid, run.index));
            assert(statements.len() == STATEMENTS_PER_TEST);
            assert(history::after_all(run, history::dones(k)).action()->statement
                == statements[n as int]);
        }
    }
}

/// What a run heard as it opened the reset's session: the session's process.
#[verifier::rlimit(30)]
#[verifier::spinoff_prover]
proof fn lemma_hears_reset(run: RunView, events: Seq<EventView>) -> (keep: i32)
    requires
        run.path == TestPath::Reusable,
        run.stage is OpenReset,
        history::succeeds(run, events),
    ensures
        events.len() >= 2,
        events[0] == EventView::Done,
        events[1] == EventView::Pid(keep),
        history::succeeds(run.at_stage(Stage::Refuse { keep }), events.skip(2)),
{
    history::lemma_front(run, events);
    assert(events[0] is Done);
    history::lemma_front(run.at_stage(Stage::ReadPid), events.skip(1));
    assert(events[1] is Pid);
    assert(events.skip(1).skip(1) =~= events.skip(2));
    events[1]->Pid_0
}

/// What a run heard as it ended the sessions on its database.
#[verifier::rlimit(30)]
#[verifier::spinoff_prover]
proof fn lemma_hears_ended(run: RunView, keep: i32, events: Seq<EventView>)
    requires
        run.path == TestPath::Reusable,
        history::succeeds(run.at_stage(Stage::Refuse { keep }), events),
    ensures
        events.len() >= 2,
        events[0] == EventView::Done,
        events[1] == EventView::Done,
        history::succeeds(run.at_stage(Stage::Poll { keep }), events.skip(2)),
{
    history::lemma_front(run.at_stage(Stage::Refuse { keep }), events);
    assert(events[0] is Done);
    history::lemma_front(run.at_stage(Stage::Terminate { keep }), events.skip(1));
    assert(events[1] is Done);
    assert(events.skip(1).skip(1) =~= events.skip(2));
}

/// What a run heard as it closed its database: the reset's process.
proof fn lemma_hears_shut(run: RunView, events: Seq<EventView>) -> (keep: i32)
    requires
        run.path == TestPath::Reusable,
        run.stage is OpenReset,
        history::succeeds(run, events),
    ensures
        events == shut_events(keep) + events.skip(4),
        history::succeeds(run.at_stage(Stage::Poll { keep }), events.skip(4)),
{
    let keep = lemma_hears_reset(run, events);
    lemma_hears_ended(run, keep, events.skip(2));
    assert(events.skip(2).skip(2) =~= events.skip(4));
    assert(events[2] == events.skip(2)[0]);
    assert(events[3] == events.skip(2)[1]);
    assert(events =~= shut_events(keep) + events.skip(4)) by {
        history::lemma_dones_at(1);
        history::lemma_dones_at(2);
    }
    keep
}

/// What a run heard as it returned its database.
proof fn lemma_hears_return(run: RunView, events: Seq<EventView>) -> (heard: (i32, nat))
    requires
        run.path == TestPath::Reusable,
        run.stage is OpenReset,
        history::succeeds(run, events),
    ensures
        events == shut_events(heard.0) + polls_events(heard.1) + free_events(),
{
    let keep = lemma_hears_shut(run, events);
    let polled = events.skip(4);
    let (polls, rest) = lemma_hears_polls(run.at_stage(Stage::Poll { keep }), keep, polled);
    let free = run.at_stage(Stage::Restore);
    lemma_free_stages(free);
    history::lemma_front_dones(free, rest, 8);
    history::lemma_over(free.at_stage(Stage::Finished), rest.skip(8));
    assert(history::dones(8) + Seq::<EventView>::empty() =~= history::dones(8));
    history::lemma_associates(
        polls_events(polls),
        seq![EventView::Flag(false)],
        history::dones(8),
    );
    history::lemma_associates(shut_events(keep), polls_events(polls), free_events());
    (keep, polls)
}

/// The parts of a history, one behind the other, are the history.
proof fn lemma_told(
    told: Told,
    events: Seq<EventView>,
    searched: Seq<EventView>,
    won: Seq<EventView>,
    used: Seq<EventView>,
    returned: Seq<EventView>,
)
    requires
        events == seq![EventView::Done] + searched,
        searched == rounds_events(told.rounds) + (seq![EventView::Candidates(told.candidates)] + (
        losses_events(told.losses) + (won_events() + won))),
        won == history::dones(3) + used,
        used == history::dones((CONNECTIONS_PER_TEST + STATEMENTS_PER_TEST) as nat) + returned,
        returned == shut_events(told.keep) + polls_events(told.polls) + free_events(),
    ensures
        events == told.events(),
{
    let open = history::dones(1);
    let rounds = rounds_events(told.rounds);
    let list = seq![EventView::Candidates(told.candidates)];
    let losses = losses_events(told.losses);
    let using = history::dones((CONNECTIONS_PER_TEST + STATEMENTS_PER_TEST) as nat);
    assert(open =~= seq![EventView::Done]) by {
        reveal_with_fuel(history::dones, 2);
    }
    history::lemma_associates(won_events(), history::dones(3), used);
    history::lemma_associates(losses, lease_events(), used);
    lemma_round_associates(open, rounds, list, losses + lease_events(), used);
    history::lemma_associates(open + rounds + list + (losses + lease_events()), using, returned);
}

/// A reusable run succeeds in no other way: whatever it heard, there was a free
/// database in the end, and the run did with it what `Told::actions` says.
pub proof fn law_every_reusable_run(pid: u32, index: usize, events: Seq<EventView>)
    requires
        history::answered(RunView::start(TestPath::Reusable, pid, index), events),
        history::after_all(RunView::start(TestPath::Reusable, pid, index), events).action()
            is Finish,
    ensures
        exists|told: Told|
            {
                &&& told.wf()
                &&& events == #[trigger] told.events()
                &&& history::actions(RunView::start(TestPath::Reusable, pid, index), events)
                    == told.actions(RunView::start(TestPath::Reusable, pid, index))
            },
{
    let start = RunView::start(TestPath::Reusable, pid, index);
    let middle = (CONNECTIONS_PER_TEST + STATEMENTS_PER_TEST) as nat;
    history::lemma_front(start, events);
    assert(events[0] is Done);
    let searched = events.skip(1);
    let (rounds, candidates, losses, won) = lemma_hears_rounds(
        start.at_stage(Stage::ListReady),
        searched,
    );
    let leased = RunView { candidates, cursor: losses.len() as int, ..start };
    let marked = leased.at_stage(Stage::ClearMark);
    lemma_lease_reads_nothing(marked);
    history::lemma_front_dones(marked, won, 3);
    let opening = leased.at_stage(Stage::OpenTest { at: 0 });
    let used = won.skip(3);
    lemma_use_reads_nothing(opening);
    history::lemma_front_dones(opening, used, middle);
    law_use(opening);
    let returned = used.skip(middle as int);
    let (keep, polls) = lemma_hears_return(leased.at_stage(Stage::OpenReset), returned);
    let told = Told { rounds, candidates, losses, keep, polls };
    lemma_told(told, events, searched, won, used, returned);
    law_reusable_run(pid, index, told);
}

/// Where a test gets its database from: from the server where the suite is
/// ephemeral, whatever the test's number, and only there; otherwise one test in
/// twelve, from the first on, has its own, and all others share the pool.
pub proof fn law_paths(index: int)
    ensures
        run::path_of(true, index) == TestPath::Ephemeral,
        run::path_of(false, index) != TestPath::Ephemeral,
        run::path_of(false, index) == TestPath::Isolated <==> index % 12 == 0,
        run::path_of(false, index) == TestPath::Reusable <==> index % 12 != 0,
{
}

/// The database of a run, at every moment of it, is told by its path, its process
/// and its number. What a reusable run works in and returns has a name under which
/// the next search finds it, and under which no other run works; what the others
/// work in has none.
pub proof fn law_databases_of_runs(run: RunView)
    ensures
        run.path == TestPath::Reusable ==> {
            &&& run.database() == "repro_db_t"@ + text::decimal(run.index as nat) + "_"@
                + text::decimal(run.pid as nat)
            &&& text::starts_with(run.database(), "repro_db_"@)
        },
        run.path == TestPath::Isolated ==> {
            &&& run.database() == "repro_isolated_"@ + text::decimal(run.pid as nat) + "_"@
                + text::decimal(run.index as nat)
            &&& text::starts_with(run.database(), "repro_isolated_"@)
            &&& !text::starts_with(run.database(), "repro_db_"@)
        },
        run.path == TestPath::Ephemeral ==> {
            &&& run.database() == "tdb_"@ + "repro_template"@ + "__"@ + text::decimal(
                run.pid as nat,
            ) + "_"@ + text::decimal(run.index as nat)
            &&& !text::starts_with(run.database(), "repro_db_"@)
            &&& !text::starts_with(run.database(), "repro_isolated_"@)
        },
        run.candidate() == run.candidates[run.cursor],
        run.key() == 0x5250_524f_0000_0000i64 | run.candidates[run.cursor].oid,
{
    names::law_prefixes_sort_names(0, run.pid as nat, run.index as nat);
}

/// A run starts on the path, in the process and with the number that it is given,
/// and keeps them whatever it hears: so it keeps its database. An ephemeral run
/// starts with a connection to its database, and every other run with an admin
/// session.
pub proof fn law_runs_start(path: TestPath, pid: u32, index: usize, events: Seq<EventView>)
    requires
        history::answered(RunView::start(path, pid, index), events),
    ensures
        RunView::start(path, pid, index).path == path,
        RunView::start(path, pid, index).pid == pid,
        RunView::start(path, pid, index).index == index,
        history::after_all(RunView::start(path, pid, index), events).database() == RunView::start(
            path,
            pid,
            index,
        ).database(),
        path == TestPath::Ephemeral ==> RunView::start(path, pid, index).action() == (
        Action::Connect {
            session: Session::Test(0),
            database: Some(RunView::start(path, pid, index).database()),
        }),
        path != TestPath::Ephemeral ==> RunView::start(path, pid, index).action() == (Action::<
            Seq<char>,
        >::Connect { session: Session::Admin, database: None }),
{
    law_stays_well_formed(RunView::start(path, pid, index), events);
}

/// A reusable run asks for the free databases as soon as it has its admin session,
/// and tries what it is told from the front. Told of none, it waits for a
/// millisecond and asks again.
pub proof fn law_search_begins(
    pid: u32,
    index: usize,
    candidates: Seq<Candidate<Seq<char>>>,
)
    ensures
        ({
            let start = RunView::start(TestPath::Reusable, pid, index);
            let asking = start.after(EventView::Done);
            let told = asking.after(EventView::Candidates(candidates));
            &&& asking.action() == (Action::<Seq<char>>::Run {
                session: Session::Admin,
                statement: Statement::ListReady,
            })
            &&& told == (RunView { candidates, ..start }).consider(0)
            &&& candidates.len() > 0 ==> told.action() == (Action::<Seq<char>>::Run {
                session: Session::Admin,
                statement: Statement::TryLock {
                    key: 0x5250_524f_0000_0000i64 | candidates[0].oid,
                },
            })
            &&& candidates.len() == 0 ==> {
                &&& told.action() == (Action::<Seq<char>>::Sleep { millis: 1 })
                &&& told.after(EventView::Done).action() == asking.action()
            }
        }),
{
}

/// A search that was told of databases asks again in the same way.
pub proof fn law_search_goes_on(run: RunView, candidates: Seq<Candidate<Seq<char>>>)
    requires
        run.path == TestPath::Reusable,
    ensures
        ({
            let waiting = run.consider(run.candidates.len() as int);
            let asking = waiting.after(EventView::Done);
            &&& waiting.action() == (Action::<Seq<char>>::Sleep { millis: 1 })
            &&& asking.action() == (Action::<Seq<char>>::Run {
                session: Session::Admin,
                statement: Statement::ListReady,
            })
            &&& asking.after(EventView::Candidates(candidates)) == (RunView {
                candidates,
                ..run
            }).consider(0)
        }),
{
}

/// What a run does with the candidate at `at`: it asks for the lock; with the lock
/// it looks whether the database is still free; if it is not, it gives the lock
/// back. In either case it goes on to the next candidate. A database that is free
/// loses its mark, gets the run's name and lets connections in, in this order, and
/// then the run opens its first connection to it.
pub proof fn law_candidate_tried(run: RunView, at: int)
    requires
        run.path == TestPath::Reusable,
        0 <= at < run.candidates.len(),
    ensures
        ({
            let candidate = run.candidates[at];
            let key = 0x5250_524f_0000_0000i64 | candidate.oid;
            let here = run.consider(at);
            let locked = here.after(EventView::Flag(true));
            let stale = locked.after(EventView::Found(false));
            let free = locked.after(EventView::Found(true));
            &&& here.action() == RunView::by_admin(Statement::TryLock { key })
            &&& here.after(EventView::Flag(false)) == run.consider(at + 1)
            &&& locked.action() == RunView::by_admin(
                Statement::StillReady { oid: candidate.oid, name: candidate.name },
            )
            &&& stale.action() == RunView::by_admin(Statement::Unlock { key })
            &&& stale.after(EventView::Done) == run.consider(at + 1)
            &&& free.action() == RunView::by_admin(Statement::ClearMark { name: candidate.name })
            &&& free.after(EventView::Done).action() == RunView::by_admin(
                Statement::Rename { from: candidate.name, to: run.database() },
            )
            &&& free.after(EventView::Done).after(EventView::Done).action() == RunView::by_admin(
                Statement::AllowConnections {
                    database: Ident::Quoted(run.database()),
                    allowed: true,
                },
            )
            &&& free.after(EventView::Done).after(EventView::Done).after(EventView::Done) == (
            RunView { cursor: at, stage: Stage::OpenTest { at: 0 }, ..run })
        }),
{
}

/// What a run does in its database, action by action: it opens two connections,
/// and over the first it sends its transaction, which writes the row of its process
/// and number and no other. Then it gives the database up.
pub proof fn law_use_in_order(run: RunView, query: int)
    requires
        run.stage == (Stage::OpenTest { at: 0 }),
    ensures
        ({
            let id = ((run.pid as i64) << 32) | (run.index as i64);
            let actions = history::actions(run, history::dones(24));
            let used = history::after_all(run, history::dones(24));
            &&& history::answered(run, history::dones(24))
            &&& actions.len() == 24
            &&& actions[0] == (Action::Connect {
                session: Session::Test(0),
                database: Some(run.database()),
            })
            &&& actions[1] == (Action::Connect {
                session: Session::Test(1),
                database: Some(run.database()),
            })
            &&& actions[2] == sent_by_test(Statement::Begin)
            &&& actions[3] == sent_by_test(Statement::InsertScratch { id })
            &&& actions[4] == sent_by_test(Statement::InsertLast { id })
            &&& 0 <= query < 16 ==> actions[5 + query] == sent_by_test(
                Statement::SelectPayload {
                    table: (query % 8) as usize,
                    row: (query % 4 + 1) as i64,
                },
            )
            &&& actions[21] == sent_by_test(Statement::UpdateFirst { id })
            &&& actions[22] == sent_by_test(Statement::CountScratch)
            &&& actions[23] == sent_by_test(Statement::Commit)
            &&& run.path == TestPath::Reusable ==> used.action() == (Action::Connect {
                session: Session::Reset,
                database: Some(run.database()),
            })
            &&& run.path != TestPath::Reusable ==> used.action() == (Action::<Seq<char>>::Close {
                session: Session::Test(0),
            })
        }),
{
    law_use(run);
    let id = names::row(run.pid, run.index);
    let statements = workload::workload(id);
    workload::law_workload_in_order(id, query);
    names::law_row_number(run.pid, run.index);
    let actions = use_actions(run);
    assert forall|at: int| 0 <= at < 22 implies #[trigger] actions[2 + at] == sent_by_test(
        statements[at],
    ) by {}
    assert(actions[2] == sent_by_test(statements[0]));
    assert(actions[3] == sent_by_test(statements[1]));
    assert(actions[4] == sent_by_test(statements[2]));
    if 0 <= query < 16 {
        assert(actions[2 + (3 + query)] == sent_by_test(statements[3 + query]));
    }
    assert(actions[21] == sent_by_test(statements[19]));
    assert(actions[22] == sent_by_test(statements[20]));
    assert(actions[23] == sent_by_test(statements[21]));
}

/// A statement over a test's first connection.
pub open spec fn sent_by_test(statement: Statement<Seq<char>>) -> Action<Seq<char>> {
    Action::Run { session: Session::Test(0), statement }
}

proof fn lemma_polls_at(oid: i64, keep: i32, polls: nat)
    ensures
        polls_actions(oid, keep, polls).len() == 2 * polls,
        forall|poll: int|
            #![trigger polls_actions(oid, keep, polls)[2 * poll]]
            #![trigger polls_actions(oid, keep, polls)[2 * poll + 1]]
            0 <= poll < polls ==> {
                &&& polls_actions(oid, keep, polls)[2 * poll] == RunView::by_admin(
                    Statement::Remaining { oid, keep },
                )
                &&& polls_actions(oid, keep, polls)[2 * poll + 1] == (Action::<Seq<char>>::Sleep {
                    millis: 1,
                })
            },
    decreases polls,
{
    if polls > 0 {
        lemma_polls_at(oid, keep, (polls - 1) as nat);
        let before = polls_actions(oid, keep, (polls - 1) as nat);
        assert forall|poll: int| 0 <= poll < polls - 1 implies polls_actions(oid, keep, polls)[2
            * poll] == #[trigger] before[2 * poll] && polls_actions(oid, keep, polls)[2 * poll + 1]
            == before[2 * poll + 1] by {}
    }
}

/// What a run does to return its database, action by action, whatever the reset's
/// process is and however often sessions are left: it opens the reset's session and
/// asks for its process; lets no more connections in; ends all other sessions, and
/// looks every millisecond whether there is one left; then restores, closes the
/// reset's session, drops its own connections and waits for their end; and at last
/// marks the database as free and closes the admin session.
pub proof fn law_return_in_order(run: RunView, keep: i32, polls: nat, poll: int)
    requires
        run.path == TestPath::Reusable,
        run.stage is OpenReset,
    ensures
        ({
            let oid = run.candidates[run.cursor].oid;
            let events = shut_events(keep) + polls_events(polls) + free_events();
            let actions = history::actions(run, events);
            let look = RunView::by_admin(Statement::Remaining { oid, keep });
            let free = 4 + 2 * polls as int;
            &&& history::answered(run, events)
            &&& history::after_all(run, events).action() is Finish
            &&& actions.len() == free + 9
            &&& actions[0] == (Action::Connect {
                session: Session::Reset,
                database: Some(run.database()),
            })
            &&& actions[1] == (Action::<Seq<char>>::Run {
                session: Session::Reset,
                statement: Statement::BackendPid,
            })
            &&& actions[2] == RunView::by_admin(
                Statement::AllowConnections {
                    database: Ident::Quoted(run.database()),
                    allowed: false,
                },
            )
            &&& actions[3] == RunView::by_admin(Statement::Terminate { oid, keep })
            &&& 0 <= poll < polls ==> actions[4 + 2 * poll] == look && actions[5 + 2 * poll] == (
            Action::<Seq<char>>::Sleep { millis: 1 })
            &&& actions[free] == look
            &&& actions[free + 1] == (Action::<Seq<char>>::Run {
                session: Session::Reset,
                statement: Statement::Restore,
            })
            &&& actions[free + 2] == (Action::<Seq<char>>::Close { session: Session::Reset })
            &&& actions[free + 3] == (Action::<Seq<char>>::Hangup { session: Session::Test(0) })
            &&& actions[free + 4] == (Action::<Seq<char>>::Hangup { session: Session::Test(1) })
            &&& actions[free + 5] == (Action::<Seq<char>>::Await { session: Session::Test(0) })
            &&& actions[free + 6] == (Action::<Seq<char>>::Await { session: Session::Test(1) })
            &&& actions[free + 7] == RunView::by_admin(
                Statement::MarkReady { database: Ident::Quoted(run.database()) },
            )
            &&& actions[free + 8] == (Action::<Seq<char>>::Close { session: Session::Admin })
        }),
{
    law_return(run, keep, polls);
    let oid = run.candidates[run.cursor].oid;
    let shut = shut_actions(run, keep);
    let looks = polls_actions(oid, keep, polls);
    let free = free_actions(run, keep);
    let actions = shut + looks + free;
    lemma_polls_at(oid, keep, polls);
    if 0 <= poll < polls {
        assert(actions[4 + 2 * poll] == looks[2 * poll]);
        assert(actions[5 + 2 * poll] == looks[2 * poll + 1]);
    }
    assert forall|i: int| 0 <= i < 9 implies #[trigger] free[i] == actions[4 + 2 * polls + i] by {}
}

/// What an isolated run does, action by action. It succeeds in this way and in no
/// other.
pub proof fn law_isolated_run_in_order(pid: u32, index: usize, query: int)
    ensures
        ({
            let start = RunView::start(TestPath::Isolated, pid, index);
            let database = "repro_isolated_"@ + text::decimal(pid as nat) + "_"@ + text::decimal(
                index as nat,
            );
            let id = ((pid as i64) << 32) | (index as i64);
            let actions = history::actions(start, history::dones(30));
            &&& history::answered(start, history::dones(30))
            &&& history::after_all(start, history::dones(30)).action() is Finish
            &&& forall|events: Seq<EventView>| #[trigger]
                history::succeeds(start, events) ==> events == history::dones(30)
            &&& actions.len() == 30
            &&& actions[0] == (Action::<Seq<char>>::Connect {
                session: Session::Admin,
                database: None,
            })
            &&& actions[1] == RunView::by_admin(
                Statement::CloneTemplate { database: Ident::Quoted(database) },
            )
            &&& actions[2] == (Action::Connect {
                session: Session::Test(0),
                database: Some(database),
            })
            &&& actions[3] == (Action::Connect {
                session: Session::Test(1),
                database: Some(database),
            })
            &&& actions[4] == sent_by_test(Statement::Begin)
            &&& actions[5] == sent_by_test(Statement::InsertScratch { id })
            &&& actions[6] == sent_by_test(Statement::InsertLast { id })
            &&& 0 <= query < 16 ==> actions[7 + query] == sent_by_test(
                Statement::SelectPayload {
                    table: (query % 8) as usize,
                    row: (query % 4 + 1) as i64,
                },
            )
            &&& actions[23] == sent_by_test(Statement::UpdateFirst { id })
            &&& actions[24] == sent_by_test(Statement::CountScratch)
            &&& actions[25] == sent_by_test(Statement::Commit)
            &&& actions[26] == (Action::<Seq<char>>::Close { session: Session::Test(0) })
            &&& actions[27] == (Action::<Seq<char>>::Close { session: Session::Test(1) })
            &&& actions[28] == RunView::by_admin(Statement::Drop { name: database })
            &&& actions[29] == (Action::<Seq<char>>::Close { session: Session::Admin })
        }),
{
    let start = RunView::start(TestPath::Isolated, pid, index);
    let opened = start.at_stage(Stage::OpenTest { at: 0 });
    law_isolated_run(pid, index);
    law_databases_of_runs(start);
    law_use_in_order(opened, query);
    law_use(opened);
    assert(use_actions(opened) =~= use_actions(start));
    assert forall|events: Seq<EventView>| #[trigger] history::succeeds(start, events) implies events
        == history::dones(30) by {
        law_every_isolated_run(pid, index, events);
    }
    let create = create_actions(start);
    let using = use_actions(start);
    let close = close_actions(start);
    let actions = create + using + close;
    assert forall|i: int| 0 <= i < 24 implies #[trigger] using[i] == actions[2 + i] by {}
    assert(using[0] == actions[2]);
    assert(using[1] == actions[3]);
    assert(using[2] == actions[4]);
    assert(using[3] == actions[5]);
    assert(using[4] == actions[6]);
    if 0 <= query < 16 {
        assert(using[5 + query] == actions[2 + (5 + query)]);
    }
    assert(using[21] == actions[23]);
    assert(using[22] == actions[24]);
    assert(using[23] == actions[25]);
    assert forall|i: int| 0 <= i < 4 implies #[trigger] close[i] == actions[26 + i] by {}
    assert(close[0] == actions[26]);
}

/// What an ephemeral run does, action by action. It succeeds in this way and in no
/// other.
pub proof fn law_ephemeral_run_in_order(pid: u32, index: usize, query: int)
    ensures
        ({
            let start = RunView::start(TestPath::Ephemeral, pid, index);
            let database = "tdb_"@ + "repro_template"@ + "__"@ + text::decimal(pid as nat) + "_"@
                + text::decimal(index as nat);
            let id = ((pid as i64) << 32) | (index as i64);
            let actions = history::actions(start, history::dones(26));
            &&& history::answered(start, history::dones(26))
            &&& history::after_all(start, history::dones(26)).action() is Finish
            &&& forall|events: Seq<EventView>| #[trigger]
                history::succeeds(start, events) ==> events == history::dones(26)
            &&& actions.len() == 26
            &&& actions[0] == (Action::Connect {
                session: Session::Test(0),
                database: Some(database),
            })
            &&& actions[1] == (Action::Connect {
                session: Session::Test(1),
                database: Some(database),
            })
            &&& actions[2] == sent_by_test(Statement::Begin)
            &&& actions[3] == sent_by_test(Statement::InsertScratch { id })
            &&& actions[4] == sent_by_test(Statement::InsertLast { id })
            &&& 0 <= query < 16 ==> actions[5 + query] == sent_by_test(
                Statement::SelectPayload {
                    table: (query % 8) as usize,
                    row: (query % 4 + 1) as i64,
                },
            )
            &&& actions[21] == sent_by_test(Statement::UpdateFirst { id })
            &&& actions[22] == sent_by_test(Statement::CountScratch)
            &&& actions[23] == sent_by_test(Statement::Commit)
            &&& actions[24] == (Action::<Seq<char>>::Close { session: Session::Test(0) })
            &&& actions[25] == (Action::<Seq<char>>::Close { session: Session::Test(1) })
        }),
{
    let start = RunView::start(TestPath::Ephemeral, pid, index);
    law_ephemeral_run(pid, index);
    law_databases_of_runs(start);
    law_use_in_order(start, query);
    law_use(start);
    assert forall|events: Seq<EventView>| #[trigger] history::succeeds(start, events) implies events
        == history::dones(26) by {
        law_every_ephemeral_run(pid, index, events);
    }
    let using = use_actions(start);
    let close = close_actions(start);
    let actions = using + close;
    assert forall|i: int| 0 <= i < 24 implies #[trigger] using[i] == actions[i] by {}
    assert forall|i: int| 0 <= i < 2 implies #[trigger] close[i] == actions[24 + i] by {}
    assert(close[0] == actions[24]);
}

/// Statements on databases go over the admin session, and a test's own over its
/// first connection.
pub proof fn law_sessions_of_statements(statement: Statement<Seq<char>>)
    ensures
        RunView::by_admin(statement) == (Action::Run { session: Session::Admin, statement }),
        sent_by_test(statement) == (Action::Run { session: Session::Test(0), statement }),
{
}

}
