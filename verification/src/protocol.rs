//! What a run asks its surroundings to do, and what it hears back.
//!
//! A run is a value that names the one action to perform next. The caller
//! performs it and hands back the event; the run moves on.
use vstd::prelude::*;
use vstd::string::*;

use crate::sql::{Call, Statement};
use crate::text;

verus! {

/// A connection, by what it is for.
#[derive(Clone, Copy, Debug, PartialEq, Eq, Structural)]
pub enum Session {
    /// To the database of the given configuration.
    Admin,
    /// To the template, while its schema is created.
    Template,
    /// To a database that the server creates, so that it knows the template.
    Warmup,
    /// A test's own, by number.
    Test(usize),
    /// To a test's database, while it is brought back to its baseline.
    Reset,
}

/// A database that is marked as free.
#[derive(Debug)]
pub struct Candidate<S> {
    pub oid: i64,
    pub name: S,
}

/// Why a run failed.
#[derive(Clone, Copy, Debug, PartialEq, Eq, Structural)]
pub enum Failure {
    /// An action failed.
    Step,
    /// The template could not be sealed.
    Sealing,
    /// The pooled database of this number could not be created.
    Creating(usize),
    /// The server did not get enough databases ready in time.
    WarmPool { target: i64, spares: i64 },
}

/// What is to be done next. `S` is the type of text, as in [`Statement`].
#[derive(Debug)]
pub enum Action<S> {
    /// Open a session, to the named database where there is one.
    Connect { session: Session, database: Option<S> },
    /// Send a statement over a session, and read its answer.
    Run { session: Session, statement: Statement<S> },
    /// Drop a session and wait until it has ended, with success.
    Close { session: Session },
    /// Drop a session.
    Hangup { session: Session },
    /// Wait until a dropped session has ended, whatever the outcome.
    Await { session: Session },
    /// Let this many milliseconds pass.
    Sleep { millis: u64 },
    /// Start to measure how long the spares take.
    StartClock,
    /// Say that enough spares are ready.
    ReportReady { spares: i64 },
    /// The run is over, with success.
    Finish,
    /// The run is over.
    Fail { failure: Failure },
}

/// What came of an action.
#[derive(Debug)]
pub enum Event {
    /// It was done; nothing was read.
    Done,
    Names(Vec<String>),
    Candidates(Vec<Candidate<String>>),
    Flag(bool),
    Found(bool),
    /// The number read, and the nanoseconds since the clock was started.
    Count { value: i64, waited: u128 },
    Pid(i32),
    /// It could not be done.
    Failed,
}

pub enum EventView {
    Done,
    Names(Seq<Seq<char>>),
    Candidates(Seq<Candidate<Seq<char>>>),
    Flag(bool),
    Found(bool),
    Count { value: i64, waited: u128 },
    Pid(i32),
    Failed,
}

impl View for Candidate<String> {
    type V = Candidate<Seq<char>>;

    open spec fn view(&self) -> Candidate<Seq<char>> {
        Candidate { oid: self.oid, name: self.name@ }
    }
}

impl View for Action<String> {
    type V = Action<Seq<char>>;

    open spec fn view(&self) -> Action<Seq<char>> {
        match self {
            Action::Connect { session, database } => Action::Connect {
                session: *session,
                database: match database {
                    Some(name) => Some(name@),
                    None => None,
                },
            },
            Action::Run { session, statement } => Action::Run {
                session: *session,
                statement: statement@,
            },
            Action::Close { session } => Action::Close { session: *session },
            Action::Hangup { session } => Action::Hangup { session: *session },
            Action::Await { session } => Action::Await { session: *session },
            Action::Sleep { millis } => Action::Sleep { millis: *millis },
            Action::StartClock => Action::StartClock,
            Action::ReportReady { spares } => Action::ReportReady { spares: *spares },
            Action::Finish => Action::Finish,
            Action::Fail { failure } => Action::Fail { failure: *failure },
        }
    }
}

impl View for Event {
    type V = EventView;

    open spec fn view(&self) -> EventView {
        match self {
            Event::Done => EventView::Done,
            Event::Names(names) => EventView::Names(names_view(*names)),
            Event::Candidates(candidates) => EventView::Candidates(candidates_view(*candidates)),
            Event::Flag(flag) => EventView::Flag(*flag),
            Event::Found(found) => EventView::Found(*found),
            Event::Count { value, waited } => EventView::Count { value: *value, waited: *waited },
            Event::Pid(pid) => EventView::Pid(*pid),
            Event::Failed => EventView::Failed,
        }
    }
}

pub open spec fn names_view(names: Vec<String>) -> Seq<Seq<char>> {
    names@.map_values(|name: String| name@)
}

pub open spec fn candidates_view(candidates: Vec<Candidate<String>>) -> Seq<Candidate<Seq<char>>> {
    candidates@.map_values(|candidate: Candidate<String>| candidate@)
}

impl Action<Seq<char>> {
    /// Only work at the server can fail.
    pub open spec fn can_fail(self) -> bool {
        self is Connect || self is Run || self is Close
    }

    /// `event` is something that this action can lead to.
    pub open spec fn answered_by(self, event: EventView) -> bool {
        match event {
            EventView::Failed => self.can_fail(),
            EventView::Done => match self {
                Action::Run { statement, .. } => match statement.sent() {
                    Call::Batch | Call::Execute | Call::Rows | Call::OneRow | Call::MaybeRow =>
                        true,
                    _ => false,
                },
                Action::Finish | Action::Fail { .. } => false,
                _ => true,
            },
            EventView::Names(_) => self.reads(Call::ReadNames),
            EventView::Candidates(_) => self.reads(Call::ReadCandidates),
            EventView::Flag(_) => self.reads(Call::ReadFlag),
            EventView::Found(_) => self.reads(Call::ReadFound),
            EventView::Count { .. } => self.reads(Call::ReadCount),
            EventView::Pid(_) => self.reads(Call::ReadPid),
        }
    }

    pub open spec fn reads(self, call: Call) -> bool {
        self is Run && self->statement.sent() == call
    }

    /// The run is over.
    pub open spec fn is_last(self) -> bool {
        self is Finish || self is Fail
    }
}

impl Action<String> {
    /// Whether `event` is something that this action can lead to.
    pub fn expects(&self, event: &Event) -> (expected: bool)
        ensures
            expected == self@.answered_by(event@),
    {
        match self {
            Action::Connect { .. } | Action::Close { .. } => match event {
                Event::Done | Event::Failed => true,
                _ => false,
            },
            Action::Hangup { .. } | Action::Await { .. } | Action::Sleep { .. }
            | Action::StartClock | Action::ReportReady { .. } => match event {
                Event::Done => true,
                _ => false,
            },
            Action::Run { statement, .. } => match (statement.call(), event) {
                (_, Event::Failed) => true,
                (Call::ReadNames, Event::Names(_)) => true,
                (Call::ReadCandidates, Event::Candidates(_)) => true,
                (Call::ReadFlag, Event::Flag(_)) => true,
                (Call::ReadFound, Event::Found(_)) => true,
                (Call::ReadCount, Event::Count { .. }) => true,
                (Call::ReadPid, Event::Pid(_)) => true,
                (Call::Batch, Event::Done) => true,
                (Call::Execute, Event::Done) => true,
                (Call::Rows, Event::Done) => true,
                (Call::OneRow, Event::Done) => true,
                (Call::MaybeRow, Event::Done) => true,
                _ => false,
            },
            Action::Finish | Action::Fail { .. } => false,
        }
    }
}

impl Failure {
    /// What a failure adds to the error that caused it, or says by itself where
    /// there is none.
    pub open spec fn explained(self) -> Option<Seq<char>> {
        match self {
            Failure::Step => None,
            Failure::Sealing => Some("sealing the template (pgrust test mode)"@),
            Failure::Creating(worker) => Some(
                "creating reusable database "@ + text::decimal(worker as nat),
            ),
            Failure::WarmPool { target, spares } => Some(
                "warm pool never reached "@ + text::signed_decimal(target as int) + " (have "@
                    + text::signed_decimal(spares as int) + ")"@,
            ),
        }
    }

    /// What a failure adds to the error that caused it, or says by itself where
    /// there is none.
    pub fn message(&self) -> (message: Option<String>)
        ensures
            message is Some <==> self.explained() is Some,
            message is Some ==> message->0@ == self.explained()->0,
    {
        match self {
            Failure::Step => None,
            Failure::Sealing => Some("sealing the template (pgrust test mode)".to_owned()),
            Failure::Creating(worker) => {
                let mut message = "creating reusable database ".to_owned();
                text::push_decimal(&mut message, *worker as u64);
                Some(message)
            },
            Failure::WarmPool { target, spares } => {
                let mut message = "warm pool never reached ".to_owned();
                text::push_signed(&mut message, *target);
                message.append(" (have ");
                text::push_signed(&mut message, *spares);
                message.append(")");
                Some(message)
            },
        }
    }
}

/// What an action can lead to. Work at the server can fail, and nothing else can.
/// A statement from whose answer something is read leads to what is read; every
/// other action leads to its being done. Behind the end nothing is heard.
pub proof fn law_what_actions_lead_to(action: Action<Seq<char>>, event: EventView)
    ensures
        event is Failed ==> (action.answered_by(event) <==> action is Connect || action is Run
            || action is Close),
        action is Finish || action is Fail ==> !action.answered_by(event),
        action !is Run && action !is Finish && action !is Fail && event !is Failed ==> (
        action.answered_by(event) <==> event is Done),
        action is Run && event !is Failed ==> {
            let statement = action->statement;
            &&& event is Names ==> (action.answered_by(event) <==> statement is ListLeftovers)
            &&& event is Candidates ==> (action.answered_by(event) <==> statement is ListReady)
            &&& event is Flag ==> (action.answered_by(event) <==> statement is TryLock
                || statement is Remaining)
            &&& event is Found ==> (action.answered_by(event) <==> statement is StillReady)
            &&& event is Count ==> (action.answered_by(event) <==> statement is CountSpares)
            &&& event is Pid ==> (action.answered_by(event) <==> statement is BackendPid)
            &&& event is Done ==> (action.answered_by(event) <==> !(statement is ListLeftovers
                || statement is ListReady || statement is TryLock || statement is Remaining
                || statement is StillReady || statement is CountSpares
                || statement is BackendPid))
        },
        action.is_last() <==> action is Finish || action is Fail,
{
}

/// What the failures say.
pub proof fn law_failures_say(worker: usize, target: i64, spares: i64)
    ensures
        Failure::Step.explained() is None,
        Failure::Sealing.explained() == Some("sealing the template (pgrust test mode)"@),
        Failure::Creating(worker).explained() == Some(
            "creating reusable database "@ + text::decimal(worker as nat),
        ),
        (Failure::WarmPool { target, spares }).explained() == Some(
            "warm pool never reached "@ + text::signed_decimal(target as int) + " (have "@
                + text::signed_decimal(spares as int) + ")"@,
        ),
{
}

/// Contracts speak of the action that a program holds: of the same kind, on the
/// same session, with the same numbers, and with the characters of its texts.
pub proof fn law_actions_as_contracts_see_them(action: Action<String>)
    ensures
        match action {
            Action::Connect { session, database: None } => action@ == (Action::<
                Seq<char>,
            >::Connect { session, database: None }),
            Action::Connect { session, database: Some(name) } => action@ == (Action::Connect {
                session,
                database: Some(name@),
            }),
            Action::Run { session, statement } => action@ == (Action::Run {
                session,
                statement: statement@,
            }),
            Action::Close { session } => action@ == (Action::<Seq<char>>::Close { session }),
            Action::Hangup { session } => action@ == (Action::<Seq<char>>::Hangup { session }),
            Action::Await { session } => action@ == (Action::<Seq<char>>::Await { session }),
            Action::Sleep { millis } => action@ == (Action::<Seq<char>>::Sleep { millis }),
            Action::StartClock => action@ is StartClock,
            Action::ReportReady { spares } => action@ == (Action::<Seq<char>>::ReportReady {
                spares,
            }),
            Action::Finish => action@ is Finish,
            Action::Fail { failure } => action@ == (Action::<Seq<char>>::Fail { failure }),
        },
{
}

/// So do they of events: what was read is seen whole, and in order.
pub proof fn law_events_as_contracts_see_them(event: Event)
    ensures
        match event {
            Event::Done => event@ is Done,
            Event::Names(names) => {
                &&& event@ is Names
                &&& event@->Names_0.len() == names@.len()
                &&& forall|i: int|
                    0 <= i < names@.len() ==> #[trigger] event@->Names_0[i] == names@[i]@
            },
            Event::Candidates(candidates) => {
                &&& event@ is Candidates
                &&& event@->Candidates_0.len() == candidates@.len()
                &&& forall|i: int|
                    0 <= i < candidates@.len() ==> {
                        &&& (#[trigger] event@->Candidates_0[i]).oid == candidates@[i].oid
                        &&& event@->Candidates_0[i].name == candidates@[i].name@
                    }
            },
            Event::Flag(flag) => event@ == EventView::Flag(flag),
            Event::Found(found) => event@ == EventView::Found(found),
            Event::Count { value, waited } => event@ == (EventView::Count { value, waited }),
            Event::Pid(pid) => event@ == EventView::Pid(pid),
            Event::Failed => event@ is Failed,
        },
{
}

}
