//! The setup of the suite: it drops what an earlier setup left behind, creates
//! the template, and then either fills the pool of reusable databases or, in
//! the server's own test mode, seals the template and waits for its spares.
use tokio_postgres::Config;
use vstd::prelude::*;
use vstd::string::*;

use crate::config;
use crate::config::ConfigError;
use crate::history::Machine;
use crate::names;
use crate::names::TEMPLATE_DB;
use crate::protocol;
use crate::protocol::{Action, Event, EventView, Failure, Session};
use crate::sql::{Ident, Statement};
use crate::text;

verus! {

/// How long the server may take to get its spares ready: five minutes.
pub const WARM_POOL_NANOS: u128 = 300_000_000_000;

/// How far a setup has come: what it is about to do, or waits for.
#[derive(Clone, Copy, Debug, PartialEq, Eq, Structural)]
pub enum SetupStage {
    OpenAdmin,
    ListLeftovers,
    DropLeftover { at: usize },
    CreateTemplate,
    OpenTemplate,
    ApplySchema,
    CloseTemplate,
    SealTemplate,
    OpenWarmup,
    CloseWarmup,
    StartClock,
    CountSpares,
    /// There are too few spares: wait a moment.
    WarmNap,
    ReportReady { spares: i64 },
    /// Create the pooled database of a worker.
    Create { worker: usize },
    /// Let no connections to it in.
    Refuse { worker: usize },
    /// Mark it as free.
    MarkReady { worker: usize },
    CloseAdmin,
    Finished,
    Failed { failure: Failure },
}

/// A setup as contracts speak of it.
pub struct SetupView {
    /// Databases that the pool is to have.
    pub pool_size: usize,
    /// The server creates the tests' databases.
    pub ephemeral: bool,
    /// Spares that the server is to have ready then, where this is asked for.
    pub warm_target: Option<i64>,
    /// What an earlier setup and its tests left behind.
    pub leftovers: Seq<Seq<char>>,
    pub stage: SetupStage,
}

impl SetupView {
    /// A setup before its first action.
    pub open spec fn start(pool_size: usize, ephemeral: bool, warm_target: Option<i64>) -> SetupView {
        SetupView {
            pool_size,
            ephemeral,
            warm_target,
            leftovers: seq![],
            stage: SetupStage::OpenAdmin,
        }
    }

    pub open spec fn at_stage(self, stage: SetupStage) -> SetupView {
        SetupView { stage, ..self }
    }

    /// The leftover at `at` is next, or the template where there is none.
    pub open spec fn drop_from(self, at: int) -> SetupView {
        self.at_stage(
            if at < self.leftovers.len() {
                SetupStage::DropLeftover { at: at as usize }
            } else {
                SetupStage::CreateTemplate
            },
        )
    }

    /// The setup's fields fit its stage.
    pub open spec fn wf(self) -> bool {
        &&& self.pool_size > 0
        &&& self.leftovers.len() <= usize::MAX
        &&& match self.stage {
            SetupStage::DropLeftover { at } => at < self.leftovers.len(),
            SetupStage::SealTemplate => self.ephemeral,
            SetupStage::OpenWarmup | SetupStage::CloseWarmup | SetupStage::StartClock
            | SetupStage::CountSpares | SetupStage::WarmNap | SetupStage::ReportReady { .. } =>
                self.ephemeral && self.warm_target is Some,
            SetupStage::Create { worker } | SetupStage::Refuse { worker }
            | SetupStage::MarkReady { worker } => !self.ephemeral && worker < self.pool_size,
            _ => true,
        }
    }

    /// A statement over the admin session.
    pub open spec fn by_admin(statement: Statement<Seq<char>>) -> Action<Seq<char>> {
        Action::Run { session: Session::Admin, statement }
    }

    /// Why a setup fails whose action failed.
    pub open spec fn failure(self) -> Failure {
        match self.stage {
            SetupStage::SealTemplate => Failure::Sealing,
            SetupStage::Create { worker } => Failure::Creating(worker),
            _ => Failure::Step,
        }
    }

    /// The stage behind one that was done without an answer to decide on.
    pub open spec fn next_stage(self) -> SetupStage {
        match self.stage {
            SetupStage::OpenAdmin => SetupStage::ListLeftovers,
            SetupStage::CreateTemplate => SetupStage::OpenTemplate,
            SetupStage::OpenTemplate => SetupStage::ApplySchema,
            SetupStage::ApplySchema => SetupStage::CloseTemplate,
            SetupStage::CloseTemplate => if self.ephemeral {
                SetupStage::SealTemplate
            } else {
                SetupStage::Create { worker: 0 }
            },
            SetupStage::SealTemplate => if self.warm_target is Some {
                SetupStage::OpenWarmup
            } else {
                SetupStage::CloseAdmin
            },
            SetupStage::OpenWarmup => SetupStage::CloseWarmup,
            SetupStage::CloseWarmup => SetupStage::StartClock,
            SetupStage::StartClock | SetupStage::WarmNap => SetupStage::CountSpares,
            SetupStage::ReportReady { .. } => SetupStage::CloseAdmin,
            SetupStage::Create { worker } => SetupStage::Refuse { worker },
            SetupStage::Refuse { worker } => SetupStage::MarkReady { worker },
            SetupStage::MarkReady { worker } => if worker + 1 < self.pool_size {
                SetupStage::Create { worker: (worker + 1) as usize }
            } else {
                SetupStage::CloseAdmin
            },
            SetupStage::CloseAdmin => SetupStage::Finished,
            _ => self.stage,
        }
    }
}

impl Machine for SetupView {
    /// What the setup is to do next.
    open spec fn action(self) -> Action<Seq<char>> {
        match self.stage {
            SetupStage::OpenAdmin => Action::Connect { session: Session::Admin, database: None },
            SetupStage::ListLeftovers => Self::by_admin(Statement::ListLeftovers),
            SetupStage::DropLeftover { at } => Self::by_admin(
                Statement::DropLeftover { name: self.leftovers[at as int] },
            ),
            SetupStage::CreateTemplate => Self::by_admin(Statement::CreateTemplate),
            SetupStage::OpenTemplate => Action::Connect {
                session: Session::Template,
                database: Some(TEMPLATE_DB@),
            },
            SetupStage::ApplySchema => Action::Run {
                session: Session::Template,
                statement: Statement::ApplySchema,
            },
            SetupStage::CloseTemplate => Action::Close { session: Session::Template },
            SetupStage::SealTemplate => Self::by_admin(Statement::SealTemplate),
            SetupStage::OpenWarmup => Action::Connect {
                session: Session::Warmup,
                database: Some(names::warmup()),
            },
            SetupStage::CloseWarmup => Action::Close { session: Session::Warmup },
            SetupStage::StartClock => Action::StartClock,
            SetupStage::CountSpares => Self::by_admin(Statement::CountSpares),
            SetupStage::WarmNap => Action::Sleep { millis: 200 },
            SetupStage::ReportReady { spares } => Action::ReportReady { spares },
            SetupStage::Create { worker } => Self::by_admin(
                Statement::CloneTemplate { database: Ident::Bare(names::seed(worker as nat)) },
            ),
            SetupStage::Refuse { worker } => Self::by_admin(
                Statement::AllowConnections {
                    database: Ident::Bare(names::seed(worker as nat)),
                    allowed: false,
                },
            ),
            SetupStage::MarkReady { worker } => Self::by_admin(
                Statement::MarkReady { database: Ident::Bare(names::seed(worker as nat)) },
            ),
            SetupStage::CloseAdmin => Action::Close { session: Session::Admin },
            SetupStage::Finished => Action::Finish,
            SetupStage::Failed { failure } => Action::Fail { failure },
        }
    }

    /// The setup behind an event.
    open spec fn after(self, event: EventView) -> SetupView {
        match event {
            EventView::Failed => self.at_stage(SetupStage::Failed { failure: self.failure() }),
            EventView::Names(leftovers) => (SetupView { leftovers, ..self }).drop_from(0),
            // Enough spares are enough, however long they took.
            EventView::Count { value, waited } => self.at_stage(
                if value >= self.warm_target->0 {
                    SetupStage::ReportReady { spares: value }
                } else if waited > WARM_POOL_NANOS {
                    SetupStage::Failed {
                        failure: Failure::WarmPool { target: self.warm_target->0, spares: value },
                    }
                } else {
                    SetupStage::WarmNap
                },
            ),
            _ => if self.stage is DropLeftover {
                self.drop_from(self.stage->at + 1)
            } else {
                self.at_stage(self.next_stage())
            },
        }
    }

    proof fn lemma_failed(self) {
    }
}

/// The setup of the suite.
pub struct Setup {
    pool_size: usize,
    ephemeral: bool,
    warm_target: Option<i64>,
    leftovers: Vec<String>,
    stage: SetupStage,
}

impl View for Setup {
    type V = SetupView;

    closed spec fn view(&self) -> SetupView {
        SetupView {
            pool_size: self.pool_size,
            ephemeral: self.ephemeral,
            warm_target: self.warm_target,
            leftovers: protocol::names_view(self.leftovers),
            stage: self.stage,
        }
    }
}

impl Setup {
    /// The setup's fields fit its stage.
    pub open spec fn wf(&self) -> bool {
        self@.wf()
    }

    /// A setup before its first action, where the pool is to have any database.
    pub fn new(pool_size: usize, ephemeral: bool, warm_target: Option<i64>) -> (setup: Option<Setup>)
        ensures
            setup is None <==> pool_size == 0,
            setup is Some ==> setup->0.wf() && setup->0@ == SetupView::start(
                pool_size,
                ephemeral,
                warm_target,
            ),
    {
        if pool_size == 0 {
            return None;
        }
        let setup = Setup {
            pool_size,
            ephemeral,
            warm_target,
            leftovers: Vec::new(),
            stage: SetupStage::OpenAdmin,
        };
        assert(setup@.leftovers =~= seq![]);
        Some(setup)
    }

    /// What the setup is to do next.
    pub fn action(&self) -> (action: Action<String>)
        requires
            self.wf(),
        ensures
            action@ == self@.action(),
    {
        let statement = match self.stage {
            SetupStage::OpenAdmin => {
                return Action::Connect { session: Session::Admin, database: None };
            },
            SetupStage::ListLeftovers => Statement::ListLeftovers,
            SetupStage::DropLeftover { at } => Statement::DropLeftover {
                name: self.leftovers[at].clone(),
            },
            SetupStage::CreateTemplate => Statement::CreateTemplate,
            SetupStage::OpenTemplate => {
                return Action::Connect {
                    session: Session::Template,
                    database: Some(TEMPLATE_DB.to_owned()),
                };
            },
            SetupStage::ApplySchema => {
                return Action::Run {
                    session: Session::Template,
                    statement: Statement::ApplySchema,
                };
            },
            SetupStage::CloseTemplate => {
                return Action::Close { session: Session::Template };
            },
            SetupStage::SealTemplate => Statement::SealTemplate,
            SetupStage::OpenWarmup => {
                return Action::Connect {
                    session: Session::Warmup,
                    database: Some(names::warmup_name()),
                };
            },
            SetupStage::CloseWarmup => {
                return Action::Close { session: Session::Warmup };
            },
            SetupStage::StartClock => {
                return Action::StartClock;
            },
            SetupStage::CountSpares => Statement::CountSpares,
            SetupStage::WarmNap => {
                return Action::Sleep { millis: 200 };
            },
            SetupStage::ReportReady { spares } => {
                return Action::ReportReady { spares };
            },
            SetupStage::Create { worker } => Statement::CloneTemplate {
                database: Ident::Bare(names::seed_name(worker)),
            },
            SetupStage::Refuse { worker } => Statement::AllowConnections {
                database: Ident::Bare(names::seed_name(worker)),
                allowed: false,
            },
            SetupStage::MarkReady { worker } => Statement::MarkReady {
                database: Ident::Bare(names::seed_name(worker)),
            },
            SetupStage::CloseAdmin => {
                return Action::Close { session: Session::Admin };
            },
            SetupStage::Finished => {
                return Action::Finish;
            },
            SetupStage::Failed { failure } => {
                return Action::Fail { failure };
            },
        };
        Action::Run { session: Session::Admin, statement }
    }

    /// The leftover at `at` is next, or the template where there is none.
    fn drop_from(&mut self, at: usize)
        ensures
            final(self)@ == old(self)@.drop_from(at as int),
    {
        self.stage = if at < self.leftovers.len() {
            SetupStage::DropLeftover { at }
        } else {
            SetupStage::CreateTemplate
        };
    }

    /// Moves the setup on past the event that its action led to.
    pub fn advance(&mut self, event: Event)
        requires
            old(self).wf(),
            old(self)@.action().answered_by(event@),
        ensures
            final(self).wf(),
            final(self)@ == old(self)@.after(event@),
    {
        match event {
            Event::Failed => {
                self.stage = SetupStage::Failed { failure: self.failure() };
            },
            Event::Names(leftovers) => {
                self.leftovers = leftovers;
                assert(self.leftovers.len() <= usize::MAX);
                self.drop_from(0);
            },
            Event::Count { value, waited } => {
                if let Some(target) = self.warm_target {
                    self.stage = if value >= target {
                        SetupStage::ReportReady { spares: value }
                    } else if waited > WARM_POOL_NANOS {
                        SetupStage::Failed {
                            failure: Failure::WarmPool { target, spares: value },
                        }
                    } else {
                        SetupStage::WarmNap
                    };
                }
            },
            _ => match self.stage {
                SetupStage::DropLeftover { at } => {
                    self.drop_from(at + 1);
                },
                _ => {
                    self.stage = self.next_stage();
                },
            },
        }
    }

    /// Why a setup fails whose action failed.
    fn failure(&self) -> (failure: Failure)
        ensures
            failure == self@.failure(),
    {
        match self.stage {
            SetupStage::SealTemplate => Failure::Sealing,
            SetupStage::Create { worker } => Failure::Creating(worker),
            _ => Failure::Step,
        }
    }

    /// The stage behind one that was done without an answer to decide on.
    fn next_stage(&self) -> (stage: SetupStage)
        requires
            self.wf(),
        ensures
            stage == self@.next_stage(),
    {
        match self.stage {
            SetupStage::OpenAdmin => SetupStage::ListLeftovers,
            SetupStage::CreateTemplate => SetupStage::OpenTemplate,
            SetupStage::OpenTemplate => SetupStage::ApplySchema,
            SetupStage::ApplySchema => SetupStage::CloseTemplate,
            SetupStage::CloseTemplate => if self.ephemeral {
                SetupStage::SealTemplate
            } else {
                SetupStage::Create { worker: 0 }
            },
            SetupStage::SealTemplate => if self.warm_target.is_some() {
                SetupStage::OpenWarmup
            } else {
                SetupStage::CloseAdmin
            },
            SetupStage::OpenWarmup => SetupStage::CloseWarmup,
            SetupStage::CloseWarmup => SetupStage::StartClock,
            SetupStage::StartClock | SetupStage::WarmNap => SetupStage::CountSpares,
            SetupStage::ReportReady { .. } => SetupStage::CloseAdmin,
            SetupStage::Create { worker } => SetupStage::Refuse { worker },
            SetupStage::Refuse { worker } => SetupStage::MarkReady { worker },
            SetupStage::MarkReady { worker } => if worker + 1 < self.pool_size {
                SetupStage::Create { worker: worker + 1 }
            } else {
                SetupStage::CloseAdmin
            },
            SetupStage::CloseAdmin => SetupStage::Finished,
            _ => self.stage,
        }
    }
}

/// Why a setup cannot start.
#[derive(Debug)]
pub enum SetupError {
    /// The pool is to have no database.
    EmptyPool,
    Config { error: ConfigError },
}

impl SetupError {
    /// What the error says, in front of what caused it.
    pub open spec fn explained(self) -> Seq<char> {
        match self {
            SetupError::EmptyPool => "pool size must be positive"@,
            SetupError::Config { error } => error.explained(),
        }
    }

    /// What the error says, in front of what caused it.
    pub fn message(&self) -> (message: String)
        ensures
            message@ == self.explained(),
    {
        match self {
            SetupError::EmptyPool => "pool size must be positive".to_owned(),
            SetupError::Config { error } => error.message(),
        }
    }
}

/// The spares that a text asks for: none where it is not a number.
pub open spec fn warm_target_of(text: Option<Seq<char>>) -> Option<i64> {
    match text {
        None => None,
        Some(text) => match text::signed_number(text) {
            Some(n) if i64::MIN <= n <= i64::MAX => Some(n as i64),
            _ => None,
        },
    }
}

/// The databases that the pool is to have: what the argument says, where there
/// is one, else one for each processor, and one where their number is unknown.
/// Nothing where the argument is not a number.
pub open spec fn pool_size_of(argument: Option<Seq<char>>, processors: Option<usize>) -> Option<
    usize,
> {
    match argument {
        Some(text) => match text::unsigned_number(text) {
            Some(n) if n <= usize::MAX => Some(n as usize),
            _ => None,
        },
        None => match processors {
            Some(n) => Some(n),
            None => Some(1),
        },
    }
}

/// The view of a text, where there is one.
pub open spec fn optional_text(text: Option<&str>) -> Option<Seq<char>> {
    match text {
        Some(text) => Some(text@),
        None => None,
    }
}

/// The databases that the pool is to have, by the program's argument and the
/// number of processors.
pub fn pool_size(argument: Option<&str>, processors: Option<usize>) -> (size: Option<usize>)
    ensures
        size == pool_size_of(optional_text(argument), processors),
{
    match argument {
        Some(text) => text::parse_usize(text),
        None => match processors {
            Some(n) => Some(n),
            None => Some(1),
        },
    }
}

/// The setup of a suite on the server of `url`, before its first action, and
/// the settings of that server. `warm_pool` is the text that asks for spares.
/// The pool's size is looked at first.
pub fn setup(url: &str, pool_size: usize, ephemeral: bool, warm_pool: Option<&str>) -> (outcome:
    Result<(Config, Setup), SetupError>)
    ensures
        match outcome {
            Ok((config, setup)) => {
                &&& pool_size > 0
                &&& config::parsed_config(url@) == Ok::<Config, tokio_postgres::Error>(config)
                &&& setup.wf()
                &&& setup@ == SetupView::start(
                    pool_size,
                    ephemeral,
                    warm_target_of(optional_text(warm_pool)),
                )
            },
            Err(SetupError::EmptyPool) => pool_size == 0,
            Err(SetupError::Config { error }) => {
                &&& pool_size > 0
                &&& config::parsed_config(url@) is Err
                &&& error == (ConfigError::Invalid { cause: config::parsed_config(url@)->Err_0 })
            },
        },
{
    let warm_target = match warm_pool {
        Some(text) => text::parse_i64(text),
        None => None,
    };
    match Setup::new(pool_size, ephemeral, warm_target) {
        None => Err(SetupError::EmptyPool),
        Some(setup) => match config::database_config(Some(url)) {
            Ok(config) => Ok((config, setup)),
            Err(error) => Err(SetupError::Config { error }),
        },
    }
}

/// A text asks for as many spares as it says: it is the decimal form of a number
/// that fits, with any zeros in front of it, and a sign in front of these where it
/// has one. Any other text asks for none, and so does no text.
pub proof fn law_warm_target_is_what_text_says(s: Seq<char>, n: i64)
    ensures
        warm_target_of(None) is None,
        warm_target_of(Some(text::signed_decimal(n as int))) == Some(n),
        n >= 0 ==> (warm_target_of(Some(s)) == Some(n) <==> exists|front: Seq<char>|
            {
                &&& s == #[trigger] (front + text::decimal(n as nat))
                &&& front.len() > 0 ==> front[0] == '+' || front[0] == '0' || n == 0 && front[0]
                    == '-'
                &&& forall|i: int| 0 < i < front.len() ==> #[trigger] front[i] == '0'
            }),
        n < 0 ==> (warm_target_of(Some(s)) == Some(n) <==> exists|front: Seq<char>|
            {
                &&& s == #[trigger] (front + text::decimal((-n) as nat))
                &&& front.len() > 0 && front[0] == '-'
                &&& forall|i: int| 0 < i < front.len() ==> #[trigger] front[i] == '0'
            }),
{
    text::law_signed_reads_back(n as int);
    if n >= 0 {
        text::law_signed_numbers(s, n as nat);
    } else {
        text::law_signed_numbers(s, (-n) as nat);
    }
}

/// The pool is as large as the argument says: it is the decimal form of a number
/// that fits, with any zeros in front of it, and a plus sign or none in front of
/// these. Any other argument is refused. Without an argument there is one database
/// for each processor, and one where their number is unknown.
pub proof fn law_pool_size_is_what_argument_says(
    s: Seq<char>,
    n: usize,
    processors: Option<usize>,
)
    ensures
        pool_size_of(Some(text::decimal(n as nat)), processors) == Some(n),
        pool_size_of(Some(s), processors) == Some(n) <==> exists|front: Seq<char>|
            {
                &&& s == #[trigger] (front + text::decimal(n as nat))
                &&& front.len() > 0 ==> front[0] == '+' || front[0] == '0'
                &&& forall|i: int| 0 < i < front.len() ==> #[trigger] front[i] == '0'
            },
        pool_size_of(None, Some(n)) == Some(n),
        pool_size_of(None, None) == Some(1usize),
{
    text::law_decimal_reads_back(n as nat);
    text::law_unsigned_numbers(s, n as nat);
}

/// Contracts speak of an optional text by its characters.
pub proof fn law_texts_as_contracts_see_them(text: &str)
    ensures
        optional_text(Some(text)) == Some(text@),
        optional_text(None) is None,
{
}

/// What the errors say.
pub proof fn law_setup_errors_say(error: ConfigError)
    ensures
        SetupError::EmptyPool.explained() == "pool size must be positive"@,
        (SetupError::Config { error }).explained() == error.explained(),
{
}

}
