//! What setups and tests make of a server's databases: their names, whether they
//! let connections in, and their comments.
use vstd::prelude::*;

use crate::history;
use crate::history::Machine;
use crate::names;
use crate::names::TEMPLATE_DB;
use crate::protocol::{Action, Candidate, EventView, Failure, Session};
use crate::run::{RunView, TestPath};
use crate::run_laws;
use crate::run_laws::{Loss, Round, Told};
use crate::setup::{SetupStage, SetupView};
use crate::setup_laws;
use crate::sql::{Ident, Statement, READY_COMMENT};
use crate::text;
use crate::workload;

verus! {

/// A database of a server.
pub struct Entry {
    /// It lets connections in.
    pub admits: bool,
    pub comment: Option<Seq<char>>,
}

impl Entry {
    /// A database as the server creates it.
    pub open spec fn created() -> Entry {
        Entry { admits: true, comment: None }
    }

    /// A database of the pool that is free.
    pub open spec fn pooled() -> Entry {
        Entry { admits: false, comment: Some(READY_COMMENT@) }
    }
}

impl Ident<Seq<char>> {
    /// The database that an identifier stands for.
    pub open spec fn database(self) -> Seq<char> {
        match self {
            Ident::Bare(name) => name,
            Ident::Quoted(name) => name,
        }
    }
}

/// The databases of a server, by name.
#[verifier::ext_equal]
pub struct Catalogue {
    pub databases: Map<Seq<char>, Entry>,
}

/// The name is one that an earlier setup or its tests gave.
pub open spec fn is_leftover(name: Seq<char>) -> bool {
    name == TEMPLATE_DB@ || text::starts_with(name, names::pool_prefix()) || text::starts_with(
        name,
        names::isolated_prefix(),
    )
}

/// The name is one under which setup creates one of so many pooled databases.
pub open spec fn is_seed(name: Seq<char>, workers: nat) -> bool {
    exists|worker: nat| worker < workers && name == #[trigger] names::seed(worker)
}

impl Catalogue {
    /// The databases behind a statement; none where the server refuses it. Sealing
    /// the template is taken to keep its name, flag and comment, and databases
    /// that the server creates by itself are not counted.
    pub open spec fn after_statement(self, statement: Statement<Seq<char>>) -> Option<Catalogue> {
        match statement {
            Statement::DropLeftover { name } => Some(
                Catalogue { databases: self.databases.remove(name) },
            ),
            Statement::CreateTemplate => self.with(TEMPLATE_DB@, Entry::created()),
            Statement::CloneTemplate { database } => if self.databases.contains_key(TEMPLATE_DB@) {
                self.with(database.database(), Entry::created())
            } else {
                None
            },
            Statement::AllowConnections { database, allowed } => {
                let name = database.database();
                self.changed(name, Entry { admits: allowed, ..self.databases[name] })
            },
            Statement::MarkReady { database } => {
                let name = database.database();
                self.changed(
                    name,
                    Entry { comment: Some(READY_COMMENT@), ..self.databases[name] },
                )
            },
            Statement::ClearMark { name } => self.changed(
                name,
                Entry { comment: None, ..self.databases[name] },
            ),
            Statement::Rename { from, to } => if self.databases.contains_key(from)
                && !self.databases.contains_key(to) {
                Some(
                    Catalogue {
                        databases: self.databases.remove(from).insert(to, self.databases[from]),
                    },
                )
            } else {
                None
            },
            Statement::Drop { name } => if self.databases.contains_key(name) {
                Some(Catalogue { databases: self.databases.remove(name) })
            } else {
                None
            },
            _ => Some(self),
        }
    }

    /// The databases and a new one; none where its name is taken.
    pub open spec fn with(self, name: Seq<char>, entry: Entry) -> Option<Catalogue> {
        if self.databases.contains_key(name) {
            None
        } else {
            Some(Catalogue { databases: self.databases.insert(name, entry) })
        }
    }

    /// The databases with one of them changed; none where it does not exist.
    pub open spec fn changed(self, name: Seq<char>, entry: Entry) -> Option<Catalogue> {
        if self.databases.contains_key(name) {
            Some(Catalogue { databases: self.databases.insert(name, entry) })
        } else {
            None
        }
    }

    /// The databases behind an action of a run.
    pub open spec fn after_action(self, action: Action<Seq<char>>) -> Option<Catalogue> {
        match action {
            Action::Run { statement, .. } => self.after_statement(statement),
            _ => Some(self),
        }
    }

    /// The databases behind a number of actions.
    pub open spec fn after_actions(self, actions: Seq<Action<Seq<char>>>) -> Option<Catalogue>
        decreases actions.len(),
    {
        if actions.len() == 0 {
            Some(self)
        } else {
            match self.after_actions(actions.drop_last()) {
                Some(catalogue) => catalogue.after_action(actions.last()),
                None => None,
            }
        }
    }

    /// The names are those that a setup asks for.
    pub open spec fn lists(self, leftovers: Seq<Seq<char>>) -> bool {
        forall|name: Seq<char>| #[trigger]
            leftovers.contains(name) <==> self.databases.contains_key(name) && is_leftover(name)
    }

    /// The databases that no setup touches.
    pub open spec fn others(self) -> Map<Seq<char>, Entry> {
        Map::new(
            |name: Seq<char>| self.databases.contains_key(name) && !is_leftover(name),
            |name: Seq<char>| self.databases[name],
        )
    }

    /// The databases that a setup leaves: those that it does not touch, the
    /// template, and a pool of so many free databases.
    pub open spec fn prepared(self, workers: nat) -> Catalogue {
        Catalogue {
            databases: Map::new(
                |name: Seq<char>|
                    self.others().contains_key(name) || name == TEMPLATE_DB@ || is_seed(
                        name,
                        workers,
                    ),
                |name: Seq<char>|
                    if name == TEMPLATE_DB@ {
                        Entry::created()
                    } else if is_seed(name, workers) {
                        Entry::pooled()
                    } else {
                        self.others()[name]
                    },
            ),
        }
    }

    /// The databases but for those of the given names.
    pub open spec fn without(self, names: Seq<Seq<char>>) -> Catalogue {
        Catalogue {
            databases: Map::new(
                |name: Seq<char>| self.databases.contains_key(name) && !names.contains(name),
                |name: Seq<char>| self.databases[name],
            ),
        }
    }

    /// The databases of a setup that is busy with a worker: those of the workers
    /// before it are done, and its own is there.
    pub open spec fn busy(self, worker: nat, entry: Entry) -> Catalogue {
        Catalogue {
            databases: self.prepared(worker).databases.insert(names::seed(worker), entry),
        }
    }

    /// The databases as a setup has made them of these by the time it is at its
    /// stage.
    pub open spec fn during(self, setup: SetupView) -> Catalogue {
        match setup.stage {
            SetupStage::OpenAdmin | SetupStage::ListLeftovers => self,
            SetupStage::DropLeftover { at } => self.without(setup.leftovers.take(at as int)),
            SetupStage::CreateTemplate => Catalogue { databases: self.others() },
            SetupStage::Create { worker } => self.prepared(worker as nat),
            SetupStage::Refuse { worker } => self.busy(worker as nat, Entry::created()),
            SetupStage::MarkReady { worker } => self.busy(
                worker as nat,
                Entry { admits: false, comment: None },
            ),
            SetupStage::CloseAdmin | SetupStage::Finished => self.prepared(workers_of(setup)),
            _ => self.prepared(0),
        }
    }

    /// A setup on this server: it is told the names that it asks for.
    pub open spec fn hears_of(self, start: SetupView, events: Seq<EventView>) -> bool {
        &&& start.pool_size > 0
        &&& start == SetupView::start(start.pool_size, start.ephemeral, start.warm_target)
        &&& history::answered(start, events)
        &&& setup_laws::lists_fit(events)
        &&& forall|i: int|
            0 <= i < events.len() && #[trigger] events[i] is Names ==> self.lists(
                events[i]->Names_0,
            )
    }

    /// A setup on this server that succeeded.
    pub open spec fn was_set_up(self, start: SetupView, events: Seq<EventView>) -> bool {
        self.hears_of(start, events) && history::after_all(start, events).action() is Finish
    }

    /// The databases behind what a setup did.
    pub open spec fn after_setup(self, start: SetupView, events: Seq<EventView>) -> Option<
        Catalogue,
    > {
        self.after_actions(history::actions(start, events))
    }
}

/// The pooled databases that a setup is to create: none where the server creates
/// the tests' databases.
pub open spec fn workers_of(setup: SetupView) -> nat {
    if setup.ephemeral {
        0
    } else {
        setup.pool_size as nat
    }
}

proof fn lemma_concat(
    catalogue: Catalogue,
    first: Seq<Action<Seq<char>>>,
    second: Seq<Action<Seq<char>>>,
)
    ensures
        catalogue.after_actions(first + second) == (match catalogue.after_actions(first) {
            Some(between) => between.after_actions(second),
            None => None,
        }),
    decreases second.len(),
{
    if second.len() == 0 {
        assert(first + second =~= first);
    } else {
        lemma_concat(catalogue, first, second.drop_last());
        assert((first + second).drop_last() =~= first + second.drop_last());
    }
}

proof fn lemma_dropped(catalogue: Catalogue, leftovers: Seq<Seq<char>>, at: int)
    requires
        0 <= at < leftovers.len(),
    ensures
        catalogue.without(leftovers.take(at)).databases.remove(leftovers[at]) == catalogue.without(
            leftovers.take(at + 1),
        ).databases,
{
    let before = leftovers.take(at);
    let after = leftovers.take(at + 1);
    assert forall|name: Seq<char>|
        after.contains(name) <==> before.contains(name) || name == leftovers[at] by {
        if after.contains(name) {
            let i = choose|i: int| 0 <= i < after.len() && after[i] == name;
            if i < at {
                assert(before[i] == name);
            }
        }
        if before.contains(name) {
            let i = choose|i: int| 0 <= i < before.len() && before[i] == name;
            assert(after[i] == name);
        }
        assert(after[at] == leftovers[at]);
    }
    assert(catalogue.without(before).databases.remove(leftovers[at]) =~= catalogue.without(
        after,
    ).databases);
}

proof fn lemma_listed(catalogue: Catalogue, leftovers: Seq<Seq<char>>)
    requires
        catalogue.lists(leftovers),
    ensures
        catalogue.without(leftovers.take(0)) == catalogue,
        catalogue.without(leftovers.take(leftovers.len() as int)).databases == catalogue.others(),
{
    assert(leftovers.take(leftovers.len() as int) =~= leftovers);
    assert(catalogue.without(leftovers.take(0)).databases =~= catalogue.databases);
    assert(catalogue.without(leftovers).databases =~= catalogue.others());
}

proof fn lemma_template(catalogue: Catalogue)
    ensures
        !catalogue.others().contains_key(TEMPLATE_DB@),
        catalogue.others().insert(TEMPLATE_DB@, Entry::created()) == catalogue.prepared(
            0,
        ).databases,
{
    assert(catalogue.others().insert(TEMPLATE_DB@, Entry::created()) =~= catalogue.prepared(
        0,
    ).databases);
}

proof fn lemma_worker(catalogue: Catalogue, worker: nat)
    ensures
        catalogue.prepared(worker).databases.contains_key(TEMPLATE_DB@),
        !catalogue.prepared(worker).databases.contains_key(names::seed(worker)),
        catalogue.busy(worker, Entry::pooled()) == catalogue.prepared(worker + 1),
{
    let name = names::seed(worker);
    let before = catalogue.prepared(worker);
    names::law_prefixes_sort_names(worker, 0, 0);
    if is_seed(name, worker) {
        let other = choose|other: nat| other < worker && name == names::seed(other);
        names::law_seed_names_distinct(worker, other);
    }
    assert forall|other: Seq<char>|
        is_seed(other, worker + 1) <==> is_seed(other, worker) || other == name by {
        if is_seed(other, worker + 1) {
            let w = choose|w: nat| w < worker + 1 && other == names::seed(w);
            if w < worker {
                assert(is_seed(other, worker));
            }
        }
        if is_seed(other, worker) {
            let w = choose|w: nat| w < worker && other == names::seed(w);
            assert(w < worker + 1 && other == names::seed(w));
        }
    }
    assert(before.databases.insert(name, Entry::pooled()) =~= catalogue.prepared(
        worker + 1,
    ).databases);
}

proof fn lemma_busy(catalogue: Catalogue, worker: nat, entry: Entry, next: Entry)
    ensures
        catalogue.busy(worker, entry).databases.contains_key(names::seed(worker)),
        catalogue.busy(worker, entry).databases[names::seed(worker)] == entry,
        catalogue.busy(worker, entry).databases.insert(names::seed(worker), next)
            == catalogue.busy(worker, next).databases,
{
    assert(catalogue.busy(worker, entry).databases.insert(names::seed(worker), next)
        =~= catalogue.busy(worker, next).databases);
}

/// The setup has been told of the leftovers.
spec fn knows_leftovers(setup: SetupView) -> bool {
    !(setup.stage is OpenAdmin || setup.stage is ListLeftovers)
}

proof fn lemma_setup_step(catalogue: Catalogue, setup: SetupView, event: EventView)
    requires
        setup.wf(),
        setup.action().answered_by(event),
        setup.after(event).stage !is Failed,
        knows_leftovers(setup) ==> catalogue.lists(setup.leftovers),
        event is Names ==> catalogue.lists(event->Names_0),
    ensures
        knows_leftovers(setup.after(event)) ==> catalogue.lists(setup.after(event).leftovers),
        catalogue.during(setup).after_action(setup.action()) == Some(
            catalogue.during(setup.after(event)),
        ),
{
    match setup.stage {
        SetupStage::ListLeftovers => {
            lemma_listed(catalogue, event->Names_0);
        },
        SetupStage::DropLeftover { at } => {
            lemma_listed(catalogue, setup.leftovers);
            lemma_dropped(catalogue, setup.leftovers, at as int);
        },
        SetupStage::CreateTemplate => {
            lemma_template(catalogue);
        },
        SetupStage::Create { worker } => {
            lemma_worker(catalogue, worker as nat);
        },
        SetupStage::Refuse { worker } => {
            lemma_busy(
                catalogue,
                worker as nat,
                Entry::created(),
                Entry { admits: false, comment: None },
            );
        },
        SetupStage::MarkReady { worker } => {
            lemma_busy(
                catalogue,
                worker as nat,
                Entry { admits: false, comment: None },
                Entry::pooled(),
            );
            lemma_worker(catalogue, worker as nat);
        },
        _ => {},
    }
}

proof fn lemma_setup(catalogue: Catalogue, start: SetupView, events: Seq<EventView>)
    requires
        catalogue.hears_of(start, events),
        history::after_all(start, events).stage !is Failed,
    ensures
        ({
            let setup = history::after_all(start, events);
            &&& knows_leftovers(setup) ==> catalogue.lists(setup.leftovers)
            &&& catalogue.after_setup(start, events) == Some(catalogue.during(setup))
        }),
    decreases events.len(),
{
    if events.len() > 0 {
        let earlier = events.drop_last();
        lemma_hears_earlier(catalogue, start, events);
        let before = history::after_all(start, earlier);
        setup_laws::law_setup_stays_well_formed(start, earlier);
        if before.stage is Failed {
            setup_laws::law_setup_ends(before, events.last());
        }
        lemma_setup(catalogue, start, earlier);
        assert(events[events.len() - 1] == events.last());
        lemma_setup_step(catalogue, before, events.last());
        assert(history::actions(start, events).drop_last() =~= history::actions(start, earlier));
    }
}

proof fn lemma_hears_earlier(catalogue: Catalogue, start: SetupView, events: Seq<EventView>)
    requires
        catalogue.hears_of(start, events),
        events.len() > 0,
    ensures
        catalogue.hears_of(start, events.drop_last()),
{
    let earlier = events.drop_last();
    assert forall|i: int| 0 <= i < earlier.len() && #[trigger] earlier[i] is Names implies
        catalogue.lists(earlier[i]->Names_0) && earlier[i]->Names_0.len() <= usize::MAX by {
        assert(events[i] is Names);
    }
}

/// Whatever a setup has come to without a failure, the databases are those that
/// `Catalogue::during` tells, the server has refused none of its statements, and
/// the databases that are not the suite's are as they were.
pub proof fn law_setup_at_each_stage(
    catalogue: Catalogue,
    start: SetupView,
    events: Seq<EventView>,
)
    requires
        catalogue.hears_of(start, events),
        history::after_all(start, events).stage !is Failed,
    ensures
        catalogue.after_setup(start, events) == Some(
            catalogue.during(history::after_all(start, events)),
        ),
        catalogue.during(history::after_all(start, events)).others() == catalogue.others(),
{
    let setup = history::after_all(start, events);
    lemma_setup(catalogue, start, events);
    assert forall|workers: nat| #[trigger] catalogue.prepared(workers).others()
        == catalogue.others() by {
        law_setup_keeps_others(catalogue, workers);
    }
    assert forall|worker: nat| is_leftover(#[trigger] names::seed(worker)) by {
        names::law_prefixes_sort_names(worker, 0, 0);
    }
    match setup.stage {
        SetupStage::DropLeftover { at } => {
            let gone = setup.leftovers.take(at as int);
            assert forall|name: Seq<char>| gone.contains(name) implies is_leftover(name) by {
                let i = choose|i: int| 0 <= i < gone.len() && gone[i] == name;
                assert(setup.leftovers[i] == name);
                assert(setup.leftovers.contains(name));
            }
            assert(catalogue.during(setup).others() =~= catalogue.others());
        },
        SetupStage::CreateTemplate => {
            assert(catalogue.during(setup).others() =~= catalogue.others());
        },
        SetupStage::Refuse { worker } => {
            assert(catalogue.during(setup).others() =~= catalogue.prepared(
                worker as nat,
            ).others());
        },
        SetupStage::MarkReady { worker } => {
            assert(catalogue.during(setup).others() =~= catalogue.prepared(
                worker as nat,
            ).others());
        },
        _ => {},
    }
}

/// A setup that succeeds leaves exactly the databases that it does not touch, the
/// template, and a free and closed database for each worker, whatever was there
/// before.
pub proof fn law_setup_prepares_server(
    catalogue: Catalogue,
    start: SetupView,
    events: Seq<EventView>,
)
    requires
        catalogue.was_set_up(start, events),
    ensures
        catalogue.after_setup(start, events) == Some(catalogue.prepared(workers_of(start))),
{
    setup_laws::law_setup_stays_well_formed(start, events);
    lemma_setup(catalogue, start, events);
}

/// A setup of an ephemeral suite that succeeds, whether it waits for spares or
/// not, leaves no pooled database: only the template, and the databases that it
/// does not touch.
pub proof fn law_ephemeral_setup_leaves_no_pool(
    catalogue: Catalogue,
    start: SetupView,
    events: Seq<EventView>,
    name: Seq<char>,
)
    requires
        start.ephemeral,
        catalogue.was_set_up(start, events),
    ensures
        catalogue.after_setup(start, events) == Some(catalogue.prepared(0)),
        catalogue.prepared(0).databases.contains_key(name) && is_leftover(name) ==> name
            == TEMPLATE_DB@,
        catalogue.prepared(0).others() == catalogue.others(),
{
    law_setup_prepares_server(catalogue, start, events);
    law_setup_keeps_others(catalogue, 0);
}

/// A setup that is cut short at the creation of a worker's database leaves the
/// databases that a setup for the workers before it would leave. What failed did
/// nothing, so it does not count.
pub proof fn law_setup_cut_short(
    catalogue: Catalogue,
    start: SetupView,
    events: Seq<EventView>,
    worker: usize,
)
    requires
        catalogue.hears_of(start, events),
        history::after_all(start, events).action() == (Action::<Seq<char>>::Fail {
            failure: Failure::Creating(worker),
        }),
    ensures
        !start.ephemeral,
        worker < start.pool_size,
        events.len() > 0,
        events.last() == EventView::Failed,
        history::actions(start, events).last() == SetupView::by_admin(
            Statement::CloneTemplate { database: Ident::Bare(names::seed(worker as nat)) },
        ),
        catalogue.after_actions(history::actions(start, events).drop_last()) == Some(
            catalogue.prepared(worker as nat),
        ),
{
    let earlier = events.drop_last();
    let before = history::after_all(start, earlier);
    lemma_hears_earlier(catalogue, start, events);
    setup_laws::law_setup_stays_well_formed(start, earlier);
    if before.stage is Failed {
        setup_laws::law_setup_ends(before, events.last());
    }
    assert(before.stage == (SetupStage::Create { worker }));
    lemma_setup(catalogue, start, earlier);
    assert(history::actions(start, events).drop_last() =~= history::actions(start, earlier));
}

/// The pool that a setup leaves has a database for each worker and no other, and
/// each of them is free and closed.
pub proof fn law_prepared_pool(catalogue: Catalogue, workers: nat, name: Seq<char>)
    requires
        text::starts_with(name, names::pool_prefix()) || text::starts_with(
            name,
            names::isolated_prefix(),
        ),
    ensures
        catalogue.prepared(workers).databases.contains_key(name) <==> exists|worker: nat|
            worker < workers && name == #[trigger] names::seed(worker),
        catalogue.prepared(workers).databases.contains_key(name)
            ==> catalogue.prepared(workers).databases[name] == Entry::pooled(),
{
    names::law_prefixes_sort_names(0, 0, 0);
}

/// A second setup leaves the names, flags and comments of all databases as if it
/// were the only one: those that every setup of its mode and pool size leaves on
/// the server as it was before the first. Nothing of the first one's pool is left.
/// A second setup for as many workers changes nothing.
pub proof fn law_second_setup_is_as_the_only_one(
    catalogue: Catalogue,
    first_start: SetupView,
    first: Seq<EventView>,
    second_start: SetupView,
    second: Seq<EventView>,
    only: Seq<EventView>,
)
    requires
        catalogue.was_set_up(first_start, first),
        catalogue.prepared(workers_of(first_start)).was_set_up(second_start, second),
        catalogue.was_set_up(second_start, only),
    ensures
        catalogue.after_setup(first_start, first) == Some(
            catalogue.prepared(workers_of(first_start)),
        ),
        catalogue.prepared(workers_of(first_start)).after_setup(second_start, second)
            == catalogue.after_setup(second_start, only),
        workers_of(first_start) == workers_of(second_start) ==> catalogue.prepared(
            workers_of(first_start),
        ).after_setup(second_start, second) == Some(catalogue.prepared(workers_of(first_start))),
{
    law_setup_prepares_server(catalogue, first_start, first);
    let between = catalogue.prepared(workers_of(first_start));
    law_setup_prepares_server(between, second_start, second);
    law_setup_prepares_server(catalogue, second_start, only);
    law_setup_keeps_others(catalogue, workers_of(first_start));
    law_setup_forgets(between, catalogue, workers_of(second_start));
}

/// A setup leaves the databases that it does not touch as they were.
pub proof fn law_setup_keeps_others(catalogue: Catalogue, workers: nat)
    ensures
        catalogue.prepared(workers).others() == catalogue.others(),
{
    assert forall|name: Seq<char>| is_seed(name, workers) implies is_leftover(name) by {
        let worker = choose|worker: nat| worker < workers && name == names::seed(worker);
        names::law_prefixes_sort_names(worker, 0, 0);
    }
    assert(catalogue.prepared(workers).others() =~= catalogue.others());
}

/// What a setup leaves depends on the databases that it does not touch alone:
/// pooled, leased and isolated databases and the template, in whatever state
/// earlier setups and their tests left them, make no difference.
pub proof fn law_setup_forgets(one: Catalogue, other: Catalogue, workers: nat)
    requires
        one.others() == other.others(),
    ensures
        one.prepared(workers) == other.prepared(workers),
{
    assert(one.prepared(workers).databases =~= other.prepared(workers).databases);
}

/// The action leaves names, flags and comments as they are.
pub open spec fn keeps_catalogue(action: Action<Seq<char>>) -> bool {
    match action {
        Action::Run { statement, .. } => match statement {
            Statement::DropLeftover { .. } | Statement::CreateTemplate | Statement::CloneTemplate {
                ..
            } | Statement::AllowConnections { .. } | Statement::MarkReady { .. }
            | Statement::ClearMark { .. } | Statement::Rename { .. } | Statement::Drop { .. } =>
                false,
            _ => true,
        },
        _ => true,
    }
}

/// All of these actions do.
pub open spec fn all_keep(actions: Seq<Action<Seq<char>>>) -> bool {
    forall|i: int| 0 <= i < actions.len() ==> keeps_catalogue(#[trigger] actions[i])
}

proof fn lemma_kept(catalogue: Catalogue, actions: Seq<Action<Seq<char>>>)
    requires
        all_keep(actions),
    ensures
        catalogue.after_actions(actions) == Some(catalogue),
    decreases actions.len(),
{
    if actions.len() > 0 {
        let earlier = actions.drop_last();
        assert(all_keep(earlier)) by {
            assert forall|i: int| 0 <= i < earlier.len() implies keeps_catalogue(
                #[trigger] earlier[i],
            ) by {
                assert(earlier[i] == actions[i]);
            }
        }
        lemma_kept(catalogue, earlier);
        assert(keeps_catalogue(actions[actions.len() - 1]));
    }
}

proof fn lemma_keep_concat(first: Seq<Action<Seq<char>>>, second: Seq<Action<Seq<char>>>)
    requires
        all_keep(first),
        all_keep(second),
    ensures
        all_keep(first + second),
{
    let all = first + second;
    assert forall|i: int| 0 <= i < all.len() implies keeps_catalogue(#[trigger] all[i]) by {
        if i < first.len() {
            assert(all[i] == first[i]);
        } else {
            assert(all[i] == second[i - first.len()]);
        }
    }
}

proof fn lemma_use_keeps(run: RunView)
    ensures
        all_keep(run_laws::use_actions(run)),
{
    let actions = run_laws::use_actions(run);
    let statements = workload::workload(names::row(run.pid, run.index));
    assert forall|i: int| 0 <= i < actions.len() implies keeps_catalogue(#[trigger] actions[i]) by {
        let n = workload::CONNECTIONS_PER_TEST as int;
        if i >= n {
            assert(actions[i]->statement == statements[i - n]);
        }
    }
}

proof fn lemma_losses_keep(candidates: Seq<Candidate<Seq<char>>>, losses: Seq<Loss>)
    ensures
        all_keep(run_laws::losses_actions(candidates, losses)),
    decreases losses.len(),
{
    if losses.len() > 0 {
        lemma_losses_keep(candidates, losses.drop_last());
        lemma_keep_concat(
            run_laws::losses_actions(candidates, losses.drop_last()),
            run_laws::loss_actions(candidates[losses.len() - 1], losses.last()),
        );
    }
}

proof fn lemma_rounds_keep(rounds: Seq<Round>)
    ensures
        all_keep(run_laws::rounds_actions(rounds)),
    decreases rounds.len(),
{
    if rounds.len() > 0 {
        let last = rounds.last();
        let list = seq![RunView::by_admin(Statement::ListReady)];
        let losses = run_laws::losses_actions(last.candidates, last.losses);
        lemma_rounds_keep(rounds.drop_last());
        lemma_losses_keep(last.candidates, last.losses);
        lemma_keep_concat(list, losses);
        lemma_keep_concat(list + losses, seq![Action::Sleep { millis: 1 }]);
        lemma_keep_concat(run_laws::rounds_actions(rounds.drop_last()), last.actions());
    }
}

proof fn lemma_polls_keep(oid: i64, keep: i32, polls: nat)
    ensures
        all_keep(run_laws::polls_actions(oid, keep, polls)),
    decreases polls,
{
    if polls > 0 {
        lemma_polls_keep(oid, keep, (polls - 1) as nat);
        lemma_keep_concat(
            run_laws::polls_actions(oid, keep, (polls - 1) as nat),
            seq![
                RunView::by_admin(Statement::Remaining { oid, keep }),
                Action::Sleep { millis: 1 },
            ],
        );
    }
}

/// An isolated run that succeeds leaves no trace: the databases are those that
/// were there before it, with their flags and comments.
pub proof fn law_isolated_run_leaves_no_trace(
    catalogue: Catalogue,
    pid: u32,
    index: usize,
    events: Seq<EventView>,
)
    requires
        catalogue.databases.contains_key(TEMPLATE_DB@),
        !catalogue.databases.contains_key(names::isolated(pid as nat, index as nat)),
        history::succeeds(RunView::start(TestPath::Isolated, pid, index), events),
    ensures
        catalogue.after_actions(
            history::actions(RunView::start(TestPath::Isolated, pid, index), events),
        ) == Some(catalogue),
{
    let start = RunView::start(TestPath::Isolated, pid, index);
    let name = start.database();
    let create = run_laws::create_actions(start);
    let using = run_laws::use_actions(start);
    let close = run_laws::close_actions(start);
    run_laws::law_every_isolated_run(pid, index, events);
    let with = Catalogue { databases: catalogue.databases.insert(name, Entry::created()) };
    assert(catalogue.after_actions(create) == Some(with)) by {
        reveal_with_fuel(Catalogue::after_actions, 3);
    }
    lemma_use_keeps(start);
    lemma_kept(with, using);
    assert(with.databases.remove(name) =~= catalogue.databases);
    assert(with.after_actions(close) == Some(catalogue)) by {
        reveal_with_fuel(Catalogue::after_actions, 5);
    }
    lemma_concat(catalogue, create, using);
    lemma_concat(catalogue, create + using, close);
}

proof fn lemma_leased(catalogue: Catalogue, run: RunView, candidate: Candidate<Seq<char>>)
    requires
        catalogue.databases.contains_key(candidate.name),
        catalogue.databases[candidate.name] == Entry::pooled(),
        !catalogue.databases.contains_key(run.database()),
    ensures
        catalogue.after_actions(run_laws::lease_actions(run, candidate)) == Some(
            Catalogue {
                databases: catalogue.databases.remove(candidate.name).insert(
                    run.database(),
                    Entry::created(),
                ),
            },
        ),
{
    reveal_with_fuel(Catalogue::after_actions, 6);
    let marked = Catalogue {
        databases: catalogue.databases.insert(
            candidate.name,
            Entry { admits: false, comment: None },
        ),
    };
    let renamed = Catalogue {
        databases: marked.databases.remove(candidate.name).insert(
            run.database(),
            Entry { admits: false, comment: None },
        ),
    };
    assert(renamed.databases.insert(run.database(), Entry::created())
        =~= catalogue.databases.remove(candidate.name).insert(run.database(), Entry::created()));
}

proof fn lemma_shut(catalogue: Catalogue, run: RunView, keep: i32)
    requires
        catalogue.databases.contains_key(run.database()),
        catalogue.databases[run.database()] == Entry::created(),
    ensures
        catalogue.after_actions(run_laws::shut_actions(run, keep)) == Some(
            Catalogue {
                databases: catalogue.databases.insert(
                    run.database(),
                    Entry { admits: false, comment: None },
                ),
            },
        ),
{
    reveal_with_fuel(Catalogue::after_actions, 5);
}

proof fn lemma_freed(catalogue: Catalogue, run: RunView, keep: i32)
    requires
        catalogue.databases.contains_key(run.database()),
        catalogue.databases[run.database()] == (Entry { admits: false, comment: None }),
    ensures
        catalogue.after_actions(run_laws::free_actions(run, keep)) == Some(
            Catalogue { databases: catalogue.databases.insert(run.database(), Entry::pooled()) },
        ),
{
    let actions = run_laws::free_actions(run, keep);
    let freed = Catalogue {
        databases: catalogue.databases.insert(run.database(), Entry::pooled()),
    };
    let first = actions.take(7);
    let mark = seq![actions[7]];
    let last = seq![actions[8]];
    lemma_kept(catalogue, first);
    lemma_kept(freed, last);
    assert(catalogue.after_actions(mark) == Some(freed)) by {
        reveal_with_fuel(Catalogue::after_actions, 2);
    }
    lemma_concat(catalogue, first, mark);
    lemma_concat(catalogue, first + mark, last);
    assert(actions =~= first + mark + last);
}

/// A reusable run that succeeds leaves the pool as it was, but for a name: the
/// free database that it leased is free and closed again, and has the run's name
/// from then on.
pub proof fn law_reusable_run_returns_database(
    catalogue: Catalogue,
    pid: u32,
    index: usize,
    told: Told,
)
    requires
        told.wf(),
        ({
            let start = RunView::start(TestPath::Reusable, pid, index);
            let name = told.leased(start).candidate().name;
            &&& catalogue.databases.contains_key(name)
            &&& catalogue.databases[name] == Entry::pooled()
            &&& !catalogue.databases.contains_key(start.database())
        }),
    ensures
        ({
            let start = RunView::start(TestPath::Reusable, pid, index);
            let name = told.leased(start).candidate().name;
            catalogue.after_actions(history::actions(start, told.events())) == Some(
                Catalogue {
                    databases: catalogue.databases.remove(name).insert(
                        start.database(),
                        Entry::pooled(),
                    ),
                },
            )
        }),
{
    let start = RunView::start(TestPath::Reusable, pid, index);
    let leased = told.leased(start);
    let candidate = leased.candidate();
    let name = start.database();
    run_laws::law_reusable_run(pid, index, told);
    let open = seq![Action::<Seq<char>>::Connect { session: Session::Admin, database: None }];
    let rounds = run_laws::rounds_actions(told.rounds);
    let list = seq![RunView::by_admin(Statement::ListReady)];
    let losses = run_laws::losses_actions(told.candidates, told.losses);
    let lease = run_laws::lease_actions(start, candidate);
    let using = run_laws::use_actions(start);
    let shut = run_laws::shut_actions(leased, told.keep);
    let polls = run_laws::polls_actions(candidate.oid, told.keep, told.polls);
    let free = run_laws::free_actions(leased, told.keep);
    lemma_rounds_keep(told.rounds);
    lemma_losses_keep(told.candidates, told.losses);
    lemma_keep_concat(open, rounds);
    lemma_keep_concat(open + rounds, list);
    lemma_kept(catalogue, open + rounds + list);
    lemma_kept(catalogue, losses);
    lemma_concat(catalogue, losses, lease);
    lemma_leased(catalogue, start, candidate);
    let used = Catalogue {
        databases: catalogue.databases.remove(candidate.name).insert(name, Entry::created()),
    };
    lemma_use_keeps(start);
    lemma_kept(used, using);
    lemma_shut(used, leased, told.keep);
    let closed = Catalogue {
        databases: used.databases.insert(name, Entry { admits: false, comment: None }),
    };
    lemma_polls_keep(candidate.oid, told.keep, told.polls);
    lemma_kept(closed, polls);
    lemma_freed(closed, leased, told.keep);
    lemma_concat(used, shut, polls);
    lemma_concat(used, shut + polls, free);
    lemma_concat(catalogue, open + rounds + list, losses + lease);
    lemma_concat(catalogue, open + rounds + list + (losses + lease), using);
    lemma_concat(
        catalogue,
        open + rounds + list + (losses + lease) + using,
        shut + polls + free,
    );
    assert(closed.databases.insert(name, Entry::pooled()) =~= catalogue.databases.remove(
        candidate.name,
    ).insert(name, Entry::pooled()));
}

}
