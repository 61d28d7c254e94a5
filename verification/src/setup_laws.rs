//! What holds of whole setups: the order of a setup's actions, and when it
//! fails.
use vstd::prelude::*;

use crate::history;
use crate::history::Machine;
use crate::names;
use crate::names::TEMPLATE_DB;
use crate::protocol::{Action, EventView, Failure, Session};
use crate::setup::{SetupStage, SetupView, WARM_POOL_NANOS};
use crate::sql::{Ident, Statement};
use crate::text;

verus! {

/// Every list of names that was heard fits into memory.
pub open spec fn lists_fit(events: Seq<EventView>) -> bool {
    forall|i: int|
        0 <= i < events.len() && #[trigger] events[i] is Names ==> events[i]->Names_0.len()
            <= usize::MAX
}

/// Whatever a setup hears, its fields fit its stage.
pub proof fn law_setup_stays_well_formed(setup: SetupView, events: Seq<EventView>)
    requires
        setup.wf(),
        history::answered(setup, events),
        lists_fit(events),
    ensures
        history::after_all(setup, events).wf(),
        history::after_all(setup, events).pool_size == setup.pool_size,
        history::after_all(setup, events).ephemeral == setup.ephemeral,
        history::after_all(setup, events).warm_target == setup.warm_target,
    decreases events.len(),
{
    if events.len() > 0 {
        assert forall|i: int|
            0 <= i < events.drop_last().len() && #[trigger] events.drop_last()[i] is Names implies
            events.drop_last()[i]->Names_0.len() <= usize::MAX by {
            assert(events[i] is Names);
        }
        law_setup_stays_well_formed(setup, events.drop_last());
    }
}

/// A setup whose action failed says why and does nothing more, and a setup that
/// is finished does nothing more either.
pub proof fn law_setup_ends(setup: SetupView, event: EventView)
    requires
        setup.wf(),
    ensures
        setup.after(EventView::Failed).action() == (Action::<Seq<char>>::Fail {
            failure: setup.failure(),
        }),
        setup.action().is_last() <==> setup.stage is Finished || setup.stage is Failed,
        setup.action().is_last() ==> !setup.action().answered_by(event),
{
}

/// What a setup does to learn what an earlier one left behind.
pub open spec fn list_actions() -> Seq<Action<Seq<char>>> {
    seq![
        Action::Connect { session: Session::Admin, database: None },
        SetupView::by_admin(Statement::ListLeftovers),
    ]
}

/// What a setup does to these leftovers.
pub open spec fn drop_actions(leftovers: Seq<Seq<char>>) -> Seq<Action<Seq<char>>> {
    leftovers.map_values(
        |name: Seq<char>| SetupView::by_admin(Statement::DropLeftover { name }),
    )
}

/// What a setup does to create the template.
pub open spec fn template_actions() -> Seq<Action<Seq<char>>> {
    seq![
        SetupView::by_admin(Statement::CreateTemplate),
        Action::Connect { session: Session::Template, database: Some(TEMPLATE_DB@) },
        Action::Run { session: Session::Template, statement: Statement::ApplySchema },
        Action::Close { session: Session::Template },
    ]
}

proof fn lemma_drops(setup: SetupView, n: nat)
    requires
        n <= setup.leftovers.len() <= usize::MAX,
    ensures
        history::answered(setup.drop_from(0), history::dones(n)),
        history::actions(setup.drop_from(0), history::dones(n)) == drop_actions(
            setup.leftovers,
        ).take(n as int),
        history::after_all(setup.drop_from(0), history::dones(n)) == setup.drop_from(n as int),
    decreases n,
{
    let start = setup.drop_from(0);
    if n > 0 {
        lemma_drops(setup, (n - 1) as nat);
        history::lemma_push(start, history::dones((n - 1) as nat), EventView::Done);
    }
    assert(history::actions(start, history::dones(n)) =~= drop_actions(setup.leftovers).take(
        n as int,
    ));
}

proof fn lemma_template(setup: SetupView)
    requires
        setup.stage is CreateTemplate,
    ensures
        history::answered(setup, history::dones(4)),
        history::actions(setup, history::dones(4)) == template_actions(),
        history::after_all(setup, history::dones(4)) == setup.at_stage(
            if setup.ephemeral {
                SetupStage::SealTemplate
            } else {
                SetupStage::Create { worker: 0 }
            },
        ),
{
    broadcast use history::lemma_push;

    reveal_with_fuel(history::dones, 5);
    assert(history::actions(setup, history::dones(4)) =~= template_actions());
}

/// What a setup hears until the template is there.
pub open spec fn template_events(leftovers: Seq<Seq<char>>) -> Seq<EventView> {
    history::dones(1).push(EventView::Names(leftovers)) + history::dones(leftovers.len())
        + history::dones(4)
}

/// A setup drops everything that an earlier setup and its tests left behind,
/// in the order in which it was listed, and then creates the template and gives
/// it the schema.
pub proof fn law_template_created(
    pool_size: usize,
    ephemeral: bool,
    warm_target: Option<i64>,
    leftovers: Seq<Seq<char>>,
)
    requires
        leftovers.len() <= usize::MAX,
    ensures
        ({
            let start = SetupView::start(pool_size, ephemeral, warm_target);
            let events = template_events(leftovers);
            &&& history::answered(start, events)
            &&& history::actions(start, events) == list_actions() + drop_actions(leftovers)
                + template_actions()
            &&& history::after_all(start, events) == (SetupView {
                leftovers,
                stage: if ephemeral {
                    SetupStage::SealTemplate
                } else {
                    SetupStage::Create { worker: 0 }
                },
                ..start
            })
        }),
{
    let start = SetupView::start(pool_size, ephemeral, warm_target);
    let found = SetupView { leftovers, ..start };
    let list = history::dones(1).push(EventView::Names(leftovers));
    let drops = history::dones(leftovers.len());
    history::lemma_push(start, history::dones(0), EventView::Done);
    history::lemma_push(start, history::dones(1), EventView::Names(leftovers));
    assert(history::actions(start, list) =~= list_actions());
    assert(history::after_all(start, list) == found.drop_from(0));
    lemma_drops(found, leftovers.len());
    assert(drop_actions(leftovers).take(leftovers.len() as int) =~= drop_actions(leftovers));
    lemma_template(found.drop_from(leftovers.len() as int));
    history::lemma_concat(start, list, drops);
    history::lemma_concat(start, list + drops, history::dones(4));
}

/// What a setup does for one database of the pool: it creates it, closes it, and
/// only then marks it as free.
pub open spec fn worker_actions(worker: int) -> Seq<Action<Seq<char>>> {
    let database = Ident::Bare(names::seed(worker as nat));
    seq![
        SetupView::by_admin(Statement::CloneTemplate { database }),
        SetupView::by_admin(Statement::AllowConnections { database, allowed: false }),
        SetupView::by_admin(Statement::MarkReady { database }),
    ]
}

/// What a setup does for the first databases of the pool.
pub open spec fn pool_actions(workers: nat) -> Seq<Action<Seq<char>>>
    decreases workers,
{
    if workers == 0 {
        seq![]
    } else {
        pool_actions((workers - 1) as nat) + worker_actions(workers - 1)
    }
}

proof fn lemma_worker(setup: SetupView, worker: usize)
    requires
        setup.stage == (SetupStage::Create { worker }),
        worker < setup.pool_size,
    ensures
        history::answered(setup, history::dones(3)),
        history::actions(setup, history::dones(3)) == worker_actions(worker as int),
        history::after_all(setup, history::dones(3)) == setup.at_stage(
            if worker + 1 < setup.pool_size {
                SetupStage::Create { worker: (worker + 1) as usize }
            } else {
                SetupStage::CloseAdmin
            },
        ),
{
    broadcast use history::lemma_push;

    reveal_with_fuel(history::dones, 4);
    assert(history::actions(setup, history::dones(3)) =~= worker_actions(worker as int));
}

proof fn lemma_workers(setup: SetupView, workers: nat)
    requires
        setup.stage == (SetupStage::Create { worker: 0 }),
        0 < setup.pool_size,
        workers <= setup.pool_size,
    ensures
        history::answered(setup, history::dones(3 * workers)),
        history::actions(setup, history::dones(3 * workers)) == pool_actions(workers),
        history::after_all(setup, history::dones(3 * workers)) == setup.at_stage(
            if workers < setup.pool_size {
                SetupStage::Create { worker: workers as usize }
            } else {
                SetupStage::CloseAdmin
            },
        ),
    decreases workers,
{
    if workers > 0 {
        let done = (workers - 1) as nat;
        lemma_workers(setup, done);
        lemma_worker(setup.at_stage(SetupStage::Create { worker: done as usize }), done as usize);
        history::lemma_concat(setup, history::dones(3 * done), history::dones(3));
        history::lemma_dones_concat(3 * done, 3);
        assert(3 * done + 3 == 3 * workers);
    }
}

/// What a setup of a reusable suite does.
pub open spec fn fill_actions(leftovers: Seq<Seq<char>>, workers: nat) -> Seq<Action<Seq<char>>> {
    list_actions() + drop_actions(leftovers) + template_actions() + pool_actions(workers) + seq![
        Action::Close { session: Session::Admin },
    ]
}

/// A setup of a reusable suite creates the template and then as many databases
/// as the pool is to have, each of them closed before it is marked as free.
pub proof fn law_setup_fills_pool(
    pool_size: usize,
    warm_target: Option<i64>,
    leftovers: Seq<Seq<char>>,
)
    requires
        pool_size > 0,
        leftovers.len() <= usize::MAX,
    ensures
        ({
            let start = SetupView::start(pool_size, false, warm_target);
            let events = template_events(leftovers) + history::dones(3 * (pool_size as nat))
                + history::dones(1);
            &&& history::answered(start, events)
            &&& history::actions(start, events) == fill_actions(leftovers, pool_size as nat)
            &&& history::after_all(start, events).action() == (Action::<Seq<char>>::Finish)
        }),
{
    let start = SetupView::start(pool_size, false, warm_target);
    let events = template_events(leftovers);
    let pool = history::dones(3 * (pool_size as nat));
    law_template_created(pool_size, false, warm_target, leftovers);
    let filling = history::after_all(start, events);
    lemma_workers(filling, pool_size as nat);
    let filled = filling.at_stage(SetupStage::CloseAdmin);
    history::lemma_push(filled, history::dones(0), EventView::Done);
    assert(history::actions(filled, history::dones(1)) =~= seq![
        Action::Close { session: Session::Admin },
    ]);
    history::lemma_concat(start, events, pool);
    history::lemma_concat(start, events + pool, history::dones(1));
}

/// A look at the spares that the server has ready.
pub struct Look {
    pub spares: i64,
    /// The nanoseconds since the first look was about to be taken.
    pub waited: u128,
}

/// What a setup hears as its looks find too few spares.
pub open spec fn looks_events(looks: Seq<Look>) -> Seq<EventView>
    decreases looks.len(),
{
    if looks.len() == 0 {
        seq![]
    } else {
        looks_events(looks.drop_last()).push(
            EventView::Count { value: looks.last().spares, waited: looks.last().waited },
        ).push(EventView::Done)
    }
}

/// What a setup does meanwhile: it looks again every fifth of a second.
pub open spec fn looks_actions(looks: nat) -> Seq<Action<Seq<char>>>
    decreases looks,
{
    if looks == 0 {
        seq![]
    } else {
        looks_actions((looks - 1) as nat) + seq![
            SetupView::by_admin(Statement::CountSpares),
            Action::Sleep { millis: 200 },
        ]
    }
}

proof fn lemma_looks(setup: SetupView, looks: Seq<Look>)
    requires
        setup.stage is CountSpares,
        setup.warm_target is Some,
        forall|i: int|
            0 <= i < looks.len() ==> (#[trigger] looks[i]).spares < setup.warm_target->0
                && looks[i].waited <= WARM_POOL_NANOS,
    ensures
        history::answered(setup, looks_events(looks)),
        history::actions(setup, looks_events(looks)) == looks_actions(looks.len()),
        history::after_all(setup, looks_events(looks)) == setup,
    decreases looks.len(),
{
    broadcast use history::lemma_push;

    if looks.len() > 0 {
        let earlier = looks.drop_last();
        assert forall|i: int| 0 <= i < earlier.len() implies (#[trigger] earlier[i]).spares
            < setup.warm_target->0 && earlier[i].waited <= WARM_POOL_NANOS by {
            assert(earlier[i] == looks[i]);
        }
        lemma_looks(setup, earlier);
        assert(looks.last() == looks[looks.len() - 1]);
        assert(history::actions(setup, looks_events(looks)) =~= looks_actions(looks.len()));
    }
}

/// What a setup does before it looks at the spares.
pub open spec fn warm_actions() -> Seq<Action<Seq<char>>> {
    seq![
        SetupView::by_admin(Statement::SealTemplate),
        Action::Connect { session: Session::Warmup, database: Some(names::warmup()) },
        Action::Close { session: Session::Warmup },
        Action::StartClock,
    ]
}

proof fn lemma_warm(setup: SetupView)
    requires
        setup.stage is SealTemplate,
        setup.warm_target is Some,
    ensures
        history::answered(setup, history::dones(4)),
        history::actions(setup, history::dones(4)) == warm_actions(),
        history::after_all(setup, history::dones(4)) == setup.at_stage(SetupStage::CountSpares),
{
    broadcast use history::lemma_push;

    reveal_with_fuel(history::dones, 5);
    assert(history::actions(setup, history::dones(4)) =~= warm_actions());
}

/// A setup that is to wait for spares looks at them until there are enough of
/// them, or until it has found too few after more than five minutes. Enough of
/// them end it with success however long they took; too few end it with a
/// failure that tells how many there were.
pub proof fn law_setup_waits_for_spares(setup: SetupView, looks: Seq<Look>, last: Look)
    requires
        setup.stage is SealTemplate,
        setup.warm_target is Some,
        forall|i: int|
            0 <= i < looks.len() ==> (#[trigger] looks[i]).spares < setup.warm_target->0
                && looks[i].waited <= WARM_POOL_NANOS,
        last.spares >= setup.warm_target->0 || last.waited > WARM_POOL_NANOS,
    ensures
        ({
            let target = setup.warm_target->0;
            let events = history::dones(4) + looks_events(looks) + seq![
                EventView::Count { value: last.spares, waited: last.waited },
            ];
            let ended = history::after_all(setup, events);
            &&& history::answered(setup, events)
            &&& history::actions(setup, events) == warm_actions() + looks_actions(looks.len())
                + seq![SetupView::by_admin(Statement::CountSpares)]
            &&& last.spares >= target ==> {
                &&& ended.action() == (Action::<Seq<char>>::ReportReady { spares: last.spares })
                &&& ended.after(EventView::Done).action() == (Action::<Seq<char>>::Close {
                    session: Session::Admin,
                })
                &&& ended.after(EventView::Done).after(EventView::Done).action() == (Action::<
                    Seq<char>,
                >::Finish)
            }
            &&& last.spares < target ==> ended.action() == (Action::<Seq<char>>::Fail {
                failure: Failure::WarmPool { target, spares: last.spares },
            })
        }),
{
    let counting = setup.at_stage(SetupStage::CountSpares);
    let count = EventView::Count { value: last.spares, waited: last.waited };
    lemma_warm(setup);
    lemma_looks(counting, looks);
    history::lemma_push(counting, seq![], count);
    assert(history::actions(counting, seq![count]) =~= seq![
        SetupView::by_admin(Statement::CountSpares),
    ]);
    history::lemma_concat(setup, history::dones(4), looks_events(looks));
    history::lemma_concat(setup, history::dones(4) + looks_events(looks), seq![count]);
}

/// What a setup of an ephemeral suite does that is to wait for nothing.
pub open spec fn seal_actions(leftovers: Seq<Seq<char>>) -> Seq<Action<Seq<char>>> {
    list_actions() + drop_actions(leftovers) + template_actions() + seq![
        SetupView::by_admin(Statement::SealTemplate),
        Action::Close { session: Session::Admin },
    ]
}

/// A setup of an ephemeral suite that is to wait for nothing seals the template
/// and fills no pool.
pub proof fn law_setup_seals_template(pool_size: usize, leftovers: Seq<Seq<char>>)
    requires
        leftovers.len() <= usize::MAX,
    ensures
        ({
            let start = SetupView::start(pool_size, true, None);
            let events = template_events(leftovers) + history::dones(2);
            &&& history::answered(start, events)
            &&& history::actions(start, events) == seal_actions(leftovers)
            &&& history::after_all(start, events).action() == (Action::<Seq<char>>::Finish)
        }),
{
    let start = SetupView::start(pool_size, true, None);
    let events = template_events(leftovers);
    law_template_created(pool_size, true, None, leftovers);
    let sealing = history::after_all(start, events);
    history::lemma_push(sealing, history::dones(0), EventView::Done);
    history::lemma_push(sealing, history::dones(1), EventView::Done);
    assert(history::actions(sealing, history::dones(2)) =~= seq![
        SetupView::by_admin(Statement::SealTemplate),
        Action::Close { session: Session::Admin },
    ]);
    history::lemma_concat(start, events, history::dones(2));
}

/// A setup that waits for no spares hears one list, and nothing else to decide
/// on.
proof fn lemma_setup_hears(setup: SetupView, events: Seq<EventView>)
    requires
        setup == SetupView::start(setup.pool_size, setup.ephemeral, setup.warm_target),
        setup.pool_size > 0,
        setup.ephemeral ==> setup.warm_target is None,
        history::answered(setup, events),
        lists_fit(events),
        history::after_all(setup, events).stage !is Failed,
    ensures
        ({
            let stage = history::after_all(setup, events).stage;
            &&& events.len() == 0 <==> stage is OpenAdmin
            &&& events.len() == 1 <==> stage is ListLeftovers
            &&& events.len() >= 2 ==> events[1] is Names
            &&& forall|i: int|
                0 <= i < events.len() && i != 1 ==> #[trigger] events[i] == EventView::Done
        }),
    decreases events.len(),
{
    if events.len() > 0 {
        let earlier = events.drop_last();
        assert(lists_fit(earlier)) by {
            assert forall|i: int| 0 <= i < earlier.len() && #[trigger] earlier[i] is Names implies
                earlier[i]->Names_0.len() <= usize::MAX by {
                assert(events[i] is Names);
            }
        }
        let before = history::after_all(setup, earlier);
        law_setup_stays_well_formed(setup, earlier);
        if before.stage is Failed {
            law_setup_ends(before, events.last());
        }
        lemma_setup_hears(setup, earlier);
        assert forall|i: int| 0 <= i < events.len() && i != 1 implies #[trigger] events[i]
            == EventView::Done by {
            if i < earlier.len() {
                assert(earlier[i] == EventView::Done);
            }
        }
        if events.len() > 2 {
            assert(earlier[1] == events[1]);
        }
    }
}

proof fn lemma_template_events(leftovers: Seq<Seq<char>>)
    ensures
        template_events(leftovers).len() == 6 + leftovers.len(),
        template_events(leftovers)[1] == EventView::Names(leftovers),
        forall|i: int|
            0 <= i < template_events(leftovers).len() && i != 1 ==> #[trigger] template_events(
                leftovers,
            )[i] == EventView::Done,
{
    history::lemma_dones_at(1);
    history::lemma_dones_at(leftovers.len());
    history::lemma_dones_at(4);
}

/// A setup of a reusable suite succeeds in one way only: it does what
/// `fill_actions` says for the leftovers that it was told of.
pub proof fn law_every_setup_fills_pool(
    pool_size: usize,
    warm_target: Option<i64>,
    events: Seq<EventView>,
)
    requires
        pool_size > 0,
        history::answered(SetupView::start(pool_size, false, warm_target), events),
        lists_fit(events),
        history::after_all(SetupView::start(pool_size, false, warm_target), events).action()
            is Finish,
    ensures
        events.len() > 1,
        events[1] is Names,
        events == template_events(events[1]->Names_0) + history::dones(3 * (pool_size as nat))
            + history::dones(1),
        history::actions(SetupView::start(pool_size, false, warm_target), events) == fill_actions(
            events[1]->Names_0,
            pool_size as nat,
        ),
{
    let start = SetupView::start(pool_size, false, warm_target);
    lemma_setup_hears(start, events);
    law_setup_stays_well_formed(start, events);
    let leftovers = events[1]->Names_0;
    let good = template_events(leftovers) + history::dones(3 * (pool_size as nat))
        + history::dones(1);
    law_setup_fills_pool(pool_size, warm_target, leftovers);
    lemma_template_events(leftovers);
    history::lemma_dones_at(3 * (pool_size as nat));
    history::lemma_dones_at(1);
    assert forall|i: int| 0 <= i < events.len() && i < good.len() implies events[i] == good[i] by {
        if i != 1 {
            assert(events[i] == EventView::Done);
        }
    }
    history::lemma_ends_agree(start, events, good);
}

/// A setup of an ephemeral suite that is to wait for nothing succeeds in one way
/// only: it does what `seal_actions` says for the leftovers that it was told of.
pub proof fn law_every_setup_seals_template(pool_size: usize, events: Seq<EventView>)
    requires
        pool_size > 0,
        history::answered(SetupView::start(pool_size, true, None), events),
        lists_fit(events),
        history::after_all(SetupView::start(pool_size, true, None), events).action() is Finish,
    ensures
        events.len() > 1,
        events[1] is Names,
        events == template_events(events[1]->Names_0) + history::dones(2),
        history::actions(SetupView::start(pool_size, true, None), events) == seal_actions(
            events[1]->Names_0,
        ),
{
    let start = SetupView::start(pool_size, true, None);
    lemma_setup_hears(start, events);
    law_setup_stays_well_formed(start, events);
    let leftovers = events[1]->Names_0;
    let good = template_events(leftovers) + history::dones(2);
    law_setup_seals_template(pool_size, leftovers);
    lemma_template_events(leftovers);
    history::lemma_dones_at(2);
    assert forall|i: int| 0 <= i < events.len() && i < good.len() implies events[i] == good[i] by {
        if i != 1 {
            assert(events[i] == EventView::Done);
        }
    }
    history::lemma_ends_agree(start, events, good);
}

/// All that a setup that waits for spares has to decide on: the leftovers, the
/// looks that found too few spares, and the last one.
pub struct Waited {
    pub leftovers: Seq<Seq<char>>,
    pub looks: Seq<Look>,
    pub last: Look,
}

impl Waited {
    /// All looks but the last found too few spares, none of them too late.
    pub open spec fn wf(self, target: i64) -> bool {
        &&& self.leftovers.len() <= usize::MAX
        &&& forall|i: int|
            0 <= i < self.looks.len() ==> (#[trigger] self.looks[i]).spares < target
                && self.looks[i].waited <= WARM_POOL_NANOS
        &&& self.last.spares >= target
    }

    /// All that the setup hears.
    pub open spec fn events(self) -> Seq<EventView> {
        template_events(self.leftovers) + (history::dones(4) + looks_events(self.looks) + seq![
            EventView::Count { value: self.last.spares, waited: self.last.waited },
        ]) + history::dones(2)
    }

    /// All that the setup does.
    pub open spec fn actions(self) -> Seq<Action<Seq<char>>> {
        list_actions() + drop_actions(self.leftovers) + template_actions() + (warm_actions()
            + looks_actions(self.looks.len()) + seq![SetupView::by_admin(Statement::CountSpares)])
            + seq![
            Action::ReportReady { spares: self.last.spares },
            Action::Close { session: Session::Admin },
        ]
    }
}

/// A setup of an ephemeral suite that is to wait for spares seals the template,
/// makes the server know it, looks until there are enough spares, and says how
/// many there are.
pub proof fn law_setup_warms_pool(pool_size: usize, target: i64, waited: Waited)
    requires
        waited.wf(target),
    ensures
        ({
            let start = SetupView::start(pool_size, true, Some(target));
            &&& history::answered(start, waited.events())
            &&& history::actions(start, waited.events()) == waited.actions()
            &&& history::after_all(start, waited.events()).action() == (Action::<
                Seq<char>,
            >::Finish)
        }),
{
    let start = SetupView::start(pool_size, true, Some(target));
    let template = template_events(waited.leftovers);
    let count = EventView::Count { value: waited.last.spares, waited: waited.last.waited };
    let wait = history::dones(4) + looks_events(waited.looks) + seq![count];
    law_template_created(pool_size, true, Some(target), waited.leftovers);
    let sealing = history::after_all(start, template);
    law_setup_waits_for_spares(sealing, waited.looks, waited.last);
    let counting = sealing.at_stage(SetupStage::CountSpares);
    lemma_warm(sealing);
    lemma_looks(counting, waited.looks);
    history::lemma_concat(sealing, history::dones(4), looks_events(waited.looks));
    history::lemma_concat(sealing, history::dones(4) + looks_events(waited.looks), seq![count]);
    history::lemma_push(counting, seq![], count);
    assert(seq![count] =~= Seq::<EventView>::empty().push(count));
    let ready = history::after_all(sealing, wait);
    assert(ready == sealing.at_stage(SetupStage::ReportReady { spares: waited.last.spares }));
    history::lemma_push(ready, history::dones(0), EventView::Done);
    history::lemma_push(ready, history::dones(1), EventView::Done);
    assert(history::actions(ready, history::dones(2)) =~= seq![
        Action::ReportReady { spares: waited.last.spares },
        Action::Close { session: Session::Admin },
    ]);
    history::lemma_concat(start, template, wait);
    history::lemma_concat(start, template + wait, history::dones(2));
}

proof fn lemma_looks_front(look: Look, looks: Seq<Look>)
    ensures
        looks_events(seq![look] + looks) == seq![
            EventView::Count { value: look.spares, waited: look.waited },
        ].push(EventView::Done) + looks_events(looks),
    decreases looks.len(),
{
    let all = seq![look] + looks;
    let first = seq![EventView::Count { value: look.spares, waited: look.waited }].push(
        EventView::Done,
    );
    if looks.len() == 0 {
        assert(all.drop_last() =~= seq![]);
        assert(all.last() == look);
        assert(looks_events(seq![]) =~= seq![]);
        assert(looks_events(all) =~= first + looks_events(looks));
    } else {
        lemma_looks_front(look, looks.drop_last());
        assert(all.drop_last() =~= seq![look] + looks.drop_last());
        assert(looks_events(all) =~= first + looks_events(looks));
    }
}

/// What a setup heard of the spares: the looks that found too few of them, the
/// last one, and what it heard behind that.
proof fn lemma_hears_looks(setup: SetupView, events: Seq<EventView>) -> (heard: (
    Seq<Look>,
    Look,
    Seq<EventView>,
))
    requires
        setup.stage is CountSpares,
        setup.warm_target is Some,
        history::succeeds(setup, events),
    ensures
        forall|i: int|
            0 <= i < heard.0.len() ==> (#[trigger] heard.0[i]).spares < setup.warm_target->0
                && heard.0[i].waited <= WARM_POOL_NANOS,
        heard.1.spares >= setup.warm_target->0,
        events == looks_events(heard.0) + (seq![
            EventView::Count { value: heard.1.spares, waited: heard.1.waited },
        ] + heard.2),
        history::succeeds(
            setup.at_stage(SetupStage::ReportReady { spares: heard.1.spares }),
            heard.2,
        ),
    decreases events.len(),
{
    history::lemma_front(setup, events);
    assert(events[0] is Count);
    let look = Look { spares: events[0]->Count_value, waited: events[0]->waited };
    let rest = events.skip(1);
    let none = Seq::<Look>::empty();
    if look.spares >= setup.warm_target->0 {
        assert(looks_events(none) + events =~= events);
        (none, look, rest)
    } else {
        if look.waited > WARM_POOL_NANOS {
            history::lemma_over(setup.after(events[0]), rest);
        }
        let napping = setup.at_stage(SetupStage::WarmNap);
        history::lemma_front(napping, rest);
        assert(rest[0] == EventView::Done);
        assert(napping.after(EventView::Done) == setup);
        let (looks, last, behind) = lemma_hears_looks(setup, rest.skip(1));
        let all = seq![look] + looks;
        let first = seq![EventView::Count { value: look.spares, waited: look.waited }].push(
            EventView::Done,
        );
        lemma_looks_front(look, looks);
        assert(events =~= first + rest.skip(1));
        history::lemma_associates(
            first,
            looks_events(looks),
            seq![EventView::Count { value: last.spares, waited: last.waited }] + behind,
        );
        assert forall|i: int| 0 <= i < all.len() implies (#[trigger] all[i]).spares
            < setup.warm_target->0 && all[i].waited <= WARM_POOL_NANOS by {
            if i > 0 {
                assert(all[i] == looks[i - 1]);
            }
        }
        (all, last, behind)
    }
}

/// What a setup heard until the template was there: the leftovers.
proof fn lemma_hears_template(setup: SetupView, events: Seq<EventView>) -> (leftovers: Seq<
    Seq<char>,
>)
    requires
        setup == SetupView::start(setup.pool_size, setup.ephemeral, setup.warm_target),
        lists_fit(events),
        history::succeeds(setup, events),
    ensures
        leftovers.len() <= usize::MAX,
        events == template_events(leftovers) + events.skip(
            template_events(leftovers).len() as int,
        ),
        history::succeeds(
            history::after_all(setup, template_events(leftovers)),
            events.skip(template_events(leftovers).len() as int),
        ),
{
    history::lemma_front(setup, events);
    assert(events[0] is Done);
    history::lemma_front(setup.at_stage(SetupStage::ListLeftovers), events.skip(1));
    assert(events[1] is Names);
    let leftovers = events[1]->Names_0;
    let found = SetupView { leftovers, ..setup };
    let told = events.skip(1).skip(1);
    let n = leftovers.len();
    assert forall|k: nat| k < n implies history::reads_nothing(
        (#[trigger] history::after_all(found.drop_from(0), history::dones(k))).action(),
    ) by {
        lemma_drops(found, k);
    }
    history::lemma_front_dones(found.drop_from(0), told, n);
    lemma_drops(found, n);
    let creating = found.drop_from(n as int);
    let dropped = told.skip(n as int);
    lemma_template_reads_nothing(creating);
    history::lemma_front_dones(creating, dropped, 4);
    law_template_created(setup.pool_size, setup.ephemeral, setup.warm_target, leftovers);
    lemma_template(creating);
    let list = history::dones(1).push(EventView::Names(leftovers));
    let rest = dropped.skip(4);
    lemma_template_events(leftovers);
    assert(list =~= seq![EventView::Done] + seq![EventView::Names(leftovers)]) by {
        history::lemma_dones_at(1);
    }
    history::lemma_associates(seq![EventView::Done], seq![EventView::Names(leftovers)], told);
    history::lemma_associates(list, history::dones(n), dropped);
    history::lemma_associates(list + history::dones(n), history::dones(4), rest);
    assert(events == template_events(leftovers) + rest);
    assert(events.skip(template_events(leftovers).len() as int) =~= rest);
    leftovers
}

proof fn lemma_template_reads_nothing(setup: SetupView)
    requires
        setup.stage is CreateTemplate,
    ensures
        forall|k: nat|
            k < 4 ==> history::reads_nothing(
                (#[trigger] history::after_all(setup, history::dones(k))).action(),
            ),
{
    broadcast use history::lemma_push;

    reveal_with_fuel(history::dones, 5);
    assert forall|k: nat| k < 4 implies history::reads_nothing(
        (#[trigger] history::after_all(setup, history::dones(k))).action(),
    ) by {
        assert(k == 0 || k == 1 || k == 2 || k == 3);
    }
}

proof fn lemma_warm_reads_nothing(setup: SetupView)
    requires
        setup.stage is SealTemplate,
        setup.warm_target is Some,
    ensures
        forall|k: nat|
            k < 4 ==> history::reads_nothing(
                (#[trigger] history::after_all(setup, history::dones(k))).action(),
            ),
{
    broadcast use history::lemma_push;

    reveal_with_fuel(history::dones, 5);
    assert forall|k: nat| k < 4 implies history::reads_nothing(
        (#[trigger] history::after_all(setup, history::dones(k))).action(),
    ) by {
        assert(k == 0 || k == 1 || k == 2 || k == 3);
    }
}

/// A setup of an ephemeral suite that is to wait for spares succeeds in no other
/// way: whatever it heard, there were enough spares in the end, and it did what
/// `Waited::actions` says.
pub proof fn law_every_setup_warms_pool(pool_size: usize, target: i64, events: Seq<EventView>)
    requires
        history::answered(SetupView::start(pool_size, true, Some(target)), events),
        lists_fit(events),
        history::after_all(SetupView::start(pool_size, true, Some(target)), events).action()
            is Finish,
    ensures
        exists|waited: Waited|
            {
                &&& waited.wf(target)
                &&& events == #[trigger] waited.events()
                &&& history::actions(SetupView::start(pool_size, true, Some(target)), events)
                    == waited.actions()
            },
{
    let start = SetupView::start(pool_size, true, Some(target));
    let leftovers = lemma_hears_template(start, events);
    let template = template_events(leftovers);
    law_template_created(pool_size, true, Some(target), leftovers);
    let sealing = history::after_all(start, template);
    let rest = events.skip(template.len() as int);
    lemma_warm_reads_nothing(sealing);
    history::lemma_front_dones(sealing, rest, 4);
    lemma_warm(sealing);
    let looked = rest.skip(4);
    let (looks, last, behind) = lemma_hears_looks(
        sealing.at_stage(SetupStage::CountSpares),
        looked,
    );
    let reporting = sealing.at_stage(SetupStage::ReportReady { spares: last.spares });
    history::lemma_front(reporting, behind);
    assert(behind[0] is Done);
    let closing = sealing.at_stage(SetupStage::CloseAdmin);
    history::lemma_front(closing, behind.skip(1));
    assert(behind[1] is Done);
    history::lemma_over(
        sealing.at_stage(SetupStage::Finished),
        behind.skip(1).skip(1),
    );
    assert(behind =~= history::dones(2)) by {
        history::lemma_dones_at(2);
        assert(behind.skip(1).skip(1).len() == behind.len() - 2);
    }
    let waited = Waited { leftovers, looks, last };
    let count = seq![EventView::Count { value: last.spares, waited: last.waited }];
    let warm = history::dones(4);
    history::lemma_associates(warm, looks_events(looks), count + behind);
    history::lemma_associates(warm + looks_events(looks), count, behind);
    history::lemma_associates(template, warm + looks_events(looks) + count, behind);
    assert(events == waited.events());
    law_setup_warms_pool(pool_size, target, waited);
}

/// Why a setup fails whose action failed: the template could not be sealed, the
/// database of a worker could not be created, or nothing more is to be said.
pub proof fn law_failures_tell_action(setup: SetupView, worker: usize)
    requires
        setup.wf(),
        setup.action().answered_by(EventView::Failed),
    ensures
        ({
            let failed = setup.after(EventView::Failed).action();
            let create = SetupView::by_admin(
                Statement::CloneTemplate {
                    database: Ident::Bare("repro_db_seed_"@ + text::padded(worker as nat, 3)),
                },
            );
            &&& setup.action() == SetupView::by_admin(Statement::SealTemplate) ==> failed == (
            Action::<Seq<char>>::Fail { failure: Failure::Sealing })
            &&& setup.action() == create ==> failed == (Action::<Seq<char>>::Fail {
                failure: Failure::Creating(worker),
            })
            &&& !(setup.action() is Run && (setup.action()->statement is SealTemplate
                || setup.action()->statement is CloneTemplate)) ==> failed == (Action::<
                Seq<char>,
            >::Fail { failure: Failure::Step })
        }),
{
    if let SetupStage::Create { worker: own } = setup.stage {
        if names::seed(own as nat) == names::seed(worker as nat) {
            names::law_seed_names_distinct(own as nat, worker as nat);
        }
    }
}

/// A setup starts with what it is given, and keeps it whatever it hears. It waits
/// for spares for five minutes.
pub proof fn law_setups_start(
    pool_size: usize,
    ephemeral: bool,
    warm_target: Option<i64>,
    statement: Statement<Seq<char>>,
)
    ensures
        ({
            let start = SetupView::start(pool_size, ephemeral, warm_target);
            &&& start.pool_size == pool_size
            &&& start.ephemeral == ephemeral
            &&& start.warm_target == warm_target
            &&& start.action() == (Action::<Seq<char>>::Connect {
                session: Session::Admin,
                database: None,
            })
        }),
        SetupView::by_admin(statement) == (Action::Run { session: Session::Admin, statement }),
        WARM_POOL_NANOS == 300_000_000_000,
{
}

/// What a setup does until the template is there, action by action: it asks what is
/// left of earlier setups and drops all of it in the order in which it is told;
/// then it creates the template and gives it the schema, over a session of its own.
/// An ephemeral setup goes on to seal the template; any other to create the database
/// of the first worker.
pub proof fn law_template_in_order(
    pool_size: usize,
    ephemeral: bool,
    warm_target: Option<i64>,
    leftovers: Seq<Seq<char>>,
    at: int,
)
    requires
        leftovers.len() <= usize::MAX,
    ensures
        ({
            let start = SetupView::start(pool_size, ephemeral, warm_target);
            let n = leftovers.len() as int;
            let actions = history::actions(start, template_events(leftovers));
            let there = history::after_all(start, template_events(leftovers));
            &&& history::answered(start, template_events(leftovers))
            &&& actions.len() == n + 6
            &&& actions[0] == (Action::<Seq<char>>::Connect {
                session: Session::Admin,
                database: None,
            })
            &&& actions[1] == SetupView::by_admin(Statement::ListLeftovers)
            &&& 0 <= at < n ==> actions[2 + at] == SetupView::by_admin(
                Statement::DropLeftover { name: leftovers[at] },
            )
            &&& actions[2 + n] == SetupView::by_admin(Statement::CreateTemplate)
            &&& actions[3 + n] == (Action::Connect {
                session: Session::Template,
                database: Some("repro_template"@),
            })
            &&& actions[4 + n] == (Action::<Seq<char>>::Run {
                session: Session::Template,
                statement: Statement::ApplySchema,
            })
            &&& actions[5 + n] == (Action::<Seq<char>>::Close { session: Session::Template })
            &&& ephemeral ==> there.action() == SetupView::by_admin(Statement::SealTemplate)
            &&& !ephemeral ==> there.action() == SetupView::by_admin(
                Statement::CloneTemplate {
                    database: Ident::Bare("repro_db_seed_"@ + text::padded(0, 3)),
                },
            )
        }),
{
    law_template_created(pool_size, ephemeral, warm_target, leftovers);
    let drops = drop_actions(leftovers);
    let template = template_actions();
    let actions = list_actions() + drops + template;
    let n = leftovers.len() as int;
    if 0 <= at < n {
        assert(actions[2 + at] == drops[at]);
    }
    assert forall|i: int| 0 <= i < 4 implies #[trigger] template[i] == actions[2 + n + i] by {}
}

proof fn lemma_pool_at(workers: nat, worker: int)
    requires
        0 <= worker < workers,
    ensures
        pool_actions(workers).len() == 3 * workers,
        pool_actions(workers).subrange(3 * worker, 3 * worker + 3) == worker_actions(worker),
    decreases workers,
{
    let before = pool_actions((workers - 1) as nat);
    assert(before.len() == 3 * (workers - 1)) by {
        if workers > 1 {
            lemma_pool_at((workers - 1) as nat, 0);
        }
    }
    let after = pool_actions(workers);
    if worker == workers - 1 {
        assert(after.subrange(3 * worker, 3 * worker + 3) =~= worker_actions(worker));
    } else {
        lemma_pool_at((workers - 1) as nat, worker);
        assert(after.subrange(3 * worker, 3 * worker + 3) =~= before.subrange(
            3 * worker,
            3 * worker + 3,
        ));
    }
}

/// What a setup of a reusable suite does once the template is there, action by
/// action: for each worker in order it creates a copy of the template under the
/// worker's name, closes it, and marks it as free; then it closes its session. It
/// succeeds in this way and in no other.
pub proof fn law_pool_in_order(
    pool_size: usize,
    warm_target: Option<i64>,
    events: Seq<EventView>,
    worker: int,
)
    requires
        pool_size > 0,
        lists_fit(events),
        history::succeeds(SetupView::start(pool_size, false, warm_target), events),
    ensures
        ({
            let actions = history::actions(
                SetupView::start(pool_size, false, warm_target),
                events,
            );
            let n = events[1]->Names_0.len() as int;
            let database = Ident::Bare("repro_db_seed_"@ + text::padded(worker as nat, 3));
            &&& events[1] is Names
            &&& events == template_events(events[1]->Names_0) + history::dones(
                3 * (pool_size as nat),
            ) + history::dones(1)
            &&& actions.len() == 7 + n + 3 * pool_size
            &&& 0 <= worker < pool_size ==> {
                &&& actions[6 + n + 3 * worker] == SetupView::by_admin(
                    Statement::CloneTemplate { database },
                )
                &&& actions[7 + n + 3 * worker] == SetupView::by_admin(
                    Statement::AllowConnections { database, allowed: false },
                )
                &&& actions[8 + n + 3 * worker] == SetupView::by_admin(
                    Statement::MarkReady { database },
                )
            }
            &&& actions[6 + n + 3 * pool_size] == (Action::<Seq<char>>::Close {
                session: Session::Admin,
            })
        }),
{
    law_every_setup_fills_pool(pool_size, warm_target, events);
    let leftovers = events[1]->Names_0;
    let before = list_actions() + drop_actions(leftovers) + template_actions();
    let pool = pool_actions(pool_size as nat);
    let actions = fill_actions(leftovers, pool_size as nat);
    let n = leftovers.len() as int;
    assert(before.len() == 6 + n);
    lemma_pool_at(pool_size as nat, 0);
    if 0 <= worker < pool_size {
        lemma_pool_at(pool_size as nat, worker);
        let own = pool.subrange(3 * worker, 3 * worker + 3);
        assert(own[0] == pool[3 * worker]);
        assert(own[1] == pool[3 * worker + 1]);
        assert(own[2] == pool[3 * worker + 2]);
        assert(actions[6 + n + 3 * worker] == pool[3 * worker]);
        assert(actions[7 + n + 3 * worker] == pool[3 * worker + 1]);
        assert(actions[8 + n + 3 * worker] == pool[3 * worker + 2]);
    }
}

/// What a setup of an ephemeral suite does once the template is there, where it is
/// to wait for nothing: it seals the template and closes its session.
pub proof fn law_seal_in_order(pool_size: usize, events: Seq<EventView>)
    requires
        pool_size > 0,
        lists_fit(events),
        history::succeeds(SetupView::start(pool_size, true, None), events),
    ensures
        ({
            let actions = history::actions(SetupView::start(pool_size, true, None), events);
            let n = events[1]->Names_0.len() as int;
            &&& events[1] is Names
            &&& events == template_events(events[1]->Names_0) + history::dones(2)
            &&& actions.len() == 8 + n
            &&& actions[6 + n] == SetupView::by_admin(Statement::SealTemplate)
            &&& actions[7 + n] == (Action::<Seq<char>>::Close { session: Session::Admin })
        }),
{
    law_every_setup_seals_template(pool_size, events);
}

proof fn lemma_looks_at(looks: nat)
    ensures
        looks_actions(looks).len() == 2 * looks,
        forall|look: int|
            #![trigger looks_actions(looks)[2 * look]]
            #![trigger looks_actions(looks)[2 * look + 1]]
            0 <= look < looks ==> {
                &&& looks_actions(looks)[2 * look] == SetupView::by_admin(Statement::CountSpares)
                &&& looks_actions(looks)[2 * look + 1] == (Action::<Seq<char>>::Sleep {
                    millis: 200,
                })
            },
    decreases looks,
{
    if looks > 0 {
        lemma_looks_at((looks - 1) as nat);
        let before = looks_actions((looks - 1) as nat);
        assert forall|look: int| 0 <= look < looks - 1 implies looks_actions(looks)[2 * look]
            == #[trigger] before[2 * look] && looks_actions(looks)[2 * look + 1] == before[2 * look
            + 1] by {}
    }
}

/// What a setup of an ephemeral suite does once the template is there, where it is
/// to wait for spares: it seals the template, connects to a database of the template
/// that the server then creates, and counts the spares every fifth of a second.
/// Every count but the last was too low, and came in time; the last one was not too
/// low, and is the one that the setup reports.
pub proof fn law_wait_in_order(
    pool_size: usize,
    target: i64,
    events: Seq<EventView>,
)
    requires
        lists_fit(events),
        history::succeeds(SetupView::start(pool_size, true, Some(target)), events),
    ensures
        exists|waited: Waited|
            {
                let actions = history::actions(
                    SetupView::start(pool_size, true, Some(target)),
                    events,
                );
                let n = waited.leftovers.len() as int;
                let looks = waited.looks.len() as int;
                &&& events == #[trigger] waited.events()
                &&& forall|i: int|
                    0 <= i < looks ==> (#[trigger] waited.looks[i]).spares < target
                        && waited.looks[i].waited <= 300_000_000_000
                &&& waited.last.spares >= target
                &&& actions.len() == 13 + n + 2 * looks
                &&& actions[6 + n] == SetupView::by_admin(Statement::SealTemplate)
                &&& actions[7 + n] == (Action::Connect {
                    session: Session::Warmup,
                    database: Some("tdb_"@ + "repro_template"@ + "__warmup"@),
                })
                &&& actions[8 + n] == (Action::<Seq<char>>::Close { session: Session::Warmup })
                &&& actions[9 + n] is StartClock
                &&& forall|look: int|
                    #![trigger waited.looks[look]]
                    0 <= look < looks ==> actions[10 + n + 2 * look] == SetupView::by_admin(
                        Statement::CountSpares,
                    ) && actions[11 + n + 2 * look] == (Action::<Seq<char>>::Sleep { millis: 200 })
                &&& actions[10 + n + 2 * looks] == SetupView::by_admin(Statement::CountSpares)
                &&& actions[11 + n + 2 * looks] == (Action::<Seq<char>>::ReportReady {
                    spares: waited.last.spares,
                })
                &&& actions[12 + n + 2 * looks] == (Action::<Seq<char>>::Close {
                    session: Session::Admin,
                })
            },
{
    law_every_setup_warms_pool(pool_size, target, events);
    let waited = choose|waited: Waited|
        {
            &&& waited.wf(target)
            &&& events == #[trigger] waited.events()
            &&& history::actions(SetupView::start(pool_size, true, Some(target)), events)
                == waited.actions()
        };
    let actions = waited.actions();
    let n = waited.leftovers.len() as int;
    let looks = waited.looks.len() as int;
    let before = list_actions() + drop_actions(waited.leftovers) + template_actions();
    let looked = looks_actions(waited.looks.len());
    assert(before.len() == 6 + n);
    lemma_looks_at(waited.looks.len());
    assert forall|look: int|
        #![trigger waited.looks[look]]
        0 <= look < looks implies actions[10 + n + 2 * look] == SetupView::by_admin(
        Statement::CountSpares,
    ) && actions[11 + n + 2 * look] == (Action::<Seq<char>>::Sleep { millis: 200 }) by {
        assert(actions[10 + n + 2 * look] == looked[2 * look]);
        assert(actions[11 + n + 2 * look] == looked[2 * look + 1]);
    }
    assert(events == waited.events());
}

/// A look at the spares, one by one: enough of them end the wait however long they
/// took; too few of them end it with a failure after five minutes; and until then
/// the setup looks again after a fifth of a second.
pub proof fn law_look_decides(setup: SetupView, value: i64, waited: u128)
    requires
        setup.stage is CountSpares,
        setup.warm_target is Some,
    ensures
        ({
            let target = setup.warm_target->0;
            let after = setup.after(EventView::Count { value, waited });
            &&& value >= target ==> after.action() == (Action::<Seq<char>>::ReportReady {
                spares: value,
            })
            &&& value < target && waited > 300_000_000_000 ==> after.action() == (Action::<
                Seq<char>,
            >::Fail { failure: Failure::WarmPool { target, spares: value } })
            &&& value < target && waited <= 300_000_000_000 ==> {
                &&& after.action() == (Action::<Seq<char>>::Sleep { millis: 200 })
                &&& after.after(EventView::Done) == setup
                &&& setup.action() == SetupView::by_admin(Statement::CountSpares)
            }
        }),
{
}

}
