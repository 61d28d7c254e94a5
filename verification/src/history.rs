//! Histories of runs: which actions a run takes for the events that it hears.
use vstd::prelude::*;

use crate::protocol::{Action, EventView};

verus! {

/// A run as contracts speak of it: it names its next action, and moves on past
/// an event.
pub trait Machine: Sized {
    /// What is to be done next.
    spec fn action(self) -> Action<Seq<char>>;

    /// The run behind an event.
    spec fn after(self, event: EventView) -> Self;

    /// A run whose action failed is over.
    proof fn lemma_failed(self)
        ensures
            self.after(EventView::Failed).action() is Fail,
    ;
}

/// A run behind a number of events.
pub open spec fn after_all<M: Machine>(run: M, events: Seq<EventView>) -> M
    decreases events.len(),
{
    if events.len() == 0 {
        run
    } else {
        after_all(run, events.drop_last()).after(events.last())
    }
}

/// The actions that these events came of.
pub open spec fn actions<M: Machine>(run: M, events: Seq<EventView>) -> Seq<Action<Seq<char>>>
    decreases events.len(),
{
    if events.len() == 0 {
        seq![]
    } else {
        actions(run, events.drop_last()).push(after_all(run, events.drop_last()).action())
    }
}

/// Every event is something that the action before it can lead to.
pub open spec fn answered<M: Machine>(run: M, events: Seq<EventView>) -> bool
    decreases events.len(),
{
    events.len() > 0 ==> {
        &&& answered(run, events.drop_last())
        &&& after_all(run, events.drop_last()).action().answered_by(events.last())
    }
}

pub broadcast proof fn lemma_push<M: Machine>(run: M, events: Seq<EventView>, event: EventView)
    ensures
        #![trigger after_all(run, events.push(event))]
        #![trigger actions(run, events.push(event))]
        #![trigger answered(run, events.push(event))]
        after_all(run, events.push(event)) == after_all(run, events).after(event),
        actions(run, events.push(event)) == actions(run, events).push(
            after_all(run, events).action(),
        ),
        answered(run, events.push(event)) <==> answered(run, events) && after_all(
            run,
            events,
        ).action().answered_by(event),
{
    assert(events.push(event).drop_last() =~= events);
}

/// The history of a run goes on where an earlier part of it ended.
pub proof fn lemma_concat<M: Machine>(run: M, first: Seq<EventView>, second: Seq<EventView>)
    ensures
        after_all(run, first + second) == after_all(after_all(run, first), second),
        actions(run, first + second) == actions(run, first) + actions(
            after_all(run, first),
            second,
        ),
        answered(run, first + second) <==> answered(run, first) && answered(
            after_all(run, first),
            second,
        ),
    decreases second.len(),
{
    if second.len() == 0 {
        assert(first + second =~= first);
        assert(actions(run, first) + Seq::<Action<Seq<char>>>::empty() =~= actions(run, first));
    } else {
        lemma_concat(run, first, second.drop_last());
        assert((first + second).drop_last() =~= first + second.drop_last());
        assert(actions(run, first + second) =~= actions(run, first) + actions(
            after_all(run, first),
            second,
        ));
    }
}

/// A number of actions done without an answer to decide on.
pub open spec fn dones(n: nat) -> Seq<EventView>
    decreases n,
{
    if n == 0 {
        seq![]
    } else {
        dones((n - 1) as nat).push(EventView::Done)
    }
}

pub proof fn lemma_dones_concat(a: nat, b: nat)
    ensures
        dones(a) + dones(b) == dones(a + b),
    decreases b,
{
    if b > 0 {
        lemma_dones_concat(a, (b - 1) as nat);
        assert(dones(a) + dones(b) =~= (dones(a) + dones((b - 1) as nat)).push(EventView::Done));
    } else {
        assert(dones(a) + dones(b) =~= dones(a));
    }
}

pub proof fn lemma_dones_at(n: nat)
    ensures
        dones(n).len() == n,
        forall|i: int| 0 <= i < n ==> #[trigger] dones(n)[i] == EventView::Done,
    decreases n,
{
    if n > 0 {
        lemma_dones_at((n - 1) as nat);
    }
}

/// A history at one of its moments.
pub proof fn lemma_moment<M: Machine>(run: M, events: Seq<EventView>, at: int)
    requires
        answered(run, events),
        0 <= at < events.len(),
    ensures
        answered(run, events.take(at)),
        actions(run, events).len() == events.len(),
        actions(run, events)[at] == after_all(run, events.take(at)).action(),
        actions(run, events)[at].answered_by(events[at]),
    decreases events.len(),
{
    if at == events.len() - 1 {
        assert(events.take(at) =~= events.drop_last());
        lemma_length(run, events);
    } else {
        lemma_moment(run, events.drop_last(), at);
        assert(events.take(at) =~= events.drop_last().take(at));
    }
}

pub proof fn lemma_length<M: Machine>(run: M, events: Seq<EventView>)
    ensures
        actions(run, events).len() == events.len(),
    decreases events.len(),
{
    if events.len() > 0 {
        lemma_length(run, events.drop_last());
    }
}

/// Behind the last action of a run nothing is heard: of two histories that agree
/// as far as the shorter one goes, and of which both come to an end, neither is
/// the longer one.
pub proof fn lemma_ends_agree<M: Machine>(run: M, first: Seq<EventView>, second: Seq<EventView>)
    requires
        answered(run, first),
        answered(run, second),
        after_all(run, first).action().is_last(),
        after_all(run, second).action().is_last(),
        forall|i: int| 0 <= i < first.len() && i < second.len() ==> first[i] == second[i],
    ensures
        first == second,
{
    if first.len() < second.len() {
        lemma_moment(run, second, first.len() as int);
        assert(second.take(first.len() as int) =~= first);
    } else if second.len() < first.len() {
        lemma_moment(run, first, second.len() as int);
        assert(first.take(second.len() as int) =~= second);
    } else {
        assert(first =~= second);
    }
}

/// A history that ends with success.
pub open spec fn succeeds<M: Machine>(run: M, events: Seq<EventView>) -> bool {
    answered(run, events) && after_all(run, events).action() is Finish
}

/// The action leads to nothing to decide on.
pub open spec fn reads_nothing(action: Action<Seq<char>>) -> bool {
    !action.is_last() && forall|event: EventView|
        #[trigger] action.answered_by(event) && event !is Failed ==> event is Done
}

/// A run that is to succeed and is not over hears of its action, and then goes
/// on to succeed.
pub proof fn lemma_front<M: Machine>(run: M, events: Seq<EventView>)
    requires
        succeeds(run, events),
        run.action() !is Finish,
    ensures
        events.len() > 0,
        events[0] !is Failed,
        run.action().answered_by(events[0]),
        succeeds(run.after(events[0]), events.skip(1)),
        events == seq![events[0]] + events.skip(1),
{
    let first = seq![events[0]];
    let rest = events.skip(1);
    assert(events =~= first + rest);
    assert(first.drop_last() =~= seq![]);
    lemma_concat(run, first, rest);
    assert(after_all(run, first) == run.after(events[0]));
    lemma_moment(run, events, 0);
    assert(events.take(0) =~= seq![]);
    if events[0] is Failed {
        run.lemma_failed();
        if rest.len() > 0 {
            lemma_moment(run.after(events[0]), rest, 0);
            assert(rest.take(0) =~= seq![]);
        }
    }
}

/// A run that is to succeed and reads nothing for a while hears as often that its
/// actions were done.
pub proof fn lemma_front_dones<M: Machine>(run: M, events: Seq<EventView>, n: nat)
    requires
        succeeds(run, events),
        forall|k: nat| k < n ==> reads_nothing((#[trigger] after_all(run, dones(k))).action()),
    ensures
        events.len() >= n,
        events == dones(n) + events.skip(n as int),
        succeeds(after_all(run, dones(n)), events.skip(n as int)),
    decreases n,
{
    if n == 0 {
        assert(events.skip(0) =~= events);
        assert(dones(0) + events.skip(0) =~= events);
    } else {
        let before = (n - 1) as nat;
        lemma_front_dones(run, events, before);
        let here = after_all(run, dones(before));
        let rest = events.skip(before as int);
        assert(reads_nothing(here.action()));
        lemma_front(here, rest);
        assert(rest.skip(1) =~= events.skip(n as int));
        lemma_push(run, dones(before), EventView::Done);
        lemma_dones_at(before);
        lemma_dones_at(n);
        assert(events =~= dones(n) + events.skip(n as int));
    }
}

/// Behind its last action a run hears nothing.
pub proof fn lemma_over<M: Machine>(run: M, events: Seq<EventView>)
    requires
        answered(run, events),
        run.action().is_last(),
    ensures
        events == Seq::<EventView>::empty(),
{
    if events.len() > 0 {
        lemma_moment(run, events, 0);
        assert(events.take(0) =~= seq![]);
    } else {
        assert(events =~= seq![]);
    }
}

pub proof fn lemma_associates(a: Seq<EventView>, b: Seq<EventView>, c: Seq<EventView>)
    ensures
        a + (b + c) == a + b + c,
{
    assert(a + (b + c) =~= a + b + c);
}

}
