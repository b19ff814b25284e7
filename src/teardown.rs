//! How a relay winds down: the first of its two units to end has the other
//! cancelled, and the record is removed once both have stopped, exactly once.
use vstd::prelude::*;

verus! {

/// One of the two units of work of a relay.
#[derive(Clone, Copy, Debug, PartialEq, Eq, Structural)]
pub enum Unit {
    /// Reads frames from the transport.
    Reader,
    /// Writes queued frames to the transport.
    Writer,
}

/// Where a relay stands in its teardown.
#[derive(Clone, Copy, Debug, PartialEq, Eq, Structural)]
pub enum Teardown {
    /// Both units run.
    Running,
    /// One unit ended; the named one is being cancelled.
    Stopping(Unit),
    /// Both units stopped and the record was removed.
    Finished,
}

/// What the relay does on the end of a unit.
#[derive(Clone, Copy, Debug, PartialEq, Eq, Structural)]
pub enum TeardownAction {
    Cancel(Unit),
    Deregister,
    Nothing,
}

/// The unit that is not `u`.
pub open spec fn other(u: Unit) -> Unit {
    match u {
        Unit::Reader => Unit::Writer,
        Unit::Writer => Unit::Reader,
    }
}

/// The next state and action when `ended` reports that it stopped.
pub open spec fn teardown_step(state: Teardown, ended: Unit) -> (Teardown, TeardownAction) {
    match state {
        Teardown::Running => (Teardown::Stopping(other(ended)), TeardownAction::Cancel(other(ended))),
        Teardown::Stopping(waiting) => if ended == waiting {
            (Teardown::Finished, TeardownAction::Deregister)
        } else {
            (state, TeardownAction::Nothing)
        },
        Teardown::Finished => (state, TeardownAction::Nothing),
    }
}

/// The state after the ends in `events`, from a relay whose units both run.
pub open spec fn teardown_state(events: Seq<Unit>) -> Teardown
    decreases events.len(),
{
    if events.len() == 0 {
        Teardown::Running
    } else {
        teardown_step(teardown_state(events.drop_last()), events.last()).0
    }
}

/// How many times the ends in `events` lead to removing the record.
pub open spec fn deregistrations(events: Seq<Unit>) -> nat
    decreases events.len(),
{
    if events.len() == 0 {
        0
    } else {
        deregistrations(events.drop_last()) + if teardown_step(
            teardown_state(events.drop_last()),
            events.last(),
        ).1 == TeardownAction::Deregister {
            1nat
        } else {
            0nat
        }
    }
}

/// Advances the teardown when `ended` reports that it stopped: the first end
/// cancels the other unit, the end of that other unit removes the record,
/// and anything else does nothing.
pub fn on_unit_ended(state: Teardown, ended: Unit) -> (r: (Teardown, TeardownAction))
    ensures
        r == teardown_step(state, ended),
{
    let o = match ended {
        Unit::Reader => Unit::Writer,
        Unit::Writer => Unit::Reader,
    };
    match state {
        Teardown::Running => (Teardown::Stopping(o), TeardownAction::Cancel(o)),
        Teardown::Stopping(waiting) => {
            if ended == waiting {
                (Teardown::Finished, TeardownAction::Deregister)
            } else {
                (state, TeardownAction::Nothing)
            }
        },
        Teardown::Finished => (state, TeardownAction::Nothing),
    }
}

proof fn lemma_count_by_state(events: Seq<Unit>)
    ensures
        deregistrations(events) == if teardown_state(events) == Teardown::Finished {
            1nat
        } else {
            0nat
        },
    decreases events.len(),
{
    if events.len() > 0 {
        lemma_count_by_state(events.drop_last());
    }
}

proof fn lemma_finished_once_both_ended(events: Seq<Unit>)
    ensures
        (exists|i: int| 0 <= i < events.len() && events[i] == Unit::Reader) && (exists|i: int|
            0 <= i < events.len() && events[i] == Unit::Writer) ==> teardown_state(events)
            == Teardown::Finished,
        teardown_state(events) matches Teardown::Stopping(w) ==> forall|i: int|
            0 <= i < events.len() ==> events[i] != w,
        teardown_state(events) == Teardown::Running ==> events.len() == 0,
    decreases events.len(),
{
    if events.len() > 0 {
        let rest = events.drop_last();
        lemma_finished_once_both_ended(rest);
        assert forall|i: int| 0 <= i < rest.len() implies rest[i] == events[i] by {}
        let last = events.last();
        assert(events[events.len() - 1] == last);
        if (exists|i: int| 0 <= i < events.len() && events[i] == Unit::Reader) && (exists|i: int|
            0 <= i < events.len() && events[i] == Unit::Writer) {
            let ir = choose|i: int| 0 <= i < events.len() && events[i] == Unit::Reader;
            let iw = choose|i: int| 0 <= i < events.len() && events[i] == Unit::Writer;
            match teardown_state(rest) {
                Teardown::Running => {
                    assert(rest.len() == 0);
                    assert(ir == 0 && iw == 0);
                },
                Teardown::Stopping(w) => {
                    if last != w {
                        if w == Unit::Reader {
                            assert(ir == events.len() - 1);
                        } else {
                            assert(iw == events.len() - 1);
                        }
                    }
                },
                Teardown::Finished => {},
            }
        }
    }
}

/// Whatever the order in which the two units report their ends, and however
/// often, the record is removed at most once, and it has been removed once
/// both units have ended.
pub proof fn lemma_deregister_exactly_once(events: Seq<Unit>)
    ensures
        deregistrations(events) <= 1,
        (exists|i: int| 0 <= i < events.len() && events[i] == Unit::Reader) && (exists|i: int|
            0 <= i < events.len() && events[i] == Unit::Writer) ==> deregistrations(events) == 1,
{
    lemma_count_by_state(events);
    lemma_finished_once_both_ended(events);
}

} // verus!
