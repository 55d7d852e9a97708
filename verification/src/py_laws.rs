//! What holds of every call in the Python runtime: what the interpreter does from the first step to
//! the last, and what comes of it.

use vstd::prelude::*;

use crate::js_laws::partials;
use crate::js_script::EmitType;
use crate::python_script::{
    advanced, advances, all_handed_over, handed_over, is_call, PyFailure, ScriptEvent, ScriptRun,
};

verus! {

/// What a result is.
pub enum Outcome {
    /// An object that can be handed over whole.
    Plain,
    /// An object that yields so many values.
    Yields(nat),
}

/// All that the interpreter does in a call in which nothing fails.
pub struct Story {
    /// Whether the name stands for something that can be called.
    pub callable: bool,
    /// Whether the result has to be run in an event loop.
    pub awaitable: bool,
    /// What the result is in the end.
    pub outcome: Outcome,
}

/// How the interpreter comes by the result.
pub open spec fn result_events<E>(callable: bool, awaitable: bool) -> Seq<ScriptEvent<E>> {
    let call = if callable {
        seq![
            ScriptEvent::Looked(Ok(Some(true))),
            ScriptEvent::Built(Ok(())),
            ScriptEvent::Called(Ok(())),
        ]
    } else {
        seq![ScriptEvent::Looked(Ok(Some(false)))]
    };
    if awaitable {
        call + seq![ScriptEvent::Answered(true), ScriptEvent::Ran(Ok(()))]
    } else {
        call + seq![ScriptEvent::Answered(false)]
    }
}

/// How so many values are yielded.
pub open spec fn yield_events<E>(count: nat) -> Seq<ScriptEvent<E>>
    decreases count,
{
    if count == 0 {
        Seq::empty()
    } else {
        yield_events((count - 1) as nat) + seq![
            ScriptEvent::Stepped(Ok(true)),
            ScriptEvent::Emitted(Ok(())),
        ]
    }
}

/// What the interpreter does with a result.
pub open spec fn outcome_events<E>(outcome: Outcome) -> Seq<ScriptEvent<E>> {
    match outcome {
        Outcome::Plain => seq![ScriptEvent::Answered(true), ScriptEvent::Emitted(Ok(()))],
        Outcome::Yields(count) => seq![ScriptEvent::Answered(false), ScriptEvent::Answered(true)]
            + yield_events(count) + seq![
            ScriptEvent::Stepped(Ok(false)),
            ScriptEvent::Emitted(Ok(())),
        ],
    }
}

/// What the interpreter does in a call in which nothing fails.
pub open spec fn story_events<E>(story: Story) -> Seq<ScriptEvent<E>> {
    result_events(story.callable, story.awaitable) + outcome_events(story.outcome)
}

/// What a call hands over: a plain result as the last value; of any other, each value that is
/// yielded as one of several, and then that there are no more.
pub open spec fn story_values(outcome: Outcome) -> Seq<EmitType> {
    match outcome {
        Outcome::Plain => seq![EmitType::End],
        Outcome::Yields(count) => partials(count).push(EmitType::End),
    }
}

/// Whether a call waits for what came, however it came out.
pub open spec fn waits_for<E>(run: ScriptRun<E>, event: ScriptEvent<E>) -> bool {
    match event {
        ScriptEvent::Looked(_) => run is Lookup,
        ScriptEvent::Built(_) => run is Build,
        ScriptEvent::Called(_) => run is Call,
        ScriptEvent::Answered(_) => run is AskAwaitable || run is AskPlain || run is AskIterable,
        ScriptEvent::Ran(_) => run is RunAsync,
        ScriptEvent::Stepped(_) => run is Next,
        ScriptEvent::Emitted(_) => run is Partial || run is End,
    }
}

/// The failure that a step reports, if it does.
pub open spec fn reported_failure<E>(event: ScriptEvent<E>) -> Option<PyFailure<E>> {
    match event {
        ScriptEvent::Looked(Err(e)) => Some(e),
        ScriptEvent::Built(Err(e)) => Some(e),
        ScriptEvent::Called(Err(e)) => Some(e),
        ScriptEvent::Ran(Err(e)) => Some(e),
        ScriptEvent::Stepped(Err(e)) => Some(e),
        ScriptEvent::Emitted(Err(e)) => Some(e),
        _ => None,
    }
}

/// Whether two events are about the same kind of step.
pub open spec fn same_step<E>(a: ScriptEvent<E>, b: ScriptEvent<E>) -> bool {
    match (a, b) {
        (ScriptEvent::Looked(_), ScriptEvent::Looked(_)) => true,
        (ScriptEvent::Built(_), ScriptEvent::Built(_)) => true,
        (ScriptEvent::Called(_), ScriptEvent::Called(_)) => true,
        (ScriptEvent::Ran(_), ScriptEvent::Ran(_)) => true,
        (ScriptEvent::Stepped(_), ScriptEvent::Stepped(_)) => true,
        (ScriptEvent::Emitted(_), ScriptEvent::Emitted(_)) => true,
        _ => false,
    }
}

/// What a call does not wait for changes nothing.
pub proof fn unexpected_event_changes_nothing<E>(
    name: Seq<char>,
    run: ScriptRun<E>,
    event: ScriptEvent<E>,
    next: ScriptRun<E>,
)
    requires
        !waits_for(run, event),
        advances(name, run, event, next),
    ensures
        next == run,
        handed_over(run, event) == Seq::<EmitType>::empty(),
{
}

/// After a failure nothing changes any more.
proof fn failure_stays<E>(
    name: Seq<char>,
    runs: Seq<ScriptRun<E>>,
    events: Seq<ScriptEvent<E>>,
    i: int,
    n: int,
)
    requires
        is_call(name, runs, events),
        0 <= i <= n <= events.len(),
        runs[i] matches ScriptRun::Finished(Err(_)),
    ensures
        runs[n] == runs[i],
        all_handed_over(runs.take(n + 1), events.take(n)) == all_handed_over(
            runs.take(i + 1),
            events.take(i),
        ),
    decreases n - i,
{
    if i < n {
        failure_stays(name, runs, events, i, n - 1);
        assert(advances(name, runs[n - 1], events[n - 1], runs[n - 1 + 1]));
        assert(events.take(n).drop_last() =~= events.take(n - 1));
        assert(runs.take(n + 1).drop_last() =~= runs.take(n));
        assert(handed_over(runs[n - 1], events[n - 1]).len() == 0);
        assert(all_handed_over(runs.take(n + 1), events.take(n)) =~= all_handed_over(
            runs.take(n),
            events.take(n - 1),
        ));
    }
}

/// Whatever the interpreter does: a failure that is reported in a step for which the call waits is
/// what comes of the call, and nothing is handed over after it. So a call that succeeds had no such
/// failure.
pub proof fn awaited_failure_ends_the_call<E>(
    name: Seq<char>,
    runs: Seq<ScriptRun<E>>,
    events: Seq<ScriptEvent<E>>,
    i: int,
)
    requires
        is_call(name, runs, events),
        0 <= i < events.len(),
        waits_for(runs[i], events[i]),
        reported_failure(events[i]) is Some,
    ensures
        runs.last() == ScriptRun::<E>::Finished(Err(reported_failure(events[i])->0)),
        runs.last() != ScriptRun::<E>::Finished(Ok(())),
        all_handed_over(runs, events) == all_handed_over(runs.take(i + 1), events.take(i)),
{
    let n = events.len() as int;
    assert(advances(name, runs[i], events[i], runs[i + 1]));
    assert(runs[i + 1] == ScriptRun::<E>::Finished(Err(reported_failure(events[i])->0)));
    failure_stays(name, runs, events, i + 1, n);
    assert(runs.take(n + 1) =~= runs);
    assert(events.take(n) =~= events);
    assert(events.take(i + 1).drop_last() =~= events.take(i));
    assert(runs.take(i + 2).drop_last() =~= runs.take(i + 1));
    assert(handed_over(runs[i], events[i]).len() == 0);
    assert(all_handed_over(runs.take(i + 2), events.take(i + 1)) =~= all_handed_over(
        runs.take(i + 1),
        events.take(i),
    ));
}

/// The states of a call until its result is there.
spec fn result_runs<E>(callable: bool, awaitable: bool) -> Seq<ScriptRun<E>> {
    let call = if callable {
        seq![ScriptRun::Lookup, ScriptRun::Build, ScriptRun::Call, ScriptRun::AskAwaitable]
    } else {
        seq![ScriptRun::Lookup, ScriptRun::AskAwaitable]
    };
    if awaitable {
        call + seq![ScriptRun::RunAsync, ScriptRun::AskPlain]
    } else {
        call + seq![ScriptRun::AskPlain]
    }
}

/// The states of a call while values are yielded, without the first.
spec fn yield_runs<E>(count: nat) -> Seq<ScriptRun<E>>
    decreases count,
{
    if count == 0 {
        Seq::empty()
    } else {
        yield_runs((count - 1) as nat) + seq![ScriptRun::Partial, ScriptRun::Next]
    }
}

/// The states of a call after its result is there.
spec fn outcome_runs<E>(outcome: Outcome) -> Seq<ScriptRun<E>> {
    match outcome {
        Outcome::Plain => seq![ScriptRun::End { empty: false }, ScriptRun::Finished(Ok(()))],
        Outcome::Yields(count) => seq![ScriptRun::AskIterable, ScriptRun::Next] + yield_runs(count)
            + seq![ScriptRun::End { empty: true }, ScriptRun::Finished(Ok(()))],
    }
}

/// Whether a call that is in a state goes through others, waiting for each event.
spec fn goes_through<E>(
    run: ScriptRun<E>,
    events: Seq<ScriptEvent<E>>,
    runs: Seq<ScriptRun<E>>,
) -> bool
    decreases events.len(),
{
    &&& runs.len() == events.len()
    &&& events.len() > 0 ==> {
        &&& waits_for(run, events[0])
        &&& events[0] != ScriptEvent::<E>::Looked(Ok(None))
        &&& runs[0] == advanced(run, events[0])
        &&& goes_through(runs[0], events.skip(1), runs.skip(1))
    }
}

/// The last of several states.
spec fn end_of<E>(run: ScriptRun<E>, runs: Seq<ScriptRun<E>>) -> ScriptRun<E> {
    if runs.len() == 0 {
        run
    } else {
        runs.last()
    }
}

/// One after the other.
proof fn goes_on<E>(
    run: ScriptRun<E>,
    a: Seq<ScriptEvent<E>>,
    x: Seq<ScriptRun<E>>,
    b: Seq<ScriptEvent<E>>,
    y: Seq<ScriptRun<E>>,
)
    requires
        goes_through(run, a, x),
        goes_through(end_of(run, x), b, y),
    ensures
        goes_through(run, a + b, x + y),
    decreases a.len(),
{
    if a.len() == 0 {
        assert(a + b =~= b);
        assert(x + y =~= y);
    } else {
        assert(end_of(x[0], x.skip(1)) == end_of(run, x));
        goes_on(x[0], a.skip(1), x.skip(1), b, y);
        assert((a + b).skip(1) =~= a.skip(1) + b);
        assert((x + y).skip(1) =~= x.skip(1) + y);
    }
}

/// One event.
proof fn goes_one<E>(run: ScriptRun<E>, event: ScriptEvent<E>, next: ScriptRun<E>)
    requires
        waits_for(run, event),
        event != ScriptEvent::<E>::Looked(Ok(None)),
        next == advanced(run, event),
    ensures
        goes_through(run, seq![event], seq![next]),
{
    assert(seq![event].skip(1) =~= Seq::<ScriptEvent<E>>::empty());
    assert(goes_through(next, seq![event].skip(1), seq![next].skip(1)));
}

/// Two events.
proof fn goes_two<E>(
    run: ScriptRun<E>,
    a: ScriptEvent<E>,
    x: ScriptRun<E>,
    b: ScriptEvent<E>,
    y: ScriptRun<E>,
)
    requires
        waits_for(run, a),
        a != ScriptEvent::<E>::Looked(Ok(None)),
        x == advanced(run, a),
        waits_for(x, b),
        b != ScriptEvent::<E>::Looked(Ok(None)),
        y == advanced(x, b),
    ensures
        goes_through(run, seq![a, b], seq![x, y]),
{
    goes_one(run, a, x);
    goes_one(x, b, y);
    goes_on(run, seq![a], seq![x], seq![b], seq![y]);
    assert(seq![a] + seq![b] =~= seq![a, b]);
    assert(seq![x] + seq![y] =~= seq![x, y]);
}

/// While values are yielded.
proof fn goes_through_yields<E>(count: nat)
    ensures
        goes_through(ScriptRun::<E>::Next, yield_events(count), yield_runs(count)),
        end_of(ScriptRun::<E>::Next, yield_runs(count)) == ScriptRun::<E>::Next,
    decreases count,
{
    if count > 0 {
        let before = (count - 1) as nat;
        goes_through_yields::<E>(before);
        goes_two(
            ScriptRun::<E>::Next,
            ScriptEvent::Stepped(Ok(true)),
            ScriptRun::Partial,
            ScriptEvent::Emitted(Ok(())),
            ScriptRun::Next,
        );
        goes_on(
            ScriptRun::<E>::Next,
            yield_events(before),
            yield_runs(before),
            seq![ScriptEvent::Stepped(Ok(true)), ScriptEvent::Emitted(Ok(()))],
            seq![ScriptRun::Partial, ScriptRun::Next],
        );
    }
}

/// Until the result is there.
proof fn goes_through_call<E>(callable: bool, awaitable: bool)
    ensures
        goes_through(
            ScriptRun::<E>::Lookup,
            result_events(callable, awaitable),
            result_runs::<E>(callable, awaitable).skip(1),
        ),
        result_runs::<E>(callable, awaitable).last() == ScriptRun::<E>::AskPlain,
{
    let start = ScriptRun::<E>::Lookup;
    let ask = ScriptRun::<E>::AskAwaitable;
    let call: Seq<ScriptEvent<E>> = if callable {
        seq![
            ScriptEvent::Looked(Ok(Some(true))),
            ScriptEvent::Built(Ok(())),
            ScriptEvent::Called(Ok(())),
        ]
    } else {
        seq![ScriptEvent::Looked(Ok(Some(false)))]
    };
    let called: Seq<ScriptRun<E>> = if callable {
        seq![ScriptRun::Build, ScriptRun::Call, ask]
    } else {
        seq![ask]
    };
    if callable {
        goes_two(start, call[0], ScriptRun::Build, call[1], ScriptRun::Call);
        goes_one(ScriptRun::<E>::Call, call[2], ask);
        goes_on(
            start,
            seq![call[0], call[1]],
            seq![ScriptRun::Build, ScriptRun::Call],
            seq![call[2]],
            seq![ask],
        );
        assert(seq![call[0], call[1]] + seq![call[2]] =~= call);
        assert(seq![ScriptRun::<E>::Build, ScriptRun::Call] + seq![ask] =~= called);
    } else {
        goes_one(start, call[0], ask);
    }
    if awaitable {
        goes_two(
            ask,
            ScriptEvent::Answered(true),
            ScriptRun::RunAsync,
            ScriptEvent::Ran(Ok(())),
            ScriptRun::AskPlain,
        );
        goes_on(
            start,
            call,
            called,
            seq![ScriptEvent::Answered(true), ScriptEvent::Ran(Ok(()))],
            seq![ScriptRun::RunAsync, ScriptRun::AskPlain],
        );
        assert(result_runs::<E>(callable, awaitable).skip(1) =~= called + seq![
            ScriptRun::<E>::RunAsync,
            ScriptRun::AskPlain,
        ]);
    } else {
        goes_one(ask, ScriptEvent::Answered(false), ScriptRun::AskPlain);
        goes_on(
            start,
            call,
            called,
            seq![ScriptEvent::Answered(false)],
            seq![ScriptRun::AskPlain],
        );
        assert(result_runs::<E>(callable, awaitable).skip(1) =~= called + seq![
            ScriptRun::<E>::AskPlain,
        ]);
    }
}

/// After the result is there.
proof fn goes_through_outcome<E>(outcome: Outcome)
    ensures
        goes_through(
            ScriptRun::<E>::AskPlain,
            outcome_events(outcome),
            outcome_runs(outcome),
        ),
{
    match outcome {
        Outcome::Plain => {
            goes_two(
                ScriptRun::<E>::AskPlain,
                ScriptEvent::Answered(true),
                ScriptRun::End { empty: false },
                ScriptEvent::Emitted(Ok(())),
                ScriptRun::Finished(Ok(())),
            );
        },
        Outcome::Yields(count) => {
            let asked: Seq<ScriptEvent<E>> = seq![
                ScriptEvent::Answered(false),
                ScriptEvent::Answered(true),
            ];
            let asking: Seq<ScriptRun<E>> = seq![ScriptRun::AskIterable, ScriptRun::Next];
            goes_two(
                ScriptRun::<E>::AskPlain,
                asked[0],
                ScriptRun::AskIterable,
                asked[1],
                ScriptRun::Next,
            );
            goes_through_yields::<E>(count);
            goes_on(
                ScriptRun::<E>::AskPlain,
                asked,
                asking,
                yield_events(count),
                yield_runs(count),
            );
            assert(end_of(ScriptRun::<E>::AskPlain, asking + yield_runs::<E>(count))
                == ScriptRun::<E>::Next) by {
                if count > 0 {
                    assert((asking + yield_runs::<E>(count)).last() == yield_runs::<E>(
                        count,
                    ).last());
                } else {
                    assert(asking + yield_runs::<E>(count) =~= asking);
                }
            }
            goes_two(
                ScriptRun::<E>::Next,
                ScriptEvent::Stepped(Ok(false)),
                ScriptRun::End { empty: true },
                ScriptEvent::Emitted(Ok(())),
                ScriptRun::Finished(Ok(())),
            );
            goes_on(
                ScriptRun::<E>::AskPlain,
                asked + yield_events(count),
                asking + yield_runs(count),
                seq![ScriptEvent::Stepped(Ok(false)), ScriptEvent::Emitted(Ok(()))],
                seq![ScriptRun::End { empty: true }, ScriptRun::Finished(Ok(()))],
            );
        },
    }
}

/// The states of a call of a story, without the first.
spec fn story_runs<E>(story: Story) -> Seq<ScriptRun<E>> {
    result_runs(story.callable, story.awaitable).skip(1) + outcome_runs(story.outcome)
}

/// Throughout a story.
proof fn goes_through_story<E>(story: Story)
    ensures
        goes_through(ScriptRun::<E>::Lookup, story_events(story), story_runs(story)),
{
    let call = result_runs::<E>(story.callable, story.awaitable).skip(1);
    goes_through_call::<E>(story.callable, story.awaitable);
    goes_through_outcome::<E>(story.outcome);
    assert(end_of(ScriptRun::<E>::Lookup, call) == ScriptRun::<E>::AskPlain);
    goes_on(
        ScriptRun::<E>::Lookup,
        result_events(story.callable, story.awaitable),
        call,
        outcome_events(story.outcome),
        outcome_runs(story.outcome),
    );
}

/// A call in which these events come goes through these states, and waits for each event.
proof fn call_goes_through<E>(
    name: Seq<char>,
    runs: Seq<ScriptRun<E>>,
    events: Seq<ScriptEvent<E>>,
    known: Seq<ScriptEvent<E>>,
    states: Seq<ScriptRun<E>>,
    n: int,
)
    requires
        is_call(name, runs, events),
        goes_through(ScriptRun::<E>::Lookup, known, states),
        0 <= n <= known.len(),
        n <= events.len(),
        forall|i: int| 0 <= i < n ==> #[trigger] events[i] == known[i],
    ensures
        runs[n] == if n == 0 {
            ScriptRun::<E>::Lookup
        } else {
            states[n - 1]
        },
        n < known.len() ==> waits_for(runs[n], known[n]),
    decreases n,
{
    through_at(ScriptRun::<E>::Lookup, known, states, n);
    if n > 0 {
        call_goes_through(name, runs, events, known, states, n - 1);
        through_at(ScriptRun::<E>::Lookup, known, states, n - 1);
        assert(events[n - 1] == known[n - 1]);
        assert(advances(name, runs[n - 1], events[n - 1], runs[n - 1 + 1]));
    }
}

/// What holds at one of the events.
proof fn through_at<E>(
    run: ScriptRun<E>,
    events: Seq<ScriptEvent<E>>,
    states: Seq<ScriptRun<E>>,
    n: int,
)
    requires
        goes_through(run, events, states),
        0 <= n <= events.len(),
    ensures
        states.len() == events.len(),
        n < events.len() ==> ({
            let before = if n == 0 {
                run
            } else {
                states[n - 1]
            };
            &&& waits_for(before, events[n])
            &&& events[n] != ScriptEvent::<E>::Looked(Ok(None))
            &&& states[n] == advanced(before, events[n])
        }),
    decreases n,
{
    if 0 < n && n < events.len() {
        through_at(states[0], events.skip(1), states.skip(1), n - 1);
    }
}

/// What was handed over in a call, of which these are the states.
proof fn handed_over_of<E>(
    runs: Seq<ScriptRun<E>>,
    events: Seq<ScriptEvent<E>>,
    from: int,
    n: int,
)
    requires
        runs.len() == events.len() + 1,
        0 <= from <= n <= events.len(),
        forall|i: int| from <= i < n ==> handed_over(runs[i], #[trigger] events[i]).len() == 0,
    ensures
        all_handed_over(runs.take(n + 1), events.take(n)) == all_handed_over(
            runs.take(from + 1),
            events.take(from),
        ),
    decreases n - from,
{
    if from < n {
        handed_over_of(runs, events, from, n - 1);
        assert(events.take(n).drop_last() =~= events.take(n - 1));
        assert(runs.take(n + 1).drop_last() =~= runs.take(n));
        assert(handed_over(runs[n - 1], events[n - 1]).len() == 0);
        assert(all_handed_over(runs.take(n + 1), events.take(n)) =~= all_handed_over(
            runs.take(n),
            events.take(n - 1),
        ));
    }
}

/// What is handed over from one state on.
spec fn shown<E>(
    run: ScriptRun<E>,
    events: Seq<ScriptEvent<E>>,
    states: Seq<ScriptRun<E>>,
) -> Seq<EmitType>
    decreases events.len(),
{
    if events.len() == 0 {
        Seq::empty()
    } else {
        handed_over(run, events[0]) + shown(states[0], events.skip(1), states.skip(1))
    }
}

/// One after the other.
proof fn shown_in_turn<E>(
    run: ScriptRun<E>,
    a: Seq<ScriptEvent<E>>,
    x: Seq<ScriptRun<E>>,
    b: Seq<ScriptEvent<E>>,
    y: Seq<ScriptRun<E>>,
)
    requires
        a.len() == x.len(),
        b.len() == y.len(),
    ensures
        shown(run, a + b, x + y) == shown(run, a, x) + shown(end_of(run, x), b, y),
    decreases a.len(),
{
    if a.len() == 0 {
        assert(a + b =~= b);
        assert(x + y =~= y);
        assert(shown(run, a, x) + shown(run, b, y) =~= shown(run, b, y));
    } else {
        assert(end_of(x[0], x.skip(1)) == end_of(run, x));
        shown_in_turn(x[0], a.skip(1), x.skip(1), b, y);
        assert((a + b).skip(1) =~= a.skip(1) + b);
        assert((x + y).skip(1) =~= x.skip(1) + y);
        let step = handed_over(run, a[0]);
        let later = shown(x[0], a.skip(1), x.skip(1));
        let last = shown(end_of(run, x), b, y);
        assert(step + (later + last) =~= (step + later) + last);
    }
}

/// Where no value is handed over.
proof fn shown_nothing<E>(
    run: ScriptRun<E>,
    events: Seq<ScriptEvent<E>>,
    states: Seq<ScriptRun<E>>,
)
    requires
        forall|i: int| 0 <= i < events.len() ==> (#[trigger] events[i]) !is Emitted,
    ensures
        shown(run, events, states) == Seq::<EmitType>::empty(),
    decreases events.len(),
{
    if events.len() > 0 {
        assert(events[0] !is Emitted);
        assert forall|i: int| 0 <= i < events.skip(1).len() implies (
        #[trigger] events.skip(1)[i]) !is Emitted by {
            assert(events.skip(1)[i] == events[i + 1]);
        }
        shown_nothing(states[0], events.skip(1), states.skip(1));
        assert(shown(run, events, states) =~= Seq::<EmitType>::empty());
    }
}

/// A value is drawn or not, and then handed over.
proof fn shown_value<E>(
    run: ScriptRun<E>,
    event: ScriptEvent<E>,
    from: ScriptRun<E>,
    next: ScriptRun<E>,
)
    requires
        event !is Emitted,
        from is Partial || from is End,
    ensures
        shown(run, seq![event, ScriptEvent::Emitted(Ok(()))], seq![from, next]) == seq![
            if from is Partial {
                EmitType::PartialResult
            } else {
                EmitType::End
            },
        ],
{
    let events = seq![event, ScriptEvent::<E>::Emitted(Ok(()))];
    let states = seq![from, next];
    let later = events.skip(1);
    assert(later[0] == ScriptEvent::<E>::Emitted(Ok(())));
    assert(later.skip(1) =~= Seq::<ScriptEvent<E>>::empty());
    assert(shown(next, later.skip(1), states.skip(1).skip(1)) == Seq::<EmitType>::empty());
    assert(states.skip(1)[0] == next);
    assert(shown(from, later, states.skip(1)) =~= handed_over(from, later[0]));
    assert(shown(run, events, states) =~= shown(from, later, states.skip(1)));
}

/// While values are yielded.
proof fn shown_yields<E>(count: nat)
    ensures
        shown(ScriptRun::<E>::Next, yield_events(count), yield_runs(count)) == partials(count),
    decreases count,
{
    let run = ScriptRun::<E>::Next;
    goes_through_yields::<E>(count);
    if count == 0 {
        assert(shown(run, yield_events(count), yield_runs(count)) =~= partials(0));
    } else {
        let before = (count - 1) as nat;
        shown_yields::<E>(before);
        goes_through_yields::<E>(before);
        shown_value(run, ScriptEvent::Stepped(Ok(true)), ScriptRun::Partial, run);
        shown_in_turn(
            run,
            yield_events(before),
            yield_runs(before),
            seq![ScriptEvent::Stepped(Ok(true)), ScriptEvent::Emitted(Ok(()))],
            seq![ScriptRun::Partial, run],
        );
        assert(partials(before) + seq![EmitType::PartialResult] =~= partials(count));
    }
}

/// What is handed over of a result.
proof fn shown_outcome<E>(outcome: Outcome)
    ensures
        shown(ScriptRun::<E>::AskPlain, outcome_events(outcome), outcome_runs(outcome))
            == story_values(outcome),
{
    let run = ScriptRun::<E>::AskPlain;
    match outcome {
        Outcome::Plain => {
            shown_value(
                run,
                ScriptEvent::Answered(true),
                ScriptRun::End { empty: false },
                ScriptRun::Finished(Ok(())),
            );
        },
        Outcome::Yields(count) => {
            let asked: Seq<ScriptEvent<E>> = seq![
                ScriptEvent::Answered(false),
                ScriptEvent::Answered(true),
            ];
            let asking: Seq<ScriptRun<E>> = seq![ScriptRun::AskIterable, ScriptRun::Next];
            let yields = yield_events::<E>(count);
            let yielding = yield_runs::<E>(count);
            let last: Seq<ScriptEvent<E>> = seq![
                ScriptEvent::Stepped(Ok(false)),
                ScriptEvent::Emitted(Ok(())),
            ];
            let ending: Seq<ScriptRun<E>> = seq![
                ScriptRun::End { empty: true },
                ScriptRun::Finished(Ok(())),
            ];
            goes_through_yields::<E>(count);
            shown_nothing(run, asked, asking);
            shown_yields::<E>(count);
            shown_value(
                ScriptRun::<E>::Next,
                ScriptEvent::Stepped(Ok(false)),
                ScriptRun::End { empty: true },
                ScriptRun::Finished(Ok(())),
            );
            shown_in_turn(run, asked, asking, yields, yielding);
            shown_in_turn(run, asked + yields, asking + yielding, last, ending);
            assert(Seq::<EmitType>::empty() + partials(count) =~= partials(count));
            assert(partials(count) + seq![EmitType::End] =~= partials(count).push(EmitType::End));
        },
    }
}

/// What is handed over throughout a story.
proof fn shown_story<E>(story: Story)
    ensures
        shown(ScriptRun::<E>::Lookup, story_events(story), story_runs(story)) == story_values(
            story.outcome,
        ),
{
    let run = ScriptRun::<E>::Lookup;
    let call = result_events::<E>(story.callable, story.awaitable);
    let called = result_runs::<E>(story.callable, story.awaitable).skip(1);
    goes_through_call::<E>(story.callable, story.awaitable);
    goes_through_outcome::<E>(story.outcome);
    assert(end_of(run, called) == ScriptRun::<E>::AskPlain);
    shown_nothing(run, call, called);
    shown_outcome::<E>(story.outcome);
    shown_in_turn(
        run,
        call,
        called,
        outcome_events(story.outcome),
        outcome_runs(story.outcome),
    );
    assert(Seq::<EmitType>::empty() + story_values(story.outcome) =~= story_values(
        story.outcome,
    ));
}

/// What is handed over is the same, counted from the first state or from the last.
proof fn shown_is_handed_over<E>(
    run: ScriptRun<E>,
    events: Seq<ScriptEvent<E>>,
    states: Seq<ScriptRun<E>>,
)
    requires
        events.len() == states.len(),
    ensures
        all_handed_over(seq![run] + states, events) == shown(run, events, states),
    decreases events.len(),
{
    if events.len() > 0 {
        let front = events.drop_last();
        let earlier = states.drop_last();
        let n = events.len() - 1;
        let last = seq![events.last()];
        let state = seq![states.last()];
        shown_is_handed_over(run, front, earlier);
        assert((seq![run] + states).drop_last() =~= seq![run] + earlier);
        assert(front + last =~= events);
        assert(earlier + state =~= states);
        shown_in_turn(run, front, earlier, last, state);
        let before = end_of(run, earlier);
        assert((seq![run] + states)[n] == before);
        assert(last.skip(1) =~= Seq::<ScriptEvent<E>>::empty());
        assert(shown(state[0], last.skip(1), state.skip(1)) == Seq::<EmitType>::empty());
        assert(shown(before, last, state) =~= handed_over(before, events.last()));
    }
}

/// A call in which nothing fails succeeds, and hands over what its result is: a plain result as it
/// is, and of one that yields values each of them, in turn, and then that there are no more.
pub proof fn call_hands_over_its_result<E>(
    name: Seq<char>,
    runs: Seq<ScriptRun<E>>,
    story: Story,
)
    requires
        is_call(name, runs, story_events(story)),
    ensures
        runs.last() == ScriptRun::<E>::Finished(Ok(())),
        runs[runs.len() - 2] == (ScriptRun::<E>::End { empty: story.outcome is Yields }),
        all_handed_over(runs, story_events(story)) == story_values(story.outcome),
{
    let start = ScriptRun::<E>::Lookup;
    let events = story_events::<E>(story);
    let states = story_runs::<E>(story);
    let total = events.len() as int;
    goes_through_story::<E>(story);
    goes_through_outcome::<E>(story.outcome);
    through_at(start, events, states, 0);
    assert forall|n: int| 0 <= n < runs.len() implies runs[n] == #[trigger] (seq![start]
        + states)[n] by {
        call_goes_through(name, runs, events, events, states, n);
    }
    assert(runs =~= seq![start] + states);
    assert(states.last() == outcome_runs::<E>(story.outcome).last());
    assert(states[total - 2] == outcome_runs::<E>(
        story.outcome,
    )[outcome_runs::<E>(story.outcome).len() - 2]);
    shown_story::<E>(story);
    shown_is_handed_over(start, events, states);
}

/// No step of a call goes unheard: where one of its steps fails in place of what it gave, the call
/// fails so, after what was handed over before.
pub proof fn every_step_may_fail<E>(
    name: Seq<char>,
    runs: Seq<ScriptRun<E>>,
    story: Story,
    i: int,
    failure: ScriptEvent<E>,
)
    requires
        0 <= i < story_events::<E>(story).len(),
        same_step(story_events::<E>(story)[i], failure),
        reported_failure(failure) is Some,
        is_call(name, runs, story_events::<E>(story).take(i).push(failure)),
    ensures
        runs.last() == ScriptRun::<E>::Finished(Err(reported_failure(failure)->0)),
        all_handed_over(runs, story_events::<E>(story).take(i).push(failure)) == all_handed_over(
            runs.take(i + 1),
            story_events::<E>(story).take(i),
        ),
{
    let known = story_events::<E>(story);
    let events = known.take(i).push(failure);
    goes_through_story::<E>(story);
    call_goes_through(name, runs, events, known, story_runs::<E>(story), i);
    assert(events.take(i) =~= known.take(i));
    awaited_failure_ends_the_call(name, runs, events, i);
}

/// A result that is neither plain nor yields values is refused, and nothing is handed over.
pub proof fn other_results_are_refused<E>(
    name: Seq<char>,
    runs: Seq<ScriptRun<E>>,
    callable: bool,
    awaitable: bool,
)
    requires
        is_call(
            name,
            runs,
            result_events::<E>(callable, awaitable) + seq![
                ScriptEvent::Answered(false),
                ScriptEvent::Answered(false),
            ],
        ),
    ensures
        runs.last() == ScriptRun::<E>::Finished(
            Err(PyFailure::UnexpectedError("Return type is not serializable or iterable")),
        ),
        all_handed_over(
            runs,
            result_events::<E>(callable, awaitable) + seq![
                ScriptEvent::Answered(false),
                ScriptEvent::Answered(false),
            ],
        ) == Seq::<EmitType>::empty(),
{
    let call = result_events::<E>(callable, awaitable);
    let states = result_runs::<E>(callable, awaitable).skip(1);
    let asked: Seq<ScriptEvent<E>> = seq![
        ScriptEvent::Answered(false),
        ScriptEvent::Answered(false),
    ];
    let events = call + asked;
    let refused = ScriptRun::<E>::Finished(
        Err(PyFailure::UnexpectedError("Return type is not serializable or iterable")),
    );
    let total = events.len() as int;
    goes_through_call::<E>(callable, awaitable);
    goes_two(ScriptRun::<E>::AskPlain, asked[0], ScriptRun::AskIterable, asked[1], refused);
    assert(end_of(ScriptRun::<E>::Lookup, states) == ScriptRun::<E>::AskPlain);
    goes_on(
        ScriptRun::<E>::Lookup,
        call,
        states,
        asked,
        seq![ScriptRun::AskIterable, refused],
    );
    call_goes_through(
        name,
        runs,
        events,
        events,
        states + seq![ScriptRun::AskIterable, refused],
        total,
    );
    handed_over_of(runs, events, 0, total);
    assert(runs.take(total + 1) =~= runs);
    assert(events.take(total) =~= events);
    assert(all_handed_over(runs.take(1), events.take(0)) == Seq::<EmitType>::empty());
}

} // verus!
