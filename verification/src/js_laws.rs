//! What holds of every call in the JavaScript runtime: what the engine does from the first step to
//! the last, and what comes of it.

use vstd::prelude::*;

use crate::js_script::{
    advanced, after_events, all_handed_over, handed_over, plain_error, EmitType, JsError,
    ScriptEvent, ScriptRun, Source,
};

verus! {

/// What a name stands for.
pub enum Callee {
    /// A value that is no function.
    Value,
    /// A function, which returns a promise or something else.
    Function { promise: bool },
}

/// One value that is drawn from a result: whether the step that gives it is a promise, and whether
/// the value is undefined.
pub struct Step {
    pub promise: bool,
    pub undefined: bool,
}

/// What a result is.
pub enum Outcome {
    /// A value that can be handed over whole.
    Plain,
    /// A source of values, of which these are drawn before the step that is the last.
    Drawn { source: Source, steps: Seq<Step>, last: Step },
}

/// All that the engine does in a call in which nothing fails.
pub struct Story {
    pub callee: Callee,
    pub outcome: Outcome,
}

/// How the engine comes by the result.
pub open spec fn result_events(callee: Callee) -> Seq<ScriptEvent> {
    match callee {
        Callee::Value => seq![ScriptEvent::Looked(Ok(Some(false))), ScriptEvent::Checked(Ok(()))],
        Callee::Function { promise } => if promise {
            seq![
                ScriptEvent::Looked(Ok(Some(true))),
                ScriptEvent::Built(Ok(())),
                ScriptEvent::Called(Ok(true)),
                ScriptEvent::Checked(Ok(())),
                ScriptEvent::Driven(Ok(())),
                ScriptEvent::Checked(Ok(())),
            ]
        } else {
            seq![
                ScriptEvent::Looked(Ok(Some(true))),
                ScriptEvent::Built(Ok(())),
                ScriptEvent::Called(Ok(false)),
                ScriptEvent::Checked(Ok(())),
                ScriptEvent::Checked(Ok(())),
            ]
        },
    }
}

/// What the engine answers about a source of values: it is no asynchronous iterator, no generator,
/// no plain value, until it is one.
pub open spec fn source_answers(source: Source) -> Seq<ScriptEvent> {
    match source {
        Source::Async => seq![ScriptEvent::Answered(true)],
        Source::Generator => seq![ScriptEvent::Answered(false), ScriptEvent::Answered(true)],
        Source::Iterator => seq![
            ScriptEvent::Answered(false),
            ScriptEvent::Answered(false),
            ScriptEvent::Answered(false),
            ScriptEvent::Answered(true),
        ],
    }
}

/// What the engine answers about a value that is handed over whole.
pub open spec fn plain_answers() -> Seq<ScriptEvent> {
    seq![ScriptEvent::Answered(false), ScriptEvent::Answered(false), ScriptEvent::Answered(true)]
}

/// How the engine makes one step: a promise is driven to its end where the source is asynchronous.
pub open spec fn step_events(source: Source, step: Step, done: bool) -> Seq<ScriptEvent> {
    if step.promise && source == Source::Async {
        seq![
            ScriptEvent::Called(Ok(true)),
            ScriptEvent::Checked(Ok(())),
            ScriptEvent::Driven(Ok(())),
            ScriptEvent::Stepped(Some((done, step.undefined))),
            ScriptEvent::Emitted(Ok(())),
        ]
    } else {
        seq![
            ScriptEvent::Called(Ok(step.promise)),
            ScriptEvent::Checked(Ok(())),
            ScriptEvent::Stepped(Some((done, step.undefined))),
            ScriptEvent::Emitted(Ok(())),
        ]
    }
}

/// How the engine makes several steps, none of which is the last.
pub open spec fn steps_events(source: Source, steps: Seq<Step>) -> Seq<ScriptEvent>
    decreases steps.len(),
{
    if steps.len() == 0 {
        Seq::empty()
    } else {
        steps_events(source, steps.drop_last()) + step_events(source, steps.last(), false)
    }
}

/// What the engine does with a result.
pub open spec fn outcome_events(outcome: Outcome) -> Seq<ScriptEvent> {
    match outcome {
        Outcome::Plain => plain_answers().push(ScriptEvent::Emitted(Ok(()))),
        Outcome::Drawn { source, steps, last } => source_answers(source) + steps_events(
            source,
            steps,
        ) + step_events(source, last, true),
    }
}

/// What the engine does in a call in which nothing fails.
pub open spec fn story_events(story: Story) -> Seq<ScriptEvent> {
    result_events(story.callee) + outcome_events(story.outcome)
}

/// Several values of which none is the last.
pub open spec fn partials(count: nat) -> Seq<EmitType> {
    Seq::new(count, |i: int| EmitType::PartialResult)
}

/// What a call hands over: a plain result as the last value; of any other, each value that is
/// drawn as one of several, and then the last.
pub open spec fn story_values(outcome: Outcome) -> Seq<EmitType> {
    match outcome {
        Outcome::Plain => seq![EmitType::End],
        Outcome::Drawn { source, steps, last } => partials(steps.len()).push(EmitType::End),
    }
}

/// Whether there is no last value: it is undefined, or a plain iterator ran out. A plain result is
/// the last value itself.
pub open spec fn ends_empty(outcome: Outcome) -> bool {
    match outcome {
        Outcome::Plain => false,
        Outcome::Drawn { source, steps, last } => last.undefined || source == Source::Iterator,
    }
}

/// Steps one after the other.
proof fn in_turn(run: ScriptRun, a: Seq<ScriptEvent>, b: Seq<ScriptEvent>)
    ensures
        after_events(run, a + b) == after_events(after_events(run, a), b),
        all_handed_over(run, a + b) == all_handed_over(run, a) + all_handed_over(
            after_events(run, a),
            b,
        ),
    decreases b.len(),
{
    if b.len() == 0 {
        assert(a + b =~= a);
        assert(all_handed_over(run, a) + all_handed_over(after_events(run, a), b)
            =~= all_handed_over(run, a));
    } else {
        assert((a + b).drop_last() =~= a + b.drop_last());
        in_turn(run, a, b.drop_last());
        let middle = after_events(run, a);
        let step = handed_over(after_events(middle, b.drop_last()), b.last());
        assert((all_handed_over(run, a) + all_handed_over(middle, b.drop_last())) + step
            =~= all_handed_over(run, a) + (all_handed_over(middle, b.drop_last()) + step));
    }
}

/// The first of several steps.
proof fn first_step(run: ScriptRun, events: Seq<ScriptEvent>)
    requires
        events.len() > 0,
    ensures
        after_events(run, events) == after_events(advanced(run, events[0]), events.skip(1)),
        all_handed_over(run, events) == handed_over(run, events[0]) + all_handed_over(
            advanced(run, events[0]),
            events.skip(1),
        ),
{
    let first = seq![events[0]];
    assert(events =~= first + events.skip(1));
    in_turn(run, first, events.skip(1));
    assert(first.drop_last() =~= Seq::<ScriptEvent>::empty());
    assert(after_events(run, first.drop_last()) == run);
    assert(all_handed_over(run, first.drop_last()) == Seq::<EmitType>::empty());
    assert(all_handed_over(run, first) =~= handed_over(run, events[0]));
}

/// Several steps that hand nothing over, by the states between them.
proof fn silent_steps(runs: Seq<ScriptRun>, events: Seq<ScriptEvent>)
    requires
        runs.len() == events.len() + 1,
        forall|i: int|
            0 <= i < events.len() ==> runs[i + 1] == advanced(runs[i], #[trigger] events[i]),
        forall|i: int|
            0 <= i < events.len() ==> handed_over(runs[i], #[trigger] events[i]).len() == 0,
    ensures
        after_events(runs[0], events) == runs.last(),
        all_handed_over(runs[0], events) == Seq::<EmitType>::empty(),
    decreases events.len(),
{
    if events.len() > 0 {
        let later = runs.skip(1);
        let rest = events.skip(1);
        assert forall|i: int| 0 <= i < rest.len() implies later[i + 1] == advanced(
            later[i],
            #[trigger] rest[i],
        ) by {
            assert(rest[i] == events[i + 1]);
        }
        assert forall|i: int| 0 <= i < rest.len() implies handed_over(
            later[i],
            #[trigger] rest[i],
        ).len() == 0 by {
            assert(rest[i] == events[i + 1]);
        }
        first_step(runs[0], events);
        silent_steps(later, rest);
        assert(handed_over(runs[0], events[0]).len() == 0);
        assert(all_handed_over(runs[0], events) =~= Seq::<EmitType>::empty());
    }
}

/// The states of a call until its result is there.
spec fn result_runs(callee: Callee) -> Seq<ScriptRun> {
    match callee {
        Callee::Value => seq![ScriptRun::Lookup, ScriptRun::Ready, ScriptRun::AskAsync],
        Callee::Function { promise } => if promise {
            seq![
                ScriptRun::Lookup,
                ScriptRun::Build,
                ScriptRun::Call,
                ScriptRun::Settle(true),
                ScriptRun::Drive,
                ScriptRun::Ready,
                ScriptRun::AskAsync,
            ]
        } else {
            seq![
                ScriptRun::Lookup,
                ScriptRun::Build,
                ScriptRun::Call,
                ScriptRun::Settle(false),
                ScriptRun::Ready,
                ScriptRun::AskAsync,
            ]
        },
    }
}

/// The result of a call is there after these steps, and nothing was handed over.
proof fn result_is_there(callee: Callee)
    ensures
        after_events(ScriptRun::Lookup, result_events(callee)) == ScriptRun::AskAsync,
        all_handed_over(ScriptRun::Lookup, result_events(callee)) == Seq::<EmitType>::empty(),
{
    silent_steps(result_runs(callee), result_events(callee));
}

/// A result is told to be plain, or a source of values, after these answers.
proof fn result_is_known(source: Source)
    ensures
        after_events(ScriptRun::AskAsync, plain_answers()) == (ScriptRun::End { empty: false }),
        all_handed_over(ScriptRun::AskAsync, plain_answers()) == Seq::<EmitType>::empty(),
        after_events(ScriptRun::AskAsync, source_answers(source)) == ScriptRun::Next(source),
        all_handed_over(ScriptRun::AskAsync, source_answers(source)) == Seq::<EmitType>::empty(),
{
    silent_steps(
        seq![
            ScriptRun::AskAsync,
            ScriptRun::AskNext,
            ScriptRun::AskPlain,
            ScriptRun::End { empty: false },
        ],
        plain_answers(),
    );
    match source {
        Source::Async => silent_steps(
            seq![ScriptRun::AskAsync, ScriptRun::Next(source)],
            source_answers(source),
        ),
        Source::Generator => silent_steps(
            seq![ScriptRun::AskAsync, ScriptRun::AskNext, ScriptRun::Next(source)],
            source_answers(source),
        ),
        Source::Iterator => silent_steps(
            seq![
                ScriptRun::AskAsync,
                ScriptRun::AskNext,
                ScriptRun::AskPlain,
                ScriptRun::AskIterator,
                ScriptRun::Next(source),
            ],
            source_answers(source),
        ),
    }
}

/// One step, up to its value.
proof fn step_is_read(source: Source, step: Step, done: bool)
    ensures
        ({
            let events = step_events(source, step, done);
            let run = ScriptRun::Next(source);
            &&& events.last() == ScriptEvent::Emitted(Ok(()))
            &&& all_handed_over(run, events.drop_last()) == Seq::<EmitType>::empty()
            &&& after_events(run, events.drop_last()) == if done {
                ScriptRun::End { empty: step.undefined || source == Source::Iterator }
            } else {
                ScriptRun::Partial(source)
            }
        }),
{
    let events = step_events(source, step, done);
    let last = if done {
        ScriptRun::End { empty: step.undefined || source == Source::Iterator }
    } else {
        ScriptRun::Partial(source)
    };
    let runs = if step.promise && source == Source::Async {
        seq![
            ScriptRun::Next(source),
            ScriptRun::NextSettle(source, true),
            ScriptRun::NextDrive,
            ScriptRun::Read(source),
            last,
        ]
    } else {
        seq![
            ScriptRun::Next(source),
            ScriptRun::NextSettle(source, step.promise),
            ScriptRun::Read(source),
            last,
        ]
    };
    silent_steps(runs, events.drop_last());
}

/// Several steps, none of which is the last.
proof fn steps_are_handed_over(source: Source, steps: Seq<Step>)
    ensures
        after_events(ScriptRun::Next(source), steps_events(source, steps)) == ScriptRun::Next(
            source,
        ),
        all_handed_over(ScriptRun::Next(source), steps_events(source, steps)) == partials(
            steps.len(),
        ),
    decreases steps.len(),
{
    let run = ScriptRun::Next(source);
    if steps.len() == 0 {
        assert(all_handed_over(run, steps_events(source, steps)) =~= partials(0));
    } else {
        let before = steps_events(source, steps.drop_last());
        let step = step_events(source, steps.last(), false);
        steps_are_handed_over(source, steps.drop_last());
        step_is_read(source, steps.last(), false);
        in_turn(run, before, step);
        assert(all_handed_over(run, step) =~= seq![EmitType::PartialResult]);
        assert(partials((steps.len() - 1) as nat) + seq![EmitType::PartialResult] =~= partials(
            steps.len(),
        ));
    }
}

/// How many values come before the last.
spec fn drawn_before(outcome: Outcome) -> nat {
    match outcome {
        Outcome::Plain => 0,
        Outcome::Drawn { source, steps, last } => steps.len(),
    }
}

/// What is done with a result, up to its last value.
proof fn last_value_is_there(outcome: Outcome)
    ensures
        outcome_events(outcome).len() > 0,
        outcome_events(outcome).last() == ScriptEvent::Emitted(Ok(())),
        after_events(ScriptRun::AskAsync, outcome_events(outcome).drop_last()) == (ScriptRun::End {
            empty: ends_empty(outcome),
        }),
        all_handed_over(ScriptRun::AskAsync, outcome_events(outcome).drop_last()) == partials(
            drawn_before(outcome),
        ),
{
    let events = outcome_events(outcome);
    match outcome {
        Outcome::Plain => {
            result_is_known(Source::Async);
            assert(events.drop_last() =~= plain_answers());
            assert(partials(0) =~= Seq::<EmitType>::empty());
        },
        Outcome::Drawn { source, steps, last } => {
            let answers = source_answers(source);
            let drawn = steps_events(source, steps);
            let end = step_events(source, last, true);
            result_is_known(source);
            steps_are_handed_over(source, steps);
            step_is_read(source, last, true);
            assert(events.drop_last() =~= answers + (drawn + end.drop_last()));
            in_turn(ScriptRun::AskAsync, answers, drawn + end.drop_last());
            in_turn(ScriptRun::Next(source), drawn, end.drop_last());
            assert(Seq::<EmitType>::empty() + (partials(steps.len()) + Seq::<EmitType>::empty())
                =~= partials(steps.len()));
        },
    }
}

/// The last value is handed over, and that ends the call.
proof fn last_value_ends_the_call(empty: bool)
    ensures
        advanced(ScriptRun::End { empty }, ScriptEvent::Emitted(Ok(()))) == ScriptRun::Finished(
            Ok(()),
        ),
        handed_over(ScriptRun::End { empty }, ScriptEvent::Emitted(Ok(()))) == seq![EmitType::End],
{
}

/// A call in which nothing fails succeeds, and hands over what its result is: a plain result as it
/// is, and of a source of values each one that is drawn, in turn, and then the last. The last value
/// is there unless it is undefined, or a plain iterator ran out.
#[verifier::spinoff_prover]
pub proof fn call_hands_over_its_result(story: Story)
    ensures
        after_events(ScriptRun::Lookup, story_events(story)) == ScriptRun::Finished(Ok(())),
        all_handed_over(ScriptRun::Lookup, story_events(story)) == story_values(story.outcome),
        after_events(ScriptRun::Lookup, story_events(story).drop_last()) == (ScriptRun::End {
            empty: ends_empty(story.outcome),
        }),
{
    let start = ScriptRun::Lookup;
    let call = result_events(story.callee);
    let events = outcome_events(story.outcome);
    let all = story_events(story);
    let count = drawn_before(story.outcome);
    result_is_there(story.callee);
    last_value_is_there(story.outcome);
    last_value_ends_the_call(ends_empty(story.outcome));
    assert(all.drop_last() =~= call + events.drop_last());
    assert(all.last() == events.last());
    in_turn(start, call, events.drop_last());
    assert(Seq::<EmitType>::empty() + partials(count) =~= partials(count));
    assert(partials(count) + seq![EmitType::End] =~= partials(count).push(EmitType::End));
    assert(partials(0).push(EmitType::End) =~= seq![EmitType::End]);
}

/// Whether a call waits for what came, however it came out.
pub open spec fn waits_for(run: ScriptRun, event: ScriptEvent) -> bool {
    match event {
        ScriptEvent::Looked(_) => run is Lookup,
        ScriptEvent::Built(_) => run is Build,
        ScriptEvent::Called(_) => run is Call || run is Next,
        ScriptEvent::Checked(_) => run is Settle || run is Ready || run is NextSettle,
        ScriptEvent::Driven(_) => run is Drive || run is NextDrive,
        ScriptEvent::Answered(_) => run is AskAsync || run is AskNext || run is AskPlain || run
            is AskIterator,
        ScriptEvent::Stepped(_) => run is Read,
        ScriptEvent::Emitted(_) => run is Partial || run is End,
        ScriptEvent::Closed => run is Close,
    }
}

/// The failure that a step reports, if it does.
pub open spec fn reported_failure(event: ScriptEvent) -> Option<JsError> {
    match event {
        ScriptEvent::Looked(Err(e)) => Some(e),
        ScriptEvent::Looked(Ok(None)) => Some(JsError::Unexpected("name is not defined")),
        ScriptEvent::Built(Err(e)) => Some(e),
        ScriptEvent::Called(Err(e)) => Some(e),
        ScriptEvent::Checked(Err(e)) => Some(e),
        ScriptEvent::Driven(Err(e)) => Some(e),
        ScriptEvent::Stepped(None) => Some(JsError::Unexpected("expected object from next()")),
        ScriptEvent::Emitted(Err(cause)) => Some(plain_error(cause)),
        _ => None,
    }
}

/// Whether two events are about the same kind of step.
pub open spec fn same_step(a: ScriptEvent, b: ScriptEvent) -> bool {
    match (a, b) {
        (ScriptEvent::Looked(_), ScriptEvent::Looked(_)) => true,
        (ScriptEvent::Built(_), ScriptEvent::Built(_)) => true,
        (ScriptEvent::Called(_), ScriptEvent::Called(_)) => true,
        (ScriptEvent::Checked(_), ScriptEvent::Checked(_)) => true,
        (ScriptEvent::Driven(_), ScriptEvent::Driven(_)) => true,
        (ScriptEvent::Stepped(_), ScriptEvent::Stepped(_)) => true,
        (ScriptEvent::Emitted(_), ScriptEvent::Emitted(_)) => true,
        _ => false,
    }
}

/// Whether a call has failed so. The value of an asynchronous iterator that could not be handed
/// over has it closed first.
pub open spec fn has_failed(run: ScriptRun, e: JsError) -> bool {
    run == ScriptRun::Finished(Err(e)) || (run matches ScriptRun::Close(cause) && e == plain_error(
        cause,
    ))
}

/// What a call does not wait for changes nothing.
pub proof fn unexpected_event_changes_nothing(run: ScriptRun, event: ScriptEvent)
    requires
        !waits_for(run, event),
    ensures
        advanced(run, event) == run,
        handed_over(run, event) == Seq::<EmitType>::empty(),
{
}

/// A step that the call waits for and that reports a failure ends the call with that failure, and
/// hands nothing over.
proof fn failure_is_taken(run: ScriptRun, event: ScriptEvent)
    requires
        waits_for(run, event),
        reported_failure(event) is Some,
    ensures
        has_failed(advanced(run, event), reported_failure(event)->0),
        advanced(run, event) is Close <==> run == ScriptRun::Partial(Source::Async),
        handed_over(run, event).len() == 0,
{
}

/// A call that has failed stays so, and hands nothing over.
proof fn failure_stays(run: ScriptRun, events: Seq<ScriptEvent>, e: JsError)
    requires
        has_failed(run, e),
    ensures
        has_failed(after_events(run, events), e),
        all_handed_over(run, events) == Seq::<EmitType>::empty(),
        run is Finished ==> after_events(run, events) == run,
        events.contains(ScriptEvent::Closed) ==> after_events(run, events) is Finished,
    decreases events.len(),
{
    if events.len() > 0 {
        let front = events.drop_last();
        failure_stays(run, front, e);
        let before = after_events(run, front);
        assert(handed_over(before, events.last()).len() == 0);
        assert(all_handed_over(run, events) =~= Seq::<EmitType>::empty());
        if events.contains(ScriptEvent::Closed) && events.last() != ScriptEvent::Closed {
            let k = choose|k: int| 0 <= k < events.len() && events[k] == ScriptEvent::Closed;
            assert(front[k] == ScriptEvent::Closed);
        }
    }
}

/// Whatever the engine does: a failure that is reported in a step for which the call waits is what
/// comes of the call, and nothing is handed over after it. So a call that succeeds had no such
/// failure. Only the closing of an asynchronous iterator may still be waited for.
pub proof fn awaited_failure_ends_the_call(events: Seq<ScriptEvent>, i: int)
    requires
        0 <= i < events.len(),
        waits_for(after_events(ScriptRun::Lookup, events.take(i)), events[i]),
        reported_failure(events[i]) is Some,
    ensures
        has_failed(
            after_events(ScriptRun::Lookup, events),
            reported_failure(events[i])->0,
        ),
        after_events(ScriptRun::Lookup, events) != ScriptRun::Finished(Ok(())),
        all_handed_over(ScriptRun::Lookup, events) == all_handed_over(
            ScriptRun::Lookup,
            events.take(i),
        ),
        after_events(ScriptRun::Lookup, events.take(i + 1)) is Close <==> after_events(
            ScriptRun::Lookup,
            events.take(i),
        ) == ScriptRun::Partial(Source::Async),
        events.skip(i + 1).contains(ScriptEvent::Closed) || after_events(
            ScriptRun::Lookup,
            events.take(i),
        ) != ScriptRun::Partial(Source::Async) ==> after_events(ScriptRun::Lookup, events)
            == ScriptRun::Finished(Err(reported_failure(events[i])->0)),
{
    let start = ScriptRun::Lookup;
    let before = events.take(i);
    let until = events.take(i + 1);
    let later = events.skip(i + 1);
    assert(events =~= until + later);
    assert(until.drop_last() =~= before);
    assert(until.last() == events[i]);
    in_turn(start, until, later);
    failure_is_taken(after_events(start, before), events[i]);
    failure_stays(after_events(start, until), later, reported_failure(events[i])->0);
    assert(all_handed_over(start, until) =~= all_handed_over(start, before));
    assert(all_handed_over(start, events) =~= all_handed_over(start, before));
}

/// Whether a call waits for each of several events when it comes.
spec fn attentive(run: ScriptRun, events: Seq<ScriptEvent>) -> bool {
    forall|i: int|
        0 <= i < events.len() ==> waits_for(
            after_events(run, events.take(i)),
            #[trigger] events[i],
        )
}

/// By the states between the events.
proof fn attentive_by_runs(runs: Seq<ScriptRun>, events: Seq<ScriptEvent>)
    requires
        runs.len() == events.len() + 1,
        forall|i: int|
            0 <= i < events.len() ==> runs[i + 1] == advanced(runs[i], #[trigger] events[i]),
        forall|i: int| 0 <= i < events.len() ==> waits_for(runs[i], #[trigger] events[i]),
    ensures
        attentive(runs[0], events),
        after_events(runs[0], events) == runs.last(),
    decreases events.len(),
{
    if events.len() > 0 {
        let front = events.drop_last();
        let earlier = runs.drop_last();
        let n = events.len() - 1;
        assert forall|i: int| 0 <= i < front.len() implies earlier[i + 1] == advanced(
            earlier[i],
            #[trigger] front[i],
        ) by {
            assert(front[i] == events[i]);
        }
        assert forall|i: int| 0 <= i < front.len() implies waits_for(
            earlier[i],
            #[trigger] front[i],
        ) by {
            assert(front[i] == events[i]);
        }
        attentive_by_runs(earlier, front);
        assert(runs[n + 1] == advanced(runs[n], events[n]));
        assert forall|i: int| 0 <= i < events.len() implies waits_for(
            after_events(runs[0], events.take(i)),
            #[trigger] events[i],
        ) by {
            assert(events.take(i) =~= front.take(i));
            if i < n {
                assert(waits_for(after_events(runs[0], front.take(i)), front[i]));
            } else {
                assert(front.take(i) =~= front);
            }
        }
    }
}

/// Of events one after the other.
proof fn attentive_in_turn(run: ScriptRun, a: Seq<ScriptEvent>, b: Seq<ScriptEvent>)
    requires
        attentive(run, a),
        attentive(after_events(run, a), b),
    ensures
        attentive(run, a + b),
{
    let all = a + b;
    assert forall|i: int| 0 <= i < all.len() implies waits_for(
        after_events(run, all.take(i)),
        #[trigger] all[i],
    ) by {
        if i < a.len() {
            assert(all.take(i) =~= a.take(i));
            assert(waits_for(after_events(run, a.take(i)), a[i]));
        } else {
            let k = i - a.len();
            assert(all.take(i) =~= a + b.take(k));
            in_turn(run, a, b.take(k));
            assert(waits_for(after_events(after_events(run, a), b.take(k)), b[k]));
        }
    }
}

/// One step.
#[verifier::spinoff_prover]
#[verifier::rlimit(40)]
proof fn attentive_step(source: Source, step: Step, done: bool)
    ensures
        attentive(ScriptRun::Next(source), step_events(source, step, done)),
        after_events(ScriptRun::Next(source), step_events(source, step, done)) == if done {
            ScriptRun::Finished(Ok(()))
        } else {
            ScriptRun::Next(source)
        },
{
    let read = if done {
        ScriptRun::End { empty: step.undefined || source == Source::Iterator }
    } else {
        ScriptRun::Partial(source)
    };
    let last = if done {
        ScriptRun::Finished(Ok(()))
    } else {
        ScriptRun::Next(source)
    };
    let events = step_events(source, step, done);
    if step.promise && source == Source::Async {
        let runs = seq![
            ScriptRun::Next(source),
            ScriptRun::NextSettle(source, true),
            ScriptRun::NextDrive,
            ScriptRun::Read(source),
            read,
            last,
        ];
        assert(runs[5] == advanced(runs[4], events[4]));
        attentive_by_runs(runs, events);
    } else {
        let runs = seq![
            ScriptRun::Next(source),
            ScriptRun::NextSettle(source, step.promise),
            ScriptRun::Read(source),
            read,
            last,
        ];
        assert(runs[4] == advanced(runs[3], events[3]));
        attentive_by_runs(runs, events);
    }
}

/// Several steps.
proof fn attentive_steps(source: Source, steps: Seq<Step>)
    ensures
        attentive(ScriptRun::Next(source), steps_events(source, steps)),
        after_events(ScriptRun::Next(source), steps_events(source, steps)) == ScriptRun::Next(
            source,
        ),
    decreases steps.len(),
{
    if steps.len() > 0 {
        let run = ScriptRun::Next(source);
        let before = steps_events(source, steps.drop_last());
        let step = step_events(source, steps.last(), false);
        attentive_steps(source, steps.drop_last());
        attentive_step(source, steps.last(), false);
        attentive_in_turn(run, before, step);
        in_turn(run, before, step);
    }
}

/// What is done with a result.
proof fn attentive_outcome(outcome: Outcome)
    ensures
        attentive(ScriptRun::AskAsync, outcome_events(outcome)),
{
    match outcome {
        Outcome::Plain => attentive_by_runs(
            seq![
                ScriptRun::AskAsync,
                ScriptRun::AskNext,
                ScriptRun::AskPlain,
                ScriptRun::End { empty: false },
                ScriptRun::Finished(Ok(())),
            ],
            outcome_events(outcome),
        ),
        Outcome::Drawn { source, steps, last } => {
            let answers = source_answers(source);
            let drawn = steps_events(source, steps);
            match source {
                Source::Async => attentive_by_runs(
                    seq![ScriptRun::AskAsync, ScriptRun::Next(source)],
                    answers,
                ),
                Source::Generator => attentive_by_runs(
                    seq![ScriptRun::AskAsync, ScriptRun::AskNext, ScriptRun::Next(source)],
                    answers,
                ),
                Source::Iterator => attentive_by_runs(
                    seq![
                        ScriptRun::AskAsync,
                        ScriptRun::AskNext,
                        ScriptRun::AskPlain,
                        ScriptRun::AskIterator,
                        ScriptRun::Next(source),
                    ],
                    answers,
                ),
            }
            attentive_steps(source, steps);
            attentive_step(source, last, true);
            attentive_in_turn(ScriptRun::AskAsync, answers, drawn);
            in_turn(ScriptRun::AskAsync, answers, drawn);
            attentive_in_turn(
                ScriptRun::AskAsync,
                answers + drawn,
                step_events(source, last, true),
            );
        },
    }
}

/// How the result comes about.
#[verifier::spinoff_prover]
#[verifier::rlimit(60)]
proof fn attentive_call(callee: Callee)
    ensures
        attentive(ScriptRun::Lookup, result_events(callee)),
        after_events(ScriptRun::Lookup, result_events(callee)) == ScriptRun::AskAsync,
{
    let runs = result_runs(callee);
    let events = result_events(callee);
    match callee {
        Callee::Value => attentive_by_runs(runs, events),
        Callee::Function { promise: true } => attentive_by_runs(runs, events),
        Callee::Function { promise: false } => attentive_by_runs(runs, events),
    }
}

/// A call waits for each step of its story.
proof fn attentive_story(story: Story)
    ensures
        attentive(ScriptRun::Lookup, story_events(story)),
{
    let call = result_events(story.callee);
    attentive_call(story.callee);
    attentive_outcome(story.outcome);
    attentive_in_turn(ScriptRun::Lookup, call, outcome_events(story.outcome));
}

/// A failure in place of the next step.
proof fn next_step_fails(before: Seq<ScriptEvent>, failure: ScriptEvent)
    requires
        waits_for(after_events(ScriptRun::Lookup, before), failure),
        reported_failure(failure) is Some,
    ensures
        ({
            let events = before.push(failure);
            let e = reported_failure(failure)->0;
            &&& has_failed(after_events(ScriptRun::Lookup, events), e)
            &&& after_events(ScriptRun::Lookup, events.push(ScriptEvent::Closed))
                == ScriptRun::Finished(Err(e))
            &&& all_handed_over(ScriptRun::Lookup, events) == all_handed_over(
                ScriptRun::Lookup,
                before,
            )
        }),
{
    let i = before.len() as int;
    let events = before.push(failure);
    assert(events.take(i) =~= before);
    awaited_failure_ends_the_call(events, i);
    let closed = events.push(ScriptEvent::Closed);
    assert(closed.take(i) =~= before);
    assert(closed.skip(i + 1)[0] == ScriptEvent::Closed);
    assert(closed.skip(i + 1).contains(ScriptEvent::Closed));
    awaited_failure_ends_the_call(closed, i);
}

/// No step of a call goes unheard: where one of its steps fails in place of what it gave, the call
/// fails so, after what was handed over before. In place of a checkpoint, of the drawing of a
/// value, of the handing over of a value, and of every other.
pub proof fn every_step_may_fail(story: Story, i: int, failure: ScriptEvent)
    requires
        0 <= i < story_events(story).len(),
        same_step(story_events(story)[i], failure),
        reported_failure(failure) is Some,
    ensures
        ({
            let events = story_events(story).take(i).push(failure);
            let e = reported_failure(failure)->0;
            &&& has_failed(after_events(ScriptRun::Lookup, events), e)
            &&& after_events(ScriptRun::Lookup, events.push(ScriptEvent::Closed))
                == ScriptRun::Finished(Err(e))
            &&& all_handed_over(ScriptRun::Lookup, events) == all_handed_over(
                ScriptRun::Lookup,
                story_events(story).take(i),
            )
        }),
{
    let all = story_events(story);
    attentive_story(story);
    assert(waits_for(after_events(ScriptRun::Lookup, all.take(i)), all[i]));
    next_step_fails(all.take(i), failure);
}

/// A result that is neither a source of values nor a plain value is refused, and nothing is handed
/// over.
pub proof fn other_results_are_refused(callee: Callee)
    ensures
        ({
            let no = ScriptEvent::Answered(false);
            let events = result_events(callee) + seq![no, no, no, no];
            &&& after_events(ScriptRun::Lookup, events) == ScriptRun::Finished(
                Err(JsError::Unexpected("Return type is not serializable or iterable")),
            )
            &&& all_handed_over(ScriptRun::Lookup, events) == Seq::<EmitType>::empty()
        }),
{
    let no = ScriptEvent::Answered(false);
    let answers = seq![no, no, no, no];
    result_is_there(callee);
    in_turn(ScriptRun::Lookup, result_events(callee), answers);
    silent_steps(
        seq![
            ScriptRun::AskAsync,
            ScriptRun::AskNext,
            ScriptRun::AskPlain,
            ScriptRun::AskIterator,
            ScriptRun::Finished(
                Err(JsError::Unexpected("Return type is not serializable or iterable")),
            ),
        ],
        answers,
    );
}

/// What was answered about the result of a call, in turn.
pub open spec fn answers(events: Seq<ScriptEvent>) -> Seq<bool>
    decreases events.len(),
{
    if events.len() == 0 {
        Seq::empty()
    } else {
        let before = answers(events.drop_last());
        match events.last() {
            ScriptEvent::Answered(yes) => if waits_for(
                after_events(ScriptRun::Lookup, events.drop_last()),
                events.last(),
            ) {
                before.push(yes)
            } else {
                before
            },
            _ => before,
        }
    }
}

/// The last step that was read: whether it is the last, and whether its value is undefined.
pub open spec fn last_step(events: Seq<ScriptEvent>) -> Option<(bool, bool)>
    decreases events.len(),
{
    if events.len() == 0 {
        None
    } else {
        match events.last() {
            ScriptEvent::Stepped(Some(step)) => if waits_for(
                after_events(ScriptRun::Lookup, events.drop_last()),
                events.last(),
            ) {
                Some(step)
            } else {
                last_step(events.drop_last())
            },
            _ => last_step(events.drop_last()),
        }
    }
}

/// The answers by which a result is known to be a source of values.
pub open spec fn is_source(answers: Seq<bool>, source: Source) -> bool {
    match source {
        Source::Async => answers == seq![true],
        Source::Generator => answers == seq![false, true],
        Source::Iterator => answers == seq![false, false, false, true],
    }
}

/// Whether a call comes to its last value as it should: its result was asked in turn whether it is
/// an asynchronous iterator, a generator and plain. Plain, it is the last value. Otherwise values
/// were drawn from it up to a last step, and there is no last value if that is undefined or comes
/// of a plain iterator.
pub open spec fn comes_to_its_end(events: Seq<ScriptEvent>, empty: bool) -> bool {
    ||| answers(events) == seq![false, false, true] && last_step(events) is None && !empty
    ||| (last_step(events) matches Some((true, undefined)) && exists|source: Source| #[trigger]
        is_source(answers(events), source) && empty == (undefined || source == Source::Iterator))
}

/// How far a call has come, by what was answered and read.
proof fn asked_so_far(events: Seq<ScriptEvent>)
    ensures
        match after_events(ScriptRun::Lookup, events) {
            ScriptRun::Lookup
            | ScriptRun::Build
            | ScriptRun::Call
            | ScriptRun::Settle(_)
            | ScriptRun::Drive
            | ScriptRun::Ready
            | ScriptRun::AskAsync => answers(events) == Seq::<bool>::empty() && last_step(events)
                is None,
            ScriptRun::AskNext => answers(events) == seq![false] && last_step(events) is None,
            ScriptRun::AskPlain => answers(events) == seq![false, false] && last_step(events)
                is None,
            ScriptRun::AskIterator => answers(events) == seq![false, false, false] && last_step(
                events,
            ) is None,
            ScriptRun::Next(source) => is_source(answers(events), source),
            ScriptRun::NextSettle(source, _) => is_source(answers(events), source),
            ScriptRun::NextDrive => is_source(answers(events), Source::Async),
            ScriptRun::Read(source) => is_source(answers(events), source),
            ScriptRun::Partial(source) => is_source(answers(events), source),
            ScriptRun::End { empty } => comes_to_its_end(events, empty),
            ScriptRun::Finished(Ok(_)) => comes_to_its_end(events, true) || comes_to_its_end(
                events,
                false,
            ),
            _ => true,
        },
    decreases events.len(),
{
    if events.len() > 0 {
        let front = events.drop_last();
        let before = after_events(ScriptRun::Lookup, front);
        let now = after_events(ScriptRun::Lookup, events);
        let event = events.last();
        asked_so_far(front);
        if !waits_for(before, event) {
            unexpected_event_changes_nothing(before, event);
        }
        assert(seq![false].push(false) =~= seq![false, false]);
        assert(seq![false, false].push(false) =~= seq![false, false, false]);
        assert(seq![false, false].push(true) =~= seq![false, false, true]);
        assert(seq![false, false, false].push(true) =~= seq![false, false, false, true]);
        assert(seq![false].push(true) =~= seq![false, true]);
        assert(Seq::<bool>::empty().push(true) =~= seq![true]);
        assert(Seq::<bool>::empty().push(false) =~= seq![false]);
        if let ScriptRun::Read(source) = before {
            assert(is_source(answers(events), source));
        }
    }
}

/// Whatever the engine does, a call hands over a last value, or that there is none, only after its
/// result was asked what it is, and by what was answered.
pub proof fn call_ends_by_what_its_result_is(events: Seq<ScriptEvent>)
    ensures
        after_events(ScriptRun::Lookup, events) matches ScriptRun::End { empty }
            ==> comes_to_its_end(events, empty),
        after_events(ScriptRun::Lookup, events) == ScriptRun::Finished(Ok(())) ==> answers(events)
            == seq![false, false, true] || last_step(events) matches Some((true, _)),
{
    asked_so_far(events);
}

} // verus!
