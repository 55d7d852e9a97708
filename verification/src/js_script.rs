//! Scripts in the JavaScript runtime: what is done next with the engine, by what came of the last
//! step.

use std::collections::HashMap;

use vstd::prelude::*;

verus! {

/// Why a script fails.
#[derive(Debug)]
pub enum JsError {
    /// The script threw this.
    Js { cause: String, stack: Option<String> },
    /// The script cannot be stripped of its types.
    Transpile(String),
    /// Something that a script must not do.
    Unexpected(&'static str),
}

/// An error with a cause and no stack.
pub open spec fn plain_error(cause: String) -> JsError {
    JsError::Js { cause, stack: None }
}

/// What a promise was rejected with.
#[derive(Debug)]
pub enum RejectionReason {
    /// An exception.
    Exception { message: Option<String>, stack: Option<String> },
    /// A string, unless it cannot be read.
    Text(Option<String>),
    /// Any other value, as it is shown.
    Other(String),
}

/// A rejection that nothing has handled.
#[derive(Debug)]
pub struct Rejection {
    pub cause: String,
    pub stack: Option<String>,
}

/// The text of a rejection.
pub open spec fn rejection_cause(reason: RejectionReason) -> Seq<char> {
    match reason {
        RejectionReason::Exception { message: Some(message), stack } => message@,
        RejectionReason::Exception { message: None, stack } => "Unhandled promise rejection"@,
        RejectionReason::Text(Some(text)) => text@,
        RejectionReason::Text(None) => "JavaScript error"@,
        RejectionReason::Other(shown) => shown@,
    }
}

/// The stack of a rejection.
pub open spec fn rejection_stack(reason: RejectionReason) -> Option<String> {
    match reason {
        RejectionReason::Exception { message, stack } => stack,
        _ => None,
    }
}

impl Rejection {
    /// The rejection for a reason.
    pub fn from_value(reason: RejectionReason) -> (r: Rejection)
        ensures
            r.cause@ == rejection_cause(reason),
            r.stack == rejection_stack(reason),
    {
        match reason {
            RejectionReason::Exception { message, stack } => {
                let cause = match message {
                    Some(message) => message,
                    None => "Unhandled promise rejection".to_owned(),
                };
                Rejection { cause, stack }
            },
            RejectionReason::Text(Some(text)) => Rejection { cause: text, stack: None },
            RejectionReason::Text(None) => Rejection {
                cause: "JavaScript error".to_owned(),
                stack: None,
            },
            RejectionReason::Other(shown) => Rejection { cause: shown, stack: None },
        }
    }

    /// The error that the rejection is reported as.
    pub fn into_error(self) -> (r: JsError)
        ensures
            r == (JsError::Js { cause: self.cause, stack: self.stack }),
    {
        JsError::Js { cause: self.cause, stack: self.stack }
    }
}

impl Clone for Rejection {
    fn clone(&self) -> (r: Rejection)
        ensures
            r == *self,
    {
        let stack = match &self.stack {
            Some(stack) => Some(stack.clone()),
            None => None,
        };
        Rejection { cause: self.cause.clone(), stack }
    }
}

/// The rejections that nothing has handled, by the key of their promise.
#[derive(Debug)]
pub struct Rejections {
    map: HashMap<u64, Rejection>,
}

impl View for Rejections {
    type V = Map<u64, Rejection>;

    closed spec fn view(&self) -> Map<u64, Rejection> {
        self.map@
    }
}

impl Rejections {
    /// No rejections.
    pub fn new() -> (r: Rejections)
        ensures
            r@ == Map::<u64, Rejection>::empty(),
    {
        Rejections { map: HashMap::new() }
    }

    /// Notes that a promise was rejected, or that its rejection was handled. The cancellation of
    /// what is left at the end of a call is no rejection.
    pub fn track(&mut self, key: u64, reason: RejectionReason, is_handled: bool, is_cancelled: bool)
        ensures
            if is_handled || is_cancelled {
                final(self)@ == old(self)@.remove(key)
            } else {
                &&& final(self)@.dom() == old(self)@.dom().insert(key)
                &&& final(self)@[key].cause@ == rejection_cause(reason)
                &&& final(self)@[key].stack == rejection_stack(reason)
                &&& forall|other: u64| other != key && old(self)@.contains_key(other)
                    ==> #[trigger] final(self)@[other] == old(self)@[other]
            },
    {
        broadcast use vstd::std_specs::hash::group_hash_axioms;

        if is_handled || is_cancelled {
            self.map.remove(&key);
        } else {
            self.map.insert(key, Rejection::from_value(reason));
        }
    }

    /// One of the rejections, if there is any.
    fn any(&self) -> (r: Option<Rejection>)
        ensures
            match r {
                None => self@ == Map::<u64, Rejection>::empty(),
                Some(rejection) => self@.contains_value(rejection),
            },
    {
        broadcast use vstd::std_specs::hash::group_hash_axioms;

        for rejection in it: self.map.values()
            invariant
                it.seq().unref().to_set() == self.map@.values(),
                it.index() == 0,
        {
            proof {
                assert(it.seq().unref()[0] == *rejection);
                assert(it.seq().unref().to_set().contains(*rejection));
            }
            return Some(rejection.clone());
        }
        None
    }

    /// Reports one of the rejections as an error, if there is any, and forgets them all.
    pub fn report(&mut self) -> (r: Result<(), JsError>)
        ensures
            final(self)@ == Map::<u64, Rejection>::empty(),
            match r {
                Ok(_) => old(self)@ == Map::<u64, Rejection>::empty(),
                Err(e) => exists|rejection: Rejection| #[trigger]
                    old(self)@.contains_value(rejection) && e == (JsError::Js {
                        cause: rejection.cause,
                        stack: rejection.stack,
                    }),
            },
    {
        let rejection = self.any();
        self.clear();
        match rejection {
            None => Ok(()),
            Some(rejection) => Err(rejection.into_error()),
        }
    }

    /// Forgets all rejections.
    pub fn clear(&mut self)
        ensures
            final(self)@ == Map::<u64, Rejection>::empty(),
    {
        self.map.clear();
    }
}

/// An argument as it arrives at the runtime.
#[derive(Debug)]
pub enum InputValue {
    /// One encoded value.
    Cbor(Vec<u8>),
    /// The encoded values of an array.
    Iter(Vec<Vec<u8>>),
}

/// How an argument is converted: each encoded value by itself, and whether an array is made of
/// them.
#[derive(Debug)]
pub struct InputPlan {
    pub is_array: bool,
    pub values: Vec<Vec<u8>>,
}

impl InputValue {
    /// How the argument is converted.
    pub fn plan(self) -> (r: InputPlan)
        ensures
            match self {
                InputValue::Cbor(cbor) => !r.is_array && r.values@ == seq![cbor],
                InputValue::Iter(items) => r.is_array && r.values == items,
            },
    {
        match self {
            InputValue::Cbor(cbor) => {
                let mut values: Vec<Vec<u8>> = Vec::new();
                values.push(cbor);
                proof {
                    assert(values@ =~= seq![cbor]);
                }
                InputPlan { is_array: false, values }
            },
            InputValue::Iter(items) => InputPlan { is_array: true, values: items },
        }
    }
}

/// The arguments of a call: one for each positional argument, then one object that holds the named
/// ones, if there are any.
#[derive(Debug)]
pub struct CallPlan {
    pub positional: Vec<InputValue>,
    pub options: Option<Vec<(String, InputValue)>>,
}

/// The arguments of a call.
pub fn call_plan(positional: Vec<InputValue>, named: Vec<(String, InputValue)>) -> (r: CallPlan)
    ensures
        r.positional == positional,
        r.options == if named@.len() == 0 {
            None
        } else {
            Some(named)
        },
{
    let options = if named.len() == 0 {
        None
    } else {
        Some(named)
    };
    CallPlan { positional, options }
}

/// What a value is, as far as it decides whether it is handed over whole.
#[derive(Debug, Clone, Copy, PartialEq, Eq, Structural)]
pub struct ValueKind {
    pub is_null: bool,
    pub is_undefined: bool,
    pub is_bool: bool,
    pub is_int: bool,
    pub is_number: bool,
    pub is_string: bool,
    pub is_array: bool,
    pub is_object: bool,
}

/// Whether a value is handed over whole.
pub fn is_serializable(kind: ValueKind) -> (r: bool)
    ensures
        r == (kind != (ValueKind {
            is_null: false,
            is_undefined: false,
            is_bool: false,
            is_int: false,
            is_number: false,
            is_string: false,
            is_array: false,
            is_object: false,
        })),
{
    kind.is_null || kind.is_undefined || kind.is_bool || kind.is_int || kind.is_number
        || kind.is_string || kind.is_array || kind.is_object
}

/// What is done after a job of the engine was asked for.
#[derive(Debug, Clone, Copy, PartialEq, Eq, Structural)]
pub enum JobDecision {
    /// The exception that it left ends the checkpoint.
    Fail,
    /// Another job is asked for.
    Again,
    /// There are no more jobs; rejections are looked at.
    Report,
}

/// What is done in a checkpoint after a job was asked for: whether one ran, and whether an
/// exception is pending.
pub fn after_job(ran: bool, has_exception: bool) -> (r: JobDecision)
    ensures
        r == if has_exception {
            JobDecision::Fail
        } else if ran {
            JobDecision::Again
        } else {
            JobDecision::Report
        },
{
    if has_exception {
        JobDecision::Fail
    } else if ran {
        JobDecision::Again
    } else {
        JobDecision::Report
    }
}

/// What is done after a job was asked for whose outcome does not matter: whether the exception
/// that is pending is dropped, and whether another job is asked for.
pub fn after_discarded_job(ran: bool, has_exception: bool) -> (r: (bool, bool))
    ensures
        r == (has_exception, ran),
{
    (has_exception, ran)
}

/// The most rounds in which what a call left behind is cancelled.
pub const MAX_BOUNDARY_ROUNDS: u8 = 8;

/// The end of a call: what it left behind is cancelled, in rounds, since a cancellation may start
/// something new.
#[derive(Debug, Clone, Copy, PartialEq, Eq, Structural)]
pub enum Boundary {
    /// Cancel all pending operations; so many rounds went before.
    Cancel(u8),
    /// Forget the operations and drop the jobs; in this round so many were cancelled.
    Discard(u8, usize),
    /// Drop what is still there.
    Drop,
}

/// The end of a call after its next step.
pub open spec fn boundary_next(rounds: u8, cancelled: usize, has_pending: bool) -> Boundary {
    if (cancelled == 0 && !has_pending) || rounds + 1 >= MAX_BOUNDARY_ROUNDS {
        Boundary::Drop
    } else {
        Boundary::Cancel((rounds + 1) as u8)
    }
}

impl Boundary {
    /// No more rounds were made than there may be.
    pub open spec fn wf(self) -> bool {
        match self {
            Boundary::Cancel(rounds) => rounds < MAX_BOUNDARY_ROUNDS,
            Boundary::Discard(rounds, _) => rounds < MAX_BOUNDARY_ROUNDS,
            Boundary::Drop => true,
        }
    }

    /// How many rounds there may still be.
    pub open spec fn rounds_left(self) -> int {
        match self {
            Boundary::Cancel(rounds) => MAX_BOUNDARY_ROUNDS - rounds,
            Boundary::Discard(rounds, _) => MAX_BOUNDARY_ROUNDS - rounds,
            Boundary::Drop => 0,
        }
    }

    /// The end of a call as it begins.
    pub fn begin() -> (r: Boundary)
        ensures
            r == Boundary::Cancel(0),
            r.wf(),
    {
        Boundary::Cancel(0)
    }

    /// Takes how many operations were cancelled; where that failed, none were.
    pub fn cancelled(self, count: Option<usize>) -> (r: Boundary)
        requires
            self.wf(),
        ensures
            r.wf(),
            r == match self {
                Boundary::Cancel(rounds) => Boundary::Discard(
                    rounds,
                    match count {
                        Some(count) => count,
                        None => 0,
                    },
                ),
                other => other,
            },
    {
        match self {
            Boundary::Cancel(rounds) => match count {
                Some(count) => Boundary::Discard(rounds, count),
                None => Boundary::Discard(rounds, 0),
            },
            other => other,
        }
    }

    /// Takes whether operations are pending after the jobs were dropped.
    pub fn discarded(self, has_pending: bool) -> (r: Boundary)
        requires
            self.wf(),
        ensures
            r.wf(),
            r == match self {
                Boundary::Discard(rounds, count) => boundary_next(rounds, count, has_pending),
                other => other,
            },
            self is Discard ==> r.rounds_left() < self.rounds_left(),
    {
        match self {
            Boundary::Discard(rounds, count) => {
                if (count == 0 && !has_pending) || rounds + 1 >= MAX_BOUNDARY_ROUNDS {
                    Boundary::Drop
                } else {
                    Boundary::Cancel(rounds + 1)
                }
            },
            other => other,
        }
    }
}

/// The state of a promise.
#[derive(Debug, Clone, Copy, PartialEq, Eq, Structural)]
pub enum PromiseState {
    Pending,
    Resolved,
    Rejected,
}

/// A promise that is being driven to its end.
#[derive(Debug)]
pub enum Drive {
    /// Run a checkpoint.
    Settle,
    /// Look at the promise, and at whether operations are pending.
    Look,
    /// Wait for pending operations.
    Poll,
    /// Catch what the promise was rejected with.
    Catch,
    /// The promise is resolved, or driving it failed.
    Finished(Result<(), JsError>),
}

/// What is done with pending operations after some became ready.
#[derive(Debug, Clone, Copy, PartialEq, Eq, Structural)]
pub enum PollDecision {
    /// Wait for more.
    Wait,
    /// Leave them pending for later.
    Suspend,
    /// Stop.
    Stop,
}

impl Drive {
    /// Takes what came of a checkpoint.
    pub fn checked(self, outcome: Result<(), JsError>) -> (r: Drive)
        ensures
            r == match self {
                Drive::Settle => match outcome {
                    Ok(_) => Drive::Look,
                    Err(e) => Drive::Finished(Err(e)),
                },
                other => other,
            },
    {
        match self {
            Drive::Settle => match outcome {
                Ok(_) => Drive::Look,
                Err(e) => Drive::Finished(Err(e)),
            },
            other => other,
        }
    }

    /// Takes the state of the promise, and whether operations are pending.
    pub fn looked(self, state: PromiseState, has_pending: bool) -> (r: Drive)
        ensures
            r == match self {
                Drive::Look => match state {
                    PromiseState::Resolved => Drive::Finished(Ok(())),
                    PromiseState::Rejected => Drive::Catch,
                    PromiseState::Pending => if has_pending {
                        Drive::Poll
                    } else {
                        Drive::Finished(Err(JsError::Unexpected("promise never resolved")))
                    },
                },
                other => other,
            },
    {
        match self {
            Drive::Look => match state {
                PromiseState::Resolved => Drive::Finished(Ok(())),
                PromiseState::Rejected => Drive::Catch,
                PromiseState::Pending => if has_pending {
                    Drive::Poll
                } else {
                    Drive::Finished(Err(JsError::Unexpected("promise never resolved")))
                },
            },
            other => other,
        }
    }

    /// Takes what the promise was rejected with.
    pub fn caught(self, error: JsError) -> (r: Drive)
        ensures
            r == match self {
                Drive::Catch => Drive::Finished(Err(error)),
                other => other,
            },
    {
        match self {
            Drive::Catch => Drive::Finished(Err(error)),
            other => other,
        }
    }

    /// Takes what came of waiting: the error that ended it, whether anything happened, and the
    /// state of the promise.
    pub fn polled(
        self,
        error: Option<JsError>,
        made_progress: bool,
        state: PromiseState,
    ) -> (r: Drive)
        ensures
            r == match self {
                Drive::Poll => match error {
                    Some(e) => Drive::Finished(Err(e)),
                    None => if !made_progress && state == PromiseState::Pending {
                        Drive::Finished(Err(JsError::Unexpected("promise never resolved")))
                    } else {
                        Drive::Settle
                    },
                },
                other => other,
            },
    {
        match self {
            Drive::Poll => match error {
                Some(e) => Drive::Finished(Err(e)),
                None => if !made_progress && matches!(state, PromiseState::Pending) {
                    Drive::Finished(Err(JsError::Unexpected("promise never resolved")))
                } else {
                    Drive::Settle
                },
            },
            other => other,
        }
    }
}

/// What is done after the operations that became ready were resolved and a checkpoint was run, and
/// the error that ends it. `suspend` leaves operations pending once the promise is settled.
pub fn after_ready(
    resolved: Result<(), JsError>,
    checked: Result<(), JsError>,
    state: PromiseState,
    suspend: bool,
) -> (r: (PollDecision, Option<JsError>))
    ensures
        r == match resolved {
            Err(e) => (PollDecision::Stop, Some(e)),
            Ok(_) => match checked {
                Err(e) => (PollDecision::Stop, Some(e)),
                Ok(_) => (
                    if state == PromiseState::Pending {
                        PollDecision::Wait
                    } else if suspend {
                        PollDecision::Suspend
                    } else {
                        PollDecision::Stop
                    },
                    None,
                ),
            },
        },
{
    match resolved {
        Err(e) => (PollDecision::Stop, Some(e)),
        Ok(_) => match checked {
            Err(e) => (PollDecision::Stop, Some(e)),
            Ok(_) => if matches!(state, PromiseState::Pending) {
                (PollDecision::Wait, None)
            } else if suspend {
                (PollDecision::Suspend, None)
            } else {
                (PollDecision::Stop, None)
            },
        },
    }
}

/// A script that is being loaded.
#[derive(Debug)]
pub enum Load {
    /// Read the file.
    Read,
    /// Strip the types.
    Transpile,
    /// Evaluate the script.
    Evaluate,
    /// Run a checkpoint.
    Settle,
    /// It is loaded, or failed. What it left behind is cancelled only if it was evaluated.
    Finished { outcome: Result<(), JsError>, evaluated: bool },
}

impl Load {
    /// A script that is loaded from a file or from its text.
    pub fn begin(from_file: bool) -> (r: Load)
        ensures
            r == if from_file {
                Load::Read
            } else {
                Load::Transpile
            },
    {
        if from_file {
            Load::Read
        } else {
            Load::Transpile
        }
    }

    /// Takes whether the file was read.
    pub fn read(self, was_read: bool) -> (r: Load)
        ensures
            r == match self {
                Load::Read => if was_read {
                    Load::Transpile
                } else {
                    Load::Finished {
                        outcome: Err(JsError::Unexpected("failed to read script")),
                        evaluated: false,
                    }
                },
                other => other,
            },
    {
        match self {
            Load::Read => if was_read {
                Load::Transpile
            } else {
                Load::Finished {
                    outcome: Err(JsError::Unexpected("failed to read script")),
                    evaluated: false,
                }
            },
            other => other,
        }
    }

    /// Takes what came of stripping the types.
    pub fn transpiled(self, outcome: Result<(), String>) -> (r: Load)
        ensures
            r == match self {
                Load::Transpile => match outcome {
                    Ok(_) => Load::Evaluate,
                    Err(message) => Load::Finished {
                        outcome: Err(JsError::Transpile(message)),
                        evaluated: false,
                    },
                },
                other => other,
            },
    {
        match self {
            Load::Transpile => match outcome {
                Ok(_) => Load::Evaluate,
                Err(message) => Load::Finished {
                    outcome: Err(JsError::Transpile(message)),
                    evaluated: false,
                },
            },
            other => other,
        }
    }

    /// Takes what came of the evaluation.
    pub fn evaluated(self, outcome: Result<(), JsError>) -> (r: Load)
        ensures
            r == match self {
                Load::Evaluate => match outcome {
                    Ok(_) => Load::Settle,
                    Err(e) => Load::Finished { outcome: Err(e), evaluated: true },
                },
                other => other,
            },
    {
        match self {
            Load::Evaluate => match outcome {
                Ok(_) => Load::Settle,
                Err(e) => Load::Finished { outcome: Err(e), evaluated: true },
            },
            other => other,
        }
    }

    /// Takes what came of the checkpoint.
    pub fn checked(self, outcome: Result<(), JsError>) -> (r: Load)
        ensures
            r == match self {
                Load::Settle => Load::Finished { outcome, evaluated: true },
                other => other,
            },
    {
        match self {
            Load::Settle => Load::Finished { outcome, evaluated: true },
            other => other,
        }
    }
}

/// What values are drawn from one by one.
#[derive(Debug, Clone, Copy, PartialEq, Eq, Structural)]
pub enum Source {
    /// The result has an asynchronous iterator.
    Async,
    /// The result has a `next` method itself.
    Generator,
    /// The result has an iterator.
    Iterator,
}

/// A value that is handed over to the host.
#[derive(Debug, Clone, Copy, PartialEq, Eq, Structural)]
pub enum EmitType {
    /// One of several.
    PartialResult,
    /// The last one.
    End,
}

/// A call of a function, or the reading of a value, by its name.
#[derive(Debug)]
pub enum ScriptRun {
    /// Look the name up.
    Lookup,
    /// Convert the arguments.
    Build,
    /// Call the function.
    Call,
    /// Run a checkpoint after the call, which gave a promise or not.
    Settle(bool),
    /// Drive the promise to its end.
    Drive,
    /// Run a checkpoint before the result is handed over.
    Ready,
    /// Ask the result for an asynchronous iterator.
    AskAsync,
    /// Ask whether the result has a `next` method.
    AskNext,
    /// Ask whether the result can be handed over whole.
    AskPlain,
    /// Ask the result for an iterator.
    AskIterator,
    /// Ask for the next step.
    Next(Source),
    /// Run a checkpoint after the step was asked for, which gave a promise or not.
    NextSettle(Source, bool),
    /// Drive the promise of the step to its end, and leave operations pending.
    NextDrive,
    /// Read the step.
    Read(Source),
    /// Hand the value of the step over, as one of several.
    Partial(Source),
    /// Close the asynchronous iterator, since its value could not be handed over for this cause.
    Close(String),
    /// Hand the last value over: none, or the result or the value of the last step.
    End { empty: bool },
    /// The result was handed over, or the call failed.
    Finished(Result<(), JsError>),
}

/// What came of a step of a call.
#[derive(Debug)]
pub enum ScriptEvent {
    /// The name is not bound, or bound to a function or to another value.
    Looked(Result<Option<bool>, JsError>),
    /// The arguments were converted.
    Built(Result<(), JsError>),
    /// A call returned, with a promise or not.
    Called(Result<bool, JsError>),
    /// A checkpoint was run.
    Checked(Result<(), JsError>),
    /// A promise was driven to its end.
    Driven(Result<(), JsError>),
    /// The answer to what was asked of the result.
    Answered(bool),
    /// The step was read: whether it is the last, and whether its value is undefined; nothing
    /// where it is no object.
    Stepped(Option<(bool, bool)>),
    /// The value was handed over.
    Emitted(Result<(), String>),
    /// The iterator was closed.
    Closed,
}

/// What follows a step that may fail.
pub open spec fn or_fail(outcome: Result<(), JsError>, next: ScriptRun) -> ScriptRun {
    match outcome {
        Ok(_) => next,
        Err(e) => ScriptRun::Finished(Err(e)),
    }
}

/// What follows the reading of a step.
pub open spec fn after_step(source: Source, step: Option<(bool, bool)>) -> ScriptRun {
    match step {
        None => ScriptRun::Finished(Err(JsError::Unexpected("expected object from next()"))),
        Some((done, undefined)) => if done {
            ScriptRun::End { empty: undefined || source == Source::Iterator }
        } else {
            ScriptRun::Partial(source)
        },
    }
}

/// What follows an answer about the result: it is tried as an asynchronous iterator, as a
/// generator, as a whole, and as an iterator, in this order.
pub open spec fn after_answer(asked: ScriptRun, yes: bool) -> ScriptRun {
    match asked {
        ScriptRun::AskAsync => if yes {
            ScriptRun::Next(Source::Async)
        } else {
            ScriptRun::AskNext
        },
        ScriptRun::AskNext => if yes {
            ScriptRun::Next(Source::Generator)
        } else {
            ScriptRun::AskPlain
        },
        ScriptRun::AskPlain => if yes {
            ScriptRun::End { empty: false }
        } else {
            ScriptRun::AskIterator
        },
        ScriptRun::AskIterator => if yes {
            ScriptRun::Next(Source::Iterator)
        } else {
            ScriptRun::Finished(
                Err(JsError::Unexpected("Return type is not serializable or iterable")),
            )
        },
        other => other,
    }
}

/// The call after a step. An event that it does not wait for changes nothing.
pub open spec fn advanced(run: ScriptRun, event: ScriptEvent) -> ScriptRun {
    match (run, event) {
        (ScriptRun::Lookup, ScriptEvent::Looked(Ok(Some(is_function)))) => if is_function {
            ScriptRun::Build
        } else {
            ScriptRun::Ready
        },
        (ScriptRun::Lookup, ScriptEvent::Looked(Ok(None))) => ScriptRun::Finished(
            Err(JsError::Unexpected("name is not defined")),
        ),
        (ScriptRun::Lookup, ScriptEvent::Looked(Err(e))) => ScriptRun::Finished(Err(e)),
        (ScriptRun::Build, ScriptEvent::Built(outcome)) => or_fail(outcome, ScriptRun::Call),
        (ScriptRun::Call, ScriptEvent::Called(Ok(promise))) => ScriptRun::Settle(promise),
        (ScriptRun::Call, ScriptEvent::Called(Err(e))) => ScriptRun::Finished(Err(e)),
        (ScriptRun::Settle(promise), ScriptEvent::Checked(outcome)) => or_fail(
            outcome,
            if promise {
                ScriptRun::Drive
            } else {
                ScriptRun::Ready
            },
        ),
        (ScriptRun::Drive, ScriptEvent::Driven(outcome)) => or_fail(outcome, ScriptRun::Ready),
        (ScriptRun::Ready, ScriptEvent::Checked(outcome)) => or_fail(outcome, ScriptRun::AskAsync),
        (run, ScriptEvent::Answered(yes)) => after_answer(run, yes),
        (ScriptRun::Next(source), ScriptEvent::Called(Ok(promise))) => ScriptRun::NextSettle(
            source,
            promise,
        ),
        (ScriptRun::Next(source), ScriptEvent::Called(Err(e))) => ScriptRun::Finished(Err(e)),
        (ScriptRun::NextSettle(source, promise), ScriptEvent::Checked(outcome)) => or_fail(
            outcome,
            if promise && source == Source::Async {
                ScriptRun::NextDrive
            } else {
                ScriptRun::Read(source)
            },
        ),
        (ScriptRun::NextDrive, ScriptEvent::Driven(outcome)) => or_fail(
            outcome,
            ScriptRun::Read(Source::Async),
        ),
        (ScriptRun::Read(source), ScriptEvent::Stepped(step)) => after_step(source, step),
        (ScriptRun::Partial(source), ScriptEvent::Emitted(Ok(_))) => ScriptRun::Next(source),
        (ScriptRun::Partial(source), ScriptEvent::Emitted(Err(cause))) => if source
            == Source::Async {
            ScriptRun::Close(cause)
        } else {
            ScriptRun::Finished(Err(plain_error(cause)))
        },
        (ScriptRun::Close(cause), ScriptEvent::Closed) => ScriptRun::Finished(
            Err(plain_error(cause)),
        ),
        (ScriptRun::End { empty }, ScriptEvent::Emitted(Ok(_))) => ScriptRun::Finished(Ok(())),
        (ScriptRun::End { empty }, ScriptEvent::Emitted(Err(cause))) => ScriptRun::Finished(
            Err(plain_error(cause)),
        ),
        (run, _) => run,
    }
}

impl ScriptRun {
    /// What follows a step that may fail.
    fn unless_failed(outcome: Result<(), JsError>, next: ScriptRun) -> (r: ScriptRun)
        ensures
            r == or_fail(outcome, next),
    {
        match outcome {
            Ok(_) => next,
            Err(e) => ScriptRun::Finished(Err(e)),
        }
    }

    /// What follows an answer about the result.
    fn answered(self, yes: bool) -> (r: ScriptRun)
        ensures
            r == after_answer(self, yes),
    {
        match self {
            ScriptRun::AskAsync => if yes {
                ScriptRun::Next(Source::Async)
            } else {
                ScriptRun::AskNext
            },
            ScriptRun::AskNext => if yes {
                ScriptRun::Next(Source::Generator)
            } else {
                ScriptRun::AskPlain
            },
            ScriptRun::AskPlain => if yes {
                ScriptRun::End { empty: false }
            } else {
                ScriptRun::AskIterator
            },
            ScriptRun::AskIterator => if yes {
                ScriptRun::Next(Source::Iterator)
            } else {
                ScriptRun::Finished(
                    Err(JsError::Unexpected("Return type is not serializable or iterable")),
                )
            },
            other => other,
        }
    }

    /// What follows the reading of a step.
    fn stepped(source: Source, step: Option<(bool, bool)>) -> (r: ScriptRun)
        ensures
            r == after_step(source, step),
    {
        match step {
            None => ScriptRun::Finished(Err(JsError::Unexpected("expected object from next()"))),
            Some((done, undefined)) => if done {
                ScriptRun::End { empty: undefined || matches!(source, Source::Iterator) }
            } else {
                ScriptRun::Partial(source)
            },
        }
    }

    /// Takes what came of a step.
    pub fn advance(self, event: ScriptEvent) -> (r: ScriptRun)
        ensures
            r == advanced(self, event),
    {
        match (self, event) {
            (ScriptRun::Lookup, ScriptEvent::Looked(outcome)) => match outcome {
                Ok(Some(is_function)) => if is_function {
                    ScriptRun::Build
                } else {
                    ScriptRun::Ready
                },
                Ok(None) => ScriptRun::Finished(Err(JsError::Unexpected("name is not defined"))),
                Err(e) => ScriptRun::Finished(Err(e)),
            },
            (ScriptRun::Build, ScriptEvent::Built(outcome)) => Self::unless_failed(
                outcome,
                ScriptRun::Call,
            ),
            (ScriptRun::Call, ScriptEvent::Called(outcome)) => match outcome {
                Ok(promise) => ScriptRun::Settle(promise),
                Err(e) => ScriptRun::Finished(Err(e)),
            },
            (ScriptRun::Settle(promise), ScriptEvent::Checked(outcome)) => Self::unless_failed(
                outcome,
                if promise {
                    ScriptRun::Drive
                } else {
                    ScriptRun::Ready
                },
            ),
            (ScriptRun::Drive, ScriptEvent::Driven(outcome)) => Self::unless_failed(
                outcome,
                ScriptRun::Ready,
            ),
            (ScriptRun::Ready, ScriptEvent::Checked(outcome)) => Self::unless_failed(
                outcome,
                ScriptRun::AskAsync,
            ),
            (run, ScriptEvent::Answered(yes)) => run.answered(yes),
            (ScriptRun::Next(source), ScriptEvent::Called(outcome)) => match outcome {
                Ok(promise) => ScriptRun::NextSettle(source, promise),
                Err(e) => ScriptRun::Finished(Err(e)),
            },
            (
                ScriptRun::NextSettle(source, promise),
                ScriptEvent::Checked(outcome),
            ) => Self::unless_failed(
                outcome,
                if promise && matches!(source, Source::Async) {
                    ScriptRun::NextDrive
                } else {
                    ScriptRun::Read(source)
                },
            ),
            (ScriptRun::NextDrive, ScriptEvent::Driven(outcome)) => Self::unless_failed(
                outcome,
                ScriptRun::Read(Source::Async),
            ),
            (ScriptRun::Read(source), ScriptEvent::Stepped(step)) => Self::stepped(source, step),
            (ScriptRun::Partial(source), ScriptEvent::Emitted(outcome)) => match outcome {
                Ok(_) => ScriptRun::Next(source),
                Err(cause) => if matches!(source, Source::Async) {
                    ScriptRun::Close(cause)
                } else {
                    ScriptRun::Finished(Err(JsError::Js { cause, stack: None }))
                },
            },
            (ScriptRun::Close(cause), ScriptEvent::Closed) => ScriptRun::Finished(
                Err(JsError::Js { cause, stack: None }),
            ),
            (ScriptRun::End { empty }, ScriptEvent::Emitted(outcome)) => match outcome {
                Ok(_) => ScriptRun::Finished(Ok(())),
                Err(cause) => ScriptRun::Finished(Err(JsError::Js { cause, stack: None })),
            },
            (run, _) => run,
        }
    }
}

/// What a step handed over.
pub open spec fn handed_over(run: ScriptRun, event: ScriptEvent) -> Seq<EmitType> {
    match (run, event) {
        (ScriptRun::Partial(_), ScriptEvent::Emitted(Ok(_))) => seq![EmitType::PartialResult],
        (ScriptRun::End { .. }, ScriptEvent::Emitted(Ok(_))) => seq![EmitType::End],
        _ => Seq::empty(),
    }
}

/// A call after several steps.
pub open spec fn after_events(run: ScriptRun, events: Seq<ScriptEvent>) -> ScriptRun
    decreases events.len(),
{
    if events.len() == 0 {
        run
    } else {
        advanced(after_events(run, events.drop_last()), events.last())
    }
}

/// What several steps of a call handed over.
pub open spec fn all_handed_over(run: ScriptRun, events: Seq<ScriptEvent>) -> Seq<EmitType>
    decreases events.len(),
{
    if events.len() == 0 {
        Seq::empty()
    } else {
        all_handed_over(run, events.drop_last()) + handed_over(
            after_events(run, events.drop_last()),
            events.last(),
        )
    }
}

/// Values that are each one of several.
pub open spec fn only_partial(emitted: Seq<EmitType>) -> bool {
    forall|i: int| 0 <= i < emitted.len() ==> #[trigger] emitted[i] == EmitType::PartialResult
}

/// Whatever the engine does, a call hands over values that are each one of several, and then, if
/// it succeeds and only then, exactly one that is the last.
pub proof fn call_ends_with_its_last_value(events: Seq<ScriptEvent>)
    ensures
        ({
            let emitted = all_handed_over(ScriptRun::Lookup, events);
            if after_events(ScriptRun::Lookup, events) == ScriptRun::Finished(Ok(())) {
                emitted.len() > 0 && emitted.last() == EmitType::End && only_partial(
                    emitted.drop_last(),
                )
            } else {
                only_partial(emitted)
            }
        }),
    decreases events.len(),
{
    if events.len() > 0 {
        let front = events.drop_last();
        call_ends_with_its_last_value(front);
        let run = after_events(ScriptRun::Lookup, front);
        let before = all_handed_over(ScriptRun::Lookup, front);
        let step = handed_over(run, events.last());
        let emitted = all_handed_over(ScriptRun::Lookup, events);
        assert(emitted == before + step);
        if step.len() == 0 {
            assert(emitted =~= before);
        } else {
            assert(emitted.drop_last() =~= before);
            assert(emitted.last() == step[0]);
        }
    }
}

/// How many values were drawn from the result of a call, besides a last one.
pub open spec fn drawn(run: ScriptRun, events: Seq<ScriptEvent>) -> nat
    decreases events.len(),
{
    if events.len() == 0 {
        0
    } else {
        let before = drawn(run, events.drop_last());
        match (after_events(run, events.drop_last()), events.last()) {
            (ScriptRun::Read(_), ScriptEvent::Stepped(Some((false, _)))) => before + 1,
            _ => before,
        }
    }
}

/// How far a call has come.
proof fn call_so_far(events: Seq<ScriptEvent>)
    ensures
        ({
            let handed = all_handed_over(ScriptRun::Lookup, events).len();
            let drawn = drawn(ScriptRun::Lookup, events);
            match after_events(ScriptRun::Lookup, events) {
                ScriptRun::Partial(_) => handed + 1 == drawn,
                ScriptRun::Finished(Ok(_)) => handed == drawn + 1,
                ScriptRun::Finished(Err(_)) | ScriptRun::Close(_) => true,
                _ => handed == drawn,
            }
        }),
    decreases events.len(),
{
    if events.len() > 0 {
        call_so_far(events.drop_last());
    }
}

/// A call that succeeds hands over every value that is drawn from its result, each once, and one
/// that is the last.
pub proof fn drawn_values_are_handed_over(events: Seq<ScriptEvent>)
    requires
        after_events(ScriptRun::Lookup, events) == ScriptRun::Finished(Ok(())),
    ensures
        all_handed_over(ScriptRun::Lookup, events).len() == drawn(ScriptRun::Lookup, events) + 1,
{
    call_so_far(events);
}

/// A call that is finished stays so.
pub proof fn finished_call_stays_finished(outcome: Result<(), JsError>, event: ScriptEvent)
    ensures
        advanced(ScriptRun::Finished(outcome), event) == ScriptRun::Finished(outcome),
        handed_over(ScriptRun::Finished(outcome), event) == Seq::<EmitType>::empty(),
{
}

/// A call of a name that nothing defines fails, whatever else happens, and hands nothing over.
pub proof fn undefined_name_fails(events: Seq<ScriptEvent>)
    requires
        events.len() > 0,
        events[0] == ScriptEvent::Looked(Ok(None)),
    ensures
        after_events(ScriptRun::Lookup, events) == ScriptRun::Finished(
            Err(JsError::Unexpected("name is not defined")),
        ),
        all_handed_over(ScriptRun::Lookup, events).len() == 0,
    decreases events.len(),
{
    let front = events.drop_last();
    if front.len() > 0 {
        assert(front[0] == events[0]);
        undefined_name_fails(front);
    } else {
        assert(events.last() == events[0]);
        assert(after_events(ScriptRun::Lookup, front) == ScriptRun::Lookup);
        assert(all_handed_over(ScriptRun::Lookup, front).len() == 0);
    }
}

/// The scope of scripts: what they left unhandled.
#[derive(Debug)]
pub struct Scope {
    pub rejections: Rejections,
}

impl Scope {
    /// A scope in which nothing was loaded.
    pub fn new() -> (r: Scope)
        ensures
            r.rejections@ == Map::<u64, Rejection>::empty(),
    {
        Scope { rejections: Rejections::new() }
    }

    /// Begins to load a script from its text. What was left unhandled before does not count.
    pub fn load_script(&mut self) -> (r: Load)
        ensures
            r is Transpile,
            final(self).rejections@ == Map::<u64, Rejection>::empty(),
    {
        self.rejections.clear();
        Load::begin(false)
    }

    /// Begins to load a script from a file.
    pub fn load_file(&mut self) -> (r: Load)
        ensures
            r is Read,
            final(self).rejections@ == Map::<u64, Rejection>::empty(),
    {
        self.rejections.clear();
        Load::begin(true)
    }

    /// Begins a call.
    pub fn run(&mut self) -> (r: ScriptRun)
        ensures
            r is Lookup,
            final(self).rejections@ == Map::<u64, Rejection>::empty(),
    {
        self.rejections.clear();
        ScriptRun::Lookup
    }

    /// Ends a call: what it left unhandled is forgotten, and what came of it stands.
    pub fn finish_boundary<T>(&mut self, result: T) -> (r: T)
        ensures
            r == result,
            final(self).rejections@ == Map::<u64, Rejection>::empty(),
    {
        self.rejections.clear();
        result
    }
}

} // verus!
