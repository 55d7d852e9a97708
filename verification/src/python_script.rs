//! Scripts in the Python runtime: what is done next with the interpreter, by what came of the last
//! step.

use vstd::prelude::*;
use vstd::utf8::encode_utf8;

use crate::js_script::EmitType;
use crate::text::{concat2, concat3, text_eq};

verus! {

/// Why a script fails, where the interpreter raises `E`.
#[derive(Debug)]
pub enum PyFailure<E> {
    /// The interpreter raised this.
    Raised(E),
    /// A name is not defined.
    NameError(String),
    /// A script cannot be compiled.
    ValueError(String),
    /// Something that a script must not do.
    UnexpectedError(&'static str),
}

/// An argument as it arrives at the runtime.
#[derive(Debug)]
pub enum InputValue<I> {
    /// One encoded value.
    Cbor(Vec<u8>),
    /// A source of values.
    Iter(I),
}

/// What an object is, as far as it decides whether it is handed over whole.
#[derive(Debug)]
pub struct ObjectKind {
    pub is_none: bool,
    /// The object is exactly of the type `dict`, and so on: a subtype does not count.
    pub is_dict: bool,
    pub is_list: bool,
    pub is_tuple: bool,
    pub is_str: bool,
    pub is_bool: bool,
    pub is_int: bool,
    pub is_float: bool,
    pub is_bytes: bool,
    pub is_bytearray: bool,
    pub is_memoryview: bool,
    /// The module of its type, where it can be told.
    pub module: Option<String>,
    pub has_dtype: bool,
}

/// Whether an object is of one of the built-in types that are handed over whole.
pub open spec fn is_builtin(kind: ObjectKind) -> bool {
    kind.is_dict || kind.is_list || kind.is_tuple || kind.is_str || kind.is_bool || kind.is_int
        || kind.is_float || kind.is_bytes || kind.is_bytearray || kind.is_memoryview
}

/// Whether an object is handed over whole: it is of a built-in type, or an array of `numpy`.
pub fn is_serializable(kind: &ObjectKind) -> (r: bool)
    ensures
        r == (kind.is_none || is_builtin(*kind) || ((kind.module matches Some(module) && module@
            == "numpy"@) && kind.has_dtype)),
{
    let is_numpy = match &kind.module {
        Some(module) => text_eq(module.as_str(), "numpy"),
        None => false,
    };
    kind.is_none || kind.is_dict || kind.is_list || kind.is_tuple || kind.is_str || kind.is_bool
        || kind.is_int || kind.is_float || kind.is_bytes || kind.is_bytearray || kind.is_memoryview
        || (is_numpy && kind.has_dtype)
}

/// A call of a function, or the reading of a value, by its name.
#[derive(Debug)]
pub enum ScriptRun<E> {
    /// Look the name up.
    Lookup,
    /// Convert the arguments.
    Build,
    /// Call the function.
    Call,
    /// Ask whether the result is awaitable or an asynchronous iterable.
    AskAwaitable,
    /// Run the result in an event loop.
    RunAsync,
    /// Ask whether the result can be handed over whole.
    AskPlain,
    /// Ask the result for an iterator.
    AskIterable,
    /// Ask the iterator for its next value.
    Next,
    /// Hand the value over, as one of several.
    Partial,
    /// Hand the last value over: none, or the result.
    End { empty: bool },
    /// The result was handed over, or the call failed.
    Finished(Result<(), PyFailure<E>>),
}

/// What came of a step of a call.
#[derive(Debug)]
pub enum ScriptEvent<E> {
    /// The name is not bound, or bound to something that can be called or not.
    Looked(Result<Option<bool>, PyFailure<E>>),
    /// The arguments were converted.
    Built(Result<(), PyFailure<E>>),
    /// The function returned.
    Called(Result<(), PyFailure<E>>),
    /// The answer to what was asked of the result.
    Answered(bool),
    /// The event loop ended.
    Ran(Result<(), PyFailure<E>>),
    /// The iterator gave a value, or has no more.
    Stepped(Result<bool, PyFailure<E>>),
    /// The value was handed over.
    Emitted(Result<(), PyFailure<E>>),
}

/// What follows a step that may fail.
pub open spec fn or_fail<E>(outcome: Result<(), PyFailure<E>>, next: ScriptRun<E>) -> ScriptRun<E> {
    match outcome {
        Ok(_) => next,
        Err(e) => ScriptRun::Finished(Err(e)),
    }
}

/// A call of a name that is not defined.
pub open spec fn is_undefined<E>(name: Seq<char>, run: ScriptRun<E>) -> bool {
    run matches ScriptRun::Finished(Err(PyFailure::NameError(message))) && message@ == "name '"@
        + name + "' is not defined"@
}

/// What follows an answer about the result: it is run if it is awaitable, then handed over whole,
/// or value by value.
pub open spec fn after_answer<E>(asked: ScriptRun<E>, yes: bool) -> ScriptRun<E> {
    match asked {
        ScriptRun::AskAwaitable => if yes {
            ScriptRun::RunAsync
        } else {
            ScriptRun::AskPlain
        },
        ScriptRun::AskPlain => if yes {
            ScriptRun::End { empty: false }
        } else {
            ScriptRun::AskIterable
        },
        ScriptRun::AskIterable => if yes {
            ScriptRun::Next
        } else {
            ScriptRun::Finished(
                Err(PyFailure::UnexpectedError("Return type is not serializable or iterable")),
            )
        },
        other => other,
    }
}

/// The call of a name after a step. An event that it does not wait for changes nothing.
pub open spec fn advances<E>(
    name: Seq<char>,
    run: ScriptRun<E>,
    event: ScriptEvent<E>,
    next: ScriptRun<E>,
) -> bool {
    match (run, event) {
        (ScriptRun::Lookup, ScriptEvent::Looked(Ok(None))) => is_undefined(name, next),
        _ => next == advanced(run, event),
    }
}

/// The call of a name that is defined, after a step.
pub open spec fn advanced<E>(run: ScriptRun<E>, event: ScriptEvent<E>) -> ScriptRun<E> {
    match (run, event) {
        (ScriptRun::Lookup, ScriptEvent::Looked(Ok(Some(callable)))) => if callable {
            ScriptRun::Build
        } else {
            ScriptRun::AskAwaitable
        },
        (ScriptRun::Lookup, ScriptEvent::Looked(Err(e))) => ScriptRun::Finished(Err(e)),
        (ScriptRun::Build, ScriptEvent::Built(outcome)) => or_fail(outcome, ScriptRun::Call),
        (ScriptRun::Call, ScriptEvent::Called(outcome)) => or_fail(
            outcome,
            ScriptRun::AskAwaitable,
        ),
        (run, ScriptEvent::Answered(yes)) => after_answer(run, yes),
        (ScriptRun::RunAsync, ScriptEvent::Ran(outcome)) => or_fail(outcome, ScriptRun::AskPlain),
        (ScriptRun::Next, ScriptEvent::Stepped(Ok(more))) => if more {
            ScriptRun::Partial
        } else {
            ScriptRun::End { empty: true }
        },
        (ScriptRun::Next, ScriptEvent::Stepped(Err(e))) => ScriptRun::Finished(Err(e)),
        (ScriptRun::Partial, ScriptEvent::Emitted(outcome)) => or_fail(outcome, ScriptRun::Next),
        (ScriptRun::End { empty }, ScriptEvent::Emitted(outcome)) => or_fail(
            outcome,
            ScriptRun::Finished(Ok(())),
        ),
        (run, _) => run,
    }
}

impl<E> ScriptRun<E> {
    /// A call as it begins.
    pub fn begin() -> (r: ScriptRun<E>)
        ensures
            r is Lookup,
    {
        ScriptRun::Lookup
    }

    /// What follows a step that may fail.
    fn unless_failed(outcome: Result<(), PyFailure<E>>, next: ScriptRun<E>) -> (r: ScriptRun<E>)
        ensures
            r == or_fail(outcome, next),
    {
        match outcome {
            Ok(_) => next,
            Err(e) => ScriptRun::Finished(Err(e)),
        }
    }

    /// What follows an answer about the result.
    fn answered(self, yes: bool) -> (r: ScriptRun<E>)
        ensures
            r == after_answer(self, yes),
    {
        match self {
            ScriptRun::AskAwaitable => if yes {
                ScriptRun::RunAsync
            } else {
                ScriptRun::AskPlain
            },
            ScriptRun::AskPlain => if yes {
                ScriptRun::End { empty: false }
            } else {
                ScriptRun::AskIterable
            },
            ScriptRun::AskIterable => if yes {
                ScriptRun::Next
            } else {
                ScriptRun::Finished(
                    Err(PyFailure::UnexpectedError("Return type is not serializable or iterable")),
                )
            },
            other => other,
        }
    }

    /// Takes what came of a step of the call of a name.
    pub fn advance(self, name: &str, event: ScriptEvent<E>) -> (r: ScriptRun<E>)
        ensures
            advances(name@, self, event, r),
    {
        match (self, event) {
            (ScriptRun::Lookup, ScriptEvent::Looked(outcome)) => match outcome {
                Ok(Some(callable)) => if callable {
                    ScriptRun::Build
                } else {
                    ScriptRun::AskAwaitable
                },
                Ok(None) => ScriptRun::Finished(
                    Err(PyFailure::NameError(concat3("name '", name, "' is not defined"))),
                ),
                Err(e) => ScriptRun::Finished(Err(e)),
            },
            (ScriptRun::Build, ScriptEvent::Built(outcome)) => Self::unless_failed(
                outcome,
                ScriptRun::Call,
            ),
            (ScriptRun::Call, ScriptEvent::Called(outcome)) => Self::unless_failed(
                outcome,
                ScriptRun::AskAwaitable,
            ),
            (run, ScriptEvent::Answered(yes)) => run.answered(yes),
            (ScriptRun::RunAsync, ScriptEvent::Ran(outcome)) => Self::unless_failed(
                outcome,
                ScriptRun::AskPlain,
            ),
            (ScriptRun::Next, ScriptEvent::Stepped(outcome)) => match outcome {
                Ok(more) => if more {
                    ScriptRun::Partial
                } else {
                    ScriptRun::End { empty: true }
                },
                Err(e) => ScriptRun::Finished(Err(e)),
            },
            (ScriptRun::Partial, ScriptEvent::Emitted(outcome)) => Self::unless_failed(
                outcome,
                ScriptRun::Next,
            ),
            (ScriptRun::End { empty }, ScriptEvent::Emitted(outcome)) => Self::unless_failed(
                outcome,
                ScriptRun::Finished(Ok(())),
            ),
            (run, _) => run,
        }
    }
}

/// What a step handed over.
pub open spec fn handed_over<E>(run: ScriptRun<E>, event: ScriptEvent<E>) -> Seq<EmitType> {
    match (run, event) {
        (ScriptRun::Partial, ScriptEvent::Emitted(Ok(_))) => seq![EmitType::PartialResult],
        (ScriptRun::End { .. }, ScriptEvent::Emitted(Ok(_))) => seq![EmitType::End],
        _ => Seq::empty(),
    }
}

/// A call that goes through these states as these events come.
pub open spec fn is_call<E>(
    name: Seq<char>,
    runs: Seq<ScriptRun<E>>,
    events: Seq<ScriptEvent<E>>,
) -> bool {
    &&& runs.len() == events.len() + 1
    &&& runs[0] is Lookup
    &&& forall|i: int|
        0 <= i < events.len() ==> advances(name, runs[i], #[trigger] events[i], runs[i + 1])
}

/// What a call handed over.
pub open spec fn all_handed_over<E>(
    runs: Seq<ScriptRun<E>>,
    events: Seq<ScriptEvent<E>>,
) -> Seq<EmitType>
    decreases events.len(),
{
    if events.len() == 0 {
        Seq::empty()
    } else {
        all_handed_over(runs.drop_last(), events.drop_last()) + handed_over(
            runs[events.len() - 1],
            events.last(),
        )
    }
}

/// Whatever the interpreter does, a call hands over values that are each one of several, and then,
/// if it succeeds and only then, exactly one that is the last.
pub proof fn call_ends_with_its_last_value<E>(
    name: Seq<char>,
    runs: Seq<ScriptRun<E>>,
    events: Seq<ScriptEvent<E>>,
)
    requires
        is_call(name, runs, events),
    ensures
        ({
            let emitted = all_handed_over(runs, events);
            if runs.last() == ScriptRun::<E>::Finished(Ok(())) {
                emitted.len() > 0 && emitted.last() == EmitType::End
                    && crate::js_script::only_partial(emitted.drop_last())
            } else {
                crate::js_script::only_partial(emitted)
            }
        }),
    decreases events.len(),
{
    if events.len() > 0 {
        let front = events.drop_last();
        let earlier = runs.drop_last();
        assert forall|i: int| 0 <= i < front.len() implies advances(
            name,
            earlier[i],
            #[trigger] front[i],
            earlier[i + 1],
        ) by {
            assert(front[i] == events[i]);
        }
        call_ends_with_its_last_value(name, earlier, front);
        let n = events.len() - 1;
        assert(advances(name, runs[n], events[n], runs[n + 1]));
        assert(earlier.last() == runs[n]);
        let before = all_handed_over(earlier, front);
        let step = handed_over(runs[n], events.last());
        let emitted = all_handed_over(runs, events);
        assert(runs.last() == runs[n + 1]);
        assert(emitted == before + step);
        if step.len() == 0 {
            assert(emitted =~= before);
        } else {
            assert(emitted.drop_last() =~= before);
            assert(emitted.last() == step[0]);
        }
    }
}

/// How many values the result of a call yielded.
pub open spec fn yielded<E>(runs: Seq<ScriptRun<E>>, events: Seq<ScriptEvent<E>>) -> nat
    decreases events.len(),
{
    if events.len() == 0 {
        0
    } else {
        let before = yielded(runs.drop_last(), events.drop_last());
        match (runs[events.len() - 1], events.last()) {
            (ScriptRun::Next, ScriptEvent::Stepped(Ok(true))) => before + 1,
            _ => before,
        }
    }
}

/// Whether the result of a call was asked for its values one by one.
pub open spec fn iterates<E>(runs: Seq<ScriptRun<E>>) -> bool {
    exists|i: int| 0 <= i < runs.len() && (#[trigger] runs[i]) is Next
}

/// Whether the last values of a call are none exactly if its result was asked for its values one
/// by one.
pub open spec fn ends_accordingly<E>(runs: Seq<ScriptRun<E>>) -> bool {
    forall|i: int|
        0 <= i < runs.len() ==> (#[trigger] runs[i] matches ScriptRun::End { empty } ==> empty
            == iterates(runs))
}

/// How far a call has come.
proof fn call_so_far<E>(
    name: Seq<char>,
    runs: Seq<ScriptRun<E>>,
    events: Seq<ScriptEvent<E>>,
)
    requires
        is_call(name, runs, events),
    ensures
        ({
            let handed = all_handed_over(runs, events).len();
            match runs.last() {
                ScriptRun::Partial => handed + 1 == yielded(runs, events),
                ScriptRun::Finished(Ok(_)) => handed == yielded(runs, events) + 1,
                ScriptRun::Finished(Err(_)) => true,
                _ => handed == yielded(runs, events),
            }
        }),
        match runs.last() {
            ScriptRun::Next | ScriptRun::Partial => iterates(runs) && forall|i: int|
                0 <= i < runs.len() ==> (#[trigger] runs[i]) !is End,
            ScriptRun::End { .. } | ScriptRun::Finished(_) => ends_accordingly(runs),
            _ => !iterates(runs) && forall|i: int|
                0 <= i < runs.len() ==> (#[trigger] runs[i]) !is End,
        },
    decreases events.len(),
{
    if events.len() > 0 {
        let front = events.drop_last();
        let earlier = runs.drop_last();
        assert forall|i: int| 0 <= i < front.len() implies advances(
            name,
            earlier[i],
            #[trigger] front[i],
            earlier[i + 1],
        ) by {
            assert(front[i] == events[i]);
        }
        call_so_far(name, earlier, front);
        let n = events.len() - 1;
        assert(advances(name, runs[n], events[n], runs[n + 1]));
        assert(earlier.last() == runs[n]);
        assert(runs.last() == runs[n + 1]);
        assert forall|i: int| 0 <= i < earlier.len() implies earlier[i] == #[trigger] runs[i] by {}
        if iterates(earlier) {
            let i = choose|i: int| 0 <= i < earlier.len() && (#[trigger] earlier[i]) is Next;
            assert(runs[i] is Next);
        }
        if iterates(runs) && runs.last() !is Next {
            let i = choose|i: int| 0 <= i < runs.len() && (#[trigger] runs[i]) is Next;
            assert(earlier[i] is Next);
        }
        assert(runs.last() !is Next ==> iterates(runs) == iterates(earlier));
    }
}

/// A call whose result is asked for its values one by one hands every yielded value over as one of
/// several, and then that there is no last value. Any other call hands over one value.
pub proof fn yielded_values_end_in_nothing<E>(
    name: Seq<char>,
    runs: Seq<ScriptRun<E>>,
    events: Seq<ScriptEvent<E>>,
)
    requires
        is_call(name, runs, events),
        runs.last() == ScriptRun::<E>::Finished(Ok(())),
    ensures
        all_handed_over(runs, events).len() == yielded(runs, events) + 1,
        ends_accordingly(runs),
{
    call_so_far(name, runs, events);
}

/// A call of a name that nothing defines fails, whatever else happens, and hands nothing over.
pub proof fn undefined_name_fails<E>(
    name: Seq<char>,
    runs: Seq<ScriptRun<E>>,
    events: Seq<ScriptEvent<E>>,
)
    requires
        is_call(name, runs, events),
        events.len() > 0,
        events[0] == ScriptEvent::<E>::Looked(Ok(None)),
    ensures
        is_undefined(name, runs.last()),
        all_handed_over(runs, events).len() == 0,
    decreases events.len(),
{
    let front = events.drop_last();
    let earlier = runs.drop_last();
    let n = events.len() - 1;
    assert forall|i: int| 0 <= i < front.len() implies advances(
        name,
        earlier[i],
        #[trigger] front[i],
        earlier[i + 1],
    ) by {
        assert(front[i] == events[i]);
    }
    assert(advances(name, runs[n], events[n], runs[n + 1]));
    assert(runs.last() == runs[n + 1]);
    if front.len() > 0 {
        assert(front[0] == events[0]);
        undefined_name_fails(name, earlier, front);
        assert(earlier.last() == runs[n]);
    } else {
        assert(all_handed_over(earlier, front).len() == 0);
    }
}

/// The decimal digits of a number.
pub open spec fn decimal(n: nat) -> Seq<char>
    decreases n,
{
    let digit = (48 + n % 10) as char;
    if n < 10 {
        seq![digit]
    } else {
        decimal(n / 10).push(digit)
    }
}

/// The decimal digits of a number.
fn decimal_text(n: usize) -> (r: String)
    ensures
        r@ == decimal(n as nat),
    decreases n,
{
    let digit: u8 = (n % 10) as u8;
    let mut out: String = if n < 10 {
        String::new()
    } else {
        decimal_text(n / 10)
    };
    out.push((48 + digit) as char);
    proof {
        assert(out@ =~= decimal(n as nat));
    }
    out
}

/// The position of the first NUL byte.
pub open spec fn is_first_nul(bytes: Seq<u8>, at: int) -> bool {
    &&& 0 <= at < bytes.len()
    &&& bytes[at] == 0
    &&& forall|k: int| 0 <= k < at ==> #[trigger] bytes[k] != 0
}

/// Checks that a script can be handed to the interpreter, which takes no NUL byte.
pub fn check_script<E>(code: &str) -> (r: Result<(), PyFailure<E>>)
    ensures
        match r {
            Ok(_) => forall|k: int|
                0 <= k < encode_utf8(code@).len() ==> #[trigger] encode_utf8(code@)[k] != 0,
            Err(PyFailure::ValueError(message)) => exists|at: int| #[trigger]
                is_first_nul(encode_utf8(code@), at) && message@
                    == "script contains NUL byte: nul byte found in provided data at position: "@
                    + decimal(at as nat),
            Err(_) => false,
        },
        r is Ok <==> !encode_utf8(code@).contains(0u8),
{
    let bytes = code.as_bytes();
    let mut i: usize = 0;
    while i < bytes.len()
        invariant
            i <= bytes@.len(),
            bytes@ == encode_utf8(code@),
            forall|k: int| 0 <= k < i ==> #[trigger] bytes@[k] != 0,
        decreases bytes@.len() - i,
    {
        if bytes[i] == 0 {
            proof {
                assert(is_first_nul(bytes@, i as int));
                assert(bytes@.contains(0u8));
            }
            let position = decimal_text(i);
            return Err(
                PyFailure::ValueError(
                    concat2(
                        "script contains NUL byte: nul byte found in provided data at position: ",
                        position.as_str(),
                    ),
                ),
            );
        }
        i = i + 1;
    }
    Ok(())
}

/// A script that is being loaded.
#[derive(Debug)]
pub enum Load<E> {
    /// Install what its metadata asks for.
    Initialize,
    /// Check and execute the script.
    Execute,
    /// It is loaded, or failed.
    Finished(Result<(), PyFailure<E>>),
}

impl<E> Load<E> {
    /// A script, which has metadata or not.
    pub fn begin(has_metadata: bool) -> (r: Load<E>)
        ensures
            if has_metadata {
                r is Initialize
            } else {
                r is Execute
            },
    {
        if has_metadata {
            Load::Initialize
        } else {
            Load::Execute
        }
    }

    /// Takes what came of the installation.
    pub fn initialized(self, outcome: Result<(), PyFailure<E>>) -> (r: Load<E>)
        ensures
            r == match self {
                Load::Initialize => match outcome {
                    Ok(_) => Load::Execute,
                    Err(e) => Load::Finished(Err(e)),
                },
                other => other,
            },
    {
        match self {
            Load::Initialize => match outcome {
                Ok(_) => Load::Execute,
                Err(e) => Load::Finished(Err(e)),
            },
            other => other,
        }
    }

    /// Takes what came of the execution.
    pub fn executed(self, outcome: Result<(), PyFailure<E>>) -> (r: Load<E>)
        ensures
            r == match self {
                Load::Execute => Load::Finished(outcome),
                other => other,
            },
    {
        match self {
            Load::Execute => Load::Finished(outcome),
            other => other,
        }
    }
}

/// The scope of scripts, with the standard streams `S` of the interpreter where both are there.
#[derive(Debug)]
pub struct Scope<S> {
    pub stdio: Option<(S, S)>,
}

impl<S> Scope<S> {
    /// A scope with these streams. One alone is not used.
    pub fn new(stdout: Option<S>, stderr: Option<S>) -> (r: Scope<S>)
        ensures
            r.stdio == match (stdout, stderr) {
                (Some(out), Some(err)) => Some((out, err)),
                _ => None,
            },
    {
        let stdio = match (stdout, stderr) {
            (Some(out), Some(err)) => Some((out, err)),
            _ => None,
        };
        Scope { stdio }
    }

    /// Begins to flush the streams.
    pub fn flush(&self) -> (r: Flush)
        ensures
            r == match self.stdio {
                Some(_) => Flush::Stdout,
                None => Flush::Finished(true),
            },
    {
        match &self.stdio {
            Some(_) => Flush::Stdout,
            None => Flush::Finished(true),
        }
    }

    /// The stream that is to be flushed next.
    pub fn to_flush(&self, flush: Flush) -> (r: Option<&S>)
        ensures
            match (self.stdio, flush) {
                (Some((stdout, stderr)), Flush::Stdout) => r matches Some(stream) && *stream
                    == stdout,
                (Some((stdout, stderr)), Flush::Stderr) => r matches Some(stream) && *stream
                    == stderr,
                _ => r is None,
            },
    {
        match (&self.stdio, flush) {
            (Some((stdout, _)), Flush::Stdout) => Some(stdout),
            (Some((_, stderr)), Flush::Stderr) => Some(stderr),
            _ => None,
        }
    }
}

/// The flushing of the streams: first the one, then, if it could be flushed, the other.
#[derive(Debug, Clone, Copy, PartialEq, Eq, Structural)]
pub enum Flush {
    /// The standard output is to be flushed.
    Stdout,
    /// The standard error is to be flushed.
    Stderr,
    /// Nothing is left to be flushed: all were, or one could not be.
    Finished(bool),
}

/// The flushing after a stream was flushed or could not be.
pub open spec fn after_flush(flush: Flush, flushed: bool) -> Flush {
    match flush {
        Flush::Stdout => if flushed {
            Flush::Stderr
        } else {
            Flush::Finished(false)
        },
        Flush::Stderr => Flush::Finished(flushed),
        Flush::Finished(all) => Flush::Finished(all),
    }
}

impl Flush {
    /// Takes whether the stream could be flushed.
    pub fn advance(self, flushed: bool) -> (r: Flush)
        ensures
            r == after_flush(self, flushed),
    {
        match self {
            Flush::Stdout => if flushed {
                Flush::Stderr
            } else {
                Flush::Finished(false)
            },
            Flush::Stderr => Flush::Finished(flushed),
            Flush::Finished(all) => Flush::Finished(all),
        }
    }
}

} // verus!
