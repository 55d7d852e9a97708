//! The arguments of a run, as an embedding program hands them over.

use serde_json::Value as JsonValue;
use vstd::prelude::*;

use crate::context::{invalid_argument, is_invalid, SdkError};
use crate::sandbox::Arg;
use crate::text::{concat2, text_eq};
use crate::value::Value;

verus! {

/// The JSON value of the `serde_json` crate.
#[verifier::external_type_specification]
#[verifier::external_body]
pub struct ExJsonValue(JsonValue);

/// The unsigned number that a JSON value is, if it is one.
pub uninterp spec fn json_number(value: JsonValue) -> Option<u64>;

/// `serde_json::Value::as_u64` gives the number of a value that is an integer which `u64` can
/// represent, and nothing for any other value.
#[verifier::external_body]
fn as_number(value: &JsonValue) -> (r: Option<u64>)
    ensures
        r == json_number(*value),
{
    value.as_u64()
}

/// An argument as it arrives: its kind, its name if it has one, and its payload.
pub type WireArgument = (String, Option<String>, JsonValue);

/// What the payload of an argument comes to.
#[derive(Debug)]
pub enum ReadPayload {
    /// A value, or why there is none.
    Json(Result<Value, String>),
    /// The number of a stream, if it is one.
    Stream(Option<u64>),
    /// A payload of an unknown kind.
    Other(String),
}

/// An argument whose payload was read.
#[derive(Debug)]
pub struct ReadArgument {
    pub name: Option<String>,
    pub payload: ReadPayload,
}

/// How an argument is read.
pub open spec fn is_read<F: Fn(&JsonValue) -> Result<Value, String>>(
    arg: WireArgument,
    encode: F,
    read: ReadArgument,
) -> bool {
    &&& read.name == arg.1
    &&& if arg.0@ == "json"@ {
        read.payload matches ReadPayload::Json(encoded) && call_ensures(
            encode,
            (&arg.2,),
            encoded,
        )
    } else if arg.0@ == "stream"@ {
        read.payload == ReadPayload::Stream(json_number(arg.2))
    } else {
        read.payload == ReadPayload::Other(arg.0)
    }
}

/// How several arguments are read.
pub open spec fn are_read<F: Fn(&JsonValue) -> Result<Value, String>>(
    args: Seq<WireArgument>,
    encode: F,
    read: Seq<ReadArgument>,
) -> bool {
    &&& read.len() == args.len()
    &&& forall|i: int| 0 <= i < args.len() ==> is_read(args[i], encode, #[trigger] read[i])
}

/// Reads the payloads of arguments. `encode` encodes a JSON value.
fn read_arguments<F: Fn(&JsonValue) -> Result<Value, String>>(
    args: Vec<WireArgument>,
    encode: &F,
) -> (r: Vec<ReadArgument>)
    requires
        forall|value: &JsonValue| call_requires(*encode, (value,)),
    ensures
        are_read(args@, *encode, r@),
{
    let mut read: Vec<ReadArgument> = Vec::new();
    for arg in it: args
        invariant
            it.seq() == args@,
            read@.len() == it.index(),
            forall|value: &JsonValue| call_requires(*encode, (value,)),
            forall|i: int|
                0 <= i < it.index() ==> is_read(args@[i], *encode, #[trigger] read@[i]),
    {
        let (kind, name, payload) = arg;
        if text_eq(kind.as_str(), "json") {
            let encoded = encode(&payload);
            read.push(ReadArgument { name, payload: ReadPayload::Json(encoded) });
        } else if text_eq(kind.as_str(), "stream") {
            let number = as_number(&payload);
            read.push(ReadArgument { name, payload: ReadPayload::Stream(number) });
        } else {
            read.push(ReadArgument { name, payload: ReadPayload::Other(kind) });
        }
    }
    read
}

/// An argument that is a value.
#[derive(Debug)]
pub struct JsonArgument {
    pub name: Option<String>,
    pub value: Value,
}

/// An argument that is a value, or one of the streams of the run.
#[derive(Debug)]
pub enum ParsedArgument {
    Json(Option<String>, Value),
    JsonStream(Option<String>, usize),
}

/// Why an argument is refused in a run without streams, if it is.
pub open spec fn run_refusal(read: ReadArgument) -> Option<Seq<char>> {
    match read.payload {
        ReadPayload::Json(Ok(_)) => None,
        ReadPayload::Json(Err(message)) => Some("invalid argument value: "@ + message@),
        ReadPayload::Stream(_) => Some("stream arguments must use runWithStream method"@),
        ReadPayload::Other(kind) => Some("unsupported argument kind: "@ + kind@),
    }
}

/// An argument of a run without streams.
pub open spec fn is_json_argument(read: ReadArgument, parsed: JsonArgument) -> bool {
    parsed.name == read.name && read.payload == ReadPayload::Json(Ok(parsed.value))
}

/// The first argument that is refused in a run without streams.
pub open spec fn first_run_refusal(read: Seq<ReadArgument>, i: int) -> bool {
    &&& 0 <= i < read.len()
    &&& run_refusal(read[i]) is Some
    &&& forall|k: int| 0 <= k < i ==> run_refusal(#[trigger] read[k]) is None
}

/// What the arguments of a run without streams come to.
pub open spec fn run_parsed(
    read: Seq<ReadArgument>,
    r: Result<Vec<JsonArgument>, SdkError>,
) -> bool {
    match r {
        Ok(parsed) => {
            &&& parsed@.len() == read.len()
            &&& forall|i: int|
                0 <= i < read.len() ==> is_json_argument(read[i], #[trigger] parsed@[i])
        },
        Err(_) => exists|i: int| #[trigger]
            first_run_refusal(read, i) && is_invalid(r, run_refusal(read[i])->0),
    }
}

/// Checks the arguments of a run without streams.
pub fn check_run_args(read: Vec<ReadArgument>) -> (r: Result<Vec<JsonArgument>, SdkError>)
    ensures
        run_parsed(read@, r),
{
    let mut parsed: Vec<JsonArgument> = Vec::new();
    for arg in it: read
        invariant
            it.seq() == read@,
            parsed@.len() == it.index(),
            forall|i: int|
                0 <= i < it.index() ==> is_json_argument(read@[i], #[trigger] parsed@[i]),
            forall|k: int| 0 <= k < it.index() ==> run_refusal(#[trigger] read@[k]) is None,
    {
        let ghost n = it.index() as int;
        let refused = match arg.payload {
            ReadPayload::Json(Ok(value)) => {
                parsed.push(JsonArgument { name: arg.name, value });
                None
            },
            ReadPayload::Json(Err(message)) => Some(
                concat2("invalid argument value: ", message.as_str()),
            ),
            ReadPayload::Stream(_) => Some(
                "stream arguments must use runWithStream method".to_owned(),
            ),
            ReadPayload::Other(kind) => Some(
                concat2("unsupported argument kind: ", kind.as_str()),
            ),
        };
        if let Some(message) = refused {
            proof {
                assert(first_run_refusal(read@, n));
            }
            return Err(SdkError::InvalidArgument(message));
        }
    }
    Ok(parsed)
}

/// Takes the arguments of a run without streams.
pub fn parse_run_args<F: Fn(&JsonValue) -> Result<Value, String>>(
    args: Vec<WireArgument>,
    encode: &F,
) -> (r: Result<Vec<JsonArgument>, SdkError>)
    requires
        forall|value: &JsonValue| call_requires(*encode, (value,)),
    ensures
        exists|read: Seq<ReadArgument>| #[trigger]
            are_read(args@, *encode, read) && run_parsed(read, r),
{
    let read = read_arguments(args, encode);
    check_run_args(read)
}

/// The arguments that a guest function is called with in a run without streams.
pub open spec fn is_json_arg<S>(parsed: JsonArgument, arg: Arg<S>) -> bool {
    match parsed.name {
        Some(name) => arg == Arg::<S>::Named(name, parsed.value),
        None => arg == Arg::<S>::Positional(parsed.value),
    }
}

/// The arguments that a guest function is called with in a run without streams.
pub fn run_args<S>(parsed: Vec<JsonArgument>) -> (r: Vec<Arg<S>>)
    ensures
        r@.len() == parsed@.len(),
        forall|i: int| 0 <= i < parsed@.len() ==> is_json_arg(parsed@[i], #[trigger] r@[i]),
{
    let mut args: Vec<Arg<S>> = Vec::new();
    for arg in it: parsed
        invariant
            it.seq() == parsed@,
            args@.len() == it.index(),
            forall|i: int| 0 <= i < it.index() ==> is_json_arg(parsed@[i], #[trigger] args@[i]),
    {
        match arg.name {
            Some(name) => args.push(Arg::Named(name, arg.value)),
            None => args.push(Arg::Positional(arg.value)),
        }
    }
    args
}

/// The stream that an argument refers to, if it refers to one that there may be.
pub open spec fn stream_index(read: ReadArgument) -> Option<int> {
    match read.payload {
        ReadPayload::Stream(Some(number)) => if number <= usize::MAX {
            Some(number as int)
        } else {
            None
        },
        _ => None,
    }
}

/// Whether one of the arguments before a position refers to a stream.
pub open spec fn refers_before(read: Seq<ReadArgument>, i: int, index: int) -> bool {
    exists|k: int| 0 <= k < i && #[trigger] stream_index(read[k]) == Some(index)
}

/// Why an argument is refused in a run with so many streams, if it is.
pub open spec fn stream_refusal(read: Seq<ReadArgument>, i: int, count: nat) -> Option<Seq<char>> {
    match read[i].payload {
        ReadPayload::Json(Ok(_)) => None,
        ReadPayload::Json(Err(message)) => Some("invalid argument value: "@ + message@),
        ReadPayload::Stream(_) => match stream_index(read[i]) {
            None => Some("stream argument index must be an integer"@),
            Some(index) => if index >= count {
                Some("stream argument index is out of bounds"@)
            } else if refers_before(read, i, index) {
                Some("stream argument is used more than once"@)
            } else {
                None
            },
        },
        ReadPayload::Other(kind) => Some("unsupported argument kind: "@ + kind@),
    }
}

/// An argument of a run with streams.
pub open spec fn is_parsed_argument(read: ReadArgument, parsed: ParsedArgument) -> bool {
    match parsed {
        ParsedArgument::Json(name, value) => name == read.name && read.payload
            == ReadPayload::Json(Ok(value)),
        ParsedArgument::JsonStream(name, index) => name == read.name && stream_index(read) == Some(
            index as int,
        ),
    }
}

/// The first argument that is refused in a run with streams.
pub open spec fn first_stream_refusal(read: Seq<ReadArgument>, count: nat, i: int) -> bool {
    &&& 0 <= i < read.len()
    &&& stream_refusal(read, i, count) is Some
    &&& forall|k: int| 0 <= k < i ==> (#[trigger] stream_refusal(read, k, count)) is None
}

/// Whether no argument is refused in a run with streams.
pub open spec fn no_stream_refusal(read: Seq<ReadArgument>, count: nat) -> bool {
    forall|k: int| 0 <= k < read.len() ==> (#[trigger] stream_refusal(read, k, count)) is None
}

/// Whether every stream is referred to.
pub open spec fn all_referred(read: Seq<ReadArgument>, count: nat) -> bool {
    forall|index: int|
        0 <= index < count ==> #[trigger] refers_before(read, read.len() as int, index)
}

/// What the arguments of a run with so many streams come to.
pub open spec fn streams_parsed(
    read: Seq<ReadArgument>,
    count: nat,
    r: Result<Vec<ParsedArgument>, SdkError>,
) -> bool {
    match r {
        Ok(parsed) => {
            &&& no_stream_refusal(read, count)
            &&& all_referred(read, count)
            &&& parsed@.len() == read.len()
            &&& forall|i: int|
                0 <= i < read.len() ==> is_parsed_argument(read[i], #[trigger] parsed@[i])
        },
        Err(_) => {
            ||| exists|i: int| #[trigger]
                first_stream_refusal(read, count, i) && is_invalid(
                    r,
                    stream_refusal(read, i, count)->0,
                )
            ||| no_stream_refusal(read, count) && !all_referred(read, count) && is_invalid(
                r,
                "unreferenced stream argument handle"@,
            )
        },
    }
}

/// Checks the arguments of a run with so many streams: each stream is referred to exactly once.
pub fn check_stream_args(read: Vec<ReadArgument>, stream_count: usize) -> (r: Result<
    Vec<ParsedArgument>,
    SdkError,
>)
    ensures
        streams_parsed(read@, stream_count as nat, r),
{
    let ghost count = stream_count as nat;
    let mut used: Vec<bool> = Vec::new();
    let mut filled: usize = 0;
    while filled < stream_count
        invariant
            filled <= stream_count,
            used@.len() == filled,
            forall|k: int| 0 <= k < filled ==> !#[trigger] used@[k],
        decreases stream_count - filled,
    {
        used.push(false);
        filled = filled + 1;
    }
    let mut parsed: Vec<ParsedArgument> = Vec::new();
    for arg in it: read
        invariant
            it.seq() == read@,
            count == stream_count,
            used@.len() == count,
            parsed@.len() == it.index(),
            forall|i: int|
                0 <= i < it.index() ==> is_parsed_argument(read@[i], #[trigger] parsed@[i]),
            forall|k: int|
                0 <= k < it.index() ==> (#[trigger] stream_refusal(read@, k, count)) is None,
            forall|index: int|
                0 <= index < count ==> #[trigger] used@[index] == refers_before(
                    read@,
                    it.index() as int,
                    index,
                ),
    {
        let ghost n = it.index() as int;
        let ghost before = used@;
        match arg.payload {
            ReadPayload::Json(Ok(value)) => {
                parsed.push(ParsedArgument::Json(arg.name, value));
                proof {
                    assert forall|index: int| 0 <= index < count implies #[trigger] used@[index]
                        == refers_before(read@, n + 1, index) by {
                        refers_step(read@, n, index);
                    }
                }
            },
            ReadPayload::Json(Err(message)) => {
                proof {
                    assert(first_stream_refusal(read@, count, n));
                }
                return Err(
                    SdkError::InvalidArgument(
                        concat2("invalid argument value: ", message.as_str()),
                    ),
                );
            },
            ReadPayload::Stream(number) => {
                let index: usize = match number {
                    Some(number) if number <= usize::MAX as u64 => number as usize,
                    _ => {
                        proof {
                            assert(first_stream_refusal(read@, count, n));
                        }
                        return Err(invalid_argument("stream argument index must be an integer"));
                    },
                };
                if index >= used.len() {
                    proof {
                        assert(first_stream_refusal(read@, count, n));
                    }
                    return Err(invalid_argument("stream argument index is out of bounds"));
                }
                if used[index] {
                    proof {
                        assert(first_stream_refusal(read@, count, n));
                    }
                    return Err(invalid_argument("stream argument is used more than once"));
                }
                used.set(index, true);
                parsed.push(ParsedArgument::JsonStream(arg.name, index));
                proof {
                    assert forall|i: int| 0 <= i < count implies #[trigger] used@[i]
                        == refers_before(read@, n + 1, i) by {
                        refers_step(read@, n, i);
                        assert(before[i] == refers_before(read@, n, i));
                    }
                }
            },
            ReadPayload::Other(kind) => {
                proof {
                    assert(first_stream_refusal(read@, count, n));
                }
                return Err(
                    SdkError::InvalidArgument(
                        concat2("unsupported argument kind: ", kind.as_str()),
                    ),
                );
            },
        }
    }
    let mut i: usize = 0;
    while i < used.len()
        invariant
            i <= used@.len(),
            count == stream_count,
            used@.len() == count,
            no_stream_refusal(read@, count),
            forall|index: int|
                0 <= index < count ==> #[trigger] used@[index] == refers_before(
                    read@,
                    read@.len() as int,
                    index,
                ),
            forall|k: int| 0 <= k < i ==> #[trigger] used@[k],
        decreases used@.len() - i,
    {
        if !used[i] {
            proof {
                assert(!refers_before(read@, read@.len() as int, i as int));
            }
            return Err(invalid_argument("unreferenced stream argument handle"));
        }
        i = i + 1;
    }
    proof {
        assert forall|index: int| 0 <= index < count implies #[trigger] refers_before(
            read@,
            read@.len() as int,
            index,
        ) by {
            assert(used@[index]);
        }
    }
    Ok(parsed)
}

/// One more argument may refer to one more stream.
proof fn refers_step(read: Seq<ReadArgument>, n: int, index: int)
    requires
        0 <= n < read.len(),
    ensures
        refers_before(read, n + 1, index) == (refers_before(read, n, index) || stream_index(
            read[n],
        ) == Some(index)),
{
    if refers_before(read, n, index) {
        let k = choose|k: int| 0 <= k < n && #[trigger] stream_index(read[k]) == Some(index);
        assert(0 <= k < n + 1 && stream_index(read[k]) == Some(index));
    }
    if stream_index(read[n]) == Some(index) {
        assert(0 <= n < n + 1 && stream_index(read[n]) == Some(index));
    }
}

/// Takes the arguments of a run with so many streams.
pub fn parse_stream_run_args<F: Fn(&JsonValue) -> Result<Value, String>>(
    args: Vec<WireArgument>,
    stream_count: usize,
    encode: &F,
) -> (r: Result<Vec<ParsedArgument>, SdkError>)
    requires
        forall|value: &JsonValue| call_requires(*encode, (value,)),
    ensures
        exists|read: Seq<ReadArgument>| #[trigger]
            are_read(args@, *encode, read) && streams_parsed(read, stream_count as nat, r),
{
    let read = read_arguments(args, encode);
    check_stream_args(read, stream_count)
}

/// Whether the receiver that a handle names can be taken: it is there, and no handle before names
/// it too.
pub open spec fn is_available<R>(pool: Seq<Option<R>>, handles: Seq<usize>, i: int) -> bool {
    &&& pool[handles[i] as int] is Some
    &&& forall|k: int| 0 <= k < i ==> #[trigger] handles[k] != handles[i]
}

/// The first handle whose receiver cannot be taken.
pub open spec fn first_unavailable<R>(pool: Seq<Option<R>>, handles: Seq<usize>, i: int) -> bool {
    &&& 0 <= i < handles.len()
    &&& !is_available(pool, handles, i)
    &&& forall|k: int| 0 <= k < i ==> #[trigger] is_available(pool, handles, k)
}

/// A pool from which the receivers of the first handles were taken.
pub open spec fn without_receivers<R>(
    pool: Seq<Option<R>>,
    handles: Seq<usize>,
    taken: int,
    after: Seq<Option<R>>,
) -> bool {
    &&& after.len() == pool.len()
    &&& forall|p: int|
        0 <= p < pool.len() ==> #[trigger] after[p] == if names_receiver(handles, taken, p) {
            None
        } else {
            pool[p]
        }
}

/// Whether one of the first handles names a receiver.
pub open spec fn names_receiver(handles: Seq<usize>, taken: int, p: int) -> bool {
    exists|k: int| 0 <= k < taken && #[trigger] handles[k] == p
}

/// Takes the receivers that handles name out of a pool: all of them, or none.
pub fn take_stream_receivers<R>(handles: &Vec<usize>, pool: &mut Vec<Option<R>>) -> (r: Result<
    Vec<Option<R>>,
    usize,
>)
    requires
        forall|i: int| 0 <= i < handles@.len() ==> #[trigger] handles@[i] < old(pool)@.len(),
    ensures
        match r {
            Ok(receivers) => {
                &&& forall|i: int|
                    0 <= i < handles@.len() ==> #[trigger] is_available(
                        old(pool)@,
                        handles@,
                        i,
                    )
                &&& receivers@.len() == handles@.len()
                &&& forall|i: int|
                    0 <= i < handles@.len() ==> #[trigger] receivers@[i]
                        == old(pool)@[handles@[i] as int]
                &&& without_receivers(
                    old(pool)@,
                    handles@,
                    handles@.len() as int,
                    final(pool)@,
                )
            },
            Err(i) => first_unavailable(old(pool)@, handles@, i as int) && final(pool)@ == old(
                pool,
            )@,
        },
{
    let ghost given = pool@;
    let mut receivers: Vec<Option<R>> = Vec::new();
    let mut i: usize = 0;
    while i < handles.len()
        invariant
            i <= handles@.len(),
            given == old(pool)@,
            forall|k: int| 0 <= k < handles@.len() ==> #[trigger] handles@[k] < given.len(),
            forall|k: int| 0 <= k < i ==> #[trigger] is_available(given, handles@, k),
            receivers@.len() == i,
            forall|k: int|
                0 <= k < i ==> #[trigger] receivers@[k] == given[handles@[k] as int],
            without_receivers(given, handles@, i as int, pool@),
        decreases handles@.len() - i,
    {
        let at: usize = handles[i];
        let ghost before = pool@;
        let mut slot: Option<R> = None;
        std::mem::swap(&mut slot, &mut pool[at]);
        if slot.is_none() {
            proof {
                if is_available(given, handles@, i as int) {
                    assert(before[at as int] is None);
                    assert(names_receiver(handles@, i as int, at as int));
                    assert(false);
                }
                assert(pool@ =~= before);
            }
            let mut k: usize = i;
            while k > 0
                invariant
                    k <= i < handles@.len(),
                    receivers@.len() == k,
                    forall|j: int|
                        0 <= j < handles@.len() ==> #[trigger] handles@[j] < given.len(),
                    forall|j: int| 0 <= j < i ==> #[trigger] is_available(given, handles@, j),
                    forall|j: int|
                        0 <= j < k ==> #[trigger] receivers@[j] == given[handles@[j] as int],
                    without_receivers(given, handles@, k as int, pool@),
                decreases k,
            {
                k = k - 1;
                let back: usize = handles[k];
                let ghost taken = pool@;
                let receiver = receivers.pop();
                if let Some(receiver) = receiver {
                    pool.set(back, receiver);
                }
                proof {
                    assert(pool@ =~= taken.update(back as int, given[back as int]));
                    assert forall|p: int| 0 <= p < given.len() implies #[trigger] pool@[p]
                        == if names_receiver(handles@, k as int, p) {
                        None
                    } else {
                        given[p]
                    } by {
                        names_step(handles@, k as int, p);
                        assert(is_available(given, handles@, k as int));
                        assert(taken[p] == if names_receiver(handles@, k + 1, p) {
                            None
                        } else {
                            given[p]
                        });
                    }
                }
            }
            proof {
                assert(pool@ =~= given);
            }
            return Err(i);
        }
        proof {
            assert(before[at as int] is Some);
            assert(!names_receiver(handles@, i as int, at as int));
            assert forall|k: int| 0 <= k < i implies #[trigger] handles@[k] != handles@[i as int] by {
                if handles@[k] == at {
                    assert(names_receiver(handles@, i as int, at as int));
                }
            }
            assert(is_available(given, handles@, i as int));
            assert forall|p: int| 0 <= p < given.len() implies #[trigger] pool@[p]
                == if names_receiver(handles@, i + 1, p) {
                None
            } else {
                given[p]
            } by {
                names_step(handles@, i as int, p);
                assert(before[p] == if names_receiver(handles@, i as int, p) {
                    None
                } else {
                    given[p]
                });
            }
        }
        receivers.push(slot);
        i = i + 1;
    }
    Ok(receivers)
}

/// One more handle may name one more receiver.
proof fn names_step(handles: Seq<usize>, n: int, p: int)
    requires
        0 <= n < handles.len(),
    ensures
        names_receiver(handles, n + 1, p) == (names_receiver(handles, n, p) || handles[n] == p),
{
    if names_receiver(handles, n, p) {
        let k = choose|k: int| 0 <= k < n && #[trigger] handles[k] == p;
        assert(0 <= k < n + 1 && handles[k] == p);
    }
    if handles[n] == p {
        assert(0 <= n < n + 1 && handles[n] == p);
    }
}

/// The stream that an argument refers to.
pub open spec fn parsed_index(parsed: ParsedArgument) -> Option<int> {
    match parsed {
        ParsedArgument::Json(_, _) => None,
        ParsedArgument::JsonStream(_, index) => Some(index as int),
    }
}

/// Whether an argument can be handed over: it is a value, or its stream is there and no argument
/// before it refers to it.
pub open spec fn is_ready<R>(
    parsed: Seq<ParsedArgument>,
    receivers: Seq<Option<R>>,
    i: int,
) -> bool {
    match parsed_index(parsed[i]) {
        None => true,
        Some(index) => receivers[index] is Some && forall|k: int|
            0 <= k < i ==> #[trigger] parsed_index(parsed[k]) != Some(index),
    }
}

/// An argument as a guest function is called with it.
pub open spec fn is_stream_arg<R>(
    parsed: ParsedArgument,
    receivers: Seq<Option<R>>,
    arg: Arg<R>,
) -> bool {
    match parsed {
        ParsedArgument::Json(Some(name), value) => arg == Arg::<R>::Named(name, value),
        ParsedArgument::Json(None, value) => arg == Arg::<R>::Positional(value),
        ParsedArgument::JsonStream(Some(name), index) => arg matches Arg::NamedStream(n, stream)
            && n == name && receivers[index as int] == Some(stream),
        ParsedArgument::JsonStream(None, index) => arg matches Arg::PositionalStream(stream)
            && receivers[index as int] == Some(stream),
    }
}

/// The arguments that a guest function is called with in a run with streams.
pub fn stream_args<R>(parsed: Vec<ParsedArgument>, receivers: Vec<Option<R>>) -> (r: Result<
    Vec<Arg<R>>,
    SdkError,
>)
    requires
        forall|i: int|
            0 <= i < parsed@.len() ==> (#[trigger] parsed_index(parsed@[i]) matches Some(index)
                ==> 0 <= index < receivers@.len()),
    ensures
        match r {
            Ok(args) => {
                &&& forall|i: int|
                    0 <= i < parsed@.len() ==> #[trigger] is_ready(parsed@, receivers@, i)
                &&& args@.len() == parsed@.len()
                &&& forall|i: int|
                    0 <= i < parsed@.len() ==> is_stream_arg(
                        parsed@[i],
                        receivers@,
                        #[trigger] args@[i],
                    )
            },
            Err(_) => is_invalid(r, "stream argument receiver was already consumed"@)
                && exists|i: int| 0 <= i < parsed@.len() && !#[trigger] is_ready(
                parsed@,
                receivers@,
                i,
            ),
        },
{
    let ghost given = receivers@;
    let mut left = receivers;
    let mut args: Vec<Arg<R>> = Vec::new();
    for arg in it: parsed
        invariant
            it.seq() == parsed@,
            forall|i: int|
                0 <= i < parsed@.len() ==> (#[trigger] parsed_index(parsed@[i]) matches Some(index)
                    ==> 0 <= index < given.len()),
            given == receivers@,
            left@.len() == given.len(),
            args@.len() == it.index(),
            forall|i: int| 0 <= i < it.index() ==> #[trigger] is_ready(parsed@, given, i),
            forall|i: int|
                0 <= i < it.index() ==> is_stream_arg(parsed@[i], given, #[trigger] args@[i]),
            forall|p: int|
                0 <= p < given.len() ==> #[trigger] left@[p] == if parsed_before(
                    parsed@,
                    it.index() as int,
                    p,
                ) {
                    None
                } else {
                    given[p]
                },
    {
        let ghost n = it.index() as int;
        let ghost before = left@;
        proof {
            assert(parsed_index(parsed@[n]) == parsed_index(arg));
        }
        match arg {
            ParsedArgument::Json(name, value) => {
                match name {
                    Some(name) => args.push(Arg::Named(name, value)),
                    None => args.push(Arg::Positional(value)),
                }
                proof {
                    assert(is_ready(parsed@, given, n));
                    assert forall|p: int| 0 <= p < given.len() implies #[trigger] left@[p]
                        == if parsed_before(parsed@, n + 1, p) {
                        None
                    } else {
                        given[p]
                    } by {
                        parsed_step(parsed@, n, p);
                    }
                }
            },
            ParsedArgument::JsonStream(name, index) => {
                let mut slot: Option<R> = None;
                std::mem::swap(&mut slot, &mut left[index]);
                match slot {
                    None => {
                        proof {
                            if is_ready(parsed@, given, n) {
                                assert(before[index as int] is None);
                                assert(parsed_before(parsed@, n, index as int));
                                assert(false);
                            }
                        }
                        return Err(
                            invalid_argument("stream argument receiver was already consumed"),
                        );
                    },
                    Some(receiver) => {
                        match name {
                            Some(name) => args.push(Arg::NamedStream(name, receiver)),
                            None => args.push(Arg::PositionalStream(receiver)),
                        }
                        proof {
                            assert(before[index as int] == Some(receiver));
                            assert(!parsed_before(parsed@, n, index as int));
                            assert(is_ready(parsed@, given, n)) by {
                                assert forall|k: int| 0 <= k < n implies #[trigger] parsed_index(
                                    parsed@[k],
                                ) != Some(index as int) by {
                                    if parsed_index(parsed@[k]) == Some(index as int) {
                                        assert(parsed_before(parsed@, n, index as int));
                                    }
                                }
                            }
                            assert forall|p: int| 0 <= p < given.len() implies #[trigger] left@[p]
                                == if parsed_before(parsed@, n + 1, p) {
                                None
                            } else {
                                given[p]
                            } by {
                                parsed_step(parsed@, n, p);
                                assert(before[p] == if parsed_before(parsed@, n, p) {
                                    None
                                } else {
                                    given[p]
                                });
                            }
                        }
                    },
                }
            },
        }
    }
    Ok(args)
}

/// Whether one of the first arguments refers to a stream.
pub open spec fn parsed_before(parsed: Seq<ParsedArgument>, n: int, p: int) -> bool {
    exists|k: int| 0 <= k < n && #[trigger] parsed_index(parsed[k]) == Some(p)
}

/// One more argument may refer to one more stream.
proof fn parsed_step(parsed: Seq<ParsedArgument>, n: int, p: int)
    requires
        0 <= n < parsed.len(),
    ensures
        parsed_before(parsed, n + 1, p) == (parsed_before(parsed, n, p) || parsed_index(parsed[n])
            == Some(p)),
{
    if parsed_before(parsed, n, p) {
        let k = choose|k: int| 0 <= k < n && #[trigger] parsed_index(parsed[k]) == Some(p);
        assert(0 <= k < n + 1 && parsed_index(parsed[k]) == Some(p));
    }
    if parsed_index(parsed[n]) == Some(p) {
        assert(0 <= n < n + 1 && parsed_index(parsed[n]) == Some(p));
    }
}

/// Arguments that were accepted hand over every stream exactly once: all of them can be handed
/// over, and each stream is referred to by one argument.
pub proof fn every_stream_is_handed_over_once<R>(
    read: Seq<ReadArgument>,
    count: nat,
    parsed: Vec<ParsedArgument>,
    receivers: Seq<Option<R>>,
)
    requires
        streams_parsed(read, count, Ok::<Vec<ParsedArgument>, SdkError>(parsed)),
        receivers.len() == count,
        forall|p: int| 0 <= p < count ==> (#[trigger] receivers[p]) is Some,
    ensures
        forall|i: int| 0 <= i < parsed@.len() ==> #[trigger] is_ready(parsed@, receivers, i),
        forall|p: int|
            0 <= p < count ==> #[trigger] parsed_before(parsed@, parsed@.len() as int, p),
{
    assert forall|i: int| 0 <= i < parsed@.len() implies #[trigger] is_ready(
        parsed@,
        receivers,
        i,
    ) by {
        assert(is_parsed_argument(read[i], parsed@[i]));
        assert(stream_refusal(read, i, count) is None);
        if let Some(index) = parsed_index(parsed@[i]) {
            assert forall|k: int| 0 <= k < i implies #[trigger] parsed_index(parsed@[k]) != Some(
                index,
            ) by {
                assert(is_parsed_argument(read[k], parsed@[k]));
                if parsed_index(parsed@[k]) == Some(index) {
                    assert(stream_index(read[k]) == Some(index));
                    assert(refers_before(read, i, index));
                }
            }
        }
    }
    assert forall|p: int| 0 <= p < count implies #[trigger] parsed_before(
        parsed@,
        parsed@.len() as int,
        p,
    ) by {
        assert(refers_before(read, read.len() as int, p));
        let k = choose|k: int| 0 <= k < read.len() && #[trigger] stream_index(read[k]) == Some(p);
        assert(is_parsed_argument(read[k], parsed@[k]));
        assert(parsed_index(parsed@[k]) == Some(p));
    }
}

} // verus!
