//! From a command name and its arguments to the handler's deferred result.
//!
//! Handlers come in two shapes: one computes its result before it returns,
//! the other hands back a future that completes later. The dispatcher gives
//! both back as a future, and its contract speaks only of the value that the
//! future resolves to, so a caller cannot tell the two shapes apart.
use vstd::prelude::*;
use vstd::future::FutureAdditionalSpecFns;
use vstd::string::StringExecFns;
use std::future::Future;
use futures::future::{Either, Ready};
use serde_json::Value;
use crate::address::{normalize, normalized};
use crate::deferred::{left, mapped, ready, right};
use crate::registry::{
    first_named, lemma_first_named, lemma_same_names_same_place, Command, Registry,
};

verus! {

/// What a command comes to: a JSON value, or the message of its failure.
pub type Outcome = Result<Value, String>;

/// The message for a name under which nothing is registered.
pub open spec fn unknown_command(name: Seq<char>) -> Seq<char> {
    "Unknown command: "@ + name
}

/// True when the command that the name stands for, if there is one, may be
/// called with the arguments.
pub open spec fn accepts<R, H: Fn(Value) -> R>(
    commands: Seq<Command<H>>,
    name: Seq<char>,
    args: Value,
) -> bool {
    match first_named(commands, name) {
        Some(at) => call_requires(commands[at].handler, (args,)),
        None => true,
    }
}

/// True when every handler of the table may be called with every JSON value.
/// That is what a handler is meant to be: what it makes of its arguments is
/// its own affair, and it reports what it cannot use as an error.
pub open spec fn callable<R, H: Fn(Value) -> R>(commands: Seq<Command<H>>) -> bool {
    forall|at: int, args: Value|
        #![trigger call_requires(commands[at].handler, (args,))]
        0 <= at < commands.len() ==> call_requires(commands[at].handler, (args,))
}

/// A table whose handlers take every JSON value accepts every call.
pub proof fn lemma_callable_accepts_all<R, H: Fn(Value) -> R>(
    commands: Seq<Command<H>>,
    name: Seq<char>,
    args: Value,
)
    requires
        callable(commands),
    ensures
        accepts(commands, name, args),
{
    lemma_first_named(commands, name);
}

/// Runs a handler that computes its result at once, and hands the result
/// back as a future that is complete from the start.
pub fn immediate<G: Fn(Value) -> Outcome>(handler: G, args: Value) -> (done: Ready<Outcome>)
    requires
        call_requires(handler, (args,)),
    ensures
        call_ensures(handler, (args,), done@),
{
    ready(handler(args))
}

/// Runs an operation that takes and returns values of its own types, and
/// computes at once. `decoded` is what reading the JSON arguments gave: where
/// that failed, the operation does not run and the outcome is the failure as
/// it is; else the result of the operation is handed to `encode`, and what
/// that makes of it is the outcome.
pub fn typed<A, R, G, E>(decoded: Result<A, String>, run: G, encode: E) -> (done: Ready<Outcome>)
    where G: FnOnce(A) -> R, E: FnOnce(R) -> Outcome
    requires
        decoded matches Ok(arg) ==> call_requires(run, (arg,)) && forall|result: R|
            call_ensures(run, (arg,), result) ==> call_requires(encode, (result,)),
    ensures
        match decoded {
            Ok(arg) => exists|result: R|
                call_ensures(run, (arg,), result) && call_ensures(encode, (result,), done@),
            Err(message) => done@ == Err::<Value, String>(message),
        },
{
    match decoded {
        Ok(arg) => ready(encode(run(arg))),
        Err(message) => ready(Err(message)),
    }
}

/// Starts an operation that takes and returns values of its own types, and
/// hands back a future. `decoded` is what reading the JSON arguments gave:
/// where that failed, the operation does not start and the outcome is the
/// failure as it is; else what the operation resolves to is handed to
/// `encode`, and what that makes of it is the outcome.
pub fn typed_later<A, R, F, G, E>(decoded: Result<A, String>, run: G, encode: E) -> (pending:
    Either<futures::future::Map<F, E>, Ready<Outcome>>) where
    F: Future<Output = R>,
    G: FnOnce(A) -> F,
    E: FnOnce(R) -> Outcome,

    requires
        decoded matches Ok(arg) ==> call_requires(run, (arg,)) && forall|started: F|
            call_ensures(run, (arg,), started) ==> call_requires(encode, (started@,)),
    ensures
        match decoded {
            Ok(arg) => exists|started: F|
                call_ensures(run, (arg,), started) && call_ensures(
                    encode,
                    (started@,),
                    pending@,
                ),
            Err(message) => pending@ == Err::<Value, String>(message),
        },
{
    match decoded {
        Ok(arg) => {
            let started = run(arg);
            let ghost witness = started;
            let pending = left(mapped(started, encode));
            pending
        },
        Err(message) => right(ready(Err(message))),
    }
}

/// Starts the command registered under exactly this name.
///
/// The future resolves to what the handler's own future resolves to. Where
/// no command has the name, it resolves to the error `Unknown command: `
/// followed by the name; that is an ordinary outcome, not a failure of the
/// dispatcher. Nothing is retried and no time limit is set.
pub fn dispatch<F, H>(registry: &Registry<H>, name: &str, args: Value) -> (pending: Either<
    F,
    Ready<Outcome>,
>) where F: Future<Output = Outcome>, H: Fn(Value) -> F
    requires
        accepts(registry@, name@, args),
    ensures
        match first_named(registry@, name@) {
            Some(at) => exists|started: F|
                call_ensures(registry@[at].handler, (args,), started) && pending@ == started@,
            None => pending@ matches Err(message) && message@ == unknown_command(name@),
        },
{
    match registry.lookup(name) {
        Some(command) => left((command.handler)(args)),
        None => {
            let mut message = String::from_str("Unknown command: ");
            message.append(name);
            right(ready(Err(message)))
        },
    }
}

/// Dispatches a command by its raw name: the name is brought into canonical
/// form first, so `greet`, `/greet/` and `%67reet` all reach the command
/// `greet`.
pub fn handle_command<F, H>(registry: &Registry<H>, raw_cmd: &str, args: Value) -> (pending: Either<
    F,
    Ready<Outcome>,
>) where F: Future<Output = Outcome>, H: Fn(Value) -> F
    requires
        accepts(registry@, normalized(raw_cmd@), args),
    ensures
        match first_named(registry@, normalized(raw_cmd@)) {
            Some(at) => exists|started: F|
                call_ensures(registry@[at].handler, (args,), started) && pending@ == started@,
            None => pending@ matches Err(message) && message@ == unknown_command(
                normalized(raw_cmd@),
            ),
        },
{
    let name = normalize(raw_cmd);
    dispatch(registry, name.as_str(), args)
}

/// True when two outcomes are the same: the same value, or an error with
/// the same message.
pub open spec fn same_outcome(first: Outcome, second: Outcome) -> bool {
    match (first, second) {
        (Ok(one), Ok(other)) => one == other,
        (Err(one), Err(other)) => one@ == other@,
        _ => false,
    }
}

/// A caller cannot tell a handler that computes its result at once from one
/// that suspends first.
///
/// Take two tables with the same names in the same order, whose handlers
/// hand back futures of different types, say complete ones in the first and
/// suspending ones in the second, and let the handlers at each place come to
/// the same outcome. Then whatever a dispatch promises of the first table and
/// whatever it promises of the second are the same outcome, for every name,
/// registered or not.
pub proof fn lemma_shape_of_handler_is_invisible<A, B, G, H>(
    one: Seq<Command<G>>,
    other: Seq<Command<H>>,
    name: Seq<char>,
    args: Value,
    first: Outcome,
    second: Outcome,
) where
    A: Future<Output = Outcome>,
    B: Future<Output = Outcome>,
    G: Fn(Value) -> A,
    H: Fn(Value) -> B,

    requires
        one.len() == other.len(),
        forall|i: int| 0 <= i < one.len() ==> one[i].name@ == other[i].name@,
        forall|i: int, quick: A, slow: B|
            0 <= i < one.len() && call_ensures(one[i].handler, (args,), quick) && call_ensures(
                other[i].handler,
                (args,),
                slow,
            ) ==> same_outcome(quick@, slow@),
        match first_named(one, name) {
            Some(at) => exists|started: A|
                call_ensures(one[at].handler, (args,), started) && first == started@,
            None => first matches Err(message) && message@ == unknown_command(name),
        },
        match first_named(other, name) {
            Some(at) => exists|started: B|
                call_ensures(other[at].handler, (args,), started) && second == started@,
            None => second matches Err(message) && message@ == unknown_command(name),
        },
    ensures
        same_outcome(first, second),
{
    lemma_same_names_same_place(one, other, name);
    lemma_first_named(one, name);
}

} // verus!
