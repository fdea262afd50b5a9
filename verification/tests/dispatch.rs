use futures::executor::block_on;
use futures::future::{BoxFuture, FutureExt};
use futures::stream::{FuturesUnordered, StreamExt};
use serde_json::Value;
use std::future::Future;
use std::pin::Pin;
use std::task::{Context, Poll};
use std::cell::Cell;
use wry_cmd::{dispatch, handle_command, immediate, typed, typed_later, Outcome, Registry};

type Handler = fn(Value) -> BoxFuture<'static, Outcome>;

/// A future that is pending for a number of polls before it completes.
struct Later {
    polls_left: u32,
    outcome: Option<Outcome>,
}

impl Future for Later {
    type Output = Outcome;

    fn poll(mut self: Pin<&mut Self>, cx: &mut Context<'_>) -> Poll<Outcome> {
        if self.polls_left > 0 {
            self.polls_left -= 1;
            cx.waker().wake_by_ref();
            Poll::Pending
        } else {
            Poll::Ready(self.outcome.take().unwrap())
        }
    }
}

fn text(value: &str) -> Value {
    Value::String(value.to_string())
}

fn object(key: &str, value: Value) -> Value {
    let mut members = serde_json::Map::new();
    members.insert(key.to_string(), value);
    Value::Object(members)
}

fn greeting(args: Value) -> Outcome {
    match args.get("name").and_then(Value::as_str) {
        Some(name) => Ok(object("message", text(&format!("Hello, {}!", name)))),
        None => Err("missing field `name`".to_string()),
    }
}

fn greet_now(args: Value) -> BoxFuture<'static, Outcome> {
    immediate(greeting, args).boxed()
}

fn greet_later(args: Value) -> BoxFuture<'static, Outcome> {
    Later { polls_left: 3, outcome: Some(greeting(args)) }.boxed()
}

fn second_greet(_args: Value) -> BoxFuture<'static, Outcome> {
    immediate(|_| Ok(text("second")), Value::Null).boxed()
}

fn echo(args: Value) -> BoxFuture<'static, Outcome> {
    immediate(Ok, args).boxed()
}

fn fail(_args: Value) -> BoxFuture<'static, Outcome> {
    immediate(|_| Err("it broke".to_string()), Value::Null).boxed()
}

fn registry() -> Registry<Handler> {
    let mut registry: Registry<Handler> = Registry::new();
    registry.register("greet", greet_now);
    registry.register("greet_later", greet_later);
    registry.register("greet", second_greet);
    registry.register("echo", echo);
    registry.register("fail", fail);
    registry.register("mycommands/greet", greet_now);
    registry
}

fn alice() -> Value {
    object("name", text("Alice"))
}

fn hello_alice() -> Outcome {
    Ok(object("message", text("Hello, Alice!")))
}

#[test]
fn registered_command_runs_its_handler() {
    let registry = registry();
    assert_eq!(block_on(dispatch(&registry, "greet", alice())), hello_alice());
}

#[test]
fn handler_gets_the_arguments_as_they_are() {
    let registry = registry();
    let args = object("deep", object("list", Value::Array(vec![text("a"), Value::Null])));
    assert_eq!(block_on(dispatch(&registry, "echo", args.clone())), Ok(args));
}

#[test]
fn unknown_command_is_an_error_outcome() {
    let registry = registry();
    assert_eq!(
        block_on(dispatch(&registry, "nope", Value::Null)),
        Err("Unknown command: nope".to_string())
    );
    assert_eq!(
        block_on(dispatch(&registry, "", Value::Null)),
        Err("Unknown command: ".to_string())
    );
}

#[test]
fn dispatch_takes_the_name_as_it_is() {
    let registry = registry();
    assert_eq!(
        block_on(dispatch(&registry, "/greet/", alice())),
        Err("Unknown command: /greet/".to_string())
    );
    assert_eq!(
        block_on(dispatch(&registry, "Greet", alice())),
        Err("Unknown command: Greet".to_string())
    );
}

#[test]
fn failure_of_a_handler_passes_through_unchanged() {
    let registry = registry();
    assert_eq!(block_on(dispatch(&registry, "fail", Value::Null)), Err("it broke".to_string()));
    assert_eq!(
        block_on(dispatch(&registry, "greet", Value::Null)),
        Err("missing field `name`".to_string())
    );
}

#[test]
fn first_of_two_commands_with_one_name_is_dispatched() {
    let registry = registry();
    assert_eq!(block_on(dispatch(&registry, "greet", alice())), hello_alice());
}

#[test]
fn raw_names_are_normalized_before_lookup() {
    let registry = registry();
    for raw in ["greet", "/greet", "greet/", "//greet//", "%67reet", "/gr%65%65t/"] {
        assert_eq!(block_on(handle_command(&registry, raw, alice())), hello_alice());
    }
    for raw in ["mycommands/greet", "/mycommands/greet/", "mycommands%2Fgreet"] {
        assert_eq!(block_on(handle_command(&registry, raw, alice())), hello_alice());
    }
}

#[test]
fn unknown_raw_name_is_reported_in_canonical_form() {
    let registry = registry();
    assert_eq!(
        block_on(handle_command(&registry, "/no%70e/", Value::Null)),
        Err("Unknown command: nope".to_string())
    );
    assert_eq!(
        block_on(handle_command(&registry, "%2Fgreet", alice())),
        Err("Unknown command: /greet".to_string())
    );
}

#[test]
fn immediate_and_suspending_handlers_answer_alike() {
    let registry = registry();
    let now = block_on(dispatch(&registry, "greet", alice()));
    let later = block_on(dispatch(&registry, "greet_later", alice()));
    assert_eq!(now, hello_alice());
    assert_eq!(later, now);
    let failed_now = block_on(dispatch(&registry, "greet", Value::Null));
    let failed_later = block_on(dispatch(&registry, "greet_later", Value::Null));
    assert_eq!(failed_later, failed_now);
}

#[test]
fn immediate_runs_the_handler_on_the_arguments() {
    let done = immediate(greeting, alice());
    assert_eq!(block_on(done), hello_alice());
    let failed = immediate(greeting, text("no object"));
    assert_eq!(block_on(failed), Err("missing field `name`".to_string()));
}

#[test]
fn commands_in_flight_together_each_come_to_their_own_outcome() {
    let registry = registry();
    let slow = dispatch(&registry, "greet_later", alice());
    let quick = dispatch(&registry, "echo", text("quick"));
    let (first, second) = block_on(futures::future::join(slow, quick));
    assert_eq!(first, hello_alice());
    assert_eq!(second, Ok(text("quick")));
}

#[test]
fn completion_order_does_not_mix_outcomes() {
    let registry = registry();
    let mut in_flight = FuturesUnordered::new();
    in_flight.push(dispatch(&registry, "greet_later", alice()).map(|o| ("slow", o)).boxed());
    in_flight.push(dispatch(&registry, "echo", text("quick")).map(|o| ("quick", o)).boxed());
    in_flight.push(dispatch(&registry, "nope", Value::Null).map(|o| ("unknown", o)).boxed());
    let finished: Vec<(&str, Outcome)> = block_on(in_flight.collect());
    assert_eq!(finished.len(), 3);
    assert_eq!(finished[2].0, "slow");
    for (who, outcome) in finished {
        match who {
            "slow" => assert_eq!(outcome, hello_alice()),
            "quick" => assert_eq!(outcome, Ok(text("quick"))),
            _ => assert_eq!(outcome, Err("Unknown command: nope".to_string())),
        }
    }
}

fn decode_number(args: Value) -> Result<u64, String> {
    serde_json::from_value::<u64>(args).map_err(|e| e.to_string())
}

fn encode_number(number: u64) -> Outcome {
    serde_json::to_value(&number).map_err(|e| e.to_string())
}

#[test]
fn typed_operation_gets_decoded_arguments_and_its_result_is_encoded() {
    let done = typed(decode_number(Value::from(20)), |n| n + 1, encode_number);
    assert_eq!(block_on(done), Ok(Value::from(21)));
    let unit = typed(Ok(()), |()| 7, encode_number);
    assert_eq!(block_on(unit), Ok(Value::from(7)));
}

#[test]
fn typed_operation_does_not_run_on_arguments_that_do_not_decode() {
    let ran = Cell::new(false);
    let decoded = decode_number(text("twenty"));
    let message = decoded.clone().unwrap_err();
    assert!(message.contains("invalid type"));
    let done = typed(
        decoded,
        |n| {
            ran.set(true);
            n
        },
        encode_number,
    );
    assert_eq!(block_on(done), Err(message));
    assert!(!ran.get());
}

#[test]
fn failure_to_encode_is_the_outcome() {
    let done = typed(Ok(1u64), |n| n, |_| Err("cannot be written".to_string()));
    assert_eq!(block_on(done), Err("cannot be written".to_string()));
}

#[test]
fn typed_operation_that_suspends_is_encoded_when_it_completes() {
    let pending = typed_later(
        decode_number(Value::from(20)),
        |n| Later { polls_left: 2, outcome: Some(Ok(Value::from(n + 1))) },
        |result: Outcome| result.map(|value| Value::Array(vec![value])),
    );
    assert_eq!(block_on(pending), Ok(Value::Array(vec![Value::from(21)])));
}

#[test]
fn typed_operation_that_suspends_does_not_start_on_arguments_that_do_not_decode() {
    let started = Cell::new(false);
    let pending = typed_later(
        decode_number(Value::Null),
        |n| {
            started.set(true);
            Later { polls_left: 2, outcome: Some(Ok(Value::from(n))) }
        },
        |result: Outcome| result,
    );
    let outcome = block_on(pending);
    assert!(outcome.unwrap_err().contains("invalid type"));
    assert!(!started.get());
}
