use futures::executor::block_on;
use futures::future::{BoxFuture, FutureExt};
use serde_json::Value;
use wry_cmd::{
    accept, arguments, complete, envelope, handle_command, immediate, json_response,
    method_not_allowed, preflight, route, step, Action, Event, Outcome, Phase, Registry, Request,
    Response, Route,
};

type Handler = fn(Value) -> BoxFuture<'static, Outcome>;

fn json(text: &str) -> Value {
    serde_json::from_str(text).unwrap()
}

fn greet(args: Value) -> BoxFuture<'static, Outcome> {
    immediate(
        |args: Value| match args.get("name").and_then(Value::as_str) {
            Some(name) => {
                let mut reply = serde_json::Map::new();
                reply.insert("message".to_string(), Value::String(format!("Hello, {}!", name)));
                Ok(Value::Object(reply))
            }
            None => Err("missing field `name`".to_string()),
        },
        args,
    )
    .boxed()
}

fn echo(args: Value) -> BoxFuture<'static, Outcome> {
    immediate(Ok, args).boxed()
}

fn registry() -> Registry<Handler> {
    let mut registry: Registry<Handler> = Registry::new();
    registry.register("greet", greet);
    registry.register("echo", echo);
    registry
}

fn request(method: &str, authority: Option<&str>, path: &str, body: &[u8]) -> Request {
    Request {
        method: method.to_string(),
        authority: authority.map(str::to_string),
        path: path.to_string(),
        body: body.to_vec(),
    }
}

fn header(name: &str, value: &str) -> (String, String) {
    (name.to_string(), value.to_string())
}

/// Runs one request through the two steps, with the registry in between.
fn serve(registry: &Registry<Handler>, request: Request) -> Response {
    match step(Phase::Received, Event::Request(request)) {
        (Phase::Responded, Action::Respond(response)) => response,
        (Phase::Dispatched, Action::Invoke { command, args }) => {
            let outcome = block_on(handle_command(registry, &command, args));
            match step(Phase::Dispatched, Event::Outcome(outcome)) {
                (Phase::Responded, Action::Respond(response)) => response,
                other => panic!("no response after the outcome: {:?}", other),
            }
        }
        other => panic!("neither answered nor dispatched: {:?}", other),
    }
}

#[test]
fn options_is_answered_with_the_preflight_response() {
    let expected = Response {
        status: 204,
        headers: vec![
            header("Access-Control-Allow-Origin", "*"),
            header("Access-Control-Allow-Methods", "POST, OPTIONS"),
            header("Access-Control-Allow-Headers", "Content-Type"),
        ],
        body: Vec::new(),
    };
    assert_eq!(preflight(), expected);
    for (authority, path) in [(Some("greet"), ""), (None, "/any/where"), (Some("nope"), "/x")] {
        let response = serve(&registry(), request("OPTIONS", authority, path, b"{}"));
        assert_eq!(response, expected);
    }
}

#[test]
fn get_is_answered_with_method_not_allowed() {
    let expected = Response {
        status: 405,
        headers: vec![header("Allow", "POST, OPTIONS"), header("Access-Control-Allow-Origin", "*")],
        body: b"Method Not Allowed".to_vec(),
    };
    assert_eq!(method_not_allowed(), expected);
    for (authority, path) in [(Some("greet"), ""), (None, "/any/where"), (None, "")] {
        let response = serve(&registry(), request("GET", authority, path, b""));
        assert_eq!(response, expected);
    }
}

#[test]
fn every_method_but_post_and_options_is_refused() {
    for method in ["GET", "PUT", "DELETE", "HEAD", "PATCH", "post", "options", "Post", "", "POST "] {
        assert_eq!(route(method), Route::Refused);
        let response = serve(&registry(), request(method, Some("greet"), "", b"{}"));
        assert_eq!(response.status, 405);
    }
    assert_eq!(route("POST"), Route::Command);
    assert_eq!(route("OPTIONS"), Route::Preflight);
}

#[test]
fn post_of_a_registered_command_is_answered_with_its_result() {
    let response =
        serve(&registry(), request("POST", Some("greet"), "", br#"{"name":"Alice"}"#));
    assert_eq!(response.status, 200);
    assert_eq!(
        response.headers,
        vec![header("Content-Type", "application/json"), header("Access-Control-Allow-Origin", "*")]
    );
    assert_eq!(response.body, br#"{"message":"Hello, Alice!"}"#.to_vec());
}

#[test]
fn post_of_an_unknown_command_is_answered_with_an_error_envelope() {
    let response = serve(&registry(), request("POST", Some("nope"), "", b"{}"));
    assert_eq!(response.status, 200);
    assert_eq!(
        response.headers,
        vec![header("Content-Type", "application/json"), header("Access-Control-Allow-Origin", "*")]
    );
    assert_eq!(response.body, br#"{"error":"Unknown command: nope"}"#.to_vec());
}

#[test]
fn failure_of_a_handler_is_answered_with_an_error_envelope() {
    let response = serve(&registry(), request("POST", Some("greet"), "", br#"{"nam":"Alice"}"#));
    assert_eq!(response.status, 200);
    assert_eq!(response.body, br#"{"error":"missing field `name`"}"#.to_vec());
}

#[test]
fn command_is_named_by_authority_and_path() {
    let mut registry = registry();
    registry.register("mycommands/greet", greet);
    let body = br#"{"name":"Alice"}"#;
    let expected = br#"{"message":"Hello, Alice!"}"#.to_vec();
    for (authority, path) in [
        (Some("mycommands"), "/greet/"),
        (Some("mycommands"), "/greet"),
        (None, "/mycommands/greet"),
        (Some("mycommands%2Fgreet"), ""),
        (Some("greet"), "/"),
        (None, "//greet//"),
    ] {
        let response = serve(&registry, request("POST", authority, path, body));
        assert_eq!(response.body, expected);
    }
}

#[test]
fn body_that_is_not_json_is_read_as_null() {
    assert_eq!(arguments(b"not json"), Value::Null);
    assert_eq!(arguments(b""), Value::Null);
    assert_eq!(arguments(br#"{"name":"#), Value::Null);
    assert_eq!(arguments(b"null"), Value::Null);
    let response = serve(&registry(), request("POST", Some("echo"), "", b"not json"));
    assert_eq!(response.status, 200);
    assert_eq!(response.body, b"null".to_vec());
}

#[test]
fn body_that_is_json_is_parsed() {
    assert_eq!(arguments(br#"{"name":"Alice"}"#), json(r#"{"name":"Alice"}"#));
    assert_eq!(arguments(b" [1, 2] "), json("[1,2]"));
    assert_eq!(arguments(br#""text""#), Value::String("text".to_string()));
    let response = serve(&registry(), request("POST", Some("echo"), "", b" [1, \"a\" ] "));
    assert_eq!(response.body, br#"[1,"a"]"#.to_vec());
}

#[test]
fn accept_hands_out_the_raw_name_and_the_arguments() {
    let (phase, action) = accept(&request("POST", Some("svc"), "/%67reet/", br#"{"n":1}"#));
    assert_eq!(phase, Phase::Dispatched);
    match action {
        Action::Invoke { command, args } => {
            assert_eq!(command, "svc/%67reet/");
            assert_eq!(args, json(r#"{"n":1}"#));
        }
        other => panic!("not dispatched: {:?}", other),
    }
}

#[test]
fn envelope_wraps_errors_only() {
    let value = json(r#"{"message":"Hello, Alice!"}"#);
    assert_eq!(envelope(Ok(value.clone())), value);
    assert_eq!(envelope(Ok(Value::Null)), Value::Null);
    assert_eq!(envelope(Ok(json(r#"{"error":1}"#))), json(r#"{"error":1}"#));
    assert_eq!(envelope(Err("boom".to_string())), json(r#"{"error":"boom"}"#));
    assert_eq!(envelope(Err(String::new())), json(r#"{"error":""}"#));
}

#[test]
fn error_message_is_written_as_a_json_string() {
    let response = complete(Err("say \"hi\"\n\\ \u{e9}".to_string()));
    assert_eq!(response.status, 200);
    assert_eq!(response.body, "{\"error\":\"say \\\"hi\\\"\\n\\\\ \u{e9}\"}".as_bytes().to_vec());
}

#[test]
fn json_response_carries_the_body_as_it_is() {
    let response = json_response(b"[1,2,3]".to_vec());
    assert_eq!(response.status, 200);
    assert_eq!(
        response.headers,
        vec![header("Content-Type", "application/json"), header("Access-Control-Allow-Origin", "*")]
    );
    assert_eq!(response.body, b"[1,2,3]".to_vec());
    assert_eq!(json_response(Vec::new()).body, Vec::<u8>::new());
}

#[test]
fn every_response_allows_every_origin() {
    let allow = header("Access-Control-Allow-Origin", "*");
    assert!(preflight().headers.contains(&allow));
    assert!(method_not_allowed().headers.contains(&allow));
    assert!(complete(Ok(Value::Null)).headers.contains(&allow));
    assert!(complete(Err("x".to_string())).headers.contains(&allow));
}

#[test]
fn answered_request_is_not_answered_again() {
    let (phase, action) = step(Phase::Responded, Event::Outcome(Ok(Value::Null)));
    assert_eq!(phase, Phase::Responded);
    assert!(matches!(action, Action::Nothing));
    let (phase, action) = step(Phase::Responded, Event::Request(request("POST", None, "/x", b"")));
    assert_eq!(phase, Phase::Responded);
    assert!(matches!(action, Action::Nothing));
}

#[test]
fn events_out_of_turn_change_nothing() {
    let (phase, action) = step(Phase::Received, Event::Outcome(Ok(Value::Null)));
    assert_eq!(phase, Phase::Received);
    assert!(matches!(action, Action::Nothing));
    let (phase, action) = step(Phase::Dispatched, Event::Request(request("GET", None, "", b"")));
    assert_eq!(phase, Phase::Dispatched);
    assert!(matches!(action, Action::Nothing));
}

#[test]
fn two_requests_in_flight_each_get_their_own_response() {
    let registry = registry();
    let first = step(Phase::Received, Event::Request(request("POST", Some("echo"), "", b"1")));
    let second = step(Phase::Received, Event::Request(request("POST", Some("echo"), "", b"2")));
    let (first_phase, first_outcome) = match first {
        (phase, Action::Invoke { command, args }) => {
            (phase, block_on(handle_command(&registry, &command, args)))
        }
        other => panic!("not dispatched: {:?}", other),
    };
    let (second_phase, second_outcome) = match second {
        (phase, Action::Invoke { command, args }) => {
            (phase, block_on(handle_command(&registry, &command, args)))
        }
        other => panic!("not dispatched: {:?}", other),
    };
    let (second_end, second_action) = step(second_phase, Event::Outcome(second_outcome));
    let (first_end, first_action) = step(first_phase, Event::Outcome(first_outcome));
    assert_eq!((first_end, second_end), (Phase::Responded, Phase::Responded));
    match (first_action, second_action) {
        (Action::Respond(one), Action::Respond(other)) => {
            assert_eq!(one.body, b"1".to_vec());
            assert_eq!(other.body, b"2".to_vec());
        }
        other => panic!("a response is missing: {:?}", other),
    }
}
