//! The life of one request: it arrives, it is answered at once or its
//! command is run, and when the outcome is in it is answered. One function
//! takes the request from each phase to the next and says what is to be done;
//! the caller does it and reports what happened.
use vstd::prelude::*;
use serde_json::Value;
use crate::address::{join_address, joined};
use crate::dispatch::Outcome;
use crate::transport::{
    arguments, arguments_of, complete, json_reply, method_not_allowed, preflight,
    preflight_reply, refusal_reply, reply_to, route, route_of, Request, RequestView, Response,
    ResponseView, Route,
};

verus! {

/// What the caller is to do next for a request.
#[derive(Debug)]
pub enum Action {
    /// Send this response. It is the only one that the request gets.
    Respond(Response),
    /// Run the command of this raw name on these arguments, away from the
    /// thread that delivered the request, and report its outcome.
    Invoke { command: String, args: Value },
    /// Nothing: the event does not belong to the state that the request is in.
    Nothing,
}

/// An action as plain data.
pub enum ActionView {
    Respond(ResponseView),
    Invoke { command: Seq<char>, args: Value },
    Nothing,
}

impl View for Action {
    type V = ActionView;

    open spec fn view(&self) -> ActionView {
        match self {
            Action::Respond(response) => ActionView::Respond(response@),
            Action::Invoke { command, args } => ActionView::Invoke {
                command: command@,
                args: *args,
            },
            Action::Nothing => ActionView::Nothing,
        }
    }
}

/// What happens to a request.
#[derive(Debug)]
pub enum Event {
    /// The transport has delivered the request.
    Request(Request),
    /// The command that was invoked for the request has come to an end.
    Outcome(Outcome),
}

/// An event as plain data.
pub enum EventView {
    Request(RequestView),
    Outcome(Outcome),
}

impl View for Event {
    type V = EventView;

    open spec fn view(&self) -> EventView {
        match self {
            Event::Request(request) => EventView::Request(request@),
            Event::Outcome(outcome) => EventView::Outcome(*outcome),
        }
    }
}

/// How far a request has come.
#[derive(Debug, Clone, Copy, PartialEq, Eq)]
pub enum Phase {
    /// Nothing has been done for the request yet.
    Received,
    /// Its command is running; the response is still owed.
    Dispatched,
    /// The response has been handed out. Nothing more will be.
    Responded,
}

/// What a request asks for when it arrives: a response at once, for a
/// preflight and for a method that is not allowed, whatever the address; or,
/// for `POST`, the call of the command that the address names.
pub open spec fn opening(request: RequestView) -> (Phase, ActionView) {
    match route_of(request.method) {
        Route::Preflight => (Phase::Responded, ActionView::Respond(preflight_reply())),
        Route::Refused => (Phase::Responded, ActionView::Respond(refusal_reply())),
        Route::Command => (
            Phase::Dispatched,
            ActionView::Invoke {
                command: joined(request.host(), request.path),
                args: arguments_of(request.body),
            },
        ),
    }
}

/// One step of a request: the phase that it moves to, and what is to be
/// done. A request that has arrived is answered or dispatched; the outcome
/// of a dispatched command is answered; every other event changes nothing.
pub open spec fn step_of(phase: Phase, event: EventView) -> (Phase, ActionView) {
    match (phase, event) {
        (Phase::Received, EventView::Request(request)) => opening(request),
        (Phase::Dispatched, EventView::Outcome(outcome)) => (
            Phase::Responded,
            ActionView::Respond(reply_to(outcome)),
        ),
        _ => (phase, ActionView::Nothing),
    }
}

/// The number of responses handed out when the events arrive in this order.
pub open spec fn responses(phase: Phase, events: Seq<EventView>) -> nat
    decreases events.len(),
{
    if events.len() == 0 {
        0
    } else {
        let (next, action) = step_of(phase, events[0]);
        let rest = responses(next, events.drop_first());
        if action is Respond {
            1 + rest
        } else {
            rest
        }
    }
}

/// The phase reached when the events arrive in this order.
pub open spec fn phase_after(phase: Phase, events: Seq<EventView>) -> Phase
    decreases events.len(),
{
    if events.len() == 0 {
        phase
    } else {
        phase_after(step_of(phase, events[0]).0, events.drop_first())
    }
}

/// Decides what is to be done with a request that has just arrived.
pub fn accept(request: &Request) -> (next: (Phase, Action))
    ensures
        (next.0, next.1@) == opening(request@),
{
    match route(request.method.as_str()) {
        Route::Preflight => (Phase::Responded, Action::Respond(preflight())),
        Route::Refused => (Phase::Responded, Action::Respond(method_not_allowed())),
        Route::Command => {
            let command = match &request.authority {
                Some(host) => join_address(Some(host.as_str()), request.path.as_str()),
                None => join_address(None, request.path.as_str()),
            };
            let args = arguments(request.body.as_slice());
            (Phase::Dispatched, Action::Invoke { command, args })
        },
    }
}

/// Moves a request one step on.
pub fn step(phase: Phase, event: Event) -> (next: (Phase, Action))
    ensures
        (next.0, next.1@) == step_of(phase, event@),
{
    match phase {
        Phase::Received => match event {
            Event::Request(request) => accept(&request),
            Event::Outcome(_) => (phase, Action::Nothing),
        },
        Phase::Dispatched => match event {
            Event::Outcome(outcome) => (Phase::Responded, Action::Respond(complete(outcome))),
            Event::Request(_) => (phase, Action::Nothing),
        },
        Phase::Responded => (phase, Action::Nothing),
    }
}

/// A preflight is answered at once, whatever its address and its body: 204,
/// no body, and the headers that allow every origin, the methods `POST` and
/// `OPTIONS`, and the header `Content-Type`.
pub proof fn lemma_preflight_is_answered_at_once(request: RequestView)
    requires
        request.method == "OPTIONS"@,
    ensures
        step_of(Phase::Received, EventView::Request(request)) == (
            Phase::Responded,
            ActionView::Respond(preflight_reply()),
        ),
        preflight_reply().status == 204,
        preflight_reply().body.len() == 0,
        preflight_reply().headers.contains(("Access-Control-Allow-Origin"@, "*"@)),
        preflight_reply().headers.contains(("Access-Control-Allow-Methods"@, "POST, OPTIONS"@)),
        preflight_reply().headers.contains(("Access-Control-Allow-Headers"@, "Content-Type"@)),
{
    let headers = preflight_reply().headers;
    assert(headers[0] == ("Access-Control-Allow-Origin"@, "*"@));
    assert(headers[1] == ("Access-Control-Allow-Methods"@, "POST, OPTIONS"@));
    assert(headers[2] == ("Access-Control-Allow-Headers"@, "Content-Type"@));
}

/// A method that is neither `POST` nor `OPTIONS` is refused at once,
/// whatever its address and its body: 405, with the methods that are
/// allowed.
pub proof fn lemma_other_methods_are_refused(request: RequestView)
    requires
        request.method != "OPTIONS"@,
        request.method != "POST"@,
    ensures
        step_of(Phase::Received, EventView::Request(request)) == (
            Phase::Responded,
            ActionView::Respond(refusal_reply()),
        ),
        refusal_reply().status == 405,
        refusal_reply().headers.contains(("Allow"@, "POST, OPTIONS"@)),
{
    assert(refusal_reply().headers[0] == ("Allow"@, "POST, OPTIONS"@));
}

/// A command is answered with 200 whatever its outcome, a failure too, and
/// every response there is allows every origin.
pub proof fn lemma_every_response_allows_every_origin(phase: Phase, event: EventView)
    ensures
        step_of(phase, event).1 matches ActionView::Respond(response) ==> response.headers.contains(
            ("Access-Control-Allow-Origin"@, "*"@),
        ),
        phase == Phase::Dispatched && event is Outcome ==> (step_of(phase, event).1
            matches ActionView::Respond(response) && response.status == 200),
{
    let allow = ("Access-Control-Allow-Origin"@, "*"@);
    assert(preflight_reply().headers[0] == allow);
    assert(refusal_reply().headers[1] == allow);
    assert forall|body: Seq<u8>| #[trigger] json_reply(body).headers.contains(allow) by {
        assert(json_reply(body).headers[1] == allow);
    }
}

/// A request that has been answered stays answered: no event brings
/// another response.
pub proof fn lemma_responded_is_final(events: Seq<EventView>)
    ensures
        responses(Phase::Responded, events) == 0,
        phase_after(Phase::Responded, events) == Phase::Responded,
    decreases events.len(),
{
    if events.len() > 0 {
        lemma_responded_is_final(events.drop_first());
    }
}

/// Whatever arrives, in whatever order, a request gets at most one response,
/// and it has got exactly one when it has reached the last phase.
pub proof fn lemma_at_most_one_response(phase: Phase, events: Seq<EventView>)
    ensures
        responses(phase, events) <= 1,
        phase != Phase::Responded && phase_after(phase, events) == Phase::Responded
            ==> responses(phase, events) == 1,
        phase_after(phase, events) != Phase::Responded ==> responses(phase, events) == 0,
    decreases events.len(),
{
    if events.len() > 0 {
        let (next, action) = step_of(phase, events[0]);
        lemma_at_most_one_response(next, events.drop_first());
        lemma_responded_is_final(events.drop_first());
    }
}

/// Every request comes to its one response: at once, or when the outcome of
/// its command is in.
pub proof fn lemma_every_request_is_answered(request: RequestView, outcome: Outcome)
    ensures
        ({
            let events = seq![EventView::Request(request), EventView::Outcome(outcome)];
            &&& phase_after(Phase::Received, events) == Phase::Responded
            &&& responses(Phase::Received, events) == 1
        }),
{
    let events = seq![EventView::Request(request), EventView::Outcome(outcome)];
    let rest = events.drop_first();
    assert(rest.drop_first().len() == 0);
    reveal_with_fuel(phase_after, 3);
    lemma_at_most_one_response(Phase::Received, events);
}

/// Requests in flight together: the phase of each, and the responses that
/// each has got so far.
#[verifier::ext_equal]
pub struct InFlight {
    pub phases: Seq<Phase>,
    pub answers: Seq<Seq<ResponseView>>,
}

impl InFlight {
    /// True when every request has its list of responses.
    pub open spec fn well_formed(self) -> bool {
        self.phases.len() == self.answers.len()
    }

    /// The requests after an event has reached one of them. The others are
    /// as they were.
    pub open spec fn after(self, request: int, event: EventView) -> InFlight {
        if 0 <= request < self.phases.len() {
            let (next, action) = step_of(self.phases[request], event);
            InFlight {
                phases: self.phases.update(request, next),
                answers: match action {
                    ActionView::Respond(response) => self.answers.update(
                        request,
                        self.answers[request].push(response),
                    ),
                    _ => self.answers,
                },
            }
        } else {
            self
        }
    }
}

/// Events of different requests may come in either order: the requests end
/// in the same phases with the same responses.
pub proof fn lemma_events_of_different_requests_commute(
    requests: InFlight,
    one: int,
    first: EventView,
    other: int,
    second: EventView,
)
    requires
        requests.well_formed(),
        one != other,
    ensures
        requests.after(one, first).after(other, second) == requests.after(other, second).after(
            one,
            first,
        ),
{
    let left = requests.after(one, first).after(other, second);
    let right = requests.after(other, second).after(one, first);
    assert(left.phases =~= right.phases);
    assert(left.answers =~= right.answers);
}

/// Two commands that run at the same time do not touch each other: whichever
/// ends first, each request gets the response to its own outcome, once, and
/// nothing after.
pub proof fn lemma_completion_order_is_irrelevant(first: Outcome, second: Outcome)
    ensures
        ({
            let both = InFlight {
                phases: seq![Phase::Dispatched, Phase::Dispatched],
                answers: seq![Seq::empty(), Seq::empty()],
            };
            let done = InFlight {
                phases: seq![Phase::Responded, Phase::Responded],
                answers: seq![seq![reply_to(first)], seq![reply_to(second)]],
            };
            &&& both.after(0, EventView::Outcome(first)).after(1, EventView::Outcome(second))
                == done
            &&& both.after(1, EventView::Outcome(second)).after(0, EventView::Outcome(first))
                == done
            &&& forall|request: int, event: EventView| done.after(request, event) == done
        }),
{
    let both = InFlight {
        phases: seq![Phase::Dispatched, Phase::Dispatched],
        answers: seq![Seq::empty(), Seq::empty()],
    };
    let done = InFlight {
        phases: seq![Phase::Responded, Phase::Responded],
        answers: seq![seq![reply_to(first)], seq![reply_to(second)]],
    };
    let one_way = both.after(0, EventView::Outcome(first)).after(1, EventView::Outcome(second));
    assert(one_way.phases =~= done.phases);
    assert(one_way.answers =~= done.answers);
    lemma_events_of_different_requests_commute(
        both,
        0,
        EventView::Outcome(first),
        1,
        EventView::Outcome(second),
    );
    assert forall|request: int, event: EventView| done.after(request, event) == done by {
        let after = done.after(request, event);
        assert(after.phases =~= done.phases);
        assert(after.answers =~= done.answers);
    }
}

} // verus!
