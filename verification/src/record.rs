//! The recording proxy: what it does with a request, and what it keeps of the response.
//!
//! [`record`] decides step by step. Its caller performs each action, tells what came of it as an
//! event, and so on until the exchange is done.

use crate::body::{finished, BodyRecorder, BodyView};
use crate::digest::{read_utf8, HASH_LIMIT};
use crate::header::{
    checksum_headers, checksum_names, header_accepts, header_text, is_header_value, read_header,
};
use crate::pages::{Contents, ContentsView, Recorded, RecordedView};
use crate::pattern::{applies, optional_pattern, rule_applies, Pattern};
use crate::reply::{not_found, Reply, ReplyView};
use crate::text::{same_text, texts};
use crate::uri::{
    host_of, host_with_port, http_uri, optional_text, process_uri, processed, uri_text, with_port,
    Uri, UriView,
};
use vstd::prelude::*;
use vstd::string::*;
use vstd::utf8::*;

verus! {

/// The rules by which responses are recorded. Each is a pattern of URLs.
#[derive(Debug)]
pub struct Rules {
    /// Requests to these URLs are forgotten.
    pub forget: Option<Pattern>,
    /// Redirects to these URLs are followed and forgotten.
    pub forget_redirects_to: Option<Pattern>,
    /// Redirects from these URLs are followed and forgotten.
    pub forget_redirects_from: Option<Pattern>,
    /// Text from these URLs is kept.
    pub record_text: Option<Pattern>,
    /// Requests to these URLs are rejected.
    pub reject: Option<Pattern>,
}

/// The patterns of the rules.
pub struct RulesView {
    pub forget: Option<Seq<char>>,
    pub forget_redirects_to: Option<Seq<char>>,
    pub forget_redirects_from: Option<Seq<char>>,
    pub record_text: Option<Seq<char>>,
    pub reject: Option<Seq<char>>,
}

impl View for Rules {
    type V = RulesView;

    open spec fn view(&self) -> RulesView {
        RulesView {
            forget: optional_pattern(self.forget),
            forget_redirects_to: optional_pattern(self.forget_redirects_to),
            forget_redirects_from: optional_pattern(self.forget_redirects_from),
            record_text: optional_pattern(self.record_text),
            reject: optional_pattern(self.reject),
        }
    }
}

/// What is remembered of an exchange across redirects that are followed.
#[derive(Debug)]
pub struct Trail {
    /// Whether the URLs from here on are forgotten.
    pub forget: bool,
    /// The URLs under which the response is recorded.
    pub urls: Vec<String>,
}

/// What is remembered of an exchange, as characters.
#[verifier::ext_equal]
pub struct TrailView {
    pub forget: bool,
    pub urls: Seq<Seq<char>>,
}

impl View for Trail {
    type V = TrailView;

    open spec fn view(&self) -> TrailView {
        TrailView { forget: self.forget, urls: texts(self.urls@) }
    }
}

/// A request, as far as decisions depend on it.
#[derive(Debug)]
pub struct Asked {
    pub method: String,
    pub uri: Uri,
}

/// A request, as characters.
#[verifier::ext_equal]
pub struct AskedView {
    pub method: Seq<char>,
    pub uri: UriView,
}

impl View for Asked {
    type V = AskedView;

    open spec fn view(&self) -> AskedView {
        AskedView { method: self.method@, uri: self.uri@ }
    }
}

/// What is to be kept of the response to a request.
#[derive(Debug)]
pub struct Plan {
    /// The body of the request, for a POST request whose body is text.
    pub post_body: Option<String>,
    /// Whether the body of the response is kept as text.
    pub keep_text: bool,
}

/// What is to be kept of a response, as characters.
#[verifier::ext_equal]
pub struct PlanView {
    pub post_body: Option<Seq<char>>,
    pub keep_text: bool,
}

impl View for Plan {
    type V = PlanView;

    open spec fn view(&self) -> PlanView {
        PlanView { post_body: optional_text(self.post_body), keep_text: self.keep_text }
    }
}

/// Where an exchange stands.
#[derive(Debug)]
pub enum State {
    /// A request is to come.
    Waiting(Trail),
    /// The request is being decoded and its body collected.
    Reading(Trail, Asked),
    /// The request is on its way upstream.
    Asking(Trail, Asked, Plan),
    /// The body of the response is passing through.
    Streaming(Trail, Plan, BodyRecorder),
    /// Nothing is left to be decided.
    Done,
}

/// Where an exchange stands, as characters.
pub enum StateView {
    Waiting(TrailView),
    Reading(TrailView, AskedView),
    Asking(TrailView, AskedView, PlanView),
    Streaming(TrailView, PlanView, BodyView),
    Done,
}

impl View for State {
    type V = StateView;

    open spec fn view(&self) -> StateView {
        match self {
            State::Waiting(trail) => StateView::Waiting(trail@),
            State::Reading(trail, asked) => StateView::Reading(trail@, asked@),
            State::Asking(trail, asked, plan) => StateView::Asking(trail@, asked@, plan@),
            State::Streaming(trail, plan, body) => StateView::Streaming(trail@, plan@, body@),
            State::Done => StateView::Done,
        }
    }
}

/// Where an exchange starts.
pub open spec fn initial() -> StateView {
    StateView::Waiting(TrailView { forget: false, urls: Seq::empty() })
}

impl State {
    /// Where an exchange starts.
    pub fn new() -> (r: Self)
        ensures
            r@ == initial(),
    {
        let urls: Vec<String> = Vec::new();
        assert(texts(urls@) =~= Seq::empty());
        State::Waiting(Trail { forget: false, urls })
    }
}

/// What came of an action.
#[derive(Debug)]
pub enum Event {
    /// A request came, or the request that follows a redirect was made. `shown` is how the request
    /// is shown to people.
    Arrived { asked: Asked, shown: String },
    /// The request could not be decoded.
    Undecodable { shown: String },
    /// The body of the request could not be collected.
    Uncollectable { shown: String },
    /// The body of the request was collected.
    Collected { body: Vec<u8> },
    /// The request could not be answered upstream.
    Unanswered { shown: String },
    /// The response could not be decoded.
    Garbled { shown: String },
    /// A response came.
    Answered { status: u16, location: Option<Vec<u8>>, headers: Vec<String> },
    /// The next bytes of the body of the response came.
    Data { bytes: Vec<u8> },
    /// Reading the body of the response failed.
    DataLost,
    /// What came of the body could not be passed on.
    Undelivered,
    /// The body of the response ended.
    DataEnded,
}

/// What came of an action, as characters.
pub enum EventView {
    Arrived { asked: AskedView, shown: Seq<char> },
    Undecodable { shown: Seq<char> },
    Uncollectable { shown: Seq<char> },
    Collected { body: Seq<u8> },
    Unanswered { shown: Seq<char> },
    Garbled { shown: Seq<char> },
    Answered { status: u16, location: Option<Seq<u8>>, headers: Seq<Seq<char>> },
    Data { bytes: Seq<u8> },
    DataLost,
    Undelivered,
    DataEnded,
}

/// Bytes that may be missing.
pub open spec fn optional_bytes(o: Option<Vec<u8>>) -> Option<Seq<u8>> {
    match o {
        Some(bytes) => Some(bytes@),
        None => None,
    }
}

impl View for Event {
    type V = EventView;

    open spec fn view(&self) -> EventView {
        match self {
            Event::Arrived { asked, shown } => EventView::Arrived { asked: asked@, shown: shown@ },
            Event::Undecodable { shown } => EventView::Undecodable { shown: shown@ },
            Event::Uncollectable { shown } => EventView::Uncollectable { shown: shown@ },
            Event::Collected { body } => EventView::Collected { body: body@ },
            Event::Unanswered { shown } => EventView::Unanswered { shown: shown@ },
            Event::Garbled { shown } => EventView::Garbled { shown: shown@ },
            Event::Answered { status, location, headers } => EventView::Answered {
                status: *status,
                location: optional_bytes(*location),
                headers: texts(headers@),
            },
            Event::Data { bytes } => EventView::Data { bytes: bytes@ },
            Event::DataLost => EventView::DataLost,
            Event::Undelivered => EventView::Undelivered,
            Event::DataEnded => EventView::DataEnded,
        }
    }
}

/// What is to be done next.
#[derive(Debug)]
pub enum Action {
    /// Let the request through as it is.
    Forward,
    /// Decode the request and collect its body.
    Read,
    /// Answer with this reply.
    Answer(Reply),
    /// Send the request upstream and decode the response.
    Ask,
    /// Make the request anew, without a body, for this URI. Where there is a host, it becomes the
    /// `host` header.
    Follow { uri: Uri, host: Option<String> },
    /// Keep what is recorded, and pass the response on without the named headers.
    Pass { recorded: Option<Recorded>, without: Vec<String> },
    /// Pass the response on and tell how its body goes by.
    Stream,
    /// Pass on what came of the body.
    Deliver,
    /// Keep what is recorded.
    Finish { recorded: Option<Recorded> },
}

/// What is to be done next, as characters.
pub enum ActionView {
    Forward,
    Read,
    Answer(ReplyView),
    Ask,
    Follow { uri: UriView, host: Option<Seq<char>> },
    Pass { recorded: Option<RecordedView>, without: Seq<Seq<char>> },
    Stream,
    Deliver,
    Finish { recorded: Option<RecordedView> },
}

/// What is recorded, if anything.
pub open spec fn optional_recorded(o: Option<Recorded>) -> Option<RecordedView> {
    match o {
        Some(recorded) => Some(recorded@),
        None => None,
    }
}

impl View for Action {
    type V = ActionView;

    open spec fn view(&self) -> ActionView {
        match self {
            Action::Forward => ActionView::Forward,
            Action::Read => ActionView::Read,
            Action::Answer(reply) => ActionView::Answer(reply@),
            Action::Ask => ActionView::Ask,
            Action::Follow { uri, host } => ActionView::Follow {
                uri: uri@,
                host: optional_text(*host),
            },
            Action::Pass { recorded, without } => ActionView::Pass {
                recorded: optional_recorded(*recorded),
                without: texts(without@),
            },
            Action::Stream => ActionView::Stream,
            Action::Deliver => ActionView::Deliver,
            Action::Finish { recorded } => ActionView::Finish {
                recorded: optional_recorded(*recorded),
            },
        }
    }
}

/// The methods whose responses are recorded.
pub open spec fn is_recorded_method(method: Seq<char>) -> bool {
    method == "GET"@ || method == "POST"@ || method == "HEAD"@
}

/// The reply to a request with another method.
pub open spec fn unsupported_text(asked: AskedView, shown: Seq<char>) -> Seq<char> {
    asked.method + " request for "@ + uri_text(asked.uri) + " is not supported.\nRequest: \n"@ + shown
}

/// The reply to a request that cannot be decoded.
pub open spec fn undecodable_text(asked: AskedView, shown: Seq<char>) -> Seq<char> {
    "Unable to decode the "@ + asked.method + " request at URI "@ + uri_text(asked.uri) + "\n"@ + shown
}

/// The reply to a request whose body cannot be collected.
pub open spec fn uncollectable_text(asked: AskedView, shown: Seq<char>) -> Seq<char> {
    "Unable to collect the request body at "@ + uri_text(asked.uri) + " into bytes\n"@ + shown
}

/// The reply to a request that is rejected.
pub open spec fn rejected_text(asked: AskedView) -> Seq<char> {
    "Rejected '"@ + uri_text(asked.uri) + "' based upon regex"@
}

/// The reply to a request that cannot be answered upstream.
pub open spec fn unanswered_text(asked: AskedView, shown: Seq<char>) -> Seq<char> {
    "Unable to get the content upstream at "@ + uri_text(processed(asked.uri))
        + ".\nOriginal URL: '"@ + uri_text(asked.uri) + "'\nError: "@ + shown
}

/// The reply to a request whose response cannot be decoded.
pub open spec fn garbled_text(asked: AskedView, shown: Seq<char>) -> Seq<char> {
    "Unable to decode the upstream response at "@ + uri_text(processed(asked.uri))
        + ".\nOriginal URL: "@ + uri_text(asked.uri) + "\nError: "@ + shown
}

/// Ends the exchange with the reply that nothing was found, for this reason.
pub open spec fn refused(text: Seq<char>) -> (StateView, ActionView) {
    (StateView::Done, ActionView::Answer(not_found(text)))
}

/// Ends the exchange with the response from upstream as it is.
pub open spec fn passed(recorded: Option<RecordedView>, without: Seq<Seq<char>>) -> (
    StateView,
    ActionView,
) {
    (StateView::Done, ActionView::Pass { recorded, without })
}

/// What follows when a request comes.
pub open spec fn arrived(trail: TrailView, asked: AskedView, shown: Seq<char>) -> (
    StateView,
    ActionView,
) {
    if asked.method == "CONNECT"@ {
        (StateView::Done, ActionView::Forward)
    } else if is_recorded_method(asked.method) {
        (StateView::Reading(trail, asked), ActionView::Read)
    } else {
        refused(unsupported_text(asked, shown))
    }
}

/// Which rules apply to the URL of a request.
#[derive(Clone, Copy, Debug)]
pub struct Hits {
    pub forget: bool,
    pub reject: bool,
    pub record_text: bool,
}

/// The URL under which a request is filed.
pub open spec fn filed_url(asked: AskedView) -> Seq<char> {
    uri_text(processed(asked.uri))
}

/// A trail that goes on to the URL of a request: the URL is added unless it is forgotten.
pub open spec fn extended(trail: TrailView, asked: AskedView, forget: bool) -> TrailView {
    let forget = trail.forget || forget;
    TrailView {
        forget,
        urls: if forget {
            trail.urls
        } else {
            trail.urls.push(filed_url(asked))
        },
    }
}

/// What is to be kept of the response to a request.
pub open spec fn planned(asked: AskedView, body: Seq<u8>, record_text: bool) -> PlanView {
    PlanView {
        post_body: if asked.method == "POST"@ && valid_utf8(body) {
            Some(decode_utf8(body))
        } else {
            None
        },
        keep_text: asked.method == "POST"@ || record_text,
    }
}

/// What follows when the body of a request is there, given the rules that apply.
pub open spec fn taken_up(trail: TrailView, asked: AskedView, body: Seq<u8>, hits: Hits) -> (
    StateView,
    ActionView,
) {
    if hits.reject {
        refused(rejected_text(asked))
    } else {
        (
            StateView::Asking(
                extended(trail, asked, hits.forget),
                asked,
                planned(asked, body, hits.record_text),
            ),
            ActionView::Ask,
        )
    }
}

/// The `host` header for a URI, where its host can be one.
pub open spec fn host_header(v: UriView) -> Option<Seq<char>> {
    match v.authority {
        Some(a) => if is_header_value(host_of(a)) {
            Some(host_of(a))
        } else {
            None
        },
        None => None,
    }
}

/// What follows on a redirect, given the text of the location where it has one, the URI that this
/// text is where it is one, and whether a redirect to that URI is followed.
pub open spec fn redirected(
    trail: TrailView,
    plan: PlanView,
    location: Option<Seq<char>>,
    target: Option<UriView>,
    followed: bool,
) -> (StateView, ActionView) {
    match location {
        None => passed(None, Seq::empty()),
        Some(text) => if target is Some && followed {
            let t = target->0;
            (
                StateView::Waiting(TrailView { forget: true, ..trail }),
                ActionView::Follow { uri: with_port(t, host_with_port(t)), host: host_header(t) },
            )
        } else {
            let to = match target {
                Some(t) => uri_text(processed(t)),
                None => text,
            };
            passed(
                Some(
                    RecordedView {
                        urls: trail.urls,
                        post_body: plan.post_body,
                        contents: ContentsView::Redirect(to),
                    },
                ),
                Seq::empty(),
            )
        },
    }
}

/// What follows on a response that is no redirect.
pub open spec fn answered(
    trail: TrailView,
    asked: AskedView,
    plan: PlanView,
    status: u16,
    headers: Seq<Seq<char>>,
) -> (StateView, ActionView) {
    if !(200 <= status < 300) {
        passed(None, Seq::empty())
    } else if asked.method == "HEAD"@ {
        passed(None, checksum_names(headers))
    } else {
        (
            StateView::Streaming(
                trail,
                plan,
                BodyView { keep_text: plan.keep_text, seen: Seq::empty(), failed: false },
            ),
            ActionView::Stream,
        )
    }
}

/// Whether a status is that of a redirect.
pub open spec fn is_redirect(status: u16) -> bool {
    300 <= status < 400
}

/// The URI that a location is.
pub open spec fn target_of(location: Option<Seq<char>>) -> Option<UriView> {
    match location {
        Some(text) => http_uri(text),
        None => None,
    }
}

/// Whether a redirect to `target` is followed.
pub open spec fn is_followed(rules: RulesView, asked: AskedView, target: Option<UriView>) -> bool {
    &&& target is Some
    &&& applies(rules.forget_redirects_from, filed_url(asked)) || applies(
        rules.forget_redirects_to,
        uri_text(processed(target->0)),
    )
}

/// What is recorded at the end of a body.
pub open spec fn recorded_body(trail: TrailView, plan: PlanView, body: BodyView) -> Option<
    RecordedView,
> {
    match finished(body) {
        Some(contents) => Some(
            RecordedView { urls: trail.urls, post_body: plan.post_body, contents },
        ),
        None => None,
    }
}

/// The events that can come in a state. A redirect names its location, and a body ends before its
/// bits are too many to count.
pub open spec fn accepts(state: StateView, event: EventView) -> bool {
    match state {
        StateView::Waiting(_) => event is Arrived,
        StateView::Reading(_, _) => {
            ||| event is Undecodable
            ||| event is Uncollectable
            ||| event is Collected
        },
        StateView::Asking(_, _, _) => {
            ||| event is Unanswered
            ||| event is Garbled
            ||| event matches EventView::Answered { status, location, .. } && (is_redirect(status)
                ==> location is Some)
        },
        StateView::Streaming(_, _, body) => {
            ||| event matches EventView::Data { bytes } && body.seen.len() + bytes.len()
                < HASH_LIMIT
            ||| event is DataLost
            ||| event is Undelivered
            ||| event is DataEnded
        },
        StateView::Done => false,
    }
}

/// What follows on an event.
pub open spec fn transition(rules: RulesView, state: StateView, event: EventView) -> (
    StateView,
    ActionView,
)
    recommends
        accepts(state, event),
{
    match (state, event) {
        (StateView::Waiting(trail), EventView::Arrived { asked, shown }) => arrived(
            trail,
            asked,
            shown,
        ),
        (StateView::Reading(_, asked), EventView::Undecodable { shown }) => refused(
            undecodable_text(asked, shown),
        ),
        (StateView::Reading(_, asked), EventView::Uncollectable { shown }) => refused(
            uncollectable_text(asked, shown),
        ),
        (StateView::Reading(trail, asked), EventView::Collected { body }) => taken_up(
            trail,
            asked,
            body,
            Hits {
                forget: applies(rules.forget, filed_url(asked)),
                reject: applies(rules.reject, filed_url(asked)),
                record_text: applies(rules.record_text, filed_url(asked)),
            },
        ),
        (StateView::Asking(_, asked, _), EventView::Unanswered { shown }) => refused(
            unanswered_text(asked, shown),
        ),
        (StateView::Asking(_, asked, _), EventView::Garbled { shown }) => refused(
            garbled_text(asked, shown),
        ),
        (
            StateView::Asking(trail, asked, plan),
            EventView::Answered { status, location, headers },
        ) => if is_redirect(status) {
            let text = header_text(location->0);
            redirected(
                trail,
                plan,
                text,
                target_of(text),
                is_followed(rules, asked, target_of(text)),
            )
        } else {
            answered(trail, asked, plan, status, headers)
        },
        (StateView::Streaming(trail, plan, body), EventView::Data { bytes }) => (
            StateView::Streaming(trail, plan, BodyView { seen: body.seen + bytes, ..body }),
            ActionView::Deliver,
        ),
        (StateView::Streaming(trail, plan, body), EventView::DataLost) => (
            StateView::Streaming(trail, plan, BodyView { failed: true, ..body }),
            ActionView::Deliver,
        ),
        (StateView::Streaming(_, _, _), EventView::Undelivered) => (
            StateView::Done,
            ActionView::Finish { recorded: None },
        ),
        (StateView::Streaming(trail, plan, body), EventView::DataEnded) => (
            StateView::Done,
            ActionView::Finish { recorded: recorded_body(trail, plan, body) },
        ),
        _ => (StateView::Done, ActionView::Finish { recorded: None }),
    }
}

/// Ends the exchange with the reply that nothing was found, for this reason.
fn refuse(body: String) -> (r: (State, Action))
    ensures
        (r.0@, r.1@) == refused(body@),
{
    (State::Done, Action::Answer(Reply { status: 404, body }))
}

/// What to do when a request comes.
pub fn arrive(trail: Trail, asked: Asked, shown: &str) -> (r: (State, Action))
    ensures
        (r.0@, r.1@) == arrived(trail@, asked@, shown@),
{
    let method = asked.method.as_str();
    if same_text(method, "CONNECT") {
        (State::Done, Action::Forward)
    } else if same_text(method, "GET") || same_text(method, "POST") || same_text(method, "HEAD") {
        (State::Reading(trail, asked), Action::Read)
    } else {
        let mut text = asked.method.clone();
        text.append(" request for ");
        text.append(asked.uri.to_text().as_str());
        text.append(" is not supported.\nRequest: \n");
        text.append(shown);
        refuse(text)
    }
}

/// What to do when the body of a request is there, given the rules that apply.
pub fn take_up(trail: Trail, asked: Asked, body: &Vec<u8>, hits: Hits) -> (r: (State, Action))
    ensures
        (r.0@, r.1@) == taken_up(trail@, asked@, body@, hits),
{
    let post = same_text(asked.method.as_str(), "POST");
    let post_body = if post {
        read_utf8(body.as_slice())
    } else {
        None
    };
    let forget = trail.forget || hits.forget;
    let mut urls = trail.urls;
    if !forget {
        let ghost before = texts(urls@);
        let url = process_uri(&asked.uri).to_text();
        urls.push(url);
        assert(texts(urls@) =~= before.push(url@));
    }
    if hits.reject {
        let mut text = "Rejected '".to_owned();
        text.append(asked.uri.to_text().as_str());
        text.append("' based upon regex");
        return refuse(text);
    }
    let plan = Plan { post_body, keep_text: post || hits.record_text };
    (State::Asking(Trail { forget, urls }, asked, plan), Action::Ask)
}

/// What to do on a redirect, given the text of the location where it has one, the URI that this
/// text is where it is one, and whether a redirect to that URI is followed.
pub fn redirect(
    trail: Trail,
    plan: Plan,
    location: Option<String>,
    target: Option<Uri>,
    followed: bool,
) -> (r: (State, Action))
    ensures
        (r.0@, r.1@) == redirected(
            trail@,
            plan@,
            optional_text(location),
            optional_uri(target),
            followed,
        ),
{
    let text = match location {
        Some(text) => text,
        None => {
            let without: Vec<String> = Vec::new();
            assert(texts(without@) =~= Seq::empty());
            return (State::Done, Action::Pass { recorded: None, without });
        },
    };
    let to = match target {
        Some(target) => {
            if followed {
                let host = match target.host() {
                    Some(host) => if header_accepts(host.as_str()) {
                        Some(host)
                    } else {
                        None
                    },
                    None => None,
                };
                let uri = target.with_default_port();
                return (
                    State::Waiting(Trail { forget: true, urls: trail.urls }),
                    Action::Follow { uri, host },
                );
            }
            process_uri(&target).to_text()
        },
        None => text,
    };
    let recorded = Recorded {
        urls: trail.urls,
        post_body: plan.post_body,
        contents: Contents::Redirect(to),
    };
    let without: Vec<String> = Vec::new();
    assert(texts(without@) =~= Seq::empty());
    (State::Done, Action::Pass { recorded: Some(recorded), without })
}

/// The parts of a URI that may be missing.
pub open spec fn optional_uri(o: Option<Uri>) -> Option<UriView> {
    match o {
        Some(uri) => Some(uri@),
        None => None,
    }
}

/// What to do on a response that is no redirect.
pub fn answer(trail: Trail, asked: Asked, plan: Plan, status: u16, headers: &Vec<String>) -> (r: (
    State,
    Action,
))
    ensures
        (r.0@, r.1@) == answered(trail@, asked@, plan@, status, texts(headers@)),
{
    if status < 200 || status >= 300 {
        let without: Vec<String> = Vec::new();
        assert(texts(without@) =~= Seq::empty());
        (State::Done, Action::Pass { recorded: None, without })
    } else if same_text(asked.method.as_str(), "HEAD") {
        (State::Done, Action::Pass { recorded: None, without: checksum_headers(headers) })
    } else {
        let body = BodyRecorder::new(plan.keep_text);
        (State::Streaming(trail, plan, body), Action::Stream)
    }
}

/// Decides the next step of an exchange.
pub fn record(rules: &Rules, state: State, event: Event) -> (r: (State, Action))
    requires
        accepts(state@, event@),
    ensures
        (r.0@, r.1@) == transition(rules@, state@, event@),
{
    match (state, event) {
        (State::Waiting(trail), Event::Arrived { asked, shown }) => {
            arrive(trail, asked, shown.as_str())
        },
        (State::Reading(_, asked), Event::Undecodable { shown }) => {
            let mut text = "Unable to decode the ".to_owned();
            text.append(asked.method.as_str());
            text.append(" request at URI ");
            text.append(asked.uri.to_text().as_str());
            text.append("\n");
            text.append(shown.as_str());
            refuse(text)
        },
        (State::Reading(_, asked), Event::Uncollectable { shown }) => {
            let mut text = "Unable to collect the request body at ".to_owned();
            text.append(asked.uri.to_text().as_str());
            text.append(" into bytes\n");
            text.append(shown.as_str());
            refuse(text)
        },
        (State::Reading(trail, asked), Event::Collected { body }) => {
            let url = process_uri(&asked.uri).to_text();
            let hits = Hits {
                forget: rule_applies(&rules.forget, url.as_str()),
                reject: rule_applies(&rules.reject, url.as_str()),
                record_text: rule_applies(&rules.record_text, url.as_str()),
            };
            take_up(trail, asked, &body, hits)
        },
        (State::Asking(_, asked, _), Event::Unanswered { shown }) => {
            let mut text = "Unable to get the content upstream at ".to_owned();
            text.append(process_uri(&asked.uri).to_text().as_str());
            text.append(".\nOriginal URL: '");
            text.append(asked.uri.to_text().as_str());
            text.append("'\nError: ");
            text.append(shown.as_str());
            refuse(text)
        },
        (State::Asking(_, asked, _), Event::Garbled { shown }) => {
            let mut text = "Unable to decode the upstream response at ".to_owned();
            text.append(process_uri(&asked.uri).to_text().as_str());
            text.append(".\nOriginal URL: ");
            text.append(asked.uri.to_text().as_str());
            text.append("\nError: ");
            text.append(shown.as_str());
            refuse(text)
        },
        (State::Asking(trail, asked, plan), Event::Answered { status, location, headers }) => {
            if status < 300 || status >= 400 {
                return answer(trail, asked, plan, status, &headers);
            }
            let text = match location {
                Some(bytes) => read_header(bytes.as_slice()),
                None => None,
            };
            let target = match &text {
                Some(text) => Uri::parse(text.as_str()),
                None => None,
            };
            let followed = match &target {
                Some(target) => {
                    let from = process_uri(&asked.uri).to_text();
                    let to = process_uri(target).to_text();
                    rule_applies(&rules.forget_redirects_from, from.as_str()) || rule_applies(
                        &rules.forget_redirects_to,
                        to.as_str(),
                    )
                },
                None => false,
            };
            redirect(trail, plan, text, target, followed)
        },
        (State::Streaming(trail, plan, body), Event::Data { bytes }) => {
            (State::Streaming(trail, plan, body.data(&bytes)), Action::Deliver)
        },
        (State::Streaming(trail, plan, body), Event::DataLost) => {
            (State::Streaming(trail, plan, body.fail()), Action::Deliver)
        },
        (State::Streaming(trail, plan, body), Event::DataEnded) => {
            let recorded = match body.finish() {
                Some(contents) => Some(
                    Recorded { urls: trail.urls, post_body: plan.post_body, contents },
                ),
                None => None,
            };
            (State::Done, Action::Finish { recorded })
        },
        _ => (State::Done, Action::Finish { recorded: None }),
    }
}

/// The view of the rules shows each rule in its place.
pub proof fn law_view_of_rules(rules: Rules)
    ensures
        rules@.forget == optional_pattern(rules.forget),
        rules@.forget_redirects_to == optional_pattern(rules.forget_redirects_to),
        rules@.forget_redirects_from == optional_pattern(rules.forget_redirects_from),
        rules@.record_text == optional_pattern(rules.record_text),
        rules@.reject == optional_pattern(rules.reject),
{
}

/// The view of where an exchange stands shows all that is remembered of it.
pub proof fn law_view_of_state(trail: Trail, asked: Asked, plan: Plan, body: BodyRecorder)
    ensures
        trail@.forget == trail.forget,
        trail@.urls == texts(trail.urls@),
        asked@.method == asked.method@,
        asked@.uri == asked.uri@,
        plan@.post_body == optional_text(plan.post_body),
        plan@.keep_text == plan.keep_text,
        State::Waiting(trail)@ == StateView::Waiting(trail@),
        State::Reading(trail, asked)@ == StateView::Reading(trail@, asked@),
        State::Asking(trail, asked, plan)@ == StateView::Asking(trail@, asked@, plan@),
        State::Streaming(trail, plan, body)@ == StateView::Streaming(trail@, plan@, body@),
        State::Done@ == StateView::Done,
{
}

/// The view of an event shows all that came.
pub proof fn law_view_of_event(
    asked: Asked,
    shown: String,
    bytes: Vec<u8>,
    status: u16,
    location: Option<Vec<u8>>,
    headers: Vec<String>,
)
    ensures
        (Event::Arrived { asked, shown })@ == (EventView::Arrived { asked: asked@, shown: shown@ }),
        (Event::Undecodable { shown })@ == (EventView::Undecodable { shown: shown@ }),
        (Event::Uncollectable { shown })@ == (EventView::Uncollectable { shown: shown@ }),
        (Event::Collected { body: bytes })@ == (EventView::Collected { body: bytes@ }),
        (Event::Unanswered { shown })@ == (EventView::Unanswered { shown: shown@ }),
        (Event::Garbled { shown })@ == (EventView::Garbled { shown: shown@ }),
        (Event::Answered { status, location: None, headers })@ == (EventView::Answered {
            status,
            location: None,
            headers: texts(headers@),
        }),
        location matches Some(l) ==> (Event::Answered { status, location, headers })@ == (
        EventView::Answered { status, location: Some(l@), headers: texts(headers@) }),
        (Event::Data { bytes })@ == (EventView::Data { bytes: bytes@ }),
        Event::DataLost@ == EventView::DataLost,
        Event::Undelivered@ == EventView::Undelivered,
        Event::DataEnded@ == EventView::DataEnded,
{
}

/// The view of an action shows all that is to be done.
pub proof fn law_view_of_action(
    reply: Reply,
    uri: Uri,
    host: Option<String>,
    recorded: Recorded,
    without: Vec<String>,
)
    ensures
        Action::Forward@ == ActionView::Forward,
        Action::Read@ == ActionView::Read,
        Action::Answer(reply)@ == ActionView::Answer(reply@),
        Action::Ask@ == ActionView::Ask,
        (Action::Follow { uri, host })@ == (ActionView::Follow {
            uri: uri@,
            host: optional_text(host),
        }),
        (Action::Pass { recorded: None, without })@ == (ActionView::Pass {
            recorded: None,
            without: texts(without@),
        }),
        (Action::Pass { recorded: Some(recorded), without })@ == (ActionView::Pass {
            recorded: Some(recorded@),
            without: texts(without@),
        }),
        Action::Stream@ == ActionView::Stream,
        Action::Deliver@ == ActionView::Deliver,
        (Action::Finish { recorded: None })@ == (ActionView::Finish { recorded: None }),
        (Action::Finish { recorded: Some(recorded) })@ == (ActionView::Finish {
            recorded: Some(recorded@),
        }),
{
}

} // verus!
