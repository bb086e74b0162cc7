//! What holds of every recorded exchange.

use crate::body::{body_contents, BodyView};
use crate::digest::{base64_standard, sha256_digest, HASH_LIMIT};
use crate::header::{
    checksum_names, is_checksum_name, is_header_value, law_other_value_is_not_read,
    law_visible_value_is_read,
};
use crate::pages::{
    answer, answers, law_storing_adds_one_response, law_stored_response_is_found, page_at, stored,
    ContentsView, PageView, RecordedView,
};
use crate::pattern::{applies, regex_is_match};
use crate::record::{
    accepts, extended, filed_url, initial, is_redirect, planned, rejected_text, transition,
    ActionView, AskedView, EventView, PlanView, RulesView, StateView, TrailView,
};
use crate::reply::{not_found, ReplyView};
use crate::text::has_suffix;
use crate::uri::{
    host_of, host_with_port, http_uri, processed, uri_text, with_port, UriView,
};
use vstd::prelude::*;
use vstd::utf8::*;

verus! {

/// What is remembered of an exchange, until it is done.
pub open spec fn trail_of(state: StateView) -> Option<TrailView> {
    match state {
        StateView::Waiting(trail) => Some(trail),
        StateView::Reading(trail, _) => Some(trail),
        StateView::Asking(trail, _, _) => Some(trail),
        StateView::Streaming(trail, _, _) => Some(trail),
        StateView::Done => None,
    }
}

/// What an action records.
pub open spec fn recorded_by(action: ActionView) -> Option<RecordedView> {
    match action {
        ActionView::Pass { recorded, .. } => recorded,
        ActionView::Finish { recorded } => recorded,
        _ => None,
    }
}

/// Where an exchange stands after some events.
pub open spec fn after(rules: RulesView, state: StateView, events: Seq<EventView>) -> StateView
    decreases events.len(),
{
    if events.len() == 0 {
        state
    } else {
        transition(rules, after(rules, state, events.drop_last()), events.last()).0
    }
}

/// Whether some events can come one after the other.
pub open spec fn can_come(rules: RulesView, state: StateView, events: Seq<EventView>) -> bool
    decreases events.len(),
{
    events.len() == 0 || {
        &&& can_come(rules, state, events.drop_last())
        &&& accepts(after(rules, state, events.drop_last()), events.last())
    }
}

/// A reply of the proxy's own is always 404, ends the exchange and records nothing.
pub proof fn law_refused_is_not_found(rules: RulesView, state: StateView, event: EventView)
    requires
        accepts(state, event),
        transition(rules, state, event).1 is Answer,
    ensures
        transition(rules, state, event).1->Answer_0.status == 404,
        transition(rules, state, event).0 is Done,
        recorded_by(transition(rules, state, event).1) is None,
{
}

/// What is recorded is recorded under the URLs of the trail.
pub proof fn law_recorded_under_the_trail(rules: RulesView, state: StateView, event: EventView)
    requires
        accepts(state, event),
        recorded_by(transition(rules, state, event).1) is Some,
    ensures
        trail_of(state) is Some,
        recorded_by(transition(rules, state, event).1)->0.urls == trail_of(state)->0.urls,
        transition(rules, state, event).0 is Done,
{
}

/// Forgetting is for good: an exchange that forgets goes on to forget, and no URL is added to it.
pub proof fn law_forgetting_is_final(rules: RulesView, state: StateView, event: EventView)
    requires
        accepts(state, event),
        trail_of(state) is Some,
        trail_of(state)->0.forget,
        trail_of(transition(rules, state, event).0) is Some,
    ensures
        trail_of(transition(rules, state, event).0) == trail_of(state),
{
}

/// A request to a URL that is to be rejected is answered with the reason, and goes no further.
pub proof fn law_rejected_goes_no_further(
    rules: RulesView,
    trail: TrailView,
    asked: AskedView,
    body: Seq<u8>,
)
    requires
        applies(rules.reject, filed_url(asked)),
    ensures
        transition(rules, StateView::Reading(trail, asked), EventView::Collected { body }) == (
            StateView::Done,
            ActionView::Answer(not_found(rejected_text(asked))),
        ),
{
}

/// The URLs under which a response is recorded when the exchange began with a request filed under
/// `url`: that URL alone, or none if it is to be forgotten.
pub open spec fn first_urls(rules: RulesView, url: Seq<char>) -> Seq<Seq<char>> {
    if applies(rules.forget, url) {
        Seq::empty()
    } else {
        seq![url]
    }
}

/// The course of an exchange that began with a request filed under `url`: once that request is
/// taken up the URLs are settled, and later requests are forgotten.
pub open spec fn on_course(rules: RulesView, state: StateView, url: Seq<char>) -> bool {
    match state {
        StateView::Waiting(trail) => trail.forget && trail.urls == first_urls(rules, url),
        StateView::Reading(trail, asked) => if trail.forget {
            trail.urls == first_urls(rules, url)
        } else {
            trail.urls.len() == 0 && filed_url(asked) == url
        },
        StateView::Asking(trail, _, _) => trail.urls == first_urls(rules, url),
        StateView::Streaming(trail, _, _) => trail.urls == first_urls(rules, url),
        StateView::Done => true,
    }
}

/// An exchange keeps its course.
proof fn lemma_course_is_kept(
    rules: RulesView,
    state: StateView,
    event: EventView,
    url: Seq<char>,
)
    requires
        accepts(state, event),
        on_course(rules, state, url),
    ensures
        on_course(rules, transition(rules, state, event).0, url),
{
    if let StateView::Reading(trail, asked) = state {
        if !trail.forget {
            assert(extended(trail, asked, applies(rules.forget, url)).urls =~= first_urls(
                rules,
                url,
            ));
        }
    }
}

/// An exchange keeps its course through all events.
proof fn lemma_course_after(
    rules: RulesView,
    state: StateView,
    events: Seq<EventView>,
    url: Seq<char>,
)
    requires
        on_course(rules, state, url),
        can_come(rules, state, events),
    ensures
        on_course(rules, after(rules, state, events), url),
    decreases events.len(),
{
    if events.len() > 0 {
        lemma_course_after(rules, state, events.drop_last(), url);
        lemma_course_is_kept(
            rules,
            after(rules, state, events.drop_last()),
            events.last(),
            url,
        );
    }
}

/// However many redirects are followed, a response is recorded under the URL of the request with
/// which the exchange began, and under no other; under none if that URL is to be forgotten.
pub proof fn law_recorded_under_first_url(
    rules: RulesView,
    asked: AskedView,
    shown: Seq<char>,
    events: Seq<EventView>,
    event: EventView,
)
    requires
        ({
            let begun = transition(rules, initial(), EventView::Arrived { asked, shown }).0;
            &&& can_come(rules, begun, events)
            &&& accepts(after(rules, begun, events), event)
        }),
    ensures
        ({
            let begun = transition(rules, initial(), EventView::Arrived { asked, shown }).0;
            let last = transition(rules, after(rules, begun, events), event).1;
            recorded_by(last) matches Some(recorded) ==> recorded.urls == first_urls(
                rules,
                filed_url(asked),
            )
        }),
{
    let begun = transition(rules, initial(), EventView::Arrived { asked, shown }).0;
    lemma_course_after(rules, begun, events, filed_url(asked));
}

/// A request to a URL that is to be forgotten leaves what was recorded as it was, whatever comes
/// of it.
pub proof fn law_forgotten_leaves_no_trace(
    rules: RulesView,
    asked: AskedView,
    shown: Seq<char>,
    events: Seq<EventView>,
    event: EventView,
    pages: Map<Seq<char>, PageView>,
)
    requires
        applies(rules.forget, filed_url(asked)),
        ({
            let begun = transition(rules, initial(), EventView::Arrived { asked, shown }).0;
            &&& can_come(rules, begun, events)
            &&& accepts(after(rules, begun, events), event)
        }),
    ensures
        ({
            let begun = transition(rules, initial(), EventView::Arrived { asked, shown }).0;
            recorded_by(transition(rules, after(rules, begun, events), event).1) matches Some(
                recorded,
            ) ==> stored(pages, recorded.urls, recorded.post_body, recorded.contents) == pages
        }),
{
    law_recorded_under_first_url(rules, asked, shown, events, event);
}

/// An exchange without the URLs that are remembered.
pub open spec fn without_trail(state: StateView) -> StateView {
    let none = TrailView { forget: false, urls: Seq::empty() };
    match state {
        StateView::Waiting(_) => StateView::Waiting(none),
        StateView::Reading(_, asked) => StateView::Reading(none, asked),
        StateView::Asking(_, asked, plan) => StateView::Asking(none, asked, plan),
        StateView::Streaming(_, plan, body) => StateView::Streaming(none, plan, body),
        StateView::Done => StateView::Done,
    }
}

/// What is recorded, without the URLs under which it is.
pub open spec fn without_urls(recorded: Option<RecordedView>) -> Option<RecordedView> {
    match recorded {
        Some(r) => Some(RecordedView { urls: Seq::empty(), ..r }),
        None => None,
    }
}

/// What is done, without the URLs under which anything is recorded.
pub open spec fn apart_from_urls(action: ActionView) -> ActionView {
    match action {
        ActionView::Pass { recorded, without } => ActionView::Pass {
            recorded: without_urls(recorded),
            without,
        },
        ActionView::Finish { recorded } => ActionView::Finish { recorded: without_urls(recorded) },
        _ => action,
    }
}

/// An event leads to the same, but for the URLs, whatever is forgotten.
proof fn lemma_step_apart_from_urls(
    rules: RulesView,
    forget: Option<Seq<char>>,
    state: StateView,
    other: StateView,
    event: EventView,
)
    requires
        accepts(state, event),
        without_trail(state) == without_trail(other),
    ensures
        accepts(other, event),
        ({
            let a = transition(rules, state, event);
            let b = transition(RulesView { forget, ..rules }, other, event);
            without_trail(a.0) == without_trail(b.0) && apart_from_urls(a.1) == apart_from_urls(b.1)
        }),
{
}

/// Events lead to the same, but for the URLs, whatever is forgotten.
proof fn lemma_after_apart_from_urls(
    rules: RulesView,
    forget: Option<Seq<char>>,
    state: StateView,
    events: Seq<EventView>,
)
    requires
        can_come(rules, state, events),
    ensures
        can_come(RulesView { forget, ..rules }, state, events),
        without_trail(after(rules, state, events)) == without_trail(
            after(RulesView { forget, ..rules }, state, events),
        ),
    decreases events.len(),
{
    if events.len() > 0 {
        let rest = events.drop_last();
        lemma_after_apart_from_urls(rules, forget, state, rest);
        lemma_step_apart_from_urls(
            rules,
            forget,
            after(rules, state, rest),
            after(RulesView { forget, ..rules }, state, rest),
            events.last(),
        );
    }
}

/// What is forgotten does not matter for what is done with a request: with another rule for it, the
/// same events can come and the same is done, but for the URLs under which anything is recorded.
pub proof fn law_forgetting_changes_no_action(
    rules: RulesView,
    forget: Option<Seq<char>>,
    state: StateView,
    events: Seq<EventView>,
    event: EventView,
)
    requires
        can_come(rules, state, events),
        accepts(after(rules, state, events), event),
    ensures
        ({
            let others = RulesView { forget, ..rules };
            &&& can_come(others, state, events)
            &&& accepts(after(others, state, events), event)
            &&& apart_from_urls(transition(others, after(others, state, events), event).1)
                == apart_from_urls(transition(rules, after(rules, state, events), event).1)
        }),
{
    let others = RulesView { forget, ..rules };
    lemma_after_apart_from_urls(rules, forget, state, events);
    lemma_step_apart_from_urls(
        rules,
        forget,
        after(rules, state, events),
        after(others, state, events),
        event,
    );
}

/// The events of a body that comes in some pieces.
pub open spec fn data_events(chunks: Seq<Seq<u8>>) -> Seq<EventView> {
    chunks.map_values(|bytes: Seq<u8>| EventView::Data { bytes })
}

/// The state after a body came in some pieces.
proof fn lemma_after_data(
    rules: RulesView,
    trail: TrailView,
    plan: PlanView,
    body: BodyView,
    chunks: Seq<Seq<u8>>,
)
    requires
        body.seen.len() + chunks.flatten().len() < HASH_LIMIT,
    ensures
        can_come(rules, StateView::Streaming(trail, plan, body), data_events(chunks)),
        after(rules, StateView::Streaming(trail, plan, body), data_events(chunks))
            == StateView::Streaming(
            trail,
            plan,
            BodyView { seen: body.seen + chunks.flatten(), ..body },
        ),
    decreases chunks.len(),
{
    let start = StateView::Streaming(trail, plan, body);
    if chunks.len() == 0 {
        assert(chunks.flatten() =~= Seq::<u8>::empty());
        assert(body.seen + chunks.flatten() =~= body.seen);
        assert(data_events(chunks).len() == 0);
    } else {
        let rest = chunks.drop_last();
        rest.lemma_flatten_push(chunks.last());
        assert(rest.push(chunks.last()) =~= chunks);
        assert(data_events(chunks).drop_last() =~= data_events(rest));
        lemma_after_data(rules, trail, plan, body, rest);
        assert(body.seen + chunks.flatten() =~= body.seen + rest.flatten() + chunks.last());
        assert(data_events(chunks).last() == EventView::Data { bytes: chunks.last() });
    }
}

/// A body that comes whole is recorded, by its text or its hash, under the URLs of the exchange.
pub proof fn law_whole_body_is_recorded(
    rules: RulesView,
    trail: TrailView,
    plan: PlanView,
    chunks: Seq<Seq<u8>>,
)
    requires
        chunks.flatten().len() < HASH_LIMIT,
    ensures
        ({
            let start = StateView::Streaming(
                trail,
                plan,
                BodyView { keep_text: plan.keep_text, seen: Seq::empty(), failed: false },
            );
            &&& can_come(rules, start, data_events(chunks))
            &&& recorded_by(
                transition(
                    rules,
                    after(rules, start, data_events(chunks)),
                    EventView::DataEnded,
                ).1,
            ) == Some(
                RecordedView {
                    urls: trail.urls,
                    post_body: plan.post_body,
                    contents: body_contents(plan.keep_text, chunks.flatten()),
                },
            )
        }),
{
    let body = BodyView { keep_text: plan.keep_text, seen: Seq::empty(), failed: false };
    lemma_after_data(rules, trail, plan, body, chunks);
    assert(body.seen + chunks.flatten() =~= chunks.flatten());
}

/// Some events and then some more lead where all of them lead.
proof fn lemma_after_append(
    rules: RulesView,
    state: StateView,
    a: Seq<EventView>,
    b: Seq<EventView>,
)
    requires
        can_come(rules, state, a),
        can_come(rules, after(rules, state, a), b),
    ensures
        can_come(rules, state, a + b),
        after(rules, state, a + b) == after(rules, after(rules, state, a), b),
    decreases b.len(),
{
    if b.len() == 0 {
        assert(a + b =~= a);
    } else {
        lemma_after_append(rules, state, a, b.drop_last());
        assert((a + b).drop_last() =~= a + b.drop_last());
    }
}

/// The events of an exchange up to the end of the body of the response: the request, its body, the
/// response, and the body of the response in some pieces.
pub open spec fn exchange(
    asked: AskedView,
    shown: Seq<char>,
    body: Seq<u8>,
    status: u16,
    location: Option<Seq<u8>>,
    headers: Seq<Seq<char>>,
    chunks: Seq<Seq<u8>>,
) -> Seq<EventView> {
    seq![
        EventView::Arrived { asked, shown },
        EventView::Collected { body },
        EventView::Answered { status, location, headers },
    ] + data_events(chunks)
}

/// What is recorded of a GET or POST request that succeeds: under the URL where it is filed, unless
/// that is to be forgotten, the text or the hash of the whole body of the response. For a POST
/// request, that is kept under the text of its body. Where nothing was recorded for such a
/// request, this is what is found for it from now on.
pub proof fn law_response_is_recorded(
    rules: RulesView,
    asked: AskedView,
    shown: Seq<char>,
    body: Seq<u8>,
    status: u16,
    location: Option<Seq<u8>>,
    headers: Seq<Seq<char>>,
    chunks: Seq<Seq<u8>>,
    pages: Map<Seq<char>, PageView>,
)
    requires
        asked.method == "GET"@ || asked.method == "POST"@,
        !applies(rules.reject, filed_url(asked)),
        200 <= status < 300,
        chunks.flatten().len() < HASH_LIMIT,
    ensures
        ({
            let events = exchange(asked, shown, body, status, location, headers, chunks);
            let url = filed_url(asked);
            let plan = planned(asked, body, applies(rules.record_text, url));
            let contents = body_contents(plan.keep_text, chunks.flatten());
            let urls = first_urls(rules, url);
            let page = page_at(stored(pages, urls, plan.post_body, contents), url);
            &&& can_come(rules, initial(), events.push(EventView::DataEnded))
            &&& recorded_by(
                transition(rules, after(rules, initial(), events), EventView::DataEnded).1,
            ) == Some(RecordedView { urls, post_body: plan.post_body, contents })
            &&& !applies(rules.forget, url) && !answers(page_at(pages, url), plan.post_body)
                ==> answers(page, plan.post_body) && answer(page, plan.post_body) == contents
        }),
{
    let url = filed_url(asked);
    let plan = planned(asked, body, applies(rules.record_text, url));
    let contents = body_contents(plan.keep_text, chunks.flatten());
    let urls = first_urls(rules, url);
    let arrival = EventView::Arrived { asked, shown };
    let collected = EventView::Collected { body };
    let answered = EventView::Answered { status, location, headers };
    let head = seq![arrival, collected, answered];
    reveal_strlit("GET");
    reveal_strlit("POST");
    reveal_strlit("HEAD");
    reveal_strlit("CONNECT");
    assert("GET"@.len() != "CONNECT"@.len() && "POST"@[0] != "HEAD"@[0]);
    assert(head.drop_last() =~= seq![arrival, collected]);
    assert(head.drop_last().drop_last() =~= seq![arrival]);
    assert(seq![arrival].drop_last() =~= Seq::empty());
    reveal_with_fuel(after, 4);
    reveal_with_fuel(can_come, 4);
    let trail = extended(
        TrailView { forget: false, urls: Seq::empty() },
        asked,
        applies(rules.forget, url),
    );
    assert(trail.urls =~= urls);
    let streaming = StateView::Streaming(
        trail,
        plan,
        BodyView { keep_text: plan.keep_text, seen: Seq::empty(), failed: false },
    );
    assert(after(rules, initial(), head) == streaming);
    assert(can_come(rules, initial(), head));
    law_whole_body_is_recorded(rules, trail, plan, chunks);
    let last = BodyView { keep_text: plan.keep_text, seen: Seq::empty(), failed: false };
    lemma_after_data(rules, trail, plan, last, chunks);
    lemma_after_append(rules, initial(), head, data_events(chunks));
    let events = exchange(asked, shown, body, status, location, headers, chunks);
    assert(events.push(EventView::DataEnded).drop_last() =~= events);
    if !applies(rules.forget, url) {
        assert(urls[0] == url);
        law_stored_response_is_found(pages, urls, plan.post_body, contents, url);
    }
}

/// How a body is cut into pieces on its way does not matter for what is recorded of it.
pub proof fn law_cuts_do_not_matter(
    rules: RulesView,
    trail: TrailView,
    plan: PlanView,
    body: BodyView,
    a: Seq<Seq<u8>>,
    b: Seq<Seq<u8>>,
)
    requires
        a.flatten() == b.flatten(),
        body.seen.len() + a.flatten().len() < HASH_LIMIT,
    ensures
        ({
            let start = StateView::Streaming(trail, plan, body);
            transition(rules, after(rules, start, data_events(a)), EventView::DataEnded)
                == transition(rules, after(rules, start, data_events(b)), EventView::DataEnded)
        }),
{
    lemma_after_data(rules, trail, plan, body, a);
    lemma_after_data(rules, trail, plan, body, b);
}

/// A body of which something was lost is not recorded, whatever still comes of it.
pub proof fn law_lost_body_is_not_recorded(
    rules: RulesView,
    trail: TrailView,
    plan: PlanView,
    body: BodyView,
    events: Seq<EventView>,
    event: EventView,
)
    requires
        ({
            let lost = transition(
                rules,
                StateView::Streaming(trail, plan, body),
                EventView::DataLost,
            ).0;
            &&& can_come(rules, lost, events)
            &&& accepts(after(rules, lost, events), event)
        }),
    ensures
        ({
            let lost = transition(
                rules,
                StateView::Streaming(trail, plan, body),
                EventView::DataLost,
            ).0;
            recorded_by(transition(rules, after(rules, lost, events), event).1) is None
        }),
{
    let lost = transition(rules, StateView::Streaming(trail, plan, body), EventView::DataLost).0;
    lemma_failed_after(rules, lost, events);
}

/// Whether an exchange can record nothing any more, as its body failed or it is done.
spec fn given_up(state: StateView) -> bool {
    match state {
        StateView::Streaming(_, _, body) => body.failed,
        StateView::Done => true,
        _ => false,
    }
}

/// A body that failed stays so.
proof fn lemma_failed_after(rules: RulesView, state: StateView, events: Seq<EventView>)
    requires
        given_up(state),
        can_come(rules, state, events),
    ensures
        given_up(after(rules, state, events)),
    decreases events.len(),
{
    if events.len() > 0 {
        lemma_failed_after(rules, state, events.drop_last());
    }
}

/// Of the response to a HEAD request nothing but a redirect is recorded, and the headers that are
/// taken out of it are those that tell a checksum.
pub proof fn law_head_records_redirects_only(
    rules: RulesView,
    trail: TrailView,
    asked: AskedView,
    plan: PlanView,
    status: u16,
    location: Option<Seq<u8>>,
    headers: Seq<Seq<char>>,
)
    requires
        asked.method == "HEAD"@,
        is_redirect(status) ==> location is Some,
    ensures
        ({
            let (next, action) = transition(
                rules,
                StateView::Asking(trail, asked, plan),
                EventView::Answered { status, location, headers },
            );
            &&& !(next is Streaming)
            &&& !is_redirect(status) ==> recorded_by(action) is None
            &&& action matches ActionView::Pass { without, .. } ==> forall|i: int|
                0 <= i < without.len() ==> is_checksum_name(#[trigger] without[i])
                    && headers.contains(without[i])
        }),
{
    let keep = |name: Seq<char>| is_checksum_name(name);
    assert forall|i: int| 0 <= i < checksum_names(headers).len() implies is_checksum_name(
        #[trigger] checksum_names(headers)[i],
    ) && headers.contains(checksum_names(headers)[i]) by {
        headers.lemma_filter_pred(keep, i);
        assert(headers.filter(keep).contains(checksum_names(headers)[i]));
        headers.lemma_filter_contains_rev(keep, checksum_names(headers)[i]);
    }
}

/// The events that can come: a request first, then what came of reading it, then what came of asking
/// upstream, then the body of the response. A redirect has to name its location, and a body has to
/// be shorter than 2^61 bytes.
pub proof fn law_events_that_can_come(
    trail: TrailView,
    asked: AskedView,
    plan: PlanView,
    body: BodyView,
    event: EventView,
)
    ensures
        accepts(initial(), event) <==> event is Arrived,
        accepts(StateView::Waiting(trail), event) <==> event is Arrived,
        accepts(StateView::Reading(trail, asked), event) <==> event is Undecodable || event
            is Uncollectable || event is Collected,
        accepts(StateView::Asking(trail, asked, plan), event) <==> event is Unanswered || event
            is Garbled || event is Answered && (300 <= event->status < 400 ==> event->location
            is Some),
        accepts(StateView::Streaming(trail, plan, body), event) <==> event is DataLost || event
            is Undelivered || event is DataEnded || event is Data && body.seen.len()
            + event->bytes.len() < 0x2000_0000_0000_0000,
        !accepts(StateView::Done, event),
{
}

/// CONNECT is let through, GET, POST and HEAD are read, and any other method is refused. An exchange
/// starts with nothing to record under and nothing forgotten.
pub proof fn law_methods_that_are_recorded(
    rules: RulesView,
    trail: TrailView,
    asked: AskedView,
    shown: Seq<char>,
)
    ensures
        initial() == StateView::Waiting(TrailView { forget: false, urls: Seq::empty() }),
        ({
            let step = transition(
                rules,
                StateView::Waiting(trail),
                EventView::Arrived { asked, shown },
            );
            &&& asked.method == "CONNECT"@ ==> step == (StateView::Done, ActionView::Forward)
            &&& asked.method == "GET"@ || asked.method == "POST"@ || asked.method == "HEAD"@
                ==> step == (StateView::Reading(trail, asked), ActionView::Read)
            &&& asked.method != "CONNECT"@ && asked.method != "GET"@ && asked.method != "POST"@
                && asked.method != "HEAD"@ ==> step == (
                StateView::Done,
                ActionView::Answer(
                    ReplyView {
                        status: 404,
                        body: asked.method + " request for "@ + uri_text(asked.uri)
                            + " is not supported.\nRequest: \n"@ + shown,
                    },
                ),
            )
        }),
{
    lemma_methods_differ();
}

/// The methods are different texts.
proof fn lemma_methods_differ()
    ensures
        "CONNECT"@ != "GET"@,
        "CONNECT"@ != "POST"@,
        "CONNECT"@ != "HEAD"@,
        "GET"@ != "POST"@,
        "GET"@ != "HEAD"@,
        "POST"@ != "HEAD"@,
{
    reveal_strlit("CONNECT");
    reveal_strlit("GET");
    reveal_strlit("POST");
    reveal_strlit("HEAD");
    assert("CONNECT"@.len() == 7 && "GET"@.len() == 3 && "POST"@.len() == 4 && "HEAD"@.len() == 4);
    assert("POST"@[0] == 'P' && "HEAD"@[0] == 'H');
}

/// What goes wrong before there is a response is answered with 404, with the URL that was asked for
/// and the error; nothing is recorded of it.
pub proof fn law_failures_are_told(
    rules: RulesView,
    trail: TrailView,
    asked: AskedView,
    plan: PlanView,
    shown: Seq<char>,
)
    ensures
        ({
            let url = uri_text(asked.uri);
            let filed = uri_text(processed(asked.uri));
            let reading = StateView::Reading(trail, asked);
            let asking = StateView::Asking(trail, asked, plan);
            &&& transition(rules, reading, EventView::Undecodable { shown }) == (
                StateView::Done,
                ActionView::Answer(
                    ReplyView {
                        status: 404,
                        body: "Unable to decode the "@ + asked.method + " request at URI "@ + url
                            + "\n"@ + shown,
                    },
                ),
            )
            &&& transition(rules, reading, EventView::Uncollectable { shown }) == (
                StateView::Done,
                ActionView::Answer(
                    ReplyView {
                        status: 404,
                        body: "Unable to collect the request body at "@ + url + " into bytes\n"@
                            + shown,
                    },
                ),
            )
            &&& transition(rules, asking, EventView::Unanswered { shown }) == (
                StateView::Done,
                ActionView::Answer(
                    ReplyView {
                        status: 404,
                        body: "Unable to get the content upstream at "@ + filed
                            + ".\nOriginal URL: '"@ + url + "'\nError: "@ + shown,
                    },
                ),
            )
            &&& transition(rules, asking, EventView::Garbled { shown }) == (
                StateView::Done,
                ActionView::Answer(
                    ReplyView {
                        status: 404,
                        body: "Unable to decode the upstream response at "@ + filed
                            + ".\nOriginal URL: "@ + url + "\nError: "@ + shown,
                    },
                ),
            )
        }),
{
}

/// Whether there is a rule and its pattern matches somewhere in a URL.
pub open spec fn matched(rule: Option<Seq<char>>, url: Seq<char>) -> bool {
    match rule {
        Some(pattern) => regex_is_match(pattern, url),
        None => false,
    }
}

/// A request goes upstream unless its URL is to be rejected. Its URL joins those under which the
/// response is recorded, unless this or an earlier one is to be forgotten. The body of a POST
/// request is remembered if it is text. The response is kept as text for POST requests and where
/// the rule for text matches. All rules are held against the URL without query and HTTPS port.
pub proof fn law_requests_are_taken_up(
    rules: RulesView,
    trail: TrailView,
    asked: AskedView,
    body: Seq<u8>,
)
    ensures
        ({
            let url = uri_text(processed(asked.uri));
            let post = asked.method == "POST"@;
            let (next, action) = transition(
                rules,
                StateView::Reading(trail, asked),
                EventView::Collected { body },
            );
            &&& matched(rules.reject, url) ==> next is Done && action == ActionView::Answer(
                ReplyView {
                    status: 404,
                    body: "Rejected '"@ + uri_text(asked.uri) + "' based upon regex"@,
                },
            )
            &&& !matched(rules.reject, url) ==> action is Ask && {
                &&& next matches StateView::Asking(t, a, p) && {
                    &&& a == asked
                    &&& t.forget == (trail.forget || matched(rules.forget, url))
                    &&& t.forget ==> t.urls == trail.urls
                    &&& !t.forget ==> t.urls == trail.urls.push(url)
                    &&& post && valid_utf8(body) ==> p.post_body == Some(decode_utf8(body))
                    &&& !post || !valid_utf8(body) ==> p.post_body is None
                    &&& p.keep_text == (post || matched(rules.record_text, url))
                }
            }
        }),
{
}

/// Whether a text and the bytes of a header value are the same visible ASCII characters and tabs.
pub open spec fn reads_as(bytes: Seq<u8>, text: Seq<char>) -> bool {
    &&& bytes.len() == text.len()
    &&& forall|i: int|
        0 <= i < text.len() ==> (#[trigger] text[i]) as int == bytes[i] as int && (' ' <= text[i]
            <= '~' || text[i] == '\t')
}

/// A redirect to a URI is followed if and only if the URL that it comes from or the URL that it
/// goes to is one whose redirects are forgotten; one rule does not wait for the other. From then on
/// everything is forgotten, and what comes in the end is recorded under the URLs so far. The
/// request is made anew for the target with its port named, and its host becomes the header.
pub proof fn law_redirects_are_followed_by_either_rule(
    rules: RulesView,
    trail: TrailView,
    asked: AskedView,
    plan: PlanView,
    status: u16,
    location: Seq<u8>,
    headers: Seq<Seq<char>>,
    text: Seq<char>,
    target: UriView,
)
    requires
        300 <= status < 400,
        reads_as(location, text),
        http_uri(text) == Some(target),
    ensures
        ({
            let (next, action) = transition(
                rules,
                StateView::Asking(trail, asked, plan),
                EventView::Answered { status, location: Some(location), headers },
            );
            let from = rules.forget_redirects_from;
            let to = rules.forget_redirects_to;
            &&& from is Some && regex_is_match(from->0, uri_text(processed(asked.uri))) ==> action
                is Follow
            &&& to is Some && regex_is_match(to->0, uri_text(processed(target))) ==> action is Follow
            &&& action is Follow ==> from is Some && regex_is_match(
                from->0,
                uri_text(processed(asked.uri)),
            ) || to is Some && regex_is_match(to->0, uri_text(processed(target)))
            &&& action is Follow ==> next == StateView::Waiting(
                TrailView { forget: true, urls: trail.urls },
            )
            &&& action matches ActionView::Follow { uri, host } ==> {
                &&& uri == with_port(target, host_with_port(target))
                &&& target.authority is None ==> host is None
                &&& target.authority matches Some(a) ==> host == if is_header_value(host_of(a)) {
                    Some(host_of(a))
                } else {
                    None
                }
            }
        }),
{
    law_visible_value_is_read(location, text);
}

/// A redirect that is not followed is passed on, and where it goes to is recorded under the URLs so
/// far: the URL without query and HTTPS port, or what was read if that is no URI. A location that
/// cannot be read is passed on with nothing recorded.
pub proof fn law_other_redirects_are_recorded(
    rules: RulesView,
    trail: TrailView,
    asked: AskedView,
    plan: PlanView,
    status: u16,
    location: Seq<u8>,
    headers: Seq<Seq<char>>,
    text: Seq<char>,
    i: int,
)
    requires
        300 <= status < 400,
    ensures
        ({
            let step = transition(
                rules,
                StateView::Asking(trail, asked, plan),
                EventView::Answered { status, location: Some(location), headers },
            );
            let target = http_uri(text);
            let pass = |to: Seq<char>|
                (
                    StateView::Done,
                    ActionView::Pass {
                        recorded: Some(
                            RecordedView {
                                urls: trail.urls,
                                post_body: plan.post_body,
                                contents: ContentsView::Redirect(to),
                            },
                        ),
                        without: Seq::empty(),
                    },
                );
            &&& reads_as(location, text) && target is Some && !matched(
                rules.forget_redirects_from,
                uri_text(processed(asked.uri)),
            ) && !matched(rules.forget_redirects_to, uri_text(processed(target->0))) ==> step
                == pass(uri_text(processed(target->0)))
            &&& reads_as(location, text) && target is None ==> step == pass(text)
            &&& 0 <= i < location.len() && (location[i] < 32 && location[i] != 9 || location[i]
                >= 127) ==> step == (
                StateView::Done,
                ActionView::Pass { recorded: None, without: Seq::empty() },
            )
        }),
{
    if reads_as(location, text) {
        law_visible_value_is_read(location, text);
    }
    if 0 <= i < location.len() && (location[i] < 32 && location[i] != 9 || location[i] >= 127) {
        law_other_value_is_not_read(location, i);
    }
}

/// Of a response that is neither a success nor a redirect nothing is recorded, and it is passed on
/// as it is.
pub proof fn law_failed_responses_are_passed_on(
    rules: RulesView,
    trail: TrailView,
    asked: AskedView,
    plan: PlanView,
    status: u16,
    location: Option<Seq<u8>>,
    headers: Seq<Seq<char>>,
)
    requires
        status < 200 || status >= 400,
    ensures
        transition(
            rules,
            StateView::Asking(trail, asked, plan),
            EventView::Answered { status, location, headers },
        ) == (StateView::Done, ActionView::Pass { recorded: None, without: Seq::empty() }),
{
}

/// The body of a success is watched from its beginning, with what was planned for it. Only HEAD has
/// no body: such a response is passed on with nothing recorded, and just the headers that tell a
/// checksum are taken out.
pub proof fn law_successes_are_watched(
    rules: RulesView,
    trail: TrailView,
    asked: AskedView,
    plan: PlanView,
    status: u16,
    location: Option<Seq<u8>>,
    headers: Seq<Seq<char>>,
    name: Seq<char>,
)
    requires
        200 <= status < 300,
    ensures
        ({
            let (next, action) = transition(
                rules,
                StateView::Asking(trail, asked, plan),
                EventView::Answered { status, location, headers },
            );
            &&& asked.method != "HEAD"@ ==> action is Stream && next == StateView::Streaming(
                trail,
                plan,
                BodyView { keep_text: plan.keep_text, seen: Seq::empty(), failed: false },
            )
            &&& asked.method == "HEAD"@ ==> next is Done && {
                &&& action matches ActionView::Pass { recorded, without } && {
                    &&& recorded is None
                    &&& without.contains(name) <==> headers.contains(name) && (has_suffix(
                        name,
                        "-md5"@,
                    ) || has_suffix(name, "-sha1"@) || has_suffix(name, "-sha256"@) || has_suffix(
                        name,
                        "-sha512"@,
                    ) || name == "x-checksum"@)
                }
            }
        }),
{
    let keep = |name: Seq<char>| is_checksum_name(name);
    let picked = headers.filter(keep);
    if picked.contains(name) {
        let i = choose|i: int| 0 <= i < picked.len() && picked[i] == name;
        headers.lemma_filter_pred(keep, i);
        headers.lemma_filter_contains_rev(keep, name);
    }
    if headers.contains(name) && is_checksum_name(name) {
        let i = choose|i: int| 0 <= i < headers.len() && headers[i] == name;
        headers.lemma_filter_contains(keep, i);
    }
}

/// The body of a response is passed on piece by piece, and all its bytes count. At its end, what is
/// recorded is its text, where that is to be kept and is UTF-8, else the SHA-256 hash of all of it,
/// under the URLs and the body that were remembered. Nothing is recorded of a body that failed or
/// could not be passed on.
pub proof fn law_bodies_are_recorded_at_their_end(
    rules: RulesView,
    trail: TrailView,
    plan: PlanView,
    body: BodyView,
    bytes: Seq<u8>,
)
    ensures
        ({
            let state = StateView::Streaming(trail, plan, body);
            let end = transition(rules, state, EventView::DataEnded);
            let kept = |contents: ContentsView|
                (
                    StateView::Done,
                    ActionView::Finish {
                        recorded: Some(
                            RecordedView { urls: trail.urls, post_body: plan.post_body, contents },
                        ),
                    },
                );
            let nothing = (StateView::Done, ActionView::Finish { recorded: None });
            &&& transition(rules, state, EventView::Data { bytes }) == (
                StateView::Streaming(trail, plan, BodyView { seen: body.seen + bytes, ..body }),
                ActionView::Deliver,
            )
            &&& transition(rules, state, EventView::DataLost) == (
                StateView::Streaming(trail, plan, BodyView { failed: true, ..body }),
                ActionView::Deliver,
            )
            &&& transition(rules, state, EventView::Undelivered) == nothing
            &&& body.failed ==> end == nothing
            &&& !body.failed && body.keep_text && valid_utf8(body.seen) ==> end == kept(
                ContentsView::Text(decode_utf8(body.seen)),
            )
            &&& !body.failed && !(body.keep_text && valid_utf8(body.seen)) ==> end == kept(
                ContentsView::Hash("sha256-"@ + base64_standard(sha256_digest(body.seen))),
            )
        }),
{
}

/// A GET request that succeeds ends up in the pages: under its URL without query and HTTPS port, the
/// text or the hash of the whole body is found if nothing was found there before, and no other page
/// changes. A POST request ends up under the text of its body, and leaves what is known of GET as it
/// was.
pub proof fn law_success_ends_up_in_the_pages(
    rules: RulesView,
    asked: AskedView,
    shown: Seq<char>,
    body: Seq<u8>,
    status: u16,
    location: Option<Seq<u8>>,
    headers: Seq<Seq<char>>,
    chunks: Seq<Seq<u8>>,
    pages: Map<Seq<char>, PageView>,
    other: Seq<char>,
)
    requires
        asked.method == "GET"@ || asked.method == "POST"@ && valid_utf8(body),
        !matched(rules.reject, uri_text(processed(asked.uri))),
        !matched(rules.forget, uri_text(processed(asked.uri))),
        200 <= status < 300,
        chunks.flatten().len() < 0x2000_0000_0000_0000,
    ensures
        ({
            let url = uri_text(processed(asked.uri));
            let whole = chunks.flatten();
            let events = seq![
                EventView::Arrived { asked, shown },
                EventView::Collected { body },
                EventView::Answered { status, location, headers },
            ] + data_events(chunks);
            let recorded = recorded_by(
                transition(rules, after(rules, initial(), events), EventView::DataEnded).1,
            );
            let contents = if (asked.method == "POST"@ || matched(rules.record_text, url))
                && valid_utf8(whole) {
                ContentsView::Text(decode_utf8(whole))
            } else {
                ContentsView::Hash("sha256-"@ + base64_standard(sha256_digest(whole)))
            };
            &&& can_come(rules, initial(), events.push(EventView::DataEnded))
            &&& recorded is Some
            &&& {
                let r = recorded->0;
                let now = stored(pages, r.urls, r.post_body, r.contents);
                let page = now[url];
                &&& now.contains_key(url)
                &&& asked.method == "GET"@ && !(pages.contains_key(url) && pages[url].contents
                    is Some) ==> page.contents == Some(contents)
                &&& asked.method == "POST"@ && !(pages.contains_key(url)
                    && pages[url].post_responses.contains_key(decode_utf8(body)))
                    ==> page.post_responses.contains_key(decode_utf8(body))
                    && page.post_responses[decode_utf8(body)] == contents
                &&& asked.method == "POST"@ && pages.contains_key(url) ==> page.contents
                    == pages[url].contents
                &&& asked.method == "GET"@ && pages.contains_key(url) ==> page.post_responses
                    == pages[url].post_responses
                &&& other != url ==> now.contains_key(other) == pages.contains_key(other)
                &&& other != url && pages.contains_key(other) ==> now[other] == pages[other]
            }
        }),
{
    let url = uri_text(processed(asked.uri));
    lemma_methods_differ();
    law_response_is_recorded(
        rules,
        asked,
        shown,
        body,
        status,
        location,
        headers,
        chunks,
        pages,
    );
    let plan = planned(asked, body, applies(rules.record_text, url));
    let contents = body_contents(plan.keep_text, chunks.flatten());
    let urls = first_urls(rules, url);
    assert(urls[0] == url);
    law_storing_adds_one_response(pages, urls, plan.post_body, contents, url);
    law_storing_adds_one_response(pages, urls, plan.post_body, contents, other);
}

/// A redirect that is followed is not seen in what is recorded: in the end the body that the last
/// request got is recorded, under the URL of the first request alone.
pub proof fn law_followed_redirect_leads_to_body(
    rules: RulesView,
    asked: AskedView,
    plan: PlanView,
    status: u16,
    location: Seq<u8>,
    headers: Seq<Seq<char>>,
    text: Seq<char>,
    target: UriView,
    later: AskedView,
    shown: Seq<char>,
    body: Seq<u8>,
    last: u16,
    chunks: Seq<Seq<u8>>,
)
    requires
        300 <= status < 400,
        reads_as(location, text),
        http_uri(text) == Some(target),
        matched(rules.forget_redirects_from, uri_text(processed(asked.uri))) || matched(
            rules.forget_redirects_to,
            uri_text(processed(target)),
        ),
        later.method == "GET"@,
        !matched(rules.reject, uri_text(processed(later.uri))),
        200 <= last < 300,
        chunks.flatten().len() < 0x2000_0000_0000_0000,
    ensures
        ({
            let url = uri_text(processed(asked.uri));
            let trail = TrailView { forget: false, urls: seq![url] };
            let followed = transition(
                rules,
                StateView::Asking(trail, asked, plan),
                EventView::Answered { status, location: Some(location), headers },
            ).0;
            let events = seq![
                EventView::Arrived { asked: later, shown },
                EventView::Collected { body },
                EventView::Answered { status: last, location: None, headers },
            ] + data_events(chunks);
            let whole = chunks.flatten();
            &&& can_come(rules, followed, events.push(EventView::DataEnded))
            &&& recorded_by(
                transition(rules, after(rules, followed, events), EventView::DataEnded).1,
            ) == Some(
                RecordedView {
                    urls: seq![url],
                    post_body: None,
                    contents: if matched(rules.record_text, uri_text(processed(later.uri)))
                        && valid_utf8(whole) {
                        ContentsView::Text(decode_utf8(whole))
                    } else {
                        ContentsView::Hash("sha256-"@ + base64_standard(sha256_digest(whole)))
                    },
                },
            )
        }),
{
    let url = uri_text(processed(asked.uri));
    let trail = TrailView { forget: false, urls: seq![url] };
    let held = TrailView { forget: true, urls: seq![url] };
    lemma_methods_differ();
    law_redirects_are_followed_by_either_rule(
        rules,
        trail,
        asked,
        plan,
        status,
        location,
        headers,
        text,
        target,
    );
    let arrival = EventView::Arrived { asked: later, shown };
    let collected = EventView::Collected { body };
    let answered = EventView::Answered { status: last, location: None, headers };
    let head = seq![arrival, collected, answered];
    let start = StateView::Waiting(held);
    assert(head.drop_last() =~= seq![arrival, collected]);
    assert(head.drop_last().drop_last() =~= seq![arrival]);
    assert(seq![arrival].drop_last() =~= Seq::empty());
    reveal_with_fuel(after, 4);
    reveal_with_fuel(can_come, 4);
    let next_plan = planned(later, body, applies(rules.record_text, filed_url(later)));
    let fresh = BodyView { keep_text: next_plan.keep_text, seen: Seq::empty(), failed: false };
    assert(after(rules, start, head) == StateView::Streaming(held, next_plan, fresh));
    assert(can_come(rules, start, head));
    law_whole_body_is_recorded(rules, held, next_plan, chunks);
    lemma_after_data(rules, held, next_plan, fresh, chunks);
    lemma_after_append(rules, start, head, data_events(chunks));
    let events = head + data_events(chunks);
    assert(events.push(EventView::DataEnded).drop_last() =~= events);
}

} // verus!
