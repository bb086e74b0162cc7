use mitm_cache::body::{settle, BodyRecorder};
use mitm_cache::pages::{Contents, Pages, Recorded};
use mitm_cache::pattern::Pattern;
use mitm_cache::record::{
    answer, arrive, record, redirect, take_up, Action, Asked, Event, Hits, Plan, Rules, State,
    Trail,
};
use mitm_cache::uri::Uri;

const EMPTY: &str = "sha256-47DEQpj8HBSa+/TImW+5JCeuQeRkm5NMpJWZG3hSuFU=";
const HELLO: &str = "sha256-LPJNul+wow4m6DsqxbninhsWHlwfp0JecwQzYpOLmCQ=";
const NOT_TEXT: &str = "sha256-s9UQ7wQnXKjmmOWzy7Ds45Se+SUvDNyDnp7jR0CaIgk=";

fn no_rules() -> Rules {
    Rules {
        forget: None,
        forget_redirects_to: None,
        forget_redirects_from: None,
        record_text: None,
        reject: None,
    }
}

fn pattern(text: &str) -> Option<Pattern> {
    Some(Pattern::new(text).unwrap())
}

fn asked(method: &str, uri: &str) -> Asked {
    Asked { method: method.to_owned(), uri: Uri::parse(uri).unwrap() }
}

fn arrived(method: &str, uri: &str) -> Event {
    Event::Arrived { asked: asked(method, uri), shown: "Request { .. }".to_owned() }
}

fn collected(body: &[u8]) -> Event {
    Event::Collected { body: body.to_vec() }
}

fn answered(status: u16, location: Option<&str>) -> Event {
    Event::Answered {
        status,
        location: location.map(|l| l.as_bytes().to_vec()),
        headers: vec!["content-md5".to_owned(), "content-type".to_owned()],
    }
}

fn data(bytes: &[u8]) -> Event {
    Event::Data { bytes: bytes.to_vec() }
}

fn run(rules: &Rules, state: State, events: Vec<Event>) -> (State, Action) {
    let mut step = (state, Action::Forward);
    for event in events {
        step = record(rules, step.0, event);
    }
    step
}

fn refusal(step: (State, Action)) -> String {
    assert!(matches!(step.0, State::Done));
    match step.1 {
        Action::Answer(reply) => {
            assert_eq!(reply.status, 404);
            reply.body
        }
        other => panic!("{:?}", other),
    }
}

fn kept(step: (State, Action)) -> Option<(Vec<String>, Option<String>, String, String)> {
    assert!(matches!(step.0, State::Done));
    let recorded: Option<Recorded> = match step.1 {
        Action::Finish { recorded } => recorded,
        Action::Pass { recorded, .. } => recorded,
        other => panic!("{:?}", other),
    };
    recorded.map(|r| {
        let (kind, text) = r.contents.tag();
        (r.urls, r.post_body, kind, text)
    })
}

fn one(
    url: &str,
    post_body: Option<&str>,
    kind: &str,
    text: &str,
) -> Option<(Vec<String>, Option<String>, String, String)> {
    Some((
        vec![url.to_owned()],
        post_body.map(|b| b.to_owned()),
        kind.to_owned(),
        text.to_owned(),
    ))
}

#[test]
fn connect_is_let_through() {
    let step = run(&no_rules(), State::new(), vec![arrived("CONNECT", "h:443")]);
    assert!(matches!(step, (State::Done, Action::Forward)));
}

#[test]
fn other_methods_are_not_recorded() {
    let step = run(&no_rules(), State::new(), vec![arrived("PUT", "https://h/a?b")]);
    assert_eq!(
        refusal(step),
        "PUT request for https://h/a?b is not supported.\nRequest: \nRequest { .. }"
    );
    let trail = Trail { forget: false, urls: Vec::new() };
    let step = arrive(trail, asked("get", "/"), "r");
    assert_eq!(refusal(step), "get request for / is not supported.\nRequest: \nr");
}

#[test]
fn get_is_recorded_by_its_hash() {
    let events = vec![
        arrived("GET", "https://h:443/a?b"),
        collected(b""),
        answered(200, None),
        data(b"hel"),
        data(b""),
        data(b"lo"),
        Event::DataEnded,
    ];
    assert_eq!(kept(run(&no_rules(), State::new(), events)), one("https://h/a", None, "hash", HELLO));
}

#[test]
fn steps_ask_for_what_they_need() {
    let rules = no_rules();
    let (state, action) = record(&rules, State::new(), arrived("GET", "https://h/"));
    assert!(matches!(action, Action::Read));
    let (state, action) = record(&rules, state, collected(b""));
    assert!(matches!(action, Action::Ask));
    let (state, action) = record(&rules, state, answered(206, None));
    assert!(matches!(action, Action::Stream));
    let (state, action) = record(&rules, state, data(b"x"));
    assert!(matches!(action, Action::Deliver));
    let (state, action) = record(&rules, state, Event::DataLost);
    assert!(matches!(action, Action::Deliver));
    let (state, action) = record(&rules, state, Event::DataEnded);
    assert!(matches!((state, action), (State::Done, Action::Finish { recorded: None })));
}

#[test]
fn text_is_recorded_where_the_rule_says_so() {
    let rules = Rules { record_text: pattern("/text$"), ..no_rules() };
    let events = |uri: &str, body: &[u8]| {
        let uri = arrived("GET", uri);
        vec![uri, collected(b""), answered(200, None), data(body), Event::DataEnded]
    };
    let get = |uri: &str, body: &[u8]| kept(run(&rules, State::new(), events(uri, body)));
    assert_eq!(get("http://h/text?q", b"hello"), one("http://h/text", None, "text", "hello"));
    assert_eq!(get("http://h/other", b"hello"), one("http://h/other", None, "hash", HELLO));
    assert_eq!(get("http://h/text", b"\xff\xfe"), one("http://h/text", None, "hash", NOT_TEXT));
    assert_eq!(get("http://h/text", b""), one("http://h/text", None, "text", ""));
    assert_eq!(get("http://h/other", b""), one("http://h/other", None, "hash", EMPTY));
}

#[test]
fn post_is_recorded_by_its_body() {
    let events = |body: &[u8]| {
        let body = collected(body);
        vec![arrived("POST", "http://h/p"), body, answered(200, None), data(b"hi"), Event::DataEnded]
    };
    let post = |body: &[u8]| kept(run(&no_rules(), State::new(), events(body)));
    assert_eq!(post(b"ask"), one("http://h/p", Some("ask"), "text", "hi"));
    assert_eq!(post(b""), one("http://h/p", Some(""), "text", "hi"));
    assert_eq!(post("\u{e9}".as_bytes()), one("http://h/p", Some("\u{e9}"), "text", "hi"));
    assert_eq!(post(b"\xff"), one("http://h/p", None, "text", "hi"));
}

#[test]
fn head_loses_its_checksums() {
    let events = vec![arrived("HEAD", "http://h/a"), collected(b""), answered(200, None)];
    match run(&no_rules(), State::new(), events) {
        (State::Done, Action::Pass { recorded: None, without }) => {
            assert_eq!(without, ["content-md5"]);
        }
        other => panic!("{:?}", other),
    }
}

#[test]
fn failures_upstream_are_passed_on() {
    for status in [100, 199, 400, 404, 500, 999] {
        let events = vec![arrived("GET", "http://h/a"), collected(b""), answered(status, None)];
        match run(&no_rules(), State::new(), events) {
            (State::Done, Action::Pass { recorded: None, without }) => assert!(without.is_empty()),
            other => panic!("{:?}", other),
        }
    }
}

#[test]
fn redirects_are_recorded() {
    let events = |method: &str, location: &str| {
        let first = arrived(method, "http://h/a?b");
        vec![first, collected(b"x"), answered(302, Some(location))]
    };
    let get = |l: &str| kept(run(&no_rules(), State::new(), events("GET", l)));
    assert_eq!(
        get("https://other:443/c?d"),
        one("http://h/a", None, "redirect", "https://other/c")
    );
    assert_eq!(get("/c?d"), one("http://h/a", None, "redirect", "/c"));
    assert_eq!(get("a b"), one("http://h/a", None, "redirect", "a b"));
    let head = kept(run(&no_rules(), State::new(), events("HEAD", "/c")));
    assert_eq!(head, one("http://h/a", None, "redirect", "/c"));
    let post = kept(run(&no_rules(), State::new(), events("POST", "/c")));
    assert_eq!(post, one("http://h/a", Some("x"), "redirect", "/c"));
    for status in [300, 399] {
        let events =
            vec![arrived("GET", "http://h/a"), collected(b""), answered(status, Some("/c"))];
        let got = kept(run(&no_rules(), State::new(), events));
        assert_eq!(got, one("http://h/a", None, "redirect", "/c"));
    }
}

#[test]
fn unreadable_location_is_not_recorded() {
    for location in [b"/caf\xc3\xa9".to_vec(), b"\x01".to_vec(), b"\x7f".to_vec()] {
        let answer =
            Event::Answered { status: 301, location: Some(location), headers: Vec::new() };
        let events = vec![arrived("GET", "http://h/a"), collected(b""), answer];
        assert_eq!(kept(run(&no_rules(), State::new(), events)), None);
    }
}

#[test]
fn redirects_to_forgotten_urls_are_followed() {
    let rules = Rules { forget_redirects_to: pattern("cdn/"), ..no_rules() };
    let events = vec![
        arrived("GET", "http://h/a"),
        collected(b""),
        answered(302, Some("https://u@cdn/x?token")),
    ];
    let (state, action) = run(&rules, State::new(), events);
    match action {
        Action::Follow { uri, host } => {
            assert_eq!(uri.to_text(), "https://cdn:443/x?token");
            assert_eq!(host, Some("cdn".to_owned()));
        }
        other => panic!("{:?}", other),
    }
    let events = vec![
        arrived("GET", "https://cdn:443/x?token"),
        collected(b""),
        answered(200, None),
        data(b"hello"),
        Event::DataEnded,
    ];
    assert_eq!(kept(run(&rules, state, events)), one("http://h/a", None, "hash", HELLO));
}

#[test]
fn redirects_to_other_urls_are_not_followed() {
    let rules = Rules { forget_redirects_to: pattern("^https://cdn/"), ..no_rules() };
    let events = vec![arrived("GET", "http://h/a"), collected(b""), answered(302, Some("/c"))];
    assert_eq!(kept(run(&rules, State::new(), events)), one("http://h/a", None, "redirect", "/c"));
}

#[test]
fn redirects_from_forgotten_urls_are_followed() {
    let rules = Rules { forget_redirects_from: pattern("/latest$"), ..no_rules() };
    let events = vec![
        arrived("GET", "http://h/latest?x"),
        collected(b""),
        answered(302, Some("http://h/v1")),
    ];
    let (state, action) = run(&rules, State::new(), events);
    assert!(matches!(&action, Action::Follow { uri, .. } if uri.to_text() == "http://h:80/v1"));
    let events = vec![
        arrived("GET", "http://h:80/v1"),
        collected(b""),
        answered(301, Some("http://h/v2")),
    ];
    let got = kept(run(&rules, state, events));
    assert_eq!(got, one("http://h/latest", None, "redirect", "http://h/v2"));
}

#[test]
fn location_that_is_no_uri_is_not_followed() {
    let rules = Rules { forget_redirects_from: pattern(""), ..no_rules() };
    let events = vec![arrived("GET", "http://h/a"), collected(b""), answered(302, Some("a b"))];
    assert_eq!(
        kept(run(&rules, State::new(), events)),
        one("http://h/a", None, "redirect", "a b")
    );
}

#[test]
fn relative_redirects_are_followed_without_a_host() {
    let rules = Rules { forget_redirects_from: pattern(""), ..no_rules() };
    let events = vec![arrived("GET", "http://h/a"), collected(b""), answered(302, Some("/b?c"))];
    match run(&rules, State::new(), events).1 {
        Action::Follow { uri, host } => {
            assert_eq!(uri.to_text(), "/b?c");
            assert_eq!(host, None);
        }
        other => panic!("{:?}", other),
    }
}

#[test]
fn forgotten_requests_leave_no_trace() {
    let rules = Rules { forget: pattern("/secret"), ..no_rules() };
    let events = vec![
        arrived("GET", "http://h/secret"),
        collected(b""),
        answered(200, None),
        data(b"hello"),
        Event::DataEnded,
    ];
    let step = run(&rules, State::new(), events);
    let mut pages = Pages::new();
    match step.1 {
        Action::Finish { recorded: Some(recorded) } => {
            assert!(recorded.urls.is_empty());
            pages.store(&recorded);
        }
        other => panic!("{:?}", other),
    }
    assert_eq!(pages.describe().len(), 1);
}

#[test]
fn forgetting_lasts_across_redirects() {
    let rules = Rules {
        forget: pattern("/secret"),
        forget_redirects_from: pattern("/secret"),
        ..no_rules()
    };
    let events = vec![
        arrived("GET", "http://h/secret"),
        collected(b""),
        answered(302, Some("http://h/open")),
        arrived("GET", "http://h:80/open"),
        collected(b""),
        answered(302, Some("http://h/end")),
    ];
    let got = kept(run(&rules, State::new(), events)).unwrap();
    assert!(got.0.is_empty());
}

#[test]
fn rejected_requests_are_refused() {
    let rules = Rules { reject: pattern("^http://bad/"), ..no_rules() };
    let events = vec![arrived("GET", "http://bad/a?b"), collected(b"")];
    assert_eq!(
        refusal(run(&rules, State::new(), events)),
        "Rejected 'http://bad/a?b' based upon regex"
    );
    let events = vec![arrived("GET", "http://good/a"), collected(b"")];
    assert!(matches!(run(&rules, State::new(), events).1, Action::Ask));
}

#[test]
fn errors_are_told() {
    let shown = || "oops".to_owned();
    let step = |events| run(&no_rules(), State::new(), events);
    let first = || arrived("GET", "https://h:443/a?b");
    assert_eq!(
        refusal(step(vec![first(), Event::Undecodable { shown: shown() }])),
        "Unable to decode the GET request at URI https://h:443/a?b\noops"
    );
    assert_eq!(
        refusal(step(vec![first(), Event::Uncollectable { shown: shown() }])),
        "Unable to collect the request body at https://h:443/a?b into bytes\noops"
    );
    assert_eq!(
        refusal(step(vec![first(), collected(b""), Event::Unanswered { shown: shown() }])),
        "Unable to get the content upstream at https://h/a.\n\
         Original URL: 'https://h:443/a?b'\nError: oops"
    );
    assert_eq!(
        refusal(step(vec![first(), collected(b""), Event::Garbled { shown: shown() }])),
        "Unable to decode the upstream response at https://h/a.\n\
         Original URL: https://h:443/a?b\nError: oops"
    );
}

#[test]
fn lost_bodies_are_not_recorded() {
    let start = || vec![arrived("GET", "http://h/a"), collected(b""), answered(200, None)];
    for tail in [
        vec![data(b"x"), Event::DataLost, data(b"y"), Event::DataEnded],
        vec![Event::DataLost, Event::DataEnded],
        vec![data(b"x"), Event::Undelivered],
    ] {
        let mut events = start();
        events.extend(tail);
        assert_eq!(kept(run(&no_rules(), State::new(), events)), None);
    }
}

#[test]
fn cuts_do_not_matter() {
    let cuts: [&[&[u8]]; 4] = [&[b"hello"], &[b"h", b"ello"], &[b"", b"hel", b"lo"], &[b"hell", b"o", b""]];
    for cut in cuts {
        let mut hashed = BodyRecorder::new(false);
        let mut text = BodyRecorder::new(true);
        for bytes in cut {
            hashed = hashed.data(&bytes.to_vec());
            text = text.data(&bytes.to_vec());
        }
        assert_eq!(hashed.finish().unwrap().tag(), ("hash".to_owned(), HELLO.to_owned()));
        assert_eq!(text.finish().unwrap().tag(), ("text".to_owned(), "hello".to_owned()));
    }
}

#[test]
fn bodies_are_settled_by_text_or_hash() {
    let tag = |keep, body: &[u8]| settle(keep, &body.to_vec(), "H").tag();
    assert_eq!(tag(true, b"abc"), ("text".to_owned(), "abc".to_owned()));
    assert_eq!(tag(false, b"abc"), ("hash".to_owned(), "sha256-H".to_owned()));
    assert_eq!(tag(true, b"\xff"), ("hash".to_owned(), "sha256-H".to_owned()));
}

#[test]
fn rules_decide_on_given_matches() {
    let trail = || Trail { forget: false, urls: Vec::new() };
    let hits = Hits { forget: true, reject: false, record_text: true };
    match take_up(trail(), asked("GET", "http://h/a?b"), &Vec::new(), hits) {
        (State::Asking(trail, _, plan), Action::Ask) => {
            assert!(trail.forget && trail.urls.is_empty());
            assert!(plan.keep_text && plan.post_body.is_none());
        }
        other => panic!("{:?}", other),
    }
    let hits = Hits { forget: false, reject: false, record_text: false };
    match take_up(trail(), asked("POST", "http://h/a?b"), &b"q".to_vec(), hits) {
        (State::Asking(trail, _, plan), Action::Ask) => {
            assert_eq!(trail.urls, ["http://h/a"]);
            assert!(!trail.forget && plan.keep_text);
            assert_eq!(plan.post_body, Some("q".to_owned()));
        }
        other => panic!("{:?}", other),
    }
}

#[test]
fn redirect_on_given_matches() {
    let trail = || Trail { forget: false, urls: vec!["u".to_owned()] };
    let plan = || Plan { post_body: None, keep_text: false };
    let text = || Some("http://u:p@h/x".to_owned());
    let target = || Uri::parse("http://u:p@h/x");
    match redirect(trail(), plan(), text(), target(), true) {
        (State::Waiting(trail), Action::Follow { uri, host }) => {
            assert!(trail.forget);
            assert_eq!(trail.urls, ["u"]);
            assert_eq!(uri.to_text(), "http://h:80/x");
            assert_eq!(host, Some("h".to_owned()));
        }
        other => panic!("{:?}", other),
    }
    let step = redirect(trail(), plan(), text(), target(), false);
    assert_eq!(kept(step), one("u", None, "redirect", "http://u:p@h/x"));
    let step = redirect(trail(), plan(), text(), None, true);
    assert_eq!(kept(step), one("u", None, "redirect", "http://u:p@h/x"));
    assert_eq!(kept(redirect(trail(), plan(), None, None, true)), None);
}

#[test]
fn answers_by_status_and_method() {
    let trail = || Trail { forget: false, urls: Vec::new() };
    let plan = || Plan { post_body: None, keep_text: true };
    let headers = vec!["x-sha1".to_owned(), "age".to_owned()];
    let step = answer(trail(), asked("GET", "/"), plan(), 299, &headers);
    assert!(matches!(step, (State::Streaming(..), Action::Stream)));
    let step = answer(trail(), asked("GET", "/"), plan(), 404, &headers);
    assert!(matches!(step.1, Action::Pass { recorded: None, without } if without.is_empty()));
    let step = answer(trail(), asked("HEAD", "/"), plan(), 200, &headers);
    assert!(matches!(step.1, Action::Pass { recorded: None, without } if without == ["x-sha1"]));
}

#[test]
fn recorded_bodies_show_up_in_the_pages() {
    let events = vec![
        arrived("GET", "https://h:443/a?b"),
        collected(b""),
        answered(200, None),
        data(b"hello"),
        Event::DataEnded,
    ];
    let mut pages = Pages::new();
    match run(&no_rules(), State::new(), events).1 {
        Action::Finish { recorded: Some(recorded) } => pages.store(&recorded),
        other => panic!("{:?}", other),
    }
    let page = pages.page("https://h/a").unwrap();
    assert!(matches!(&page.contents, Some(Contents::Hash(hash)) if hash == HELLO));
}

#[test]
fn forgetting_changes_no_action() {
    let events = || {
        vec![
            arrived("GET", "http://h/latest"),
            collected(b""),
            answered(302, Some("https://cdn/x?token")),
            arrived("GET", "https://cdn:443/x?token"),
            collected(b""),
            answered(200, None),
            data(b"hello"),
            Event::DataEnded,
        ]
    };
    let rules = Rules { forget_redirects_from: pattern("/latest$"), ..no_rules() };
    let forgetful = Rules {
        forget: pattern("^http://h/"),
        forget_redirects_from: pattern("/latest$"),
        ..no_rules()
    };
    let mut a = (State::new(), Action::Forward);
    let mut b = (State::new(), Action::Forward);
    for (x, y) in events().into_iter().zip(events()) {
        a = record(&rules, a.0, x);
        b = record(&forgetful, b.0, y);
        if !matches!(a.1, Action::Finish { .. }) {
            assert_eq!(format!("{:?}", a.1), format!("{:?}", b.1));
        }
    }
    assert_eq!(kept(a), one("http://h/latest", None, "hash", HELLO));
    assert_eq!(kept(b), Some((vec![], None, "hash".to_owned(), HELLO.to_owned())));
}
