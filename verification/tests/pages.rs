use mitm_cache::pages::{Contents, Member, Page, Pages, Recorded, Value};

fn hash(text: &str) -> Contents {
    Contents::Hash(text.to_owned())
}

fn recorded(urls: &[&str], post_body: Option<&str>, contents: Contents) -> Recorded {
    Recorded {
        urls: urls.iter().map(|u| u.to_string()).collect(),
        post_body: post_body.map(|b| b.to_owned()),
        contents,
    }
}

fn shown(contents: &Contents) -> (String, String) {
    contents.tag()
}

fn pair(a: &str, b: &str) -> (String, String) {
    (a.to_owned(), b.to_owned())
}

/// The description as compact JSON, with texts that need no escapes.
fn json(pages: &Pages) -> String {
    let mut members: Vec<String> = Vec::new();
    for (name, value) in pages.describe() {
        let value = match value {
            Value::Version(n) => n.to_string(),
            Value::Page(fields) => {
                let fields: Vec<String> = fields.iter().map(field).collect();
                format!("{{{}}}", fields.join(","))
            }
        };
        members.push(format!("\"{}\":{}", name, value));
    }
    format!("{{{}}}", members.join(","))
}

fn field(field: &(String, Member)) -> String {
    match &field.1 {
        Member::Text(text) => format!("\"{}\":\"{}\"", field.0, text),
        Member::Responses(responses) => {
            let responses: Vec<String> = responses
                .iter()
                .map(|(body, tag)| format!("\"{}\":{{\"{}\":\"{}\"}}", body, tag.0, tag.1))
                .collect();
            format!("\"{}\":{{{}}}", field.0, responses.join(","))
        }
    }
}

#[test]
fn nothing_recorded_is_the_version_alone() {
    assert_eq!(json(&Pages::new()), "{\"!version\":1}");
    assert!(Pages::new().page("https://h/").is_none());
}

#[test]
fn description_is_in_order() {
    let mut pages = Pages::new();
    pages.store(&recorded(&["https://h/b"], None, hash("sha256-B")));
    pages.store(&recorded(&["https://h/a"], None, Contents::Text("A".to_owned())));
    pages.store(&recorded(&["http://h/"], None, Contents::Redirect("https://h/".to_owned())));
    pages.store(&recorded(&["https://h/aa"], Some("q"), hash("sha256-Q")));
    pages.store(&recorded(&["https://h/aa"], Some("p"), Contents::Text("P".to_owned())));
    assert_eq!(
        json(&pages),
        "{\"!version\":1,\
         \"http://h/\":{\"redirect\":\"https://h/\"},\
         \"https://h/a\":{\"text\":\"A\"},\
         \"https://h/aa\":{\"post\":{\"p\":{\"text\":\"P\"},\"q\":{\"hash\":\"sha256-Q\"}}},\
         \"https://h/b\":{\"hash\":\"sha256-B\"}}"
    );
}

#[test]
fn page_with_both_kinds_of_responses() {
    let mut pages = Pages::new();
    pages.store(&recorded(&["u"], Some(""), Contents::Text("posted".to_owned())));
    pages.store(&recorded(&["u"], None, hash("sha256-G")));
    assert_eq!(
        json(&pages),
        "{\"!version\":1,\"u\":{\"hash\":\"sha256-G\",\"post\":{\"\":{\"text\":\"posted\"}}}}"
    );
}

#[test]
fn order_is_that_of_bytes() {
    let mut pages = Pages::new();
    for url in ["z", "\u{e9}", "a", "\u{10000}", "\u{ffff}", "Z", "", "aa"] {
        pages.store(&recorded(&[url], None, hash(url)));
    }
    let names: Vec<String> = pages.describe().into_iter().map(|m| m.0).collect();
    let expected = ["!version", "", "Z", "a", "aa", "z", "\u{e9}", "\u{ffff}", "\u{10000}"];
    assert_eq!(names, expected);
    let mut tree = std::collections::BTreeMap::new();
    for name in &names[1..] {
        tree.insert(name.clone(), ());
    }
    assert!(tree.keys().eq(names[1..].iter()));
}

#[test]
fn first_response_wins() {
    let mut pages = Pages::new();
    pages.store(&recorded(&["u"], None, hash("one")));
    pages.store(&recorded(&["u"], None, hash("two")));
    pages.store(&recorded(&["u"], Some("b"), hash("three")));
    pages.store(&recorded(&["u"], Some("b"), hash("four")));
    let page = pages.page("u").unwrap();
    assert_eq!(shown(page.contents.as_ref().unwrap()), pair("hash", "one"));
    assert_eq!(shown(page.post_responses.get("b").unwrap()), pair("hash", "three"));
    assert!(page.post_responses.get("c").is_none());
}

#[test]
fn every_url_gets_the_response() {
    let mut pages = Pages::new();
    pages.store(&recorded(&["b"], None, hash("old")));
    pages.store(&recorded(&["a", "b", "c", "a"], None, hash("new")));
    let of = |url: &str| shown(pages.page(url).unwrap().contents.as_ref().unwrap());
    assert_eq!(of("a"), pair("hash", "new"));
    assert_eq!(of("b"), pair("hash", "old"));
    assert_eq!(of("c"), pair("hash", "new"));
    assert!(pages.page("d").is_none());
}

#[test]
fn no_url_changes_nothing() {
    let mut pages = Pages::new();
    pages.store(&recorded(&["a"], None, hash("x")));
    let before = json(&pages);
    pages.store(&recorded(&[], None, hash("y")));
    assert_eq!(json(&pages), before);
}

#[test]
fn order_of_arrival_does_not_show() {
    let urls = ["c", "a", "e", "b", "d"];
    let mut there = Pages::new();
    let mut back = Pages::new();
    for url in urls {
        there.store(&recorded(&[url], None, hash(url)));
    }
    for url in urls.iter().rev() {
        back.store(&recorded(&[url], None, hash(url)));
    }
    assert_eq!(json(&there), json(&back));
}

#[test]
fn pages_can_be_made_by_hand() {
    let mut page = Page::new();
    assert!(page.members().is_empty());
    page.add_response(&None, &Contents::Text("t".to_owned()));
    page.add_response(&None, &Contents::Text("u".to_owned()));
    let members = page.members();
    assert_eq!(members.len(), 1);
    assert_eq!(field(&members[0]), "\"text\":\"t\"");
}

#[test]
fn post_responses_are_in_order() {
    let mut page = Page::new();
    for body in ["b", "", "\u{e9}", "aa", "a", "Z"] {
        page.add_response(&Some(body.to_owned()), &hash(body));
    }
    let members = page.members();
    assert_eq!(members.len(), 1);
    match &members[0].1 {
        Member::Responses(responses) => {
            let bodies: Vec<&str> = responses.iter().map(|r| r.0.as_str()).collect();
            assert_eq!(bodies, ["", "Z", "a", "aa", "b", "\u{e9}"]);
            assert!(responses.iter().all(|r| r.1 == pair("hash", &r.0)));
        }
        other => panic!("{:?}", other),
    }
}

#[test]
fn descriptions_tell_pages_apart() {
    let all = [
        recorded(&[], None, hash("h")),
        recorded(&["u"], None, hash("h")),
        recorded(&["u"], None, Contents::Text("h".to_owned())),
        recorded(&["u"], None, Contents::Redirect("h".to_owned())),
        recorded(&["u"], None, hash("i")),
        recorded(&["u"], Some(""), hash("h")),
        recorded(&["u"], Some("x"), hash("h")),
        recorded(&["v"], None, hash("h")),
        recorded(&["u", "v"], None, hash("h")),
    ];
    let described: Vec<String> = all
        .iter()
        .map(|r| {
            let mut pages = Pages::new();
            pages.store(r);
            json(&pages)
        })
        .collect();
    for (i, a) in described.iter().enumerate() {
        for (j, b) in described.iter().enumerate() {
            assert_eq!(a == b, i == j);
        }
    }
}
