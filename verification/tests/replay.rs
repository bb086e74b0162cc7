use mitm_cache::replay::{get_cache_path, replay, resolve, Lookup, Outcome};
use mitm_cache::uri::Uri;

fn uri(text: &str) -> Uri {
    Uri::parse(text).unwrap()
}

fn path(text: &str) -> String {
    get_cache_path(&uri(text))
}

fn reply(outcome: Outcome) -> (u16, String) {
    match outcome {
        Outcome::Answer(reply) => (reply.status, reply.body),
        Outcome::Serve => panic!("served"),
    }
}

#[test]
fn path_follows_the_uri() {
    assert_eq!(path("https://example.com/a/b.txt"), "https/example.com/a/b.txt");
    assert_eq!(path("http://example.com:8080/a"), "http/example.com:8080/a");
    assert_eq!(path("http://example.com"), "http/example.com");
    assert_eq!(path("/a/b"), "a/b");
    assert_eq!(path("example.com"), "example.com");
    assert_eq!(path("*"), "*");
}

#[test]
fn path_has_no_query_and_no_https_port() {
    assert_eq!(path("https://example.com:443/a?b=c"), "https/example.com/a");
    assert_eq!(path("https://example.com/a"), path("https://example.com:443/a?x"));
}

#[test]
fn empty_segments_are_left_out() {
    assert_eq!(path("https://example.com//a///b/"), "https/example.com/a/b");
    assert_eq!(path("///"), "");
}

#[test]
fn path_is_relative() {
    assert_eq!(path("://example.com/a"), "example.com/a");
    assert_eq!(path("//etc/passwd"), "etc/passwd");
    assert_eq!(path("https://example.com//etc"), "https/example.com/etc");
}

#[test]
fn path_agrees_with_path_buf() {
    for text in ["https://h/a/b", "://h//x", "/a//b/", "h:443", "http://h/../a/./b", "*"] {
        let u: hyper::Uri = text.parse().unwrap();
        let mut expected = std::path::PathBuf::new();
        if let Some(scheme) = u.scheme_str() {
            expected.push(scheme);
        }
        if let Some(authority) = u.authority() {
            expected.push(authority.to_string());
        }
        for component in u.path().split('/').filter(|x| !x.is_empty()) {
            expected.push(component);
        }
        assert_eq!(path(text), expected.display().to_string());
    }
}

#[test]
fn connect_is_answered() {
    match replay("CONNECT", &uri("example.com:443"), "request") {
        Lookup::Answer(reply) => {
            assert_eq!(reply.status, 200);
            assert_eq!(reply.body, "Offline replay");
        }
        _ => panic!("looked up"),
    }
}

#[test]
fn other_methods_are_refused() {
    for method in ["POST", "PUT", "get", ""] {
        match replay(method, &uri("https://h/a?b"), "Request { .. }") {
            Lookup::Answer(reply) => {
                assert_eq!(reply.status, 404);
                let expected = format!(
                    "{} requests are not supported\nURL: 'https://h/a?b'\nRequest:\nRequest {{ .. }}",
                    method
                );
                assert_eq!(reply.body, expected);
            }
            _ => panic!("looked up"),
        }
    }
}

#[test]
fn head_probes_the_cache() {
    let u = uri("https://h:443/a?b");
    let lookup = replay("HEAD", &u, "request");
    assert!(matches!(&lookup, Lookup::Probe { path } if path == "https/h/a"));
    assert_eq!(reply(resolve(&u, lookup, true)), (200, String::new()));
    let lookup = replay("HEAD", &u, "request");
    let text = "Unable to find 'https://h:443/a?b', was expected to be at 'https/h/a'";
    assert_eq!(reply(resolve(&u, lookup, false)), (404, text.to_owned()));
}

#[test]
fn get_opens_the_file() {
    let u = uri("http://h/a/b");
    let lookup = replay("GET", &u, "request");
    assert!(matches!(&lookup, Lookup::Open { path } if path == "http/h/a/b"));
    assert!(matches!(resolve(&u, lookup, true), Outcome::Serve));
    let lookup = replay("GET", &u, "request");
    let text = "Unable to find 'http://h/a/b', was expected to be at 'http/h/a/b'";
    assert_eq!(reply(resolve(&u, lookup, false)), (404, text.to_owned()));
}

#[test]
fn answer_is_passed_through() {
    let u = uri("http://h/");
    let lookup = replay("PUT", &u, "shown");
    let text = "PUT requests are not supported\nURL: 'http://h/'\nRequest:\nshown";
    assert_eq!(reply(resolve(&u, lookup, false)), (404, text.to_owned()));
}

#[test]
fn extra_slashes_do_not_matter() {
    for text in ["https://h/a/b/", "https://h/a//b", "https://h//a/b", "https://h/a/b//?q"] {
        assert_eq!(path(text), path("https://h/a/b"));
    }
    assert_ne!(path("https://h/ab"), path("https://h/a/b"));
}

#[test]
fn paths_tell_responses_apart() {
    let texts = [
        "https://h/a",
        "http://h/a",
        "https://a/h",
        "https://h:80/a",
        "https://u@h/a",
        "https://h/a/b",
        "https://h/ab",
        "https://h/",
    ];
    for a in texts {
        for b in texts {
            assert_eq!(path(a) == path(b), a == b);
        }
    }
    let texts = ["://h/a", "://a/h", "://h:80/a", "://h/a/b", "://h/"];
    for a in texts {
        for b in texts {
            assert_eq!(path(a) == path(b), a == b);
        }
    }
    assert_ne!(path("/h/a"), path("/h/b"));
    assert_ne!(path("h:80"), path("h:81"));
}

#[test]
fn paths_do_not_tell_shapes_apart() {
    assert_eq!(path("://http/a.com"), path("http://a.com/"));
    assert_eq!(path("://h/"), path("h"));
    assert_eq!(path("/h"), path("h"));
}
