//! The replaying proxy: where it looks for the response to a request, and what it answers.

use crate::reply::{not_found, ok, Reply, ReplyView};
use crate::text::{
    law_segments_are_what_is_between, lemma_one_piece, lemma_pieces_joined, lemma_segments, pieces,
    same_text, segments, split_segments, texts,
};
use crate::uri::{
    is_uri, law_processing_is_idempotent, law_query_does_not_matter, process_uri, processed,
    scheme_char, uri_text, Uri, UriView,
};
use vstd::prelude::*;
use vstd::string::*;

verus! {

/// A path with one more component, as Unix paths are put together: an absolute component replaces
/// the path, any other is set off by a slash.
pub open spec fn pushed(path: Seq<char>, component: Seq<char>) -> Seq<char> {
    if component.len() > 0 && component[0] == '/' {
        component
    } else if path.len() == 0 || path.last() == '/' {
        path + component
    } else {
        path + "/"@ + component
    }
}

/// A path with some more components.
pub open spec fn pushed_all(path: Seq<char>, components: Seq<Seq<char>>) -> Seq<char>
    decreases components.len(),
{
    if components.len() == 0 {
        path
    } else {
        pushed(pushed_all(path, components.drop_last()), components.last())
    }
}

/// The scheme and the authority of a URI, as a path.
pub open spec fn site_path(v: UriView) -> Seq<char> {
    let scheme = match v.scheme {
        Some(s) => pushed(Seq::empty(), s),
        None => Seq::empty(),
    };
    match v.authority {
        Some(a) => pushed(scheme, a),
        None => scheme,
    }
}

/// The segments of the path of a URI.
pub open spec fn path_segments(v: UriView) -> Seq<Seq<char>> {
    match v.path {
        Some(p) => segments(p, '/'),
        None => segments(Seq::empty(), '/'),
    }
}

/// Where the response for a URI is kept, relative to the cache: the scheme, the authority and the
/// segments of the path of the processed URI.
pub open spec fn cache_path(v: UriView) -> Seq<char> {
    pushed_all(site_path(processed(v)), path_segments(processed(v)))
}

/// A path with one more component.
fn push(path: String, component: &str) -> (r: String)
    ensures
        r@ == pushed(path@, component@),
{
    let n: usize = component.unicode_len();
    if n > 0 && component.get_char(0) == '/' {
        return component.to_owned();
    }
    let m: usize = path.as_str().unicode_len();
    let mut path = path;
    if m > 0 && path.as_str().get_char(m - 1) != '/' {
        path.append("/");
    }
    path.append(component);
    path
}

/// Where the response for a URI is kept, relative to the cache.
pub fn get_cache_path(url: &Uri) -> (r: String)
    ensures
        r@ == cache_path(url@),
{
    let url = process_uri(url);
    let parts = url.parts();
    let mut path = String::new();
    if let Some(scheme) = &parts.scheme {
        path = push(path, scheme.as_str());
    }
    if let Some(authority) = &parts.authority {
        path = push(path, authority.as_str());
    }
    let components = match &parts.path {
        Some(p) => split_segments(p.as_str(), '/'),
        None => split_segments(String::new().as_str(), '/'),
    };
    let ghost site = path@;
    let ghost all = texts(components@);
    let n: usize = components.len();
    assert(all.take(0) =~= Seq::empty());
    for i in 0..n
        invariant
            n == components@.len(),
            all == texts(components@),
            path@ == pushed_all(site, all.take(i as int)),
    {
        path = push(path, components[i].as_str());
        assert(all.take(i + 1).drop_last() =~= all.take(i as int));
    }
    assert(all.take(n as int) =~= all);
    path
}

/// What to do with a request.
#[derive(Debug)]
pub enum Lookup {
    /// Answer with this reply.
    Answer(Reply),
    /// See whether there is a file at this path of the cache.
    Probe { path: String },
    /// Open the file at this path of the cache.
    Open { path: String },
}

/// What to do with a request, as characters.
pub enum LookupView {
    Answer(ReplyView),
    Probe { path: Seq<char> },
    Open { path: Seq<char> },
}

impl View for Lookup {
    type V = LookupView;

    open spec fn view(&self) -> LookupView {
        match self {
            Lookup::Answer(reply) => LookupView::Answer(reply@),
            Lookup::Probe { path } => LookupView::Probe { path: path@ },
            Lookup::Open { path } => LookupView::Open { path: path@ },
        }
    }
}

/// What to answer once it is known whether there is a file.
#[derive(Debug)]
pub enum Outcome {
    /// Answer with this reply.
    Answer(Reply),
    /// Answer with the status 200 and the bytes of the file.
    Serve,
}

/// What to answer, as characters.
pub enum OutcomeView {
    Answer(ReplyView),
    Serve,
}

impl View for Outcome {
    type V = OutcomeView;

    open spec fn view(&self) -> OutcomeView {
        match self {
            Outcome::Answer(reply) => OutcomeView::Answer(reply@),
            Outcome::Serve => OutcomeView::Serve,
        }
    }
}

/// The reply to a request with a method that is not served.
pub open spec fn unserved_text(method: Seq<char>, v: UriView, shown: Seq<char>) -> Seq<char> {
    method + " requests are not supported\nURL: '"@ + uri_text(v) + "'\nRequest:\n"@ + shown
}

/// The reply to a request for a response that is not in the cache.
pub open spec fn missing_text(v: UriView, path: Seq<char>) -> Seq<char> {
    "Unable to find '"@ + uri_text(v) + "', was expected to be at '"@ + path + "'"@
}

/// What to do with a request that is shown to people as `shown`.
pub open spec fn looked_up(method: Seq<char>, v: UriView, shown: Seq<char>) -> LookupView {
    if method == "CONNECT"@ {
        LookupView::Answer(ok("Offline replay"@))
    } else if method == "HEAD"@ {
        LookupView::Probe { path: cache_path(v) }
    } else if method == "GET"@ {
        LookupView::Open { path: cache_path(v) }
    } else {
        LookupView::Answer(not_found(unserved_text(method, v, shown)))
    }
}

/// What to answer to a request for `v`, once it is known whether there is a file.
pub open spec fn resolved(v: UriView, lookup: LookupView, found: bool) -> OutcomeView {
    match lookup {
        LookupView::Answer(reply) => OutcomeView::Answer(reply),
        LookupView::Probe { path } => if found {
            OutcomeView::Answer(ok(Seq::empty()))
        } else {
            OutcomeView::Answer(not_found(missing_text(v, path)))
        },
        LookupView::Open { path } => if found {
            OutcomeView::Serve
        } else {
            OutcomeView::Answer(not_found(missing_text(v, path)))
        },
    }
}

/// Decides what to do with a request that is shown to people as `shown`.
pub fn replay(method: &str, uri: &Uri, shown: &str) -> (r: Lookup)
    ensures
        r@ == looked_up(method@, uri@, shown@),
{
    if same_text(method, "CONNECT") {
        Lookup::Answer(Reply { status: 200, body: "Offline replay".to_owned() })
    } else if same_text(method, "HEAD") {
        Lookup::Probe { path: get_cache_path(uri) }
    } else if same_text(method, "GET") {
        Lookup::Open { path: get_cache_path(uri) }
    } else {
        let mut text = method.to_owned();
        text.append(" requests are not supported\nURL: '");
        text.append(uri.to_text().as_str());
        text.append("'\nRequest:\n");
        text.append(shown);
        Lookup::Answer(Reply { status: 404, body: text })
    }
}

/// The reply to a request for a response that is not in the cache.
fn missing(uri: &Uri, path: &str) -> (r: Outcome)
    ensures
        r@ == OutcomeView::Answer(not_found(missing_text(uri@, path@))),
{
    let mut text = "Unable to find '".to_owned();
    text.append(uri.to_text().as_str());
    text.append("', was expected to be at '");
    text.append(path);
    text.append("'");
    Outcome::Answer(Reply { status: 404, body: text })
}

/// Decides what to answer to a request for `uri`, once it is known whether there is a file.
pub fn resolve(uri: &Uri, lookup: Lookup, found: bool) -> (r: Outcome)
    ensures
        r@ == resolved(uri@, lookup@, found),
{
    match lookup {
        Lookup::Answer(reply) => Outcome::Answer(reply),
        Lookup::Probe { path } => {
            if found {
                Outcome::Answer(Reply { status: 200, body: String::new() })
            } else {
                missing(uri, path.as_str())
            }
        },
        Lookup::Open { path } => {
            if found {
                Outcome::Serve
            } else {
                missing(uri, path.as_str())
            }
        },
    }
}

/// A path that does not start at the root.
pub open spec fn is_relative(path: Seq<char>) -> bool {
    path.len() > 0 ==> path[0] != '/'
}

/// Relative components leave a relative path relative.
proof fn lemma_relative(path: Seq<char>, components: Seq<Seq<char>>)
    requires
        is_relative(path),
        forall|i: int| 0 <= i < components.len() ==> is_relative(#[trigger] components[i]),
    ensures
        is_relative(pushed_all(path, components)),
    decreases components.len(),
{
    if components.len() > 0 {
        assert forall|i: int| 0 <= i < components.drop_last().len() implies is_relative(
            #[trigger] components.drop_last()[i],
        ) by {
            assert(components[i] == components.drop_last()[i]);
        }
        lemma_relative(path, components.drop_last());
        assert(is_relative(components[components.len() - 1]));
    }
}

/// The cache is never left by way of the root: the path of a response in it is relative.
pub proof fn law_cache_path_is_relative(v: UriView)
    requires
        is_uri(v),
    ensures
        is_relative(cache_path(v)),
{
    let p = processed(v);
    if p.scheme is Some && p.scheme->0.len() > 0 {
        assert(scheme_char(p.scheme->0[0]));
    }
    reveal_strlit(":443");
    if p.authority is Some && p.authority->0.len() > 0 {
        assert(p.authority->0[0] == v.authority->0[0]);
    }
    assert(is_relative(site_path(p)));
    let text = match p.path {
        Some(text) => text,
        None => Seq::empty(),
    };
    lemma_segments(text, '/');
    assert forall|i: int| 0 <= i < path_segments(p).len() implies is_relative(
        #[trigger] path_segments(p)[i],
    ) by {
        let segment = path_segments(p)[i];
        assert(segment.len() > 0 && !segment.contains('/'));
        assert(segment.contains(segment[0]));
    }
    lemma_relative(site_path(p), path_segments(p));
}

/// A response is looked for under the URI under which it is filed.
pub proof fn law_lookup_by_filed_uri(v: UriView)
    requires
        is_uri(v),
    ensures
        cache_path(processed(v)) == cache_path(v),
{
    law_processing_is_idempotent(v);
}

/// A response is looked for in one place whatever the query of the request.
pub proof fn law_query_does_not_move_response(v: UriView, w: UriView)
    requires
        v.scheme == w.scheme,
        v.authority == w.authority,
        v.path == w.path,
    ensures
        cache_path(v) == cache_path(w),
{
    law_query_does_not_matter(v, w);
}

/// Whether every one of some components is not empty and holds no slash.
spec fn are_plain(components: Seq<Seq<char>>) -> bool {
    forall|i: int|
        0 <= i < components.len() ==> (#[trigger] components[i]).len() > 0
            && !components[i].contains('/')
}

/// A path that is put together from plain components has them for its pieces.
proof fn lemma_pieces_pushed(components: Seq<Seq<char>>)
    requires
        components.len() > 0,
        are_plain(components),
    ensures
        pushed_all(Seq::empty(), components).len() > 0,
        pushed_all(Seq::empty(), components).last() != '/',
        pieces(pushed_all(Seq::empty(), components), '/') == components,
    decreases components.len(),
{
    let rest = components.drop_last();
    let last = components[components.len() - 1];
    let before = pushed_all(Seq::empty(), rest);
    assert(last.contains(last[0]) && last.contains(last.last()));
    lemma_one_piece(last, '/');
    if rest.len() == 0 {
        assert(pushed_all(Seq::empty(), components) =~= last);
        assert(seq![last] =~= components);
    } else {
        assert(are_plain(rest)) by {
            assert forall|i: int| 0 <= i < rest.len() implies (#[trigger] rest[i]).len() > 0
                && !rest[i].contains('/') by {
                assert(rest[i] == components[i]);
            }
        }
        lemma_pieces_pushed(rest);
        reveal_strlit("/");
        assert(pushed_all(Seq::empty(), components) =~= before.push('/') + last);
        lemma_pieces_joined(before, last, '/');
        assert(rest + seq![last] =~= components);
    }
}

/// Components can be added to a path a few at a time.
proof fn lemma_pushed_in_two(path: Seq<char>, a: Seq<Seq<char>>, b: Seq<Seq<char>>)
    ensures
        pushed_all(pushed_all(path, a), b) == pushed_all(path, a + b),
    decreases b.len(),
{
    if b.len() == 0 {
        assert(a + b =~= a);
    } else {
        lemma_pushed_in_two(path, a, b.drop_last());
        assert((a + b).drop_last() =~= a + b.drop_last());
    }
}

/// A component that may be missing or empty, as one component or none.
spec fn named(component: Option<Seq<char>>) -> Seq<Seq<char>> {
    if component is Some && component->0.len() > 0 {
        seq![component->0]
    } else {
        Seq::empty()
    }
}

/// The components of the path under which a processed URI is kept.
spec fn path_components(v: UriView) -> Seq<Seq<char>> {
    named(v.scheme) + named(v.authority) + path_segments(v)
}

/// A component that is missing or empty adds nothing to an empty path, any other adds itself.
proof fn lemma_named(component: Option<Seq<char>>)
    ensures
        pushed_all(Seq::empty(), named(component)) == match component {
            Some(c) => pushed(Seq::empty(), c),
            None => Seq::empty(),
        },
{
    reveal_with_fuel(pushed_all, 2);
    assert(named(component).len() > 0 ==> named(component).drop_last() =~= Seq::empty());
    if component is Some && component->0.len() == 0 {
        assert(pushed(Seq::empty(), component->0) =~= Seq::empty());
    }
}

/// The path of a response in the cache is put together from the components of its URI, which are
/// plain.
proof fn lemma_cache_path_components(v: UriView)
    requires
        is_uri(v),
    ensures
        are_plain(path_components(processed(v))),
        cache_path(v) == pushed_all(Seq::empty(), path_components(processed(v))),
{
    let p = processed(v);
    let tail = path_segments(p);
    reveal_strlit(":443");
    if p.scheme is Some {
        let scheme = p.scheme->0;
        assert forall|i: int| 0 <= i < scheme.len() implies scheme[i] != '/' by {
            assert(scheme_char(scheme[i]));
        }
    }
    if p.authority is Some {
        let authority = p.authority->0;
        assert forall|i: int| 0 <= i < authority.len() implies authority[i] != '/' by {
            assert(authority[i] == v.authority->0[i]);
        }
    }
    let text = match p.path {
        Some(text) => text,
        None => Seq::empty(),
    };
    lemma_segments(text, '/');
    assert forall|i: int| 0 <= i < path_components(p).len() implies (#[trigger] path_components(
        p,
    )[i]).len() > 0 && !path_components(p)[i].contains('/') by {
        let site = named(p.scheme) + named(p.authority);
        if i >= site.len() {
            assert(path_components(p)[i] == tail[i - site.len()]);
        }
    }
    lemma_named(p.scheme);
    let site = pushed_all(Seq::empty(), named(p.scheme));
    assert(site_path(p) == pushed_all(site, named(p.authority))) by {
        reveal_with_fuel(pushed_all, 2);
        assert(named(p.authority).len() > 0 ==> named(p.authority).drop_last() =~= Seq::empty());
    }
    lemma_pushed_in_two(Seq::empty(), named(p.scheme), named(p.authority));
    lemma_pushed_in_two(Seq::empty(), named(p.scheme) + named(p.authority), tail);
}

/// Whether two URIs name the same parts of a site: both a scheme or neither, both an authority or
/// neither, and of two schemes both are empty or neither.
pub open spec fn same_shape(v: UriView, w: UriView) -> bool {
    &&& v.scheme is Some == w.scheme is Some
    &&& v.authority is Some == w.authority is Some
    &&& v.scheme is Some && w.scheme is Some ==> (v.scheme->0.len() == 0) == (w.scheme->0.len()
        == 0)
}

/// Responses of different sites, or for different segments of a path, are kept in different
/// places: the path in the cache tells the scheme, the authority and the segments. It does not tell
/// which of these a component is, so this is about URIs of one shape. Two URIs with schemes are of
/// one shape unless just one of the schemes is empty.
pub proof fn law_cache_path_tells_responses_apart(v: UriView, w: UriView)
    requires
        is_uri(v),
        is_uri(w),
        same_shape(v, w),
        cache_path(v) == cache_path(w),
    ensures
        v.scheme == w.scheme,
        processed(v).authority == processed(w).authority,
        path_segments(processed(v)) == path_segments(processed(w)),
{
    let a = path_components(processed(v));
    let b = path_components(processed(w));
    lemma_cache_path_components(v);
    lemma_cache_path_components(w);
    if a.len() > 0 {
        lemma_pieces_pushed(a);
    }
    if b.len() > 0 {
        lemma_pieces_pushed(b);
    }
    assert(a =~= b);
    reveal_strlit(":443");
    let n = (named(v.scheme) + named(processed(v).authority)).len();
    assert(n == (named(w.scheme) + named(processed(w).authority)).len());
    assert(path_segments(processed(v)) =~= a.skip(n as int));
    assert(path_segments(processed(w)) =~= b.skip(n as int));
    if v.scheme is Some {
        if v.scheme->0.len() > 0 {
            assert(a[0] == v.scheme->0 && b[0] == w.scheme->0);
        } else {
            assert(v.scheme->0 =~= w.scheme->0);
        }
    }
    if v.authority is Some {
        assert(a[n - 1] == processed(v).authority->0);
        assert(b[n - 1] == processed(w).authority->0);
    }
}

/// A separator next to another, or at the end, adds no segment.
proof fn lemma_extra_separator(before: Seq<char>, behind: Seq<char>, sep: char)
    requires
        behind.len() == 0 || behind[0] == sep || before.len() > 0 && before.last() == sep,
    ensures
        segments(before.push(sep) + behind, sep) == segments(before + behind, sep),
{
    let keep = |piece: Seq<char>| piece.len() > 0;
    let none = seq![Seq::<char>::empty()];
    assert(none.filter(keep) =~= Seq::empty()) by {
        reveal_with_fuel(Seq::filter, 2);
        assert(none.drop_last() =~= Seq::empty());
    }
    lemma_pieces_joined(before, behind, sep);
    Seq::filter_distributes_over_add(pieces(before, sep), pieces(behind, sep), keep);
    if behind.len() == 0 {
        assert(behind =~= Seq::empty());
        assert(before + behind =~= before);
        assert(segments(before, sep) + none.filter(keep) =~= segments(before, sep));
    } else if behind[0] == sep {
        let rest = behind.drop_first();
        assert(behind =~= Seq::empty().push(sep) + rest);
        assert(before + behind =~= before.push(sep) + rest);
        lemma_pieces_joined(Seq::empty(), rest, sep);
        lemma_pieces_joined(before, rest, sep);
        Seq::filter_distributes_over_add(none, pieces(rest, sep), keep);
        Seq::filter_distributes_over_add(pieces(before, sep), pieces(rest, sep), keep);
        assert(none.filter(keep) + segments(rest, sep) =~= segments(rest, sep));
    } else {
        let rest = before.drop_last();
        assert(before =~= rest.push(sep) + Seq::empty());
        assert(before + behind =~= rest.push(sep) + behind);
        lemma_pieces_joined(rest, Seq::empty(), sep);
        lemma_pieces_joined(rest, behind, sep);
        Seq::filter_distributes_over_add(pieces(rest, sep), none, keep);
        Seq::filter_distributes_over_add(pieces(rest, sep), pieces(behind, sep), keep);
        assert(segments(rest, sep) + none.filter(keep) =~= segments(rest, sep));
    }
}

/// A slash that is added to the path of a URI next to another slash, or at its end, does not move
/// the response.
pub proof fn law_extra_slash_does_not_move_response(
    v: UriView,
    w: UriView,
    before: Seq<char>,
    behind: Seq<char>,
)
    requires
        v.scheme == w.scheme,
        v.authority == w.authority,
        v.path == Some(before + behind),
        w.path == Some(before.push('/') + behind),
        behind.len() == 0 || behind[0] == '/' || before.len() > 0 && before.last() == '/',
    ensures
        cache_path(v) == cache_path(w),
{
    lemma_extra_separator(before, behind, '/');
}

/// The path of a response in the cache, taken apart at its slashes, is the scheme, the authority
/// under which it is filed, and every non-empty piece of the path of the URI. An empty scheme is
/// left out, an authority alone is the whole path, and so are the pieces of a path alone.
pub proof fn law_cache_path_holds_every_segment(v: UriView)
    requires
        is_uri(v),
    ensures
        v.scheme is Some && v.scheme->0.len() > 0 ==> pieces(cache_path(v), '/') == seq![
            v.scheme->0,
            processed(v).authority->0,
        ] + segments(v.path->0, '/'),
        v.scheme is Some && v.scheme->0.len() == 0 ==> pieces(cache_path(v), '/') == seq![
            processed(v).authority->0,
        ] + segments(v.path->0, '/'),
        v.scheme is None && v.authority is Some ==> cache_path(v) == v.authority->0,
        v.authority is None && v.path is Some && segments(v.path->0, '/').len() > 0 ==> pieces(
            cache_path(v),
            '/',
        ) == segments(v.path->0, '/'),
        v.authority is None && (v.path is Some ==> segments(v.path->0, '/').len() == 0)
            ==> cache_path(v) == Seq::<char>::empty(),
{
    let c = path_components(processed(v));
    lemma_cache_path_components(v);
    reveal_strlit(":443");
    law_segments_are_what_is_between(Seq::empty(), Seq::empty(), '/');
    if c.len() > 0 {
        lemma_pieces_pushed(c);
    }
    if v.scheme is Some && v.scheme->0.len() > 0 {
        assert(c =~= seq![v.scheme->0, processed(v).authority->0] + segments(v.path->0, '/'));
    } else if v.scheme is Some {
        assert(c =~= seq![processed(v).authority->0] + segments(v.path->0, '/'));
    } else if v.authority is Some {
        assert(c =~= seq![v.authority->0]);
        assert(c.drop_last() =~= Seq::empty());
        reveal_with_fuel(pushed_all, 2);
        assert(v.authority->0[0] != '/');
        assert(cache_path(v) =~= v.authority->0);
    } else if v.path is Some {
        assert(c =~= segments(v.path->0, '/'));
    } else {
        assert(c =~= Seq::empty());
    }
}

/// URIs of one shape whose responses are kept in one place have the same non-empty pieces in their
/// paths.
pub proof fn law_cache_path_tells_segments(v: UriView, w: UriView)
    requires
        is_uri(v),
        is_uri(w),
        same_shape(v, w),
        v.path is Some,
        w.path is Some,
        cache_path(v) == cache_path(w),
    ensures
        segments(v.path->0, '/') == segments(w.path->0, '/'),
{
    law_cache_path_tells_responses_apart(v, w);
}

/// The path of a response in the cache ends with every non-empty piece of the path of its URI.
pub proof fn law_cache_path_ends_with_segments(v: UriView)
    requires
        is_uri(v),
        v.scheme is Some,
    ensures
        ({
            let all = segments(cache_path(v), '/');
            let tail = segments(v.path->0, '/');
            tail.len() < all.len() && all.skip(all.len() - tail.len()) == tail
        }),
{
    let c = path_components(processed(v));
    let tail = segments(v.path->0, '/');
    let site = named(v.scheme) + named(processed(v).authority);
    lemma_cache_path_components(v);
    assert(site.len() > 0) by {
        reveal_strlit(":443");
    }
    lemma_segments_of_path(c);
    assert(c == site + tail);
    assert(c.skip(site.len() as int) =~= tail);
}

/// The segments of a path that is put together from plain components are these.
proof fn lemma_segments_of_path(components: Seq<Seq<char>>)
    requires
        components.len() > 0,
        are_plain(components),
    ensures
        segments(pushed_all(Seq::empty(), components), '/') == components,
{
    lemma_pieces_pushed(components);
    lemma_plain_are_kept(components);
}

/// None of some plain components is left out as empty.
proof fn lemma_plain_are_kept(components: Seq<Seq<char>>)
    requires
        are_plain(components),
    ensures
        components.filter(|piece: Seq<char>| piece.len() > 0) == components,
    decreases components.len(),
{
    reveal(Seq::filter);
    if components.len() > 0 {
        let rest = components.drop_last();
        assert forall|i: int| 0 <= i < rest.len() implies (#[trigger] rest[i]).len() > 0
            && !rest[i].contains('/') by {
            assert(rest[i] == components[i]);
        }
        lemma_plain_are_kept(rest);
        assert(components[components.len() - 1].len() > 0);
        assert(rest.push(components.last()) =~= components);
    }
}

/// A replaying proxy answers CONNECT itself, looks for the response to HEAD and opens that to GET
/// where it is kept, and refuses any other method.
pub proof fn law_methods_that_are_replayed(method: Seq<char>, v: UriView, shown: Seq<char>)
    ensures
        looked_up("CONNECT"@, v, shown) == LookupView::Answer(
            ReplyView { status: 200, body: "Offline replay"@ },
        ),
        looked_up("HEAD"@, v, shown) == (LookupView::Probe { path: cache_path(v) }),
        looked_up("GET"@, v, shown) == (LookupView::Open { path: cache_path(v) }),
        method != "CONNECT"@ && method != "HEAD"@ && method != "GET"@ ==> looked_up(method, v, shown)
            == LookupView::Answer(
            ReplyView {
                status: 404,
                body: method + " requests are not supported\nURL: '"@ + uri_text(v)
                    + "'\nRequest:\n"@ + shown,
            },
        ),
{
    reveal_strlit("CONNECT");
    reveal_strlit("HEAD");
    reveal_strlit("GET");
    assert("CONNECT"@.len() == 7 && "HEAD"@.len() == 4 && "GET"@.len() == 3);
}

/// A file that is found is served, or answers HEAD with nothing; where there is none, the answer is
/// 404 and says where it was looked for. What was to be answered without a file is answered so.
pub proof fn law_found_files_are_served(
    v: UriView,
    path: Seq<char>,
    reply: ReplyView,
    found: bool,
)
    ensures
        resolved(v, LookupView::Open { path }, true) == OutcomeView::Serve,
        resolved(v, LookupView::Probe { path }, true) == OutcomeView::Answer(
            ReplyView { status: 200, body: Seq::empty() },
        ),
        resolved(v, LookupView::Open { path }, false) == OutcomeView::Answer(
            ReplyView {
                status: 404,
                body: "Unable to find '"@ + uri_text(v) + "', was expected to be at '"@ + path
                    + "'"@,
            },
        ),
        resolved(v, LookupView::Probe { path }, false) == resolved(
            v,
            LookupView::Open { path },
            false,
        ),
        resolved(v, LookupView::Answer(reply), found) == OutcomeView::Answer(reply),
{
}

/// The view of what to do with a request shows all of it.
pub proof fn law_view_of_lookup(reply: Reply, path: String)
    ensures
        Lookup::Answer(reply)@ == LookupView::Answer(reply@),
        (Lookup::Probe { path })@ == (LookupView::Probe { path: path@ }),
        (Lookup::Open { path })@ == (LookupView::Open { path: path@ }),
        Outcome::Answer(reply)@ == OutcomeView::Answer(reply@),
        Outcome::Serve@ == OutcomeView::Serve,
{
}

} // verus!
