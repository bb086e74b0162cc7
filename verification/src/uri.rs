//! URIs as the proxy sees them, and the normal form under which responses are filed.
//!
//! A [`Uri`] holds the parts of a `hyper::Uri` as text. Which texts are parts of a URI is for the
//! `http` crate, re-exported by `hyper`, to say; the functions that ask it are the trusted ones
//! below.

use crate::text::{
    ends_with, has_suffix, lemma_first_piece, lemma_first_piece_stays, lemma_last_piece_grows, lemma_one_piece,
    lemma_pieces_have_no_separator, lemma_pieces_joined, lemma_pieces_not_empty, pieces, same_text,
};
use vstd::prelude::*;
use vstd::string::*;

verus! {

/// The parts of a URI, each as its characters.
#[verifier::ext_equal]
pub struct UriView {
    pub scheme: Option<Seq<char>>,
    pub authority: Option<Seq<char>>,
    pub path: Option<Seq<char>>,
    pub query: Option<Seq<char>>,
}

/// What `hyper::Uri` makes of a text: the parts it reads, or nothing if it refuses the text.
pub uninterp spec fn http_uri(text: Seq<char>) -> Option<UriView>;

/// What `hyper::http::uri::PathAndQuery` makes of a text: a path and perhaps a query, or nothing
/// if it refuses the text.
pub uninterp spec fn http_path_and_query(text: Seq<char>) -> Option<(Seq<char>, Option<Seq<char>>)>;

/// Whether `hyper::http::uri::Authority` accepts a text.
pub uninterp spec fn http_authority(text: Seq<char>) -> bool;

/// A character of a scheme.
pub open spec fn scheme_char(c: char) -> bool {
    ||| 'a' <= c <= 'z'
    ||| 'A' <= c <= 'Z'
    ||| '0' <= c <= '9'
    ||| c == '+'
    ||| c == '-'
    ||| c == '.'
    ||| c == '~'
}

/// A text that is a scheme.
pub open spec fn is_scheme(s: Seq<char>) -> bool {
    &&& s.len() <= 64
    &&& forall|i: int| 0 <= i < s.len() ==> scheme_char(#[trigger] s[i])
}

/// Of two colons in an authority, the first is followed by the `@` that ends the user
/// information or by the `]` that ends an IP literal.
pub open spec fn one_port_colon(a: Seq<char>) -> bool {
    forall|i: int, j: int|
        0 <= i < j < a.len() && #[trigger] a[i] == ':' && #[trigger] a[j] == ':' ==> exists|k: int|
            i < k < a.len() && (#[trigger] a[k] == '@' || a[k] == ']')
}

/// A text without the characters that end an authority.
pub open spec fn no_delimiter(a: Seq<char>) -> bool {
    forall|i: int| 0 <= i < a.len() ==> #[trigger] a[i] != '/' && a[i] != '?' && a[i] != '#'
}

/// The host and the port of an authority: what stands behind the user information.
pub open spec fn host_and_port(a: Seq<char>) -> Seq<char> {
    pieces(a, '@').last()
}

/// An IP literal that is opened in an authority is closed.
pub open spec fn literal_is_closed(a: Seq<char>) -> bool {
    host_and_port(a).len() > 0 && host_and_port(a)[0] == '[' ==> host_and_port(a).contains(']')
}

/// What every authority looks like: there is something behind the user information, nothing that
/// ends an authority, one port at most, and no IP literal left open.
pub open spec fn authority_form(a: Seq<char>) -> bool {
    &&& a.len() > 0
    &&& a.last() != '@'
    &&& no_delimiter(a)
    &&& one_port_colon(a)
    &&& literal_is_closed(a)
}

/// A text that is an authority.
pub open spec fn is_authority(a: Seq<char>) -> bool {
    &&& http_authority(a)
    &&& authority_form(a)
}

/// A path and a query as they are written together.
pub open spec fn joined(path: Seq<char>, query: Option<Seq<char>>) -> Seq<char> {
    match query {
        Some(q) => path + "?"@ + q,
        None => path,
    }
}

/// A path and a query that are those of a URI.
pub open spec fn is_path_and_query(path: Seq<char>, query: Option<Seq<char>>) -> bool {
    &&& http_path_and_query(joined(path, query)) == Some((path, query))
    &&& http_path_and_query(path) == Some((path, None::<Seq<char>>))
}

/// Parts that stand together: a scheme has an authority and a path, an authority without a scheme
/// has no path, and only a path has a query.
pub open spec fn well_shaped(v: UriView) -> bool {
    &&& v.scheme is Some ==> v.authority is Some && v.path is Some
    &&& v.scheme is None && v.authority is Some ==> v.path is None
    &&& v.path is None ==> v.query is None
}

/// Parts each of which is what it stands for.
pub open spec fn valid_parts(v: UriView) -> bool {
    &&& v.scheme matches Some(s) ==> is_scheme(s)
    &&& v.authority matches Some(a) ==> is_authority(a)
    &&& v.path matches Some(p) ==> is_path_and_query(p, v.query)
}

/// The parts of a URI.
pub open spec fn is_uri(v: UriView) -> bool {
    &&& valid_parts(v)
    &&& well_shaped(v)
}

/// The text of a URI.
pub open spec fn uri_text(v: UriView) -> Seq<char> {
    let scheme = match v.scheme {
        Some(s) => s + "://"@,
        None => Seq::<char>::empty(),
    };
    let authority = match v.authority {
        Some(a) => a,
        None => Seq::<char>::empty(),
    };
    let path = match v.path {
        Some(p) => p,
        None => Seq::<char>::empty(),
    };
    let query = match v.query {
        Some(q) => "?"@ + q,
        None => Seq::<char>::empty(),
    };
    scheme + authority + path + query
}

/// The value of a string of decimal digits.
pub open spec fn decimal(s: Seq<char>) -> int
    decreases s.len(),
{
    if s.len() == 0 {
        0
    } else {
        decimal(s.drop_last()) * 10 + (s.last() as int - '0' as int)
    }
}

/// The number that a text is as a `u16`: decimal digits, perhaps after a `+`.
pub open spec fn u16_of(s: Seq<char>) -> Option<u16> {
    let digits = if s.len() > 0 && s[0] == '+' {
        s.drop_first()
    } else {
        s
    };
    if digits.len() > 0 && (forall|i: int|
        0 <= i < digits.len() ==> '0' <= #[trigger] digits[i] <= '9') && decimal(digits)
        <= u16::MAX {
        Some(decimal(digits) as u16)
    } else {
        None
    }
}

/// The port of an authority: the number behind its last colon.
pub open spec fn port_of(authority: Seq<char>) -> Option<u16> {
    if pieces(authority, ':').len() > 1 {
        u16_of(pieces(authority, ':').last())
    } else {
        None
    }
}

/// The host of an authority: what stands behind the user information, up to the port. An IP
/// literal keeps its brackets.
pub open spec fn host_of(authority: Seq<char>) -> Seq<char> {
    let host_port = host_and_port(authority);
    if host_port.len() > 0 && host_port[0] == '[' {
        pieces(host_port, ']').first().push(']')
    } else {
        pieces(host_port, ':').first()
    }
}

/// The characters of a text that may be missing.
pub open spec fn optional_text(o: Option<String>) -> Option<Seq<char>> {
    match o {
        Some(s) => Some(s@),
        None => None,
    }
}

/// The parts of a URI as text.
#[derive(Debug)]
pub struct Parts {
    pub scheme: Option<String>,
    pub authority: Option<String>,
    pub path: Option<String>,
    pub query: Option<String>,
}

impl View for Parts {
    type V = UriView;

    open spec fn view(&self) -> UriView {
        UriView {
            scheme: optional_text(self.scheme),
            authority: optional_text(self.authority),
            path: optional_text(self.path),
            query: optional_text(self.query),
        }
    }
}

/// Reads a URI with `hyper::Uri::from_str` and takes it apart with `into_parts`, the path and the
/// query by the accessors of `PathAndQuery`. Trusted: the parts are a function of the text alone;
/// each of them is accepted again by the type of that part, the path also without the query; the
/// authority looks as every authority does; a scheme comes with an authority and a path, an
/// authority alone without a path.
#[verifier::external_body]
fn parse_uri(text: &str) -> (r: Option<Parts>)
    ensures
        match r {
            Some(parts) => http_uri(text@) == Some(parts@),
            None => http_uri(text@) is None,
        },
        r matches Some(parts) ==> is_uri(parts@),
{
    let parts = match text.parse::<hyper::Uri>() {
        Ok(uri) => uri.into_parts(),
        Err(_) => return None,
    };
    let pq = parts.path_and_query.as_ref();
    Some(Parts {
        scheme: parts.scheme.as_ref().map(|s| s.as_str().to_owned()),
        authority: parts.authority.as_ref().map(|a| a.as_str().to_owned()),
        path: pq.map(|p| p.path().to_owned()),
        query: pq.and_then(|p| p.query()).map(|q| q.to_owned()),
    })
}

/// Reads a path and query with `PathAndQuery::from_str`. Trusted: the result is a function of the
/// text alone, and the path that was read is accepted again by itself.
#[verifier::external_body]
fn parse_path_and_query(text: &str) -> (r: Option<(String, Option<String>)>)
    ensures
        match r {
            Some((path, query)) => http_path_and_query(text@) == Some(
                (path@, optional_text(query)),
            ),
            None => http_path_and_query(text@) is None,
        },
        r matches Some((path, query)) ==> http_path_and_query(path@) == Some(
            (path@, None::<Seq<char>>),
        ),
{
    match text.parse::<hyper::http::uri::PathAndQuery>() {
        Ok(p) => Some((p.path().to_owned(), p.query().map(|q| q.to_owned()))),
        Err(_) => None,
    }
}

/// Asks `Authority::from_str` whether a text is an authority. Trusted: the answer is a function of
/// the text alone; an authority is not empty, does not end with `@`, holds no `/`, `?` or `#`, no
/// second colon in its host and port, and a `]` where its host begins with `[`; where a text
/// followed by `:443` is an authority, the text itself is one unless it is empty or ends with `@`.
#[verifier::external_body]
fn authority_parses(text: &str) -> (r: bool)
    ensures
        r == http_authority(text@),
        r ==> authority_form(text@),
        http_authority(text@ + ":443"@) ==> r == (text@.len() > 0 && text@.last() != '@'),
{
    text.parse::<hyper::http::uri::Authority>().is_ok()
}

/// Asks `Authority::port_u16` for the port of an authority. Trusted: it is the number behind the
/// last colon, where there is a colon and a number of sixteen bits behind it.
#[verifier::external_body]
fn authority_port(authority: &str) -> (r: Option<u16>)
    requires
        http_authority(authority@),
    ensures
        r == port_of(authority@),
{
    match authority.parse::<hyper::http::uri::Authority>() {
        Ok(a) => a.port_u16(),
        Err(_) => None,
    }
}

/// Asks `Authority::host` for the host of an authority. Trusted: it is what stands behind the last
/// `@`, up to the first `]` where that begins with `[`, else up to the first colon.
#[verifier::external_body]
fn authority_host(authority: &str) -> (r: String)
    requires
        http_authority(authority@),
    ensures
        r@ == host_of(authority@),
{
    match authority.parse::<hyper::http::uri::Authority>() {
        Ok(a) => a.host().to_owned(),
        Err(_) => String::new(),
    }
}

/// Asks `hyper::Uri::from_parts` whether parts make up a URI. Trusted: of parts that are each
/// accepted by their own types, it refuses a scheme without an authority or a path, and an
/// authority with a path but no scheme, and nothing else.
#[verifier::external_body]
fn parts_accepted(parts: &Parts) -> (r: bool)
    requires
        valid_parts(parts@),
        parts@.path is None ==> parts@.query is None,
    ensures
        r == well_shaped(parts@),
{
    let query = parts.query.as_ref().map(|q| format!("?{}", q)).unwrap_or_default();
    let mut raw = hyper::http::uri::Parts::default();
    raw.scheme = parts.scheme.as_ref().and_then(|s| s.parse().ok());
    raw.authority = parts.authority.as_ref().and_then(|a| a.parse().ok());
    raw.path_and_query = parts.path.as_ref().and_then(|p| (p.clone() + &query).parse().ok());
    hyper::Uri::from_parts(raw).is_ok()
}

/// A copy of a text that may be missing.
pub fn copy_text(o: &Option<String>) -> (r: Option<String>)
    ensures
        optional_text(r) == optional_text(*o),
{
    match o {
        Some(s) => Some(s.clone()),
        None => None,
    }
}

/// Whether a text is a scheme.
pub fn scheme_parses(text: &str) -> (r: bool)
    ensures
        r == is_scheme(text@),
{
    if text.unicode_len() > 64 {
        return false;
    }
    for c in it: text.chars()
        invariant
            it.seq() == text@,
            text@.len() <= 64,
            forall|i: int| 0 <= i < it.index() ==> scheme_char(#[trigger] text@[i]),
    {
        let letter = ('a' <= c && c <= 'z') || ('A' <= c && c <= 'Z');
        let other = ('0' <= c && c <= '9') || c == '+' || c == '-' || c == '.' || c == '~';
        assert(c == text@[it.index()]);
        if !letter && !other {
            return false;
        }
    }
    true
}

/// A URI.
#[derive(Debug)]
pub struct Uri {
    parts: Parts,
}

impl View for Uri {
    type V = UriView;

    closed spec fn view(&self) -> UriView {
        self.parts@
    }
}

impl Uri {
    #[verifier::type_invariant]
    spec fn inv(self) -> bool {
        is_uri(self.parts@)
    }

    /// Reads a URI.
    pub fn parse(text: &str) -> (r: Option<Uri>)
        ensures
            match r {
                Some(uri) => http_uri(text@) == Some(uri@) && is_uri(uri@),
                None => http_uri(text@) is None,
            },
    {
        match parse_uri(text) {
            Some(parts) => Some(Uri { parts }),
            None => None,
        }
    }

    /// Puts a URI together. There is none where a part is not what it stands for, or where the
    /// parts do not stand together.
    pub fn from_parts(parts: Parts) -> (r: Option<Uri>)
        ensures
            match r {
                Some(uri) => uri@ == parts@ && is_uri(parts@),
                None => !{
                    &&& parts@.scheme matches Some(s) ==> is_scheme(s)
                    &&& parts@.authority matches Some(a) ==> http_authority(a)
                    &&& parts@.path matches Some(p) ==> http_path_and_query(joined(p, parts@.query))
                        == Some((p, parts@.query))
                    &&& well_shaped(parts@)
                },
            },
    {
        if let Some(scheme) = &parts.scheme {
            if !scheme_parses(scheme.as_str()) {
                return None;
            }
        }
        if let Some(authority) = &parts.authority {
            if !authority_parses(authority.as_str()) {
                return None;
            }
        }
        match &parts.path {
            Some(path) => {
                let mut text = path.clone();
                if let Some(query) = &parts.query {
                    text.append("?");
                    text.append(query.as_str());
                }
                match parse_path_and_query(text.as_str()) {
                    Some((read_path, read_query)) => {
                        if !same_text(read_path.as_str(), path.as_str()) || !same_optional_text(
                            &read_query,
                            &parts.query,
                        ) {
                            return None;
                        }
                    },
                    None => {
                        return None;
                    },
                }
            },
            None => {
                if parts.query.is_some() {
                    return None;
                }
            },
        }
        if parts_accepted(&parts) {
            Some(Uri { parts })
        } else {
            None
        }
    }

    /// The parts of this URI.
    pub fn parts(&self) -> (r: &Parts)
        ensures
            r@ == self@,
            is_uri(self@),
    {
        proof {
            use_type_invariant(self);
        }
        &self.parts
    }

    /// A copy of this URI.
    pub fn copy(&self) -> (r: Uri)
        ensures
            r@ == self@,
            is_uri(r@),
    {
        proof {
            use_type_invariant(self);
        }
        let parts = Parts {
            scheme: copy_text(&self.parts.scheme),
            authority: copy_text(&self.parts.authority),
            path: copy_text(&self.parts.path),
            query: copy_text(&self.parts.query),
        };
        assert(parts@ == self.parts@);
        Uri { parts }
    }

    /// The text of this URI.
    pub fn to_text(&self) -> (r: String)
        ensures
            r@ == uri_text(self@),
    {
        let mut text = String::new();
        if let Some(scheme) = &self.parts.scheme {
            text.append(scheme.as_str());
            text.append("://");
        }
        if let Some(authority) = &self.parts.authority {
            text.append(authority.as_str());
        }
        if let Some(path) = &self.parts.path {
            text.append(path.as_str());
        }
        if let Some(query) = &self.parts.query {
            text.append("?");
            text.append(query.as_str());
        }
        assert(text@ =~= uri_text(self@));
        text
    }
}

/// Whether two texts that may be missing are the same.
pub fn same_optional_text(a: &Option<String>, b: &Option<String>) -> (r: bool)
    ensures
        r == (optional_text(*a) == optional_text(*b)),
{
    match (a, b) {
        (Some(x), Some(y)) => same_text(x.as_str(), y.as_str()),
        (None, None) => true,
        _ => false,
    }
}

/// An authority without the port that HTTPS has by default. What is left has to be an authority:
/// it is not empty and does not end the user information.
pub open spec fn without_https_port(authority: Seq<char>) -> Seq<char> {
    let bare = authority.take(authority.len() - 4);
    if has_suffix(authority, ":443"@) && bare.len() > 0 && bare.last() != '@' {
        bare
    } else {
        authority
    }
}

/// The URI under which the response for a URI is filed: without the query, and without the port
/// 443 under HTTPS.
pub open spec fn processed(v: UriView) -> UriView {
    UriView {
        authority: match v.authority {
            Some(a) => if v.scheme == Some("https"@) {
                Some(without_https_port(a))
            } else {
                Some(a)
            },
            None => None,
        },
        query: None,
        ..v
    }
}

/// The URI under which the response for `uri` is filed.
pub fn process_uri(uri: &Uri) -> (r: Uri)
    ensures
        r@ == processed(uri@),
        is_uri(r@),
{
    proof {
        use_type_invariant(uri);
    }
    let parts = &uri.parts;
    let mut authority = copy_text(&parts.authority);
    let mut path = copy_text(&parts.path);
    let mut query = copy_text(&parts.query);
    if let Some(p) = &parts.path {
        if let Some((p2, q2)) = parse_path_and_query(p.as_str()) {
            path = Some(p2);
            query = q2;
        }
    }
    if let (Some(a), Some(s)) = (&parts.authority, &parts.scheme) {
        if same_text(s.as_str(), "https") && authority_port(a.as_str()) == Some(443u16)
            && ends_with(a.as_str(), ":443") {
            proof {
                reveal_strlit(":443");
                assert(a@.take(a@.len() - 4) + ":443"@ =~= a@);
            }
            let n: usize = a.as_str().unicode_len();
            let bare = a.as_str().substring_char(0, n - 4);
            assert(bare@ =~= a@.take(a@.len() - 4));
            if authority_parses(bare) {
                authority = Some(bare.to_owned());
            }
        }
        proof {
            if has_suffix(a@, ":443"@) {
                lemma_https_port(a@);
            }
        }
    }
    let parts = Parts { scheme: copy_text(&parts.scheme), authority, path, query };
    assert(parts@ == processed(uri@));
    if parts_accepted(&parts) {
        Uri { parts }
    } else {
        uri.copy()
    }
}

/// An authority that ends in `:443` has the port 443.
pub proof fn lemma_https_port(authority: Seq<char>)
    requires
        has_suffix(authority, ":443"@),
    ensures
        port_of(authority) == Some(443u16),
{
    reveal_strlit(":443");
    let s = authority.take(authority.len() - 4);
    let t = seq!['4', '4', '3'];
    assert(":443"@ =~= seq![':'] + t);
    assert(authority =~= s + authority.subrange(authority.len() - 4, authority.len() as int));
    assert(authority =~= s.push(':') + t);
    lemma_pieces_not_empty(s, ':');
    lemma_pieces_joined(s, t, ':');
    lemma_one_piece(t, ':');
    assert(decimal(t) == 443) by {
        assert(t.drop_last() =~= seq!['4', '4']);
        assert(seq!['4', '4'].drop_last() =~= seq!['4']);
        assert(seq!['4'].drop_last() =~= Seq::<char>::empty());
        reveal_with_fuel(decimal, 4);
    }
}

/// No authority ends in two ports.
proof fn lemma_no_second_port(bare: Seq<char>)
    requires
        has_suffix(bare, ":443"@),
    ensures
        !one_port_colon(bare + ":443"@),
{
    reveal_strlit(":443");
    let a = bare + ":443"@;
    let tail = bare.subrange(bare.len() - 4, bare.len() as int);
    let i = bare.len() - 4;
    assert(tail[0] == bare[i] && tail[1] == bare[i + 1] && tail[2] == bare[i + 2] && tail[3]
        == bare[i + 3]);
    assert(a[i] == ':' && a[i + 4] == ':');
    if one_port_colon(a) {
        let k = choose|k: int| i < k < a.len() && (#[trigger] a[k] == '@' || a[k] == ']');
        assert(a[i + 1] == '4' && a[i + 2] == '4' && a[i + 3] == '3');
        assert(a[i + 5] == '4' && a[i + 6] == '4' && a[i + 7] == '3');
        assert(false);
    }
}

/// Processing a URI twice is processing it once.
pub proof fn law_processing_is_idempotent(v: UriView)
    requires
        is_uri(v),
    ensures
        processed(processed(v)) == processed(v),
{
    if v.authority is Some {
        let a = v.authority->0;
        let bare = without_https_port(a);
        if bare != a && has_suffix(bare, ":443"@) {
            reveal_strlit(":443");
            assert(a =~= bare + a.subrange(a.len() - 4, a.len() as int));
            lemma_no_second_port(bare);
        }
    }
}

/// The host of a URI, where it has one.
pub open spec fn uri_host(v: UriView) -> Option<Seq<char>> {
    match v.authority {
        Some(a) => Some(host_of(a)),
        None => None,
    }
}

/// A port that is added behind a host leaves the host as it is.
proof fn lemma_port_leaves_host(a: Seq<char>, port: Seq<char>)
    requires
        a.len() > 0,
        a.last() != '@',
        literal_is_closed(a + port),
        port.len() > 0,
        port[0] == ':',
        !port.contains('@'),
        !port.contains(']'),
    ensures
        host_of(a + port) == host_of(a),
{
    let hp = host_and_port(a);
    lemma_pieces_not_empty(a.drop_last(), '@');
    lemma_last_piece_grows(a, port, '@');
    assert(hp.len() > 0);
    let whole = hp + port;
    assert(host_and_port(a + port) == whole && whole[0] == hp[0]);
    if hp[0] == '[' {
        let k = choose|k: int| 0 <= k < whole.len() && whole[k] == ']';
        if k >= hp.len() {
            assert(port.contains(port[k - hp.len()]));
        }
        assert(hp[k] == ']');
        lemma_first_piece_stays(hp, port, ']');
    } else {
        lemma_pieces_not_empty(hp, ':');
        lemma_pieces_joined(hp, port.drop_first(), ':');
        assert(whole =~= hp.push(':') + port.drop_first());
    }
}

/// Dropping the default port of HTTPS leaves the host of an authority as it is.
pub proof fn law_dropped_port_keeps_host(authority: Seq<char>)
    requires
        is_authority(authority),
    ensures
        host_of(without_https_port(authority)) == host_of(authority),
{
    let bare = without_https_port(authority);
    if bare != authority {
        reveal_strlit(":443");
        let tail = authority.subrange(authority.len() - 4, authority.len() as int);
        assert(authority =~= bare + tail);
        lemma_port_leaves_host(bare, ":443"@);
    }
}

/// The response for a URI is filed under the host of the URI.
pub proof fn law_processing_keeps_host(v: UriView)
    requires
        is_uri(v),
    ensures
        uri_host(processed(v)) == uri_host(v),
{
    if v.authority is Some {
        law_dropped_port_keeps_host(v.authority->0);
    }
}

/// The query of a URI does not matter for where its response is filed.
pub proof fn law_query_does_not_matter(v: UriView, w: UriView)
    requires
        v.scheme == w.scheme,
        v.authority == w.authority,
        v.path == w.path,
    ensures
        processed(v) == processed(w),
{
}

/// Under HTTPS, naming the default port does not matter for where the response is filed.
pub proof fn law_https_port_does_not_matter(v: UriView, w: UriView)
    requires
        is_uri(v),
        is_uri(w),
        v.scheme == Some("https"@),
        w.scheme == v.scheme,
        w.path == v.path,
        v.authority is Some,
        w.authority == Some(v.authority->0 + ":443"@),
    ensures
        processed(v) == processed(w),
{
    let a = v.authority->0;
    let b = w.authority->0;
    reveal_strlit(":443");
    assert(b.subrange(b.len() - 4, b.len() as int) =~= ":443"@);
    assert(b.take(b.len() - 4) =~= a);
    if has_suffix(a, ":443"@) {
        lemma_no_second_port(a);
    }
}

/// The port that a URI has by default, by its scheme.
pub open spec fn default_port(scheme: Option<Seq<char>>) -> Seq<char> {
    if scheme == Some("http"@) {
        ":80"@
    } else {
        ":443"@
    }
}

/// The host of a URI with the default port, for a URI that names a host and no port.
pub open spec fn host_with_port(v: UriView) -> Option<Seq<char>> {
    match v.authority {
        Some(a) => if port_of(a) is None {
            Some(host_of(a) + default_port(v.scheme))
        } else {
            None
        },
        None => None,
    }
}

/// A URI in which the port is named: `authority`, where it is one, replaces an authority without
/// a port.
pub open spec fn with_port(v: UriView, authority: Option<Seq<char>>) -> UriView {
    match authority {
        Some(a) => if http_authority(a) {
            UriView { authority: Some(a), ..v }
        } else {
            v
        },
        None => v,
    }
}

impl Uri {
    /// The host of this URI.
    pub fn host(&self) -> (r: Option<String>)
        ensures
            optional_text(r) == uri_host(self@),
    {
        proof {
            use_type_invariant(self);
        }
        match &self.parts.authority {
            Some(a) => Some(authority_host(a.as_str())),
            None => None,
        }
    }

    /// The host of this URI with the default port, if this URI names a host and no port.
    pub fn host_with_default_port(&self) -> (r: Option<String>)
        ensures
            optional_text(r) == host_with_port(self@),
    {
        proof {
            use_type_invariant(self);
        }
        match &self.parts.authority {
            Some(a) => {
                if authority_port(a.as_str()).is_some() {
                    return None;
                }
                let mut text = authority_host(a.as_str());
                let plain = match &self.parts.scheme {
                    Some(s) => same_text(s.as_str(), "http"),
                    None => false,
                };
                if plain {
                    text.append(":80");
                } else {
                    text.append(":443");
                }
                Some(text)
            },
            None => None,
        }
    }

    /// This URI with the port named, as far as an authority can name it.
    pub fn with_default_port(&self) -> (r: Uri)
        ensures
            r@ == with_port(self@, host_with_port(self@)),
            is_uri(r@),
    {
        proof {
            use_type_invariant(self);
        }
        match self.host_with_default_port() {
            Some(text) => {
                if !authority_parses(text.as_str()) {
                    return self.copy();
                }
                let parts = Parts {
                    scheme: copy_text(&self.parts.scheme),
                    authority: Some(text),
                    path: copy_text(&self.parts.path),
                    query: copy_text(&self.parts.query),
                };
                assert(parts@ == with_port(self@, host_with_port(self@)));
                if parts_accepted(&parts) {
                    Uri { parts }
                } else {
                    self.copy()
                }
            },
            None => self.copy(),
        }
    }
}

/// Naming the default port of a URI leaves its host as it is.
pub proof fn law_named_port_keeps_host(v: UriView)
    requires
        is_uri(v),
    ensures
        uri_host(with_port(v, host_with_port(v))) == uri_host(v),
{
    if v.authority is Some && port_of(v.authority->0) is None {
        let a = v.authority->0;
        let hp = host_and_port(a);
        let host = host_of(a);
        let port = default_port(v.scheme);
        reveal_strlit(":80");
        reveal_strlit(":443");
        lemma_pieces_have_no_separator(a, '@');
        lemma_pieces_not_empty(a.drop_last(), '@');
        assert(hp == pieces(a, '@')[pieces(a, '@').len() - 1]);
        assert(!hp.contains('@'));
        let sep = if hp[0] == '[' { ']' } else { ':' };
        let first = pieces(hp, sep).first();
        lemma_first_piece(hp, sep);
        lemma_pieces_have_no_separator(hp, sep);
        assert(first == pieces(hp, sep)[0]);
        assert(!first.contains(sep));
        lemma_one_piece(first, sep);
        let whole = host + port;
        assert forall|i: int| 0 <= i < whole.len() implies whole[i] != '@' by {
            if i < first.len() {
                assert(hp.contains(hp[i]) && whole[i] == hp[i]);
            }
        }
        lemma_one_piece(whole, '@');
        if hp[0] == '[' {
            assert(whole[0] == '[');
            lemma_pieces_joined(first, port, ']');
            assert(whole =~= first.push(']') + port);
        } else {
            lemma_pieces_joined(first, port.drop_first(), ':');
            assert(whole =~= first.push(':') + port.drop_first());
        }
    }
}

/// How a URI is written: what parts it has stand in their order, with `://` behind the scheme and
/// `?` before the query.
pub proof fn law_parts_are_written_in_order(v: UriView)
    requires
        well_shaped(v),
    ensures
        v.scheme is Some && v.query is Some ==> uri_text(v) == v.scheme->0 + "://"@
            + v.authority->0 + v.path->0 + "?"@ + v.query->0,
        v.scheme is Some && v.query is None ==> uri_text(v) == v.scheme->0 + "://"@
            + v.authority->0 + v.path->0,
        v.scheme is None && v.authority is Some ==> uri_text(v) == v.authority->0,
        v.authority is None && v.path is Some && v.query is Some ==> uri_text(v) == v.path->0
            + "?"@ + v.query->0,
        v.authority is None && v.path is Some && v.query is None ==> uri_text(v) == v.path->0,
        v.authority is None && v.path is None ==> uri_text(v) == Seq::<char>::empty(),
{
    if v.scheme is Some && v.query is Some {
        assert(uri_text(v) =~= v.scheme->0 + "://"@ + v.authority->0 + v.path->0 + "?"@
            + v.query->0);
    } else if v.scheme is Some {
        assert(uri_text(v) =~= v.scheme->0 + "://"@ + v.authority->0 + v.path->0);
    } else if v.authority is Some {
        assert(uri_text(v) =~= v.authority->0);
    } else if v.path is Some && v.query is Some {
        assert(uri_text(v) =~= v.path->0 + "?"@ + v.query->0);
    } else if v.path is Some {
        assert(uri_text(v) =~= v.path->0);
    } else {
        assert(uri_text(v) =~= Seq::empty());
    }
}

/// The parts that a URI can have: all but perhaps the query, an authority alone, or no site at all.
pub proof fn law_shapes_of_uris(v: UriView)
    ensures
        v.scheme is Some ==> (well_shaped(v) <==> v.authority is Some && v.path is Some),
        v.scheme is None && v.authority is Some ==> (well_shaped(v) <==> v.path is None && v.query
            is None),
        v.scheme is None && v.authority is None && v.path is Some ==> well_shaped(v),
        v.path is None && v.query is Some ==> !well_shaped(v),
{
}

/// Filing a response drops the query of its URI, keeps the scheme and the path, and keeps the
/// authority, too, unless it names the port 443 under HTTPS: behind a host, that port is dropped.
pub proof fn law_processing_drops_query_and_https_port(v: UriView, bare: Seq<char>)
    requires
        is_uri(v),
    ensures
        processed(v).scheme == v.scheme,
        processed(v).path == v.path,
        processed(v).query is None,
        v.authority is None ==> processed(v).authority is None,
        v.scheme != Some("https"@) ==> processed(v).authority == v.authority,
        v.authority is Some && !has_suffix(v.authority->0, ":443"@) ==> processed(v).authority
            == v.authority,
        v.scheme == Some("https"@) && v.authority == Some(bare + ":443"@) && bare.len() > 0
            && bare.last() != '@' ==> processed(v).authority == Some(bare),
        v.authority == Some(bare + ":443"@) && (bare.len() == 0 || bare.last() == '@')
            ==> processed(v).authority == v.authority,
{
    reveal_strlit(":443");
    let a = bare + ":443"@;
    assert(a.take(a.len() - 4) =~= bare);
    assert(a.subrange(a.len() - 4, a.len() as int) =~= ":443"@);
}

/// Responses are filed together only if their URIs differ in nothing but the query and the port 443
/// under HTTPS.
pub proof fn law_processing_tells_apart(v: UriView, w: UriView)
    requires
        is_uri(v),
        is_uri(w),
        processed(v) == processed(w),
    ensures
        v.scheme == w.scheme,
        v.path == w.path,
        v.authority == w.authority || v.scheme == Some("https"@) && v.authority is Some
            && w.authority is Some && (v.authority->0 == w.authority->0 + ":443"@ || w.authority->0
            == v.authority->0 + ":443"@),
{
    reveal_strlit(":443");
    if v.authority is Some && w.authority is Some {
        let a = v.authority->0;
        let b = w.authority->0;
        if has_suffix(a, ":443"@) {
            assert(a =~= a.take(a.len() - 4) + a.subrange(a.len() - 4, a.len() as int));
        }
        if has_suffix(b, ":443"@) {
            assert(b =~= b.take(b.len() - 4) + b.subrange(b.len() - 4, b.len() as int));
        }
    }
}

/// An authority without a colon has no port, and what stands behind the last colon alone tells the
/// port.
pub proof fn law_port_stands_behind_last_colon(before: Seq<char>, behind: Seq<char>)
    requires
        !behind.contains(':'),
    ensures
        port_of(behind) is None,
        port_of(before.push(':') + behind) == u16_of(behind),
{
    lemma_pieces_not_empty(before, ':');
    lemma_one_piece(behind, ':');
    lemma_pieces_joined(before, behind, ':');
}

/// The value of one more digit.
proof fn lemma_digits(digits: Seq<char>, digit: char)
    requires
        '0' <= digit <= '9',
    ensures
        decimal(digits.push(digit)) == decimal(digits) * 10 + (digit as int - '0' as int),
{
    assert(digits.push(digit).drop_last() =~= digits);
}

/// Numbers grow by their digits: a digit is a number, and a digit behind a number makes it ten
/// times as large and adds itself, as long as it fits in sixteen bits.
pub proof fn law_numbers_are_decimal(digits: Seq<char>, digit: char)
    requires
        '0' <= digit <= '9',
        forall|i: int| 0 <= i < digits.len() ==> '0' <= #[trigger] digits[i] <= '9',
    ensures
        u16_of(seq![digit]) == Some((digit as int - '0' as int) as u16),
        u16_of(digits) matches Some(n) ==> u16_of(digits.push(digit)) == if n * 10 + (digit as int
            - '0' as int) <= 65535 {
            Some((n * 10 + (digit as int - '0' as int)) as u16)
        } else {
            None
        },
        digits.len() > 0 && u16_of(digits) is None ==> u16_of(digits.push(digit)) is None,
        digits.len() > 0 ==> u16_of(seq!['+'] + digits) == u16_of(digits),
{
    lemma_digits(digits, digit);
    lemma_digits(Seq::empty(), digit);
    assert(Seq::<char>::empty().push(digit) =~= seq![digit]);
    let more = digits.push(digit);
    assert forall|i: int| 0 <= i < more.len() implies '0' <= #[trigger] more[i] <= '9' by {
        if i < digits.len() {
            assert('0' <= digits[i] <= '9');
        }
    }
    lemma_decimal_is_natural(digits);
    if digits.len() > 0 {
        assert('0' <= digits[0] <= '9');
        assert((seq!['+'] + digits).drop_first() =~= digits);
    }
}

/// The value of digits is not negative.
proof fn lemma_decimal_is_natural(digits: Seq<char>)
    requires
        forall|i: int| 0 <= i < digits.len() ==> '0' <= #[trigger] digits[i] <= '9',
    ensures
        decimal(digits) >= 0,
    decreases digits.len(),
{
    if digits.len() > 0 {
        assert forall|i: int| 0 <= i < digits.drop_last().len() implies '0'
            <= #[trigger] digits.drop_last()[i] <= '9' by {
            assert('0' <= digits[i] <= '9');
        }
        lemma_decimal_is_natural(digits.drop_last());
        assert('0' <= digits[digits.len() - 1] <= '9');
    }
}

/// The host of an authority stands behind the user information and before the port. An IP literal
/// is a host with its brackets, whatever is between them.
pub proof fn law_host_stands_between(user: Seq<char>, host: Seq<char>, behind: Seq<char>)
    requires
        !host.contains('@'),
        !behind.contains('@'),
    ensures
        host_of(user.push('@') + host) == host_of(host),
        !host.contains(':') && (host.len() == 0 || host[0] != '[') ==> host_of(host) == host
            && host_of(host.push(':') + behind) == host,
        !host.contains(']') ==> host_of(seq!['['] + host + seq![']'] + behind) == seq!['['] + host
            + seq![']'],
{
    lemma_pieces_not_empty(user, '@');
    lemma_one_piece(host, '@');
    lemma_pieces_joined(user, host, '@');
    assert(host_and_port(user.push('@') + host) == host_and_port(host));
    if !host.contains(':') && (host.len() == 0 || host[0] != '[') {
        let whole = host.push(':') + behind;
        assert forall|i: int| 0 <= i < whole.len() implies whole[i] != '@' by {
            if i < host.len() {
                assert(host.contains(host[i]));
            } else if i > host.len() {
                assert(behind.contains(behind[i - host.len() - 1]));
            }
        }
        lemma_one_piece(whole, '@');
        lemma_one_piece(host, ':');
        lemma_pieces_joined(host, behind, ':');
    }
    if !host.contains(']') {
        let open = seq!['['] + host;
        let whole = open + seq![']'] + behind;
        assert forall|i: int| 0 <= i < whole.len() implies whole[i] != '@' by {
            if 1 <= i < open.len() {
                assert(host.contains(host[i - 1]));
            } else if i > open.len() {
                assert(behind.contains(behind[i - open.len() - 1]));
            }
        }
        assert forall|i: int| 0 <= i < open.len() implies open[i] != ']' by {
            if i > 0 {
                assert(host.contains(host[i - 1]));
            }
        }
        lemma_one_piece(whole, '@');
        lemma_one_piece(open, ']');
        lemma_pieces_joined(open, behind, ']');
        assert(whole =~= open.push(']') + behind);
        assert(open.push(']') =~= open + seq![']']);
    }
}

/// The host of a URI is that of its authority.
pub proof fn law_host_is_that_of_authority(v: UriView)
    ensures
        v.authority is None ==> uri_host(v) is None,
        v.authority is Some ==> uri_host(v) == Some(host_of(v.authority->0)),
{
}

/// A port is named where there is a host and no port: 80 for `http`, 443 for any other scheme or
/// none. Only the authority changes, and that only where the host with the port is one.
pub proof fn law_missing_port_is_named(v: UriView)
    ensures
        ({
            let w = with_port(v, host_with_port(v));
            let named = host_of(v.authority->0) + if v.scheme == Some("http"@) {
                ":80"@
            } else {
                ":443"@
            };
            &&& w.scheme == v.scheme && w.path == v.path && w.query == v.query
            &&& v.authority is None ==> w == v && host_with_port(v) is None
            &&& v.authority is Some && port_of(v.authority->0) is Some ==> w == v && host_with_port(
                v,
            ) is None
            &&& v.authority is Some && port_of(v.authority->0) is None ==> host_with_port(v) == Some(
                named,
            ) && w.authority == if http_authority(named) {
                Some(named)
            } else {
                v.authority
            }
        }),
{
}

/// A scheme is made of at most 64 letters, digits and the characters `+`, `-`, `.` and `~`.
pub proof fn law_characters_of_schemes(a: Seq<char>, c: char, b: Seq<char>)
    ensures
        is_scheme(Seq::empty()),
        is_scheme(a.push(c) + b) <==> is_scheme(a) && is_scheme(b) && a.len() + 1 + b.len() <= 64
            && ("+-.~"@.contains(c) || '0' <= c <= '9' || 'A' <= c <= 'Z' || 'a' <= c <= 'z'),
{
    reveal_strlit("+-.~");
    let s = a.push(c) + b;
    let signs = "+-.~"@;
    assert(signs =~= seq!['+', '-', '.', '~']);
    assert(signs[0] == '+' && signs[1] == '-' && signs[2] == '.' && signs[3] == '~');
    assert(signs.contains(c) <==> c == '+' || c == '-' || c == '.' || c == '~');
    assert(s[a.len() as int] == c);
    if is_scheme(s) {
        assert(scheme_char(s[a.len() as int]));
        assert forall|i: int| 0 <= i < a.len() implies scheme_char(#[trigger] a[i]) by {
            assert(a[i] == s[i]);
        }
        assert forall|i: int| 0 <= i < b.len() implies scheme_char(#[trigger] b[i]) by {
            assert(b[i] == s[a.len() + 1 + i]);
        }
    }
    if is_scheme(a) && is_scheme(b) && s.len() <= 64 && scheme_char(c) {
        assert forall|i: int| 0 <= i < s.len() implies scheme_char(#[trigger] s[i]) by {
            if i < a.len() {
                assert(s[i] == a[i]);
            } else if i > a.len() {
                assert(s[i] == b[i - a.len() - 1]);
            }
        }
    }
}

/// The characters of a text that may be missing are those of the text, if it is there.
pub proof fn law_optional_text_is_text(text: Option<String>)
    ensures
        text is None ==> optional_text(text) is None,
        text is Some ==> optional_text(text) == Some(text->0@),
{
}

/// A query is set off from the path by a question mark.
pub proof fn law_query_stands_behind_question_mark(path: Seq<char>, query: Seq<char>)
    ensures
        joined(path, None) == path,
        joined(path, Some(query)) == path.push('?') + query,
{
    reveal_strlit("?");
    assert(joined(path, Some(query)) =~= path.push('?') + query);
}

/// The view of parts shows each of them.
pub proof fn law_view_of_parts(parts: Parts)
    ensures
        parts@.scheme == optional_text(parts.scheme),
        parts@.authority == optional_text(parts.authority),
        parts@.path == optional_text(parts.path),
        parts@.query == optional_text(parts.query),
{
}

} // verus!
