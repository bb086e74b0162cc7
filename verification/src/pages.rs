//! What has been recorded, by URL, and how it is laid out in the description of the cache.

use crate::string_map::{
    entries_map, has_key_at, in_order, lemma_entries_list, lemma_finite_map_is_listed,
    lemma_in_order, lemma_list_tells_map, lists, StringMap,
};
use crate::text::{text_before, texts};
use crate::uri::optional_text;
use vstd::prelude::*;

verus! {

/// What is known of a response.
#[derive(Debug)]
pub enum Contents {
    /// It redirects to this URL.
    Redirect(String),
    /// Its body has this hash.
    Hash(String),
    /// Its body is this text.
    Text(String),
}

/// What is known of a response, as characters.
pub enum ContentsView {
    Redirect(Seq<char>),
    Hash(Seq<char>),
    Text(Seq<char>),
}

impl View for Contents {
    type V = ContentsView;

    open spec fn view(&self) -> ContentsView {
        match self {
            Contents::Redirect(s) => ContentsView::Redirect(s@),
            Contents::Hash(s) => ContentsView::Hash(s@),
            Contents::Text(s) => ContentsView::Text(s@),
        }
    }
}

impl Clone for Contents {
    fn clone(&self) -> (r: Self)
        ensures
            r@ == self@,
    {
        match self {
            Contents::Redirect(s) => Contents::Redirect(s.clone()),
            Contents::Hash(s) => Contents::Hash(s.clone()),
            Contents::Text(s) => Contents::Text(s.clone()),
        }
    }
}

/// The responses for one URL.
#[derive(Debug)]
pub struct Page {
    pub contents: Option<Contents>,
    /// The responses to POST requests, by the body of the request.
    pub post_responses: StringMap<Contents>,
}

/// The responses for one URL: that to a request without a body, and those to POST requests.
#[verifier::ext_equal]
pub struct PageView {
    pub contents: Option<ContentsView>,
    pub post_responses: Map<Seq<char>, ContentsView>,
}

/// The view of contents that may be missing.
pub open spec fn optional_contents(o: Option<Contents>) -> Option<ContentsView> {
    match o {
        Some(c) => Some(c@),
        None => None,
    }
}

impl View for Page {
    type V = PageView;

    open spec fn view(&self) -> PageView {
        PageView {
            contents: optional_contents(self.contents),
            post_responses: self.post_responses@.map_values(|c: Contents| c@),
        }
    }
}

/// A page without responses.
pub open spec fn empty_page() -> PageView {
    PageView { contents: None, post_responses: Map::empty() }
}

/// A page with one more response. The response that came first stays.
pub open spec fn page_with(page: PageView, post_body: Option<Seq<char>>, c: ContentsView) -> PageView {
    match post_body {
        Some(body) => if page.post_responses.contains_key(body) {
            page
        } else {
            PageView { post_responses: page.post_responses.insert(body, c), ..page }
        },
        None => if page.contents is Some {
            page
        } else {
            PageView { contents: Some(c), ..page }
        },
    }
}

/// The page of a URL, which is empty for a URL of which nothing is known.
pub open spec fn page_at(pages: Map<Seq<char>, PageView>, url: Seq<char>) -> PageView {
    if pages.contains_key(url) {
        pages[url]
    } else {
        empty_page()
    }
}

/// Pages with one more response for each of some URLs.
pub open spec fn stored(
    pages: Map<Seq<char>, PageView>,
    urls: Seq<Seq<char>>,
    post_body: Option<Seq<char>>,
    c: ContentsView,
) -> Map<Seq<char>, PageView>
    decreases urls.len(),
{
    if urls.len() == 0 {
        pages
    } else {
        let before = stored(pages, urls.drop_last(), post_body, c);
        let url = urls.last();
        before.insert(url, page_with(page_at(before, url), post_body, c))
    }
}

impl Page {
    /// A page without responses.
    pub fn new() -> (r: Self)
        ensures
            r@ == empty_page(),
    {
        let page = Page { contents: None, post_responses: StringMap::new() };
        assert(page@ =~= empty_page());
        page
    }

    /// Adds a response, unless there is one already.
    pub fn add_response(&mut self, post_body: &Option<String>, contents: &Contents)
        ensures
            final(self)@ == page_with(old(self)@, optional_text(*post_body), contents@),
    {
        match post_body {
            Some(body) => {
                if self.post_responses.get(body.as_str()).is_none() {
                    self.post_responses.insert(body.clone(), contents.clone());
                }
            },
            None => {
                if self.contents.is_none() {
                    self.contents = Some(contents.clone());
                }
            },
        }
        assert(self@ =~= page_with(old(self)@, optional_text(*post_body), contents@));
    }
}

/// A response to be kept, and the URLs that lead to it.
#[derive(Debug)]
pub struct Recorded {
    pub urls: Vec<String>,
    /// The body of the request, for a POST request whose body is text.
    pub post_body: Option<String>,
    pub contents: Contents,
}

/// A response to be kept, as characters.
#[verifier::ext_equal]
pub struct RecordedView {
    pub urls: Seq<Seq<char>>,
    pub post_body: Option<Seq<char>>,
    pub contents: ContentsView,
}

impl View for Recorded {
    type V = RecordedView;

    open spec fn view(&self) -> RecordedView {
        RecordedView {
            urls: texts(self.urls@),
            post_body: optional_text(self.post_body),
            contents: self.contents@,
        }
    }
}

/// All that has been recorded.
#[derive(Debug)]
pub struct Pages {
    pages: StringMap<Page>,
}

impl View for Pages {
    type V = Map<Seq<char>, PageView>;

    closed spec fn view(&self) -> Map<Seq<char>, PageView> {
        self.pages@.map_values(|p: Page| p@)
    }
}

impl Pages {
    /// Nothing recorded.
    pub fn new() -> (r: Self)
        ensures
            r@ == Map::<Seq<char>, PageView>::empty(),
    {
        let pages = Pages { pages: StringMap::new() };
        assert(pages@ =~= Map::<Seq<char>, PageView>::empty());
        pages
    }

    /// The page of a URL.
    pub fn page(&self, url: &str) -> (r: Option<&Page>)
        ensures
            match r {
                Some(page) => self@.contains_key(url@) && page@ == self@[url@],
                None => !self@.contains_key(url@),
            },
    {
        self.pages.get(url)
    }

    /// Keeps a response under each of the URLs that lead to it.
    pub fn store(&mut self, recorded: &Recorded)
        ensures
            final(self)@ == stored(
                old(self)@,
                recorded@.urls,
                recorded@.post_body,
                recorded@.contents,
            ),
    {
        let ghost urls = recorded@.urls;
        let n: usize = recorded.urls.len();
        for i in 0..n
            invariant
                n == recorded.urls@.len(),
                urls == recorded@.urls,
                self@ == stored(
                    old(self)@,
                    urls.take(i as int),
                    recorded@.post_body,
                    recorded@.contents,
                ),
        {
            let url = &recorded.urls[i];
            let ghost before = self@;
            let mut page = match self.pages.take(url.as_str()) {
                Some(page) => page,
                None => Page::new(),
            };
            assert(page@ == page_at(before, url@));
            page.add_response(&recorded.post_body, &recorded.contents);
            self.pages.insert(url.clone(), page);
            proof {
                assert(self@ =~= before.insert(url@, page@));
                assert(urls.take(i + 1).drop_last() =~= urls.take(i as int));
                assert(urls.take(i + 1).last() == url@);
            }
        }
        assert(urls.take(n as int) =~= urls);
    }
}

/// The name under which the description keeps a response.
pub open spec fn kind_of(c: ContentsView) -> Seq<char> {
    match c {
        ContentsView::Redirect(_) => "redirect"@,
        ContentsView::Hash(_) => "hash"@,
        ContentsView::Text(_) => "text"@,
    }
}

/// The text that the description keeps of a response.
pub open spec fn text_of(c: ContentsView) -> Seq<char> {
    match c {
        ContentsView::Redirect(s) => s,
        ContentsView::Hash(s) => s,
        ContentsView::Text(s) => s,
    }
}

/// A response in the description: an object with one member, by its name and its text.
pub type Tag = (String, String);

/// A member of a page in the description.
#[derive(Debug)]
pub enum Member {
    /// A string.
    Text(String),
    /// An object that holds responses by the bodies of the requests.
    Responses(Vec<(String, Tag)>),
}

/// A member of the description.
#[derive(Debug)]
pub enum Value {
    /// The version of the layout.
    Version(u64),
    /// An object with these members.
    Page(Vec<(String, Member)>),
}

/// A member of a page in the description, as characters.
pub enum MemberView {
    Text(Seq<char>),
    Responses(Seq<(Seq<char>, (Seq<char>, Seq<char>))>),
}

/// A member of the description, as characters.
pub enum ValueView {
    Version(u64),
    Page(Seq<(Seq<char>, MemberView)>),
}

/// Responses as characters.
pub open spec fn responses_view(s: Seq<(String, Tag)>) -> Seq<(Seq<char>, (Seq<char>, Seq<char>))> {
    s.map_values(|e: (String, Tag)| (e.0@, (e.1.0@, e.1.1@)))
}

impl View for Member {
    type V = MemberView;

    open spec fn view(&self) -> MemberView {
        match self {
            Member::Text(s) => MemberView::Text(s@),
            Member::Responses(v) => MemberView::Responses(responses_view(v@)),
        }
    }
}

/// Members of a page as characters.
pub open spec fn members_view(s: Seq<(String, Member)>) -> Seq<(Seq<char>, MemberView)> {
    s.map_values(|e: (String, Member)| (e.0@, e.1@))
}

impl View for Value {
    type V = ValueView;

    open spec fn view(&self) -> ValueView {
        match self {
            Value::Version(n) => ValueView::Version(*n),
            Value::Page(v) => ValueView::Page(members_view(v@)),
        }
    }
}

/// Members of the description as characters.
pub open spec fn values_view(s: Seq<(String, Value)>) -> Seq<(Seq<char>, ValueView)> {
    s.map_values(|e: (String, Value)| (e.0@, e.1@))
}

/// The responses to POST requests as they are laid out.
pub open spec fn laid_out_responses(responses: Map<Seq<char>, ContentsView>) -> Map<
    Seq<char>,
    (Seq<char>, Seq<char>),
> {
    responses.map_values(|c: ContentsView| (kind_of(c), text_of(c)))
}

/// The members of a page: its response under the name of its kind, where there is one, and the
/// responses to POST requests under `post`, where there are any.
pub open spec fn page_members(page: PageView) -> Seq<(Seq<char>, MemberView)> {
    let contents = match page.contents {
        Some(c) => seq![(kind_of(c), MemberView::Text(text_of(c)))],
        None => Seq::empty(),
    };
    let post = if page.post_responses == Map::<Seq<char>, ContentsView>::empty() {
        Seq::empty()
    } else {
        seq![
            ("post"@, MemberView::Responses(in_order(laid_out_responses(page.post_responses)))),
        ]
    };
    contents + post
}

/// Whether the responses to POST requests are laid out one by one, in the order of the bodies of
/// the requests.
pub open spec fn responses_are_listed(page: PageView) -> bool {
    let laid = laid_out_responses(page.post_responses);
    lists(in_order(laid), laid)
}

/// A page with finitely many responses.
pub open spec fn is_finite_page(page: PageView) -> bool {
    page.post_responses.dom().finite()
}

/// Finitely many pages, each with finitely many responses.
pub open spec fn are_finite_pages(pages: Map<Seq<char>, PageView>) -> bool {
    &&& pages.dom().finite()
    &&& forall|url: Seq<char>| #[trigger] pages.contains_key(url) ==> is_finite_page(pages[url])
}

/// The pages as they are laid out.
pub open spec fn laid_out(pages: Map<Seq<char>, PageView>) -> Map<Seq<char>, ValueView> {
    pages.map_values(|p: PageView| ValueView::Page(page_members(p)))
}

/// The members of the description: the version, then the pages in the order of their URLs.
pub open spec fn description(pages: Map<Seq<char>, PageView>) -> Seq<(Seq<char>, ValueView)> {
    seq![("!version"@, ValueView::Version(1))] + in_order(laid_out(pages))
}

impl Contents {
    /// This response as it is laid out.
    pub fn tag(&self) -> (r: Tag)
        ensures
            r.0@ == kind_of(self@),
            r.1@ == text_of(self@),
    {
        match self {
            Contents::Redirect(s) => ("redirect".to_owned(), s.clone()),
            Contents::Hash(s) => ("hash".to_owned(), s.clone()),
            Contents::Text(s) => ("text".to_owned(), s.clone()),
        }
    }
}

impl Page {
    /// The members of this page in the description.
    pub fn members(&self) -> (r: Vec<(String, Member)>)
        ensures
            members_view(r@) == page_members(self@),
            is_finite_page(self@),
            responses_are_listed(self@),
    {
        let mut members: Vec<(String, Member)> = Vec::new();
        if let Some(contents) = &self.contents {
            let (kind, text) = contents.tag();
            members.push((kind, Member::Text(text)));
        }
        let entries = self.post_responses.entries();
        let n: usize = entries.len();
        let mut responses: Vec<(String, Tag)> = Vec::new();
        for i in 0..n
            invariant
                n == entries@.len(),
                responses@.len() == i,
                forall|j: int|
                    0 <= j < i ==> #[trigger] responses_view(responses@)[j] == (
                        entries@[j].0@,
                        (kind_of(entries@[j].1@), text_of(entries@[j].1@)),
                    ),
        {
            let entry = &entries[i];
            let ghost before = responses_view(responses@);
            responses.push((entry.0.clone(), entry.1.tag()));
            assert(responses_view(responses@) =~= before.push(
                (entry.0@, (kind_of(entry.1@), text_of(entry.1@))),
            ));
        }
        let ghost laid = laid_out_responses(self@.post_responses);
        proof {
            let f = |c: Contents| (kind_of(c@), text_of(c@));
            assert(laid =~= entries_map(entries@).map_values(f));
            lemma_entries_list(entries@, laid, responses_view(responses@), f);
            lemma_in_order(responses_view(responses@), laid);
            assert(self@.post_responses.dom() =~= self.post_responses@.dom());
            if n > 0 {
                assert(laid.contains_key(responses_view(responses@)[0].0));
                assert(self@.post_responses.contains_key(responses_view(responses@)[0].0));
            } else {
                assert(self@.post_responses =~= Map::empty());
            }
        }
        if n > 0 {
            members.push(("post".to_owned(), Member::Responses(responses)));
        }
        assert(members_view(members@) =~= page_members(self@));
        members
    }
}

impl Pages {
    /// The members of the description of the cache. It lists the recorded URLs in their order, and
    /// for each of them the responses to POST requests in the order of the bodies.
    pub fn describe(&self) -> (r: Vec<(String, Value)>)
        ensures
            values_view(r@) == description(self@),
            lists(in_order(laid_out(self@)), laid_out(self@)),
            forall|url: Seq<char>| #[trigger]
                self@.contains_key(url) ==> responses_are_listed(self@[url]),
            are_finite_pages(self@),
    {
        let mut values: Vec<(String, Value)> = Vec::new();
        values.push(("!version".to_owned(), Value::Version(1)));
        let entries = self.pages.entries();
        let n: usize = entries.len();
        for i in 0..n
            invariant
                n == entries@.len(),
                values@.len() == i + 1,
                values_view(values@)[0] == ("!version"@, ValueView::Version(1)),
                forall|j: int|
                    0 <= j < i ==> #[trigger] values_view(values@).skip(1)[j] == (
                        entries@[j].0@,
                        ValueView::Page(page_members(entries@[j].1@)),
                    ),
                forall|j: int|
                    0 <= j < i ==> is_finite_page((#[trigger] entries@[j]).1@)
                        && responses_are_listed(entries@[j].1@),
        {
            let entry = &entries[i];
            let members = entry.1.members();
            let ghost before = values_view(values@);
            values.push((entry.0.clone(), Value::Page(members)));
            assert(values_view(values@) =~= before.push(
                (entry.0@, ValueView::Page(page_members(entry.1@))),
            ));
            assert(values_view(values@).skip(1) =~= before.skip(1).push(
                (entry.0@, ValueView::Page(page_members(entry.1@))),
            ));
        }
        proof {
            let laid = laid_out(self@);
            let listed = values_view(values@).skip(1);
            let f = |p: Page| ValueView::Page(page_members(p@));
            assert(laid =~= entries_map(entries@).map_values(f));
            lemma_entries_list(entries@, laid, listed, f);
            lemma_in_order(listed, laid);
            assert(values_view(values@) =~= description(self@));
            assert forall|url: Seq<char>| #[trigger] self@.contains_key(url) implies is_finite_page(
                self@[url],
            ) && responses_are_listed(self@[url]) by {
                let j = choose|j: int| has_key_at(entries@, url, j);
                assert(self@[url] == entries@[j].1@);
            }
            assert(self@.dom() =~= self.pages@.dom());
        }
        values
    }
}

/// Whether `after` holds every response that `before` holds.
pub open spec fn keeps(before: PageView, after: PageView) -> bool {
    &&& before.contents is Some ==> after.contents == before.contents
    &&& forall|body: Seq<char>| #[trigger]
        before.post_responses.contains_key(body) ==> after.post_responses.contains_key(body)
            && after.post_responses[body] == before.post_responses[body]
}

/// Whether a page holds a response to a request with this body.
pub open spec fn answers(page: PageView, post_body: Option<Seq<char>>) -> bool {
    match post_body {
        Some(body) => page.post_responses.contains_key(body),
        None => page.contents is Some,
    }
}

/// The response that a page holds to a request with this body.
pub open spec fn answer(page: PageView, post_body: Option<Seq<char>>) -> ContentsView
    recommends
        answers(page, post_body),
{
    match post_body {
        Some(body) => page.post_responses[body],
        None => page.contents->0,
    }
}

/// Storing a response loses none that was there before.
pub proof fn law_responses_stay(
    pages: Map<Seq<char>, PageView>,
    urls: Seq<Seq<char>>,
    post_body: Option<Seq<char>>,
    c: ContentsView,
    url: Seq<char>,
)
    requires
        pages.contains_key(url),
    ensures
        stored(pages, urls, post_body, c).contains_key(url),
        keeps(pages[url], stored(pages, urls, post_body, c)[url]),
    decreases urls.len(),
{
    if urls.len() > 0 {
        law_responses_stay(pages, urls.drop_last(), post_body, c, url);
    }
}

/// Storing a response leaves the pages of other URLs as they were.
pub proof fn law_other_pages_untouched(
    pages: Map<Seq<char>, PageView>,
    urls: Seq<Seq<char>>,
    post_body: Option<Seq<char>>,
    c: ContentsView,
    url: Seq<char>,
)
    requires
        !urls.contains(url),
    ensures
        stored(pages, urls, post_body, c).contains_key(url) == pages.contains_key(url),
        page_at(stored(pages, urls, post_body, c), url) == page_at(pages, url),
    decreases urls.len(),
{
    if urls.len() > 0 {
        assert(urls[urls.len() - 1] == urls.last());
        assert forall|i: int| 0 <= i < urls.drop_last().len() implies urls.drop_last()[i]
            != url by {
            assert(urls[i] == urls.drop_last()[i]);
        }
        law_other_pages_untouched(pages, urls.drop_last(), post_body, c, url);
    }
}

/// After a response is stored, each of its URLs has an answer to such a request: that which it had
/// before, else the response.
pub proof fn law_stored_response_is_found(
    pages: Map<Seq<char>, PageView>,
    urls: Seq<Seq<char>>,
    post_body: Option<Seq<char>>,
    c: ContentsView,
    url: Seq<char>,
)
    requires
        urls.contains(url),
    ensures
        stored(pages, urls, post_body, c).contains_key(url),
        answers(stored(pages, urls, post_body, c)[url], post_body),
        answer(stored(pages, urls, post_body, c)[url], post_body) == if answers(
            page_at(pages, url),
            post_body,
        ) {
            answer(page_at(pages, url), post_body)
        } else {
            c
        },
    decreases urls.len(),
{
    let rest = urls.drop_last();
    if rest.contains(url) {
        law_stored_response_is_found(pages, rest, post_body, c, url);
    } else {
        assert(url == urls.last()) by {
            let i = choose|i: int| 0 <= i < urls.len() && urls[i] == url;
            if i < urls.len() - 1 {
                assert(rest[i] == url);
            }
        }
        law_other_pages_untouched(pages, rest, post_body, c, url);
    }
}

/// Where every URL already has an answer to such a request, storing a response changes nothing.
proof fn lemma_answered_stays(
    pages: Map<Seq<char>, PageView>,
    urls: Seq<Seq<char>>,
    post_body: Option<Seq<char>>,
    c: ContentsView,
)
    requires
        forall|i: int|
            0 <= i < urls.len() ==> pages.contains_key(#[trigger] urls[i]) && answers(
                pages[urls[i]],
                post_body,
            ),
    ensures
        stored(pages, urls, post_body, c) == pages,
    decreases urls.len(),
{
    if urls.len() > 0 {
        assert forall|i: int| 0 <= i < urls.drop_last().len() implies pages.contains_key(
            #[trigger] urls.drop_last()[i],
        ) && answers(pages[urls.drop_last()[i]], post_body) by {
            assert(urls[i] == urls.drop_last()[i]);
        }
        lemma_answered_stays(pages, urls.drop_last(), post_body, c);
        assert(urls[urls.len() - 1] == urls.last());
        assert(stored(pages, urls, post_body, c) =~= pages);
    }
}

/// The first response wins: once a response is stored, storing the same or another one for the
/// same requests changes nothing.
pub proof fn law_first_response_wins(
    pages: Map<Seq<char>, PageView>,
    urls: Seq<Seq<char>>,
    post_body: Option<Seq<char>>,
    c: ContentsView,
    d: ContentsView,
)
    ensures
        stored(stored(pages, urls, post_body, c), urls, post_body, d) == stored(
            pages,
            urls,
            post_body,
            c,
        ),
{
    let once = stored(pages, urls, post_body, c);
    assert forall|i: int| 0 <= i < urls.len() implies once.contains_key(#[trigger] urls[i])
        && answers(once[urls[i]], post_body) by {
        law_stored_response_is_found(pages, urls, post_body, c, urls[i]);
    }
    lemma_answered_stays(once, urls, post_body, d);
}

/// How a response is laid out tells the response.
proof fn lemma_tag_tells_response(c: ContentsView, d: ContentsView)
    requires
        kind_of(c) == kind_of(d),
        text_of(c) == text_of(d),
    ensures
        c == d,
{
    reveal_strlit("redirect");
    reveal_strlit("hash");
    reveal_strlit("text");
    assert("redirect"@[0] != "hash"@[0] && "hash"@[0] != "text"@[0] && "text"@[0]
        != "redirect"@[0]);
}

/// How a page is laid out tells the page.
proof fn lemma_members_tell_page(a: PageView, b: PageView)
    requires
        is_finite_page(a),
        is_finite_page(b),
        page_members(a) == page_members(b),
    ensures
        a == b,
{
    let members = page_members(a);
    let la = laid_out_responses(a.post_responses);
    let lb = laid_out_responses(b.post_responses);
    let none = Map::<Seq<char>, ContentsView>::empty();
    if a.contents is Some {
        assert(members[0].1 is Text);
        assert(b.contents is Some);
        lemma_tag_tells_response(a.contents->0, b.contents->0);
    } else if b.contents is Some {
        assert(page_members(b)[0].1 is Text);
    }
    assert(a.contents == b.contents);
    if a.post_responses != none {
        assert(members.last().1 == MemberView::Responses(in_order(la)));
        assert(b.post_responses != none);
        assert(page_members(b).last().1 == MemberView::Responses(in_order(lb)));
        assert(la.dom() =~= a.post_responses.dom());
        assert(lb.dom() =~= b.post_responses.dom());
        lemma_finite_map_is_listed(la);
        lemma_finite_map_is_listed(lb);
        lemma_list_tells_map(in_order(la), la, lb);
        assert forall|body: Seq<char>| #[trigger]
            a.post_responses.contains_key(body) implies a.post_responses[body]
            == b.post_responses[body] by {
            assert(la.contains_key(body) && lb.contains_key(body));
            assert(la[body] == lb[body]);
            lemma_tag_tells_response(a.post_responses[body], b.post_responses[body]);
        }
        assert(a.post_responses =~= b.post_responses);
    }
}

/// The description tells all that has been recorded: equal descriptions are those of equal pages.
pub proof fn law_description_tells_pages(
    a: Map<Seq<char>, PageView>,
    b: Map<Seq<char>, PageView>,
)
    requires
        are_finite_pages(a),
        are_finite_pages(b),
        description(a) == description(b),
    ensures
        a == b,
{
    let la = laid_out(a);
    let lb = laid_out(b);
    assert(description(a).skip(1) =~= in_order(la));
    assert(description(b).skip(1) =~= in_order(lb));
    assert(la.dom() =~= a.dom());
    assert(lb.dom() =~= b.dom());
    lemma_finite_map_is_listed(la);
    lemma_finite_map_is_listed(lb);
    lemma_list_tells_map(in_order(la), la, lb);
    assert forall|url: Seq<char>| #[trigger] a.contains_key(url) implies a[url] == b[url] by {
        assert(la.contains_key(url) && lb.contains_key(url));
        assert(la[url] == lb[url]);
        lemma_members_tell_page(a[url], b[url]);
    }
    assert(a =~= b);
}

/// Storing a response adds it to the pages of its URLs, and nothing else to them: a response to a
/// POST request under its body, any other as the contents of the page. What is there already stays.
pub proof fn law_storing_adds_one_response(
    pages: Map<Seq<char>, PageView>,
    urls: Seq<Seq<char>>,
    post_body: Option<Seq<char>>,
    c: ContentsView,
    url: Seq<char>,
)
    ensures
        ({
            let after = stored(pages, urls, post_body, c);
            let known = pages.contains_key(url);
            let contents = if known { pages[url].contents } else { None };
            let responses = if known { pages[url].post_responses } else { Map::empty() };
            &&& after.contains_key(url) <==> known || urls.contains(url)
            &&& known && !urls.contains(url) ==> after[url] == pages[url]
            &&& urls.contains(url) && post_body is None ==> {
                &&& after[url].post_responses == responses
                &&& after[url].contents == if contents is Some { contents } else { Some(c) }
            }
            &&& urls.contains(url) && post_body is Some ==> {
                &&& after[url].contents == contents
                &&& responses.contains_key(post_body->0) ==> after[url].post_responses == responses
                &&& !responses.contains_key(post_body->0) ==> after[url].post_responses
                    == responses.insert(post_body->0, c)
            }
        }),
    decreases urls.len(),
{
    if urls.len() > 0 {
        let rest = urls.drop_last();
        law_storing_adds_one_response(pages, rest, post_body, c, url);
        assert(urls[urls.len() - 1] == urls.last());
        if rest.contains(url) {
            let i = choose|i: int| 0 <= i < rest.len() && rest[i] == url;
            assert(urls[i] == url);
        }
        if urls.contains(url) && !rest.contains(url) {
            let i = choose|i: int| 0 <= i < urls.len() && urls[i] == url;
            if i < urls.len() - 1 {
                assert(rest[i] == url);
            }
        }
    }
}

/// A response is laid out under the name of what is known of it.
pub proof fn law_responses_are_named_by_kind(text: Seq<char>)
    ensures
        kind_of(ContentsView::Redirect(text)) == "redirect"@,
        kind_of(ContentsView::Hash(text)) == "hash"@,
        kind_of(ContentsView::Text(text)) == "text"@,
        text_of(ContentsView::Redirect(text)) == text,
        text_of(ContentsView::Hash(text)) == text,
        text_of(ContentsView::Text(text)) == text,
{
}

/// A page without responses to POST requests is laid out as what is known of its response, and as
/// nothing where nothing is known.
pub proof fn law_page_without_posts_is_its_response(page: PageView)
    requires
        forall|body: Seq<char>| !page.post_responses.contains_key(body),
    ensures
        page.contents is None ==> page_members(page) == Seq::<(Seq<char>, MemberView)>::empty(),
        page.contents matches Some(ContentsView::Redirect(t)) ==> page_members(page) == seq![
            ("redirect"@, MemberView::Text(t)),
        ],
        page.contents matches Some(ContentsView::Hash(t)) ==> page_members(page) == seq![
            ("hash"@, MemberView::Text(t)),
        ],
        page.contents matches Some(ContentsView::Text(t)) ==> page_members(page) == seq![
            ("text"@, MemberView::Text(t)),
        ],
{
    assert(page.post_responses =~= Map::empty());
    if page.contents is Some {
        let c = page.contents->0;
        assert(page_members(page) =~= seq![(kind_of(c), MemberView::Text(text_of(c)))]);
    } else {
        assert(page_members(page) =~= Seq::empty());
    }
}

/// Responses to POST requests are laid out under `post`, behind what else there is: every one of
/// them, by the body of the request, in the order of the bodies.
pub proof fn law_posts_are_laid_out_in_full(page: PageView, body: Seq<char>)
    requires
        is_finite_page(page),
        page.post_responses.contains_key(body),
    ensures
        page_members(page).len() > 0,
        page_members(page).drop_last() == page_members(
            PageView { post_responses: Map::empty(), ..page },
        ),
        page_members(page).last().0 == "post"@,
        page_members(page).last().1 matches MemberView::Responses(r) && {
            &&& forall|i: int, j: int|
                0 <= i < j < r.len() ==> text_before((#[trigger] r[i]).0, (#[trigger] r[j]).0)
            &&& forall|i: int|
                0 <= i < r.len() ==> page.post_responses.contains_key((#[trigger] r[i]).0) && r[i].1
                    == (
                    kind_of(page.post_responses[r[i].0]),
                    text_of(page.post_responses[r[i].0]),
                )
            &&& exists|i: int| 0 <= i < r.len() && (#[trigger] r[i]).0 == body
        },
{
    let laid = laid_out_responses(page.post_responses);
    let none = Map::<Seq<char>, ContentsView>::empty();
    assert(!none.contains_key(body));
    assert(laid.dom() =~= page.post_responses.dom());
    lemma_finite_map_is_listed(laid);
    let r = in_order(laid);
    let m = page_members(page);
    assert(m.last() == ("post"@, MemberView::Responses(r)));
    assert(m.drop_last() =~= page_members(PageView { post_responses: none, ..page }));
    assert forall|i: int| 0 <= i < r.len() implies page.post_responses.contains_key(
        (#[trigger] r[i]).0,
    ) && r[i].1 == (
        kind_of(page.post_responses[r[i].0]),
        text_of(page.post_responses[r[i].0]),
    ) by {
        assert(laid.contains_key(r[i].0));
    }
    assert(laid.contains_key(body));
    assert(m.last().1 is Responses && m.last().1->Responses_0 == r);
    assert(exists|i: int| 0 <= i < r.len() && (#[trigger] r[i]).0 == body);
    assert(forall|i: int, j: int|
        0 <= i < j < r.len() ==> text_before((#[trigger] r[i]).0, (#[trigger] r[j]).0));
}

/// The description is the version, which is 1, and behind it every page under its URL, in the order
/// of the URLs.
pub proof fn law_description_lists_every_page(pages: Map<Seq<char>, PageView>)
    requires
        are_finite_pages(pages),
    ensures
        ({
            let d = description(pages);
            &&& d.len() > 0
            &&& d[0] == ("!version"@, ValueView::Version(1))
            &&& forall|i: int, j: int|
                1 <= i < j < d.len() ==> text_before((#[trigger] d[i]).0, (#[trigger] d[j]).0)
            &&& forall|i: int|
                1 <= i < d.len() ==> pages.contains_key((#[trigger] d[i]).0) && d[i].1
                    == ValueView::Page(page_members(pages[d[i].0]))
            &&& forall|url: Seq<char>| #[trigger]
                pages.contains_key(url) ==> exists|i: int|
                    1 <= i < d.len() && (#[trigger] d[i]).0 == url
        }),
{
    let laid = laid_out(pages);
    assert(laid.dom() =~= pages.dom());
    lemma_finite_map_is_listed(laid);
    let d = description(pages);
    let r = in_order(laid);
    assert forall|i: int, j: int| 1 <= i < j < d.len() implies text_before(
        (#[trigger] d[i]).0,
        (#[trigger] d[j]).0,
    ) by {
        assert(d[i] == r[i - 1] && d[j] == r[j - 1]);
    }
    assert forall|i: int| 1 <= i < d.len() implies pages.contains_key((#[trigger] d[i]).0) && d[i].1
        == ValueView::Page(page_members(pages[d[i].0])) by {
        assert(d[i] == r[i - 1]);
        assert(laid.contains_key(r[i - 1].0));
    }
    assert forall|url: Seq<char>| #[trigger] pages.contains_key(url) implies exists|i: int|
        1 <= i < d.len() && (#[trigger] d[i]).0 == url by {
        assert(laid.contains_key(url));
        let k = choose|k: int| 0 <= k < r.len() && (#[trigger] r[k]).0 == url;
        assert(d[k + 1] == r[k]);
    }
}

/// The view of a response shows what is known of it.
pub proof fn law_view_of_contents(text: String)
    ensures
        Contents::Redirect(text)@ == ContentsView::Redirect(text@),
        Contents::Hash(text)@ == ContentsView::Hash(text@),
        Contents::Text(text)@ == ContentsView::Text(text@),
{
}

/// The view of a page shows all its responses.
pub proof fn law_view_of_page(page: Page, body: Seq<char>)
    ensures
        page.contents is None ==> page@.contents is None,
        page.contents matches Some(c) ==> page@.contents == Some(c@),
        page@.post_responses.contains_key(body) == page.post_responses@.contains_key(body),
        page.post_responses@.contains_key(body) ==> page@.post_responses[body]
            == page.post_responses@[body]@,
{
}

/// The view of what is recorded shows its URLs, the body of the request and the response.
pub proof fn law_view_of_recorded(recorded: Recorded)
    ensures
        recorded@.urls == texts(recorded.urls@),
        recorded@.post_body == optional_text(recorded.post_body),
        recorded@.contents == recorded.contents@,
{
}

/// The view of a description shows every member, whatever its depth.
pub proof fn law_view_of_description(
    values: Seq<(String, Value)>,
    members: Vec<(String, Member)>,
    responses: Vec<(String, Tag)>,
    text: String,
    version: u64,
    i: int,
)
    ensures
        values_view(values).len() == values.len(),
        0 <= i < values.len() ==> values_view(values)[i] == (values[i].0@, values[i].1@),
        Value::Version(version)@ == ValueView::Version(version),
        Value::Page(members)@ == ValueView::Page(members_view(members@)),
        members_view(members@).len() == members@.len(),
        0 <= i < members@.len() ==> members_view(members@)[i] == (members@[i].0@, members@[i].1@),
        Member::Text(text)@ == MemberView::Text(text@),
        Member::Responses(responses)@ == MemberView::Responses(responses_view(responses@)),
        responses_view(responses@).len() == responses@.len(),
        0 <= i < responses@.len() ==> responses_view(responses@)[i] == (
            responses@[i].0@,
            (responses@[i].1.0@, responses@[i].1.1@),
        ),
{
}

} // verus!
