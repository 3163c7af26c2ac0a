//! The walk over the pages of the catalog: which request comes next, and
//! what has been gathered once the last page is in.
//!
//! Sending a request and decoding its body is the caller's part. It starts
//! with [`Fetch::new`], sends what [`Fetch::request`] names, and reports the
//! outcome to [`get_urls`], until the walk is over.

use vstd::prelude::*;
use vstd::string::*;
use crate::text::{chars_of, push_char, spec_texts};

verus! {

/// One entry of a page of the catalog.
#[derive(Clone, Debug)]
pub struct SiteData {
    pub url: String,
}

/// Why the catalog could not be read. Either ends the whole walk.
#[derive(Clone, Copy, Debug, PartialEq, Eq, Structural)]
pub enum FetchError {
    /// A request could not be completed.
    Network,
    /// A body was not a list of entries with a `url` each.
    Decode,
}

/// A request for one page: the URL, and the parameters to add to its query.
#[derive(Clone, Debug)]
pub struct PageRequest {
    pub url: String,
    pub query: Vec<(&'static str, &'static str)>,
}

pub struct PageRequestView {
    pub url: Seq<char>,
    pub query: Seq<(Seq<char>, Seq<char>)>,
}

impl View for PageRequest {
    type V = PageRequestView;

    open spec fn view(&self) -> PageRequestView {
        PageRequestView {
            url: self.url@,
            query: self.query@.map_values(|p: (&'static str, &'static str)| (p.0@, p.1@)),
        }
    }
}

/// What came back for the request that was due.
#[derive(Clone, Debug)]
pub enum FetchEvent {
    /// A page: the value of its `Link` header, if it has one, and its
    /// entries in the order of the body.
    Page { link: Option<Vec<u8>>, items: Vec<SiteData> },
    /// The request could not be completed.
    NetworkFailure,
    /// The body could not be decoded.
    DecodeFailure,
}

pub enum FetchEventView {
    Page { link: Option<Seq<u8>>, urls: Seq<Seq<char>> },
    NetworkFailure,
    DecodeFailure,
}

impl View for FetchEvent {
    type V = FetchEventView;

    open spec fn view(&self) -> FetchEventView {
        match self {
            FetchEvent::Page { link, items } => FetchEventView::Page {
                link: match link {
                    Some(bytes) => Some(bytes@),
                    None => None,
                },
                urls: spec_urls(items@),
            },
            FetchEvent::NetworkFailure => FetchEventView::NetworkFailure,
            FetchEvent::DecodeFailure => FetchEventView::DecodeFailure,
        }
    }
}

/// Where the walk stands.
#[derive(Clone, Debug)]
pub enum Fetch {
    /// `request` is due; `urls` is what the pages so far held.
    Requesting { request: PageRequest, urls: Vec<String> },
    /// The last page is in.
    Done { urls: Vec<String> },
    /// The walk was given up, and nothing of what it gathered is kept.
    Failed(FetchError),
}

pub enum FetchView {
    Requesting { request: PageRequestView, urls: Seq<Seq<char>> },
    Done { urls: Seq<Seq<char>> },
    Failed(FetchError),
}

impl View for Fetch {
    type V = FetchView;

    open spec fn view(&self) -> FetchView {
        match self {
            Fetch::Requesting { request, urls } => FetchView::Requesting {
                request: request@,
                urls: spec_texts(urls@),
            },
            Fetch::Done { urls } => FetchView::Done { urls: spec_texts(urls@) },
            Fetch::Failed(e) => FetchView::Failed(*e),
        }
    }
}

/// The URLs of the entries `items`, in their order.
pub open spec fn spec_urls(items: Seq<SiteData>) -> Seq<Seq<char>> {
    items.map_values(|item: SiteData| item.url@)
}

/// A byte that may stand in a header value that is read as text: a visible
/// ASCII character, a space or a tab.
pub open spec fn spec_visible_ascii(b: u8) -> bool {
    (32 <= b < 127) || b == 9
}

/// The text of a header value, if all of its bytes may stand in a text.
pub open spec fn spec_header_text(value: Seq<u8>) -> Option<Seq<char>> {
    if forall|i: int| 0 <= i < value.len() ==> spec_visible_ascii(#[trigger] value[i]) {
        Some(Seq::new(value.len(), |i: int| value[i] as char))
    } else {
        None
    }
}

/// What follows the URL in a link to the next page.
pub open spec fn spec_next_marker() -> Seq<char> {
    ">; rel=\"next\""@
}

/// A character that may stand in the URL of a link: any but the angle
/// brackets, the double quote, the space and the tab.
pub open spec fn spec_link_char(c: char) -> bool {
    c != '<' && c != '>' && c != '"' && c != ' ' && c != '\t'
}

/// `url` may stand between the angle brackets of a link: it is made of
/// characters that may stand there, so that the link is one link and not
/// several.
pub open spec fn spec_link_url(url: Seq<char>) -> bool {
    forall|i: int| 0 <= i < url.len() ==> spec_link_char(#[trigger] url[i])
}

/// The URL of a link to the next page: `text` is `<`, the URL, and the
/// marker of the relation `next`, with nothing before, between or after,
/// and the URL holds no angle bracket, double quote, space or tab.
pub open spec fn spec_strip_link(text: Seq<char>) -> Option<Seq<char>> {
    let marker = spec_next_marker();
    if text.len() >= 1 + marker.len() && text[0] == '<' && text.subrange(
        text.len() - marker.len(),
        text.len() as int,
    ) == marker && spec_link_url(text.subrange(1, text.len() - marker.len())) {
        Some(text.subrange(1, text.len() - marker.len()))
    } else {
        None
    }
}

/// The URL of the next page that the value `link` of a `Link` header names,
/// `link` being `None` where the response has no such header.
pub open spec fn spec_next_link(link: Option<Seq<u8>>) -> Option<Seq<char>> {
    match link {
        None => None,
        Some(value) => match spec_header_text(value) {
            None => None,
            Some(text) => spec_strip_link(text),
        },
    }
}

/// Reads the URL of the next page out of the value of the response's `Link`
/// header. Any value that is not exactly `<URL>; rel="next"`, with a URL
/// that holds no angle bracket, double quote, space or tab, names no next
/// page: so does a value that holds more than one link.
pub fn get_link_header(link: Option<&[u8]>) -> (next: Option<String>)
    ensures
        match next {
            Some(url) => spec_next_link(spec_link_bytes(link)) == Some(url@),
            None => spec_next_link(spec_link_bytes(link)) is None,
        },
{
    let value = match link {
        Some(value) => value,
        None => {
            return None;
        },
    };
    let len = value.len();
    let mut i: usize = 0;
    while i < len
        invariant
            i <= len,
            len == value@.len(),
            spec_link_bytes(link) == Some(value@),
            forall|k: int| 0 <= k < i ==> spec_visible_ascii(#[trigger] value@[k]),
        decreases len - i,
    {
        let b: u8 = value[i];
        if !((32 <= b && b < 127) || b == 9) {
            assert(!spec_visible_ascii(value@[i as int]));
            return None;
        }
        i += 1;
    }
    let ghost text = spec_header_text(value@)->0;
    let marker = chars_of(">; rel=\"next\"");
    let m = marker.len();
    if len <= m || value[0] != 60 {
        assert(text.len() < 1 + marker@.len() || text[0] != '<');
        return None;
    }
    let tail = len - m;
    let mut k: usize = 0;
    while k < m
        invariant
            k <= m,
            m == marker@.len(),
            tail + m == len,
            len == value@.len(),
            text == Seq::new(value@.len(), |i: int| value@[i] as char),
            spec_header_text(value@) == Some(text),
            spec_link_bytes(link) == Some(value@),
            marker@ == spec_next_marker(),
            value@[0] == 60,
            forall|j: int| 0 <= j < k ==> text[tail + j] == marker@[j],
        decreases m - k,
    {
        if value[tail + k] as char != marker[k] {
            assert(text.subrange(text.len() - marker@.len(), text.len() as int)[k as int]
                != marker@[k as int]);
            return None;
        }
        k += 1;
    }
    assert(text.subrange(text.len() - marker@.len(), text.len() as int) =~= marker@);
    let mut url = String::new();
    let mut j: usize = 1;
    while j < tail
        invariant
            1 <= j <= tail <= len,
            len == value@.len(),
            m == marker@.len(),
            tail + m == len,
            text == Seq::new(value@.len(), |i: int| value@[i] as char),
            spec_header_text(value@) == Some(text),
            spec_link_bytes(link) == Some(value@),
            marker@ == spec_next_marker(),
            url@ == text.subrange(1, j as int),
            forall|k: int| 1 <= k < j ==> spec_link_char(#[trigger] text[k]),
        decreases tail - j,
    {
        let b: u8 = value[j];
        if b == 60 || b == 62 || b == 34 || b == 32 || b == 9 {
            assert(!spec_link_char(text[j as int]));
            assert(text.subrange(1, tail as int)[j - 1] == text[j as int]);
            return None;
        }
        push_char(&mut url, b as char);
        j += 1;
    }
    assert(spec_link_url(text.subrange(1, tail as int))) by {
        assert forall|k: int| 0 <= k < tail - 1 implies spec_link_char(
            #[trigger] text.subrange(1, tail as int)[k],
        ) by {
            assert(spec_link_char(text[k + 1]));
        }
    }
    Some(url)
}

/// The bytes of a header's value, if there is one.
pub open spec fn spec_link_bytes(link: Option<&[u8]>) -> Option<Seq<u8>> {
    match link {
        Some(value) => Some(value@),
        None => None,
    }
}

/// The URLs of the entries of one page, in the order of the page.
pub fn get_data(items: Vec<SiteData>) -> (urls: Vec<String>)
    ensures
        spec_texts(urls@) == spec_urls(items@),
{
    let mut urls: Vec<String> = Vec::new();
    let ghost all = items@;
    for item in it: items
        invariant
            it.seq() == all,
            spec_texts(urls@) == spec_urls(all.take(it.index() as int)),
    {
        let ghost before = urls@;
        let ghost idx = it.index() as int;
        let ghost text = item.url@;
        assert(item == all[idx]);
        urls.push(item.url);
        assert(spec_texts(urls@) =~= spec_urls(all.take(idx + 1))) by {
            assert(spec_texts(urls@) =~= spec_texts(before).push(text));
            assert(all.take(idx + 1) =~= all.take(idx).push(all[idx]));
            assert(spec_urls(all.take(idx).push(all[idx])) =~= spec_urls(all.take(idx)).push(text));
        }
    }
    assert(all.take(all.len() as int) =~= all);
    urls
}

/// Where the catalog is asked for.
pub const CATALOG_URL: &'static str = "https://api.rhythm.cafe/datasette/combined/levels.json";

/// The parameters of the first request: a plain list, the `url` column only,
/// pages as large as may be; and, if only peer-reviewed levels are wanted,
/// the filter for levels that have an approval.
pub open spec fn spec_initial_query(verified_only: bool) -> Seq<(Seq<char>, Seq<char>)> {
    let base = seq![("_shape"@, "array"@), ("_col"@, "url"@), ("_size"@, "max"@)];
    if verified_only {
        base.push(("approval__gt"@, "0"@))
    } else {
        base
    }
}

/// The walk before its first request.
pub open spec fn spec_start(verified_only: bool) -> FetchView {
    FetchView::Requesting {
        request: PageRequestView {
            url: "https://api.rhythm.cafe/datasette/combined/levels.json"@,
            query: spec_initial_query(verified_only),
        },
        urls: Seq::empty(),
    }
}

/// The walk after `event` came back for the request that was due in `state`.
/// A page adds its URLs to those gathered, and its link decides whether a
/// request for the linked URL, as it stands, is due next or the walk is over.
/// A failure ends the walk. A walk that is over stays as it is.
pub open spec fn spec_step(state: FetchView, event: FetchEventView) -> FetchView {
    match state {
        FetchView::Requesting { request, urls } => match event {
            FetchEventView::Page { link, urls: page } => match spec_next_link(link) {
                Some(next) => FetchView::Requesting {
                    request: PageRequestView { url: next, query: Seq::empty() },
                    urls: urls + page,
                },
                None => FetchView::Done { urls: urls + page },
            },
            FetchEventView::NetworkFailure => FetchView::Failed(FetchError::Network),
            FetchEventView::DecodeFailure => FetchView::Failed(FetchError::Decode),
        },
        _ => state,
    }
}

impl Fetch {
    /// Starts a walk. With `verified_only`, the first request asks for
    /// peer-reviewed levels only.
    pub fn new(verified_only: bool) -> (state: Fetch)
        ensures
            state@ == spec_start(verified_only),
    {
        let mut query: Vec<(&'static str, &'static str)> = Vec::new();
        query.push(("_shape", "array"));
        query.push(("_col", "url"));
        query.push(("_size", "max"));
        if verified_only {
            query.push(("approval__gt", "0"));
        }
        let request = PageRequest { url: CATALOG_URL.to_owned(), query };
        assert(request@.query =~= spec_initial_query(verified_only));
        let urls: Vec<String> = Vec::new();
        assert(spec_texts(urls@) =~= Seq::<Seq<char>>::empty());
        Fetch::Requesting { request, urls }
    }

    /// The request that is due, if the walk is not over.
    pub fn request(&self) -> (due: Option<&PageRequest>)
        ensures
            match due {
                Some(request) => self@ is Requesting && self@->Requesting_request == request@,
                None => !(self@ is Requesting),
            },
    {
        match self {
            Fetch::Requesting { request, .. } => Some(request),
            _ => None,
        }
    }

    /// The URLs of all pages, once the last page is in; the error, if the
    /// walk was given up; nothing while a request is due.
    pub fn finish(self) -> (outcome: Option<Result<Vec<String>, FetchError>>)
        ensures
            match outcome {
                Some(Ok(urls)) => self@ == (FetchView::Done { urls: spec_texts(urls@) }),
                Some(Err(e)) => self@ == FetchView::Failed(e),
                None => self@ is Requesting,
            },
    {
        match self {
            Fetch::Requesting { .. } => None,
            Fetch::Done { urls } => Some(Ok(urls)),
            Fetch::Failed(e) => Some(Err(e)),
        }
    }
}

/// One step of the walk over the catalog: takes what came back for the
/// request that was due, and says what is due next.
pub fn get_urls(state: Fetch, event: FetchEvent) -> (next: Fetch)
    ensures
        next@ == spec_step(state@, event@),
{
    match state {
        Fetch::Requesting { request, urls } => match event {
            FetchEvent::Page { link, items } => {
                let ghost gathered = spec_texts(urls@);
                let ghost page_urls = spec_urls(items@);
                let next = match &link {
                    Some(bytes) => get_link_header(Some(bytes.as_slice())),
                    None => get_link_header(None),
                };
                let mut urls = urls;
                let mut page = get_data(items);
                let ghost before = urls@;
                let ghost added = page@;
                urls.append(&mut page);
                assert(spec_texts(urls@) =~= gathered + page_urls) by {
                    assert(urls@ == before + added);
                    assert(spec_texts(before + added) =~= spec_texts(before) + spec_texts(added));
                }
                match next {
                    Some(url) => {
                        let query: Vec<(&'static str, &'static str)> = Vec::new();
                        let request = PageRequest { url, query };
                        assert(request@.query =~= Seq::<(Seq<char>, Seq<char>)>::empty());
                        Fetch::Requesting { request, urls }
                    },
                    None => Fetch::Done { urls },
                }
            },
            FetchEvent::NetworkFailure => Fetch::Failed(FetchError::Network),
            FetchEvent::DecodeFailure => Fetch::Failed(FetchError::Decode),
        },
        Fetch::Done { urls } => Fetch::Done { urls },
        Fetch::Failed(e) => Fetch::Failed(e),
    }
}

/// The walk after the events `events`, taken in order from `state`.
pub open spec fn spec_run(state: FetchView, events: Seq<FetchEventView>) -> FetchView
    decreases events.len(),
{
    if events.len() == 0 {
        state
    } else {
        spec_run(spec_step(state, events[0]), events.drop_first())
    }
}

/// The pages `pages`, each a link and its URLs, as events.
pub open spec fn spec_pages(pages: Seq<(Option<Seq<u8>>, Seq<Seq<char>>)>) -> Seq<FetchEventView> {
    pages.map_values(
        |page: (Option<Seq<u8>>, Seq<Seq<char>>)| FetchEventView::Page { link: page.0, urls: page.1 },
    )
}

/// The URLs of `pages`, page after page.
pub open spec fn spec_all_urls(pages: Seq<(Option<Seq<u8>>, Seq<Seq<char>>)>) -> Seq<Seq<char>>
    decreases pages.len(),
{
    if pages.len() == 0 {
        Seq::empty()
    } else {
        pages[0].1 + spec_all_urls(pages.drop_first())
    }
}

/// `pages` is what a catalog of that many pages sends: every page but the
/// last links to a next one, and the last does not.
pub open spec fn spec_linked(pages: Seq<(Option<Seq<u8>>, Seq<Seq<char>>)>) -> bool {
    &&& pages.len() >= 1
    &&& forall|i: int| 0 <= i < pages.len() - 1 ==> spec_next_link((#[trigger] pages[i]).0) is Some
    &&& spec_next_link(pages[pages.len() - 1].0) is None
}

/// A walk over any number of pages ends with the URLs of all of them, page
/// after page and in the order within each page, whether or not the filter
/// was asked for. One page that is empty gives no URLs.
pub proof fn lemma_fetch_concatenates_pages(
    verified_only: bool,
    pages: Seq<(Option<Seq<u8>>, Seq<Seq<char>>)>,
)
    requires
        spec_linked(pages),
    ensures
        spec_run(spec_start(verified_only), spec_pages(pages)) == (FetchView::Done {
            urls: spec_all_urls(pages),
        }),
{
    let start = spec_start(verified_only);
    lemma_run_pages(start->Requesting_request, Seq::empty(), pages);
    assert(Seq::<Seq<char>>::empty() + spec_all_urls(pages) =~= spec_all_urls(pages));
}

proof fn lemma_run_pages(
    request: PageRequestView,
    urls: Seq<Seq<char>>,
    pages: Seq<(Option<Seq<u8>>, Seq<Seq<char>>)>,
)
    requires
        spec_linked(pages),
    ensures
        spec_run(FetchView::Requesting { request, urls }, spec_pages(pages)) == (FetchView::Done {
            urls: urls + spec_all_urls(pages),
        }),
    decreases pages.len(),
{
    let state = FetchView::Requesting { request, urls };
    let events = spec_pages(pages);
    let rest = pages.drop_first();
    assert(events.drop_first() =~= spec_pages(rest));
    assert(events[0] == (FetchEventView::Page { link: pages[0].0, urls: pages[0].1 }));
    if pages.len() == 1 {
        assert(spec_all_urls(rest) =~= Seq::<Seq<char>>::empty());
        assert(urls + pages[0].1 =~= urls + spec_all_urls(pages));
        assert(spec_run(spec_step(state, events[0]), spec_pages(rest)) == spec_step(
            state,
            events[0],
        ));
    } else {
        assert(spec_linked(rest)) by {
            assert forall|i: int| 0 <= i < rest.len() - 1 implies spec_next_link(
                (#[trigger] rest[i]).0,
            ) is Some by {
                assert(rest[i] == pages[i + 1]);
            }
            assert(rest[rest.len() - 1] == pages[pages.len() - 1]);
        }
        let next = spec_next_link(pages[0].0)->0;
        lemma_run_pages(
            PageRequestView { url: next, query: Seq::empty() },
            urls + pages[0].1,
            rest,
        );
        assert((urls + pages[0].1) + spec_all_urls(rest) =~= urls + spec_all_urls(pages));
    }
}

/// A page whose link is not exactly `<URL>; rel="next"`, with a URL that
/// may stand in a link, ends the walk, with its URLs added to those
/// gathered: no error comes of such a link, and no request.
pub proof fn lemma_unmatched_link_ends_walk(
    request: PageRequestView,
    urls: Seq<Seq<char>>,
    link: Option<Seq<u8>>,
    page: Seq<Seq<char>>,
)
    requires
        !(link matches Some(value) && spec_header_text(value) matches Some(text) && exists|
            url: Seq<char>,
        |
            spec_link_url(url) && text == seq!['<'] + url + spec_next_marker()),
    ensures
        spec_step(
            FetchView::Requesting { request, urls },
            FetchEventView::Page { link, urls: page },
        ) == (FetchView::Done { urls: urls + page }),
{
    if let Some(value) = link {
        if let Some(text) = spec_header_text(value) {
            if let Some(url) = spec_strip_link(text) {
                assert(text =~= seq!['<'] + url + spec_next_marker());
            }
        }
    }
}

/// A link that is exactly `<URL>; rel="next"` names that URL, for every URL
/// that may stand in a link, as long as the value may be read as text.
pub proof fn lemma_matched_link_names_url(value: Seq<u8>, url: Seq<char>)
    requires
        spec_link_url(url),
        spec_header_text(value) == Some(seq!['<'] + url + spec_next_marker()),
    ensures
        spec_next_link(Some(value)) == Some(url),
{
    let text = seq!['<'] + url + spec_next_marker();
    let marker = spec_next_marker();
    assert(text.subrange(text.len() - marker.len(), text.len() as int) =~= marker);
    assert(text.subrange(1, text.len() - marker.len()) =~= url);
}

/// A value that holds a link before the link to the next page names no next
/// page: what would stand between the outer angle brackets holds a `>`.
pub proof fn lemma_several_links_name_no_page(value: Seq<u8>, first: Seq<char>, rest: Seq<char>)
    requires
        spec_header_text(value) == Some(seq!['<'] + first + seq!['>'] + rest + spec_next_marker()),
    ensures
        spec_next_link(Some(value)) is None,
{
    let marker = spec_next_marker();
    let text = seq!['<'] + first + seq!['>'] + rest + marker;
    let url = text.subrange(1, text.len() - marker.len());
    assert(url[first.len() as int] == '>');
    assert(!spec_link_char(url[first.len() as int]));
}

/// The filter for peer-reviewed levels is one more parameter of the first
/// request and of no other: every later request goes to the URL that the
/// page before it linked to, with nothing added to its query.
pub proof fn lemma_filter_on_first_request_only(state: FetchView, event: FetchEventView)
    ensures
        spec_start(true)->Requesting_request.url == spec_start(false)->Requesting_request.url,
        spec_start(true)->Requesting_request.query == spec_start(false)->Requesting_request.query.push(
            ("approval__gt"@, "0"@),
        ),
        (state is Requesting && spec_step(state, event) is Requesting) ==> {
            &&& event is Page
            &&& spec_step(state, event)->Requesting_request.query.len() == 0
            &&& spec_next_link(event->Page_link) == Some(
                spec_step(state, event)->Requesting_request.url,
            )
        },
{
}

} // verus!
