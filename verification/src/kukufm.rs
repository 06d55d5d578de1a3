//! The show API: show URLs, the shape of its answers, paging through episodes, and retries.

use vstd::prelude::*;
use crate::models::{Episode, EpisodeView, ShowInfo, ShowInfoView};
use crate::text::{
    chars_eq, decimal, from_chars, is_ws, lemma_split_nonempty, push_chars, push_decimal, split,
    split_chars, to_chars, trim, trim_chars, views,
};

verus! {

/// Why a show URL was refused.
#[derive(Debug, Clone, Copy, PartialEq, Eq)]
pub enum SlugError {
    /// No `show` path segment is followed by a non-empty segment.
    NoShowSlug,
}

/// The position of the first path segment equal to `show`, if any.
pub open spec fn show_position(parts: Seq<Seq<char>>) -> Option<int> {
    parts.index_of_first(seq!['s', 'h', 'o', 'w'])
}

/// The slug of a show URL: after trimming white space and splitting on `/`, the segment that
/// follows the first segment equal to `show`, when there is one and it is not empty.
pub open spec fn show_slug(url: Seq<char>) -> Option<Seq<char>> {
    let parts = split(trim(url), '/');
    match show_position(parts) {
        Some(i) => if i < parts.len() - 1 && parts[i + 1].len() > 0 {
            Some(parts[i + 1])
        } else {
            None
        },
        None => None,
    }
}

/// A show slug is one non-empty path segment: it holds no `/`.
pub proof fn lemma_slug_is_one_segment(url: Seq<char>)
    ensures
        show_slug(url) matches Some(slug) ==> slug.len() > 0 && !slug.contains('/'),
{
    crate::text::lemma_split_pieces_lack_separator(trim(url), '/');
    let parts = split(trim(url), '/');
    parts.index_of_first_ensures(seq!['s', 'h', 'o', 'w']);
    if let Some(i) = show_position(parts) {
        if i + 1 < parts.len() {
            assert(!parts[i + 1].contains('/'));
        }
    }
}

/// The slug of `p/show/s` is the whole of `s`, however long: for any non-empty segment `s`
/// without `/` and not ending in white space, when `p` does not start with white space and has
/// no `show` segment of its own.
pub proof fn lemma_slug_of_show_url(p: Seq<char>, s: Seq<char>)
    requires
        s.len() > 0,
        !s.contains('/'),
        !is_ws(s.last()),
        p.len() > 0 ==> !is_ws(p[0]),
        !split(p, '/').contains(seq!['s', 'h', 'o', 'w']),
    ensures
        show_slug(p + seq!['/', 's', 'h', 'o', 'w', '/'] + s) == Some(s),
{
    let w = seq!['s', 'h', 'o', 'w'];
    let url = p + seq!['/', 's', 'h', 'o', 'w', '/'] + s;
    let rest = w + seq!['/'] + s;
    assert(url =~= p + seq!['/'] + rest);
    assert(url[0] == if p.len() > 0 { p[0] } else { '/' });
    assert(url.last() == s.last());
    crate::text::lemma_trim_unchanged(url);
    crate::text::lemma_split_concat(p, rest, '/');
    crate::text::lemma_split_concat(w, s, '/');
    assert(!w.contains('/')) by {
        if w.contains('/') {
            let k = choose|k: int| 0 <= k < w.len() && w[k] == '/';
            assert(w[k] != '/');
        }
    }
    crate::text::lemma_split_without_separator(w, '/');
    crate::text::lemma_split_without_separator(s, '/');
    let pp = split(p, '/');
    let parts = split(trim(url), '/');
    assert(parts =~= pp + seq![w, s]);
    let k = pp.len() as int;
    assert(parts[k] == w);
    assert(parts[k + 1] == s);
    parts.index_of_first_ensures(w);
    let i = parts.index_of_first(w).unwrap();
    if i < k {
        assert(parts[i] == pp[i]);
        assert(pp.contains(w));
    }
    if i > k {
        assert(0 <= k < i < parts.len());
    }
    assert(i == k);
}

/// The position of the first vector equal to `x`.
fn position_of(v: &Vec<Vec<char>>, x: &[char]) -> (r: Option<usize>)
    ensures
        match r {
            Some(i) => views(v@).index_of_first(x@) == Some(i as int),
            None => views(v@).index_of_first(x@) is None,
        },
{
    let ghost s = views(v@);
    let mut i: usize = 0;
    while i < v.len()
        invariant
            s == views(v@),
            i <= v@.len(),
            forall|k: int| 0 <= k < i ==> s[k] != x@,
        decreases v@.len() - i,
    {
        if chars_eq(&v[i], x) {
            proof {
                s.index_of_first_ensures(x@);
                assert(s[i as int] == x@);
                let j = s.index_of_first(x@).unwrap();
                if j < i {
                    assert(s[j] != x@);
                }
                if j > i {
                    assert(0 <= i < j < s.len());
                }
            }
            return Some(i);
        }
        i += 1;
    }
    proof {
        s.index_of_first_ensures(x@);
    }
    None
}

/// The slug of a show URL such as `https://kukufm.com/show/<slug>`.
pub fn parse_show_slug(url: &str) -> (r: Result<String, SlugError>)
    ensures
        match show_slug(url@) {
            Some(slug) => r == Ok::<String, SlugError>(r->Ok_0) && r->Ok_0@ == slug,
            None => r == Err::<String, SlugError>(SlugError::NoShowSlug),
        },
{
    let trimmed = trim_chars(&to_chars(url));
    let parts = split_chars(&trimmed, '/');
    proof {
        lemma_split_nonempty(trimmed@, '/');
    }
    let show = ['s', 'h', 'o', 'w'];
    assert(show@ == seq!['s', 'h', 'o', 'w']);
    match position_of(&parts, &show) {
        Some(i) => {
            if i < parts.len() - 1 && parts[i + 1].len() > 0 {
                assert(views(parts@)[i + 1] == parts@[i + 1]@);
                Ok(from_chars(&parts[i + 1]))
            } else {
                assert(i + 1 < parts@.len() ==> views(parts@)[i + 1] == parts@[i + 1]@);
                Err(SlugError::NoShowSlug)
            }
        },
        None => Err(SlugError::NoShowSlug),
    }
}


/// The author of a show as the API gives it.
#[derive(Debug)]
pub struct RawAuthor {
    pub name: Option<String>,
}

/// A show as the API gives it.
#[derive(Debug)]
pub struct RawShow {
    pub title: Option<String>,
    pub description: Option<String>,
    pub author: Option<RawAuthor>,
    pub language: Option<String>,
}

/// The playable content of an episode as the API gives it.
#[derive(Debug)]
pub struct RawContent {
    pub hls_url: Option<String>,
}

/// An episode as the API gives it.
#[derive(Debug)]
pub struct RawEpisode {
    pub index: Option<usize>,
    pub title: Option<String>,
    pub duration_s: Option<u64>,
    pub content: Option<RawContent>,
    pub image: Option<String>,
}

/// One page of the API's answer for a show's episodes.
#[derive(Debug)]
pub struct ApiResponse {
    pub show: Option<RawShow>,
    pub n_pages: Option<usize>,
    pub episodes: Option<Vec<RawEpisode>>,
}

/// Why an answer of the API was refused.
#[derive(Debug, Clone, Copy, PartialEq, Eq)]
pub enum ApiError {
    /// The answer has no `show` key.
    MissingShow,
}

/// The text of an optional string, empty when absent.
pub open spec fn text_or_empty(s: Option<String>) -> Seq<char> {
    match s {
        Some(t) => t@,
        None => Seq::empty(),
    }
}

/// A copy of an optional string's text, empty when absent.
fn string_or_empty(s: &Option<String>) -> (r: String)
    ensures
        r@ == text_or_empty(*s),
{
    match s {
        Some(t) => t.clone(),
        None => String::new(),
    }
}

/// The show described by an answer of the API: absent fields become empty, and the page
/// count defaults to one.
pub open spec fn show_of(show: RawShow, n_pages: Option<usize>) -> ShowInfoView {
    ShowInfoView {
        title: text_or_empty(show.title),
        description: text_or_empty(show.description),
        author: match show.author {
            Some(a) => text_or_empty(a.name),
            None => Seq::empty(),
        },
        language: text_or_empty(show.language),
        total_pages: match n_pages {
            Some(n) => n,
            None => 1,
        },
    }
}

/// The show that an answer of the API describes; an error when it has no `show` key.
pub fn show_info(res: &ApiResponse) -> (r: Result<ShowInfo, ApiError>)
    ensures
        match res.show {
            Some(show) => r is Ok && r->Ok_0@ == show_of(show, res.n_pages),
            None => r == Err::<ShowInfo, ApiError>(ApiError::MissingShow),
        },
{
    match &res.show {
        None => Err(ApiError::MissingShow),
        Some(show) => {
            let author = match &show.author {
                Some(a) => string_or_empty(&a.name),
                None => String::new(),
            };
            let total_pages = match res.n_pages {
                Some(n) => n,
                None => 1,
            };
            Ok(
                ShowInfo {
                    title: string_or_empty(&show.title),
                    description: string_or_empty(&show.description),
                    author,
                    language: string_or_empty(&show.language),
                    total_pages,
                },
            )
        },
    }
}


/// Episodes per page of the API.
pub const EPISODES_PER_PAGE: usize = 10;

/// The page on which episode `from_ep` is listed (pages count from one).
pub open spec fn first_page(from_ep: usize) -> usize {
    if from_ep > 0 {
        ((from_ep - 1) as int / EPISODES_PER_PAGE as int + 1) as usize
    } else {
        1
    }
}

/// The index of a raw episode, zero when absent.
pub open spec fn raw_index(ep: RawEpisode) -> usize {
    match ep.index {
        Some(i) => i,
        None => 0,
    }
}

/// The playlist URL of a raw episode, when present and not empty.
pub open spec fn raw_hls(ep: RawEpisode) -> Option<Seq<char>> {
    match ep.content {
        Some(c) => match c.hls_url {
            Some(u) => if u@.len() > 0 {
                Some(u@)
            } else {
                None
            },
            None => None,
        },
        None => None,
    }
}

/// `Episode - ` followed by the index: the title of an episode that has none.
pub open spec fn default_title(index: usize) -> Seq<char> {
    seq!['E', 'p', 'i', 's', 'o', 'd', 'e', ' ', '-', ' '] + decimal(index as nat)
}

/// The episode built from a raw episode of `show` whose playlist URL is `hls`.
pub open spec fn episode_of(show: ShowInfoView, ep: RawEpisode, hls: Seq<char>) -> EpisodeView {
    EpisodeView {
        show_title: show.title,
        title: match ep.title {
            Some(t) => t@,
            None => default_title(raw_index(ep)),
        },
        index: raw_index(ep),
        duration_seconds: match ep.duration_s {
            Some(d) => d,
            None => 0,
        },
        hls_url: hls,
        cover_url: text_or_empty(ep.image),
        author: show.author,
        language: show.language,
        description: show.description,
    }
}

/// Whether a raw episode ends the listing: its index is at least `from_ep` and past a
/// non-zero `to_ep`.
pub open spec fn ends_range(from_ep: usize, to_ep: usize, ep: RawEpisode) -> bool {
    raw_index(ep) >= from_ep && to_ep > 0 && raw_index(ep) > to_ep
}

/// Scanning the raw episodes of one page in order: those below `from_ep` are skipped, the
/// first one past `to_ep` (when it is not zero) stops the scan, those without a playlist URL
/// are skipped, and the others become episodes. Gives the episodes and whether the scan stopped.
pub open spec fn page_scan(show: ShowInfoView, from_ep: usize, to_ep: usize, eps: Seq<RawEpisode>) -> (
    Seq<EpisodeView>,
    bool,
)
    decreases eps.len(),
{
    if eps.len() == 0 {
        (Seq::empty(), false)
    } else {
        let (acc, stopped) = page_scan(show, from_ep, to_ep, eps.drop_last());
        let e = eps.last();
        if stopped {
            (acc, true)
        } else if raw_index(e) < from_ep {
            (acc, false)
        } else if ends_range(from_ep, to_ep, e) {
            (acc, true)
        } else {
            match raw_hls(e) {
                Some(h) => (acc.push(episode_of(show, e, h)), false),
                None => (acc, false),
            }
        }
    }
}

/// An episode that the listing may hold: in range, with a playlist URL, and carrying the
/// show's title, author, language and description.
pub open spec fn fits(show: ShowInfoView, from_ep: usize, to_ep: usize, e: EpisodeView) -> bool {
    &&& from_ep <= e.index
    &&& to_ep == 0 || e.index <= to_ep
    &&& e.hls_url.len() > 0
    &&& e.show_title == show.title
    &&& e.author == show.author
    &&& e.language == show.language
    &&& e.description == show.description
}

/// Every episode that a page scan keeps fits the range.
pub proof fn lemma_page_scan_fits(show: ShowInfoView, from_ep: usize, to_ep: usize, eps: Seq<RawEpisode>)
    ensures
        forall|k: int|
            0 <= k < page_scan(show, from_ep, to_ep, eps).0.len() ==> fits(
                show,
                from_ep,
                to_ep,
                #[trigger] page_scan(show, from_ep, to_ep, eps).0[k],
            ),
    decreases eps.len(),
{
    if eps.len() > 0 {
        lemma_page_scan_fits(show, from_ep, to_ep, eps.drop_last());
        let (acc, stopped) = page_scan(show, from_ep, to_ep, eps.drop_last());
        let e = eps.last();
        if !stopped && raw_index(e) >= from_ep && !ends_range(from_ep, to_ep, e) {
            if let Some(h) = raw_hls(e) {
                let r = acc.push(episode_of(show, e, h));
                assert forall|k: int| 0 <= k < r.len() implies fits(show, from_ep, to_ep, #[trigger] r[k]) by {
                    if k < acc.len() {
                        assert(r[k] == acc[k]);
                    }
                }
            }
        }
    }
}

/// The views of a vector of episodes.
pub open spec fn episode_views(v: Seq<Episode>) -> Seq<EpisodeView> {
    v.map_values(|e: Episode| e@)
}

/// The episode built from a raw episode, given its playlist URL.
fn make_episode(show: &ShowInfo, ep: &RawEpisode, hls: &String) -> (r: Episode)
    requires
        raw_hls(*ep) == Some(hls@),
    ensures
        r@ == episode_of(show@, *ep, hls@),
{
    let index = match ep.index {
        Some(i) => i,
        None => 0,
    };
    let title = match &ep.title {
        Some(t) => t.clone(),
        None => {
            let mut t = String::new();
            push_chars(&mut t, &['E', 'p', 'i', 's', 'o', 'd', 'e', ' ', '-', ' ']);
            push_decimal(&mut t, index as u64);
            t
        },
    };
    Episode {
        show_title: show.title.clone(),
        title,
        index,
        duration_seconds: match ep.duration_s {
            Some(d) => d,
            None => 0,
        },
        hls_url: hls.clone(),
        cover_url: string_or_empty(&ep.image),
        author: show.author.clone(),
        language: show.language.clone(),
        description: show.description.clone(),
    }
}

/// Scans the raw episodes of one page, appending the episodes it keeps to `out`; tells
/// whether the scan stopped at an episode past the range.
pub fn scan_page(show: &ShowInfo, from_ep: usize, to_ep: usize, eps: &Vec<RawEpisode>, out: &mut Vec<Episode>) -> (stopped: bool)
    ensures
        episode_views(final(out)@) == episode_views(old(out)@) + page_scan(show@, from_ep, to_ep, eps@).0,
        stopped == page_scan(show@, from_ep, to_ep, eps@).1,
{
    let ghost start = episode_views(out@);
    let mut stopped = false;
    let mut i: usize = 0;
    assert(eps@.take(0) =~= Seq::<RawEpisode>::empty());
    while i < eps.len()
        invariant
            i <= eps@.len(),
            episode_views(out@) == start + page_scan(show@, from_ep, to_ep, eps@.take(i as int)).0,
            stopped == page_scan(show@, from_ep, to_ep, eps@.take(i as int)).1,
        decreases eps@.len() - i,
    {
        let ghost prefix = eps@.take(i + 1);
        assert(prefix.drop_last() == eps@.take(i as int));
        assert(prefix.last() == eps@[i as int]);
        let ep = &eps[i];
        if !stopped {
            let index = match ep.index {
                Some(x) => x,
                None => 0,
            };
            if index < from_ep {
            } else if to_ep > 0 && index > to_ep {
                stopped = true;
            } else {
                match &ep.content {
                    Some(c) => match &c.hls_url {
                        Some(u) => {
                            if !u.as_str().is_empty() {
                                let e = make_episode(show, ep, u);
                                let ghost before = out@;
                                out.push(e);
                                assert(episode_views(out@) =~= episode_views(before).push(e@));
                            }
                        },
                        None => {},
                    },
                    None => {},
                }
            }
        }
        i += 1;
    }
    assert(eps@.take(eps@.len() as int) == eps@);
    stopped
}


/// Gathers the episodes of a show in a range, page after page.
///
/// The caller fetches the page that `next_page` names and hands over what it got, until
/// `next_page` gives `None`.
pub struct EpisodeCollector {
    show: ShowInfo,
    from_ep: usize,
    to_ep: usize,
    page: usize,
    episodes: Vec<Episode>,
    finished: bool,
}

/// The state of an `EpisodeCollector`.
pub struct CollectorView {
    pub show: ShowInfoView,
    pub from_ep: usize,
    pub to_ep: usize,
    pub page: usize,
    pub episodes: Seq<EpisodeView>,
    pub finished: bool,
}

impl View for EpisodeCollector {
    type V = CollectorView;

    closed spec fn view(&self) -> CollectorView {
        CollectorView {
            show: self.show@,
            from_ep: self.from_ep,
            to_ep: self.to_ep,
            page: self.page,
            episodes: episode_views(self.episodes@),
            finished: self.finished,
        }
    }
}

/// Every gathered episode fits the range.
pub open spec fn all_fit(v: CollectorView) -> bool {
    forall|k: int| 0 <= k < v.episodes.len() ==> fits(v.show, v.from_ep, v.to_ep, #[trigger] v.episodes[k])
}

/// The state after the page `v.page` was fetched and listed `eps`: no episodes or an empty
/// list ends the gathering; otherwise the kept episodes are appended, and the gathering ends if
/// the scan stopped, else goes on with the next page. A finished state does not change.
pub open spec fn after_page(v: CollectorView, eps: Option<Vec<RawEpisode>>) -> CollectorView {
    if v.finished {
        v
    } else {
        match eps {
            Some(list) => if list@.len() == 0 {
                CollectorView { finished: true, ..v }
            } else {
                let (kept, stopped) = page_scan(v.show, v.from_ep, v.to_ep, list@);
                let episodes = v.episodes + kept;
                if stopped || v.page == usize::MAX {
                    CollectorView { episodes, finished: true, ..v }
                } else {
                    CollectorView { episodes, page: (v.page + 1) as usize, ..v }
                }
            },
            None => CollectorView { finished: true, ..v },
        }
    }
}

impl EpisodeCollector {
    #[verifier::type_invariant]
    spec fn inv(self) -> bool {
        all_fit(self@)
    }

    /// A collector of the episodes `from_ep..=to_ep` of `show` (`to_ep == 0`: no upper bound),
    /// starting at the page that lists `from_ep`.
    pub fn new(show: ShowInfo, from_ep: usize, to_ep: usize) -> (r: Self)
        ensures
            r@ == (CollectorView {
                show: show@,
                from_ep,
                to_ep,
                page: first_page(from_ep),
                episodes: Seq::empty(),
                finished: false,
            }),
    {
        let page = if from_ep > 0 {
            (from_ep - 1) / EPISODES_PER_PAGE + 1
        } else {
            1
        };
        let r = EpisodeCollector { show, from_ep, to_ep, page, episodes: Vec::new(), finished: false };
        assert(r@.episodes =~= Seq::<EpisodeView>::empty());
        r
    }

    /// The page to fetch next, or `None` once the gathering is over.
    pub fn next_page(&self) -> (r: Option<usize>)
        ensures
            r == (if self@.finished {
                None
            } else {
                Some(self@.page)
            }),
    {
        if self.finished {
            None
        } else {
            Some(self.page)
        }
    }

    /// The page could not be fetched: the gathering ends with what it has.
    pub fn page_failed(&mut self)
        ensures
            final(self)@ == (CollectorView { finished: true, ..old(self)@ }),
            all_fit(final(self)@),
    {
        proof {
            use_type_invariant(&*self);
        }
        self.finished = true;
    }

    /// The page `next_page` named was fetched and listed `eps` (`None`: no `episodes` key).
    pub fn page_received(&mut self, eps: Option<Vec<RawEpisode>>)
        ensures
            final(self)@ == after_page(old(self)@, eps),
            all_fit(final(self)@),
    {
        proof {
            use_type_invariant(&*self);
        }
        assert(all_fit(self@));
        if self.finished {
            return;
        }
        match eps {
            None => {
                assert(all_fit(CollectorView { finished: true, ..self@ }));
                self.finished = true;
            },
            Some(list) => {
                if list.len() == 0 {
                    assert(all_fit(CollectorView { finished: true, ..self@ }));
                    self.finished = true;
                } else {
                    let mut episodes = Vec::new();
                    std::mem::swap(&mut episodes, &mut self.episodes);
                    let ghost before = episode_views(episodes@);
                    let stopped = scan_page(&self.show, self.from_ep, self.to_ep, &list, &mut episodes);
                    proof {
                        lemma_page_scan_fits(self.show@, self.from_ep, self.to_ep, list@);
                        let kept = page_scan(self.show@, self.from_ep, self.to_ep, list@).0;
                        assert forall|k: int| 0 <= k < episode_views(episodes@).len() implies fits(
                            self.show@,
                            self.from_ep,
                            self.to_ep,
                            #[trigger] episode_views(episodes@)[k],
                        ) by {
                            if k < before.len() {
                                assert(episode_views(episodes@)[k] == before[k]);
                            } else {
                                assert(episode_views(episodes@)[k] == kept[k - before.len()]);
                            }
                        }
                    }
                    self.episodes = episodes;
                    if stopped || self.page == usize::MAX {
                        self.finished = true;
                    } else {
                        self.page = self.page + 1;
                    }
                }
            },
        }
    }

    /// The show and the episodes gathered, in the order the pages listed them.
    pub fn into_parts(self) -> (r: (ShowInfo, Vec<Episode>))
        ensures
            r.0@ == self@.show,
            episode_views(r.1@) == self@.episodes,
            all_fit(self@),
    {
        proof {
            use_type_invariant(&self);
        }
        (self.show, self.episodes)
    }
}


/// The API address of page `page` of a show's episodes.
pub open spec fn page_url(slug: Seq<char>, page: usize) -> Seq<char> {
    "https://kukufm.com/api/v2.1/channels/"@ + slug + "/episodes?lang=english&page="@ + decimal(
        page as nat,
    )
}

/// The API address of page `page` of the episodes of the show `slug`.
pub fn episodes_page_url(slug: &str, page: usize) -> (r: String)
    ensures
        r@ == page_url(slug@, page),
{
    let mut s = String::new();
    s.append("https://kukufm.com/api/v2.1/channels/");
    s.append(slug);
    s.append("/episodes?lang=english&page=");
    push_decimal(&mut s, page as u64);
    s
}

/// Attempts at fetching one address before giving up.
pub const MAX_ATTEMPTS: u32 = 3;

/// What came back from one attempt at fetching an address.
#[derive(Debug, Clone, Copy, PartialEq, Eq)]
pub enum FetchOutcome {
    /// A response with this HTTP status.
    Status(u16),
    /// No response: the request itself failed.
    TransportError,
}

/// What to do after one attempt at fetching an address.
#[derive(Debug, Clone, Copy, PartialEq, Eq)]
pub enum FetchAction {
    /// The response succeeded: read its body and decode it.
    ReadBody,
    /// The page does not exist: fail at once.
    NotFound,
    /// The request failed on the last attempt: fail with its error.
    Fail,
    /// Wait, then make attempt `next_attempt`.
    Retry { next_attempt: u32 },
    /// Wait, then fail: no attempt is left.
    GiveUp,
}

/// Whether an HTTP status is a success (`200..=299`).
pub open spec fn is_success(status: u16) -> bool {
    200 <= status <= 299
}

/// The decision after attempt `attempt` (counting from one): a 404 fails at once, a success
/// is read, and anything else is retried after a pause while attempts are left; a failed
/// request on the last attempt fails with its error, and another status on the last attempt
/// gives up after the pause.
pub open spec fn fetch_decision(attempt: u32, outcome: FetchOutcome) -> FetchAction {
    match outcome {
        FetchOutcome::Status(code) => if code == 404 {
            FetchAction::NotFound
        } else if is_success(code) {
            FetchAction::ReadBody
        } else if attempt < MAX_ATTEMPTS {
            FetchAction::Retry { next_attempt: (attempt + 1) as u32 }
        } else {
            FetchAction::GiveUp
        },
        FetchOutcome::TransportError => if attempt >= MAX_ATTEMPTS {
            FetchAction::Fail
        } else {
            FetchAction::Retry { next_attempt: (attempt + 1) as u32 }
        },
    }
}

/// What to do after attempt `attempt` at fetching an address gave `outcome`.
pub fn next_fetch_action(attempt: u32, outcome: FetchOutcome) -> (r: FetchAction)
    requires
        1 <= attempt <= MAX_ATTEMPTS,
    ensures
        r == fetch_decision(attempt, outcome),
        r matches FetchAction::Retry { next_attempt } ==> next_attempt == attempt + 1
            && next_attempt <= MAX_ATTEMPTS,
{
    match outcome {
        FetchOutcome::Status(code) => {
            if code == 404 {
                FetchAction::NotFound
            } else if 200 <= code && code <= 299 {
                FetchAction::ReadBody
            } else if attempt < MAX_ATTEMPTS {
                FetchAction::Retry { next_attempt: attempt + 1 }
            } else {
                FetchAction::GiveUp
            }
        },
        FetchOutcome::TransportError => {
            if attempt >= MAX_ATTEMPTS {
                FetchAction::Fail
            } else {
                FetchAction::Retry { next_attempt: attempt + 1 }
            }
        },
    }
}

/// Fetching an address never makes more than three attempts: each retry moves to the next
/// attempt, and the third attempt never asks for another.
pub proof fn lemma_at_most_three_attempts(attempt: u32, outcome: FetchOutcome)
    requires
        1 <= attempt <= MAX_ATTEMPTS,
    ensures
        fetch_decision(attempt, outcome) matches FetchAction::Retry { next_attempt } ==> next_attempt
            == attempt + 1 && next_attempt <= MAX_ATTEMPTS,
        attempt == MAX_ATTEMPTS ==> !(fetch_decision(attempt, outcome) is Retry),
{
}


/// The retry policy: before the third attempt, an answer that is neither a success nor a 404,
/// or a request that failed, is always followed by the next attempt; a 404 fails at once and a
/// success is read, at any attempt.
pub proof fn lemma_retry_before_third_attempt(attempt: u32, outcome: FetchOutcome)
    requires
        1 <= attempt < 3,
    ensures
        outcome matches FetchOutcome::Status(code) && code != 404 && !(200 <= code <= 299) ==> fetch_decision(
            attempt,
            outcome,
        ) == (FetchAction::Retry { next_attempt: (attempt + 1) as u32 }),
        outcome is TransportError ==> fetch_decision(attempt, outcome) == (FetchAction::Retry {
            next_attempt: (attempt + 1) as u32,
        }),
        outcome matches FetchOutcome::Status(code) && 200 <= code <= 299 ==> fetch_decision(attempt, outcome)
            == FetchAction::ReadBody,
        outcome == FetchOutcome::Status(404) ==> fetch_decision(attempt, outcome) == FetchAction::NotFound,
{
}

/// The third attempt ends the fetch: a success is read, a 404 fails, a failed request fails
/// with its error, and any other answer gives up.
pub proof fn lemma_third_attempt_is_last(outcome: FetchOutcome)
    ensures
        outcome matches FetchOutcome::Status(code) && code != 404 && !(200 <= code <= 299) ==> fetch_decision(
            3,
            outcome,
        ) == FetchAction::GiveUp,
        outcome is TransportError ==> fetch_decision(3, outcome) == FetchAction::Fail,
        outcome matches FetchOutcome::Status(code) && 200 <= code <= 299 ==> fetch_decision(3, outcome)
            == FetchAction::ReadBody,
        outcome == FetchOutcome::Status(404) ==> fetch_decision(3, outcome) == FetchAction::NotFound,
{
}

/// A page scan stops exactly when the page lists an episode whose index is at least
/// `from_ep` and past a non-zero `to_ep`.
pub proof fn lemma_scan_stops_iff_past_range(show: ShowInfoView, from_ep: usize, to_ep: usize, eps: Seq<RawEpisode>)
    ensures
        page_scan(show, from_ep, to_ep, eps).1 <==> (exists|k: int|
            0 <= k < eps.len() && from_ep <= raw_index(#[trigger] eps[k]) && to_ep > 0 && raw_index(eps[k]) > to_ep),
    decreases eps.len(),
{
    if eps.len() > 0 {
        let d = eps.drop_last();
        lemma_scan_stops_iff_past_range(show, from_ep, to_ep, d);
        if page_scan(show, from_ep, to_ep, d).1 {
            let k = choose|k: int|
                0 <= k < d.len() && from_ep <= raw_index(#[trigger] d[k]) && to_ep > 0 && raw_index(d[k]) > to_ep;
            assert(eps[k] == d[k]);
        } else {
            if exists|k: int|
                0 <= k < eps.len() && from_ep <= raw_index(#[trigger] eps[k]) && to_ep > 0 && raw_index(eps[k])
                    > to_ep {
                let k = choose|k: int|
                    0 <= k < eps.len() && from_ep <= raw_index(#[trigger] eps[k]) && to_ep > 0 && raw_index(
                        eps[k],
                    ) > to_ep;
                if k < d.len() {
                    assert(d[k] == eps[k]);
                }
            }
        }
    }
}

/// Gathering goes on page after page: after a page that lists episodes, none of them past the
/// range, the collector is not finished and asks for the very next page, whatever page count
/// the show announced; it keeps its show and range.
pub proof fn lemma_gathering_goes_on(v: CollectorView, list: Vec<RawEpisode>)
    requires
        !v.finished,
        list@.len() > 0,
        forall|k: int|
            0 <= k < list@.len() ==> !(v.from_ep <= raw_index(#[trigger] list@[k]) && v.to_ep > 0 && raw_index(
                list@[k],
            ) > v.to_ep),
        v.page < usize::MAX,
    ensures
        !after_page(v, Some(list)).finished,
        after_page(v, Some(list)).page == v.page + 1,
        after_page(v, Some(list)).show == v.show,
        after_page(v, Some(list)).from_ep == v.from_ep,
        after_page(v, Some(list)).to_ep == v.to_ep,
{
    lemma_scan_stops_iff_past_range(v.show, v.from_ep, v.to_ep, list@);
}

/// Without an upper bound (`to_ep == 0`), the gathering only ends on a failed fetch or a page
/// without episodes: after any page that lists episodes it asks for the next page.
pub proof fn lemma_no_upper_bound_goes_on(v: CollectorView, list: Vec<RawEpisode>)
    requires
        !v.finished,
        v.to_ep == 0,
        list@.len() > 0,
        v.page < usize::MAX,
    ensures
        !after_page(v, Some(list)).finished,
        after_page(v, Some(list)).page == v.page + 1,
{
    lemma_scan_stops_iff_past_range(v.show, v.from_ep, v.to_ep, list@);
}


/// A page scan that does not stop keeps every listed episode in range: each raw episode whose
/// index is at least `from_ep` and that has a playlist URL appears among the kept episodes.
pub proof fn lemma_page_scan_keeps_all_in_range(show: ShowInfoView, from_ep: usize, to_ep: usize, eps: Seq<RawEpisode>)
    requires
        !page_scan(show, from_ep, to_ep, eps).1,
    ensures
        forall|k: int|
            0 <= k < eps.len() && from_ep <= raw_index(#[trigger] eps[k]) && raw_hls(eps[k]) is Some
                ==> page_scan(show, from_ep, to_ep, eps).0.contains(
                episode_of(show, eps[k], raw_hls(eps[k])->Some_0),
            ),
    decreases eps.len(),
{
    if eps.len() > 0 {
        let d = eps.drop_last();
        let (acc, stopped) = page_scan(show, from_ep, to_ep, d);
        assert(!stopped);
        lemma_page_scan_keeps_all_in_range(show, from_ep, to_ep, d);
        let r = page_scan(show, from_ep, to_ep, eps).0;
        assert forall|k: int|
            0 <= k < eps.len() && from_ep <= raw_index(#[trigger] eps[k]) && raw_hls(eps[k]) is Some implies r.contains(
            episode_of(show, eps[k], raw_hls(eps[k])->Some_0),
        ) by {
            let e = episode_of(show, eps[k], raw_hls(eps[k])->Some_0);
            if k < d.len() {
                assert(d[k] == eps[k]);
                assert(acc.contains(e));
                let j = choose|j: int| 0 <= j < acc.len() && acc[j] == e;
                assert(r[j] == e);
            } else {
                assert(r[acc.len() as int] == e);
            }
        }
    }
}


/// The first page fetched is the one that lists `from_ep`, ten episodes to a page.
pub proof fn lemma_first_page_lists_from_ep(from_ep: usize)
    requires
        from_ep >= 1,
    ensures
        (first_page(from_ep) - 1) * 10 < from_ep <= first_page(from_ep) * 10,
{
}

/// A page never takes back what was gathered: the earlier episodes stay, first and unchanged;
/// the show and range never change; and a finished gathering stays finished.
pub proof fn lemma_gathered_only_grows(v: CollectorView, eps: Option<Vec<RawEpisode>>)
    ensures
        after_page(v, eps).episodes.len() >= v.episodes.len(),
        after_page(v, eps).episodes.take(v.episodes.len() as int) == v.episodes,
        after_page(v, eps).show == v.show,
        after_page(v, eps).from_ep == v.from_ep,
        after_page(v, eps).to_ep == v.to_ep,
        v.finished ==> after_page(v, eps) == v,
        eps is None ==> after_page(v, eps).finished,
{
    let w = after_page(v, eps);
    assert(w.episodes.take(v.episodes.len() as int) =~= v.episodes);
}

} // verus!
