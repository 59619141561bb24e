//! The per-shop crawl as a state machine: it decides what to do next from
//! what the outside world reports (a proxy, a fetched page, a failure), and
//! leaves the fetching, sleeping and proxy checks to its caller.
use vstd::prelude::*;
use crate::errors::ParserError;
use crate::extract::{page_count_of, rows_listings, PositionsParser};
use crate::store::{rules_index, InMemoryDB};
use crate::models::{
    same_rules, parsing_url_of, HoyaPosition, HoyaPositionView, Proxy, ProxyView, Shop, ShopParsingRules,
    ShopView,
};

verus! {

/// How many attempts a shop crawl gets before it gives up.
pub const MAX_ATTEMPTS: u32 = 3;

/// What the caller reports back to the crawl.
pub enum CrawlEvent {
    /// The outcome of acquiring a proxy.
    ProxyAcquired(Result<Proxy, ParserError>),
    /// The outcome of fetching the page that was asked for: its text.
    PageFetched(Result<String, ParserError>),
}

/// What the crawl asks its caller to do next.
pub enum CrawlAction {
    /// Acquire a (fresh) proxy and report it.
    AcquireProxy,
    /// Wait `delay_secs` seconds where given (plus a little jitter), then
    /// fetch `url` through `proxy` and report its text. A delay is given
    /// before the second and later pages of a category, where the shop's
    /// rules set one.
    FetchPage { url: String, proxy: Proxy, delay_secs: Option<u64> },
    /// The crawl is over: these are the shop's listings.
    Finish(Vec<HoyaPosition>),
    /// The crawl is over without listings.
    Fail(ParserError),
}

/// What a `CrawlEvent` reports, over plain values.
pub enum EventView {
    ProxyAcquired(Result<ProxyView, ParserError>),
    PageFetched(Result<Seq<char>, ParserError>),
}

/// What a `CrawlAction` asks for, over plain values.
pub enum ActionView {
    AcquireProxy,
    FetchPage { url: Seq<char>, proxy: ProxyView, delay_secs: Option<u64> },
    Finish(Seq<HoyaPositionView>),
    Fail(ParserError),
}

impl View for CrawlEvent {
    type V = EventView;

    open spec fn view(&self) -> EventView {
        match self {
            CrawlEvent::ProxyAcquired(Ok(p)) => EventView::ProxyAcquired(Ok(p@)),
            CrawlEvent::ProxyAcquired(Err(e)) => EventView::ProxyAcquired(Err(*e)),
            CrawlEvent::PageFetched(Ok(t)) => EventView::PageFetched(Ok(t@)),
            CrawlEvent::PageFetched(Err(e)) => EventView::PageFetched(Err(*e)),
        }
    }
}

impl View for CrawlAction {
    type V = ActionView;

    open spec fn view(&self) -> ActionView {
        match self {
            CrawlAction::AcquireProxy => ActionView::AcquireProxy,
            CrawlAction::FetchPage { url, proxy, delay_secs } => ActionView::FetchPage {
                url: url@,
                proxy: proxy@,
                delay_secs: *delay_secs,
            },
            CrawlAction::Finish(v) => ActionView::Finish(v@.map_values(|p: HoyaPosition| p@)),
            CrawlAction::Fail(e) => ActionView::Fail(*e),
        }
    }
}

/// Where a crawl stands.
pub struct CrawlView {
    pub attempt: u32,
    pub category: int,
    pub page: u32,
    pub max_page: u32,
    pub proxy: Option<ProxyView>,
    pub listings: Seq<HoyaPositionView>,
    pub done: bool,
}

/// The number of categories crawled: one unscoped crawl where none is given.
pub open spec fn category_count(rules: ShopParsingRules) -> int {
    if rules.url_categories@.len() == 0 {
        1
    } else {
        rules.url_categories@.len() as int
    }
}

/// The category text of category `k`, none for the unscoped crawl.
pub open spec fn category_at(rules: ShopParsingRules, k: int) -> Option<Seq<char>> {
    if rules.url_categories@.len() == 0 {
        None
    } else {
        Some(rules.url_categories@[k]@)
    }
}

pub open spec fn page_url(rules: ShopParsingRules, k: int, page: u32) -> Seq<char> {
    parsing_url_of(rules.parsing_url@, page as nat, category_at(rules, k))
}

/// A failed attempt: the next one starts afresh, or the crawl gives up.
pub open spec fn failed(s: CrawlView) -> (CrawlView, ActionView) {
    let attempt = (s.attempt + 1) as u32;
    let t = CrawlView {
        attempt,
        category: 0,
        page: 1,
        max_page: 0,
        proxy: None,
        listings: Seq::empty(),
        done: attempt >= MAX_ATTEMPTS,
    };
    if attempt >= MAX_ATTEMPTS {
        (t, ActionView::Fail(ParserError::NoProxyAvailable))
    } else {
        (t, ActionView::AcquireProxy)
    }
}

/// What the crawl does on an event: the next state and the action.
pub open spec fn next(shop: ShopView, rules: ShopParsingRules, s: CrawlView, e: EventView) -> (
    CrawlView,
    ActionView,
) {
    match e {
        EventView::ProxyAcquired(Ok(p)) => (
            CrawlView {
                category: 0,
                page: 1,
                max_page: 0,
                proxy: Some(p),
                listings: Seq::empty(),
                ..s
            },
            ActionView::FetchPage { url: page_url(rules, 0, 1), proxy: p, delay_secs: None },
        ),
        EventView::ProxyAcquired(Err(_)) => failed(s),
        EventView::PageFetched(Err(_)) => failed(s),
        EventView::PageFetched(Ok(text)) => match s.proxy {
            None => failed(s),
            Some(p) => match rows_listings(shop, text, rules.product_table_lookup@, rules) {
                Err(_) => failed(s),
                Ok(found) => if s.page == 1 && page_count_of(text, rules.max_page_lookup@) is Err {
                    failed(s)
                } else {
                    let max_page = if s.page == 1 {
                        match page_count_of(text, rules.max_page_lookup@) {
                            Ok(n) => n as u32,
                            Err(_) => 0,
                        }
                    } else {
                        s.max_page
                    };
                    let listings = s.listings + found;
                    let delay = rules.sleep_timeout_sec;
                    if s.page < max_page {
                        let page = (s.page + 1) as u32;
                        (
                            CrawlView { page, max_page, listings, ..s },
                            ActionView::FetchPage {
                                url: page_url(rules, s.category, page),
                                proxy: p,
                                delay_secs: delay,
                            },
                        )
                    } else if s.category + 1 < category_count(rules) {
                        let category = s.category + 1;
                        (
                            CrawlView { category, page: 1, max_page: 0, listings, ..s },
                            ActionView::FetchPage {
                                url: page_url(rules, category, 1),
                                proxy: p,
                                delay_secs: None,
                            },
                        )
                    } else {
                        (
                            CrawlView { max_page, listings, done: true, ..s },
                            ActionView::Finish(listings),
                        )
                    }
                },
            },
        },
    }
}

pub open spec fn listings_view(v: Seq<HoyaPosition>) -> Seq<HoyaPositionView> {
    v.map_values(|p: HoyaPosition| p@)
}

fn append_listings(dst: &mut Vec<HoyaPosition>, src: &Vec<HoyaPosition>)
    ensures
        listings_view(final(dst)@) == listings_view(old(dst)@) + listings_view(src@),
{
    let ghost start = dst@;
    let mut i: usize = 0;
    while i < src.len()
        invariant
            i <= src@.len(),
            listings_view(dst@) =~= listings_view(start) + listings_view(src@.subrange(0, i as int)),
        decreases src@.len() - i,
    {
        let ghost prev = dst@;
        dst.push(src[i].clone_listing());
        assert(src@.subrange(0, i + 1) =~= src@.subrange(0, i as int).push(src@[i as int]));
        assert(listings_view(dst@) =~= listings_view(prev).push(src@[i as int]@));
        i = i + 1;
    }
    assert(src@.subrange(0, src@.len() as int) =~= src@);
}

fn copy_listings(src: &Vec<HoyaPosition>) -> (r: Vec<HoyaPosition>)
    ensures
        listings_view(r@) == listings_view(src@),
{
    let mut out: Vec<HoyaPosition> = Vec::new();
    append_listings(&mut out, src);
    assert(listings_view(Seq::<HoyaPosition>::empty()) + listings_view(src@) =~= listings_view(src@));
    out
}

/// The crawl of one shop: across attempts, categories and pages.
pub struct ShopCrawl {
    pub shop: Shop,
    pub rules: ShopParsingRules,
    pub attempt: u32,
    pub category: usize,
    pub page: u32,
    pub max_page: u32,
    pub proxy: Option<Proxy>,
    pub listings: Vec<HoyaPosition>,
    pub done: bool,
}

impl View for ShopCrawl {
    type V = CrawlView;

    open spec fn view(&self) -> CrawlView {
        CrawlView {
            attempt: self.attempt,
            category: self.category as int,
            page: self.page,
            max_page: self.max_page,
            proxy: match self.proxy {
                Some(p) => Some(p@),
                None => None,
            },
            listings: self.listings@.map_values(|p: HoyaPosition| p@),
            done: self.done,
        }
    }
}

impl ShopCrawl {
    /// The crawl goes on: attempts remain, and it stands at a category and
    /// page of the shop.
    pub open spec fn wf(&self) -> bool {
        &&& !self.done ==> self.attempt < MAX_ATTEMPTS
        &&& self.attempt <= MAX_ATTEMPTS
        &&& 0 <= self.category < category_count(self.rules)
        &&& self.page >= 1
    }

    /// A crawl of `shop` by `rules`; its first action is to acquire a proxy.
    pub fn new(shop: Shop, rules: ShopParsingRules) -> (r: (ShopCrawl, CrawlAction))
        ensures
            r.0.wf(),
            r.0@ == (CrawlView {
                attempt: 0,
                category: 0,
                page: 1,
                max_page: 0,
                proxy: None,
                listings: Seq::empty(),
                done: false,
            }),
            r.0.shop@ == shop@,
            r.0.rules == rules,
            r.1@ == ActionView::AcquireProxy,
    {
        let crawl = ShopCrawl {
            shop,
            rules,
            attempt: 0,
            category: 0,
            page: 1,
            max_page: 0,
            proxy: None,
            listings: Vec::new(),
            done: false,
        };
        assert(crawl@.listings =~= Seq::<HoyaPositionView>::empty());
        (crawl, CrawlAction::AcquireProxy)
    }

    /// Whether the crawl is over.
    pub fn is_done(&self) -> (r: bool)
        ensures
            r == self.done,
    {
        self.done
    }

    fn category_text(&self, k: usize) -> (r: Option<String>)
        requires
            0 <= k < category_count(self.rules),
        ensures
            match r {
                Some(c) => category_at(self.rules, k as int) == Some(c@),
                None => category_at(self.rules, k as int) is None,
            },
    {
        if self.rules.url_categories.len() == 0 {
            None
        } else {
            Some(self.rules.url_categories[k].clone())
        }
    }

    fn fail_attempt(&mut self) -> (r: CrawlAction)
        requires
            old(self).wf(),
            !old(self).done,
        ensures
            (final(self)@, r@) == failed(old(self)@),
            final(self).wf(),
            final(self).shop == old(self).shop,
            final(self).rules == old(self).rules,
    {
        self.attempt = self.attempt + 1;
        self.category = 0;
        self.page = 1;
        self.max_page = 0;
        self.proxy = None;
        self.listings = Vec::new();
        self.done = self.attempt >= MAX_ATTEMPTS;
        assert(self@.listings =~= Seq::<HoyaPositionView>::empty());
        if self.done {
            CrawlAction::Fail(ParserError::NoProxyAvailable)
        } else {
            CrawlAction::AcquireProxy
        }
    }

    /// Takes in what the caller reports and says what to do next.
    pub fn step(&mut self, event: CrawlEvent) -> (r: CrawlAction)
        requires
            old(self).wf(),
            !old(self).done,
        ensures
            (final(self)@, r@) == next(old(self).shop@, old(self).rules, old(self)@, event@),
            final(self).wf(),
            final(self).shop == old(self).shop,
            final(self).rules == old(self).rules,
    {
        match event {
            CrawlEvent::ProxyAcquired(Ok(p)) => {
                let url = self.rules.get_shop_parsing_url(1, &self.category_text(0));
                let proxy = p.duplicate();
                self.category = 0;
                self.page = 1;
                self.max_page = 0;
                self.proxy = Some(p);
                self.listings = Vec::new();
                assert(self@.listings =~= Seq::<HoyaPositionView>::empty());
                CrawlAction::FetchPage { url, proxy, delay_secs: None }
            },
            CrawlEvent::ProxyAcquired(Err(_)) => self.fail_attempt(),
            CrawlEvent::PageFetched(Err(_)) => self.fail_attempt(),
            CrawlEvent::PageFetched(Ok(text)) => {
                let proxy = match &self.proxy {
                    Some(p) => p.duplicate(),
                    None => return self.fail_attempt(),
                };
                let found = match PositionsParser::parse_data(&self.shop, &self.rules, text.as_str()) {
                    Ok(found) => found,
                    Err(_) => return self.fail_attempt(),
                };
                if self.page == 1 {
                    self.max_page = match PositionsParser::retrieve_page_count(&self.rules, text.as_str()) {
                        Ok(n) => n,
                        Err(_) => return self.fail_attempt(),
                    };
                }
                append_listings(&mut self.listings, &found);
                let delay = self.rules.sleep_timeout_sec;
                if self.page < self.max_page {
                    self.page = self.page + 1;
                    let url = self.rules.get_shop_parsing_url(self.page, &self.category_text(self.category));
                    CrawlAction::FetchPage { url, proxy, delay_secs: delay }
                } else if self.category < self.category_total() - 1 {
                    self.category = self.category + 1;
                    self.page = 1;
                    self.max_page = 0;
                    let url = self.rules.get_shop_parsing_url(1, &self.category_text(self.category));
                    CrawlAction::FetchPage { url, proxy, delay_secs: None }
                } else {
                    self.done = true;
                    let out = copy_listings(&self.listings);
                    CrawlAction::Finish(out)
                }
            },
        }
    }

    fn category_total(&self) -> (r: usize)
        ensures
            r as int == category_count(self.rules),
    {
        if self.rules.url_categories.len() == 0 {
            1
        } else {
            self.rules.url_categories.len()
        }
    }
}

} // verus!

verus! {

/// An event that ends an attempt in failure: no proxy could be acquired,
/// or a page could not be fetched.
pub open spec fn is_failure(e: EventView) -> bool {
    e matches EventView::ProxyAcquired(Err(_)) || e matches EventView::PageFetched(Err(_))
}

/// When three attempts in a row fail (acquiring a proxy, or fetching a page,
/// fails), the crawl asks for a fresh proxy after each of the first two
/// failures and then gives up with `NoProxyAvailable`, holding no listings:
/// no partial result.
pub proof fn lemma_retry_exhaustion(
    shop: ShopView,
    rules: ShopParsingRules,
    start: CrawlView,
    e1: EventView,
    e2: EventView,
    e3: EventView,
)
    requires
        start.attempt == 0,
        is_failure(e1),
        is_failure(e2),
        is_failure(e3),
    ensures
        ({
            let (s1, a1) = next(shop, rules, start, e1);
            let (s2, a2) = next(shop, rules, s1, e2);
            let (s3, a3) = next(shop, rules, s2, e3);
            &&& a1 == ActionView::AcquireProxy
            &&& a2 == ActionView::AcquireProxy
            &&& a3 == ActionView::Fail(ParserError::NoProxyAvailable)
            &&& s3.done
            &&& s3.listings.len() == 0
        }),
{
}

/// A category whose first page shows no page count (0, or just 1) is
/// crawled by that one page: the next fetch is the first page of the next
/// category, or, after the last category, the crawl finishes.
pub proof fn lemma_single_page_category(
    shop: ShopView,
    rules: ShopParsingRules,
    s: CrawlView,
    text: Seq<char>,
)
    requires
        s.page == 1,
        s.proxy is Some,
        0 <= s.category < category_count(rules),
        rows_listings(shop, text, rules.product_table_lookup@, rules) is Ok,
        page_count_of(text, rules.max_page_lookup@) matches Ok(n) && n <= 1,
    ensures
        ({
            let (t, a) = next(shop, rules, s, EventView::PageFetched(Ok(text)));
            if s.category + 1 < category_count(rules) {
                &&& t.category == s.category + 1
                &&& t.page == 1
                &&& a matches ActionView::FetchPage { url, .. }
                &&& url == page_url(rules, s.category + 1, 1)
            } else {
                &&& t.done
                &&& a is Finish
            }
        }),
{
}

} // verus!

verus! {

impl PositionsParser {
    /// Starts the crawl of the next shop in the store's queue, with its
    /// parsing rules: `NoShopsFound` when the queue is empty, and
    /// `FailedToFindShopsRules` with the shop's name when it has no rules.
    /// The shop leaves the queue either way once taken; putting it back is
    /// the caller's decision.
    pub fn begin_crawl(db: &mut InMemoryDB) -> (r: Result<(ShopCrawl, CrawlAction), ParserError>)
        ensures
            old(db).shops@.len() == 0 ==> r == Err::<(ShopCrawl, CrawlAction), ParserError>(
                ParserError::NoShopsFound,
            ),
            old(db).shops@.len() > 0 ==> final(db).shops@ == old(db).shops@.drop_first(),
            old(db).shops@.len() > 0 && rules_index(
                old(db).shops_parsing_rules@,
                old(db).shops@[0]@,
            ) is Some ==> r is Ok,
            old(db).shops@.len() > 0 && rules_index(
                old(db).shops_parsing_rules@,
                old(db).shops@[0]@,
            ) is None ==> (r matches Err(ParserError::FailedToFindShopsRules(name)) && name@
                == old(db).shops@[0].name@),
            r matches Ok(c) ==> old(db).shops@.len() > 0 && (match rules_index(
                old(db).shops_parsing_rules@,
                old(db).shops@[0]@,
            ) {
                Some(i) => same_rules(c.0.rules, old(db).shops_parsing_rules@[i].1),
                None => false,
            }) && c.0.shop@ == old(db).shops@[0]@ && c.0.wf() && c.0@.attempt == 0 && !c.0@.done
                && c.1@ == ActionView::AcquireProxy,
            final(db).shops_parsing_rules == old(db).shops_parsing_rules,
            final(db).proxies == old(db).proxies,
            final(db).positions == old(db).positions,
    {
        let shop = match db.get_top_shop() {
            Ok(s) => s,
            Err(_) => return Err(ParserError::NoShopsFound),
        };
        let rules = match db.get_shop_parsing_rules(&shop) {
            Ok(rules) => rules.duplicate(),
            Err(_) => return Err(ParserError::FailedToFindShopsRules(shop.name.clone())),
        };
        Ok(ShopCrawl::new(shop, rules))
    }
}

} // verus!
