use hoya_crawler::crawl::{CrawlAction, CrawlEvent, ShopCrawl};
use hoya_crawler::errors::ParserError;
use hoya_crawler::extract::PositionsParser;
use hoya_crawler::store::InMemoryDB;
use hoya_crawler::models::{Proxy, Shop, ShopParsingRules};

fn shop() -> Shop {
    Shop {
        id: 3,
        logo: String::new(),
        name: "plants".to_string(),
        url: "https://plants.example".to_string(),
    }
}

fn rules(categories: Vec<String>) -> ShopParsingRules {
    ShopParsingRules {
        url_categories: categories,
        parsing_url: "https://plants.example/__CATEGORY_ID__?page=__PAGE_ID__".to_string(),
        max_page_lookup: "ul.pages li".to_string(),
        product_table_lookup: "div.products".to_string(),
        product_lookup: "div.product".to_string(),
        name_lookup: "span.name".to_string(),
        price_lookup: "span.price".to_string(),
        url_lookup: "a".to_string(),
        look_for_href: true,
        sleep_timeout_sec: Some(2),
    }
}

fn page(name: &str, pages: &str) -> String {
    format!(
        r#"<html><body><ul class="pages">{pages}</ul><div class="products"><div class="product"><span class="name">{name}</span><span class="price">1,00</span><a href="/{name}">x</a></div></div></body></html>"#
    )
}

fn fetched(action: &CrawlAction) -> (String, Option<u64>) {
    match action {
        CrawlAction::FetchPage { url, delay_secs, .. } => (url.clone(), *delay_secs),
        _ => panic!("expected a fetch"),
    }
}

#[test]
fn retry_exhaustion_gives_no_proxy_available() {
    let (mut crawl, first) = ShopCrawl::new(shop(), rules(vec![]));
    assert!(matches!(first, CrawlAction::AcquireProxy));
    let a1 = crawl.step(CrawlEvent::ProxyAcquired(Err(ParserError::NoProxyAvailable)));
    assert!(matches!(a1, CrawlAction::AcquireProxy));
    let a2 = crawl.step(CrawlEvent::ProxyAcquired(Err(ParserError::NoProxyAvailable)));
    assert!(matches!(a2, CrawlAction::AcquireProxy));
    let a3 = crawl.step(CrawlEvent::ProxyAcquired(Err(ParserError::FailedClient)));
    assert!(matches!(a3, CrawlAction::Fail(ParserError::NoProxyAvailable)));
    assert!(crawl.is_done());
    assert!(crawl.listings.is_empty());
}

#[test]
fn failures_mid_crawl_drop_partial_listings() {
    let (mut crawl, _) = ShopCrawl::new(shop(), rules(vec![]));
    for _ in 0..2 {
        crawl.step(CrawlEvent::ProxyAcquired(Ok(Proxy::dummy("1.2.3.4"))));
        let next = crawl.step(CrawlEvent::PageFetched(Ok(page("a", "<li>1</li><li>2</li>"))));
        assert_eq!(fetched(&next).0, "https://plants.example/__CATEGORY_ID__?page=2");
        let after = crawl.step(CrawlEvent::PageFetched(Err(ParserError::RequestTimeOut)));
        assert!(matches!(after, CrawlAction::AcquireProxy));
        assert!(crawl.listings.is_empty());
    }
    crawl.step(CrawlEvent::ProxyAcquired(Ok(Proxy::dummy("1.2.3.4"))));
    let last = crawl.step(CrawlEvent::PageFetched(Err(ParserError::FailedClient)));
    assert!(matches!(last, CrawlAction::Fail(ParserError::NoProxyAvailable)));
}

#[test]
fn no_pagination_fetches_one_page_per_category() {
    let (mut crawl, _) = ShopCrawl::new(shop(), rules(vec!["a".to_string(), "b".to_string()]));
    let first = crawl.step(CrawlEvent::ProxyAcquired(Ok(Proxy::dummy("1.2.3.4"))));
    assert_eq!(fetched(&first), ("https://plants.example/a?page=1".to_string(), None));
    let second = crawl.step(CrawlEvent::PageFetched(Ok(page("x", ""))));
    assert_eq!(fetched(&second), ("https://plants.example/b?page=1".to_string(), None));
    let done = crawl.step(CrawlEvent::PageFetched(Ok(page("y", ""))));
    match done {
        CrawlAction::Finish(listings) => {
            let names: Vec<String> = listings.iter().map(|l| l.full_name.clone()).collect();
            assert_eq!(names, vec!["x".to_string(), "y".to_string()]);
        }
        _ => panic!("expected the crawl to finish"),
    }
    assert!(crawl.is_done());
}

#[test]
fn pages_are_fetched_in_order_with_delay() {
    let (mut crawl, _) = ShopCrawl::new(shop(), rules(vec!["c".to_string()]));
    crawl.step(CrawlEvent::ProxyAcquired(Ok(Proxy::dummy("1.2.3.4"))));
    let p2 = crawl.step(CrawlEvent::PageFetched(Ok(page("p1", "<li>1</li><li>3</li><li>›</li>"))));
    assert_eq!(fetched(&p2), ("https://plants.example/c?page=2".to_string(), Some(2)));
    let p3 = crawl.step(CrawlEvent::PageFetched(Ok(page("p2", ""))));
    assert_eq!(fetched(&p3), ("https://plants.example/c?page=3".to_string(), Some(2)));
    let done = crawl.step(CrawlEvent::PageFetched(Ok(page("p3", ""))));
    match done {
        CrawlAction::Finish(listings) => {
            let urls: Vec<String> = listings.iter().map(|l| l.url.clone()).collect();
            assert_eq!(urls, vec!["/p1".to_string(), "/p2".to_string(), "/p3".to_string()]);
        }
        _ => panic!("expected the crawl to finish"),
    }
}

#[test]
fn begin_crawl_takes_next_shop_with_its_rules() {
    let other = Shop {
        name: "other".to_string(),
        ..Default::default()
    };
    let mut db = InMemoryDB {
        shops: vec![shop(), other.clone()],
        shops_parsing_rules: vec![(shop(), rules(vec!["a".to_string()]))],
        ..Default::default()
    };
    let (crawl, action) = PositionsParser::begin_crawl(&mut db).expect("crawl");
    assert!(matches!(action, CrawlAction::AcquireProxy));
    assert_eq!(crawl.shop, shop());
    assert_eq!(crawl.rules, rules(vec!["a".to_string()]));
    assert_eq!(db.shops, vec![other]);
    let missing = PositionsParser::begin_crawl(&mut db).map(|_| ());
    assert_eq!(missing, Err(ParserError::FailedToFindShopsRules("other".to_string())));
    let empty = PositionsParser::begin_crawl(&mut db).map(|_| ());
    assert_eq!(empty, Err(ParserError::NoShopsFound));
}
