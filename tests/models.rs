use hoya_crawler::errors::ParserError;
use hoya_crawler::models::{
    HoyaPosition, HoyaType, LookupRecord, Proxy, RulesRecord, Shop, ShopParsingRules, UrlHolders,
};
use hoya_crawler::price::Price;
use hoya_crawler::proxy::ProxyManager;

fn test_shop() -> Shop {
    Shop {
        id: 7,
        logo: "../public/img/home_icon.png".to_string(),
        name: "test name".to_string(),
        url: "https://shop.example.com".to_string(),
    }
}

fn proxy_http() -> Proxy {
    Proxy {
        ip: "127.0.0.1".to_string(),
        port: 80,
        https: false,
    }
}

fn proxy_https() -> Proxy {
    Proxy {
        ip: "127.0.0.1".to_string(),
        port: 80,
        https: true,
    }
}

fn row(https: &str) -> Result<Proxy, ParserError> {
    Proxy::try_from(vec![
        (&"IP Address".to_string(), &"127.0.0.1".to_string()),
        (&"Port".to_string(), &"6464".to_string()),
        (&"Https".to_string(), &https.to_string()),
    ])
}

#[test]
fn data_models_url_holders_to_string_work() {
    assert_eq!(
        UrlHolders::CategoryID.to_string(),
        "__CATEGORY_ID__".to_string()
    );
    assert_eq!(UrlHolders::PageID.to_string(), "__PAGE_ID__".to_string());
}

#[test]
fn data_models_hoya_type_to_string_work() {
    assert_eq!(HoyaType::Cutting.to_string(), "cutting".to_string());
    assert_eq!(HoyaType::Rooted.to_string(), "rooted plant".to_string());
    assert_eq!(HoyaType::Unk.to_string(), "n/a".to_string());
}

#[test]
fn data_models_hoya_positions_equal() {
    let shop = test_shop();
    let name = "test name";
    let price = Price { mantissa: 199, scale: 2 };
    let url = "https://example.com";
    let pos1 = HoyaPosition::new(shop.clone(), name.to_string(), price, url.to_string());
    let pos2 = HoyaPosition::new(shop.clone(), name.to_string(), price, url.to_string());
    assert_eq!(pos1, pos2);
}

#[test]
fn hoya_positions_differ_by_price() {
    let shop = test_shop();
    let pos1 = HoyaPosition::new(
        shop.clone(),
        "a".to_string(),
        Price { mantissa: 199, scale: 2 },
        "u".to_string(),
    );
    let pos2 = HoyaPosition::new(
        shop,
        "a".to_string(),
        Price { mantissa: 299, scale: 2 },
        "u".to_string(),
    );
    assert_ne!(pos1, pos2);
}

#[test]
fn data_models_get_shop_parsing_url_page_and_category_works() {
    let shop_parsing_rules = ShopParsingRules {
        parsing_url: "https://example.com/products/__CATEGORY_ID__?page=__PAGE_ID__".to_string(),
        ..Default::default()
    };
    let url = shop_parsing_rules.get_shop_parsing_url(2, &Some("category_1".to_string()));
    let expected_url = "https://example.com/products/category_1?page=2".to_string();
    assert_eq!(url, expected_url);
}

#[test]
fn data_models_get_shop_parsing_url_no_category_works() {
    let shop_parsing_rules = ShopParsingRules {
        parsing_url: "https://example.com/products/?page=__PAGE_ID__".to_string(),
        ..Default::default()
    };
    let url = shop_parsing_rules.get_shop_parsing_url(2, &None);
    let expected_url = "https://example.com/products/?page=2".to_string();
    assert_eq!(url, expected_url);
}

#[test]
fn get_shop_parsing_url_large_page_number() {
    let rules = ShopParsingRules {
        parsing_url: "p=__PAGE_ID__&q=__PAGE_ID__".to_string(),
        ..Default::default()
    };
    assert_eq!(rules.get_shop_parsing_url(4294967295, &None), "p=4294967295&q=4294967295");
    assert_eq!(rules.get_shop_parsing_url(0, &None), "p=0&q=0");
}

#[test]
fn data_models_proxy_http_to_string_works() {
    assert_eq!(proxy_http().to_string(), "http://127.0.0.1:80".to_string());
}

#[test]
fn data_models_proxy_https_to_string_works() {
    assert_eq!(proxy_https().to_string(), "https://127.0.0.1:80".to_string());
}

#[test]
fn data_models_proxy_from_row_http_works() {
    let proxy = row("no").expect("Failed to create proxy");
    assert_eq!(proxy.to_string(), "http://127.0.0.1:6464".to_string());
}

#[test]
fn data_models_proxy_from_row_https_works() {
    let proxy = row("yes").expect("Failed to create proxy");
    assert_eq!(proxy.to_string(), "https://127.0.0.1:6464".to_string());
}

#[test]
fn database_proxy_http_to_string_works() {
    assert_eq!(proxy_http().to_string(), "http://127.0.0.1:80".to_string());
}

#[test]
fn database_proxy_https_to_string_works() {
    assert_eq!(proxy_https().to_string(), "https://127.0.0.1:80".to_string());
}

#[test]
fn database_proxy_from_row_http_works() {
    let proxy = row("no").expect("Failed to create proxy");
    assert_eq!(proxy.to_string(), "http://127.0.0.1:6464".to_string());
}

#[test]
fn database_proxy_from_row_https_works() {
    let proxy = row("yes").expect("Failed to create proxy");
    assert_eq!(proxy.to_string(), "https://127.0.0.1:6464".to_string());
}

#[test]
fn mod_proxy_http_to_string_works() {
    assert_eq!(proxy_http().to_string(), "http://127.0.0.1:80".to_string());
}

#[test]
fn mod_proxy_https_to_string_works() {
    assert_eq!(proxy_https().to_string(), "https://127.0.0.1:80".to_string());
}

#[test]
fn mod_proxy_from_row_http_works() {
    let proxy = row("no").expect("Failed to create proxy");
    assert_eq!(proxy.to_string(), "http://127.0.0.1:6464".to_string());
}

#[test]
fn mod_proxy_from_row_https_works() {
    let proxy = row("yes").expect("Failed to create proxy");
    assert_eq!(proxy.to_string(), "https://127.0.0.1:6464".to_string());
}

#[test]
fn proxy_row_without_https_is_rejected() {
    let res = Proxy::try_from(vec![
        (&"IP Address".to_string(), &"127.0.0.1".to_string()),
        (&"Port".to_string(), &"6464".to_string()),
    ]);
    assert_eq!(res, Err(ParserError::NotAProxyRow));
}

#[test]
fn proxy_row_with_bad_port_is_rejected() {
    let res = Proxy::try_from(vec![
        (&"IP Address".to_string(), &"127.0.0.1".to_string()),
        (&"Port".to_string(), &"65536".to_string()),
        (&"Https".to_string(), &"yes".to_string()),
    ]);
    assert_eq!(res, Err(ParserError::NotAProxyRow));
    let res = Proxy::try_from(vec![
        (&"Port".to_string(), &"+65535".to_string()),
        (&"IP Address".to_string(), &"10.0.0.1".to_string()),
        (&"Https".to_string(), &"no".to_string()),
    ]);
    assert_eq!(res.map(|p| p.to_string()), Ok("http://10.0.0.1:65535".to_string()));
}

#[test]
fn positions_parser_find_proxy_works() {
    let org_proxies: Vec<_> = vec![
        Proxy::dummy("a"),
        Proxy::dummy("b"),
        Proxy::dummy("c"),
        Proxy::dummy("d"),
    ];
    let mut proxies = org_proxies.clone();
    let mut seen = vec![];
    for _ in 0..proxies.len() {
        let parser = ProxyManager::find_proxy(&mut proxies).expect("Failed to find proxy");
        seen.push(parser);
    }
    assert!(proxies.is_empty());
    assert_eq!(seen.len(), 4);
    for proxy in org_proxies.iter() {
        assert!(seen.contains(proxy));
    }
}

#[test]
fn positions_parser_find_proxy_fails() {
    let mut proxies: Vec<Proxy> = vec![];
    let res = ProxyManager::find_proxy(&mut proxies);
    assert!(res.is_err());
}

#[test]
fn create_client_routes_through_proxy() {
    let cfg = ProxyManager::create_client(&Some(proxy_https())).expect("valid proxy");
    assert_eq!(cfg.redirect_limit, 30);
    assert_eq!(cfg.proxy_url, Some("https://127.0.0.1:80".to_string()));
    assert!(cfg.user_agent.contains("Firefox/120.0"));
    let direct = ProxyManager::create_client(&None).expect("direct client");
    assert_eq!(direct.proxy_url, None);
}

#[test]
fn create_client_rejects_bad_proxy_address() {
    let bad = Proxy {
        ip: "not a host".to_string(),
        port: 80,
        https: false,
    };
    assert_eq!(
        ProxyManager::create_client(&Some(bad)).map(|c| c.proxy_url),
        Err(ParserError::UrlParsingError)
    );
}

#[test]
fn select_proxy_takes_first_healthy() {
    let candidates = vec![Proxy::dummy("a"), Proxy::dummy("b"), Proxy::dummy("c")];
    let chosen = ProxyManager::select_proxy(&candidates, &vec![false, true, true]);
    assert_eq!(chosen, Ok(Proxy::dummy("b")));
    let none = ProxyManager::select_proxy(&candidates, &vec![false, false]);
    assert_eq!(none, Err(ParserError::NoProxyAvailable));
    let empty = ProxyManager::select_proxy(&vec![], &vec![]);
    assert_eq!(empty, Err(ParserError::NoProxyAvailable));
}

#[test]
fn shop_parsing_rules_with_records() {
    let rules = ShopParsingRules::with(
        RulesRecord {
            url: "https://s.example/__CATEGORY_ID__/__PAGE_ID__".to_string(),
            look_for_href: None,
            sleep_timeout_sec: Some(5),
        },
        vec!["a".to_string(), "b".to_string()],
        LookupRecord {
            max_page: "li".to_string(),
            product_table: "table".to_string(),
            product: "tr".to_string(),
            name: "td.n".to_string(),
            price: "td.p".to_string(),
            url: "a".to_string(),
        },
    );
    assert_eq!(rules.url_categories, vec!["a".to_string(), "b".to_string()]);
    assert!(!rules.look_for_href);
    assert_eq!(rules.sleep_timeout_sec, Some(5));
    assert_eq!(rules.product_lookup, "tr".to_string());
    assert_eq!(
        rules.get_shop_parsing_url(3, &Some("b".to_string())),
        "https://s.example/b/3".to_string()
    );
}

#[test]
fn proxy_from_url_reads_host_port_scheme() {
    let p = ProxyManager::proxy_from_url("http://10.0.0.1:3128").expect("proxy");
    assert_eq!(p.to_string(), "http://10.0.0.1:3128".to_string());
    let q = ProxyManager::proxy_from_url("https://proxy.example:8443/x").expect("proxy");
    assert_eq!(q.to_string(), "https://proxy.example:8443".to_string());
    assert_eq!(
        ProxyManager::proxy_from_url("http://10.0.0.1").map(|p| p.port),
        Err(ParserError::UrlParsingError)
    );
    assert_eq!(
        ProxyManager::proxy_from_url("not a url").map(|p| p.port),
        Err(ParserError::UrlParsingError)
    );
}

#[test]
fn proxy_row_columns_in_any_order() {
    let a = Proxy::try_from(vec![
        (&"Https".to_string(), &"yes".to_string()),
        (&"Port".to_string(), &"8080".to_string()),
        (&"Country".to_string(), &"PL".to_string()),
        (&"IP Address".to_string(), &"1.2.3.4".to_string()),
    ]);
    assert_eq!(a.map(|p| p.to_string()), Ok("https://1.2.3.4:8080".to_string()));
}
