use hoya_crawler::errors::ParserError;
use hoya_crawler::extract::{parse_proxy_table, PositionsParser};
use hoya_crawler::models::{HoyaPosition, Proxy, ProxyParsingRules, Shop, ShopParsingRules};
use hoya_crawler::price::Price;
use hoya_crawler::proxy::ProxyManager;

fn create_test_shop() -> Shop {
    Shop {
        id: 1,
        logo: "path/to/file".to_string(),
        name: "test name".to_string(),
        url: String::new(),
    }
}

const PRODUCT_PAGE: &str = r#"
        <!DOCTYPE html>
        <html lang="en">
          <head><title></title></head>
          <body>
          <div class="products">
            <div class="product">
                <h2>Title</h2>
                <span class="product_name">Test name</span>
                <span class="importer">Test importer</span>
                <div class="price">14,11</div>
                <div class="url">https://example.com</div>
            </div>
           </div>
        </body>
        </html>
        "#;

const PROXY_PAGE: &str = r#"
        <html><body>
        <table class="proxies">
          <thead><tr><th>IP Address</th><th>Port</th><th>Code</th><th>Https</th></tr></thead>
          <tbody>
            <tr><td>1.1.1.1</td><td>8080</td><td>US</td><td>yes</td></tr>
            <tr><td>2.2.2.2</td><td>3128</td><td>DE</td></tr>
            <tr><td>3.3.3.3</td><td>80</td><td>FR</td><td>no</td></tr>
            <tr><td>4.4.4.4</td><td>port</td><td>PL</td><td>no</td></tr>
          </tbody>
        </table>
        </body></html>
        "#;

fn proxy_rules() -> ProxyParsingRules {
    ProxyParsingRules {
        table_lookup: "table.proxies".to_string(),
        head_lookup: "thead th".to_string(),
        row_lookup: "tbody tr".to_string(),
        data_lookup: "td".to_string(),
    }
}

#[test]
fn positions_parser_parse_max_page_works() {
    let html = r#"
        <!DOCTYPE html>
        <html lang="en">
          <head><title></title></head>
          <body>
            <ul class=\"pagination\">
                    <li>1</li>
                    <li>2</li>
                    <li>>></li>
                    <li> ... </li>
                    <li>3</li>
             </ul>
          </body>
        </html>
        "#;

    let shop_rules = ShopParsingRules {
        max_page_lookup: "li".to_string(),
        ..Default::default()
    };
    let max_page = PositionsParser::retrieve_page_count(&shop_rules, html);
    assert!(max_page.is_ok());
    assert_eq!(max_page.unwrap(), 3);
}

#[test]
fn max_page_without_pagination_is_zero() {
    let shop_rules = ShopParsingRules {
        max_page_lookup: "ul.pagination li".to_string(),
        ..Default::default()
    };
    assert_eq!(PositionsParser::retrieve_page_count(&shop_rules, PRODUCT_PAGE), Ok(0));
    let bad = ShopParsingRules {
        max_page_lookup: "li[".to_string(),
        ..Default::default()
    };
    assert_eq!(
        PositionsParser::retrieve_page_count(&bad, PRODUCT_PAGE),
        Err(ParserError::CrawlerSelectorError)
    );
}

#[test]
fn positions_parser_parse_product_href_works() {
    let shop = create_test_shop();
    let shop_rules = ShopParsingRules {
        product_lookup: "div.products > div.product".to_string(),
        name_lookup: "span.product_name".to_string(),
        price_lookup: "div.price".to_string(),
        url_lookup: "a".to_string(),
        look_for_href: true,
        ..Default::default()
    };

    let html = r#"
        <!DOCTYPE html>
        <html lang="en">
          <head><title></title></head>
          <body>
          <div class="products">
            <div class="product">
                <h2>Title</h2>
                <span class="product_name">Test name</span>
                <span class="importer">Test importer</span>
                <div class="price">14,11</div>
                <a href="https://example.com">Name</a>
            </div>
           </div>
        </body>
        </html>
        "#;
    let result = PositionsParser::parse_product_rows(&shop, &shop_rules, html, "html");
    let expected_position = HoyaPosition::new(
        shop.clone(),
        "Test name".to_string(),
        Price { mantissa: 1411, scale: 2 },
        "https://example.com".to_string(),
    );
    assert!(result.is_ok());
    let rows = result.unwrap();
    assert_eq!(rows.len(), 1);
    assert_eq!(rows[0], expected_position);
}

#[test]
fn positions_parser_parse_product_div_works() {
    let shop = create_test_shop();
    let shop_rules = ShopParsingRules {
        product_lookup: "div.products > div.product".to_string(),
        name_lookup: "span.product_name".to_string(),
        price_lookup: "div.price".to_string(),
        url_lookup: "div.url".to_string(),
        ..Default::default()
    };
    let result = PositionsParser::parse_product_rows(&shop, &shop_rules, PRODUCT_PAGE, "html");
    let expected_position = HoyaPosition::new(
        shop.clone(),
        "Test name".to_string(),
        Price { mantissa: 1411, scale: 2 },
        "https://example.com".to_string(),
    );
    assert!(result.is_ok());
    assert_eq!(result.unwrap(), vec![expected_position]);
}

#[test]
fn positions_parser_parse_data_works() {
    let shop = create_test_shop();
    let shop_rules = ShopParsingRules {
        product_table_lookup: "div.products".to_string(),
        product_lookup: "div.products > div.product".to_string(),
        name_lookup: "span.product_name".to_string(),
        price_lookup: "div.price".to_string(),
        url_lookup: "div.url".to_string(),
        ..Default::default()
    };
    let result = PositionsParser::parse_data(&shop, &shop_rules, PRODUCT_PAGE);
    let expected_position = vec![HoyaPosition::new(
        shop.clone(),
        "Test name".to_string(),
        Price { mantissa: 1411, scale: 2 },
        "https://example.com".to_string(),
    )];
    assert!(result.is_ok());
    assert_eq!(result.unwrap(), expected_position);
}

#[test]
fn parse_data_twice_gives_same_listings() {
    let shop = create_test_shop();
    let shop_rules = ShopParsingRules {
        product_table_lookup: "div.products".to_string(),
        product_lookup: "div.product".to_string(),
        name_lookup: "span.product_name".to_string(),
        price_lookup: "div.price".to_string(),
        url_lookup: "div.url".to_string(),
        ..Default::default()
    };
    let first = PositionsParser::parse_data(&shop, &shop_rules, PRODUCT_PAGE);
    let second = PositionsParser::parse_data(&shop, &shop_rules, PRODUCT_PAGE);
    assert_eq!(first, second);
    assert_eq!(first.map(|v| v.len()), Ok(1));
}

#[test]
fn parse_data_spans_tables_in_order_and_handles_empty_pages() {
    let shop = create_test_shop();
    let html = r#"<html><body>
        <div class="t"><div class="p"><b>A
        one</b><i>1,50</i><a href=" /a ">x</a></div></div>
        <div class="t"><div class="p"><b>B</b><i>€2</i><a href="/b">y</a></div>
                       <div class="p"><b> C </b><i>oops</i><a href="/c">z</a></div></div>
        </body></html>"#;
    let rules = ShopParsingRules {
        product_table_lookup: "div.t".to_string(),
        product_lookup: "div.p".to_string(),
        name_lookup: "b".to_string(),
        price_lookup: "i".to_string(),
        url_lookup: "a".to_string(),
        look_for_href: true,
        ..Default::default()
    };
    let v = PositionsParser::parse_data(&shop, &rules, html).expect("listings");
    let names: Vec<String> = v.iter().map(|p| p.full_name.clone()).collect();
    assert_eq!(names, vec!["A         one".to_string(), "B".to_string(), "C".to_string()]);
    assert_eq!(v[0].price, Price { mantissa: 150, scale: 2 });
    assert_eq!(v[1].price, Price { mantissa: 2, scale: 0 });
    assert_eq!(v[2].price, Price { mantissa: -999, scale: 2 });
    assert_eq!(v[0].url, " /a ".to_string());
    let empty = PositionsParser::parse_data(&shop, &rules, "<html><body></body></html>");
    assert_eq!(empty, Ok(vec![]));
}

#[test]
fn parse_data_errors() {
    let shop = create_test_shop();
    let rules = ShopParsingRules {
        product_table_lookup: "div.products".to_string(),
        product_lookup: "div.product".to_string(),
        name_lookup: "span.missing".to_string(),
        price_lookup: "div.price".to_string(),
        url_lookup: "div.url".to_string(),
        ..Default::default()
    };
    assert_eq!(
        PositionsParser::parse_data(&shop, &rules, PRODUCT_PAGE),
        Err(ParserError::ElementNotFound)
    );
    let invalid = ShopParsingRules {
        product_table_lookup: ">>".to_string(),
        ..rules
    };
    assert_eq!(
        PositionsParser::parse_data(&shop, &invalid, PRODUCT_PAGE),
        Err(ParserError::CrawlerSelectorError)
    );
}

#[test]
fn proxy_table_rows_missing_https_are_dropped() {
    let proxies = parse_proxy_table(&proxy_rules(), PROXY_PAGE).expect("table");
    let addresses: Vec<String> = proxies.iter().map(|p| p.to_string()).collect();
    assert_eq!(
        addresses,
        vec!["https://1.1.1.1:8080".to_string(), "http://3.3.3.3:80".to_string()]
    );
}

#[test]
fn proxy_table_errors() {
    assert_eq!(
        parse_proxy_table(&proxy_rules(), "<html><body><p>none</p></body></html>"),
        Err(ParserError::FailedToFindProxyTable)
    );
    let bad = ProxyParsingRules {
        data_lookup: "td[".to_string(),
        ..proxy_rules()
    };
    assert_eq!(parse_proxy_table(&bad, PROXY_PAGE), Err(ParserError::CrawlerSelectorError));
}

#[test]
fn parse_proxy_appends_to_pool() {
    let mut pool = vec![Proxy::dummy("9.9.9.9")];
    assert_eq!(ProxyManager::parse_proxy(PROXY_PAGE, &proxy_rules(), &mut pool), Ok(()));
    assert_eq!(pool.len(), 3);
    assert_eq!(pool[0], Proxy::dummy("9.9.9.9"));
}

#[test]
fn collect_candidates_skips_failed_sources() {
    let pages = vec![
        (proxy_rules(), None),
        (proxy_rules(), Some("<html></html>".to_string())),
        (proxy_rules(), Some(PROXY_PAGE.to_string())),
    ];
    let pool = ProxyManager::collect_candidates(&pages);
    let addresses: Vec<String> = pool.iter().map(|p| p.to_string()).collect();
    assert_eq!(
        addresses,
        vec!["https://1.1.1.1:8080".to_string(), "http://3.3.3.3:80".to_string()]
    );
}

#[test]
fn empty_page_with_bad_field_selector_gives_no_listings() {
    let shop = create_test_shop();
    let rules = ShopParsingRules {
        product_table_lookup: "div.products".to_string(),
        product_lookup: "div.product".to_string(),
        name_lookup: "span[".to_string(),
        price_lookup: "div.price".to_string(),
        url_lookup: "div.url".to_string(),
        ..Default::default()
    };
    assert_eq!(PositionsParser::parse_data(&shop, &rules, "<html><body></body></html>"), Ok(vec![]));
    assert_eq!(
        PositionsParser::parse_data(&shop, &rules, PRODUCT_PAGE),
        Err(ParserError::CrawlerSelectorError)
    );
}

#[test]
fn results_only_functions() {
    let texts = vec![
        vec!["1".to_string()],
        vec!["\n 12 ".to_string()],
        vec!["…".to_string()],
        vec![],
    ];
    assert_eq!(PositionsParser::max_page_of_texts(&texts), 12);
    assert_eq!(PositionsParser::max_page_of_texts(&vec![]), 0);

    let head = vec![
        vec!["IP Address".to_string()],
        vec!["Port".to_string()],
        vec!["Https".to_string()],
    ];
    let rows = vec![
        vec![vec!["5.5.5.5".to_string()], vec!["81".to_string()], vec!["no".to_string()]],
        vec![vec!["6.6.6.6".to_string()], vec!["82".to_string()]],
    ];
    let proxies = hoya_crawler::extract::proxies_from_cells(&head, &rows);
    assert_eq!(proxies, vec![Proxy {
        ip: "5.5.5.5".to_string(),
        port: 81,
        https: false,
    }]);

    let shop = create_test_shop();
    let rules = ShopParsingRules::default();
    let names = vec![Some((vec!["N".to_string()], None))];
    let prices = vec![Some((vec!["3,30".to_string()], None))];
    let urls = vec![Some((vec!["/n".to_string()], None))];
    let listings = PositionsParser::listings_from_fields(&shop, &rules, &names, &prices, &urls)
        .expect("listing");
    assert_eq!(listings[0].price, Price { mantissa: 33, scale: 1 });
    assert_eq!(listings[0].url, "/n".to_string());
    assert_eq!(
        PositionsParser::listings_from_fields(&shop, &rules, &names, &prices, &vec![]),
        Err(ParserError::ElementNotFound)
    );
}
