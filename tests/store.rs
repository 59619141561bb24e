use hoya_crawler::models::{HoyaPosition, Proxy, ProxyParsingRules, Shop, ShopParsingRules};
use hoya_crawler::price::Price;
use hoya_crawler::store::{DBError, InMemoryDB};

fn create_test_shop(name: &str) -> Shop {
    Shop {
        logo: "path/to/file".to_string(),
        name: name.to_string(),
        ..Default::default()
    }
}

fn positions_all_roundtrip() {
    let mut db = InMemoryDB::default();
    let name = "test shop";
    let shop = create_test_shop(name);
    let hoya_positions = vec![HoyaPosition::new(
        shop,
        "full name".to_string(),
        Price { mantissa: 12, scale: 1 },
        "https://example.com".to_string(),
    )];
    db.save_positions(hoya_positions.clone())
        .expect("Failed to save positions");
    let expected_result = vec![(name.to_string(), hoya_positions)];
    let result = db.get_positions_all();
    assert_eq!(*result, expected_result);
}

fn proxies_roundtrip() {
    let expected_result = vec![Proxy::dummy("a"), Proxy::dummy("b"), Proxy::dummy("c")];
    let mut db = InMemoryDB::default();
    db.save_proxies(expected_result.clone())
        .expect("Failed to save proxies");
    let result = db.get_proxies();
    assert_eq!(result, expected_result);
}

fn proxy_rules_read() {
    let url = "https://example.com".to_string();
    let rules = ProxyParsingRules::default();
    let expected_result = vec![(url.clone(), rules.clone())];
    let db = InMemoryDB {
        proxy_parsing_rules: expected_result.clone(),
        ..Default::default()
    };
    let result = db.get_proxy_parsing_rules();
    assert_eq!(*result, expected_result);
}

fn all_shops() {
    let shop = create_test_shop("a");
    let expected_vec = vec![shop];
    let db = InMemoryDB {
        shops: expected_vec.clone(),
        ..Default::default()
    };
    let result = db.get_all_shops();
    assert_eq!(result, expected_vec);
}

fn top_shop_push_back() {
    let shop1 = create_test_shop("a");
    let shop2 = create_test_shop("b");
    let mut db = InMemoryDB {
        shops: vec![shop1.clone(), shop2.clone()],
        ..Default::default()
    };
    let result1 = db.get_top_shop();
    assert!(result1.is_ok());
    assert_eq!(result1.unwrap(), shop1);
    db.push_shop_back(&shop1).expect("Failed to oush shop back");
    let result2 = db.get_top_shop();
    assert!(result2.is_ok());
    assert_eq!(result2.unwrap(), shop2);
}

#[test]
fn in_memory_set_get_positions_all_works() {
    positions_all_roundtrip();
}

#[test]
fn mod_set_get_positions_all_works() {
    positions_all_roundtrip();
}

#[test]
fn in_memory_set_get_proxies_works() {
    proxies_roundtrip();
}

#[test]
fn mod_set_get_proxies_works() {
    proxies_roundtrip();
}

#[test]
fn in_memory_get_proxy_parsing_rules_work() {
    proxy_rules_read();
}

#[test]
fn mod_get_proxy_parsing_rules_work() {
    proxy_rules_read();
}

#[test]
fn in_memory_get_all_shops_works() {
    all_shops();
}

#[test]
fn mod_get_all_shops_works() {
    all_shops();
}

#[test]
fn in_memory_get_top_shop_push_back_works() {
    top_shop_push_back();
}

#[test]
fn mod_get_top_shop_push_back_works() {
    top_shop_push_back();
}

#[test]
fn empty_queue_and_unknown_rules() {
    let mut db = InMemoryDB::default();
    assert_eq!(db.get_top_shop(), Err(DBError::ShopNotFound));
    assert_eq!(
        db.get_shop_parsing_rules(&create_test_shop("x")),
        Err(DBError::ParsingRulesNotFound)
    );
    assert_eq!(db.save_positions(vec![]), Err(DBError::NoProductShopPositions));
}

#[test]
fn shop_rules_lookup_and_positions_replace() {
    let a = create_test_shop("a");
    let rules = ShopParsingRules {
        parsing_url: "https://a.example/?p=__PAGE_ID__".to_string(),
        ..Default::default()
    };
    let mut db = InMemoryDB {
        shops_parsing_rules: vec![(create_test_shop("b"), ShopParsingRules::default()), (a.clone(), rules.clone())],
        ..Default::default()
    };
    assert_eq!(db.get_shop_parsing_rules(&a), Ok(&rules));
    let first = vec![HoyaPosition::new(a.clone(), "x".to_string(), Price { mantissa: 1, scale: 0 }, "u".to_string())];
    let second = vec![HoyaPosition::new(a.clone(), "y".to_string(), Price { mantissa: 2, scale: 0 }, "v".to_string())];
    db.save_positions(first).unwrap();
    db.save_positions(second.clone()).unwrap();
    assert_eq!(*db.get_positions_all(), vec![("a".to_string(), second)]);
}
