use hoya_crawler::price::{clean_price, Price};

fn as_f32(p: Price) -> f32 {
    p.mantissa as f32 / 10f32.powi(p.scale as i32)
}

const PRICE_DEFAULT: Price = Price {
    mantissa: -999,
    scale: 2,
};

#[test]
fn positions_parser_clean_price_comma_endeuro_works() {
    let price = clean_price("10,11\u{a0}€");
    assert_eq!(price, Price { mantissa: 1011, scale: 2 });
    assert!((as_f32(price) - 10.11).abs() < 1e-5);
}

#[test]
fn positions_parser_clean_price_point_endeuro_works() {
    assert_eq!(clean_price("10.11€"), Price { mantissa: 1011, scale: 2 });
}

#[test]
fn positions_parser_clean_price_point_endspaceeuro_works() {
    assert_eq!(clean_price("10.11\u{a0}€"), Price { mantissa: 1011, scale: 2 });
}

#[test]
fn positions_parser_clean_price_comma_starteuro_works() {
    assert_eq!(clean_price("€10,11"), Price { mantissa: 1011, scale: 2 });
}

#[test]
fn positions_parser_clean_price_point_starteuro_works() {
    assert_eq!(clean_price("€10.11"), Price { mantissa: 1011, scale: 2 });
}

#[test]
fn positions_parser_clean_price_point_startspaceeuro_works() {
    assert_eq!(clean_price("€\u{a0}10.11"), Price { mantissa: 1011, scale: 2 });
}

#[test]
fn clean_price_fails() {
    let price = clean_price("abc");
    assert_eq!(price, PRICE_DEFAULT);
    assert!((as_f32(price) - -9.99).abs() < 1e-5);
}

#[test]
fn clean_price_zloty_and_spaces() {
    assert_eq!(clean_price("  25,5 zł "), Price { mantissa: 255, scale: 1 });
    assert_eq!(clean_price("7"), Price { mantissa: 7, scale: 0 });
    assert_eq!(clean_price("7."), Price { mantissa: 7, scale: 0 });
}

#[test]
fn clean_price_malformed_inputs_give_sentinel() {
    assert_eq!(clean_price(""), PRICE_DEFAULT);
    assert_eq!(clean_price("1.2.3"), PRICE_DEFAULT);
    assert_eq!(clean_price("12 34"), PRICE_DEFAULT);
    assert_eq!(clean_price("1234567890123456789"), PRICE_DEFAULT);
    assert_eq!(
        clean_price("123456789012345678"),
        Price { mantissa: 123456789012345678, scale: 0 }
    );
}

#[test]
fn prices_compare_by_value() {
    assert_eq!(Price { mantissa: 1010, scale: 3 }, Price { mantissa: 101, scale: 2 });
    assert_eq!(clean_price("10,10"), clean_price("10.1"));
    assert_ne!(Price { mantissa: 1011, scale: 3 }, Price { mantissa: 101, scale: 2 });
    assert_eq!(Price { mantissa: -9990, scale: 3 }, PRICE_DEFAULT);
    assert_eq!(Price { mantissa: 0, scale: 5 }, Price { mantissa: 0, scale: 0 });
}

#[test]
fn clean_price_reads_float_forms() {
    assert_eq!(clean_price(".5"), Price { mantissa: 5, scale: 1 });
    assert_eq!(clean_price("-5"), Price { mantissa: -5, scale: 0 });
    assert_eq!(clean_price("+5"), Price { mantissa: 5, scale: 0 });
    assert_eq!(clean_price("1e3"), Price { mantissa: 1000, scale: 0 });
    assert_eq!(clean_price("1.5E-2"), Price { mantissa: 15, scale: 3 });
    assert_eq!(clean_price("-2,5e+1 €"), Price { mantissa: -25, scale: 0 });
    assert_eq!(clean_price("1e-+3"), PRICE_DEFAULT);
    assert_eq!(clean_price("e3"), PRICE_DEFAULT);
    assert_eq!(clean_price("1e"), PRICE_DEFAULT);
    assert_eq!(clean_price("--1"), PRICE_DEFAULT);
    assert_eq!(clean_price("."), PRICE_DEFAULT);
}
