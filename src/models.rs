//! The values the crawler reads and produces: shops, their parsing rules,
//! proxies and listings.
use vstd::prelude::*;
use vstd::string::*;
use crate::errors::ParserError;
use crate::price::Price;
use crate::strings::{
    decimal_of, parse_unsigned, parsed_unsigned, replace_all, replaced, to_decimal,
};

verus! {

/// The placeholders that a shop's parsing URL template holds.
#[derive(Debug, Clone, Copy, PartialEq, Eq, Structural)]
pub enum UrlHolders {
    PageID,
    CategoryID,
}

pub open spec fn page_id_text() -> Seq<char> {
    seq!['_', '_', 'P', 'A', 'G', 'E', '_', 'I', 'D', '_', '_']
}

pub open spec fn category_id_text() -> Seq<char> {
    seq!['_', '_', 'C', 'A', 'T', 'E', 'G', 'O', 'R', 'Y', '_', 'I', 'D', '_', '_']
}

impl UrlHolders {
    pub open spec fn text(self) -> Seq<char> {
        match self {
            UrlHolders::PageID => page_id_text(),
            UrlHolders::CategoryID => category_id_text(),
        }
    }

    /// The placeholder as it stands in a URL template.
    pub fn as_str(&self) -> (r: &'static str)
        ensures
            r@ == self.text(),
    {
        let r = match self {
            UrlHolders::PageID => "__PAGE_ID__",
            UrlHolders::CategoryID => "__CATEGORY_ID__",
        };
        proof {
            reveal_strlit("__PAGE_ID__");
            reveal_strlit("__CATEGORY_ID__");
            assert("__PAGE_ID__"@ =~= page_id_text());
            assert("__CATEGORY_ID__"@ =~= category_id_text());
        }
        r
    }

    /// The placeholder as an owned string.
    pub fn to_string(&self) -> (r: String)
        ensures
            r@ == self.text(),
    {
        self.as_str().to_string()
    }
}

/// The kind of plant a listing offers.
#[derive(Debug, Clone, Copy, PartialEq, Eq, Structural)]
pub enum HoyaType {
    Cutting,
    Rooted,
    Unk,
}

impl HoyaType {
    pub open spec fn text(self) -> Seq<char> {
        match self {
            HoyaType::Cutting => seq!['c', 'u', 't', 't', 'i', 'n', 'g'],
            HoyaType::Rooted => seq!['r', 'o', 'o', 't', 'e', 'd', ' ', 'p', 'l', 'a', 'n', 't'],
            HoyaType::Unk => seq!['n', '/', 'a'],
        }
    }

    /// The name shown for this kind.
    pub fn to_string(&self) -> (r: String)
        ensures
            r@ == self.text(),
    {
        let s = match self {
            HoyaType::Cutting => "cutting",
            HoyaType::Rooted => "rooted plant",
            HoyaType::Unk => "n/a",
        };
        proof {
            reveal_strlit("cutting");
            reveal_strlit("rooted plant");
            reveal_strlit("n/a");
        }
        let r = s.to_string();
        assert(r@ =~= self.text());
        r
    }
}

/// A shop whose listings are crawled.
#[derive(Debug, Default, Clone)]
pub struct Shop {
    pub id: u32,
    pub logo: String,
    pub name: String,
    pub url: String,
}

/// A shop's fields as plain values.
pub struct ShopView {
    pub id: u32,
    pub logo: Seq<char>,
    pub name: Seq<char>,
    pub url: Seq<char>,
}

impl View for Shop {
    type V = ShopView;

    open spec fn view(&self) -> ShopView {
        ShopView { id: self.id, logo: self.logo@, name: self.name@, url: self.url@ }
    }
}

impl Shop {
    /// A copy of this shop with the same fields.
    pub fn duplicate(&self) -> (r: Shop)
        ensures
            r@ == self@,
    {
        Shop {
            id: self.id,
            logo: self.logo.clone(),
            name: self.name.clone(),
            url: self.url.clone(),
        }
    }
}

impl PartialEq for Shop {
    fn eq(&self, other: &Shop) -> (r: bool) {
        self.id == other.id && self.logo == other.logo && self.name == other.name && self.url
            == other.url
    }
}

impl vstd::std_specs::cmp::PartialEqSpecImpl for Shop {
    open spec fn obeys_eq_spec() -> bool {
        true
    }

    open spec fn eq_spec(&self, other: &Shop) -> bool {
        self@ == other@
    }
}

/// An HTTP proxy: where it listens and whether it speaks HTTPS.
#[derive(Debug, Default, Clone)]
pub struct Proxy {
    pub ip: String,
    pub port: u16,
    pub https: bool,
}

/// A proxy's fields as plain values.
pub struct ProxyView {
    pub ip: Seq<char>,
    pub port: u16,
    pub https: bool,
}

impl View for Proxy {
    type V = ProxyView;

    open spec fn view(&self) -> ProxyView {
        ProxyView { ip: self.ip@, port: self.port, https: self.https }
    }
}

pub open spec fn scheme_text(https: bool) -> Seq<char> {
    if https {
        seq!['h', 't', 't', 'p', 's']
    } else {
        seq!['h', 't', 't', 'p']
    }
}

/// `scheme://ip:port`, the address through which traffic is routed.
pub open spec fn proxy_address(p: ProxyView) -> Seq<char> {
    scheme_text(p.https) + seq![':', '/', '/'] + p.ip + seq![':'] + decimal_of(p.port as nat)
}

pub open spec fn ip_address_column() -> Seq<char> {
    seq!['I', 'P', ' ', 'A', 'd', 'd', 'r', 'e', 's', 's']
}

pub open spec fn port_column() -> Seq<char> {
    seq!['P', 'o', 'r', 't']
}

pub open spec fn https_column() -> Seq<char> {
    seq!['H', 't', 't', 'p', 's']
}

pub open spec fn yes_text() -> Seq<char> {
    seq!['y', 'e', 's']
}

/// The value of the last cell of `row` under the column `name`.
pub open spec fn last_value(row: Seq<(Seq<char>, Seq<char>)>, name: Seq<char>) -> Option<Seq<char>>
    decreases row.len(),
{
    if row.len() == 0 {
        None
    } else if row.last().0 == name {
        Some(row.last().1)
    } else {
        last_value(row.drop_last(), name)
    }
}

/// The port a row gives: the last "Port" cell, read as a 16-bit number.
pub open spec fn row_port(row: Seq<(Seq<char>, Seq<char>)>) -> Option<nat> {
    match last_value(row, port_column()) {
        Some(v) => parsed_unsigned(v, 65535),
        None => None,
    }
}

/// The proxy that a table row of (column name, cell text) pairs describes:
/// it needs an "IP Address", a readable "Port" and an "Https" cell, where
/// "yes" means HTTPS. Where a column repeats, its last cell counts.
pub open spec fn proxy_of_row(row: Seq<(Seq<char>, Seq<char>)>) -> Option<ProxyView> {
    match (last_value(row, ip_address_column()), row_port(row), last_value(row, https_column())) {
        (Some(ip), Some(port), Some(https)) => Some(
            ProxyView { ip, port: port as u16, https: https == yes_text() },
        ),
        _ => None,
    }
}

/// The (column name, cell text) pairs of a row as plain values.
pub open spec fn pairs_view(row: Seq<(String, String)>) -> Seq<(Seq<char>, Seq<char>)> {
    row.map_values(|p: (String, String)| (p.0@, p.1@))
}

impl Proxy {
    /// A plain-HTTP proxy on port 1 at the given address.
    pub fn dummy(ip: &str) -> (r: Proxy)
        ensures
            r@ == (ProxyView { ip: ip@, port: 1, https: false }),
    {
        Proxy { ip: ip.to_string(), port: 1, https: false }
    }

    /// A copy of this proxy with the same fields.
    pub fn duplicate(&self) -> (r: Proxy)
        ensures
            r@ == self@,
    {
        Proxy { ip: self.ip.clone(), port: self.port, https: self.https }
    }

    /// The address of the proxy, `scheme://ip:port`.
    pub fn to_string(&self) -> (r: String)
        ensures
            r@ == proxy_address(self@),
    {
        let scheme = if self.https { "https" } else { "http" };
        proof {
            reveal_strlit("https");
            reveal_strlit("http");
            reveal_strlit("://");
            reveal_strlit(":");
        }
        let mut s = scheme.to_string();
        s.append("://");
        s.append(self.ip.as_str());
        s.append(":");
        let port = to_decimal(self.port as u64);
        s.append(port.as_str());
        assert(s@ =~= proxy_address(self@));
        s
    }

    /// Builds a proxy from a table row of (column name, cell text) pairs;
    /// `None` where the row lacks an address, a readable port or an HTTPS flag.
    pub fn from_row(row: &Vec<(String, String)>) -> (r: Option<Proxy>)
        ensures
            r matches Some(p) ==> proxy_of_row(pairs_view(row@)) == Some(p@),
            r is None ==> proxy_of_row(pairs_view(row@)) is None,
    {
        let ip_name = "IP Address".to_string();
        let port_name = "Port".to_string();
        let https_name = "Https".to_string();
        let yes = "yes".to_string();
        proof {
            reveal_strlit("IP Address");
            reveal_strlit("Port");
            reveal_strlit("Https");
            reveal_strlit("yes");
            assert(ip_name@ =~= ip_address_column());
            assert(port_name@ =~= port_column());
            assert(https_name@ =~= https_column());
            assert(yes@ =~= yes_text());
        }
        let mut ip: Option<String> = None;
        let mut port_text: Option<String> = None;
        let mut https: Option<bool> = None;
        let mut i: usize = 0;
        while i < row.len()
            invariant
                i <= row@.len(),
                ip_name@ == ip_address_column(),
                port_name@ == port_column(),
                https_name@ == https_column(),
                yes@ == yes_text(),
                ({
                    let pv = pairs_view(row@.subrange(0, i as int));
                    &&& (match ip {
                        Some(v) => last_value(pv, ip_address_column()) == Some(v@),
                        None => last_value(pv, ip_address_column()) is None,
                    })
                    &&& (match port_text {
                        Some(v) => last_value(pv, port_column()) == Some(v@),
                        None => last_value(pv, port_column()) is None,
                    })
                    &&& (match https {
                        Some(b) => last_value(pv, https_column()) matches Some(h) && b == (h
                            == yes_text()),
                        None => last_value(pv, https_column()) is None,
                    })
                }),
            decreases row@.len() - i,
        {
            let ghost prev = pairs_view(row@.subrange(0, i as int));
            let ghost next = pairs_view(row@.subrange(0, i + 1));
            assert(next.drop_last() =~= prev);
            assert(next.last() == (row@[i as int].0@, row@[i as int].1@));
            let (name, value) = (&row[i].0, &row[i].1);
            if *name == ip_name {
                ip = Some(value.clone());
            } else if *name == port_name {
                port_text = Some(value.clone());
            } else if *name == https_name {
                https = Some(*value == yes);
            }
            i = i + 1;
        }
        assert(row@.subrange(0, row@.len() as int) =~= row@);
        match (ip, port_text, https) {
            (Some(ip), Some(pt), Some(h)) => {
                match parse_unsigned(pt.as_str(), 65535) {
                    Some(port) => Some(Proxy { ip, port: port as u16, https: h }),
                    None => None,
                }
            },
            _ => None,
        }
    }
}

/// The (column name, cell text) pairs of a borrowed row as plain values.
pub open spec fn borrowed_pairs_view<'a>(row: Seq<(&'a String, &'a String)>) -> Seq<
    (Seq<char>, Seq<char>),
> {
    row.map_values(|q: (&'a String, &'a String)| (q.0@, q.1@))
}

impl<'a> TryFrom<Vec<(&'a String, &'a String)>> for Proxy {
    type Error = ParserError;

    /// The proxy a row of (column name, cell text) pairs describes;
    /// `NotAProxyRow` where it lacks an address, a readable port or an
    /// HTTPS flag.
    fn try_from(row: Vec<(&'a String, &'a String)>) -> (r: Result<Proxy, ParserError>)
        ensures
            r matches Ok(p) ==> proxy_of_row(borrowed_pairs_view(row@)) == Some(p@),
            r is Err ==> r == Err::<Proxy, ParserError>(ParserError::NotAProxyRow)
                && proxy_of_row(borrowed_pairs_view(row@)) is None,
    {
        let mut owned: Vec<(String, String)> = Vec::new();
        let mut i: usize = 0;
        while i < row.len()
            invariant
                i <= row@.len(),
                pairs_view(owned@) =~= borrowed_pairs_view(row@.subrange(0, i as int)),
            decreases row@.len() - i,
        {
            let a = row[i].0.clone();
            let b = row[i].1.clone();
            let ghost before = owned@;
            owned.push((a, b));
            assert(row@.subrange(0, i + 1) =~= row@.subrange(0, i as int).push(row@[i as int]));
            assert(pairs_view(owned@) =~= pairs_view(before).push((a@, b@)));
            i = i + 1;
        }
        assert(row@.subrange(0, row@.len() as int) =~= row@);
        match Proxy::from_row(&owned) {
            Some(p) => Ok(p),
            None => Err(ParserError::NotAProxyRow),
        }
    }
}

impl<'a> vstd::std_specs::convert::TryFromSpecImpl<Vec<(&'a String, &'a String)>> for Proxy {
    /// The contract lives on `Proxy::from_row`, which this conversion calls.
    open spec fn obeys_try_from_spec() -> bool {
        false
    }

    open spec fn try_from_spec(v: Vec<(&'a String, &'a String)>) -> Result<Proxy, ParserError> {
        Err(ParserError::NotAProxyRow)
    }
}

impl PartialEq for Proxy {
    fn eq(&self, other: &Proxy) -> (r: bool) {
        self.ip == other.ip && self.port == other.port && self.https == other.https
    }
}

impl vstd::std_specs::cmp::PartialEqSpecImpl for Proxy {
    open spec fn obeys_eq_spec() -> bool {
        true
    }

    open spec fn eq_spec(&self, other: &Proxy) -> bool {
        self@ == other@
    }
}

} // verus!

verus! {

/// Selectors that locate the proxy table on a proxy-list page.
#[derive(Debug, Default, Clone, PartialEq)]
pub struct ProxyParsingRules {
    pub table_lookup: String,
    pub head_lookup: String,
    pub row_lookup: String,
    pub data_lookup: String,
}

/// How a shop is paginated and where its listings stand in a page.
#[derive(Debug, Default, Clone, PartialEq)]
pub struct ShopParsingRules {
    pub url_categories: Vec<String>,
    pub parsing_url: String,
    pub max_page_lookup: String,
    pub product_table_lookup: String,
    pub product_lookup: String,
    pub name_lookup: String,
    pub price_lookup: String,
    pub url_lookup: String,
    pub look_for_href: bool,
    pub sleep_timeout_sec: Option<u64>,
}

/// A shop's stored rule record: its URL template and crawl options.
#[derive(Debug, Default, Clone)]
pub struct RulesRecord {
    pub url: String,
    pub look_for_href: Option<bool>,
    pub sleep_timeout_sec: Option<u64>,
}

/// A shop's stored selector record.
#[derive(Debug, Default, Clone)]
pub struct LookupRecord {
    pub max_page: String,
    pub product_table: String,
    pub product: String,
    pub name: String,
    pub price: String,
    pub url: String,
}

/// A list of strings as plain values.
pub open spec fn strings_view(v: Seq<String>) -> Seq<Seq<char>> {
    v.map_values(|s: String| s@)
}

/// The URL of page `page` (and of `category`, where one is given) of a shop.
pub open spec fn parsing_url_of(template: Seq<char>, page: nat, category: Option<Seq<char>>) -> Seq<
    char,
> {
    let with_page = replaced(template, page_id_text(), decimal_of(page));
    match category {
        Some(c) => replaced(with_page, category_id_text(), c),
        None => with_page,
    }
}

fn copy_strings(v: &Vec<String>) -> (r: Vec<String>)
    ensures
        strings_view(r@) == strings_view(v@),
{
    let mut r: Vec<String> = Vec::new();
    let mut i: usize = 0;
    while i < v.len()
        invariant
            i <= v@.len(),
            strings_view(r@) =~= strings_view(v@.subrange(0, i as int)),
        decreases v@.len() - i,
    {
        let c = v[i].clone();
        let ghost before = r@;
        r.push(c);
        assert(r@ =~= before.push(c));
        assert(v@.subrange(0, i + 1) =~= v@.subrange(0, i as int).push(v@[i as int]));
        assert(strings_view(r@) =~= strings_view(before).push(c@));
        i = i + 1;
    }
    assert(v@.subrange(0, v@.len() as int) =~= v@);
    r
}

/// Two rule sets agree field by field.
pub open spec fn same_rules(a: ShopParsingRules, b: ShopParsingRules) -> bool {
    &&& strings_view(a.url_categories@) == strings_view(b.url_categories@)
    &&& a.parsing_url@ == b.parsing_url@
    &&& a.max_page_lookup@ == b.max_page_lookup@
    &&& a.product_table_lookup@ == b.product_table_lookup@
    &&& a.product_lookup@ == b.product_lookup@
    &&& a.name_lookup@ == b.name_lookup@
    &&& a.price_lookup@ == b.price_lookup@
    &&& a.url_lookup@ == b.url_lookup@
    &&& a.look_for_href == b.look_for_href
    &&& a.sleep_timeout_sec == b.sleep_timeout_sec
}

impl ShopParsingRules {
    /// A copy of these rules.
    pub fn duplicate(&self) -> (r: ShopParsingRules)
        ensures
            same_rules(r, *self),
    {
        ShopParsingRules {
            url_categories: copy_strings(&self.url_categories),
            parsing_url: self.parsing_url.clone(),
            max_page_lookup: self.max_page_lookup.clone(),
            product_table_lookup: self.product_table_lookup.clone(),
            product_lookup: self.product_lookup.clone(),
            name_lookup: self.name_lookup.clone(),
            price_lookup: self.price_lookup.clone(),
            url_lookup: self.url_lookup.clone(),
            look_for_href: self.look_for_href,
            sleep_timeout_sec: self.sleep_timeout_sec,
        }
    }

    /// Assembles the rules from a shop's stored records.
    pub fn with(rules: RulesRecord, categories: Vec<String>, lookups: LookupRecord) -> (r: Self)
        ensures
            strings_view(r.url_categories@) == strings_view(categories@),
            r.parsing_url@ == rules.url@,
            r.max_page_lookup@ == lookups.max_page@,
            r.product_table_lookup@ == lookups.product_table@,
            r.product_lookup@ == lookups.product@,
            r.name_lookup@ == lookups.name@,
            r.price_lookup@ == lookups.price@,
            r.url_lookup@ == lookups.url@,
            r.look_for_href == (rules.look_for_href == Some(true)),
            r.sleep_timeout_sec == rules.sleep_timeout_sec,
    {
        let look_for_href = match rules.look_for_href {
            Some(b) => b,
            None => false,
        };
        ShopParsingRules {
            url_categories: copy_strings(&categories),
            parsing_url: rules.url,
            max_page_lookup: lookups.max_page,
            product_table_lookup: lookups.product_table,
            product_lookup: lookups.product,
            name_lookup: lookups.name,
            price_lookup: lookups.price,
            url_lookup: lookups.url,
            look_for_href,
            sleep_timeout_sec: rules.sleep_timeout_sec,
        }
    }

    /// The URL of page `page_number` of the shop, in `category` where one is
    /// given: the placeholders of the template are filled in.
    pub fn get_shop_parsing_url(&self, page_number: u32, category: &Option<String>) -> (r: String)
        ensures
            r@ == parsing_url_of(
                self.parsing_url@,
                page_number as nat,
                match category {
                    Some(c) => Some(c@),
                    None => None,
                },
            ),
    {
        let page = to_decimal(page_number as u64);
        let url = replace_all(self.parsing_url.as_str(), UrlHolders::PageID.as_str(), page.as_str());
        match category {
            Some(c) => replace_all(url.as_str(), UrlHolders::CategoryID.as_str(), c.as_str()),
            None => url,
        }
    }
}

/// One product price found on a shop's page.
#[derive(Debug, Clone)]
pub struct HoyaPosition {
    pub shop: Shop,
    pub full_name: String,
    pub price: Price,
    pub url: String,
}

/// A listing's fields as plain values.
pub struct HoyaPositionView {
    pub shop: ShopView,
    pub full_name: Seq<char>,
    pub price: Price,
    pub url: Seq<char>,
}

impl View for HoyaPosition {
    type V = HoyaPositionView;

    open spec fn view(&self) -> HoyaPositionView {
        HoyaPositionView {
            shop: self.shop@,
            full_name: self.full_name@,
            price: self.price,
            url: self.url@,
        }
    }
}

impl HoyaPosition {
    pub fn new(shop: Shop, full_name: String, price: Price, url: String) -> (r: Self)
        ensures
            r@ == (HoyaPositionView {
                shop: shop@,
                full_name: full_name@,
                price,
                url: url@,
            }),
    {
        HoyaPosition { shop, full_name, price, url }
    }
}

impl HoyaPosition {
    /// A copy of this listing with the same fields.
    pub fn clone_listing(&self) -> (r: HoyaPosition)
        ensures
            r@ == self@,
    {
        HoyaPosition {
            shop: self.shop.duplicate(),
            full_name: self.full_name.clone(),
            price: self.price,
            url: self.url.clone(),
        }
    }
}

impl PartialEq for HoyaPosition {
    fn eq(&self, other: &HoyaPosition) -> (r: bool) {
        self.shop == other.shop && self.full_name == other.full_name && self.price == other.price
            && self.url == other.url
    }
}

impl vstd::std_specs::cmp::PartialEqSpecImpl for HoyaPosition {
    open spec fn obeys_eq_spec() -> bool {
        true
    }

    open spec fn eq_spec(&self, other: &HoyaPosition) -> bool {
        &&& self.shop@ == other.shop@
        &&& self.full_name@ == other.full_name@
        &&& self.price.canonical() == other.price.canonical()
        &&& self.url@ == other.url@
    }
}

} // verus!

verus! {

/// No two cells of the row have the same column name.
pub open spec fn distinct_names(row: Seq<(Seq<char>, Seq<char>)>) -> bool {
    forall|i: int, j: int| 0 <= i < j < row.len() ==> #[trigger] row[i].0 != #[trigger] row[j].0
}

proof fn lemma_last_value_distinct(row: Seq<(Seq<char>, Seq<char>)>, name: Seq<char>)
    requires
        distinct_names(row),
    ensures
        forall|i: int| 0 <= i < row.len() && row[i].0 == name ==> last_value(row, name) == Some(
            #[trigger] row[i].1,
        ),
        (forall|i: int| 0 <= i < row.len() ==> #[trigger] row[i].0 != name) ==> last_value(
            row,
            name,
        ) is None,
    decreases row.len(),
{
    if row.len() > 0 {
        let r = row.drop_last();
        assert(distinct_names(r)) by {
            assert forall|i: int, j: int| 0 <= i < j < r.len() implies #[trigger] r[i].0
                != #[trigger] r[j].0 by {
                assert(r[i] == row[i] && r[j] == row[j]);
            }
        }
        lemma_last_value_distinct(r, name);
        assert forall|i: int| 0 <= i < row.len() && row[i].0 == name implies last_value(row, name)
            == Some(#[trigger] row[i].1) by {
            if i < row.len() - 1 {
                assert(r[i] == row[i]);
                assert(row[i].0 != row[row.len() - 1].0);
            }
        }
        if forall|i: int| 0 <= i < row.len() ==> #[trigger] row[i].0 != name {
            assert forall|i: int| 0 <= i < r.len() implies #[trigger] r[i].0 != name by {
                assert(r[i] == row[i]);
            }
            assert(row[row.len() - 1].0 != name);
        }
    }
}

proof fn lemma_same_column(
    row1: Seq<(Seq<char>, Seq<char>)>,
    row2: Seq<(Seq<char>, Seq<char>)>,
    name: Seq<char>,
)
    requires
        distinct_names(row1),
        distinct_names(row2),
        forall|p: (Seq<char>, Seq<char>)| row1.contains(p) <==> row2.contains(p),
    ensures
        last_value(row1, name) == last_value(row2, name),
{
    lemma_last_value_distinct(row1, name);
    lemma_last_value_distinct(row2, name);
    if exists|i: int| 0 <= i < row1.len() && row1[i].0 == name {
        let i = choose|i: int| 0 <= i < row1.len() && row1[i].0 == name;
        assert(row1.contains(row1[i]));
        let j = choose|j: int| 0 <= j < row2.len() && row2[j] == row1[i];
        assert(row2[j].0 == name);
        assert(last_value(row1, name) == Some(row1[i].1));
        assert(last_value(row2, name) == Some(row2[j].1));
    } else if exists|j: int| 0 <= j < row2.len() && row2[j].0 == name {
        let j = choose|j: int| 0 <= j < row2.len() && row2[j].0 == name;
        assert(row2.contains(row2[j]));
        let i = choose|i: int| 0 <= i < row1.len() && row1[i] == row2[j];
        assert(row1[i].0 == name);
    } else {
        assert forall|i: int| 0 <= i < row1.len() implies #[trigger] row1[i].0 != name by {}
        assert forall|i: int| 0 <= i < row2.len() implies #[trigger] row2[i].0 != name by {}
    }
}

/// Cells are matched by column name, not by position: two rows with
/// distinct column names and the same (name, text) cells, in any order,
/// describe the same proxy, or both none.
pub proof fn lemma_row_by_column_name(
    row1: Seq<(Seq<char>, Seq<char>)>,
    row2: Seq<(Seq<char>, Seq<char>)>,
)
    requires
        distinct_names(row1),
        distinct_names(row2),
        forall|p: (Seq<char>, Seq<char>)| row1.contains(p) <==> row2.contains(p),
    ensures
        proxy_of_row(row1) == proxy_of_row(row2),
{
    lemma_same_column(row1, row2, ip_address_column());
    lemma_same_column(row1, row2, port_column());
    lemma_same_column(row1, row2, https_column());
}

/// A row without an "Https" cell describes no proxy: the flag is never
/// given a default.
pub proof fn lemma_row_without_https_is_none(row: Seq<(Seq<char>, Seq<char>)>)
    requires
        forall|i: int| 0 <= i < row.len() ==> #[trigger] row[i].0 != https_column(),
    ensures
        proxy_of_row(row) is None,
{
    lemma_last_value_absent(row, https_column());
}

proof fn lemma_last_value_absent(row: Seq<(Seq<char>, Seq<char>)>, name: Seq<char>)
    requires
        forall|i: int| 0 <= i < row.len() ==> #[trigger] row[i].0 != name,
    ensures
        last_value(row, name) is None,
    decreases row.len(),
{
    if row.len() > 0 {
        let r = row.drop_last();
        assert forall|i: int| 0 <= i < r.len() implies #[trigger] r[i].0 != name by {
            assert(r[i] == row[i]);
        }
        lemma_last_value_absent(r, name);
        assert(row[row.len() - 1].0 != name);
    }
}

} // verus!
