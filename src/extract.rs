//! Turning documents into listings, page counts and proxy candidates.
use vstd::prelude::*;
use vstd::string::*;
use crate::dom::{
    cell_text_nodes, first_field_matches, matched_text_nodes, nested_text_nodes,
    select_cell_text_nodes, select_first_fields, select_nested_text_nodes, select_text_nodes,
    valid_selector, ElementText, FieldMatch,
};
use crate::errors::ParserError;
use crate::models::{
    https_column, last_value, pairs_view, proxy_of_row, HoyaPosition, HoyaPositionView, Proxy, ProxyParsingRules,
    ProxyView, Shop, ShopParsingRules, ShopView,
};
use crate::price::{clean_price, normalized};
use crate::strings::{parse_unsigned, parsed_unsigned, push_char, replace_all, replaced, trim, trim_spec};

verus! {

/// Text nodes joined with single spaces.
pub open spec fn joined(nodes: Seq<Seq<char>>) -> Seq<char>
    decreases nodes.len(),
{
    if nodes.len() == 0 {
        Seq::empty()
    } else if nodes.len() == 1 {
        nodes[0]
    } else {
        joined(nodes.drop_last()) + seq![' '] + nodes.last()
    }
}

/// The display text of an element: its text nodes joined with single
/// spaces, trimmed, with each newline turned into a space.
pub open spec fn element_text_of(nodes: Seq<Seq<char>>) -> Seq<char> {
    replaced(trim_spec(joined(nodes)), seq!['\n'], seq![' '])
}

/// The display text of an element from the texts of its text nodes.
pub fn element_text(nodes: &ElementText) -> (r: String)
    ensures
        r@ == element_text_of(nodes.deep_view()),
{
    let ghost dv = nodes.deep_view();
    let mut out = String::new();
    let mut i: usize = 0;
    while i < nodes.len()
        invariant
            i <= nodes@.len(),
            dv == nodes.deep_view(),
            dv.len() == nodes@.len(),
            out@ == joined(dv.subrange(0, i as int)),
        decreases nodes@.len() - i,
    {
        assert(dv[i as int] == nodes@[i as int]@);
        assert(dv.subrange(0, i + 1).drop_last() =~= dv.subrange(0, i as int));
        if i > 0 {
            push_char(&mut out, ' ');
        } else {
            assert(out@ =~= Seq::<char>::empty());
        }
        out.append(nodes[i].as_str());
        proof {
            let s = dv.subrange(0, i + 1);
            if i == 0 {
                assert(out@ =~= s[0]);
            } else {
                assert(out@ =~= joined(s.drop_last()) + seq![' '] + s.last());
            }
        }
        i = i + 1;
    }
    assert(dv.subrange(0, nodes@.len() as int) =~= dv);
    let t = trim(out.as_str());
    proof {
        reveal_strlit("\n");
        reveal_strlit(" ");
        assert("\n"@ =~= seq!['\n']);
        assert(" "@ =~= seq![' ']);
    }
    replace_all(t.as_str(), "\n", " ")
}

/// The number a page-count text gives, or 0 where it is no number.
pub open spec fn page_number_of(text: Seq<char>) -> nat {
    match parsed_unsigned(text, 0xffff_ffff) {
        Some(n) => n,
        None => 0,
    }
}

/// The largest page number among element texts; 0 where none is a number.
pub open spec fn max_page_of(texts: Seq<Seq<Seq<char>>>) -> nat
    decreases texts.len(),
{
    if texts.len() == 0 {
        0
    } else {
        let rest = max_page_of(texts.drop_last());
        let last = page_number_of(element_text_of(texts.last()));
        if rest < last {
            last
        } else {
            rest
        }
    }
}

/// The page count of a document: the largest number among the texts of the
/// elements that `sel` matches, 0 where there is none.
pub open spec fn page_count_of(html: Seq<char>, sel: Seq<char>) -> Result<nat, ParserError> {
    if valid_selector(sel) {
        Ok(max_page_of(matched_text_nodes(html, sel)))
    } else {
        Err(ParserError::CrawlerSelectorError)
    }
}

pub open spec fn href_name() -> Seq<char> {
    seq!['h', 'r', 'e', 'f']
}

/// The value read from a row's first match of a field selector: its `href`
/// verbatim, or its display text.
pub open spec fn field_value(m: Option<(Seq<Seq<char>>, Option<Seq<char>>)>, href: bool) -> Option<
    Seq<char>,
> {
    match m {
        None => None,
        Some(f) => if href {
            f.1
        } else {
            Some(element_text_of(f.0))
        },
    }
}

/// The listing that a product row gives, where each of its fields is found.
pub open spec fn listing_of(
    shop: ShopView,
    name: Option<(Seq<Seq<char>>, Option<Seq<char>>)>,
    price: Option<(Seq<Seq<char>>, Option<Seq<char>>)>,
    url: Option<(Seq<Seq<char>>, Option<Seq<char>>)>,
    href: bool,
) -> Option<HoyaPositionView> {
    match (field_value(name, false), field_value(price, false), field_value(url, href)) {
        (Some(n), Some(p), Some(u)) => Some(
            HoyaPositionView { shop, full_name: n, price: normalized(p), url: u },
        ),
        _ => None,
    }
}

pub open spec fn match_at(
    ms: Seq<Option<(Seq<Seq<char>>, Option<Seq<char>>)>>,
    i: int,
) -> Option<(Seq<Seq<char>>, Option<Seq<char>>)> {
    if 0 <= i < ms.len() {
        ms[i]
    } else {
        None
    }
}

/// Whether any matched table holds a matched row.
pub open spec fn has_rows(rows: Seq<Seq<Seq<Seq<char>>>>) -> bool {
    exists|t: int| 0 <= t < rows.len() && (#[trigger] rows[t]).len() > 0
}

/// The listings that rows give from the first matches of their name, price
/// and URL selectors (rows past the end of a list have no match there):
/// `ElementNotFound` where a row lacks one of its fields.
pub open spec fn fields_listings(
    shop: ShopView,
    names: Seq<Option<(Seq<Seq<char>>, Option<Seq<char>>)>>,
    prices: Seq<Option<(Seq<Seq<char>>, Option<Seq<char>>)>>,
    urls: Seq<Option<(Seq<Seq<char>>, Option<Seq<char>>)>>,
    href: bool,
) -> Result<Seq<HoyaPositionView>, ParserError> {
    if exists|i: int|
        0 <= i < names.len() && (#[trigger] listing_of(
            shop,
            names[i],
            match_at(prices, i),
            match_at(urls, i),
            href,
        )) is None {
        Err(ParserError::ElementNotFound)
    } else {
        Ok(
            Seq::new(
                names.len(),
                |i: int| listing_of(shop, names[i], match_at(prices, i), match_at(urls, i), href)->0,
            ),
        )
    }
}

/// The listings that the product rows of a document give. A page without
/// product rows gives none, whatever the field selectors are; invalid table
/// or row selectors fail, and so do invalid field selectors where there are
/// rows to read.
pub open spec fn rows_listings(
    shop: ShopView,
    html: Seq<char>,
    table: Seq<char>,
    rules: ShopParsingRules,
) -> Result<Seq<HoyaPositionView>, ParserError> {
    let row = rules.product_lookup@;
    if !(valid_selector(table) && valid_selector(row)) {
        Err(ParserError::CrawlerSelectorError)
    } else if !has_rows(nested_text_nodes(html, table, row)) {
        Ok(Seq::empty())
    } else if !(valid_selector(rules.name_lookup@) && valid_selector(rules.price_lookup@)
        && valid_selector(rules.url_lookup@)) {
        Err(ParserError::CrawlerSelectorError)
    } else {
        fields_listings(
            shop,
            first_field_matches(html, table, row, rules.name_lookup@, href_name()),
            first_field_matches(html, table, row, rules.price_lookup@, href_name()),
            first_field_matches(html, table, row, rules.url_lookup@, href_name()),
            rules.look_for_href,
        )
    }
}

/// Builds the crawler's listings from shop pages.
#[derive(Debug, Default, Clone, Copy)]
pub struct PositionsParser {}

impl PositionsParser {
    /// The number of pages of a shop's listing, read from its first page.
    /// Fails where the page-count selector is invalid.
    pub fn retrieve_page_count(shop_rules: &ShopParsingRules, document: &str) -> (r: Result<
        u32,
        ParserError,
    >)
        ensures
            r matches Ok(n) ==> page_count_of(document@, shop_rules.max_page_lookup@) == Ok::<
                nat,
                ParserError,
            >(n as nat),
            r matches Err(e) ==> page_count_of(document@, shop_rules.max_page_lookup@) == Err::<
                nat,
                ParserError,
            >(e),
    {
        let texts = match select_text_nodes(document, shop_rules.max_page_lookup.as_str()) {
            Some(t) => t,
            None => return Err(ParserError::CrawlerSelectorError),
        };
        Ok(Self::max_page_of_texts(&texts))
    }

    /// The largest page number among the texts of pagination elements, as
    /// the selector query returns them; 0 where none is a number.
    pub fn max_page_of_texts(texts: &Vec<ElementText>) -> (r: u32)
        ensures
            r as nat == max_page_of(texts.deep_view()),
    {
        let ghost tv = texts.deep_view();
        let mut max: u32 = 0;
        let mut i: usize = 0;
        while i < texts.len()
            invariant
                i <= texts@.len(),
                tv == texts.deep_view(),
                tv.len() == texts@.len(),
                max as nat == max_page_of(tv.subrange(0, i as int)),
            decreases texts@.len() - i,
        {
            assert(tv.subrange(0, i + 1).drop_last() =~= tv.subrange(0, i as int));
            let text = element_text(&texts[i]);
            if let Some(number) = parse_unsigned(text.as_str(), 0xffff_ffff) {
                if max < number {
                    max = number;
                }
            }
            i = i + 1;
        }
        assert(tv.subrange(0, texts@.len() as int) =~= tv);
        max
    }

    fn field_value_exec(m: &FieldMatch, href: bool) -> (r: Option<String>)
        ensures
            r matches Some(v) ==> field_value(m.deep_view(), href) == Some(v@),
            r is None ==> field_value(m.deep_view(), href) is None,
    {
        match m {
            None => None,
            Some(f) => if href {
                match &f.1 {
                    Some(a) => Some(a.clone()),
                    None => None,
                }
            } else {
                Some(element_text(&f.0))
            },
        }
    }

    /// The listing of one product row from the first matches of its name,
    /// price and URL selectors; `ElementNotFound` where one is missing.
    pub fn parse_product(
        shop: &Shop,
        shop_rules: &ShopParsingRules,
        name: &FieldMatch,
        price: &FieldMatch,
        url: &FieldMatch,
    ) -> (r: Result<HoyaPosition, ParserError>)
        ensures
            r matches Ok(p) ==> listing_of(
                shop@,
                name.deep_view(),
                price.deep_view(),
                url.deep_view(),
                shop_rules.look_for_href,
            ) == Some(p@),
            r matches Err(e) ==> e == ParserError::ElementNotFound && listing_of(
                shop@,
                name.deep_view(),
                price.deep_view(),
                url.deep_view(),
                shop_rules.look_for_href,
            ) is None,
    {
        let n = match Self::field_value_exec(name, false) {
            Some(n) => n,
            None => return Err(ParserError::ElementNotFound),
        };
        let p = match Self::field_value_exec(price, false) {
            Some(p) => p,
            None => return Err(ParserError::ElementNotFound),
        };
        let u = match Self::field_value_exec(url, shop_rules.look_for_href) {
            Some(u) => u,
            None => return Err(ParserError::ElementNotFound),
        };
        let price = clean_price(p.as_str());
        Ok(HoyaPosition::new(shop.duplicate(), n, price, u))
    }

    /// The listings of rows given the first matches of their name, price
    /// and URL selectors, as the selector queries return them.
    pub fn listings_from_fields(
        shop: &Shop,
        shop_rules: &ShopParsingRules,
        names: &Vec<FieldMatch>,
        prices: &Vec<FieldMatch>,
        urls: &Vec<FieldMatch>,
    ) -> (r: Result<Vec<HoyaPosition>, ParserError>)
        ensures
            r matches Ok(v) ==> fields_listings(
                shop@,
                names.deep_view(),
                prices.deep_view(),
                urls.deep_view(),
                shop_rules.look_for_href,
            ) == Ok::<Seq<HoyaPositionView>, ParserError>(v@.map_values(|p: HoyaPosition| p@)),
            r matches Err(e) ==> fields_listings(
                shop@,
                names.deep_view(),
                prices.deep_view(),
                urls.deep_view(),
                shop_rules.look_for_href,
            ) == Err::<Seq<HoyaPositionView>, ParserError>(e),
    {
        let ghost nv = names.deep_view();
        let ghost pv = prices.deep_view();
        let ghost uv = urls.deep_view();
        let href = shop_rules.look_for_href;
        let none: FieldMatch = None;
        let mut out: Vec<HoyaPosition> = Vec::new();
        let mut i: usize = 0;
        while i < names.len()
            invariant
                i <= names@.len(),
                nv == names.deep_view(),
                pv == prices.deep_view(),
                uv == urls.deep_view(),
                nv.len() == names@.len(),
                pv.len() == prices@.len(),
                uv.len() == urls@.len(),
                href == shop_rules.look_for_href,
                none.deep_view() is None,
                out@.len() == i,
                forall|j: int|
                    0 <= j < i ==> listing_of(shop@, nv[j], match_at(pv, j), match_at(uv, j), href)
                        == Some(#[trigger] out@[j]@),
            decreases names@.len() - i,
        {
            let p = if i < prices.len() { &prices[i] } else { &none };
            let u = if i < urls.len() { &urls[i] } else { &none };
            assert(p.deep_view() == match_at(pv, i as int));
            assert(u.deep_view() == match_at(uv, i as int));
            match Self::parse_product(shop, shop_rules, &names[i], p, u) {
                Ok(listing) => out.push(listing),
                Err(e) => {
                    assert(listing_of(shop@, nv[i as int], match_at(pv, i as int), match_at(uv, i as int), href) is None);
                    return Err(e);
                },
            }
            i = i + 1;
        }
        assert forall|j: int| 0 <= j < nv.len() implies (#[trigger] listing_of(
            shop@,
            nv[j],
            match_at(pv, j),
            match_at(uv, j),
            href,
        )) is Some by {
            assert(listing_of(shop@, nv[j], match_at(pv, j), match_at(uv, j), href) == Some(
                out@[j]@,
            ));
        }
        assert(out@.map_values(|p: HoyaPosition| p@) =~= Seq::new(
            nv.len(),
            |j: int| listing_of(shop@, nv[j], match_at(pv, j), match_at(uv, j), href)->0,
        ));
        Ok(out)
    }

    /// The listings of the product rows inside the elements that `table`
    /// matches, in document order. Fails where the table or row selector is
    /// invalid, or, where there are rows, a field selector is invalid or a
    /// row lacks one of its fields.
    pub fn parse_product_rows(
        shop: &Shop,
        shop_rules: &ShopParsingRules,
        document: &str,
        table: &str,
    ) -> (r: Result<Vec<HoyaPosition>, ParserError>)
        ensures
            r matches Ok(v) ==> rows_listings(shop@, document@, table@, *shop_rules) == Ok::<
                Seq<HoyaPositionView>,
                ParserError,
            >(v@.map_values(|p: HoyaPosition| p@)),
            r matches Err(e) ==> rows_listings(shop@, document@, table@, *shop_rules) == Err::<
                Seq<HoyaPositionView>,
                ParserError,
            >(e),
    {
        proof {
            reveal_strlit("href");
            assert("href"@ =~= href_name());
        }
        let row = shop_rules.product_lookup.as_str();
        let rows = match select_nested_text_nodes(document, table, row) {
            Some(rows) => rows,
            None => return Err(ParserError::CrawlerSelectorError),
        };
        let ghost rv = rows.deep_view();
        let mut t: usize = 0;
        let mut found = false;
        while t < rows.len() && !found
            invariant
                t <= rows@.len(),
                rv == rows.deep_view(),
                rv.len() == rows@.len(),
                found ==> has_rows(rv),
                !found ==> forall|k: int| 0 <= k < t ==> (#[trigger] rv[k]).len() == 0,
            decreases rows@.len() - t,
        {
            assert(rv[t as int].len() == rows@[t as int]@.len());
            if rows[t].len() > 0 {
                found = true;
            }
            t = t + 1;
        }
        if !found {
            let empty: Vec<HoyaPosition> = Vec::new();
            assert(empty@.map_values(|p: HoyaPosition| p@) =~= Seq::<HoyaPositionView>::empty());
            return Ok(empty);
        }
        let names = select_first_fields(document, table, row, shop_rules.name_lookup.as_str(), "href");
        let prices = select_first_fields(document, table, row, shop_rules.price_lookup.as_str(), "href");
        let urls = select_first_fields(document, table, row, shop_rules.url_lookup.as_str(), "href");
        match (names, prices, urls) {
            (Some(n), Some(p), Some(u)) => Self::listings_from_fields(shop, shop_rules, &n, &p, &u),
            _ => Err(ParserError::CrawlerSelectorError),
        }
    }

    /// The listings of a shop page: the product rows of every product table,
    /// in document order.
    pub fn parse_data(shop: &Shop, shop_rules: &ShopParsingRules, document: &str) -> (r: Result<
        Vec<HoyaPosition>,
        ParserError,
    >)
        ensures
            r matches Ok(v) ==> rows_listings(shop@, document@, shop_rules.product_table_lookup@, *shop_rules) == Ok::<
                Seq<HoyaPositionView>,
                ParserError,
            >(v@.map_values(|p: HoyaPosition| p@)),
            r matches Err(e) ==> rows_listings(shop@, document@, shop_rules.product_table_lookup@, *shop_rules) == Err::<
                Seq<HoyaPositionView>,
                ParserError,
            >(e),
    {
        Self::parse_product_rows(shop, shop_rules, document, shop_rules.product_table_lookup.as_str())
    }
}

} // verus!

verus! {

/// The display texts of a list of elements.
pub open spec fn clean_cells(nodes: Seq<Seq<Seq<char>>>) -> Seq<Seq<char>> {
    nodes.map_values(|n: Seq<Seq<char>>| element_text_of(n))
}

/// Header names paired with a row's cells by column, as far as both reach.
pub open spec fn zip_cells(head: Seq<Seq<char>>, row: Seq<Seq<char>>) -> Seq<(Seq<char>, Seq<char>)> {
    Seq::new(
        if head.len() < row.len() {
            head.len()
        } else {
            row.len()
        },
        |i: int| (head[i], row[i]),
    )
}

/// The proxies that table rows describe, in row order; a row that lacks an
/// address, a readable port or an HTTPS flag is left out.
pub open spec fn row_proxies(head: Seq<Seq<char>>, rows: Seq<Seq<Seq<Seq<char>>>>) -> Seq<ProxyView>
    decreases rows.len(),
{
    if rows.len() == 0 {
        Seq::empty()
    } else {
        let rest = row_proxies(head, rows.drop_last());
        match proxy_of_row(zip_cells(head, clean_cells(rows.last()))) {
            Some(p) => rest.push(p),
            None => rest,
        }
    }
}

/// The proxies listed in the first proxy table of a proxy-list page.
pub open spec fn table_proxies(html: Seq<char>, rules: ProxyParsingRules) -> Result<
    Seq<ProxyView>,
    ParserError,
> {
    let (table, head, row, data) = (
        rules.table_lookup@,
        rules.head_lookup@,
        rules.row_lookup@,
        rules.data_lookup@,
    );
    if !(valid_selector(table) && valid_selector(head) && valid_selector(row) && valid_selector(
        data,
    )) {
        Err(ParserError::CrawlerSelectorError)
    } else if nested_text_nodes(html, table, head).len() == 0 {
        Err(ParserError::FailedToFindProxyTable)
    } else {
        let cells = cell_text_nodes(html, table, row, data);
        Ok(
            row_proxies(
                clean_cells(nested_text_nodes(html, table, head)[0]),
                if cells.len() > 0 {
                    cells[0]
                } else {
                    Seq::empty()
                },
            ),
        )
    }
}

pub open spec fn proxies_view(v: Seq<Proxy>) -> Seq<ProxyView> {
    v.map_values(|p: Proxy| p@)
}

/// The display texts of the given elements.
pub fn clean_all(nodes: &Vec<ElementText>) -> (r: Vec<String>)
    ensures
        r@.map_values(|s: String| s@) == clean_cells(nodes.deep_view()),
{
    let ghost dv = nodes.deep_view();
    let mut out: Vec<String> = Vec::new();
    let mut i: usize = 0;
    while i < nodes.len()
        invariant
            i <= nodes@.len(),
            dv == nodes.deep_view(),
            dv.len() == nodes@.len(),
            out@.map_values(|s: String| s@) =~= clean_cells(dv.subrange(0, i as int)),
        decreases nodes@.len() - i,
    {
        assert(dv[i as int] == nodes@[i as int].deep_view());
        let t = element_text(&nodes[i]);
        let ghost before = out@;
        out.push(t);
        assert(out@ =~= before.push(t));
        assert(out@.map_values(|s: String| s@) =~= before.map_values(|s: String| s@).push(t@));
        assert(dv.subrange(0, i + 1) =~= dv.subrange(0, i as int).push(dv[i as int]));
        assert(clean_cells(dv.subrange(0, i + 1)) =~= clean_cells(dv.subrange(0, i as int)).push(
            element_text_of(dv[i as int]),
        ));
        i = i + 1;
    }
    assert(dv.subrange(0, nodes@.len() as int) =~= dv);
    out
}

/// Pairs header names with a row's cells by column.
pub fn zip_row(head: &Vec<String>, row: &Vec<String>) -> (r: Vec<(String, String)>)
    ensures
        pairs_view(r@) == zip_cells(
            head@.map_values(|s: String| s@),
            row@.map_values(|s: String| s@),
        ),
{
    let n = if head.len() < row.len() { head.len() } else { row.len() };
    let mut out: Vec<(String, String)> = Vec::new();
    let mut i: usize = 0;
    while i < n
        invariant
            i <= n,
            n <= head@.len(),
            n <= row@.len(),
            out@.len() == i,
            forall|j: int|
                0 <= j < i ==> #[trigger] pairs_view(out@)[j] == (head@[j]@, row@[j]@),
        decreases n - i,
    {
        let ghost before = out@;
        out.push((head[i].clone(), row[i].clone()));
        assert forall|j: int| 0 <= j < i + 1 implies #[trigger] pairs_view(out@)[j] == (
            head@[j]@,
            row@[j]@,
        ) by {
            if j < i {
                assert(out@[j] == before[j]);
                assert(pairs_view(before)[j] == (head@[j]@, row@[j]@));
            }
        }
        i = i + 1;
    }
    assert(pairs_view(out@) =~= zip_cells(
        head@.map_values(|s: String| s@),
        row@.map_values(|s: String| s@),
    ));
    out
}

/// The proxies listed in the first table of a proxy-list page. Fails where
/// a selector is invalid or the page has no table.
pub fn parse_proxy_table(rules: &ProxyParsingRules, document: &str) -> (r: Result<
    Vec<Proxy>,
    ParserError,
>)
    ensures
        r matches Ok(v) ==> table_proxies(document@, *rules) == Ok::<Seq<ProxyView>, ParserError>(
            proxies_view(v@),
        ),
        r matches Err(e) ==> table_proxies(document@, *rules) == Err::<Seq<ProxyView>, ParserError>(
            e,
        ),
{
    let heads = select_nested_text_nodes(
        document,
        rules.table_lookup.as_str(),
        rules.head_lookup.as_str(),
    );
    let cells = select_cell_text_nodes(
        document,
        rules.table_lookup.as_str(),
        rules.row_lookup.as_str(),
        rules.data_lookup.as_str(),
    );
    let (heads, cells) = match (heads, cells) {
        (Some(h), Some(c)) => (h, c),
        _ => return Err(ParserError::CrawlerSelectorError),
    };
    if heads.len() == 0 {
        return Err(ParserError::FailedToFindProxyTable);
    }
    let empty: Vec<Vec<ElementText>> = Vec::new();
    let rows = if cells.len() > 0 { &cells[0] } else { &empty };
    assert(rows.deep_view() == (if cells.deep_view().len() > 0 { cells.deep_view()[0] } else { Seq::<Seq<Seq<Seq<char>>>>::empty() }));
    Ok(proxies_from_cells(&heads[0], rows))
}

/// The proxies that the rows of a proxy table describe, from the text nodes
/// of its header cells and of each row's cells, as the selector queries
/// return them; a row without an address, a readable port or an HTTPS flag
/// is left out.
pub fn proxies_from_cells(head_cells: &Vec<ElementText>, rows: &Vec<Vec<ElementText>>) -> (r: Vec<Proxy>)
    ensures
        proxies_view(r@) == row_proxies(clean_cells(head_cells.deep_view()), rows.deep_view()),
{
    let head = clean_all(head_cells);
    let ghost hv = head@.map_values(|s: String| s@);
    let ghost rv = rows.deep_view();
    let mut out: Vec<Proxy> = Vec::new();
    let mut i: usize = 0;
    while i < rows.len()
        invariant
            i <= rows@.len(),
            rv == rows.deep_view(),
            rv.len() == rows@.len(),
            hv == head@.map_values(|s: String| s@),
            proxies_view(out@) =~= row_proxies(hv, rv.subrange(0, i as int)),
        decreases rows@.len() - i,
    {
        let cleaned = clean_all(&rows[i]);
        let pairs = zip_row(&head, &cleaned);
        assert(rv.subrange(0, i + 1).drop_last() =~= rv.subrange(0, i as int));
        assert(rv.subrange(0, i + 1).last() == rows@[i as int].deep_view());
        match Proxy::from_row(&pairs) {
            Some(p) => {
                let ghost before = out@;
                out.push(p);
                assert(proxies_view(out@) =~= proxies_view(before).push(p@));
            },
            None => {},
        }
        i = i + 1;
    }
    assert(rv.subrange(0, rows@.len() as int) =~= rv);
    out
}

} // verus!

verus! {

/// Extracting the listings of one document with the same rules twice gives
/// the same listings: they depend on the shop, the rules and the document
/// alone.
pub proof fn lemma_extraction_idempotent(
    shop: ShopView,
    html: Seq<char>,
    rules: ShopParsingRules,
    first: Result<Seq<HoyaPositionView>, ParserError>,
    second: Result<Seq<HoyaPositionView>, ParserError>,
)
    requires
        first == rows_listings(shop, html, rules.product_table_lookup@, rules),
        second == rows_listings(shop, html, rules.product_table_lookup@, rules),
    ensures
        first == second,
{
}

proof fn lemma_row_proxies_concat(
    head: Seq<Seq<char>>,
    a: Seq<Seq<Seq<Seq<char>>>>,
    b: Seq<Seq<Seq<Seq<char>>>>,
)
    ensures
        row_proxies(head, a + b) == row_proxies(head, a) + row_proxies(head, b),
    decreases b.len(),
{
    if b.len() == 0 {
        assert(a + b =~= a);
        assert(row_proxies(head, a) + Seq::<ProxyView>::empty() =~= row_proxies(head, a));
    } else {
        assert((a + b).drop_last() =~= a + b.drop_last());
        assert((a + b).last() == b.last());
        lemma_row_proxies_concat(head, a, b.drop_last());
        let x = row_proxies(head, a);
        let y = row_proxies(head, b.drop_last());
        match proxy_of_row(zip_cells(head, clean_cells(b.last()))) {
            Some(p) => assert((x + y).push(p) =~= x + y.push(p)),
            None => {},
        }
    }
}

/// A proxy-list row without an "Https" cell, once its cells are paired with
/// the header names, adds no proxy to the pool wherever it stands among the
/// rows: it is dropped, not given a default, and the other rows give what
/// they give without it.
pub proof fn lemma_row_without_https_dropped(
    head: Seq<Seq<char>>,
    before: Seq<Seq<Seq<Seq<char>>>>,
    row: Seq<Seq<Seq<char>>>,
    after: Seq<Seq<Seq<Seq<char>>>>,
)
    requires
        last_value(zip_cells(head, clean_cells(row)), https_column()) is None,
    ensures
        row_proxies(head, before.push(row) + after) == row_proxies(head, before + after),
{
    lemma_row_proxies_concat(head, before.push(row), after);
    lemma_row_proxies_concat(head, before, after);
    assert(before.push(row).drop_last() =~= before);
}

proof fn lemma_max_page_concat(a: Seq<Seq<Seq<char>>>, b: Seq<Seq<Seq<char>>>)
    ensures
        max_page_of(a + b) == (if max_page_of(a) < max_page_of(b) {
            max_page_of(b)
        } else {
            max_page_of(a)
        }),
    decreases b.len(),
{
    if b.len() == 0 {
        assert(a + b =~= a);
    } else {
        assert((a + b).drop_last() =~= a + b.drop_last());
        assert((a + b).last() == b.last());
        lemma_max_page_concat(a, b.drop_last());
    }
}

proof fn lemma_max_page_non_numeric(extra: Seq<Seq<Seq<char>>>)
    requires
        forall|i: int| 0 <= i < extra.len() ==> page_number_of(element_text_of(#[trigger] extra[i])) == 0,
    ensures
        max_page_of(extra) == 0,
    decreases extra.len(),
{
    if extra.len() > 0 {
        lemma_max_page_non_numeric(extra.drop_last());
        assert(extra.last() == extra[extra.len() - 1]);
    }
}

/// Pagination elements whose text is no page number ("…", "›", ">>") never
/// change the page count, wherever they stand among the others.
pub proof fn lemma_non_numeric_tokens_ignored(
    before: Seq<Seq<Seq<char>>>,
    extra: Seq<Seq<Seq<char>>>,
    after: Seq<Seq<Seq<char>>>,
)
    requires
        forall|i: int| 0 <= i < extra.len() ==> page_number_of(element_text_of(#[trigger] extra[i])) == 0,
    ensures
        max_page_of(before + extra + after) == max_page_of(before + after),
{
    lemma_max_page_non_numeric(extra);
    lemma_max_page_concat(before, extra);
    assert(max_page_of(before + extra) == max_page_of(before));
    lemma_max_page_concat(before + extra, after);
    lemma_max_page_concat(before, after);
}

} // verus!
