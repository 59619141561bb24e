//! Proxy acquisition: harvesting candidates from proxy-list pages, drawing
//! one at random, choosing the first healthy one, and configuring the HTTP
//! client that goes through it.
use vstd::prelude::*;
use vstd::string::*;
use crate::errors::ParserError;
use crate::extract::{parse_proxy_table, proxies_view, table_proxies};
use crate::models::{proxy_address, Proxy, ProxyParsingRules, ProxyView};

verus! {

/// Most redirects the HTTP client follows.
pub const REDIRECT_LIMIT: usize = 30;

/// The user agent the HTTP client presents.
pub const USER_AGENT: &'static str = "User-Agent Mozilla/5.0 (X11; Ubuntu; Linux x86_64; rv:120.0) Gecko/20100101 Firefox/120.0";

/// Whether `url::Url::parse` accepts the text as a URL.
pub uninterp spec fn parses_as_url(s: Seq<char>) -> bool;

/// Relies on `url::Url::parse`: whether the text is a valid absolute URL.
#[verifier::external_body]
fn url_is_valid(s: &str) -> (r: bool)
    ensures
        r == parses_as_url(s@),
{
    url::Url::parse(s).is_ok()
}

/// What `url::Url::parse` reads from a URL text: its host (`Url::host`,
/// written out), its explicit port (`Url::port`) and its scheme
/// (`Url::scheme`).
pub uninterp spec fn url_parts_of(s: Seq<char>) -> (Option<Seq<char>>, Option<u16>, Seq<char>);

/// Relies on `url::Url::parse`, `Url::host`, `Url::port` and `Url::scheme`:
/// the parts of a URL text, where it is one.
#[verifier::external_body]
fn url_parts(s: &str) -> (r: Option<(Option<String>, Option<u16>, String)>)
    ensures
        r is Some <==> parses_as_url(s@),
        r matches Some(p) ==> p.deep_view() == url_parts_of(s@),
{
    let u = url::Url::parse(s).ok()?;
    Some((u.host().map(|h| h.to_string()), u.port(), u.scheme().to_string()))
}

pub open spec fn https_scheme() -> Seq<char> {
    seq!['h', 't', 't', 'p', 's']
}

/// The proxy a URL names: its host, its explicit port, and HTTPS where its
/// scheme is `https`; `None` where the text is no URL or lacks a host or an
/// explicit port.
pub open spec fn proxy_of_url(s: Seq<char>) -> Option<ProxyView> {
    if !parses_as_url(s) {
        None
    } else {
        match url_parts_of(s) {
            (Some(host), Some(port), scheme) => Some(
                ProxyView { ip: host, port, https: scheme == https_scheme() },
            ),
            _ => None,
        }
    }
}

/// Relies on `rand::Rng::gen_range` over `rand::thread_rng()`: an index
/// drawn uniformly below `n`, which must be positive.
#[verifier::external_body]
fn random_index(n: usize) -> (r: usize)
    requires
        n > 0,
    ensures
        r < n,
{
    rand::Rng::gen_range(&mut rand::thread_rng(), 0..n)
}

/// How the HTTP client of one request attempt is configured.
#[derive(Debug, Clone)]
pub struct ClientConfig {
    pub redirect_limit: usize,
    pub user_agent: String,
    /// `scheme://ip:port` of the proxy all traffic goes through, if any.
    pub proxy_url: Option<String>,
}

/// The proxies harvested from proxy-list pages, source after source; a page
/// that could not be fetched or read adds nothing.
pub open spec fn harvested(pages: Seq<(ProxyParsingRules, Option<Seq<char>>)>) -> Seq<ProxyView>
    decreases pages.len(),
{
    if pages.len() == 0 {
        Seq::empty()
    } else {
        let rest = harvested(pages.drop_last());
        let (rules, text) = pages.last();
        match text {
            Some(t) => match table_proxies(t, rules) {
                Ok(found) => rest + found,
                Err(_) => rest,
            },
            None => rest,
        }
    }
}

pub open spec fn pages_view(pages: Seq<(ProxyParsingRules, Option<String>)>) -> Seq<
    (ProxyParsingRules, Option<Seq<char>>),
> {
    pages.map_values(
        |p: (ProxyParsingRules, Option<String>)|
            (
                p.0,
                match p.1 {
                    Some(t) => Some(t@),
                    None => None,
                },
            ),
    )
}

/// Index of the first candidate whose health check passed, if any.
pub open spec fn first_healthy(healthy: Seq<bool>) -> Option<int>
    decreases healthy.len(),
{
    if healthy.len() == 0 {
        None
    } else {
        match first_healthy(healthy.drop_last()) {
            Some(i) => Some(i),
            None => if healthy.last() {
                Some(healthy.len() - 1)
            } else {
                None
            },
        }
    }
}

/// Finds working proxies for the crawler.
#[derive(Debug, Default, Clone)]
pub struct ProxyManager {}

impl ProxyManager {
    /// Reads the proxy table of one fetched proxy-list page and appends the
    /// proxies it lists to `result`.
    pub fn parse_proxy(
        text: &str,
        rules: &ProxyParsingRules,
        result: &mut Vec<Proxy>,
    ) -> (r: Result<(), ParserError>)
        ensures
            old(result)@.len() <= final(result)@.len(),
            r is Ok ==> table_proxies(text@, *rules) == Ok::<Seq<ProxyView>, ParserError>(
                proxies_view(final(result)@).subrange(
                    old(result)@.len() as int,
                    final(result)@.len() as int,
                ),
            ) && proxies_view(final(result)@).subrange(0, old(result)@.len() as int)
                == proxies_view(old(result)@),
            r matches Err(e) ==> table_proxies(text@, *rules) == Err::<Seq<ProxyView>, ParserError>(
                e,
            ) && final(result)@ == old(result)@,
    {
        let found = parse_proxy_table(rules, text)?;
        let ghost start = result@;
        let mut i: usize = 0;
        while i < found.len()
            invariant
                i <= found@.len(),
                result@.len() == start.len() + i,
                proxies_view(result@) =~= proxies_view(start) + proxies_view(found@.subrange(0, i as int)),
            decreases found@.len() - i,
        {
            let p = found[i].duplicate();
            let ghost before = result@;
            result.push(p);
            assert(found@.subrange(0, i + 1) =~= found@.subrange(0, i as int).push(found@[i as int]));
            assert(proxies_view(result@) =~= proxies_view(before).push(p@));
            i = i + 1;
        }
        assert(found@.subrange(0, found@.len() as int) =~= found@);
        assert(proxies_view(result@).subrange(start.len() as int, result@.len() as int) =~= proxies_view(found@));
        assert(proxies_view(result@).subrange(0, start.len() as int) =~= proxies_view(start));
        Ok(())
    }

    /// Pools the proxies of every proxy-list page, in source order. A source
    /// whose page could not be fetched (`None`) or read adds nothing; the
    /// others still count.
    pub fn collect_candidates(pages: &Vec<(ProxyParsingRules, Option<String>)>) -> (r: Vec<Proxy>)
        ensures
            proxies_view(r@) == harvested(pages_view(pages@)),
    {
        let ghost pv = pages_view(pages@);
        let mut pool: Vec<Proxy> = Vec::new();
        let mut i: usize = 0;
        while i < pages.len()
            invariant
                i <= pages@.len(),
                pv == pages_view(pages@),
                proxies_view(pool@) == harvested(pv.subrange(0, i as int)),
            decreases pages@.len() - i,
        {
            assert(pv.subrange(0, i + 1).drop_last() =~= pv.subrange(0, i as int));
            let (rules, text) = (&pages[i].0, &pages[i].1);
            if let Some(t) = text {
                let ghost before = pool@;
                match Self::parse_proxy(t.as_str(), rules, &mut pool) {
                    Ok(()) => {
                        assert(proxies_view(pool@) =~= proxies_view(pool@).subrange(0, before.len() as int) + proxies_view(pool@).subrange(before.len() as int, pool@.len() as int));
                    },
                    Err(_) => {},
                }
            }
            i = i + 1;
        }
        assert(pv.subrange(0, pages@.len() as int) =~= pv);
        pool
    }

    /// The first candidate whose health check passed; `NoProxyAvailable`
    /// where none did (or there was none). `healthy[i]` is the outcome of
    /// the check of `candidates[i]`; candidates past its end were not checked.
    pub fn select_proxy(candidates: &Vec<Proxy>, healthy: &Vec<bool>) -> (r: Result<
        Proxy,
        ParserError,
    >)
        requires
            healthy@.len() <= candidates@.len(),
        ensures
            r matches Ok(p) ==> first_healthy(healthy@) matches Some(i) && p@ == candidates@[i]@,
            r matches Err(e) ==> first_healthy(healthy@) is None && e == ParserError::NoProxyAvailable,
    {
        let mut i: usize = 0;
        while i < healthy.len()
            invariant
                i <= healthy@.len(),
                healthy@.len() <= candidates@.len(),
                first_healthy(healthy@.subrange(0, i as int)) is None,
            decreases healthy@.len() - i,
        {
            assert(healthy@.subrange(0, i + 1).drop_last() =~= healthy@.subrange(0, i as int));
            if healthy[i] {
                proof {
                    lemma_first_healthy_prefix(healthy@, i as int);
                }
                return Ok(candidates[i].duplicate());
            }
            i = i + 1;
        }
        assert(healthy@.subrange(0, healthy@.len() as int) =~= healthy@);
        Err(ParserError::NoProxyAvailable)
    }

    /// The proxy that a URL such as `http://10.0.0.1:3128` names;
    /// `UrlParsingError` where the text is no URL or lacks a host or an
    /// explicit port.
    pub fn proxy_from_url(s: &str) -> (r: Result<Proxy, ParserError>)
        ensures
            r matches Ok(p) ==> proxy_of_url(s@) == Some(p@),
            r is Err ==> r == Err::<Proxy, ParserError>(ParserError::UrlParsingError)
                && proxy_of_url(s@) is None,
    {
        let https = "https".to_string();
        proof {
            reveal_strlit("https");
            assert(https@ =~= https_scheme());
        }
        match url_parts(s) {
            Some((Some(host), Some(port), scheme)) => Ok(Proxy { ip: host, port, https: scheme == https }),
            _ => Err(ParserError::UrlParsingError),
        }
    }

    /// Draws one proxy at random out of the pool; `NoProxyAvailable` when
    /// the pool is empty.
    pub fn find_proxy(proxies: &mut Vec<Proxy>) -> (r: Result<Proxy, ParserError>)
        ensures
            old(proxies)@.len() == 0 ==> r == Err::<Proxy, ParserError>(ParserError::NoProxyAvailable)
                && final(proxies)@ == old(proxies)@,
            old(proxies)@.len() > 0 ==> r is Ok,
            r matches Ok(p) ==> exists|i: int|
                0 <= i < old(proxies)@.len() && old(proxies)@[i] == p && final(proxies)@
                    == old(proxies)@.remove(i),
    {
        if proxies.len() == 0 {
            return Err(ParserError::NoProxyAvailable);
        }
        let i = random_index(proxies.len());
        let p = proxies.remove(i);
        Ok(p)
    }

    /// The client configuration for a request, through `proxy` where one
    /// is given; `UrlParsingError` where its address is not a valid URL.
    pub fn create_client(proxy: &Option<Proxy>) -> (r: Result<ClientConfig, ParserError>)
        ensures
            r matches Ok(c) ==> c.redirect_limit == REDIRECT_LIMIT && c.user_agent@ == USER_AGENT@
                && (match proxy {
                Some(p) => parses_as_url(proxy_address(p@)) && (match c.proxy_url {
                    Some(u) => u@ == proxy_address(p@),
                    None => false,
                }),
                None => c.proxy_url is None,
            }),
            r matches Err(e) ==> e == ParserError::UrlParsingError && (match proxy {
                Some(p) => !parses_as_url(proxy_address(p@)),
                None => false,
            }),
    {
        let proxy_url = match proxy {
            Some(p) => {
                let address = p.to_string();
                if !url_is_valid(address.as_str()) {
                    return Err(ParserError::UrlParsingError);
                }
                Some(address)
            },
            None => None,
        };
        Ok(
            ClientConfig {
                redirect_limit: REDIRECT_LIMIT,
                user_agent: USER_AGENT.to_string(),
                proxy_url,
            },
        )
    }
}

proof fn lemma_first_healthy_prefix(healthy: Seq<bool>, i: int)
    requires
        0 <= i < healthy.len(),
        healthy[i],
        first_healthy(healthy.subrange(0, i)) is None,
    ensures
        first_healthy(healthy) == Some(i),
    decreases healthy.len(),
{
    if i == healthy.len() - 1 {
        assert(healthy.drop_last() =~= healthy.subrange(0, i));
    } else {
        assert(healthy.drop_last().subrange(0, i) =~= healthy.subrange(0, i));
        lemma_first_healthy_prefix(healthy.drop_last(), i);
    }
}

} // verus!
