//! Errors of the crawling engine.
use vstd::prelude::*;

verus! {

/// Why a crawl, a page or a proxy harvest failed.
#[derive(Debug, Clone, PartialEq, Eq)]
pub enum ParserError {
    /// No proxy could be found, or every crawl attempt failed.
    NoProxyAvailable,
    /// The HTTP client could not be built or a request failed.
    FailedClient,
    /// A request took too long.
    RequestTimeOut,
    /// A selector is not valid selector syntax.
    CrawlerSelectorError,
    /// A selector matched no element where one was needed.
    ElementNotFound,
    /// The worker that ran a crawl did not finish.
    TokioTaskError,
    /// The proxy sources could not be harvested.
    FailedToUpdateProxies,
    /// A proxy-list page has no element that the table selector matches.
    FailedToFindProxyTable,
    /// The proxy sources have no parsing rules.
    ProxyParsingRulesError,
    /// Reading or writing failed.
    IOError,
    /// A proxy address is not a valid URL.
    UrlParsingError,
    /// A delay does not fit a duration.
    TimeDurationConversionRange,
    /// The shop has no parsing rules; holds the shop's name.
    FailedToFindShopsRules(String),
    /// There is no shop to crawl.
    NoShopsFound,
    /// A proxy-list row lacks an address, a port or an HTTPS flag.
    NotAProxyRow,
}

impl ParserError {
    /// A message that describes the error.
    pub fn to_string(&self) -> String {
        match self {
            ParserError::NoProxyAvailable => "no proxy found".to_string(),
            ParserError::FailedClient => "failed to build reqwest client".to_string(),
            ParserError::RequestTimeOut => "request timeout".to_string(),
            ParserError::CrawlerSelectorError => "scrapper selector error".to_string(),
            ParserError::ElementNotFound => "no element matches the selector".to_string(),
            ParserError::TokioTaskError => "tokio task error".to_string(),
            ParserError::FailedToUpdateProxies => "failed to update proxies".to_string(),
            ParserError::FailedToFindProxyTable => "failed to find proxy table".to_string(),
            ParserError::ProxyParsingRulesError => "failed to find proxy parsing rules".to_string(),
            ParserError::IOError => "io error".to_string(),
            ParserError::UrlParsingError => "url parsing error".to_string(),
            ParserError::TimeDurationConversionRange => "time duration error".to_string(),
            ParserError::FailedToFindShopsRules(name) => {
                let mut s = "no shops rules available for ".to_string();
                s.append(name.as_str());
                s
            },
            ParserError::NoShopsFound => "failed to find any shop".to_string(),
            ParserError::NotAProxyRow => "not a proxy row".to_string(),
        }
    }
}

} // verus!
