//! Crawling and extraction engine for shop price listings.
//!
//! The library turns a shop's parsing rules into listings across paginated,
//! categorized pages, and finds proxies to crawl through:
//! - `extract` reads listings, page counts and proxy tables out of pages,
//!   through the selector queries of `dom`;
//! - `price` normalizes price texts into decimal prices;
//! - `proxy` harvests, draws and selects proxies and configures clients;
//! - `crawl` decides, attempt by attempt and page by page, what to fetch
//!   next, leaving the fetching itself to its caller;
//! - `store` keeps the shop queue and what the crawler reads and writes;
//! - `config` and `text` check settings and clean user-submitted text.
pub mod config;
pub mod crawl;
pub mod dom;
pub mod errors;
pub mod extract;
pub mod models;
pub mod price;
pub mod proxy;
pub mod store;
pub mod strings;
pub mod text;
