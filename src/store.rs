//! An in-memory store of what the crawler reads and writes: the queue of
//! shops to crawl, their parsing rules, proxies, proxy sources and the
//! listings found per shop. Callers that share it provide their own locking.
use vstd::prelude::*;
use crate::models::{
    HoyaPosition, HoyaPositionView, Proxy, ProxyParsingRules, ProxyView, Shop, ShopParsingRules,
    ShopView,
};

verus! {

/// Why a store operation failed.
#[derive(Debug, Clone, Copy, PartialEq, Eq, Structural)]
pub enum DBError {
    /// There is no shop in the queue.
    ShopNotFound,
    /// The shop has no parsing rules.
    ParsingRulesNotFound,
    /// An empty list of listings cannot be saved: it names no shop.
    NoProductShopPositions,
}

pub open spec fn shops_view(v: Seq<Shop>) -> Seq<ShopView> {
    v.map_values(|s: Shop| s@)
}

pub open spec fn proxies_of(v: Seq<Proxy>) -> Seq<ProxyView> {
    v.map_values(|p: Proxy| p@)
}

pub open spec fn positions_of(v: Seq<HoyaPosition>) -> Seq<HoyaPositionView> {
    v.map_values(|p: HoyaPosition| p@)
}

/// Index of the first rules entry for a shop, by its fields.
pub open spec fn rules_index(entries: Seq<(Shop, ShopParsingRules)>, shop: ShopView) -> Option<int>
    decreases entries.len(),
{
    if entries.len() == 0 {
        None
    } else {
        match rules_index(entries.drop_last(), shop) {
            Some(i) => Some(i),
            None => if entries.last().0@ == shop {
                Some(entries.len() - 1)
            } else {
                None
            },
        }
    }
}

/// The store.
#[derive(Debug, Default)]
pub struct InMemoryDB {
    /// Shops in crawl order: the front is crawled next.
    pub shops: Vec<Shop>,
    pub shops_parsing_rules: Vec<(Shop, ShopParsingRules)>,
    pub proxies: Vec<Proxy>,
    /// Proxy-list sources: URL and the rules to read its table.
    pub proxy_parsing_rules: Vec<(String, ProxyParsingRules)>,
    /// Listings per shop name, each name once.
    pub positions: Vec<(String, Vec<HoyaPosition>)>,
}

impl InMemoryDB {
    /// Each shop name has at most one entry of listings.
    pub open spec fn wf(&self) -> bool {
        forall|i: int, j: int|
            0 <= i < j < self.positions@.len() ==> #[trigger] self.positions@[i].0@
                != #[trigger] self.positions@[j].0@
    }

    /// Takes the next shop to crawl off the front of the queue.
    pub fn get_top_shop(&mut self) -> (r: Result<Shop, DBError>)
        ensures
            old(self).shops@.len() == 0 ==> r == Err::<Shop, DBError>(DBError::ShopNotFound)
                && final(self).shops@ == old(self).shops@,
            old(self).shops@.len() > 0 ==> r == Ok::<Shop, DBError>(old(self).shops@[0])
                && final(self).shops@ == old(self).shops@.drop_first(),
            final(self).shops_parsing_rules == old(self).shops_parsing_rules,
            final(self).proxies == old(self).proxies,
            final(self).positions == old(self).positions,
            final(self).proxy_parsing_rules == old(self).proxy_parsing_rules,
    {
        if self.shops.len() == 0 {
            return Err(DBError::ShopNotFound);
        }
        let s = self.shops.remove(0);
        assert(old(self).shops@.remove(0) =~= old(self).shops@.drop_first());
        Ok(s)
    }

    /// Puts a shop at the back of the queue.
    pub fn push_shop_back(&mut self, shop: &Shop) -> (r: Result<(), DBError>)
        ensures
            r is Ok,
            shops_view(final(self).shops@) == shops_view(old(self).shops@).push(shop@),
            final(self).shops_parsing_rules == old(self).shops_parsing_rules,
            final(self).proxies == old(self).proxies,
            final(self).positions == old(self).positions,
            final(self).proxy_parsing_rules == old(self).proxy_parsing_rules,
    {
        let ghost before = self.shops@;
        self.shops.push(shop.duplicate());
        assert(shops_view(self.shops@) =~= shops_view(before).push(shop@));
        Ok(())
    }

    /// The queue of shops, front first.
    pub fn get_all_shops(&self) -> (r: Vec<Shop>)
        ensures
            shops_view(r@) == shops_view(self.shops@),
    {
        let mut out: Vec<Shop> = Vec::new();
        let mut i: usize = 0;
        while i < self.shops.len()
            invariant
                i <= self.shops@.len(),
                shops_view(out@) =~= shops_view(self.shops@.subrange(0, i as int)),
            decreases self.shops@.len() - i,
        {
            let ghost prev = out@;
            out.push(self.shops[i].duplicate());
            assert(self.shops@.subrange(0, i + 1) =~= self.shops@.subrange(0, i as int).push(self.shops@[i as int]));
            assert(shops_view(out@) =~= shops_view(prev).push(self.shops@[i as int]@));
            i = i + 1;
        }
        assert(self.shops@.subrange(0, self.shops@.len() as int) =~= self.shops@);
        out
    }

    /// The parsing rules of a shop: those of its first entry.
    pub fn get_shop_parsing_rules(&self, shop: &Shop) -> (r: Result<&ShopParsingRules, DBError>)
        ensures
            r matches Ok(rules) ==> rules_index(self.shops_parsing_rules@, shop@) matches Some(i)
                && *rules == self.shops_parsing_rules@[i].1,
            r matches Err(e) ==> rules_index(self.shops_parsing_rules@, shop@) is None && e
                == DBError::ParsingRulesNotFound,
    {
        let entries = &self.shops_parsing_rules;
        let mut i: usize = 0;
        while i < entries.len()
            invariant
                i <= entries@.len(),
                entries == &self.shops_parsing_rules,
                rules_index(entries@.subrange(0, i as int), shop@) is None,
            decreases entries@.len() - i,
        {
            assert(entries@.subrange(0, i + 1).drop_last() =~= entries@.subrange(0, i as int));
            if entries[i].0 == *shop {
                assert(entries@[i as int].0@ == shop@);
                proof {
                    lemma_rules_index_prefix(entries@, shop@, i as int);
                }
                let found = &entries[i];
                assert(*found == entries@[i as int]);
                return Ok(&found.1);
            }
            i = i + 1;
        }
        assert(entries@.subrange(0, entries@.len() as int) =~= entries@);
        Err(DBError::ParsingRulesNotFound)
    }

    /// Replaces the stored proxies.
    pub fn save_proxies(&mut self, new_proxies: Vec<Proxy>) -> (r: Result<(), DBError>)
        ensures
            r is Ok,
            final(self).proxies@ == new_proxies@,
            final(self).shops == old(self).shops,
            final(self).shops_parsing_rules == old(self).shops_parsing_rules,
            final(self).positions == old(self).positions,
            final(self).proxy_parsing_rules == old(self).proxy_parsing_rules,
    {
        self.proxies = new_proxies;
        Ok(())
    }

    /// A copy of the stored proxies.
    pub fn get_proxies(&self) -> (r: Vec<Proxy>)
        ensures
            proxies_of(r@) == proxies_of(self.proxies@),
    {
        let mut out: Vec<Proxy> = Vec::new();
        let mut i: usize = 0;
        while i < self.proxies.len()
            invariant
                i <= self.proxies@.len(),
                proxies_of(out@) =~= proxies_of(self.proxies@.subrange(0, i as int)),
            decreases self.proxies@.len() - i,
        {
            let ghost prev = out@;
            out.push(self.proxies[i].duplicate());
            assert(self.proxies@.subrange(0, i + 1) =~= self.proxies@.subrange(0, i as int).push(self.proxies@[i as int]));
            assert(proxies_of(out@) =~= proxies_of(prev).push(self.proxies@[i as int]@));
            i = i + 1;
        }
        assert(self.proxies@.subrange(0, self.proxies@.len() as int) =~= self.proxies@);
        out
    }

    /// The proxy-list sources and their rules.
    pub fn get_proxy_parsing_rules(&self) -> (r: &Vec<(String, ProxyParsingRules)>)
        ensures
            r == &self.proxy_parsing_rules,
    {
        &self.proxy_parsing_rules
    }

    /// The listings of every shop, by shop name.
    pub fn get_positions_all(&self) -> (r: &Vec<(String, Vec<HoyaPosition>)>)
        ensures
            r == &self.positions,
    {
        &self.positions
    }

    /// Stores the listings of one crawl under the name of the shop of its
    /// first listing, replacing what was stored for that shop.
    pub fn save_positions(&mut self, positions: Vec<HoyaPosition>) -> (r: Result<(), DBError>)
        requires
            old(self).wf(),
        ensures
            final(self).wf(),
            positions@.len() == 0 <==> r is Err,
            r matches Err(e) ==> e == DBError::NoProductShopPositions && final(self).positions
                == old(self).positions,
            r is Ok ==> exists|k: int|
                0 <= k < final(self).positions@.len() && #[trigger] final(self).positions@[k].0@
                    == positions@[0].shop.name@ && positions_of(final(self).positions@[k].1@)
                    == positions_of(positions@),
            r is Ok ==> forall|k: int|
                0 <= k < old(self).positions@.len() && old(self).positions@[k].0@
                    != positions@[0].shop.name@ ==> final(self).positions@.contains(
                    #[trigger] old(self).positions@[k],
                ),
            final(self).shops == old(self).shops,
            final(self).proxies == old(self).proxies,
    {
        if positions.len() == 0 {
            return Err(DBError::NoProductShopPositions);
        }
        let name = positions[0].shop.name.clone();
        let ghost old_positions = self.positions@;
        let mut i: usize = 0;
        while i < self.positions.len()
            invariant
                i <= self.positions@.len(),
                self.positions@ == old_positions,
                old_positions == old(self).positions@,
                old(self).wf(),
                positions@.len() > 0,
                name@ == positions@[0].shop.name@,
                self.shops == old(self).shops,
                self.proxies == old(self).proxies,
                forall|j: int| 0 <= j < i ==> self.positions@[j].0@ != name@,
            decreases self.positions@.len() - i,
        {
            if self.positions[i].0 == name {
                let ghost before = self.positions@;
                let ghost given = positions@;
                self.positions.set(i, (name, positions));
                assert(self.positions@[i as int].0@ == before[i as int].0@);
                assert(self.positions@[i as int].1@ == given);
                assert(forall|k: int| 0 <= k < before.len() && k != i ==> self.positions@[k] == before[k]);
                assert forall|k: int|
                    0 <= k < before.len() && before[k].0@ != self.positions@[i as int].0@ implies self.positions@.contains(
                    #[trigger] before[k],
                ) by {
                    assert(self.positions@[k] == before[k]);
                }
                return Ok(());
            }
            i = i + 1;
        }
        let ghost before = self.positions@;
        let ghost given = positions@;
        self.positions.push((name, positions));
        assert(self.positions@[before.len() as int].1@ == given);
        assert(self.positions@[before.len() as int].0@ == given[0].shop.name@);
        assert forall|k: int| 0 <= k < before.len() implies self.positions@.contains(
            #[trigger] before[k],
        ) by {
            assert(self.positions@[k] == before[k]);
        }
        Ok(())
    }
}

proof fn lemma_rules_index_prefix(entries: Seq<(Shop, ShopParsingRules)>, shop: ShopView, i: int)
    requires
        0 <= i < entries.len(),
        entries[i].0@ == shop,
        rules_index(entries.subrange(0, i), shop) is None,
    ensures
        rules_index(entries, shop) == Some(i),
    decreases entries.len(),
{
    if i == entries.len() - 1 {
        assert(entries.drop_last() =~= entries.subrange(0, i));
    } else {
        assert(entries.drop_last().subrange(0, i) =~= entries.subrange(0, i));
        lemma_rules_index_prefix(entries.drop_last(), shop, i);
    }
}

} // verus!
