//! The price cache of a run: USD prices by price id, filled on demand by one
//! batched request for the ids that it does not hold yet.
use vstd::prelude::*;
use vstd::string::StringExecFns;
use crate::lookup::{find_last, lookup_last, lemma_lookup_push};
use crate::text::{join, joined, texts};

verus! {

/// A requested price id that the price service did not return.
#[derive(Clone, Debug)]
pub struct MissingPrice(pub String);

/// The ids whose price `cache` does not hold, in the order asked.
pub open spec fn missing_ids(cache: Seq<(String, u128)>, ids: Seq<String>) -> Seq<String>
    decreases ids.len(),
{
    if ids.len() == 0 {
        Seq::empty()
    } else if lookup_last(cache, ids.last()@) is None {
        missing_ids(cache, ids.drop_last()).push(ids.last())
    } else {
        missing_ids(cache, ids.drop_last())
    }
}

/// The price of each id, in the order asked, or the first id without one.
pub open spec fn assembled(cache: Seq<(String, u128)>, ids: Seq<String>) -> Result<
    Seq<(String, u128)>,
    MissingPrice,
>
    decreases ids.len(),
{
    if ids.len() == 0 {
        Ok(Seq::empty())
    } else {
        match assembled(cache, ids.drop_last()) {
            Err(e) => Err(e),
            Ok(found) => match lookup_last(cache, ids.last()@) {
                Some(p) => Ok(found.push((ids.last(), p))),
                None => Err(MissingPrice(ids.last())),
            },
        }
    }
}

/// The path and query of the batched price request for `ids`.
pub open spec fn price_query_text(ids: Seq<String>) -> Seq<char> {
    "/api/v3/simple/price?ids="@ + joined(texts(ids), ","@) + "&vs_currencies=usd&precision=full"@
}

/// Prices in nano-dollars per token, by price id.
#[derive(Debug)]
pub struct PriceCache {
    entries: Vec<(String, u128)>,
}

impl View for PriceCache {
    type V = Seq<(String, u128)>;

    closed spec fn view(&self) -> Seq<(String, u128)> {
        self.entries@
    }
}

impl PriceCache {
    pub fn new() -> (r: PriceCache)
        ensures
            r@ == Seq::<(String, u128)>::empty(),
    {
        PriceCache { entries: Vec::new() }
    }

    /// The cached price of `id`.
    pub fn get(&self, id: &String) -> (r: Option<u128>)
        ensures
            r == lookup_last(self@, id@),
    {
        match find_last(&self.entries, id) {
            Some(i) => Some(self.entries[i].1),
            None => None,
        }
    }

    /// The requested ids that the cache does not hold.
    pub fn missing(&self, ids: &Vec<String>) -> (r: Vec<String>)
        ensures
            r@ == missing_ids(self@, ids@),
    {
        let mut r: Vec<String> = Vec::new();
        let mut i: usize = 0;
        while i < ids.len()
            invariant
                i <= ids@.len(),
                r@ == missing_ids(self@, ids@.subrange(0, i as int)),
            decreases ids@.len() - i,
        {
            proof {
                let next = ids@.subrange(0, i as int + 1);
                assert(next.drop_last() =~= ids@.subrange(0, i as int));
            }
            if self.get(&ids[i]).is_none() {
                r.push(ids[i].clone());
            }
            i += 1;
        }
        assert(ids@.subrange(0, i as int) =~= ids@);
        r
    }

    /// Adds the prices that the service returned; a later price of an id
    /// replaces an earlier one.
    pub fn merge(&mut self, response: Vec<(String, u128)>)
        ensures
            final(self)@ == old(self)@ + response@,
    {
        let mut response = response;
        self.entries.append(&mut response);
    }

    /// The price of every requested id, or the first id without a price.
    pub fn assemble(&self, ids: &Vec<String>) -> (r: Result<Vec<(String, u128)>, MissingPrice>)
        ensures
            match assembled(self@, ids@) {
                Ok(found) => r matches Ok(v) && v@ == found,
                Err(e) => r matches Err(m) && m == e,
            },
    {
        let mut found: Vec<(String, u128)> = Vec::new();
        let mut i: usize = 0;
        while i < ids.len()
            invariant
                i <= ids@.len(),
                assembled(self@, ids@.subrange(0, i as int)) == Ok::<
                    Seq<(String, u128)>,
                    MissingPrice,
                >(found@),
            decreases ids@.len() - i,
        {
            proof {
                let next = ids@.subrange(0, i as int + 1);
                assert(next.drop_last() =~= ids@.subrange(0, i as int));
                assert(next.last() == ids@[i as int]);
            }
            match self.get(&ids[i]) {
                Some(p) => found.push((ids[i].clone(), p)),
                None => {
                    proof {
                        lemma_assembled_error_stays(self@, ids@, i as int + 1);
                    }
                    return Err(MissingPrice(ids[i].clone()));
                },
            }
            i += 1;
        }
        assert(ids@.subrange(0, i as int) =~= ids@);
        Ok(found)
    }

    /// The request to send before the prices of `ids` can be assembled:
    /// `None` when the cache already holds every one of them.
    pub fn plan_request(&self, ids: &Vec<String>) -> (r: Option<String>)
        ensures
            missing_ids(self@, ids@).len() == 0 ==> r is None,
            missing_ids(self@, ids@).len() > 0 ==> (r matches Some(q) && q@ == price_query_text(
                missing_ids(self@, ids@),
            )),
    {
        let missing = self.missing(ids);
        if missing.len() == 0 {
            return None;
        }
        let ids_text = join(&missing, ",");
        let q = String::from_str("/api/v3/simple/price?ids=").concat(ids_text.as_str()).concat(
            "&vs_currencies=usd&precision=full",
        );
        Some(q)
    }

    /// Adds the prices that the planned request returned (none when no
    /// request was needed), then assembles the prices of `ids`.
    pub fn resolve(&mut self, ids: &Vec<String>, fetched: Vec<(String, u128)>) -> (r: Result<
        Vec<(String, u128)>,
        MissingPrice,
    >)
        ensures
            final(self)@ == old(self)@ + fetched@,
            match assembled(old(self)@ + fetched@, ids@) {
                Ok(found) => r matches Ok(v) && v@ == found,
                Err(e) => r matches Err(m) && m == e,
            },
    {
        self.merge(fetched);
        self.assemble(ids)
    }
}

/// A missing price among the first ids is the missing price of the whole list.
proof fn lemma_assembled_error_stays(cache: Seq<(String, u128)>, ids: Seq<String>, k: int)
    requires
        0 <= k <= ids.len(),
        assembled(cache, ids.subrange(0, k)) is Err,
    ensures
        assembled(cache, ids) == assembled(cache, ids.subrange(0, k)),
    decreases ids.len() - k,
{
    if k < ids.len() {
        let next = ids.subrange(0, k + 1);
        assert(next.drop_last() =~= ids.subrange(0, k));
        lemma_assembled_error_stays(cache, ids, k + 1);
    } else {
        assert(ids.subrange(0, k) =~= ids);
    }
}

/// Every id that was assembled has a price in the cache.
proof fn lemma_assembled_all_cached(cache: Seq<(String, u128)>, ids: Seq<String>)
    requires
        assembled(cache, ids) is Ok,
    ensures
        forall|i: int| 0 <= i < ids.len() ==> lookup_last(cache, (#[trigger] ids[i])@) is Some,
    decreases ids.len(),
{
    if ids.len() > 0 {
        lemma_assembled_all_cached(cache, ids.drop_last());
        assert forall|i: int| 0 <= i < ids.len() implies lookup_last(
            cache,
            (#[trigger] ids[i])@,
        ) is Some by {
            if i < ids.len() - 1 {
                assert(ids.drop_last()[i] == ids[i]);
            }
        }
    }
}

/// Entries merged later never take a price away.
proof fn lemma_merge_keeps_prices(cache: Seq<(String, u128)>, later: Seq<(String, u128)>, key: Seq<char>)
    requires
        lookup_last(cache, key) is Some,
    ensures
        lookup_last(cache + later, key) is Some,
    decreases later.len(),
{
    if later.len() > 0 {
        lemma_merge_keeps_prices(cache, later.drop_last(), key);
        assert(cache + later =~= (cache + later.drop_last()).push(later.last()));
        lemma_lookup_push(cache + later.drop_last(), later.last(), key);
    } else {
        assert(cache + later =~= cache);
    }
}

/// Ids that all have a price miss none.
proof fn lemma_none_missing(cache: Seq<(String, u128)>, ids: Seq<String>)
    requires
        forall|i: int| 0 <= i < ids.len() ==> lookup_last(cache, (#[trigger] ids[i])@) is Some,
    ensures
        missing_ids(cache, ids).len() == 0,
    decreases ids.len(),
{
    if ids.len() > 0 {
        assert forall|i: int| 0 <= i < ids.drop_last().len() implies lookup_last(
            cache,
            (#[trigger] ids.drop_last()[i])@,
        ) is Some by {
            assert(ids.drop_last()[i] == ids[i]);
        }
        lemma_none_missing(cache, ids.drop_last());
        assert(lookup_last(cache, ids[ids.len() - 1]@) is Some);
    }
}

/// Ids that all have a price assemble without a missing one.
proof fn lemma_all_cached_assembles(cache: Seq<(String, u128)>, ids: Seq<String>)
    requires
        forall|i: int| 0 <= i < ids.len() ==> lookup_last(cache, (#[trigger] ids[i])@) is Some,
    ensures
        assembled(cache, ids) is Ok,
    decreases ids.len(),
{
    if ids.len() > 0 {
        assert forall|i: int| 0 <= i < ids.drop_last().len() implies lookup_last(
            cache,
            (#[trigger] ids.drop_last()[i])@,
        ) is Some by {
            assert(ids.drop_last()[i] == ids[i]);
        }
        lemma_all_cached_assembles(cache, ids.drop_last());
        assert(lookup_last(cache, ids[ids.len() - 1]@) is Some);
    }
}

/// Once the prices of some ids have been assembled without a missing one,
/// asking again for any of those ids, in any order and any number of times,
/// needs no request and assembles without a missing price, whatever has
/// been merged into the cache since.
pub proof fn lemma_repeated_prices_need_no_request(
    cache: Seq<(String, u128)>,
    later: Seq<(String, u128)>,
    earlier_ids: Seq<String>,
    ids: Seq<String>,
)
    requires
        assembled(cache, earlier_ids) is Ok,
        forall|i: int|
            0 <= i < ids.len() ==> exists|j: int|
                0 <= j < earlier_ids.len() && (#[trigger] earlier_ids[j])@ == (#[trigger] ids[i])@,
    ensures
        missing_ids(cache + later, ids).len() == 0,
        assembled(cache + later, ids) is Ok,
{
    lemma_assembled_all_cached(cache, earlier_ids);
    assert forall|i: int| 0 <= i < ids.len() implies lookup_last(
        cache + later,
        (#[trigger] ids[i])@,
    ) is Some by {
        let j = choose|j: int| 0 <= j < earlier_ids.len() && (#[trigger] earlier_ids[j])@ == ids[i]@;
        assert(lookup_last(cache, earlier_ids[j]@) is Some);
        lemma_merge_keeps_prices(cache, later, ids[i]@);
    }
    lemma_none_missing(cache + later, ids);
    lemma_all_cached_assembles(cache + later, ids);
}

/// When any requested id has no price, assembling fails with a missing
/// price, so no valued row can be built from it.
pub proof fn lemma_missing_price_fails(cache: Seq<(String, u128)>, ids: Seq<String>, i: int)
    requires
        0 <= i < ids.len(),
        lookup_last(cache, ids[i]@) is None,
    ensures
        assembled(cache, ids) is Err,
    decreases ids.len(),
{
    if i < ids.len() - 1 {
        assert(ids.drop_last()[i] == ids[i]);
        lemma_missing_price_fails(cache, ids.drop_last(), i);
    }
}

} // verus!
