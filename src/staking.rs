//! The staking export: a holder's delegations and their total.
use vstd::prelude::*;
use crate::coin::{
    Amount, NATIVE_DECIMALS, biguint_of, decimal_display, rescaled, to_bigdecimal,
};
use crate::csv::{Item, str_texts};
use crate::ranking::{Activity, saturating_score, score_of};
use crate::text::{ParseIntError, centi_text, centi_text_of, join, joined, texts};

verus! {

pub const FILE_NAME: &'static str = "staking";

/// A delegation as the staking module reports it; either part may be absent.
#[derive(Clone, Debug)]
pub struct Delegation {
    pub validator: Option<String>,
    pub amount: Option<String>,
}

#[derive(Clone, Copy, Debug, PartialEq, Eq, Structural)]
pub enum StakingError {
    Decode(ParseIntError),
    Arithmetic,
}

/// The first entry for `key`.
pub open spec fn key_index(entries: Seq<(Seq<char>, nat)>, key: Seq<char>) -> Option<int>
    decreases entries.len(),
{
    if entries.len() == 0 {
        None
    } else {
        match key_index(entries.drop_last(), key) {
            Some(i) => Some(i),
            None => if entries.last().0 == key {
                Some(entries.len() - 1)
            } else {
                None
            },
        }
    }
}

/// The entries with `key` set to `value`: replaced where the key is, else
/// appended.
pub open spec fn upsert(entries: Seq<(Seq<char>, nat)>, key: Seq<char>, value: nat) -> Seq<
    (Seq<char>, nat),
> {
    match key_index(entries, key) {
        Some(i) => entries.update(i, (key, value)),
        None => entries.push((key, value)),
    }
}

/// Each validator that a delegation names together with an amount, once, in
/// the order first named, with the amount (in units of `10^-18`) of its last
/// delegation; an amount that num-bigint cannot read fails.
pub open spec fn active(delegations: Seq<Delegation>) -> Result<Seq<(Seq<char>, nat)>, ParseIntError>
    decreases delegations.len(),
{
    if delegations.len() == 0 {
        Ok(Seq::empty())
    } else {
        match active(delegations.drop_last()) {
            Err(e) => Err(e),
            Ok(found) => {
                let d = delegations.last();
                match (d.validator, d.amount) {
                    (Some(v), Some(a)) => match biguint_of(a@) {
                        Some(x) => Ok(upsert(found, v@, x)),
                        None => Err(ParseIntError),
                    },
                    _ => Ok(found),
                }
            },
        }
    }
}

/// The amount of a delegation cut to hundredths.
pub open spec fn cut(amount: nat) -> nat {
    rescaled(amount, NATIVE_DECIMALS as nat, 2)
}

/// The sum of the amounts, each first cut to hundredths.
pub open spec fn delegated_centi(active: Seq<(Seq<char>, nat)>) -> nat
    decreases active.len(),
{
    if active.len() == 0 {
        0
    } else {
        delegated_centi(active.drop_last()) + cut(active.last().1)
    }
}

pub open spec fn validators_of(active: Seq<(Seq<char>, nat)>) -> Seq<Seq<char>> {
    active.map_values(|p: (Seq<char>, nat)| p.0)
}

/// One row of the staking export: `delegated` in hundredths of the native
/// token, and the text of that amount.
#[derive(Debug)]
pub struct ActiveDelegations {
    pub address: String,
    pub validators: Vec<String>,
    pub delegated: u128,
    pub delegated_text: String,
    pub ranking: u64,
}

impl ActiveDelegations {
    pub fn header_row() -> (r: Vec<&'static str>)
        ensures
            str_texts(r@) == seq!["address"@, "ranking"@, "total_delegated"@, "validators"@],
    {
        let r = vec!["address", "ranking", "total_delegated", "validators"];
        assert(str_texts(r@) =~= seq!["address"@, "ranking"@, "total_delegated"@, "validators"@]);
        r
    }

    pub fn to_rows(self) -> (r: Vec<Vec<String>>)
        ensures
            r@.len() == 1,
            texts(r@[0]@) == seq![
                self.address@,
                centi_text(self.ranking as nat),
                self.delegated_text@,
                joined(texts(self.validators@), ","@),
            ],
    {
        let ranking = centi_text_of(self.ranking as u128);
        let validators = join(&self.validators, ",");
        let row = vec![self.address, ranking, self.delegated_text, validators];
        proof {
            assert(texts(row@) =~= seq![
                self.address@,
                centi_text(self.ranking as nat),
                self.delegated_text@,
                joined(texts(self.validators@), ","@),
            ]);
        }
        vec![row]
    }
}

impl Item for ActiveDelegations {
    fn header() -> (r: Vec<&'static str>)
        ensures
            str_texts(r@) == seq!["address"@, "ranking"@, "total_delegated"@, "validators"@],
    {
        ActiveDelegations::header_row()
    }

    fn rows(self) -> (r: Vec<Vec<String>>)
        ensures
            r@.len() == 1,
            texts(r@[0]@) == seq![
                self.address@,
                centi_text(self.ranking as nat),
                self.delegated_text@,
                joined(texts(self.validators@), ","@),
            ],
    {
        self.to_rows()
    }
}

/// The index of the first validator named `key`.
fn find_validator(keys: &Vec<String>, key: &String, found: Ghost<Seq<(Seq<char>, nat)>>) -> (r:
    Option<usize>)
    requires
        texts(keys@) == validators_of(found@),
    ensures
        match key_index(found@, key@) {
            Some(i) => r == Some(i as usize),
            None => r is None,
        },
{
    let mut i: usize = 0;
    assert(texts(keys@).len() == keys@.len());
    assert(validators_of(found@).len() == found@.len());
    while i < keys.len()
        invariant
            i <= keys@.len(),
            keys@.len() == found@.len(),
            texts(keys@) == validators_of(found@),
            key_index(found@.subrange(0, i as int), key@) is None,
        decreases keys@.len() - i,
    {
        proof {
            let next = found@.subrange(0, i as int + 1);
            assert(next.drop_last() =~= found@.subrange(0, i as int));
            assert(texts(keys@)[i as int] == keys@[i as int]@);
            assert(validators_of(found@)[i as int] == found@[i as int].0);
        }
        if keys[i] == *key {
            proof {
                lemma_key_index_extends(found@, key@, i as int + 1);
            }
            return Some(i);
        }
        i += 1;
    }
    proof {
        assert(found@.subrange(0, i as int) =~= found@);
    }
    None
}

/// A key found among the first entries is found at the same place in all.
proof fn lemma_key_index_extends(entries: Seq<(Seq<char>, nat)>, key: Seq<char>, k: int)
    requires
        0 <= k <= entries.len(),
        key_index(entries.subrange(0, k), key) is Some,
    ensures
        key_index(entries, key) == key_index(entries.subrange(0, k), key),
    decreases entries.len() - k,
{
    if k < entries.len() {
        assert(entries.subrange(0, k + 1).drop_last() =~= entries.subrange(0, k));
        lemma_key_index_extends(entries, key, k + 1);
    } else {
        assert(entries.subrange(0, k) =~= entries);
    }
}

proof fn lemma_key_index_valid(entries: Seq<(Seq<char>, nat)>, key: Seq<char>)
    ensures
        key_index(entries, key) matches Some(i) ==> 0 <= i < entries.len() && entries[i].0 == key,
        key_index(entries, key) is None ==> forall|j: int|
            0 <= j < entries.len() ==> (#[trigger] entries[j]).0 != key,
    decreases entries.len(),
{
    if entries.len() > 0 {
        lemma_key_index_valid(entries.drop_last(), key);
        assert forall|j: int| 0 <= j < entries.len() - 1 implies (#[trigger] entries[j]).0
            == entries.drop_last()[j].0 by {}
    }
}

proof fn lemma_upsert_keys_distinct(entries: Seq<(Seq<char>, nat)>, key: Seq<char>, value: nat)
    requires
        validators_of(entries).no_duplicates(),
    ensures
        validators_of(upsert(entries, key, value)).no_duplicates(),
{
    lemma_key_index_valid(entries, key);
    let u = upsert(entries, key, value);
    match key_index(entries, key) {
        Some(i) => {
            assert(validators_of(u) =~= validators_of(entries));
        },
        None => {
            assert(validators_of(u) =~= validators_of(entries).push(key));
            assert forall|a: int, b: int|
                0 <= a < validators_of(u).len() && 0 <= b < validators_of(u).len() && a != b implies validators_of(u)[a]
                != validators_of(u)[b] by {
                if a < entries.len() && b < entries.len() {
                    assert(validators_of(u)[a] == validators_of(entries)[a]);
                    assert(validators_of(u)[b] == validators_of(entries)[b]);
                } else if a < entries.len() {
                    assert(validators_of(u)[a] == entries[a].0);
                } else if b < entries.len() {
                    assert(validators_of(u)[b] == entries[b].0);
                }
            }
        },
    }
}

proof fn lemma_delegated_grows(entries: Seq<(Seq<char>, nat)>, k: int)
    requires
        0 <= k <= entries.len(),
    ensures
        delegated_centi(entries.subrange(0, k)) <= delegated_centi(entries),
    decreases entries.len() - k,
{
    if k < entries.len() {
        assert(entries.subrange(0, k + 1).drop_last() =~= entries.subrange(0, k));
        lemma_delegated_grows(entries, k + 1);
    } else {
        assert(entries.subrange(0, k) =~= entries);
    }
}

proof fn lemma_active_error_stays(delegations: Seq<Delegation>, k: int)
    requires
        0 <= k <= delegations.len(),
        active(delegations.subrange(0, k)) is Err,
    ensures
        active(delegations) == active(delegations.subrange(0, k)),
    decreases delegations.len() - k,
{
    if k < delegations.len() {
        assert(delegations.subrange(0, k + 1).drop_last() =~= delegations.subrange(0, k));
        lemma_active_error_stays(delegations, k + 1);
    } else {
        assert(delegations.subrange(0, k) =~= delegations);
    }
}

/// The staking exporter: ranks a holder by the total it has delegated.
pub struct Staking {
    pub activity: Activity,
}

impl Staking {
    /// The row of `address` from its delegations: one entry per validator,
    /// with the amount of its last delegation.
    pub fn record(&self, address: String, delegations: Vec<Delegation>) -> (r: Result<
        ActiveDelegations,
        StakingError,
    >)
        ensures
            match active(delegations@) {
                Err(e) => r == Err::<ActiveDelegations, StakingError>(StakingError::Decode(e)),
                Ok(found) => if delegated_centi(found) > u128::MAX {
                    r == Err::<ActiveDelegations, StakingError>(StakingError::Arithmetic)
                } else {
                    r matches Ok(row) && row.address == address && texts(row.validators@)
                        == validators_of(found) && texts(row.validators@).no_duplicates()
                        && row.delegated == delegated_centi(found) && row.delegated_text@
                        == decimal_display(delegated_centi(found), 2) && row.ranking
                        == self.activity.ranking_of(score_of(delegated_centi(found)) as int)
                },
            },
    {
        let mut keys: Vec<String> = Vec::new();
        let mut cuts: Vec<Amount> = Vec::new();
        let ghost mut found: Seq<(Seq<char>, nat)> = Seq::empty();
        let mut i: usize = 0;
        while i < delegations.len()
            invariant
                i <= delegations@.len(),
                active(delegations@.subrange(0, i as int)) == Ok::<
                    Seq<(Seq<char>, nat)>,
                    ParseIntError,
                >(found),
                texts(keys@) == validators_of(found),
                validators_of(found).no_duplicates(),
                cuts@.len() == found.len(),
                forall|k: int|
                    0 <= k < cuts@.len() ==> (#[trigger] cuts@[k]).wf() && cuts@[k].value() == cut(
                        found[k].1,
                    ),
            decreases delegations@.len() - i,
        {
            proof {
                let next = delegations@.subrange(0, i as int + 1);
                assert(next.drop_last() =~= delegations@.subrange(0, i as int));
                assert(next.last() == delegations@[i as int]);
            }
            match (&delegations[i].validator, &delegations[i].amount) {
                (Some(v), Some(a)) => {
                    let amount = match to_bigdecimal(a.as_str()) {
                        Ok(x) => x,
                        Err(e) => {
                            proof {
                                lemma_active_error_stays(delegations@, i as int + 1);
                            }
                            return Err(StakingError::Decode(e));
                        },
                    };
                    let c = amount.with_scale(2);
                    let ghost old_found = found;
                    proof {
                        lemma_upsert_keys_distinct(old_found, v@, amount.value());
                        lemma_key_index_valid(old_found, v@);
                        found = upsert(old_found, v@, amount.value());
                    }
                    match find_validator(&keys, v, Ghost(old_found)) {
                        Some(k) => {
                            let nkeys = keys.len();
                            proof {
                                assert(texts(keys@).len() == keys@.len());
                                assert(validators_of(old_found).len() == old_found.len());
                                let idx = key_index(old_found, v@);
                                assert(idx is Some);
                                let ii = idx->Some_0;
                                assert(0 <= ii < old_found.len());
                                assert(keys@.len() == old_found.len());
                                assert(nkeys == keys@.len());
                                assert(ii as usize == k);
                                assert(ii == k as int);
                                assert(key_index(old_found, v@) == Some(k as int));
                                assert(found == old_found.update(k as int, (v@, amount.value())));
                            }
                            cuts.set(k, c);
                            proof {
                                assert(validators_of(found) =~= validators_of(old_found));
                                assert forall|j: int| 0 <= j < cuts@.len() implies (
                                #[trigger] cuts@[j]).wf() && cuts@[j].value() == cut(found[j].1) by {
                                    if j != k {
                                        assert(found[j] == old_found[j]);
                                    }
                                }
                            }
                        },
                        None => {
                            let ghost old_keys = keys@;
                            keys.push(v.clone());
                            cuts.push(c);
                            proof {
                                assert(texts(keys@) =~= texts(old_keys).push(v@));
                                assert(validators_of(found) =~= validators_of(old_found).push(v@));
                                assert forall|j: int| 0 <= j < cuts@.len() implies (
                                #[trigger] cuts@[j]).wf() && cuts@[j].value() == cut(found[j].1) by {
                                    if j < old_found.len() {
                                        assert(found[j] == old_found[j]);
                                    }
                                }
                            }
                        },
                    }
                },
                _ => {},
            }
            i += 1;
        }
        assert(delegations@.subrange(0, i as int) =~= delegations@);
        let mut total: u128 = 0;
        let mut k: usize = 0;
        while k < cuts.len()
            invariant
                k <= cuts@.len(),
                cuts@.len() == found.len(),
                active(delegations@) == Ok::<Seq<(Seq<char>, nat)>, ParseIntError>(found),
                forall|j: int|
                    0 <= j < cuts@.len() ==> (#[trigger] cuts@[j]).wf() && cuts@[j].value() == cut(
                        found[j].1,
                    ),
                total == delegated_centi(found.subrange(0, k as int)),
            decreases cuts@.len() - k,
        {
            proof {
                assert(found.subrange(0, k as int + 1).drop_last() =~= found.subrange(0, k as int));
                assert(found.subrange(0, k as int + 1).last() == found[k as int]);
                assert(cuts@[k as int].wf());
            }
            let part = match cuts[k].to_u128() {
                Some(p) => p,
                None => {
                    proof {
                        lemma_delegated_grows(found, k as int + 1);
                        assert(cuts@[k as int].value() == cut(found[k as int].1));
                        assert(delegated_centi(found.subrange(0, k as int + 1)) == total + cut(
                            found[k as int].1,
                        ));
                    }
                    return Err(StakingError::Arithmetic);
                },
            };
            total = match total.checked_add(part) {
                Some(t) => t,
                None => {
                    proof {
                        lemma_delegated_grows(found, k as int + 1);
                        assert(cuts@[k as int].value() == cut(found[k as int].1));
                        assert(delegated_centi(found.subrange(0, k as int + 1)) == total + cut(
                            found[k as int].1,
                        ));
                    }
                    return Err(StakingError::Arithmetic);
                },
            };
            k += 1;
        }
        assert(found.subrange(0, k as int) =~= found);
        let text = crate::coin::centi_amount_text(total);
        let ranking = self.activity.ranking(saturating_score(total));
        Ok(ActiveDelegations { address, validators: keys, delegated: total, delegated_text: text, ranking })
    }
}

} // verus!
