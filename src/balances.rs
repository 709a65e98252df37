//! The balances export: bank balances valued in USD and ranked.
use vstd::prelude::*;
use crate::coin::{ArithmeticError, Coin, CoinValue, decimal_display, rescaled, usd_nano};
use crate::csv::{Item, str_texts};
use crate::lookup::{find_last, lookup_last};
use crate::ranking::{Activity, saturating_score, score_of};
use crate::text::{ParseIntError, centi_text, centi_text_of, join, joined, texts};
use crate::tokens::{BankCoin, TokenMap};

verus! {

pub const FILE_NAME: &'static str = "balances";

/// Nano-dollars in a hundredth of a dollar.
pub const NANO_PER_CENT: u128 = 10_000_000;

/// What each coin stands for.
pub open spec fn coin_views(coins: Seq<Coin>) -> Seq<CoinValue> {
    coins.map_values(|c: Coin| c@)
}

/// Every coin's amount holds decimal digits.
pub open spec fn all_wf(coins: Seq<Coin>) -> bool {
    forall|i: int| 0 <= i < coins.len() ==> (#[trigger] coins[i]).amount.wf()
}

/// The coins that the table maps the balances to, in order: unknown
/// denominations are left out; an amount that cannot be read fails.
pub open spec fn mapped_coins(tokens: TokenMap, balances: Seq<BankCoin>) -> Result<
    Seq<CoinValue>,
    ParseIntError,
>
    decreases balances.len(),
{
    if balances.len() == 0 {
        Ok(Seq::empty())
    } else {
        match mapped_coins(tokens, balances.drop_last()) {
            Err(e) => Err(e),
            Ok(coins) => match tokens.create_coin_spec(balances.last()) {
                Err(e) => Err(e),
                Ok(Some(c)) => Ok(coins.push(c)),
                Ok(None) => Ok(coins),
            },
        }
    }
}

/// The price id of each coin that has one, in order.
pub open spec fn coin_price_ids(coins: Seq<CoinValue>) -> Seq<Seq<char>>
    decreases coins.len(),
{
    if coins.len() == 0 {
        Seq::empty()
    } else {
        match coins.last().3 {
            Some(id) => coin_price_ids(coins.drop_last()).push(id),
            None => coin_price_ids(coins.drop_last()),
        }
    }
}

/// A coin with its value in nano-dollars.
#[derive(Debug)]
pub struct Balance {
    pub balance: Coin,
    pub total_value: u128,
}

impl Clone for Balance {
    fn clone(&self) -> (r: Balance)
        ensures
            r.balance@ == self.balance@,
            r.balance.amount.digits@ == self.balance.amount.digits@,
            r.total_value == self.total_value,
    {
        Balance { balance: self.balance.clone(), total_value: self.total_value }
    }
}

/// What each balance stands for: the coin and its value.
pub open spec fn balance_views(balances: Seq<Balance>) -> Seq<(CoinValue, nat)> {
    balances.map_values(|b: Balance| (b.balance@, b.total_value as nat))
}

pub open spec fn all_balances_wf(balances: Seq<Balance>) -> bool {
    forall|i: int| 0 <= i < balances.len() ==> (#[trigger] balances[i]).balance.amount.wf()
}

/// The coins that have a price id and a price, each with its value in
/// nano-dollars; a product of amount and price beyond `u128` fails.
pub open spec fn valued(coins: Seq<CoinValue>, prices: Seq<(String, u128)>) -> Result<
    Seq<(CoinValue, nat)>,
    ArithmeticError,
>
    decreases coins.len(),
{
    if coins.len() == 0 {
        Ok(Seq::empty())
    } else {
        match valued(coins.drop_last(), prices) {
            Err(e) => Err(e),
            Ok(found) => {
                let c = coins.last();
                match c.3 {
                    None => Ok(found),
                    Some(id) => match lookup_last(prices, id) {
                        None => Ok(found),
                        Some(p) => if c.1 * p > u128::MAX {
                            Err(ArithmeticError)
                        } else {
                            Ok(found.push((c, usd_nano(c.1, c.2 as nat, p as nat))))
                        },
                    },
                }
            },
        }
    }
}

/// The sum of the values.
pub open spec fn total_value(balances: Seq<(CoinValue, nat)>) -> nat
    decreases balances.len(),
{
    if balances.len() == 0 {
        0
    } else {
        total_value(balances.drop_last()) + balances.last().1
    }
}

/// A coin as the export writes it: the amount to two decimal places, then
/// the denomination.
pub open spec fn coin_text(c: CoinValue) -> Seq<char> {
    decimal_display(rescaled(c.1, c.2 as nat, 2), 2) + c.0
}

/// The coins of the balances, as the export writes them.
pub open spec fn coin_texts(balances: Seq<(CoinValue, nat)>) -> Seq<Seq<char>> {
    balances.map_values(|b: (CoinValue, nat)| coin_text(b.0))
}

/// Maps each bank balance through the denomination table.
pub fn map_coins(tokens: &TokenMap, balances: Vec<BankCoin>) -> (r: Result<Vec<Coin>, ParseIntError>)
    ensures
        match mapped_coins(*tokens, balances@) {
            Ok(coins) => r matches Ok(v) && coin_views(v@) == coins && all_wf(v@),
            Err(e) => r == Err::<Vec<Coin>, ParseIntError>(e),
        },
{
    let mut coins: Vec<Coin> = Vec::new();
    let mut i: usize = 0;
    assert(coin_views(coins@) =~= Seq::<CoinValue>::empty());
    while i < balances.len()
        invariant
            i <= balances@.len(),
            mapped_coins(*tokens, balances@.subrange(0, i as int)) == Ok::<
                Seq<CoinValue>,
                ParseIntError,
            >(coin_views(coins@)),
            all_wf(coins@),
        decreases balances@.len() - i,
    {
        proof {
            let next = balances@.subrange(0, i as int + 1);
            assert(next.drop_last() =~= balances@.subrange(0, i as int));
            assert(next.last() == balances@[i as int]);
        }
        let coin = BankCoin { denom: balances[i].denom.clone(), amount: balances[i].amount.clone() };
        assert(coin == balances@[i as int]);
        match tokens.create_coin(coin) {
            Ok(Some(c)) => {
                let ghost before = coins@;
                coins.push(c);
                proof {
                    assert(coin_views(coins@) =~= coin_views(before).push(c@));
                    assert forall|k: int| 0 <= k < coins@.len() implies (
                    #[trigger] coins@[k]).amount.wf() by {
                        if k < before.len() {
                            assert(coins@[k] == before[k]);
                        }
                    }
                }
            },
            Ok(None) => {},
            Err(e) => {
                proof {
                    lemma_mapped_error_stays(*tokens, balances@, i as int + 1);
                }
                return Err(e);
            },
        }
        i += 1;
    }
    assert(balances@.subrange(0, i as int) =~= balances@);
    Ok(coins)
}

proof fn lemma_mapped_error_stays(tokens: TokenMap, balances: Seq<BankCoin>, k: int)
    requires
        0 <= k <= balances.len(),
        mapped_coins(tokens, balances.subrange(0, k)) is Err,
    ensures
        mapped_coins(tokens, balances) == mapped_coins(tokens, balances.subrange(0, k)),
    decreases balances.len() - k,
{
    if k < balances.len() {
        assert(balances.subrange(0, k + 1).drop_last() =~= balances.subrange(0, k));
        lemma_mapped_error_stays(tokens, balances, k + 1);
    } else {
        assert(balances.subrange(0, k) =~= balances);
    }
}

/// The price ids to ask for: that of every coin that has one.
pub fn price_ids(coins: &Vec<Coin>) -> (r: Vec<String>)
    ensures
        texts(r@) == coin_price_ids(coin_views(coins@)),
{
    let mut r: Vec<String> = Vec::new();
    let mut i: usize = 0;
    while i < coins.len()
        invariant
            i <= coins@.len(),
            texts(r@) == coin_price_ids(coin_views(coins@.subrange(0, i as int))),
        decreases coins@.len() - i,
    {
        proof {
            let next = coin_views(coins@.subrange(0, i as int + 1));
            assert(next.drop_last() =~= coin_views(coins@.subrange(0, i as int)));
            assert(next.last() == coins@[i as int]@);
        }
        match &coins[i].coingecko_id {
            Some(id) => {
                let ghost before = r@;
                r.push(id.clone());
                assert(texts(r@) =~= texts(before).push(id@));
            },
            None => {},
        }
        i += 1;
    }
    assert(coins@.subrange(0, i as int) =~= coins@);
    r
}

/// Values each coin that has a price id and a price.
pub fn value_coins(coins: Vec<Coin>, prices: &Vec<(String, u128)>) -> (r: Result<
    Vec<Balance>,
    ArithmeticError,
>)
    requires
        all_wf(coins@),
    ensures
        match valued(coin_views(coins@), prices@) {
            Ok(found) => r matches Ok(v) && balance_views(v@) == found && all_balances_wf(v@),
            Err(e) => r == Err::<Vec<Balance>, ArithmeticError>(e),
        },
{
    let mut found: Vec<Balance> = Vec::new();
    let mut i: usize = 0;
    assert(balance_views(found@) =~= Seq::<(CoinValue, nat)>::empty());
    while i < coins.len()
        invariant
            i <= coins@.len(),
            all_wf(coins@),
            valued(coin_views(coins@.subrange(0, i as int)), prices@) == Ok::<
                Seq<(CoinValue, nat)>,
                ArithmeticError,
            >(balance_views(found@)),
            all_balances_wf(found@),
        decreases coins@.len() - i,
    {
        proof {
            let next = coin_views(coins@.subrange(0, i as int + 1));
            assert(next.drop_last() =~= coin_views(coins@.subrange(0, i as int)));
            assert(next.last() == coins@[i as int]@);
            assert(coins@[i as int].amount.wf());
        }
        match &coins[i].coingecko_id {
            None => {},
            Some(id) => match find_last(prices, id) {
                None => {},
                Some(k) => {
                    let price = prices[k].1;
                    match coins[i].total_value(price) {
                        Ok(v) => {
                            proof {
                                let c = coins@[i as int]@;
                                assert(c.3 == Some(id@));
                                assert(lookup_last(prices@, id@) == Some(price));
                                assert(c.1 * price <= u128::MAX);
                                assert(v as nat == usd_nano(c.1, c.2 as nat, price as nat));
                            }
                            let ghost before = found@;
                            let b = Balance { balance: coins[i].clone(), total_value: v };
                            found.push(b);
                            proof {
                                assert(balance_views(found@) =~= balance_views(before).push(
                                    (coins@[i as int]@, v as nat),
                                ));
                                assert forall|j: int| 0 <= j < found@.len() implies (
                                #[trigger] found@[j]).balance.amount.wf() by {
                                    if j < before.len() {
                                        assert(found@[j] == before[j]);
                                    }
                                }
                            }
                        },
                        Err(e) => {
                            proof {
                                lemma_valued_error_stays(coin_views(coins@), prices@, i as int + 1);
                                assert(coin_views(coins@).subrange(0, i as int + 1) =~= coin_views(
                                    coins@.subrange(0, i as int + 1),
                                ));
                            }
                            return Err(e);
                        },
                    }
                },
            },
        }
        i += 1;
    }
    assert(coins@.subrange(0, i as int) =~= coins@);
    Ok(found)
}

proof fn lemma_valued_error_stays(coins: Seq<CoinValue>, prices: Seq<(String, u128)>, k: int)
    requires
        0 <= k <= coins.len(),
        valued(coins.subrange(0, k), prices) is Err,
    ensures
        valued(coins, prices) == valued(coins.subrange(0, k), prices),
    decreases coins.len() - k,
{
    if k < coins.len() {
        assert(coins.subrange(0, k + 1).drop_last() =~= coins.subrange(0, k));
        lemma_valued_error_stays(coins, prices, k + 1);
    } else {
        assert(coins.subrange(0, k) =~= coins);
    }
}

/// The sum of the values, failing where it does not fit.
pub fn usd_total(balances: &Vec<Balance>) -> (r: Result<u128, ArithmeticError>)
    ensures
        total_value(balance_views(balances@)) <= u128::MAX ==> r == Ok::<u128, ArithmeticError>(
            total_value(balance_views(balances@)) as u128,
        ),
        total_value(balance_views(balances@)) > u128::MAX ==> r == Err::<u128, ArithmeticError>(
            ArithmeticError,
        ),
{
    let mut sum: u128 = 0;
    let mut i: usize = 0;
    while i < balances.len()
        invariant
            i <= balances@.len(),
            sum == total_value(balance_views(balances@.subrange(0, i as int))),
        decreases balances@.len() - i,
    {
        proof {
            let next = balance_views(balances@.subrange(0, i as int + 1));
            assert(next.drop_last() =~= balance_views(balances@.subrange(0, i as int)));
            assert(next.last().1 == balances@[i as int].total_value);
        }
        match sum.checked_add(balances[i].total_value) {
            Some(s) => sum = s,
            None => {
                proof {
                    lemma_total_grows(balance_views(balances@), i as int + 1);
                    assert(balance_views(balances@).subrange(0, i as int + 1) =~= balance_views(
                        balances@.subrange(0, i as int + 1),
                    ));
                }
                return Err(ArithmeticError);
            },
        }
        i += 1;
    }
    assert(balances@.subrange(0, i as int) =~= balances@);
    Ok(sum)
}

proof fn lemma_total_grows(balances: Seq<(CoinValue, nat)>, k: int)
    requires
        0 <= k <= balances.len(),
    ensures
        total_value(balances.subrange(0, k)) <= total_value(balances),
    decreases balances.len() - k,
{
    if k < balances.len() {
        assert(balances.subrange(0, k + 1).drop_last() =~= balances.subrange(0, k));
        lemma_total_grows(balances, k + 1);
    } else {
        assert(balances.subrange(0, k) =~= balances);
    }
}

/// Each coin written to two decimal places, then its denomination.
pub fn balance_texts(balances: &Vec<Balance>) -> (r: Vec<String>)
    requires
        all_balances_wf(balances@),
    ensures
        texts(r@) == coin_texts(balance_views(balances@)),
{
    let mut r: Vec<String> = Vec::new();
    let mut i: usize = 0;
    while i < balances.len()
        invariant
            i <= balances@.len(),
            all_balances_wf(balances@),
            r@.len() == i,
            texts(r@) =~= coin_texts(balance_views(balances@.subrange(0, i as int))),
        decreases balances@.len() - i,
    {
        let coin = &balances[i].balance;
        assert(coin.amount.wf());
        let t = coin.with_scale(2).to_text();
        let ghost prev = r@;
        r.push(t);
        proof {
            let want = coin_texts(balance_views(balances@.subrange(0, i as int + 1)));
            assert forall|j: int| 0 <= j <= i implies texts(r@)[j] == want[j] by {
                if j < i {
                    assert(r@[j] == prev[j]);
                    assert(balances@.subrange(0, i as int + 1)[j] == balances@.subrange(
                        0,
                        i as int,
                    )[j]);
                    assert(texts(prev)[j] == coin_texts(
                        balance_views(balances@.subrange(0, i as int)),
                    )[j]);
                } else {
                    assert(r@[j] == t);
                    assert(balances@.subrange(0, i as int + 1)[j] == balances@[i as int]);
                }
            }
            assert(texts(r@) =~= want);
        }
        i += 1;
    }
    assert(balances@.subrange(0, i as int) =~= balances@);
    r
}

/// One row of the balances export.
#[derive(Debug)]
pub struct AddressBalances {
    pub address: String,
    pub balances: Vec<String>,
    pub usd: u128,
    pub ranking: u64,
}

impl AddressBalances {
    pub fn header_row() -> (r: Vec<&'static str>)
        ensures
            str_texts(r@) == seq!["address"@, "ranking"@, "usd_total"@, "balances"@],
    {
        let r = vec!["address", "ranking", "usd_total", "balances"];
        assert(str_texts(r@) =~= seq!["address"@, "ranking"@, "usd_total"@, "balances"@]);
        r
    }

    pub fn to_rows(self) -> (r: Vec<Vec<String>>)
        ensures
            r@.len() == 1,
            texts(r@[0]@) == seq![
                self.address@,
                centi_text(self.ranking as nat),
                centi_text(self.usd as nat),
                joined(texts(self.balances@), ","@),
            ],
    {
        let ranking = centi_text_of(self.ranking as u128);
        let usd = centi_text_of(self.usd);
        let coins = join(&self.balances, ",");
        let row = vec![self.address, ranking, usd, coins];
        proof {
            assert(texts(row@) =~= seq![
                self.address@,
                centi_text(self.ranking as nat),
                centi_text(self.usd as nat),
                joined(texts(self.balances@), ","@),
            ]);
        }
        vec![row]
    }
}

impl Item for AddressBalances {
    fn header() -> (r: Vec<&'static str>)
        ensures
            str_texts(r@) == seq!["address"@, "ranking"@, "usd_total"@, "balances"@],
    {
        AddressBalances::header_row()
    }

    fn rows(self) -> (r: Vec<Vec<String>>)
        ensures
            r@.len() == 1,
            texts(r@[0]@) == seq![
                self.address@,
                centi_text(self.ranking as nat),
                centi_text(self.usd as nat),
                joined(texts(self.balances@), ","@),
            ],
    {
        self.to_rows()
    }
}

/// The balances exporter: values a holder's coins and ranks their total.
pub struct Balances {
    pub activity: Activity,
}

impl Balances {
    /// The row of `address` from its coins and the prices of their ids. The
    /// values are summed in nano-dollars and the total cut to cents once.
    pub fn record(&self, address: String, coins: Vec<Coin>, prices: &Vec<(String, u128)>) -> (r:
        Result<AddressBalances, ArithmeticError>)
        requires
            all_wf(coins@),
        ensures
            match valued(coin_views(coins@), prices@) {
                Err(e) => r == Err::<AddressBalances, ArithmeticError>(e),
                Ok(found) => if total_value(found) > u128::MAX {
                    r == Err::<AddressBalances, ArithmeticError>(ArithmeticError)
                } else {
                    r matches Ok(row) && row.address == address && row.usd == total_value(found)
                        / NANO_PER_CENT as nat && row.ranking == self.activity.ranking_of(
                        score_of(total_value(found) / NANO_PER_CENT as nat) as int,
                    ) && texts(row.balances@) == coin_texts(found)
                },
            },
    {
        let balances = match value_coins(coins, prices) {
            Ok(b) => b,
            Err(e) => return Err(e),
        };
        let nano = match usd_total(&balances) {
            Ok(u) => u,
            Err(e) => return Err(e),
        };
        let texts = balance_texts(&balances);
        let usd = nano / NANO_PER_CENT;
        let ranking = self.activity.ranking(saturating_score(usd));
        Ok(AddressBalances { address, balances: texts, usd, ranking })
    }
}

} // verus!
