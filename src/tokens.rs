//! The denomination table: what the chain's denominations stand for.
use vstd::prelude::*;
use crate::coin::{Coin, CoinValue, coin_built, opt_text};
use crate::lookup::{find_last, lookup_last};
use crate::text::ParseIntError;

verus! {

/// A balance as the bank module reports it: a denomination and a raw integer amount.
#[derive(Clone, Debug)]
pub struct BankCoin {
    pub denom: String,
    pub amount: String,
}

/// What the table knows of one denomination.
#[derive(Clone, Debug)]
pub struct TokenInfo {
    pub denom: String,
    pub decimals: u8,
    pub coingecko_id: Option<String>,
}

impl TokenInfo {
    pub open spec fn coin_spec(self, coin: BankCoin) -> Result<CoinValue, ParseIntError> {
        coin_built(self.denom@, coin.amount@, self.decimals, opt_text(self.coingecko_id))
    }

    /// The coin that a raw bank balance of this token stands for.
    pub fn create_coin(&self, coin: BankCoin) -> (r: Result<Coin, ParseIntError>)
        ensures
            match self.coin_spec(coin) {
                Ok(v) => r matches Ok(c) && c@ == v && c.amount.wf(),
                Err(e) => r == Err::<Coin, ParseIntError>(e),
            },
    {
        Coin::build(self.denom.clone(), coin.amount, self.decimals, self.coingecko_id.clone())
    }
}

/// On-chain denomination to token information; a later entry for a
/// denomination hides an earlier one, as inserting into a map would.
#[derive(Clone, Debug)]
pub struct TokenMap(pub Vec<(String, TokenInfo)>);

impl TokenMap {
    pub open spec fn spec_get(&self, denom: Seq<char>) -> Option<TokenInfo> {
        lookup_last(self.0@, denom)
    }

    /// The token information of an on-chain denomination, if the table has it.
    pub fn get(&self, denom: &String) -> (r: Option<&TokenInfo>)
        ensures
            match r {
                Some(info) => self.spec_get(denom@) == Some(*info),
                None => self.spec_get(denom@) is None,
            },
    {
        match find_last(&self.0, denom) {
            Some(i) => Some(&self.0[i].1),
            None => None,
        }
    }

    pub open spec fn create_coin_spec(&self, coin: BankCoin) -> Result<Option<CoinValue>, ParseIntError> {
        match self.spec_get(coin.denom@) {
            Some(info) => match info.coin_spec(coin) {
                Ok(c) => Ok(Some(c)),
                Err(e) => Err(e),
            },
            None => Ok(None),
        }
    }

    /// The coin that a raw bank balance stands for; `None` for a denomination
    /// that the table does not know.
    pub fn create_coin(&self, coin: BankCoin) -> (r: Result<Option<Coin>, ParseIntError>)
        ensures
            match self.create_coin_spec(coin) {
                Ok(Some(v)) => r matches Ok(Some(c)) && c@ == v && c.amount.wf(),
                Ok(None) => r matches Ok(None),
                Err(e) => r == Err::<Option<Coin>, ParseIntError>(e),
            },
    {
        match self.get(&coin.denom) {
            Some(info) => match info.create_coin(coin) {
                Ok(c) => Ok(Some(c)),
                Err(e) => Err(e),
            },
            None => Ok(None),
        }
    }
}

} // verus!
