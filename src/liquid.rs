//! The Liquid Finance export: a holder's balance of the liquid staking token.
use vstd::prelude::*;
use crate::coin::{Amount, biguint_of, decimal_display, rescaled};
use crate::csv::{Item, str_texts};
use crate::ranking::{Activity, saturating_score, score_of};
use crate::text::{ParseIntError, centi_text, centi_text_of, texts};

verus! {

pub const FILE_NAME: &'static str = "liquid-finance";

#[derive(Clone, Copy, Debug, PartialEq, Eq, Structural)]
pub enum LiquidError {
    Decode(ParseIntError),
}

/// The token contract's answer to a balance query: a raw integer amount.
#[derive(Clone, Debug, PartialEq, Eq)]
pub struct BalanceResponse {
    pub balance: String,
}

/// The token contract's description of its token.
#[derive(Clone, Debug, PartialEq, Eq)]
pub struct TokenInfoResponse {
    pub name: String,
    pub symbol: String,
    pub decimals: u8,
    pub total_supply: String,
}

/// One row of the Liquid Finance export.
#[derive(Debug)]
pub struct AddressBalance {
    pub address: String,
    pub balance: Amount,
    pub balance_text: String,
    pub ranking: u64,
}

impl AddressBalance {
    pub fn header_row() -> (r: Vec<&'static str>)
        ensures
            str_texts(r@) == seq!["address"@, "ranking"@, "balance"@],
    {
        let r = vec!["address", "ranking", "balance"];
        assert(str_texts(r@) =~= seq!["address"@, "ranking"@, "balance"@]);
        r
    }

    pub fn to_rows(self) -> (r: Vec<Vec<String>>)
        ensures
            r@.len() == 1,
            texts(r@[0]@) == seq![
                self.address@,
                centi_text(self.ranking as nat),
                self.balance_text@,
            ],
    {
        let ranking = centi_text_of(self.ranking as u128);
        let row = vec![self.address, ranking, self.balance_text];
        proof {
            assert(texts(row@) =~= seq![
                self.address@,
                centi_text(self.ranking as nat),
                self.balance_text@,
            ]);
        }
        vec![row]
    }
}

impl Item for AddressBalance {
    fn header() -> (r: Vec<&'static str>)
        ensures
            str_texts(r@) == seq!["address"@, "ranking"@, "balance"@],
    {
        AddressBalance::header_row()
    }

    fn rows(self) -> (r: Vec<Vec<String>>)
        ensures
            r@.len() == 1,
            texts(r@[0]@) == seq![
                self.address@,
                centi_text(self.ranking as nat),
                self.balance_text@,
            ],
    {
        self.to_rows()
    }
}

/// The Liquid Finance exporter: ranks a holder by its token balance.
pub struct LiquidFinance {
    pub activity: Activity,
    /// Decimals of the token, as its contract reports them.
    pub decimals: u8,
}

impl LiquidFinance {
    /// The exporter of the token that the contract describes.
    pub fn for_token(activity: Activity, info: &TokenInfoResponse) -> (r: LiquidFinance)
        ensures
            r.activity == activity,
            r.decimals == info.decimals,
    {
        LiquidFinance { activity, decimals: info.decimals }
    }

    /// The row of `address` from the raw integer balance that the token
    /// contract reports; the balance is cut to two decimal places.
    pub fn record(&self, address: String, balance: String) -> (r: Result<AddressBalance, LiquidError>)
        ensures
            match biguint_of(balance@) {
                None => r == Err::<AddressBalance, LiquidError>(LiquidError::Decode(ParseIntError)),
                Some(v) => {
                    let cut = rescaled(v, self.decimals as nat, 2);
                    r matches Ok(row) && row.address == address && row.balance.wf()
                        && row.balance.value() == cut && row.balance.scale == 2
                        && row.balance_text@ == decimal_display(cut, 2) && row.ranking
                        == self.activity.ranking_of(score_of(cut) as int)
                },
            },
    {
        let amount = match Amount::parse(balance.as_str(), self.decimals) {
            Ok(a) => a,
            Err(e) => return Err(LiquidError::Decode(e)),
        };
        let cut = amount.with_scale(2);
        let score = match cut.to_u128() {
            Some(v) => saturating_score(v),
            None => u64::MAX,
        };
        let ranking = self.activity.ranking(score);
        let balance_text = cut.to_text();
        Ok(AddressBalance { address, balance: cut, balance_text, ranking })
    }
}

} // verus!
