//! The Astrovault export: a holder's trading stats and liquidity.
use vstd::prelude::*;
use crate::csv::{Item, str_texts};
use crate::ranking::Activity;
use crate::text::{centi_text, centi_text_of, texts};

verus! {

pub const FILE_NAME: &'static str = "astrovault";

/// The stats that the service keeps of a wallet.
#[derive(Clone, Copy, Debug, PartialEq, Eq, Structural)]
pub struct WalletStats {
    pub has_lpd: bool,
    pub has_traded: bool,
}

pub open spec fn bool_text(b: bool) -> Seq<char> {
    if b {
        "true"@
    } else {
        "false"@
    }
}

fn bool_string(b: bool) -> (r: String)
    ensures
        r@ == bool_text(b),
{
    if b {
        String::from_str("true")
    } else {
        String::from_str("false")
    }
}

/// One row of the Astrovault export: `tvl` is the value locked in hundredths
/// of a dollar, which ranks; `tvl_text` is how the service wrote it.
#[derive(Debug)]
pub struct AstrovaultPosition {
    pub address: String,
    pub has_lpd: bool,
    pub has_traded: bool,
    pub tvl: u64,
    pub tvl_text: String,
    pub ranking: u64,
}

impl AstrovaultPosition {
    pub fn header_row() -> (r: Vec<&'static str>)
        ensures
            str_texts(r@) == seq!["address"@, "ranking"@, "has_lpd"@, "has_traded"@, "tvl"@],
    {
        let r = vec!["address", "ranking", "has_lpd", "has_traded", "tvl"];
        assert(str_texts(r@) =~= seq!["address"@, "ranking"@, "has_lpd"@, "has_traded"@, "tvl"@]);
        r
    }

    pub fn to_rows(self) -> (r: Vec<Vec<String>>)
        ensures
            r@.len() == 1,
            texts(r@[0]@) == seq![
                self.address@,
                centi_text(self.ranking as nat),
                bool_text(self.has_lpd),
                bool_text(self.has_traded),
                self.tvl_text@,
            ],
    {
        let ranking = centi_text_of(self.ranking as u128);
        let lpd = bool_string(self.has_lpd);
        let traded = bool_string(self.has_traded);
        let row = vec![self.address, ranking, lpd, traded, self.tvl_text];
        proof {
            assert(texts(row@) =~= seq![
                self.address@,
                centi_text(self.ranking as nat),
                bool_text(self.has_lpd),
                bool_text(self.has_traded),
                self.tvl_text@,
            ]);
        }
        vec![row]
    }
}

impl Item for AstrovaultPosition {
    fn header() -> (r: Vec<&'static str>)
        ensures
            str_texts(r@) == seq!["address"@, "ranking"@, "has_lpd"@, "has_traded"@, "tvl"@],
    {
        AstrovaultPosition::header_row()
    }

    fn rows(self) -> (r: Vec<Vec<String>>)
        ensures
            r@.len() == 1,
            texts(r@[0]@) == seq![
                self.address@,
                centi_text(self.ranking as nat),
                bool_text(self.has_lpd),
                bool_text(self.has_traded),
                self.tvl_text@,
            ],
    {
        self.to_rows()
    }
}

/// The Astrovault exporter: ranks a holder by its total value locked.
pub struct Astrovault {
    pub activity: Activity,
}

impl Astrovault {
    /// The row of `address` from its stats and its value locked, in hundredths
    /// of a dollar and as the service wrote it.
    pub fn record(&self, address: String, stats: WalletStats, tvl: u64, tvl_text: String) -> (r:
        AstrovaultPosition)
        ensures
            r.address == address,
            r.has_lpd == stats.has_lpd,
            r.has_traded == stats.has_traded,
            r.tvl == tvl,
            r.tvl_text == tvl_text,
            r.ranking == self.activity.ranking_of(tvl as int),
    {
        AstrovaultPosition {
            address,
            has_lpd: stats.has_lpd,
            has_traded: stats.has_traded,
            tvl,
            tvl_text,
            ranking: self.activity.ranking(tvl),
        }
    }
}

} // verus!
