//! The assets export: every bank balance of a holder, one row per denomination.
use vstd::prelude::*;
use crate::csv::{Item, str_texts};
use crate::text::texts;
use crate::tokens::BankCoin;

verus! {

pub const FILE_NAME: &'static str = "assets";

/// One row of fields of each balance: the address, the denomination, the raw amount.
pub open spec fn asset_rows(address: Seq<char>, balances: Seq<BankCoin>) -> Seq<Seq<Seq<char>>> {
    balances.map_values(|b: BankCoin| seq![address, b.denom@, b.amount@])
}

/// The bank balances of one holder.
#[derive(Clone, Debug)]
pub struct AddressAssets {
    pub address: String,
    pub balances: Vec<BankCoin>,
}

impl AddressAssets {
    pub fn header_row() -> (r: Vec<&'static str>)
        ensures
            str_texts(r@) == seq!["address"@, "denom"@, "amount"@],
    {
        let r = vec!["address", "denom", "amount"];
        assert(str_texts(r@) =~= seq!["address"@, "denom"@, "amount"@]);
        r
    }

    pub fn to_rows(self) -> (r: Vec<Vec<String>>)
        ensures
            r@.map_values(|row: Vec<String>| texts(row@)) == asset_rows(self.address@, self.balances@),
    {
        let mut rows: Vec<Vec<String>> = Vec::new();
        let mut i: usize = 0;
        while i < self.balances.len()
            invariant
                i <= self.balances@.len(),
                rows@.len() == i,
                forall|k: int|
                    0 <= k < i ==> texts((#[trigger] rows@[k])@) == seq![
                        self.address@,
                        self.balances@[k].denom@,
                        self.balances@[k].amount@,
                    ],
            decreases self.balances@.len() - i,
        {
            let row = vec![
                self.address.clone(),
                self.balances[i].denom.clone(),
                self.balances[i].amount.clone(),
            ];
            assert(texts(row@) =~= seq![
                self.address@,
                self.balances@[i as int].denom@,
                self.balances@[i as int].amount@,
            ]);
            rows.push(row);
            i += 1;
        }
        assert(rows@.map_values(|row: Vec<String>| texts(row@)) =~= asset_rows(
            self.address@,
            self.balances@,
        ));
        rows
    }
}

impl Item for AddressAssets {
    fn header() -> (r: Vec<&'static str>)
        ensures
            str_texts(r@) == seq!["address"@, "denom"@, "amount"@],
    {
        AddressAssets::header_row()
    }

    fn rows(self) -> (r: Vec<Vec<String>>)
        ensures
            r@.map_values(|row: Vec<String>| texts(row@)) == asset_rows(self.address@, self.balances@),
    {
        self.to_rows()
    }
}

} // verus!
