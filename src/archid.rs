//! The ArchID export: the names that the registry resolves for a holder.
use vstd::prelude::*;
use crate::csv::{Item, str_texts};
use crate::ranking::{Activity, saturating_score, score_of};
use crate::text::{centi_text, centi_text_of, decimal_text, join, joined, texts, u64_text};

verus! {

pub const FILE_NAME: &'static str = "archid";

/// One row of the ArchID export.
#[derive(Debug)]
pub struct AddressNames {
    pub address: String,
    pub names: Vec<String>,
    pub ranking: u64,
}

impl AddressNames {
    pub fn header_row() -> (r: Vec<&'static str>)
        ensures
            str_texts(r@) == seq!["address"@, "ranking"@, "name_count"@, "names"@],
    {
        let r = vec!["address", "ranking", "name_count", "names"];
        assert(str_texts(r@) =~= seq!["address"@, "ranking"@, "name_count"@, "names"@]);
        r
    }

    pub fn to_rows(self) -> (r: Vec<Vec<String>>)
        ensures
            r@.len() == 1,
            texts(r@[0]@) == seq![
                self.address@,
                centi_text(self.ranking as nat),
                decimal_text(self.names@.len()),
                joined(texts(self.names@), ","@),
            ],
    {
        let ranking = centi_text_of(self.ranking as u128);
        let count = u64_text(self.names.len() as u64);
        let names = join(&self.names, ",");
        let row = vec![self.address, ranking, count, names];
        proof {
            assert(texts(row@) =~= seq![
                self.address@,
                centi_text(self.ranking as nat),
                decimal_text(self.names@.len()),
                joined(texts(self.names@), ","@),
            ]);
        }
        vec![row]
    }
}

impl Item for AddressNames {
    fn header() -> (r: Vec<&'static str>)
        ensures
            str_texts(r@) == seq!["address"@, "ranking"@, "name_count"@, "names"@],
    {
        AddressNames::header_row()
    }

    fn rows(self) -> (r: Vec<Vec<String>>)
        ensures
            r@.len() == 1,
            texts(r@[0]@) == seq![
                self.address@,
                centi_text(self.ranking as nat),
                decimal_text(self.names@.len()),
                joined(texts(self.names@), ","@),
            ],
    {
        self.to_rows()
    }
}

/// The ArchID exporter: ranks a holder by the number of its names.
pub struct ArchId {
    pub activity: Activity,
}

impl ArchId {
    /// The row of `address` from the registry's answer (`None`: no names).
    pub fn record(&self, address: String, names: Option<Vec<String>>) -> (r: AddressNames)
        ensures
            r.address == address,
            r.names@ == (match names {
                Some(v) => v@,
                None => Seq::<String>::empty(),
            }),
            r.ranking == self.activity.ranking_of(score_of(r.names@.len() * 100) as int),
    {
        let names = match names {
            Some(v) => v,
            None => Vec::new(),
        };
        let ranking = self.activity.ranking(saturating_score(names.len() as u128 * 100));
        AddressNames { address, names, ranking }
    }
}

} // verus!
