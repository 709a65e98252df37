//! The socials export: each holder's patch and social score.
use vstd::prelude::*;
use crate::csv::{Item, str_texts};
use crate::ranking::{ActivitiesGroup, Social};
use crate::soulbound::TokenInfo;
use crate::text::{centi_text, centi_text_of, decimal_text, texts, u64_text};

verus! {

pub const FILE_NAME: &'static str = "socials";

/// One row of the socials export.
#[derive(Debug)]
pub struct AddressSocialPatch {
    pub address: String,
    pub patch_name: String,
    pub social_score: u16,
    pub ranking: u64,
}

impl AddressSocialPatch {
    pub fn header_row() -> (r: Vec<&'static str>)
        ensures
            str_texts(r@) == seq!["address"@, "ranking"@, "patch_name"@, "social_score"@],
    {
        let r = vec!["address", "ranking", "patch_name", "social_score"];
        assert(str_texts(r@) =~= seq!["address"@, "ranking"@, "patch_name"@, "social_score"@]);
        r
    }

    pub fn to_rows(self) -> (r: Vec<Vec<String>>)
        ensures
            r@.len() == 1,
            texts(r@[0]@) == seq![
                self.address@,
                centi_text(self.ranking as nat),
                self.patch_name@,
                decimal_text(self.social_score as nat),
            ],
    {
        let ranking = centi_text_of(self.ranking as u128);
        let score = u64_text(self.social_score as u64);
        let row = vec![self.address, ranking, self.patch_name, score];
        proof {
            assert(texts(row@) =~= seq![
                self.address@,
                centi_text(self.ranking as nat),
                self.patch_name@,
                decimal_text(self.social_score as nat),
            ]);
        }
        vec![row]
    }
}

impl Item for AddressSocialPatch {
    fn header() -> (r: Vec<&'static str>)
        ensures
            str_texts(r@) == seq!["address"@, "ranking"@, "patch_name"@, "social_score"@],
    {
        AddressSocialPatch::header_row()
    }

    fn rows(self) -> (r: Vec<Vec<String>>)
        ensures
            r@.len() == 1,
            texts(r@[0]@) == seq![
                self.address@,
                centi_text(self.ranking as nat),
                self.patch_name@,
                decimal_text(self.social_score as nat),
            ],
    {
        self.to_rows()
    }
}

/// The socials exporter: ranks a holder by its social score.
pub struct Socials {
    pub social: ActivitiesGroup<Option<Social>>,
}

impl Socials {
    /// The row of a holder.
    pub fn record(&self, token: &TokenInfo) -> (r: AddressSocialPatch)
        ensures
            r.address == token.owner,
            r.patch_name == token.name,
            r.social_score == token.social_score,
            r.ranking == token.social_score as int * self.social.weight as int,
    {
        AddressSocialPatch {
            address: token.owner.clone(),
            patch_name: token.name.clone(),
            social_score: token.social_score,
            ranking: self.social.weighted_ranking(token.social_score),
        }
    }
}

} // verus!
