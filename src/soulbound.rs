//! Enumerating the holders of the soulbound token.
//!
//! The contract lists its token ids a page at a time behind a cursor; each
//! id is then resolved to its owner and metadata. `Enumeration` makes every
//! decision of that walk; the queries themselves are sent by its caller.
use vstd::prelude::*;

verus! {

/// Number of token ids asked for per page.
pub const PAGE_LIMIT: u32 = 100;

/// Metadata that the soulbound token keeps for each patch.
#[derive(Clone, Debug)]
pub struct Extension {
    pub id: String,
    pub description: String,
    pub social_score: u16,
}

/// One holder of the soulbound token.
#[derive(Debug)]
pub struct TokenInfo {
    pub id: String,
    pub name: String,
    pub owner: String,
    pub social_score: u16,
}

impl Clone for TokenInfo {
    fn clone(&self) -> (r: TokenInfo)
        ensures
            r == *self,
    {
        TokenInfo {
            id: self.id.clone(),
            name: self.name.clone(),
            owner: self.owner.clone(),
            social_score: self.social_score,
        }
    }
}

impl TokenInfo {
    /// The holder record of `token_id`, from the owner and extension that
    /// the contract returned for it.
    pub fn from_nft_info(token_id: String, owner: String, extension: Extension) -> (r: TokenInfo)
        ensures
            r.id == token_id,
            r.name == extension.id,
            r.owner == owner,
            r.social_score == extension.social_score,
    {
        TokenInfo { id: token_id, name: extension.id, owner, social_score: extension.social_score }
    }
}

/// The next page to ask the contract for.
#[derive(Clone, Debug)]
pub struct AllTokensQuery {
    pub start_after: Option<String>,
    pub limit: u32,
}

#[derive(Clone, Debug)]
pub enum EnumerationError {
    /// The contract listed a token id a second time.
    DuplicateToken(String),
    /// No record came back for a token id of the page.
    MissingInfo(String),
    /// More or fewer records came back than the page had ids.
    InfoCountMismatch,
}

pub open spec fn ids(tokens: Seq<String>) -> Seq<Seq<char>> {
    tokens.map_values(|s: String| s@)
}

pub open spec fn holder_ids(holders: Seq<TokenInfo>) -> Seq<Seq<char>> {
    holders.map_values(|t: TokenInfo| t.id@)
}

/// The last record in `infos` for `id`.
pub open spec fn info_for(infos: Seq<TokenInfo>, id: Seq<char>) -> Option<TokenInfo>
    decreases infos.len(),
{
    if infos.len() == 0 {
        None
    } else if infos.last().id@ == id {
        Some(infos.last())
    } else {
        info_for(infos.drop_last(), id)
    }
}

/// The record for each id, in the order of the ids.
pub open spec fn infos_in_order(infos: Seq<TokenInfo>, page: Seq<String>) -> Seq<TokenInfo> {
    page.map_values(|id: String| info_for(infos, id@)->Some_0)
}

pub struct Enumeration {
    start_after: Option<String>,
    seen: Vec<String>,
    pending: Vec<String>,
    holders: Vec<TokenInfo>,
    finished: bool,
    pages: Ghost<Seq<Seq<String>>>,
}

/// The ids of all the pages, one page after another.
pub open spec fn page_ids(pages: Seq<Seq<String>>) -> Seq<Seq<char>>
    decreases pages.len(),
{
    if pages.len() == 0 {
        Seq::empty()
    } else {
        page_ids(pages.drop_last()) + ids(pages.last())
    }
}

/// The pages that the cursor gives: every page but the last is full (the limit
/// or more), and the last page is short exactly when the walk has seen its
/// last page.
pub open spec fn pages_follow_cursor(pages: Seq<Seq<String>>, finished: bool) -> bool {
    &&& forall|i: int|
        0 <= i < pages.len() && (i < pages.len() - 1 || !finished) ==> (#[trigger] pages[i]).len()
            >= PAGE_LIMIT
    &&& finished ==> pages.len() > 0 && pages.last().len() < PAGE_LIMIT
}

impl Enumeration {
    /// The pages that the walk has taken, in order.
    pub closed spec fn pages_taken(&self) -> Seq<Seq<String>> {
        self.pages@
    }

    /// Every token id that the contract has listed so far, in order.
    pub closed spec fn enumerated(&self) -> Seq<Seq<char>> {
        ids(self.seen@)
    }

    /// The holders resolved so far.
    pub closed spec fn resolved(&self) -> Seq<TokenInfo> {
        self.holders@
    }

    /// The ids of the last page, while their records are awaited.
    pub closed spec fn awaited(&self) -> Seq<String> {
        self.pending@
    }

    pub closed spec fn cursor(&self) -> Option<String> {
        self.start_after
    }

    /// No page is left to ask for.
    pub closed spec fn last_page_seen(&self) -> bool {
        self.finished
    }

    pub closed spec fn wf(&self) -> bool {
        &&& holder_ids(self.holders@) + ids(self.pending@) == ids(self.seen@)
        &&& ids(self.seen@).no_duplicates()
        &&& ids(self.seen@) == page_ids(self.pages@)
        &&& pages_follow_cursor(self.pages@, self.finished)
    }

    pub fn new() -> (r: Enumeration)
        ensures
            r.wf(),
            r.enumerated() == Seq::<Seq<char>>::empty(),
            r.resolved() == Seq::<TokenInfo>::empty(),
            r.awaited() == Seq::<String>::empty(),
            r.cursor() is None,
            !r.last_page_seen(),
            r.pages_taken() == Seq::<Seq<String>>::empty(),
    {
        let r = Enumeration {
            start_after: None,
            seen: Vec::new(),
            pending: Vec::new(),
            holders: Vec::new(),
            finished: false,
            pages: Ghost(Seq::empty()),
        };
        assert(holder_ids(r.holders@) + ids(r.pending@) =~= ids(r.seen@));
        assert(ids(r.seen@) =~= page_ids(r.pages@));
        r
    }

    /// The page to ask for next: none while records are awaited, and none
    /// after the last page.
    pub fn next_query(&self) -> (r: Option<AllTokensQuery>)
        ensures
            (self.last_page_seen() || self.awaited().len() > 0) ==> r is None,
            !(self.last_page_seen() || self.awaited().len() > 0) ==> (r matches Some(q)
                && q.start_after == self.cursor() && q.limit == PAGE_LIMIT),
    {
        if self.finished || self.pending.len() > 0 {
            None
        } else {
            Some(AllTokensQuery { start_after: self.start_after.clone(), limit: PAGE_LIMIT })
        }
    }

    /// The walk is over: the last page has come and all its records too.
    pub fn is_done(&self) -> (r: bool)
        ensures
            r == (self.last_page_seen() && self.awaited().len() == 0),
    {
        self.finished && self.pending.len() == 0
    }

    /// Takes a page of token ids. A page shorter than the limit is the last;
    /// a full page always asks for one more. A token id listed twice fails the
    /// walk. The ids of the page are returned, to be resolved.
    pub fn accept_page(&mut self, tokens: Vec<String>) -> (r: Result<Vec<String>, EnumerationError>)
        requires
            old(self).wf(),
            !old(self).last_page_seen(),
            old(self).awaited().len() == 0,
        ensures
            r is Ok <==> (old(self).enumerated() + ids(tokens@)).no_duplicates(),
            r matches Err(e) ==> e matches EnumerationError::DuplicateToken(id) && ids(
                tokens@,
            ).contains(id@),
            r is Ok ==> {
                &&& final(self).wf()
                &&& r->Ok_0@ == tokens@
                &&& final(self).enumerated() == old(self).enumerated() + ids(tokens@)
                &&& final(self).resolved() == old(self).resolved()
                &&& final(self).awaited() == tokens@
                &&& final(self).pages_taken() == old(self).pages_taken().push(tokens@)
                &&& final(self).last_page_seen() == (tokens@.len() < PAGE_LIMIT)
                &&& final(self).cursor() == (if tokens@.len() > 0 {
                    Some(tokens@.last())
                } else {
                    None
                })
            },
    {
        let ghost seen0 = ids(self.seen@);
        let mut i: usize = 0;
        while i < tokens.len()
            invariant
                i <= tokens@.len(),
                ids(self.seen@) == seen0 + ids(tokens@.subrange(0, i as int)),
                ids(self.seen@).no_duplicates(),
                seen0 == ids(old(self).seen@),
                self.pending == old(self).pending,
                self.holders == old(self).holders,
                self.finished == old(self).finished,
                self.start_after == old(self).start_after,
                self.pages == old(self).pages,
            decreases tokens@.len() - i,
        {
            let mut j: usize = 0;
            while j < self.seen.len()
                invariant
                    j <= self.seen@.len(),
                    i < tokens@.len(),
                    ids(self.seen@) == seen0 + ids(tokens@.subrange(0, i as int)),
                    ids(self.seen@).len() == self.seen@.len(),
                    seen0 == ids(old(self).seen@),
                    forall|k: int| 0 <= k < j ==> self.seen@[k]@ != tokens@[i as int]@,
                decreases self.seen@.len() - j,
            {
                if self.seen[j] == tokens[i] {
                    proof {
                        assert(ids(self.seen@)[j as int] == self.seen@[j as int]@);
                        assert(ids(tokens@.subrange(0, i as int)) =~= ids(tokens@).subrange(0, i as int));
                        assert(ids(tokens@)[i as int] == tokens@[i as int]@);
                        lemma_duplicate_found(seen0, ids(tokens@), i as int, j as int);
                    }
                    return Err(EnumerationError::DuplicateToken(tokens[i].clone()));
                }
                j += 1;
            }
            let ghost before = self.seen@;
            self.seen.push(tokens[i].clone());
            proof {
                assert(ids(tokens@.subrange(0, i as int + 1)) =~= ids(tokens@.subrange(0, i as int)).push(tokens@[i as int]@));
                assert(ids(self.seen@) =~= ids(before).push(tokens@[i as int]@));
                assert(!ids(before).contains(tokens@[i as int]@));
                lemma_push_distinct(ids(before), tokens@[i as int]@);
            }
            i += 1;
        }
        proof {
            assert(tokens@.subrange(0, i as int) =~= tokens@);
        }
        self.start_after = if tokens.len() > 0 {
            Some(tokens[tokens.len() - 1].clone())
        } else {
            None
        };
        self.finished = tokens.len() < PAGE_LIMIT as usize;
        self.pending = tokens.clone();
        let ghost old_pages = self.pages@;
        self.pages = Ghost(old_pages.push(tokens@));
        proof {
            assert(self.pages@.drop_last() =~= old_pages);
            assert(ids(self.seen@) =~= page_ids(self.pages@));
            assert forall|k: int|
                0 <= k < self.pages@.len() && (k < self.pages@.len() - 1 || !self.finished) implies (
            #[trigger] self.pages@[k]).len() >= PAGE_LIMIT by {
                assert(pages_follow_cursor(old_pages, false));
                if k < old_pages.len() {
                    assert(self.pages@[k] == old_pages[k]);
                    assert(old_pages[k].len() >= PAGE_LIMIT);
                } else {
                    assert(self.pages@[k] == tokens@);
                }
            }
            assert(ids(self.pending@) == ids(tokens@));
            assert(holder_ids(self.holders@) + ids(self.pending@) =~= ids(self.seen@));
        }
        Ok(tokens)
    }

    /// Takes the records of the awaited ids, in whatever order they came, and
    /// appends them to the holders in the order of the page.
    pub fn accept_infos(&mut self, infos: Vec<TokenInfo>) -> (r: Result<(), EnumerationError>)
        requires
            old(self).wf(),
        ensures
            r is Ok <==> (infos@.len() == old(self).awaited().len() && forall|k: int|
                0 <= k < old(self).awaited().len() ==> info_for(
                    infos@,
                    (#[trigger] old(self).awaited()[k])@,
                ) is Some),
            r is Ok ==> {
                &&& final(self).wf()
                &&& final(self).enumerated() == old(self).enumerated()
                &&& final(self).resolved() == old(self).resolved() + infos_in_order(
                    infos@,
                    old(self).awaited(),
                )
                &&& final(self).awaited().len() == 0
                &&& final(self).last_page_seen() == old(self).last_page_seen()
                &&& final(self).cursor() == old(self).cursor()
                &&& final(self).pages_taken() == old(self).pages_taken()
            },
    {
        if infos.len() != self.pending.len() {
            return Err(EnumerationError::InfoCountMismatch);
        }
        let mut found: Vec<TokenInfo> = Vec::new();
        let mut i: usize = 0;
        while i < self.pending.len()
            invariant
                i <= self.pending@.len(),
                found@ == infos_in_order(infos@, self.pending@.subrange(0, i as int)),
                forall|k: int| 0 <= k < i ==> info_for(infos@, (#[trigger] self.pending@[k])@) is Some,
            decreases self.pending@.len() - i,
        {
            match find_info(&infos, &self.pending[i]) {
                Some(info) => {
                    found.push(info);
                    proof {
                        assert(infos_in_order(infos@, self.pending@.subrange(0, i as int + 1))
                            =~= infos_in_order(infos@, self.pending@.subrange(0, i as int)).push(info));
                    }
                },
                None => {
                    return Err(EnumerationError::MissingInfo(self.pending[i].clone()));
                },
            }
            i += 1;
        }
        proof {
            assert(self.pending@.subrange(0, i as int) =~= self.pending@);
            let order = infos_in_order(infos@, self.pending@);
            assert forall|k: int| 0 <= k < order.len() implies (#[trigger] order[k]).id@
                == self.pending@[k]@ by {
                lemma_info_for_id(infos@, self.pending@[k]@);
            }
            assert(holder_ids(order) =~= ids(self.pending@));
            assert(holder_ids(self.holders@ + order) =~= holder_ids(self.holders@) + holder_ids(
                order,
            ));
        }
        self.holders.append(&mut found);
        self.pending = Vec::new();
        proof {
            assert(ids(self.pending@) =~= Seq::<Seq<char>>::empty());
            assert(holder_ids(self.holders@) + ids(self.pending@) =~= holder_ids(self.holders@));
        }
        Ok(())
    }

    /// The holders, once the walk is over: one for each token id that the
    /// contract listed, in the order listed, none twice.
    pub fn into_holders(self) -> (r: Vec<TokenInfo>)
        requires
            self.wf(),
            self.awaited().len() == 0,
        ensures
            r@ == self.resolved(),
            holder_ids(r@) == self.enumerated(),
            holder_ids(r@) == page_ids(self.pages_taken()),
            holder_ids(r@).no_duplicates(),
    {
        proof {
            assert(ids(self.pending@) =~= Seq::<Seq<char>>::empty());
            assert(holder_ids(self.holders@) + ids(self.pending@) =~= holder_ids(self.holders@));
        }
        self.holders
    }
}

/// A finished walk, started by `Enumeration::new` and carried on by
/// `accept_page` and `accept_infos`, holds exactly one holder for each token
/// id that the contract's pages listed, in the order listed, none twice;
/// every page but the last was full (the limit or more), and the last was short.
pub proof fn lemma_finished_walk(walk: Enumeration)
    requires
        walk.wf(),
        walk.last_page_seen(),
        walk.awaited().len() == 0,
    ensures
        holder_ids(walk.resolved()) == page_ids(walk.pages_taken()),
        holder_ids(walk.resolved()).len() == page_ids(walk.pages_taken()).len(),
        holder_ids(walk.resolved()).no_duplicates(),
        walk.pages_taken().len() > 0,
        forall|i: int|
            0 <= i < walk.pages_taken().len() - 1 ==> (#[trigger] walk.pages_taken()[i]).len()
                >= PAGE_LIMIT,
        walk.pages_taken().last().len() < PAGE_LIMIT,
{
    assert(ids(walk.pending@) =~= Seq::<Seq<char>>::empty());
    assert(holder_ids(walk.holders@) + ids(walk.pending@) =~= holder_ids(walk.holders@));
}

/// The last record in `infos` whose id is `id`.
fn find_info(infos: &Vec<TokenInfo>, id: &String) -> (r: Option<TokenInfo>)
    ensures
        r == info_for(infos@, id@),
{
    let mut i: usize = infos.len();
    assert(infos@.subrange(0, i as int) =~= infos@);
    while i > 0
        invariant
            i <= infos@.len(),
            info_for(infos@, id@) == info_for(infos@.subrange(0, i as int), id@),
        decreases i,
    {
        let ghost prefix = infos@.subrange(0, i as int);
        i = i - 1;
        proof {
            assert(prefix.drop_last() =~= infos@.subrange(0, i as int));
        }
        if infos[i].id == *id {
            return Some(infos[i].clone());
        }
    }
    None
}

proof fn lemma_info_for_id(infos: Seq<TokenInfo>, id: Seq<char>)
    ensures
        info_for(infos, id) matches Some(t) ==> t.id@ == id,
    decreases infos.len(),
{
    if infos.len() > 0 {
        lemma_info_for_id(infos.drop_last(), id);
    }
}

proof fn lemma_push_distinct(s: Seq<Seq<char>>, x: Seq<char>)
    requires
        s.no_duplicates(),
        !s.contains(x),
    ensures
        s.push(x).no_duplicates(),
{
    let t = s.push(x);
    assert forall|a: int, b: int| 0 <= a < t.len() && 0 <= b < t.len() && a != b implies t[a]
        != t[b] by {
        if a < s.len() && b < s.len() {
            assert(t[a] == s[a] && t[b] == s[b]);
        } else if a < s.len() {
            assert(t[a] == s[a]);
        } else if b < s.len() {
            assert(t[b] == s[b]);
        }
    }
}

/// A token id equal to one already listed leaves the ids with a duplicate.
proof fn lemma_duplicate_found(seen: Seq<Seq<char>>, page: Seq<Seq<char>>, i: int, j: int)
    requires
        0 <= i < page.len(),
        0 <= j < seen.len() + i,
        (seen + page.subrange(0, i))[j] == page[i],
    ensures
        !(seen + page).no_duplicates(),
{
    let all = seen + page;
    assert(all[seen.len() + i] == page[i]);
    if j < seen.len() {
        assert(all[j] == seen[j]);
    } else {
        assert(all[j] == page[j - seen.len()]);
    }
}

} // verus!
