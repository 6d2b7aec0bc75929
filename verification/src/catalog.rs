//! The Catalog and Query Layer: the four category stores held
//! together, with record lookup and score pagination over them.

use vstd::prelude::*;

use crate::data::Category;
use crate::data::DatasetRecord;
use crate::data::EntryModel;
use crate::data::RecordModel;
use crate::data::ScoreEntry;
use crate::store::CategoryStore;

verus! {

/// The pagination window over a score sequence. `start` defaults to
/// zero and `size` to the full length; the window is
/// `[start, min(start + size, len))`, and a `start` at or past the
/// end yields the empty sequence rather than an error.
pub open spec fn paged_scores(
    scores: Seq<EntryModel>,
    start: Option<usize>,
    size: Option<usize>,
) -> Seq<EntryModel> {
    let st = match start {
        Some(s) => s as int,
        None => 0,
    };
    let sz = match size {
        Some(n) => n as int,
        None => scores.len() as int,
    };
    let end = if st + sz <= scores.len() {
        st + sz
    } else {
        scores.len() as int
    };
    if st >= end {
        Seq::empty()
    } else {
        scores.subrange(st, end)
    }
}

/// Copies the pagination window out of a score list.
fn page_of(scores: &Vec<ScoreEntry>, start: Option<usize>, size: Option<usize>) -> (page: Vec<
    ScoreEntry,
>)
    ensures
        page.deep_view() == paged_scores(scores.deep_view(), start, size),
{
    let len = scores.len();
    let st = match start {
        Some(s) => s,
        None => 0,
    };
    let mut page: Vec<ScoreEntry> = Vec::new();
    if st < len {
        let avail = len - st;
        let take = match size {
            Some(n) => if n < avail {
                n
            } else {
                avail
            },
            None => avail,
        };
        proof {
            assert(page.deep_view() =~= scores.deep_view().subrange(st as int, st as int));
        }
        let end = st + take;
        let mut k: usize = st;
        while k < end
            invariant
                st <= k <= end,
                end <= scores@.len(),
                page.deep_view() =~= scores.deep_view().subrange(st as int, k as int),
            decreases end - k,
        {
            let ghost before = page.deep_view();
            page.push(scores[k].duplicate());
            proof {
                assert(page.deep_view() =~= before.push(scores@[k as int]@));
                assert(page.deep_view() =~= scores.deep_view().subrange(st as int, k + 1));
            }
            k += 1;
        }
        proof {
            assert(page.deep_view() =~= paged_scores(scores.deep_view(), start, size));
        }
    } else {
        proof {
            assert(page.deep_view() =~= paged_scores(scores.deep_view(), start, size));
        }
    }
    page
}

/// The process-wide queryable state: one immutable store per
/// category, built once at startup and then only read.
pub struct Catalog {
    pub discord: CategoryStore,
    pub github: CategoryStore,
    pub telegram: CategoryStore,
    pub x: CategoryStore,
}

impl Catalog {
    /// The mapping the catalog holds for a category.
    pub open spec fn spec_store(self, c: Category) -> Map<Seq<char>, RecordModel> {
        match c {
            Category::Discord => self.discord@,
            Category::Github => self.github@,
            Category::Telegram => self.telegram@,
            Category::X => self.x@,
        }
    }

    fn store(&self, c: Category) -> (s: &CategoryStore)
        ensures
            s@ == self.spec_store(c),
    {
        match c {
            Category::Discord => &self.discord,
            Category::Github => &self.github,
            Category::Telegram => &self.telegram,
            Category::X => &self.x,
        }
    }

    /// Full-record query: the record the name is bound to, verbatim;
    /// `None` exactly when the name is absent from the category.
    pub fn get_file<'a>(&'a self, c: Category, name: &String) -> (r: Option<&'a DatasetRecord>)
        ensures
            match r {
                Some(record) => self.spec_store(c).contains_key(name@) && record@
                    == self.spec_store(c)[name@],
                None => !self.spec_store(c).contains_key(name@),
            },
    {
        self.store(c).lookup(name)
    }

    /// Seed query: only the record's seed entries, in their loaded
    /// order; `None` exactly when the name is absent.
    pub fn get_seed<'a>(&'a self, c: Category, name: &String) -> (r: Option<&'a Vec<ScoreEntry>>)
        ensures
            match r {
                Some(seed) => self.spec_store(c).contains_key(name@) && seed.deep_view()
                    == self.spec_store(c)[name@].seed,
                None => !self.spec_store(c).contains_key(name@),
            },
    {
        match self.store(c).lookup(name) {
            Some(record) => Some(&record.seed),
            None => None,
        }
    }

    /// Scope-identifier query: only the record's scope identifier;
    /// `None` exactly when the name is absent.
    pub fn get_scope_id<'a>(&'a self, c: Category, name: &String) -> (r: Option<&'a String>)
        ensures
            match r {
                Some(scope) => self.spec_store(c).contains_key(name@) && scope@
                    == self.spec_store(c)[name@].scope_id,
                None => !self.spec_store(c).contains_key(name@),
            },
    {
        match self.store(c).lookup(name) {
            Some(record) => Some(&record.scope_id),
            None => None,
        }
    }

    /// Paginated scores query: the pagination window over the
    /// record's scores, in their loaded order; `None` exactly when
    /// the name is absent, whatever the window.
    pub fn get_scores(
        &self,
        c: Category,
        name: &String,
        start: Option<usize>,
        size: Option<usize>,
    ) -> (r: Option<Vec<ScoreEntry>>)
        ensures
            match r {
                Some(page) => self.spec_store(c).contains_key(name@) && page.deep_view()
                    == paged_scores(self.spec_store(c)[name@].scores, start, size),
                None => !self.spec_store(c).contains_key(name@),
            },
    {
        match self.store(c).lookup(name) {
            Some(record) => Some(page_of(&record.scores, start, size)),
            None => None,
        }
    }
}

/// Law: omitting the pagination window returns the entire score
/// sequence in its original order — both when `start` is absent and
/// when it is zero, with `size` absent.
pub proof fn lemma_paged_scores_full(scores: Seq<EntryModel>)
    ensures
        paged_scores(scores, None, None) == scores,
        paged_scores(scores, Some(0), None) == scores,
{
    assert(paged_scores(scores, None, None) =~= scores);
    assert(paged_scores(scores, Some(0), None) =~= scores);
}

/// Law: a window starting at or past the end of the scores is the
/// empty sequence, never an error, whatever the requested size.
pub proof fn lemma_paged_scores_past_end(
    scores: Seq<EntryModel>,
    start: usize,
    size: Option<usize>,
)
    requires
        start >= scores.len(),
    ensures
        paged_scores(scores, Some(start), size) == Seq::<EntryModel>::empty(),
{
}

/// Law: pagination is pure — the page is a function of the score
/// sequence and the window alone, so repeated identical queries
/// against an unchanged catalog return identical results.
pub proof fn lemma_paged_scores_deterministic(
    scores: Seq<EntryModel>,
    start: Option<usize>,
    size: Option<usize>,
    r1: Seq<EntryModel>,
    r2: Seq<EntryModel>,
)
    requires
        r1 == paged_scores(scores, start, size),
        r2 == paged_scores(scores, start, size),
    ensures
        r1 == r2,
{
}

} // verus!
