//! The data model: score entries, categories, and dataset records.

use vstd::prelude::*;

verus! {

/// One scored entity: an identifier paired with its score.
///
/// The service never computes with scores; it only stores and returns
/// them verbatim. A score is therefore carried as the raw bit pattern
/// of its 64-bit IEEE-754 value, an exact, lossless stand-in that the
/// transport layer converts back when it renders a response.
pub struct ScoreEntry {
    pub id: String,
    pub value_bits: u64,
}

/// Mathematical image of a `ScoreEntry`.
pub ghost struct EntryModel {
    pub id: Seq<char>,
    pub value_bits: u64,
}

impl View for ScoreEntry {
    type V = EntryModel;

    open spec fn view(&self) -> EntryModel {
        EntryModel { id: self.id@, value_bits: self.value_bits }
    }
}

impl DeepView for ScoreEntry {
    type V = EntryModel;

    open spec fn deep_view(&self) -> EntryModel {
        self.view()
    }
}

impl ScoreEntry {
    /// An exact copy of the entry.
    pub fn duplicate(&self) -> (r: ScoreEntry)
        ensures
            r@ == self@,
    {
        ScoreEntry { id: self.id.clone(), value_bits: self.value_bits }
    }
}

/// The four platform categories the catalog serves.
#[derive(Clone, Copy, PartialEq, Eq, Structural)]
pub enum Category {
    Discord,
    Github,
    Telegram,
    X,
}

/// The name of the scope-identifier field a category's records carry.
pub open spec fn spec_scope_field_name(c: Category) -> Seq<char> {
    match c {
        Category::Discord => "server_id"@,
        Category::Github => "ecosystem"@,
        Category::Telegram => "channel_id"@,
        Category::X => "community_id"@,
    }
}

/// Executable counterpart of [`spec_scope_field_name`].
pub fn scope_field_name(c: Category) -> (r: &'static str)
    ensures
        r@ == spec_scope_field_name(c),
{
    match c {
        Category::Discord => "server_id",
        Category::Github => "ecosystem",
        Category::Telegram => "channel_id",
        Category::X => "community_id",
    }
}

/// One named dataset within one category: the category tag and scope
/// identifier as loaded, the seed entries the ranking was computed
/// from, and the ranked score entries in their original order.
pub struct DatasetRecord {
    pub category: String,
    pub scope_id: String,
    pub seed: Vec<ScoreEntry>,
    pub scores: Vec<ScoreEntry>,
}

/// Mathematical image of a `DatasetRecord`.
pub ghost struct RecordModel {
    pub category: Seq<char>,
    pub scope_id: Seq<char>,
    pub seed: Seq<EntryModel>,
    pub scores: Seq<EntryModel>,
}

impl View for DatasetRecord {
    type V = RecordModel;

    open spec fn view(&self) -> RecordModel {
        RecordModel {
            category: self.category@,
            scope_id: self.scope_id@,
            seed: self.seed.deep_view(),
            scores: self.scores.deep_view(),
        }
    }
}

impl DeepView for DatasetRecord {
    type V = RecordModel;

    open spec fn deep_view(&self) -> RecordModel {
        self.view()
    }
}

} // verus!
