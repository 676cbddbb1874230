//! The rule record: the only domain entity.

use vstd::prelude::*;

use crate::text::decimal_string_u64;

verus! {

/// A single stored rule entry.
///
/// `title`, `category`, `content` and `source` must be non-empty in any
/// record the store accepts; `id` is unique within a store and immutable
/// after creation. `created_at` and `updated_at` are set by the store on
/// insert and update and are never taken from the caller.
#[derive(Clone, Debug)]
pub struct Rule {
    pub id: String,
    pub title: String,
    pub category: String,
    pub subcategory: Option<String>,
    pub content: String,
    pub source: String,
    pub page: Option<i32>,
    pub created_at: String,
    pub updated_at: String,
}

/// The mathematical value of a rule record: each text field as its
/// sequence of characters.
pub ghost struct RuleView {
    pub id: Seq<char>,
    pub title: Seq<char>,
    pub category: Seq<char>,
    pub subcategory: Option<Seq<char>>,
    pub content: Seq<char>,
    pub source: Seq<char>,
    pub page: Option<i32>,
    pub created_at: Seq<char>,
    pub updated_at: Seq<char>,
}

impl View for Rule {
    type V = RuleView;

    open spec fn view(&self) -> RuleView {
        RuleView {
            id: self.id@,
            title: self.title@,
            category: self.category@,
            subcategory: match self.subcategory {
                Some(s) => Some(s@),
                None => None,
            },
            content: self.content@,
            source: self.source@,
            page: self.page,
            created_at: self.created_at@,
            updated_at: self.updated_at@,
        }
    }
}

/// The values of a sequence of records.
pub open spec fn rules_view(s: Seq<Rule>) -> Seq<RuleView> {
    s.map_values(|r: Rule| r@)
}

/// A record is valid when its identifier and every required text field
/// are non-empty.
pub open spec fn valid_rule(v: RuleView) -> bool {
    &&& v.id.len() > 0
    &&& v.title.len() > 0
    &&& v.category.len() > 0
    &&& v.content.len() > 0
    &&& v.source.len() > 0
}

/// Relies on `uuid::Uuid::new_v4` and its `Display` form: a fresh random
/// version-4 UUID rendered in the hyphenated format, which is exactly 36
/// characters. The value is random, so nothing more is stated of it.
#[verifier::external_body]
pub(crate) fn uuid_v4_string() -> (r: String)
    ensures
        r@.len() == 36,
{
    uuid::Uuid::new_v4().to_string()
}

/// The clock reading in seconds since the Unix epoch, rendered in
/// decimal: a non-empty string of ASCII digits. The value depends on
/// the clock, so nothing more is stated of it.
pub fn chrono_now() -> (r: String)
    ensures
        r@.len() > 0,
        forall|i: int| 0 <= i < r@.len() ==> '0' <= #[trigger] r@[i] && r@[i] <= '9',
{
    let secs = unix_seconds();
    decimal_string_u64(secs)
}

/// Relies on `std::time::SystemTime::now` (with `duration_since` on the
/// Unix epoch): seconds elapsed since the epoch, or zero if the clock
/// reads earlier than the epoch. The value depends on the clock, so
/// nothing is stated of it.
#[verifier::external_body]
fn unix_seconds() -> u64 {
    std::time::SystemTime::now()
        .duration_since(std::time::UNIX_EPOCH)
        .unwrap_or_default()
        .as_secs()
}

impl Rule {
    /// Builds a fresh record: a random identifier, no subcategory, no
    /// page, and both timestamps set to the same clock reading.
    pub fn new(title: String, category: String, content: String, source: String) -> (r: Rule)
        ensures
            r@.title == title@,
            r@.category == category@,
            r@.content == content@,
            r@.source == source@,
            r@.subcategory is None,
            r@.page is None,
            r@.id.len() == 36,
            r@.created_at == r@.updated_at,
    {
        let now = chrono_now();
        Rule {
            id: uuid_v4_string(),
            title,
            category,
            subcategory: None,
            content,
            source,
            page: None,
            created_at: now.clone(),
            updated_at: now,
        }
    }
}

} // verus!
