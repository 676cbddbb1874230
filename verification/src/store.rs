//! The record store: a table of rule records together with the derived
//! full-text index, kept in lockstep with every write.

use vstd::prelude::*;

use crate::rule::{rules_view, valid_rule, Rule, RuleView};
use crate::text::str_eq;

verus! {

/// A write the store rejects before touching any record.
#[derive(Clone, Copy, Debug, PartialEq, Eq, Structural)]
pub enum StoreError {
    /// `create` was given an identifier that is already present.
    DuplicateId,
    /// The identifier or a required text field was empty.
    MissingField,
}

/// One entry of the derived full-text index: the three searchable text
/// fields of the record at the same position.
pub struct IndexEntry {
    pub title: String,
    pub content: String,
    pub category: String,
}

/// The mathematical value of an index entry.
pub ghost struct IndexEntryView {
    pub title: Seq<char>,
    pub content: Seq<char>,
    pub category: Seq<char>,
}

impl View for IndexEntry {
    type V = IndexEntryView;

    open spec fn view(&self) -> IndexEntryView {
        IndexEntryView { title: self.title@, content: self.content@, category: self.category@ }
    }
}

/// The rule table and its derived full-text index.
///
/// Every committed write leaves exactly one index entry per record, at
/// the record's position, holding the record's searchable fields: no
/// read can ever observe a stale or missing index entry.
pub struct RuleStore {
    pub rules: Vec<Rule>,
    pub index: Vec<IndexEntry>,
}

impl View for RuleStore {
    type V = Seq<RuleView>;

    open spec fn view(&self) -> Seq<RuleView> {
        rules_view(self.rules@)
    }
}

/// No two records share an identifier.
pub open spec fn ids_unique(s: Seq<RuleView>) -> bool {
    forall|i: int, j: int| 0 <= i < j < s.len() ==> (#[trigger] s[i].id) != (#[trigger] s[j].id)
}

/// The position of the record with identifier `id`, or `-1` when no
/// record has it.
pub open spec fn find_idx(s: Seq<RuleView>, id: Seq<char>) -> int
    decreases s.len(),
{
    if s.len() == 0 {
        -1
    } else if s[0].id == id {
        0
    } else {
        let r = find_idx(s.drop_first(), id);
        if r < 0 {
            -1
        } else {
            r + 1
        }
    }
}

/// `find_idx` yields the first position whose record has the
/// identifier, or `-1` when none has.
pub proof fn lemma_find_idx(s: Seq<RuleView>, id: Seq<char>)
    ensures
        -1 <= find_idx(s, id) < s.len(),
        find_idx(s, id) >= 0 ==> s[find_idx(s, id)].id == id,
        find_idx(s, id) >= 0 ==> forall|j: int| 0 <= j < find_idx(s, id) ==> #[trigger] s[j].id != id,
        find_idx(s, id) == -1 ==> forall|j: int| 0 <= j < s.len() ==> #[trigger] s[j].id != id,
    decreases s.len(),
{
    if s.len() > 0 && s[0].id != id {
        lemma_find_idx(s.drop_first(), id);
        let fd = find_idx(s.drop_first(), id);
        if fd >= 0 {
            assert forall|j: int| 0 <= j < find_idx(s, id) implies #[trigger] s[j].id != id by {
                if j > 0 {
                    assert(s.drop_first()[j - 1] == s[j]);
                }
            }
        } else {
            assert forall|j: int| 0 <= j < s.len() implies #[trigger] s[j].id != id by {
                if j > 0 {
                    assert(s.drop_first()[j - 1] == s[j]);
                }
            }
        }
    }
}

/// The record as the store lays it down on insert: both timestamps set
/// by the store.
pub open spec fn stored_view(v: RuleView, now: Seq<char>) -> RuleView {
    RuleView { created_at: now, updated_at: now, ..v }
}

/// The record after an update: every mutable field taken from the new
/// value, `updated_at` refreshed, the identifier and `created_at` kept.
pub open spec fn updated_view(prev: RuleView, v: RuleView, now: Seq<char>) -> RuleView {
    RuleView {
        id: prev.id,
        title: v.title,
        category: v.category,
        subcategory: v.subcategory,
        content: v.content,
        source: v.source,
        page: v.page,
        created_at: prev.created_at,
        updated_at: now,
    }
}

/// How an upsert left the store.
pub ghost enum UpsertOutcome {
    /// The identifier was new: the record was inserted.
    Inserted,
    /// The identifier was present: the record was updated in place.
    Updated,
    /// A required field was empty: nothing was written.
    Rejected,
}

/// The store after an upsert, and how the upsert went: a rejected
/// record leaves the store unchanged; a new identifier appends the
/// record with both timestamps set to `now`; a present identifier
/// replaces the mutable fields in place, refreshing `updated_at` and
/// keeping `created_at`.
pub open spec fn spec_upsert(s: Seq<RuleView>, v: RuleView, now: Seq<char>) -> (
    Seq<RuleView>,
    UpsertOutcome,
) {
    if !valid_rule(v) {
        (s, UpsertOutcome::Rejected)
    } else {
        let i = find_idx(s, v.id);
        if i < 0 {
            (s.push(stored_view(v, now)), UpsertOutcome::Inserted)
        } else {
            (s.update(i, updated_view(s[i], v, now)), UpsertOutcome::Updated)
        }
    }
}

/// A record pushed with a fresh identifier is found exactly at the
/// end.
pub proof fn lemma_find_idx_push_fresh(s: Seq<RuleView>, v: RuleView)
    requires
        find_idx(s, v.id) == -1,
    ensures
        find_idx(s.push(v), v.id) == s.len(),
{
    lemma_find_idx(s, v.id);
    let s1 = s.push(v);
    lemma_find_idx(s1, v.id);
    let f = find_idx(s1, v.id);
    assert(s1[s.len() as int].id == v.id);
    if f == -1 {
        assert(s1[s.len() as int].id != v.id);
        assert(false);
    } else if f < s.len() {
        assert(s1[f] == s[f]);
        assert(s[f].id != v.id);
        assert(false);
    }
}

/// A record inserted under a fresh identifier is retrievable
/// unchanged: looking its identifier up in the store after the insert
/// finds exactly the inserted record, every field as given, with both
/// timestamps set by the store to the insert's clock reading.
pub proof fn lemma_create_round_trip(s: Seq<RuleView>, v: RuleView, now: Seq<char>)
    requires
        find_idx(s, v.id) == -1,
    ensures
        find_idx(s.push(stored_view(v, now)), v.id) == s.len(),
        s.push(stored_view(v, now))[s.len() as int] == (RuleView {
            created_at: now,
            updated_at: now,
            ..v
        }),
{
    lemma_find_idx_push_fresh(s, stored_view(v, now));
}

/// Upserting a fresh identifier and then upserting the same
/// identifier again inserts once and then updates in place: the first
/// call reports an insert; the second reports an update, leaves
/// `created_at` at the first call's clock reading, stores the second
/// call's fields, and refreshes `updated_at` to the second call's
/// clock reading. With identical fields and the same clock reading
/// the record is left exactly as the first call stored it.
pub proof fn lemma_upsert_insert_then_update(
    s: Seq<RuleView>,
    v: RuleView,
    w: RuleView,
    t1: Seq<char>,
    t2: Seq<char>,
)
    requires
        valid_rule(v),
        valid_rule(w),
        w.id == v.id,
        find_idx(s, v.id) == -1,
    ensures
        spec_upsert(s, v, t1).1 == UpsertOutcome::Inserted,
        spec_upsert(spec_upsert(s, v, t1).0, w, t2).1 == UpsertOutcome::Updated,
        ({
            let after = spec_upsert(spec_upsert(s, v, t1).0, w, t2).0;
            &&& after.len() == s.len() + 1
            &&& after[s.len() as int] == (RuleView {
                id: v.id,
                title: w.title,
                category: w.category,
                subcategory: w.subcategory,
                content: w.content,
                source: w.source,
                page: w.page,
                created_at: t1,
                updated_at: t2,
            })
        }),
        w == v && t2 == t1 ==> spec_upsert(spec_upsert(s, v, t1).0, w, t2).0 == spec_upsert(
            s,
            v,
            t1,
        ).0,
{
    let s1 = spec_upsert(s, v, t1).0;
    assert(s1 == s.push(stored_view(v, t1)));
    lemma_find_idx_push_fresh(s, stored_view(v, t1));
    assert(find_idx(s1, w.id) == s.len());
    let after = spec_upsert(s1, w, t2).0;
    assert(after == s1.update(s.len() as int, updated_view(s1[s.len() as int], w, t2)));
    if w == v && t2 == t1 {
        assert(after =~= s1);
    }
}

/// Upserting an identifier that is already present updates in place:
/// it reports an update, replaces the mutable fields, refreshes
/// `updated_at`, keeps the record's `created_at` and position, and
/// touches no other record.
pub proof fn lemma_upsert_existing(s: Seq<RuleView>, w: RuleView, t2: Seq<char>)
    requires
        valid_rule(w),
        find_idx(s, w.id) >= 0,
    ensures
        spec_upsert(s, w, t2).1 == UpsertOutcome::Updated,
        ({
            let i = find_idx(s, w.id);
            let after = spec_upsert(s, w, t2).0;
            &&& after.len() == s.len()
            &&& after[i].created_at == s[i].created_at
            &&& after[i].id == s[i].id
            &&& after[i].title == w.title
            &&& after[i].content == w.content
            &&& after[i].updated_at == t2
            &&& forall|j: int| 0 <= j < s.len() && j != i ==> after[j] == s[j]
        }),
{
    lemma_find_idx(s, w.id);
}

impl RuleStore {
    /// Every record is valid, identifiers are unique, and the index
    /// mirrors the records entry for entry.
    pub open spec fn wf(&self) -> bool {
        &&& ids_unique(self@)
        &&& forall|i: int| 0 <= i < self@.len() ==> valid_rule(#[trigger] self@[i])
        &&& self.index@.len() == self@.len()
        &&& forall|i: int|
            0 <= i < self@.len() ==> {
                &&& (#[trigger] self.index@[i])@.title == self@[i].title
                &&& self.index@[i]@.content == self@[i].content
                &&& self.index@[i]@.category == self@[i].category
            }
    }

    /// An empty store.
    pub fn new() -> (s: RuleStore)
        ensures
            s@ == Seq::<RuleView>::empty(),
            s.wf(),
    {
        let s = RuleStore { rules: Vec::new(), index: Vec::new() };
        proof {
            assert(s@ =~= Seq::<RuleView>::empty());
        }
        s
    }

    /// The position of the record with identifier `id`, if any.
    fn position_of(&self, id: &str) -> (r: Option<usize>)
        ensures
            match r {
                Some(i) => i == find_idx(self@, id@) && i < self@.len(),
                None => find_idx(self@, id@) == -1,
            },
    {
        proof {
            lemma_find_idx(self@, id@);
        }
        let n = self.rules.len();
        let mut i: usize = 0;
        while i < n
            invariant
                i <= n,
                n == self@.len(),
                forall|j: int| 0 <= j < i ==> #[trigger] self@[j].id != id@,
            decreases n - i,
        {
            if str_eq(self.rules[i].id.as_str(), id) {
                proof {
                    lemma_find_idx(self@, id@);
                    assert(self@[i as int].id == id@);
                }
                return Some(i);
            }
            i = i + 1;
        }
        None
    }

    /// Validity check of a candidate record: the identifier and every
    /// required text field non-empty.
    fn is_valid(rule: &Rule) -> (r: bool)
        ensures
            r == valid_rule(rule@),
    {
        !rule.id.as_str().is_empty() && !rule.title.as_str().is_empty()
            && !rule.category.as_str().is_empty() && !rule.content.as_str().is_empty()
            && !rule.source.as_str().is_empty()
    }

    /// Inserts a new record. The identifier must be fresh and every
    /// required field non-empty, or the write is rejected before it
    /// touches the store; both timestamps are set to `now`.
    pub fn create_rule(&mut self, rule: &Rule, now: &String) -> (r: Result<(), StoreError>)
        requires
            old(self).wf(),
        ensures
            final(self).wf(),
            !valid_rule(rule@)
                ==> r == Err::<(), StoreError>(StoreError::MissingField) && final(self)@ == old(self)@,
            valid_rule(rule@) && find_idx(old(self)@, rule@.id) >= 0
                ==> r == Err::<(), StoreError>(StoreError::DuplicateId) && final(self)@ == old(self)@,
            valid_rule(rule@) && find_idx(old(self)@, rule@.id) < 0
                ==> r == Ok::<(), StoreError>(()) && final(self)@ == old(self)@.push(
                stored_view(rule@, now@),
            ),
    {
        if !Self::is_valid(rule) {
            return Err(StoreError::MissingField);
        }
        match self.position_of(rule.id.as_str()) {
            Some(_) => Err(StoreError::DuplicateId),
            None => {
                proof {
                    lemma_find_idx(self@, rule@.id);
                }
                self.push_record(rule, now);
                Ok(())
            },
        }
    }

    /// Appends a record known to be valid and fresh, with both
    /// timestamps set to `now`, and its index entry with it.
    fn push_record(&mut self, rule: &Rule, now: &String)
        requires
            old(self).wf(),
            valid_rule(rule@),
            forall|j: int| 0 <= j < old(self)@.len() ==> #[trigger] old(self)@[j].id != rule@.id,
        ensures
            final(self).wf(),
            final(self)@ == old(self)@.push(stored_view(rule@, now@)),
    {
        let stored = Rule {
            id: rule.id.clone(),
            title: rule.title.clone(),
            category: rule.category.clone(),
            subcategory: clone_opt_string(&rule.subcategory),
            content: rule.content.clone(),
            source: rule.source.clone(),
            page: rule.page,
            created_at: now.clone(),
            updated_at: now.clone(),
        };
        let entry = IndexEntry {
            title: rule.title.clone(),
            content: rule.content.clone(),
            category: rule.category.clone(),
        };
        self.rules.push(stored);
        self.index.push(entry);
        proof {
            assert(self@ =~= old(self)@.push(stored_view(rule@, now@)));
        }
    }

    /// Inserts the record when its identifier is new, else updates the
    /// mutable fields of the record that has it, refreshing
    /// `updated_at` and keeping `created_at`. Returns whether a new
    /// record was inserted. A record with an empty required field is
    /// rejected without a write.
    pub fn upsert_rule(&mut self, rule: &Rule, now: &String) -> (r: Result<bool, StoreError>)
        requires
            old(self).wf(),
        ensures
            final(self).wf(),
            final(self)@ == spec_upsert(old(self)@, rule@, now@).0,
            r == match spec_upsert(old(self)@, rule@, now@).1 {
                UpsertOutcome::Inserted => Ok::<bool, StoreError>(true),
                UpsertOutcome::Updated => Ok::<bool, StoreError>(false),
                UpsertOutcome::Rejected => Err::<bool, StoreError>(StoreError::MissingField),
            },
    {
        if !Self::is_valid(rule) {
            return Err(StoreError::MissingField);
        }
        match self.position_of(rule.id.as_str()) {
            None => {
                proof {
                    lemma_find_idx(self@, rule@.id);
                }
                self.push_record(rule, now);
                Ok(true)
            },
            Some(i) => {
                proof {
                    lemma_find_idx(self@, rule@.id);
                }
                let prev_id = self.rules[i].id.clone();
                let prev_created = self.rules[i].created_at.clone();
                let stored = Rule {
                    id: prev_id,
                    title: rule.title.clone(),
                    category: rule.category.clone(),
                    subcategory: clone_opt_string(&rule.subcategory),
                    content: rule.content.clone(),
                    source: rule.source.clone(),
                    page: rule.page,
                    created_at: prev_created,
                    updated_at: now.clone(),
                };
                let entry = IndexEntry {
                    title: rule.title.clone(),
                    content: rule.content.clone(),
                    category: rule.category.clone(),
                };
                self.rules[i] = stored;
                self.index[i] = entry;
                proof {
                    assert(self@ =~= old(self)@.update(
                        i as int,
                        updated_view(old(self)@[i as int], rule@, now@),
                    ));
                }
                Ok(false)
            },
        }
    }

    /// The record with identifier `id`, if any.
    pub fn get_rule_by_id(&self, id: &str) -> (r: Option<Rule>)
        requires
            self.wf(),
        ensures
            find_idx(self@, id@) == -1 ==> r is None,
            find_idx(self@, id@) >= 0 ==> (r matches Some(rule) && rule@ == self@[find_idx(
                self@,
                id@,
            )]),
    {
        match self.position_of(id) {
            Some(i) => Some(self.rules[i].duplicate()),
            None => None,
        }
    }

    /// How many records the store holds.
    pub fn len(&self) -> (n: usize)
        ensures
            n == self@.len(),
    {
        self.rules.len()
    }
}

/// A field-for-field copy of an optional string.
fn clone_opt_string(s: &Option<String>) -> (r: Option<String>)
    ensures
        match (s, &r) {
            (Some(a), Some(b)) => a@ == b@,
            (None, None) => true,
            _ => false,
        },
{
    match s {
        Some(x) => Some(x.clone()),
        None => None,
    }
}

impl Rule {
    /// A field-for-field copy of the record.
    pub fn duplicate(&self) -> (r: Rule)
        ensures
            r@ == self@,
    {
        Rule {
            id: self.id.clone(),
            title: self.title.clone(),
            category: self.category.clone(),
            subcategory: clone_opt_string(&self.subcategory),
            content: self.content.clone(),
            source: self.source.clone(),
            page: self.page,
            created_at: self.created_at.clone(),
            updated_at: self.updated_at.clone(),
        }
    }
}

} // verus!
