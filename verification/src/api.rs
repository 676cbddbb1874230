//! Request shapes of the service boundary and the type-ahead
//! suggestion logic built on the fuzzy search.

use vstd::prelude::*;

use crate::rule::{chrono_now, uuid_v4_string, Rule, RuleView};
use crate::search::{fuzzy_ranking, take_up_to};
use crate::store::RuleStore;
use crate::text::excerpt_of;

verus! {

/// A request to create a rule record: every stored field but the
/// identifier and the timestamps, which the service assigns.
pub struct CreateRuleRequest {
    pub title: String,
    pub category: String,
    pub subcategory: Option<String>,
    pub content: String,
    pub source: String,
    pub page: Option<i32>,
}

/// A free-text rules question.
pub struct ScenarioQuery {
    pub question: String,
}

/// A search request; the query may be absent.
pub struct SearchQuery {
    pub q: Option<String>,
}

/// Builds the record for a creation request: a fresh random
/// identifier, the requested fields, and equal timestamps from the
/// clock.
pub fn rule_from_request(req: CreateRuleRequest) -> (r: Rule)
    ensures
        r@.title == req.title@,
        r@.category == req.category@,
        r@.subcategory == (match req.subcategory {
            Some(s) => Some(s@),
            None => None::<Seq<char>>,
        }),
        r@.content == req.content@,
        r@.source == req.source@,
        r@.page == req.page,
        r@.id.len() == 36,
        r@.created_at == r@.updated_at,
{
    let now = chrono_now();
    Rule {
        id: uuid_v4_string(),
        title: req.title,
        category: req.category,
        subcategory: req.subcategory,
        content: req.content,
        source: req.source,
        page: req.page,
        created_at: now.clone(),
        updated_at: now,
    }
}

/// One type-ahead suggestion: the record's identity and a short
/// excerpt of its text.
pub struct SearchSuggestion {
    pub id: String,
    pub title: String,
    pub category: String,
    pub excerpt: String,
}

/// The mathematical value of a suggestion.
pub ghost struct SuggestionView {
    pub id: Seq<char>,
    pub title: Seq<char>,
    pub category: Seq<char>,
    pub excerpt: Seq<char>,
}

impl View for SearchSuggestion {
    type V = SuggestionView;

    open spec fn view(&self) -> SuggestionView {
        SuggestionView {
            id: self.id@,
            title: self.title@,
            category: self.category@,
            excerpt: self.excerpt@,
        }
    }
}

/// The values of a sequence of suggestions.
pub open spec fn suggs_view(s: Seq<SearchSuggestion>) -> Seq<SuggestionView> {
    s.map_values(|g: SearchSuggestion| g@)
}

/// The suggestion a record yields.
pub open spec fn suggestion_of(v: RuleView) -> SuggestionView {
    SuggestionView {
        id: v.id,
        title: v.title,
        category: v.category,
        excerpt: excerpt_of(v.content),
    }
}

/// The suggestions of the given records, in order.
pub open spec fn suggestions_of(rs: Seq<RuleView>) -> Seq<SuggestionView> {
    rs.map_values(|v: RuleView| suggestion_of(v))
}

/// Type-ahead search: a query shorter than two characters yields
/// nothing; otherwise the top eight fuzzy matches, each reduced to a
/// suggestion with an excerpt of its text.
pub fn api_search(store: &RuleStore, query: &str) -> (r: Vec<SearchSuggestion>)
    requires
        store.wf(),
    ensures
        query@.len() < 2 ==> r@.len() == 0,
        query@.len() >= 2 ==> suggs_view(r@) == suggestions_of(
            take_up_to(fuzzy_ranking(store@, query@), 8),
        ),
{
    if query.unicode_len() < 2 {
        return Vec::new();
    }
    let results = crate::search::fuzzy_search(store, query, 8);
    let ghost rv = take_up_to(fuzzy_ranking(store@, query@), 8);
    let n = results.len();
    let mut out: Vec<SearchSuggestion> = Vec::new();
    let mut i: usize = 0;
    while i < n
        invariant
            i <= n,
            n == results@.len(),
            crate::rule::rules_view(results@) == rv,
            suggs_view(out@) == suggestions_of(rv.take(i as int)),
        decreases n - i,
    {
        let rule = &results[i];
        let sugg = SearchSuggestion {
            id: rule.id.clone(),
            title: rule.title.clone(),
            category: rule.category.clone(),
            excerpt: crate::text::make_excerpt(rule.content.as_str()),
        };
        let ghost prev = out@;
        out.push(sugg);
        proof {
            assert(crate::rule::rules_view(results@)[i as int] == results@[i as int]@);
            assert(suggs_view(prev).len() == prev.len());
            assert(prev.len() == i as int);
            assert forall|k: int| 0 <= k < i + 1 implies suggs_view(out@)[k] == suggestions_of(
                rv.take(i + 1int),
            )[k] by {
                assert(out@ == prev.push(sugg));
                if k < i {
                    assert(prev.push(sugg)[k] == prev[k]);
                    assert(suggs_view(out@)[k] == suggs_view(prev)[k]);
                    assert(suggs_view(prev)[k] == suggestions_of(rv.take(i as int))[k]);
                } else {
                    assert(prev.push(sugg)[k] == sugg);
                    assert(suggs_view(out@)[k] == sugg@);
                    assert(suggestions_of(rv.take(i + 1int))[k] == suggestion_of(rv[i as int]));
                }
            }
            assert(suggs_view(out@) =~= suggestions_of(rv.take(i + 1int)));
        }
        i = i + 1;
    }
    proof {
        assert(rv.take(n as int) =~= rv);
    }
    out
}

} // verus!
