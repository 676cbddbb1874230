//! The search engine: token-OR full-text matching over the derived
//! index, tiered fuzzy matching, and the category/title listing order.

use vstd::prelude::*;

use crate::rule::{rules_view, Rule, RuleView};
use crate::sanitize::{tokenize_chars, tokens};
use crate::sort::{items_view, sort_items, sort_items_x, SortItem, SortItemView};
use crate::store::RuleStore;
use crate::text::{chars_of, ci_contains, ci_contains_x, ci_starts_with, ci_starts_with_x};

verus! {

/// The values of the token list.
pub open spec fn toks_view(s: Seq<Vec<char>>) -> Seq<Seq<char>> {
    s.map_values(|t: Vec<char>| t@)
}

/// Some token occurs in the title, the content or the category.
pub open spec fn any_token_hits(
    title: Seq<char>,
    content: Seq<char>,
    category: Seq<char>,
    ts: Seq<Seq<char>>,
) -> bool {
    exists|k: int|
        0 <= k < ts.len() && (ci_contains(title, #[trigger] ts[k]) || ci_contains(content, ts[k])
            || ci_contains(category, ts[k]))
}

/// The record matches the token-OR query.
pub open spec fn fts_matches(v: RuleView, ts: Seq<Seq<char>>) -> bool {
    any_token_hits(v.title, v.content, v.category, ts)
}

/// How many of the tokens occur in one of the three fields.
pub open spec fn hits_count(
    title: Seq<char>,
    content: Seq<char>,
    category: Seq<char>,
    ts: Seq<Seq<char>>,
) -> int
    decreases ts.len(),
{
    if ts.len() == 0 {
        0
    } else {
        hits_count(title, content, category, ts.drop_last()) + if ci_contains(title, ts.last())
            || ci_contains(content, ts.last()) || ci_contains(category, ts.last()) {
            1int
        } else {
            0int
        }
    }
}

/// The hit count is bounded by the token count and is positive
/// exactly when some token hits.
pub proof fn lemma_hits_count(
    title: Seq<char>,
    content: Seq<char>,
    category: Seq<char>,
    ts: Seq<Seq<char>>,
)
    ensures
        0 <= hits_count(title, content, category, ts) <= ts.len(),
        hits_count(title, content, category, ts) > 0 <==> any_token_hits(
            title,
            content,
            category,
            ts,
        ),
    decreases ts.len(),
{
    if ts.len() > 0 {
        lemma_hits_count(title, content, category, ts.drop_last());
        let rest = ts.drop_last();
        if hits_count(title, content, category, ts) > 0 {
            if hits_count(title, content, category, rest) > 0 {
                let k = choose|k: int|
                    0 <= k < rest.len() && (ci_contains(title, #[trigger] rest[k]) || ci_contains(
                        content,
                        rest[k],
                    ) || ci_contains(category, rest[k]));
                assert(ts[k] == rest[k]);
            } else {
                assert(ts[ts.len() - 1] == ts.last());
            }
        }
        if any_token_hits(title, content, category, ts) {
            let k = choose|k: int|
                0 <= k < ts.len() && (ci_contains(title, #[trigger] ts[k]) || ci_contains(
                    content,
                    ts[k],
                ) || ci_contains(category, ts[k]));
            if k < ts.len() - 1 {
                assert(rest[k] == ts[k]);
                assert(any_token_hits(title, content, category, rest));
            }
        }
    }
}

/// The matching records as sort items: the rank places records with
/// more token hits first, and the store position breaks ties.
pub open spec fn fts_items(s: Seq<RuleView>, ts: Seq<Seq<char>>) -> Seq<SortItemView>
    decreases s.len(),
{
    if s.len() == 0 {
        Seq::empty()
    } else {
        let rest = fts_items(s.drop_last(), ts);
        if fts_matches(s.last(), ts) {
            rest.push(
                SortItemView {
                    key: ts.len() - hits_count(
                        s.last().title,
                        s.last().content,
                        s.last().category,
                        ts,
                    ),
                    a: Seq::empty(),
                    b: Seq::empty(),
                    pos: s.len() - 1,
                    rule: s.last(),
                },
            )
        } else {
            rest
        }
    }
}

/// The full-text ranking: matching records ordered by how many tokens
/// hit (most first), then by store position.
pub open spec fn fts_ranking(s: Seq<RuleView>, ts: Seq<Seq<char>>) -> Seq<RuleView> {
    ranking_rules(sort_items(fts_items(s, ts)))
}

/// At most the first `n` elements.
pub open spec fn take_up_to(s: Seq<RuleView>, n: int) -> Seq<RuleView> {
    if s.len() <= n {
        s
    } else {
        s.take(n)
    }
}

/// With no tokens nothing matches.
pub proof fn lemma_fts_items_no_tokens(s: Seq<RuleView>, ts: Seq<Seq<char>>)
    requires
        ts.len() == 0,
    ensures
        fts_items(s, ts).len() == 0,
    decreases s.len(),
{
    if s.len() > 0 {
        lemma_fts_items_no_tokens(s.drop_last(), ts);
    }
}

/// How many of the tokens occur in one of the three fields.
fn count_hits(title: &Vec<char>, content: &Vec<char>, category: &Vec<char>, toks: &Vec<Vec<char>>)
    -> (c: usize)
    ensures
        c == hits_count(title@, content@, category@, toks_view(toks@)),
        c <= toks@.len(),
{
    let ghost ts = toks_view(toks@);
    let n = toks.len();
    let mut c: usize = 0;
    let mut k: usize = 0;
    while k < n
        invariant
            k <= n,
            n == toks@.len(),
            ts == toks_view(toks@),
            c <= k,
            c == hits_count(title@, content@, category@, ts.take(k as int)),
        decreases n - k,
    {
        proof {
            assert(ts.take(k + 1int).drop_last() =~= ts.take(k as int));
            assert(ts.take(k + 1int).last() == ts[k as int]);
            assert(ts[k as int] == toks@[k as int]@);
        }
        let hit = ci_contains_x(title, &toks[k]) || ci_contains_x(content, &toks[k])
            || ci_contains_x(category, &toks[k]);
        if hit {
            c = c + 1;
        }
        k = k + 1;
    }
    proof {
        assert(ts.take(n as int) =~= ts);
    }
    c
}

/// Full-text search: the query is sanitized into tokens, and a record
/// matches when any token occurs, case-insensitively, in its indexed
/// title, content or category. The best match comes first: records in
/// which more of the tokens occur rank higher, and ties keep store
/// order. At most 20 records are returned; a query with no surviving
/// tokens yields the empty list.
pub fn search_rules_fts(store: &RuleStore, query: &str) -> (r: Vec<Rule>)
    requires
        store.wf(),
    ensures
        rules_view(r@) == take_up_to(fts_ranking(store@, tokens(query@)), 20),
        tokens(query@).len() == 0 ==> r@.len() == 0,
{
    let toks = tokenize_chars(query);
    let ghost ts = tokens(query@);
    if toks.len() == 0 {
        proof {
            lemma_fts_items_no_tokens(store@, ts);
        }
        return Vec::new();
    }
    let n = store.rules.len();
    let m_toks = toks.len();
    let mut items: Vec<SortItem> = Vec::new();
    let mut i: usize = 0;
    while i < n
        invariant
            i <= n,
            n == store@.len(),
            m_toks == toks@.len(),
            store.wf(),
            ts == tokens(query@),
            toks_view(toks@) == ts,
            items_view(items@) == fts_items(store@.take(i as int), ts),
        decreases n - i,
    {
        let entry = &store.index[i];
        let tv = chars_of(entry.title.as_str());
        let cv = chars_of(entry.content.as_str());
        let gv = chars_of(entry.category.as_str());
        let ghost prefix = store@.take(i as int);
        let ghost next_prefix = store@.take(i + 1int);
        proof {
            assert(next_prefix.drop_last() =~= prefix);
            assert(next_prefix.last() == store@[i as int]);
            assert(tv@ == store@[i as int].title);
            assert(cv@ == store@[i as int].content);
            assert(gv@ == store@[i as int].category);
        }
        let hits = count_hits(&tv, &cv, &gv, &toks);
        proof {
            lemma_hits_count(tv@, cv@, gv@, ts);
        }
        if hits > 0 {
            let item = SortItem {
                key: (m_toks - hits) as u64,
                a: String::new(),
                b: String::new(),
                pos: i,
                rule: store.rules[i].duplicate(),
            };
            items.push(item);
            proof {
                assert(items_view(items@) =~= fts_items(next_prefix, ts));
            }
        }
        i = i + 1;
    }
    proof {
        assert(store@.take(n as int) =~= store@);
    }
    let ranked = sort_items_x(items);
    let mut out: Vec<Rule> = Vec::new();
    let m = ranked.len();
    let mut j: usize = 0;
    while j < m
        invariant
            j <= m,
            m == ranked@.len(),
            ts == tokens(query@),
            items_view(ranked@) == sort_items(fts_items(store@, ts)),
            rules_view(out@) == fts_ranking(store@, ts).take(j as int),
        decreases m - j,
    {
        let copy = ranked[j].rule.duplicate();
        let ghost prev = out@;
        out.push(copy);
        proof {
            let ghost rk = fts_ranking(store@, ts);
            assert(items_view(ranked@)[j as int] == ranked@[j as int]@);
            assert(rk[j as int] == items_view(ranked@)[j as int].rule);
            assert(rules_view(prev).len() == prev.len());
            assert(prev.len() == j as int);
            assert forall|k: int| 0 <= k < j + 1 implies rules_view(out@)[k] == rk.take(
                j + 1int,
            )[k] by {
                assert(out@ == prev.push(copy));
                if k < j {
                    assert(prev.push(copy)[k] == prev[k]);
                    assert(rules_view(out@)[k] == rules_view(prev)[k]);
                    assert(rules_view(prev)[k] == rk.take(j as int)[k]);
                } else {
                    assert(prev.push(copy)[k] == copy);
                    assert(rules_view(out@)[k] == copy@);
                }
            }
            assert(rules_view(out@) =~= rk.take(j + 1int));
        }
        j = j + 1;
    }
    proof {
        assert(fts_ranking(store@, ts).take(m as int) =~= fts_ranking(store@, ts));
    }
    out.truncate(20);
    out
}

/// Full-text search over the store; see `search_rules_fts`.
pub fn search(store: &RuleStore, query: &str) -> (r: Vec<Rule>)
    requires
        store.wf(),
    ensures
        rules_view(r@) == take_up_to(fts_ranking(store@, tokens(query@)), 20),
        tokens(query@).len() == 0 ==> r@.len() == 0,
{
    search_rules_fts(store, query)
}

/// Every item of the full-text match list carries its record's hit
/// deficit as rank and matches some token.
proof fn lemma_fts_items_shape(s: Seq<RuleView>, ts: Seq<Seq<char>>)
    ensures
        forall|k: int| 0 <= k < fts_items(s, ts).len() ==> {
            let it = #[trigger] fts_items(s, ts)[k];
            &&& it.key == ts.len() - hits_count(it.rule.title, it.rule.content, it.rule.category, ts)
            &&& fts_matches(it.rule, ts)
        },
    decreases s.len(),
{
    if s.len() > 0 {
        lemma_fts_items_shape(s.drop_last(), ts);
    }
}

/// The full-text ranking puts the best match first: a record never
/// precedes one in which strictly more of the query's tokens occur.
pub proof fn lemma_fts_score_order(s: Seq<RuleView>, ts: Seq<Seq<char>>)
    ensures
        forall|i: int, j: int|
            0 <= i < j < sort_items(fts_items(s, ts)).len() ==> {
                let x = #[trigger] sort_items(fts_items(s, ts))[i];
                let y = #[trigger] sort_items(fts_items(s, ts))[j];
                hits_count(x.rule.title, x.rule.content, x.rule.category, ts) >= hits_count(
                    y.rule.title,
                    y.rule.content,
                    y.rule.category,
                    ts,
                )
            },
{
    let items = fts_items(s, ts);
    let out = sort_items(items);
    crate::sort::lemma_sort_items_sorted(items);
    crate::sort::lemma_sort_items_contents(items);
    lemma_fts_items_shape(s, ts);
    assert forall|i: int, j: int| 0 <= i < j < out.len() implies {
        let x = #[trigger] out[i];
        let y = #[trigger] out[j];
        hits_count(x.rule.title, x.rule.content, x.rule.category, ts) >= hits_count(
            y.rule.title,
            y.rule.content,
            y.rule.category,
            ts,
        )
    } by {
        let x = out[i];
        let y = out[j];
        assert(crate::sort::item_le(x, y));
        assert(items.contains(x));
        assert(items.contains(y));
        let kx = choose|k: int| 0 <= k < items.len() && items[k] == x;
        let ky = choose|k: int| 0 <= k < items.len() && items[k] == y;
        assert(x.key == ts.len() - hits_count(x.rule.title, x.rule.content, x.rule.category, ts));
        assert(y.key == ts.len() - hits_count(y.rule.title, y.rule.content, y.rule.category, ts));
    }
}

/// The ranking tier of a matching record: title prefix before title
/// substring before category substring before content-only matches.
pub open spec fn tier_of(v: RuleView, q: Seq<char>) -> int {
    if ci_starts_with(v.title, q) {
        1
    } else if ci_contains(v.title, q) {
        2
    } else if ci_contains(v.category, q) {
        3
    } else {
        4
    }
}

/// The record matches the fuzzy query: the query occurs,
/// case-insensitively, in its title, content or category.
pub open spec fn fuzzy_matches(v: RuleView, q: Seq<char>) -> bool {
    ci_contains(v.title, q) || ci_contains(v.content, q) || ci_contains(v.category, q)
}

/// The matching records as sort items: rank is the tier, the text key
/// is the title, position breaks the remaining ties.
pub open spec fn fuzzy_items(s: Seq<RuleView>, q: Seq<char>) -> Seq<SortItemView>
    decreases s.len(),
{
    if s.len() == 0 {
        Seq::empty()
    } else {
        let rest = fuzzy_items(s.drop_last(), q);
        if fuzzy_matches(s.last(), q) {
            rest.push(
                SortItemView {
                    key: tier_of(s.last(), q),
                    a: s.last().title,
                    b: Seq::empty(),
                    pos: s.len() - 1,
                    rule: s.last(),
                },
            )
        } else {
            rest
        }
    }
}

/// The rules of a ranked item sequence, in order.
pub open spec fn ranking_rules(s: Seq<SortItemView>) -> Seq<RuleView> {
    s.map_values(|it: SortItemView| it.rule)
}

/// The full fuzzy ranking: matching records ordered by tier, then
/// title, then store position.
pub open spec fn fuzzy_ranking(s: Seq<RuleView>, q: Seq<char>) -> Seq<RuleView> {
    ranking_rules(sort_items(fuzzy_items(s, q)))
}

/// Fuzzy search: case-insensitive substring match of the query against
/// title, content and category, ranked by tier (title prefix, title
/// substring, category substring, content only), alphabetically by
/// title within a tier, and by store position last, capped at `limit`.
/// An empty query deterministically yields the empty list.
pub fn fuzzy_search(store: &RuleStore, query: &str, limit: usize) -> (r: Vec<Rule>)
    requires
        store.wf(),
    ensures
        query@.len() == 0 ==> r@.len() == 0,
        query@.len() > 0 ==> rules_view(r@) == take_up_to(
            fuzzy_ranking(store@, query@),
            limit as int,
        ),
{
    let qv = chars_of(query);
    if qv.len() == 0 {
        return Vec::new();
    }
    let n = store.rules.len();
    let mut items: Vec<SortItem> = Vec::new();
    let mut i: usize = 0;
    while i < n
        invariant
            i <= n,
            n == store@.len(),
            store.wf(),
            qv@ == query@,
            items_view(items@) == fuzzy_items(store@.take(i as int), query@),
        decreases n - i,
    {
        let rule = &store.rules[i];
        let tv = chars_of(rule.title.as_str());
        let cv = chars_of(rule.content.as_str());
        let gv = chars_of(rule.category.as_str());
        let ghost prefix = store@.take(i as int);
        let ghost next_prefix = store@.take(i + 1int);
        proof {
            assert(next_prefix.drop_last() =~= prefix);
            assert(next_prefix.last() == store@[i as int]);
            assert(tv@ == store@[i as int].title);
            assert(cv@ == store@[i as int].content);
            assert(gv@ == store@[i as int].category);
        }
        let matched = ci_contains_x(&tv, &qv) || ci_contains_x(&cv, &qv) || ci_contains_x(
            &gv,
            &qv,
        );
        if matched {
            let tier: u64 = if ci_starts_with_x(&tv, &qv) {
                1
            } else if ci_contains_x(&tv, &qv) {
                2
            } else if ci_contains_x(&gv, &qv) {
                3
            } else {
                4
            };
            let item = SortItem {
                key: tier,
                a: rule.title.clone(),
                b: String::new(),
                pos: i,
                rule: rule.duplicate(),
            };
            proof {
                assert(item@ == SortItemView {
                    key: tier_of(store@[i as int], query@),
                    a: store@[i as int].title,
                    b: Seq::<char>::empty(),
                    pos: i as int,
                    rule: store@[i as int],
                });
            }
            items.push(item);
            proof {
                assert(items_view(items@) =~= fuzzy_items(next_prefix, query@));
            }
        }
        i = i + 1;
    }
    proof {
        assert(store@.take(n as int) =~= store@);
    }
    let ranked = sort_items_x(items);
    let mut out: Vec<Rule> = Vec::new();
    let m = ranked.len();
    let mut j: usize = 0;
    while j < m
        invariant
            j <= m,
            m == ranked@.len(),
            items_view(ranked@) == sort_items(fuzzy_items(store@, query@)),
            rules_view(out@) == fuzzy_ranking(store@, query@).take(j as int),
        decreases m - j,
    {
        let copy = ranked[j].rule.duplicate();
        let ghost prev = out@;
        out.push(copy);
        proof {
            let ghost rk = fuzzy_ranking(store@, query@);
            assert(items_view(ranked@)[j as int] == ranked@[j as int]@);
            assert(rk[j as int] == items_view(ranked@)[j as int].rule);
            assert(rules_view(prev).len() == prev.len());
            assert(prev.len() == j as int);
            assert forall|k: int| 0 <= k < j + 1 implies rules_view(out@)[k] == rk.take(
                j + 1int,
            )[k] by {
                assert(out@ == prev.push(copy));
                if k < j {
                    assert(prev.push(copy)[k] == prev[k]);
                    assert(rules_view(out@)[k] == rules_view(prev)[k]);
                    assert(rules_view(prev)[k] == rk.take(j as int)[k]);
                } else {
                    assert(prev.push(copy)[k] == copy);
                    assert(rules_view(out@)[k] == copy@);
                }
            }
            assert(rules_view(out@) =~= rk.take(j + 1int));
        }
        j = j + 1;
    }
    proof {
        assert(fuzzy_ranking(store@, query@).take(m as int) =~= fuzzy_ranking(store@, query@));
    }
    out.truncate(limit);
    out
}

/// Every item of the fuzzy match list carries its record's tier as
/// rank, the record's title as text key, and matches the query.
proof fn lemma_fuzzy_items_shape(s: Seq<RuleView>, q: Seq<char>)
    ensures
        forall|k: int| 0 <= k < fuzzy_items(s, q).len() ==> {
            let it = #[trigger] fuzzy_items(s, q)[k];
            it.key == tier_of(it.rule, q) && it.a == it.rule.title && fuzzy_matches(it.rule, q)
        },
    decreases s.len(),
{
    if s.len() > 0 {
        lemma_fuzzy_items_shape(s.drop_last(), q);
    }
}

/// The fuzzy ranking's tier order: a record never precedes one of a
/// strictly lower tier, so every title-prefix match comes before every
/// mere title match, and so on down the tiers; within a tier the
/// titles are in non-decreasing alphabetical order.
pub proof fn lemma_fuzzy_tier_order(s: Seq<RuleView>, q: Seq<char>)
    ensures
        forall|i: int, j: int|
            0 <= i < j < sort_items(fuzzy_items(s, q)).len() ==> {
                let x = #[trigger] sort_items(fuzzy_items(s, q))[i];
                let y = #[trigger] sort_items(fuzzy_items(s, q))[j];
                &&& tier_of(x.rule, q) <= tier_of(y.rule, q)
                &&& tier_of(x.rule, q) == tier_of(y.rule, q) ==> crate::sort::lex_le(
                    x.rule.title,
                    y.rule.title,
                )
            },
{
    let items = fuzzy_items(s, q);
    let out = sort_items(items);
    crate::sort::lemma_sort_items_sorted(items);
    crate::sort::lemma_sort_items_contents(items);
    lemma_fuzzy_items_shape(s, q);
    assert forall|i: int, j: int| 0 <= i < j < out.len() implies {
        let x = #[trigger] out[i];
        let y = #[trigger] out[j];
        &&& tier_of(x.rule, q) <= tier_of(y.rule, q)
        &&& tier_of(x.rule, q) == tier_of(y.rule, q) ==> crate::sort::lex_le(
            x.rule.title,
            y.rule.title,
        )
    } by {
        let x = out[i];
        let y = out[j];
        assert(crate::sort::item_le(x, y));
        assert(items.contains(x));
        assert(items.contains(y));
        let kx = choose|k: int| 0 <= k < items.len() && items[k] == x;
        let ky = choose|k: int| 0 <= k < items.len() && items[k] == y;
        assert(x.key == tier_of(x.rule, q) && x.a == x.rule.title);
        assert(y.key == tier_of(y.rule, q) && y.a == y.rule.title);
    }
}

/// Every matching record yields an item carrying its position.
proof fn lemma_fuzzy_items_complete(s: Seq<RuleView>, q: Seq<char>)
    ensures
        forall|i: int|
            0 <= i < s.len() && fuzzy_matches(#[trigger] s[i], q) ==> exists|k: int|
                0 <= k < fuzzy_items(s, q).len() && fuzzy_items(s, q)[k].rule == s[i]
                    && fuzzy_items(s, q)[k].pos == i,
    decreases s.len(),
{
    if s.len() > 0 {
        let rest_s = s.drop_last();
        lemma_fuzzy_items_complete(rest_s, q);
        let rest = fuzzy_items(rest_s, q);
        let items = fuzzy_items(s, q);
        assert forall|i: int| 0 <= i < s.len() && fuzzy_matches(#[trigger] s[i], q) implies exists|
            k: int,
        |
            0 <= k < items.len() && items[k].rule == s[i] && items[k].pos == i by {
            if i == s.len() - 1 {
                assert(items[items.len() - 1].rule == s[i]);
                assert(items[items.len() - 1].pos == i);
            } else {
                assert(rest_s[i] == s[i]);
                let k = choose|k: int|
                    0 <= k < rest.len() && rest[k].rule == rest_s[i] && rest[k].pos == i;
                assert(items[k] == rest[k]);
            }
        }
    }
}

/// The fuzzy ranking is sound and complete: every ranked record
/// matches the query, and every matching record of the store appears
/// in the ranking.
pub proof fn lemma_fuzzy_ranking_members(s: Seq<RuleView>, q: Seq<char>)
    ensures
        forall|k: int|
            0 <= k < fuzzy_ranking(s, q).len() ==> fuzzy_matches(
                #[trigger] fuzzy_ranking(s, q)[k],
                q,
            ),
        forall|i: int|
            0 <= i < s.len() && fuzzy_matches(#[trigger] s[i], q) ==> exists|k: int|
                0 <= k < fuzzy_ranking(s, q).len() && fuzzy_ranking(s, q)[k] == s[i],
{
    let items = fuzzy_items(s, q);
    let ranked = sort_items(items);
    let rk = fuzzy_ranking(s, q);
    lemma_fuzzy_items_shape(s, q);
    lemma_fuzzy_items_complete(s, q);
    crate::sort::lemma_sort_items_contents(items);
    crate::sort::lemma_sort_items_complete(items);
    assert forall|k: int| 0 <= k < rk.len() implies fuzzy_matches(#[trigger] rk[k], q) by {
        assert(rk[k] == ranked[k].rule);
        assert(items.contains(ranked[k]));
        let j = choose|j: int| 0 <= j < items.len() && items[j] == ranked[k];
        assert(fuzzy_matches(items[j].rule, q));
    }
    assert forall|i: int| 0 <= i < s.len() && fuzzy_matches(#[trigger] s[i], q) implies exists|
        k: int,
    | 0 <= k < rk.len() && rk[k] == s[i] by {
        let j = choose|j: int|
            0 <= j < items.len() && items[j].rule == s[i] && items[j].pos == i;
        assert(ranked.contains(items[j]));
        let k = choose|k: int| 0 <= k < ranked.len() && ranked[k] == items[j];
        assert(rk[k] == s[i]);
    }
}

/// Every record as a sort item keyed by category, then title, then
/// position.
pub open spec fn all_items(s: Seq<RuleView>) -> Seq<SortItemView>
    decreases s.len(),
{
    if s.len() == 0 {
        Seq::empty()
    } else {
        all_items(s.drop_last()).push(
            SortItemView {
                key: 0,
                a: s.last().category,
                b: s.last().title,
                pos: s.len() - 1,
                rule: s.last(),
            },
        )
    }
}

/// Every record, ordered by category, then title, then store position.
pub fn get_all_rules(store: &RuleStore) -> (r: Vec<Rule>)
    requires
        store.wf(),
    ensures
        rules_view(r@) == ranking_rules(sort_items(all_items(store@))),
{
    let n = store.rules.len();
    let mut items: Vec<SortItem> = Vec::new();
    let mut i: usize = 0;
    while i < n
        invariant
            i <= n,
            n == store@.len(),
            store.wf(),
            items_view(items@) == all_items(store@.take(i as int)),
        decreases n - i,
    {
        let rule = &store.rules[i];
        let ghost prefix = store@.take(i as int);
        let ghost next_prefix = store@.take(i + 1int);
        proof {
            assert(next_prefix.drop_last() =~= prefix);
            assert(next_prefix.last() == store@[i as int]);
        }
        let item = SortItem {
            key: 0,
            a: rule.category.clone(),
            b: rule.title.clone(),
            pos: i,
            rule: rule.duplicate(),
        };
        items.push(item);
        proof {
            assert(items_view(items@) =~= all_items(next_prefix));
        }
        i = i + 1;
    }
    proof {
        assert(store@.take(n as int) =~= store@);
    }
    let ranked = sort_items_x(items);
    let mut out: Vec<Rule> = Vec::new();
    let m = ranked.len();
    let mut j: usize = 0;
    while j < m
        invariant
            j <= m,
            m == ranked@.len(),
            items_view(ranked@) == sort_items(all_items(store@)),
            rules_view(out@) == ranking_rules(sort_items(all_items(store@))).take(j as int),
        decreases m - j,
    {
        let copy = ranked[j].rule.duplicate();
        let ghost prev = out@;
        out.push(copy);
        proof {
            let ghost rk = ranking_rules(sort_items(all_items(store@)));
            assert(items_view(ranked@)[j as int] == ranked@[j as int]@);
            assert(rk[j as int] == items_view(ranked@)[j as int].rule);
            assert(rules_view(prev).len() == prev.len());
            assert(prev.len() == j as int);
            assert forall|k: int| 0 <= k < j + 1 implies rules_view(out@)[k] == rk.take(
                j + 1int,
            )[k] by {
                assert(out@ == prev.push(copy));
                if k < j {
                    assert(prev.push(copy)[k] == prev[k]);
                    assert(rules_view(out@)[k] == rules_view(prev)[k]);
                    assert(rules_view(prev)[k] == rk.take(j as int)[k]);
                } else {
                    assert(prev.push(copy)[k] == copy);
                    assert(rules_view(out@)[k] == copy@);
                }
            }
            assert(rules_view(out@) =~= rk.take(j + 1int));
        }
        j = j + 1;
    }
    proof {
        assert(ranking_rules(sort_items(all_items(store@))).take(m as int) =~= ranking_rules(
            sort_items(all_items(store@)),
        ));
    }
    out
}

} // verus!
