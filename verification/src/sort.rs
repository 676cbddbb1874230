//! Deterministic ordering of search results: items carry a numeric
//! rank, up to two text keys and the record's position, and are sorted
//! by exactly that order, so every ranking is pinned down to one
//! sequence.

use vstd::prelude::*;

use crate::rule::{Rule, RuleView};
use crate::text::{lex_lt, lex_lt_from, str_eq, str_lex_lt};

verus! {

/// A record paired with its sort key: numeric rank first, then two
/// text keys in lexicographic order, then the record's position in the
/// store, which makes the order strict and the result deterministic.
pub struct SortItem {
    pub key: u64,
    pub a: String,
    pub b: String,
    pub pos: usize,
    pub rule: Rule,
}

/// The mathematical value of a sort item.
pub ghost struct SortItemView {
    pub key: int,
    pub a: Seq<char>,
    pub b: Seq<char>,
    pub pos: int,
    pub rule: RuleView,
}

impl View for SortItem {
    type V = SortItemView;

    open spec fn view(&self) -> SortItemView {
        SortItemView {
            key: self.key as int,
            a: self.a@,
            b: self.b@,
            pos: self.pos as int,
            rule: self.rule@,
        }
    }
}

/// The values of a sequence of sort items.
pub open spec fn items_view(s: Seq<SortItem>) -> Seq<SortItemView> {
    s.map_values(|it: SortItem| it@)
}

/// Non-strict lexicographic order.
pub open spec fn lex_le(a: Seq<char>, b: Seq<char>) -> bool {
    a == b || lex_lt(a, b)
}

/// The sort order: by rank, then first text key, then second text key,
/// then position.
pub open spec fn item_le(x: SortItemView, y: SortItemView) -> bool {
    if x.key != y.key {
        x.key < y.key
    } else if x.a != y.a {
        lex_lt(x.a, y.a)
    } else if x.b != y.b {
        lex_lt(x.b, y.b)
    } else {
        x.pos <= y.pos
    }
}

/// `x` placed before the first element that does not precede it.
pub open spec fn insert_le(x: SortItemView, s: Seq<SortItemView>) -> Seq<SortItemView>
    decreases s.len(),
{
    if s.len() == 0 {
        seq![x]
    } else if item_le(x, s[0]) {
        seq![x] + s
    } else {
        seq![s[0]] + insert_le(x, s.drop_first())
    }
}

/// Insertion sort of the items, in order of arrival.
pub open spec fn sort_items(s: Seq<SortItemView>) -> Seq<SortItemView>
    decreases s.len(),
{
    if s.len() == 0 {
        Seq::empty()
    } else {
        insert_le(s.last(), sort_items(s.drop_last()))
    }
}

/// Non-decreasing under `item_le`.
pub open spec fn sorted(s: Seq<SortItemView>) -> bool {
    forall|i: int, j: int| 0 <= i < j < s.len() ==> item_le(#[trigger] s[i], #[trigger] s[j])
}

/// Lexicographic order is total: of two distinct sequences one is
/// strictly before the other.
pub proof fn lemma_lex_total(a: Seq<char>, b: Seq<char>)
    ensures
        lex_lt(a, b) || lex_lt(b, a) || a == b,
{
    lemma_lex_total_from(a, b, 0);
}

proof fn lemma_lex_total_from(a: Seq<char>, b: Seq<char>, i: int)
    requires
        0 <= i <= a.len(),
        i <= b.len(),
        forall|k: int| 0 <= k < i ==> a[k] == b[k],
    ensures
        lex_lt_from(a, b, i) || lex_lt_from(b, a, i) || a == b,
    decreases a.len() - i,
{
    if i >= a.len() {
        if i >= b.len() {
            assert(a =~= b);
        } else {
            assert(lex_lt_from(a, b, i));
        }
    } else if i >= b.len() {
        assert(lex_lt_from(b, a, i));
    } else if a[i] == b[i] {
        lemma_lex_total_from(a, b, i + 1);
    } else {
        if a[i] < b[i] {
            assert(lex_lt_from(a, b, i));
        } else {
            assert(b[i] < a[i]);
            assert(lex_lt_from(b, a, i));
        }
    }
}

/// Strict lexicographic order is irreflexive and asymmetric.
pub proof fn lemma_lex_irrefl(a: Seq<char>, b: Seq<char>)
    requires
        lex_lt(a, b),
    ensures
        a != b,
        !lex_lt(b, a),
{
    lemma_lex_irrefl_from(a, b, 0);
}

proof fn lemma_lex_irrefl_from(a: Seq<char>, b: Seq<char>, i: int)
    requires
        0 <= i,
        lex_lt_from(a, b, i),
    ensures
        a != b,
        !lex_lt_from(b, a, i),
    decreases a.len() - i,
{
    if i >= a.len() {
        assert(i < b.len());
        assert(a.len() != b.len());
    } else if i >= b.len() {
        assert(false);
    } else if a[i] != b[i] {
        assert(a[i] < b[i]);
    } else {
        lemma_lex_irrefl_from(a, b, i + 1);
    }
}

/// Strict lexicographic order is transitive.
pub proof fn lemma_lex_lt_trans(a: Seq<char>, b: Seq<char>, c: Seq<char>)
    requires
        lex_lt(a, b),
        lex_lt(b, c),
    ensures
        lex_lt(a, c),
{
    lemma_lex_lt_trans_from(a, b, c, 0);
}

proof fn lemma_lex_lt_trans_from(a: Seq<char>, b: Seq<char>, c: Seq<char>, i: int)
    requires
        0 <= i,
        lex_lt_from(a, b, i),
        lex_lt_from(b, c, i),
    ensures
        lex_lt_from(a, c, i),
    decreases a.len() - i,
{
    if i >= a.len() {
        // a is exhausted; b is longer, so c is longer too.
        assert(i < b.len());
        assert(i < c.len());
        assert(lex_lt_from(a, c, i));
    } else {
        assert(i < b.len());
        if a[i] != b[i] {
            assert(i < c.len());
            if b[i] == c[i] {
                assert(lex_lt_from(a, c, i));
            } else {
                assert(a[i] < b[i]);
                assert(b[i] < c[i]);
                assert(lex_lt_from(a, c, i));
            }
        } else {
            assert(i < c.len());
            if b[i] == c[i] {
                lemma_lex_lt_trans_from(a, b, c, i + 1);
            } else {
                assert(b[i] < c[i]);
                assert(lex_lt_from(a, c, i));
            }
        }
    }
}

/// Non-strict lexicographic order is transitive and antisymmetric.
pub proof fn lemma_lex_le_trans(a: Seq<char>, b: Seq<char>, c: Seq<char>)
    requires
        lex_le(a, b),
        lex_le(b, c),
    ensures
        lex_le(a, c),
{
    if a != b && b != c {
        lemma_lex_lt_trans(a, b, c);
    }
}

pub proof fn lemma_lex_le_antisym(a: Seq<char>, b: Seq<char>)
    requires
        lex_le(a, b),
        lex_le(b, a),
    ensures
        a == b,
{
    if a != b {
        lemma_lex_irrefl(a, b);
    }
}

/// The sort order is total.
pub proof fn lemma_item_le_total(x: SortItemView, y: SortItemView)
    ensures
        item_le(x, y) || item_le(y, x),
{
    if x.key == y.key {
        if x.a != y.a {
            lemma_lex_total(x.a, y.a);
        } else if x.b != y.b {
            lemma_lex_total(x.b, y.b);
        }
    }
}

/// The sort order is transitive.
pub proof fn lemma_item_le_trans(x: SortItemView, y: SortItemView, z: SortItemView)
    requires
        item_le(x, y),
        item_le(y, z),
    ensures
        item_le(x, z),
{
    if x.key == z.key {
        assert(x.key == y.key && y.key == z.key);
        // the first text keys are non-strictly ordered along the chain
        assert(lex_le(x.a, y.a));
        assert(lex_le(y.a, z.a));
        lemma_lex_le_trans(x.a, y.a, z.a);
        if x.a == z.a {
            assert(lex_le(y.a, x.a));
            lemma_lex_le_antisym(x.a, y.a);
            assert(x.a == y.a && y.a == z.a);
            assert(lex_le(x.b, y.b));
            assert(lex_le(y.b, z.b));
            lemma_lex_le_trans(x.b, y.b, z.b);
            if x.b == z.b {
                assert(lex_le(y.b, x.b));
                lemma_lex_le_antisym(x.b, y.b);
                assert(x.b == y.b && y.b == z.b);
            } else {
                assert(lex_lt(x.b, z.b));
            }
        } else {
            assert(lex_lt(x.a, z.a));
        }
    }
}

/// Inserting into a sorted sequence keeps it sorted.
pub proof fn lemma_insert_le_sorted(x: SortItemView, s: Seq<SortItemView>)
    requires
        sorted(s),
    ensures
        sorted(insert_le(x, s)),
    decreases s.len(),
{
    if s.len() == 0 {
    } else if item_le(x, s[0]) {
        let out = seq![x] + s;
        assert forall|i: int, j: int| 0 <= i < j < out.len() implies item_le(out[i], out[j]) by {
            if i == 0 {
                if j > 1 {
                    assert(item_le(s[0], s[j - 1]));
                    lemma_item_le_trans(x, s[0], s[j - 1]);
                }
            } else {
                assert(item_le(s[i - 1], s[j - 1]));
            }
        }
    } else {
        let rest = s.drop_first();
        assert(sorted(rest));
        lemma_insert_le_sorted(x, rest);
        lemma_item_le_total(x, s[0]);
        let ins = insert_le(x, rest);
        let out = seq![s[0]] + ins;
        lemma_insert_le_contents(x, rest);
        assert forall|i: int, j: int| 0 <= i < j < out.len() implies item_le(out[i], out[j]) by {
            if i == 0 {
                let e = ins[j - 1];
                assert(e == x || rest.contains(e));
                if e != x {
                    let k = choose|k: int| 0 <= k < rest.len() && rest[k] == e;
                    assert(item_le(s[0], s[k + 1]));
                }
            } else {
                assert(item_le(ins[i - 1], ins[j - 1]));
            }
        }
    }
}

/// Every element of the insertion result is the inserted element or
/// one of the original elements.
proof fn lemma_insert_le_contents(x: SortItemView, s: Seq<SortItemView>)
    ensures
        insert_le(x, s).len() == s.len() + 1,
        forall|j: int| 0 <= j < insert_le(x, s).len()
            ==> #[trigger] insert_le(x, s)[j] == x || s.contains(insert_le(x, s)[j]),
    decreases s.len(),
{
    if s.len() == 0 {
    } else if item_le(x, s[0]) {
        let out = seq![x] + s;
        assert forall|j: int| 0 <= j < out.len() implies #[trigger] out[j] == x || s.contains(
            out[j],
        ) by {
            if j > 0 {
                assert(out[j] == s[j - 1]);
            }
        }
    } else {
        let rest = s.drop_first();
        lemma_insert_le_contents(x, rest);
        let ins = insert_le(x, rest);
        let out = seq![s[0]] + ins;
        assert forall|j: int| 0 <= j < out.len() implies #[trigger] out[j] == x || s.contains(
            out[j],
        ) by {
            if j == 0 {
                assert(s.contains(s[0]));
            } else {
                let e = ins[j - 1];
                assert(e == x || rest.contains(e));
                if e != x {
                    let k = choose|k: int| 0 <= k < rest.len() && rest[k] == e;
                    assert(s[k + 1] == e);
                    assert(s.contains(e));
                }
            }
        }
    }
}

/// The sort of any item sequence is sorted.
pub proof fn lemma_sort_items_sorted(s: Seq<SortItemView>)
    ensures
        sorted(sort_items(s)),
    decreases s.len(),
{
    if s.len() > 0 {
        lemma_sort_items_sorted(s.drop_last());
        lemma_insert_le_sorted(s.last(), sort_items(s.drop_last()));
    }
}

/// Sorting neither adds nor drops elements: the result has the same
/// length and every element of it occurs in the input.
pub proof fn lemma_sort_items_contents(s: Seq<SortItemView>)
    ensures
        sort_items(s).len() == s.len(),
        forall|j: int| 0 <= j < sort_items(s).len() ==> s.contains(#[trigger] sort_items(s)[j]),
    decreases s.len(),
{
    if s.len() > 0 {
        let rest = s.drop_last();
        lemma_sort_items_contents(rest);
        lemma_insert_le_contents(s.last(), sort_items(rest));
        let out = sort_items(s);
        assert forall|j: int| 0 <= j < out.len() implies s.contains(#[trigger] out[j]) by {
            let e = out[j];
            assert(e == s.last() || sort_items(rest).contains(e));
            if e == s.last() {
                assert(s[s.len() - 1] == e);
            } else {
                let k = choose|k: int| 0 <= k < sort_items(rest).len() && sort_items(rest)[k] == e;
                assert(rest.contains(e));
                let k2 = choose|k2: int| 0 <= k2 < rest.len() && rest[k2] == e;
                assert(s[k2] == e);
            }
        }
    }
}

/// Nothing is lost by insertion: the inserted element and every
/// original element occur in the result.
proof fn lemma_insert_le_complete(x: SortItemView, s: Seq<SortItemView>)
    ensures
        insert_le(x, s).contains(x),
        forall|j: int| 0 <= j < s.len() ==> insert_le(x, s).contains(#[trigger] s[j]),
    decreases s.len(),
{
    if s.len() == 0 {
        assert(insert_le(x, s)[0] == x);
    } else if item_le(x, s[0]) {
        let out = seq![x] + s;
        assert(out[0] == x);
        assert(out.contains(x));
        assert forall|j: int| 0 <= j < s.len() implies out.contains(#[trigger] s[j]) by {
            assert(out[j + 1] == s[j]);
        }
    } else {
        let rest = s.drop_first();
        lemma_insert_le_complete(x, rest);
        let ins = insert_le(x, rest);
        let out = seq![s[0]] + ins;
        let kx = choose|k: int| 0 <= k < ins.len() && ins[k] == x;
        assert(out[kx + 1] == x);
        assert(out.contains(x));
        assert forall|j: int| 0 <= j < s.len() implies out.contains(#[trigger] s[j]) by {
            if j == 0 {
                assert(out[0] == s[0]);
            } else {
                assert(rest[j - 1] == s[j]);
                assert(ins.contains(rest[j - 1]));
                let k = choose|k: int| 0 <= k < ins.len() && ins[k] == rest[j - 1];
                assert(out[k + 1] == s[j]);
            }
        }
    }
}

/// Nothing is lost by sorting: every input element occurs in the
/// sorted result.
pub proof fn lemma_sort_items_complete(s: Seq<SortItemView>)
    ensures
        forall|j: int| 0 <= j < s.len() ==> sort_items(s).contains(#[trigger] s[j]),
    decreases s.len(),
{
    if s.len() > 0 {
        let rest = s.drop_last();
        lemma_sort_items_complete(rest);
        lemma_insert_le_complete(s.last(), sort_items(rest));
        let out = sort_items(s);
        assert forall|j: int| 0 <= j < s.len() implies out.contains(#[trigger] s[j]) by {
            if j == s.len() - 1 {
                assert(out.contains(s.last()));
            } else {
                assert(rest[j] == s[j]);
                assert(sort_items(rest).contains(rest[j]));
                let k = choose|k: int|
                    0 <= k < sort_items(rest).len() && sort_items(rest)[k] == rest[j];
                assert(out.contains(sort_items(rest)[k]));
            }
        }
    }
}

/// Whether `x@` precedes `y@` in the sort order.
fn item_le_x(x: &SortItem, y: &SortItem) -> (r: bool)
    ensures
        r == item_le(x@, y@),
{
    if x.key != y.key {
        x.key < y.key
    } else if !str_eq(x.a.as_str(), y.a.as_str()) {
        str_lex_lt(x.a.as_str(), y.a.as_str())
    } else if !str_eq(x.b.as_str(), y.b.as_str()) {
        str_lex_lt(x.b.as_str(), y.b.as_str())
    } else {
        x.pos <= y.pos
    }
}

/// `insert_le` places the element at the first position whose element
/// it precedes.
proof fn lemma_insert_le_at(x: SortItemView, s: Seq<SortItemView>, j: int)
    requires
        0 <= j <= s.len(),
        forall|k: int| 0 <= k < j ==> !item_le(x, #[trigger] s[k]),
        j < s.len() ==> item_le(x, s[j]),
    ensures
        insert_le(x, s) == s.insert(j, x),
    decreases s.len(),
{
    if s.len() == 0 {
        assert(insert_le(x, s) =~= s.insert(0, x));
    } else if item_le(x, s[0]) {
        assert(j == 0);
        assert(insert_le(x, s) =~= s.insert(0, x));
    } else {
        assert(j > 0);
        let rest = s.drop_first();
        assert(forall|k: int| 0 <= k < j - 1 ==> !item_le(x, #[trigger] rest[k]));
        lemma_insert_le_at(x, rest, j - 1);
        assert(seq![s[0]] + rest.insert(j - 1, x) =~= s.insert(j, x));
    }
}

/// The first position in `out` whose element `x` precedes, or the
/// length when it precedes none.
fn insert_pos(out: &Vec<SortItem>, x: &SortItem) -> (j: usize)
    ensures
        j <= out@.len(),
        forall|k: int| 0 <= k < j ==> !item_le(x@, #[trigger] items_view(out@)[k]),
        j < out@.len() ==> item_le(x@, items_view(out@)[j as int]),
{
    let n = out.len();
    let mut j: usize = 0;
    while j < n
        invariant
            j <= n,
            n == out@.len(),
            forall|k: int| 0 <= k < j ==> !item_le(x@, #[trigger] items_view(out@)[k]),
        decreases n - j,
    {
        if item_le_x(x, &out[j]) {
            return j;
        }
        j = j + 1;
    }
    j
}

/// Inserts `x` into the already-sorted `out` at its place in the sort
/// order.
fn insert_item(out: &mut Vec<SortItem>, x: SortItem)
    ensures
        items_view(final(out)@) == insert_le(x@, items_view(old(out)@)),
{
    let ghost s = items_view(out@);
    let j = insert_pos(out, &x);
    proof {
        lemma_insert_le_at(x@, s, j as int);
    }
    out.insert(j, x);
    proof {
        assert(items_view(out@) =~= s.insert(j as int, x@));
    }
}

/// Sorts the items by rank, text keys and position. The result is the
/// one ordering that `sort_items` describes.
pub fn sort_items_x(items: Vec<SortItem>) -> (out: Vec<SortItem>)
    ensures
        items_view(out@) == sort_items(items_view(items@)),
{
    let ghost orig = items_view(items@);
    let mut rest = items;
    let mut out: Vec<SortItem> = Vec::new();
    while rest.len() > 0
        invariant
            rest@.len() <= orig.len(),
            items_view(rest@) == orig.skip(orig.len() - rest@.len()),
            items_view(out@) == sort_items(orig.take(orig.len() - rest@.len())),
        decreases rest@.len(),
    {
        let ghost p = orig.len() - rest@.len();
        let ghost prev = rest@;
        let x = rest.remove(0);
        proof {
            assert(items_view(prev)[0] == x@);
            assert(items_view(prev)[0] == orig.skip(p)[0]);
            assert(orig.skip(p)[0] == orig[p]);
            assert forall|k: int| 0 <= k < rest@.len() implies items_view(rest@)[k] == orig.skip(
                p + 1,
            )[k] by {
                assert(rest@[k] == prev[k + 1]);
                assert(items_view(prev)[k + 1] == orig.skip(p)[k + 1]);
                assert(orig.skip(p)[k + 1] == orig[p + 1 + k]);
            }
            assert(items_view(rest@) =~= orig.skip(p + 1));
            assert(orig.take(p + 1).drop_last() =~= orig.take(p));
            assert(orig.take(p + 1).last() == orig[p]);
        }
        insert_item(&mut out, x);
    }
    proof {
        assert(orig.take(orig.len() as int) =~= orig);
    }
    out
}

} // verus!
