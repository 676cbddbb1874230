//! Query sanitization for the full-text engine: strip every character
//! that is neither alphanumeric nor whitespace, split the remainder on
//! whitespace, and join the surviving tokens with `OR`.

use vstd::prelude::*;

verus! {

/// Whether the character counts as alphanumeric.
pub uninterp spec fn is_alnum(c: char) -> bool;

/// Whether the character counts as whitespace.
pub uninterp spec fn is_wspace(c: char) -> bool;

/// Relies on `char::is_alphanumeric`: the result depends on the
/// character alone.
pub assume_specification[ char::is_alphanumeric ](c: char) -> (r: bool)
    ensures
        r == is_alnum(c),
;

/// Relies on `char::is_whitespace`: the result depends on the character
/// alone.
pub assume_specification[ char::is_whitespace ](c: char) -> (r: bool)
    ensures
        r == is_wspace(c),
;

/// A character that can stand inside a token: alphanumeric and not
/// whitespace.
pub open spec fn is_word_char(c: char) -> bool {
    is_alnum(c) && !is_wspace(c)
}

/// The state of a left-to-right scan: the tokens already completed, and
/// the word characters gathered since the last whitespace.
pub ghost struct ScanState {
    pub done: Seq<Seq<char>>,
    pub cur: Seq<char>,
}

/// Scans `s` left to right. A word character extends the current token;
/// whitespace completes it; any other character is dropped without
/// splitting the token around it.
pub open spec fn scan(s: Seq<char>) -> ScanState
    decreases s.len(),
{
    if s.len() == 0 {
        ScanState { done: Seq::empty(), cur: Seq::empty() }
    } else {
        let st = scan(s.drop_last());
        let c = s.last();
        if is_word_char(c) {
            ScanState { done: st.done, cur: st.cur.push(c) }
        } else if is_wspace(c) {
            if st.cur.len() == 0 {
                st
            } else {
                ScanState { done: st.done.push(st.cur), cur: Seq::empty() }
            }
        } else {
            st
        }
    }
}

/// The tokens of `s` that survive sanitization, in order.
pub open spec fn tokens(s: Seq<char>) -> Seq<Seq<char>> {
    let st = scan(s);
    if st.cur.len() == 0 {
        st.done
    } else {
        st.done.push(st.cur)
    }
}

/// The tokens as character vectors, in order.
pub(crate) fn tokenize_chars(query: &str) -> (r: Vec<Vec<char>>)
    ensures
        r@.map_values(|t: Vec<char>| t@) == tokens(query@),
{
    let len = query.unicode_len();
    let mut done: Vec<Vec<char>> = Vec::new();
    let mut cur: Vec<char> = Vec::new();
    let mut i: usize = 0;
    while i < len
        invariant
            i <= len,
            len == query@.len(),
            done@.map_values(|t: Vec<char>| t@) == scan(query@.take(i as int)).done,
            cur@ == scan(query@.take(i as int)).cur,
        decreases len - i,
    {
        let c = query.get_char(i);
        let ghost prefix = query@.take(i as int);
        let ghost next_prefix = query@.take(i + 1int);
        proof {
            assert(next_prefix.drop_last() =~= prefix);
            assert(next_prefix.last() == query@[i as int]);
        }
        if c.is_alphanumeric() && !c.is_whitespace() {
            cur.push(c);
        } else if c.is_whitespace() {
            if cur.len() > 0 {
                done.push(cur);
                cur = Vec::new();
                proof {
                    assert(done@.map_values(|t: Vec<char>| t@)
                        =~= scan(next_prefix).done);
                }
            }
        }
        i = i + 1;
    }
    proof {
        assert(query@.take(len as int) =~= query@);
    }
    if cur.len() > 0 {
        done.push(cur);
        proof {
            assert(done@.map_values(|t: Vec<char>| t@) =~= tokens(query@));
        }
    }
    done
}

/// The surviving tokens joined with `" OR "`.
pub open spec fn join_or(ts: Seq<Seq<char>>) -> Seq<char>
    decreases ts.len(),
{
    if ts.len() == 0 {
        Seq::empty()
    } else if ts.len() == 1 {
        ts[0]
    } else {
        join_or(ts.drop_last()) + (" OR ")@ + ts.last()
    }
}

/// Sanitizes a free-text query for the full-text engine: every character
/// that is neither alphanumeric nor whitespace is stripped, the rest is
/// split on whitespace, and the surviving tokens are joined with `OR`.
/// A query with no surviving tokens yields the empty string.
pub fn sanitize_fts_query(query: &str) -> (r: String)
    ensures
        r@ == join_or(tokens(query@)),
{
    let toks = tokenize_chars(query);
    let ghost ts = toks@.map_values(|t: Vec<char>| t@);
    let mut out = String::new();
    let mut i: usize = 0;
    while i < toks.len()
        invariant
            i <= toks@.len(),
            ts == toks@.map_values(|t: Vec<char>| t@),
            out@ == join_or(ts.take(i as int)),
        decreases toks@.len() - i,
    {
        proof {
            assert(ts.take(i + 1int).drop_last() =~= ts.take(i as int));
            assert(ts.take(i + 1int).last() == ts[i as int]);
        }
        if i > 0 {
            out.append(" OR ");
        }
        let t = crate::text::string_from_chars(&toks[i]);
        out.append(t.as_str());
        i = i + 1;
    }
    proof {
        assert(ts.take(toks@.len() as int) =~= ts);
    }
    out
}

} // verus!
