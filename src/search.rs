//! Filtering and ranking identifiers against a query, and locating the
//! matched span for highlighting.
use vstd::prelude::*;
use vstd::string::*;

use crate::text::{
    blank, chars_equal, chars_of, contains_exec, is_blank, is_infix, occurs_at, lex_le, lex_le_exec,
    lemma_lex_total, lemma_lex_transitive, lower_of, starts_with_exec, to_lower,
};

verus! {

broadcast use vstd::seq_lib::group_seq_properties, vstd::seq_lib::group_to_multiset_ensures;

/// The views of a sequence of strings.
pub open spec fn views(v: Seq<String>) -> Seq<Seq<char>> {
    v.map_values(|s: String| s@)
}

/// Tier of a folded name against a folded query: 0 for equality, 1 for a
/// name that begins with the query, 2 for any other.
pub open spec fn tier(folded_name: Seq<char>, folded_query: Seq<char>) -> int {
    if folded_name == folded_query {
        0
    } else if folded_query.is_prefix_of(folded_name) {
        1
    } else {
        2
    }
}

/// `name` holds `query`, ignoring case.
pub open spec fn matches_query(name: Seq<char>, query: Seq<char>) -> bool {
    is_infix(lower_of(query), lower_of(name))
}

pub open spec fn rank_of(name: Seq<char>, query: Seq<char>) -> int {
    tier(lower_of(name), lower_of(query))
}

/// `a` may stand before `b` in a result: a better tier, or the same tier
/// and no later in code-point order.
pub open spec fn ranks_before(a: Seq<char>, b: Seq<char>, query: Seq<char>) -> bool {
    rank_of(a, query) < rank_of(b, query) || (rank_of(a, query) == rank_of(b, query) && lex_le(
        a,
        b,
    ))
}

pub open spec fn in_rank_order(r: Seq<Seq<char>>, query: Seq<char>) -> bool {
    forall|i: int, j: int| 0 <= i < j < r.len() ==> ranks_before(r[i], r[j], query)
}

/// The names that hold the query, in the order given.
pub open spec fn hits(names: Seq<Seq<char>>, query: Seq<char>) -> Seq<Seq<char>> {
    names.filter(|x: Seq<char>| matches_query(x, query))
}

/// `r` is the answer to `query` over `names`: nothing for a blank query,
/// else exactly the hits, each as often as it occurs, in rank order.
pub open spec fn search_result(names: Seq<Seq<char>>, query: Seq<char>, r: Seq<Seq<char>>) -> bool {
    if is_blank(query) {
        r.len() == 0
    } else {
        r.to_multiset() == hits(names, query).to_multiset() && in_rank_order(r, query)
    }
}

pub proof fn lemma_ranks_total(a: Seq<char>, b: Seq<char>, query: Seq<char>)
    ensures
        ranks_before(a, b, query) || ranks_before(b, a, query),
{
    lemma_lex_total(a, b);
}

pub proof fn lemma_ranks_transitive(a: Seq<char>, b: Seq<char>, c: Seq<char>, query: Seq<char>)
    requires
        ranks_before(a, b, query),
        ranks_before(b, c, query),
    ensures
        ranks_before(a, c, query),
{
    if rank_of(a, query) == rank_of(b, query) && rank_of(b, query) == rank_of(c, query) {
        lemma_lex_transitive(a, b, c);
    }
}

proof fn lemma_insert_in_order(s: Seq<Seq<char>>, p: int, x: Seq<char>, query: Seq<char>)
    requires
        0 <= p <= s.len(),
        in_rank_order(s, query),
        forall|k: int| 0 <= k < p ==> ranks_before(#[trigger] s[k], x, query),
        p < s.len() ==> ranks_before(x, s[p], query),
    ensures
        in_rank_order(s.insert(p, x), query),
{
    let t = s.insert(p, x);
    assert forall|i: int, j: int| 0 <= i < j < t.len() implies ranks_before(t[i], t[j], query) by {
        if j < p {
            assert(t[i] == s[i] && t[j] == s[j]);
        } else if j == p {
            assert(t[i] == s[i]);
        } else if i < p {
            assert(t[i] == s[i] && t[j] == s[j - 1]);
            lemma_ranks_transitive(s[i], x, s[p], query);
            if j - 1 > p {
                lemma_ranks_transitive(s[i], s[p], s[j - 1], query);
            }
        } else if i == p {
            assert(t[j] == s[j - 1]);
            if j - 1 > p {
                lemma_ranks_transitive(x, s[p], s[j - 1], query);
            }
        } else {
            assert(t[i] == s[i - 1] && t[j] == s[j - 1]);
        }
    }
}

/// Where a folded name stands against a folded query: `None` if it does
/// not hold the query, else its tier (0 equal, 1 prefix, 2 elsewhere).
pub fn match_tier(folded_name: &str, folded_query: &str) -> (r: Option<u8>)
    ensures
        r == (if is_infix(folded_query@, folded_name@) {
            Some(tier(folded_name@, folded_query@) as u8)
        } else {
            None::<u8>
        }),
{
    let n = chars_of(folded_name);
    let q = chars_of(folded_query);
    if !contains_exec(&n, &q) {
        None
    } else if chars_equal(&n, &q) {
        Some(0)
    } else if starts_with_exec(&n, &q) {
        Some(1)
    } else {
        Some(2)
    }
}

/// Whether an entry of tier `ta` and characters `a` may stand before one of
/// tier `tb` and characters `b`.
fn entry_before(ta: u8, a: &Vec<char>, tb: u8, b: &Vec<char>) -> (r: bool)
    ensures
        r == (ta < tb || (ta == tb && lex_le(a@, b@))),
{
    ta < tb || (ta == tb && lex_le_exec(a, b))
}

/// The identifiers that hold `query` ignoring case, best first: equal to
/// the query, then beginning with it, then holding it elsewhere; within a
/// tier in code-point order. A query that trims to nothing matches nothing.
#[verifier::spinoff_prover]
pub fn filter_secrets(secret_names: &[String], query: &str) -> (r: Vec<String>)
    ensures
        search_result(views(secret_names@), query@, views(r@)),
{
    if blank(query) {
        return Vec::new();
    }
    let ghost names = views(secret_names@);
    let ghost pred = |x: Seq<char>| matches_query(x, query@);
    let folded_query = to_lower(query);
    let mut out: Vec<String> = Vec::new();
    let mut out_chars: Vec<Vec<char>> = Vec::new();
    let mut out_tier: Vec<u8> = Vec::new();
    let mut i: usize = 0;
    assert(names.take(0).filter(pred) =~= Seq::<Seq<char>>::empty());
    assert(views(out@) =~= Seq::<Seq<char>>::empty());
    while i < secret_names.len()
        invariant
            names == views(secret_names@),
            pred == (|x: Seq<char>| matches_query(x, query@)),
            folded_query@ == lower_of(query@),
            i <= secret_names.len(),
            out@.len() == out_chars@.len(),
            out@.len() == out_tier@.len(),
            forall|k: int|
                0 <= k < out@.len() ==> (#[trigger] out_chars@[k])@ == out@[k]@
                    && out_tier@[k] as int == rank_of(out@[k]@, query@),
            views(out@).to_multiset() == names.take(i as int).filter(pred).to_multiset(),
            in_rank_order(views(out@), query@),
        decreases secret_names.len() - i,
    {
        let name = &secret_names[i];
        let folded = to_lower(name.as_str());
        let ghost before = views(out@);
        assert(names.take(i + 1) =~= names.take(i as int).push(name@));
        match match_tier(folded.as_str(), folded_query.as_str()) {
            Some(t) => {
                assert(pred(name@));
                let nc = chars_of(name.as_str());
                let mut p: usize = 0;
                while p < out.len() && entry_before(out_tier[p], &out_chars[p], t, &nc)
                    invariant
                        p <= out@.len(),
                        out@.len() == out_chars@.len(),
                        out@.len() == out_tier@.len(),
                        nc@ == name@,
                        t as int == rank_of(name@, query@),
                        before == views(out@),
                        forall|k: int|
                            0 <= k < out@.len() ==> (#[trigger] out_chars@[k])@ == out@[k]@
                                && out_tier@[k] as int == rank_of(out@[k]@, query@),
                        forall|k: int| 0 <= k < p ==> ranks_before(#[trigger] before[k], name@, query@),
                    decreases out.len() - p,
                {
                    p += 1;
                }
                proof {
                    if p < out@.len() {
                        assert(!ranks_before(before[p as int], name@, query@));
                        lemma_ranks_total(before[p as int], name@, query@);
                    }
                    lemma_insert_in_order(before, p as int, name@, query@);
                    vstd::seq_lib::to_multiset_insert(before, p as int, name@);
                    names.take(i as int).lemma_filter_push(name@, pred);
                }
                let ghost oc = out_chars@;
                let ghost ot = out_tier@;
                let ghost on = out@;
                out.insert(p, name.clone());
                out_chars.insert(p, nc);
                out_tier.insert(p, t);
                assert(views(out@) =~= before.insert(p as int, name@));
                assert forall|k: int|
                    0 <= k < out@.len() implies (#[trigger] out_chars@[k])@ == out@[k]@
                        && out_tier@[k] as int == rank_of(out@[k]@, query@) by {
                    if k > p {
                        assert(out_chars@[k] == oc[k - 1] && out_tier@[k] == ot[k - 1] && out@[k]
                            == on[k - 1]);
                    } else if k < p {
                        assert(out_chars@[k] == oc[k] && out_tier@[k] == ot[k] && out@[k] == on[k]);
                    } else {
                        assert(out_chars@[k] == nc && out_tier@[k] == t && out@[k] == *name);
                    }
                }
            },
            None => {
                assert(!pred(name@));
                proof {
                    names.take(i as int).lemma_filter_push(name@, pred);
                }
            },
        }
        assert(forall|k: int|
            0 <= k < out@.len() ==> (#[trigger] out_chars@[k])@ == out@[k]@
                && out_tier@[k] as int == rank_of(out@[k]@, query@));
        i += 1;
    }
    assert(names.take(secret_names@.len() as int) =~= names);
    out
}

/// Nothing answers an empty query, whatever the identifiers.
pub proof fn lemma_empty_query_matches_nothing(names: Seq<Seq<char>>, r: Seq<Seq<char>>)
    requires
        search_result(names, Seq::empty(), r),
    ensures
        r.len() == 0,
{
}

/// Every identifier in a result is one of the given identifiers and holds
/// the query, ignoring case.
pub proof fn lemma_results_are_hits(names: Seq<Seq<char>>, query: Seq<char>, r: Seq<Seq<char>>)
    requires
        search_result(names, query, r),
    ensures
        forall|x: Seq<char>| r.contains(x) ==> names.contains(x) && matches_query(x, query),
{
    if !is_blank(query) {
        let pred = |x: Seq<char>| matches_query(x, query);
        assert forall|x: Seq<char>| r.contains(x) implies names.contains(x) && matches_query(
            x,
            query,
        ) by {
            assert(r.to_multiset().count(x) > 0);
            assert(hits(names, query).contains(x));
            names.lemma_filter_contains_rev(pred, x);
        }
    }
}

/// In a result, names equal to the query (ignoring case) come first, then
/// names that begin with it, then the rest.
pub proof fn lemma_results_by_tier(names: Seq<Seq<char>>, query: Seq<char>, r: Seq<Seq<char>>)
    requires
        search_result(names, query, r),
    ensures
        forall|i: int, j: int|
            0 <= i < j < r.len() ==> rank_of(r[i], query) <= rank_of(r[j], query),
{
    assert forall|i: int, j: int| 0 <= i < j < r.len() implies rank_of(r[i], query) <= rank_of(
        r[j],
        query,
    ) by {
        assert(ranks_before(r[i], r[j], query));
    }
}

/// The folded query begins the folding of `text` from character `i` on.
pub open spec fn match_starts_at(text: Seq<char>, query: Seq<char>, i: int) -> bool {
    0 <= i <= text.len() && lower_of(query).is_prefix_of(lower_of(text.skip(i)))
}

/// The folded query lies within the folding of the first `i + 1`
/// characters of `text`.
pub open spec fn match_ends_by(text: Seq<char>, query: Seq<char>, i: int) -> bool {
    0 <= i < text.len() && is_infix(lower_of(query), lower_of(text.take(i + 1)))
}

/// The end of a span of the query's length from `start`, kept inside the
/// text.
pub open spec fn span_end(start: int, query_len: int, text_len: int) -> int {
    if start + query_len > text_len {
        text_len
    } else {
        start + query_len
    }
}

/// The first place where `query` occurs in `text` ignoring case, as a span
/// of character positions: `None` exactly when the folded text does not
/// hold the folded query. The span starts at the first character from which
/// the folded rest of the text begins with the folded query; where no
/// character does so (the match begins inside the folding of a character),
/// at the first character by which the folded text holds it. The span is
/// as long as the query, cut at the end of the text.
pub fn find_match_range(text: &str, query: &str) -> (r: Option<(usize, usize)>)
    ensures
        r is None <==> !is_infix(lower_of(query@), lower_of(text@)),
        r matches Some((s, e)) ==> {
            &&& s <= text@.len()
            &&& e == span_end(s as int, query@.len() as int, text@.len() as int)
            &&& forall|j: int| 0 <= j < s ==> !match_starts_at(text@, query@, j)
            &&& (match_starts_at(text@, query@, s as int) || (
                (forall|j: int| 0 <= j <= text@.len() ==> !match_starts_at(text@, query@, j))
                && match_ends_by(text@, query@, s as int)
                && forall|j: int| 0 <= j < s ==> !match_ends_by(text@, query@, j)))
        },
{
    let n = text.unicode_len();
    let m = query.unicode_len();
    let folded_query = to_lower(query);
    let fq = chars_of(folded_query.as_str());
    let folded_text = to_lower(text);
    let ft = chars_of(folded_text.as_str());
    if !contains_exec(&ft, &fq) {
        return None;
    }
    let mut i: usize = 0;
    loop
        invariant
            n == text@.len(),
            m == query@.len(),
            i <= n,
            fq@ == lower_of(query@),
            is_infix(lower_of(query@), lower_of(text@)),
            forall|j: int| 0 <= j < i ==> !match_starts_at(text@, query@, j),
        ensures
            forall|j: int| 0 <= j <= n ==> !match_starts_at(text@, query@, j),
        decreases n - i,
    {
        let rest = text.substring_char(i, n);
        assert(rest@ == text@.skip(i as int));
        let folded_rest = to_lower(rest);
        let fr = chars_of(folded_rest.as_str());
        if starts_with_exec(&fr, &fq) {
            let e = if m > n - i { n } else { i + m };
            return Some((i, e));
        }
        if i == n {
            break;
        }
        i += 1;
    }
    assert(text@.take(n as int) =~= text@);
    if n == 0 {
        assert(text@.skip(0) =~= text@);
        assert(lower_of(text@).len() == 0);
        assert(lower_of(query@).len() == 0) by {
            let w = choose|w: int| occurs_at(lower_of(text@), lower_of(query@), w);
        }
        assert(match_starts_at(text@, query@, 0));
        return None;
    }
    let mut i: usize = 0;
    loop
        invariant
            n == text@.len(),
            m == query@.len(),
            0 < n,
            i < n,
            fq@ == lower_of(query@),
            is_infix(lower_of(query@), lower_of(text@)),
            text@.take(n as int) == text@,
            forall|j: int| 0 <= j <= n ==> !match_starts_at(text@, query@, j),
            forall|j: int| 0 <= j < i ==> !match_ends_by(text@, query@, j),
        decreases n - i,
    {
        let head = text.substring_char(0, i + 1);
        assert(head@ == text@.take(i + 1));
        let folded_head = to_lower(head);
        let fh = chars_of(folded_head.as_str());
        if contains_exec(&fh, &fq) {
            assert(match_ends_by(text@, query@, i as int));
            let e = if m > n - i { n } else { i + m };
            return Some((i, e));
        }
        assert(!match_ends_by(text@, query@, i as int));
        if i == n - 1 {
            assert(false);
            return None;
        }
        i += 1;
    }
}

} // verus!
