//! The line filter: given a query and the full text of a document, return
//! the lines containing the query, in document order, either exactly or
//! after case folding.

use vstd::prelude::*;

use crate::config::Config;
use crate::text::chars_of;
use crate::text::contains_chars;
use crate::text::is_substring_of;
use crate::text::lemma_lower_preserves_substring;
use crate::text::lower_chars;
use crate::text::lower_of;
use crate::text::split_lines;
use crate::text::split_lines_spec;

verus! {

/// `line` contains `query` as an exact substring.
pub open spec fn matches_sensitive(line: Seq<char>, query: Seq<char>) -> bool {
    is_substring_of(query, line)
}

/// The case-folded form of `line` contains the case-folded form of `query`.
pub open spec fn matches_insensitive(line: Seq<char>, query: Seq<char>) -> bool {
    is_substring_of(lower_of(query), lower_of(line))
}

/// The lines of `lines` that contain `query` exactly, in order.
pub open spec fn filter_sensitive(lines: Seq<Seq<char>>, query: Seq<char>) -> Seq<Seq<char>> {
    lines.filter(|l: Seq<char>| matches_sensitive(l, query))
}

/// The lines of `lines` whose case-folded form contains the case-folded
/// `query`, in order.
pub open spec fn filter_insensitive(lines: Seq<Seq<char>>, query: Seq<char>) -> Seq<Seq<char>> {
    lines.filter(|l: Seq<char>| matches_insensitive(l, query))
}

proof fn lemma_filter_push<A>(s: Seq<A>, x: A, pred: spec_fn(A) -> bool)
    ensures
        pred(x) ==> s.push(x).filter(pred) == s.filter(pred).push(x),
        !pred(x) ==> s.push(x).filter(pred) == s.filter(pred),
{
    reveal(Seq::filter);
    assert(s.push(x).drop_last() =~= s);
    assert(s.push(x).last() == x);
}

proof fn lemma_filter_subset<A>(s: Seq<A>, pred: spec_fn(A) -> bool)
    ensures
        forall|i: int| 0 <= i < s.filter(pred).len() ==> s.contains(#[trigger] s.filter(pred)[i]),
    decreases s.len(),
{
    reveal(Seq::filter);
    if s.len() == 0 {
    } else {
        let d = s.drop_last();
        lemma_filter_subset(d, pred);
        assert forall|i: int| 0 <= i < s.filter(pred).len() implies s.contains(
            #[trigger] s.filter(pred)[i],
        ) by {
            let f = s.filter(pred);
            if pred(s.last()) && i == f.len() - 1 {
                assert(s[s.len() - 1] == f[i]);
            } else {
                assert(f[i] == d.filter(pred)[i]);
                let j = choose|j: int| 0 <= j < d.len() && d[j] == f[i];
                assert(s[j] == f[i]);
            }
        }
    }
}

proof fn lemma_filter_idempotent<A>(s: Seq<A>, pred: spec_fn(A) -> bool)
    ensures
        s.filter(pred).filter(pred) == s.filter(pred),
    decreases s.len(),
{
    reveal(Seq::filter);
    if s.len() == 0 {
    } else {
        let d = s.drop_last();
        lemma_filter_idempotent(d, pred);
        if pred(s.last()) {
            assert(s.filter(pred) == d.filter(pred).push(s.last()));
            lemma_filter_push(d.filter(pred), s.last(), pred);
        } else {
            assert(s.filter(pred) == d.filter(pred));
        }
    }
}

/// An exact-substring filter keeps exactly the matching lines: every line
/// of its result is a line of the input that contains the query, and every
/// input line that contains the query appears in the result.
pub proof fn lemma_filter_sensitive_exact(lines: Seq<Seq<char>>, query: Seq<char>)
    ensures
        forall|i: int| 0 <= i < filter_sensitive(lines, query).len() ==> matches_sensitive(
            #[trigger] filter_sensitive(lines, query)[i],
            query,
        ) && lines.contains(filter_sensitive(lines, query)[i]),
        forall|j: int| 0 <= j < lines.len() && matches_sensitive(#[trigger] lines[j], query)
            ==> filter_sensitive(lines, query).contains(lines[j]),
{
    let ps = |l: Seq<char>| matches_sensitive(l, query);
    lemma_filter_subset(lines, ps);
    assert forall|i: int| 0 <= i < filter_sensitive(lines, query).len() implies matches_sensitive(
        #[trigger] filter_sensitive(lines, query)[i],
        query,
    ) && lines.contains(filter_sensitive(lines, query)[i]) by {
        lines.lemma_filter_pred(ps, i);
    }
    assert forall|j: int|
        0 <= j < lines.len() && matches_sensitive(#[trigger] lines[j], query) implies filter_sensitive(
        lines,
        query,
    ).contains(lines[j]) by {
        lines.lemma_filter_contains(ps, j);
    }
}

/// The case-insensitive filter keeps every line the exact filter keeps,
/// and keeps no line whose case-folded form does not contain the
/// case-folded query.
pub proof fn lemma_insensitive_superset(lines: Seq<Seq<char>>, query: Seq<char>)
    ensures
        forall|i: int| 0 <= i < filter_sensitive(lines, query).len() ==> filter_insensitive(
            lines,
            query,
        ).contains(#[trigger] filter_sensitive(lines, query)[i]),
        forall|i: int| 0 <= i < filter_insensitive(lines, query).len() ==> matches_insensitive(
            #[trigger] filter_insensitive(lines, query)[i],
            query,
        ),
{
    let ps = |l: Seq<char>| matches_sensitive(l, query);
    let pi = |l: Seq<char>| matches_insensitive(l, query);
    lemma_filter_subset(lines, ps);
    assert forall|i: int| 0 <= i < filter_sensitive(lines, query).len() implies filter_insensitive(
        lines,
        query,
    ).contains(#[trigger] filter_sensitive(lines, query)[i]) by {
        let l = filter_sensitive(lines, query)[i];
        lines.lemma_filter_pred(ps, i);
        lemma_lower_preserves_substring(query, l);
        let j = choose|j: int| 0 <= j < lines.len() && lines[j] == l;
        lines.lemma_filter_contains(pi, j);
    }
    assert forall|i: int|
        0 <= i < filter_insensitive(lines, query).len() implies matches_insensitive(
        #[trigger] filter_insensitive(lines, query)[i],
        query,
    ) by {
        lines.lemma_filter_pred(pi, i);
    }
}

/// Exact-substring filtering is idempotent: filtering the lines it
/// returned, with the same query, returns them unchanged.
pub proof fn lemma_filter_sensitive_idempotent(lines: Seq<Seq<char>>, query: Seq<char>)
    ensures
        filter_sensitive(filter_sensitive(lines, query), query) == filter_sensitive(lines, query),
{
    lemma_filter_idempotent(lines, |l: Seq<char>| matches_sensitive(l, query));
}

/// Case-insensitive filtering is idempotent in the same way.
pub proof fn lemma_filter_insensitive_idempotent(lines: Seq<Seq<char>>, query: Seq<char>)
    ensures
        filter_insensitive(filter_insensitive(lines, query), query) == filter_insensitive(
            lines,
            query,
        ),
{
    lemma_filter_idempotent(lines, |l: Seq<char>| matches_insensitive(l, query));
}

/// The lines kept by a sensitive filter, in order.
pub fn filter_lines(query: &str, lines: &Vec<String>) -> (r: Vec<String>)
    ensures
        r.deep_view() == filter_sensitive(lines.deep_view(), query@),
{
    let q = chars_of(query);
    let n = lines.len();
    let mut r: Vec<String> = Vec::new();
    let ghost pred = |l: Seq<char>| matches_sensitive(l, query@);
    let mut i: usize = 0;
    proof {
        assert(lines.deep_view().subrange(0, 0) =~= Seq::<Seq<char>>::empty());
        reveal(Seq::filter);
        assert(r.deep_view() =~= Seq::<Seq<char>>::empty().filter(pred));
    }
    while i < n
        invariant
            n == lines@.len(),
            i <= n,
            q@ == query@,
            pred == (|l: Seq<char>| matches_sensitive(l, query@)),
            r.deep_view() == lines.deep_view().subrange(0, i as int).filter(pred),
        decreases n - i,
    {
        let lc = chars_of(lines[i].as_str());
        proof {
            assert(lines.deep_view().subrange(0, i + 1) =~= lines.deep_view().subrange(
                0,
                i as int,
            ).push(lines@[i as int]@));
            lemma_filter_push(lines.deep_view().subrange(0, i as int), lines@[i as int]@, pred);
        }
        if contains_chars(&lc, &q) {
            let ghost r0 = r.deep_view();
            r.push(lines[i].clone());
            proof {
                assert(r.deep_view() =~= r0.push(lines@[i as int]@));
            }
        }
        i = i + 1;
    }
    proof {
        assert(lines.deep_view().subrange(0, n as int) =~= lines.deep_view());
    }
    r
}

/// The lines kept by a case-insensitive filter, in order; the lines come
/// back as they stand in `lines`, not case folded.
pub fn filter_lines_case_insensitive(query: &str, lines: &Vec<String>) -> (r: Vec<String>)
    ensures
        r.deep_view() == filter_insensitive(lines.deep_view(), query@),
{
    let q = lower_chars(query);
    let n = lines.len();
    let mut r: Vec<String> = Vec::new();
    let ghost pred = |l: Seq<char>| matches_insensitive(l, query@);
    let mut i: usize = 0;
    proof {
        assert(lines.deep_view().subrange(0, 0) =~= Seq::<Seq<char>>::empty());
        reveal(Seq::filter);
        assert(r.deep_view() =~= Seq::<Seq<char>>::empty().filter(pred));
    }
    while i < n
        invariant
            n == lines@.len(),
            i <= n,
            q@ == lower_of(query@),
            pred == (|l: Seq<char>| matches_insensitive(l, query@)),
            r.deep_view() == lines.deep_view().subrange(0, i as int).filter(pred),
        decreases n - i,
    {
        let lc = lower_chars(lines[i].as_str());
        proof {
            assert(lines.deep_view().subrange(0, i + 1) =~= lines.deep_view().subrange(
                0,
                i as int,
            ).push(lines@[i as int]@));
            lemma_filter_push(lines.deep_view().subrange(0, i as int), lines@[i as int]@, pred);
        }
        if contains_chars(&lc, &q) {
            let ghost r0 = r.deep_view();
            r.push(lines[i].clone());
            proof {
                assert(r.deep_view() =~= r0.push(lines@[i as int]@));
            }
        }
        i = i + 1;
    }
    proof {
        assert(lines.deep_view().subrange(0, n as int) =~= lines.deep_view());
    }
    r
}

/// The lines of `contents` containing `query` exactly, in document order.
pub fn search(query: &str, contents: &str) -> (r: Vec<String>)
    ensures
        r.deep_view() == filter_sensitive(split_lines_spec(contents@), query@),
{
    let lines = split_lines(contents);
    filter_lines(query, &lines)
}

/// The lines of `contents` whose case-folded form contains the case-folded
/// `query`, in document order, returned as they stand in the document.
pub fn search_case_insensitive(query: &str, contents: &str) -> (r: Vec<String>)
    ensures
        r.deep_view() == filter_insensitive(split_lines_spec(contents@), query@),
{
    let lines = split_lines(contents);
    filter_lines_case_insensitive(query, &lines)
}

/// The matching lines of `contents` under the configuration's query and
/// case-sensitivity mode, in document order.
pub fn run(cfg: &Config, contents: &str) -> (r: Vec<String>)
    ensures
        cfg.ignore_case ==> r.deep_view() == filter_insensitive(
            split_lines_spec(contents@),
            cfg.query@,
        ),
        !cfg.ignore_case ==> r.deep_view() == filter_sensitive(
            split_lines_spec(contents@),
            cfg.query@,
        ),
{
    if cfg.ignore_case {
        search_case_insensitive(cfg.query.as_str(), contents)
    } else {
        search(cfg.query.as_str(), contents)
    }
}

} // verus!
