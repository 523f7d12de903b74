//! The line search engine: split a text into lines and keep, in order, every
//! line that contains the query, either exactly or after case folding.

use vstd::prelude::*;
use vstd::string::StrSliceExecFns;

use crate::config::Config;
use crate::text::{
    contains_seq, lines_spec, line_content, lower_seq, lemma_lines_step, lemma_lines_whole,
    lemma_contains_self, lemma_contains_lower, chars_of, lower_chars, contains_chars,
};

verus! {

/// A line matches the query exactly when it contains it as a substring.
pub open spec fn sensitive_pred(query: Seq<char>) -> spec_fn(Seq<char>) -> bool {
    |line: Seq<char>| contains_seq(line, query)
}

/// A line matches the query after both are folded to lowercase.
pub open spec fn insensitive_pred(query: Seq<char>) -> spec_fn(Seq<char>) -> bool {
    |line: Seq<char>| contains_seq(lower_seq(line), lower_seq(query))
}

/// The lines of the contents that contain the query, in order of occurrence.
pub open spec fn matching_lines(query: Seq<char>, contents: Seq<char>) -> Seq<Seq<char>> {
    lines_spec(contents).filter(sensitive_pred(query))
}

/// The lines of the contents that contain the query up to case folding, in
/// order of occurrence.
pub open spec fn matching_lines_nocase(query: Seq<char>, contents: Seq<char>) -> Seq<Seq<char>> {
    lines_spec(contents).filter(insensitive_pred(query))
}

/// A filtered sequence holds only elements of the original that satisfy the
/// predicate.
pub proof fn lemma_filter_subset<A>(s: Seq<A>, pred: spec_fn(A) -> bool, x: A)
    requires
        s.filter(pred).contains(x),
    ensures
        s.contains(x),
        pred(x),
    decreases s.len(),
{
    reveal(Seq::filter);
    if s.len() == 0 {
    } else {
        let rest = s.drop_last();
        if pred(s.last()) {
            if x == s.last() {
                assert(s[s.len() - 1] == x);
            } else {
                let f = rest.filter(pred);
                let j = choose|j: int|
                    0 <= j < f.push(s.last()).len() && f.push(s.last())[j] == x;
                assert(f[j] == x);
                lemma_filter_subset(rest, pred, x);
                let k = choose|k: int| 0 <= k < rest.len() && rest[k] == x;
                assert(s[k] == x);
            }
        } else {
            lemma_filter_subset(rest, pred, x);
            let k = choose|k: int| 0 <= k < rest.len() && rest[k] == x;
            assert(s[k] == x);
        }
    }
}

/// Split a text into its lines, as views into the original text.
pub fn split_lines<'a>(contents: &'a str) -> (r: Vec<&'a str>)
    ensures
        r.deep_view() == lines_spec(contents@),
{
    let n = contents.unicode_len();
    let mut r: Vec<&'a str> = Vec::new();
    let mut start: usize = 0;
    let mut i: usize = 0;
    proof {
        assert(contents@.subrange(0, n as int) =~= contents@);
        assert(r.deep_view() =~= Seq::<Seq<char>>::empty());
        assert(Seq::<Seq<char>>::empty() + lines_spec(contents@) =~= lines_spec(contents@));
    }
    while i < n
        invariant
            n == contents@.len(),
            start <= i <= n,
            lines_spec(contents@) == r.deep_view() + lines_spec(
                contents@.subrange(start as int, n as int),
            ),
            forall|k: int| start <= k < i ==> contents@[k] != '\n',
        decreases n - i,
    {
        let c = contents.get_char(i);
        if c == '\n' {
            let end = if i > start && contents.get_char(i - 1) == '\r' {
                i - 1
            } else {
                i
            };
            let line = contents.substring_char(start, end);
            proof {
                let whole = contents@;
                let tail = whole.subrange(start as int, n as int);
                let j = i - start;
                assert(tail[j as int] == '\n');
                assert forall|k: int| 0 <= k < j implies tail[k] != '\n' by {
                    assert(tail[k] == whole[start + k]);
                }
                lemma_lines_step(tail, j as int);
                assert(tail.subrange(0, j as int) =~= whole.subrange(start as int, i as int));
                assert(line@ =~= line_content(whole.subrange(start as int, i as int)));
                assert(tail.subrange(j as int + 1, tail.len() as int) =~= whole.subrange(
                    i as int + 1,
                    n as int,
                ));
                let rd = r.deep_view();
                let rest = lines_spec(whole.subrange(i as int + 1, n as int));
                assert(rd + (seq![line_content(whole.subrange(start as int, i as int))] + rest)
                    =~= rd.push(line@) + rest);
                assert(lines_spec(whole) == rd.push(line@) + rest);
            }
            let ghost rd = r.deep_view();
            r.push(line);
            proof {
                assert(r.deep_view() =~= rd.push(line@));
            }
            start = i + 1;
        }
        i = i + 1;
    }
    proof {
        let whole = contents@;
        let tail = whole.subrange(start as int, n as int);
        if start == n {
            assert(tail.len() == 0);
            assert(r.deep_view() + lines_spec(tail) =~= r.deep_view());
        }
    }
    if start < n {
        let line = contents.substring_char(start, n);
        proof {
            let whole = contents@;
            let tail = whole.subrange(start as int, n as int);
            assert forall|k: int| 0 <= k < tail.len() implies tail[k] != '\n' by {
                assert(tail[k] == whole[start + k]);
            }
            lemma_lines_whole(tail);
            let rd = r.deep_view();
            assert(rd + seq![tail] =~= rd.push(line@));
            assert(lines_spec(whole) == rd.push(line@));
        }
        let ghost rd = r.deep_view();
        r.push(line);
        proof {
            assert(r.deep_view() =~= rd.push(line@));
        }
    }
    r
}

/// All lines of the contents that contain the query, in order.
pub fn search<'a>(query: &str, contents: &'a str) -> (r: Vec<&'a str>)
    ensures
        r.deep_view() == matching_lines(query@, contents@),
{
    let lines = split_lines(contents);
    let q = chars_of(query);
    let mut r: Vec<&'a str> = Vec::new();
    let mut i: usize = 0;
    proof {
        reveal(Seq::filter);
        assert(lines.deep_view().subrange(0, 0) =~= Seq::<Seq<char>>::empty());
        assert(r.deep_view() =~= Seq::<Seq<char>>::empty());
    }
    while i < lines.len()
        invariant
            q@ == query@,
            lines.deep_view() == lines_spec(contents@),
            lines.deep_view().len() == lines@.len(),
            i <= lines@.len(),
            r.deep_view() == lines.deep_view().subrange(0, i as int).filter(
                sensitive_pred(query@),
            ),
        decreases lines@.len() - i,
    {
        let line = lines[i];
        let lc = chars_of(line);
        let ghost rd = r.deep_view();
        let hit = contains_chars(&lc, &q);
        if hit {
            r.push(line);
        }
        proof {
            reveal(Seq::filter);
            let dv = lines.deep_view();
            let pred = sensitive_pred(query@);
            let pref = dv.subrange(0, i as int);
            let pref1 = dv.subrange(0, i as int + 1);
            assert(pref1.drop_last() =~= pref);
            assert(pref1.last() == dv[i as int]);
            assert(dv[i as int] == line@);
            assert(pred(line@) == hit);
            if hit {
                assert(r.deep_view() =~= rd.push(line@));
                assert(pref1.filter(pred) == pref.filter(pred).push(line@));
            } else {
                assert(pref1.filter(pred) == pref.filter(pred));
            }
        }
        i = i + 1;
    }
    proof {
        let dv = lines.deep_view();
        assert(dv.subrange(0, dv.len() as int) =~= dv);
    }
    r
}

/// All lines of the contents that contain the query up to case folding, in
/// order. The returned lines keep their original case.
pub fn search_case_insensitive<'a>(query: &str, contents: &'a str) -> (r: Vec<&'a str>)
    ensures
        r.deep_view() == matching_lines_nocase(query@, contents@),
{
    let lines = split_lines(contents);
    let q = chars_of(query);
    let lq = lower_chars(&q);
    let mut r: Vec<&'a str> = Vec::new();
    let mut i: usize = 0;
    proof {
        reveal(Seq::filter);
        assert(lines.deep_view().subrange(0, 0) =~= Seq::<Seq<char>>::empty());
        assert(r.deep_view() =~= Seq::<Seq<char>>::empty());
    }
    while i < lines.len()
        invariant
            lq@ == lower_seq(query@),
            lines.deep_view() == lines_spec(contents@),
            lines.deep_view().len() == lines@.len(),
            i <= lines@.len(),
            r.deep_view() == lines.deep_view().subrange(0, i as int).filter(
                insensitive_pred(query@),
            ),
        decreases lines@.len() - i,
    {
        let line = lines[i];
        let lc = chars_of(line);
        let llc = lower_chars(&lc);
        let ghost rd = r.deep_view();
        let hit = contains_chars(&llc, &lq);
        if hit {
            r.push(line);
        }
        proof {
            reveal(Seq::filter);
            let dv = lines.deep_view();
            let pred = insensitive_pred(query@);
            let pref = dv.subrange(0, i as int);
            let pref1 = dv.subrange(0, i as int + 1);
            assert(pref1.drop_last() =~= pref);
            assert(pref1.last() == dv[i as int]);
            assert(dv[i as int] == line@);
            assert(pred(line@) == hit);
            if hit {
                assert(r.deep_view() =~= rd.push(line@));
                assert(pref1.filter(pred) == pref.filter(pred).push(line@));
            } else {
                assert(pref1.filter(pred) == pref.filter(pred));
            }
        }
        i = i + 1;
    }
    proof {
        let dv = lines.deep_view();
        assert(dv.subrange(0, dv.len() as int) =~= dv);
    }
    r
}

/// The search variant that the configuration selects, applied to the contents.
pub fn search_config<'a>(config: &Config, contents: &'a str) -> (r: Vec<&'a str>)
    ensures
        config.case_sensitive ==> r.deep_view() == matching_lines(config.query@, contents@),
        !config.case_sensitive ==> r.deep_view() == matching_lines_nocase(
            config.query@,
            contents@,
        ),
{
    if config.case_sensitive {
        search(config.query.as_str(), contents)
    } else {
        search_case_insensitive(config.query.as_str(), contents)
    }
}

/// Law: case-insensitive search accepts every line that case-sensitive search
/// accepts, for the same query and contents.
pub proof fn lemma_insensitive_superset(query: Seq<char>, contents: Seq<char>)
    ensures
        forall|l: Seq<char>| #[trigger] matching_lines(query, contents).contains(l)
            ==> matching_lines_nocase(query, contents).contains(l),
{
    assert forall|l: Seq<char>| #[trigger] matching_lines(query, contents).contains(l)
        implies matching_lines_nocase(query, contents).contains(l) by {
        lemma_filter_subset(lines_spec(contents), sensitive_pred(query), l);
        lemma_contains_lower(l, query);
        let j = choose|j: int|
            0 <= j < lines_spec(contents).len() && lines_spec(contents)[j] == l;
        lines_spec(contents).lemma_filter_contains(insensitive_pred(query), j);
    }
}

/// Law: a query equal to one of the content's lines matches that line, so the
/// line appears in the result.
pub proof fn lemma_full_line_matches(line: Seq<char>, contents: Seq<char>)
    requires
        lines_spec(contents).contains(line),
    ensures
        matching_lines(line, contents).contains(line),
{
    lemma_contains_self(line);
    let j = choose|j: int| 0 <= j < lines_spec(contents).len() && lines_spec(contents)[j] == line;
    lines_spec(contents).lemma_filter_contains(sensitive_pred(line), j);
}

/// Law: empty contents have no lines, so no query matches anything in them.
pub proof fn lemma_empty_contents(query: Seq<char>)
    ensures
        matching_lines(query, Seq::empty()) == Seq::<Seq<char>>::empty(),
        matching_lines_nocase(query, Seq::empty()) == Seq::<Seq<char>>::empty(),
{
    reveal(Seq::filter);
}

} // verus!
