//! Character- and sequence-level building blocks: simple case folding,
//! substring containment, and splitting a text into lines.

use vstd::prelude::*;
use vstd::string::StrSliceExecFns;

verus! {

/// What `char::to_lowercase` yields for one character: its Unicode lowercase
/// mapping, one or more characters, a function of the character alone.
pub uninterp spec fn char_fold(c: char) -> Seq<char>;

/// Relies on char::to_lowercase: the Unicode lowercase mapping of one
/// character, independent of locale, environment and machine.
#[verifier::external_body]
fn fold_char(c: char) -> (r: Vec<char>)
    ensures
        r@ == char_fold(c),
{
    c.to_lowercase().collect()
}

/// A sequence of characters folded to lowercase: the concatenation of the
/// lowercase mappings of its characters, in order.
pub open spec fn lower_seq(s: Seq<char>) -> Seq<char>
    decreases s.len(),
{
    if s.len() == 0 {
        Seq::empty()
    } else {
        char_fold(s[0]) + lower_seq(s.drop_first())
    }
}

/// Case folding distributes over concatenation.
pub proof fn lemma_lower_seq_concat(a: Seq<char>, b: Seq<char>)
    ensures
        lower_seq(a + b) == lower_seq(a) + lower_seq(b),
    decreases a.len(),
{
    if a.len() == 0 {
        assert(a + b =~= b);
        assert(lower_seq(a) + lower_seq(b) =~= lower_seq(b));
    } else {
        assert((a + b).drop_first() =~= a.drop_first() + b);
        assert((a + b)[0] == a[0]);
        lemma_lower_seq_concat(a.drop_first(), b);
        assert(char_fold(a[0]) + (lower_seq(a.drop_first()) + lower_seq(b)) =~= (char_fold(a[0])
            + lower_seq(a.drop_first())) + lower_seq(b));
    }
}

/// The needle occurs in the haystack starting at position `i`.
pub open spec fn contains_at(hay: Seq<char>, needle: Seq<char>, i: int) -> bool {
    &&& 0 <= i
    &&& i + needle.len() <= hay.len()
    &&& forall|k: int| 0 <= k < needle.len() ==> hay[i + k] == #[trigger] needle[k]
}

/// Substring containment: the needle occurs somewhere in the haystack.
/// An empty needle is contained in every haystack.
pub open spec fn contains_seq(hay: Seq<char>, needle: Seq<char>) -> bool {
    exists|i: int| contains_at(hay, needle, i)
}

/// Substring containment is reflexive: every sequence contains itself.
pub proof fn lemma_contains_self(s: Seq<char>)
    ensures
        contains_seq(s, s),
{
    assert(contains_at(s, s, 0));
}

/// Case folding preserves substring containment: if the needle occurs in the
/// haystack, the folded needle occurs in the folded haystack. The fold of the
/// haystack splits at the occurrence, since folding is character by character.
pub proof fn lemma_contains_lower(hay: Seq<char>, needle: Seq<char>)
    requires
        contains_seq(hay, needle),
    ensures
        contains_seq(lower_seq(hay), lower_seq(needle)),
{
    let i = choose|i: int| contains_at(hay, needle, i);
    let m = needle.len() as int;
    let before = hay.subrange(0, i);
    let at = hay.subrange(i, i + m);
    let after = hay.subrange(i + m, hay.len() as int);
    assert(at =~= needle);
    assert(hay =~= (before + at) + after);
    lemma_lower_seq_concat(before, needle);
    lemma_lower_seq_concat(before + needle, after);
    assert(lower_seq(hay) == (lower_seq(before) + lower_seq(needle)) + lower_seq(after));
    let p = lower_seq(before).len() as int;
    assert forall|k: int| 0 <= k < lower_seq(needle).len() implies lower_seq(hay)[p + k]
        == #[trigger] lower_seq(needle)[k] by {
        assert(((lower_seq(before) + lower_seq(needle)) + lower_seq(after))[p + k]
            == lower_seq(needle)[k]);
    }
    assert(contains_at(lower_seq(hay), lower_seq(needle), p));
}

/// Index of the first occurrence of `c` in `s`, or `s.len()` if `c` is absent.
pub open spec fn find_char(s: Seq<char>, c: char) -> nat
    decreases s.len(),
{
    if s.len() == 0 {
        0
    } else if s[0] == c {
        0
    } else {
        1 + find_char(s.drop_first(), c)
    }
}

/// `find_char` never points past the end of the sequence.
pub proof fn lemma_find_char_le(s: Seq<char>, c: char)
    ensures
        find_char(s, c) <= s.len(),
    decreases s.len(),
{
    if s.len() > 0 && s[0] != c {
        lemma_find_char_le(s.drop_first(), c);
    }
}

/// If `c` first occurs at position `i`, then `find_char` returns `i`.
pub proof fn lemma_find_char_at(s: Seq<char>, c: char, i: int)
    requires
        0 <= i < s.len(),
        s[i] == c,
        forall|k: int| 0 <= k < i ==> s[k] != c,
    ensures
        find_char(s, c) == i,
    decreases s.len(),
{
    if i > 0 {
        let t = s.drop_first();
        assert(t[i - 1] == s[i]);
        assert forall|k: int| 0 <= k < i - 1 implies t[k] != c by {
            assert(t[k] == s[k + 1]);
        }
        lemma_find_char_at(t, c, i - 1);
    }
}

/// If `c` does not occur in `s`, then `find_char` returns `s.len()`.
pub proof fn lemma_find_char_none(s: Seq<char>, c: char)
    requires
        forall|k: int| 0 <= k < s.len() ==> s[k] != c,
    ensures
        find_char(s, c) == s.len(),
    decreases s.len(),
{
    if s.len() > 0 {
        let t = s.drop_first();
        assert forall|k: int| 0 <= k < t.len() implies t[k] != c by {
            assert(t[k] == s[k + 1]);
        }
        lemma_find_char_none(t, c);
    }
}

/// The text of one line, its terminator removed: a carriage return that stood
/// immediately before the line feed is stripped.
pub open spec fn line_content(s: Seq<char>) -> Seq<char> {
    if s.len() > 0 && s[s.len() - 1] == '\r' {
        s.drop_last()
    } else {
        s
    }
}

/// The lines of a text: maximal runs between line feeds, each stripped of a
/// trailing carriage return that preceded the line feed. A final line feed
/// produces no trailing empty line, and empty contents have no lines.
pub open spec fn lines_spec(s: Seq<char>) -> Seq<Seq<char>>
    decreases s.len(),
    via lines_spec_decreases
{
    if s.len() == 0 {
        Seq::empty()
    } else {
        let i = find_char(s, '\n') as int;
        if i == s.len() {
            seq![s]
        } else {
            seq![line_content(s.subrange(0, i))] + lines_spec(
                s.subrange(i + 1, s.len() as int),
            )
        }
    }
}

#[via_fn]
proof fn lines_spec_decreases(s: Seq<char>) {
    lemma_find_char_le(s, '\n');
}

/// Unfolds `lines_spec` at the first line feed of the text.
pub proof fn lemma_lines_step(s: Seq<char>, i: int)
    requires
        0 <= i < s.len(),
        s[i] == '\n',
        forall|k: int| 0 <= k < i ==> s[k] != '\n',
    ensures
        lines_spec(s) == seq![line_content(s.subrange(0, i))] + lines_spec(
            s.subrange(i + 1, s.len() as int),
        ),
{
    lemma_find_char_at(s, '\n', i);
}

/// A nonempty text without a line feed is one line.
pub proof fn lemma_lines_whole(s: Seq<char>)
    requires
        s.len() > 0,
        forall|k: int| 0 <= k < s.len() ==> s[k] != '\n',
    ensures
        lines_spec(s) == seq![s],
{
    lemma_find_char_none(s, '\n');
}

/// The characters of a string, as a vector.
pub fn chars_of(s: &str) -> (r: Vec<char>)
    ensures
        r@ == s@,
{
    let n = s.unicode_len();
    let mut r: Vec<char> = Vec::new();
    let mut i: usize = 0;
    while i < n
        invariant
            n == s@.len(),
            i <= n,
            r@ == s@.subrange(0, i as int),
        decreases n - i,
    {
        let c = s.get_char(i);
        r.push(c);
        i = i + 1;
        proof {
            assert(r@ =~= s@.subrange(0, i as int));
        }
    }
    proof {
        assert(s@.subrange(0, n as int) =~= s@);
    }
    r
}

/// The characters of a vector, folded to lowercase.
pub fn lower_chars(v: &Vec<char>) -> (r: Vec<char>)
    ensures
        r@ == lower_seq(v@),
{
    let n = v.len();
    let mut r: Vec<char> = Vec::new();
    let mut i: usize = 0;
    proof {
        assert(v@.subrange(0, 0) =~= Seq::<char>::empty());
    }
    while i < n
        invariant
            n == v@.len(),
            i <= n,
            r@ == lower_seq(v@.subrange(0, i as int)),
        decreases n - i,
    {
        let f = fold_char(v[i]);
        let m = f.len();
        let ghost r0 = r@;
        let mut j: usize = 0;
        proof {
            assert(r@ =~= r0 + f@.subrange(0, 0));
        }
        while j < m
            invariant
                m == f@.len(),
                j <= m,
                r@ == r0 + f@.subrange(0, j as int),
            decreases m - j,
        {
            let c = f[j];
            r.push(c);
            j = j + 1;
            proof {
                assert(r@ =~= r0 + f@.subrange(0, j as int));
            }
        }
        proof {
            assert(f@.subrange(0, m as int) =~= f@);
            let pre = v@.subrange(0, i as int);
            let pre1 = v@.subrange(0, i as int + 1);
            let one = seq![v@[i as int]];
            assert(pre1 =~= pre + one);
            lemma_lower_seq_concat(pre, one);
            assert(one.drop_first() =~= Seq::<char>::empty());
            assert(lower_seq(Seq::<char>::empty()) =~= Seq::<char>::empty());
            assert(lower_seq(one) =~= char_fold(v@[i as int]));
            assert(r@ =~= lower_seq(pre1));
        }
        i = i + 1;
    }
    proof {
        assert(v@.subrange(0, n as int) =~= v@);
    }
    r
}

/// The needle occurs in the haystack starting exactly at position `i`.
fn match_at(hay: &Vec<char>, needle: &Vec<char>, i: usize) -> (b: bool)
    requires
        i + needle@.len() <= hay@.len(),
    ensures
        b == contains_at(hay@, needle@, i as int),
{
    let n = hay.len();
    let m = needle.len();
    let mut j: usize = 0;
    while j < m
        invariant
            n == hay@.len(),
            m == needle@.len(),
            i + m <= n,
            j <= m,
            forall|k: int| 0 <= k < j ==> hay@[i + k] == #[trigger] needle@[k],
        decreases m - j,
    {
        if hay[i + j] != needle[j] {
            proof {
                assert(!(hay@[i + j] == needle@[j as int]));
            }
            return false;
        }
        j = j + 1;
    }
    true
}

/// Substring search: does the needle occur anywhere in the haystack?
pub fn contains_chars(hay: &Vec<char>, needle: &Vec<char>) -> (b: bool)
    ensures
        b == contains_seq(hay@, needle@),
{
    let n = hay.len();
    let m = needle.len();
    if m > n {
        proof {
            assert forall|p: int| !(#[trigger] contains_at(hay@, needle@, p)) by {}
        }
        return false;
    }
    let mut i: usize = 0;
    while i <= n - m
        invariant
            n == hay@.len(),
            m == needle@.len(),
            m <= n,
            i <= n - m + 1,
            forall|p: int| 0 <= p < i ==> !(#[trigger] contains_at(hay@, needle@, p)),
        decreases n - m - i + 1,
    {
        if match_at(hay, needle, i) {
            proof {
                assert(contains_seq(hay@, needle@));
            }
            return true;
        }
        i = i + 1;
    }
    proof {
        assert forall|p: int| !(#[trigger] contains_at(hay@, needle@, p)) by {
            if 0 <= p < i {
            }
        }
    }
    false
}

} // verus!
