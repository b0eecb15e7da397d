//! Text primitives for the line filter: splitting a document into lines,
//! case folding, and substring containment, each against a direct
//! mathematical statement over sequences of characters.

use vstd::prelude::*;

verus! {

// ---------------------------------------------------------------------------
// Case folding
// ---------------------------------------------------------------------------

/// The sequence of characters that `char::to_lowercase` yields for `c`.
pub uninterp spec fn lower_char(c: char) -> Seq<char>;

/// Relies on `char::to_lowercase`: the lowercase mapping of a character is
/// drawn from the Unicode character database, depends on the character alone
/// (no locale, no surrounding context), and yields one or more characters.
#[verifier::external_body]
fn char_lowercase(c: char) -> (r: Vec<char>)
    ensures
        r@ == lower_char(c),
        r@.len() >= 1,
{
    c.to_lowercase().collect()
}

/// The full-string case folding of `s`: each character replaced by its
/// lowercase mapping, in order.
pub open spec fn lower_of(s: Seq<char>) -> Seq<char>
    decreases s.len(),
{
    if s.len() == 0 {
        Seq::empty()
    } else {
        lower_char(s[0]) + lower_of(s.subrange(1, s.len() as int))
    }
}

/// Case folding distributes over concatenation.
pub proof fn lemma_lower_of_distributes(a: Seq<char>, b: Seq<char>)
    ensures
        lower_of(a + b) == lower_of(a) + lower_of(b),
    decreases a.len(),
{
    if a.len() == 0 {
        assert(a + b =~= b);
        assert(lower_of(a) + lower_of(b) =~= lower_of(b));
    } else {
        let a1 = a.subrange(1, a.len() as int);
        assert((a + b).subrange(1, (a + b).len() as int) =~= a1 + b);
        assert((a + b)[0] == a[0]);
        assert((a + b).len() > 0);
        lemma_lower_of_distributes(a1, b);
        assert(lower_of(a + b) =~= lower_of(a) + lower_of(b));
    }
}

proof fn lemma_lower_of_push(s: Seq<char>, c: char)
    ensures
        lower_of(s.push(c)) == lower_of(s) + lower_char(c),
{
    let single = seq![c];
    assert(s.push(c) =~= s + single);
    lemma_lower_of_distributes(s, single);
    assert(single.subrange(1, 1) =~= Seq::<char>::empty());
    assert(lower_of(Seq::<char>::empty()) =~= Seq::<char>::empty());
    assert(lower_of(single) == lower_char(single[0]) + lower_of(single.subrange(1, 1)));
    assert(lower_of(single) =~= lower_char(c));
}

/// The characters of `s` after full-string case folding.
pub fn lower_chars(s: &str) -> (r: Vec<char>)
    ensures
        r@ == lower_of(s@),
{
    let n = s.unicode_len();
    let mut r: Vec<char> = Vec::new();
    let mut i: usize = 0;
    while i < n
        invariant
            n == s@.len(),
            i <= n,
            r@ == lower_of(s@.subrange(0, i as int)),
        decreases n - i,
    {
        let c = s.get_char(i);
        let mut lc = char_lowercase(c);
        proof {
            lemma_lower_of_push(s@.subrange(0, i as int), s@[i as int]);
            assert(s@.subrange(0, i + 1) =~= s@.subrange(0, i as int).push(s@[i as int]));
        }
        r.append(&mut lc);
        i = i + 1;
    }
    proof {
        assert(s@.subrange(0, n as int) =~= s@);
    }
    r
}

/// Case folding preserves substring containment: wherever `needle` occurs
/// in `hay`, the case-folded `needle` occurs in the case-folded `hay`.
pub proof fn lemma_lower_preserves_substring(needle: Seq<char>, hay: Seq<char>)
    requires
        is_substring_of(needle, hay),
    ensures
        is_substring_of(lower_of(needle), lower_of(hay)),
{
    let i = choose|i: int| contains_at(hay, needle, i);
    let a = hay.subrange(0, i);
    let b = hay.subrange(i + needle.len(), hay.len() as int);
    assert(hay.subrange(i, i + needle.len()) == needle);
    assert(hay =~= a + needle + b);
    lemma_lower_of_distributes(a + needle, b);
    lemma_lower_of_distributes(a, needle);
    let la = lower_of(a);
    let ln = lower_of(needle);
    let lb = lower_of(b);
    assert(lower_of(hay) =~= la + ln + lb);
    assert(contains_at(lower_of(hay), ln, la.len() as int)) by {
        assert((la + ln + lb).subrange(la.len() as int, la.len() as int + ln.len() as int) =~= ln);
    }
}

// ---------------------------------------------------------------------------
// Substring containment
// ---------------------------------------------------------------------------

/// `needle` occurs in `hay` starting at position `i`.
pub open spec fn contains_at(hay: Seq<char>, needle: Seq<char>, i: int) -> bool {
    &&& 0 <= i
    &&& i + needle.len() <= hay.len()
    &&& hay.subrange(i, i + needle.len()) == needle
}

/// `needle` occurs somewhere in `hay`.
pub open spec fn is_substring_of(needle: Seq<char>, hay: Seq<char>) -> bool {
    exists|i: int| contains_at(hay, needle, i)
}

fn match_at(hay: &Vec<char>, needle: &Vec<char>, i: usize) -> (r: bool)
    requires
        i + needle@.len() <= hay@.len(),
    ensures
        r == contains_at(hay@, needle@, i as int),
{
    let hlen = hay.len();
    let nlen = needle.len();
    let mut j: usize = 0;
    while j < nlen
        invariant
            hlen == hay@.len(),
            nlen == needle@.len(),
            i + nlen <= hay@.len(),
            j <= nlen,
            forall|k: int| 0 <= k < j ==> hay@[i + k] == needle@[k],
        decreases nlen - j,
    {
        if hay[i + j] != needle[j] {
            proof {
                assert(hay@.subrange(i as int, i + needle@.len())[j as int] == hay@[i + j]);
            }
            return false;
        }
        j = j + 1;
    }
    proof {
        assert(hay@.subrange(i as int, i + needle@.len()) =~= needle@);
    }
    true
}

/// Whether `needle` occurs in `hay` as a contiguous run of characters.
pub fn contains_chars(hay: &Vec<char>, needle: &Vec<char>) -> (r: bool)
    ensures
        r == is_substring_of(needle@, hay@),
{
    let hlen = hay.len();
    let nlen = needle.len();
    if nlen > hlen {
        proof {
            assert(forall|i: int| !contains_at(hay@, needle@, i));
        }
        return false;
    }
    let end = hlen - nlen;
    let mut i: usize = 0;
    loop
        invariant
            hlen == hay@.len(),
            nlen == needle@.len(),
            nlen <= hlen,
            end == hlen - nlen,
            i <= end,
            forall|k: int| 0 <= k < i ==> !contains_at(hay@, needle@, k),
        decreases end - i,
    {
        if match_at(hay, needle, i) {
            return true;
        }
        if i >= end {
            proof {
                assert(forall|k: int| i < k ==> !contains_at(hay@, needle@, k));
            }
            return false;
        }
        i = i + 1;
    }
}

// ---------------------------------------------------------------------------
// Line splitting
// ---------------------------------------------------------------------------

/// The position of the first line feed in `s`, or `s.len()` if there is none.
pub open spec fn first_break(s: Seq<char>) -> nat
    decreases s.len(),
{
    if s.len() == 0 {
        0
    } else if s[0] == '\n' {
        0
    } else {
        1 + first_break(s.subrange(1, s.len() as int))
    }
}

pub proof fn lemma_first_break(s: Seq<char>)
    ensures
        first_break(s) <= s.len(),
        forall|k: int| 0 <= k < first_break(s) ==> s[k] != '\n',
        first_break(s) < s.len() ==> s[first_break(s) as int] == '\n',
    decreases s.len(),
{
    if s.len() != 0 && s[0] != '\n' {
        let s1 = s.subrange(1, s.len() as int);
        lemma_first_break(s1);
        assert(forall|k: int| 1 <= k < first_break(s) ==> s[k] == s1[k - 1]);
    }
}

/// `s` without a final carriage return, if it has one.
pub open spec fn strip_cr(s: Seq<char>) -> Seq<char> {
    if s.len() > 0 && s[s.len() - 1] == '\r' {
        s.subrange(0, s.len() - 1)
    } else {
        s
    }
}

/// The lines of `s`: pieces separated by line feeds, a carriage return
/// immediately before a line feed dropped, and no empty final piece after a
/// trailing line feed.
pub open spec fn split_lines_spec(s: Seq<char>) -> Seq<Seq<char>>
    decreases s.len(),
{
    if s.len() == 0 {
        Seq::empty()
    } else {
        let b = first_break(s);
        if b >= s.len() {
            seq![s]
        } else {
            seq![strip_cr(s.subrange(0, b as int))] + split_lines_spec(
                s.subrange(b as int + 1, s.len() as int),
            )
        }
    }
}

/// Unfolds one line out of `split_lines_spec` at a known line feed position.
proof fn lemma_split_lines_step(s: Seq<char>, k: int)
    requires
        0 <= k < s.len(),
        s[k] == '\n',
        forall|j: int| 0 <= j < k ==> s[j] != '\n',
    ensures
        split_lines_spec(s) == seq![strip_cr(s.subrange(0, k))] + split_lines_spec(
            s.subrange(k + 1, s.len() as int),
        ),
{
    lemma_first_break(s);
    let b = first_break(s);
    assert(b <= k) by {
        if b > k {
            assert(s[k] != '\n');
        }
    }
    assert(k <= b) by {
        if k > b {
            assert(s[b as int] == '\n');
        }
    }
}

/// The lines of a piece of text that holds no line feed: none if it is
/// empty, otherwise the piece itself, kept as it stands.
proof fn lemma_split_lines_tail(s: Seq<char>)
    requires
        forall|j: int| 0 <= j < s.len() ==> s[j] != '\n',
    ensures
        s.len() == 0 ==> split_lines_spec(s) == Seq::<Seq<char>>::empty(),
        s.len() > 0 ==> split_lines_spec(s) == seq![s],
{
    lemma_first_break(s);
    if s.len() > 0 {
        assert(first_break(s) >= s.len()) by {
            if first_break(s) < s.len() {
                assert(s[first_break(s) as int] == '\n');
            }
        }
    }
}

// ---------------------------------------------------------------------------
// Building strings and reading their characters
// ---------------------------------------------------------------------------

/// Relies on `String::push`: appends exactly one character at the end.
#[verifier::external_body]
fn string_push_char(s: &mut String, c: char)
    ensures
        final(s)@ == old(s)@.push(c),
{
    s.push(c);
}

/// A `String` holding exactly the characters of `v`, in order.
pub fn string_of_chars(v: &Vec<char>) -> (r: String)
    ensures
        r@ == v@,
{
    let n = v.len();
    let mut r = String::new();
    let mut i: usize = 0;
    while i < n
        invariant
            n == v@.len(),
            i <= n,
            r@ == v@.subrange(0, i as int),
        decreases n - i,
    {
        string_push_char(&mut r, v[i]);
        proof {
            assert(v@.subrange(0, i + 1) =~= v@.subrange(0, i as int).push(v@[i as int]));
        }
        i = i + 1;
    }
    proof {
        assert(v@.subrange(0, n as int) =~= v@);
    }
    r
}

/// The characters of `s`, in order.
pub fn chars_of(s: &str) -> (r: Vec<char>)
    ensures
        r@ == s@,
{
    let n = s.unicode_len();
    let mut r: Vec<char> = Vec::new();
    let mut i: usize = 0;
    while i < n
        invariant
            n == s@.len(),
            i <= n,
            r@ == s@.subrange(0, i as int),
        decreases n - i,
    {
        let c = s.get_char(i);
        r.push(c);
        proof {
            assert(s@.subrange(0, i + 1) =~= s@.subrange(0, i as int).push(s@[i as int]));
        }
        i = i + 1;
    }
    proof {
        assert(s@.subrange(0, n as int) =~= s@);
    }
    r
}

/// The lines of `contents`, as `split_lines_spec` describes them.
pub fn split_lines(contents: &str) -> (r: Vec<String>)
    ensures
        r.deep_view() == split_lines_spec(contents@),
{
    let n = contents.unicode_len();
    let mut r: Vec<String> = Vec::new();
    let mut cur: Vec<char> = Vec::new();
    let ghost mut start: int = 0;
    let mut i: usize = 0;
    proof {
        assert(contents@.subrange(0, n as int) =~= contents@);
        assert(r.deep_view() =~= Seq::<Seq<char>>::empty());
        assert(r.deep_view() + split_lines_spec(contents@.subrange(0, n as int))
            =~= split_lines_spec(contents@));
    }
    while i < n
        invariant
            n == contents@.len(),
            0 <= start,
            start <= i as int,
            i <= n,
            cur@ == contents@.subrange(start, i as int),
            forall|k: int| start <= k < i ==> contents@[k] != '\n',
            split_lines_spec(contents@) == r.deep_view() + split_lines_spec(
                contents@.subrange(start, n as int),
            ),
        decreases n - i,
    {
        let c = contents.get_char(i);
        if c == '\n' {
            let ghost rest = contents@.subrange(start, n as int);
            let ghost k = i as int - start;
            let mut line = cur;
            if line.len() > 0 {
                let last_c = line[line.len() - 1];
                if last_c == '\r' {
                    line.pop();
                }
            }
            proof {
                assert(line@ == strip_cr(contents@.subrange(start, i as int)));
                assert(forall|j: int| 0 <= j < k ==> rest[j] != '\n');
                lemma_split_lines_step(rest, k);
                assert(rest.subrange(0, k) =~= contents@.subrange(start, i as int));
                assert(rest.subrange(k + 1, rest.len() as int) =~= contents@.subrange(
                    i as int + 1,
                    n as int,
                ));
            }
            let sline = string_of_chars(&line);
            let ghost r0 = r.deep_view();
            r.push(sline);
            proof {
                assert(r.deep_view() =~= r0.push(sline@));
                assert(split_lines_spec(contents@) =~= r.deep_view() + split_lines_spec(
                    contents@.subrange(i as int + 1, n as int),
                ));
                start = i as int + 1;
            }
            cur = Vec::new();
            proof {
                assert(cur@ =~= contents@.subrange(start, i as int + 1));
            }
        } else {
            cur.push(c);
            proof {
                assert(cur@ =~= contents@.subrange(start, i as int + 1));
            }
        }
        i = i + 1;
    }
    let ghost rest = contents@.subrange(start, n as int);
    proof {
        assert(cur@ == rest);
        lemma_split_lines_tail(rest);
    }
    if cur.len() > 0 {
        let sline = string_of_chars(&cur);
        let ghost r0 = r.deep_view();
        r.push(sline);
        proof {
            assert(r.deep_view() =~= r0.push(sline@));
            assert(r0 + split_lines_spec(rest) =~= r.deep_view());
        }
    } else {
        proof {
            assert(r.deep_view() + split_lines_spec(rest) =~= r.deep_view());
        }
    }
    r
}

} // verus!
