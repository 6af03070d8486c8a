//! Character-level helpers shared by the parser, the assembler and the
//! translator: conversions between strings and character vectors, blank
//! detection, searching, and decimal numbers.

use vstd::prelude::*;
use vstd::std_specs::iter::IteratorSpec;

verus! {

/// `String::push` appends one character to the end of the string.
pub assume_specification[ String::push ](s: &mut String, c: char)
    ensures
        final(s)@ == old(s)@.push(c),
;

/// The characters of a string slice, in order.
pub fn to_chars(s: &str) -> (r: Vec<char>)
    ensures
        r@ == s@,
{
    let mut r: Vec<char> = Vec::new();
    for c in it: s.chars()
        invariant
            r@ == it.seq().take(it.index() as int),
            it.seq() == s@,
    {
        r.push(c);
    }
    r
}

/// The string made of the characters `v[from..to]`.
pub fn to_string(v: &Vec<char>, from: usize, to: usize) -> (r: String)
    requires
        from <= to <= v.len(),
    ensures
        r@ == v@.subrange(from as int, to as int),
{
    let mut r = String::new();
    let mut i: usize = from;
    while i < to
        invariant
            from <= i <= to <= v.len(),
            r@ == v@.subrange(from as int, i as int),
        decreases to - i,
    {
        r.push(v[i]);
        i += 1;
    }
    r
}

/// The string made of the characters of `v`.
pub fn string_of(v: &Vec<char>) -> (r: String)
    ensures
        r@ == v@,
{
    assert(v@.subrange(0, v.len() as int) == v@);
    to_string(v, 0, v.len())
}

/// Whether a character is blank: the characters with the Unicode property
/// `White_Space`.
pub open spec fn is_blank(c: char) -> bool {
    ||| ('\u{9}' <= c && c <= '\u{d}')
    ||| c == ' '
    ||| c == '\u{85}'
    ||| c == '\u{a0}'
    ||| c == '\u{1680}'
    ||| ('\u{2000}' <= c && c <= '\u{200a}')
    ||| c == '\u{2028}'
    ||| c == '\u{2029}'
    ||| c == '\u{202f}'
    ||| c == '\u{205f}'
    ||| c == '\u{3000}'
}

/// Whether a character is blank.
pub fn blank(c: char) -> (r: bool)
    ensures
        r == is_blank(c),
{
    ('\u{9}' <= c && c <= '\u{d}') || c == ' ' || c == '\u{85}' || c == '\u{a0}' || c
        == '\u{1680}' || ('\u{2000}' <= c && c <= '\u{200a}') || c == '\u{2028}' || c
        == '\u{2029}' || c == '\u{202f}' || c == '\u{205f}' || c == '\u{3000}'
}

/// Whether two character vectors hold the same characters.
pub fn same(a: &Vec<char>, b: &Vec<char>) -> (r: bool)
    ensures
        r == (a@ == b@),
{
    if a.len() != b.len() {
        return false;
    }
    let mut i: usize = 0;
    while i < a.len()
        invariant
            i <= a.len(),
            a.len() == b.len(),
            a@.take(i as int) == b@.take(i as int),
        decreases a.len() - i,
    {
        if a[i] != b[i] {
            return false;
        }
        assert(a@.take(i + 1) == a@.take(i as int).push(a@[i as int]));
        assert(b@.take(i + 1) == b@.take(i as int).push(b@[i as int]));
        i += 1;
    }
    assert(a@ == a@.take(a.len() as int));
    assert(b@ == b@.take(b.len() as int));
    true
}

/// Whether a character vector spells the given text.
pub fn is_text(a: &Vec<char>, t: &str) -> (r: bool)
    ensures
        r == (a@ == t@),
{
    let b = to_chars(t);
    same(a, &b)
}


/// The characters `v[from..to]` as a vector of their own.
pub fn slice(v: &Vec<char>, from: usize, to: usize) -> (r: Vec<char>)
    requires
        from <= to <= v.len(),
    ensures
        r@ == v@.subrange(from as int, to as int),
{
    let mut r: Vec<char> = Vec::new();
    let mut i: usize = from;
    while i < to
        invariant
            from <= i <= to <= v.len(),
            r@ == v@.subrange(from as int, i as int),
        decreases to - i,
    {
        r.push(v[i]);
        i += 1;
    }
    r
}

/// The position of the first `c` in `s`, or the length of `s` if it holds none.
pub open spec fn find(s: Seq<char>, c: char) -> nat
    decreases s.len(),
{
    if s.len() == 0 || s[0] == c {
        0
    } else {
        1 + find(s.drop_first(), c)
    }
}

/// `find` is the one position before which no `c` stands and at which one
/// does, or the text ends.
pub proof fn lemma_find(s: Seq<char>, c: char, k: int)
    requires
        0 <= k <= s.len(),
        forall|j: int| 0 <= j < k ==> s[j] != c,
        k == s.len() || s[k] == c,
    ensures
        find(s, c) == k,
    decreases k,
{
    if k > 0 {
        lemma_find(s.drop_first(), c, k - 1);
    }
}

/// The position of the first `c`, or the length if there is none.
pub fn find_char(v: &Vec<char>, c: char) -> (r: usize)
    ensures
        r == find(v@, c),
        r <= v.len(),
{
    let mut i: usize = 0;
    while i < v.len() && v[i] != c
        invariant
            i <= v.len(),
            forall|j: int| 0 <= j < i ==> v@[j] != c,
        decreases v.len() - i,
    {
        i += 1;
    }
    proof {
        lemma_find(v@, c, i as int);
    }
    i
}

/// The position at which the first `//` of `s` begins, or the length of `s`
/// if it holds none.
pub open spec fn comment_start(s: Seq<char>) -> nat
    decreases s.len(),
{
    if s.len() < 2 {
        s.len()
    } else if s[0] == '/' && s[1] == '/' {
        0
    } else {
        1 + comment_start(s.drop_first())
    }
}

/// Whether `//` begins at a position of a text.
pub open spec fn comment_at(s: Seq<char>, j: int) -> bool {
    0 <= j && j + 1 < s.len() && s[j] == '/' && s[j + 1] == '/'
}

/// `comment_start` is the one position before which no `//` begins and at
/// which one does, or the text ends.
pub proof fn lemma_comment_start(s: Seq<char>, k: int)
    requires
        0 <= k <= s.len(),
        forall|j: int| 0 <= j < k ==> !comment_at(s, j),
        k == s.len() || comment_at(s, k),
    ensures
        comment_start(s) == k,
    decreases k,
{
    if s.len() < 2 {
        assert(!comment_at(s, 0));
    } else if k > 0 {
        assert(!comment_at(s, 0));
        let t = s.drop_first();
        assert forall|j: int| 0 <= j < k - 1 implies !comment_at(t, j) by {
            assert(!comment_at(s, j + 1));
        }
        assert(k - 1 == t.len() || comment_at(t, k - 1));
        lemma_comment_start(t, k - 1);
    }
}

/// The position at which the first `//` begins, or the length if there is
/// none.
pub fn find_comment(v: &Vec<char>) -> (r: usize)
    ensures
        r == comment_start(v@),
        r <= v.len(),
{
    let mut i: usize = 0;
    while i < v.len() && !(i + 1 < v.len() && v[i] == '/' && v[i + 1] == '/')
        invariant
            i <= v.len(),
            forall|j: int| 0 <= j < i ==> !comment_at(v@, j),
        decreases v.len() - i,
    {
        i += 1;
    }
    proof {
        lemma_comment_start(v@, i as int);
    }
    i
}

/// The text with what follows the first `//`, and that `//`, cut off.
pub open spec fn without_comment(s: Seq<char>) -> Seq<char> {
    s.take(comment_start(s) as int)
}

/// The text with every blank character taken out.
pub open spec fn strip_blanks(s: Seq<char>) -> Seq<char>
    decreases s.len(),
{
    if s.len() == 0 {
        s
    } else if is_blank(s.last()) {
        strip_blanks(s.drop_last())
    } else {
        strip_blanks(s.drop_last()).push(s.last())
    }
}

/// The characters that are not blank.
pub fn strip(v: &Vec<char>) -> (r: Vec<char>)
    ensures
        r@ == strip_blanks(v@),
{
    let mut r: Vec<char> = Vec::new();
    let mut i: usize = 0;
    while i < v.len()
        invariant
            i <= v.len(),
            r@ == strip_blanks(v@.take(i as int)),
        decreases v.len() - i,
    {
        assert(v@.take(i + 1).drop_last() == v@.take(i as int));
        if !blank(v[i]) {
            r.push(v[i]);
        }
        i += 1;
    }
    assert(v@.take(v.len() as int) == v@);
    r
}


/// What each vector of a list of character vectors holds.
pub open spec fn rows(v: Seq<Vec<char>>) -> Seq<Seq<char>> {
    Seq::new(v.len(), |i: int| v[i]@)
}

/// The words of a text: its longest runs of characters that are not blank,
/// in order.
pub open spec fn words(s: Seq<char>) -> Seq<Seq<char>>
    decreases s.len(),
{
    if s.len() == 0 {
        Seq::empty()
    } else {
        let rest = words(s.drop_first());
        if is_blank(s[0]) {
            rest
        } else if s.len() > 1 && !is_blank(s[1]) && rest.len() > 0 {
            rest.update(0, seq![s[0]] + rest[0])
        } else {
            seq![seq![s[0]]] + rest
        }
    }
}

/// A text that begins with `n` characters that are not blank, followed by a
/// blank or by nothing, has these `n` characters as its first word.
pub proof fn lemma_first_word(s: Seq<char>, n: int)
    requires
        0 < n <= s.len(),
        forall|j: int| 0 <= j < n ==> !is_blank(s[j]),
        n == s.len() || is_blank(s[n]),
    ensures
        words(s) == seq![s.take(n)] + words(s.skip(n)),
    decreases n,
{
    let t = s.drop_first();
    if n == 1 {
        assert(s.take(1) == seq![s[0]]);
        assert(s.skip(1) == t);
        if s.len() > 1 {
            assert(is_blank(s[1]));
        }
    } else {
        lemma_first_word(t, n - 1);
        assert(t.skip(n - 1) == s.skip(n));
        assert(seq![s[0]] + t.take(n - 1) == s.take(n));
        assert(words(t)[0] == t.take(n - 1));
        assert(words(s) == words(t).update(0, s.take(n)));
        assert(words(s) == seq![s.take(n)] + words(s.skip(n)));
    }
}

/// The words of a text.
pub fn split_words(v: &Vec<char>) -> (r: Vec<Vec<char>>)
    ensures
        rows(r@) == words(v@),
{
    let mut r: Vec<Vec<char>> = Vec::new();
    let mut i: usize = 0;
    assert(v@.skip(0) == v@);
    while i < v.len()
        invariant
            i <= v.len(),
            words(v@) == rows(r@) + words(v@.skip(i as int)),
        decreases v.len() - i,
    {
        let ghost tail = v@.skip(i as int);
        if blank(v[i]) {
            assert(tail.drop_first() == v@.skip(i + 1));
            i += 1;
        } else {
            let mut j: usize = i + 1;
            while j < v.len() && !blank(v[j])
                invariant
                    i < j <= v.len(),
                    forall|k: int| i <= k < j ==> !is_blank(v@[k]),
                decreases v.len() - j,
            {
                j += 1;
            }
            let w = slice(v, i, j);
            proof {
                lemma_first_word(tail, j - i);
                assert(tail.take(j - i) == w@);
                assert(tail.skip(j - i) == v@.skip(j as int));
                assert(rows(r@.push(w)) == rows(r@) + seq![w@]);
            }
            r.push(w);
            i = j;
        }
    }
    assert(rows(r@) + Seq::<Seq<char>>::empty() == rows(r@));
    r
}

/// A line without the carriage return that may end it.
pub open spec fn chomp(s: Seq<char>) -> Seq<char> {
    if s.len() > 0 && s.last() == '\r' {
        s.drop_last()
    } else {
        s
    }
}

/// The lines of a text. A line ends at a line feed, which is not part of it,
/// nor is a carriage return just before that line feed. What follows the last
/// line feed is a line too, unless it is empty.
pub open spec fn lines(s: Seq<char>) -> Seq<Seq<char>>
    decreases s.len(),
{
    if s.len() == 0 {
        Seq::empty()
    } else {
        let k = find(s, '\n');
        if k >= s.len() {
            seq![s]
        } else {
            seq![chomp(s.take(k as int))] + lines(s.skip(k as int + 1))
        }
    }
}

/// The lines of a text.
pub fn split_lines(v: &Vec<char>) -> (r: Vec<Vec<char>>)
    ensures
        rows(r@) == lines(v@),
{
    let mut r: Vec<Vec<char>> = Vec::new();
    let mut i: usize = 0;
    assert(v@.skip(0) == v@);
    while i < v.len()
        invariant
            i <= v.len(),
            lines(v@) == rows(r@) + lines(v@.skip(i as int)),
        decreases v.len() - i,
    {
        let ghost tail = v@.skip(i as int);
        let mut j: usize = i;
        while j < v.len() && v[j] != '\n'
            invariant
                i <= j <= v.len(),
                forall|k: int| i <= k < j ==> v@[k] != '\n',
            decreases v.len() - j,
        {
            j += 1;
        }
        proof {
            lemma_find(tail, '\n', j - i);
        }
        if j == v.len() {
            let w = slice(v, i, j);
            proof {
                assert(w@ == tail);
                assert(rows(r@.push(w)) == rows(r@) + seq![w@]);
                assert(v@.skip(j as int).len() == 0);
                assert(lines(v@.skip(j as int)) == Seq::<Seq<char>>::empty());
                assert(seq![tail] + Seq::<Seq<char>>::empty() == seq![tail]);
            }
            r.push(w);
            i = j;
        } else {
            let end = if j > i && v[j - 1] == '\r' {
                j - 1
            } else {
                j
            };
            let w = slice(v, i, end);
            proof {
                assert(tail.take(j - i) == v@.subrange(i as int, j as int));
                assert(chomp(tail.take(j - i)) == w@);
                assert(tail.skip(j - i + 1) == v@.skip(j + 1));
                assert(rows(r@.push(w)) == rows(r@) + seq![w@]);
            }
            r.push(w);
            i = j + 1;
        }
    }
    assert(rows(r@) + Seq::<Seq<char>>::empty() == rows(r@));
    r
}

} // verus!
