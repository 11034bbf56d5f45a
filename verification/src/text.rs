//! Character-level text handling: turning strings into characters and back,
//! and the two ways the chat files are cut into pieces: into lines, the way
//! a buffered reader hands them out, and into tab-separated fields.

use vstd::prelude::*;

verus! {

/// The contents of a vector of character vectors.
pub open spec fn char_rows(v: Seq<Vec<char>>) -> Seq<Seq<char>> {
    v.map_values(|x: Vec<char>| x@)
}

/// The contents of a vector of strings.
pub open spec fn string_rows(v: Seq<String>) -> Seq<Seq<char>> {
    v.map_values(|x: String| x@)
}

/// Index of the first `c` in `s`, or the length of `s` when `c` does not occur.
pub open spec fn break_at(s: Seq<char>, c: char) -> nat
    decreases s.len(),
{
    if s.len() == 0 {
        0
    } else if s[0] == c {
        0
    } else {
        1 + break_at(s.drop_first(), c)
    }
}

/// `s` cut at every `sep`, as `str::split` cuts it: there is always at least
/// one piece, and `k` separators give `k + 1` pieces.
pub open spec fn split_on(s: Seq<char>, sep: char) -> Seq<Seq<char>>
    decreases s.len(),
{
    let k = break_at(s, sep);
    if k < s.len() {
        seq![s.take(k as int)] + split_on(s.skip(k + 1 as int), sep)
    } else {
        seq![s]
    }
}

/// A line without the carriage return of a CRLF ending.
pub open spec fn strip_cr(l: Seq<char>) -> Seq<char> {
    if l.len() > 0 && l.last() == '\r' {
        l.drop_last()
    } else {
        l
    }
}

/// The lines of a text as a buffered reader yields them: cut at each `'\n'`;
/// a line ended by `"\r\n"` loses both characters; a final line without a
/// line break is kept as it is; a text that ends in `'\n'` has no empty last line.
pub open spec fn lines(s: Seq<char>) -> Seq<Seq<char>>
    decreases s.len(),
{
    if s.len() == 0 {
        seq![]
    } else {
        let k = break_at(s, '\n');
        if k < s.len() {
            seq![strip_cr(s.take(k as int))] + lines(s.skip(k + 1 as int))
        } else {
            seq![s]
        }
    }
}

/// Each of `ls` followed by a line break, all run together.
pub open spec fn join_lines(ls: Seq<Seq<char>>) -> Seq<char>
    decreases ls.len(),
{
    if ls.len() == 0 {
        seq![]
    } else {
        join_lines(ls.drop_last()) + ls.last().push('\n')
    }
}

/// A line that survives being written with a line break and read back.
pub open spec fn plain_line(l: Seq<char>) -> bool {
    &&& !l.contains('\n')
    &&& !(l.len() > 0 && l.last() == '\r')
}

/// A text to which further lines can be appended: empty, or ending in a line break.
pub open spec fn ends_line(s: Seq<char>) -> bool {
    s.len() == 0 || s.last() == '\n'
}

pub proof fn lemma_break_at(s: Seq<char>, c: char, k: int)
    requires
        0 <= k <= s.len(),
        forall|i: int| 0 <= i < k ==> s[i] != c,
        k == s.len() || s[k] == c,
    ensures
        break_at(s, c) == k,
    decreases k,
{
    if k > 0 {
        lemma_break_at(s.drop_first(), c, k - 1);
    }
}

pub proof fn lemma_break_at_bounds(s: Seq<char>, c: char)
    ensures
        break_at(s, c) <= s.len(),
        forall|i: int| 0 <= i < break_at(s, c) ==> s[i] != c,
        break_at(s, c) < s.len() ==> s[break_at(s, c) as int] == c,
    decreases s.len(),
{
    if s.len() > 0 && s[0] != c {
        lemma_break_at_bounds(s.drop_first(), c);
        assert forall|i: int| 0 <= i < break_at(s, c) implies s[i] != c by {
            if i > 0 {
                assert(s[i] == s.drop_first()[i - 1]);
            }
        }
    }
}

/// Lines read from a text never hold a line break.
pub proof fn lemma_lines_have_no_break(s: Seq<char>)
    ensures
        forall|i: int| 0 <= i < lines(s).len() ==> !(#[trigger] lines(s)[i]).contains('\n'),
    decreases s.len(),
{
    if s.len() > 0 {
        lemma_break_at_bounds(s, '\n');
        let k = break_at(s, '\n');
        if k < s.len() {
            lemma_lines_have_no_break(s.skip(k + 1 as int));
            let first = strip_cr(s.take(k as int));
            assert(!first.contains('\n')) by {
                if first.contains('\n') {
                    let j = choose|j: int| 0 <= j < first.len() && first[j] == '\n';
                    assert(s[j] == '\n');
                }
            }
            assert forall|i: int| 0 <= i < lines(s).len() implies !(#[trigger] lines(s)[i]).contains('\n') by {
                if i > 0 {
                    assert(lines(s)[i] == lines(s.skip(k + 1 as int))[i - 1]);
                }
            }
        } else {
            assert(!s.contains('\n'));
        }
    }
}

/// Reading the lines of two texts run together, where the first ends in a line
/// break, gives the lines of the first followed by those of the second.
pub proof fn lemma_lines_append(a: Seq<char>, b: Seq<char>)
    requires
        ends_line(a),
    ensures
        lines(a + b) == lines(a) + lines(b),
    decreases a.len(),
{
    if a.len() == 0 {
        assert(a + b =~= b);
        assert(lines(a) =~= Seq::<Seq<char>>::empty());
        assert(lines(b) =~= lines(a) + lines(b));
    } else {
        lemma_break_at_bounds(a, '\n');
        let k = break_at(a, '\n');
        if k == a.len() {
            assert(a[a.len() - 1] == '\n');
        }
        assert(k < a.len());
        let ab = a + b;
        assert forall|i: int| 0 <= i < k implies ab[i] != '\n' by {
            assert(ab[i] == a[i]);
        }
        assert(ab[k as int] == a[k as int]);
        lemma_break_at(ab, '\n', k as int);
        assert(ab.take(k as int) =~= a.take(k as int));
        let rest = a.skip(k + 1 as int);
        assert(ab.skip(k + 1 as int) =~= rest + b);
        if rest.len() > 0 {
            assert(rest.last() == a.last());
        }
        lemma_lines_append(rest, b);
        assert(lines(ab) =~= lines(a) + lines(b));
    }
}

/// A plain line written with its line break reads back as that one line.
pub proof fn lemma_lines_single(l: Seq<char>)
    requires
        plain_line(l),
    ensures
        lines(l.push('\n')) == seq![l],
{
    let s = l.push('\n');
    assert forall|i: int| 0 <= i < l.len() implies s[i] != '\n' by {
        assert(s[i] == l[i]);
        if l[i] == '\n' {
            assert(l.contains('\n'));
        }
    }
    lemma_break_at(s, '\n', l.len() as int);
    assert(s.take(l.len() as int) =~= l);
    assert(s.skip(l.len() + 1 as int) =~= Seq::<char>::empty());
    assert(lines(s.skip(l.len() + 1 as int)) =~= Seq::<Seq<char>>::empty());
    assert(lines(s) =~= seq![l]);
}

/// Lines joined with line breaks end in a line break (or are empty).
pub proof fn lemma_join_ends_line(ls: Seq<Seq<char>>)
    ensures
        ends_line(join_lines(ls)),
{
    if ls.len() > 0 {
        let j = join_lines(ls);
        assert(j.last() == ls.last().push('\n').last());
    }
}

/// Plain lines joined with line breaks read back as the same lines.
pub proof fn lemma_lines_join(ls: Seq<Seq<char>>)
    requires
        forall|i: int| 0 <= i < ls.len() ==> plain_line(#[trigger] ls[i]),
    ensures
        lines(join_lines(ls)) == ls,
    decreases ls.len(),
{
    if ls.len() == 0 {
        assert(lines(join_lines(ls)) =~= ls);
    } else {
        let init = ls.drop_last();
        assert forall|i: int| 0 <= i < init.len() implies plain_line(#[trigger] init[i]) by {
            assert(init[i] == ls[i]);
        }
        lemma_lines_join(init);
        lemma_join_ends_line(init);
        assert(plain_line(ls[ls.len() - 1]));
        lemma_lines_single(ls.last());
        lemma_lines_append(join_lines(init), ls.last().push('\n'));
        assert(ls =~= init + seq![ls.last()]);
    }
}

/// A text without `sep` is one piece.
pub proof fn lemma_split_single(y: Seq<char>, sep: char)
    requires
        !y.contains(sep),
    ensures
        split_on(y, sep) == seq![y],
{
    assert forall|i: int| 0 <= i < y.len() implies y[i] != sep by {
        if y[i] == sep {
            assert(y.contains(sep));
        }
    }
    lemma_break_at(y, sep, y.len() as int);
}

/// Cutting `x`, `sep`, `y` where `x` holds no `sep` gives `x`, then the pieces of `y`.
pub proof fn lemma_split_first(x: Seq<char>, y: Seq<char>, sep: char)
    requires
        !x.contains(sep),
    ensures
        split_on(x + seq![sep] + y, sep) == seq![x] + split_on(y, sep),
{
    let s = x + seq![sep] + y;
    assert forall|i: int| 0 <= i < x.len() implies s[i] != sep by {
        assert(s[i] == x[i]);
        if x[i] == sep {
            assert(x.contains(sep));
        }
    }
    assert(s[x.len() as int] == sep);
    lemma_break_at(s, sep, x.len() as int);
    assert(s.take(x.len() as int) =~= x);
    assert(s.skip(x.len() + 1 as int) =~= y);
}

/// A non-empty text without a line break is read as that one line.
pub proof fn lemma_lines_unbroken(l: Seq<char>)
    requires
        l.len() > 0,
        !l.contains('\n'),
    ensures
        lines(l) == seq![l],
{
    assert forall|i: int| 0 <= i < l.len() implies l[i] != '\n' by {
        if l[i] == '\n' {
            assert(l.contains('\n'));
        }
    }
    lemma_break_at(l, '\n', l.len() as int);
}

/// Joining puts each line's break after it: one line, then the rest.
pub proof fn lemma_join_prepend(l: Seq<char>, ls: Seq<Seq<char>>)
    ensures
        join_lines(seq![l] + ls) == l.push('\n') + join_lines(ls),
    decreases ls.len(),
{
    if ls.len() == 0 {
        let all = seq![l] + ls;
        assert(all.drop_last() =~= Seq::<Seq<char>>::empty());
        assert(all.last() == l);
        assert(join_lines(all) == join_lines(all.drop_last()) + all.last().push('\n'));
        assert(join_lines(all.drop_last()) =~= Seq::<char>::empty());
        assert(join_lines(all) =~= l.push('\n') + join_lines(ls));
    } else {
        lemma_join_prepend(l, ls.drop_last());
        let all = seq![l] + ls;
        assert(all.drop_last() =~= seq![l] + ls.drop_last());
        assert(all.last() == ls.last());
        assert(join_lines(all) == join_lines(all.drop_last()) + all.last().push('\n'));
        assert(join_lines(ls) == join_lines(ls.drop_last()) + ls.last().push('\n'));
        assert(join_lines(all) =~= l.push('\n') + join_lines(ls));
    }
}

/// A text without carriage returns that ends in a line break is its lines
/// joined again.
pub proof fn lemma_join_lines_of(s: Seq<char>)
    requires
        ends_line(s),
        !s.contains('\r'),
    ensures
        join_lines(lines(s)) == s,
    decreases s.len(),
{
    if s.len() == 0 {
        assert(join_lines(lines(s)) =~= s);
    } else {
        lemma_break_at_bounds(s, '\n');
        let k = break_at(s, '\n');
        if k == s.len() {
            assert(s[s.len() - 1] == '\n');
        }
        let first = s.take(k as int);
        let rest = s.skip(k + 1 as int);
        if first.len() > 0 && first.last() == '\r' {
            assert(s[k - 1] == '\r');
            assert(s.contains('\r'));
        }
        assert(!rest.contains('\r')) by {
            if rest.contains('\r') {
                let j = choose|j: int| 0 <= j < rest.len() && rest[j] == '\r';
                assert(s[k + 1 + j] == '\r');
            }
        }
        if rest.len() > 0 {
            assert(rest.last() == s.last());
        }
        lemma_join_lines_of(rest);
        lemma_join_prepend(first, lines(rest));
        assert(s =~= first.push('\n') + rest);
    }
}

/// Index of the first `c` at or after `start`, or the length when there is none.
fn find_from(cs: &Vec<char>, start: usize, c: char) -> (k: usize)
    requires
        start <= cs.len(),
    ensures
        start <= k <= cs.len(),
        k - start == break_at(cs@.skip(start as int), c),
{
    let mut j = start;
    while j < cs.len() && cs[j] != c
        invariant
            start <= j <= cs.len(),
            forall|i: int| start <= i < j ==> cs@[i] != c,
        decreases cs.len() - j,
    {
        j = j + 1;
    }
    proof {
        let s = cs@.skip(start as int);
        assert forall|i: int| 0 <= i < j - start implies s[i] != c by {
            assert(s[i] == cs@[start + i]);
        }
        lemma_break_at(s, c, j - start);
    }
    j
}

/// Appends one character to a string (`String::push`).
#[verifier::external_body]
pub(crate) fn push_char(s: &mut String, c: char)
    ensures
        final(s)@ == old(s)@.push(c),
{
    s.push(c);
}

/// Appends characters to a string.
pub fn push_chars(s: &mut String, cs: &Vec<char>)
    ensures
        final(s)@ == old(s)@ + cs@,
{
    let mut i: usize = 0;
    while i < cs.len()
        invariant
            i <= cs.len(),
            s@ == old(s)@ + cs@.take(i as int),
        decreases cs.len() - i,
    {
        push_char(s, cs[i]);
        assert(cs@.take(i + 1) == cs@.take(i as int).push(cs@[i as int]));
        i = i + 1;
    }
    assert(cs@.take(cs.len() as int) =~= cs@);
}

/// The characters of a string, in order.
pub fn chars_of(s: &str) -> (r: Vec<char>)
    ensures
        r@ == s@,
{
    let mut r: Vec<char> = Vec::new();
    for c in it: s.chars()
        invariant
            it.seq() == s@,
            r@ == it.seq().take(it.index()),
    {
        r.push(c);
    }
    r
}

/// The characters `cs[lo..hi]` as a string.
pub fn string_of(cs: &Vec<char>, lo: usize, hi: usize) -> (r: String)
    requires
        lo <= hi <= cs.len(),
    ensures
        r@ == cs@.subrange(lo as int, hi as int),
{
    let mut r = String::new();
    let mut i = lo;
    while i < hi
        invariant
            lo <= i <= hi <= cs.len(),
            r@ == cs@.subrange(lo as int, i as int),
        decreases hi - i,
    {
        push_char(&mut r, cs[i]);
        assert(cs@.subrange(lo as int, i + 1) == cs@.subrange(lo as int, i as int).push(cs@[i as int]));
        i = i + 1;
    }
    r
}

/// The characters `cs[lo..hi]` as a vector.
fn slice_of(cs: &Vec<char>, lo: usize, hi: usize) -> (r: Vec<char>)
    requires
        lo <= hi <= cs.len(),
    ensures
        r@ == cs@.subrange(lo as int, hi as int),
{
    let mut r: Vec<char> = Vec::new();
    let mut i = lo;
    while i < hi
        invariant
            lo <= i <= hi <= cs.len(),
            r@ == cs@.subrange(lo as int, i as int),
        decreases hi - i,
    {
        r.push(cs[i]);
        assert(cs@.subrange(lo as int, i + 1) == cs@.subrange(lo as int, i as int).push(cs@[i as int]));
        i = i + 1;
    }
    r
}

/// Whether two character vectors hold the same characters.
pub fn same_chars(a: &Vec<char>, b: &Vec<char>) -> (r: bool)
    ensures
        r == (a@ == b@),
{
    if a.len() != b.len() {
        return false;
    }
    let mut i: usize = 0;
    while i < a.len()
        invariant
            a.len() == b.len(),
            i <= a.len(),
            forall|j: int| 0 <= j < i ==> a@[j] == b@[j],
        decreases a.len() - i,
    {
        if a[i] != b[i] {
            return false;
        }
        i = i + 1;
    }
    assert(a@ =~= b@);
    true
}

/// The lines of a text (see [`lines`]).
pub fn lines_of(cs: &Vec<char>) -> (r: Vec<Vec<char>>)
    ensures
        char_rows(r@) == lines(cs@),
{
    let mut r: Vec<Vec<char>> = Vec::new();
    let mut start: usize = 0;
    assert(cs@.skip(0) =~= cs@);
    while start < cs.len()
        invariant
            start <= cs.len(),
            lines(cs@) == char_rows(r@) + lines(cs@.skip(start as int)),
        decreases cs.len() - start,
    {
        let ghost s = cs@.skip(start as int);
        let k = find_from(cs, start, '\n');
        let ghost before = char_rows(r@);
        if k < cs.len() {
            let end = if k > start && cs[k - 1] == '\r' { k - 1 } else { k };
            let line = slice_of(cs, start, end);
            proof {
                assert(s.take(k - start) =~= cs@.subrange(start as int, k as int));
                assert(s.skip(k - start + 1) =~= cs@.skip(k + 1));
                assert(strip_cr(s.take(k - start)) =~= line@);
            }
            r.push(line);
            start = k + 1;
        } else {
            let line = slice_of(cs, start, cs.len());
            proof {
                assert(s =~= line@);
                assert(cs@.skip(cs.len() as int) =~= Seq::<char>::empty());
            }
            r.push(line);
            start = cs.len();
        }
        assert(char_rows(r@) =~= before.push(r@.last()@));
    }
    assert(cs@.skip(start as int) =~= Seq::<char>::empty());
    r
}

/// The tab-separated fields of a line (see [`split_on`]).
pub fn fields_of(cs: &Vec<char>) -> (r: Vec<String>)
    ensures
        string_rows(r@) == split_on(cs@, '\t'),
        r.len() >= 1,
{
    let mut r: Vec<String> = Vec::new();
    let mut start: usize = 0;
    assert(cs@.skip(0) =~= cs@);
    loop
        invariant_except_break
            start <= cs.len(),
            split_on(cs@, '\t') == string_rows(r@) + split_on(cs@.skip(start as int), '\t'),
        ensures
            string_rows(r@) == split_on(cs@, '\t'),
            r.len() >= 1,
        decreases cs.len() - start,
    {
        let ghost s = cs@.skip(start as int);
        let ghost before = string_rows(r@);
        let k = find_from(cs, start, '\t');
        if k < cs.len() {
            let field = string_of(cs, start, k);
            proof {
                assert(s.take(k - start) =~= cs@.subrange(start as int, k as int));
                assert(s.skip(k - start + 1) =~= cs@.skip(k + 1));
            }
            r.push(field);
            assert(string_rows(r@) =~= before.push(field@));
            start = k + 1;
        } else {
            let field = string_of(cs, start, cs.len());
            assert(s =~= field@);
            r.push(field);
            assert(string_rows(r@) =~= before.push(field@));
            break;
        }
    }
    r
}

} // verus!
