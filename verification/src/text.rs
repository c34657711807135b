//! Character sequences: the few string operations that extension matching
//! needs, each with its meaning as a function on `Seq<char>`.

use vstd::prelude::*;

verus! {

/// The ASCII lower-case form of `c`: `'A'..='Z'` move to `'a'..='z'`, every
/// other character stays.
pub open spec fn lower(c: char) -> char {
    if 'A' <= c && c <= 'Z' {
        ((c as u8) + 32) as char
    } else {
        c
    }
}

/// `s` with every character in ASCII lower case.
pub open spec fn lowered(s: Seq<char>) -> Seq<char> {
    Seq::new(s.len(), |i: int| lower(s[i]))
}

/// Computes [`lower`].
pub fn to_lower(c: char) -> (r: char)
    ensures
        r == lower(c),
{
    if 'A' <= c && c <= 'Z' {
        ((c as u8) + 32) as char
    } else {
        c
    }
}

/// The characters of `s`, one by one.
pub fn chars_of(s: &str) -> (chars: Vec<char>)
    ensures
        chars@ == s@,
{
    let n: usize = s.unicode_len();
    let mut chars: Vec<char> = Vec::new();
    let mut i: usize = 0;
    while i < n
        invariant
            n == s@.len(),
            i <= n,
            chars@ == s@.take(i as int),
        decreases n - i,
    {
        chars.push(s.get_char(i));
        assert(s@.take(i as int).push(s@[i as int]) =~= s@.take(i + 1));
        i = i + 1;
    }
    assert(s@.take(n as int) =~= s@);
    chars
}

/// `s` without the run of `c` that it starts with.
pub open spec fn without_leading(s: Seq<char>, c: char) -> Seq<char>
    decreases s.len(),
{
    if s.len() > 0 && s[0] == c {
        without_leading(s.drop_first(), c)
    } else {
        s
    }
}

/// White space as Unicode defines it (the property `White_Space`).
pub open spec fn is_space(c: char) -> bool {
    ||| '\u{9}' <= c && c <= '\u{d}'
    ||| c == ' '
    ||| c == '\u{85}'
    ||| c == '\u{a0}'
    ||| c == '\u{1680}'
    ||| '\u{2000}' <= c && c <= '\u{200a}'
    ||| c == '\u{2028}'
    ||| c == '\u{2029}'
    ||| c == '\u{202f}'
    ||| c == '\u{205f}'
    ||| c == '\u{3000}'
}

/// `s` without the white space that it starts with.
pub open spec fn without_leading_space(s: Seq<char>) -> Seq<char>
    decreases s.len(),
{
    if s.len() > 0 && is_space(s[0]) {
        without_leading_space(s.drop_first())
    } else {
        s
    }
}

/// `s` without the white space that it ends with.
pub open spec fn without_trailing_space(s: Seq<char>) -> Seq<char>
    decreases s.len(),
{
    if s.len() > 0 && is_space(s.last()) {
        without_trailing_space(s.drop_last())
    } else {
        s
    }
}

/// `s` without white space at either end.
pub open spec fn trimmed(s: Seq<char>) -> Seq<char> {
    without_trailing_space(without_leading_space(s))
}

/// The pieces of `s` between occurrences of `sep`. There is always at least
/// one piece; two separators in a row, or one at either end, give an empty
/// piece.
pub open spec fn split(s: Seq<char>, sep: char) -> Seq<Seq<char>>
    decreases s.len(),
{
    if s.len() == 0 {
        seq![Seq::<char>::empty()]
    } else {
        let before = split(s.drop_last(), sep);
        if s.last() == sep {
            before.push(Seq::<char>::empty())
        } else {
            before.update(before.len() - 1, before.last().push(s.last()))
        }
    }
}

/// What each of `parts` holds.
pub open spec fn views(parts: Seq<Vec<char>>) -> Seq<Seq<char>> {
    Seq::new(parts.len(), |i: int| parts[i]@)
}

/// The pieces one after the other, with `sep` between each two.
pub open spec fn joined(parts: Seq<Seq<char>>, sep: char) -> Seq<char>
    decreases parts.len(),
{
    if parts.len() == 0 {
        Seq::empty()
    } else if parts.len() == 1 {
        parts[0]
    } else {
        joined(parts.drop_last(), sep).push(sep) + parts.last()
    }
}

/// Splitting loses nothing: the pieces, joined by the separator, are the
/// sequence that was split.
pub proof fn lemma_split_joins(s: Seq<char>, sep: char)
    ensures
        joined(split(s, sep), sep) == s,
    decreases s.len(),
{
    lemma_split_pieces(s, sep);
    if s.len() == 0 {
        assert(split(s, sep)[0] =~= s);
    } else {
        let before = split(s.drop_last(), sep);
        lemma_split_joins(s.drop_last(), sep);
        lemma_split_pieces(s.drop_last(), sep);
        let whole = split(s, sep);
        if s.last() == sep {
            assert(whole.drop_last() =~= before);
            assert(joined(before, sep).push(sep) + whole.last() =~= s);
        } else {
            assert(whole.last() == before.last().push(s.last()));
            if before.len() == 1 {
                assert(before[0].push(s.last()) =~= s);
            } else {
                assert(whole.drop_last() =~= before.drop_last());
                assert(joined(before.drop_last(), sep).push(sep) + before.last().push(s.last())
                    =~= (joined(before.drop_last(), sep).push(sep) + before.last()).push(
                    s.last(),
                ));
                assert(s.drop_last().push(s.last()) =~= s);
            }
        }
    }
}

/// A split has at least one piece, and no piece holds the separator.
pub proof fn lemma_split_pieces(s: Seq<char>, sep: char)
    ensures
        split(s, sep).len() >= 1,
        forall|i: int, j: int|
            0 <= i < split(s, sep).len() && 0 <= j < split(s, sep)[i].len() ==> split(
                s,
                sep,
            )[i][j] != sep,
    decreases s.len(),
{
    if s.len() > 0 {
        lemma_split_pieces(s.drop_last(), sep);
    }
}

/// Lower case of lower case is lower case, and lower case goes through
/// concatenation.
pub proof fn lemma_lowered(a: Seq<char>, b: Seq<char>)
    ensures
        lowered(lowered(a)) == lowered(a),
        lowered(a + b) == lowered(a) + lowered(b),
        lowered(a).len() == a.len(),
{
    assert(lowered(lowered(a)) =~= lowered(a));
    assert(lowered(a + b) =~= lowered(a) + lowered(b));
}

/// Stripping a leading character that is no letter can be done before or
/// after the change to lower case.
pub proof fn lemma_strip_lowered(s: Seq<char>, c: char)
    requires
        !('A' <= c && c <= 'Z'),
        !('a' <= c && c <= 'z'),
    ensures
        without_leading(lowered(s), c) == lowered(without_leading(s, c)),
    decreases s.len(),
{
    if s.len() > 0 {
        assert(lowered(s)[0] == lower(s[0]));
        assert(lowered(s).drop_first() =~= lowered(s.drop_first()));
        if s[0] == c {
            lemma_strip_lowered(s.drop_first(), c);
        }
    }
}

/// Trimming can be done before or after the change to lower case.
pub proof fn lemma_trim_lowered(s: Seq<char>)
    ensures
        without_leading_space(lowered(s)) == lowered(without_leading_space(s)),
        trimmed(lowered(s)) == lowered(trimmed(s)),
    decreases s.len(),
{
    if s.len() > 0 {
        assert(lowered(s)[0] == lower(s[0]));
        assert(lowered(s).drop_first() =~= lowered(s.drop_first()));
        lemma_trim_lowered(s.drop_first());
    }
    lemma_trailing_lowered(without_leading_space(s));
}

proof fn lemma_trailing_lowered(s: Seq<char>)
    ensures
        without_trailing_space(lowered(s)) == lowered(without_trailing_space(s)),
    decreases s.len(),
{
    if s.len() > 0 {
        assert(lowered(s).last() == lower(s.last()));
        assert(lowered(s).drop_last() =~= lowered(s.drop_last()));
        lemma_trailing_lowered(s.drop_last());
    }
}

/// White space at the end of a sequence is dropped whatever stands before
/// it, as long as that is no white space itself.
pub proof fn lemma_trailing_after(c: char, s: Seq<char>)
    requires
        !is_space(c),
    ensures
        without_trailing_space(seq![c] + s) == seq![c] + without_trailing_space(s),
    decreases s.len(),
{
    let whole = seq![c] + s;
    if s.len() == 0 {
        assert(whole =~= seq![c]);
        assert(seq![c] + without_trailing_space(s) =~= seq![c]);
    } else {
        assert(whole.last() == s.last());
        assert(whole.drop_last() =~= seq![c] + s.drop_last());
        if is_space(s.last()) {
            lemma_trailing_after(c, s.drop_last());
        }
    }
}

/// Computes [`is_space`].
pub fn is_whitespace(c: char) -> (r: bool)
    ensures
        r == is_space(c),
{
    ('\u{9}' <= c && c <= '\u{d}') || c == ' ' || c == '\u{85}' || c == '\u{a0}' || c
        == '\u{1680}' || ('\u{2000}' <= c && c <= '\u{200a}') || c == '\u{2028}' || c
        == '\u{2029}' || c == '\u{202f}' || c == '\u{205f}' || c == '\u{3000}'
}

/// Copies the characters of `v` from index `from` up to, not including, `to`.
pub fn copy_range(v: &Vec<char>, from: usize, to: usize) -> (part: Vec<char>)
    requires
        from <= to <= v@.len(),
    ensures
        part@ == v@.subrange(from as int, to as int),
{
    let mut part: Vec<char> = Vec::new();
    let mut i: usize = from;
    while i < to
        invariant
            from <= i <= to <= v@.len(),
            part@ == v@.subrange(from as int, i as int),
        decreases to - i,
    {
        part.push(v[i]);
        assert(v@.subrange(from as int, i as int).push(v@[i as int]) =~= v@.subrange(
            from as int,
            i + 1,
        ));
        i = i + 1;
    }
    part
}

/// Computes [`lowered`].
pub fn to_lowered(v: &Vec<char>) -> (r: Vec<char>)
    ensures
        r@ == lowered(v@),
{
    let mut r: Vec<char> = Vec::new();
    let mut i: usize = 0;
    while i < v.len()
        invariant
            i <= v@.len(),
            r@ == lowered(v@.take(i as int)),
        decreases v@.len() - i,
    {
        r.push(to_lower(v[i]));
        assert(lowered(v@.take(i as int)).push(lower(v@[i as int])) =~= lowered(
            v@.take(i + 1),
        ));
        i = i + 1;
    }
    assert(v@.take(v@.len() as int) =~= v@);
    r
}

/// Computes [`without_leading`].
pub fn strip_leading(v: &Vec<char>, c: char) -> (r: Vec<char>)
    ensures
        r@ == without_leading(v@, c),
{
    let n: usize = v.len();
    let mut i: usize = 0;
    assert(v@.skip(0) =~= v@);
    while i < n && v[i] == c
        invariant
            n == v@.len(),
            i <= n,
            without_leading(v@, c) == without_leading(v@.skip(i as int), c),
        decreases n - i,
    {
        assert(v@.skip(i as int).drop_first() =~= v@.skip(i + 1));
        i = i + 1;
    }
    assert(v@.skip(i as int) =~= v@.subrange(i as int, n as int));
    copy_range(v, i, n)
}

/// Computes [`trimmed`].
pub fn trim(v: &Vec<char>) -> (r: Vec<char>)
    ensures
        r@ == trimmed(v@),
{
    let n: usize = v.len();
    let mut from: usize = 0;
    assert(v@.skip(0) =~= v@);
    while from < n && is_whitespace(v[from])
        invariant
            n == v@.len(),
            from <= n,
            without_leading_space(v@) == without_leading_space(v@.skip(from as int)),
        decreases n - from,
    {
        assert(v@.skip(from as int).drop_first() =~= v@.skip(from + 1));
        from = from + 1;
    }
    assert(v@.skip(from as int) =~= v@.subrange(from as int, n as int));
    let mut to: usize = n;
    while to > from && is_whitespace(v[to - 1])
        invariant
            n == v@.len(),
            from <= to <= n,
            trimmed(v@) == without_trailing_space(v@.subrange(from as int, to as int)),
        decreases to,
    {
        assert(v@.subrange(from as int, to as int).drop_last() =~= v@.subrange(
            from as int,
            to - 1,
        ));
        to = to - 1;
    }
    copy_range(v, from, to)
}

/// Computes [`split`].
pub fn split_on(v: &Vec<char>, sep: char) -> (parts: Vec<Vec<char>>)
    ensures
        views(parts@) == split(v@, sep),
{
    let n: usize = v.len();
    let mut parts: Vec<Vec<char>> = Vec::new();
    let mut current: Vec<char> = Vec::new();
    let mut i: usize = 0;
    assert(views(parts@).push(current@) =~= split(v@.take(0), sep));
    while i < n
        invariant
            n == v@.len(),
            i <= n,
            views(parts@).push(current@) == split(v@.take(i as int), sep),
        decreases n - i,
    {
        let c: char = v[i];
        let ghost before = views(parts@).push(current@);
        assert(v@.take(i + 1).drop_last() =~= v@.take(i as int));
        if c == sep {
            parts.push(current);
            current = Vec::new();
            assert(views(parts@).push(current@) =~= before.push(Seq::<char>::empty()));
        } else {
            current.push(c);
            assert(views(parts@).push(current@) =~= before.update(
                before.len() - 1,
                before.last().push(c),
            ));
        }
        i = i + 1;
    }
    assert(v@.take(n as int) =~= v@);
    let ghost before = views(parts@).push(current@);
    parts.push(current);
    assert(views(parts@) =~= before);
    parts
}

/// Whether `a` and `b` hold the same characters.
pub fn same_chars(a: &Vec<char>, b: &Vec<char>) -> (r: bool)
    ensures
        r == (a@ == b@),
{
    if a.len() != b.len() {
        return false;
    }
    let mut i: usize = 0;
    while i < a.len()
        invariant
            a@.len() == b@.len(),
            i <= a@.len(),
            a@.take(i as int) == b@.take(i as int),
        decreases a@.len() - i,
    {
        if a[i] != b[i] {
            return false;
        }
        assert(a@.take(i + 1) =~= a@.take(i as int).push(a@[i as int]));
        assert(b@.take(i + 1) =~= b@.take(i as int).push(b@[i as int]));
        i = i + 1;
    }
    assert(a@.take(a@.len() as int) =~= a@);
    assert(b@.take(b@.len() as int) =~= b@);
    true
}

} // verus!
