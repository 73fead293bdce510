//! Character-level text primitives: whitespace, trimming, searching and
//! line splitting, each with its mathematical meaning on `Seq<char>`.

use vstd::prelude::*;

verus! {

/// `String::push` of the standard library: appends one character at the end
/// of the string and leaves the rest as it was.
pub assume_specification[ String::push ](s: &mut String, ch: char)
    ensures
        final(s)@ == old(s)@.push(ch),
;

/// Whether `c` has the Unicode property `White_Space`.
pub open spec fn is_space(c: char) -> bool {
    ||| c == ' '
    ||| ('\u{9}' <= c && c <= '\u{d}')
    ||| c == '\u{85}'
    ||| c == '\u{a0}'
    ||| c == '\u{1680}'
    ||| ('\u{2000}' <= c && c <= '\u{200a}')
    ||| c == '\u{2028}'
    ||| c == '\u{2029}'
    ||| c == '\u{202f}'
    ||| c == '\u{205f}'
    ||| c == '\u{3000}'
}

/// Executable form of [`is_space`].
pub fn is_space_char(c: char) -> (r: bool)
    ensures
        r == is_space(c),
{
    c == ' ' || ('\u{9}' <= c && c <= '\u{d}') || c == '\u{85}' || c == '\u{a0}' || c == '\u{1680}'
        || ('\u{2000}' <= c && c <= '\u{200a}') || c == '\u{2028}' || c == '\u{2029}' || c
        == '\u{202f}' || c == '\u{205f}' || c == '\u{3000}'
}

/// The characters of `s`, in order.
pub fn to_chars(s: &str) -> (r: Vec<char>)
    ensures
        r@ == s@,
{
    let mut out: Vec<char> = Vec::new();
    for c in it: s.chars()
        invariant
            it.seq() == s@,
            out@ == s@.take(it.index() as int),
    {
        out.push(c);
        proof {
            assert(s@.take(it.index() + 1) =~= s@.take(it.index() as int).push(c));
        }
    }
    proof {
        assert(s@.take(s@.len() as int) =~= s@);
    }
    out
}

/// Appends `text[from..to]` to `out`.
pub fn push_range(out: &mut String, text: &Vec<char>, from: usize, to: usize)
    requires
        from <= to <= text@.len(),
    ensures
        final(out)@ == old(out)@ + text@.subrange(from as int, to as int),
{
    let mut i: usize = from;
    while i < to
        invariant
            from <= i <= to <= text@.len(),
            out@ == old(out)@ + text@.subrange(from as int, i as int),
        decreases to - i,
    {
        out.push(text[i]);
        proof {
            assert(text@.subrange(from as int, i + 1) =~= text@.subrange(from as int, i as int).push(
                text@[i as int],
            ));
        }
        i += 1;
    }
}

/// `text[from..to]` as a string.
pub fn range_to_string(text: &Vec<char>, from: usize, to: usize) -> (r: String)
    requires
        from <= to <= text@.len(),
    ensures
        r@ == text@.subrange(from as int, to as int),
{
    let mut out = String::new();
    push_range(&mut out, text, from, to);
    proof {
        assert(Seq::<char>::empty() + text@.subrange(from as int, to as int) =~= text@.subrange(
            from as int,
            to as int,
        ));
    }
    out
}

/// Index of the first occurrence of `c` in `s`, or `s.len()` where there is none.
pub open spec fn index_of(s: Seq<char>, c: char) -> nat
    decreases s.len(),
{
    if s.len() == 0 || s[0] == c {
        0
    } else {
        1 + index_of(s.drop_first(), c)
    }
}

/// `index_of` is the one position before which `c` does not occur and at
/// which it does, or the length.
pub proof fn lemma_index_of(s: Seq<char>, c: char, e: int)
    requires
        0 <= e <= s.len(),
        forall|k: int| 0 <= k < e ==> s[k] != c,
        e < s.len() ==> s[e] == c,
    ensures
        index_of(s, c) == e,
    decreases s.len(),
{
    if s.len() != 0 && s[0] != c {
        lemma_index_of(s.drop_first(), c, e - 1);
    }
}

/// `index_of` stays within the sequence, points at `c` where it is inside,
/// and nothing before it is `c`.
pub proof fn lemma_index_of_bounds(s: Seq<char>, c: char)
    ensures
        index_of(s, c) <= s.len(),
        index_of(s, c) < s.len() ==> s[index_of(s, c) as int] == c,
        forall|k: int| 0 <= k < index_of(s, c) ==> s[k] != c,
    decreases s.len(),
{
    if s.len() != 0 && s[0] != c {
        lemma_index_of_bounds(s.drop_first(), c);
        assert forall|k: int| 0 <= k < index_of(s, c) implies s[k] != c by {
            if k > 0 {
                assert(s[k] == s.drop_first()[k - 1]);
            }
        }
    }
}

/// Position of the first `c` in `text[from..to]`, or `to` where there is none.
pub fn find_char(text: &Vec<char>, from: usize, to: usize, c: char) -> (r: usize)
    requires
        from <= to <= text@.len(),
    ensures
        from <= r <= to,
        r == from + index_of(text@.subrange(from as int, to as int), c),
{
    let mut i: usize = from;
    while i < to && text[i] != c
        invariant
            from <= i <= to <= text@.len(),
            forall|k: int| from <= k < i ==> text@[k] != c,
        decreases to - i,
    {
        i += 1;
    }
    proof {
        lemma_index_of(text@.subrange(from as int, to as int), c, i - from);
    }
    i
}

/// `s` without its leading white space.
pub open spec fn trim_start(s: Seq<char>) -> Seq<char>
    decreases s.len(),
{
    if s.len() > 0 && is_space(s[0]) {
        trim_start(s.drop_first())
    } else {
        s
    }
}

/// `s` without its trailing white space.
pub open spec fn trim_end(s: Seq<char>) -> Seq<char>
    decreases s.len(),
{
    if s.len() > 0 && is_space(s.last()) {
        trim_end(s.drop_last())
    } else {
        s
    }
}

/// `s` without white space at either end.
pub open spec fn trim(s: Seq<char>) -> Seq<char> {
    trim_start(trim_end(s))
}

/// The bounds of `text[from..to]` once trimmed at both ends.
pub fn trim_range(text: &Vec<char>, from: usize, to: usize) -> (r: (usize, usize))
    requires
        from <= to <= text@.len(),
    ensures
        from <= r.0 <= r.1 <= to,
        text@.subrange(r.0 as int, r.1 as int) == trim(text@.subrange(from as int, to as int)),
{
    let mut b: usize = to;
    while b > from && is_space_char(text[b - 1])
        invariant
            from <= b <= to <= text@.len(),
            trim_end(text@.subrange(from as int, to as int)) == trim_end(
                text@.subrange(from as int, b as int),
            ),
        decreases b,
    {
        proof {
            assert(text@.subrange(from as int, b as int).drop_last() =~= text@.subrange(
                from as int,
                b - 1,
            ));
        }
        b -= 1;
    }
    let mut a: usize = from;
    while a < b && is_space_char(text[a])
        invariant
            from <= a <= b <= to <= text@.len(),
            trim(text@.subrange(from as int, to as int)) == trim_start(
                text@.subrange(a as int, b as int),
            ),
        decreases b - a,
    {
        proof {
            assert(text@.subrange(a as int, b as int).drop_first() =~= text@.subrange(
                a + 1,
                b as int,
            ));
        }
        a += 1;
    }
    (a, b)
}

/// Whether `s` begins with `p`.
pub open spec fn has_prefix(s: Seq<char>, p: Seq<char>) -> bool {
    p.len() <= s.len() && s.take(p.len() as int) == p
}

/// Whether `s` ends with `p`.
pub open spec fn has_suffix(s: Seq<char>, p: Seq<char>) -> bool {
    p.len() <= s.len() && s.skip(s.len() - p.len()) == p
}

/// Whether `text[from..to]` begins with `pattern`.
pub fn range_starts_with(text: &Vec<char>, from: usize, to: usize, pattern: &Vec<char>) -> (r:
    bool)
    requires
        from <= to <= text@.len(),
    ensures
        r == has_prefix(text@.subrange(from as int, to as int), pattern@),
{
    let n = pattern.len();
    if to - from < n {
        return false;
    }
    let ghost s = text@.subrange(from as int, to as int);
    let mut i: usize = 0;
    while i < n
        invariant
            from <= to <= text@.len(),
            n == pattern@.len(),
            n <= to - from,
            i <= n,
            s == text@.subrange(from as int, to as int),
            forall|k: int| 0 <= k < i ==> s[k] == pattern@[k],
        decreases n - i,
    {
        if text[from + i] != pattern[i] {
            proof {
                assert(s.take(n as int)[i as int] == s[i as int]);
            }
            return false;
        }
        i += 1;
    }
    proof {
        assert(s.take(n as int) =~= pattern@);
    }
    true
}

/// Whether `text[from..to]` ends with `pattern`.
pub fn range_ends_with(text: &Vec<char>, from: usize, to: usize, pattern: &Vec<char>) -> (r: bool)
    requires
        from <= to <= text@.len(),
    ensures
        r == has_suffix(text@.subrange(from as int, to as int), pattern@),
{
    let n = pattern.len();
    if to - from < n {
        return false;
    }
    let ghost s = text@.subrange(from as int, to as int);
    let base: usize = to - n;
    let mut i: usize = 0;
    while i < n
        invariant
            from <= to <= text@.len(),
            n == pattern@.len(),
            n <= to - from,
            base == to - n,
            i <= n,
            s == text@.subrange(from as int, to as int),
            forall|k: int| 0 <= k < i ==> s[s.len() - n + k] == pattern@[k],
        decreases n - i,
    {
        if text[base + i] != pattern[i] {
            proof {
                assert(s.skip(s.len() - n)[i as int] == s[s.len() - n + i]);
            }
            return false;
        }
        i += 1;
    }
    proof {
        assert(s.skip(s.len() - n) =~= pattern@);
    }
    true
}

/// A copy of `text[from..to]`.
pub fn copy_range(text: &Vec<char>, from: usize, to: usize) -> (r: Vec<char>)
    requires
        from <= to <= text@.len(),
    ensures
        r@ == text@.subrange(from as int, to as int),
{
    let mut out: Vec<char> = Vec::new();
    let mut i: usize = from;
    while i < to
        invariant
            from <= i <= to <= text@.len(),
            out@ == text@.subrange(from as int, i as int),
        decreases to - i,
    {
        out.push(text[i]);
        proof {
            assert(text@.subrange(from as int, i + 1) =~= text@.subrange(from as int, i as int).push(
                text@[i as int],
            ));
        }
        i += 1;
    }
    out
}

/// `line` without one carriage return at its end, if it has one.
pub open spec fn strip_cr(line: Seq<char>) -> Seq<char> {
    if line.len() > 0 && line.last() == '\r' {
        line.drop_last()
    } else {
        line
    }
}

/// The lines of `s`. A line ends at a line feed, or at a carriage return
/// directly followed by one; the terminator is no part of the line. What
/// follows the last line feed is a line only if it is not empty, and keeps a
/// carriage return at its end.
pub open spec fn split_lines(s: Seq<char>) -> Seq<Seq<char>>
    decreases s.len(),
{
    if s.len() == 0 {
        Seq::empty()
    } else {
        let e = index_of(s, '\n');
        if e >= s.len() {
            seq![s]
        } else {
            seq![strip_cr(s.take(e as int))] + split_lines(s.skip(e as int + 1))
        }
    }
}

/// The contents of a vector of lines.
pub open spec fn line_views(lines: Seq<Vec<char>>) -> Seq<Seq<char>> {
    lines.map_values(|l: Vec<char>| l@)
}

/// Splits `text` into its lines.
pub fn lines_of(text: &Vec<char>) -> (r: Vec<Vec<char>>)
    ensures
        line_views(r@) == split_lines(text@),
{
    let n = text.len();
    let mut out: Vec<Vec<char>> = Vec::new();
    let mut pos: usize = 0;
    proof {
        assert(text@.skip(0) =~= text@);
        assert(line_views(out@) + split_lines(text@) =~= split_lines(text@));
    }
    while pos < n
        invariant
            n == text@.len(),
            pos <= n,
            split_lines(text@) == line_views(out@) + split_lines(text@.skip(pos as int)),
        decreases n - pos,
    {
        let ghost rest = text@.skip(pos as int);
        let ghost before = line_views(out@);
        let e = find_char(text, pos, n, '\n');
        proof {
            assert(text@.subrange(pos as int, n as int) =~= rest);
        }
        if e >= n {
            let line = copy_range(text, pos, n);
            out.push(line);
            proof {
                assert(line@ =~= rest);
                assert(line_views(out@) =~= before.push(rest));
                assert(split_lines(text@.skip(n as int)) =~= Seq::<Seq<char>>::empty());
                assert(before + seq![rest] =~= before.push(rest) + Seq::<Seq<char>>::empty());
            }
            pos = n;
        } else {
            let end: usize = if e > pos && text[e - 1] == '\r' {
                e - 1
            } else {
                e
            };
            let line = copy_range(text, pos, end);
            out.push(line);
            proof {
                let raw = rest.take(e - pos);
                assert(raw =~= text@.subrange(pos as int, e as int));
                assert(line@ =~= strip_cr(raw));
                assert(rest.skip(e - pos + 1) =~= text@.skip(e + 1));
                assert(line_views(out@) =~= before.push(line@));
                assert(before + (seq![line@] + split_lines(text@.skip(e + 1))) =~= before.push(
                    line@,
                ) + split_lines(text@.skip(e + 1)));
            }
            pos = e + 1;
        }
    }
    proof {
        assert(line_views(out@) + Seq::<Seq<char>>::empty() =~= line_views(out@));
    }
    out
}

/// The lines joined by single line feeds.
pub open spec fn join_lines(lines: Seq<Seq<char>>) -> Seq<char>
    decreases lines.len(),
{
    if lines.len() == 0 {
        Seq::empty()
    } else if lines.len() == 1 {
        lines[0]
    } else {
        join_lines(lines.drop_last()) + seq!['\n'] + lines.last()
    }
}

} // verus!
