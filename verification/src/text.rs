//! Text primitives over character sequences, specified as the `str`
//! operations of the standard library that the parsers rely on behave:
//! `trim`, `trim_matches`, `lines`, `split_whitespace`, `split`,
//! `starts_with`, `trim_start_matches`, `replace(.., "")` and byte length.

use vstd::prelude::*;

verus! {

/// Unicode `White_Space`, the property behind `char::is_whitespace`.
pub open spec fn is_ws(c: char) -> bool {
    let v = c as u32;
    (0x09 <= v <= 0x0d) || v == 0x20 || v == 0x85 || v == 0xa0 || v == 0x1680 || (0x2000 <= v
        <= 0x200a) || v == 0x2028 || v == 0x2029 || v == 0x202f || v == 0x205f || v == 0x3000
}

/// Decides `is_ws`.
pub fn is_whitespace(c: char) -> (b: bool)
    ensures
        b == is_ws(c),
{
    let v: u32 = c as u32;
    (0x09 <= v && v <= 0x0d) || v == 0x20 || v == 0x85 || v == 0xa0 || v == 0x1680 || (0x2000
        <= v && v <= 0x200a) || v == 0x2028 || v == 0x2029 || v == 0x202f || v == 0x205f || v
        == 0x3000
}

/// A set of characters that a trim removes.
pub enum CharClass {
    /// Every character with `char::is_whitespace`.
    Whitespace,
    /// Exactly the given character.
    Exactly(char),
}

pub open spec fn in_class(cls: CharClass, c: char) -> bool {
    match cls {
        CharClass::Whitespace => is_ws(c),
        CharClass::Exactly(d) => c == d,
    }
}

pub fn class_contains(cls: &CharClass, c: char) -> (b: bool)
    ensures
        b == in_class(*cls, c),
{
    match cls {
        CharClass::Whitespace => is_whitespace(c),
        CharClass::Exactly(d) => c == *d,
    }
}

/// `s` without its leading characters of class `cls`.
pub open spec fn trim_start_class(s: Seq<char>, cls: CharClass) -> Seq<char>
    decreases s.len(),
{
    if s.len() > 0 && in_class(cls, s[0]) {
        trim_start_class(s.drop_first(), cls)
    } else {
        s
    }
}

/// `s` without its trailing characters of class `cls`.
pub open spec fn trim_end_class(s: Seq<char>, cls: CharClass) -> Seq<char>
    decreases s.len(),
{
    if s.len() > 0 && in_class(cls, s.last()) {
        trim_end_class(s.drop_last(), cls)
    } else {
        s
    }
}

/// `s` without leading and trailing characters of class `cls`.
pub open spec fn trim_class(s: Seq<char>, cls: CharClass) -> Seq<char> {
    trim_end_class(trim_start_class(s, cls), cls)
}

/// What `str::trim` returns.
pub open spec fn trim(s: Seq<char>) -> Seq<char> {
    trim_class(s, CharClass::Whitespace)
}

/// A copy of `s[lo..hi]`.
pub fn subvec(s: &Vec<char>, lo: usize, hi: usize) -> (r: Vec<char>)
    requires
        lo <= hi <= s.len(),
    ensures
        r@ == s@.subrange(lo as int, hi as int),
{
    let mut r: Vec<char> = Vec::new();
    let mut i: usize = lo;
    while i < hi
        invariant
            lo <= i <= hi <= s.len(),
            r@ == s@.subrange(lo as int, i as int),
        decreases hi - i,
    {
        r.push(s[i]);
        i = i + 1;
        assert(r@ =~= s@.subrange(lo as int, i as int));
    }
    r
}

/// `s` with the characters of class `cls` trimmed from both ends.
pub fn trim_chars(s: &Vec<char>, cls: &CharClass) -> (r: Vec<char>)
    ensures
        r@ == trim_class(s@, *cls),
{
    let n: usize = s.len();
    let mut lo: usize = 0;
    assert(s@.skip(0) =~= s@);
    while lo < n && class_contains(cls, s[lo])
        invariant
            lo <= n == s.len(),
            trim_start_class(s@.skip(lo as int), *cls) == trim_start_class(s@, *cls),
        decreases n - lo,
    {
        assert(s@.skip(lo as int).drop_first() =~= s@.skip(lo + 1));
        lo = lo + 1;
    }
    assert(trim_start_class(s@.skip(lo as int), *cls) == s@.skip(lo as int));
    let mut hi: usize = n;
    assert(s@.subrange(lo as int, n as int) =~= s@.skip(lo as int));
    while hi > lo && class_contains(cls, s[hi - 1])
        invariant
            lo <= hi <= n == s.len(),
            trim_end_class(s@.subrange(lo as int, hi as int), *cls) == trim_end_class(
                s@.skip(lo as int),
                *cls,
            ),
        decreases hi - lo,
    {
        assert(s@.subrange(lo as int, hi as int).drop_last() =~= s@.subrange(
            lo as int,
            hi - 1,
        ));
        hi = hi - 1;
    }
    subvec(s, lo, hi)
}

/// What `str::trim` returns.
pub fn trim_whitespace(s: &Vec<char>) -> (r: Vec<char>)
    ensures
        r@ == trim(s@),
{
    trim_chars(s, &CharClass::Whitespace)
}

/// `s` starts with `p` (`str::starts_with`).
pub open spec fn starts_with(s: Seq<char>, p: Seq<char>) -> bool {
    p.len() <= s.len() && s.take(p.len() as int) == p
}

/// Decides `starts_with`.
pub fn has_prefix(s: &Vec<char>, p: &Vec<char>) -> (b: bool)
    ensures
        b == starts_with(s@, p@),
{
    if p.len() > s.len() {
        return false;
    }
    let mut i: usize = 0;
    while i < p.len()
        invariant
            i <= p.len() <= s.len(),
            forall|k: int| 0 <= k < i ==> s@[k] == p@[k],
        decreases p.len() - i,
    {
        if s[i] != p[i] {
            assert(s@.take(p.len() as int)[i as int] != p@[i as int]);
            return false;
        }
        i = i + 1;
    }
    assert(s@.take(p.len() as int) =~= p@);
    true
}

/// The index of the first `c` in `s`, or `s.len()` when there is none.
pub open spec fn index_of_or_len(s: Seq<char>, c: char) -> int
    decreases s.len(),
{
    if s.len() == 0 {
        0
    } else if s[0] == c {
        0
    } else {
        1 + index_of_or_len(s.drop_first(), c)
    }
}

pub proof fn lemma_index_of_or_len(s: Seq<char>, c: char)
    ensures
        0 <= index_of_or_len(s, c) <= s.len(),
        index_of_or_len(s, c) < s.len() ==> s[index_of_or_len(s, c)] == c,
        forall|k: int| 0 <= k < index_of_or_len(s, c) ==> s[k] != c,
    decreases s.len(),
{
    if s.len() > 0 && s[0] != c {
        lemma_index_of_or_len(s.drop_first(), c);
        assert forall|k: int| 0 <= k < index_of_or_len(s, c) implies s[k] != c by {
            if k > 0 {
                assert(s[k] == s.drop_first()[k - 1]);
            }
        }
    }
}

/// Position of the first `c` in `s` at or after `from`, or `s.len()`.
pub fn find_char(s: &Vec<char>, from: usize, c: char) -> (k: usize)
    requires
        from <= s.len(),
    ensures
        k == from + index_of_or_len(s@.skip(from as int), c),
        from <= k <= s.len(),
{
    let mut k: usize = from;
    while k < s.len() && s[k] != c
        invariant
            from <= k <= s.len(),
            from + index_of_or_len(s@.skip(from as int), c) == k + index_of_or_len(
                s@.skip(k as int),
                c,
            ),
        decreases s.len() - k,
    {
        assert(s@.skip(k as int).drop_first() =~= s@.skip(k + 1));
        k = k + 1;
    }
    k
}

/// `line` without one trailing carriage return.
pub open spec fn strip_cr(line: Seq<char>) -> Seq<char> {
    if line.len() > 0 && line.last() == '\r' {
        line.drop_last()
    } else {
        line
    }
}

/// What `str::lines` yields: the text split at `\n`, a `\r` before a
/// `\n` dropped, and no empty last line after a final `\n`.
pub open spec fn lines(s: Seq<char>) -> Seq<Seq<char>>
    decreases s.len(),
{
    if s.len() == 0 {
        seq![]
    } else {
        let k = index_of_or_len(s, '\n');
        if k < s.len() {
            proof {
                lemma_index_of_or_len(s, '\n');
            }
            seq![strip_cr(s.take(k))] + lines(s.skip(k + 1))
        } else {
            seq![s]
        }
    }
}

/// The line that starts at `pos` and the position after it.
pub fn next_line(s: &Vec<char>, pos: usize) -> (r: (Vec<char>, usize))
    requires
        pos < s.len(),
    ensures
        pos < r.1 <= s.len(),
        lines(s@.skip(pos as int)) == seq![r.0@] + lines(s@.skip(r.1 as int)),
{
    let k: usize = find_char(s, pos, '\n');
    let ghost t = s@.skip(pos as int);
    proof {
        lemma_index_of_or_len(t, '\n');
    }
    if k < s.len() {
        let mut end: usize = k;
        if end > pos && s[end - 1] == '\r' {
            end = end - 1;
        }
        let line = subvec(s, pos, end);
        proof {
            assert(t.take(k - pos) =~= s@.subrange(pos as int, k as int));
            assert(t.skip(k - pos + 1) =~= s@.skip(k + 1));
            if k > pos && s@[k - 1] == '\r' {
                assert(s@.subrange(pos as int, k as int).drop_last() =~= s@.subrange(
                    pos as int,
                    k - 1,
                ));
            }
        }
        (line, k + 1)
    } else {
        let line = subvec(s, pos, s.len());
        proof {
            assert(t =~= s@.subrange(pos as int, s.len() as int));
            assert(s@.skip(s.len() as int) =~= Seq::<char>::empty());
        }
        (line, s.len())
    }
}

pub proof fn lemma_lines_of_end(s: Seq<char>)
    ensures
        lines(s.skip(s.len() as int)) == Seq::<Seq<char>>::empty(),
{
    assert(s.skip(s.len() as int).len() == 0);
}


/// Length of the leading run of non-whitespace characters of `s`.
pub open spec fn word_len(s: Seq<char>) -> int
    decreases s.len(),
{
    if s.len() == 0 || is_ws(s[0]) {
        0
    } else {
        1 + word_len(s.drop_first())
    }
}

pub proof fn lemma_word_len(s: Seq<char>)
    ensures
        0 <= word_len(s) <= s.len(),
        s.len() > 0 && !is_ws(s[0]) ==> word_len(s) >= 1,
    decreases s.len(),
{
    if s.len() > 0 && !is_ws(s[0]) {
        lemma_word_len(s.drop_first());
    }
}

/// What `str::split_whitespace` yields: the maximal runs of non-whitespace.
pub open spec fn words(s: Seq<char>) -> Seq<Seq<char>>
    decreases s.len(),
{
    if s.len() == 0 {
        seq![]
    } else if is_ws(s[0]) {
        words(s.drop_first())
    } else {
        let k = word_len(s);
        proof {
            lemma_word_len(s);
        }
        seq![s.take(k)] + words(s.skip(k))
    }
}

/// The `n`-th whitespace-separated word of `s` (`split_whitespace().nth(n)`).
pub open spec fn nth_word(s: Seq<char>, n: int) -> Option<Seq<char>> {
    if 0 <= n < words(s).len() {
        Some(words(s)[n])
    } else {
        None
    }
}

/// Computes `nth_word`.
pub fn word_at(s: &Vec<char>, n: usize) -> (r: Option<Vec<char>>)
    ensures
        match r {
            Some(w) => nth_word(s@, n as int) == Some(w@),
            None => nth_word(s@, n as int) is None,
        },
{
    let len: usize = s.len();
    let mut pos: usize = 0;
    let mut count: usize = 0;
    let ghost mut seen: Seq<Seq<char>> = seq![];
    assert(s@.skip(0) =~= s@);
    while pos < len
        invariant
            pos <= len == s.len(),
            count == seen.len(),
            count <= n,
            words(s@) == seen + words(s@.skip(pos as int)),
        decreases len - pos,
    {
        let ghost t = s@.skip(pos as int);
        if is_whitespace(s[pos]) {
            assert(t.drop_first() =~= s@.skip(pos + 1));
            pos = pos + 1;
        } else {
            let mut e: usize = pos;
            while e < len && !is_whitespace(s[e])
                invariant
                    pos <= e <= len == s.len(),
                    word_len(t) == (e - pos) + word_len(s@.skip(e as int)),
                decreases len - e,
            {
                assert(s@.skip(e as int).drop_first() =~= s@.skip(e + 1));
                e = e + 1;
            }
            proof {
                lemma_word_len(t);
                assert(t.take(e - pos) =~= s@.subrange(pos as int, e as int));
                assert(t.skip(e - pos) =~= s@.skip(e as int));
                assert(words(t) == seq![s@.subrange(pos as int, e as int)] + words(
                    s@.skip(e as int),
                ));
            }
            if count == n {
                let w = subvec(s, pos, e);
                proof {
                    assert(words(s@) == (seen + seq![w@]) + words(s@.skip(e as int)));
                    assert(words(s@)[n as int] == w@);
                }
                return Some(w);
            }
            proof {
                assert(words(s@) =~= (seen + seq![s@.subrange(pos as int, e as int)]) + words(
                    s@.skip(e as int),
                ));
                seen = seen + seq![s@.subrange(pos as int, e as int)];
            }
            count = count + 1;
            pos = e;
        }
    }
    proof {
        assert(s@.skip(len as int).len() == 0);
        assert(words(s@) =~= seen);
    }
    None
}

/// The second piece of `s.split(c)`, or `None` when `s` holds no `c`.
pub open spec fn second_field(s: Seq<char>, c: char) -> Option<Seq<char>> {
    let i = index_of_or_len(s, c);
    if i >= s.len() {
        None
    } else {
        let rest = s.skip(i + 1);
        Some(rest.take(index_of_or_len(rest, c)))
    }
}

/// Computes `second_field` (`s.split(c).nth(1)`).
pub fn field_after(s: &Vec<char>, c: char) -> (r: Option<Vec<char>>)
    ensures
        match r {
            Some(f) => second_field(s@, c) == Some(f@),
            None => second_field(s@, c) is None,
        },
{
    let i = find_char(s, 0, c);
    assert(s@.skip(0) =~= s@);
    if i >= s.len() {
        return None;
    }
    let j = find_char(s, i + 1, c);
    proof {
        lemma_index_of_or_len(s@, c);
        lemma_index_of_or_len(s@.skip(i + 1), c);
        assert(s@.skip(i + 1).take(j - i - 1) =~= s@.subrange(i + 1, j as int));
    }
    Some(subvec(s, i + 1, j))
}

/// `s` starts with `p` at position `pos`.
pub fn has_prefix_at(s: &Vec<char>, pos: usize, p: &Vec<char>) -> (b: bool)
    requires
        pos <= s.len(),
    ensures
        b == starts_with(s@.skip(pos as int), p@),
{
    if p.len() > s.len() - pos {
        return false;
    }
    let mut i: usize = 0;
    while i < p.len()
        invariant
            pos <= s.len(),
            i <= p.len() <= s.len() - pos,
            forall|k: int| 0 <= k < i ==> s@[pos + k] == p@[k],
        decreases p.len() - i,
    {
        if s[pos + i] != p[i] {
            assert(s@.skip(pos as int).take(p.len() as int)[i as int] != p@[i as int]);
            return false;
        }
        i = i + 1;
    }
    assert(s@.skip(pos as int).take(p.len() as int) =~= p@);
    true
}

/// `s` with every leading copy of `p` removed (`str::trim_start_matches`).
pub open spec fn strip_prefix_all(s: Seq<char>, p: Seq<char>) -> Seq<char>
    decreases s.len(),
{
    if p.len() > 0 && starts_with(s, p) {
        strip_prefix_all(s.skip(p.len() as int), p)
    } else {
        s
    }
}

/// Computes `strip_prefix_all`.
pub fn trim_start_matches(s: &Vec<char>, p: &Vec<char>) -> (r: Vec<char>)
    ensures
        r@ == strip_prefix_all(s@, p@),
{
    let mut pos: usize = 0;
    assert(s@.skip(0) =~= s@);
    if p.len() == 0 {
        return subvec(s, 0, s.len());
    }
    while has_prefix_at(s, pos, p)
        invariant
            pos <= s.len(),
            p.len() > 0,
            strip_prefix_all(s@.skip(pos as int), p@) == strip_prefix_all(s@, p@),
        decreases s.len() - pos,
    {
        assert(s@.skip(pos as int).skip(p.len() as int) =~= s@.skip(pos + p.len()));
        pos = pos + p.len();
    }
    assert(s@.skip(pos as int) =~= s@.subrange(pos as int, s.len() as int));
    subvec(s, pos, s.len())
}

/// `s` with every match of `p` deleted, matches taken left to right without
/// overlap (`str::replace(p, "")`).
pub open spec fn remove_all(s: Seq<char>, p: Seq<char>) -> Seq<char>
    decreases s.len(),
{
    if p.len() == 0 || s.len() == 0 {
        s
    } else if starts_with(s, p) {
        remove_all(s.skip(p.len() as int), p)
    } else {
        seq![s[0]] + remove_all(s.drop_first(), p)
    }
}

/// Computes `remove_all`.
pub fn remove_matches(s: &Vec<char>, p: &Vec<char>) -> (r: Vec<char>)
    ensures
        r@ == remove_all(s@, p@),
{
    if p.len() == 0 {
        return subvec(s, 0, s.len());
    }
    let mut out: Vec<char> = Vec::new();
    let mut pos: usize = 0;
    assert(s@.skip(0) =~= s@);
    while pos < s.len()
        invariant
            pos <= s.len(),
            p.len() > 0,
            out@ + remove_all(s@.skip(pos as int), p@) == remove_all(s@, p@),
        decreases s.len() - pos,
    {
        let ghost t = s@.skip(pos as int);
        if has_prefix_at(s, pos, p) {
            assert(t.skip(p.len() as int) =~= s@.skip(pos + p.len()));
            pos = pos + p.len();
        } else {
            let ghost old_out = out@;
            out.push(s[pos]);
            assert(t.drop_first() =~= s@.skip(pos + 1));
            assert(out@ + remove_all(s@.skip(pos + 1), p@) =~= old_out + (seq![t[0]] + remove_all(
                t.drop_first(),
                p@,
            )));
            pos = pos + 1;
        }
    }
    assert(out@ + remove_all(s@.skip(pos as int), p@) =~= out@);
    out
}

/// Bytes that `c` takes in UTF-8.
pub open spec fn utf8_width(c: char) -> nat {
    let v = c as u32;
    if v < 0x80 {
        1
    } else if v < 0x800 {
        2
    } else if v < 0x10000 {
        3
    } else {
        4
    }
}

/// Computes `utf8_width` (`char::len_utf8`).
pub fn char_width(c: char) -> (w: usize)
    ensures
        w == utf8_width(c),
{
    let v: u32 = c as u32;
    if v < 0x80 {
        1
    } else if v < 0x800 {
        2
    } else if v < 0x10000 {
        3
    } else {
        4
    }
}

/// Length of `s` in UTF-8 bytes (`str::len`).
pub open spec fn byte_len(s: Seq<char>) -> nat
    decreases s.len(),
{
    if s.len() == 0 {
        0
    } else {
        utf8_width(s[0]) + byte_len(s.drop_first())
    }
}

pub proof fn lemma_byte_len_concat(a: Seq<char>, b: Seq<char>)
    ensures
        byte_len(a + b) == byte_len(a) + byte_len(b),
    decreases a.len(),
{
    if a.len() > 0 {
        assert((a + b).drop_first() =~= a.drop_first() + b);
        lemma_byte_len_concat(a.drop_first(), b);
    } else {
        assert(a + b =~= b);
    }
}

pub proof fn lemma_byte_len_push(a: Seq<char>, c: char)
    ensures
        byte_len(a.push(c)) == byte_len(a) + utf8_width(c),
{
    lemma_byte_len_concat(a, seq![c]);
    assert(a + seq![c] =~= a.push(c));
    assert(seq![c].drop_first() =~= Seq::<char>::empty());
    assert(byte_len(seq![c].drop_first()) == 0);
    assert(byte_len(seq![c]) == utf8_width(c));
}

/// `n` dashes.
pub open spec fn dashes(n: nat) -> Seq<char> {
    Seq::new(n, |i: int| '-')
}

/// Appends one dash per UTF-8 byte of `s` to `out`.
pub fn push_dash_per_byte(out: &mut Vec<char>, s: &Vec<char>)
    ensures
        final(out)@ == old(out)@ + dashes(byte_len(s@)),
{
    let ghost start = out@;
    let mut i: usize = 0;
    while i < s.len()
        invariant
            i <= s.len(),
            out@ =~= start + dashes(byte_len(s@.take(i as int))),
        decreases s.len() - i,
    {
        let w = char_width(s[i]);
        let mut k: usize = 0;
        let ghost before = out@;
        while k < w
            invariant
                k <= w,
                out@ =~= before + dashes(k as nat),
            decreases w - k,
        {
            out.push('-');
            k = k + 1;
        }
        proof {
            assert(s@.take(i + 1) =~= s@.take(i as int).push(s@[i as int]));
            lemma_byte_len_push(s@.take(i as int), s@[i as int]);
        }
        i = i + 1;
    }
    assert(s@.take(s.len() as int) =~= s@);
}

/// How many leading characters of `s` fit into `budget` UTF-8 bytes.
pub open spec fn fit_chars(s: Seq<char>, budget: nat) -> nat
    decreases s.len(),
{
    if s.len() == 0 || utf8_width(s[0]) > budget {
        0
    } else {
        1 + fit_chars(s.drop_first(), (budget - utf8_width(s[0])) as nat)
    }
}

pub proof fn lemma_fit_chars(s: Seq<char>, budget: nat)
    ensures
        fit_chars(s, budget) <= s.len(),
        byte_len(s.take(fit_chars(s, budget) as int)) <= budget,
    decreases s.len(),
{
    if s.len() == 0 || utf8_width(s[0]) > budget {
        assert(s.take(0).len() == 0);
    } else {
        let b2 = (budget - utf8_width(s[0])) as nat;
        lemma_fit_chars(s.drop_first(), b2);
        let k = fit_chars(s, budget) as int;
        assert(s.take(k).drop_first() =~= s.drop_first().take(k - 1));
    }
}

/// Computes `fit_chars`.
pub fn chars_fitting(s: &Vec<char>, budget: usize) -> (k: usize)
    ensures
        k == fit_chars(s@, budget as nat),
{
    let mut i: usize = 0;
    let mut left: usize = budget;
    assert(s@.skip(0) =~= s@);
    while i < s.len() && char_width(s[i]) <= left
        invariant
            i <= s.len(),
            left <= budget,
            fit_chars(s@, budget as nat) == i + fit_chars(s@.skip(i as int), left as nat),
        decreases s.len() - i,
    {
        assert(s@.skip(i as int).drop_first() =~= s@.skip(i + 1));
        left = left - char_width(s[i]);
        i = i + 1;
    }
    i
}

/// Whether `s` takes more than `limit` UTF-8 bytes.
pub fn exceeds_bytes(s: &Vec<char>, limit: usize) -> (b: bool)
    ensures
        b == (byte_len(s@) > limit),
{
    let mut i: usize = 0;
    let mut used: usize = 0;
    while i < s.len()
        invariant
            i <= s.len(),
            used == byte_len(s@.take(i as int)),
            used <= limit,
        decreases s.len() - i,
    {
        let w = char_width(s[i]);
        proof {
            assert(s@.take(i + 1) =~= s@.take(i as int).push(s@[i as int]));
            lemma_byte_len_push(s@.take(i as int), s@[i as int]);
        }
        if w > limit - used {
            proof {
                assert(s@ =~= s@.take(i + 1) + s@.skip(i + 1));
                lemma_byte_len_concat(s@.take(i + 1), s@.skip(i + 1));
            }
            return true;
        }
        used = used + w;
        i = i + 1;
    }
    assert(s@.take(s.len() as int) =~= s@);
    false
}


/// Appends a copy of `s` to `out`.
pub fn push_all(out: &mut Vec<char>, s: &Vec<char>)
    ensures
        final(out)@ == old(out)@ + s@,
{
    let ghost start = out@;
    let mut i: usize = 0;
    while i < s.len()
        invariant
            i <= s.len(),
            out@ =~= start + s@.take(i as int),
        decreases s.len() - i,
    {
        out.push(s[i]);
        i = i + 1;
        assert(out@ =~= start + s@.take(i as int));
    }
    assert(s@.take(s.len() as int) =~= s@);
}

/// The part of `s` after its last `c`, or all of `s` when it holds no `c`
/// (`s.rsplit(c).next()`).
pub open spec fn last_segment(s: Seq<char>, c: char) -> Seq<char>
    decreases s.len(),
{
    if s.len() == 0 {
        s
    } else if s.last() == c {
        seq![]
    } else {
        last_segment(s.drop_last(), c).push(s.last())
    }
}

/// Computes `last_segment`.
pub fn after_last(s: &Vec<char>, c: char) -> (r: Vec<char>)
    ensures
        r@ == last_segment(s@, c),
{
    let mut k: usize = s.len();
    assert(s@.take(k as int) =~= s@);
    assert(last_segment(s@, c) + s@.subrange(k as int, k as int) =~= last_segment(s@, c));
    while k > 0 && s[k - 1] != c
        invariant
            k <= s.len(),
            last_segment(s@, c) == last_segment(s@.take(k as int), c) + s@.subrange(
                k as int,
                s.len() as int,
            ),
        decreases k,
    {
        let ghost t = s@.take(k as int);
        assert(t.drop_last() =~= s@.take(k - 1));
        assert(s@.subrange(k - 1, s.len() as int) =~= seq![t.last()] + s@.subrange(
            k as int,
            s.len() as int,
        ));
        assert(last_segment(t, c) == last_segment(s@.take(k - 1), c).push(t.last()));
        assert(last_segment(s@.take(k - 1), c).push(t.last()) + s@.subrange(
            k as int,
            s.len() as int,
        ) =~= last_segment(s@.take(k - 1), c) + s@.subrange(k - 1, s.len() as int));
        k = k - 1;
    }
    proof {
        let t = s@.take(k as int);
        if k == 0 {
            assert(t.len() == 0);
        } else {
            assert(t.last() == c);
        }
        assert(last_segment(t, c) =~= Seq::<char>::empty());
        assert(last_segment(s@, c) =~= s@.subrange(k as int, s.len() as int));
    }
    subvec(s, k, s.len())
}


proof fn lemma_trim_start_cut(s: Seq<char>, cls: CharClass) -> (a: int)
    ensures
        0 <= a <= s.len(),
        trim_start_class(s, cls) == s.skip(a),
        forall|i: int| 0 <= i < a ==> in_class(cls, #[trigger] s[i]),
        a < s.len() ==> !in_class(cls, s[a]),
    decreases s.len(),
{
    if s.len() > 0 && in_class(cls, s[0]) {
        let a1 = lemma_trim_start_cut(s.drop_first(), cls);
        assert(s.drop_first().skip(a1) =~= s.skip(a1 + 1));
        assert forall|i: int| 0 <= i < a1 + 1 implies in_class(cls, #[trigger] s[i]) by {
            if i > 0 {
                assert(s[i] == s.drop_first()[i - 1]);
            }
        }
        a1 + 1
    } else {
        assert(s.skip(0) =~= s);
        0
    }
}

proof fn lemma_trim_end_cut(s: Seq<char>, cls: CharClass) -> (b: int)
    ensures
        0 <= b <= s.len(),
        trim_end_class(s, cls) == s.take(b),
        forall|i: int| b <= i < s.len() ==> in_class(cls, #[trigger] s[i]),
        b > 0 ==> !in_class(cls, s[b - 1]),
    decreases s.len(),
{
    if s.len() > 0 && in_class(cls, s.last()) {
        let b1 = lemma_trim_end_cut(s.drop_last(), cls);
        assert(s.drop_last().take(b1) =~= s.take(b1));
        assert forall|i: int| b1 <= i < s.len() implies in_class(cls, #[trigger] s[i]) by {
            if i < s.len() - 1 {
                assert(s[i] == s.drop_last()[i]);
            }
        }
        b1
    } else {
        assert(s.take(s.len() as int) =~= s);
        s.len() as int
    }
}

/// Trimming cuts off exactly the characters of the class at both ends:
/// the result is the part of `s` between positions `a` and `b`, everything
/// before `a` and from `b` on is in the class, and the result neither
/// starts nor ends with a character of the class.
pub proof fn lemma_trim_cuts_class_ends(s: Seq<char>, cls: CharClass) -> (ab: (int, int))
    ensures
        0 <= ab.0 <= ab.1 <= s.len(),
        trim_class(s, cls) == s.subrange(ab.0, ab.1),
        forall|i: int| 0 <= i < ab.0 ==> in_class(cls, #[trigger] s[i]),
        forall|i: int| ab.1 <= i < s.len() ==> in_class(cls, #[trigger] s[i]),
        ab.0 < ab.1 ==> !in_class(cls, s[ab.0]) && !in_class(cls, s[ab.1 - 1]),
{
    let a = lemma_trim_start_cut(s, cls);
    let t = s.skip(a);
    let b = lemma_trim_end_cut(t, cls);
    assert(t.take(b) =~= s.subrange(a, a + b));
    assert forall|i: int| a + b <= i < s.len() implies in_class(cls, #[trigger] s[i]) by {
        assert(s[i] == t[i - a]);
    }
    if b > 0 {
        assert(s[a + b - 1] == t[b - 1]);
    }
    (a, a + b)
}


proof fn lemma_index_of_prefix_free(l: Seq<char>, c: char, rest: Seq<char>)
    requires
        forall|i: int| 0 <= i < l.len() ==> l[i] != c,
    ensures
        index_of_or_len(l + seq![c] + rest, c) == l.len(),
    decreases l.len(),
{
    let t = l + seq![c] + rest;
    if l.len() > 0 {
        assert(t.drop_first() =~= l.drop_first() + seq![c] + rest);
        lemma_index_of_prefix_free(l.drop_first(), c, rest);
    }
}

/// A line followed by a newline comes out first, without a carriage return
/// at its end, and the rest of the text gives the remaining lines; no line
/// holds a newline.
pub proof fn lemma_lines_cons(l: Seq<char>, rest: Seq<char>)
    requires
        forall|i: int| 0 <= i < l.len() ==> l[i] != '\n',
    ensures
        lines(l + seq!['\n'] + rest) == seq![strip_cr(l)] + lines(rest),
        lines(l) == (if l.len() == 0 { Seq::<Seq<char>>::empty() } else { seq![l] }),
{
    let t = l + seq!['\n'] + rest;
    lemma_index_of_prefix_free(l, '\n', rest);
    assert(t.take(l.len() as int) =~= l);
    assert(t.skip(l.len() + 1 as int) =~= rest);
    if l.len() > 0 {
        lemma_index_of_or_len(l, '\n');
    }
}

/// `s.split(c).nth(1)` is the text between the first `c` and the next one
/// (or the end), and there is none exactly when `s` holds no `c`.
pub proof fn lemma_second_field(s: Seq<char>, c: char) -> (i: int)
    ensures
        second_field(s, c) is None <==> (forall|k: int| 0 <= k < s.len() ==> s[k] != c),
        second_field(s, c) is Some ==> {
            let f = second_field(s, c).unwrap();
            &&& 0 <= i < s.len()
            &&& s[i] == c
            &&& forall|k: int| 0 <= k < i ==> s[k] != c
            &&& i + 1 + f.len() <= s.len()
            &&& f == s.subrange(i + 1, i + 1 + f.len())
            &&& forall|k: int| 0 <= k < f.len() ==> f[k] != c
            &&& (i + 1 + f.len() == s.len() || s[i + 1 + f.len()] == c)
        },
{
    lemma_index_of_or_len(s, c);
    let i = index_of_or_len(s, c);
    if i < s.len() {
        let rest = s.skip(i + 1);
        lemma_index_of_or_len(rest, c);
        let j = index_of_or_len(rest, c);
        assert(rest.take(j) =~= s.subrange(i + 1, i + 1 + j));
        if j < rest.len() {
            assert(s[i + 1 + j] == rest[j]);
        }
        assert forall|k: int| 0 <= k < j implies rest.take(j)[k] != c by {
            assert(rest.take(j)[k] == rest[k]);
        }
    }
    i
}

} // verus!
