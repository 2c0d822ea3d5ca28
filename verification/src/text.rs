//! Operations on sequences of characters: whitespace, trimming, prefixes,
//! substring search, removal of a pattern and line breaks.

use vstd::prelude::*;

verus! {

/// Whether `c` is whitespace as Unicode defines it (`White_Space`).
pub open spec fn is_whitespace(c: char) -> bool {
    let n = c as u32;
    ||| 0x09 <= n <= 0x0D
    ||| n == 0x20
    ||| n == 0x85
    ||| n == 0xA0
    ||| n == 0x1680
    ||| 0x2000 <= n <= 0x200A
    ||| n == 0x2028
    ||| n == 0x2029
    ||| n == 0x202F
    ||| n == 0x205F
    ||| n == 0x3000
}

/// Decides `is_whitespace` for one character.
pub fn char_is_whitespace(c: char) -> (r: bool)
    ensures
        r == is_whitespace(c),
{
    let n: u32 = c as u32;
    (0x09 <= n && n <= 0x0D) || n == 0x20 || n == 0x85 || n == 0xA0 || n == 0x1680 || (0x2000 <= n
        && n <= 0x200A) || n == 0x2028 || n == 0x2029 || n == 0x202F || n == 0x205F || n == 0x3000
}

/// The characters of `s`, in order.
pub fn chars_of(s: &str) -> (v: Vec<char>)
    ensures
        v@ == s@,
{
    let mut v: Vec<char> = Vec::new();
    for c in it: s.chars()
        invariant
            v@ == it.seq().take(it.index() as int),
            it.seq() == s@,
    {
        v.push(c);
    }
    v
}

/// The character sequences of a sequence of strings.
pub open spec fn texts(v: Seq<String>) -> Seq<Seq<char>> {
    Seq::new(v.len(), |i: int| v[i]@)
}

/// Whether two strings hold the same characters.
pub fn same_text(a: &str, b: &str) -> (r: bool)
    ensures
        r == (a@ == b@),
{
    a.to_owned() == b.to_owned()
}

/// `String::push` of the standard library: the character is appended at the
/// end and nothing else changes.
pub assume_specification[ String::push ](s: &mut String, c: char)
    ensures
        final(s)@ == old(s)@.push(c),
;

/// The string made of the characters `v[from..to]`.
pub fn string_of(v: &Vec<char>, from: usize, to: usize) -> (s: String)
    requires
        from <= to <= v.len(),
    ensures
        s@ == v@.subrange(from as int, to as int),
{
    let mut s = String::new();
    let mut i: usize = from;
    while i < to
        invariant
            from <= i <= to <= v.len(),
            s@ == v@.subrange(from as int, i as int),
        decreases to - i,
    {
        s.push(v[i]);
        i += 1;
        assert(v@.subrange(from as int, i as int) == v@.subrange(from as int, i - 1).push(
            v@[i - 1],
        ));
    }
    s
}

/// The number of whitespace characters at the start of `s`.
pub open spec fn leading_whitespace(s: Seq<char>) -> nat
    decreases s.len(),
{
    if s.len() > 0 && is_whitespace(s[0]) {
        1 + leading_whitespace(s.skip(1))
    } else {
        0
    }
}

/// The number of whitespace characters at the end of `s`.
pub open spec fn trailing_whitespace(s: Seq<char>) -> nat
    decreases s.len(),
{
    if s.len() > 0 && is_whitespace(s.last()) {
        1 + trailing_whitespace(s.drop_last())
    } else {
        0
    }
}

/// `s` without its leading whitespace.
pub open spec fn trim_start(s: Seq<char>) -> Seq<char> {
    s.skip(leading_whitespace(s) as int)
}

/// `s` without its trailing whitespace.
pub open spec fn trim_end(s: Seq<char>) -> Seq<char> {
    s.take(s.len() - trailing_whitespace(s))
}

/// `s` without its leading and trailing whitespace.
pub open spec fn trim(s: Seq<char>) -> Seq<char> {
    trim_end(trim_start(s))
}

/// A run of `k` whitespace characters at the start of `s`, followed by the end
/// of `s` or by another character, is all the leading whitespace of `s`.
pub proof fn lemma_leading_whitespace(s: Seq<char>, k: int)
    requires
        0 <= k <= s.len(),
        forall|j: int| 0 <= j < k ==> is_whitespace(#[trigger] s[j]),
        k < s.len() ==> !is_whitespace(s[k]),
    ensures
        leading_whitespace(s) == k,
    decreases k,
{
    if k > 0 {
        let t = s.skip(1);
        assert forall|j: int| 0 <= j < k - 1 implies is_whitespace(#[trigger] t[j]) by {
            assert(t[j] == s[j + 1]);
        }
        lemma_leading_whitespace(t, k - 1);
    }
}

/// A run of `k` whitespace characters at the end of `s`, preceded by the start
/// of `s` or by another character, is all the trailing whitespace of `s`.
pub proof fn lemma_trailing_whitespace(s: Seq<char>, k: int)
    requires
        0 <= k <= s.len(),
        forall|j: int| s.len() - k <= j < s.len() ==> is_whitespace(#[trigger] s[j]),
        k < s.len() ==> !is_whitespace(s[s.len() - k - 1]),
    ensures
        trailing_whitespace(s) == k,
    decreases k,
{
    if k > 0 {
        let t = s.drop_last();
        assert forall|j: int| t.len() - (k - 1) <= j < t.len() implies is_whitespace(
            #[trigger] t[j],
        ) by {
            assert(t[j] == s[j]);
        }
        lemma_trailing_whitespace(t, k - 1);
    }
}

/// The characters `v[from..to]` without leading and trailing whitespace.
pub fn trim_range(v: &Vec<char>, from: usize, to: usize) -> (r: Vec<char>)
    requires
        from <= to <= v.len(),
    ensures
        r@ == trim(v@.subrange(from as int, to as int)),
{
    let ghost s = v@.subrange(from as int, to as int);
    let mut a: usize = from;
    while a < to && char_is_whitespace(v[a])
        invariant
            from <= a <= to <= v.len(),
            s == v@.subrange(from as int, to as int),
            forall|j: int| 0 <= j < a - from ==> is_whitespace(#[trigger] s[j]),
        decreases to - a,
    {
        a += 1;
    }
    proof {
        lemma_leading_whitespace(s, a - from);
    }
    let ghost t = trim_start(s);
    assert(t == v@.subrange(a as int, to as int));
    let mut b: usize = to;
    while a < b && char_is_whitespace(v[b - 1])
        invariant
            a <= b <= to <= v.len(),
            t == v@.subrange(a as int, to as int),
            forall|j: int| b - a <= j < t.len() ==> is_whitespace(#[trigger] t[j]),
        decreases b - a,
    {
        b -= 1;
    }
    proof {
        lemma_trailing_whitespace(t, to - b);
    }
    let mut r: Vec<char> = Vec::new();
    let mut i: usize = a;
    while i < b
        invariant
            a <= i <= b <= to <= v.len(),
            r@ == v@.subrange(a as int, i as int),
        decreases b - i,
    {
        r.push(v[i]);
        i += 1;
    }
    assert(r@ == trim_end(t));
    r
}

/// The trimmed copy of `v`.
pub fn trim_chars(v: &Vec<char>) -> (r: Vec<char>)
    ensures
        r@ == trim(v@),
{
    assert(v@.subrange(0, v.len() as int) == v@);
    trim_range(v, 0, v.len())
}

/// Whether `pat` stands in `s` at position `i`.
pub open spec fn occurs_at(s: Seq<char>, pat: Seq<char>, i: int) -> bool {
    &&& 0 <= i
    &&& i + pat.len() <= s.len()
    &&& s.subrange(i, i + pat.len()) == pat
}

/// Whether `pat` is a contiguous part of `s`. The empty pattern is part of
/// every sequence.
pub open spec fn contains(s: Seq<char>, pat: Seq<char>) -> bool {
    exists|i: int| occurs_at(s, pat, i)
}

/// Decides `occurs_at`.
pub fn matches_at(s: &Vec<char>, pat: &Vec<char>, i: usize) -> (r: bool)
    ensures
        r == occurs_at(s@, pat@, i as int),
{
    if pat.len() > s.len() || i > s.len() - pat.len() {
        return false;
    }
    let mut j: usize = 0;
    while j < pat.len()
        invariant
            j <= pat.len(),
            i + pat.len() <= s.len(),
            forall|k: int| 0 <= k < j ==> s@[i + k] == pat@[k],
        decreases pat.len() - j,
    {
        if s[i + j] != pat[j] {
            assert(s@.subrange(i as int, i + pat.len())[j as int] == s@[i + j]);
            return false;
        }
        j += 1;
    }
    assert(s@.subrange(i as int, i + pat.len()) =~= pat@);
    true
}

/// Decides `contains` by trying every position.
pub fn contains_chars(s: &Vec<char>, pat: &Vec<char>) -> (r: bool)
    ensures
        r == contains(s@, pat@),
{
    if pat.len() > s.len() {
        return false;
    }
    let last: usize = s.len() - pat.len();
    let mut i: usize = 0;
    loop
        invariant
            i <= last,
            last == s.len() - pat.len(),
            forall|k: int| 0 <= k < i ==> !occurs_at(s@, pat@, k),
        decreases last - i,
    {
        if matches_at(s, pat, i) {
            return true;
        }
        if i == last {
            return false;
        }
        i += 1;
    }
}

/// `s` after every occurrence of `pat` met from left to right is taken out,
/// an occurrence never overlapping the one before it. With the empty
/// pattern nothing is taken out.
pub open spec fn remove_all(s: Seq<char>, pat: Seq<char>) -> Seq<char>
    decreases s.len(),
{
    if pat.len() == 0 || s.len() < pat.len() {
        s
    } else if pat.is_prefix_of(s) {
        remove_all(s.skip(pat.len() as int), pat)
    } else {
        seq![s[0]] + remove_all(s.skip(1), pat)
    }
}

/// Computes `remove_all` in one pass.
pub fn remove_occurrences(s: &Vec<char>, pat: &Vec<char>) -> (r: Vec<char>)
    ensures
        r@ == remove_all(s@, pat@),
{
    let mut r: Vec<char> = Vec::new();
    let mut i: usize = 0;
    assert(s@.skip(0) == s@);
    while i < s.len()
        invariant
            i <= s.len(),
            r@ + remove_all(s@.skip(i as int), pat@) == remove_all(s@, pat@),
        decreases s.len() - i,
    {
        let ghost rest = s@.skip(i as int);
        assert(pat@.is_prefix_of(rest) <==> occurs_at(s@, pat@, i as int)) by {
            if i + pat.len() <= s.len() {
                assert(rest.subrange(0, pat.len() as int) == s@.subrange(
                    i as int,
                    i + pat.len(),
                ));
            }
        }
        if pat.len() > 0 && matches_at(s, pat, i) {
            assert(rest.skip(pat.len() as int) == s@.skip(i + pat.len()));
            i += pat.len();
        } else {
            assert(rest.skip(1) == s@.skip(i + 1));
            assert(pat.len() == 0 || rest.len() < pat.len() ==> remove_all(rest, pat@) == seq![
                rest[0],
            ] + rest.skip(1)) by {
                assert(seq![rest[0]] + rest.skip(1) == rest);
            }
            assert(pat.len() == 0 || rest.len() < pat.len() ==> remove_all(rest.skip(1), pat@)
                == rest.skip(1));
            assert(r@.push(s@[i as int]) + remove_all(rest.skip(1), pat@) == r@ + (seq![rest[0]]
                + remove_all(rest.skip(1), pat@)));
            r.push(s[i]);
            i += 1;
        }
    }
    assert(remove_all(s@.skip(i as int), pat@) == Seq::<char>::empty());
    assert(r@ + Seq::<char>::empty() == r@);
    r
}

/// Whether `a` stands at position `j` of `s`, directly followed by `b`.
pub open spec fn pair_at(s: Seq<char>, a: char, b: char, j: int) -> bool {
    &&& 0 <= j
    &&& j + 1 < s.len()
    &&& s[j] == a
    &&& s[j + 1] == b
}

/// Whether `a` directly followed by `b` occurs in `s`.
pub open spec fn adjacent(s: Seq<char>, a: char, b: char) -> bool {
    exists|j: int| pair_at(s, a, b, j)
}

/// Whether `a`, `b` and `c` stand at the positions `j`, `j + 1` and `j + 2` of
/// `s`.
pub open spec fn triple_at(s: Seq<char>, a: char, b: char, c: char, j: int) -> bool {
    &&& 0 <= j
    &&& j + 2 < s.len()
    &&& s[j] == a
    &&& s[j + 1] == b
    &&& s[j + 2] == c
}

/// Whether `a`, `b` and `c` occur in `s` one directly after the other.
pub open spec fn in_a_row(s: Seq<char>, a: char, b: char, c: char) -> bool {
    exists|j: int| triple_at(s, a, b, c, j)
}

/// A pattern of two characters is part of `s` exactly where the two occur
/// side by side.
pub proof fn lemma_contains_pair(s: Seq<char>, a: char, b: char)
    ensures
        contains(s, seq![a, b]) <==> adjacent(s, a, b),
{
    let pat = seq![a, b];
    if contains(s, pat) {
        let i = choose|i: int| occurs_at(s, pat, i);
        let part = s.subrange(i, i + 2);
        assert(part[0] == s[i] && part[1] == s[i + 1]);
        assert(pair_at(s, a, b, i));
    }
    if adjacent(s, a, b) {
        let j = choose|j: int| pair_at(s, a, b, j);
        assert(s.subrange(j, j + 2) == pat);
        assert(occurs_at(s, pat, j));
    }
}

/// A pattern of three characters is part of `s` exactly where the three
/// occur in a row.
pub proof fn lemma_contains_triple(s: Seq<char>, a: char, b: char, c: char)
    ensures
        contains(s, seq![a, b, c]) <==> in_a_row(s, a, b, c),
{
    let pat = seq![a, b, c];
    if contains(s, pat) {
        let i = choose|i: int| occurs_at(s, pat, i);
        let part = s.subrange(i, i + 3);
        assert(part[0] == s[i] && part[1] == s[i + 1] && part[2] == s[i + 2]);
        assert(triple_at(s, a, b, c, i));
    }
    if in_a_row(s, a, b, c) {
        let j = choose|j: int| triple_at(s, a, b, c, j);
        assert(s.subrange(j, j + 3) == pat);
        assert(occurs_at(s, pat, j));
    }
}

/// What is left of a sequence after a removal begins with the character that
/// the sequence began with, unless the sequence began with the pattern.
proof fn lemma_remove_all_head(s: Seq<char>, pat: Seq<char>)
    requires
        !pat.is_prefix_of(s),
        remove_all(s, pat).len() > 0,
    ensures
        s.len() > 0,
        remove_all(s, pat)[0] == s[0],
{
}

/// Two characters side by side after the removal of a pattern `p`, `x` of two
/// different characters stood side by side before it, and are not the
/// pattern; or the first of them stood directly before an occurrence of the
/// pattern.
pub proof fn lemma_pairs_after_removal(s: Seq<char>, p: char, x: char, a: char, b: char)
    requires
        p != x,
        adjacent(remove_all(s, seq![p, x]), a, b),
    ensures
        (adjacent(s, a, b) && !(a == p && b == x)) || in_a_row(s, a, p, x),
    decreases s.len(),
{
    let pat = seq![p, x];
    let r = remove_all(s, pat);
    let j = choose|j: int| pair_at(r, a, b, j);
    if s.len() < 2 {
    } else if pat.is_prefix_of(s) {
        let t = s.skip(2);
        lemma_pairs_after_removal(t, p, x, a, b);
        if adjacent(t, a, b) {
            let k = choose|k: int| pair_at(t, a, b, k);
            assert(pair_at(s, a, b, k + 2));
        }
        if in_a_row(t, a, p, x) {
            let k = choose|k: int| triple_at(t, a, p, x, k);
            assert(triple_at(s, a, p, x, k + 2));
        }
    } else {
        let t = s.skip(1);
        let rt = remove_all(t, pat);
        assert(r == seq![s[0]] + rt);
        if j == 0 {
            assert(r[1] == rt[0]);
            if pat.is_prefix_of(t) {
                assert(t.subrange(0, 2)[0] == t[0] && t.subrange(0, 2)[1] == t[1]);
                assert(triple_at(s, a, p, x, 0));
            } else {
                lemma_remove_all_head(t, pat);
                assert(pair_at(s, a, b, 0));
                if a == p && b == x {
                    assert(s.subrange(0, 2) == pat);
                }
            }
        } else {
            assert(r[j] == rt[j - 1] && r[j + 1] == rt[j]);
            assert(pair_at(rt, a, b, j - 1));
            lemma_pairs_after_removal(t, p, x, a, b);
            if adjacent(t, a, b) {
                let k = choose|k: int| pair_at(t, a, b, k);
                assert(pair_at(s, a, b, k + 1));
            }
            if in_a_row(t, a, p, x) {
                let k = choose|k: int| triple_at(t, a, p, x, k);
                assert(triple_at(s, a, p, x, k + 1));
            }
        }
    }
}

/// Three characters in a row after the removal of a pattern `p`, `x` of two
/// different characters stood in a row before it; or the first or the second
/// of them stood directly before an occurrence of the pattern.
pub proof fn lemma_triples_after_removal(
    s: Seq<char>,
    p: char,
    x: char,
    a: char,
    b: char,
    c: char,
)
    requires
        p != x,
        in_a_row(remove_all(s, seq![p, x]), a, b, c),
    ensures
        in_a_row(s, a, b, c) || in_a_row(s, a, p, x) || in_a_row(s, b, p, x),
    decreases s.len(),
{
    let pat = seq![p, x];
    let r = remove_all(s, pat);
    let j = choose|j: int| triple_at(r, a, b, c, j);
    if s.len() < 2 {
    } else if pat.is_prefix_of(s) {
        let t = s.skip(2);
        lemma_triples_after_removal(t, p, x, a, b, c);
        if in_a_row(t, a, b, c) {
            let k = choose|k: int| triple_at(t, a, b, c, k);
            assert(triple_at(s, a, b, c, k + 2));
        }
        if in_a_row(t, a, p, x) {
            let k = choose|k: int| triple_at(t, a, p, x, k);
            assert(triple_at(s, a, p, x, k + 2));
        }
        if in_a_row(t, b, p, x) {
            let k = choose|k: int| triple_at(t, b, p, x, k);
            assert(triple_at(s, b, p, x, k + 2));
        }
    } else {
        let t = s.skip(1);
        let rt = remove_all(t, pat);
        assert(r == seq![s[0]] + rt);
        if j == 0 {
            assert(r[1] == rt[0] && r[2] == rt[1]);
            if pat.is_prefix_of(t) {
                assert(t.subrange(0, 2)[0] == t[0] && t.subrange(0, 2)[1] == t[1]);
                assert(triple_at(s, a, p, x, 0));
            } else {
                lemma_remove_all_head(t, pat);
                let u = t.skip(1);
                let ru = remove_all(u, pat);
                assert(rt == seq![t[0]] + ru);
                assert(rt[1] == ru[0]);
                assert(u == s.skip(2));
                if pat.is_prefix_of(u) {
                    assert(u.subrange(0, 2)[0] == u[0] && u.subrange(0, 2)[1] == u[1]);
                    assert(triple_at(s, b, p, x, 1));
                } else {
                    lemma_remove_all_head(u, pat);
                    assert(triple_at(s, a, b, c, 0));
                }
            }
        } else {
            assert(r[j] == rt[j - 1] && r[j + 1] == rt[j] && r[j + 2] == rt[j + 1]);
            assert(triple_at(rt, a, b, c, j - 1));
            lemma_triples_after_removal(t, p, x, a, b, c);
            if in_a_row(t, a, b, c) {
                let k = choose|k: int| triple_at(t, a, b, c, k);
                assert(triple_at(s, a, b, c, k + 1));
            }
            if in_a_row(t, a, p, x) {
                let k = choose|k: int| triple_at(t, a, p, x, k);
                assert(triple_at(s, a, p, x, k + 1));
            }
            if in_a_row(t, b, p, x) {
                let k = choose|k: int| triple_at(t, b, p, x, k);
                assert(triple_at(s, b, p, x, k + 1));
            }
        }
    }
}

/// Two characters side by side in the trimmed sequence are side by side in
/// the sequence.
pub proof fn lemma_pairs_after_trim(s: Seq<char>, a: char, b: char)
    requires
        adjacent(trim(s), a, b),
    ensures
        adjacent(s, a, b),
{
    let j = choose|j: int| pair_at(trim(s), a, b, j);
    let k = leading_whitespace(s) as int;
    lemma_whitespace_counts(s);
    lemma_whitespace_counts(trim_start(s));
    assert(pair_at(s, a, b, j + k));
}

/// Neither count of whitespace exceeds the length.
pub proof fn lemma_whitespace_counts(s: Seq<char>)
    ensures
        leading_whitespace(s) <= s.len(),
        trailing_whitespace(s) <= s.len(),
    decreases s.len(),
{
    if s.len() > 0 {
        lemma_whitespace_counts(s.skip(1));
        lemma_whitespace_counts(s.drop_last());
    }
}

/// The position of the first line feed in `s`, or the length of `s` where it
/// holds none.
pub open spec fn line_break(s: Seq<char>) -> int
    decreases s.len(),
{
    if s.len() == 0 || s[0] == '\n' {
        0
    } else {
        1 + line_break(s.skip(1))
    }
}

/// `line` without the carriage return that it ends with, if it ends with one.
pub open spec fn strip_carriage_return(line: Seq<char>) -> Seq<char> {
    if line.len() > 0 && line.last() == '\r' {
        line.drop_last()
    } else {
        line
    }
}

/// The lines of `s`. A line ends at a line feed, or at a carriage return
/// directly followed by one; neither belongs to the line. The last line needs
/// no line feed, and a carriage return that ends an unterminated last line
/// stays. The empty sequence has no lines.
pub open spec fn lines(s: Seq<char>) -> Seq<Seq<char>>
    decreases s.len(),
{
    let n = line_break(s);
    if s.len() == 0 {
        Seq::empty()
    } else if 0 <= n < s.len() {
        seq![strip_carriage_return(s.take(n))] + lines(s.skip(n + 1))
    } else {
        seq![s]
    }
}

/// A position `e` at or after `from` with no line feed between the two, which
/// is the end of `s` or holds a line feed, is the line break of `s.skip(from)`.
pub proof fn lemma_line_break_found(s: Seq<char>, from: int, e: int)
    requires
        0 <= from <= e <= s.len(),
        forall|j: int| from <= j < e ==> #[trigger] s[j] != '\n',
        e < s.len() ==> s[e] == '\n',
    ensures
        line_break(s.skip(from)) == e - from,
    decreases e - from,
{
    let t = s.skip(from);
    if from < e {
        assert(t[0] == s[from]);
        assert(t.skip(1) == s.skip(from + 1));
        lemma_line_break_found(s, from + 1, e);
    } else if e < s.len() {
        assert(t[0] == s[e]);
    }
}

/// The end of the line that starts at `from`: the position of the next line
/// feed, or the length of `s`.
pub fn line_end(s: &Vec<char>, from: usize) -> (e: usize)
    requires
        from <= s.len(),
    ensures
        from <= e <= s.len(),
        e == from + line_break(s@.skip(from as int)),
{
    let mut e: usize = from;
    while e < s.len() && s[e] != '\n'
        invariant
            from <= e <= s.len(),
            forall|j: int| from <= j < e ==> #[trigger] s@[j] != '\n',
        decreases s.len() - e,
    {
        e += 1;
    }
    proof {
        lemma_line_break_found(s@, from as int, e as int);
    }
    e
}

} // verus!
