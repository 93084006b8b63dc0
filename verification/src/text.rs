//! Character-level text helpers: searching, trimming, splitting into lines
//! and fields, and the specifications they are proved against.
use crate::codec::string_from_chars;
use vstd::prelude::*;

verus! {

/// The Unicode `White_Space` property, which `char::is_whitespace` tests.
pub open spec fn is_white_space(c: char) -> bool {
    let u = c as u32;
    ||| 0x09 <= u <= 0x0d
    ||| u == 0x20
    ||| u == 0x85
    ||| u == 0xa0
    ||| u == 0x1680
    ||| 0x2000 <= u <= 0x200a
    ||| u == 0x2028
    ||| u == 0x2029
    ||| u == 0x202f
    ||| u == 0x205f
    ||| u == 0x3000
}

/// Whether `c` has the Unicode `White_Space` property.
pub fn is_white_space_char(c: char) -> (res: bool)
    ensures
        res == is_white_space(c),
{
    let u = c as u32;
    (0x09 <= u && u <= 0x0d) || u == 0x20 || u == 0x85 || u == 0xa0 || u == 0x1680 || (0x2000
        <= u && u <= 0x200a) || u == 0x2028 || u == 0x2029 || u == 0x202f || u == 0x205f || u
        == 0x3000
}

/// Whether `c` occurs in `s`.
pub open spec fn has_char(s: Seq<char>, c: char) -> bool {
    exists|i: int| 0 <= i < s.len() && s[i] == c
}

/// The first index at or after `i` where `c` occurs in `s`, or `s.len()` if there is none.
pub open spec fn find_from(s: Seq<char>, c: char, i: int) -> int
    decreases s.len() - i,
{
    if i < 0 || i >= s.len() {
        s.len() as int
    } else if s[i] == c {
        i
    } else {
        find_from(s, c, i + 1)
    }
}

/// The first index of `c` in `s`, or `s.len()` if `c` does not occur.
pub open spec fn first_index_of(s: Seq<char>, c: char) -> int {
    find_from(s, c, 0)
}

pub proof fn lemma_find_from(s: Seq<char>, c: char, i: int)
    requires
        0 <= i <= s.len(),
    ensures
        i <= find_from(s, c, i) <= s.len(),
        find_from(s, c, i) < s.len() ==> s[find_from(s, c, i)] == c,
        forall|j: int| i <= j < find_from(s, c, i) ==> s[j] != c,
    decreases s.len() - i,
{
    if i < s.len() && s[i] != c {
        lemma_find_from(s, c, i + 1);
    }
}

/// Searching from `i` in `s` is searching in the suffix `s.skip(i)`, shifted by `i`.
pub proof fn lemma_find_from_skip(s: Seq<char>, c: char, i: int, k: int)
    requires
        0 <= i <= k <= s.len(),
    ensures
        find_from(s, c, k) == i + find_from(s.skip(i), c, k - i),
    decreases s.len() - k,
{
    if k < s.len() && s[k] != c {
        lemma_find_from_skip(s, c, i, k + 1);
    }
}

pub proof fn lemma_first_index_of(s: Seq<char>, c: char)
    ensures
        0 <= first_index_of(s, c) <= s.len(),
        first_index_of(s, c) < s.len() ==> s[first_index_of(s, c)] == c,
        forall|j: int| 0 <= j < first_index_of(s, c) ==> s[j] != c,
        first_index_of(s, c) == s.len() <==> !has_char(s, c),
{
    lemma_find_from(s, c, 0);
}

/// The first index at or after `from` where `c` occurs in `s`, or `s.len()`.
pub fn find_char_from(s: &[char], c: char, from: usize) -> (res: usize)
    requires
        from <= s@.len(),
    ensures
        res == find_from(s@, c, from as int),
{
    let mut i = from;
    while i < s.len()
        invariant
            from <= i <= s@.len(),
            find_from(s@, c, from as int) == find_from(s@, c, i as int),
        decreases s@.len() - i,
    {
        if s[i] == c {
            return i;
        }
        i = i + 1;
    }
    i
}

/// Whether `c` occurs in `s`.
pub fn contains_char(s: &[char], c: char) -> (res: bool)
    ensures
        res == has_char(s@, c),
{
    let i = find_char_from(s, c, 0);
    proof {
        lemma_first_index_of(s@, c);
    }
    i < s.len()
}

/// The characters of `s` in `from..to`, as a new vector.
pub fn copy_range(s: &[char], from: usize, to: usize) -> (res: Vec<char>)
    requires
        from <= to <= s@.len(),
    ensures
        res@ == s@.subrange(from as int, to as int),
{
    let mut out: Vec<char> = Vec::new();
    let mut i = from;
    while i < to
        invariant
            from <= i <= to <= s@.len(),
            out@ == s@.subrange(from as int, i as int),
        decreases to - i,
    {
        out.push(s[i]);
        i = i + 1;
    }
    out
}

/// The characters of a string slice, in order.
pub fn chars_of(s: &str) -> (res: Vec<char>)
    ensures
        res@ == s@,
{
    let mut out: Vec<char> = Vec::new();
    for c in it: s.chars()
        invariant
            out@ == it.seq().take(it.index() as int),
    {
        out.push(c);
    }
    out
}

/// Whether `p` is a prefix of `s`.
pub open spec fn starts_with(s: Seq<char>, p: Seq<char>) -> bool {
    p.len() <= s.len() && s.take(p.len() as int) == p
}

/// Whether `p` is a prefix of `s`.
pub fn chars_start_with(s: &[char], p: &[char]) -> (res: bool)
    ensures
        res == starts_with(s@, p@),
{
    if p.len() > s.len() {
        return false;
    }
    let mut i: usize = 0;
    while i < p.len()
        invariant
            p@.len() <= s@.len(),
            i <= p@.len(),
            forall|j: int| 0 <= j < i ==> s@[j] == p@[j],
        decreases p@.len() - i,
    {
        if s[i] != p[i] {
            assert(s@.take(p@.len() as int)[i as int] != p@[i as int]);
            return false;
        }
        i = i + 1;
    }
    assert(s@.take(p@.len() as int) =~= p@);
    true
}

/// The index of the first character of `s` at or after `i` that is not white space.
pub open spec fn skip_white_from(s: Seq<char>, i: int) -> int
    decreases s.len() - i,
{
    if i < 0 || i >= s.len() {
        s.len() as int
    } else if is_white_space(s[i]) {
        skip_white_from(s, i + 1)
    } else {
        i
    }
}

/// The end of `s.take(j)` once trailing white space is removed.
pub open spec fn back_white_to(s: Seq<char>, j: int) -> int
    decreases j,
{
    if j <= 0 || j > s.len() {
        0
    } else if is_white_space(s[j - 1]) {
        back_white_to(s, j - 1)
    } else {
        j
    }
}

/// `s` without leading and trailing white space (what `str::trim` returns).
pub open spec fn trim(s: Seq<char>) -> Seq<char> {
    let a = skip_white_from(s, 0);
    if a >= s.len() {
        Seq::empty()
    } else {
        s.subrange(a, back_white_to(s, s.len() as int))
    }
}

pub proof fn lemma_skip_white_from(s: Seq<char>, i: int)
    requires
        0 <= i <= s.len(),
    ensures
        i <= skip_white_from(s, i) <= s.len(),
        skip_white_from(s, i) < s.len() ==> !is_white_space(s[skip_white_from(s, i)]),
        forall|j: int| i <= j < skip_white_from(s, i) ==> is_white_space(s[j]),
    decreases s.len() - i,
{
    if i < s.len() && is_white_space(s[i]) {
        lemma_skip_white_from(s, i + 1);
    }
}

pub proof fn lemma_back_white_to(s: Seq<char>, j: int)
    requires
        0 <= j <= s.len(),
    ensures
        0 <= back_white_to(s, j) <= j,
        back_white_to(s, j) > 0 ==> !is_white_space(s[back_white_to(s, j) - 1]),
        forall|k: int| back_white_to(s, j) <= k < j ==> is_white_space(s[k]),
    decreases j,
{
    if j > 0 && is_white_space(s[j - 1]) {
        lemma_back_white_to(s, j - 1);
    }
}

/// A text whose first and last characters are not white space is its own trim.
pub proof fn lemma_trim_unchanged(s: Seq<char>)
    requires
        s.len() > 0,
        !is_white_space(s[0]),
        !is_white_space(s[s.len() - 1]),
    ensures
        trim(s) == s,
{
    assert(skip_white_from(s, 0) == 0);
    assert(back_white_to(s, s.len() as int) == s.len());
    assert(s.subrange(0, s.len() as int) =~= s);
}

/// The bounds `(a, b)` such that `s@.subrange(a, b)` is the trim of `s`.
pub fn trim_bounds(s: &[char]) -> (res: (usize, usize))
    ensures
        res.0 <= res.1 <= s@.len(),
        s@.subrange(res.0 as int, res.1 as int) == trim(s@),
{
    let mut a: usize = 0;
    while a < s.len()
        invariant
            a <= s@.len(),
            skip_white_from(s@, 0) == skip_white_from(s@, a as int),
        ensures
            a <= s@.len(),
            skip_white_from(s@, 0) == skip_white_from(s@, a as int),
            a < s@.len() ==> !is_white_space(s@[a as int]),
        decreases s@.len() - a,
    {
        if !is_white_space_char(s[a]) {
            break;
        }
        a = a + 1;
    }
    if a >= s.len() {
        assert(s@.subrange(a as int, a as int) =~= Seq::<char>::empty());
        return (a, a);
    }
    let mut b: usize = s.len();
    while b > a
        invariant
            a < s@.len(),
            a <= b <= s@.len(),
            !is_white_space(s@[a as int]),
            back_white_to(s@, s@.len() as int) == back_white_to(s@, b as int),
        ensures
            a <= b <= s@.len(),
            back_white_to(s@, s@.len() as int) == back_white_to(s@, b as int),
            b > a ==> !is_white_space(s@[b - 1]),
        decreases b,
    {
        if !is_white_space_char(s[b - 1]) {
            break;
        }
        b = b - 1;
    }
    proof {
        lemma_back_white_to(s@, s@.len() as int);
        lemma_back_white_to(s@, b as int);
        lemma_skip_white_from(s@, a as int);
        // the backward scan cannot pass the character at `a`, which is not white space
        assert(b > a);
    }
    (a, b)
}

/// The three fields of `s` separated by `sep`, as `str::splitn(3, sep)` gives them:
/// the text before the first `sep`, then (if there is one) the text up to the
/// next `sep`, then (if there is one) the rest.
pub open spec fn split3(s: Seq<char>, sep: char) -> (Seq<char>, Option<Seq<char>>, Option<Seq<char>>) {
    let a = first_index_of(s, sep);
    if a >= s.len() {
        (s, None, None)
    } else {
        let r = s.skip(a + 1);
        let b = first_index_of(r, sep);
        if b >= r.len() {
            (s.take(a), Some(r), None)
        } else {
            (s.take(a), Some(r.take(b)), Some(r.skip(b + 1)))
        }
    }
}

/// The fields of `s` as `split3` describes them, each as a new vector.
pub fn split3_chars(s: &[char], sep: char) -> (res: (Vec<char>, Option<Vec<char>>, Option<Vec<char>>))
    ensures
        res.0@ == split3(s@, sep).0,
        res.1 is Some == split3(s@, sep).1 is Some,
        res.1 matches Some(v) ==> v@ == split3(s@, sep).1->0,
        res.2 is Some == split3(s@, sep).2 is Some,
        res.2 matches Some(v) ==> v@ == split3(s@, sep).2->0,
{
    let len = s.len();
    let a = find_char_from(s, sep, 0);
    proof {
        lemma_find_from(s@, sep, 0);
    }
    if a >= len {
        assert(s@.subrange(0, len as int) =~= s@);
        return (copy_range(s, 0, len), None, None);
    }
    let b = find_char_from(s, sep, a + 1);
    proof {
        lemma_find_from(s@, sep, a + 1);
        lemma_find_from_skip(s@, sep, a + 1, a + 1);
        let r = s@.skip(a + 1);
        assert(s@.take(a as int) =~= s@.subrange(0, a as int));
        if b < len {
            assert(r.take(b - (a + 1)) =~= s@.subrange(a + 1, b as int));
            assert(r.skip(b - (a + 1) + 1) =~= s@.subrange(b + 1, len as int));
        } else {
            assert(r =~= s@.subrange(a + 1, len as int));
        }
    }
    let first = copy_range(s, 0, a);
    if b >= len {
        (first, Some(copy_range(s, a + 1, len)), None)
    } else {
        (first, Some(copy_range(s, a + 1, b)), Some(copy_range(s, b + 1, len)))
    }
}

/// `l` without one trailing carriage return.
pub open spec fn strip_cr(l: Seq<char>) -> Seq<char> {
    if l.len() > 0 && l.last() == '\r' {
        l.drop_last()
    } else {
        l
    }
}

/// The lines of `t`, as `str::lines` gives them: split at each `\n`, a `\r` just
/// before a `\n` dropped, and no empty line after a final `\n`.
pub open spec fn lines_of(t: Seq<char>) -> Seq<Seq<char>>
    decreases t.len(),
{
    if t.len() == 0 {
        Seq::empty()
    } else {
        let n = first_index_of(t, '\n');
        if n >= t.len() {
            seq![t]
        } else {
            proof {
                lemma_find_from(t, '\n', 0);
            }
            seq![strip_cr(t.take(n))] + lines_of(t.skip(n + 1))
        }
    }
}

/// `ls` joined with `\n` between consecutive lines.
pub open spec fn join_lines(ls: Seq<Seq<char>>) -> Seq<char>
    decreases ls.len(),
{
    if ls.len() == 0 {
        Seq::empty()
    } else if ls.len() == 1 {
        ls[0]
    } else {
        ls[0] + seq!['\n'] + join_lines(ls.drop_first())
    }
}

/// A line that `join_lines` and `lines_of` carry through unchanged.
pub open spec fn is_plain_line(l: Seq<char>) -> bool {
    &&& l.len() > 0
    &&& !has_char(l, '\n')
    &&& l.last() != '\r'
}

/// Splitting joined lines gives back the lines, when none is empty, holds a
/// `\n` or ends with `\r`.
pub proof fn lemma_lines_of_join(ls: Seq<Seq<char>>)
    requires
        forall|i: int| 0 <= i < ls.len() ==> is_plain_line(#[trigger] ls[i]),
    ensures
        lines_of(join_lines(ls)) == ls,
    decreases ls.len(),
{
    if ls.len() == 0 {
        assert(lines_of(join_lines(ls)) =~= ls);
    } else if ls.len() == 1 {
        let t = ls[0];
        assert(is_plain_line(ls[0]));
        lemma_first_index_of(t, '\n');
        assert(lines_of(t) =~= ls);
    } else {
        let l0 = ls[0];
        assert(is_plain_line(ls[0]));
        let rest = ls.drop_first();
        assert forall|i: int| 0 <= i < rest.len() implies is_plain_line(#[trigger] rest[i]) by {
            assert(rest[i] == ls[i + 1]);
        }
        lemma_lines_of_join(rest);
        let t = join_lines(ls);
        assert(t == l0 + seq!['\n'] + join_lines(rest));
        lemma_first_index_of(t, '\n');
        let n = first_index_of(t, '\n');
        assert(t[l0.len() as int] == '\n');
        if n < l0.len() {
            assert(t[n] == l0[n]);
            assert(false);
        }
        assert(n == l0.len());
        assert(t.take(n) =~= l0);
        assert(t.skip(n + 1) =~= join_lines(rest));
        assert(strip_cr(l0) == l0);
        assert(lines_of(t) =~= seq![l0] + rest);
        assert(seq![l0] + rest =~= ls);
    }
}

/// Whether `needle` occurs as a contiguous run in `hay`.
pub open spec fn contains_text(hay: Seq<char>, needle: Seq<char>) -> bool {
    exists|i: int| 0 <= i <= hay.len() - needle.len() && #[trigger] hay.subrange(i, i + needle.len()) == needle
}

/// Whether `needle` occurs as a contiguous run in `hay`.
pub fn chars_contain(hay: &[char], needle: &[char]) -> (res: bool)
    ensures
        res == contains_text(hay@, needle@),
{
    let n = needle.len();
    if n == 0 {
        assert(hay@.subrange(0, 0 + needle@.len() as int) =~= needle@);
        return true;
    }
    if n > hay.len() {
        return false;
    }
    let last = hay.len() - n;
    let mut i: usize = 0;
    while i <= last
        invariant
            n == needle@.len(),
            0 < n <= hay@.len() <= usize::MAX,
            last == hay@.len() - n,
            i <= last + 1,
            forall|k: int| 0 <= k < i ==> #[trigger] hay@.subrange(k, k + n) != needle@,
        decreases last + 1 - i,
    {
        let mut j: usize = 0;
        let mut same = true;
        while j < n
            invariant
                n == needle@.len(),
                i <= last,
                last + n == hay@.len(),
                hay@.len() <= usize::MAX,
                j <= n,
                same == (forall|m: int| 0 <= m < j ==> hay@[i + m] == needle@[m]),
            decreases n - j,
        {
            if hay[i + j] != needle[j] {
                same = false;
            }
            j = j + 1;
        }
        if same {
            assert(hay@.subrange(i as int, i + n) =~= needle@);
            return true;
        }
        proof {
            let m = choose|m: int| 0 <= m < n && hay@[i + m] != needle@[m];
            assert(hay@.subrange(i as int, i + n)[m] != needle@[m]);
        }
        i = i + 1;
    }
    false
}

/// Adding a line at the end of joined lines adds a `\n` and the line.
pub proof fn lemma_join_lines_push(ls: Seq<Seq<char>>, x: Seq<char>)
    ensures
        join_lines(ls.push(x)) == if ls.len() == 0 {
            x
        } else {
            join_lines(ls) + seq!['\n'] + x
        },
    decreases ls.len(),
{
    if ls.len() == 0 {
        assert(ls.push(x)[0] == x);
    } else if ls.len() == 1 {
        assert(ls.push(x).drop_first() =~= seq![x]);
        assert(ls.push(x)[0] == ls[0]);
        assert(join_lines(seq![x]) == x);
        assert(join_lines(ls.push(x)) =~= ls[0] + seq!['\n'] + x);
    } else {
        assert(ls.push(x)[0] == ls[0]);
        assert(ls.push(x).drop_first() =~= ls.drop_first().push(x));
        lemma_join_lines_push(ls.drop_first(), x);
        assert(join_lines(ls.push(x)) =~= join_lines(ls) + seq!['\n'] + x);
    }
}

/// The lines of `text`, as `str::lines` gives them.
pub fn split_lines(text: &str) -> (res: Vec<String>)
    ensures
        res@.map_values(|l: String| l@) == lines_of(text@),
{
    let t = chars_of(text);
    let len = t.len();
    let mut out: Vec<String> = Vec::new();
    let mut i: usize = 0;
    assert(t@.skip(0) =~= t@);
    while i < len
        invariant
            len == t@.len(),
            i <= len,
            lines_of(t@) == out@.map_values(|l: String| l@) + lines_of(t@.skip(i as int)),
        decreases len - i,
    {
        let n = find_char_from(t.as_slice(), '\n', i);
        let ghost u = t@.skip(i as int);
        proof {
            lemma_find_from(t@, '\n', i as int);
            lemma_find_from_skip(t@, '\n', i as int, i as int);
            assert(first_index_of(u, '\n') == n - i);
        }
        let ghost before = out@.map_values(|l: String| l@);
        if n >= len {
            let line = string_from_chars(copy_range(t.as_slice(), i, len).as_slice());
            out.push(line);
            proof {
                assert(u =~= t@.subrange(i as int, len as int));
                assert(lines_of(u) == seq![u]);
                assert(t@.skip(len as int) =~= Seq::<char>::empty());
                assert(out@.map_values(|l: String| l@) =~= before.push(u));
                assert(lines_of(t@) =~= out@.map_values(|l: String| l@) + lines_of(t@.skip(len as int)));
            }
            i = len;
        } else {
            let mut end = n;
            if end > i && t[end - 1] == '\r' {
                end = end - 1;
            }
            let line = string_from_chars(copy_range(t.as_slice(), i, end).as_slice());
            out.push(line);
            proof {
                let first = u.take(n - i);
                assert(first =~= t@.subrange(i as int, n as int));
                assert(strip_cr(first) =~= t@.subrange(i as int, end as int));
                assert(u.skip(n - i + 1) =~= t@.skip(n + 1));
                assert(lines_of(u) == seq![strip_cr(first)] + lines_of(u.skip(n - i + 1)));
                assert(out@.map_values(|l: String| l@) =~= before.push(strip_cr(first)));
                assert(lines_of(t@) =~= out@.map_values(|l: String| l@) + lines_of(t@.skip(n + 1)));
            }
            i = n + 1;
        }
    }
    proof {
        assert(t@.skip(len as int) =~= Seq::<char>::empty());
        assert(lines_of(t@.skip(len as int)) =~= Seq::<Seq<char>>::empty());
        assert(out@.map_values(|l: String| l@) + Seq::<Seq<char>>::empty() =~= out@.map_values(|l: String| l@));
    }
    out
}

/// `lines` joined with `\n` between consecutive lines.
pub fn join_with_newlines(lines: &Vec<String>) -> (res: String)
    ensures
        res@ == join_lines(lines@.map_values(|l: String| l@)),
{
    let ghost ls = lines@.map_values(|l: String| l@);
    let mut out = String::new();
    let mut i: usize = 0;
    while i < lines.len()
        invariant
            i <= lines@.len(),
            ls == lines@.map_values(|l: String| l@),
            out@ == join_lines(ls.take(i as int)),
        decreases lines@.len() - i,
    {
        proof {
            lemma_join_lines_push(ls.take(i as int), ls[i as int]);
            assert(ls.take(i + 1) =~= ls.take(i as int).push(ls[i as int]));
        }
        if i > 0 {
            out.append("\n");
            proof {
                reveal_strlit("\n");
            }
        }
        out.append(lines[i].as_str());
        proof {
            if i == 0 {
                assert(join_lines(ls.take(0)) =~= Seq::<char>::empty());
                assert(out@ =~= ls[0]);
            } else {
                assert(out@ =~= join_lines(ls.take(i as int)) + seq!['\n'] + ls[i as int]);
            }
        }
        i = i + 1;
    }
    assert(ls.take(lines@.len() as int) =~= ls);
    out
}

/// White space added before and after a text leaves its trim unchanged.
pub proof fn lemma_trim_padded(w1: Seq<char>, l: Seq<char>, w2: Seq<char>)
    requires
        forall|i: int| 0 <= i < w1.len() ==> is_white_space(#[trigger] w1[i]),
        forall|i: int| 0 <= i < w2.len() ==> is_white_space(#[trigger] w2[i]),
    ensures
        trim(w1 + l + w2) == trim(l),
{
    let s = w1 + l + w2;
    let n1 = w1.len() as int;
    assert forall|i: int| 0 <= i < l.len() implies #[trigger] s[n1 + i] == l[i] by {}
    lemma_skip_white_from(l, 0);
    lemma_skip_white_from(s, 0);
    let al = skip_white_from(l, 0);
    let as_ = skip_white_from(s, 0);
    if al >= l.len() {
        // every character of `s` is white space
        if as_ < s.len() {
            if as_ < n1 {
                assert(is_white_space(w1[as_]));
            } else if as_ < n1 + l.len() {
                assert(s[as_] == l[as_ - n1]);
            } else {
                assert(s[as_] == w2[as_ - n1 - l.len()]);
                assert(is_white_space(w2[as_ - n1 - l.len()]));
            }
        }
    } else {
        assert(s[n1 + al] == l[al]);
        if as_ < n1 + al {
            if as_ < n1 {
                assert(is_white_space(w1[as_]));
            } else {
                assert(s[as_] == l[as_ - n1]);
            }
        }
        assert(as_ == n1 + al);
        let bl = back_white_to(l, l.len() as int);
        let bs = back_white_to(s, s.len() as int);
        lemma_back_white_to(l, l.len() as int);
        lemma_back_white_to(s, s.len() as int);
        assert(bl > al);
        assert(bs > n1 + al);
        assert(!is_white_space(l[bl - 1]));
        assert(s[n1 + bl - 1] == l[bl - 1]);
        if bs > n1 + bl {
            if bs - 1 < n1 + l.len() {
                assert(s[bs - 1] == l[bs - 1 - n1]);
            } else {
                assert(s[bs - 1] == w2[bs - 1 - n1 - l.len()]);
                assert(is_white_space(w2[bs - 1 - n1 - l.len()]));
            }
        }
        if bs < n1 + bl {
            assert(is_white_space(s[n1 + bl - 1]));
        }
        assert(bs == n1 + bl);
        assert(s.subrange(as_, bs) =~= l.subrange(al, bl));
    }
}

} // verus!
