//! Character-level text utilities shared by the rules.
//!
//! The rules scan lines as sequences of characters.  This module provides
//! the conversions between `String`/`&str` and `Vec<char>`, whitespace
//! trimming, and decimal rendering of counters for problem messages.

use vstd::prelude::*;
use vstd::string::*;

verus! {

/// The whitespace characters recognised by the linter: the ASCII blanks.
pub open spec fn is_ws_char(c: char) -> bool {
    c == ' ' || c == '\t' || c == '\r' || c == '\n' || c == '\u{b}' || c == '\u{c}'
}

/// Executable form of [`is_ws_char`].
pub fn ws_char(c: char) -> (r: bool)
    ensures
        r == is_ws_char(c),
{
    c == ' ' || c == '\t' || c == '\r' || c == '\n' || c == '\u{b}' || c == '\u{c}'
}

/// Number of whitespace characters at the front of `s`.
pub open spec fn leading_ws(s: Seq<char>) -> int
    decreases s.len(),
{
    if s.len() == 0 {
        0
    } else if is_ws_char(s[0]) {
        1 + leading_ws(s.skip(1))
    } else {
        0
    }
}

/// Number of whitespace characters at the back of `s`.
pub open spec fn trailing_ws(s: Seq<char>) -> int
    decreases s.len(),
{
    if s.len() == 0 {
        0
    } else if is_ws_char(s.last()) {
        1 + trailing_ws(s.drop_last())
    } else {
        0
    }
}

/// A line is blank when every character is whitespace.
pub open spec fn is_blank(s: Seq<char>) -> bool {
    forall|j: int| 0 <= j < s.len() ==> is_ws_char(s[j])
}

/// `s` with leading and trailing whitespace removed.
pub open spec fn trimmed(s: Seq<char>) -> Seq<char> {
    if is_blank(s) {
        Seq::empty()
    } else {
        s.subrange(leading_ws(s), s.len() - trailing_ws(s))
    }
}

pub proof fn lemma_leading_ws_props(s: Seq<char>)
    ensures
        0 <= leading_ws(s) <= s.len(),
        forall|j: int| 0 <= j < leading_ws(s) ==> is_ws_char(s[j]),
        leading_ws(s) < s.len() ==> !is_ws_char(s[leading_ws(s)]),
    decreases s.len(),
{
    if s.len() == 0 {
    } else if is_ws_char(s[0]) {
        lemma_leading_ws_props(s.skip(1));
        assert forall|j: int| 0 <= j < leading_ws(s) implies is_ws_char(s[j]) by {
            if j > 0 {
                assert(s.skip(1)[j - 1] == s[j]);
            }
        }
        if leading_ws(s) < s.len() {
            assert(s.skip(1)[leading_ws(s) - 1] == s[leading_ws(s)]);
        }
    } else {
    }
}

pub proof fn lemma_leading_ws_eq(s: Seq<char>, i: int)
    requires
        0 <= i <= s.len(),
        forall|j: int| 0 <= j < i ==> is_ws_char(s[j]),
        i < s.len() ==> !is_ws_char(s[i]),
    ensures
        leading_ws(s) == i,
    decreases s.len(),
{
    if i == 0 {
    } else {
        assert(is_ws_char(s[0]));
        assert forall|j: int| 0 <= j < i - 1 implies is_ws_char(s.skip(1)[j]) by {
            assert(s.skip(1)[j] == s[j + 1]);
        }
        if i - 1 < s.skip(1).len() {
            assert(s.skip(1)[i - 1] == s[i]);
        }
        lemma_leading_ws_eq(s.skip(1), i - 1);
    }
}

pub proof fn lemma_trailing_ws_props(s: Seq<char>)
    ensures
        0 <= trailing_ws(s) <= s.len(),
        forall|j: int| s.len() - trailing_ws(s) <= j < s.len() ==> is_ws_char(s[j]),
        trailing_ws(s) < s.len() ==> !is_ws_char(s[s.len() - trailing_ws(s) - 1]),
    decreases s.len(),
{
    if s.len() == 0 {
    } else if is_ws_char(s.last()) {
        lemma_trailing_ws_props(s.drop_last());
        assert forall|j: int| s.len() - trailing_ws(s) <= j < s.len() implies is_ws_char(s[j]) by {
            if j < s.len() - 1 {
                assert(s.drop_last()[j] == s[j]);
            }
        }
        if trailing_ws(s) < s.len() {
            assert(s.drop_last()[s.len() - trailing_ws(s) - 1] == s[s.len() - trailing_ws(s) - 1]);
        }
    } else {
    }
}

pub proof fn lemma_trailing_ws_eq(s: Seq<char>, k: int)
    requires
        0 <= k <= s.len(),
        forall|j: int| s.len() - k <= j < s.len() ==> is_ws_char(s[j]),
        k < s.len() ==> !is_ws_char(s[s.len() - k - 1]),
    ensures
        trailing_ws(s) == k,
    decreases s.len(),
{
    if k == 0 {
    } else {
        assert(is_ws_char(s.last()));
        assert forall|j: int| s.drop_last().len() - (k - 1) <= j < s.drop_last().len()
            implies is_ws_char(s.drop_last()[j]) by {
            assert(s.drop_last()[j] == s[j]);
        }
        if k - 1 < s.drop_last().len() {
            assert(s.drop_last()[s.drop_last().len() - (k - 1) - 1] == s[s.len() - k - 1]);
        }
        lemma_trailing_ws_eq(s.drop_last(), k - 1);
    }
}

/// When a line is blank, its leading whitespace is the whole line.
pub proof fn lemma_blank_leading_ws(s: Seq<char>)
    ensures
        is_blank(s) <==> leading_ws(s) == s.len(),
{
    lemma_leading_ws_props(s);
    if leading_ws(s) == s.len() {
    }
    if is_blank(s) {
        lemma_leading_ws_eq(s, s.len() as int);
    }
}

/// Index of the first non-whitespace character, or the length for blank lines.
pub fn leading_ws_len(v: &Vec<char>) -> (r: usize)
    ensures
        r == leading_ws(v@),
{
    let n = v.len();
    let mut i: usize = 0;
    while i < n && ws_char(v[i])
        invariant
            0 <= i <= n,
            n == v@.len(),
            forall|j: int| 0 <= j < i ==> is_ws_char(v@[j]),
        decreases n - i,
    {
        i = i + 1;
    }
    proof {
        lemma_leading_ws_eq(v@, i as int);
    }
    i
}

/// Number of trailing whitespace characters of `v`.
pub fn trailing_ws_len(v: &Vec<char>) -> (r: usize)
    ensures
        r == trailing_ws(v@),
{
    let n = v.len();
    let mut k: usize = 0;
    while k < n && ws_char(v[n - k - 1])
        invariant
            0 <= k <= n,
            n == v@.len(),
            forall|j: int| n - k <= j < n ==> is_ws_char(v@[j]),
        decreases n - k,
    {
        k = k + 1;
    }
    proof {
        lemma_trailing_ws_eq(v@, k as int);
    }
    k
}

/// Whether every character of the line is whitespace.
pub fn blank_line(v: &Vec<char>) -> (r: bool)
    ensures
        r == is_blank(v@),
{
    let r = leading_ws_len(v) == v.len();
    proof {
        lemma_blank_leading_ws(v@);
    }
    r
}

/// The characters of `v` from `lo` (inclusive) to `hi` (exclusive).
pub fn sub_chars(v: &Vec<char>, lo: usize, hi: usize) -> (r: Vec<char>)
    requires
        lo <= hi <= v@.len(),
    ensures
        r@ == v@.subrange(lo as int, hi as int),
{
    let mut r: Vec<char> = Vec::new();
    let mut i: usize = lo;
    while i < hi
        invariant
            lo <= i <= hi <= v@.len(),
            r@ == v@.subrange(lo as int, i as int),
        decreases hi - i,
    {
        r.push(v[i]);
        i = i + 1;
        assert(r@ =~= v@.subrange(lo as int, i as int));
    }
    r
}

/// `v` with leading and trailing whitespace removed.
pub fn trim_chars(v: &Vec<char>) -> (r: Vec<char>)
    ensures
        r@ == trimmed(v@),
{
    proof {
        lemma_leading_ws_props(v@);
        lemma_trailing_ws_props(v@);
        lemma_blank_leading_ws(v@);
    }
    let lead = leading_ws_len(v);
    if lead == v.len() {
        let r: Vec<char> = Vec::new();
        assert(r@ =~= trimmed(v@));
        r
    } else {
        let trail = trailing_ws_len(v);
        assert(lead < v@.len() - trail) by {
            assert(!is_ws_char(v@[lead as int]));
        }
        sub_chars(v, lead, v.len() - trail)
    }
}

/// `s` with trailing whitespace removed.
pub open spec fn trimmed_end(s: Seq<char>) -> Seq<char> {
    s.take(s.len() - trailing_ws(s))
}

/// `v` with trailing whitespace removed.
pub fn trim_end_chars(v: &Vec<char>) -> (r: Vec<char>)
    ensures
        r@ == trimmed_end(v@),
{
    let k = trailing_ws_len(v);
    proof {
        lemma_trailing_ws_props(v@);
    }
    sub_chars(v, 0, v.len() - k)
}

/// The lines joined with a line break between consecutive lines.
pub open spec fn join_nl(ls: Seq<Seq<char>>) -> Seq<char>
    decreases ls.len(),
{
    if ls.len() == 0 {
        Seq::empty()
    } else if ls.len() == 1 {
        ls[0]
    } else {
        ls[0] + seq!['\n'] + join_nl(ls.drop_first())
    }
}

/// Joining one more line appends a break and the line.
pub proof fn lemma_join_nl_push(ls: Seq<Seq<char>>, x: Seq<char>)
    ensures
        ls.len() == 0 ==> join_nl(ls.push(x)) == x,
        ls.len() > 0 ==> join_nl(ls.push(x)) == join_nl(ls) + seq!['\n'] + x,
    decreases ls.len(),
{
    if ls.len() == 0 {
        assert(ls.push(x)[0] == x);
    } else {
        lemma_join_nl_push(ls.drop_first(), x);
        assert(ls.push(x).drop_first() =~= ls.drop_first().push(x));
        if ls.len() == 1 {
            assert(join_nl(ls.push(x)) == ls[0] + seq!['\n'] + join_nl(ls.drop_first().push(x)));
            assert(join_nl(ls.drop_first().push(x)) == x);
        } else {
            assert(join_nl(ls.push(x)) == ls[0] + seq!['\n'] + join_nl(ls.drop_first().push(x)));
            assert(join_nl(ls.drop_first().push(x)) == join_nl(ls.drop_first()) + seq!['\n'] + x);
            assert(ls[0] + seq!['\n'] + (join_nl(ls.drop_first()) + seq!['\n'] + x) =~= (ls[0]
                + seq!['\n'] + join_nl(ls.drop_first())) + seq!['\n'] + x);
        }
    }
}

/// Relies on `String::push`: appends one character at the end of the string.
#[verifier::external_body]
pub(crate) fn push_char(s: &mut String, c: char)
    ensures
        final(s)@ == old(s)@.push(c),
{
    s.push(c);
}

/// Append the characters of `src[lo..hi]` to `dst`.
pub fn extend_chars(dst: &mut Vec<char>, src: &Vec<char>, lo: usize, hi: usize)
    requires
        lo <= hi <= src@.len(),
    ensures
        final(dst)@ == old(dst)@ + src@.subrange(lo as int, hi as int),
{
    let ghost base = dst@;
    let mut i: usize = lo;
    while i < hi
        invariant
            lo <= i <= hi <= src@.len(),
            dst@ == base + src@.subrange(lo as int, i as int),
        decreases hi - i,
    {
        dst.push(src[i]);
        i = i + 1;
        assert(dst@ =~= base + src@.subrange(lo as int, i as int));
    }
    assert(dst@ =~= base + src@.subrange(lo as int, hi as int));
}

/// The deep view of a vector of character lines indexes to the lines' views.
pub proof fn lemma_deep_view_chars(v: Vec<Vec<char>>)
    ensures
        v.deep_view().len() == v@.len(),
        forall|k: int| 0 <= k < v@.len() ==> v.deep_view()[k] == v@[k]@,
{
    assert forall|k: int| 0 <= k < v@.len() implies v.deep_view()[k] == v@[k]@ by {
        assert(v.deep_view()[k] =~= v@[k]@);
    }
}

/// Append one line, extending the deep view by its characters.
pub fn push_line(out: &mut Vec<Vec<char>>, line: Vec<char>)
    ensures
        final(out).deep_view() == old(out).deep_view().push(line@),
{
    let ghost pre = *out;
    out.push(line);
    proof {
        lemma_deep_view_chars(pre);
        lemma_deep_view_chars(*out);
        assert(out.deep_view() =~= pre.deep_view().push(line@));
    }
}

/// The lines joined with line breaks, with a final break when `final_nl`.
pub fn join_lines_string(lines: &Vec<Vec<char>>, final_nl: bool) -> (r: String)
    ensures
        r@ == join_nl(lines.deep_view()) + (if final_nl {
            seq!['\n']
        } else {
            Seq::<char>::empty()
        }),
{
    let ghost dv = lines.deep_view();
    let mut s = String::new();
    let mut k: usize = 0;
    while k < lines.len()
        invariant
            0 <= k <= lines@.len(),
            dv == lines.deep_view(),
            dv.len() == lines@.len(),
            s@ == join_nl(dv.take(k as int)),
        decreases lines@.len() - k,
    {
        if k > 0 {
            push_char(&mut s, '\n');
        }
        let piece = string_of(&lines[k]);
        s.append(piece.as_str());
        proof {
            lemma_join_nl_push(dv.take(k as int), dv[k as int]);
            assert(dv.take(k as int).push(dv[k as int]) =~= dv.take(k + 1));
            if k == 0 {
                assert(s@ == join_nl(dv.take(k + 1)));
            } else {
                assert(s@ =~= join_nl(dv.take(k as int)) + seq!['\n'] + dv[k as int]);
            }
        }
        k = k + 1;
    }
    assert(dv.take(dv.len() as int) =~= dv);
    if final_nl {
        push_char(&mut s, '\n');
        assert(s@ =~= join_nl(dv) + seq!['\n']);
    } else {
        assert(s@ =~= join_nl(dv) + Seq::<char>::empty());
    }
    s
}

/// The characters of a string slice, in order.
pub fn chars_of(s: &str) -> (r: Vec<char>)
    ensures
        r@ == s@,
{
    let n = s.unicode_len();
    let mut v: Vec<char> = Vec::new();
    let mut i: usize = 0;
    while i < n
        invariant
            0 <= i <= n,
            n == s@.len(),
            v@ == s@.take(i as int),
        decreases n - i,
    {
        v.push(s.get_char(i));
        i = i + 1;
        assert(v@ =~= s@.take(i as int));
    }
    assert(s@.take(n as int) =~= s@);
    v
}

/// A `String` holding exactly the characters of `v`.
pub fn string_of(v: &Vec<char>) -> (r: String)
    ensures
        r@ == v@,
{
    let mut s = String::new();
    let mut i: usize = 0;
    while i < v.len()
        invariant
            0 <= i <= v@.len(),
            s@ == v@.take(i as int),
        decreases v@.len() - i,
    {
        push_char(&mut s, v[i]);
        i = i + 1;
        assert(s@ =~= v@.take(i as int));
    }
    assert(v@.take(v@.len() as int) =~= v@);
    s
}

/// Whether two string slices hold the same characters.
pub fn str_eq(a: &str, b: &str) -> (r: bool)
    ensures
        r == (a@ == b@),
{
    let sa = String::from_str(a);
    let sb = String::from_str(b);
    sa == sb
}

/// The 1-indexed column just past offset `n`, capped at the largest
/// machine index; the cap is unreachable for any line that fits in memory.
pub open spec fn col_after(n: int) -> int {
    if n < usize::MAX {
        n + 1
    } else {
        n
    }
}

/// Executable form of [`col_after`].
pub fn col_after_idx(n: usize) -> (r: usize)
    ensures
        r == col_after(n as int),
{
    if n < usize::MAX {
        n + 1
    } else {
        n
    }
}

/// The code point of `c`, upper-case ASCII letters folded to lower case.
pub open spec fn lower_code(c: char) -> int {
    if 65 <= c as u32 && c as u32 <= 90 {
        c as u32 + 32
    } else {
        c as u32 as int
    }
}

/// Whether two character sequences agree up to ASCII case.
pub open spec fn eq_ignore_case(a: Seq<char>, b: Seq<char>) -> bool {
    a.len() == b.len() && forall|i: int| 0 <= i < a.len() ==> lower_code(a[i]) == lower_code(b[i])
}

/// Compare two lines of characters up to ASCII case.
pub fn chars_eq_ignore_case(a: &Vec<char>, b: &Vec<char>) -> (r: bool)
    ensures
        r == eq_ignore_case(a@, b@),
{
    if a.len() != b.len() {
        return false;
    }
    let n = a.len();
    let mut i: usize = 0;
    while i < n
        invariant
            0 <= i <= n,
            n == a@.len() == b@.len(),
            forall|j: int| 0 <= j < i ==> lower_code(a@[j]) == lower_code(b@[j]),
        decreases n - i,
    {
        let ca = a[i] as u32;
        let cb = b[i] as u32;
        let xa: u32 = if 65 <= ca && ca <= 90 {
            ca + 32
        } else {
            ca
        };
        let xb: u32 = if 65 <= cb && cb <= 90 {
            cb + 32
        } else {
            cb
        };
        if xa != xb {
            assert(lower_code(a@[i as int]) != lower_code(b@[i as int]));
            return false;
        }
        i = i + 1;
    }
    true
}

/// Whether `p` occurs in `s` starting at offset `i`.
pub open spec fn is_sub_at(s: Seq<char>, p: Seq<char>, i: int) -> bool {
    0 <= i && i + p.len() <= s.len() && s.subrange(i, i + p.len()) == p
}

/// The first offset at or after `i` where `p` occurs in `s`.
pub open spec fn find_sub_from(s: Seq<char>, p: Seq<char>, i: int) -> Option<int>
    decreases s.len() + 1 - i,
{
    if i < 0 || i + p.len() > s.len() {
        None
    } else if s.subrange(i, i + p.len()) == p {
        Some(i)
    } else {
        find_sub_from(s, p, i + 1)
    }
}

/// The offset of the first occurrence of `p` in `s`, or `None`.
pub open spec fn spec_find_sub(s: Seq<char>, p: Seq<char>) -> Option<int> {
    find_sub_from(s, p, 0)
}

/// A found occurrence is one, and lies within `s`.
pub proof fn lemma_find_sub_props(s: Seq<char>, p: Seq<char>, i: int)
    ensures
        find_sub_from(s, p, i) matches Some(k) ==> is_sub_at(s, p, k) && i <= k,
    decreases s.len() + 1 - i,
{
    if i < 0 || i + p.len() > s.len() {
    } else if s.subrange(i, i + p.len()) == p {
    } else {
        lemma_find_sub_props(s, p, i + 1);
    }
}

/// Search for the first occurrence of `p` in `s`.
pub fn find_sub(s: &Vec<char>, p: &Vec<char>) -> (r: Option<usize>)
    ensures
        match r {
            Some(k) => spec_find_sub(s@, p@) == Some(k as int),
            None => spec_find_sub(s@, p@) is None,
        },
{
    let n = s.len();
    let m = p.len();
    if m > n {
        return None;
    }
    let mut i: usize = 0;
    while i <= n - m
        invariant
            0 <= i <= n - m + 1,
            m <= n,
            n == s@.len(),
            m == p@.len(),
            spec_find_sub(s@, p@) == find_sub_from(s@, p@, i as int),
        decreases n + 1 - m - i,
    {
        let mut j: usize = 0;
        while j < m && s[i + j] == p[j]
            invariant
                0 <= j <= m,
                i + m <= n,
                n == s@.len(),
                m == p@.len(),
                forall|t: int| 0 <= t < j ==> s@[i + t] == p@[t],
            decreases m - j,
        {
            j = j + 1;
        }
        if j == m {
            assert(s@.subrange(i as int, i as int + p@.len() as int) =~= p@);
            return Some(i);
        }
        proof {
            assert(s@.subrange(i as int, i as int + p@.len() as int)[j as int] != p@[j as int]);
        }
        i = i + 1;
    }
    None
}

/// Index of the first occurrence of `c` in `s`, or `s.len()`.
pub open spec fn first_idx(s: Seq<char>, c: char) -> int
    decreases s.len(),
{
    if s.len() == 0 {
        0
    } else if s[0] == c {
        0
    } else {
        1 + first_idx(s.skip(1), c)
    }
}

pub proof fn lemma_first_idx_eq(s: Seq<char>, c: char, i: int)
    requires
        0 <= i <= s.len(),
        forall|j: int| 0 <= j < i ==> s[j] != c,
        i < s.len() ==> s[i] == c,
    ensures
        first_idx(s, c) == i,
    decreases s.len(),
{
    if i == 0 {
    } else {
        assert forall|j: int| 0 <= j < i - 1 implies s.skip(1)[j] != c by {
            assert(s.skip(1)[j] == s[j + 1]);
        }
        if i - 1 < s.skip(1).len() {
            assert(s.skip(1)[i - 1] == s[i]);
        }
        lemma_first_idx_eq(s.skip(1), c, i - 1);
    }
}

/// The index of the first occurrence of `c` in `v`, or `v.len()`.
pub fn find_char(v: &Vec<char>, c: char) -> (r: usize)
    ensures
        r == first_idx(v@, c),
        r <= v@.len(),
    {
    let n = v.len();
    let mut i: usize = 0;
    while i < n && v[i] != c
        invariant
            0 <= i <= n,
            n == v@.len(),
            forall|j: int| 0 <= j < i ==> v@[j] != c,
        decreases n - i,
    {
        i = i + 1;
    }
    proof {
        lemma_first_idx_eq(v@, c, i as int);
    }
    i
}

/// Whether the two characters occur adjacently, in order, in `s`.
pub open spec fn contains_pair(s: Seq<char>, a: char, b: char) -> bool {
    exists|i: int| 0 <= i && i + 1 < s.len() && #[trigger] s[i] == a && s[i + 1] == b
}

/// Scan for an adjacent occurrence of `a` then `b`.
pub fn has_pair(v: &Vec<char>, a: char, b: char) -> (r: bool)
    ensures
        r == contains_pair(v@, a, b),
{
    let n = v.len();
    if n < 2 {
        return false;
    }
    let mut i: usize = 0;
    while i + 1 < n
        invariant
            0 <= i,
            i + 1 <= n,
            n == v@.len(),
            forall|j: int| 0 <= j < i ==> !(#[trigger] v@[j] == a && v@[j + 1] == b),
        decreases n - i,
    {
        if v[i] == a && v[i + 1] == b {
            assert(contains_pair(v@, a, b));
            return true;
        }
        i = i + 1;
    }
    assert(!contains_pair(v@, a, b));
    false
}

/// `a + b`, capped at the largest machine index; the cap is unreachable
/// for any indentation that fits in memory.
pub open spec fn plus_cap(a: int, b: int) -> int {
    if a + b <= usize::MAX {
        a + b
    } else {
        usize::MAX as int
    }
}

/// Executable form of [`plus_cap`].
pub fn add_cap(a: usize, b: usize) -> (r: usize)
    ensures
        r == plus_cap(a as int, b as int),
{
    if a <= usize::MAX - b {
        a + b
    } else {
        usize::MAX
    }
}

/// Whether two character vectors hold the same characters.
pub fn chars_eq(a: &Vec<char>, b: &Vec<char>) -> (r: bool)
    ensures
        r == (a@ == b@),
{
    if a.len() != b.len() {
        return false;
    }
    let n = a.len();
    let mut i: usize = 0;
    while i < n
        invariant
            0 <= i <= n,
            n == a@.len() == b@.len(),
            forall|j: int| 0 <= j < i ==> a@[j] == b@[j],
        decreases n - i,
    {
        if a[i] != b[i] {
            return false;
        }
        i = i + 1;
    }
    assert(a@ =~= b@);
    true
}

/// Whether `s` holds the character `c`.
pub fn contains_char(s: &Vec<char>, c: char) -> (r: bool)
    ensures
        r == s@.contains(c),
{
    let n = s.len();
    let mut i: usize = 0;
    while i < n
        invariant
            0 <= i <= n,
            n == s@.len(),
            forall|j: int| 0 <= j < i ==> s@[j] != c,
        decreases n - i,
    {
        if s[i] == c {
            assert(s@.contains(c));
            return true;
        }
        i = i + 1;
    }
    assert(!s@.contains(c));
    false
}

/// The digit character for `d`.
pub open spec fn digit_char(d: int) -> char {
    if d == 0 {
        '0'
    } else if d == 1 {
        '1'
    } else if d == 2 {
        '2'
    } else if d == 3 {
        '3'
    } else if d == 4 {
        '4'
    } else if d == 5 {
        '5'
    } else if d == 6 {
        '6'
    } else if d == 7 {
        '7'
    } else if d == 8 {
        '8'
    } else {
        '9'
    }
}

/// The decimal rendering of `n`, most significant digit first.
pub open spec fn dec_digits(n: int) -> Seq<char>
    decreases n,
{
    if n < 10 {
        seq![digit_char(n)]
    } else {
        dec_digits(n / 10).push(digit_char(n % 10))
    }
}

/// Renders `n` in decimal.
pub fn usize_to_string(n: usize) -> (r: String)
    ensures
        r@ == dec_digits(n as int),
    decreases n,
{
    if n < 10 {
        let mut s = String::new();
        let c = match n {
            0 => '0',
            1 => '1',
            2 => '2',
            3 => '3',
            4 => '4',
            5 => '5',
            6 => '6',
            7 => '7',
            8 => '8',
            _ => '9',
        };
        assert(c == digit_char(n as int));
        push_char(&mut s, c);
        assert(s@ =~= dec_digits(n as int));
        s
    } else {
        let mut s = usize_to_string(n / 10);
        let d = n % 10;
        let c = match d {
            0 => '0',
            1 => '1',
            2 => '2',
            3 => '3',
            4 => '4',
            5 => '5',
            6 => '6',
            7 => '7',
            8 => '8',
            _ => '9',
        };
        assert(c == digit_char(d as int));
        push_char(&mut s, c);
        s
    }
}

} // verus!
