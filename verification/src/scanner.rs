//! Quote-aware scanning of a single line.
//!
//! Several rules must decide whether a character is structural (a mapping
//! colon, a comment marker) or mere text inside a quoted scalar.  This
//! module is the single point of truth for that decision.  The scanner
//! walks a line left to right tracking quote state: a `''` pair inside a
//! single-quoted run is an escaped quote, and a backslash inside a
//! double-quoted run skips the following character.

use vstd::prelude::*;

verus! {

/// Scanner state: outside any quote, inside a single-quoted run, or
/// inside a double-quoted run.
#[derive(Debug, Clone, Copy, PartialEq, Eq, Structural)]
pub enum QuoteState {
    /// Outside any quoted run.
    Outside,
    /// Inside a single-quoted run.
    Single,
    /// Inside a double-quoted run.
    Double,
}

/// The first position at or after `i`, scanning in state `st`, where
/// `target` occurs outside of any quoted run.
pub open spec fn find_from(s: Seq<char>, target: char, i: int, st: QuoteState) -> Option<int>
    decreases s.len() + 2 - i,
{
    if i < 0 || i >= s.len() {
        None
    } else {
        match st {
            QuoteState::Outside => {
                if s[i] == target {
                    Some(i)
                } else if s[i] == '\'' {
                    find_from(s, target, i + 1, QuoteState::Single)
                } else if s[i] == '"' {
                    find_from(s, target, i + 1, QuoteState::Double)
                } else {
                    find_from(s, target, i + 1, QuoteState::Outside)
                }
            },
            QuoteState::Single => {
                if s[i] == '\'' {
                    if i + 1 < s.len() && s[i + 1] == '\'' {
                        find_from(s, target, i + 2, QuoteState::Single)
                    } else {
                        find_from(s, target, i + 1, QuoteState::Outside)
                    }
                } else {
                    find_from(s, target, i + 1, QuoteState::Single)
                }
            },
            QuoteState::Double => {
                if s[i] == '\\' {
                    find_from(s, target, i + 2, QuoteState::Double)
                } else if s[i] == '"' {
                    find_from(s, target, i + 1, QuoteState::Outside)
                } else {
                    find_from(s, target, i + 1, QuoteState::Double)
                }
            },
        }
    }
}

/// The offset of the first occurrence of `target` in the line that lies
/// outside of any quoted run, or `None`.
pub open spec fn spec_find_unquoted(s: Seq<char>, target: char) -> Option<int> {
    find_from(s, target, 0, QuoteState::Outside)
}

/// Scan the line for the first unquoted occurrence of `target`.
pub fn find_unquoted(v: &Vec<char>, target: char) -> (r: Option<usize>)
    ensures
        match r {
            Some(k) => spec_find_unquoted(v@, target) == Some(k as int),
            None => spec_find_unquoted(v@, target) is None,
        },
{
    let n = v.len();
    let mut i: usize = 0;
    let mut st = QuoteState::Outside;
    while i < n
        invariant
            0 <= i <= n + 1,
            n == v@.len(),
            spec_find_unquoted(v@, target) == find_from(v@, target, i as int, st),
        decreases n + 2 - i,
    {
        let c = v[i];
        match st {
            QuoteState::Outside => {
                if c == target {
                    return Some(i);
                } else if c == '\'' {
                    st = QuoteState::Single;
                    i = i + 1;
                } else if c == '"' {
                    st = QuoteState::Double;
                    i = i + 1;
                } else {
                    i = i + 1;
                }
            },
            QuoteState::Single => {
                if c == '\'' {
                    if i + 1 < n && v[i + 1] == '\'' {
                        i = i + 2;
                    } else {
                        st = QuoteState::Outside;
                        i = i + 1;
                    }
                } else {
                    i = i + 1;
                }
            },
            QuoteState::Double => {
                if c == '\\' {
                    if i + 1 < n {
                        i = i + 2;
                    } else {
                        assert(find_from(v@, target, i as int + 2, QuoteState::Double) is None);
                        return None;
                    }
                } else if c == '"' {
                    st = QuoteState::Outside;
                    i = i + 1;
                } else {
                    i = i + 1;
                }
            },
        }
    }
    None
}

/// Whether position `i + 1` can follow a mapping separator: the end of
/// the line, a space, or a comment marker.
pub open spec fn sep_follower_ok(s: Seq<char>, i: int) -> bool {
    i + 1 >= s.len() || s[i + 1] == ' ' || s[i + 1] == '#'
}

/// The first position at or after `i` holding an unquoted colon that a
/// space, a comment marker, or the end of the line follows; colons with
/// other followers are plain text (`a:b`) and are skipped.
pub open spec fn find_sep_from(s: Seq<char>, i: int, st: QuoteState) -> Option<int>
    decreases s.len() + 2 - i,
{
    if i < 0 || i >= s.len() {
        None
    } else {
        match st {
            QuoteState::Outside => {
                if s[i] == ':' && sep_follower_ok(s, i) {
                    Some(i)
                } else if s[i] == '\'' {
                    find_sep_from(s, i + 1, QuoteState::Single)
                } else if s[i] == '"' {
                    find_sep_from(s, i + 1, QuoteState::Double)
                } else {
                    find_sep_from(s, i + 1, QuoteState::Outside)
                }
            },
            QuoteState::Single => {
                if s[i] == '\'' {
                    if i + 1 < s.len() && s[i + 1] == '\'' {
                        find_sep_from(s, i + 2, QuoteState::Single)
                    } else {
                        find_sep_from(s, i + 1, QuoteState::Outside)
                    }
                } else {
                    find_sep_from(s, i + 1, QuoteState::Single)
                }
            },
            QuoteState::Double => {
                if s[i] == '\\' {
                    find_sep_from(s, i + 2, QuoteState::Double)
                } else if s[i] == '"' {
                    find_sep_from(s, i + 1, QuoteState::Outside)
                } else {
                    find_sep_from(s, i + 1, QuoteState::Double)
                }
            },
        }
    }
}

/// The offset of the key/value separator colon of the line: the first
/// unquoted colon followed by a space, a comment marker, or line end.
pub open spec fn spec_find_key_colon(s: Seq<char>) -> Option<int> {
    find_sep_from(s, 0, QuoteState::Outside)
}

/// Scan the line for its key/value separator colon.
pub fn find_key_colon(v: &Vec<char>) -> (r: Option<usize>)
    ensures
        match r {
            Some(k) => spec_find_key_colon(v@) == Some(k as int),
            None => spec_find_key_colon(v@) is None,
        },
{
    let n = v.len();
    let mut i: usize = 0;
    let mut st = QuoteState::Outside;
    while i < n
        invariant
            0 <= i <= n + 1,
            n == v@.len(),
            spec_find_key_colon(v@) == find_sep_from(v@, i as int, st),
        decreases n + 2 - i,
    {
        let c = v[i];
        match st {
            QuoteState::Outside => {
                if c == ':' && (i + 1 >= n || v[i + 1] == ' ' || v[i + 1] == '#') {
                    return Some(i);
                } else if c == '\'' {
                    st = QuoteState::Single;
                    i = i + 1;
                } else if c == '"' {
                    st = QuoteState::Double;
                    i = i + 1;
                } else {
                    i = i + 1;
                }
            },
            QuoteState::Single => {
                if c == '\'' {
                    if i + 1 < n && v[i + 1] == '\'' {
                        i = i + 2;
                    } else {
                        st = QuoteState::Outside;
                        i = i + 1;
                    }
                } else {
                    i = i + 1;
                }
            },
            QuoteState::Double => {
                if c == '\\' {
                    if i + 1 < n {
                        i = i + 2;
                    } else {
                        assert(find_sep_from(v@, i as int + 2, QuoteState::Double) is None);
                        return None;
                    }
                } else if c == '"' {
                    st = QuoteState::Outside;
                    i = i + 1;
                } else {
                    i = i + 1;
                }
            },
        }
    }
    None
}

/// A found occurrence lies within the line.
pub proof fn lemma_find_from_in_range(s: Seq<char>, target: char, i: int, st: QuoteState)
    ensures
        find_from(s, target, i, st) matches Some(k) ==> i <= k < s.len() && s[k] == target,
    decreases s.len() + 2 - i,
{
    if i < 0 || i >= s.len() {
    } else {
        lemma_find_from_in_range(s, target, i + 1, QuoteState::Outside);
        lemma_find_from_in_range(s, target, i + 1, QuoteState::Single);
        lemma_find_from_in_range(s, target, i + 1, QuoteState::Double);
        lemma_find_from_in_range(s, target, i + 2, QuoteState::Single);
        lemma_find_from_in_range(s, target, i + 2, QuoteState::Double);
    }
}

/// A found separator lies within the line and is a colon.
pub proof fn lemma_find_sep_in_range(s: Seq<char>, i: int, st: QuoteState)
    ensures
        find_sep_from(s, i, st) matches Some(k) ==> i <= k < s.len() && s[k] == ':',
    decreases s.len() + 2 - i,
{
    if i < 0 || i >= s.len() {
    } else {
        lemma_find_sep_in_range(s, i + 1, QuoteState::Outside);
        lemma_find_sep_in_range(s, i + 1, QuoteState::Single);
        lemma_find_sep_in_range(s, i + 1, QuoteState::Double);
        lemma_find_sep_in_range(s, i + 2, QuoteState::Single);
        lemma_find_sep_in_range(s, i + 2, QuoteState::Double);
    }
}


/// A correctly single-quoted scalar body: every quote character in it
/// is half of an escaped `''` pair.
pub open spec fn sq_body_ok(b: Seq<char>) -> bool
    decreases b.len(),
{
    if b.len() == 0 {
        true
    } else if b[0] == '\'' {
        b.len() >= 2 && b[1] == '\'' && sq_body_ok(b.skip(2))
    } else {
        sq_body_ok(b.skip(1))
    }
}

/// A correctly double-quoted scalar body: every quote character in it
/// is preceded by a backslash, and no escape is left half-open.
pub open spec fn dq_body_ok(b: Seq<char>) -> bool
    decreases b.len(),
{
    if b.len() == 0 {
        true
    } else if b[0] == '\\' {
        b.len() >= 2 && dq_body_ok(b.skip(2))
    } else {
        b[0] != '"' && dq_body_ok(b.skip(1))
    }
}

/// Scanning from an offset is scanning the suffix, shifted.
pub proof fn lemma_find_from_shift(s: Seq<char>, target: char, m: int, j: int, st: QuoteState)
    requires
        0 <= m <= s.len(),
        0 <= j,
    ensures
        find_from(s, target, m + j, st) == (match find_from(s.skip(m), target, j, st) {
            None => None,
            Some(k) => Some(k + m),
        }),
    decreases s.len() + 2 - (m + j),
{
    if m + j >= s.len() {
    } else {
        assert(s[m + j] == s.skip(m)[j]);
        if m + j + 1 < s.len() {
            assert(s[m + j + 1] == s.skip(m)[j + 1]);
        }
        lemma_find_from_shift(s, target, m, j + 1, QuoteState::Outside);
        lemma_find_from_shift(s, target, m, j + 1, QuoteState::Single);
        lemma_find_from_shift(s, target, m, j + 1, QuoteState::Double);
        lemma_find_from_shift(s, target, m, j + 2, QuoteState::Single);
        lemma_find_from_shift(s, target, m, j + 2, QuoteState::Double);
    }
}

/// The scanner crosses a correctly quoted single-quote body without
/// stopping.
proof fn lemma_scan_single_body(s: Seq<char>, target: char, i: int, j: int)
    requires
        0 <= i <= j <= s.len(),
        sq_body_ok(s.subrange(i, j)),
    ensures
        find_from(s, target, i, QuoteState::Single) == find_from(s, target, j, QuoteState::Single),
    decreases j - i,
{
    if i < j {
        let b = s.subrange(i, j);
        if s[i] == '\'' {
            assert(b[0] == '\'');
            assert(b[1] == s[i + 1]);
            assert(b.skip(2) =~= s.subrange(i + 2, j));
            lemma_scan_single_body(s, target, i + 2, j);
        } else {
            assert(b[0] == s[i as int]);
            assert(b.skip(1) =~= s.subrange(i + 1, j));
            lemma_scan_single_body(s, target, i + 1, j);
        }
    }
}

/// The scanner crosses a correctly escaped double-quote body without
/// stopping.
proof fn lemma_scan_double_body(s: Seq<char>, target: char, i: int, j: int)
    requires
        0 <= i <= j <= s.len(),
        dq_body_ok(s.subrange(i, j)),
    ensures
        find_from(s, target, i, QuoteState::Double) == find_from(s, target, j, QuoteState::Double),
    decreases j - i,
{
    if i < j {
        let b = s.subrange(i, j);
        if s[i] == '\\' {
            assert(b[0] == '\\');
            assert(b.skip(2) =~= s.subrange(i + 2, j));
            lemma_scan_double_body(s, target, i + 2, j);
        } else {
            assert(b[0] == s[i as int]);
            assert(b[0] != '"');
            assert(b.skip(1) =~= s.subrange(i + 1, j));
            lemma_scan_double_body(s, target, i + 1, j);
        }
    }
}

/// A separator or comment character inside a correctly single-quoted
/// scalar is never treated as structural: the scan reports exactly the
/// occurrences past the closing quote, shifted by the scalar's length.
pub proof fn lemma_single_quoted_scalar(body: Seq<char>, rest: Seq<char>, target: char)
    requires
        sq_body_ok(body),
        target != '\'',
        rest.len() == 0 || rest[0] != '\'',
    ensures
        ({
            let s = seq!['\''] + body + seq!['\''] + rest;
            spec_find_unquoted(s, target) == (match spec_find_unquoted(rest, target) {
                None => None,
                Some(k) => Some(k + body.len() + 2),
            })
        }),
{
    let s = seq!['\''] + body + seq!['\''] + rest;
    let blen = body.len() as int;
    assert(s.len() == blen + 2 + rest.len());
    assert(s[0] == '\'');
    assert(s.subrange(1, 1 + blen) =~= body);
    lemma_scan_single_body(s, target, 1, 1 + blen);
    assert(s[1 + blen] == '\'');
    if 2 + blen < s.len() {
        assert(s[2 + blen] == rest[0]);
    }
    lemma_find_from_shift(s, target, blen + 2, 0, QuoteState::Outside);
    assert(s.skip(blen + 2) =~= rest);
}

/// A separator or comment character inside a correctly double-quoted
/// scalar is never treated as structural: the scan reports exactly the
/// occurrences past the closing quote, shifted by the scalar's length.
pub proof fn lemma_double_quoted_scalar(body: Seq<char>, rest: Seq<char>, target: char)
    requires
        dq_body_ok(body),
        target != '"',
    ensures
        ({
            let s = seq!['"'] + body + seq!['"'] + rest;
            spec_find_unquoted(s, target) == (match spec_find_unquoted(rest, target) {
                None => None,
                Some(k) => Some(k + body.len() + 2),
            })
        }),
{
    let s = seq!['"'] + body + seq!['"'] + rest;
    let blen = body.len() as int;
    assert(s.len() == blen + 2 + rest.len());
    assert(s[0] == '"');
    assert(s.subrange(1, 1 + blen) =~= body);
    lemma_scan_double_body(s, target, 1, 1 + blen);
    assert(s[1 + blen] == '"');
    lemma_find_from_shift(s, target, blen + 2, 0, QuoteState::Outside);
    assert(s.skip(blen + 2) =~= rest);
}


/// Scanning for the separator from an offset is scanning the suffix,
/// shifted.
pub proof fn lemma_find_sep_shift(s: Seq<char>, m: int, j: int, st: QuoteState)
    requires
        0 <= m <= s.len(),
        0 <= j,
    ensures
        find_sep_from(s, m + j, st) == (match find_sep_from(s.skip(m), j, st) {
            None => None,
            Some(k) => Some(k + m),
        }),
    decreases s.len() + 2 - (m + j),
{
    if m + j >= s.len() {
    } else {
        assert(s[m + j] == s.skip(m)[j]);
        if m + j + 1 < s.len() {
            assert(s[m + j + 1] == s.skip(m)[j + 1]);
        }
        assert(sep_follower_ok(s, m + j) == sep_follower_ok(s.skip(m), j));
        lemma_find_sep_shift(s, m, j + 1, QuoteState::Outside);
        lemma_find_sep_shift(s, m, j + 1, QuoteState::Single);
        lemma_find_sep_shift(s, m, j + 1, QuoteState::Double);
        lemma_find_sep_shift(s, m, j + 2, QuoteState::Single);
        lemma_find_sep_shift(s, m, j + 2, QuoteState::Double);
    }
}

/// The separator scan crosses a correctly quoted single-quote body
/// without stopping.
proof fn lemma_scan_sep_single_body(s: Seq<char>, i: int, j: int)
    requires
        0 <= i <= j <= s.len(),
        sq_body_ok(s.subrange(i, j)),
    ensures
        find_sep_from(s, i, QuoteState::Single) == find_sep_from(s, j, QuoteState::Single),
    decreases j - i,
{
    if i < j {
        let b = s.subrange(i, j);
        if s[i] == '\'' {
            assert(b[0] == '\'');
            assert(b[1] == s[i + 1]);
            assert(b.skip(2) =~= s.subrange(i + 2, j));
            lemma_scan_sep_single_body(s, i + 2, j);
        } else {
            assert(b[0] == s[i as int]);
            assert(b.skip(1) =~= s.subrange(i + 1, j));
            lemma_scan_sep_single_body(s, i + 1, j);
        }
    }
}

/// The separator scan crosses a correctly escaped double-quote body
/// without stopping.
proof fn lemma_scan_sep_double_body(s: Seq<char>, i: int, j: int)
    requires
        0 <= i <= j <= s.len(),
        dq_body_ok(s.subrange(i, j)),
    ensures
        find_sep_from(s, i, QuoteState::Double) == find_sep_from(s, j, QuoteState::Double),
    decreases j - i,
{
    if i < j {
        let b = s.subrange(i, j);
        if s[i] == '\\' {
            assert(b[0] == '\\');
            assert(b.skip(2) =~= s.subrange(i + 2, j));
            lemma_scan_sep_double_body(s, i + 2, j);
        } else {
            assert(b[0] == s[i as int]);
            assert(b[0] != '"');
            assert(b.skip(1) =~= s.subrange(i + 1, j));
            lemma_scan_sep_double_body(s, i + 1, j);
        }
    }
}

/// A colon inside a correctly single-quoted scalar is never taken for
/// the key/value separator: the scan reports exactly the separators
/// past the closing quote, shifted by the scalar's length.
pub proof fn lemma_single_quoted_scalar_sep(body: Seq<char>, rest: Seq<char>)
    requires
        sq_body_ok(body),
        rest.len() == 0 || rest[0] != '\'',
    ensures
        ({
            let s = seq!['\''] + body + seq!['\''] + rest;
            spec_find_key_colon(s) == (match spec_find_key_colon(rest) {
                None => None,
                Some(k) => Some(k + body.len() + 2),
            })
        }),
{
    let s = seq!['\''] + body + seq!['\''] + rest;
    let blen = body.len() as int;
    assert(s.len() == blen + 2 + rest.len());
    assert(s[0] == '\'');
    assert(s.subrange(1, 1 + blen) =~= body);
    lemma_scan_sep_single_body(s, 1, 1 + blen);
    assert(s[1 + blen] == '\'');
    if 2 + blen < s.len() {
        assert(s[2 + blen] == rest[0]);
    }
    lemma_find_sep_shift(s, blen + 2, 0, QuoteState::Outside);
    assert(s.skip(blen + 2) =~= rest);
}

/// A colon inside a correctly double-quoted scalar is never taken for
/// the key/value separator: the scan reports exactly the separators
/// past the closing quote, shifted by the scalar's length.
pub proof fn lemma_double_quoted_scalar_sep(body: Seq<char>, rest: Seq<char>)
    requires
        dq_body_ok(body),
    ensures
        ({
            let s = seq!['"'] + body + seq!['"'] + rest;
            spec_find_key_colon(s) == (match spec_find_key_colon(rest) {
                None => None,
                Some(k) => Some(k + body.len() + 2),
            })
        }),
{
    let s = seq!['"'] + body + seq!['"'] + rest;
    let blen = body.len() as int;
    assert(s.len() == blen + 2 + rest.len());
    assert(s[0] == '"');
    assert(s.subrange(1, 1 + blen) =~= body);
    lemma_scan_sep_double_body(s, 1, 1 + blen);
    assert(s[1 + blen] == '"');
    lemma_find_sep_shift(s, blen + 2, 0, QuoteState::Outside);
    assert(s.skip(blen + 2) =~= rest);
}

} // verus!
