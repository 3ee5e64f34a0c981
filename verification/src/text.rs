//! Character and string scanning primitives: whitespace classification,
//! first/last occurrence searches, whitespace runs, prefix tests and
//! trimming, each with an exact specification.

use vstd::prelude::*;
use vstd::string::StrSliceExecFns;

verus! {

/// True of the characters that count as whitespace when queries are split
/// and trimmed: the Unicode `White_Space` set.
pub open spec fn is_space(c: char) -> bool {
    c == ' ' || c == '\t' || c == '\n' || c == '\r' || c == '\u{000B}' || c == '\u{000C}'
        || c == '\u{0085}' || c == '\u{00A0}' || c == '\u{1680}'
        || ('\u{2000}' <= c && c <= '\u{200A}') || c == '\u{2028}' || c == '\u{2029}'
        || c == '\u{202F}' || c == '\u{205F}' || c == '\u{3000}'
}

/// Whitespace test on a single character.
pub fn is_space_char(c: char) -> (r: bool)
    ensures
        r == is_space(c),
{
    c == ' ' || c == '\t' || c == '\n' || c == '\r' || c == '\u{000B}' || c == '\u{000C}'
        || c == '\u{0085}' || c == '\u{00A0}' || c == '\u{1680}'
        || ('\u{2000}' <= c && c <= '\u{200A}') || c == '\u{2028}' || c == '\u{2029}'
        || c == '\u{202F}' || c == '\u{205F}' || c == '\u{3000}'
}

/// Index of the first whitespace character of `s`, or `s.len()` if none.
pub open spec fn find_space(s: Seq<char>) -> int
    decreases s.len(),
{
    if s.len() == 0 {
        0
    } else if is_space(s[0]) {
        0
    } else {
        1 + find_space(s.skip(1))
    }
}

pub proof fn lemma_find_space(s: Seq<char>)
    ensures
        0 <= find_space(s) <= s.len(),
        forall|j: int| 0 <= j < find_space(s) ==> !is_space(s[j]),
        find_space(s) < s.len() ==> is_space(s[find_space(s)]),
    decreases s.len(),
{
    if s.len() == 0 {
    } else if is_space(s[0]) {
    } else {
        lemma_find_space(s.skip(1));
        assert forall|j: int| 0 <= j < find_space(s) implies !is_space(s[j]) by {
            if j >= 1 {
                assert(s.skip(1)[j - 1] == s[j]);
            }
        }
        if find_space(s) < s.len() {
            assert(s.skip(1)[find_space(s) - 1] == s[find_space(s)]);
        }
    }
}

/// First whitespace position of `s`, or its length when it has none.
pub fn str_find_space(s: &str) -> (r: usize)
    ensures
        r as int == find_space(s@),
{
    let n = s.unicode_len();
    let mut i: usize = 0;
    while i < n
        invariant
            n == s@.len(),
            0 <= i <= n,
            forall|j: int| 0 <= j < i ==> !is_space(s@[j]),
        decreases n - i,
    {
        if is_space_char(s.get_char(i)) {
            proof {
                lemma_find_space(s@);
            }
            return i;
        }
        i = i + 1;
    }
    proof {
        lemma_find_space(s@);
    }
    n
}

/// Index of the first non-whitespace character of `s`, or `s.len()` if none.
pub open spec fn find_non_space(s: Seq<char>) -> int
    decreases s.len(),
{
    if s.len() == 0 {
        0
    } else if !is_space(s[0]) {
        0
    } else {
        1 + find_non_space(s.skip(1))
    }
}

pub proof fn lemma_find_non_space(s: Seq<char>)
    ensures
        0 <= find_non_space(s) <= s.len(),
        forall|j: int| 0 <= j < find_non_space(s) ==> is_space(s[j]),
        find_non_space(s) < s.len() ==> !is_space(s[find_non_space(s)]),
    decreases s.len(),
{
    if s.len() == 0 {
    } else if !is_space(s[0]) {
    } else {
        lemma_find_non_space(s.skip(1));
        assert forall|j: int| 0 <= j < find_non_space(s) implies is_space(s[j]) by {
            if j >= 1 {
                assert(s.skip(1)[j - 1] == s[j]);
            }
        }
        if find_non_space(s) < s.len() {
            assert(s.skip(1)[find_non_space(s) - 1] == s[find_non_space(s)]);
        }
    }
}

/// First non-whitespace position of `s`, or its length when it is all
/// whitespace.
pub fn str_find_non_space(s: &str) -> (r: usize)
    ensures
        r as int == find_non_space(s@),
{
    let n = s.unicode_len();
    let mut i: usize = 0;
    while i < n
        invariant
            n == s@.len(),
            0 <= i <= n,
            forall|j: int| 0 <= j < i ==> is_space(s@[j]),
        decreases n - i,
    {
        if !is_space_char(s.get_char(i)) {
            proof {
                lemma_find_non_space(s@);
            }
            return i;
        }
        i = i + 1;
    }
    proof {
        lemma_find_non_space(s@);
    }
    n
}

/// Index of the last whitespace character of `s`, or `-1` if none.
pub open spec fn rfind_space(s: Seq<char>) -> int
    decreases s.len(),
{
    if s.len() == 0 {
        -1
    } else if is_space(s.last()) {
        s.len() - 1
    } else {
        rfind_space(s.drop_last())
    }
}

pub proof fn lemma_rfind_space(s: Seq<char>)
    ensures
        -1 <= rfind_space(s) < s.len(),
        rfind_space(s) >= 0 ==> is_space(s[rfind_space(s)]),
        forall|j: int| rfind_space(s) < j < s.len() ==> !is_space(s[j]),
    decreases s.len(),
{
    if s.len() == 0 {
    } else if is_space(s.last()) {
    } else {
        lemma_rfind_space(s.drop_last());
        assert forall|j: int| rfind_space(s) < j < s.len() implies !is_space(s[j]) by {
            if j < s.len() - 1 {
                assert(s.drop_last()[j] == s[j]);
            }
        }
        if rfind_space(s) >= 0 {
            assert(s.drop_last()[rfind_space(s)] == s[rfind_space(s)]);
        }
    }
}

/// Last whitespace position of `s`, as `Some(i)`, or `None` when it has
/// no whitespace at all.
pub fn str_rfind_space(s: &str) -> (r: Option<usize>)
    ensures
        match r {
            Some(i) => i as int == rfind_space(s@) && 0 <= rfind_space(s@),
            None => rfind_space(s@) == -1,
        },
{
    let n = s.unicode_len();
    let mut i: usize = n;
    while i > 0
        invariant
            n == s@.len(),
            0 <= i <= n,
            forall|j: int| i <= j < n ==> !is_space(s@[j]),
        decreases i,
    {
        i = i - 1;
        if is_space_char(s.get_char(i)) {
            proof {
                lemma_rfind_space(s@);
            }
            return Some(i);
        }
    }
    proof {
        lemma_rfind_space(s@);
    }
    None
}

/// Index of the last non-whitespace character of `s`, or `-1` if none.
pub open spec fn rfind_non_space(s: Seq<char>) -> int
    decreases s.len(),
{
    if s.len() == 0 {
        -1
    } else if !is_space(s.last()) {
        s.len() - 1
    } else {
        rfind_non_space(s.drop_last())
    }
}

pub proof fn lemma_rfind_non_space(s: Seq<char>)
    ensures
        -1 <= rfind_non_space(s) < s.len(),
        rfind_non_space(s) >= 0 ==> !is_space(s[rfind_non_space(s)]),
        forall|j: int| rfind_non_space(s) < j < s.len() ==> is_space(s[j]),
    decreases s.len(),
{
    if s.len() == 0 {
    } else if !is_space(s.last()) {
    } else {
        lemma_rfind_non_space(s.drop_last());
        assert forall|j: int| rfind_non_space(s) < j < s.len() implies is_space(s[j]) by {
            if j < s.len() - 1 {
                assert(s.drop_last()[j] == s[j]);
            }
        }
        if rfind_non_space(s) >= 0 {
            assert(s.drop_last()[rfind_non_space(s)] == s[rfind_non_space(s)]);
        }
    }
}

/// Index of the first occurrence of `c` in `s`, or `s.len()` if none.
pub open spec fn find_char(s: Seq<char>, c: char) -> int
    decreases s.len(),
{
    if s.len() == 0 {
        0
    } else if s[0] == c {
        0
    } else {
        1 + find_char(s.skip(1), c)
    }
}

pub proof fn lemma_find_char(s: Seq<char>, c: char)
    ensures
        0 <= find_char(s, c) <= s.len(),
        forall|j: int| 0 <= j < find_char(s, c) ==> s[j] != c,
        find_char(s, c) < s.len() ==> s[find_char(s, c)] == c,
    decreases s.len(),
{
    if s.len() == 0 {
    } else if s[0] == c {
    } else {
        lemma_find_char(s.skip(1), c);
        assert forall|j: int| 0 <= j < find_char(s, c) implies s[j] != c by {
            if j >= 1 {
                assert(s.skip(1)[j - 1] == s[j]);
            }
        }
        if find_char(s, c) < s.len() {
            assert(s.skip(1)[find_char(s, c) - 1] == s[find_char(s, c)]);
        }
    }
}

/// First position of `c` in `s`, or the length of `s` when absent.
pub fn str_find_char(s: &str, c: char) -> (r: usize)
    ensures
        r as int == find_char(s@, c),
{
    let n = s.unicode_len();
    let mut i: usize = 0;
    while i < n
        invariant
            n == s@.len(),
            0 <= i <= n,
            forall|j: int| 0 <= j < i ==> s@[j] != c,
        decreases n - i,
    {
        if s.get_char(i) == c {
            proof {
                lemma_find_char(s@, c);
            }
            return i;
        }
        i = i + 1;
    }
    proof {
        lemma_find_char(s@, c);
    }
    n
}

/// Index of the last occurrence of `c` in `s`, or `-1` if none.
pub open spec fn rfind_char(s: Seq<char>, c: char) -> int
    decreases s.len(),
{
    if s.len() == 0 {
        -1
    } else if s.last() == c {
        s.len() - 1
    } else {
        rfind_char(s.drop_last(), c)
    }
}

pub proof fn lemma_rfind_char(s: Seq<char>, c: char)
    ensures
        -1 <= rfind_char(s, c) < s.len(),
        rfind_char(s, c) >= 0 ==> s[rfind_char(s, c)] == c,
        forall|j: int| rfind_char(s, c) < j < s.len() ==> s[j] != c,
    decreases s.len(),
{
    if s.len() == 0 {
    } else if s.last() == c {
    } else {
        lemma_rfind_char(s.drop_last(), c);
        assert forall|j: int| rfind_char(s, c) < j < s.len() implies s[j] != c by {
            if j < s.len() - 1 {
                assert(s.drop_last()[j] == s[j]);
            }
        }
        if rfind_char(s, c) >= 0 {
            assert(s.drop_last()[rfind_char(s, c)] == s[rfind_char(s, c)]);
        }
    }
}

/// Last position of `c` in `s`, as `Some(i)`, or `None` when absent.
pub fn str_rfind_char(s: &str, c: char) -> (r: Option<usize>)
    ensures
        match r {
            Some(i) => i as int == rfind_char(s@, c) && 0 <= rfind_char(s@, c),
            None => rfind_char(s@, c) == -1,
        },
{
    let n = s.unicode_len();
    let mut i: usize = n;
    while i > 0
        invariant
            n == s@.len(),
            0 <= i <= n,
            forall|j: int| i <= j < n ==> s@[j] != c,
        decreases i,
    {
        i = i - 1;
        if s.get_char(i) == c {
            proof {
                lemma_rfind_char(s@, c);
            }
            return Some(i);
        }
    }
    proof {
        lemma_rfind_char(s@, c);
    }
    None
}

/// Index of the first occurrence of the two-character sequence `a`,`b` in
/// `s`, or `s.len()` if it does not occur.
pub open spec fn find_pair(s: Seq<char>, a: char, b: char) -> int
    decreases s.len(),
{
    if s.len() < 2 {
        s.len() as int
    } else if s[0] == a && s[1] == b {
        0
    } else {
        1 + find_pair(s.skip(1), a, b)
    }
}

pub proof fn lemma_find_pair(s: Seq<char>, a: char, b: char)
    ensures
        0 <= find_pair(s, a, b) <= s.len(),
        forall|j: int|
            0 <= j < find_pair(s, a, b) && j + 1 < s.len() ==> !(#[trigger] s[j] == a && s[j + 1] == b),
        find_pair(s, a, b) + 1 < s.len() ==> s[find_pair(s, a, b)] == a && s[find_pair(s, a, b)
            + 1] == b,
        find_pair(s, a, b) < s.len() ==> find_pair(s, a, b) + 1 < s.len(),
    decreases s.len(),
{
    if s.len() < 2 {
    } else if s[0] == a && s[1] == b {
    } else {
        lemma_find_pair(s.skip(1), a, b);
        assert forall|j: int|
            0 <= j < find_pair(s, a, b) && j + 1 < s.len() implies !(#[trigger] s[j] == a && s[j
            + 1] == b) by {
            if j >= 1 {
                assert(s.skip(1)[j - 1] == s[j]);
                assert(s.skip(1)[j] == s[j + 1]);
            }
        }
        if find_pair(s, a, b) + 1 < s.len() {
            assert(s.skip(1)[find_pair(s, a, b) - 1] == s[find_pair(s, a, b)]);
            assert(s.skip(1)[find_pair(s, a, b)] == s[find_pair(s, a, b) + 1]);
        }
    }
}

/// First position where the two-character sequence `a`,`b` occurs in `s`,
/// or the length of `s` when it does not.
pub fn str_find_pair(s: &str, a: char, b: char) -> (r: usize)
    ensures
        r as int == find_pair(s@, a, b),
{
    let n = s.unicode_len();
    if n < 2 {
        return n;
    }
    let mut i: usize = 0;
    while i + 1 < n
        invariant
            n == s@.len(),
            2 <= n,
            0 <= i <= n - 1,
            forall|j: int| 0 <= j < i && j + 1 < n ==> !(#[trigger] s@[j] == a && s@[j + 1] == b),
        decreases n - i,
    {
        if s.get_char(i) == a && s.get_char(i + 1) == b {
            proof {
                lemma_find_pair(s@, a, b);
            }
            return i;
        }
        i = i + 1;
    }
    proof {
        lemma_find_pair(s@, a, b);
    }
    n
}

/// Start of the maximal run of whitespace that ends just before position
/// `i`: walks left from `i` while the preceding character is whitespace.
pub open spec fn space_run_start(s: Seq<char>, i: int) -> int
    decreases i,
{
    if i <= 0 {
        0
    } else if is_space(s[i - 1]) {
        space_run_start(s, i - 1)
    } else {
        i
    }
}

/// Start of the whitespace run that ends just before position `i`.
pub fn str_space_run_start(s: &str, i: usize) -> (r: usize)
    requires
        i <= s@.len(),
    ensures
        r as int == space_run_start(s@, i as int),
        r <= i,
{
    let mut j: usize = i;
    while j > 0 && is_space_char(s.get_char(j - 1))
        invariant
            i <= s@.len(),
            0 <= j <= i,
            space_run_start(s@, i as int) == space_run_start(s@, j as int),
        decreases j,
    {
        j = j - 1;
    }
    j
}

/// `s` begins with `p`.
pub open spec fn starts_with(s: Seq<char>, p: Seq<char>) -> bool {
    p.len() <= s.len() && forall|i: int| 0 <= i < p.len() ==> s[i] == p[i]
}

/// Prefix test.
pub fn str_starts_with(s: &str, p: &str) -> (r: bool)
    ensures
        r == starts_with(s@, p@),
{
    let n = s.unicode_len();
    let m = p.unicode_len();
    if m > n {
        return false;
    }
    let mut i: usize = 0;
    while i < m
        invariant
            n == s@.len(),
            m == p@.len(),
            m <= n,
            0 <= i <= m,
            forall|j: int| 0 <= j < i ==> s@[j] == p@[j],
        decreases m - i,
    {
        if s.get_char(i) != p.get_char(i) {
            return false;
        }
        i = i + 1;
    }
    true
}

/// Character-for-character equality of two strings.
pub fn str_eq(a: &str, b: &str) -> (r: bool)
    ensures
        r == (a@ == b@),
{
    let n = a.unicode_len();
    let m = b.unicode_len();
    if n != m {
        proof {
            assert(a@ != b@) by {
                if a@ == b@ {
                    assert(a@.len() == b@.len());
                }
            }
        }
        return false;
    }
    let mut i: usize = 0;
    while i < n
        invariant
            n == a@.len(),
            n == b@.len(),
            0 <= i <= n,
            forall|j: int| 0 <= j < i ==> a@[j] == b@[j],
        decreases n - i,
    {
        if a.get_char(i) != b.get_char(i) {
            return false;
        }
        i = i + 1;
    }
    proof {
        assert(a@ =~= b@);
    }
    true
}

/// `s` with leading and trailing whitespace removed.
pub open spec fn spec_trim(s: Seq<char>) -> Seq<char> {
    if find_non_space(s) == s.len() {
        Seq::empty()
    } else {
        s.subrange(find_non_space(s), rfind_non_space(s) + 1)
    }
}

/// Trims leading and trailing whitespace.
pub fn str_trim<'a>(s: &'a str) -> (r: &'a str)
    ensures
        r@ == spec_trim(s@),
{
    proof {
        lemma_find_non_space(s@);
        lemma_rfind_non_space(s@);
    }
    let n = s.unicode_len();
    let a = str_find_non_space(s);
    if a == n {
        return s.substring_char(0, 0);
    }
    let mut b: usize = n;
    while b > 0 && is_space_char(s.get_char(b - 1))
        invariant
            n == s@.len(),
            0 <= b <= n,
            forall|j: int| b <= j < n ==> is_space(s@[j]),
        decreases b,
    {
        b = b - 1;
    }
    proof {
        assert(b - 1 == rfind_non_space(s@)) by {
            if b > 0 {
                assert(!is_space(s@[b - 1]));
            }
        }
    }
    s.substring_char(a, b)
}

/// `s` with one trailing carriage return removed, if it has one.
pub open spec fn strip_cr(s: Seq<char>) -> Seq<char> {
    if s.len() > 0 && s.last() == '\r' {
        s.drop_last()
    } else {
        s
    }
}

/// `s` split into lines at each newline, with a carriage return before a
/// newline dropped; a final line ending is optional and adds no empty line.
pub open spec fn spec_lines(s: Seq<char>) -> Seq<Seq<char>>
    decreases s.len(),
    via spec_lines_decreases
{
    if s.len() == 0 {
        Seq::empty()
    } else {
        let k = find_char(s, '\n');
        if k == s.len() {
            seq![s]
        } else {
            seq![strip_cr(s.take(k))] + spec_lines(s.skip(k + 1))
        }
    }
}

#[via_fn]
proof fn spec_lines_decreases(s: Seq<char>) {
    lemma_find_char(s, '\n');
}

/// Splits text into lines, as the line-splitting convention above says.
pub fn split_lines(s: &str) -> (r: Vec<String>)
    ensures
        r.deep_view() == spec_lines(s@),
    decreases s@.len(),
{
    let n = s.unicode_len();
    if n == 0 {
        let r: Vec<String> = Vec::new();
        proof {
            assert(r.deep_view() =~~= spec_lines(s@));
        }
        return r;
    }
    let k = str_find_char(s, '\n');
    if k == n {
        let mut r: Vec<String> = Vec::new();
        r.push(s.to_owned());
        proof {
            assert(r.deep_view() =~~= spec_lines(s@));
        }
        r
    } else {
        proof {
            lemma_find_char(s@, '\n');
        }
        let head0 = s.substring_char(0, k);
        let head = if k > 0 && head0.get_char(k - 1) == '\r' {
            head0.substring_char(0, k - 1)
        } else {
            head0
        };
        proof {
            assert(head0@ =~= s@.take(k as int));
            assert(head@ =~= strip_cr(s@.take(k as int)));
        }
        let mut tail = split_lines(s.substring_char(k + 1, n));
        let mut r: Vec<String> = Vec::new();
        r.push(head.to_owned());
        r.append(&mut tail);
        proof {
            assert(s@.subrange(k + 1, n as int) =~= s@.skip(k + 1));
            assert(r.deep_view() =~~= spec_lines(s@));
        }
        r
    }
}


} // verus!
