//! Character and string utilities shared by the path classifier and the
//! other text-handling parts of the library.
//!
//! Parsing works over `Vec<char>`, whose view is the same `Seq<char>` as the
//! view of the `String` it came from, so every contract can speak about one
//! mathematical object.

use vstd::prelude::*;

verus! {

/// ASCII decimal digit.
pub open spec fn is_digit(c: char) -> bool {
    '0' <= c && c <= '9'
}

/// ASCII uppercase letter.
pub open spec fn is_upper(c: char) -> bool {
    'A' <= c && c <= 'Z'
}

/// Lowercase a single character, ASCII-only: letters `A`..`Z` map to
/// `a`..`z`, everything else is unchanged.
pub open spec fn lower_char(c: char) -> char {
    if is_upper(c) {
        (((c as u32) + 32) as char)
    } else {
        c
    }
}

/// Pointwise ASCII lowercasing of a character sequence.
pub open spec fn lower_seq(s: Seq<char>) -> Seq<char> {
    s.map_values(|c: char| lower_char(c))
}

/// Numeric value of a digit sequence, most significant digit first.
pub open spec fn digits_val(s: Seq<char>) -> nat
    decreases s.len(),
{
    if s.len() == 0 {
        0
    } else {
        digits_val(s.drop_last()) * 10 + (s.last() as int - '0' as int) as nat
    }
}

/// All characters of `s` are decimal digits.
pub open spec fn all_digits(s: Seq<char>) -> bool {
    forall|i: int| 0 <= i < s.len() ==> is_digit(#[trigger] s[i])
}

pub fn digit_check(c: char) -> (r: bool)
    ensures
        r == is_digit(c),
{
    '0' <= c && c <= '9'
}

pub fn char_to_lower(c: char) -> (r: char)
    ensures
        r == lower_char(c),
{
    if 'A' <= c && c <= 'Z' {
        let u: u32 = (c as u32) + 32;
        proof {
            assert(u == lower_char(c) as u32);
        }
        char_from_u32(u)
    } else {
        c
    }
}

/// Relies on char::from_u32: for a scalar value below the surrogate range it
/// returns the character with exactly that code point.
#[verifier::external_body]
fn char_from_u32(u: u32) -> (r: char)
    requires
        u < 0xD800,
    ensures
        r as u32 == u,
{
    match char::from_u32(u) {
        Some(c) => c,
        None => ' ',
    }
}

/// Relies on String::push: appends exactly one character.
#[verifier::external_body]
pub fn push_char(s: &mut String, c: char)
    ensures
        final(s)@ == old(s)@.push(c),
{
    s.push(c);
}

/// Collect the characters of a string slice into a vector with the same view.
pub fn chars_of(s: &str) -> (r: Vec<char>)
    ensures
        r@ == s@,
{
    let len = s.unicode_len();
    let mut r: Vec<char> = Vec::new();
    let mut i: usize = 0;
    while i < len
        invariant
            i <= len,
            len == s@.len(),
            r@ == s@.subrange(0, i as int),
        decreases len - i,
    {
        r.push(s.get_char(i));
        i = i + 1;
        proof {
            assert(r@ =~= s@.subrange(0, i as int));
        }
    }
    proof {
        assert(r@ =~= s@);
    }
    r
}

/// Build a `String` holding exactly the characters of `v`.
pub fn string_of(v: &Vec<char>) -> (r: String)
    ensures
        r@ == v@,
{
    let mut r = String::new();
    let mut i: usize = 0;
    while i < v.len()
        invariant
            i <= v@.len(),
            r@ == v@.subrange(0, i as int),
        decreases v@.len() - i,
    {
        push_char(&mut r, v[i]);
        i = i + 1;
        proof {
            assert(r@ =~= v@.subrange(0, i as int));
        }
    }
    proof {
        assert(r@ =~= v@);
    }
    r
}

/// Lowercase a character vector, ASCII-only.
pub fn to_lower_vec(v: &Vec<char>) -> (r: Vec<char>)
    ensures
        r@ == lower_seq(v@),
{
    let mut r: Vec<char> = Vec::new();
    let mut i: usize = 0;
    while i < v.len()
        invariant
            i <= v@.len(),
            r@ == lower_seq(v@.subrange(0, i as int)),
        decreases v@.len() - i,
    {
        r.push(char_to_lower(v[i]));
        i = i + 1;
        proof {
            assert(r@ =~= lower_seq(v@.subrange(0, i as int)));
        }
    }
    proof {
        assert(r@ =~= lower_seq(v@));
    }
    r
}

/// The two views are equal, compared characterwise.
pub fn chars_eq(a: &Vec<char>, b: &Vec<char>) -> (r: bool)
    ensures
        r == (a@ == b@),
{
    if a.len() != b.len() {
        proof {
            assert(a@ != b@) by {
                assert(a@.len() != b@.len());
            }
        }
        return false;
    }
    let mut i: usize = 0;
    while i < a.len()
        invariant
            i <= a@.len(),
            a@.len() == b@.len(),
            forall|j: int| 0 <= j < i ==> a@[j] == b@[j],
        decreases a@.len() - i,
    {
        if a[i] != b[i] {
            return false;
        }
        i = i + 1;
    }
    proof {
        assert(a@ =~= b@);
    }
    true
}

/// `needle` occurs in `hay` starting at position `at`.
pub open spec fn matches_at(hay: Seq<char>, needle: Seq<char>, at: int) -> bool {
    &&& 0 <= at
    &&& at + needle.len() <= hay.len()
    &&& hay.subrange(at, at + needle.len() as int) == needle
}

/// `needle` occurs somewhere in `hay`.
pub open spec fn contains_seq(hay: Seq<char>, needle: Seq<char>) -> bool {
    exists|at: int| matches_at(hay, needle, at)
}

/// Check for an occurrence of `needle` at position `at`.
pub fn check_match_at(hay: &Vec<char>, needle: &Vec<char>, at: usize) -> (r: bool)
    ensures
        r == matches_at(hay@, needle@, at as int),
{
    if at > hay.len() || hay.len() - at < needle.len() {
        return false;
    }
    let hlen = hay.len();
    let mut i: usize = 0;
    while i < needle.len()
        invariant
            i <= needle@.len(),
            hlen == hay@.len(),
            at + needle@.len() <= hlen,
            forall|j: int| 0 <= j < i ==> hay@[at + j] == needle@[j],
        decreases needle@.len() - i,
    {
        if hay[at + i] != needle[i] {
            proof {
                assert(hay@.subrange(at as int, at + needle@.len() as int)[i as int]
                    != needle@[i as int]);
            }
            return false;
        }
        i = i + 1;
    }
    proof {
        assert(hay@.subrange(at as int, at + needle@.len() as int) =~= needle@);
    }
    true
}

/// Find the first occurrence of `needle` in `hay`, if any.
pub fn find_first(hay: &Vec<char>, needle: &Vec<char>) -> (r: Option<usize>)
    ensures
        match r {
            Some(at) => matches_at(hay@, needle@, at as int) && (forall|j: int|
                0 <= j < at ==> !matches_at(hay@, needle@, j)),
            None => !contains_seq(hay@, needle@),
        },
{
    if needle.len() == 0 {
        proof {
            assert(hay@.subrange(0, 0) =~= needle@);
        }
        return Some(0);
    }
    let mut at: usize = 0;
    while at < hay.len()
        invariant
            at <= hay@.len(),
            needle@.len() > 0,
            forall|j: int| 0 <= j < at ==> !matches_at(hay@, needle@, j),
        decreases hay@.len() - at,
    {
        if check_match_at(hay, needle, at) {
            return Some(at);
        }
        at = at + 1;
    }
    proof {
        assert forall|j: int| !matches_at(hay@, needle@, j) by {
            if 0 <= j < hay@.len() {
                assert(!matches_at(hay@, needle@, j));
            }
        }
    }
    None
}

/// `hay` contains `needle` as a subsequence.
pub fn contains_vec(hay: &Vec<char>, needle: &Vec<char>) -> (r: bool)
    ensures
        r == contains_seq(hay@, needle@),
{
    match find_first(hay, needle) {
        Some(_) => true,
        None => false,
    }
}

/// Length of the run of decimal digits in `s` starting at `from`.
pub open spec fn digit_run_len(s: Seq<char>, from: int) -> int
    decreases s.len() - from,
{
    if from < 0 || from >= s.len() || !is_digit(s[from]) {
        0
    } else {
        1 + digit_run_len(s, from + 1)
    }
}

pub proof fn lemma_digit_run_bounds(s: Seq<char>, from: int)
    requires
        0 <= from <= s.len(),
    ensures
        0 <= digit_run_len(s, from),
        from + digit_run_len(s, from) <= s.len(),
        forall|j: int|
            from <= j < from + digit_run_len(s, from) ==> is_digit(#[trigger] s[j]),
        from + digit_run_len(s, from) < s.len() ==> !is_digit(s[from + digit_run_len(s, from)]),
    decreases s.len() - from,
{
    if from < s.len() && is_digit(s[from]) {
        lemma_digit_run_bounds(s, from + 1);
    }
}

/// Count the digits in `v` starting at `from`.
pub fn digit_run(v: &Vec<char>, from: usize) -> (r: usize)
    requires
        from <= v@.len(),
    ensures
        r == digit_run_len(v@, from as int),
{
    proof {
        lemma_digit_run_bounds(v@, from as int);
    }
    let mut i: usize = from;
    while i < v.len() && digit_check(v[i])
        invariant
            from <= i <= v@.len(),
            forall|j: int| from <= j < i ==> is_digit(#[trigger] v@[j]),
            digit_run_len(v@, i as int) == digit_run_len(v@, from as int) - (i - from),
        decreases v@.len() - i,
    {
        i = i + 1;
    }
    i - from
}

/// Length of the run of spaces in `s` starting at `from`.
pub open spec fn space_run_len(s: Seq<char>, from: int) -> int
    decreases s.len() - from,
{
    if from < 0 || from >= s.len() || !is_space(s[from]) {
        0
    } else {
        1 + space_run_len(s, from + 1)
    }
}

pub proof fn lemma_space_run_bounds(s: Seq<char>, from: int)
    requires
        0 <= from <= s.len(),
    ensures
        0 <= space_run_len(s, from),
        from + space_run_len(s, from) <= s.len(),
        forall|j: int|
            from <= j < from + space_run_len(s, from) ==> is_space(#[trigger] s[j]),
        from + space_run_len(s, from) < s.len() ==> !is_space(s[from + space_run_len(s, from)]),
    decreases s.len() - from,
{
    if from < s.len() && is_space(s[from]) {
        lemma_space_run_bounds(s, from + 1);
    }
}

/// Count the spaces in `v` starting at `from`.
pub fn space_run(v: &Vec<char>, from: usize) -> (r: usize)
    requires
        from <= v@.len(),
    ensures
        r == space_run_len(v@, from as int),
{
    proof {
        lemma_space_run_bounds(v@, from as int);
    }
    let mut i: usize = from;
    while i < v.len() && v[i] == ' '
        invariant
            from <= i <= v@.len(),
            forall|j: int| from <= j < i ==> is_space(#[trigger] v@[j]),
            space_run_len(v@, i as int) == space_run_len(v@, from as int) - (i - from),
        decreases v@.len() - i,
    {
        i = i + 1;
    }
    i - from
}

/// Checked numeric value of the digit run `v[from..to]`: `None` when the
/// value does not fit in `u32`.
pub fn parse_digits(v: &Vec<char>, from: usize, to: usize) -> (r: Option<u32>)
    requires
        from <= to <= v@.len(),
        all_digits(v@.subrange(from as int, to as int)),
    ensures
        match r {
            Some(n) => n == digits_val(v@.subrange(from as int, to as int)),
            None => digits_val(v@.subrange(from as int, to as int)) > u32::MAX,
        },
{
    let mut acc: u32 = 0;
    let mut i: usize = from;
    while i < to
        invariant
            from <= i <= to <= v@.len(),
            all_digits(v@.subrange(from as int, to as int)),
            acc == digits_val(v@.subrange(from as int, i as int)),
        decreases to - i,
    {
        let ghost pre = v@.subrange(from as int, i as int);
        proof {
            assert(v@.subrange(from as int, to as int)[i - from] == v@[i as int]);
            assert(is_digit(v@[i as int]));
        }
        let d: u32 = (v[i] as u32) - ('0' as u32);
        let q: u32 = (u32::MAX - d) / 10;
        proof {
            vstd::arithmetic::div_mod::lemma_fundamental_div_mod((u32::MAX - d) as int, 10);
            vstd::arithmetic::div_mod::lemma_mod_bound((u32::MAX - d) as int, 10);
            let ghost m = (u32::MAX - d) as int % 10;
            assert(u32::MAX - d == 10 * q + m);
            let ghost prefix = v@.subrange(from as int, i + 1);
            assert(prefix.drop_last() =~= pre);
            assert(prefix.last() == v@[i as int]);
            assert(digits_val(prefix) == digits_val(pre) * 10 + d);
        }
        if acc > q {
            proof {
                let sub = v@.subrange(from as int, to as int);
                let prefix = v@.subrange(from as int, i + 1);
                assert(digits_val(prefix) > u32::MAX);
                assert(sub.subrange(0, i - from + 1) =~= prefix);
                lemma_digits_val_monotone(sub, i - from + 1);
            }
            return None;
        }
        acc = acc * 10 + d;
        i = i + 1;
    }
    proof {
        assert(v@.subrange(from as int, i as int) =~= v@.subrange(from as int, to as int));
    }
    Some(acc)
}

/// A longer digit prefix never has a smaller value.
proof fn lemma_digits_val_monotone(s: Seq<char>, n: int)
    requires
        0 <= n <= s.len(),
        all_digits(s),
    ensures
        digits_val(s.subrange(0, n)) <= digits_val(s),
    decreases s.len() - n,
{
    if n < s.len() {
        lemma_digits_val_monotone(s, n + 1);
        let a = s.subrange(0, n);
        let b = s.subrange(0, n + 1);
        assert(b.drop_last() =~= a);
        assert(digits_val(b) == digits_val(a) * 10 + (b.last() as nat - '0' as nat));
        assert(digits_val(a) <= digits_val(a) * 10) by (nonlinear_arith)
            requires digits_val(a) >= 0;
    } else {
        assert(s.subrange(0, n) =~= s);
    }
}

/// Trim ASCII spaces from both ends.
pub open spec fn is_space(c: char) -> bool {
    c == ' '
}

/// Index of the first non-space character, or `s.len()`.
pub open spec fn trim_start_idx(s: Seq<char>) -> int
    decreases s.len(),
{
    if s.len() == 0 {
        0
    } else if is_space(s[0]) {
        1 + trim_start_idx(s.drop_first())
    } else {
        0
    }
}

/// One past the last non-space character, or `0`.
pub open spec fn trim_end_idx(s: Seq<char>) -> int
    decreases s.len(),
{
    if s.len() == 0 {
        0
    } else if is_space(s.last()) {
        trim_end_idx(s.drop_last())
    } else {
        s.len() as int
    }
}

/// The spaces-trimmed middle of `s`.
pub open spec fn trim_seq(s: Seq<char>) -> Seq<char> {
    if trim_start_idx(s) <= trim_end_idx(s) {
        s.subrange(trim_start_idx(s), trim_end_idx(s))
    } else {
        Seq::empty()
    }
}

proof fn lemma_trim_start(s: Seq<char>)
    ensures
        0 <= trim_start_idx(s) <= s.len(),
        forall|j: int| 0 <= j < trim_start_idx(s) ==> is_space(#[trigger] s[j]),
        trim_start_idx(s) < s.len() ==> !is_space(s[trim_start_idx(s)]),
    decreases s.len(),
{
    if s.len() > 0 && is_space(s[0]) {
        let rest = s.drop_first();
        lemma_trim_start(rest);
        assert forall|j: int| 0 <= j < trim_start_idx(s) implies is_space(#[trigger] s[j]) by {
            if j > 0 {
                assert(s[j] == rest[j - 1]);
            }
        }
        if trim_start_idx(s) < s.len() {
            assert(s[trim_start_idx(s)] == rest[trim_start_idx(rest)]);
        }
    }
}

proof fn lemma_trim_end(s: Seq<char>)
    ensures
        0 <= trim_end_idx(s) <= s.len(),
        forall|j: int| trim_end_idx(s) <= j < s.len() ==> is_space(#[trigger] s[j]),
        trim_end_idx(s) > 0 ==> !is_space(s[trim_end_idx(s) - 1]),
    decreases s.len(),
{
    if s.len() > 0 && is_space(s.last()) {
        let rest = s.drop_last();
        lemma_trim_end(rest);
        assert forall|j: int| trim_end_idx(s) <= j < s.len() implies is_space(#[trigger] s[j]) by {
            if j < s.len() - 1 {
                assert(s[j] == rest[j]);
            }
        }
        if trim_end_idx(s) > 0 {
            assert(s[trim_end_idx(s) - 1] == rest[trim_end_idx(rest) - 1]);
        }
    }
}

/// Both ends trimmed: start never passes the end on a sequence with any
/// non-space character, and the bounds bracket exactly the non-space core.
pub proof fn lemma_trim_bounds(s: Seq<char>)
    ensures
        0 <= trim_start_idx(s) <= s.len(),
        0 <= trim_end_idx(s) <= s.len(),
        forall|j: int| 0 <= j < trim_start_idx(s) ==> is_space(#[trigger] s[j]),
        forall|j: int| trim_end_idx(s) <= j < s.len() ==> is_space(#[trigger] s[j]),
        trim_start_idx(s) < s.len() ==> !is_space(s[trim_start_idx(s)]),
        trim_end_idx(s) > 0 ==> !is_space(s[trim_end_idx(s) - 1]),
{
    lemma_trim_start(s);
    lemma_trim_end(s);
}

/// Copy `v[from..to]` out as a fresh vector.
pub fn slice_range(v: &Vec<char>, from: usize, to: usize) -> (r: Vec<char>)
    requires
        from <= to <= v@.len(),
    ensures
        r@ == v@.subrange(from as int, to as int),
{
    let mut r: Vec<char> = Vec::new();
    let mut i: usize = from;
    while i < to
        invariant
            from <= i <= to <= v@.len(),
            r@ == v@.subrange(from as int, i as int),
        decreases to - i,
    {
        r.push(v[i]);
        i = i + 1;
        proof {
            assert(r@ =~= v@.subrange(from as int, i as int));
        }
    }
    r
}

/// Trim spaces from both ends of `v`.
pub fn trim_vec(v: &Vec<char>) -> (r: Vec<char>)
    ensures
        r@ == trim_seq(v@),
{
    proof {
        lemma_trim_bounds(v@);
    }
    let mut start: usize = 0;
    while start < v.len() && v[start] == ' '
        invariant
            start <= v@.len(),
            forall|j: int| 0 <= j < start ==> is_space(#[trigger] v@[j]),
            start <= trim_start_idx(v@),
        decreases v@.len() - start,
    {
        proof {
            lemma_trim_skip(v@, start as int + 1);
        }
        start = start + 1;
    }
    let mut end: usize = v.len();
    while end > start && v[end - 1] == ' '
        invariant
            start <= end <= v@.len(),
            forall|j: int| end <= j < v@.len() ==> is_space(#[trigger] v@[j]),
            trim_end_idx(v@) <= end,
            start <= trim_start_idx(v@),
            forall|j: int| 0 <= j < start ==> is_space(#[trigger] v@[j]),
        decreases end,
    {
        proof {
            lemma_trim_end_skip(v@, end as int - 1);
        }
        end = end - 1;
    }
    proof {
        lemma_trim_bounds(v@);
        if end == start {
            // everything between start and end is gone; trimmed core is empty
            if trim_start_idx(v@) < trim_end_idx(v@) {
                let k = trim_start_idx(v@);
                assert(!is_space(v@[k]));
                assert(is_space(v@[k]));
            }
            assert(trim_seq(v@) =~= Seq::<char>::empty());
        } else {
            assert(!is_space(v@[start as int]));
            assert(!is_space(v@[end - 1]));
            assert(trim_start_idx(v@) == start as int);
            assert(trim_end_idx(v@) == end as int);
        }
    }
    slice_range(v, start, end)
}

/// If the first `n` characters are spaces, the start trim passes `n`.
proof fn lemma_trim_skip(s: Seq<char>, n: int)
    requires
        0 <= n <= s.len(),
        forall|j: int| 0 <= j < n ==> is_space(#[trigger] s[j]),
    ensures
        trim_start_idx(s) >= n,
    decreases n,
{
    lemma_trim_start(s);
    if n > 0 {
        assert(is_space(s[0]));
        let rest = s.drop_first();
        assert forall|j: int| 0 <= j < n - 1 implies is_space(#[trigger] rest[j]) by {
            assert(rest[j] == s[j + 1]);
        }
        lemma_trim_skip(rest, n - 1);
        assert(trim_start_idx(s) == 1 + trim_start_idx(rest));
    }
}

/// If everything from `n` on is a space, the end trim stops at or before `n`.
proof fn lemma_trim_end_skip(s: Seq<char>, n: int)
    requires
        0 <= n <= s.len(),
        forall|j: int| n <= j < s.len() ==> is_space(#[trigger] s[j]),
    ensures
        trim_end_idx(s) <= n,
    decreases s.len() - n,
{
    lemma_trim_end(s);
    if n < s.len() {
        assert(is_space(s.last()));
        let rest = s.drop_last();
        assert forall|j: int| n <= j < rest.len() implies is_space(#[trigger] rest[j]) by {
            assert(rest[j] == s[j]);
        }
        lemma_trim_end_skip(rest, n);
        assert(trim_end_idx(s) == trim_end_idx(rest));
    }
}

} // verus!
