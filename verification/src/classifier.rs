//! The path classifier: a pure, staged decision procedure from a video file
//! path to a typed classification.
//!
//! Stages, first match wins: extras (folder name or filename suffix), numbered
//! TV episodes (`SxxEyy`, or a season or specials folder with `E##`/`Ep##`),
//! air-date TV episodes, movies (`Title (YYYY)` or `Title.YYYY`), and a
//! generic fallback. After classification the tail of the filename stem is
//! parsed for an edition label, an optional episode title, a part number and
//! external id hints.

use vstd::prelude::*;
use crate::text::{
    all_digits, chars_eq, chars_of, check_match_at, contains_seq, contains_vec, digit_check,
    digit_run, digit_run_len, digits_val, is_digit, is_space, lemma_digit_run_bounds,
    lemma_space_run_bounds, lower_char, lower_seq, matches_at, parse_digits, slice_range,
    space_run, space_run_len, string_of, to_lower_vec, trim_seq, trim_vec,
};

verus! {

// ---------- result types ----------

#[derive(Debug, Clone, Copy, PartialEq, Eq, Structural)]
pub enum MediaType {
    Extra,
    TvEpisode,
    Movie,
    Generic,
}

#[derive(Debug, Clone)]
pub struct ExtraInfo {
    pub path: String,
    pub extra_type: String,
}

#[derive(Debug, Clone)]
pub struct TvEpisodeInfo {
    pub show_name: String,
    pub source_path: String,
    pub season: i32,
    pub episode: i32,
    pub title: Option<String>,
    pub ep_end: Option<i32>,
    pub air_date: Option<String>,
    pub year: Option<i32>,
    pub part: Option<i32>,
    pub version: Option<String>,
    pub external_ids: Vec<(String, String)>,
}

#[derive(Debug, Clone)]
pub struct MovieInfo {
    pub title: String,
    pub source_path: String,
    pub year: Option<i32>,
    pub part: Option<i32>,
    pub version: Option<String>,
    pub external_ids: Vec<(String, String)>,
}

#[derive(Debug, Clone)]
pub struct GenericInfo {
    pub title: String,
}

#[derive(Debug, Clone)]
pub struct MovieExtra {
    pub title: String,
    pub source_path: String,
    pub extra_type: String,
}

#[derive(Debug, Clone)]
pub struct ShowExtra {
    pub title: String,
    pub source_path: String,
    pub season: Option<i32>,
    pub episode: Option<i32>,
    pub extra_type: String,
}

#[derive(Debug, Clone)]
pub struct ClassificationResult {
    pub media_type: MediaType,
    pub extra: Option<ExtraInfo>,
    pub tv_episode: Option<TvEpisodeInfo>,
    pub movie: Option<MovieInfo>,
    pub generic: Option<GenericInfo>,
}

// ---------- path decomposition ----------

/// Backslashes replaced by slashes, so both separator conventions parse the
/// same way.
pub open spec fn norm_seps(s: Seq<char>) -> Seq<char> {
    s.map_values(|c: char| if c == '\\' { '/' } else { c })
}

/// Index of the first occurrence of `c` in `s`, or `-1`.
pub open spec fn find_char(s: Seq<char>, c: char) -> int
    decreases s.len(),
{
    if s.len() == 0 {
        -1
    } else if s[0] == c {
        0
    } else {
        let r = find_char(s.drop_first(), c);
        if r < 0 {
            -1
        } else {
            r + 1
        }
    }
}

pub proof fn lemma_find_char(s: Seq<char>, c: char)
    ensures
        -1 <= find_char(s, c) < s.len(),
        find_char(s, c) == -1 ==> forall|i: int| 0 <= i < s.len() ==> s[i] != c,
        find_char(s, c) >= 0 ==> {
            &&& find_char(s, c) < s.len()
            &&& s[find_char(s, c)] == c
            &&& forall|i: int| 0 <= i < find_char(s, c) ==> s[i] != c
        },
    decreases s.len(),
{
    if s.len() > 0 && s[0] != c {
        lemma_find_char(s.drop_first(), c);
        let rest = s.drop_first();
        let r = find_char(rest, c);
        if r >= 0 {
            assert(s[r + 1] == rest[r]);
            assert forall|i: int| 0 <= i < r + 1 implies s[i] != c by {
                if i > 0 {
                    assert(s[i] == rest[i - 1]);
                }
            }
        } else {
            assert forall|i: int| 0 <= i < s.len() implies s[i] != c by {
                if i > 0 {
                    assert(s[i] == rest[i - 1]);
                }
            }
        }
    }
}

/// The segments of `s` between occurrences of `c`; always at least one
/// segment, and empty segments are kept.
pub open spec fn split_seq(s: Seq<char>, c: char) -> Seq<Seq<char>>
    decreases s.len(),
{
    let i = find_char(s, c);
    if 0 <= i < s.len() {
        seq![s.subrange(0, i)] + split_seq(s.subrange(i + 1, s.len() as int), c)
    } else {
        seq![s]
    }
}

pub proof fn lemma_split_nonempty(s: Seq<char>, c: char)
    ensures
        split_seq(s, c).len() >= 1,
    decreases s.len(),
{
    lemma_find_char(s, c);
    let i = find_char(s, c);
    if 0 <= i < s.len() {
        lemma_split_nonempty(s.subrange(i + 1, s.len() as int), c);
    }
}

fn find_char_exec(v: &Vec<char>, c: char) -> (r: Option<usize>)
    ensures
        match r {
            Some(i) => find_char(v@, c) == i as int,
            None => find_char(v@, c) == -1,
        },
{
    proof {
        lemma_find_char(v@, c);
    }
    let mut i: usize = 0;
    while i < v.len()
        invariant
            i <= v@.len(),
            forall|j: int| 0 <= j < i ==> v@[j] != c,
        decreases v@.len() - i,
    {
        if v[i] == c {
            proof {
                lemma_find_char(v@, c);
                let f = find_char(v@, c);
                if f == -1 {
                    assert(v@[i as int] != c);
                }
                if 0 <= f < i {
                    assert(v@[f] != c);
                }
                if f > i {
                    assert(v@[i as int] != c);
                }
            }
            return Some(i);
        }
        i = i + 1;
    }
    proof {
        lemma_find_char(v@, c);
        if find_char(v@, c) >= 0 {
            assert(v@[find_char(v@, c)] != c);
        }
    }
    None
}

pub(crate) fn split_path_segments(v: &Vec<char>, c: char) -> (r: Vec<Vec<char>>)
    ensures
        r@.len() == split_seq(v@, c).len(),
        forall|i: int| 0 <= i < r@.len() ==> r@[i]@ == split_seq(v@, c)[i],
    decreases v@.len(),
{
    proof {
        lemma_find_char(v@, c);
    }
    match find_char_exec(v, c) {
        Some(i) => {
            let n = v.len();
            proof {
                assert(i < n);
            }
            let head = slice_range(v, 0, i);
            let tail = slice_range(v, i + 1, n);
            let mut rest = split_path_segments(&tail, c);
            let mut r: Vec<Vec<char>> = Vec::new();
            r.push(head);
            let mut k: usize = 0;
            let ghost spec_r = split_seq(v@, c);
            proof {
                assert(spec_r[0] == v@.subrange(0, i as int));
            }
            while k < rest.len()
                invariant
                    k <= rest@.len(),
                    r@.len() == 1 + k,
                    rest@.len() + 1 == spec_r.len(),
                    r@[0]@ == spec_r[0],
                    forall|j: int| 0 <= j < rest@.len() ==> rest@[j]@ == spec_r[j + 1],
                    forall|j: int| 1 <= j < r@.len() ==> r@[j]@ == spec_r[j],
                decreases rest@.len() - k,
            {
                let item = slice_range(&rest[k], 0, rest[k].len());
                proof {
                    assert(item@ == rest@[k as int]@);
                }
                r.push(item);
                k = k + 1;
            }
            r
        },
        None => {
            let mut r: Vec<Vec<char>> = Vec::new();
            r.push(slice_range(v, 0, v.len()));
            proof {
                assert(v@.subrange(0, v@.len() as int) =~= v@);
            }
            r
        },
    }
}

/// The views of a sequence of character vectors.
pub open spec fn seq_views(s: Seq<Vec<char>>) -> Seq<Seq<char>> {
    Seq::new(s.len(), |i: int| s[i]@)
}

/// Keep only the non-empty segments.
pub open spec fn nonempty_segments(parts: Seq<Seq<char>>) -> Seq<Seq<char>>
    decreases parts.len(),
{
    if parts.len() == 0 {
        Seq::empty()
    } else if parts[0].len() > 0 {
        seq![parts[0]] + nonempty_segments(parts.drop_first())
    } else {
        nonempty_segments(parts.drop_first())
    }
}

/// The path's folder components: every non-empty segment but the last one.
pub open spec fn spec_folders(path: Seq<char>) -> Seq<Seq<char>> {
    nonempty_segments(split_seq(norm_seps(path), '/').drop_last())
}

/// The path's final segment, extension included.
pub open spec fn spec_filename(path: Seq<char>) -> Seq<char> {
    split_seq(norm_seps(path), '/').last()
}

/// Index of the last `.` of `s`, or `-1`.
pub open spec fn find_last_char(s: Seq<char>, c: char) -> int
    decreases s.len(),
{
    if s.len() == 0 {
        -1
    } else if s.last() == c {
        s.len() - 1
    } else {
        find_last_char(s.drop_last(), c)
    }
}

pub proof fn lemma_find_last_char(s: Seq<char>, c: char)
    ensures
        -1 <= find_last_char(s, c) < s.len(),
        find_last_char(s, c) == -1 ==> forall|i: int| 0 <= i < s.len() ==> s[i] != c,
        find_last_char(s, c) >= 0 ==> {
            &&& find_last_char(s, c) < s.len()
            &&& s[find_last_char(s, c)] == c
            &&& forall|i: int| find_last_char(s, c) < i < s.len() ==> s[i] != c
        },
    decreases s.len(),
{
    if s.len() > 0 && s.last() != c {
        lemma_find_last_char(s.drop_last(), c);
        let rest = s.drop_last();
        assert forall|i: int| 0 <= i < rest.len() implies s[i] == rest[i] by {}
    }
}

/// The filename without its extension: everything before the last dot, or
/// the whole name when it has no dot.
pub open spec fn spec_stem(path: Seq<char>) -> Seq<char> {
    let name = spec_filename(path);
    let d = find_last_char(name, '.');
    if d >= 0 {
        name.subrange(0, d)
    } else {
        name
    }
}

/// The working decomposition of a path: folder components, filename, stem.
pub(crate) struct PathParts {
    pub folders: Vec<Vec<char>>,
    pub filename: Vec<char>,
    pub stem: Vec<char>,
}

impl PathParts {
    /// The decomposition matches the path it came from.
    pub(crate) open spec fn wf(&self, path: Seq<char>) -> bool {
        &&& self.folders@.len() == spec_folders(path).len()
        &&& forall|i: int|
            0 <= i < self.folders@.len() ==> self.folders@[i]@ == spec_folders(path)[i]
        &&& self.filename@ == spec_filename(path)
        &&& self.stem@ == spec_stem(path)
    }
}

pub(crate) fn nonempty_path_segments(parts: Vec<Vec<char>>) -> (r: Vec<Vec<char>>)
    ensures
        r@.len() == nonempty_segments(seq_views(parts@)).len(),
        forall|i: int|
            0 <= i < r@.len() ==> r@[i]@ == nonempty_segments(seq_views(parts@))[i],
{
    let ghost pv = seq_views(parts@);
    let mut r: Vec<Vec<char>> = Vec::new();
    let mut k: usize = 0;
    while k < parts.len()
        invariant
            k <= parts@.len(),
            pv == seq_views(parts@),
            pv.len() == parts@.len(),
            forall|i: int| 0 <= i < pv.len() ==> pv[i] == parts@[i]@,
            r@.len() == nonempty_segments(pv.take(k as int)).len(),
            forall|i: int|
                0 <= i < r@.len() ==> r@[i]@ == nonempty_segments(pv.take(k as int))[i],
        decreases parts@.len() - k,
    {
        let ghost pre = pv.take(k as int);
        if parts[k].len() > 0 {
            let item = slice_range(&parts[k], 0, parts[k].len());
            proof {
                assert(item@ =~= parts@[k as int]@);
            }
            r.push(item);
        }
        k = k + 1;
        proof {
            lemma_nonempty_take_step(pv, k as int);
        }
    }
    proof {
        assert(pv.take(pv.len() as int) =~= pv);
    }
    r
}

/// Extending the prefix by one segment extends its non-empty selection in
/// the expected way.
proof fn lemma_nonempty_take_step(parts: Seq<Seq<char>>, k: int)
    requires
        1 <= k <= parts.len(),
    ensures
        nonempty_segments(parts.take(k)) == if parts[k - 1].len() > 0 {
            nonempty_segments(parts.take(k - 1)).push(parts[k - 1])
        } else {
            nonempty_segments(parts.take(k - 1))
        },
    decreases k,
{
    lemma_nonempty_snoc(parts.take(k - 1), parts[k - 1]);
    assert(parts.take(k) =~= parts.take(k - 1).push(parts[k - 1]));
}

proof fn lemma_nonempty_snoc(parts: Seq<Seq<char>>, last: Seq<char>)
    ensures
        nonempty_segments(parts.push(last)) == if last.len() > 0 {
            nonempty_segments(parts).push(last)
        } else {
            nonempty_segments(parts)
        },
    decreases parts.len(),
{
    let whole = parts.push(last);
    assert(whole.len() == parts.len() + 1);
    if parts.len() == 0 {
        assert(whole[0] == last);
        assert(whole.drop_first() =~= Seq::<Seq<char>>::empty());
        assert(nonempty_segments(Seq::<Seq<char>>::empty()) =~= Seq::<Seq<char>>::empty());
        if last.len() > 0 {
            assert(nonempty_segments(whole) =~= seq![last]);
            assert(nonempty_segments(parts).push(last) =~= seq![last]);
        } else {
            assert(nonempty_segments(whole) =~= Seq::<Seq<char>>::empty());
        }
    } else {
        assert(whole[0] == parts[0]);
        assert(whole.drop_first() =~= parts.drop_first().push(last));
        lemma_nonempty_snoc(parts.drop_first(), last);
        let tail_ne = nonempty_segments(parts.drop_first());
        if last.len() > 0 {
            assert(nonempty_segments(whole.drop_first()) == tail_ne.push(last));
            if parts[0].len() > 0 {
                assert(nonempty_segments(whole) == seq![parts[0]] + tail_ne.push(last));
                assert(nonempty_segments(parts) == seq![parts[0]] + tail_ne);
                assert(seq![parts[0]] + tail_ne.push(last) =~= (seq![parts[0]] + tail_ne).push(
                    last,
                ));
            } else {
                assert(nonempty_segments(whole) == tail_ne.push(last));
                assert(nonempty_segments(parts) == tail_ne);
            }
        } else {
            assert(nonempty_segments(whole.drop_first()) == tail_ne);
            if parts[0].len() > 0 {
                assert(nonempty_segments(whole) == seq![parts[0]] + tail_ne);
                assert(nonempty_segments(parts) == seq![parts[0]] + tail_ne);
            } else {
                assert(nonempty_segments(whole) == tail_ne);
                assert(nonempty_segments(parts) == tail_ne);
            }
        }
    }
}

/// Split a path into folders, filename and stem.
pub(crate) fn parse_path(path: &Vec<char>) -> (r: PathParts)
    ensures
        r.wf(path@),
{
    let mut norm: Vec<char> = Vec::new();
    let mut i: usize = 0;
    while i < path.len()
        invariant
            i <= path@.len(),
            norm@ == norm_seps(path@.subrange(0, i as int)),
        decreases path@.len() - i,
    {
        let c = path[i];
        norm.push(if c == '\\' { '/' } else { c });
        i = i + 1;
        proof {
            assert(norm@ =~= norm_seps(path@.subrange(0, i as int)));
        }
    }
    proof {
        assert(path@.subrange(0, path@.len() as int) =~= path@);
        assert(norm@ =~= norm_seps(path@));
        lemma_split_nonempty(norm@, '/');
    }
    let segs = split_path_segments(&norm, '/');
    let filename = slice_range(&segs[segs.len() - 1], 0, segs[segs.len() - 1].len());
    let mut init = segs;
    let _ = init.pop();
    proof {
        assert(init@.len() == split_seq(norm_seps(path@), '/').drop_last().len());
        assert forall|j: int| 0 <= j < init@.len() implies init@[j]@ == split_seq(
            norm_seps(path@),
            '/',
        ).drop_last()[j] by {}
        assert(seq_views(init@) =~= split_seq(norm_seps(path@), '/').drop_last());
    }
    let folders = nonempty_path_segments(init);
    proof {
        lemma_find_last_char(filename@, '.');
    }
    let stem = match find_last_char_exec(&filename, '.') {
        Some(d) => slice_range(&filename, 0, d),
        None => slice_range(&filename, 0, filename.len()),
    };
    proof {
        assert(filename@.subrange(0, filename@.len() as int) =~= filename@);
        assert(filename@ == spec_filename(path@));
        assert(folders@.len() == spec_folders(path@).len());
        assert(forall|i: int|
            0 <= i < folders@.len() ==> folders@[i]@ == spec_folders(path@)[i]);
        assert(stem@ == spec_stem(path@));
    }
    PathParts { folders, filename, stem }
}

pub(crate) fn find_last_char_exec(v: &Vec<char>, c: char) -> (r: Option<usize>)
    ensures
        match r {
            Some(i) => find_last_char(v@, c) == i as int,
            None => find_last_char(v@, c) == -1,
        },
{
    proof {
        lemma_find_last_char(v@, c);
    }
    let mut i: usize = v.len();
    while i > 0
        invariant
            i <= v@.len(),
            forall|j: int| i <= j < v@.len() ==> v@[j] != c,
        decreases i,
    {
        i = i - 1;
        if v[i] == c {
            proof {
                lemma_find_last_char(v@, c);
                let f = find_last_char(v@, c);
                if f == -1 {
                    assert(v@[i as int] != c);
                }
                if 0 <= f < i {
                    assert(v@[i as int] != c);
                }
                if f > i {
                    assert(v@[f] != c);
                }
            }
            return Some(i);
        }
    }
    proof {
        lemma_find_last_char(v@, c);
        if find_last_char(v@, c) >= 0 {
            assert(v@[find_last_char(v@, c)] != c);
        }
    }
    None
}

/// Position of the last dot of a name, if any.
pub(crate) fn find_last_dot(v: &Vec<char>) -> (r: Option<usize>)
    ensures
        match r {
            Some(i) => find_last_char(v@, '.') == i as int && i < v@.len(),
            None => find_last_char(v@, '.') == -1,
        },
{
    proof {
        lemma_find_last_char(v@, '.');
    }
    find_last_char_exec(v, '.')
}

/// `parts` joined with `/` between consecutive segments.
pub open spec fn join_slash(parts: Seq<Seq<char>>) -> Seq<char>
    decreases parts.len(),
{
    if parts.len() == 0 {
        Seq::empty()
    } else if parts.len() == 1 {
        parts[0]
    } else {
        join_slash(parts.drop_last()) + seq!['/'] + parts.last()
    }
}

pub(crate) fn join_slash_exec(parts: &Vec<Vec<char>>, upto: usize) -> (r: Vec<char>)
    requires
        upto <= parts@.len(),
    ensures
        r@ == join_slash(seq_views(parts@).take(upto as int)),
{
    let mut r: Vec<char> = Vec::new();
    let mut k: usize = 0;
    while k < upto
        invariant
            k <= upto <= parts@.len(),
            r@ == join_slash(seq_views(parts@).take(k as int)),
        decreases upto - k,
    {
        let ghost pv = seq_views(parts@);
        if k > 0 {
            r.push('/');
        }
        let mut j: usize = 0;
        let ghost mid = r@;
        while j < parts[k].len()
            invariant
                j <= parts@[k as int]@.len(),
                k < parts@.len(),
                r@ == mid + parts@[k as int]@.subrange(0, j as int),
            decreases parts@[k as int]@.len() - j,
        {
            r.push(parts[k][j]);
            j = j + 1;
            proof {
                assert(r@ =~= mid + parts@[k as int]@.subrange(0, j as int));
            }
        }
        k = k + 1;
        proof {
            assert(parts@[k - 1]@.subrange(0, parts@[k - 1]@.len() as int) =~= pv[k - 1]);
            assert(pv.take(k as int).drop_last() =~= pv.take(k as int - 1));
            assert(pv.take(k as int).last() == pv[k - 1]);
            if k == 1 {
                assert(r@ =~= join_slash(pv.take(k as int)));
            } else {
                assert(r@ =~= join_slash(pv.take(k as int)));
            }
        }
    }
    r
}

// ---------- token patterns ----------

/// Smaller of two lengths.
pub open spec fn min_len(a: int, b: int) -> int {
    if a < b {
        a
    } else {
        b
    }
}

/// 10 to the `n`.
pub open spec fn pow10(n: nat) -> nat
    decreases n,
{
    if n == 0 {
        1
    } else {
        10 * pow10((n - 1) as nat)
    }
}

pub proof fn lemma_digits_val_upper(s: Seq<char>)
    requires
        all_digits(s),
    ensures
        digits_val(s) < pow10(s.len()),
    decreases s.len(),
{
    if s.len() > 0 {
        let pre = s.drop_last();
        assert forall|i: int| 0 <= i < pre.len() implies is_digit(#[trigger] pre[i]) by {
            assert(pre[i] == s[i]);
        }
        lemma_digits_val_upper(pre);
        assert(digits_val(s) == digits_val(pre) * 10 + (s.last() as int - '0' as int));
        assert(digits_val(pre) * 10 <= (pow10(pre.len()) - 1) * 10) by (nonlinear_arith)
            requires
                digits_val(pre) <= pow10(pre.len()) - 1,
        ;
    }
}

/// Parse a short digit run whose value is known to fit.
fn parse_short(v: &Vec<char>, from: usize, to: usize) -> (r: u32)
    requires
        from <= to <= v@.len(),
        to - from <= 4,
        all_digits(v@.subrange(from as int, to as int)),
    ensures
        r == digits_val(v@.subrange(from as int, to as int)),
        r <= 9999,
{
    proof {
        lemma_digits_val_upper(v@.subrange(from as int, to as int));
        let n = v@.subrange(from as int, to as int).len();
        lemma_pow10_mono(n, 4);
        assert(pow10(0) == 1);
        assert(pow10(1) == 10);
        assert(pow10(2) == 100);
        assert(pow10(3) == 1000);
        assert(pow10(4) == 10000);
    }
    match parse_digits(v, from, to) {
        Some(n) => n,
        None => {
            proof {
                assert(false);
            }
            0
        },
    }
}

proof fn lemma_pow10_mono(a: nat, b: nat)
    requires
        a <= b,
    ensures
        pow10(a) <= pow10(b),
    decreases b,
{
    if a < b {
        lemma_pow10_mono(a, (b - 1) as nat);
        assert(pow10(b) == 10 * pow10((b - 1) as nat));
        assert(pow10((b - 1) as nat) <= 10 * pow10((b - 1) as nat)) by (nonlinear_arith)
            requires
                pow10((b - 1) as nat) >= 0,
        ;
    }
}

/// The optional episode-range tail `-E?<digits>` (the `E` only where
/// `allow_e` holds) standing at position `j`.
pub open spec fn range_tail_at(s: Seq<char>, j: int, allow_e: bool) -> bool {
    &&& 0 <= j < s.len()
    &&& s[j] == '-'
    &&& digit_run_len(s, range_tail_start(s, j, allow_e)) >= 1
}

/// Where the range digits start: after the `-`, and after one `e` where one
/// stands there and is allowed.
pub open spec fn range_tail_start(s: Seq<char>, j: int, allow_e: bool) -> int {
    if allow_e && j + 1 < s.len() && lower_char(s[j + 1]) == 'e' {
        j + 2
    } else {
        j + 1
    }
}

/// How many of the range digits are taken: at most four.
pub open spec fn range_tail_len(s: Seq<char>, j: int, allow_e: bool) -> int {
    min_len(4, digit_run_len(s, range_tail_start(s, j, allow_e)))
}

/// The range's numeric value.
pub open spec fn range_tail_val(s: Seq<char>, j: int, allow_e: bool) -> nat {
    digits_val(
        s.subrange(
            range_tail_start(s, j, allow_e),
            range_tail_start(s, j, allow_e) + range_tail_len(s, j, allow_e),
        ),
    )
}

/// One past the last consumed character of the range tail.
pub open spec fn range_tail_end(s: Seq<char>, j: int, allow_e: bool) -> int {
    range_tail_start(s, j, allow_e) + range_tail_len(s, j, allow_e)
}

/// Check for a range tail at `j`, returning its value and end.
fn range_tail_check(v: &Vec<char>, j: usize, allow_e: bool) -> (r: Option<(u32, usize)>)
    requires
        j <= v@.len(),
    ensures
        match r {
            Some((val, end)) => {
                &&& range_tail_at(v@, j as int, allow_e)
                &&& val == range_tail_val(v@, j as int, allow_e)
                &&& end == range_tail_end(v@, j as int, allow_e)
                &&& val <= 9999
            },
            None => !range_tail_at(v@, j as int, allow_e),
        },
{
    if j >= v.len() || v[j] != '-' {
        return None;
    }
    let start: usize = if allow_e && j + 1 < v.len() && char_is_lower_e(v[j + 1]) {
        j + 2
    } else {
        j + 1
    };
    proof {
        assert(start as int == range_tail_start(v@, j as int, allow_e));
        lemma_digit_run_bounds(v@, start as int);
    }
    let run = digit_run(v, start);
    if run == 0 {
        return None;
    }
    let take: usize = if run > 4 {
        4
    } else {
        run
    };
    proof {
        lemma_digit_run_bounds(v@, start as int);
        assert(all_digits(v@.subrange(start as int, (start + take) as int)));
    }
    let val = parse_short(v, start, start + take);
    Some((val, start + take))
}

fn char_is_lower_e(c: char) -> (r: bool)
    ensures
        r == (lower_char(c) == 'e'),
{
    c == 'e' || c == 'E'
}

fn char_is_lower_s(c: char) -> (r: bool)
    ensures
        r == (lower_char(c) == 's'),
{
    c == 's' || c == 'S'
}

fn char_is_lower_p(c: char) -> (r: bool)
    ensures
        r == (lower_char(c) == 'p'),
{
    c == 'p' || c == 'P'
}

/// The `SxxEyy` token stands at position `i`: an `s`, one to three season
/// digits (the whole digit run), an `e`, and at least one episode digit.
pub open spec fn sxe_at(s: Seq<char>, i: int) -> bool {
    let r1 = digit_run_len(s, i + 1);
    &&& 0 <= i < s.len()
    &&& lower_char(s[i]) == 's'
    &&& 1 <= r1 <= 3
    &&& i + 1 + r1 < s.len()
    &&& lower_char(s[i + 1 + r1]) == 'e'
    &&& digit_run_len(s, i + 2 + r1) >= 1
}

pub open spec fn sxe_season(s: Seq<char>, i: int) -> nat {
    digits_val(s.subrange(i + 1, i + 1 + digit_run_len(s, i + 1)))
}

pub open spec fn sxe_ep_start(s: Seq<char>, i: int) -> int {
    i + 2 + digit_run_len(s, i + 1)
}

/// At most four episode digits are taken.
pub open spec fn sxe_ep_len(s: Seq<char>, i: int) -> int {
    min_len(4, digit_run_len(s, sxe_ep_start(s, i)))
}

pub open spec fn sxe_episode(s: Seq<char>, i: int) -> nat {
    digits_val(s.subrange(sxe_ep_start(s, i), sxe_ep_start(s, i) + sxe_ep_len(s, i)))
}

/// One past the episode digits, before any range tail.
pub open spec fn sxe_after_ep(s: Seq<char>, i: int) -> int {
    sxe_ep_start(s, i) + sxe_ep_len(s, i)
}

pub open spec fn sxe_ep_end(s: Seq<char>, i: int) -> Option<nat> {
    if range_tail_at(s, sxe_after_ep(s, i), true) {
        Some(range_tail_val(s, sxe_after_ep(s, i), true))
    } else {
        None
    }
}

/// One past the whole `SxxEyy` token, range tail included.
pub open spec fn sxe_end(s: Seq<char>, i: int) -> int {
    if range_tail_at(s, sxe_after_ep(s, i), true) {
        range_tail_end(s, sxe_after_ep(s, i), true)
    } else {
        sxe_after_ep(s, i)
    }
}

/// Parsed fields of an `SxxEyy` match.
pub struct SxeFields {
    pub season: u32,
    pub episode: u32,
    pub ep_end: Option<u32>,
    pub end: usize,
}

impl SxeFields {
    pub open spec fn matches(&self, s: Seq<char>, i: int) -> bool {
        &&& self.season == sxe_season(s, i)
        &&& self.episode == sxe_episode(s, i)
        &&& (match self.ep_end {
            Some(e) => sxe_ep_end(s, i) == Some(e as nat) && e <= 9999,
            None => sxe_ep_end(s, i) is None,
        })
        &&& self.end as int == sxe_end(s, i)
        &&& self.season <= 9999
        &&& self.episode <= 9999
    }
}

fn sxe_check(v: &Vec<char>, i: usize) -> (r: Option<SxeFields>)
    requires
        i < v@.len(),
    ensures
        match r {
            Some(f) => sxe_at(v@, i as int) && f.matches(v@, i as int),
            None => !sxe_at(v@, i as int),
        },
{
    let n = v.len();
    if !char_is_lower_s(v[i]) {
        return None;
    }
    proof {
        lemma_digit_run_bounds(v@, i as int + 1);
    }
    let r1 = digit_run(v, i + 1);
    if r1 < 1 || r1 > 3 {
        return None;
    }
    if i + 1 + r1 >= v.len() || !char_is_lower_e(v[i + 1 + r1]) {
        return None;
    }
    proof {
        lemma_digit_run_bounds(v@, i as int + 2 + r1 as int);
    }
    let r2 = digit_run(v, i + 2 + r1);
    if r2 == 0 {
        return None;
    }
    proof {
        lemma_digit_run_bounds(v@, i as int + 1);
        assert(all_digits(v@.subrange(i + 1, i + 1 + r1 as int)));
    }
    let season = parse_short(v, i + 1, i + 1 + r1);
    let ep_take: usize = if r2 > 4 {
        4
    } else {
        r2
    };
    proof {
        lemma_digit_run_bounds(v@, i as int + 2 + r1 as int);
        assert(all_digits(v@.subrange(i + 2 + r1, i + 2 + r1 + ep_take as int)));
    }
    let episode = parse_short(v, i + 2 + r1, i + 2 + r1 + ep_take);
    let after = i + 2 + r1 + ep_take;
    match range_tail_check(v, after, true) {
        Some((val, end)) => Some(
            SxeFields { season, episode, ep_end: Some(val), end },
        ),
        None => Some(SxeFields { season, episode, ep_end: None, end: after }),
    }
}

/// Index of the leftmost `SxxEyy` match at or after `i`, or `-1`.
pub open spec fn first_sxe_from(s: Seq<char>, i: int) -> int
    decreases s.len() - i,
{
    if i < 0 || i >= s.len() {
        -1
    } else if sxe_at(s, i) {
        i
    } else {
        first_sxe_from(s, i + 1)
    }
}

/// Index of the leftmost `SxxEyy` match, or `-1`.
pub open spec fn first_sxe(s: Seq<char>) -> int {
    first_sxe_from(s, 0)
}

/// Leftmost `SxxEyy` match in `v`.
#[verifier::loop_isolation(false)]
pub(crate) fn find_sxe(v: &Vec<char>) -> (r: Option<(usize, SxeFields)>)
    ensures
        match r {
            Some((at, f)) => {
                &&& first_sxe(v@) == at as int
                &&& sxe_at(v@, at as int)
                &&& f.matches(v@, at as int)
            },
            None => first_sxe(v@) == -1,
        },
{
    let mut i: usize = 0;
    while i < v.len()
        invariant
            i <= v@.len(),
            first_sxe(v@) == first_sxe_from(v@, i as int),
        decreases v@.len() - i,
    {
        match sxe_check(v, i) {
            Some(f) => {
                return Some((i, f));
            },
            None => {},
        }
        i = i + 1;
    }
    None
}

/// The `E##` or `Ep##` token at position `i`: an `e` (then a `p` where
/// `with_p` holds) and at least one episode digit.
pub open spec fn ey_at(s: Seq<char>, i: int, with_p: bool) -> bool {
    &&& 0 <= i < s.len()
    &&& lower_char(s[i]) == 'e'
    &&& (with_p ==> i + 1 < s.len() && lower_char(s[i + 1]) == 'p')
    &&& digit_run_len(s, ey_ep_start(s, i, with_p)) >= 1
}

pub open spec fn ey_ep_start(s: Seq<char>, i: int, with_p: bool) -> int {
    if with_p {
        i + 2
    } else {
        i + 1
    }
}

pub open spec fn ey_ep_len(s: Seq<char>, i: int, with_p: bool) -> int {
    min_len(4, digit_run_len(s, ey_ep_start(s, i, with_p)))
}

pub open spec fn ey_episode(s: Seq<char>, i: int, with_p: bool) -> nat {
    digits_val(
        s.subrange(ey_ep_start(s, i, with_p), ey_ep_start(s, i, with_p) + ey_ep_len(s, i, with_p)),
    )
}

pub open spec fn ey_after_ep(s: Seq<char>, i: int, with_p: bool) -> int {
    ey_ep_start(s, i, with_p) + ey_ep_len(s, i, with_p)
}

pub open spec fn ey_ep_end(s: Seq<char>, i: int, with_p: bool) -> Option<nat> {
    if range_tail_at(s, ey_after_ep(s, i, with_p), false) {
        Some(range_tail_val(s, ey_after_ep(s, i, with_p), false))
    } else {
        None
    }
}

pub open spec fn ey_end(s: Seq<char>, i: int, with_p: bool) -> int {
    if range_tail_at(s, ey_after_ep(s, i, with_p), false) {
        range_tail_end(s, ey_after_ep(s, i, with_p), false)
    } else {
        ey_after_ep(s, i, with_p)
    }
}

/// Parsed fields of an `E##`/`Ep##` match.
pub struct EyFields {
    pub episode: u32,
    pub ep_end: Option<u32>,
    pub end: usize,
}

impl EyFields {
    pub open spec fn matches(&self, s: Seq<char>, i: int, with_p: bool) -> bool {
        &&& self.episode == ey_episode(s, i, with_p)
        &&& (match self.ep_end {
            Some(e) => ey_ep_end(s, i, with_p) == Some(e as nat) && e <= 9999,
            None => ey_ep_end(s, i, with_p) is None,
        })
        &&& self.end as int == ey_end(s, i, with_p)
        &&& self.episode <= 9999
    }
}

fn ey_check(v: &Vec<char>, i: usize, with_p: bool) -> (r: Option<EyFields>)
    requires
        i < v@.len(),
    ensures
        match r {
            Some(f) => ey_at(v@, i as int, with_p) && f.matches(v@, i as int, with_p),
            None => !ey_at(v@, i as int, with_p),
        },
{
    let n = v.len();
    if !char_is_lower_e(v[i]) {
        return None;
    }
    if with_p && (i + 1 >= v.len() || !char_is_lower_p(v[i + 1])) {
        return None;
    }
    let start: usize = if with_p {
        i + 2
    } else {
        i + 1
    };
    proof {
        lemma_digit_run_bounds(v@, start as int);
    }
    let run = digit_run(v, start);
    if run == 0 {
        return None;
    }
    let take: usize = if run > 4 {
        4
    } else {
        run
    };
    proof {
        lemma_digit_run_bounds(v@, start as int);
        assert(all_digits(v@.subrange(start as int, (start + take) as int)));
    }
    let episode = parse_short(v, start, start + take);
    let after = start + take;
    match range_tail_check(v, after, false) {
        Some((val, end)) => Some(EyFields { episode, ep_end: Some(val), end }),
        None => Some(EyFields { episode, ep_end: None, end: after }),
    }
}

/// Index of the leftmost `E##`/`Ep##` match at or after `i`, or `-1`.
pub open spec fn first_ey_from(s: Seq<char>, i: int, with_p: bool) -> int
    decreases s.len() - i,
{
    if i < 0 || i >= s.len() {
        -1
    } else if ey_at(s, i, with_p) {
        i
    } else {
        first_ey_from(s, i + 1, with_p)
    }
}

/// Index of the leftmost `E##`/`Ep##` match, or `-1`.
pub open spec fn first_ey(s: Seq<char>, with_p: bool) -> int {
    first_ey_from(s, 0, with_p)
}

/// Leftmost `E##`/`Ep##` match in `v`.
#[verifier::loop_isolation(false)]
pub(crate) fn find_ey(v: &Vec<char>, with_p: bool) -> (r: Option<(usize, EyFields)>)
    ensures
        match r {
            Some((at, f)) => {
                &&& first_ey(v@, with_p) == at as int
                &&& ey_at(v@, at as int, with_p)
                &&& f.matches(v@, at as int, with_p)
            },
            None => first_ey(v@, with_p) == -1,
        },
{
    let mut i: usize = 0;
    while i < v.len()
        invariant
            i <= v@.len(),
            first_ey(v@, with_p) == first_ey_from(v@, i as int, with_p),
        decreases v@.len() - i,
    {
        match ey_check(v, i, with_p) {
            Some(f) => {
                return Some((i, f));
            },
            None => {},
        }
        i = i + 1;
    }
    None
}

/// A matched token ends after where it starts and inside the stem.
pub proof fn lemma_sxe_end_bounds(s: Seq<char>, i: int)
    requires
        sxe_at(s, i),
    ensures
        i < sxe_end(s, i) <= s.len(),
{
    lemma_digit_run_bounds(s, i + 1);
    lemma_digit_run_bounds(s, sxe_ep_start(s, i));
    let after = sxe_after_ep(s, i);
    if range_tail_at(s, after, true) {
        lemma_digit_run_bounds(s, range_tail_start(s, after, true));
    }
}

pub proof fn lemma_ey_end_bounds(s: Seq<char>, i: int, with_p: bool)
    requires
        ey_at(s, i, with_p),
    ensures
        i < ey_end(s, i, with_p) <= s.len(),
{
    lemma_digit_run_bounds(s, ey_ep_start(s, i, with_p));
    let after = ey_after_ep(s, i, with_p);
    if range_tail_at(s, after, false) {
        lemma_digit_run_bounds(s, range_tail_start(s, after, false));
    }
}

// ---------- folders ----------

/// A `Season <number>` folder: the word `season` (any case), spaces, and
/// digits to the end of the name.
pub open spec fn season_folder(f: Seq<char>) -> bool {
    &&& f.len() > 6
    &&& lower_seq(f.subrange(0, 6)) == "season"@
    &&& space_run_len(f, 6) >= 1
    &&& 6 + space_run_len(f, 6) < f.len()
    &&& all_digits(f.subrange(6 + space_run_len(f, 6), f.len() as int))
}

/// The digits of a season folder name.
pub open spec fn season_digits(f: Seq<char>) -> Seq<char> {
    f.subrange(6 + space_run_len(f, 6), f.len() as int)
}

/// The folder's season number; 1 when the digits overflow an `i32`.
pub open spec fn season_value(f: Seq<char>) -> int {
    if digits_val(season_digits(f)) <= i32::MAX {
        digits_val(season_digits(f)) as int
    } else {
        1
    }
}

/// A `special` or `specials` folder, compared case-insensitively.
pub open spec fn specials_folder(f: Seq<char>) -> bool {
    lower_seq(f) == "special"@ || lower_seq(f) == "specials"@
}

/// Recognize a season folder and extract its number.
pub(crate) fn check_season_folder(f: &Vec<char>) -> (r: Option<i32>)
    ensures
        match r {
            Some(n) => season_folder(f@) && n == season_value(f@),
            None => !season_folder(f@),
        },
{
    if f.len() <= 6 {
        return None;
    }
    let prefix = slice_range(f, 0, 6);
    let prefix_lower = to_lower_vec(&prefix);
    let word = chars_of("season");
    if !chars_eq(&prefix_lower, &word) {
        return None;
    }
    proof {
        lemma_space_run_bounds(f@, 6);
    }
    let sp = space_run(f, 6);
    if sp == 0 {
        return None;
    }
    let start = 6 + sp;
    if start >= f.len() {
        return None;
    }
    proof {
        lemma_digit_run_bounds(f@, start as int);
    }
    let run = digit_run(f, start);
    if start + run < f.len() {
        proof {
            if all_digits(season_digits(f@)) {
                assert(season_digits(f@)[run as int] == f@[start + run]);
            }
        }
        return None;
    }
    proof {
        lemma_digit_run_bounds(f@, start as int);
        assert(all_digits(f@.subrange(start as int, f@.len() as int)));
    }
    match parse_digits(f, start, f.len()) {
        Some(n) => {
            if n <= i32::MAX as u32 {
                Some(n as i32)
            } else {
                Some(1)
            }
        },
        None => Some(1),
    }
}

/// Recognize a specials folder.
pub(crate) fn check_specials_folder(f: &Vec<char>) -> (r: bool)
    ensures
        r == specials_folder(f@),
{
    let lower = to_lower_vec(f);
    let a = chars_of("special");
    let b = chars_of("specials");
    chars_eq(&lower, &a) || chars_eq(&lower, &b)
}

// ---------- extras ----------

/// The extra-folder names, deepest-priority order as the classifier tries
/// them, paired below with the singular extra type each one stands for.
pub open spec fn extra_folder_name(k: int) -> Seq<char> {
    if k == 0 {
        "behind the scenes"@
    } else if k == 1 {
        "deleted scenes"@
    } else if k == 2 {
        "interviews"@
    } else if k == 3 {
        "scenes"@
    } else if k == 4 {
        "samples"@
    } else if k == 5 {
        "shorts"@
    } else if k == 6 {
        "featurettes"@
    } else if k == 7 {
        "clips"@
    } else if k == 8 {
        "others"@
    } else if k == 9 {
        "extras"@
    } else {
        "trailers"@
    }
}

pub open spec fn extra_folder_type(k: int) -> Seq<char> {
    if k == 0 {
        "behindthescenes"@
    } else if k == 1 {
        "deleted"@
    } else if k == 2 {
        "interview"@
    } else if k == 3 {
        "scene"@
    } else if k == 4 {
        "sample"@
    } else if k == 5 {
        "short"@
    } else if k == 6 {
        "featurette"@
    } else if k == 7 {
        "clip"@
    } else if k == 8 {
        "other"@
    } else if k == 9 {
        "extra"@
    } else {
        "trailer"@
    }
}

/// The filename-stem suffixes that mark an extra, with their types.
pub open spec fn extra_suffix(k: int) -> Seq<char> {
    if k == 0 {
        "-behindthescenes"@
    } else if k == 1 {
        "-deleted"@
    } else if k == 2 {
        "-featurette"@
    } else if k == 3 {
        "-interview"@
    } else if k == 4 {
        "-scene"@
    } else if k == 5 {
        "-short"@
    } else if k == 6 {
        "-trailer"@
    } else {
        "-other"@
    }
}

pub open spec fn extra_suffix_type(k: int) -> Seq<char> {
    if k == 0 {
        "behindthescenes"@
    } else if k == 1 {
        "deleted"@
    } else if k == 2 {
        "featurette"@
    } else if k == 3 {
        "interview"@
    } else if k == 4 {
        "scene"@
    } else if k == 5 {
        "short"@
    } else if k == 6 {
        "trailer"@
    } else {
        "other"@
    }
}

/// First extra-folder table entry (in table order) whose name equals the
/// lowercased folder name, or 11.
pub open spec fn folder_extra_from(f: Seq<char>, k: int) -> int
    decreases 11 - k,
{
    if k < 0 || k >= 11 {
        11
    } else if lower_seq(f) == extra_folder_name(k) {
        k
    } else {
        folder_extra_from(f, k + 1)
    }
}

/// First folder (in path order, shallowest first) naming an extra kind, or
/// the number of folders.
pub open spec fn first_extra_folder(folders: Seq<Seq<char>>, i: int) -> int
    decreases folders.len() - i,
{
    if i < 0 || i >= folders.len() {
        folders.len() as int
    } else if folder_extra_from(folders[i], 0) < 11 {
        i
    } else {
        first_extra_folder(folders, i + 1)
    }
}

/// First suffix table entry contained in the lowercased stem, or 8.
pub open spec fn suffix_extra_from(stem_lower: Seq<char>, k: int) -> int
    decreases 8 - k,
{
    if k < 0 || k >= 8 {
        8
    } else if contains_seq(stem_lower, extra_suffix(k)) {
        k
    } else {
        suffix_extra_from(stem_lower, k + 1)
    }
}

/// The extra type of a path, if any: an extra folder anywhere above the
/// file wins, else a marker suffix in the stem.
pub open spec fn extra_type_of(folders: Seq<Seq<char>>, stem: Seq<char>) -> Option<Seq<char>> {
    let fi = first_extra_folder(folders, 0);
    if fi < folders.len() {
        Some(extra_folder_type(folder_extra_from(folders[fi], 0)))
    } else {
        let k = suffix_extra_from(lower_seq(stem), 0);
        if k < 8 {
            Some(extra_suffix_type(k))
        } else {
            None
        }
    }
}

/// The path recorded on an extra: slash, the folders joined, slash, the
/// filename.
pub open spec fn extra_path_of(folders: Seq<Seq<char>>, filename: Seq<char>) -> Seq<char> {
    seq!['/'] + join_slash(folders) + seq!['/'] + filename
}

fn extra_folder_pair(k: usize) -> (r: (Vec<char>, Vec<char>))
    requires
        k < 11,
    ensures
        r.0@ == extra_folder_name(k as int),
        r.1@ == extra_folder_type(k as int),
{
    if k == 0 {
        (chars_of("behind the scenes"), chars_of("behindthescenes"))
    } else if k == 1 {
        (chars_of("deleted scenes"), chars_of("deleted"))
    } else if k == 2 {
        (chars_of("interviews"), chars_of("interview"))
    } else if k == 3 {
        (chars_of("scenes"), chars_of("scene"))
    } else if k == 4 {
        (chars_of("samples"), chars_of("sample"))
    } else if k == 5 {
        (chars_of("shorts"), chars_of("short"))
    } else if k == 6 {
        (chars_of("featurettes"), chars_of("featurette"))
    } else if k == 7 {
        (chars_of("clips"), chars_of("clip"))
    } else if k == 8 {
        (chars_of("others"), chars_of("other"))
    } else if k == 9 {
        (chars_of("extras"), chars_of("extra"))
    } else {
        (chars_of("trailers"), chars_of("trailer"))
    }
}

fn extra_suffix_pair(k: usize) -> (r: (Vec<char>, Vec<char>))
    requires
        k < 8,
    ensures
        r.0@ == extra_suffix(k as int),
        r.1@ == extra_suffix_type(k as int),
{
    if k == 0 {
        (chars_of("-behindthescenes"), chars_of("behindthescenes"))
    } else if k == 1 {
        (chars_of("-deleted"), chars_of("deleted"))
    } else if k == 2 {
        (chars_of("-featurette"), chars_of("featurette"))
    } else if k == 3 {
        (chars_of("-interview"), chars_of("interview"))
    } else if k == 4 {
        (chars_of("-scene"), chars_of("scene"))
    } else if k == 5 {
        (chars_of("-short"), chars_of("short"))
    } else if k == 6 {
        (chars_of("-trailer"), chars_of("trailer"))
    } else {
        (chars_of("-other"), chars_of("other"))
    }
}

fn folder_extra_check(f: &Vec<char>) -> (r: Option<(usize, Vec<char>)>)
    ensures
        match r {
            Some((k, t)) => folder_extra_from(f@, 0) == k as int && t@ == extra_folder_type(
                k as int,
            ) && k < 11,
            None => folder_extra_from(f@, 0) == 11,
        },
{
    let lower = to_lower_vec(f);
    let mut k: usize = 0;
    while k < 11
        invariant
            k <= 11,
            lower@ == lower_seq(f@),
            folder_extra_from(f@, 0) == folder_extra_from(f@, k as int),
        decreases 11 - k,
    {
        let (name, ty) = extra_folder_pair(k);
        if chars_eq(&lower, &name) {
            return Some((k, ty));
        }
        k = k + 1;
    }
    None
}

/// Detect an extra and name its type: by folder first, then by stem suffix.
#[verifier::loop_isolation(false)]
pub(crate) fn detect_extra(parts: &PathParts) -> (r: Option<(Vec<char>, Vec<char>)>)
    ensures
        match r {
            Some((path, ty)) => {
                &&& extra_type_of(seq_views(parts.folders@), parts.stem@) == Some(ty@)
                &&& path@ == extra_path_of(seq_views(parts.folders@), parts.filename@)
            },
            None => extra_type_of(seq_views(parts.folders@), parts.stem@) is None,
        },
{
    let ghost fv = seq_views(parts.folders@);
    let mut found: Option<Vec<char>> = None;
    let mut i: usize = 0;
    while i < parts.folders.len() && found.is_none()
        invariant
            i <= parts.folders@.len(),
            found is Some ==> {
                &&& first_extra_folder(fv, 0) == i as int
                &&& i < fv.len()
                &&& found->Some_0@ == extra_folder_type(folder_extra_from(fv[i as int], 0))
            },
            found is None ==> first_extra_folder(fv, 0) == first_extra_folder(fv, i as int),
        decreases fv.len() - i, (if found is None { 1int } else { 0int }),
    {
        match folder_extra_check(&parts.folders[i]) {
            Some((_k, ty)) => {
                proof {
                    assert(fv[i as int] == parts.folders@[i as int]@);
                    assert(first_extra_folder(fv, i as int) == i as int);
                }
                found = Some(ty);
            },
            None => {
                proof {
                    assert(fv[i as int] == parts.folders@[i as int]@);
                    assert(first_extra_folder(fv, i as int) == first_extra_folder(
                        fv,
                        i as int + 1,
                    ));
                }
                i = i + 1;
            },
        }
    }
    match found {
        Some(ty) => {
            let joined = join_slash_exec(&parts.folders, parts.folders.len());
            let mut path: Vec<char> = Vec::new();
            path.push('/');
            let mut j: usize = 0;
            while j < joined.len()
                invariant
                    j <= joined@.len(),
                    path@ == seq!['/'] + joined@.subrange(0, j as int),
                decreases joined@.len() - j,
            {
                path.push(joined[j]);
                j = j + 1;
                proof {
                    assert(path@ =~= seq!['/'] + joined@.subrange(0, j as int));
                }
            }
            path.push('/');
            let mut j2: usize = 0;
            let ghost mid = path@;
            while j2 < parts.filename.len()
                invariant
                    j2 <= parts.filename@.len(),
                    path@ == mid + parts.filename@.subrange(0, j2 as int),
                decreases parts.filename@.len() - j2,
            {
                path.push(parts.filename[j2]);
                j2 = j2 + 1;
                proof {
                    assert(path@ =~= mid + parts.filename@.subrange(0, j2 as int));
                }
            }
            proof {
                assert(joined@.subrange(0, joined@.len() as int) =~= joined@);
                assert(fv.take(fv.len() as int) =~= fv);
                assert(parts.filename@.subrange(0, parts.filename@.len() as int)
                    =~= parts.filename@);
                assert(path@ =~= extra_path_of(fv, parts.filename@));
            }
            Some((path, ty))
        },
        None => {
            proof {
                assert(first_extra_folder(fv, 0) == fv.len());
            }
            let stem_lower = to_lower_vec(&parts.stem);
            let mut k: usize = 0;
            while k < 8
                invariant
                    k <= 8,
                    stem_lower@ == lower_seq(parts.stem@),
                    suffix_extra_from(lower_seq(parts.stem@), 0) == suffix_extra_from(
                        lower_seq(parts.stem@),
                        k as int,
                    ),
                decreases 8 - k,
            {
                let (suf, ty) = extra_suffix_pair(k);
                if contains_vec(&stem_lower, &suf) {
                    let joined = join_slash_exec(&parts.folders, parts.folders.len());
                    let mut path: Vec<char> = Vec::new();
                    path.push('/');
                    let mut j: usize = 0;
                    while j < joined.len()
                        invariant
                            j <= joined@.len(),
                            path@ == seq!['/'] + joined@.subrange(0, j as int),
                        decreases joined@.len() - j,
                    {
                        path.push(joined[j]);
                        j = j + 1;
                        proof {
                            assert(path@ =~= seq!['/'] + joined@.subrange(0, j as int));
                        }
                    }
                    path.push('/');
                    let mut j2: usize = 0;
                    let ghost mid = path@;
                    while j2 < parts.filename.len()
                        invariant
                            j2 <= parts.filename@.len(),
                            path@ == mid + parts.filename@.subrange(0, j2 as int),
                        decreases parts.filename@.len() - j2,
                    {
                        path.push(parts.filename[j2]);
                        j2 = j2 + 1;
                        proof {
                            assert(path@ =~= mid + parts.filename@.subrange(0, j2 as int));
                        }
                    }
                    proof {
                        assert(joined@.subrange(0, joined@.len() as int) =~= joined@);
                        assert(fv.take(fv.len() as int) =~= fv);
                        assert(parts.filename@.subrange(0, parts.filename@.len() as int)
                            =~= parts.filename@);
                        assert(path@ =~= extra_path_of(fv, parts.filename@));
                    }
                    return Some((path, ty));
                }
                k = k + 1;
            }
            None
        },
    }
}

// ---------- source path and show name ----------

/// A path is absolute when it begins with a slash; the property is kept on
/// the derived source path.
pub open spec fn is_absolute(path: Seq<char>) -> bool {
    path.len() > 0 && path[0] == '/'
}

/// The folder that stands for the whole show or movie: the folders joined,
/// leaving out a final season or specials folder when an outer folder
/// remains, with a leading slash when the input had one.
pub open spec fn source_path_from(folders: Seq<Seq<char>>, abs: bool) -> Seq<char> {
    let joined = if folders.len() > 1 && (season_folder(folders.last()) || specials_folder(
        folders.last(),
    )) {
        join_slash(folders.drop_last())
    } else {
        join_slash(folders)
    };
    if abs {
        seq!['/'] + joined
    } else {
        joined
    }
}

/// The source path of a whole path string.
pub open spec fn source_path_of(path: Seq<char>) -> Seq<char> {
    source_path_from(spec_folders(path), is_absolute(path))
}

#[verifier::loop_isolation(false)]
pub(crate) fn compute_source_path(parts: &PathParts, absolute: bool) -> (r: Vec<char>)
    ensures
        r@ == source_path_from(seq_views(parts.folders@), absolute),
{
    let ghost fv = seq_views(parts.folders@);
    let n = parts.folders.len();
    let cut: usize = if n > 1 {
        let last = &parts.folders[n - 1];
        let season = check_season_folder(last);
        let specials = check_specials_folder(last);
        if season.is_some() || specials {
            n - 1
        } else {
            n
        }
    } else {
        n
    };
    proof {
        if n > 0 {
            assert(fv.last() == parts.folders@[n as int - 1]@) by {
                assert(fv[n as int - 1] == parts.folders@[n as int - 1]@);
            }
        }
        if cut == n - 1 && n > 1 {
            assert(fv.drop_last() =~= fv.take(n as int - 1));
        } else {
            assert(fv.take(n as int) =~= fv);
        }
    }
    let joined = join_slash_exec(&parts.folders, cut);
    if absolute {
        let mut r: Vec<char> = Vec::new();
        r.push('/');
        let mut j: usize = 0;
        while j < joined.len()
            invariant
                j <= joined@.len(),
                r@ == seq!['/'] + joined@.subrange(0, j as int),
            decreases joined@.len() - j,
        {
            r.push(joined[j]);
            j = j + 1;
            proof {
                assert(r@ =~= seq!['/'] + joined@.subrange(0, j as int));
            }
        }
        proof {
            assert(joined@.subrange(0, joined@.len() as int) =~= joined@);
        }
        r
    } else {
        joined
    }
}

/// Index of the deepest folder that is neither a season nor a specials
/// folder, or `-1`.
pub open spec fn show_folder_idx(folders: Seq<Seq<char>>) -> int
    decreases folders.len(),
{
    if folders.len() == 0 {
        -1
    } else if !season_folder(folders.last()) && !specials_folder(folders.last()) {
        folders.len() - 1
    } else {
        show_folder_idx(folders.drop_last())
    }
}

/// The stem with every episode token removed, scanning left to right and
/// preferring `SxxEyy` over `E##` over `Ep##` at each position.
pub open spec fn strip_tokens(s: Seq<char>, i: int) -> Seq<char>
    decreases s.len() - i,
{
    if i < 0 || i >= s.len() {
        Seq::empty()
    } else if sxe_at(s, i) && i < sxe_end(s, i) <= s.len() {
        strip_tokens(s, sxe_end(s, i))
    } else if ey_at(s, i, false) && i < ey_end(s, i, false) <= s.len() {
        strip_tokens(s, ey_end(s, i, false))
    } else if ey_at(s, i, true) && i < ey_end(s, i, true) <= s.len() {
        strip_tokens(s, ey_end(s, i, true))
    } else {
        seq![s[i]] + strip_tokens(s, i + 1)
    }
}

/// The show name: the deepest folder that is not a season or specials
/// folder; failing that, the stem with episode tokens stripped and trimmed.
pub open spec fn show_name_from(folders: Seq<Seq<char>>, stem: Seq<char>) -> Seq<char> {
    if show_folder_idx(folders) >= 0 {
        folders[show_folder_idx(folders)]
    } else {
        trim_seq(strip_tokens(stem, 0))
    }
}

#[verifier::loop_isolation(false)]
fn strip_tokens_exec(v: &Vec<char>) -> (r: Vec<char>)
    ensures
        r@ == strip_tokens(v@, 0),
{
    let mut acc: Vec<char> = Vec::new();
    let mut i: usize = 0;
    while i < v.len()
        invariant
            i <= v@.len(),
            strip_tokens(v@, 0) == acc@ + strip_tokens(v@, i as int),
        decreases v@.len() - i,
    {
        match sxe_check(v, i) {
            Some(f) => {
                proof {
                    lemma_sxe_end_bounds(v@, i as int);
                }
                i = f.end;
            },
            None => {
                match ey_check(v, i, false) {
                    Some(f) => {
                        proof {
                            lemma_ey_end_bounds(v@, i as int, false);
                        }
                        i = f.end;
                    },
                    None => {
                        match ey_check(v, i, true) {
                            Some(f) => {
                                proof {
                                    lemma_ey_end_bounds(v@, i as int, true);
                                }
                                i = f.end;
                            },
                            None => {
                                let ghost pre = acc@;
                                acc.push(v[i]);
                                i = i + 1;
                                proof {
                                    assert(pre + strip_tokens(v@, i - 1) =~= acc@ + strip_tokens(
                                        v@,
                                        i as int,
                                    ));
                                }
                            },
                        }
                    },
                }
            },
        }
    }
    proof {
        assert(acc@ + strip_tokens(v@, i as int) =~= acc@);
    }
    acc
}

#[verifier::loop_isolation(false)]
pub(crate) fn compute_show_name(parts: &PathParts) -> (r: Vec<char>)
    ensures
        r@ == show_name_from(seq_views(parts.folders@), parts.stem@),
{
    let ghost fv = seq_views(parts.folders@);
    let n = parts.folders.len();
    proof {
        assert(fv.take(n as int) =~= fv);
    }
    let mut k: usize = n;
    while k > 0
        invariant
            k <= n,
            n == fv.len(),
            show_folder_idx(fv) == show_folder_idx(fv.take(k as int)),
        decreases k,
    {
        let f = &parts.folders[k - 1];
        proof {
            assert(fv.take(k as int).last() == fv[k as int - 1]);
            assert(fv[k as int - 1] == parts.folders@[k as int - 1]@);
        }
        let season = check_season_folder(f);
        let specials = check_specials_folder(f);
        if season.is_none() && !specials {
            proof {
                assert(show_folder_idx(fv.take(k as int)) == k as int - 1);
            }
            return slice_range(f, 0, f.len());
        }
        proof {
            assert(fv.take(k as int).drop_last() =~= fv.take(k as int - 1));
        }
        k = k - 1;
    }
    proof {
        assert(fv.take(0) =~= Seq::<Seq<char>>::empty());
        assert(show_folder_idx(fv) == -1);
    }
    let stripped = strip_tokens_exec(&parts.stem);
    trim_vec(&stripped)
}

// ---------- suffix parsing: edition, title, part ----------

/// The opener of a braced edition label.
pub open spec fn edition_tag() -> Seq<char> {
    seq!['{', 'e', 'd', 'i', 't', 'i', 'o', 'n', '-']
}

fn edition_tag_vec() -> (r: Vec<char>)
    ensures
        r@ == edition_tag(),
{
    let mut r: Vec<char> = Vec::new();
    r.push('{');
    r.push('e');
    r.push('d');
    r.push('i');
    r.push('t');
    r.push('i');
    r.push('o');
    r.push('n');
    r.push('-');
    proof {
        assert(r@ =~= edition_tag());
    }
    r
}

/// A braced edition label `{edition-<label>}` stands at `i`: the opener,
/// then at least one character before the closing brace.
pub open spec fn brace_at(s: Seq<char>, i: int) -> bool {
    &&& matches_at(s, edition_tag(), i)
    &&& find_char(s.subrange(i + 9, s.len() as int), '}') >= 1
}

/// The label inside the braces at `i`.
pub open spec fn brace_val(s: Seq<char>, i: int) -> Seq<char> {
    s.subrange(i + 9, i + 9 + find_char(s.subrange(i + 9, s.len() as int), '}'))
}

pub open spec fn first_brace_from(s: Seq<char>, i: int) -> int
    decreases s.len() - i,
{
    if i < 0 || i >= s.len() {
        -1
    } else if brace_at(s, i) {
        i
    } else {
        first_brace_from(s, i + 1)
    }
}

pub open spec fn first_brace(s: Seq<char>) -> int {
    first_brace_from(s, 0)
}

/// The braced edition label of a suffix, if one occurs.
pub open spec fn brace_version_of(s: Seq<char>) -> Option<Seq<char>> {
    if first_brace(s) >= 0 {
        Some(brace_val(s, first_brace(s)))
    } else {
        None
    }
}

#[verifier::loop_isolation(false)]
fn brace_version_exec(v: &Vec<char>) -> (r: Option<Vec<char>>)
    ensures
        match r {
            Some(val) => first_brace(v@) >= 0 && val@ == brace_val(v@, first_brace(v@)),
            None => first_brace(v@) == -1,
        },
{
    let tag = edition_tag_vec();
    let mut i: usize = 0;
    while i < v.len()
        invariant
            i <= v@.len(),
            tag@ == edition_tag(),
            first_brace(v@) == first_brace_from(v@, i as int),
        decreases v@.len() - i,
    {
        if check_match_at(v, &tag, i) {
            let rest = slice_range(v, i + 9, v.len());
            proof {
                lemma_find_char(rest@, '}');
            }
            match find_char_exec(&rest, '}') {
                Some(rel) => {
                    if rel >= 1 {
                        proof {
                            assert(brace_at(v@, i as int));
                        }
                        return Some(slice_range(v, i + 9, i + 9 + rel));
                    }
                },
                None => {},
            }
        }
        proof {
            assert(!brace_at(v@, i as int));
        }
        i = i + 1;
    }
    None
}

/// `s` with every `{...}` group removed.
pub open spec fn remove_braces(s: Seq<char>) -> Seq<char>
    decreases s.len(),
{
    let i = find_char(s, '{');
    if 0 <= i < s.len() {
        let rel = find_char(s.subrange(i + 1, s.len() as int), '}');
        if 0 <= rel && i + 2 + rel <= s.len() {
            s.subrange(0, i) + remove_braces(s.subrange(i + 2 + rel, s.len() as int))
        } else {
            s
        }
    } else {
        s
    }
}

#[verifier::loop_isolation(false)]
fn remove_braces_exec(v: &Vec<char>) -> (r: Vec<char>)
    ensures
        r@ == remove_braces(v@),
    decreases v@.len(),
{
    proof {
        lemma_find_char(v@, '{');
    }
    match find_char_exec(v, '{') {
        Some(i) => {
            let n = v.len();
            let rest = slice_range(v, i + 1, n);
            proof {
                lemma_find_char(rest@, '}');
            }
            match find_char_exec(&rest, '}') {
                Some(rel) => {
                    let tail = slice_range(v, i + 2 + rel, n);
                    let cleaned = remove_braces_exec(&tail);
                    let mut r = slice_range(v, 0, i);
                    let ghost pre = r@;
                    let mut j: usize = 0;
                    while j < cleaned.len()
                        invariant
                            j <= cleaned@.len(),
                            r@ == pre + cleaned@.subrange(0, j as int),
                        decreases cleaned@.len() - j,
                    {
                        r.push(cleaned[j]);
                        j = j + 1;
                        proof {
                            assert(r@ =~= pre + cleaned@.subrange(0, j as int));
                        }
                    }
                    proof {
                        assert(cleaned@.subrange(0, cleaned@.len() as int) =~= cleaned@);
                    }
                    r
                },
                None => slice_range(v, 0, v.len()),
            }
        },
        None => slice_range(v, 0, v.len()),
    }
}

/// The dash-separated chunks of `s`, trimmed, empty ones dropped.
pub open spec fn trimmed_chunks(parts: Seq<Seq<char>>) -> Seq<Seq<char>>
    decreases parts.len(),
{
    if parts.len() == 0 {
        Seq::empty()
    } else {
        let t = trim_seq(parts[0]);
        let rest = trimmed_chunks(parts.drop_first());
        if t.len() > 0 {
            seq![t] + rest
        } else {
            rest
        }
    }
}

proof fn lemma_trimmed_snoc(parts: Seq<Seq<char>>, last: Seq<char>)
    ensures
        trimmed_chunks(parts.push(last)) == if trim_seq(last).len() > 0 {
            trimmed_chunks(parts).push(trim_seq(last))
        } else {
            trimmed_chunks(parts)
        },
    decreases parts.len(),
{
    let whole = parts.push(last);
    if parts.len() == 0 {
        assert(whole[0] == last);
        assert(whole.drop_first() =~= Seq::<Seq<char>>::empty());
        assert(trimmed_chunks(Seq::<Seq<char>>::empty()) =~= Seq::<Seq<char>>::empty());
        if trim_seq(last).len() > 0 {
            assert(trimmed_chunks(whole) =~= seq![trim_seq(last)]);
            assert(trimmed_chunks(parts).push(trim_seq(last)) =~= seq![trim_seq(last)]);
        } else {
            assert(trimmed_chunks(whole) =~= Seq::<Seq<char>>::empty());
        }
    } else {
        assert(whole[0] == parts[0]);
        assert(whole.drop_first() =~= parts.drop_first().push(last));
        lemma_trimmed_snoc(parts.drop_first(), last);
        let t0 = trim_seq(parts[0]);
        let rest = trimmed_chunks(parts.drop_first());
        if trim_seq(last).len() > 0 {
            if t0.len() > 0 {
                assert(seq![t0] + rest.push(trim_seq(last)) =~= (seq![t0] + rest).push(
                    trim_seq(last),
                ));
            }
        }
    }
}

/// Trim each part and keep the non-empty results.
#[verifier::loop_isolation(false)]
fn trimmed_chunks_exec(parts: &Vec<Vec<char>>) -> (r: Vec<Vec<char>>)
    ensures
        r@.len() == trimmed_chunks(seq_views(parts@)).len(),
        forall|i: int|
            0 <= i < r@.len() ==> r@[i]@ == trimmed_chunks(seq_views(parts@))[i],
{
    let ghost pv = seq_views(parts@);
    proof {
        assert(pv.take(0) =~= Seq::<Seq<char>>::empty());
    }
    let mut r: Vec<Vec<char>> = Vec::new();
    let mut k: usize = 0;
    while k < parts.len()
        invariant
            k <= parts@.len(),
            r@.len() == trimmed_chunks(pv.take(k as int)).len(),
            forall|i: int|
                0 <= i < r@.len() ==> r@[i]@ == trimmed_chunks(pv.take(k as int))[i],
        decreases parts@.len() - k,
    {
        let t = trim_vec(&parts[k]);
        proof {
            assert(pv[k as int] == parts@[k as int]@);
            lemma_trimmed_snoc(pv.take(k as int), pv[k as int]);
            assert(pv.take(k as int + 1) =~= pv.take(k as int).push(pv[k as int]));
        }
        if t.len() > 0 {
            r.push(t);
        }
        k = k + 1;
    }
    proof {
        assert(pv.take(pv.len() as int) =~= pv);
    }
    r
}

/// Split on dashes, trim, drop empties: the labels of a suffix.
pub open spec fn raw_labels(s: Seq<char>) -> Seq<Seq<char>> {
    trimmed_chunks(split_seq(s, '-'))
}

/// The labels left after `{...}` groups are removed.
pub open spec fn clean_labels(s: Seq<char>) -> Seq<Seq<char>> {
    trimmed_chunks(split_seq(remove_braces(s), '-'))
}

fn raw_labels_exec(v: &Vec<char>) -> (r: Vec<Vec<char>>)
    ensures
        r@.len() == raw_labels(v@).len(),
        forall|i: int| 0 <= i < r@.len() ==> r@[i]@ == raw_labels(v@)[i],
{
    let segs = split_path_segments(v, '-');
    proof {
        assert(seq_views(segs@) =~= split_seq(v@, '-'));
    }
    trimmed_chunks_exec(&segs)
}

fn clean_labels_exec(v: &Vec<char>) -> (r: Vec<Vec<char>>)
    ensures
        r@.len() == clean_labels(v@).len(),
        forall|i: int| 0 <= i < r@.len() ==> r@[i]@ == clean_labels(v@)[i],
{
    let cleaned = remove_braces_exec(v);
    let segs = split_path_segments(&cleaned, '-');
    proof {
        assert(seq_views(segs@) =~= split_seq(remove_braces(v@), '-'));
    }
    trimmed_chunks_exec(&segs)
}

/// The part-marker keywords, in the order they are tried.
pub open spec fn part_kw(k: int) -> Seq<char> {
    if k == 0 {
        seq!['c', 'd']
    } else if k == 1 {
        seq!['d', 'v', 'd']
    } else if k == 2 {
        seq!['p', 'a', 'r', 't']
    } else if k == 3 {
        seq!['p', 't']
    } else if k == 4 {
        seq!['d', 'i', 's', 'c']
    } else {
        seq!['d', 'i', 's', 'k']
    }
}

fn part_kw_vec(k: usize) -> (r: Vec<char>)
    requires
        k < 6,
    ensures
        r@ == part_kw(k as int),
{
    let mut r: Vec<char> = Vec::new();
    if k == 0 {
        r.push('c');
        r.push('d');
    } else if k == 1 {
        r.push('d');
        r.push('v');
        r.push('d');
    } else if k == 2 {
        r.push('p');
        r.push('a');
        r.push('r');
        r.push('t');
    } else if k == 3 {
        r.push('p');
        r.push('t');
    } else if k == 4 {
        r.push('d');
        r.push('i');
        r.push('s');
        r.push('c');
    } else {
        r.push('d');
        r.push('i');
        r.push('s');
        r.push('k');
    }
    proof {
        assert(r@ =~= part_kw(k as int));
    }
    r
}

/// Where a part label's keyword starts: after one opening brace, if any.
pub open spec fn part_label_base(l: Seq<char>) -> int {
    if l.len() > 0 && l[0] == '{' {
        1
    } else {
        0
    }
}

/// The label is `{`?`<kw><digits>...` for keyword `k`, case-insensitively.
pub open spec fn part_label_kw(l: Seq<char>, k: int) -> bool {
    &&& matches_at(lower_seq(l), part_kw(k), part_label_base(l))
    &&& digit_run_len(l, part_label_base(l) + part_kw(k).len()) >= 1
}

/// The first keyword the label carries, or 6.
pub open spec fn part_kw_idx_from(l: Seq<char>, k: int) -> int
    decreases 6 - k,
{
    if k < 0 || k >= 6 {
        6
    } else if part_label_kw(l, k) {
        k
    } else {
        part_kw_idx_from(l, k + 1)
    }
}

/// A part label names a disc keyword followed by digits.
pub open spec fn label_is_part(l: Seq<char>) -> bool {
    part_kw_idx_from(l, 0) < 6
}

/// The digits of a part label.
pub open spec fn part_digits_of(l: Seq<char>) -> Seq<char> {
    let b = part_label_base(l) + part_kw(part_kw_idx_from(l, 0)).len();
    l.subrange(b, b + digit_run_len(l, b))
}

#[verifier::loop_isolation(false)]
fn label_part_check(l: &Vec<char>) -> (r: Option<u32>)
    ensures
        match r {
            Some(n) => {
                &&& label_is_part(l@)
                &&& (if digits_val(part_digits_of(l@)) <= u32::MAX {
                    n == digits_val(part_digits_of(l@))
                } else {
                    n == u32::MAX
                })
            },
            None => !label_is_part(l@),
        },
{
    let lower = to_lower_vec(l);
    let b: usize = if l.len() > 0 && l[0] == '{' {
        1
    } else {
        0
    };
    let mut k: usize = 0;
    while k < 6
        invariant
            k <= 6,
            part_kw_idx_from(l@, 0) == part_kw_idx_from(l@, k as int),
        decreases 6 - k,
    {
        let kw = part_kw_vec(k);
        if check_match_at(&lower, &kw, b) {
            let start = b + kw.len();
            if start <= l.len() {
                proof {
                    lemma_digit_run_bounds(l@, start as int);
                }
                let run = digit_run(l, start);
                if run >= 1 {
                    proof {
                        assert(part_label_kw(l@, k as int));
                        assert(part_kw_idx_from(l@, k as int) == k as int);
                        lemma_digit_run_bounds(l@, start as int);
                        assert(all_digits(l@.subrange(start as int, start + run as int)));
                    }
                    let val = match parse_digits(l, start, start + run) {
                        Some(n) => n,
                        None => u32::MAX,
                    };
                    return Some(val);
                }
            }
            proof {
                if part_label_kw(l@, k as int) {
                    lemma_digit_run_bounds(l@, part_label_base(l@) + part_kw(k as int).len());
                }
            }
        }
        k = k + 1;
    }
    None
}

/// The first index of a part-shaped label, or the number of labels.
pub open spec fn first_part_label(ls: Seq<Seq<char>>, i: int) -> int
    decreases ls.len() - i,
{
    if i < 0 || i >= ls.len() {
        ls.len() as int
    } else if label_is_part(ls[i]) {
        i
    } else {
        first_part_label(ls, i + 1)
    }
}

/// The part number of a suffix: the digits of the first part-shaped label,
/// `None` when there is none or the digits overflow an `i32`.
pub open spec fn part_value_of(s: Seq<char>) -> Option<int> {
    let ls = raw_labels(s);
    let i = first_part_label(ls, 0);
    if i < ls.len() {
        if digits_val(part_digits_of(ls[i])) <= i32::MAX {
            Some(digits_val(part_digits_of(ls[i])) as int)
        } else {
            None
        }
    } else {
        None
    }
}

#[verifier::loop_isolation(false)]
pub(crate) fn compute_part(v: &Vec<char>) -> (r: Option<i32>)
    ensures
        match r {
            Some(n) => part_value_of(v@) == Some(n as int),
            None => part_value_of(v@) is None,
        },
{
    let labels = raw_labels_exec(v);
    let ghost ls = raw_labels(v@);
    proof {
        assert(ls.len() == labels@.len());
    }
    let mut i: usize = 0;
    while i < labels.len()
        invariant
            i <= labels@.len(),
            first_part_label(ls, 0) == first_part_label(ls, i as int),
        decreases labels@.len() - i,
    {
        proof {
            assert(labels@[i as int]@ == ls[i as int]);
        }
        match label_part_check(&labels[i]) {
            Some(n) => {
                proof {
                    assert(first_part_label(ls, i as int) == i as int);
                }
                if n <= i32::MAX as u32 {
                    return Some(n as i32);
                } else {
                    return None;
                }
            },
            None => {},
        }
        i = i + 1;
    }
    None
}

/// A label enclosed in square brackets is read without them.
pub open spec fn unbracket(l: Seq<char>) -> Seq<char> {
    if l.len() >= 2 && l[0] == '[' && l.last() == ']' {
        l.subrange(1, l.len() - 1)
    } else {
        l
    }
}

fn unbracket_exec(l: &Vec<char>) -> (r: Vec<char>)
    ensures
        r@ == unbracket(l@),
{
    if l.len() >= 2 && l[0] == '[' && l[l.len() - 1] == ']' {
        slice_range(l, 1, l.len() - 1)
    } else {
        slice_range(l, 0, l.len())
    }
}

/// Labels that are not part markers, in order.
pub open spec fn non_part(ls: Seq<Seq<char>>) -> Seq<Seq<char>>
    decreases ls.len(),
{
    if ls.len() == 0 {
        Seq::empty()
    } else {
        let rest = non_part(ls.drop_first());
        if !label_is_part(ls[0]) {
            seq![ls[0]] + rest
        } else {
            rest
        }
    }
}

/// The candidate edition/title labels of a suffix.
pub open spec fn version_labels(s: Seq<char>) -> Seq<Seq<char>> {
    non_part(clean_labels(s))
}

proof fn lemma_non_part_snoc(ls: Seq<Seq<char>>, last: Seq<char>)
    ensures
        non_part(ls.push(last)) == if !label_is_part(last) {
            non_part(ls).push(last)
        } else {
            non_part(ls)
        },
    decreases ls.len(),
{
    let whole = ls.push(last);
    if ls.len() == 0 {
        assert(whole[0] == last);
        assert(whole.drop_first() =~= Seq::<Seq<char>>::empty());
        assert(non_part(Seq::<Seq<char>>::empty()) =~= Seq::<Seq<char>>::empty());
        if !label_is_part(last) {
            assert(non_part(whole) =~= non_part(ls).push(last));
        } else {
            assert(non_part(whole) =~= non_part(ls));
        }
    } else {
        assert(whole[0] == ls[0]);
        assert(whole.drop_first() =~= ls.drop_first().push(last));
        lemma_non_part_snoc(ls.drop_first(), last);
        let rest = non_part(ls.drop_first());
        if !label_is_part(last) {
            if !label_is_part(ls[0]) {
                assert(seq![ls[0]] + rest.push(last) =~= (seq![ls[0]] + rest).push(last));
            }
        }
    }
}

#[verifier::loop_isolation(false)]
fn version_labels_exec(v: &Vec<char>) -> (r: Vec<Vec<char>>)
    ensures
        r@.len() == version_labels(v@).len(),
        forall|i: int| 0 <= i < r@.len() ==> r@[i]@ == version_labels(v@)[i],
{
    let labels = clean_labels_exec(v);
    let ghost ls = clean_labels(v@);
    proof {
        assert(ls.take(0) =~= Seq::<Seq<char>>::empty());
    }
    let mut r: Vec<Vec<char>> = Vec::new();
    let mut k: usize = 0;
    while k < labels.len()
        invariant
            k <= labels@.len(),
            ls.len() == labels@.len(),
            forall|i: int| 0 <= i < ls.len() ==> labels@[i]@ == ls[i],
            r@.len() == non_part(ls.take(k as int)).len(),
            forall|i: int| 0 <= i < r@.len() ==> r@[i]@ == non_part(ls.take(k as int))[i],
        decreases labels@.len() - k,
    {
        proof {
            lemma_non_part_snoc(ls.take(k as int), ls[k as int]);
            assert(ls.take(k as int + 1) =~= ls.take(k as int).push(ls[k as int]));
        }
        match label_part_check(&labels[k]) {
            Some(_) => {},
            None => {
                let item = slice_range(&labels[k], 0, labels[k].len());
                proof {
                    assert(item@ =~= labels@[k as int]@);
                }
                r.push(item);
            },
        }
        k = k + 1;
    }
    proof {
        assert(ls.take(ls.len() as int) =~= ls);
    }
    r
}

/// The edition label of a TV episode's suffix: a braced label wins, else
/// with two plain labels the second, with one the only one.
pub open spec fn tv_version_of(s: Seq<char>) -> Option<Seq<char>> {
    match brace_version_of(s) {
        Some(b) => Some(b),
        None => {
            let ls = version_labels(s);
            if ls.len() >= 2 {
                Some(unbracket(ls[1]))
            } else if ls.len() == 1 {
                Some(unbracket(ls[0]))
            } else {
                None
            }
        },
    }
}

/// The episode title: the first plain label, where an edition label is
/// also present (braced, or a second plain label).
pub open spec fn tv_title_of(s: Seq<char>) -> Option<Seq<char>> {
    match brace_version_of(s) {
        Some(_) => {
            let ls = version_labels(s);
            if ls.len() >= 1 {
                Some(unbracket(ls[0]))
            } else {
                None
            }
        },
        None => {
            let ls = version_labels(s);
            if ls.len() >= 2 {
                Some(unbracket(ls[0]))
            } else {
                None
            }
        },
    }
}

/// The edition label of a movie's suffix: a braced label wins, else the
/// first plain label.
pub open spec fn movie_version_of(s: Seq<char>) -> Option<Seq<char>> {
    match brace_version_of(s) {
        Some(b) => Some(b),
        None => {
            let ls = version_labels(s);
            if ls.len() >= 1 {
                Some(unbracket(ls[0]))
            } else {
                None
            }
        },
    }
}

/// Parse version and title from a TV suffix.
pub(crate) fn compute_tv_version_title(v: &Vec<char>) -> (r: (Option<Vec<char>>, Option<
    Vec<char>,
>))
    ensures
        (match r.0 {
            Some(ver) => tv_version_of(v@) == Some(ver@),
            None => tv_version_of(v@) is None,
        }),
        (match r.1 {
            Some(t) => tv_title_of(v@) == Some(t@),
            None => tv_title_of(v@) is None,
        }),
{
    let brace = brace_version_exec(v);
    let labels = version_labels_exec(v);
    match brace {
        Some(b) => {
            if labels.len() >= 1 {
                let t = unbracket_exec(&labels[0]);
                (Some(b), Some(t))
            } else {
                (Some(b), None)
            }
        },
        None => {
            if labels.len() >= 2 {
                let t = unbracket_exec(&labels[0]);
                let ver = unbracket_exec(&labels[1]);
                (Some(ver), Some(t))
            } else if labels.len() == 1 {
                let ver = unbracket_exec(&labels[0]);
                (Some(ver), None)
            } else {
                (None, None)
            }
        },
    }
}

/// Parse the edition label from a movie suffix.
pub(crate) fn compute_movie_version(v: &Vec<char>) -> (r: Option<Vec<char>>)
    ensures
        match r {
            Some(ver) => movie_version_of(v@) == Some(ver@),
            None => movie_version_of(v@) is None,
        },
{
    match brace_version_exec(v) {
        Some(b) => Some(b),
        None => {
            let labels = version_labels_exec(v);
            if labels.len() >= 1 {
                Some(unbracket_exec(&labels[0]))
            } else {
                None
            }
        },
    }
}

// ---------- external id hints ----------

/// The recognized external id sources.
pub open spec fn ext_kw(k: int) -> Seq<char> {
    if k == 0 {
        seq!['i', 'm', 'd', 'b']
    } else if k == 1 {
        seq!['t', 'm', 'd', 'b']
    } else {
        seq!['t', 'v', 'd', 'b']
    }
}

fn ext_kw_vec(k: usize) -> (r: Vec<char>)
    requires
        k < 3,
    ensures
        r@ == ext_kw(k as int),
{
    let mut r: Vec<char> = Vec::new();
    if k == 0 {
        r.push('i');
        r.push('m');
        r.push('d');
        r.push('b');
    } else if k == 1 {
        r.push('t');
        r.push('m');
        r.push('d');
        r.push('b');
    } else {
        r.push('t');
        r.push('v');
        r.push('d');
        r.push('b');
    }
    proof {
        assert(r@ =~= ext_kw(k as int));
    }
    r
}

/// First id source whose name stands at `i + 1`, or 3.
pub open spec fn ext_kw_at(s: Seq<char>, i: int, k: int) -> int
    decreases 3 - k,
{
    if k < 0 || k >= 3 {
        3
    } else if matches_at(s, ext_kw(k), i + 1) {
        k
    } else {
        ext_kw_at(s, i, k + 1)
    }
}

pub open spec fn is_ext_sep(c: char) -> bool {
    c == ':' || c == '-' || c == ' '
}

pub open spec fn is_ext_close(c: char) -> bool {
    c == ']' || c == '}'
}

/// Length of the run of non-closing characters starting at `from`.
pub open spec fn value_run_len(s: Seq<char>, from: int) -> int
    decreases s.len() - from,
{
    if from < 0 || from >= s.len() || is_ext_close(s[from]) {
        0
    } else {
        1 + value_run_len(s, from + 1)
    }
}

pub proof fn lemma_value_run_bounds(s: Seq<char>, from: int)
    requires
        0 <= from <= s.len(),
    ensures
        0 <= value_run_len(s, from),
        from + value_run_len(s, from) <= s.len(),
        from + value_run_len(s, from) < s.len() ==> is_ext_close(
            s[from + value_run_len(s, from)],
        ),
    decreases s.len() - from,
{
    if from < s.len() && !is_ext_close(s[from]) {
        lemma_value_run_bounds(s, from + 1);
    }
}

fn value_run(v: &Vec<char>, from: usize) -> (r: usize)
    requires
        from <= v@.len(),
    ensures
        r == value_run_len(v@, from as int),
{
    proof {
        lemma_value_run_bounds(v@, from as int);
    }
    let mut i: usize = from;
    while i < v.len() && v[i] != ']' && v[i] != '}'
        invariant
            from <= i <= v@.len(),
            value_run_len(v@, i as int) == value_run_len(v@, from as int) - (i - from),
        decreases v@.len() - i,
    {
        proof {
            lemma_value_run_bounds(v@, i as int);
        }
        i = i + 1;
    }
    i - from
}

/// Where the separator of an id tag at `i` stands: after the source name
/// and after a following `id` word when the separator follows it.
pub open spec fn ext_sep_pos(s: Seq<char>, i: int) -> int {
    let a = i + 5;
    if matches_at(s, seq!['i', 'd'], a) && a + 2 < s.len() && is_ext_sep(s[a + 2]) {
        a + 2
    } else {
        a
    }
}

/// An external id tag stands at `i`: an opening bracket or brace, a source
/// name, optionally `id`, a separator, a non-empty value, and a closer.
pub open spec fn ext_at(s: Seq<char>, i: int) -> bool {
    &&& 0 <= i < s.len()
    &&& (s[i] == '[' || s[i] == '{')
    &&& ext_kw_at(s, i, 0) < 3
    &&& {
        let p = ext_sep_pos(s, i);
        &&& p < s.len()
        &&& is_ext_sep(s[p])
        &&& value_run_len(s, p + 1) >= 1
        &&& p + 1 + value_run_len(s, p + 1) < s.len()
    }
}

pub open spec fn ext_key(s: Seq<char>, i: int) -> Seq<char> {
    ext_kw(ext_kw_at(s, i, 0))
}

pub open spec fn ext_val(s: Seq<char>, i: int) -> Seq<char> {
    let p = ext_sep_pos(s, i);
    s.subrange(p + 1, p + 1 + value_run_len(s, p + 1))
}

/// One past the closer of the tag at `i`.
pub open spec fn ext_end(s: Seq<char>, i: int) -> int {
    let p = ext_sep_pos(s, i);
    p + 1 + value_run_len(s, p + 1) + 1
}

/// All id tags of `s` from `i` on, leftmost first, non-overlapping.
pub open spec fn ext_matches_from(s: Seq<char>, i: int) -> Seq<(Seq<char>, Seq<char>)>
    decreases s.len() - i,
{
    if i < 0 || i >= s.len() {
        Seq::empty()
    } else if ext_at(s, i) && i < ext_end(s, i) <= s.len() {
        seq![(ext_key(s, i), ext_val(s, i))] + ext_matches_from(s, ext_end(s, i))
    } else {
        ext_matches_from(s, i + 1)
    }
}

/// First index bound to `key` in the association list, or `-1`.
pub open spec fn assoc_idx(m: Seq<(Seq<char>, Seq<char>)>, key: Seq<char>) -> int
    decreases m.len(),
{
    if m.len() == 0 {
        -1
    } else if m[0].0 == key {
        0
    } else {
        let r = assoc_idx(m.drop_first(), key);
        if r < 0 {
            -1
        } else {
            r + 1
        }
    }
}

/// Bind `key` to `val`, replacing an earlier binding of the same key.
pub open spec fn assoc_put(
    m: Seq<(Seq<char>, Seq<char>)>,
    key: Seq<char>,
    val: Seq<char>,
) -> Seq<(Seq<char>, Seq<char>)> {
    let i = assoc_idx(m, key);
    if 0 <= i < m.len() {
        m.update(i, (key, val))
    } else {
        m.push((key, val))
    }
}

/// The id map of `s`: every tag applied in order, later bindings of a key
/// replacing earlier ones.
pub open spec fn ext_ids_of(s: Seq<char>) -> Seq<(Seq<char>, Seq<char>)> {
    ext_ids_fold_acc(Seq::empty(), ext_matches_from(s, 0))
}

proof fn lemma_ext_end_bounds(s: Seq<char>, i: int)
    requires
        ext_at(s, i),
    ensures
        i < ext_end(s, i) <= s.len(),
{
    let p = ext_sep_pos(s, i);
    lemma_value_run_bounds(s, p + 1);
}

fn ext_check(v: &Vec<char>, i: usize) -> (r: Option<(usize, Vec<char>, usize)>)
    requires
        i < v@.len(),
    ensures
        match r {
            Some((k, val, end)) => {
                &&& ext_at(v@, i as int)
                &&& k < 3
                &&& ext_kw_at(v@, i as int, 0) == k as int
                &&& val@ == ext_val(v@, i as int)
                &&& end as int == ext_end(v@, i as int)
                &&& i < end <= v@.len()
            },
            None => !ext_at(v@, i as int),
        },
{
    let n = v.len();
    if v[i] != '[' && v[i] != '{' {
        return None;
    }
    let kw0 = ext_kw_vec(0);
    let kw1 = ext_kw_vec(1);
    let kw2 = ext_kw_vec(2);
    let kw: usize = if check_match_at(v, &kw0, i + 1) {
        0
    } else if check_match_at(v, &kw1, i + 1) {
        1
    } else if check_match_at(v, &kw2, i + 1) {
        2
    } else {
        3
    };
    proof {
        let s = v@;
        let ii = i as int;
        assert(ext_kw_at(s, ii, 3) == 3);
        assert(ext_kw_at(s, ii, 2) == (if matches_at(s, ext_kw(2), ii + 1) {
            2int
        } else {
            3int
        }));
        assert(ext_kw_at(s, ii, 1) == (if matches_at(s, ext_kw(1), ii + 1) {
            1int
        } else {
            ext_kw_at(s, ii, 2)
        }));
        assert(ext_kw_at(s, ii, 0) == (if matches_at(s, ext_kw(0), ii + 1) {
            0int
        } else {
            ext_kw_at(s, ii, 1)
        }));
        assert(ext_kw_at(s, ii, 0) == kw as int);
    }
    if kw == 3 {
        return None;
    }
    proof {
        assert(ext_kw(kw as int).len() == 4);
        assert(i + 5 <= n);
    }
    let a = i + 5;
    let mut idtag: Vec<char> = Vec::new();
    idtag.push('i');
    idtag.push('d');
    proof {
        assert(idtag@ =~= seq!['i', 'd']);
    }
    let p: usize = if check_match_at(v, &idtag, a) && a + 2 < n && ext_sep_check(v[a + 2]) {
        a + 2
    } else {
        a
    };
    proof {
        assert(p as int == ext_sep_pos(v@, i as int));
    }
    if p >= n || !ext_sep_check(v[p]) {
        return None;
    }
    proof {
        lemma_value_run_bounds(v@, p as int + 1);
    }
    let run = value_run(v, p + 1);
    if run == 0 {
        return None;
    }
    if p + 1 + run >= n {
        return None;
    }
    let val = slice_range(v, p + 1, p + 1 + run);
    proof {
        assert(ext_at(v@, i as int));
        lemma_ext_end_bounds(v@, i as int);
    }
    Some((kw, val, p + 1 + run + 1))
}

fn ext_sep_check(c: char) -> (r: bool)
    ensures
        r == is_ext_sep(c),
{
    c == ':' || c == '-' || c == ' '
}

/// Collect the external id hints of a stem into an association list with
/// unique keys, later tags replacing earlier ones.
#[verifier::loop_isolation(false)]
pub(crate) fn parse_external_ids(v: &Vec<char>) -> (r: Vec<(String, String)>)
    ensures
        r@.len() == ext_ids_of(v@).len(),
        forall|j: int|
            0 <= j < r@.len() ==> (r@[j].0@, r@[j].1@) == ext_ids_of(v@)[j],
{
    let mut acc: Vec<(String, String)> = Vec::new();
    let mut i: usize = 0;
    proof {
        assert(acc_pairs(acc@) =~= Seq::<(Seq<char>, Seq<char>)>::empty());
    }
    while i < v.len()
        invariant
            i <= v@.len(),
            ext_ids_of(v@) == ext_ids_fold_acc(acc_pairs(acc@), ext_matches_from(v@, i as int)),
        decreases v@.len() - i,
    {
        match ext_check(v, i) {
            Some((k, val, end)) => {
                let key_vec = ext_kw_vec(k);
                let key = string_of(&key_vec);
                let value = string_of(&val);
                proof {
                    lemma_fold_acc_step(
                        acc_pairs(acc@),
                        (key@, value@),
                        ext_matches_from(v@, end as int),
                    );
                    assert(ext_matches_from(v@, i as int) =~= seq![
                        (ext_key(v@, i as int), ext_val(v@, i as int)),
                    ] + ext_matches_from(v@, end as int));
                }
                assoc_put_exec(&mut acc, key, value);
                i = end;
            },
            None => {
                i = i + 1;
            },
        }
    }
    proof {
        assert(ext_matches_from(v@, i as int) =~= Seq::<(Seq<char>, Seq<char>)>::empty());
        lemma_fold_acc_empty(acc_pairs(acc@));
    }
    acc
}

/// The ghost pairs of an id vector.
pub open spec fn acc_pairs(a: Seq<(String, String)>) -> Seq<(Seq<char>, Seq<char>)> {
    Seq::new(a.len(), |i: int| (a[i].0@, a[i].1@))
}

/// Folding the rest of the matches onto an accumulated map.
pub open spec fn ext_ids_fold_acc(
    acc: Seq<(Seq<char>, Seq<char>)>,
    ms: Seq<(Seq<char>, Seq<char>)>,
) -> Seq<(Seq<char>, Seq<char>)>
    decreases ms.len(),
{
    if ms.len() == 0 {
        acc
    } else {
        ext_ids_fold_acc(assoc_put(acc, ms[0].0, ms[0].1), ms.drop_first())
    }
}

proof fn lemma_fold_acc_empty(acc: Seq<(Seq<char>, Seq<char>)>)
    ensures
        ext_ids_fold_acc(acc, Seq::empty()) == acc,
{
}

proof fn lemma_fold_acc_step(
    acc: Seq<(Seq<char>, Seq<char>)>,
    m: (Seq<char>, Seq<char>),
    rest: Seq<(Seq<char>, Seq<char>)>,
)
    ensures
        ext_ids_fold_acc(acc, seq![m] + rest) == ext_ids_fold_acc(assoc_put(acc, m.0, m.1), rest),
{
    let whole = seq![m] + rest;
    assert(whole[0] == m);
    assert(whole.drop_first() =~= rest);
}

#[verifier::loop_isolation(false)]
fn assoc_put_exec(acc: &mut Vec<(String, String)>, key: String, val: String)
    ensures
        acc_pairs(final(acc)@) == assoc_put(acc_pairs(old(acc)@), key@, val@),
{
    let ghost m = acc_pairs(acc@);
    proof {
        lemma_assoc_idx_bounds(m, key@);
    }
    let mut j: usize = 0;
    while j < acc.len()
        invariant
            j <= acc@.len(),
            m == acc_pairs(acc@),
            m.len() == acc@.len(),
            forall|t: int| 0 <= t < j ==> m[t].0 != key@,
            assoc_idx(m, key@) >= 0 ==> assoc_idx(m, key@) >= j,
        decreases acc@.len() - j,
    {
        proof {
            assert(m[j as int] == (acc@[j as int].0@, acc@[j as int].1@));
        }
        if eq_str(&acc[j].0, &key) {
            proof {
                lemma_assoc_idx_first(m, key@, j as int);
            }
            acc.set(j, (key, val));
            proof {
                assert(acc_pairs(acc@) =~= assoc_put(m, key@, val@));
            }
            return ;
        }
        proof {
            lemma_assoc_idx_skip(m, key@, j as int + 1);
        }
        j = j + 1;
    }
    proof {
        if assoc_idx(m, key@) >= 0 {
            lemma_assoc_idx_bounds(m, key@);
            assert(m[assoc_idx(m, key@)].0 == key@);
        }
    }
    acc.push((key, val));
    proof {
        assert(acc_pairs(acc@) =~= assoc_put(m, key@, val@));
    }
}

/// String equality means equality of the character sequences.
fn eq_str(a: &String, b: &String) -> (r: bool)
    ensures
        r == (a@ == b@),
{
    a.eq(b)
}

proof fn lemma_assoc_idx_bounds(m: Seq<(Seq<char>, Seq<char>)>, key: Seq<char>)
    ensures
        -1 <= assoc_idx(m, key) < m.len(),
        assoc_idx(m, key) >= 0 ==> m[assoc_idx(m, key)].0 == key,
    decreases m.len(),
{
    if m.len() > 0 && m[0].0 != key {
        lemma_assoc_idx_bounds(m.drop_first(), key);
        let r = assoc_idx(m.drop_first(), key);
        if r >= 0 {
            assert(m[r + 1] == m.drop_first()[r]);
        }
    }
}

/// If the first `n` entries miss the key, the binding index is at least `n`.
proof fn lemma_assoc_idx_skip(m: Seq<(Seq<char>, Seq<char>)>, key: Seq<char>, n: int)
    requires
        0 <= n <= m.len(),
        forall|t: int| 0 <= t < n ==> m[t].0 != key,
    ensures
        assoc_idx(m, key) >= 0 ==> assoc_idx(m, key) >= n,
    decreases n,
{
    if n > 0 && m.len() > 0 {
        assert(m[0].0 != key);
        let rest = m.drop_first();
        assert forall|t: int| 0 <= t < n - 1 implies rest[t].0 != key by {
            assert(rest[t] == m[t + 1]);
        }
        lemma_assoc_idx_skip(rest, key, n - 1);
    }
}

/// A hit at `n` after `n` misses pins the binding index.
proof fn lemma_assoc_idx_first(m: Seq<(Seq<char>, Seq<char>)>, key: Seq<char>, n: int)
    requires
        0 <= n < m.len(),
        forall|t: int| 0 <= t < n ==> m[t].0 != key,
        m[n].0 == key,
    ensures
        assoc_idx(m, key) == n,
    decreases n,
{
    if n == 0 {
    } else {
        assert(m[0].0 != key);
        let rest = m.drop_first();
        assert forall|t: int| 0 <= t < n - 1 implies rest[t].0 != key by {
            assert(rest[t] == m[t + 1]);
        }
        assert(rest[n - 1] == m[n as int]);
        lemma_assoc_idx_first(rest, key, n - 1);
    }
}

// ---------- date tokens ----------

pub open spec fn is_date_sep(c: char) -> bool {
    c == '-' || c == '.'
}

fn date_sep_check(c: char) -> (r: bool)
    ensures
        r == is_date_sep(c),
{
    c == '-' || c == '.'
}

/// A `YYYY sep M(M) sep D(D)` date token stands at `i`.
pub open spec fn iso_at(s: Seq<char>, i: int) -> bool {
    &&& 0 <= i
    &&& i + 4 < s.len()
    &&& all_digits(s.subrange(i, i + 4))
    &&& is_digit(s[i]) && is_digit(s[i + 1]) && is_digit(s[i + 2]) && is_digit(s[i + 3])
    &&& !is_digit(s[i + 4])
    &&& is_date_sep(s[i + 4])
    &&& {
        let rm = digit_run_len(s, i + 5);
        &&& 1 <= rm <= 2
        &&& i + 5 + rm < s.len()
        &&& is_date_sep(s[i + 5 + rm])
        &&& digit_run_len(s, i + 6 + rm) >= 1
    }
}

pub open spec fn iso_year(s: Seq<char>, i: int) -> nat {
    digits_val(s.subrange(i, i + 4))
}

pub open spec fn iso_month(s: Seq<char>, i: int) -> nat {
    digits_val(s.subrange(i + 5, i + 5 + digit_run_len(s, i + 5)))
}

pub open spec fn iso_day_start(s: Seq<char>, i: int) -> int {
    i + 6 + digit_run_len(s, i + 5)
}

pub open spec fn iso_day(s: Seq<char>, i: int) -> nat {
    digits_val(
        s.subrange(
            iso_day_start(s, i),
            iso_day_start(s, i) + min_len(2, digit_run_len(s, iso_day_start(s, i))),
        ),
    )
}

pub open spec fn first_iso_from(s: Seq<char>, i: int) -> int
    decreases s.len() - i,
{
    if i < 0 || i >= s.len() {
        -1
    } else if iso_at(s, i) {
        i
    } else {
        first_iso_from(s, i + 1)
    }
}

pub open spec fn first_iso(s: Seq<char>) -> int {
    first_iso_from(s, 0)
}

/// A `D(D) sep M(M) sep YYYY` date token stands at `i`.
pub open spec fn dmy_at(s: Seq<char>, i: int) -> bool {
    let r1 = digit_run_len(s, i);
    &&& 0 <= i < s.len()
    &&& 1 <= r1 <= 2
    &&& i + r1 < s.len()
    &&& is_date_sep(s[i + r1])
    &&& {
        let r2 = digit_run_len(s, i + r1 + 1);
        &&& 1 <= r2 <= 2
        &&& i + r1 + 1 + r2 < s.len()
        &&& is_date_sep(s[i + r1 + 1 + r2])
        &&& digit_run_len(s, i + r1 + r2 + 2) >= 4
    }
}

pub open spec fn dmy_day(s: Seq<char>, i: int) -> nat {
    digits_val(s.subrange(i, i + digit_run_len(s, i)))
}

pub open spec fn dmy_month(s: Seq<char>, i: int) -> nat {
    let r1 = digit_run_len(s, i);
    digits_val(s.subrange(i + r1 + 1, i + r1 + 1 + digit_run_len(s, i + r1 + 1)))
}

pub open spec fn dmy_year_start(s: Seq<char>, i: int) -> int {
    i + digit_run_len(s, i) + digit_run_len(s, i + digit_run_len(s, i) + 1) + 2
}

pub open spec fn dmy_year(s: Seq<char>, i: int) -> nat {
    digits_val(s.subrange(dmy_year_start(s, i), dmy_year_start(s, i) + 4))
}

pub open spec fn first_dmy_from(s: Seq<char>, i: int) -> int
    decreases s.len() - i,
{
    if i < 0 || i >= s.len() {
        -1
    } else if dmy_at(s, i) {
        i
    } else {
        first_dmy_from(s, i + 1)
    }
}

pub open spec fn first_dmy(s: Seq<char>) -> int {
    first_dmy_from(s, 0)
}

/// The date a stem carries, year first: an ISO-ordered token wins, else a
/// day-first one.
pub open spec fn date_of_stem(s: Seq<char>) -> Option<(nat, nat, nat)> {
    if first_iso(s) >= 0 {
        let i = first_iso(s);
        Some((iso_year(s, i), iso_month(s, i), iso_day(s, i)))
    } else if first_dmy(s) >= 0 {
        let i = first_dmy(s);
        Some((dmy_year(s, i), dmy_month(s, i), dmy_day(s, i)))
    } else {
        None
    }
}

#[verifier::loop_isolation(false)]
fn iso_check(v: &Vec<char>, i: usize) -> (r: Option<(u32, u32, u32)>)
    requires
        i < v@.len(),
    ensures
        match r {
            Some((y, m, d)) => {
                &&& iso_at(v@, i as int)
                &&& y == iso_year(v@, i as int)
                &&& m == iso_month(v@, i as int)
                &&& d == iso_day(v@, i as int)
            },
            None => !iso_at(v@, i as int),
        },
{
    let n = v.len();
    if n - i < 5 {
        return None;
    }
    if !(digit_check(v[i]) && digit_check(v[i + 1]) && digit_check(v[i + 2]) && digit_check(
        v[i + 3],
    )) {
        return None;
    }
    if digit_check(v[i + 4]) || !date_sep_check(v[i + 4]) {
        return None;
    }
    proof {
        lemma_digit_run_bounds(v@, i as int + 5);
    }
    let rm = digit_run(v, i + 5);
    if rm < 1 || rm > 2 {
        return None;
    }
    if i + 5 + rm >= n || !date_sep_check(v[i + 5 + rm]) {
        return None;
    }
    proof {
        lemma_digit_run_bounds(v@, i as int + 6 + rm as int);
    }
    let rd = digit_run(v, i + 6 + rm);
    if rd < 1 {
        return None;
    }
    let dtake: usize = if rd > 2 {
        2
    } else {
        rd
    };
    proof {
        assert(all_digits(v@.subrange(i as int, i as int + 4))) by {
            assert forall|j: int| 0 <= j < 4 implies is_digit(
                #[trigger] v@.subrange(i as int, i as int + 4)[j],
            ) by {
                assert(v@.subrange(i as int, i as int + 4)[j] == v@[i + j]);
            }
        }
        lemma_digit_run_bounds(v@, i as int + 5);
        assert(all_digits(v@.subrange(i as int + 5, i + 5 + rm as int)));
        lemma_digit_run_bounds(v@, i as int + 6 + rm as int);
        assert(all_digits(v@.subrange(i + 6 + rm as int, i + 6 + rm as int + dtake as int)));
        assert(iso_at(v@, i as int));
    }
    let y = parse_short(v, i, i + 4);
    let m = parse_short(v, i + 5, i + 5 + rm);
    let d = parse_short(v, i + 6 + rm, i + 6 + rm + dtake);
    Some((y, m, d))
}

#[verifier::loop_isolation(false)]
fn dmy_check(v: &Vec<char>, i: usize) -> (r: Option<(u32, u32, u32)>)
    requires
        i < v@.len(),
    ensures
        match r {
            Some((y, m, d)) => {
                &&& dmy_at(v@, i as int)
                &&& y == dmy_year(v@, i as int)
                &&& m == dmy_month(v@, i as int)
                &&& d == dmy_day(v@, i as int)
            },
            None => !dmy_at(v@, i as int),
        },
{
    let n = v.len();
    proof {
        lemma_digit_run_bounds(v@, i as int);
    }
    let r1 = digit_run(v, i);
    if r1 < 1 || r1 > 2 {
        return None;
    }
    if i + r1 >= n || !date_sep_check(v[i + r1]) {
        return None;
    }
    proof {
        lemma_digit_run_bounds(v@, i as int + r1 as int + 1);
    }
    let r2 = digit_run(v, i + r1 + 1);
    if r2 < 1 || r2 > 2 {
        return None;
    }
    if i + r1 + 1 + r2 >= n || !date_sep_check(v[i + r1 + 1 + r2]) {
        return None;
    }
    proof {
        lemma_digit_run_bounds(v@, i as int + r1 as int + r2 as int + 2);
    }
    let ry = digit_run(v, i + r1 + r2 + 2);
    if ry < 4 {
        return None;
    }
    proof {
        lemma_digit_run_bounds(v@, i as int);
        assert(all_digits(v@.subrange(i as int, i + r1 as int)));
        lemma_digit_run_bounds(v@, i as int + r1 as int + 1);
        assert(all_digits(v@.subrange(i + r1 as int + 1, i + r1 as int + 1 + r2 as int)));
        lemma_digit_run_bounds(v@, i as int + r1 as int + r2 as int + 2);
        assert(all_digits(
            v@.subrange(i + r1 as int + r2 as int + 2, i + r1 as int + r2 as int + 6),
        ));
        assert(dmy_at(v@, i as int));
    }
    let d = parse_short(v, i, i + r1);
    let m = parse_short(v, i + r1 + 1, i + r1 + 1 + r2);
    let y = parse_short(v, i + r1 + r2 + 2, i + r1 + r2 + 6);
    Some((y, m, d))
}

/// Find the date in a stem, year first.
#[verifier::loop_isolation(false)]
pub(crate) fn find_date(v: &Vec<char>) -> (r: Option<(u32, u32, u32)>)
    ensures
        match r {
            Some((y, m, d)) => date_of_stem(v@) == Some((y as nat, m as nat, d as nat)),
            None => date_of_stem(v@) is None,
        },
{
    let mut i: usize = 0;
    while i < v.len()
        invariant
            i <= v@.len(),
            first_iso(v@) == first_iso_from(v@, i as int),
        decreases v@.len() - i,
    {
        match iso_check(v, i) {
            Some(t) => {
                return Some(t);
            },
            None => {},
        }
        i = i + 1;
    }
    let mut j: usize = 0;
    while j < v.len()
        invariant
            j <= v@.len(),
            first_iso(v@) == -1,
            first_dmy(v@) == first_dmy_from(v@, j as int),
        decreases v@.len() - j,
    {
        match dmy_check(v, j) {
            Some(t) => {
                return Some(t);
            },
            None => {},
        }
        j = j + 1;
    }
    None
}

/// The decimal digits of `n`, `k` wide, zero padded, most significant first.
pub open spec fn dec_seq(n: nat, k: nat) -> Seq<char>
    decreases k,
{
    if k == 0 {
        Seq::empty()
    } else {
        dec_seq(n / 10, (k - 1) as nat).push(dec_digit((n % 10) as int))
    }
}

pub open spec fn dec_digit(n: int) -> char {
    if n == 0 {
        '0'
    } else if n == 1 {
        '1'
    } else if n == 2 {
        '2'
    } else if n == 3 {
        '3'
    } else if n == 4 {
        '4'
    } else if n == 5 {
        '5'
    } else if n == 6 {
        '6'
    } else if n == 7 {
        '7'
    } else if n == 8 {
        '8'
    } else {
        '9'
    }
}

fn dec_digit_exec(n: u32) -> (r: char)
    requires
        n < 10,
    ensures
        r == dec_digit(n as int),
{
    if n == 0 {
        '0'
    } else if n == 1 {
        '1'
    } else if n == 2 {
        '2'
    } else if n == 3 {
        '3'
    } else if n == 4 {
        '4'
    } else if n == 5 {
        '5'
    } else if n == 6 {
        '6'
    } else if n == 7 {
        '7'
    } else if n == 8 {
        '8'
    } else {
        '9'
    }
}

fn dec_seq_exec(n: u32, k: u32) -> (r: Vec<char>)
    ensures
        r@ == dec_seq(n as nat, k as nat),
    decreases k,
{
    if k == 0 {
        Vec::new()
    } else {
        let mut r = dec_seq_exec(n / 10, k - 1);
        r.push(dec_digit_exec(n % 10));
        r
    }
}

/// The decimal digits of `n` without leading zeros.
pub open spec fn dec_digits_min(n: nat) -> Seq<char>
    decreases n,
{
    if n < 10 {
        seq![dec_digit(n as int)]
    } else {
        dec_digits_min(n / 10).push(dec_digit((n % 10) as int))
    }
}

/// The digits a year shows as: its decimal form, empty for a negative year.
pub open spec fn dec_year_digits(y: int) -> Seq<char> {
    if y >= 0 {
        dec_digits_min(y as nat)
    } else {
        Seq::empty()
    }
}

fn dec_digits_min_exec(n: u32) -> (r: Vec<char>)
    ensures
        r@ == dec_digits_min(n as nat),
    decreases n,
{
    if n < 10 {
        let mut r: Vec<char> = Vec::new();
        r.push(dec_digit_exec(n));
        proof {
            assert(r@ =~= dec_digits_min(n as nat));
        }
        r
    } else {
        let mut r = dec_digits_min_exec(n / 10);
        r.push(dec_digit_exec(n % 10));
        r
    }
}

/// The decimal digits of a year value.
pub fn year_digits_exec(y: i32) -> (r: Vec<char>)
    ensures
        r@ == dec_year_digits(y as int),
{
    if y >= 0 {
        dec_digits_min_exec(y as u32)
    } else {
        Vec::new()
    }
}

/// The air date string `YYYY-MM-DD` of a parsed date.
pub open spec fn air_date_seq(y: nat, m: nat, d: nat) -> Seq<char> {
    dec_seq(y, 4) + seq!['-'] + dec_seq(m, 2) + seq!['-'] + dec_seq(d, 2)
}

fn air_date_vec(y: u32, m: u32, d: u32) -> (r: Vec<char>)
    ensures
        r@ == air_date_seq(y as nat, m as nat, d as nat),
{
    let mut r = dec_seq_exec(y, 4);
    r.push('-');
    let mv = dec_seq_exec(m, 2);
    let mut j: usize = 0;
    let ghost p1 = r@;
    while j < mv.len()
        invariant
            j <= mv@.len(),
            r@ == p1 + mv@.subrange(0, j as int),
        decreases mv@.len() - j,
    {
        r.push(mv[j]);
        j = j + 1;
        proof {
            assert(r@ =~= p1 + mv@.subrange(0, j as int));
        }
    }
    r.push('-');
    let dv = dec_seq_exec(d, 2);
    let mut j2: usize = 0;
    let ghost p2 = r@;
    while j2 < dv.len()
        invariant
            j2 <= dv@.len(),
            r@ == p2 + dv@.subrange(0, j2 as int),
        decreases dv@.len() - j2,
    {
        r.push(dv[j2]);
        j2 = j2 + 1;
        proof {
            assert(r@ =~= p2 + dv@.subrange(0, j2 as int));
        }
    }
    proof {
        assert(mv@.subrange(0, mv@.len() as int) =~= mv@);
        assert(dv@.subrange(0, dv@.len() as int) =~= dv@);
        assert(r@ =~= air_date_seq(y as nat, m as nat, d as nat));
    }
    r
}

// ---------- movie tokens ----------

/// A movie year in parentheses follows position `j`: optional spaces, `(`,
/// exactly four digits, `)`.
pub open spec fn parens_at(s: Seq<char>, j: int) -> bool {
    let k = j + space_run_len(s, j);
    &&& 1 <= j <= s.len()
    &&& k < s.len()
    &&& s[k] == '('
    &&& digit_run_len(s, k + 1) >= 4
    &&& k + 5 < s.len()
    &&& s[k + 5] == ')'
}

pub open spec fn parens_year(s: Seq<char>, j: int) -> nat {
    let k = j + space_run_len(s, j);
    digits_val(s.subrange(k + 1, k + 5))
}

pub open spec fn parens_end(s: Seq<char>, j: int) -> int {
    j + space_run_len(s, j) + 6
}

pub open spec fn first_parens_from(s: Seq<char>, j: int) -> int
    decreases s.len() - j,
{
    if j < 1 || j > s.len() {
        -1
    } else if parens_at(s, j) {
        j
    } else if j == s.len() {
        -1
    } else {
        first_parens_from(s, j + 1)
    }
}

pub open spec fn first_parens(s: Seq<char>) -> int {
    first_parens_from(s, 1)
}

/// A movie year after a dot follows position `j`: `.`, then four digits.
pub open spec fn dots_at(s: Seq<char>, j: int) -> bool {
    &&& 1 <= j < s.len()
    &&& s[j] == '.'
    &&& digit_run_len(s, j + 1) >= 4
}

pub open spec fn dots_year(s: Seq<char>, j: int) -> nat {
    digits_val(s.subrange(j + 1, j + 5))
}

pub open spec fn dots_end(s: Seq<char>, j: int) -> int {
    j + 5
}

pub open spec fn first_dots_from(s: Seq<char>, j: int) -> int
    decreases s.len() - j,
{
    if j < 1 || j >= s.len() {
        -1
    } else if dots_at(s, j) {
        j
    } else {
        first_dots_from(s, j + 1)
    }
}

pub open spec fn first_dots(s: Seq<char>) -> int {
    first_dots_from(s, 1)
}

#[verifier::loop_isolation(false)]
fn parens_check(v: &Vec<char>, j: usize) -> (r: Option<u32>)
    requires
        1 <= j <= v@.len(),
    ensures
        match r {
            Some(y) => parens_at(v@, j as int) && y == parens_year(v@, j as int) && y <= 9999,
            None => !parens_at(v@, j as int),
        },
{
    let n = v.len();
    proof {
        lemma_space_run_bounds(v@, j as int);
    }
    let sp = space_run(v, j);
    let k = j + sp;
    if k >= n || v[k] != '(' {
        return None;
    }
    proof {
        lemma_digit_run_bounds(v@, k as int + 1);
    }
    let run = digit_run(v, k + 1);
    if run < 4 {
        return None;
    }
    if k + 5 >= n || v[k + 5] != ')' {
        return None;
    }
    proof {
        lemma_digit_run_bounds(v@, k as int + 1);
        assert(all_digits(v@.subrange(k as int + 1, k as int + 5)));
        assert(parens_at(v@, j as int));
    }
    let y = parse_short(v, k + 1, k + 5);
    Some(y)
}

#[verifier::loop_isolation(false)]
fn dots_check(v: &Vec<char>, j: usize) -> (r: Option<u32>)
    requires
        1 <= j < v@.len(),
    ensures
        match r {
            Some(y) => dots_at(v@, j as int) && y == dots_year(v@, j as int) && y <= 9999,
            None => !dots_at(v@, j as int),
        },
{
    let n = v.len();
    if v[j] != '.' {
        return None;
    }
    proof {
        lemma_digit_run_bounds(v@, j as int + 1);
    }
    let run = digit_run(v, j + 1);
    if run < 4 {
        return None;
    }
    proof {
        lemma_digit_run_bounds(v@, j as int + 1);
        assert(j + 5 <= n);
        assert(all_digits(v@.subrange(j as int + 1, j as int + 5)));
    }
    let y = parse_short(v, j + 1, j + 5);
    Some(y)
}

/// A movie match in a stem: the end of the shortest non-empty title prefix
/// followed by a year in parentheses, else by a dotted year.
pub open spec fn movie_match(s: Seq<char>) -> Option<(int, nat, int)> {
    if first_parens(s) >= 1 {
        Some((first_parens(s), parens_year(s, first_parens(s)), parens_end(s, first_parens(s))))
    } else if first_dots(s) >= 1 {
        Some((first_dots(s), dots_year(s, first_dots(s)), dots_end(s, first_dots(s))))
    } else {
        None
    }
}

/// Find the movie token: title end, year value and token end.
#[verifier::loop_isolation(false)]
pub(crate) fn find_movie(v: &Vec<char>) -> (r: Option<(usize, u32, usize)>)
    ensures
        match r {
            Some((j, y, end)) => {
                &&& movie_match(v@) == Some((j as int, y as nat, end as int))
                &&& 1 <= j <= v@.len()
                &&& j <= end <= v@.len()
                &&& y <= 9999
            },
            None => movie_match(v@) is None,
        },
{
    let n = v.len();
    if n == 0 {
        return None;
    }
    let mut j: usize = 1;
    while j < n
        invariant
            1 <= j <= n,
            n == v@.len(),
            n >= 1,
            first_parens(v@) == first_parens_from(v@, j as int),
        decreases n - j,
    {
        match parens_check(v, j) {
            Some(y) => {
                proof {
                    lemma_space_run_bounds(v@, j as int);
                    lemma_digit_run_bounds(v@, j + space_run_len(v@, j as int) + 1);
                }
                let sp = space_run(v, j);
                return Some((j, y, j + sp + 6));
            },
            None => {},
        }
        j = j + 1;
    }
    match parens_check(v, n) {
        Some(y) => {
            proof {
                lemma_space_run_bounds(v@, n as int);
                lemma_digit_run_bounds(v@, n + space_run_len(v@, n as int) + 1);
            }
            let sp = space_run(v, n);
            return Some((n, y, n + sp + 6));
        },
        None => {},
    }
    proof {
        assert(first_parens_from(v@, n as int) == -1);
        assert(first_parens(v@) == -1);
    }
    let mut j2: usize = 1;
    while j2 < n
        invariant
            1 <= j2 <= n,
            n == v@.len(),
            n >= 1,
            first_parens(v@) == -1,
            first_dots(v@) == first_dots_from(v@, j2 as int),
        decreases n - j2,
    {
        match dots_check(v, j2) {
            Some(y) => {
                proof {
                    lemma_digit_run_bounds(v@, j2 as int + 1);
                }
                return Some((j2, y, j2 + 5));
            },
            None => {},
        }
        j2 = j2 + 1;
    }
    None
}

// ---------- staged classification ----------

/// The tail of the stem after its first episode token, used for edition,
/// title and part parsing.
pub open spec fn episode_suffix(stem: Seq<char>) -> Option<Seq<char>> {
    if first_sxe(stem) >= 0 {
        Some(stem.subrange(sxe_end(stem, first_sxe(stem)), stem.len() as int))
    } else if first_ey(stem, false) >= 0 {
        Some(stem.subrange(ey_end(stem, first_ey(stem, false), false), stem.len() as int))
    } else if first_ey(stem, true) >= 0 {
        Some(stem.subrange(ey_end(stem, first_ey(stem, true), true), stem.len() as int))
    } else {
        None
    }
}

pub open spec fn tv_suffix_version(stem: Seq<char>) -> Option<Seq<char>> {
    match episode_suffix(stem) {
        Some(suf) => tv_version_of(suf),
        None => None,
    }
}

pub open spec fn tv_suffix_title(stem: Seq<char>) -> Option<Seq<char>> {
    match episode_suffix(stem) {
        Some(suf) => tv_title_of(suf),
        None => None,
    }
}

pub open spec fn tv_suffix_part(stem: Seq<char>) -> Option<int> {
    match episode_suffix(stem) {
        Some(suf) => part_value_of(suf),
        None => None,
    }
}

#[verifier::loop_isolation(false)]
fn episode_suffix_exec(stem: &Vec<char>) -> (r: Option<Vec<char>>)
    ensures
        match r {
            Some(suf) => episode_suffix(stem@) == Some(suf@),
            None => episode_suffix(stem@) is None,
        },
{
    match find_sxe(stem) {
        Some((at, f)) => {
            proof {
                lemma_sxe_end_bounds(stem@, at as int);
            }
            Some(slice_range(stem, f.end, stem.len()))
        },
        None => {
            match find_ey(stem, false) {
                Some((at, f)) => {
                    proof {
                        lemma_ey_end_bounds(stem@, at as int, false);
                    }
                    Some(slice_range(stem, f.end, stem.len()))
                },
                None => {
                    match find_ey(stem, true) {
                        Some((at, f)) => {
                            proof {
                                lemma_ey_end_bounds(stem@, at as int, true);
                            }
                            Some(slice_range(stem, f.end, stem.len()))
                        },
                        None => None,
                    }
                },
            }
        },
    }
}

/// An optional owned string carries exactly an optional character sequence.
pub open spec fn opt_string_is(a: Option<String>, b: Option<Seq<char>>) -> bool {
    match (a, b) {
        (Some(x), Some(y)) => x@ == y,
        (None, None) => true,
        _ => false,
    }
}

/// An optional `i32` carries exactly an optional integer.
pub open spec fn opt_i32_is(a: Option<i32>, b: Option<int>) -> bool {
    match (a, b) {
        (Some(x), Some(y)) => x as int == y,
        (None, None) => true,
        _ => false,
    }
}

/// An id vector carries exactly an id association list.
pub open spec fn ids_match(a: Seq<(String, String)>, b: Seq<(Seq<char>, Seq<char>)>) -> bool {
    &&& a.len() == b.len()
    &&& forall|i: int| 0 <= i < a.len() ==> (#[trigger] a[i].0@, a[i].1@) == b[i]
}

/// The fields every TV episode classification shares, whatever found the
/// episode numbers: names, source path, suffix-parsed fields and id hints.
pub open spec fn tv_common_fields(tv: TvEpisodeInfo, path: Seq<char>) -> bool {
    let stem = spec_stem(path);
    let folders = spec_folders(path);
    &&& tv.show_name@ == show_name_from(folders, stem)
    &&& tv.source_path@ == source_path_of(path)
    &&& opt_string_is(tv.title, tv_suffix_title(stem))
    &&& opt_string_is(tv.version, tv_suffix_version(stem))
    &&& opt_i32_is(tv.part, tv_suffix_part(stem))
    &&& ids_match(tv.external_ids@, ext_ids_of(stem))
}

#[verifier::loop_isolation(false)]
fn assemble_tv(
    parts: &PathParts,
    absolute: bool,
    season: i32,
    episode: i32,
    ep_end: Option<i32>,
    air_date: Option<Vec<char>>,
    year: Option<i32>,
    Ghost(path): Ghost<Seq<char>>,
) -> (tv: TvEpisodeInfo)
    requires
        parts.wf(path),
        absolute == is_absolute(path),
    ensures
        tv_common_fields(tv, path),
        tv.season == season,
        tv.episode == episode,
        tv.ep_end == ep_end,
        (match (tv.air_date, air_date) {
            (Some(a), Some(b)) => a@ == b@,
            (None, None) => true,
            _ => false,
        }),
        tv.year == year,
{
    proof {
        assert(seq_views(parts.folders@) =~= spec_folders(path));
    }
    let show_vec = compute_show_name(parts);
    let source_vec = compute_source_path(parts, absolute);
    let (version, title) = match episode_suffix_exec(&parts.stem) {
        Some(suf) => compute_tv_version_title(&suf),
        None => (None, None),
    };
    let part = match episode_suffix_exec(&parts.stem) {
        Some(suf) => compute_part(&suf),
        None => None,
    };
    let external_ids = parse_external_ids(&parts.stem);
    TvEpisodeInfo {
        show_name: string_of(&show_vec),
        source_path: string_of(&source_vec),
        season,
        episode,
        title: match title {
            Some(t) => Some(string_of(&t)),
            None => None,
        },
        ep_end,
        air_date: match air_date {
            Some(a) => Some(string_of(&a)),
            None => None,
        },
        year,
        part,
        version: match version {
            Some(x) => Some(string_of(&x)),
            None => None,
        },
        external_ids,
    }
}

/// Which numbered-TV rule fires: 1 `SxxEyy` in the stem; with a season
/// folder 2 `E##` or 3 `Ep##`; with a specials folder 4 `E##` or 5 `Ep##`;
/// 0 none.
pub open spec fn numbered_tv_rule(path: Seq<char>) -> int {
    let stem = spec_stem(path);
    let folders = spec_folders(path);
    if first_sxe(stem) >= 0 {
        1
    } else if folders.len() > 0 && season_folder(folders.last()) {
        if first_ey(stem, false) >= 0 {
            2
        } else if first_ey(stem, true) >= 0 {
            3
        } else {
            0
        }
    } else if folders.len() > 0 && specials_folder(folders.last()) {
        if first_ey(stem, false) >= 0 {
            4
        } else if first_ey(stem, true) >= 0 {
            5
        } else {
            0
        }
    } else {
        0
    }
}

pub open spec fn numbered_tv_season(path: Seq<char>) -> int {
    let stem = spec_stem(path);
    let folders = spec_folders(path);
    let rule = numbered_tv_rule(path);
    if rule == 1 {
        sxe_season(stem, first_sxe(stem)) as int
    } else if rule == 2 || rule == 3 {
        season_value(folders.last())
    } else {
        0
    }
}

pub open spec fn numbered_tv_episode(path: Seq<char>) -> int {
    let stem = spec_stem(path);
    let rule = numbered_tv_rule(path);
    if rule == 1 {
        sxe_episode(stem, first_sxe(stem)) as int
    } else if rule == 2 || rule == 4 {
        ey_episode(stem, first_ey(stem, false), false) as int
    } else {
        ey_episode(stem, first_ey(stem, true), true) as int
    }
}

pub open spec fn numbered_tv_ep_end(path: Seq<char>) -> Option<int> {
    let stem = spec_stem(path);
    let rule = numbered_tv_rule(path);
    let v = if rule == 1 {
        sxe_ep_end(stem, first_sxe(stem))
    } else if rule == 2 || rule == 4 {
        ey_ep_end(stem, first_ey(stem, false), false)
    } else {
        ey_ep_end(stem, first_ey(stem, true), true)
    };
    match v {
        Some(n) => Some(n as int),
        None => None,
    }
}

/// A numbered TV episode classification, field by field.
pub open spec fn describes_numbered_tv(tv: TvEpisodeInfo, path: Seq<char>) -> bool {
    &&& tv_common_fields(tv, path)
    &&& tv.season as int == numbered_tv_season(path)
    &&& tv.episode as int == numbered_tv_episode(path)
    &&& opt_i32_is(tv.ep_end, numbered_tv_ep_end(path))
    &&& tv.air_date is None
    &&& tv.year is None
}

pub(crate) fn detect_numbered_tv(
    parts: &PathParts,
    absolute: bool,
    Ghost(path): Ghost<Seq<char>>,
) -> (r: Option<TvEpisodeInfo>)
    requires
        parts.wf(path),
        absolute == is_absolute(path),
    ensures
        match r {
            Some(tv) => numbered_tv_rule(path) != 0 && describes_numbered_tv(tv, path),
            None => numbered_tv_rule(path) == 0,
        },
{
    proof {
        assert(seq_views(parts.folders@) =~= spec_folders(path));
    }
    match find_sxe(&parts.stem) {
        Some((_at, f)) => {
            let ep_end: Option<i32> = match f.ep_end {
                Some(e) => Some(e as i32),
                None => None,
            };
            return Some(
                assemble_tv(
                    parts,
                    absolute,
                    f.season as i32,
                    f.episode as i32,
                    ep_end,
                    None,
                    None,
                    Ghost(path),
                ),
            );
        },
        None => {},
    }
    let n = parts.folders.len();
    if n == 0 {
        return None;
    }
    let last = &parts.folders[n - 1];
    proof {
        assert(seq_views(parts.folders@)[n as int - 1] == parts.folders@[n as int - 1]@);
        assert(spec_folders(path).last() == parts.folders@[n as int - 1]@);
    }
    let season_num = check_season_folder(last);
    match season_num {
        Some(season) => {
            match find_ey(&parts.stem, false) {
                Some((_at, f)) => {
                    let ep_end: Option<i32> = match f.ep_end {
                        Some(e) => Some(e as i32),
                        None => None,
                    };
                    return Some(
                        assemble_tv(
                            parts,
                            absolute,
                            season,
                            f.episode as i32,
                            ep_end,
                            None,
                            None,
                            Ghost(path),
                        ),
                    );
                },
                None => {},
            }
            match find_ey(&parts.stem, true) {
                Some((_at, f)) => {
                    let ep_end: Option<i32> = match f.ep_end {
                        Some(e) => Some(e as i32),
                        None => None,
                    };
                    return Some(
                        assemble_tv(
                            parts,
                            absolute,
                            season,
                            f.episode as i32,
                            ep_end,
                            None,
                            None,
                            Ghost(path),
                        ),
                    );
                },
                None => {},
            }
            return None;
        },
        None => {},
    }
    if check_specials_folder(last) {
        match find_ey(&parts.stem, false) {
            Some((_at, f)) => {
                let ep_end: Option<i32> = match f.ep_end {
                    Some(e) => Some(e as i32),
                    None => None,
                };
                return Some(
                    assemble_tv(
                        parts,
                        absolute,
                        0,
                        f.episode as i32,
                        ep_end,
                        None,
                        None,
                        Ghost(path),
                    ),
                );
            },
            None => {},
        }
        match find_ey(&parts.stem, true) {
            Some((_at, f)) => {
                let ep_end: Option<i32> = match f.ep_end {
                    Some(e) => Some(e as i32),
                    None => None,
                };
                return Some(
                    assemble_tv(
                        parts,
                        absolute,
                        0,
                        f.episode as i32,
                        ep_end,
                        None,
                        None,
                        Ghost(path),
                    ),
                );
            },
            None => {},
        }
        return None;
    }
    None
}

/// The air-date rule applies: the stem carries a date that is a real
/// calendar date.
pub open spec fn date_tv_applies(path: Seq<char>) -> bool {
    match date_of_stem(spec_stem(path)) {
        Some((y, m, d)) => y <= 9999 && crate::dates::valid_ymd(y as int, m as int, d as int),
        None => false,
    }
}

pub open spec fn date_tv_season(path: Seq<char>) -> int {
    let folders = spec_folders(path);
    let y = date_of_stem(spec_stem(path))->Some_0.0;
    if folders.len() > 0 && season_folder(folders.last()) {
        season_value(folders.last())
    } else {
        y as int
    }
}

/// An air-date TV episode classification, field by field: the episode
/// number is the signed day count from the Unix epoch.
pub open spec fn describes_date_tv(tv: TvEpisodeInfo, path: Seq<char>) -> bool {
    let d = date_of_stem(spec_stem(path))->Some_0;
    &&& tv_common_fields(tv, path)
    &&& tv.season as int == date_tv_season(path)
    &&& tv.episode as int == crate::dates::epoch_days(d.0 as int, d.1 as int, d.2 as int)
    &&& tv.ep_end is None
    &&& (match tv.air_date {
        Some(a) => a@ == air_date_seq(d.0, d.1, d.2),
        None => false,
    })
    &&& (match tv.year {
        Some(y) => y as int == d.0,
        None => false,
    })
}

pub(crate) fn detect_date_tv(
    parts: &PathParts,
    absolute: bool,
    Ghost(path): Ghost<Seq<char>>,
) -> (r: Option<TvEpisodeInfo>)
    requires
        parts.wf(path),
        absolute == is_absolute(path),
    ensures
        match r {
            Some(tv) => date_tv_applies(path) && describes_date_tv(tv, path),
            None => !date_tv_applies(path),
        },
{
    proof {
        assert(seq_views(parts.folders@) =~= spec_folders(path));
    }
    let (y, m, d) = match find_date(&parts.stem) {
        Some(t) => t,
        None => {
            return None;
        },
    };
    if y > 9999 {
        return None;
    }
    if !crate::dates::check_ymd(y as i32, m, d) {
        return None;
    }
    let days = crate::dates::days_since_epoch(y as i32, m, d);
    proof {
        crate::dates::lemma_epoch_days_range(y as int, m as int, d as int);
    }
    let episode: i32 = days as i32;
    let n = parts.folders.len();
    let season: i32 = if n > 0 {
        proof {
            assert(seq_views(parts.folders@)[n as int - 1] == parts.folders@[n as int - 1]@);
            assert(spec_folders(path).last() == parts.folders@[n as int - 1]@);
        }
        match check_season_folder(&parts.folders[n - 1]) {
            Some(s) => s,
            None => y as i32,
        }
    } else {
        y as i32
    };
    let air = air_date_vec(y, m, d);
    Some(
        assemble_tv(
            parts,
            absolute,
            season,
            episode,
            None,
            Some(air),
            Some(y as i32),
            Ghost(path),
        ),
    )
}

/// The movie rule applies: the stem carries a parenthesized or dotted year.
pub open spec fn movie_applies(path: Seq<char>) -> bool {
    movie_match(spec_stem(path)) is Some
}

/// A movie classification, field by field.
pub open spec fn describes_movie(m: MovieInfo, path: Seq<char>) -> bool {
    let stem = spec_stem(path);
    let mm = movie_match(stem)->Some_0;
    let suffix = stem.subrange(mm.2, stem.len() as int);
    &&& m.title@ == trim_seq(stem.subrange(0, mm.0))
    &&& m.source_path@ == source_path_of(path)
    &&& (match m.year {
        Some(y) => y as int == mm.1,
        None => false,
    })
    &&& opt_string_is(m.version, movie_version_of(suffix))
    &&& opt_i32_is(m.part, part_value_of(suffix))
    &&& ids_match(m.external_ids@, ext_ids_of(stem))
}

pub(crate) fn detect_movie(
    parts: &PathParts,
    absolute: bool,
    Ghost(path): Ghost<Seq<char>>,
) -> (r: Option<MovieInfo>)
    requires
        parts.wf(path),
        absolute == is_absolute(path),
    ensures
        match r {
            Some(m) => movie_applies(path) && describes_movie(m, path),
            None => !movie_applies(path),
        },
{
    proof {
        assert(seq_views(parts.folders@) =~= spec_folders(path));
    }
    let (j, y, end) = match find_movie(&parts.stem) {
        Some(t) => t,
        None => {
            return None;
        },
    };
    let title_raw = slice_range(&parts.stem, 0, j);
    let title = trim_vec(&title_raw);
    let source_vec = compute_source_path(parts, absolute);
    let suffix = slice_range(&parts.stem, end, parts.stem.len());
    let version = compute_movie_version(&suffix);
    let part = compute_part(&suffix);
    let external_ids = parse_external_ids(&parts.stem);
    Some(
        MovieInfo {
            title: string_of(&title),
            source_path: string_of(&source_vec),
            year: Some(y as i32),
            part,
            version: match version {
                Some(x) => Some(string_of(&x)),
                None => None,
            },
            external_ids,
        },
    )
}

/// An extra classification, field by field.
pub open spec fn describes_extra(e: ExtraInfo, path: Seq<char>) -> bool {
    &&& e.path@ == extra_path_of(spec_folders(path), spec_filename(path))
    &&& Some(e.extra_type@) == extra_type_of(spec_folders(path), spec_stem(path))
}

/// A path names an extra.
pub open spec fn extra_applies(path: Seq<char>) -> bool {
    extra_type_of(spec_folders(path), spec_stem(path)) is Some
}

/// Classify a path, stages in order: extra, numbered TV episode, air-date
/// TV episode, movie, generic.
pub fn classify_path(full_path: &str) -> (r: ClassificationResult)
    ensures
        (r.media_type == MediaType::Extra <==> extra_applies(full_path@)),
        r.media_type == MediaType::Extra ==> {
            &&& r.extra is Some
            &&& describes_extra(r.extra->Some_0, full_path@)
            &&& r.tv_episode is None && r.movie is None && r.generic is None
        },
        r.media_type == MediaType::TvEpisode <==> (!extra_applies(full_path@) && (
        numbered_tv_rule(full_path@) != 0 || date_tv_applies(full_path@))),
        r.media_type == MediaType::TvEpisode ==> {
            &&& r.tv_episode is Some
            &&& (if numbered_tv_rule(full_path@) != 0 {
                describes_numbered_tv(r.tv_episode->Some_0, full_path@)
            } else {
                describes_date_tv(r.tv_episode->Some_0, full_path@)
            })
            &&& r.extra is None && r.movie is None && r.generic is None
        },
        r.media_type == MediaType::Movie <==> (!extra_applies(full_path@) && numbered_tv_rule(
            full_path@,
        ) == 0 && !date_tv_applies(full_path@) && movie_applies(full_path@)),
        r.media_type == MediaType::Movie ==> {
            &&& r.movie is Some
            &&& describes_movie(r.movie->Some_0, full_path@)
            &&& r.extra is None && r.tv_episode is None && r.generic is None
        },
        r.media_type == MediaType::Generic ==> {
            &&& r.generic is Some
            &&& r.generic->Some_0.title@ == spec_filename(full_path@)
            &&& r.extra is None && r.tv_episode is None && r.movie is None
        },
{
    let pv = chars_of(full_path);
    let parts = parse_path(&pv);
    proof {
        assert(seq_views(parts.folders@) =~= spec_folders(full_path@));
    }
    let absolute = pv.len() > 0 && {
        let c = pv[0];
        c == '/'
    };
    match detect_extra(&parts) {
        Some((path_vec, ty_vec)) => {
            return ClassificationResult {
                media_type: MediaType::Extra,
                extra: Some(
                    ExtraInfo { path: string_of(&path_vec), extra_type: string_of(&ty_vec) },
                ),
                tv_episode: None,
                movie: None,
                generic: None,
            };
        },
        None => {},
    }
    match detect_numbered_tv(&parts, absolute, Ghost(full_path@)) {
        Some(tv) => {
            return ClassificationResult {
                media_type: MediaType::TvEpisode,
                extra: None,
                tv_episode: Some(tv),
                movie: None,
                generic: None,
            };
        },
        None => {},
    }
    match detect_date_tv(&parts, absolute, Ghost(full_path@)) {
        Some(tv) => {
            return ClassificationResult {
                media_type: MediaType::TvEpisode,
                extra: None,
                tv_episode: Some(tv),
                movie: None,
                generic: None,
            };
        },
        None => {},
    }
    match detect_movie(&parts, absolute, Ghost(full_path@)) {
        Some(m) => {
            return ClassificationResult {
                media_type: MediaType::Movie,
                extra: None,
                tv_episode: None,
                movie: Some(m),
                generic: None,
            };
        },
        None => {},
    }
    ClassificationResult {
        media_type: MediaType::Generic,
        extra: None,
        tv_episode: None,
        movie: None,
        generic: Some(GenericInfo { title: string_of(&parts.filename) }),
    }
}

/// Classifying is a pure function of the path string: equal paths classify
/// the same way, whatever the filesystem holds.
pub proof fn lemma_classifier_deterministic(p: Seq<char>, q: Seq<char>)
    requires
        p == q,
    ensures
        extra_applies(p) == extra_applies(q),
        numbered_tv_rule(p) == numbered_tv_rule(q),
        date_tv_applies(p) == date_tv_applies(q),
        movie_applies(p) == movie_applies(q),
{
}

// ---------- extras attached to movies and shows ----------

/// First marker suffix the lowercased stem ends with, or 8.
pub open spec fn ending_suffix_from(stem: Seq<char>, k: int) -> int
    decreases 8 - k,
{
    if k < 0 || k >= 8 {
        8
    } else if extra_suffix(k).len() <= stem.len() && matches_at(
        lower_seq(stem),
        extra_suffix(k),
        stem.len() - extra_suffix(k).len(),
    ) {
        k
    } else {
        ending_suffix_from(stem, k + 1)
    }
}

/// The extra's display title: its stem, a trailing marker suffix removed
/// and the rest trimmed.
pub open spec fn extra_title_of(stem: Seq<char>) -> Seq<char> {
    let k = ending_suffix_from(stem, 0);
    if k < 8 {
        trim_seq(stem.subrange(0, stem.len() - extra_suffix(k).len()))
    } else {
        stem
    }
}

#[verifier::loop_isolation(false)]
fn extra_title_exec(stem: &Vec<char>) -> (r: Vec<char>)
    ensures
        r@ == extra_title_of(stem@),
{
    let lower = to_lower_vec(stem);
    let mut k: usize = 0;
    while k < 8
        invariant
            k <= 8,
            ending_suffix_from(stem@, 0) == ending_suffix_from(stem@, k as int),
        decreases 8 - k,
    {
        let (suf, _ty) = extra_suffix_pair(k);
        if suf.len() <= stem.len() && check_match_at(&lower, &suf, stem.len() - suf.len()) {
            let cut = slice_range(stem, 0, stem.len() - suf.len());
            return trim_vec(&cut);
        }
        k = k + 1;
    }
    slice_range(stem, 0, stem.len())
}

/// The season and episode hints of a show extra: scan the four deepest
/// folders for an `SxxEyy` token, a season folder, or a specials folder.
pub open spec fn show_extra_se(folders: Seq<Seq<char>>, cnt: int) -> (Option<int>, Option<int>)
    decreases folders.len(),
{
    if folders.len() == 0 || cnt <= 0 {
        (None, None)
    } else {
        let f = folders.last();
        if first_sxe(f) >= 0 {
            (
                Some(sxe_season(f, first_sxe(f)) as int),
                Some(sxe_episode(f, first_sxe(f)) as int),
            )
        } else if season_folder(f) {
            (Some(season_value(f)), None)
        } else if specials_folder(f) {
            (Some(0int), None)
        } else {
            show_extra_se(folders.drop_last(), cnt - 1)
        }
    }
}

/// Attach a movie extra: title from the stem, the parent's source path,
/// the detected extra type.
pub fn classify_movie_extra(extra_info: &ExtraInfo, source_path: &str) -> (r: Option<MovieExtra>)
    ensures
        match r {
            Some(m) => {
                &&& m.title@ == extra_title_of(spec_stem(extra_info.path@))
                &&& m.source_path@ == source_path@
                &&& m.extra_type@ == extra_info.extra_type@
            },
            None => false,
        },
{
    let pv = chars_of(extra_info.path.as_str());
    let parts = parse_path(&pv);
    let title = extra_title_exec(&parts.stem);
    Some(
        MovieExtra {
            title: string_of(&title),
            source_path: source_path.to_owned(),
            extra_type: extra_info.extra_type.clone(),
        },
    )
}

/// Attach a show extra: like a movie extra, with season and episode hints
/// from the deepest folders.
#[verifier::loop_isolation(false)]
pub fn classify_show_extra(extra_info: &ExtraInfo, source_path: &str) -> (r: Option<ShowExtra>)
    ensures
        match r {
            Some(s) => {
                &&& s.title@ == extra_title_of(spec_stem(extra_info.path@))
                &&& s.source_path@ == source_path@
                &&& s.extra_type@ == extra_info.extra_type@
                &&& {
                    let se = show_extra_se(spec_folders(extra_info.path@), 4);
                    opt_i32_is(s.season, se.0) && opt_i32_is(s.episode, se.1)
                }
            },
            None => false,
        },
{
    let pv = chars_of(extra_info.path.as_str());
    let parts = parse_path(&pv);
    let title = extra_title_exec(&parts.stem);
    let ghost fv = seq_views(parts.folders@);
    proof {
        assert(fv =~= spec_folders(extra_info.path@));
    }
    let mut season: Option<i32> = None;
    let mut episode: Option<i32> = None;
    let mut remaining: usize = 4;
    let mut k: usize = parts.folders.len();
    proof {
        assert(fv.take(k as int) =~= fv);
    }
    let mut done: bool = false;
    while k > 0 && remaining > 0 && !done
        invariant
            k <= parts.folders@.len(),
            fv.len() == parts.folders@.len(),
            remaining <= 4,
            !done ==> season is None && episode is None && show_extra_se(fv, 4)
                == show_extra_se(fv.take(k as int), remaining as int),
            done ==> {
                let se = show_extra_se(fv, 4);
                opt_i32_is(season, se.0) && opt_i32_is(episode, se.1)
            },
        decreases k, (if done { 0int } else { 1int }),
    {
        let f = &parts.folders[k - 1];
        proof {
            assert(fv.take(k as int).last() == fv[k as int - 1]);
            assert(fv[k as int - 1] == parts.folders@[k as int - 1]@);
        }
        match find_sxe(f) {
            Some((_at, fields)) => {
                proof {
                    assert(show_extra_se(fv.take(k as int), remaining as int) == (
                        Some(sxe_season(fv[k as int - 1], first_sxe(fv[k as int - 1])) as int),
                        Some(sxe_episode(fv[k as int - 1], first_sxe(fv[k as int - 1])) as int),
                    ));
                }
                season = Some(fields.season as i32);
                episode = Some(fields.episode as i32);
                done = true;
            },
            None => {
                match check_season_folder(f) {
                    Some(s) => {
                        proof {
                            assert(show_extra_se(fv.take(k as int), remaining as int) == (
                                Some(season_value(fv[k as int - 1])),
                                None::<int>,
                            ));
                        }
                        season = Some(s);
                        done = true;
                    },
                    None => {
                        if check_specials_folder(f) {
                            proof {
                                assert(show_extra_se(fv.take(k as int), remaining as int) == (
                                    Some(0int),
                                    None::<int>,
                                ));
                            }
                            season = Some(0);
                            done = true;
                        } else {
                            proof {
                                assert(fv.take(k as int).drop_last() =~= fv.take(k as int - 1));
                            }
                            k = k - 1;
                            remaining = remaining - 1;
                        }
                    },
                }
            },
        }
    }
    proof {
        if !done {
            assert(show_extra_se(fv.take(k as int), remaining as int) == (
                None::<int>,
                None::<int>,
            )) by {
                if k == 0 {
                    assert(fv.take(0int).len() == 0);
                }
            }
        }
    }
    Some(
        ShowExtra {
            title: string_of(&title),
            source_path: source_path.to_owned(),
            season,
            episode,
            extra_type: extra_info.extra_type.clone(),
        },
    )
}

} // verus!
