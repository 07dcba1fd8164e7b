//! The incremental scanner's working state and decisions: the per-scan
//! buffers, the source-path tracker, the per-file decision procedure, the
//! per-source-path commit, item migration after renames, and the post-scan
//! reap.
//!
//! Walking directories, reading bytes and clocks stay outside; these
//! functions take plain values (paths, sizes, hashes, timestamps) and a
//! store, and decide everything else.

use vstd::prelude::*;
use crate::classifier::{
    classify_path, ExtraInfo, GenericInfo, MediaType, MovieInfo, TvEpisodeInfo,
};
use crate::models::{Index, ItemKind, ItemMeta, ScanStatus, VideoItem, VideoPart};
use crate::store::{MediaStore, StoreError};
use crate::text::{chars_eq, chars_of, contains_vec, lower_seq, string_of};

verus! {

/// Why the scanner refused a file or gave up on a scan.
#[derive(Debug, Clone, Copy, PartialEq, Eq, Structural)]
pub enum ScanError {
    /// A movie without a source path turned up inside an active source-path
    /// subtree, or two different source paths were active at once.
    LayoutConflict,
    /// The store refused a write.
    Store(StoreError),
}

/// A buffered new-content file, waiting for its source path to be committed.
#[derive(Debug, Clone)]
pub struct TempVideoItem {
    pub file_path: String,
    pub media_type: MediaType,
    pub tv_episode: Option<TvEpisodeInfo>,
    pub movie: Option<MovieInfo>,
    pub generic: Option<GenericInfo>,
    pub file_size: i64,
    pub mtime: i64,
    pub fast_hash: String,
}

/// A buffered extra, attached to its parent at commit time.
#[derive(Debug, Clone)]
pub struct TempExtraItem {
    pub file_path: String,
    pub extra: ExtraInfo,
    pub file_size: i64,
    pub mtime: i64,
    pub fast_hash: String,
}

/// The per-scan buffers: new content and extras, committed together when
/// the scanner leaves their source path.
pub struct TempFileManager {
    temp_dir: String,
    new_content_items: Vec<TempVideoItem>,
    extra_items: Vec<TempExtraItem>,
}

impl TempFileManager {
    pub closed spec fn spec_new_content(&self) -> Seq<TempVideoItem> {
        self.new_content_items@
    }

    pub closed spec fn spec_extras(&self) -> Seq<TempExtraItem> {
        self.extra_items@
    }

    pub closed spec fn spec_temp_dir(&self) -> Seq<char> {
        self.temp_dir@
    }

    /// A fresh, empty buffer; the scratch directory name is recorded as
    /// given.
    pub fn new(temp_dir: String) -> (r: TempFileManager)
        ensures
            r.spec_new_content().len() == 0,
            r.spec_extras().len() == 0,
            r.spec_temp_dir() == temp_dir@,
    {
        TempFileManager { temp_dir, new_content_items: Vec::new(), extra_items: Vec::new() }
    }

    /// Buffer a new-content file.
    pub fn add_new_content(&mut self, item: TempVideoItem)
        ensures
            final(self).spec_new_content() == old(self).spec_new_content().push(item),
            final(self).spec_extras() == old(self).spec_extras(),
            final(self).spec_temp_dir() == old(self).spec_temp_dir(),
    {
        self.new_content_items.push(item);
    }

    /// Buffer an extra.
    pub fn add_extra(&mut self, item: TempExtraItem)
        ensures
            final(self).spec_extras() == old(self).spec_extras().push(item),
            final(self).spec_new_content() == old(self).spec_new_content(),
            final(self).spec_temp_dir() == old(self).spec_temp_dir(),
    {
        self.extra_items.push(item);
    }

    /// How many new-content files wait.
    pub fn load_new_content(&self) -> (r: usize)
        ensures
            r == self.spec_new_content().len(),
    {
        self.new_content_items.len()
    }

    /// How many extras wait.
    pub fn load_extras(&self) -> (r: usize)
        ensures
            r == self.spec_extras().len(),
    {
        self.extra_items.len()
    }

    /// Drop everything buffered.
    pub fn clear_items(&mut self)
        ensures
            final(self).spec_new_content().len() == 0,
            final(self).spec_extras().len() == 0,
            final(self).spec_temp_dir() == old(self).spec_temp_dir(),
    {
        self.new_content_items.clear();
        self.extra_items.clear();
    }

    /// The scratch directory this scan was given.
    pub fn temp_dir(&self) -> (r: &str)
        ensures
            r@ == self.spec_temp_dir(),
    {
        self.temp_dir.as_str()
    }
}

/// The at-most-one source path the scanner is currently inside.
pub struct SourcePathTracker {
    source_path: Option<String>,
}

impl SourcePathTracker {
    pub closed spec fn spec_current(&self) -> Option<Seq<char>> {
        match self.source_path {
            Some(s) => Some(s@),
            None => None,
        }
    }

    pub fn new() -> (r: SourcePathTracker)
        ensures
            r.spec_current() is None,
    {
        SourcePathTracker { source_path: None }
    }

    /// Record the source path being walked; a second, different path is a
    /// layout conflict and changes nothing.
    pub fn track_source_path(&mut self, source_path: &str) -> (r: Result<(), ScanError>)
        ensures
            match r {
                Ok(_) => {
                    &&& final(self).spec_current() == Some(source_path@)
                    &&& (old(self).spec_current() is None || old(self).spec_current() == Some(
                        source_path@,
                    ))
                },
                Err(e) => {
                    &&& e == ScanError::LayoutConflict
                    &&& old(self).spec_current() is Some
                    &&& old(self).spec_current() != Some(source_path@)
                    &&& final(self).spec_current() == old(self).spec_current()
                },
            },
    {
        match &self.source_path {
            None => {
                self.source_path = Some(source_path.to_owned());
                Ok(())
            },
            Some(existing) => {
                let ev = chars_of(existing.as_str());
                let nv = chars_of(source_path);
                if chars_eq(&ev, &nv) {
                    Ok(())
                } else {
                    Err(ScanError::LayoutConflict)
                }
            },
        }
    }

    /// Whether exactly this source path is being tracked.
    pub fn has_source_path(&self, source_path: &str) -> (r: bool)
        ensures
            r == (self.spec_current() == Some(source_path@)),
    {
        match &self.source_path {
            Some(s) => {
                let ev = chars_of(s.as_str());
                let nv = chars_of(source_path);
                chars_eq(&ev, &nv)
            },
            None => false,
        }
    }

    /// The tracked source path, if any.
    pub fn get_source_path(&self) -> (r: Option<&String>)
        ensures
            match r {
                Some(s) => self.spec_current() == Some(s@),
                None => self.spec_current() is None,
            },
    {
        self.source_path.as_ref()
    }

    /// Leave a source path: cleared only when it is the tracked one; says
    /// whether it was.
    pub fn remove_source_path(&mut self, source_path: &str) -> (r: bool)
        ensures
            r == (old(self).spec_current() == Some(source_path@)),
            r ==> final(self).spec_current() is None,
            !r ==> final(self).spec_current() == old(self).spec_current(),
    {
        let matches = self.has_source_path(source_path);
        if matches {
            self.source_path = None;
            true
        } else {
            false
        }
    }
}

// ---------- movie folder matching ----------

/// A name normalized for folder matching: spaces and dots removed, the rest
/// lowercased.
pub open spec fn normalized_name(s: Seq<char>) -> Seq<char> {
    lower_seq(s.filter(|c: char| c != ' ' && c != '.'))
}

#[verifier::loop_isolation(false)]
fn normalize_exec(v: &Vec<char>) -> (r: Vec<char>)
    ensures
        r@ == normalized_name(v@),
{
    let mut kept: Vec<char> = Vec::new();
    let mut i: usize = 0;
    proof {
        assert(v@.take(0int).filter(|c: char| c != ' ' && c != '.') =~= Seq::<char>::empty());
    }
    while i < v.len()
        invariant
            i <= v@.len(),
            kept@ == v@.take(i as int).filter(|c: char| c != ' ' && c != '.'),
        decreases v@.len() - i,
    {
        let c = v[i];
        proof {
            assert(v@.take(i as int + 1).drop_last() =~= v@.take(i as int));
            assert(v@.take(i as int + 1).last() == v@[i as int]);
            reveal(Seq::filter);
        }
        if c != ' ' && c != '.' {
            kept.push(c);
        }
        i = i + 1;
    }
    proof {
        assert(v@.take(v@.len() as int) =~= v@);
    }
    crate::text::to_lower_vec(&kept)
}

/// The digits of a year, for folder matching.
pub open spec fn year_digit_seq(y: int) -> Seq<char> {
    crate::classifier::dec_year_digits(y)
}

/// A movie belongs to its folder when the normalized folder name contains
/// the normalized title, and the year's digits when a year was parsed.
pub open spec fn movie_in_matching_folder(
    title: Seq<char>,
    year: Option<i32>,
    folder: Seq<char>,
) -> bool {
    &&& crate::text::contains_seq(normalized_name(folder), normalized_name(title))
    &&& (match year {
        Some(y) => crate::text::contains_seq(normalized_name(folder), year_digit_seq(y as int)),
        None => true,
    })
}

/// Decide whether a movie file sits in a folder named after it.
pub fn is_movie_in_matching_folder(movie_title: &str, movie_year: Option<i32>, folder_name: &str)
    -> (r: bool)
    ensures
        r == movie_in_matching_folder(movie_title@, movie_year, folder_name@),
{
    let tv = chars_of(movie_title);
    let fv = chars_of(folder_name);
    let nt = normalize_exec(&tv);
    let nf = normalize_exec(&fv);
    if !contains_vec(&nf, &nt) {
        return false;
    }
    match movie_year {
        Some(y) => {
            let yd = crate::classifier::year_digits_exec(y);
            contains_vec(&nf, &yd)
        },
        None => true,
    }
}

// ---------- scan scheduling ----------

/// Which index a scan cycle should run: a crashed `scanning` index first
/// (recovery), else the queued index that waited longest.
pub open spec fn first_scanning(ixs: Seq<Index>, i: int) -> int
    decreases ixs.len() - i,
{
    if i < 0 || i >= ixs.len() {
        -1
    } else if ixs[i].scan_status == ScanStatus::Scanning {
        i
    } else {
        first_scanning(ixs, i + 1)
    }
}

/// The position of the queued index with the smallest `last_scanned_at`
/// (first such on ties), or `-1`.
pub open spec fn oldest_queued(ixs: Seq<Index>, i: int, best: int) -> int
    decreases ixs.len() - i,
{
    if i < 0 || i >= ixs.len() {
        best
    } else if ixs[i].scan_status == ScanStatus::Queued && (best < 0 || ixs[i].last_scanned_at
        < ixs[best].last_scanned_at) {
        oldest_queued(ixs, i + 1, i)
    } else {
        oldest_queued(ixs, i + 1, best)
    }
}

/// Pick the next index to scan.
#[verifier::loop_isolation(false)]
pub fn select_scan_candidate(indexes: &Vec<Index>) -> (r: Option<usize>)
    ensures
        match r {
            Some(p) => p < indexes@.len() && (if first_scanning(indexes@, 0) >= 0 {
                p as int == first_scanning(indexes@, 0)
            } else {
                p as int == oldest_queued(indexes@, 0, -1)
            }),
            None => first_scanning(indexes@, 0) == -1 && oldest_queued(indexes@, 0, -1) == -1,
        },
{
    let mut i: usize = 0;
    while i < indexes.len()
        invariant
            i <= indexes@.len(),
            first_scanning(indexes@, 0) == first_scanning(indexes@, i as int),
        decreases indexes@.len() - i,
    {
        if status_eq(indexes[i].scan_status, ScanStatus::Scanning) {
            return Some(i);
        }
        i = i + 1;
    }
    let mut best: Option<usize> = None;
    let mut j: usize = 0;
    while j < indexes.len()
        invariant
            j <= indexes@.len(),
            first_scanning(indexes@, 0) == -1,
            match best {
                Some(b) => b < j && oldest_queued(indexes@, 0, -1) == oldest_queued(
                    indexes@,
                    j as int,
                    b as int,
                ) && indexes@[b as int].scan_status == ScanStatus::Queued,
                None => oldest_queued(indexes@, 0, -1) == oldest_queued(indexes@, j as int, -1),
            },
        decreases indexes@.len() - j,
    {
        let is_queued = status_eq(indexes[j].scan_status, ScanStatus::Queued);
        let better = match best {
            Some(b) => is_queued && indexes[j].last_scanned_at < indexes[b].last_scanned_at,
            None => is_queued,
        };
        if better {
            best = Some(j);
        }
        j = j + 1;
    }
    best
}

fn status_eq(a: ScanStatus, b: ScanStatus) -> (r: bool)
    ensures
        r == (a == b),
{
    a == b
}

// ---------- small string builders ----------

/// The decimal form of an integer, a `-` sign for negative values.
pub open spec fn int_digit_seq(n: int) -> Seq<char> {
    if n >= 0 {
        crate::classifier::dec_digits_min(n as nat)
    } else {
        seq!['-'] + crate::classifier::dec_digits_min((-n) as nat)
    }
}

fn dec_digits_u64(n: u64) -> (r: Vec<char>)
    ensures
        r@ == crate::classifier::dec_digits_min(n as nat),
    decreases n,
{
    if n < 10 {
        let mut r: Vec<char> = Vec::new();
        r.push(dec_digit_u64(n));
        proof {
            assert(r@ =~= crate::classifier::dec_digits_min(n as nat));
        }
        r
    } else {
        let mut r = dec_digits_u64(n / 10);
        r.push(dec_digit_u64(n % 10));
        r
    }
}

fn dec_digit_u64(n: u64) -> (r: char)
    requires
        n < 10,
    ensures
        r == crate::classifier::dec_digit(n as int),
{
    if n == 0 {
        '0'
    } else if n == 1 {
        '1'
    } else if n == 2 {
        '2'
    } else if n == 3 {
        '3'
    } else if n == 4 {
        '4'
    } else if n == 5 {
        '5'
    } else if n == 6 {
        '6'
    } else if n == 7 {
        '7'
    } else if n == 8 {
        '8'
    } else {
        '9'
    }
}

pub fn i64_digits(n: i64) -> (r: Vec<char>)
    requires
        n > i64::MIN,
    ensures
        r@ == int_digit_seq(n as int),
{
    if n >= 0 {
        dec_digits_u64(n as u64)
    } else {
        let mag = dec_digits_u64((-n) as u64);
        let mut r: Vec<char> = Vec::new();
        r.push('-');
        let mut i: usize = 0;
        while i < mag.len()
            invariant
                i <= mag@.len(),
                r@ == seq!['-'] + mag@.subrange(0, i as int),
            decreases mag@.len() - i,
        {
            r.push(mag[i]);
            i = i + 1;
            proof {
                assert(r@ =~= seq!['-'] + mag@.subrange(0, i as int));
            }
        }
        proof {
            assert(mag@.subrange(0, mag@.len() as int) =~= mag@);
        }
        r
    }
}

/// The display title of a season: `Specials` for season 0, else
/// `Season <n>`.
pub open spec fn season_title_seq(n: int) -> Seq<char> {
    if n == 0 {
        "Specials"@
    } else {
        "Season "@ + int_digit_seq(n)
    }
}

fn season_title(n: i64) -> (r: String)
    requires
        n > i64::MIN,
    ensures
        r@ == season_title_seq(n as int),
{
    if n == 0 {
        let v = chars_of("Specials");
        string_of(&v)
    } else {
        let mut v = chars_of("Season ");
        let d = i64_digits(n);
        let ghost pre = v@;
        let mut i: usize = 0;
        while i < d.len()
            invariant
                i <= d@.len(),
                v@ == pre + d@.subrange(0, i as int),
            decreases d@.len() - i,
        {
            v.push(d[i]);
            i = i + 1;
            proof {
                assert(v@ =~= pre + d@.subrange(0, i as int));
            }
        }
        proof {
            assert(d@.subrange(0, d@.len() as int) =~= d@);
        }
        string_of(&v)
    }
}

/// An id or count as decimal text.
pub fn i64_to_string(n: i64) -> (r: String)
    requires
        n > i64::MIN,
    ensures
        r@ == int_digit_seq(n as int),
{
    let v = i64_digits(n);
    string_of(&v)
}

/// The fallback title of an episode: `Episode <n>`.
pub open spec fn episode_title_seq(n: int) -> Seq<char> {
    "Episode "@ + int_digit_seq(n)
}

fn episode_fallback_title(n: i64) -> (r: String)
    requires
        n > i64::MIN,
    ensures
        r@ == episode_title_seq(n as int),
{
    let mut v = chars_of("Episode ");
    let d = i64_digits(n);
    let ghost pre = v@;
    let mut i: usize = 0;
    while i < d.len()
        invariant
            i <= d@.len(),
            v@ == pre + d@.subrange(0, i as int),
        decreases d@.len() - i,
    {
        v.push(d[i]);
        i = i + 1;
        proof {
            assert(v@ =~= pre + d@.subrange(0, i as int));
        }
    }
    proof {
        assert(d@.subrange(0, d@.len() as int) =~= d@);
    }
    string_of(&v)
}

/// The episode title the scanner chooses: the parsed title, else the air
/// date, else `Episode <n>`.
pub open spec fn episode_title_choice(tv: TvEpisodeInfo) -> Seq<char> {
    match tv.title {
        Some(t) => t@,
        None => match tv.air_date {
            Some(a) => a@,
            None => episode_title_seq(tv.episode as int),
        },
    }
}

/// A committed movie file: an item stands at the movie's source path (with
/// the parsed kind, title and year when none stood there before), one of
/// its versions carries the parsed edition, and that version holds the
/// file's part with the parsed part index.
pub open spec fn movie_chain(
    pre: MediaStore,
    post: MediaStore,
    index_id: i64,
    item: TempVideoItem,
    movie: MovieInfo,
    now: i64,
) -> bool {
    exists|t: int|
        {
            &&& 0 <= t < post.spec_items().len()
            &&& crate::store::item_sp_match(
                #[trigger] post.spec_items()[t],
                index_id as int,
                movie.source_path@,
            )
            &&& (no_item_at_sp(pre, index_id, movie.source_path@) ==> {
                &&& post.spec_items()[t].kind == ItemKind::Movie
                &&& post.spec_items()[t].title@ == movie.title@
                &&& (match (post.spec_items()[t].year, movie.year) {
                    (Some(a), Some(b)) => a == b as i64,
                    (None, None) => true,
                    _ => false,
                })
                &&& post.spec_items()[t].parent_id is None
            })
            &&& exists|v: int|
                {
                    &&& 0 <= v < post.spec_versions().len()
                    &&& (#[trigger] post.spec_versions()[v]).item_id == post.spec_items()[t].id
                    &&& opt_view_eq(post.spec_versions()[v].edition, movie.version)
                    &&& exists|pt: int|
                        0 <= pt < post.spec_parts().len() && part_row_matches(
                            #[trigger] post.spec_parts()[pt],
                            post.spec_versions()[v].id,
                            item.file_path@,
                            item.file_size,
                            item.mtime,
                            item.fast_hash@,
                            affix_part_index(movie.part),
                            now,
                        )
                }
        }
}

/// A committed TV episode: show, season and episode items chained by
/// source path and ordinals (each level carrying its parsed fields when the
/// source path was new), the edition's version under the episode, and the
/// file's part under that version.
pub open spec fn tv_chain(
    pre: MediaStore,
    post: MediaStore,
    index_id: i64,
    item: TempVideoItem,
    tv: TvEpisodeInfo,
    now: i64,
) -> bool {
    exists|s: int|
        {
            &&& 0 <= s < post.spec_items().len()
            &&& crate::store::item_sp_match(
                #[trigger] post.spec_items()[s],
                index_id as int,
                tv.source_path@,
            )
            &&& (no_item_at_sp(pre, index_id, tv.source_path@) ==> {
                &&& post.spec_items()[s].kind == ItemKind::Show
                &&& post.spec_items()[s].title@ == tv.show_name@
                &&& post.spec_items()[s].parent_id is None
            })
            &&& exists|se: int|
                {
                    &&& 0 <= se < post.spec_items().len()
                    &&& crate::store::item_pn_match(
                        #[trigger] post.spec_items()[se],
                        post.spec_items()[s].id as int,
                        tv.season as int,
                    )
                    &&& (no_item_at_sp(pre, index_id, tv.source_path@) ==> {
                        &&& post.spec_items()[se].kind == ItemKind::Season
                        &&& post.spec_items()[se].title@ == season_title_seq(tv.season as int)
                        &&& post.spec_items()[se].index_id == index_id
                    })
                    &&& exists|e: int|
                        {
                            &&& 0 <= e < post.spec_items().len()
                            &&& crate::store::item_pn_match(
                                #[trigger] post.spec_items()[e],
                                post.spec_items()[se].id as int,
                                tv.episode as int,
                            )
                            &&& (no_item_at_sp(pre, index_id, tv.source_path@) ==> {
                                &&& post.spec_items()[e].kind == ItemKind::Episode
                                &&& post.spec_items()[e].title@ == episode_title_choice(tv)
                                &&& opt_view_eq(post.spec_items()[e].metadata.air_date, tv.air_date)
                                &&& post.spec_items()[e].index_id == index_id
                            })
                            &&& exists|v: int|
                                {
                                    &&& 0 <= v < post.spec_versions().len()
                                    &&& (#[trigger] post.spec_versions()[v]).item_id
                                        == post.spec_items()[e].id
                                    &&& opt_view_eq(post.spec_versions()[v].edition, tv.version)
                                    &&& exists|pt: int|
                                        0 <= pt < post.spec_parts().len() && part_row_matches(
                                            #[trigger] post.spec_parts()[pt],
                                            post.spec_versions()[v].id,
                                            item.file_path@,
                                            item.file_size,
                                            item.mtime,
                                            item.fast_hash@,
                                            affix_part_index(tv.part),
                                            now,
                                        )
                                }
                        }
                }
        }
}

/// A committed generic video: an item of the index with its title (kind
/// video when the title was new), a fresh edition-less version, and the
/// file's part.
pub open spec fn generic_chain(
    pre: MediaStore,
    post: MediaStore,
    index_id: i64,
    item: TempVideoItem,
    g: GenericInfo,
    now: i64,
) -> bool {
    exists|t: int|
        {
            &&& 0 <= t < post.spec_items().len()
            &&& (#[trigger] post.spec_items()[t]).index_id == index_id
            &&& post.spec_items()[t].title@ == g.title@
            &&& (no_item_titled(pre, index_id, g.title@) ==> {
                &&& post.spec_items()[t].kind == ItemKind::Video
                &&& post.spec_items()[t].parent_id is None
            })
            &&& exists|v: int|
                {
                    &&& 0 <= v < post.spec_versions().len()
                    &&& (#[trigger] post.spec_versions()[v]).item_id == post.spec_items()[t].id
                    &&& post.spec_versions()[v].edition is None
                    &&& exists|pt: int|
                        0 <= pt < post.spec_parts().len() && part_row_matches(
                            #[trigger] post.spec_parts()[pt],
                            post.spec_versions()[v].id,
                            item.file_path@,
                            item.file_size,
                            item.mtime,
                            item.fast_hash@,
                            0,
                            now,
                        )
                }
        }
}

/// The growth every commit shows: items and versions only gain rows at the
/// end, the part table gains exactly the committed file, and at most five
/// ids are consumed.
pub open spec fn commit_growth(
    pre: MediaStore,
    post: MediaStore,
    path: Seq<char>,
    size: i64,
    mtime: i64,
    hash: Seq<char>,
) -> bool {
    &&& post.spec_items().subrange(0, pre.spec_items().len() as int) == pre.spec_items()
    &&& post.spec_items().len() >= pre.spec_items().len()
    &&& post.spec_versions().subrange(0, pre.spec_versions().len() as int) == pre.spec_versions()
    &&& post.spec_versions().len() >= pre.spec_versions().len()
    &&& one_part_added(pre, post, path, size, mtime, hash)
    &&& post.spec_next_id() <= pre.spec_next_id() + 5
}

// ---------- upserts ----------

fn store_err(e: StoreError) -> (r: ScanError)
    ensures
        r == ScanError::Store(e),
{
    ScanError::Store(e)
}

/// Two optional strings carry the same characters.
pub open spec fn opt_view_eq(a: Option<String>, b: Option<String>) -> bool {
    match (a, b) {
        (Some(x), Some(y)) => x@ == y@,
        (None, None) => true,
        _ => false,
    }
}

/// The part index a parsed affix gives: the number, or zero without one.
pub open spec fn affix_part_index(p: Option<i32>) -> i64 {
    match p {
        Some(n) => n as i64,
        None => 0,
    }
}

/// The part row a committed file leaves behind: this path, size, mtime,
/// hash and part index, under version `vid`, seen at `now`.
pub open spec fn part_row_matches(
    p: VideoPart,
    vid: i64,
    path: Seq<char>,
    size: i64,
    mtime: i64,
    hash: Seq<char>,
    part_index: i64,
    now: i64,
) -> bool {
    &&& p.version_id == vid
    &&& p.path@ == path
    &&& p.size == Some(size)
    &&& p.mtime == Some(mtime)
    &&& p.fast_hash is Some && p.fast_hash->0@ == hash
    &&& p.part_index == part_index
    &&& p.updated_at == now
}

/// No item of the index carries the source path.
pub open spec fn no_item_at_sp(s: MediaStore, index_id: i64, sp: Seq<char>) -> bool {
    forall|t: int|
        0 <= t < s.spec_items().len() ==> !crate::store::item_sp_match(
            #[trigger] s.spec_items()[t],
            index_id as int,
            sp,
        )
}

/// No sibling of `parent_id` carries the number.
pub open spec fn no_item_at_pn(s: MediaStore, parent_id: i64, number: i64) -> bool {
    forall|t: int|
        0 <= t < s.spec_items().len() ==> !crate::store::item_pn_match(
            #[trigger] s.spec_items()[t],
            parent_id as int,
            number as int,
        )
}

/// No item of the index carries the title.
pub open spec fn no_item_titled(s: MediaStore, index_id: i64, title: Seq<char>) -> bool {
    forall|t: int|
        0 <= t < s.spec_items().len() ==> !((#[trigger] s.spec_items()[t]).index_id == index_id
            && s.spec_items()[t].title@ == title)
}

/// A buffered record is coherent: its payload matches its media type, and
/// extras never stand in the new-content buffer.
pub open spec fn temp_record_wf(x: TempVideoItem) -> bool {
    match x.media_type {
        MediaType::Movie => x.movie is Some,
        MediaType::TvEpisode => x.tv_episode is Some,
        MediaType::Generic => x.generic is Some,
        MediaType::Extra => false,
    }
}

/// The store grew by exactly one part, carrying the file's row.
pub open spec fn one_part_added(
    pre: MediaStore,
    post: MediaStore,
    path: Seq<char>,
    size: i64,
    mtime: i64,
    hash: Seq<char>,
) -> bool {
    &&& post.spec_parts().len() == pre.spec_parts().len() + 1
    &&& post.spec_parts().subrange(0, pre.spec_parts().len() as int) == pre.spec_parts()
    &&& post.spec_parts().last().path@ == path
    &&& post.spec_parts().last().size == Some(size)
    &&& post.spec_parts().last().mtime == Some(mtime)
    &&& post.spec_parts().last().fast_hash is Some && post.spec_parts().last().fast_hash->0@
        == hash
}

/// Find or create the top item standing for a source path: when none
/// exists yet, the new item carries the given kind, title and year at the
/// top of the hierarchy.
fn upsert_item_by_source_path(
    store: &mut MediaStore,
    index_id: i64,
    kind: ItemKind,
    title: &str,
    source_path: &str,
    year: Option<i64>,
    now: i64,
) -> (r: Result<i64, ScanError>)
    requires
        old(store).wf(),
    ensures
        final(store).wf(),
        final(store).spec_indexes() == old(store).spec_indexes(),
        final(store).spec_versions() == old(store).spec_versions(),
        final(store).spec_parts() == old(store).spec_parts(),
        old(store).spec_next_id() <= final(store).spec_next_id() <= old(store).spec_next_id()
            + 1,
        old(store).spec_items().len() <= final(store).spec_items().len() <= old(store).spec_items().len() + 1,
        final(store).spec_items().subrange(0, old(store).spec_items().len() as int) == old(store).spec_items(),
        (crate::store::has_index_id(old(store).spec_indexes(), index_id as int) && old(store).spec_next_id() < i64::MAX) ==> r is Ok,
        match r {
            Ok(id) => crate::store::has_item_id(final(store).spec_items(), id as int) && exists|
                t: int,
            |
                0 <= t < final(store).spec_items().len() && (
                #[trigger] final(store).spec_items()[t]).id == id && crate::store::item_sp_match(
                    final(store).spec_items()[t],
                    index_id as int,
                    source_path@,
                ) && (no_item_at_sp(*old(store), index_id, source_path@) ==> {
                    &&& t == old(store).spec_items().len()
                    &&& id == old(store).spec_next_id()
                    &&& final(store).spec_next_id() == old(store).spec_next_id() + 1
                    &&& final(store).spec_items().len() == old(store).spec_items().len() + 1
                    &&& final(store).spec_items()[t].kind == kind
                    &&& final(store).spec_items()[t].title@ == title@
                    &&& final(store).spec_items()[t].year == year
                    &&& final(store).spec_items()[t].parent_id is None
                    &&& final(store).spec_items()[t].number is None
                    &&& final(store).spec_items()[t].index_id == index_id
                }),
            Err(_) => true,
        },
{
    let existing = store.get_video_items_by_source_path(index_id, source_path);
    if existing.len() > 0 {
        let id = existing[0].id;
        proof {
            let x = existing@[0];
            let t = choose|t: int|
                0 <= t < store.spec_items().len() && store.spec_items()[t] == x;
            assert(store.spec_items()[t].id == id);
            assert(store.spec_items().subrange(0, store.spec_items().len() as int)
                =~= store.spec_items());
        }
        return Ok(id);
    }
    match store.add_video_item(
        index_id,
        kind,
        title.to_owned(),
        None,
        Some(source_path.to_owned()),
        None,
        year,
        ItemMeta::empty(),
        now,
    ) {
        Ok(id) => {
            proof {
                let n = final(store).spec_items().len() - 1;
                assert(final(store).spec_items()[n].id == id);
            }
            Ok(id)
        },
        Err(e) => Err(store_err(e)),
    }
}

/// Find or create a child item carrying a number under a parent.
fn upsert_child_by_number(
    store: &mut MediaStore,
    index_id: i64,
    kind: ItemKind,
    title: String,
    parent_id: i64,
    number: i64,
    metadata: ItemMeta,
    now: i64,
) -> (r: Result<i64, ScanError>)
    requires
        old(store).wf(),
    ensures
        final(store).wf(),
        final(store).spec_indexes() == old(store).spec_indexes(),
        final(store).spec_versions() == old(store).spec_versions(),
        final(store).spec_parts() == old(store).spec_parts(),
        old(store).spec_next_id() <= final(store).spec_next_id() <= old(store).spec_next_id()
            + 1,
        old(store).spec_items().len() <= final(store).spec_items().len() <= old(store).spec_items().len() + 1,
        final(store).spec_items().subrange(0, old(store).spec_items().len() as int) == old(store).spec_items(),
        ((exists|t: int|
            0 <= t < old(store).spec_items().len() && (#[trigger] old(store).spec_items()[t]).id
                == parent_id && old(store).spec_items()[t].index_id == index_id) && old(store).spec_next_id() < i64::MAX) ==> r is Ok,
        (match r {
            Ok(id) => no_item_at_pn(*old(store), parent_id, number) ==> exists|t: int| {
                &&& t == old(store).spec_items().len()
                &&& id == old(store).spec_next_id()
                &&& final(store).spec_next_id() == old(store).spec_next_id() + 1
                &&& final(store).spec_items().len() == old(store).spec_items().len() + 1
                &&& 0 <= t < final(store).spec_items().len()
                &&& (#[trigger] final(store).spec_items()[t]).id == id
                &&& final(store).spec_items()[t].kind == kind
                &&& final(store).spec_items()[t].title@ == title@
                &&& final(store).spec_items()[t].parent_id == Some(parent_id)
                &&& final(store).spec_items()[t].number == Some(number)
                &&& final(store).spec_items()[t].metadata == metadata
                &&& final(store).spec_items()[t].index_id == index_id
            },
            Err(_) => true,
        }),
        ((exists|t: int|
            0 <= t < old(store).spec_items().len() && (#[trigger] old(store).spec_items()[t]).id
                == parent_id && old(store).spec_items()[t].index_id == index_id) && r is Ok)
            ==> exists|t: int|
            0 <= t < final(store).spec_items().len() && (
            #[trigger] final(store).spec_items()[t]).id == r->Ok_0
                && crate::store::item_pn_match(
                final(store).spec_items()[t],
                parent_id as int,
                number as int,
            ) && final(store).spec_items()[t].index_id == index_id,
        match r {
            Ok(id) => crate::store::has_item_id(final(store).spec_items(), id as int) && exists|
                t: int,
            |
                0 <= t < final(store).spec_items().len() && (
                #[trigger] final(store).spec_items()[t]).id == id && crate::store::item_pn_match(
                    final(store).spec_items()[t],
                    parent_id as int,
                    number as int,
                ),
            Err(_) => true,
        },
{
    let existing = store.get_video_items_by_parent_and_number(parent_id, number);
    if existing.len() > 0 {
        let id = existing[0].id;
        proof {
            let x = existing@[0];
            let t = choose|t: int|
                0 <= t < store.spec_items().len() && store.spec_items()[t] == x;
            assert(store.spec_items()[t].id == id);
            if exists|t0: int|
                0 <= t0 < store.spec_items().len() && (#[trigger] store.spec_items()[t0]).id
                    == parent_id && store.spec_items()[t0].index_id == index_id {
                let t0 = choose|t0: int|
                    0 <= t0 < store.spec_items().len() && (#[trigger] store.spec_items()[t0]).id
                        == parent_id && store.spec_items()[t0].index_id == index_id;
                assert(crate::store::parent_ok(store.spec_items(), store.spec_items()[t]));
                let w = choose|w: int|
                    0 <= w < store.spec_items().len() && (#[trigger] store.spec_items()[w]).id
                        == parent_id && store.spec_items()[w].index_id
                        == store.spec_items()[t].index_id;
                if w != t0 {
                    if w < t0 {
                        assert(store.spec_items()[w].id != store.spec_items()[t0].id);
                    } else {
                        assert(store.spec_items()[t0].id != store.spec_items()[w].id);
                    }
                }
                assert(store.spec_items()[t].index_id == index_id);
            }
            assert(store.spec_items().subrange(0, store.spec_items().len() as int)
                =~= store.spec_items());
            if no_item_at_pn(*store, parent_id, number) {
                assert(!crate::store::item_pn_match(x, parent_id as int, number as int));
            }
        }
        return Ok(id);
    }
    match store.add_video_item(
        index_id,
        kind,
        title,
        Some(parent_id),
        None,
        Some(number),
        None,
        metadata,
        now,
    ) {
        Ok(id) => {
            proof {
                let n = final(store).spec_items().len() - 1;
                assert(final(store).spec_items()[n].id == id);
            }
            Ok(id)
        },
        Err(e) => Err(store_err(e)),
    }
}

fn opt_string_eq(a: &Option<String>, b: &Option<String>) -> (r: bool)
    ensures
        r == (match (a, b) {
            (Some(x), Some(y)) => x@ == y@,
            (None, None) => true,
            _ => false,
        }),
{
    match (a, b) {
        (Some(x), Some(y)) => {
            let xv = chars_of(x.as_str());
            let yv = chars_of(y.as_str());
            chars_eq(&xv, &yv)
        },
        (None, None) => true,
        _ => false,
    }
}

/// Find a version of the item with this edition, or create one.
#[verifier::loop_isolation(false)]
fn upsert_version_by_edition(
    store: &mut MediaStore,
    item_id: i64,
    edition: &Option<String>,
    now: i64,
) -> (r: Result<i64, ScanError>)
    requires
        old(store).wf(),
    ensures
        final(store).wf(),
        final(store).spec_indexes() == old(store).spec_indexes(),
        final(store).spec_items() == old(store).spec_items(),
        final(store).spec_parts() == old(store).spec_parts(),
        old(store).spec_next_id() <= final(store).spec_next_id() <= old(store).spec_next_id()
            + 1,
        old(store).spec_versions().len() <= final(store).spec_versions().len() <= old(store).spec_versions().len() + 1,
        final(store).spec_versions().subrange(0, old(store).spec_versions().len() as int) == old(store).spec_versions(),
        (crate::store::has_item_id(old(store).spec_items(), item_id as int) && old(store).spec_next_id() < i64::MAX) ==> r is Ok,
        match r {
            Ok(id) => exists|v: int|
                0 <= v < final(store).spec_versions().len() && (
                #[trigger] final(store).spec_versions()[v]).id == id && final(store).spec_versions()[v].item_id == item_id && opt_view_eq(
                    final(store).spec_versions()[v].edition,
                    *edition,
                ),
            Err(_) => true,
        },
{
    let versions = store.get_video_versions_by_item(item_id);
    let mut i: usize = 0;
    while i < versions.len()
        invariant
            i <= versions@.len(),
            forall|k: int|
                0 <= k < versions@.len() ==> store.spec_versions().contains(
                    #[trigger] versions@[k],
                ),
        decreases versions@.len() - i,
    {
        if opt_string_eq(&versions[i].edition, edition) {
            let id = versions[i].id;
            proof {
                let x = versions@[i as int];
                let t = choose|t: int|
                    0 <= t < store.spec_versions().len() && store.spec_versions()[t] == x;
                assert(store.spec_versions()[t].id == id);
                assert(opt_view_eq(store.spec_versions()[t].edition, *edition));
                assert(store.spec_versions().subrange(0, store.spec_versions().len() as int)
                    =~= store.spec_versions());
            }
            return Ok(id);
        }
        i = i + 1;
    }
    let edition_copy = match edition {
        Some(s) => Some(s.clone()),
        None => None,
    };
    proof {
        assert(opt_view_eq(edition_copy, *edition));
    }
    match store.add_video_version_with_params(
        item_id,
        edition_copy,
        None,
        None,
        None,
        false,
        None,
        None,
        None,
        None,
        now,
    ) {
        Ok(id) => {
            proof {
                let n = final(store).spec_versions().len() - 1;
                assert(final(store).spec_versions()[n].id == id);
            }
            Ok(id)
        },
        Err(e) => Err(store_err(e)),
    }
}

/// Record the physical file under a version.
fn insert_part(
    store: &mut MediaStore,
    version_id: i64,
    file_path: &str,
    file_size: i64,
    mtime: i64,
    part_index: i64,
    fast_hash: &str,
    now: i64,
) -> (r: Result<i64, ScanError>)
    requires
        old(store).wf(),
    ensures
        final(store).wf(),
        final(store).spec_indexes() == old(store).spec_indexes(),
        final(store).spec_items() == old(store).spec_items(),
        final(store).spec_versions() == old(store).spec_versions(),
        r is Ok <==> (crate::store::has_version_id(old(store).spec_versions(), version_id as int)
            && crate::store::key_free_view(old(store).spec_parts(), file_size as int, fast_hash@)
            && old(store).spec_next_id() < i64::MAX),
        r is Err ==> r matches Err(ScanError::Store(..)),
        old(store).spec_next_id() <= final(store).spec_next_id() <= old(store).spec_next_id()
            + 1,
        match r {
            Ok(_) => one_part_added(
                *old(store),
                *final(store),
                file_path@,
                file_size,
                mtime,
                fast_hash@,
            ) && part_row_matches(
                final(store).spec_parts().last(),
                version_id,
                file_path@,
                file_size,
                mtime,
                fast_hash@,
                part_index,
                now,
            ),
            Err(_) => final(store).spec_parts() == old(store).spec_parts(),
        },
{
    match store.add_video_part_with_params(
        version_id,
        file_path.to_owned(),
        Some(file_size),
        Some(mtime),
        part_index,
        None,
        Some(fast_hash.to_owned()),
        now,
    ) {
        Ok(_) => {
            proof {
                let n = final(store).spec_parts().len() - 1;
                assert(final(store).spec_parts()[n].path@ == file_path@);
            }
            Ok(0)
        },
        Err(e) => Err(store_err(e)),
    }
}

// ---------- commits ----------

/// Commit one buffered movie file: reuse or create its item, reuse or
/// create the edition's version, record the part.
pub fn process_temp_movie(
    store: &mut MediaStore,
    index_id: i64,
    item: &TempVideoItem,
    movie: &MovieInfo,
    now: i64,
) -> (r: Result<(), ScanError>)
    requires
        old(store).wf(),
    ensures
        final(store).wf(),
        final(store).spec_indexes() == old(store).spec_indexes(),
        final(store).spec_parts().len() >= old(store).spec_parts().len(),
        forall|w: int|
            0 <= w < old(store).spec_parts().len() ==> (#[trigger] final(store).spec_parts()[w])
                == old(store).spec_parts()[w],
        (crate::store::has_index_id(old(store).spec_indexes(), index_id as int)
            && crate::store::key_free_view(
            old(store).spec_parts(),
            item.file_size as int,
            item.fast_hash@,
        ) && old(store).spec_next_id() + 3 < i64::MAX) ==> r is Ok,
        match r {
            Ok(_) => movie_chain(*old(store), *final(store), index_id, *item, *movie, now)
                && commit_growth(
                *old(store),
                *final(store),
                item.file_path@,
                item.file_size,
                item.mtime,
                item.fast_hash@,
            ),
            Err(_) => true,
        },
{
    let ghost s0 = *store;
    let item_id = match upsert_item_by_source_path(
        store,
        index_id,
        ItemKind::Movie,
        movie.title.as_str(),
        movie.source_path.as_str(),
        (match movie.year {
            Some(y) => Some(y as i64),
            None => None,
        }),
        now,
    ) {
        Ok(id) => id,
        Err(e) => {
            return Err(e);
        },
    };
    let ghost s1 = *store;
    let ghost ti = choose|t: int|
        0 <= t < s1.spec_items().len() && (#[trigger] s1.spec_items()[t]).id == item_id
            && crate::store::item_sp_match(
            s1.spec_items()[t],
            index_id as int,
            movie.source_path@,
        ) && (no_item_at_sp(s0, index_id, movie.source_path@) ==> s1.spec_items()[t].kind
            == ItemKind::Movie && s1.spec_items()[t].title@ == movie.title@ && (match (
            s1.spec_items()[t].year,
            movie.year,
        ) {
            (Some(a), Some(b)) => a == b as i64,
            (None, None) => true,
            _ => false,
        }) && s1.spec_items()[t].parent_id is None);
    let version_id = match upsert_version_by_edition(store, item_id, &movie.version, now) {
        Ok(id) => id,
        Err(e) => {
            return Err(e);
        },
    };
    let ghost s2 = *store;
    let ghost vi = choose|v: int|
        0 <= v < s2.spec_versions().len() && (#[trigger] s2.spec_versions()[v]).id == version_id
            && s2.spec_versions()[v].item_id == item_id && opt_view_eq(
            s2.spec_versions()[v].edition,
            movie.version,
        );
    let part_index: i64 = match movie.part {
        Some(p) => p as i64,
        None => 0,
    };
    match insert_part(
        store,
        version_id,
        item.file_path.as_str(),
        item.file_size,
        item.mtime,
        part_index,
        item.fast_hash.as_str(),
        now,
    ) {
        Ok(_) => {
            proof {
                assert(store.spec_items() == s1.spec_items());
                assert(store.spec_versions() == s2.spec_versions());
                assert(store.spec_items()[ti] == s1.spec_items()[ti]);
                assert(store.spec_versions()[vi] == s2.spec_versions()[vi]);
                let pt = store.spec_parts().len() - 1;
                assert(store.spec_parts()[pt] == store.spec_parts().last());
                assert(affix_part_index(movie.part) == (match movie.part {
                    Some(p) => p as i64,
                    None => 0i64,
                }));
                assert(part_row_matches(
                    store.spec_parts()[pt],
                    version_id,
                    item.file_path@,
                    item.file_size,
                    item.mtime,
                    item.fast_hash@,
                    affix_part_index(movie.part),
                    now,
                ));
                assert(exists|w: int|
                    0 <= w < store.spec_parts().len() && part_row_matches(
                        #[trigger] store.spec_parts()[w],
                        store.spec_versions()[vi].id,
                        item.file_path@,
                        item.file_size,
                        item.mtime,
                        item.fast_hash@,
                        affix_part_index(movie.part),
                        now,
                    )) by {
                    assert(part_row_matches(
                        store.spec_parts()[pt],
                        store.spec_versions()[vi].id,
                        item.file_path@,
                        item.file_size,
                        item.mtime,
                        item.fast_hash@,
                        affix_part_index(movie.part),
                        now,
                    ));
                }
                assert(movie_chain(s0, *store, index_id, *item, *movie, now)) by {
                    assert(0 <= ti < store.spec_items().len() && crate::store::item_sp_match(
                        store.spec_items()[ti],
                        index_id as int,
                        movie.source_path@,
                    ));
                    assert(0 <= vi < store.spec_versions().len()
                        && store.spec_versions()[vi].item_id == store.spec_items()[ti].id
                        && opt_view_eq(store.spec_versions()[vi].edition, movie.version));
                }
                assert(s0 == *old(store));
                assert(movie_chain(*old(store), *store, index_id, *item, *movie, now));
                assert(s2.spec_parts() == s0.spec_parts());
                assert(store.spec_parts().subrange(0, s0.spec_parts().len() as int)
                    =~= s0.spec_parts());
                assert(one_part_added(
                    s0,
                    *store,
                    item.file_path@,
                    item.file_size,
                    item.mtime,
                    item.fast_hash@,
                ));
                assert(store.spec_next_id() <= s0.spec_next_id() + 5);
                assert(store.spec_items().len() >= s0.spec_items().len());
                assert(store.spec_versions().len() >= s0.spec_versions().len());
                assert(commit_growth(
                    s0,
                    *store,
                    item.file_path@,
                    item.file_size,
                    item.mtime,
                    item.fast_hash@,
                ));
                assert(commit_growth(
                    *old(store),
                    *store,
                    item.file_path@,
                    item.file_size,
                    item.mtime,
                    item.fast_hash@,
                ));
                assert(store.spec_items().subrange(0, s0.spec_items().len() as int)
                    =~= s0.spec_items());
                assert(store.spec_versions().subrange(0, s0.spec_versions().len() as int)
                    =~= s0.spec_versions());
            }
            Ok(())
        },
        Err(e) => Err(e),
    }
}

/// Commit one buffered TV episode file: show, season and episode are
/// reused or created in that order, then the version and part recorded.
#[verifier::rlimit(60)]
pub fn process_temp_tv_episode(
    store: &mut MediaStore,
    index_id: i64,
    item: &TempVideoItem,
    tv: &TvEpisodeInfo,
    now: i64,
) -> (r: Result<(), ScanError>)
    requires
        old(store).wf(),
    ensures
        final(store).wf(),
        final(store).spec_indexes() == old(store).spec_indexes(),
        final(store).spec_parts().len() >= old(store).spec_parts().len(),
        forall|w: int|
            0 <= w < old(store).spec_parts().len() ==> (#[trigger] final(store).spec_parts()[w])
                == old(store).spec_parts()[w],
        (crate::store::has_index_id(old(store).spec_indexes(), index_id as int)
            && crate::store::key_free_view(
            old(store).spec_parts(),
            item.file_size as int,
            item.fast_hash@,
        ) && old(store).spec_next_id() + 5 < i64::MAX) ==> r is Ok,
        match r {
            Ok(_) => tv_chain(*old(store), *final(store), index_id, *item, *tv, now)
                && commit_growth(
                *old(store),
                *final(store),
                item.file_path@,
                item.file_size,
                item.mtime,
                item.fast_hash@,
            ),
            Err(_) => true,
        },
{
    let ghost s0 = *store;
    let ghost fresh = no_item_at_sp(s0, index_id, tv.source_path@);
    let show_id = match upsert_item_by_source_path(
        store,
        index_id,
        ItemKind::Show,
        tv.show_name.as_str(),
        tv.source_path.as_str(),
        None,
        now,
    ) {
        Ok(id) => id,
        Err(e) => {
            return Err(e);
        },
    };
    let ghost s1 = *store;
    let ghost si = choose|t: int|
        0 <= t < s1.spec_items().len() && (#[trigger] s1.spec_items()[t]).id == show_id
            && crate::store::item_sp_match(s1.spec_items()[t], index_id as int, tv.source_path@)
            && (fresh ==> t == s0.spec_items().len() && show_id == s0.spec_next_id()
            && s1.spec_next_id() == s0.spec_next_id() + 1 && s1.spec_items().len()
            == s0.spec_items().len() + 1 && s1.spec_items()[t].kind == ItemKind::Show
            && s1.spec_items()[t].title@ == tv.show_name@ && s1.spec_items()[t].parent_id is None
            && s1.spec_items()[t].number is None && s1.spec_items()[t].index_id == index_id);
    proof {
        if fresh {
            assert forall|t: int|
                0 <= t < s1.spec_items().len() implies !crate::store::item_pn_match(
                #[trigger] s1.spec_items()[t],
                show_id as int,
                tv.season as int,
            ) by {
                if t < s0.spec_items().len() {
                    assert(s1.spec_items()[t] == s0.spec_items()[t]);
                    let it = s0.spec_items()[t];
                    if it.parent_id is Some && it.parent_id->0 == show_id {
                        assert(crate::store::parent_ok(s0.spec_items(), it));
                        let w = choose|w: int|
                            0 <= w < s0.spec_items().len() && (#[trigger] s0.spec_items()[w]).id
                                == it.parent_id->0 && s0.spec_items()[w].index_id == it.index_id;
                        assert(s0.spec_items()[w].id < s0.spec_next_id());
                        assert(false);
                    }
                } else {
                    assert(t == si);
                }
            }
            assert(no_item_at_pn(s1, show_id, tv.season as i64));
        }
    }
    let stitle = season_title(tv.season as i64);
    let season_id = match upsert_child_by_number(
        store,
        index_id,
        ItemKind::Season,
        stitle,
        show_id,
        tv.season as i64,
        ItemMeta::empty(),
        now,
    ) {
        Ok(id) => id,
        Err(e) => {
            return Err(e);
        },
    };
    let etitle: String = match &tv.title {
        Some(t) => t.clone(),
        None => {
            match &tv.air_date {
                Some(a) => a.clone(),
                None => episode_fallback_title(tv.episode as i64),
            }
        },
    };
    let emeta = ItemMeta {
        air_date: match &tv.air_date {
            Some(a) => Some(a.clone()),
            None => None,
        },
        extra_type: None,
    };
    let ghost s2 = *store;
    let ghost sei = choose|t: int|
        0 <= t < s2.spec_items().len() && (#[trigger] s2.spec_items()[t]).id == season_id
            && crate::store::item_pn_match(s2.spec_items()[t], show_id as int, tv.season as int)
            && (fresh ==> t == s1.spec_items().len() && season_id == s1.spec_next_id()
            && s2.spec_next_id() == s1.spec_next_id() + 1 && s2.spec_items().len()
            == s1.spec_items().len() + 1 && s2.spec_items()[t].kind == ItemKind::Season
            && s2.spec_items()[t].title@ == season_title_seq(tv.season as int)
            && s2.spec_items()[t].parent_id == Some(show_id) && s2.spec_items()[t].number
            == Some(tv.season as i64) && s2.spec_items()[t].index_id == index_id);
    proof {
        if fresh {
            let sw = choose|t: int|
                0 <= t < s2.spec_items().len() && (#[trigger] s2.spec_items()[t]).id == season_id
                    && crate::store::item_pn_match(
                    s2.spec_items()[t],
                    show_id as int,
                    tv.season as int,
                ) && t == s1.spec_items().len() && season_id == s1.spec_next_id()
                    && s2.spec_items()[t].kind == ItemKind::Season;
            assert(sei == sw || s2.spec_items()[sei].id == s2.spec_items()[sw].id);
            assert forall|t: int|
                0 <= t < s2.spec_items().len() implies !crate::store::item_pn_match(
                #[trigger] s2.spec_items()[t],
                season_id as int,
                tv.episode as int,
            ) by {
                if t < s0.spec_items().len() {
                    assert(s2.spec_items()[t] == s0.spec_items()[t]);
                    let it = s0.spec_items()[t];
                    if it.parent_id is Some && it.parent_id->0 == season_id {
                        assert(crate::store::parent_ok(s0.spec_items(), it));
                        let w = choose|w: int|
                            0 <= w < s0.spec_items().len() && (#[trigger] s0.spec_items()[w]).id
                                == it.parent_id->0 && s0.spec_items()[w].index_id == it.index_id;
                        assert(s0.spec_items()[w].id < s0.spec_next_id());
                        assert(season_id == s0.spec_next_id() + 1);
                        assert(false);
                    }
                } else if t == s0.spec_items().len() {
                    assert(s2.spec_items()[t] == s1.spec_items()[t]);
                    assert(s1.spec_items()[si].number is None);
                } else {
                    assert(t == s1.spec_items().len());
                    assert(s2.spec_items()[t].parent_id == Some(show_id));
                    assert(show_id != season_id);
                }
            }
            assert(no_item_at_pn(s2, season_id, tv.episode as i64));
        }
    }
    let episode_id = match upsert_child_by_number(
        store,
        index_id,
        ItemKind::Episode,
        etitle,
        season_id,
        tv.episode as i64,
        emeta,
        now,
    ) {
        Ok(id) => id,
        Err(e) => {
            return Err(e);
        },
    };
    let ghost s3 = *store;
    let ghost ei = choose|t: int|
        0 <= t < s3.spec_items().len() && (#[trigger] s3.spec_items()[t]).id == episode_id
            && crate::store::item_pn_match(
            s3.spec_items()[t],
            season_id as int,
            tv.episode as int,
        ) && (fresh ==> s3.spec_items()[t].kind == ItemKind::Episode && s3.spec_items()[t].title@
            == episode_title_choice(*tv) && opt_view_eq(
            s3.spec_items()[t].metadata.air_date,
            tv.air_date,
        ) && s3.spec_items()[t].index_id == index_id);
    let version_id = match upsert_version_by_edition(store, episode_id, &tv.version, now) {
        Ok(id) => id,
        Err(e) => {
            return Err(e);
        },
    };
    let ghost s4 = *store;
    let ghost vi = choose|v: int|
        0 <= v < s4.spec_versions().len() && (#[trigger] s4.spec_versions()[v]).id == version_id
            && s4.spec_versions()[v].item_id == episode_id && opt_view_eq(
            s4.spec_versions()[v].edition,
            tv.version,
        );
    let part_index: i64 = match tv.part {
        Some(p) => p as i64,
        None => 0,
    };
    match insert_part(
        store,
        version_id,
        item.file_path.as_str(),
        item.file_size,
        item.mtime,
        part_index,
        item.fast_hash.as_str(),
        now,
    ) {
        Ok(_) => {
            proof {
                assert(store.spec_items() == s4.spec_items());
                assert(s4.spec_items() == s3.spec_items());
                assert(store.spec_versions() == s4.spec_versions());
                assert(0 <= si < s1.spec_items().len());
                assert(s2.spec_items()[si] == s1.spec_items()[si]);
                assert(s3.spec_items()[si] == s2.spec_items()[si]);
                assert(0 <= sei < s2.spec_items().len());
                assert(s3.spec_items()[sei] == s2.spec_items()[sei]);
                let pt = store.spec_parts().len() - 1;
                assert(store.spec_parts()[pt] == store.spec_parts().last());
                assert(affix_part_index(tv.part) == (match tv.part {
                    Some(p) => p as i64,
                    None => 0i64,
                }));
                assert(part_row_matches(
                    store.spec_parts()[pt],
                    store.spec_versions()[vi].id,
                    item.file_path@,
                    item.file_size,
                    item.mtime,
                    item.fast_hash@,
                    affix_part_index(tv.part),
                    now,
                ));
                assert(tv_chain(s0, *store, index_id, *item, *tv, now)) by {
                    assert(crate::store::item_sp_match(
                        store.spec_items()[si],
                        index_id as int,
                        tv.source_path@,
                    ));
                    assert(crate::store::item_pn_match(
                        store.spec_items()[sei],
                        store.spec_items()[si].id as int,
                        tv.season as int,
                    ));
                    assert(crate::store::item_pn_match(
                        store.spec_items()[ei],
                        store.spec_items()[sei].id as int,
                        tv.episode as int,
                    ));
                    assert(store.spec_versions()[vi].item_id == store.spec_items()[ei].id);
                }
                assert(s0 == *old(store));
                assert(store.spec_items().subrange(0, s0.spec_items().len() as int)
                    =~= s0.spec_items());
                assert(store.spec_versions().subrange(0, s0.spec_versions().len() as int)
                    =~= s0.spec_versions());
                assert(s4.spec_parts() == s0.spec_parts());
                assert(one_part_added(
                    s0,
                    *store,
                    item.file_path@,
                    item.file_size,
                    item.mtime,
                    item.fast_hash@,
                ));
                assert(commit_growth(
                    s0,
                    *store,
                    item.file_path@,
                    item.file_size,
                    item.mtime,
                    item.fast_hash@,
                ));
            }
            Ok(())
        },
        Err(e) => Err(e),
    }
}

/// Commit one buffered generic video: reuse an item with the same title or
/// create one, then record a fresh version and the part.
#[verifier::rlimit(60)]
pub fn process_temp_generic(
    store: &mut MediaStore,
    index_id: i64,
    item: &TempVideoItem,
    generic: &GenericInfo,
    now: i64,
) -> (r: Result<(), ScanError>)
    requires
        old(store).wf(),
    ensures
        final(store).wf(),
        final(store).spec_indexes() == old(store).spec_indexes(),
        final(store).spec_parts().len() >= old(store).spec_parts().len(),
        forall|w: int|
            0 <= w < old(store).spec_parts().len() ==> (#[trigger] final(store).spec_parts()[w])
                == old(store).spec_parts()[w],
        (crate::store::has_index_id(old(store).spec_indexes(), index_id as int)
            && crate::store::key_free_view(
            old(store).spec_parts(),
            item.file_size as int,
            item.fast_hash@,
        ) && old(store).spec_next_id() + 3 < i64::MAX) ==> r is Ok,
        match r {
            Ok(_) => generic_chain(*old(store), *final(store), index_id, *item, *generic, now)
                && commit_growth(
                *old(store),
                *final(store),
                item.file_path@,
                item.file_size,
                item.mtime,
                item.fast_hash@,
            ),
            Err(_) => true,
        },
{
    let ghost s0 = *store;
    let existing = store.get_video_items_by_title(index_id, generic.title.as_str());
    let item_id = if existing.len() > 0 {
        let id = existing[0].id;
        proof {
            let x = existing@[0];
            let t = choose|t: int|
                0 <= t < store.spec_items().len() && store.spec_items()[t] == x;
            assert(store.spec_items()[t].id == id);
            assert(!no_item_titled(s0, index_id, generic.title@));
        }
        id
    } else {
        match store.add_video_item(
            index_id,
            ItemKind::Video,
            generic.title.clone(),
            None,
            None,
            None,
            None,
            ItemMeta::empty(),
            now,
        ) {
            Ok(id) => {
                proof {
                    let n = store.spec_items().len() - 1;
                    assert(store.spec_items()[n].id == id);
                }
                id
            },
            Err(e) => {
                return Err(store_err(e));
            },
        }
    };
    let ghost s1 = *store;
    let ghost ti = choose|t: int|
        0 <= t < s1.spec_items().len() && (#[trigger] s1.spec_items()[t]).id == item_id
            && s1.spec_items()[t].index_id == index_id && s1.spec_items()[t].title@
            == generic.title@ && (no_item_titled(s0, index_id, generic.title@)
            ==> s1.spec_items()[t].kind == ItemKind::Video && s1.spec_items()[t].parent_id
            is None);
    let version_id = match store.add_video_version_with_params(
        item_id,
        None,
        None,
        None,
        None,
        false,
        None,
        None,
        None,
        None,
        now,
    ) {
        Ok(id) => id,
        Err(e) => {
            return Err(store_err(e));
        },
    };
    let ghost s2 = *store;
    let ghost vi = s2.spec_versions().len() - 1;
    match insert_part(
        store,
        version_id,
        item.file_path.as_str(),
        item.file_size,
        item.mtime,
        0,
        item.fast_hash.as_str(),
        now,
    ) {
        Ok(_) => {
            proof {
                assert(store.spec_items() == s2.spec_items());
                assert(s2.spec_items() == s1.spec_items());
                assert(store.spec_versions() == s2.spec_versions());
                assert(s2.spec_versions()[vi].id == version_id);
                assert(s2.spec_versions()[vi].item_id == item_id);
                assert(s2.spec_versions()[vi].edition is None);
                let pt = store.spec_parts().len() - 1;
                assert(store.spec_parts()[pt] == store.spec_parts().last());
                assert(part_row_matches(
                    store.spec_parts()[pt],
                    store.spec_versions()[vi].id,
                    item.file_path@,
                    item.file_size,
                    item.mtime,
                    item.fast_hash@,
                    0,
                    now,
                ));
                assert(generic_chain(s0, *store, index_id, *item, *generic, now)) by {
                    assert(0 <= ti < store.spec_items().len());
                    assert(store.spec_versions()[vi].item_id == store.spec_items()[ti].id);
                }
                assert(s0 == *old(store));
                assert(store.spec_items().subrange(0, s0.spec_items().len() as int)
                    =~= s0.spec_items());
                assert(store.spec_versions().subrange(0, s0.spec_versions().len() as int)
                    =~= s0.spec_versions());
                assert(s2.spec_parts() == s0.spec_parts());
                assert(one_part_added(
                    s0,
                    *store,
                    item.file_path@,
                    item.file_size,
                    item.mtime,
                    item.fast_hash@,
                ));
                assert(commit_growth(
                    s0,
                    *store,
                    item.file_path@,
                    item.file_size,
                    item.mtime,
                    item.fast_hash@,
                ));
            }
            Ok(())
        },
        Err(e) => Err(e),
    }
}

// ---------- extras ----------

/// A committed extra: a fresh item of kind extra under the given parent,
/// carrying the display title and the extra type, with one edition-less
/// version holding the file's part.
pub open spec fn extra_child_chain(
    post: MediaStore,
    index_id: i64,
    parent_id: i64,
    title: Seq<char>,
    extra_type: Seq<char>,
    item: TempExtraItem,
    now: i64,
) -> bool {
    exists|t: int|
        {
            &&& 0 <= t < post.spec_items().len()
            &&& (#[trigger] post.spec_items()[t]).kind == ItemKind::Extra
            &&& post.spec_items()[t].parent_id == Some(parent_id)
            &&& post.spec_items()[t].title@ == title
            &&& post.spec_items()[t].metadata.extra_type is Some
            &&& post.spec_items()[t].metadata.extra_type->0@ == extra_type
            &&& post.spec_items()[t].index_id == index_id
            &&& exists|v: int|
                {
                    &&& 0 <= v < post.spec_versions().len()
                    &&& (#[trigger] post.spec_versions()[v]).item_id == post.spec_items()[t].id
                    &&& post.spec_versions()[v].edition is None
                    &&& exists|pt: int|
                        0 <= pt < post.spec_parts().len() && part_row_matches(
                            #[trigger] post.spec_parts()[pt],
                            post.spec_versions()[v].id,
                            item.file_path@,
                            item.file_size,
                            item.mtime,
                            item.fast_hash@,
                            0,
                            now,
                        )
                }
        }
}

/// An extra committed as a plain generic video: a fresh item named after
/// its file, with one version and the file's part.
pub open spec fn extra_generic_chain(
    post: MediaStore,
    index_id: i64,
    item: TempExtraItem,
    now: i64,
) -> bool {
    exists|t: int|
        {
            &&& 0 <= t < post.spec_items().len()
            &&& (#[trigger] post.spec_items()[t]).kind == ItemKind::Video
            &&& post.spec_items()[t].parent_id is None
            &&& post.spec_items()[t].title@ == crate::classifier::spec_filename(item.extra.path@)
            &&& post.spec_items()[t].index_id == index_id
            &&& exists|v: int|
                {
                    &&& 0 <= v < post.spec_versions().len()
                    &&& (#[trigger] post.spec_versions()[v]).item_id == post.spec_items()[t].id
                    &&& post.spec_versions()[v].edition is None
                    &&& exists|pt: int|
                        0 <= pt < post.spec_parts().len() && part_row_matches(
                            #[trigger] post.spec_parts()[pt],
                            post.spec_versions()[v].id,
                            item.file_path@,
                            item.file_size,
                            item.mtime,
                            item.fast_hash@,
                            0,
                            now,
                        )
                }
        }
}

/// The parent a show extra attaches to: the episode found under the season
/// found under the show by their numbers, the season when no episode hint
/// or row exists, and the show itself otherwise.
pub open spec fn chosen_extra_parent(
    pre: MediaStore,
    show_id: i64,
    season: Option<int>,
    episode: Option<int>,
    chosen: i64,
) -> bool {
    match season {
        None => chosen == show_id,
        Some(s) => {
            if forall|t: int|
                0 <= t < pre.spec_items().len() ==> !crate::store::item_pn_match(
                    #[trigger] pre.spec_items()[t],
                    show_id as int,
                    s,
                ) {
                chosen == show_id
            } else {
                exists|t: int|
                    {
                        &&& 0 <= t < pre.spec_items().len()
                        &&& crate::store::item_pn_match(
                            #[trigger] pre.spec_items()[t],
                            show_id as int,
                            s,
                        )
                        &&& (match episode {
                            None => chosen == pre.spec_items()[t].id,
                            Some(e) => {
                                if forall|u: int|
                                    0 <= u < pre.spec_items().len()
                                        ==> !crate::store::item_pn_match(
                                        #[trigger] pre.spec_items()[u],
                                        pre.spec_items()[t].id as int,
                                        e,
                                    ) {
                                    chosen == pre.spec_items()[t].id
                                } else {
                                    exists|u: int|
                                        0 <= u < pre.spec_items().len()
                                            && crate::store::item_pn_match(
                                            #[trigger] pre.spec_items()[u],
                                            pre.spec_items()[t].id as int,
                                            e,
                                        ) && chosen == pre.spec_items()[u].id
                                }
                            },
                        })
                    }
            }
        },
    }
}

/// Attach a classified extra under a parent item with its type recorded.
fn insert_extra_under(
    store: &mut MediaStore,
    index_id: i64,
    parent_item_id: i64,
    title: String,
    extra_type: String,
    item: &TempExtraItem,
    now: i64,
) -> (r: Result<(), ScanError>)
    requires
        old(store).wf(),
    ensures
        final(store).wf(),
        final(store).spec_indexes() == old(store).spec_indexes(),
        final(store).spec_parts().len() >= old(store).spec_parts().len(),
        forall|w: int|
            0 <= w < old(store).spec_parts().len() ==> (#[trigger] final(store).spec_parts()[w])
                == old(store).spec_parts()[w],
        ((exists|t: int|
            0 <= t < old(store).spec_items().len() && (#[trigger] old(store).spec_items()[t]).id
                == parent_item_id && old(store).spec_items()[t].index_id == index_id)
            && crate::store::key_free_view(
            old(store).spec_parts(),
            item.file_size as int,
            item.fast_hash@,
        ) && old(store).spec_next_id() + 3 < i64::MAX) ==> r is Ok,
        match r {
            Ok(_) => extra_child_chain(
                *final(store),
                index_id,
                parent_item_id,
                title@,
                extra_type@,
                *item,
                now,
            ) && commit_growth(
                *old(store),
                *final(store),
                item.file_path@,
                item.file_size,
                item.mtime,
                item.fast_hash@,
            ),
            Err(_) => true,
        },
{
    let ghost s0 = *store;
    let title_copy = title.clone();
    let extra_type_copy = extra_type.clone();
    let meta = ItemMeta { air_date: None, extra_type: Some(extra_type) };
    let extra_item_id = match store.add_video_item(
        index_id,
        ItemKind::Extra,
        title_copy,
        Some(parent_item_id),
        None,
        None,
        None,
        meta,
        now,
    ) {
        Ok(id) => id,
        Err(e) => {
            return Err(store_err(e));
        },
    };
    let ghost s1 = *store;
    let ghost s1_extra_item_pos = s1.spec_items().len() - 1;
    proof {
        assert(s1.spec_items()[s1_extra_item_pos].id == extra_item_id);
        assert(s1.spec_items()[s1_extra_item_pos].kind == ItemKind::Extra);
        assert(s1.spec_items()[s1_extra_item_pos].title@ == title@);
        assert(s1.spec_items()[s1_extra_item_pos].metadata.extra_type is Some
            && s1.spec_items()[s1_extra_item_pos].metadata.extra_type->0@ == extra_type@);
    }
    let version_id = match store.add_video_version_with_params(
        extra_item_id,
        None,
        None,
        None,
        None,
        false,
        None,
        None,
        None,
        None,
        now,
    ) {
        Ok(id) => id,
        Err(e) => {
            return Err(store_err(e));
        },
    };
    let ghost s2 = *store;
    let ghost ti = s1_extra_item_pos;
    let ghost vi = s2.spec_versions().len() - 1;
    match insert_part(
        store,
        version_id,
        item.file_path.as_str(),
        item.file_size,
        item.mtime,
        0,
        item.fast_hash.as_str(),
        now,
    ) {
        Ok(_) => {
            proof {
                assert(store.spec_items() == s2.spec_items());
                assert(s2.spec_items() == s1.spec_items());
                assert(store.spec_versions() == s2.spec_versions());
                assert(s2.spec_versions()[vi].id == version_id);
                assert(s2.spec_versions()[vi].item_id == extra_item_id);
                assert(s2.spec_versions()[vi].edition is None);
                let pt = store.spec_parts().len() - 1;
                assert(store.spec_parts()[pt] == store.spec_parts().last());
                assert(part_row_matches(
                    store.spec_parts()[pt],
                    store.spec_versions()[vi].id,
                    item.file_path@,
                    item.file_size,
                    item.mtime,
                    item.fast_hash@,
                    0,
                    now,
                ));
                assert(extra_child_chain(
                    *store,
                    index_id,
                    parent_item_id,
                    title@,
                    extra_type@,
                    *item,
                    now,
                )) by {
                    assert(0 <= ti < store.spec_items().len());
                    assert(store.spec_items()[ti].id == extra_item_id);
                    assert(store.spec_versions()[vi].item_id == store.spec_items()[ti].id);
                }
                assert(s0 == *old(store));
                assert(store.spec_items().subrange(0, s0.spec_items().len() as int)
                    =~= s0.spec_items());
                assert(store.spec_versions().subrange(0, s0.spec_versions().len() as int)
                    =~= s0.spec_versions());
                assert(s2.spec_parts() == s0.spec_parts());
                assert(one_part_added(
                    s0,
                    *store,
                    item.file_path@,
                    item.file_size,
                    item.mtime,
                    item.fast_hash@,
                ));
                assert(commit_growth(
                    s0,
                    *store,
                    item.file_path@,
                    item.file_size,
                    item.mtime,
                    item.fast_hash@,
                ));
            }
            Ok(())
        },
        Err(e) => Err(e),
    }
}

/// Commit an extra as a child of a movie.
pub fn process_temp_movie_extra(
    store: &mut MediaStore,
    index_id: i64,
    me: crate::classifier::MovieExtra,
    parent_item_id: i64,
    item: &TempExtraItem,
    now: i64,
) -> (r: Result<(), ScanError>)
    requires
        old(store).wf(),
    ensures
        final(store).wf(),
        final(store).spec_indexes() == old(store).spec_indexes(),
        final(store).spec_parts().len() >= old(store).spec_parts().len(),
        forall|w: int|
            0 <= w < old(store).spec_parts().len() ==> (#[trigger] final(store).spec_parts()[w])
                == old(store).spec_parts()[w],
        ((exists|t: int|
            0 <= t < old(store).spec_items().len() && (#[trigger] old(store).spec_items()[t]).id
                == parent_item_id && old(store).spec_items()[t].index_id == index_id)
            && crate::store::key_free_view(
            old(store).spec_parts(),
            item.file_size as int,
            item.fast_hash@,
        ) && old(store).spec_next_id() + 3 < i64::MAX) ==> r is Ok,
        match r {
            Ok(_) => extra_child_chain(
                *final(store),
                index_id,
                parent_item_id,
                me.title@,
                me.extra_type@,
                *item,
                now,
            ) && commit_growth(
                *old(store),
                *final(store),
                item.file_path@,
                item.file_size,
                item.mtime,
                item.fast_hash@,
            ),
            Err(_) => true,
        },
{
    insert_extra_under(store, index_id, parent_item_id, me.title, me.extra_type, item, now)
}

/// Commit an extra under a show: the most specific of episode, season and
/// show that its folders name.
pub fn process_temp_show_extra(
    store: &mut MediaStore,
    index_id: i64,
    se: crate::classifier::ShowExtra,
    parent_item_id: i64,
    item: &TempExtraItem,
    now: i64,
) -> (r: Result<(), ScanError>)
    requires
        old(store).wf(),
    ensures
        final(store).wf(),
        final(store).spec_indexes() == old(store).spec_indexes(),
        final(store).spec_parts().len() >= old(store).spec_parts().len(),
        forall|w: int|
            0 <= w < old(store).spec_parts().len() ==> (#[trigger] final(store).spec_parts()[w])
                == old(store).spec_parts()[w],
        ((exists|t: int|
            0 <= t < old(store).spec_items().len() && (#[trigger] old(store).spec_items()[t]).id
                == parent_item_id && old(store).spec_items()[t].index_id == index_id)
            && crate::store::key_free_view(
            old(store).spec_parts(),
            item.file_size as int,
            item.fast_hash@,
        ) && old(store).spec_next_id() + 3 < i64::MAX) ==> r is Ok,
        match r {
            Ok(_) => exists|chosen: i64|
                chosen_extra_parent(
                    *old(store),
                    parent_item_id,
                    (match se.season {
                        Some(s) => Some(s as int),
                        None => None,
                    }),
                    (match se.episode {
                        Some(e) => Some(e as int),
                        None => None,
                    }),
                    chosen,
                ) && extra_child_chain(
                    *final(store),
                    index_id,
                    chosen,
                    se.title@,
                    se.extra_type@,
                    *item,
                    now,
                ) && commit_growth(
                    *old(store),
                    *final(store),
                    item.file_path@,
                    item.file_size,
                    item.mtime,
                    item.fast_hash@,
                ),
            Err(_) => true,
        },
{
    let ghost s0 = *store;
    let mut actual_parent = parent_item_id;
    match se.season {
        Some(season) => {
            let seasons = store.get_video_items_by_parent_and_number(
                parent_item_id,
                season as i64,
            );
            if seasons.len() > 0 {
                actual_parent = seasons[0].id;
                proof {
                    let x = seasons@[0];
                    let t = choose|t: int|
                        0 <= t < s0.spec_items().len() && s0.spec_items()[t] == x;
                    assert(crate::store::item_pn_match(
                        s0.spec_items()[t],
                        parent_item_id as int,
                        season as int,
                    ));
                    if exists|t0: int|
                        0 <= t0 < s0.spec_items().len() && (#[trigger] s0.spec_items()[t0]).id
                            == parent_item_id && s0.spec_items()[t0].index_id == index_id {
                        let t0 = choose|t0: int|
                            0 <= t0 < s0.spec_items().len() && (#[trigger] s0.spec_items()[t0]).id
                                == parent_item_id && s0.spec_items()[t0].index_id == index_id;
                        assert(crate::store::parent_ok(s0.spec_items(), s0.spec_items()[t]));
                        let w = choose|w: int|
                            0 <= w < s0.spec_items().len() && (#[trigger] s0.spec_items()[w]).id
                                == parent_item_id && s0.spec_items()[w].index_id
                                == s0.spec_items()[t].index_id;
                        if w != t0 {
                            if w < t0 {
                                assert(s0.spec_items()[w].id != s0.spec_items()[t0].id);
                            } else {
                                assert(s0.spec_items()[t0].id != s0.spec_items()[w].id);
                            }
                        }
                        assert(s0.spec_items()[t].index_id == index_id);
                        assert(exists|t1: int|
                            0 <= t1 < s0.spec_items().len() && (#[trigger] s0.spec_items()[t1]).id
                                == actual_parent && s0.spec_items()[t1].index_id == index_id) by {
                            assert(s0.spec_items()[t].id == actual_parent
                                && s0.spec_items()[t].index_id == index_id);
                        }
                    }
                }
                match se.episode {
                    Some(episode) => {
                        let episodes = store.get_video_items_by_parent_and_number(
                            actual_parent,
                            episode as i64,
                        );
                        if episodes.len() > 0 {
                            proof {
                                let x = episodes@[0];
                                let u = choose|u: int|
                                    0 <= u < s0.spec_items().len() && s0.spec_items()[u] == x;
                                assert(crate::store::item_pn_match(
                                    s0.spec_items()[u],
                                    actual_parent as int,
                                    episode as int,
                                ));
                                if exists|t1: int|
                                    0 <= t1 < s0.spec_items().len() && (
                                    #[trigger] s0.spec_items()[t1]).id == actual_parent
                                        && s0.spec_items()[t1].index_id == index_id {
                                    let t1 = choose|t1: int|
                                        0 <= t1 < s0.spec_items().len() && (
                                        #[trigger] s0.spec_items()[t1]).id == actual_parent
                                            && s0.spec_items()[t1].index_id == index_id;
                                    assert(crate::store::parent_ok(
                                        s0.spec_items(),
                                        s0.spec_items()[u],
                                    ));
                                    let w = choose|w: int|
                                        0 <= w < s0.spec_items().len() && (
                                        #[trigger] s0.spec_items()[w]).id == actual_parent
                                            && s0.spec_items()[w].index_id
                                            == s0.spec_items()[u].index_id;
                                    if w != t1 {
                                        if w < t1 {
                                            assert(s0.spec_items()[w].id
                                                != s0.spec_items()[t1].id);
                                        } else {
                                            assert(s0.spec_items()[t1].id
                                                != s0.spec_items()[w].id);
                                        }
                                    }
                                    assert(s0.spec_items()[u].index_id == index_id);
                                    assert(exists|t2: int|
                                        0 <= t2 < s0.spec_items().len() && (
                                        #[trigger] s0.spec_items()[t2]).id == episodes@[0].id
                                            && s0.spec_items()[t2].index_id == index_id) by {
                                        assert(s0.spec_items()[u].id == episodes@[0].id
                                            && s0.spec_items()[u].index_id == index_id);
                                    }
                                }
                            }
                            actual_parent = episodes[0].id;
                        }
                    },
                    None => {},
                }
            }
        },
        None => {},
    }
    let ghost season_spec: Option<int> = match se.season {
        Some(s) => Some(s as int),
        None => None,
    };
    let ghost episode_spec: Option<int> = match se.episode {
        Some(e) => Some(e as int),
        None => None,
    };
    proof {
        assert(chosen_extra_parent(s0, parent_item_id, season_spec, episode_spec, actual_parent));
    }
    insert_extra_under(store, index_id, actual_parent, se.title, se.extra_type, item, now)
}

/// Commit an extra that has no committed parent as a plain generic video
/// named after its file.
pub fn process_temp_generic_from_extra(
    store: &mut MediaStore,
    index_id: i64,
    item: &TempExtraItem,
    now: i64,
) -> (r: Result<(), ScanError>)
    requires
        old(store).wf(),
    ensures
        final(store).wf(),
        final(store).spec_indexes() == old(store).spec_indexes(),
        final(store).spec_parts().len() >= old(store).spec_parts().len(),
        forall|w: int|
            0 <= w < old(store).spec_parts().len() ==> (#[trigger] final(store).spec_parts()[w])
                == old(store).spec_parts()[w],
        (crate::store::has_index_id(old(store).spec_indexes(), index_id as int)
            && crate::store::key_free_view(
            old(store).spec_parts(),
            item.file_size as int,
            item.fast_hash@,
        ) && old(store).spec_next_id() + 3 < i64::MAX) ==> r is Ok,
        match r {
            Ok(_) => extra_generic_chain(*final(store), index_id, *item, now) && commit_growth(
                *old(store),
                *final(store),
                item.file_path@,
                item.file_size,
                item.mtime,
                item.fast_hash@,
            ),
            Err(_) => true,
        },
{
    let ghost s0 = *store;
    let pv = chars_of(item.extra.path.as_str());
    let parts = crate::classifier::parse_path(&pv);
    let title = string_of(&parts.filename);
    let item_id = match store.add_video_item(
        index_id,
        ItemKind::Video,
        title,
        None,
        None,
        None,
        None,
        ItemMeta::empty(),
        now,
    ) {
        Ok(id) => id,
        Err(e) => {
            return Err(store_err(e));
        },
    };
    let ghost s1 = *store;
    let ghost ti = s1.spec_items().len() - 1;
    let version_id = match store.add_video_version_with_params(
        item_id,
        None,
        None,
        None,
        None,
        false,
        None,
        None,
        None,
        None,
        now,
    ) {
        Ok(id) => id,
        Err(e) => {
            return Err(store_err(e));
        },
    };
    let ghost s2 = *store;
    let ghost vi = s2.spec_versions().len() - 1;
    match insert_part(
        store,
        version_id,
        item.file_path.as_str(),
        item.file_size,
        item.mtime,
        0,
        item.fast_hash.as_str(),
        now,
    ) {
        Ok(_) => {
            proof {
                assert(store.spec_items() == s2.spec_items());
                assert(s2.spec_items() == s1.spec_items());
                assert(store.spec_versions() == s2.spec_versions());
                assert(store.spec_items()[ti].id == item_id);
                assert(store.spec_items()[ti].kind == ItemKind::Video);
                assert(store.spec_items()[ti].title@ == crate::classifier::spec_filename(
                    item.extra.path@,
                ));
                assert(s2.spec_versions()[vi].id == version_id);
                assert(s2.spec_versions()[vi].item_id == item_id);
                let pt = store.spec_parts().len() - 1;
                assert(store.spec_parts()[pt] == store.spec_parts().last());
                assert(part_row_matches(
                    store.spec_parts()[pt],
                    store.spec_versions()[vi].id,
                    item.file_path@,
                    item.file_size,
                    item.mtime,
                    item.fast_hash@,
                    0,
                    now,
                ));
                assert(extra_generic_chain(*store, index_id, *item, now)) by {
                    assert(store.spec_versions()[vi].item_id == store.spec_items()[ti].id);
                }
                assert(s0 == *old(store));
                assert(store.spec_items().subrange(0, s0.spec_items().len() as int)
                    =~= s0.spec_items());
                assert(store.spec_versions().subrange(0, s0.spec_versions().len() as int)
                    =~= s0.spec_versions());
                assert(s2.spec_parts() == s0.spec_parts());
                assert(one_part_added(
                    s0,
                    *store,
                    item.file_path@,
                    item.file_size,
                    item.mtime,
                    item.fast_hash@,
                ));
                assert(commit_growth(
                    s0,
                    *store,
                    item.file_path@,
                    item.file_size,
                    item.mtime,
                    item.fast_hash@,
                ));
            }
            Ok(())
        },
        Err(e) => Err(e),
    }
}

/// Commit one buffered extra against the source path that just closed: not
/// under it, or with no item there, it becomes a generic video; under a
/// movie or a show it attaches to the right parent.
pub fn process_temp_extra_item(
    store: &mut MediaStore,
    index_id: i64,
    item: &TempExtraItem,
    committed_source_path: &str,
    now: i64,
) -> (r: Result<(), ScanError>)
    requires
        old(store).wf(),
    ensures
        final(store).wf(),
        final(store).spec_indexes() == old(store).spec_indexes(),
        final(store).spec_parts().len() >= old(store).spec_parts().len(),
        forall|w: int|
            0 <= w < old(store).spec_parts().len() ==> (#[trigger] final(store).spec_parts()[w])
                == old(store).spec_parts()[w],
        (crate::store::has_index_id(old(store).spec_indexes(), index_id as int)
            && crate::store::key_free_view(
            old(store).spec_parts(),
            item.file_size as int,
            item.fast_hash@,
        ) && old(store).spec_next_id() + 3 < i64::MAX) ==> r is Ok,
        match r {
            Ok(_) => commit_growth(
                *old(store),
                *final(store),
                item.file_path@,
                item.file_size,
                item.mtime,
                item.fast_hash@,
            ) && (if !(committed_source_path@.len() > 0 && crate::text::contains_seq(
                item.extra.path@,
                committed_source_path@,
            )) || no_item_at_sp(*old(store), index_id, committed_source_path@) {
                extra_generic_chain(*final(store), index_id, *item, now)
            } else {
                exists|t: int|
                    {
                        &&& 0 <= t < old(store).spec_items().len()
                        &&& crate::store::item_sp_match(
                            #[trigger] old(store).spec_items()[t],
                            index_id as int,
                            committed_source_path@,
                        )
                        &&& (if old(store).spec_items()[t].kind == ItemKind::Movie {
                            extra_child_chain(
                                *final(store),
                                index_id,
                                old(store).spec_items()[t].id,
                                crate::classifier::extra_title_of(
                                    crate::classifier::spec_stem(item.extra.path@),
                                ),
                                item.extra.extra_type@,
                                *item,
                                now,
                            )
                        } else if old(store).spec_items()[t].kind == ItemKind::Show {
                            exists|chosen: i64|
                                chosen_extra_parent(
                                    *old(store),
                                    old(store).spec_items()[t].id,
                                    crate::classifier::show_extra_se(
                                        crate::classifier::spec_folders(item.extra.path@),
                                        4,
                                    ).0,
                                    crate::classifier::show_extra_se(
                                        crate::classifier::spec_folders(item.extra.path@),
                                        4,
                                    ).1,
                                    chosen,
                                ) && extra_child_chain(
                                    *final(store),
                                    index_id,
                                    chosen,
                                    crate::classifier::extra_title_of(
                                        crate::classifier::spec_stem(item.extra.path@),
                                    ),
                                    item.extra.extra_type@,
                                    *item,
                                    now,
                                )
                        } else {
                            extra_generic_chain(*final(store), index_id, *item, now)
                        })
                    }
            }),
            Err(_) => true,
        },
{
    let ghost s0 = *store;
    let spv = chars_of(committed_source_path);
    let pathv = chars_of(item.extra.path.as_str());
    if spv.len() == 0 || !contains_vec(&pathv, &spv) {
        return process_temp_generic_from_extra(store, index_id, item, now);
    }
    let existing = store.get_video_items_by_source_path(index_id, committed_source_path);
    if existing.len() == 0 {
        proof {
            assert(no_item_at_sp(s0, index_id, committed_source_path@));
        }
        return process_temp_generic_from_extra(store, index_id, item, now);
    }
    let parent_id = existing[0].id;
    let parent_kind = existing[0].kind;
    let ghost ti = choose|t: int|
        0 <= t < s0.spec_items().len() && s0.spec_items()[t] == existing@[0];
    proof {
        assert(crate::store::item_sp_match(
            s0.spec_items()[ti],
            index_id as int,
            committed_source_path@,
        ));
        assert(s0.spec_items()[ti].kind == parent_kind);
        assert(s0.spec_items()[ti].id == parent_id);
    }
    if kind_is(parent_kind, ItemKind::Movie) {
        match crate::classifier::classify_movie_extra(&item.extra, committed_source_path) {
            Some(me) => {
                let r = process_temp_movie_extra(store, index_id, me, parent_id, item, now);
                proof {
                    if r is Ok {
                        assert(0 <= ti < s0.spec_items().len());
                    }
                }
                r
            },
            None => {
                proof {
                    assert(false);
                }
                Ok(())
            },
        }
    } else if kind_is(parent_kind, ItemKind::Show) {
        match crate::classifier::classify_show_extra(&item.extra, committed_source_path) {
            Some(se) => {
                let ghost se_spec = crate::classifier::show_extra_se(
                    crate::classifier::spec_folders(item.extra.path@),
                    4,
                );
                proof {
                    assert((match se.season {
                        Some(s) => Some(s as int),
                        None => None::<int>,
                    }) == se_spec.0);
                    assert((match se.episode {
                        Some(e) => Some(e as int),
                        None => None::<int>,
                    }) == se_spec.1);
                }
                process_temp_show_extra(store, index_id, se, parent_id, item, now)
            },
            None => {
                proof {
                    assert(false);
                }
                Ok(())
            },
        }
    } else {
        process_temp_generic_from_extra(store, index_id, item, now)
    }
}

fn kind_is(a: ItemKind, b: ItemKind) -> (r: bool)
    ensures
        r == (a == b),
{
    a == b
}

impl TempFileManager {
    /// One buffered new-content record.
    pub fn item_at(&self, i: usize) -> (r: &TempVideoItem)
        requires
            i < self.spec_new_content().len(),
        ensures
            *r == self.spec_new_content()[i as int],
    {
        &self.new_content_items[i]
    }

    /// One buffered extra record.
    pub fn extra_at(&self, i: usize) -> (r: &TempExtraItem)
        requires
            i < self.spec_extras().len(),
        ensures
            *r == self.spec_extras()[i as int],
    {
        &self.extra_items[i]
    }
}

/// Commit a buffered new-content record of any kind.
pub fn process_temp_video_item(
    store: &mut MediaStore,
    index_id: i64,
    item: &TempVideoItem,
    now: i64,
) -> (r: Result<(), ScanError>)
    requires
        old(store).wf(),
    ensures
        final(store).wf(),
        final(store).spec_indexes() == old(store).spec_indexes(),
        final(store).spec_parts().len() >= old(store).spec_parts().len(),
        forall|w: int|
            0 <= w < old(store).spec_parts().len() ==> (#[trigger] final(store).spec_parts()[w])
                == old(store).spec_parts()[w],
        ((temp_record_wf(*item) && crate::store::has_index_id(
            old(store).spec_indexes(),
            index_id as int,
        ) && crate::store::key_free_view(
            old(store).spec_parts(),
            item.file_size as int,
            item.fast_hash@,
        ) && old(store).spec_next_id() + 5 < i64::MAX) ==> r is Ok),
        match r {
            Ok(_) => {
                &&& (temp_record_wf(*item) ==> commit_growth(
                    *old(store),
                    *final(store),
                    item.file_path@,
                    item.file_size,
                    item.mtime,
                    item.fast_hash@,
                ) && (match item.media_type {
                    MediaType::Movie => movie_chain(
                        *old(store),
                        *final(store),
                        index_id,
                        *item,
                        item.movie->Some_0,
                        now,
                    ),
                    MediaType::TvEpisode => tv_chain(
                        *old(store),
                        *final(store),
                        index_id,
                        *item,
                        item.tv_episode->Some_0,
                        now,
                    ),
                    MediaType::Generic => generic_chain(
                        *old(store),
                        *final(store),
                        index_id,
                        *item,
                        item.generic->Some_0,
                        now,
                    ),
                    MediaType::Extra => false,
                }))
                &&& (!temp_record_wf(*item) ==> final(store).unchanged(old(store)))
            },
            Err(_) => true,
        },
{
    match item.media_type {
        MediaType::Movie => {
            match &item.movie {
                Some(m) => process_temp_movie(store, index_id, item, m, now),
                None => Ok(()),
            }
        },
        MediaType::TvEpisode => {
            match &item.tv_episode {
                Some(tv) => process_temp_tv_episode(store, index_id, item, tv, now),
                None => Ok(()),
            }
        },
        MediaType::Generic => {
            match &item.generic {
                Some(g) => process_temp_generic(store, index_id, item, g, now),
                None => Ok(()),
            }
        },
        MediaType::Extra => Ok(()),
    }
}

/// All buffered content keys are pairwise distinct and absent from the
/// store: the condition under which a whole batch commit is owed success.
pub open spec fn batch_keys_ok(
    parts: Seq<VideoPart>,
    nc: Seq<TempVideoItem>,
    ex: Seq<TempExtraItem>,
) -> bool {
    &&& forall|q: int|
        0 <= q < nc.len() ==> crate::store::key_free_view(
            parts,
            (#[trigger] nc[q]).file_size as int,
            nc[q].fast_hash@,
        )
    &&& forall|q: int|
        0 <= q < ex.len() ==> crate::store::key_free_view(
            parts,
            (#[trigger] ex[q]).file_size as int,
            ex[q].fast_hash@,
        )
    &&& forall|a: int, b: int|
        0 <= a < b < nc.len() ==> !((#[trigger] nc[a]).file_size == (#[trigger] nc[b]).file_size
            && nc[a].fast_hash@ == nc[b].fast_hash@)
    &&& forall|a: int, b: int|
        0 <= a < b < ex.len() ==> !((#[trigger] ex[a]).file_size == (#[trigger] ex[b]).file_size
            && ex[a].fast_hash@ == ex[b].fast_hash@)
    &&& forall|a: int, b: int|
        0 <= a < nc.len() && 0 <= b < ex.len() ==> !((#[trigger] nc[a]).file_size == (
        #[trigger] ex[b]).file_size && nc[a].fast_hash@ == ex[b].fast_hash@)
}

/// Every coherent buffered record left a part with its path, size and hash.
pub open spec fn new_content_recorded(parts: Seq<VideoPart>, nc: Seq<TempVideoItem>) -> bool {
    forall|q: int|
        0 <= q < nc.len() && temp_record_wf(#[trigger] nc[q]) ==> exists|pt: int|
            0 <= pt < parts.len() && (#[trigger] parts[pt]).path@ == nc[q].file_path@
                && parts[pt].size == Some(nc[q].file_size) && parts[pt].fast_hash is Some
                && parts[pt].fast_hash->0@ == nc[q].fast_hash@
}

/// Every buffered extra left a part with its path, size and hash.
/// A part in the table carries this extra's path, size and hash.
pub open spec fn extra_part_recorded(parts: Seq<VideoPart>, x: TempExtraItem) -> bool {
    exists|pt: int|
        0 <= pt < parts.len() && (#[trigger] parts[pt]).path@ == x.file_path@ && parts[pt].size
            == Some(x.file_size) && parts[pt].fast_hash is Some && parts[pt].fast_hash->0@
            == x.fast_hash@
}

pub open spec fn extras_recorded(parts: Seq<VideoPart>, ex: Seq<TempExtraItem>) -> bool {
    forall|q: int| 0 <= q < ex.len() ==> extra_part_recorded(parts, #[trigger] ex[q])
}

/// Commit everything buffered: new content first, then extras, then clear
/// the buffers. When the index exists, every buffered record is coherent,
/// their content keys are fresh and distinct and ids have room, the whole
/// batch commits; and a committed batch leaves one part per record.
#[verifier::loop_isolation(false)]
#[verifier::rlimit(100)]
pub fn process_temp_files(
    store: &mut MediaStore,
    temp: &mut TempFileManager,
    index_id: i64,
    committed_source_path: &str,
    now: i64,
) -> (r: Result<(), ScanError>)
    requires
        old(store).wf(),
    ensures
        final(store).wf(),
        final(store).spec_indexes() == old(store).spec_indexes(),
        final(store).spec_parts().subrange(0, old(store).spec_parts().len() as int) == old(store).spec_parts(),
        final(store).spec_parts().len() >= old(store).spec_parts().len(),
        r is Ok ==> final(temp).spec_new_content().len() == 0 && final(temp).spec_extras().len()
            == 0,
        ((crate::store::has_index_id(old(store).spec_indexes(), index_id as int) && (forall|
            q: int,
        |
            0 <= q < old(temp).spec_new_content().len() ==> temp_record_wf(
                #[trigger] old(temp).spec_new_content()[q],
            )) && batch_keys_ok(
            old(store).spec_parts(),
            old(temp).spec_new_content(),
            old(temp).spec_extras(),
        ) && old(store).spec_next_id() + 5 * (old(temp).spec_new_content().len() + old(temp).spec_extras().len()) < i64::MAX) ==> r is Ok),
        r is Ok ==> new_content_recorded(
            final(store).spec_parts(),
            old(temp).spec_new_content(),
        ),
        r is Ok ==> extras_recorded(final(store).spec_parts(), old(temp).spec_extras()),
{
    let ghost s0 = *store;
    let ghost nc = old(temp).spec_new_content();
    let ghost ex = old(temp).spec_extras();
    let ghost hyp = crate::store::has_index_id(s0.spec_indexes(), index_id as int) && (forall|
        q: int,
    |
        0 <= q < nc.len() ==> temp_record_wf(#[trigger] nc[q])) && batch_keys_ok(
        s0.spec_parts(),
        nc,
        ex,
    ) && s0.spec_next_id() + 5 * (nc.len() + ex.len()) < i64::MAX;
    let n = temp.load_new_content();
    let mut i: usize = 0;
    while i < n
        invariant
            i <= n,
            n == temp.spec_new_content().len(),
            *temp == *old(temp),
            store.wf(),
            store.spec_indexes() == old(store).spec_indexes(),
            store.spec_parts().subrange(0, s0.spec_parts().len() as int) == s0.spec_parts(),
            store.spec_parts().len() >= s0.spec_parts().len(),
            forall|q: int|
                0 <= q < i && temp_record_wf(#[trigger] nc[q]) ==> exists|pt: int|
                    0 <= pt < store.spec_parts().len() && (
                    #[trigger] store.spec_parts()[pt]).path@ == nc[q].file_path@
                        && store.spec_parts()[pt].size == Some(nc[q].file_size)
                        && store.spec_parts()[pt].fast_hash is Some
                        && store.spec_parts()[pt].fast_hash->0@ == nc[q].fast_hash@,
            hyp ==> {
                &&& store.spec_next_id() <= s0.spec_next_id() + 5 * i
                &&& forall|q: int|
                    i <= q < nc.len() ==> crate::store::key_free_view(
                        store.spec_parts(),
                        (#[trigger] nc[q]).file_size as int,
                        nc[q].fast_hash@,
                    )
                &&& forall|q: int|
                    0 <= q < ex.len() ==> crate::store::key_free_view(
                        store.spec_parts(),
                        (#[trigger] ex[q]).file_size as int,
                        ex[q].fast_hash@,
                    )
            },
        decreases n - i,
    {
        let ghost pre = *store;
        let item = temp.item_at(i);
        let item2 = item.clone();
        proof {
            if hyp {
                assert(crate::store::key_free_view(
                    pre.spec_parts(),
                    nc[i as int].file_size as int,
                    nc[i as int].fast_hash@,
                ));
                assert(pre.spec_next_id() + 5 < i64::MAX) by {
                    assert(pre.spec_next_id() <= s0.spec_next_id() + 5 * (i as int));
                    assert(5 * (i as int) + 5 <= 5 * (nc.len() + ex.len())) by (nonlinear_arith)
                        requires
                            0 <= i as int,
                            (i as int) < nc.len(),
                            ex.len() >= 0,
                    ;
                }
            }
        }
        match process_temp_video_item(store, index_id, item, now) {
            Ok(_) => {},
            Err(e) => {
                return Err(e);
            },
        }
        proof {
            if temp_record_wf(nc[i as int]) {
                let grown = commit_growth(
                    pre,
                    *store,
                    nc[i as int].file_path@,
                    nc[i as int].file_size,
                    nc[i as int].mtime,
                    nc[i as int].fast_hash@,
                );
                assert(grown);
                assert(store.spec_parts().subrange(0, s0.spec_parts().len() as int)
                    =~= s0.spec_parts());
            } else {
                assert(store.spec_parts() == pre.spec_parts());
            }
            assert forall|q: int|
                0 <= q < i + 1 && temp_record_wf(#[trigger] nc[q]) implies exists|pt: int|
                0 <= pt < store.spec_parts().len() && (#[trigger] store.spec_parts()[pt]).path@
                    == nc[q].file_path@ && store.spec_parts()[pt].size == Some(nc[q].file_size)
                    && store.spec_parts()[pt].fast_hash is Some
                    && store.spec_parts()[pt].fast_hash->0@ == nc[q].fast_hash@ by {
                if q < i {
                    let pt = choose|pt: int|
                        0 <= pt < pre.spec_parts().len() && (#[trigger] pre.spec_parts()[pt]).path@
                            == nc[q].file_path@ && pre.spec_parts()[pt].size == Some(
                            nc[q].file_size,
                        ) && pre.spec_parts()[pt].fast_hash is Some
                            && pre.spec_parts()[pt].fast_hash->0@ == nc[q].fast_hash@;
                    assert(store.spec_parts()[pt] == pre.spec_parts()[pt]);
                } else {
                    let pt = store.spec_parts().len() - 1;
                    assert(store.spec_parts()[pt].path@ == nc[q].file_path@);
                }
            }
            if hyp {
                assert forall|q: int|
                    i + 1 <= q < nc.len() implies crate::store::key_free_view(
                    store.spec_parts(),
                    (#[trigger] nc[q]).file_size as int,
                    nc[q].fast_hash@,
                ) by {
                    assert forall|w: int|
                        0 <= w < store.spec_parts().len() implies !crate::store::part_key_match(
                        #[trigger] store.spec_parts()[w],
                        nc[q].file_size as int,
                        nc[q].fast_hash@,
                    ) by {
                        if w < pre.spec_parts().len() {
                            assert(store.spec_parts()[w] == pre.spec_parts()[w]);
                        } else {
                            assert(store.spec_parts()[w].size == Some(nc[i as int].file_size));
                            assert(store.spec_parts()[w].fast_hash->0@ == nc[i as int].fast_hash@);
                        }
                    }
                }
                assert forall|q: int|
                    0 <= q < ex.len() implies crate::store::key_free_view(
                    store.spec_parts(),
                    (#[trigger] ex[q]).file_size as int,
                    ex[q].fast_hash@,
                ) by {
                    assert forall|w: int|
                        0 <= w < store.spec_parts().len() implies !crate::store::part_key_match(
                        #[trigger] store.spec_parts()[w],
                        ex[q].file_size as int,
                        ex[q].fast_hash@,
                    ) by {
                        if w < pre.spec_parts().len() {
                            assert(store.spec_parts()[w] == pre.spec_parts()[w]);
                        } else {
                            assert(store.spec_parts()[w].size == Some(nc[i as int].file_size));
                            assert(store.spec_parts()[w].fast_hash->0@ == nc[i as int].fast_hash@);
                        }
                    }
                }
            }
        }
        i = i + 1;
    }
    let ghost s_mid = *store;
    let m = temp.load_extras();
    let mut j: usize = 0;
    while j < m
        invariant
            j <= m,
            m == temp.spec_extras().len(),
            *temp == *old(temp),
            store.wf(),
            store.spec_indexes() == old(store).spec_indexes(),
            store.spec_parts().subrange(0, s0.spec_parts().len() as int) == s0.spec_parts(),
            store.spec_parts().len() >= s0.spec_parts().len(),
            store.spec_parts().subrange(0, s_mid.spec_parts().len() as int)
                == s_mid.spec_parts(),
            store.spec_parts().len() >= s_mid.spec_parts().len(),
            forall|q: int|
                0 <= q < nc.len() && temp_record_wf(#[trigger] nc[q]) ==> exists|pt: int|
                    0 <= pt < s_mid.spec_parts().len() && (
                    #[trigger] s_mid.spec_parts()[pt]).path@ == nc[q].file_path@
                        && s_mid.spec_parts()[pt].size == Some(nc[q].file_size)
                        && s_mid.spec_parts()[pt].fast_hash is Some
                        && s_mid.spec_parts()[pt].fast_hash->0@ == nc[q].fast_hash@,
            forall|q: int|
                0 <= q < j ==> ((#[trigger] ex[q]).file_size == ex[q].file_size) && exists|pt: int|
                    0 <= pt < store.spec_parts().len() && (
                    #[trigger] store.spec_parts()[pt]).path@ == ex[q].file_path@
                        && store.spec_parts()[pt].size == Some(ex[q].file_size)
                        && store.spec_parts()[pt].fast_hash is Some
                        && store.spec_parts()[pt].fast_hash->0@ == ex[q].fast_hash@,
            hyp ==> {
                &&& store.spec_next_id() <= s0.spec_next_id() + 5 * (nc.len() + j)
                &&& forall|q: int|
                    j <= q < ex.len() ==> crate::store::key_free_view(
                        store.spec_parts(),
                        (#[trigger] ex[q]).file_size as int,
                        ex[q].fast_hash@,
                    )
            },
        decreases m - j,
    {
        let ghost pre = *store;
        let item = temp.extra_at(j);
        proof {
            if hyp {
                assert(pre.spec_next_id() + 3 < i64::MAX) by {
                    assert(pre.spec_next_id() <= s0.spec_next_id() + 5 * (nc.len() + j as int));
                    assert(5 * (nc.len() + j as int) + 5 <= 5 * (nc.len() + ex.len()))
                        by (nonlinear_arith)
                        requires
                            0 <= j as int,
                            (j as int) < ex.len(),
                            nc.len() >= 0,
                    ;
                }
            }
        }
        match process_temp_extra_item(store, index_id, item, committed_source_path, now) {
            Ok(_) => {},
            Err(e) => {
                return Err(e);
            },
        }
        proof {
            assert(commit_growth(
                pre,
                *store,
                ex[j as int].file_path@,
                ex[j as int].file_size,
                ex[j as int].mtime,
                ex[j as int].fast_hash@,
            ));
            assert(store.spec_parts().subrange(0, s0.spec_parts().len() as int)
                =~= s0.spec_parts());
            assert(store.spec_parts().subrange(0, s_mid.spec_parts().len() as int)
                =~= s_mid.spec_parts());
            assert forall|q: int|
                0 <= q < j + 1 implies ((#[trigger] ex[q]).file_size == ex[q].file_size)
                && exists|pt: int|
                0 <= pt < store.spec_parts().len() && (#[trigger] store.spec_parts()[pt]).path@
                    == ex[q].file_path@ && store.spec_parts()[pt].size == Some(ex[q].file_size)
                    && store.spec_parts()[pt].fast_hash is Some
                    && store.spec_parts()[pt].fast_hash->0@ == ex[q].fast_hash@ by {
                if q < j {
                    let pt = choose|pt: int|
                        0 <= pt < pre.spec_parts().len() && (#[trigger] pre.spec_parts()[pt]).path@
                            == ex[q].file_path@ && pre.spec_parts()[pt].size == Some(
                            ex[q].file_size,
                        ) && pre.spec_parts()[pt].fast_hash is Some
                            && pre.spec_parts()[pt].fast_hash->0@ == ex[q].fast_hash@;
                    assert(store.spec_parts()[pt] == pre.spec_parts()[pt]);
                } else {
                    let pt = store.spec_parts().len() - 1;
                    assert(store.spec_parts()[pt].path@ == ex[q].file_path@);
                }
            }
            if hyp {
                assert forall|q: int|
                    j + 1 <= q < ex.len() implies crate::store::key_free_view(
                    store.spec_parts(),
                    (#[trigger] ex[q]).file_size as int,
                    ex[q].fast_hash@,
                ) by {
                    assert forall|w: int|
                        0 <= w < store.spec_parts().len() implies !crate::store::part_key_match(
                        #[trigger] store.spec_parts()[w],
                        ex[q].file_size as int,
                        ex[q].fast_hash@,
                    ) by {
                        if w < pre.spec_parts().len() {
                            assert(store.spec_parts()[w] == pre.spec_parts()[w]);
                        } else {
                            assert(store.spec_parts()[w].size == Some(ex[j as int].file_size));
                            assert(store.spec_parts()[w].fast_hash->0@ == ex[j as int].fast_hash@);
                        }
                    }
                }
            }
        }
        j = j + 1;
    }
    proof {
        assert forall|q: int|
            0 <= q < nc.len() && temp_record_wf(#[trigger] nc[q]) implies exists|pt: int|
            0 <= pt < store.spec_parts().len() && (#[trigger] store.spec_parts()[pt]).path@
                == nc[q].file_path@ && store.spec_parts()[pt].size == Some(nc[q].file_size)
                && store.spec_parts()[pt].fast_hash is Some && store.spec_parts()[pt].fast_hash->0@
                == nc[q].fast_hash@ by {
            let pt = choose|pt: int|
                0 <= pt < s_mid.spec_parts().len() && (#[trigger] s_mid.spec_parts()[pt]).path@
                    == nc[q].file_path@ && s_mid.spec_parts()[pt].size == Some(nc[q].file_size)
                    && s_mid.spec_parts()[pt].fast_hash is Some
                    && s_mid.spec_parts()[pt].fast_hash->0@ == nc[q].fast_hash@;
            assert(store.spec_parts()[pt] == s_mid.spec_parts()[pt]);
        }
    }
    temp.clear_items();
    proof {
        assert(new_content_recorded(store.spec_parts(), nc)) by {
            assert forall|q: int|
                0 <= q < nc.len() && temp_record_wf(#[trigger] nc[q]) implies exists|pt: int|
                0 <= pt < store.spec_parts().len() && (#[trigger] store.spec_parts()[pt]).path@
                    == nc[q].file_path@ && store.spec_parts()[pt].size == Some(nc[q].file_size)
                    && store.spec_parts()[pt].fast_hash is Some
                    && store.spec_parts()[pt].fast_hash->0@ == nc[q].fast_hash@ by {
                let pt = choose|pt: int|
                    0 <= pt < s_mid.spec_parts().len() && (#[trigger] s_mid.spec_parts()[pt]).path@
                        == nc[q].file_path@ && s_mid.spec_parts()[pt].size == Some(nc[q].file_size)
                        && s_mid.spec_parts()[pt].fast_hash is Some
                        && s_mid.spec_parts()[pt].fast_hash->0@ == nc[q].fast_hash@;
                assert(store.spec_parts()[pt] == s_mid.spec_parts()[pt]);
            }
        }
        assert forall|q: int|
            0 <= q < ex.len() implies extra_part_recorded(store.spec_parts(), #[trigger] ex[q])
            by {
            assert((ex[q]).file_size == ex[q].file_size);
            let pt = choose|pt: int|
                0 <= pt < store.spec_parts().len() && (#[trigger] store.spec_parts()[pt]).path@
                    == ex[q].file_path@ && store.spec_parts()[pt].size == Some(ex[q].file_size)
                    && store.spec_parts()[pt].fast_hash is Some
                    && store.spec_parts()[pt].fast_hash->0@ == ex[q].fast_hash@;
            assert(extra_part_recorded(store.spec_parts(), ex[q])) by {
                assert(0 <= pt < store.spec_parts().len() && store.spec_parts()[pt].path@
                    == ex[q].file_path@ && store.spec_parts()[pt].size == Some(ex[q].file_size)
                    && store.spec_parts()[pt].fast_hash is Some
                    && store.spec_parts()[pt].fast_hash->0@ == ex[q].fast_hash@);
            }
        }
        assert(extras_recorded(store.spec_parts(), ex));
        assert(nc == old(temp).spec_new_content());
        assert(ex == old(temp).spec_extras());
    }
    Ok(())
}

// ---------- migration ----------

/// Move one part (and its version, when the part is alone in it) from one
/// item to another; an old item left without versions is deleted with its
/// descendants.
pub fn move_video_part_to_item(
    store: &mut MediaStore,
    part_id: i64,
    version_id: i64,
    old_item_id: i64,
    new_item_id: i64,
    now: i64,
) -> (r: Result<(), ScanError>)
    requires
        old(store).wf(),
    ensures
        final(store).wf(),
        final(store).spec_indexes() == old(store).spec_indexes(),
{
    let parts = store.get_video_parts_by_version(version_id);
    let mut others: usize = 0;
    let mut i: usize = 0;
    while i < parts.len()
        invariant
            i <= parts@.len(),
        decreases parts@.len() - i,
    {
        if parts[i].id != part_id {
            if others < usize::MAX {
                others = others + 1;
            }
        }
        i = i + 1;
    }
    if others == 0 {
        match store.update_video_version_item_id(version_id, new_item_id) {
            Ok(_) => {},
            Err(e) => {
                return Err(store_err(e));
            },
        }
    } else {
        let version = match store.get_video_version_by_id(version_id) {
            Some(v) => v,
            None => {
                return Err(store_err(StoreError::MissingVersion));
            },
        };
        let new_version_id = match store.add_video_version_with_params(
            new_item_id,
            version.edition,
            version.source,
            version.container,
            version.resolution,
            version.hdr,
            version.audio_channels,
            version.bitrate,
            version.runtime_ms,
            version.probe_version,
            now,
        ) {
            Ok(id) => id,
            Err(e) => {
                return Err(store_err(e));
            },
        };
        match store.update_video_part_version_id(part_id, new_version_id) {
            Ok(_) => {},
            Err(e) => {
                return Err(store_err(e));
            },
        }
    }
    let remaining = store.get_video_versions_by_item(old_item_id);
    let children = store.get_video_item_children(old_item_id);
    if remaining.len() == 0 && children.len() == 0 {
        match store.delete_video_item(old_item_id) {
            Ok(_) => Ok(()),
            Err(_) => Ok(()),
        }
    } else {
        Ok(())
    }
}

/// No item of the store carries the source path.
pub open spec fn no_item_at_sp_view(s: MediaStore, sp: Seq<char>) -> bool {
    forall|t: int|
        0 <= t < s.spec_items().len() ==> !((#[trigger] s.spec_items()[t]).source_path is Some
            && s.spec_items()[t].source_path->0@ == sp)
}

/// The item that owns a file's source path: the nearest of the item and
/// its ancestors that carries one. An episode's owner is its show.
fn top_source_owner(store: &MediaStore, item: &VideoItem) -> (r: Option<VideoItem>)
    requires
        store.wf(),
    ensures
        match r {
            Some(it) => it.source_path is Some && store.spec_items().contains(it),
            None => true,
        },
{
    let mut cur = crate::store::copy_item(item);
    let mut fuel: usize = 64;
    while fuel > 0
        invariant
            store.wf(),
        decreases fuel,
    {
        if cur.source_path.is_some() {
            match store.get_video_item_by_id(cur.id) {
                Some(fresh) => {
                    if fresh.source_path.is_some() {
                        return Some(fresh);
                    }
                    return None;
                },
                None => {
                    return None;
                },
            }
        }
        match cur.parent_id {
            Some(p) => {
                match store.get_video_item_by_id(p) {
                    Some(par) => {
                        cur = par;
                    },
                    None => {
                        return None;
                    },
                }
            },
            None => {
                return None;
            },
        }
        fuel = fuel - 1;
    }
    None
}

/// A renamed file moved between source paths: depending on whether the old
/// folder still exists on disk and whether an item already stands at the
/// new path, rewrite the owning item's source path, or move the part to the
/// existing or a freshly created item.
pub fn handle_episode_migration(
    store: &mut MediaStore,
    part_id: i64,
    new_source_path: &str,
    old_path_exists: bool,
    now: i64,
) -> (r: Result<(), ScanError>)
    requires
        old(store).wf(),
    ensures
        final(store).wf(),
        final(store).spec_indexes() == old(store).spec_indexes(),
        (r is Ok && !old_path_exists && no_item_at_sp_view(
            *old(store),
            new_source_path@,
        )) ==> {
            &&& final(store).spec_versions() == old(store).spec_versions()
            &&& final(store).spec_parts() == old(store).spec_parts()
            &&& final(store).spec_next_id() == old(store).spec_next_id()
            &&& final(store).spec_items().len() == old(store).spec_items().len()
            &&& exists|k: int|
                0 <= k < old(store).spec_items().len() && final(store).spec_items() == old(store).spec_items().update(k, (#[trigger] final(store).spec_items()[k])) && {
                    let y = final(store).spec_items()[k];
                    let oy = old(store).spec_items()[k];
                    &&& y.source_path is Some && y.source_path->0@ == new_source_path@
                    &&& y.id == oy.id
                    &&& y.index_id == oy.index_id
                    &&& y.kind == oy.kind
                    &&& y.title == oy.title
                    &&& y.parent_id == oy.parent_id
                    &&& y.number == oy.number
                }
        },
{
    let part = match store.get_video_part_by_id(part_id) {
        Some(p) => p,
        None => {
            return Err(store_err(StoreError::MissingPart));
        },
    };
    let version = match store.get_video_version_by_id(part.version_id) {
        Some(v) => v,
        None => {
            return Err(store_err(StoreError::MissingVersion));
        },
    };
    let item = match store.get_video_item_by_id(version.item_id) {
        Some(it) => it,
        None => {
            return Err(store_err(StoreError::MissingItem));
        },
    };
    let owner = match top_source_owner(store, &item) {
        Some(o) => o,
        None => crate::store::copy_item(&item),
    };
    let new_path_items = store.get_video_items_by_source_path(item.index_id, new_source_path);
    let new_path_has_item = new_path_items.len() > 0;
    if !old_path_exists && !new_path_has_item {
        match store.update_video_item_source_path(owner.id, Some(new_source_path.to_owned())) {
            Ok(_) => Ok(()),
            Err(e) => Err(store_err(e)),
        }
    } else if !old_path_exists && new_path_has_item {
        move_video_part_to_item(store, part_id, version.id, item.id, new_path_items[0].id, now)
    } else if old_path_exists && !new_path_has_item {
        let new_item_id = match store.add_video_item(
            owner.index_id,
            owner.kind,
            owner.title.clone(),
            owner.parent_id,
            Some(new_source_path.to_owned()),
            None,
            owner.year,
            owner.metadata.clone(),
            now,
        ) {
            Ok(id) => id,
            Err(e) => {
                return Err(store_err(e));
            },
        };
        move_video_part_to_item(store, part_id, version.id, item.id, new_item_id, now)
    } else {
        move_video_part_to_item(store, part_id, version.id, item.id, new_path_items[0].id, now)
    }
}

// ---------- the per-file decision ----------

/// What processing one file decided.
#[derive(Debug)]
pub enum FileStep {
    /// The content was already known at this very path; its row was only
    /// marked as seen.
    SeenSamePath,
    /// The content was known under another path in the same source path;
    /// the part's path was rewritten.
    PathUpdated,
    /// The content was known under another source path: the caller must
    /// check whether the old source folder still exists on disk and then
    /// finish with `complete_migration`.
    NeedsMigration { part_id: i64, old_source_path: String, new_source_path: String },
    /// A new file, buffered for the commit of its source path.
    Buffered,
    /// A bare movie outside any source path, committed at once.
    AddedImmediately,
}

/// Decide what to do with one discovered video file: probe the store by
/// content identity; on a hit bump or move the known part, on a miss
/// classify the path and buffer or commit the file.
///
/// A file already known at its very path changes nothing but the part's
/// seen timestamp, and a file that is merely buffered changes nothing at
/// all: this is what makes replaying a scan idempotent.
pub fn process_video_file(
    store: &mut MediaStore,
    index_id: i64,
    file_path: &str,
    file_size: i64,
    mtime: i64,
    fast_hash: &str,
    temp: &mut TempFileManager,
    tracker: &mut SourcePathTracker,
    now: i64,
) -> (r: Result<FileStep, ScanError>)
    requires
        old(store).wf(),
    ensures
        final(store).wf(),
        final(store).spec_indexes() == old(store).spec_indexes(),
        (exists|k: int|
            0 <= k < old(store).spec_parts().len() && crate::store::part_key_match(
                #[trigger] old(store).spec_parts()[k],
                file_size as int,
                fast_hash@,
            ) && old(store).spec_parts()[k].path@ == file_path@) ==> r matches Ok(
            FileStep::SeenSamePath,
        ),
        ((exists|k: int|
            0 <= k < old(store).spec_parts().len() && crate::store::part_key_match(
                #[trigger] old(store).spec_parts()[k],
                file_size as int,
                fast_hash@,
            )) && (forall|k: int|
            0 <= k < old(store).spec_parts().len() && crate::store::part_key_match(
                #[trigger] old(store).spec_parts()[k],
                file_size as int,
                fast_hash@,
            ) ==> old(store).spec_parts()[k].path@ != file_path@)) ==> (r matches Ok(
            FileStep::PathUpdated,
        ) || r matches Ok(FileStep::NeedsMigration { .. }) || r is Err),
        (match r {
            Ok(FileStep::PathUpdated) => {
                &&& final(store).spec_versions() == old(store).spec_versions()
                &&& final(store).spec_next_id() == old(store).spec_next_id()
                &&& final(store).spec_parts().len() == old(store).spec_parts().len()
                &&& exists|k: int|
                    0 <= k < old(store).spec_parts().len() && crate::store::part_key_match(
                        #[trigger] old(store).spec_parts()[k],
                        file_size as int,
                        fast_hash@,
                    ) && final(store).spec_parts() == old(store).spec_parts().update(
                        k,
                        final(store).spec_parts()[k],
                    ) && {
                        let x = final(store).spec_parts()[k];
                        let o = old(store).spec_parts()[k];
                        &&& x.path@ == file_path@
                        &&& x.mtime == Some(mtime)
                        &&& x.updated_at == now
                        &&& x.id == o.id
                        &&& x.version_id == o.version_id
                        &&& x.size == o.size
                        &&& x.fast_hash == o.fast_hash
                        &&& x.part_index == o.part_index
                    }
                &&& (final(store).spec_items() == old(store).spec_items() || exists|ki: int|
                    0 <= ki < old(store).spec_items().len() && final(store).spec_items() == old(store).spec_items().update(ki, (#[trigger] final(store).spec_items()[ki])) && {
                        let y = final(store).spec_items()[ki];
                        let oy = old(store).spec_items()[ki];
                        &&& y.id == oy.id
                        &&& y.kind == oy.kind
                        &&& y.title == oy.title
                        &&& y.parent_id == oy.parent_id
                        &&& y.number == oy.number
                    })
            },
            Ok(FileStep::NeedsMigration { part_id, old_source_path, new_source_path }) => {
                &&& final(store).unchanged(old(store))
                &&& *final(temp) == *old(temp)
                &&& *final(tracker) == *old(tracker)
                &&& old_source_path@ != new_source_path@
                &&& exists|k: int|
                    0 <= k < old(store).spec_parts().len() && crate::store::part_key_match(
                        #[trigger] old(store).spec_parts()[k],
                        file_size as int,
                        fast_hash@,
                    ) && old(store).spec_parts()[k].id == part_id
            },
            Ok(FileStep::AddedImmediately) => {
                &&& old(tracker).spec_current() is None
                &&& *final(temp) == *old(temp)
                &&& exists|pt: int|
                    0 <= pt < final(store).spec_parts().len() && (
                    #[trigger] final(store).spec_parts()[pt]).path@ == file_path@
            },
            Err(ScanError::LayoutConflict) => final(store).unchanged(old(store)) && *final(temp)
                == *old(temp),
            _ => true,
        }),
        (match r {
            Ok(FileStep::SeenSamePath) => {
                &&& final(store).spec_items() == old(store).spec_items()
                &&& final(store).spec_versions() == old(store).spec_versions()
                &&& final(store).spec_next_id() == old(store).spec_next_id()
                &&& final(store).spec_parts().len() == old(store).spec_parts().len()
                &&& exists|k: int|
                    0 <= k < old(store).spec_parts().len() && crate::store::part_key_match(
                        #[trigger] old(store).spec_parts()[k],
                        file_size as int,
                        fast_hash@,
                    ) && final(store).spec_parts() == old(store).spec_parts().update(
                        k,
                        final(store).spec_parts()[k],
                    ) && {
                        let x = final(store).spec_parts()[k];
                        let o = old(store).spec_parts()[k];
                        &&& x.updated_at == now
                        &&& x.id == o.id
                        &&& x.version_id == o.version_id
                        &&& x.path == o.path
                        &&& x.size == o.size
                        &&& x.fast_hash == o.fast_hash
                        &&& x.part_index == o.part_index
                    }
            },
            Ok(FileStep::Buffered) => final(store).unchanged(old(store)),
            _ => true,
        }),
{
    let existing = store.get_video_parts_by_size_and_hash(file_size, fast_hash);
    if existing.len() > 0 {
        let part_id = existing[0].id;
        let same_path = str_same(existing[0].path.as_str(), file_path);
        if same_path {
            match store.update_video_part_updated_at(part_id, now) {
                Ok(_) => {
                    return Ok(FileStep::SeenSamePath);
                },
                Err(e) => {
                    return Err(store_err(e));
                },
            }
        }
        let classified = classify_path(file_path);
        let new_source_path: Option<String> = match classified.media_type {
            MediaType::Movie => {
                match &classified.movie {
                    Some(m) => movie_source_path(file_path, m),
                    None => None,
                }
            },
            MediaType::TvEpisode => {
                match &classified.tv_episode {
                    Some(tv) => Some(tv.source_path.clone()),
                    None => None,
                }
            },
            _ => None,
        };
        let version = match store.get_video_version_by_id(existing[0].version_id) {
            Some(v) => v,
            None => {
                return Err(store_err(StoreError::MissingVersion));
            },
        };
        let item = match store.get_video_item_by_id(version.item_id) {
            Some(it) => it,
            None => {
                return Err(store_err(StoreError::MissingItem));
            },
        };
        match new_source_path {
            Some(new_sp) => {
                let owner = top_source_owner(store, &item);
                match owner {
                    Some(ow) => {
                        let old_sp: String = match &ow.source_path {
                            Some(s) => s.clone(),
                            None => String::new(),
                        };
                        if !str_same(old_sp.as_str(), new_sp.as_str()) {
                            return Ok(
                                FileStep::NeedsMigration {
                                    part_id,
                                    old_source_path: old_sp,
                                    new_source_path: new_sp,
                                },
                            );
                        }
                    },
                    None => {
                        if item.parent_id.is_none() {
                            match store.update_video_item_source_path(item.id, Some(new_sp)) {
                                Ok(_) => {},
                                Err(e) => {
                                    return Err(store_err(e));
                                },
                            }
                        }
                    },
                }
            },
            None => {},
        }
        match store.update_video_part_path(part_id, file_path.to_owned(), mtime, now) {
            Ok(_) => {
                return Ok(FileStep::PathUpdated);
            },
            Err(e) => {
                return Err(store_err(e));
            },
        }
    }
    let classified = classify_path(file_path);
    if matches_media(classified.media_type, MediaType::Extra) {
        match classified.extra {
            Some(extra) => {
                temp.add_extra(
                    TempExtraItem {
                        file_path: file_path.to_owned(),
                        extra,
                        file_size,
                        mtime,
                        fast_hash: fast_hash.to_owned(),
                    },
                );
                return Ok(FileStep::Buffered);
            },
            None => {
                return Ok(FileStep::Buffered);
            },
        }
    }
    let source_path: Option<String> = match classified.media_type {
        MediaType::Movie => {
            match &classified.movie {
                Some(m) => movie_source_path(file_path, m),
                None => None,
            }
        },
        MediaType::TvEpisode => {
            match &classified.tv_episode {
                Some(tv) => Some(tv.source_path.clone()),
                None => None,
            }
        },
        _ => None,
    };
    match &source_path {
        Some(sp) => {
            match tracker.track_source_path(sp.as_str()) {
                Ok(_) => {},
                Err(e) => {
                    return Err(e);
                },
            }
        },
        None => {},
    }
    if matches_media(classified.media_type, MediaType::Movie) && source_path.is_none() {
        if tracker.get_source_path().is_none() {
            match add_movie_immediately(store, index_id, file_path, file_size, mtime, fast_hash, now) {
                Ok(_) => {
                    return Ok(FileStep::AddedImmediately);
                },
                Err(e) => {
                    return Err(e);
                },
            }
        } else {
            return Err(ScanError::LayoutConflict);
        }
    }
    temp.add_new_content(
        TempVideoItem {
            file_path: file_path.to_owned(),
            media_type: classified.media_type,
            tv_episode: classified.tv_episode,
            movie: classified.movie,
            generic: classified.generic,
            file_size,
            mtime,
            fast_hash: fast_hash.to_owned(),
        },
    );
    Ok(FileStep::Buffered)
}

/// Finish a migration once the caller has checked the old folder on disk:
/// move the rows, then record the part's new path.
pub fn complete_migration(
    store: &mut MediaStore,
    part_id: i64,
    new_source_path: &str,
    old_path_exists: bool,
    file_path: &str,
    mtime: i64,
    now: i64,
) -> (r: Result<(), ScanError>)
    requires
        old(store).wf(),
    ensures
        final(store).wf(),
        final(store).spec_indexes() == old(store).spec_indexes(),
        r is Ok ==> exists|k: int|
            0 <= k < final(store).spec_parts().len() && (#[trigger] final(store).spec_parts()[k]).id
                == part_id && final(store).spec_parts()[k].path@ == file_path@ && final(store).spec_parts()[k].mtime == Some(mtime) && final(store).spec_parts()[k].updated_at
                == now,
{
    match handle_episode_migration(store, part_id, new_source_path, old_path_exists, now) {
        Ok(_) => {},
        Err(e) => {
            return Err(e);
        },
    }
    match store.update_video_part_path(part_id, file_path.to_owned(), mtime, now) {
        Ok(_) => Ok(()),
        Err(e) => Err(store_err(e)),
    }
}

/// Leaving a directory: when it is the tracked source path, commit the
/// buffered batch for it. Says whether a commit happened.
pub fn finish_directory(
    store: &mut MediaStore,
    temp: &mut TempFileManager,
    tracker: &mut SourcePathTracker,
    dir: &str,
    index_id: i64,
    now: i64,
) -> (r: Result<bool, ScanError>)
    requires
        old(store).wf(),
    ensures
        final(store).wf(),
        final(store).spec_indexes() == old(store).spec_indexes(),
        (r matches Ok(true) || r is Err) <==> old(tracker).spec_current() == Some(dir@),
        r matches Ok(true) ==> {
            &&& final(tracker).spec_current() is None
            &&& final(temp).spec_new_content().len() == 0
            &&& final(temp).spec_extras().len() == 0
            &&& new_content_recorded(
                final(store).spec_parts(),
                old(temp).spec_new_content(),
            )
            &&& extras_recorded(final(store).spec_parts(), old(temp).spec_extras())
        },
        r matches Ok(false) ==> final(store).unchanged(old(store)) && *final(temp) == *old(temp)
            && final(tracker).spec_current() == old(tracker).spec_current(),
{
    if tracker.remove_source_path(dir) {
        match process_temp_files(store, temp, index_id, dir, now) {
            Ok(_) => Ok(true),
            Err(e) => Err(e),
        }
    } else {
        Ok(false)
    }
}

/// The source path of a movie file: its folder, when the folder is named
/// after the movie.
fn movie_source_path(file_path: &str, m: &MovieInfo) -> (r: Option<String>)
    ensures
        match r {
            Some(sp) => sp@ == m.source_path@,
            None => true,
        },
{
    let pv = chars_of(file_path);
    let parts = crate::classifier::parse_path(&pv);
    let n = parts.folders.len();
    if n == 0 {
        return None;
    }
    let folder = string_of(&parts.folders[n - 1]);
    if is_movie_in_matching_folder(m.title.as_str(), m.year, folder.as_str()) {
        Some(m.source_path.clone())
    } else {
        None
    }
}

/// A bare movie file outside any source path: committed at once under an
/// item found or created by title.
pub fn add_movie_immediately(
    store: &mut MediaStore,
    index_id: i64,
    file_path: &str,
    file_size: i64,
    mtime: i64,
    fast_hash: &str,
    now: i64,
) -> (r: Result<(), ScanError>)
    requires
        old(store).wf(),
    ensures
        final(store).wf(),
        final(store).spec_indexes() == old(store).spec_indexes(),
        (crate::store::has_index_id(old(store).spec_indexes(), index_id as int)
            && crate::store::key_free_view(old(store).spec_parts(), file_size as int, fast_hash@)
            && old(store).spec_next_id() + 3 < i64::MAX) ==> r is Ok,
        r is Err ==> r matches Err(ScanError::Store(..)),
        match r {
            Ok(_) => exists|t: int|
                0 <= t < final(store).spec_parts().len() && (
                #[trigger] final(store).spec_parts()[t]).path@ == file_path@,
            Err(_) => true,
        },
{
    let pv = chars_of(file_path);
    let parts = crate::classifier::parse_path(&pv);
    let title = string_of(&parts.stem);
    let existing = store.get_video_items_by_title(index_id, title.as_str());
    let item_id = if existing.len() > 0 {
        let id = existing[0].id;
        proof {
            let x = existing@[0];
            let t = choose|t: int|
                0 <= t < store.spec_items().len() && store.spec_items()[t] == x;
            assert(store.spec_items()[t].id == id);
        }
        id
    } else {
        match store.add_video_item(
            index_id,
            ItemKind::Movie,
            title,
            None,
            None,
            None,
            None,
            ItemMeta::empty(),
            now,
        ) {
            Ok(id) => {
                proof {
                    let n = store.spec_items().len() - 1;
                    assert(store.spec_items()[n].id == id);
                }
                id
            },
            Err(e) => {
                return Err(store_err(e));
            },
        }
    };
    let version_id = match store.add_video_version_with_params(
        item_id,
        None,
        None,
        None,
        None,
        false,
        None,
        None,
        None,
        None,
        now,
    ) {
        Ok(id) => id,
        Err(e) => {
            return Err(store_err(e));
        },
    };
    match insert_part(store, version_id, file_path, file_size, mtime, 0, fast_hash, now) {
        Ok(_) => Ok(()),
        Err(e) => Err(e),
    }
}

fn str_same(a: &str, b: &str) -> (r: bool)
    ensures
        r == (a@ == b@),
{
    let av = chars_of(a);
    let bv = chars_of(b);
    chars_eq(&av, &bv)
}

fn matches_media(a: MediaType, b: MediaType) -> (r: bool)
    ensures
        r == (a == b),
{
    a == b
}

} // verus!
