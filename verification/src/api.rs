//! The API surface's typed shapes: response records, the rejection marker
//! types the handlers raise, static-file content types, and folder list
//! tidying.

use vstd::prelude::*;
use crate::classifier::{find_last_char, lemma_find_last_char};
use crate::models::{Index, Profile};
use crate::text::{chars_of, string_of};

verus! {

/// The stored configuration could not be found.
#[derive(Debug)]
pub struct ConfigNotFoundError;

/// The configuration could not be written.
#[derive(Debug)]
pub struct ConfigSaveError;

/// The configuration could not be read.
#[derive(Debug)]
pub struct ConfigGetError;

/// A request carried a missing or unknown token.
#[derive(Debug)]
pub struct TokenValidationError;

/// An index operation failed.
#[derive(Debug)]
pub struct IndexError;

/// A profile operation failed.
#[derive(Debug)]
pub struct ProfileError;

/// A profile as the API shows it: the id as decimal text.
#[derive(Debug, Clone)]
pub struct ProfileResponse {
    pub id: String,
    pub name: String,
    pub color: String,
}

impl ProfileResponse {
    pub fn from_profile(p: &Profile) -> (r: ProfileResponse)
        requires
            p.id > i64::MIN,
        ensures
            r.id@ == crate::scanner::int_digit_seq(p.id as int),
            r.name@ == p.name@,
            r.color@ == p.color@,
    {
        ProfileResponse {
            id: crate::scanner::i64_to_string(p.id),
            name: p.name.clone(),
            color: p.color.clone(),
        }
    }
}

/// An index as the API shows it, folders included.
#[derive(Debug, Clone)]
pub struct IndexResponse {
    pub id: String,
    pub name: String,
    pub kind: String,
    pub icon: String,
    pub folders: Vec<String>,
}

impl IndexResponse {
    pub fn from_index(x: &Index) -> (r: IndexResponse)
        requires
            x.id > i64::MIN,
        ensures
            r.id@ == crate::scanner::int_digit_seq(x.id as int),
            r.name@ == x.name@,
            r.kind@ == x.kind@,
            (match x.icon {
                Some(ic) => r.icon@ == ic@,
                None => r.icon@ == "custom"@,
            }),
            r.folders@.len() == x.folders@.len(),
            forall|i: int| 0 <= i < r.folders@.len() ==> r.folders@[i]@ == x.folders@[i]@,
    {
        let icon = match &x.icon {
            Some(ic) => ic.clone(),
            None => {
                let v = chars_of("custom");
                string_of(&v)
            },
        };
        let mut folders: Vec<String> = Vec::new();
        let mut i: usize = 0;
        while i < x.folders.len()
            invariant
                i <= x.folders@.len(),
                folders@.len() == i,
                forall|j: int| 0 <= j < i ==> folders@[j]@ == x.folders@[j]@,
            decreases x.folders@.len() - i,
        {
            folders.push(x.folders[i].clone());
            i = i + 1;
        }
        IndexResponse {
            id: crate::scanner::i64_to_string(x.id),
            name: x.name.clone(),
            kind: x.kind.clone(),
            icon,
            folders,
        }
    }
}

/// An index as the authentication endpoints show it, without folders.
#[derive(Debug, Clone)]
pub struct FilteredIndexResponse {
    pub id: String,
    pub name: String,
    pub kind: String,
    pub icon: String,
}

impl FilteredIndexResponse {
    pub fn from_index(x: &Index) -> (r: FilteredIndexResponse)
        requires
            x.id > i64::MIN,
        ensures
            r.id@ == crate::scanner::int_digit_seq(x.id as int),
            r.name@ == x.name@,
            r.kind@ == x.kind@,
            (match x.icon {
                Some(ic) => r.icon@ == ic@,
                None => r.icon@ == "custom"@,
            }),
    {
        let icon = match &x.icon {
            Some(ic) => ic.clone(),
            None => {
                let v = chars_of("custom");
                string_of(&v)
            },
        };
        FilteredIndexResponse {
            id: crate::scanner::i64_to_string(x.id),
            name: x.name.clone(),
            kind: x.kind.clone(),
            icon,
        }
    }
}

/// The whole configuration as the API shows it.
#[derive(Debug, Clone)]
pub struct DatabaseConfigurationResponse {
    pub id: String,
    pub name: String,
    pub profiles: Vec<ProfileResponse>,
    pub indexes: Vec<IndexResponse>,
}

/// Serves the bundled web files; requests outside the API fall through to
/// it.
#[derive(Debug)]
pub struct StaticController;

impl StaticController {
    pub fn new() -> (r: StaticController)
    {
        StaticController
    }
}

/// The content type a file extension names.
pub open spec fn content_type_of(path: Seq<char>) -> Seq<char> {
    let d = find_last_char(path, '.');
    let ext = if d >= 0 {
        path.subrange(d + 1, path.len() as int)
    } else {
        path
    };
    if ext == "html"@ {
        "text/html"@
    } else if ext == "css"@ {
        "text/css"@
    } else if ext == "js"@ {
        "application/javascript"@
    } else if ext == "json"@ {
        "application/json"@
    } else if ext == "png"@ {
        "image/png"@
    } else if ext == "jpg"@ || ext == "jpeg"@ {
        "image/jpeg"@
    } else if ext == "gif"@ {
        "image/gif"@
    } else if ext == "svg"@ {
        "image/svg+xml"@
    } else if ext == "ico"@ {
        "image/x-icon"@
    } else if ext == "woff"@ {
        "font/woff"@
    } else if ext == "woff2"@ {
        "font/woff2"@
    } else if ext == "ttf"@ {
        "font/ttf"@
    } else {
        "application/octet-stream"@
    }
}

/// Name the content type for a file path by its extension.
pub fn get_content_type(path: &str) -> (r: &'static str)
    ensures
        r@ == content_type_of(path@),
{
    let pv = chars_of(path);
    proof {
        lemma_find_last_char(pv@, '.');
    }
    let n = pv.len();
    let ext: Vec<char> = match crate::classifier::find_last_dot(&pv) {
        Some(d) => crate::text::slice_range(&pv, d + 1, n),
        None => crate::text::slice_range(&pv, 0, n),
    };
    proof {
        assert(pv@.subrange(0, pv@.len() as int) =~= pv@);
    }
    if ext_is(&ext, "html") {
        "text/html"
    } else if ext_is(&ext, "css") {
        "text/css"
    } else if ext_is(&ext, "js") {
        "application/javascript"
    } else if ext_is(&ext, "json") {
        "application/json"
    } else if ext_is(&ext, "png") {
        "image/png"
    } else if ext_is(&ext, "jpg") || ext_is(&ext, "jpeg") {
        "image/jpeg"
    } else if ext_is(&ext, "gif") {
        "image/gif"
    } else if ext_is(&ext, "svg") {
        "image/svg+xml"
    } else if ext_is(&ext, "ico") {
        "image/x-icon"
    } else if ext_is(&ext, "woff") {
        "font/woff"
    } else if ext_is(&ext, "woff2") {
        "font/woff2"
    } else if ext_is(&ext, "ttf") {
        "font/ttf"
    } else {
        "application/octet-stream"
    }
}

fn ext_is(ext: &Vec<char>, lit: &str) -> (r: bool)
    ensures
        r == (ext@ == lit@),
{
    let lv = chars_of(lit);
    crate::text::chars_eq(ext, &lv)
}

/// `f` lies strictly inside `g`: `g` is a proper prefix and a path
/// separator follows it.
pub open spec fn child_of(f: Seq<char>, g: Seq<char>) -> bool {
    &&& g.len() < f.len()
    &&& f.subrange(0, g.len() as int) == g
    &&& (f[g.len() as int] == '/' || f[g.len() as int] == '\\')
}

/// `f` lies inside some folder of the list.
pub open spec fn child_of_any(fs: Seq<Seq<char>>, f: Seq<char>) -> bool {
    exists|j: int| 0 <= j < fs.len() && child_of(f, #[trigger] fs[j])
}

/// The character sequences of a list of folder names.
pub open spec fn folder_views(fs: Seq<String>) -> Seq<Seq<char>> {
    Seq::new(fs.len(), |i: int| fs[i]@)
}

fn child_check(f: &Vec<char>, g: &Vec<char>) -> (r: bool)
    ensures
        r == child_of(f@, g@),
{
    if g.len() >= f.len() {
        return false;
    }
    let prefix = crate::text::slice_range(f, 0, g.len());
    if !crate::text::chars_eq(&prefix, g) {
        return false;
    }
    let c = f[g.len()];
    c == '/' || c == '\\'
}

/// Drop every folder that lies inside another of the list, so no kept
/// folder is redundant: what remains are exactly the folders that sit
/// inside none of the others.
#[verifier::loop_isolation(false)]
pub fn filter_child_folders(folders: Vec<String>) -> (r: Vec<String>)
    ensures
        forall|k: int|
            0 <= k < r@.len() ==> {
                &&& exists|j: int|
                    0 <= j < folders@.len() && folder_views(folders@)[j] == (#[trigger] r@[k])@
                &&& !child_of_any(folder_views(folders@), r@[k]@)
            },
        forall|j: int|
            0 <= j < folders@.len() && !child_of_any(
                folder_views(folders@),
                #[trigger] folder_views(folders@)[j],
            ) ==> exists|k: int| 0 <= k < r@.len() && (#[trigger] r@[k])@ == folder_views(
                folders@,
            )[j],
{
    let ghost fs = folder_views(folders@);
    let mut views: Vec<Vec<char>> = Vec::new();
    let mut i: usize = 0;
    while i < folders.len()
        invariant
            i <= folders@.len(),
            views@.len() == i,
            forall|j: int| 0 <= j < i ==> views@[j]@ == fs[j],
        decreases folders@.len() - i,
    {
        views.push(chars_of(folders[i].as_str()));
        i = i + 1;
    }
    let mut r: Vec<String> = Vec::new();
    let mut k: usize = 0;
    while k < folders.len()
        invariant
            k <= folders@.len(),
            views@.len() == folders@.len(),
            forall|j: int| 0 <= j < views@.len() ==> views@[j]@ == fs[j],
            forall|t: int|
                0 <= t < r@.len() ==> {
                    &&& exists|j: int| 0 <= j < folders@.len() && fs[j] == (#[trigger] r@[t])@
                    &&& !child_of_any(fs, r@[t]@)
                },
            forall|j: int|
                0 <= j < k && !child_of_any(fs, #[trigger] fs[j]) ==> exists|t: int|
                    0 <= t < r@.len() && (#[trigger] r@[t])@ == fs[j],
        decreases folders@.len() - k,
    {
        let ghost prev = r@;
        let mut inside = false;
        let mut g: usize = 0;
        while g < views.len()
            invariant
                g <= views@.len(),
                !inside ==> forall|j: int| 0 <= j < g ==> !child_of(fs[k as int], #[trigger] fs[j]),
                inside ==> child_of_any(fs, fs[k as int]),
            decreases views@.len() - g, (if inside { 0int } else { 1int }),
        {
            if !inside && child_check(&views[k], &views[g]) {
                proof {
                    assert(child_of(fs[k as int], fs[g as int]));
                }
                inside = true;
            }
            g = g + 1;
        }
        if !inside {
            r.push(folders[k].clone());
            proof {
                assert(r@[prev.len() as int]@ == fs[k as int]);
            }
        }
        proof {
            assert forall|j: int|
                0 <= j < k + 1 && !child_of_any(fs, #[trigger] fs[j]) implies exists|t: int|
                0 <= t < r@.len() && (#[trigger] r@[t])@ == fs[j] by {
                if j < k {
                    let t = choose|t: int| 0 <= t < prev.len() && (#[trigger] prev[t])@ == fs[j];
                    assert(r@[t]@ == fs[j]);
                } else {
                    assert(r@[r@.len() - 1]@ == fs[j]);
                }
            }
        }
        k = k + 1;
    }
    proof {
        assert forall|t: int|
            0 <= t < r@.len() implies exists|j: int|
            0 <= j < folders@.len() && folder_views(folders@)[j] == (#[trigger] r@[t])@ by {
            let j = choose|j: int| 0 <= j < folders@.len() && fs[j] == (#[trigger] r@[t])@;
            assert(folder_views(folders@)[j] == r@[t]@);
        }
        assert forall|j: int|
            0 <= j < folders@.len() && !child_of_any(
                folder_views(folders@),
                #[trigger] folder_views(folders@)[j],
            ) implies exists|t: int|
            0 <= t < r@.len() && (#[trigger] r@[t])@ == folder_views(folders@)[j] by {
            assert(!child_of_any(fs, fs[j]));
            let t = choose|t: int| 0 <= t < r@.len() && (#[trigger] r@[t])@ == fs[j];
            assert(r@[t]@ == folder_views(folders@)[j]);
        }
    }
    r
}

} // verus!
