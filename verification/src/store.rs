//! The relational store of the catalog: indexes own items, items own
//! versions, versions own parts.
//!
//! The store enforces its invariants on every write: ids are unique and
//! fresh; every part's version, version's item, item's index and item's
//! parent exist (the parent in the same index); at most one part exists per
//! (size, fast hash) content key; at most one item per (index, source path);
//! and at most one sibling per (parent, number).

use vstd::prelude::*;
use crate::models::{Index, ItemKind, ItemMeta, ScanStatus, VideoItem, VideoPart, VideoVersion};

verus! {

/// Why a store operation was refused.
#[derive(Debug, Clone, Copy, PartialEq, Eq, Structural)]
pub enum StoreError {
    MissingIndex,
    MissingItem,
    MissingVersion,
    MissingPart,
    MissingParent,
    DuplicateSourcePath,
    DuplicateNumber,
    DuplicateContentKey,
}

pub open spec fn has_index_id(s: Seq<Index>, id: int) -> bool {
    exists|i: int| 0 <= i < s.len() && (#[trigger] s[i]).id == id
}

pub open spec fn has_item_id(s: Seq<VideoItem>, id: int) -> bool {
    exists|i: int| 0 <= i < s.len() && (#[trigger] s[i]).id == id
}

pub open spec fn has_version_id(s: Seq<VideoVersion>, id: int) -> bool {
    exists|i: int| 0 <= i < s.len() && (#[trigger] s[i]).id == id
}

pub open spec fn has_part_id(s: Seq<VideoPart>, id: int) -> bool {
    exists|i: int| 0 <= i < s.len() && (#[trigger] s[i]).id == id
}

/// The parent of `it`, when set, exists in `s` and lives in `it`'s index.
pub open spec fn parent_ok(s: Seq<VideoItem>, it: VideoItem) -> bool {
    match it.parent_id {
        Some(pid) => exists|j: int|
            0 <= j < s.len() && (#[trigger] s[j]).id == pid && s[j].index_id == it.index_id,
        None => true,
    }
}

/// Two parts carry the same content identity: both sized and hashed, with
/// equal sizes and equal hash strings.
pub open spec fn same_content_key(p: VideoPart, q: VideoPart) -> bool {
    &&& p.size is Some
    &&& q.size is Some
    &&& p.size->0 == q.size->0
    &&& p.fast_hash is Some
    &&& q.fast_hash is Some
    &&& p.fast_hash->0@ == q.fast_hash->0@
}

/// Two items collide on a source path: same index, both paths set and equal.
pub open spec fn same_source_path(a: VideoItem, b: VideoItem) -> bool {
    &&& a.index_id == b.index_id
    &&& a.source_path is Some
    &&& b.source_path is Some
    &&& a.source_path->0@ == b.source_path->0@
}

/// Two items collide on an ordinal: same parent, both numbers set and equal.
pub open spec fn same_ordinal(a: VideoItem, b: VideoItem) -> bool {
    &&& a.parent_id is Some
    &&& b.parent_id is Some
    &&& a.parent_id->0 == b.parent_id->0
    &&& a.number is Some
    &&& b.number is Some
    &&& a.number->0 == b.number->0
}

/// The invariant of the four tables and the id counter.
pub open spec fn wf_parts(
    ixs: Seq<Index>,
    its: Seq<VideoItem>,
    vs: Seq<VideoVersion>,
    ps: Seq<VideoPart>,
    next: int,
) -> bool {
    &&& forall|i: int, j: int|
        0 <= i < j < ixs.len() ==> (#[trigger] ixs[i]).id != (#[trigger] ixs[j]).id
    &&& forall|i: int, j: int|
        0 <= i < j < its.len() ==> (#[trigger] its[i]).id != (#[trigger] its[j]).id
    &&& forall|i: int, j: int|
        0 <= i < j < vs.len() ==> (#[trigger] vs[i]).id != (#[trigger] vs[j]).id
    &&& forall|i: int, j: int|
        0 <= i < j < ps.len() ==> (#[trigger] ps[i]).id != (#[trigger] ps[j]).id
    &&& next >= 1
    &&& forall|i: int| 0 <= i < ixs.len() ==> 1 <= (#[trigger] ixs[i]).id < next
    &&& forall|i: int| 0 <= i < its.len() ==> 1 <= (#[trigger] its[i]).id < next
    &&& forall|i: int| 0 <= i < vs.len() ==> 1 <= (#[trigger] vs[i]).id < next
    &&& forall|i: int| 0 <= i < ps.len() ==> 1 <= (#[trigger] ps[i]).id < next
    &&& forall|i: int|
        0 <= i < its.len() ==> has_index_id(ixs, (#[trigger] its[i]).index_id as int)
    &&& forall|i: int| 0 <= i < its.len() ==> parent_ok(its, #[trigger] its[i])
    &&& forall|i: int| 0 <= i < vs.len() ==> has_item_id(its, (#[trigger] vs[i]).item_id as int)
    &&& forall|i: int|
        0 <= i < ps.len() ==> has_version_id(vs, (#[trigger] ps[i]).version_id as int)
    &&& forall|i: int, j: int|
        0 <= i < j < ps.len() ==> !same_content_key(#[trigger] ps[i], #[trigger] ps[j])
    &&& forall|i: int, j: int|
        0 <= i < j < its.len() ==> !same_source_path(#[trigger] its[i], #[trigger] its[j])
    &&& forall|i: int, j: int|
        0 <= i < j < its.len() ==> !same_ordinal(#[trigger] its[i], #[trigger] its[j])
}

/// The catalog store.
pub struct MediaStore {
    indexes: Vec<Index>,
    items: Vec<VideoItem>,
    versions: Vec<VideoVersion>,
    parts: Vec<VideoPart>,
    next_id: i64,
}

impl MediaStore {
    pub closed spec fn spec_indexes(&self) -> Seq<Index> {
        self.indexes@
    }

    pub closed spec fn spec_items(&self) -> Seq<VideoItem> {
        self.items@
    }

    pub closed spec fn spec_versions(&self) -> Seq<VideoVersion> {
        self.versions@
    }

    pub closed spec fn spec_parts(&self) -> Seq<VideoPart> {
        self.parts@
    }

    pub closed spec fn spec_next_id(&self) -> int {
        self.next_id as int
    }

    /// The store's invariant: fresh unique ids, referential integrity, and
    /// the three uniqueness keys.
    pub open spec fn wf(&self) -> bool {
        wf_parts(
            self.spec_indexes(),
            self.spec_items(),
            self.spec_versions(),
            self.spec_parts(),
            self.spec_next_id(),
        )
    }

    /// An empty store.
    pub fn new() -> (r: MediaStore)
        ensures
            r.wf(),
            r.spec_indexes().len() == 0,
            r.spec_items().len() == 0,
            r.spec_versions().len() == 0,
            r.spec_parts().len() == 0,
    {
        MediaStore {
            indexes: Vec::new(),
            items: Vec::new(),
            versions: Vec::new(),
            parts: Vec::new(),
            next_id: 1,
        }
    }
}

// ---------- the quantified uniqueness and integrity laws ----------

/// Content identity uniqueness: in a well-formed store two parts with the
/// same (size, fast hash) key are the same part.
pub proof fn lemma_content_identity_unique(s: &MediaStore, i: int, j: int)
    requires
        s.wf(),
        0 <= i < s.spec_parts().len(),
        0 <= j < s.spec_parts().len(),
        same_content_key(s.spec_parts()[i], s.spec_parts()[j]),
    ensures
        i == j,
{
    if i < j {
        assert(!same_content_key(s.spec_parts()[i], s.spec_parts()[j]));
    }
    if j < i {
        assert(!same_content_key(s.spec_parts()[j], s.spec_parts()[i]));
    }
}

/// Source path uniqueness: two items of one index with the same source path
/// are the same item.
pub proof fn lemma_source_path_unique(s: &MediaStore, i: int, j: int)
    requires
        s.wf(),
        0 <= i < s.spec_items().len(),
        0 <= j < s.spec_items().len(),
        same_source_path(s.spec_items()[i], s.spec_items()[j]),
    ensures
        i == j,
{
    if i < j {
        assert(!same_source_path(s.spec_items()[i], s.spec_items()[j]));
    }
    if j < i {
        assert(!same_source_path(s.spec_items()[j], s.spec_items()[i]));
    }
}

/// Ordinal uniqueness: two siblings with the same number are the same item.
pub proof fn lemma_ordinal_unique(s: &MediaStore, i: int, j: int)
    requires
        s.wf(),
        0 <= i < s.spec_items().len(),
        0 <= j < s.spec_items().len(),
        same_ordinal(s.spec_items()[i], s.spec_items()[j]),
    ensures
        i == j,
{
    if i < j {
        assert(!same_ordinal(s.spec_items()[i], s.spec_items()[j]));
    }
    if j < i {
        assert(!same_ordinal(s.spec_items()[j], s.spec_items()[i]));
    }
}

/// Referential integrity: every part's version exists, every version's item
/// exists, every item's index exists, and every set parent exists in the
/// same index.
pub proof fn lemma_referential_integrity(s: &MediaStore)
    requires
        s.wf(),
    ensures
        forall|i: int|
            0 <= i < s.spec_parts().len() ==> has_version_id(
                s.spec_versions(),
                (#[trigger] s.spec_parts()[i]).version_id as int,
            ),
        forall|i: int|
            0 <= i < s.spec_versions().len() ==> has_item_id(
                s.spec_items(),
                (#[trigger] s.spec_versions()[i]).item_id as int,
            ),
        forall|i: int|
            0 <= i < s.spec_items().len() ==> has_index_id(
                s.spec_indexes(),
                (#[trigger] s.spec_items()[i]).index_id as int,
            ),
        forall|i: int| 0 <= i < s.spec_items().len() ==> parent_ok(
            s.spec_items(),
            #[trigger] s.spec_items()[i],
        ),
{
}

// ---------- invariant preservation, table by table ----------

proof fn lemma_push_index(
    ixs: Seq<Index>,
    its: Seq<VideoItem>,
    vs: Seq<VideoVersion>,
    ps: Seq<VideoPart>,
    next: int,
    x: Index,
)
    requires
        wf_parts(ixs, its, vs, ps, next),
        x.id == next,
    ensures
        wf_parts(ixs.push(x), its, vs, ps, next + 1),
{
    let new_ixs = ixs.push(x);
    assert forall|i: int| 0 <= i < its.len() implies has_index_id(
        new_ixs,
        (#[trigger] its[i]).index_id as int,
    ) by {
        let w = choose|w: int| 0 <= w < ixs.len() && (#[trigger] ixs[w]).id == its[i].index_id;
        assert(new_ixs[w].id == its[i].index_id);
    }
}

proof fn lemma_push_item(
    ixs: Seq<Index>,
    its: Seq<VideoItem>,
    vs: Seq<VideoVersion>,
    ps: Seq<VideoPart>,
    next: int,
    x: VideoItem,
)
    requires
        wf_parts(ixs, its, vs, ps, next),
        x.id == next,
        has_index_id(ixs, x.index_id as int),
        parent_ok(its, x),
        forall|j: int| 0 <= j < its.len() ==> !same_source_path(#[trigger] its[j], x),
        forall|j: int| 0 <= j < its.len() ==> !same_ordinal(#[trigger] its[j], x),
    ensures
        wf_parts(ixs, its.push(x), vs, ps, next + 1),
{
    let new_its = its.push(x);
    assert forall|i: int| 0 <= i < new_its.len() implies parent_ok(
        new_its,
        #[trigger] new_its[i],
    ) by {
        let it = new_its[i];
        if i < its.len() {
            assert(parent_ok(its, its[i]));
            if it.parent_id is Some {
                let w = choose|w: int|
                    0 <= w < its.len() && (#[trigger] its[w]).id == it.parent_id->0
                        && its[w].index_id == it.index_id;
                assert(new_its[w].id == it.parent_id->0 && new_its[w].index_id == it.index_id);
            }
        } else {
            if x.parent_id is Some {
                let w = choose|w: int|
                    0 <= w < its.len() && (#[trigger] its[w]).id == x.parent_id->0
                        && its[w].index_id == x.index_id;
                assert(new_its[w].id == x.parent_id->0 && new_its[w].index_id == x.index_id);
            }
        }
    }
    assert forall|i: int| 0 <= i < vs.len() implies has_item_id(
        new_its,
        (#[trigger] vs[i]).item_id as int,
    ) by {
        let w = choose|w: int| 0 <= w < its.len() && (#[trigger] its[w]).id == vs[i].item_id;
        assert(new_its[w].id == vs[i].item_id);
    }
    assert forall|i: int, j: int| 0 <= i < j < new_its.len() implies !same_source_path(
        #[trigger] new_its[i],
        #[trigger] new_its[j],
    ) by {
        if j == its.len() {
            assert(!same_source_path(its[i], x));
        }
    }
    assert forall|i: int, j: int| 0 <= i < j < new_its.len() implies !same_ordinal(
        #[trigger] new_its[i],
        #[trigger] new_its[j],
    ) by {
        if j == its.len() {
            assert(!same_ordinal(its[i], x));
        }
    }
}

proof fn lemma_push_version(
    ixs: Seq<Index>,
    its: Seq<VideoItem>,
    vs: Seq<VideoVersion>,
    ps: Seq<VideoPart>,
    next: int,
    x: VideoVersion,
)
    requires
        wf_parts(ixs, its, vs, ps, next),
        x.id == next,
        has_item_id(its, x.item_id as int),
    ensures
        wf_parts(ixs, its, vs.push(x), ps, next + 1),
{
    let new_vs = vs.push(x);
    assert forall|i: int| 0 <= i < ps.len() implies has_version_id(
        new_vs,
        (#[trigger] ps[i]).version_id as int,
    ) by {
        let w = choose|w: int| 0 <= w < vs.len() && (#[trigger] vs[w]).id == ps[i].version_id;
        assert(new_vs[w].id == ps[i].version_id);
    }
}

proof fn lemma_push_part(
    ixs: Seq<Index>,
    its: Seq<VideoItem>,
    vs: Seq<VideoVersion>,
    ps: Seq<VideoPart>,
    next: int,
    x: VideoPart,
)
    requires
        wf_parts(ixs, its, vs, ps, next),
        x.id == next,
        has_version_id(vs, x.version_id as int),
        forall|j: int| 0 <= j < ps.len() ==> !same_content_key(#[trigger] ps[j], x),
    ensures
        wf_parts(ixs, its, vs, ps.push(x), next + 1),
{
    let new_ps = ps.push(x);
    assert forall|i: int, j: int| 0 <= i < j < new_ps.len() implies !same_content_key(
        #[trigger] new_ps[i],
        #[trigger] new_ps[j],
    ) by {
        if j == ps.len() {
            assert(!same_content_key(ps[i], x));
        }
    }
}

proof fn lemma_update_item(
    ixs: Seq<Index>,
    its: Seq<VideoItem>,
    vs: Seq<VideoVersion>,
    ps: Seq<VideoPart>,
    next: int,
    k: int,
    x: VideoItem,
)
    requires
        wf_parts(ixs, its, vs, ps, next),
        0 <= k < its.len(),
        x.id == its[k].id,
        x.index_id == its[k].index_id,
        parent_ok(its, x),
        forall|j: int|
            0 <= j < its.len() && j != k ==> !same_source_path(#[trigger] its[j], x),
        forall|j: int| 0 <= j < its.len() && j != k ==> !same_ordinal(#[trigger] its[j], x),
    ensures
        wf_parts(ixs, its.update(k, x), vs, ps, next),
{
    let new_its = its.update(k, x);
    assert forall|i: int| 0 <= i < new_its.len() implies has_index_id(
        ixs,
        (#[trigger] new_its[i]).index_id as int,
    ) by {
        if i != k {
            assert(new_its[i] == its[i]);
        }
        assert(has_index_id(ixs, its[i].index_id as int));
    }
    assert forall|i: int| 0 <= i < new_its.len() implies parent_ok(
        new_its,
        #[trigger] new_its[i],
    ) by {
        let it = new_its[i];
        let source = if i == k {
            x
        } else {
            its[i]
        };
        assert(it == source);
        assert(parent_ok(its, source));
        if source.parent_id is Some {
            let w = choose|w: int|
                0 <= w < its.len() && (#[trigger] its[w]).id == source.parent_id->0
                    && its[w].index_id == source.index_id;
            if w == k {
                assert(new_its[k].id == x.id && x.id == its[k].id);
                assert(new_its[k].index_id == its[k].index_id);
            } else {
                assert(new_its[w] == its[w]);
            }
        }
    }
    assert forall|i: int| 0 <= i < vs.len() implies has_item_id(
        new_its,
        (#[trigger] vs[i]).item_id as int,
    ) by {
        let w = choose|w: int| 0 <= w < its.len() && (#[trigger] its[w]).id == vs[i].item_id;
        if w == k {
            assert(new_its[k].id == vs[i].item_id);
        } else {
            assert(new_its[w].id == vs[i].item_id);
        }
    }
    assert forall|i: int, j: int| 0 <= i < j < new_its.len() implies !same_source_path(
        #[trigger] new_its[i],
        #[trigger] new_its[j],
    ) by {
        if i != k && j != k {
            assert(new_its[i] == its[i] && new_its[j] == its[j]);
        } else if i == k {
            assert(new_its[j] == its[j]);
            assert(!same_source_path(its[j], x));
        } else {
            assert(new_its[i] == its[i]);
            assert(!same_source_path(its[i], x));
        }
    }
    assert forall|i: int, j: int| 0 <= i < j < new_its.len() implies !same_ordinal(
        #[trigger] new_its[i],
        #[trigger] new_its[j],
    ) by {
        if i != k && j != k {
            assert(new_its[i] == its[i] && new_its[j] == its[j]);
        } else if i == k {
            assert(new_its[j] == its[j]);
            assert(!same_ordinal(its[j], x));
        } else {
            assert(new_its[i] == its[i]);
            assert(!same_ordinal(its[i], x));
        }
    }
}

proof fn lemma_update_version(
    ixs: Seq<Index>,
    its: Seq<VideoItem>,
    vs: Seq<VideoVersion>,
    ps: Seq<VideoPart>,
    next: int,
    k: int,
    x: VideoVersion,
)
    requires
        wf_parts(ixs, its, vs, ps, next),
        0 <= k < vs.len(),
        x.id == vs[k].id,
        has_item_id(its, x.item_id as int),
    ensures
        wf_parts(ixs, its, vs.update(k, x), ps, next),
{
    let new_vs = vs.update(k, x);
    assert forall|i: int| 0 <= i < new_vs.len() implies has_item_id(
        its,
        (#[trigger] new_vs[i]).item_id as int,
    ) by {
        if i != k {
            assert(new_vs[i] == vs[i]);
        }
    }
    assert forall|i: int| 0 <= i < ps.len() implies has_version_id(
        new_vs,
        (#[trigger] ps[i]).version_id as int,
    ) by {
        let w = choose|w: int| 0 <= w < vs.len() && (#[trigger] vs[w]).id == ps[i].version_id;
        if w == k {
            assert(new_vs[k].id == ps[i].version_id);
        } else {
            assert(new_vs[w].id == ps[i].version_id);
        }
    }
}

proof fn lemma_update_part(
    ixs: Seq<Index>,
    its: Seq<VideoItem>,
    vs: Seq<VideoVersion>,
    ps: Seq<VideoPart>,
    next: int,
    k: int,
    x: VideoPart,
)
    requires
        wf_parts(ixs, its, vs, ps, next),
        0 <= k < ps.len(),
        x.id == ps[k].id,
        has_version_id(vs, x.version_id as int),
        forall|j: int| 0 <= j < ps.len() && j != k ==> !same_content_key(#[trigger] ps[j], x),
    ensures
        wf_parts(ixs, its, vs, ps.update(k, x), next),
{
    let new_ps = ps.update(k, x);
    assert forall|i: int| 0 <= i < new_ps.len() implies has_version_id(
        vs,
        (#[trigger] new_ps[i]).version_id as int,
    ) by {
        if i != k {
            assert(new_ps[i] == ps[i]);
        }
    }
    assert forall|i: int, j: int| 0 <= i < j < new_ps.len() implies !same_content_key(
        #[trigger] new_ps[i],
        #[trigger] new_ps[j],
    ) by {
        if i != k && j != k {
            assert(new_ps[i] == ps[i] && new_ps[j] == ps[j]);
        } else if i == k {
            assert(new_ps[j] == ps[j]);
            assert(!same_content_key(ps[j], x));
        } else {
            assert(new_ps[i] == ps[i]);
            assert(!same_content_key(ps[i], x));
        }
    }
}

proof fn lemma_remove_part(
    ixs: Seq<Index>,
    its: Seq<VideoItem>,
    vs: Seq<VideoVersion>,
    ps: Seq<VideoPart>,
    next: int,
    k: int,
)
    requires
        wf_parts(ixs, its, vs, ps, next),
        0 <= k < ps.len(),
    ensures
        wf_parts(ixs, its, vs, ps.remove(k), next),
{
    let new_ps = ps.remove(k);
    assert forall|i: int| 0 <= i < new_ps.len() implies has_version_id(
        vs,
        (#[trigger] new_ps[i]).version_id as int,
    ) && 1 <= new_ps[i].id < next by {
        if i < k {
            assert(new_ps[i] == ps[i]);
        } else {
            assert(new_ps[i] == ps[i + 1]);
        }
    }
    assert forall|i: int, j: int| 0 <= i < j < new_ps.len() implies !same_content_key(
        #[trigger] new_ps[i],
        #[trigger] new_ps[j],
    ) && new_ps[i].id != new_ps[j].id by {
        let oi = if i < k {
            i
        } else {
            i + 1
        };
        let oj = if j < k {
            j
        } else {
            j + 1
        };
        assert(new_ps[i] == ps[oi] && new_ps[j] == ps[oj]);
        assert(!same_content_key(ps[oi], ps[oj]));
    }
}

proof fn lemma_remove_version(
    ixs: Seq<Index>,
    its: Seq<VideoItem>,
    vs: Seq<VideoVersion>,
    ps: Seq<VideoPart>,
    next: int,
    k: int,
)
    requires
        wf_parts(ixs, its, vs, ps, next),
        0 <= k < vs.len(),
        forall|j: int| 0 <= j < ps.len() ==> (#[trigger] ps[j]).version_id != vs[k].id,
    ensures
        wf_parts(ixs, its, vs.remove(k), ps, next),
{
    let new_vs = vs.remove(k);
    assert forall|i: int| 0 <= i < new_vs.len() implies has_item_id(
        its,
        (#[trigger] new_vs[i]).item_id as int,
    ) && 1 <= new_vs[i].id < next by {
        if i < k {
            assert(new_vs[i] == vs[i]);
        } else {
            assert(new_vs[i] == vs[i + 1]);
        }
    }
    assert forall|i: int, j: int| 0 <= i < j < new_vs.len() implies (#[trigger] new_vs[i]).id != (
    #[trigger] new_vs[j]).id by {
        let oi = if i < k {
            i
        } else {
            i + 1
        };
        let oj = if j < k {
            j
        } else {
            j + 1
        };
        assert(new_vs[i] == vs[oi] && new_vs[j] == vs[oj]);
    }
    assert forall|i: int| 0 <= i < ps.len() implies has_version_id(
        new_vs,
        (#[trigger] ps[i]).version_id as int,
    ) by {
        let w = choose|w: int| 0 <= w < vs.len() && (#[trigger] vs[w]).id == ps[i].version_id;
        assert(vs[w].id != vs[k].id);
        if w < k {
            assert(new_vs[w].id == ps[i].version_id);
        } else {
            assert(new_vs[w - 1].id == ps[i].version_id);
        }
    }
}

proof fn lemma_remove_item(
    ixs: Seq<Index>,
    its: Seq<VideoItem>,
    vs: Seq<VideoVersion>,
    ps: Seq<VideoPart>,
    next: int,
    k: int,
)
    requires
        wf_parts(ixs, its, vs, ps, next),
        0 <= k < its.len(),
        forall|j: int| 0 <= j < vs.len() ==> (#[trigger] vs[j]).item_id != its[k].id,
        forall|j: int|
            0 <= j < its.len() ==> ((#[trigger] its[j]).parent_id is Some ==> its[j].parent_id->0
                != its[k].id),
    ensures
        wf_parts(ixs, its.remove(k), vs, ps, next),
{
    let new_its = its.remove(k);
    assert forall|i: int| 0 <= i < new_its.len() implies {
        &&& has_index_id(ixs, (#[trigger] new_its[i]).index_id as int)
        &&& 1 <= new_its[i].id < next
        &&& parent_ok(new_its, new_its[i])
    } by {
        let oi = if i < k {
            i
        } else {
            i + 1
        };
        assert(new_its[i] == its[oi]);
        assert(has_index_id(ixs, its[oi].index_id as int));
        assert(parent_ok(its, its[oi]));
        if its[oi].parent_id is Some {
            let w = choose|w: int|
                0 <= w < its.len() && (#[trigger] its[w]).id == its[oi].parent_id->0
                    && its[w].index_id == its[oi].index_id;
            assert(its[w].id != its[k].id);
            if w < k {
                assert(new_its[w] == its[w]);
            } else {
                assert(new_its[w - 1] == its[w]);
            }
        }
    }
    assert forall|i: int, j: int| 0 <= i < j < new_its.len() implies {
        &&& (#[trigger] new_its[i]).id != (#[trigger] new_its[j]).id
        &&& !same_source_path(new_its[i], new_its[j])
        &&& !same_ordinal(new_its[i], new_its[j])
    } by {
        let oi = if i < k {
            i
        } else {
            i + 1
        };
        let oj = if j < k {
            j
        } else {
            j + 1
        };
        assert(new_its[i] == its[oi] && new_its[j] == its[oj]);
        assert(!same_source_path(its[oi], its[oj]));
        assert(!same_ordinal(its[oi], its[oj]));
    }
    assert forall|i: int| 0 <= i < vs.len() implies has_item_id(
        new_its,
        (#[trigger] vs[i]).item_id as int,
    ) by {
        let w = choose|w: int| 0 <= w < its.len() && (#[trigger] its[w]).id == vs[i].item_id;
        assert(its[w].id != its[k].id);
        if w < k {
            assert(new_its[w].id == vs[i].item_id);
        } else {
            assert(new_its[w - 1].id == vs[i].item_id);
        }
    }
}

proof fn lemma_remove_index(
    ixs: Seq<Index>,
    its: Seq<VideoItem>,
    vs: Seq<VideoVersion>,
    ps: Seq<VideoPart>,
    next: int,
    k: int,
)
    requires
        wf_parts(ixs, its, vs, ps, next),
        0 <= k < ixs.len(),
        forall|j: int| 0 <= j < its.len() ==> (#[trigger] its[j]).index_id != ixs[k].id,
    ensures
        wf_parts(ixs.remove(k), its, vs, ps, next),
{
    let new_ixs = ixs.remove(k);
    assert forall|i: int, j: int| 0 <= i < j < new_ixs.len() implies (#[trigger] new_ixs[i]).id
        != (#[trigger] new_ixs[j]).id by {
        let oi = if i < k {
            i
        } else {
            i + 1
        };
        let oj = if j < k {
            j
        } else {
            j + 1
        };
        assert(new_ixs[i] == ixs[oi] && new_ixs[j] == ixs[oj]);
    }
    assert forall|i: int| 0 <= i < new_ixs.len() implies 1 <= (#[trigger] new_ixs[i]).id < next by {
        if i < k {
            assert(new_ixs[i] == ixs[i]);
        } else {
            assert(new_ixs[i] == ixs[i + 1]);
        }
    }
    assert forall|i: int| 0 <= i < its.len() implies has_index_id(
        new_ixs,
        (#[trigger] its[i]).index_id as int,
    ) by {
        let w = choose|w: int| 0 <= w < ixs.len() && (#[trigger] ixs[w]).id == its[i].index_id;
        assert(ixs[w].id != ixs[k].id);
        if w < k {
            assert(new_ixs[w].id == its[i].index_id);
        } else {
            assert(new_ixs[w - 1].id == its[i].index_id);
        }
    }
}

// ---------- copies of rows ----------

fn clone_opt_string(o: &Option<String>) -> (r: Option<String>)
    ensures
        r == *o,
{
    match o {
        Some(s) => Some(s.clone()),
        None => None,
    }
}

fn clone_string_vec(v: &Vec<String>) -> (r: Vec<String>)
    ensures
        r@ == v@,
{
    let mut r: Vec<String> = Vec::new();
    let mut i: usize = 0;
    while i < v.len()
        invariant
            i <= v@.len(),
            r@ == v@.subrange(0, i as int),
        decreases v@.len() - i,
    {
        r.push(v[i].clone());
        i = i + 1;
        proof {
            assert(r@ =~= v@.subrange(0, i as int));
        }
    }
    proof {
        assert(r@ =~= v@);
    }
    r
}

/// The two index rows agree field by field.
pub open spec fn same_index_row(a: Index, b: Index) -> bool {
    &&& a.id == b.id
    &&& a.name == b.name
    &&& a.kind == b.kind
    &&& a.is_plugin == b.is_plugin
    &&& a.icon == b.icon
    &&& a.folders@ == b.folders@
    &&& a.scan_status == b.scan_status
    &&& a.last_scanned_at == b.last_scanned_at
    &&& a.created_at == b.created_at
}

pub fn copy_index(x: &Index) -> (r: Index)
    ensures
        same_index_row(r, *x),
{
    Index {
        id: x.id,
        name: x.name.clone(),
        kind: x.kind.clone(),
        is_plugin: x.is_plugin,
        icon: clone_opt_string(&x.icon),
        folders: clone_string_vec(&x.folders),
        scan_status: x.scan_status,
        last_scanned_at: x.last_scanned_at,
        created_at: x.created_at,
    }
}

pub fn copy_item(x: &VideoItem) -> (r: VideoItem)
    ensures
        r == *x,
{
    VideoItem {
        id: x.id,
        index_id: x.index_id,
        kind: x.kind,
        parent_id: x.parent_id,
        title: x.title.clone(),
        sort_title: clone_opt_string(&x.sort_title),
        year: x.year,
        number: x.number,
        source_path: clone_opt_string(&x.source_path),
        metadata: ItemMeta {
            air_date: clone_opt_string(&x.metadata.air_date),
            extra_type: clone_opt_string(&x.metadata.extra_type),
        },
        added_at: x.added_at,
        latest_added_at: x.latest_added_at,
        created_at: x.created_at,
        updated_at: x.updated_at,
    }
}

pub fn copy_version(x: &VideoVersion) -> (r: VideoVersion)
    ensures
        r == *x,
{
    VideoVersion {
        id: x.id,
        item_id: x.item_id,
        edition: clone_opt_string(&x.edition),
        source: clone_opt_string(&x.source),
        container: clone_opt_string(&x.container),
        resolution: clone_opt_string(&x.resolution),
        hdr: x.hdr,
        audio_channels: x.audio_channels,
        bitrate: x.bitrate,
        runtime_ms: x.runtime_ms,
        probe_version: clone_opt_string(&x.probe_version),
        created_at: x.created_at,
        updated_at: x.updated_at,
    }
}

pub fn copy_part(x: &VideoPart) -> (r: VideoPart)
    ensures
        r == *x,
{
    VideoPart {
        id: x.id,
        version_id: x.version_id,
        path: x.path.clone(),
        size: x.size,
        mtime: x.mtime,
        part_index: x.part_index,
        duration_ms: x.duration_ms,
        fast_hash: clone_opt_string(&x.fast_hash),
        created_at: x.created_at,
        updated_at: x.updated_at,
    }
}

// ---------- the weak invariant, for mid-cascade states ----------

/// Everything of the invariant except referential integrity: what still
/// holds while a cascade is removing orphaned rows.
pub open spec fn weak_wf_parts(
    ixs: Seq<Index>,
    its: Seq<VideoItem>,
    vs: Seq<VideoVersion>,
    ps: Seq<VideoPart>,
    next: int,
) -> bool {
    &&& forall|i: int, j: int|
        0 <= i < j < ixs.len() ==> (#[trigger] ixs[i]).id != (#[trigger] ixs[j]).id
    &&& forall|i: int, j: int|
        0 <= i < j < its.len() ==> (#[trigger] its[i]).id != (#[trigger] its[j]).id
    &&& forall|i: int, j: int|
        0 <= i < j < vs.len() ==> (#[trigger] vs[i]).id != (#[trigger] vs[j]).id
    &&& forall|i: int, j: int|
        0 <= i < j < ps.len() ==> (#[trigger] ps[i]).id != (#[trigger] ps[j]).id
    &&& next >= 1
    &&& forall|i: int| 0 <= i < ixs.len() ==> 1 <= (#[trigger] ixs[i]).id < next
    &&& forall|i: int| 0 <= i < its.len() ==> 1 <= (#[trigger] its[i]).id < next
    &&& forall|i: int| 0 <= i < vs.len() ==> 1 <= (#[trigger] vs[i]).id < next
    &&& forall|i: int| 0 <= i < ps.len() ==> 1 <= (#[trigger] ps[i]).id < next
    &&& forall|i: int, j: int|
        0 <= i < j < ps.len() ==> !same_content_key(#[trigger] ps[i], #[trigger] ps[j])
    &&& forall|i: int, j: int|
        0 <= i < j < its.len() ==> !same_source_path(#[trigger] its[i], #[trigger] its[j])
    &&& forall|i: int, j: int|
        0 <= i < j < its.len() ==> !same_ordinal(#[trigger] its[i], #[trigger] its[j])
}

/// A removal in any table keeps the weak invariant.
proof fn lemma_weak_remove_index(
    ixs: Seq<Index>,
    its: Seq<VideoItem>,
    vs: Seq<VideoVersion>,
    ps: Seq<VideoPart>,
    next: int,
    k: int,
)
    requires
        weak_wf_parts(ixs, its, vs, ps, next),
        0 <= k < ixs.len(),
    ensures
        weak_wf_parts(ixs.remove(k), its, vs, ps, next),
{
    let new_ixs = ixs.remove(k);
    assert forall|i: int, j: int| 0 <= i < j < new_ixs.len() implies (#[trigger] new_ixs[i]).id
        != (#[trigger] new_ixs[j]).id by {
        let oi = if i < k {
            i
        } else {
            i + 1
        };
        let oj = if j < k {
            j
        } else {
            j + 1
        };
        assert(new_ixs[i] == ixs[oi] && new_ixs[j] == ixs[oj]);
    }
    assert forall|i: int| 0 <= i < new_ixs.len() implies 1 <= (#[trigger] new_ixs[i]).id < next by {
        if i < k {
            assert(new_ixs[i] == ixs[i]);
        } else {
            assert(new_ixs[i] == ixs[i + 1]);
        }
    }
}

proof fn lemma_weak_remove_item(
    ixs: Seq<Index>,
    its: Seq<VideoItem>,
    vs: Seq<VideoVersion>,
    ps: Seq<VideoPart>,
    next: int,
    k: int,
)
    requires
        weak_wf_parts(ixs, its, vs, ps, next),
        0 <= k < its.len(),
    ensures
        weak_wf_parts(ixs, its.remove(k), vs, ps, next),
{
    let new_its = its.remove(k);
    assert forall|i: int| 0 <= i < new_its.len() implies (#[trigger] new_its[i]).id < next by {
        if i < k {
            assert(new_its[i] == its[i]);
        } else {
            assert(new_its[i] == its[i + 1]);
        }
    }
    assert forall|i: int, j: int| 0 <= i < j < new_its.len() implies {
        &&& (#[trigger] new_its[i]).id != (#[trigger] new_its[j]).id
        &&& !same_source_path(new_its[i], new_its[j])
        &&& !same_ordinal(new_its[i], new_its[j])
    } by {
        let oi = if i < k {
            i
        } else {
            i + 1
        };
        let oj = if j < k {
            j
        } else {
            j + 1
        };
        assert(new_its[i] == its[oi] && new_its[j] == its[oj]);
        assert(!same_source_path(its[oi], its[oj]));
        assert(!same_ordinal(its[oi], its[oj]));
    }
}

proof fn lemma_weak_remove_version(
    ixs: Seq<Index>,
    its: Seq<VideoItem>,
    vs: Seq<VideoVersion>,
    ps: Seq<VideoPart>,
    next: int,
    k: int,
)
    requires
        weak_wf_parts(ixs, its, vs, ps, next),
        0 <= k < vs.len(),
    ensures
        weak_wf_parts(ixs, its, vs.remove(k), ps, next),
{
    let new_vs = vs.remove(k);
    assert forall|i: int| 0 <= i < new_vs.len() implies 1 <= (#[trigger] new_vs[i]).id < next by {
        if i < k {
            assert(new_vs[i] == vs[i]);
        } else {
            assert(new_vs[i] == vs[i + 1]);
        }
    }
    assert forall|i: int, j: int| 0 <= i < j < new_vs.len() implies (#[trigger] new_vs[i]).id != (
    #[trigger] new_vs[j]).id by {
        let oi = if i < k {
            i
        } else {
            i + 1
        };
        let oj = if j < k {
            j
        } else {
            j + 1
        };
        assert(new_vs[i] == vs[oi] && new_vs[j] == vs[oj]);
    }
}

proof fn lemma_weak_remove_part(
    ixs: Seq<Index>,
    its: Seq<VideoItem>,
    vs: Seq<VideoVersion>,
    ps: Seq<VideoPart>,
    next: int,
    k: int,
)
    requires
        weak_wf_parts(ixs, its, vs, ps, next),
        0 <= k < ps.len(),
    ensures
        weak_wf_parts(ixs, its, vs, ps.remove(k), next),
{
    let new_ps = ps.remove(k);
    assert forall|i: int| 0 <= i < new_ps.len() implies 1 <= (#[trigger] new_ps[i]).id < next by {
        if i < k {
            assert(new_ps[i] == ps[i]);
        } else {
            assert(new_ps[i] == ps[i + 1]);
        }
    }
    assert forall|i: int, j: int| 0 <= i < j < new_ps.len() implies {
        &&& (#[trigger] new_ps[i]).id != (#[trigger] new_ps[j]).id
        &&& !same_content_key(new_ps[i], new_ps[j])
    } by {
        let oi = if i < k {
            i
        } else {
            i + 1
        };
        let oj = if j < k {
            j
        } else {
            j + 1
        };
        assert(new_ps[i] == ps[oi] && new_ps[j] == ps[oj]);
        assert(!same_content_key(ps[oi], ps[oj]));
    }
}

/// A row's membership in a table, up to equality of the row value.
pub open spec fn items_subset(a: Seq<VideoItem>, b: Seq<VideoItem>) -> bool {
    forall|i: int| 0 <= i < a.len() ==> b.contains(#[trigger] a[i])
}

pub open spec fn versions_subset(a: Seq<VideoVersion>, b: Seq<VideoVersion>) -> bool {
    forall|i: int| 0 <= i < a.len() ==> b.contains(#[trigger] a[i])
}

pub open spec fn parts_subset(a: Seq<VideoPart>, b: Seq<VideoPart>) -> bool {
    forall|i: int| 0 <= i < a.len() ==> b.contains(#[trigger] a[i])
}

impl MediaStore {
    // ---------- position finders ----------

    #[verifier::loop_isolation(false)]
    fn index_pos(&self, id: i64) -> (r: Option<usize>)
        ensures
            match r {
                Some(p) => p < self.spec_indexes().len() && self.spec_indexes()[p as int].id
                    == id,
                None => !has_index_id(self.spec_indexes(), id as int),
            },
    {
        let mut i: usize = 0;
        while i < self.indexes.len()
            invariant
                i <= self.indexes@.len(),
                forall|j: int| 0 <= j < i ==> (#[trigger] self.indexes@[j]).id != id,
            decreases self.indexes@.len() - i,
        {
            if self.indexes[i].id == id {
                return Some(i);
            }
            i = i + 1;
        }
        None
    }

    #[verifier::loop_isolation(false)]
    fn item_pos(&self, id: i64) -> (r: Option<usize>)
        ensures
            match r {
                Some(p) => p < self.spec_items().len() && self.spec_items()[p as int].id == id,
                None => !has_item_id(self.spec_items(), id as int),
            },
    {
        let mut i: usize = 0;
        while i < self.items.len()
            invariant
                i <= self.items@.len(),
                forall|j: int| 0 <= j < i ==> (#[trigger] self.items@[j]).id != id,
            decreases self.items@.len() - i,
        {
            if self.items[i].id == id {
                return Some(i);
            }
            i = i + 1;
        }
        None
    }

    #[verifier::loop_isolation(false)]
    fn version_pos(&self, id: i64) -> (r: Option<usize>)
        ensures
            match r {
                Some(p) => p < self.spec_versions().len() && self.spec_versions()[p as int].id
                    == id,
                None => !has_version_id(self.spec_versions(), id as int),
            },
    {
        let mut i: usize = 0;
        while i < self.versions.len()
            invariant
                i <= self.versions@.len(),
                forall|j: int| 0 <= j < i ==> (#[trigger] self.versions@[j]).id != id,
            decreases self.versions@.len() - i,
        {
            if self.versions[i].id == id {
                return Some(i);
            }
            i = i + 1;
        }
        None
    }

    #[verifier::loop_isolation(false)]
    fn part_pos(&self, id: i64) -> (r: Option<usize>)
        ensures
            match r {
                Some(p) => p < self.spec_parts().len() && self.spec_parts()[p as int].id == id,
                None => !has_part_id(self.spec_parts(), id as int),
            },
    {
        let mut i: usize = 0;
        while i < self.parts.len()
            invariant
                i <= self.parts@.len(),
                forall|j: int| 0 <= j < i ==> (#[trigger] self.parts@[j]).id != id,
            decreases self.parts@.len() - i,
        {
            if self.parts[i].id == id {
                return Some(i);
            }
            i = i + 1;
        }
        None
    }

    fn take_id(&mut self) -> (r: Option<i64>)
        ensures
            match r {
                Some(id) => {
                    &&& id == old(self).spec_next_id()
                    &&& final(self).spec_next_id() == old(self).spec_next_id() + 1
                },
                None => *final(self) == *old(self),
            },
            r is None <==> old(self).spec_next_id() == i64::MAX,
            final(self).spec_indexes() == old(self).spec_indexes(),
            final(self).spec_items() == old(self).spec_items(),
            final(self).spec_versions() == old(self).spec_versions(),
            final(self).spec_parts() == old(self).spec_parts(),
    {
        if self.next_id == i64::MAX {
            return None;
        }
        let id = self.next_id;
        self.next_id = self.next_id + 1;
        Some(id)
    }

    // ---------- cascade sweep ----------

    #[verifier::loop_isolation(false)]
    fn find_orphan_item(&self) -> (r: Option<usize>)
        requires
            self.weak_wf(),
        ensures
            match r {
                Some(p) => p < self.spec_items().len() && {
                    let it = self.spec_items()[p as int];
                    !has_index_id(self.spec_indexes(), it.index_id as int) || !parent_ok(
                        self.spec_items(),
                        it,
                    )
                },
                None => forall|i: int|
                    0 <= i < self.spec_items().len() ==> has_index_id(
                        self.spec_indexes(),
                        (#[trigger] self.spec_items()[i]).index_id as int,
                    ) && parent_ok(self.spec_items(), self.spec_items()[i]),
            },
    {
        let mut i: usize = 0;
        while i < self.items.len()
            invariant
                i <= self.items@.len(),
                forall|j: int|
                    0 <= j < i ==> has_index_id(
                        self.spec_indexes(),
                        (#[trigger] self.items@[j]).index_id as int,
                    ) && parent_ok(self.items@, self.items@[j]),
            decreases self.items@.len() - i,
        {
            let it = &self.items[i];
            if self.index_pos(it.index_id).is_none() {
                return Some(i);
            }
            let pid = self.items[i].parent_id;
            match pid {
                Some(p) => {
                    match self.item_pos(p) {
                        Some(w) => {
                            if self.items[w].index_id != self.items[i].index_id {
                                proof {
                                    if parent_ok(self.items@, self.items@[i as int]) {
                                        let w2 = choose|w2: int|
                                            0 <= w2 < self.items@.len() && (
                                            #[trigger] self.items@[w2]).id == p
                                                && self.items@[w2].index_id
                                                == self.items@[i as int].index_id;
                                        if w2 < w as int {
                                            assert(self.items@[w2].id
                                                != self.items@[w as int].id);
                                        }
                                        if (w as int) < w2 {
                                            assert(self.items@[w as int].id
                                                != self.items@[w2].id);
                                        }
                                        assert(false);
                                    }
                                }
                                return Some(i);
                            }
                        },
                        None => {
                            return Some(i);
                        },
                    }
                },
                None => {},
            }
            proof {
                assert(parent_ok(self.items@, self.items@[i as int]));
            }
            i = i + 1;
        }
        None
    }

    #[verifier::loop_isolation(false)]
    fn find_orphan_version(&self) -> (r: Option<usize>)
        ensures
            match r {
                Some(p) => p < self.spec_versions().len() && !has_item_id(
                    self.spec_items(),
                    self.spec_versions()[p as int].item_id as int,
                ),
                None => forall|i: int|
                    0 <= i < self.spec_versions().len() ==> has_item_id(
                        self.spec_items(),
                        (#[trigger] self.spec_versions()[i]).item_id as int,
                    ),
            },
    {
        let mut i: usize = 0;
        while i < self.versions.len()
            invariant
                i <= self.versions@.len(),
                forall|j: int|
                    0 <= j < i ==> has_item_id(
                        self.spec_items(),
                        (#[trigger] self.versions@[j]).item_id as int,
                    ),
            decreases self.versions@.len() - i,
        {
            if self.item_pos(self.versions[i].item_id).is_none() {
                return Some(i);
            }
            i = i + 1;
        }
        None
    }

    #[verifier::loop_isolation(false)]
    fn find_orphan_part(&self) -> (r: Option<usize>)
        ensures
            match r {
                Some(p) => p < self.spec_parts().len() && !has_version_id(
                    self.spec_versions(),
                    self.spec_parts()[p as int].version_id as int,
                ),
                None => forall|i: int|
                    0 <= i < self.spec_parts().len() ==> has_version_id(
                        self.spec_versions(),
                        (#[trigger] self.spec_parts()[i]).version_id as int,
                    ),
            },
    {
        let mut i: usize = 0;
        while i < self.parts.len()
            invariant
                i <= self.parts@.len(),
                forall|j: int|
                    0 <= j < i ==> has_version_id(
                        self.spec_versions(),
                        (#[trigger] self.parts@[j]).version_id as int,
                    ),
            decreases self.parts@.len() - i,
        {
            if self.version_pos(self.parts[i].version_id).is_none() {
                return Some(i);
            }
            i = i + 1;
        }
        None
    }

    /// The weak invariant, over the whole store.
    pub open spec fn weak_wf(&self) -> bool {
        weak_wf_parts(
            self.spec_indexes(),
            self.spec_items(),
            self.spec_versions(),
            self.spec_parts(),
            self.spec_next_id(),
        )
    }

    /// Remove rows whose owner is gone, repeatedly, until the referential
    /// invariant holds again.
    #[verifier::loop_isolation(false)]
    fn sweep_orphans(&mut self)
        requires
            old(self).weak_wf(),
        ensures
            final(self).wf(),
            final(self).spec_indexes() == old(self).spec_indexes(),
            items_subset(final(self).spec_items(), old(self).spec_items()),
            versions_subset(final(self).spec_versions(), old(self).spec_versions()),
            parts_subset(final(self).spec_parts(), old(self).spec_parts()),
            final(self).spec_next_id() == old(self).spec_next_id(),
    {
        loop
            invariant
                self.weak_wf(),
                self.spec_indexes() == old(self).spec_indexes(),
                items_subset(self.spec_items(), old(self).spec_items()),
                versions_subset(self.spec_versions(), old(self).spec_versions()),
                parts_subset(self.spec_parts(), old(self).spec_parts()),
                self.spec_next_id() == old(self).spec_next_id(),
            decreases self.spec_items().len() + self.spec_versions().len()
                + self.spec_parts().len(),
        {
            let ghost pre_items = self.items@;
            let ghost pre_versions = self.versions@;
            let ghost pre_parts = self.parts@;
            match self.find_orphan_item() {
                Some(k) => {
                    proof {
                        lemma_weak_remove_item(
                            self.indexes@,
                            self.items@,
                            self.versions@,
                            self.parts@,
                            self.next_id as int,
                            k as int,
                        );
                    }
                    self.items.remove(k);
                    proof {
                        assert forall|i: int|
                            0 <= i < self.items@.len() implies old(self).items@.contains(
                            #[trigger] self.items@[i],
                        ) by {
                            let oi = if i < k {
                                i
                            } else {
                                i + 1
                            };
                            assert(self.items@[i] == pre_items[oi]);
                            assert(old(self).items@.contains(pre_items[oi]));
                        }
                    }
                    continue ;
                },
                None => {},
            }
            match self.find_orphan_version() {
                Some(k) => {
                    proof {
                        lemma_weak_remove_version(
                            self.indexes@,
                            self.items@,
                            self.versions@,
                            self.parts@,
                            self.next_id as int,
                            k as int,
                        );
                    }
                    self.versions.remove(k);
                    proof {
                        assert forall|i: int|
                            0 <= i < self.versions@.len() implies old(self).versions@.contains(
                            #[trigger] self.versions@[i],
                        ) by {
                            let oi = if i < k {
                                i
                            } else {
                                i + 1
                            };
                            assert(self.versions@[i] == pre_versions[oi]);
                            assert(old(self).versions@.contains(pre_versions[oi]));
                        }
                    }
                    continue ;
                },
                None => {},
            }
            match self.find_orphan_part() {
                Some(k) => {
                    proof {
                        lemma_weak_remove_part(
                            self.indexes@,
                            self.items@,
                            self.versions@,
                            self.parts@,
                            self.next_id as int,
                            k as int,
                        );
                    }
                    self.parts.remove(k);
                    proof {
                        assert forall|i: int|
                            0 <= i < self.parts@.len() implies old(self).parts@.contains(
                            #[trigger] self.parts@[i],
                        ) by {
                            let oi = if i < k {
                                i
                            } else {
                                i + 1
                            };
                            assert(self.parts@[i] == pre_parts[oi]);
                            assert(old(self).parts@.contains(pre_parts[oi]));
                        }
                    }
                    continue ;
                },
                None => {},
            }
            break ;
        }
    }
}

// ---------- predicates the contracts speak of ----------

/// The optional source path is free in the index.
pub open spec fn sp_free(its: Seq<VideoItem>, index_id: int, sp: Option<String>) -> bool {
    match sp {
        Some(s) => forall|j: int|
            0 <= j < its.len() ==> !((#[trigger] its[j]).index_id == index_id
                && its[j].source_path is Some && its[j].source_path->0@ == s@),
        None => true,
    }
}

/// The optional (parent, number) slot is free.
pub open spec fn ordinal_free(
    its: Seq<VideoItem>,
    parent_id: Option<i64>,
    number: Option<i64>,
) -> bool {
    match (parent_id, number) {
        (Some(p), Some(n)) => forall|j: int|
            0 <= j < its.len() ==> !((#[trigger] its[j]).parent_id is Some && its[j].parent_id->0
                == p && its[j].number is Some && its[j].number->0 == n),
        _ => true,
    }
}

/// The optional parent exists and lives in the index.
pub open spec fn parent_ref_ok(its: Seq<VideoItem>, index_id: int, parent_id: Option<i64>) -> bool {
    match parent_id {
        Some(p) => exists|j: int|
            0 <= j < its.len() && (#[trigger] its[j]).id == p && its[j].index_id == index_id,
        None => true,
    }
}

/// No part carries the (size, hash) content key.
pub open spec fn key_free_view(ps: Seq<VideoPart>, size: int, hash: Seq<char>) -> bool {
    forall|j: int| 0 <= j < ps.len() ==> !part_key_match(#[trigger] ps[j], size, hash)
}

/// The optional (size, fast hash) content key is free.
pub open spec fn key_free(ps: Seq<VideoPart>, size: Option<i64>, hash: Option<String>) -> bool {
    match (size, hash) {
        (Some(sz), Some(h)) => forall|j: int|
            0 <= j < ps.len() ==> !((#[trigger] ps[j]).size is Some && ps[j].size->0 == sz
                && ps[j].fast_hash is Some && ps[j].fast_hash->0@ == h@),
        _ => true,
    }
}

impl MediaStore {
    /// The other three tables are as they were.
    pub open spec fn same_but_items(&self, other: &MediaStore) -> bool {
        &&& self.spec_indexes() == other.spec_indexes()
        &&& self.spec_versions() == other.spec_versions()
        &&& self.spec_parts() == other.spec_parts()
    }

    pub open spec fn unchanged(&self, other: &MediaStore) -> bool {
        &&& self.spec_indexes() == other.spec_indexes()
        &&& self.spec_items() == other.spec_items()
        &&& self.spec_versions() == other.spec_versions()
        &&& self.spec_parts() == other.spec_parts()
        &&& self.spec_next_id() == other.spec_next_id()
    }

    // ---------- conflict checks ----------

    #[verifier::loop_isolation(false)]
    fn sp_taken(&self, index_id: i64, sp: &String, exclude_id: i64) -> (r: bool)
        ensures
            r == exists|j: int|
                0 <= j < self.spec_items().len() && (#[trigger] self.spec_items()[j]).index_id
                    == index_id && self.spec_items()[j].source_path is Some
                    && self.spec_items()[j].source_path->0@ == sp@ && self.spec_items()[j].id
                    != exclude_id,
    {
        let mut i: usize = 0;
        while i < self.items.len()
            invariant
                i <= self.items@.len(),
                forall|j: int|
                    0 <= j < i ==> !((#[trigger] self.items@[j]).index_id == index_id
                        && self.items@[j].source_path is Some
                        && self.items@[j].source_path->0@ == sp@ && self.items@[j].id
                        != exclude_id),
            decreases self.items@.len() - i,
        {
            let it = &self.items[i];
            if it.index_id == index_id && it.id != exclude_id {
                match &it.source_path {
                    Some(s) => {
                        if eq_string(s, sp) {
                            return true;
                        }
                    },
                    None => {},
                }
            }
            i = i + 1;
        }
        false
    }

    #[verifier::loop_isolation(false)]
    fn ordinal_taken(&self, parent_id: i64, number: i64) -> (r: bool)
        ensures
            r == exists|j: int|
                0 <= j < self.spec_items().len() && (#[trigger] self.spec_items()[j]).parent_id
                    is Some && self.spec_items()[j].parent_id->0 == parent_id
                    && self.spec_items()[j].number is Some && self.spec_items()[j].number->0
                    == number,
    {
        let mut i: usize = 0;
        while i < self.items.len()
            invariant
                i <= self.items@.len(),
                forall|j: int|
                    0 <= j < i ==> !((#[trigger] self.items@[j]).parent_id is Some
                        && self.items@[j].parent_id->0 == parent_id && self.items@[j].number
                        is Some && self.items@[j].number->0 == number),
            decreases self.items@.len() - i,
        {
            let it = &self.items[i];
            let pid_hit = match it.parent_id {
                Some(p) => p == parent_id,
                None => false,
            };
            let num_hit = match it.number {
                Some(n) => n == number,
                None => false,
            };
            if pid_hit && num_hit {
                return true;
            }
            i = i + 1;
        }
        false
    }

    #[verifier::loop_isolation(false)]
    fn key_taken(&self, size: i64, hash: &String, exclude_id: i64) -> (r: bool)
        ensures
            r == exists|j: int|
                0 <= j < self.spec_parts().len() && (#[trigger] self.spec_parts()[j]).size
                    is Some && self.spec_parts()[j].size->0 == size
                    && self.spec_parts()[j].fast_hash is Some
                    && self.spec_parts()[j].fast_hash->0@ == hash@ && self.spec_parts()[j].id
                    != exclude_id,
    {
        let mut i: usize = 0;
        while i < self.parts.len()
            invariant
                i <= self.parts@.len(),
                forall|j: int|
                    0 <= j < i ==> !((#[trigger] self.parts@[j]).size is Some
                        && self.parts@[j].size->0 == size && self.parts@[j].fast_hash is Some
                        && self.parts@[j].fast_hash->0@ == hash@ && self.parts@[j].id
                        != exclude_id),
            decreases self.parts@.len() - i,
        {
            let p = &self.parts[i];
            if p.id != exclude_id {
                let size_hit = match p.size {
                    Some(s) => s == size,
                    None => false,
                };
                if size_hit {
                    match &p.fast_hash {
                        Some(h) => {
                            if eq_string(h, hash) {
                                return true;
                            }
                        },
                        None => {},
                    }
                }
            }
            i = i + 1;
        }
        false
    }

    // ---------- indexes ----------

    /// Create an index; it starts idle with no scan yet.
    pub fn add_index(
        &mut self,
        name: String,
        kind: String,
        icon: Option<String>,
        folders: Vec<String>,
        now: i64,
    ) -> (r: Result<i64, StoreError>)
        requires
            old(self).wf(),
        ensures
            final(self).wf(),
            match r {
                Ok(id) => {
                    &&& id == old(self).spec_next_id()
                    &&& final(self).spec_next_id() == old(self).spec_next_id() + 1
                    &&& final(self).spec_indexes().len() == old(self).spec_indexes().len() + 1
                    &&& final(self).spec_indexes().subrange(
                        0,
                        old(self).spec_indexes().len() as int,
                    ) == old(self).spec_indexes()
                    &&& {
                        let x = final(self).spec_indexes().last();
                        &&& x.id == id
                        &&& x.name@ == name@
                        &&& x.kind@ == kind@
                        &&& !x.is_plugin
                        &&& x.icon == icon
                        &&& x.folders@ == folders@
                        &&& x.scan_status == ScanStatus::Idle
                        &&& x.last_scanned_at == 0
                        &&& x.created_at == now
                    }
                    &&& final(self).spec_items() == old(self).spec_items()
                    &&& final(self).spec_versions() == old(self).spec_versions()
                    &&& final(self).spec_parts() == old(self).spec_parts()
                },
                Err(e) => final(self).unchanged(old(self)) && e == StoreError::MissingIndex,
            },
            r is Err <==> old(self).spec_next_id() == i64::MAX,
    {
        let id = match self.take_id() {
            Some(id) => id,
            None => {
                return Err(StoreError::MissingIndex);
            },
        };
        let mut x = Index::new(name, kind, icon, folders, now);
        x.id = id;
        proof {
            lemma_push_index(
                self.indexes@,
                self.items@,
                self.versions@,
                self.parts@,
                id as int,
                x,
            );
        }
        self.indexes.push(x);
        proof {
            assert(self.indexes@.subrange(0, old(self).indexes@.len() as int) =~= old(self).indexes@);
        }
        Ok(id)
    }

    /// All indexes, in creation order.
    #[verifier::loop_isolation(false)]
    pub fn get_all_indexes(&self) -> (r: Vec<Index>)
        ensures
            r@.len() == self.spec_indexes().len(),
            forall|k: int|
                0 <= k < r@.len() ==> same_index_row(#[trigger] r@[k], self.spec_indexes()[k]),
    {
        let mut r: Vec<Index> = Vec::new();
        let mut i: usize = 0;
        while i < self.indexes.len()
            invariant
                i <= self.indexes@.len(),
                r@.len() == i,
                forall|k: int|
                    0 <= k < i ==> same_index_row(#[trigger] r@[k], self.spec_indexes()[k]),
            decreases self.indexes@.len() - i,
        {
            r.push(copy_index(&self.indexes[i]));
            i = i + 1;
        }
        r
    }

    /// The index with the given id.
    pub fn get_index_by_id(&self, id: i64) -> (r: Option<Index>)
        ensures
            match r {
                Some(x) => exists|t: int|
                    0 <= t < self.spec_indexes().len() && same_index_row(
                        x,
                        #[trigger] self.spec_indexes()[t],
                    ) && self.spec_indexes()[t].id == id,
                None => !has_index_id(self.spec_indexes(), id as int),
            },
    {
        match self.index_pos(id) {
            Some(p) => Some(copy_index(&self.indexes[p])),
            None => None,
        }
    }

    /// The indexes of one kind, in order.
    #[verifier::loop_isolation(false)]
    pub fn get_indexes_by_type(&self, kind: &str) -> (r: Vec<Index>)
        ensures
            forall|k: int|
                0 <= k < r@.len() ==> (#[trigger] r@[k]).kind@ == kind@ && exists|t: int|
                    0 <= t < self.spec_indexes().len() && same_index_row(
                        r@[k],
                        #[trigger] self.spec_indexes()[t],
                    ),
            forall|t: int|
                0 <= t < self.spec_indexes().len() && (#[trigger] self.spec_indexes()[t]).kind@
                    == kind@ ==> exists|k: int|
                    0 <= k < r@.len() && same_index_row(#[trigger] r@[k], self.spec_indexes()[t]),
    {
        let mut r: Vec<Index> = Vec::new();
        let mut i: usize = 0;
        while i < self.indexes.len()
            invariant
                i <= self.indexes@.len(),
                forall|k: int|
                    0 <= k < r@.len() ==> (#[trigger] r@[k]).kind@ == kind@ && exists|t: int|
                        0 <= t < self.spec_indexes().len() && same_index_row(
                            r@[k],
                            #[trigger] self.spec_indexes()[t],
                        ),
                forall|t: int|
                    0 <= t < i && (#[trigger] self.spec_indexes()[t]).kind@ == kind@ ==> exists|
                        k: int,
                    |
                        0 <= k < r@.len() && same_index_row(
                            #[trigger] r@[k],
                            self.spec_indexes()[t],
                        ),
            decreases self.indexes@.len() - i,
        {
            let ghost prev = r@;
            if str_eq_str(self.indexes[i].kind.as_str(), kind) {
                r.push(copy_index(&self.indexes[i]));
                proof {
                    assert(same_index_row(r@[prev.len() as int], self.spec_indexes()[i as int]));
                }
            }
            proof {
                assert forall|t: int|
                    0 <= t < i + 1 && (#[trigger] self.spec_indexes()[t]).kind@ == kind@ implies
                    exists|k: int|
                        0 <= k < r@.len() && same_index_row(
                            #[trigger] r@[k],
                            self.spec_indexes()[t],
                        ) by {
                    if t < i {
                        let k = choose|k: int|
                            0 <= k < prev.len() && same_index_row(
                                #[trigger] prev[k],
                                self.spec_indexes()[t],
                            );
                        assert(r@[k] == prev[k]);
                    } else {
                        assert(same_index_row(r@[r@.len() - 1], self.spec_indexes()[t]));
                    }
                }
            }
            i = i + 1;
        }
        r
    }

    /// The indexes in one scan state, in order.
    #[verifier::loop_isolation(false)]
    pub fn get_indexes_by_scan_status(&self, status: ScanStatus) -> (r: Vec<Index>)
        ensures
            forall|k: int|
                0 <= k < r@.len() ==> (#[trigger] r@[k]).scan_status == status && exists|t: int|
                    0 <= t < self.spec_indexes().len() && same_index_row(
                        r@[k],
                        #[trigger] self.spec_indexes()[t],
                    ),
            forall|t: int|
                0 <= t < self.spec_indexes().len() && (
                #[trigger] self.spec_indexes()[t]).scan_status == status ==> exists|k: int|
                    0 <= k < r@.len() && same_index_row(#[trigger] r@[k], self.spec_indexes()[t]),
    {
        let mut r: Vec<Index> = Vec::new();
        let mut i: usize = 0;
        while i < self.indexes.len()
            invariant
                i <= self.indexes@.len(),
                forall|k: int|
                    0 <= k < r@.len() ==> (#[trigger] r@[k]).scan_status == status && exists|
                        t: int,
                    |
                        0 <= t < self.spec_indexes().len() && same_index_row(
                            r@[k],
                            #[trigger] self.spec_indexes()[t],
                        ),
                forall|t: int|
                    0 <= t < i && (#[trigger] self.spec_indexes()[t]).scan_status == status
                        ==> exists|k: int|
                        0 <= k < r@.len() && same_index_row(
                            #[trigger] r@[k],
                            self.spec_indexes()[t],
                        ),
            decreases self.indexes@.len() - i,
        {
            let ghost prev = r@;
            if self.indexes[i].scan_status == status {
                r.push(copy_index(&self.indexes[i]));
                proof {
                    assert(same_index_row(r@[prev.len() as int], self.spec_indexes()[i as int]));
                }
            }
            proof {
                assert forall|t: int|
                    0 <= t < i + 1 && (#[trigger] self.spec_indexes()[t]).scan_status == status
                    implies exists|k: int|
                        0 <= k < r@.len() && same_index_row(
                            #[trigger] r@[k],
                            self.spec_indexes()[t],
                        ) by {
                    if t < i {
                        let k = choose|k: int|
                            0 <= k < prev.len() && same_index_row(
                                #[trigger] prev[k],
                                self.spec_indexes()[t],
                            );
                        assert(r@[k] == prev[k]);
                    } else {
                        assert(same_index_row(r@[r@.len() - 1], self.spec_indexes()[t]));
                    }
                }
            }
            i = i + 1;
        }
        r
    }

    /// Rename an index or replace its icon and folders.
    pub fn update_index(
        &mut self,
        id: i64,
        name: String,
        icon: Option<String>,
        folders: Vec<String>,
    ) -> (r: Result<(), StoreError>)
        requires
            old(self).wf(),
        ensures
            final(self).wf(),
            r is Ok <==> has_index_id(old(self).spec_indexes(), id as int),
            match r {
                Ok(_) => {
                    &&& final(self).spec_indexes().len() == old(self).spec_indexes().len()
                    &&& exists|k: int|
                        0 <= k < old(self).spec_indexes().len() && (
                        #[trigger] old(self).spec_indexes()[k]).id == id && final(self).spec_indexes() == old(self).spec_indexes().update(
                            k,
                            final(self).spec_indexes()[k],
                        ) && {
                            let x = final(self).spec_indexes()[k];
                            let o = old(self).spec_indexes()[k];
                            &&& x.id == id
                            &&& x.name@ == name@
                            &&& x.icon == icon
                            &&& x.folders@ == folders@
                            &&& x.kind == o.kind
                            &&& x.is_plugin == o.is_plugin
                            &&& x.scan_status == o.scan_status
                            &&& x.last_scanned_at == o.last_scanned_at
                            &&& x.created_at == o.created_at
                        }
                    &&& final(self).spec_items() == old(self).spec_items()
                    &&& final(self).spec_versions() == old(self).spec_versions()
                    &&& final(self).spec_parts() == old(self).spec_parts()
                    &&& final(self).spec_next_id() == old(self).spec_next_id()
                },
                Err(e) => final(self).unchanged(old(self)) && e == StoreError::MissingIndex,
            },
    {
        let p = match self.index_pos(id) {
            Some(p) => p,
            None => {
                return Err(StoreError::MissingIndex);
            },
        };
        let old_row = &self.indexes[p];
        let x = Index {
            id: old_row.id,
            name,
            kind: old_row.kind.clone(),
            is_plugin: old_row.is_plugin,
            icon,
            folders,
            scan_status: old_row.scan_status,
            last_scanned_at: old_row.last_scanned_at,
            created_at: old_row.created_at,
        };
        proof {
            lemma_wf_update_index(
                self.indexes@,
                self.items@,
                self.versions@,
                self.parts@,
                self.next_id as int,
                p as int,
                x,
            );
        }
        self.indexes.set(p, x);
        Ok(())
    }

    /// Move an index to a scan state.
    pub fn update_scan_status(&mut self, id: i64, status: ScanStatus) -> (r: Result<
        (),
        StoreError,
    >)
        requires
            old(self).wf(),
        ensures
            final(self).wf(),
            r is Ok <==> has_index_id(old(self).spec_indexes(), id as int),
            match r {
                Ok(_) => {
                    &&& final(self).spec_indexes().len() == old(self).spec_indexes().len()
                    &&& exists|k: int|
                        0 <= k < old(self).spec_indexes().len() && (
                        #[trigger] old(self).spec_indexes()[k]).id == id && final(self).spec_indexes() == old(self).spec_indexes().update(
                            k,
                            final(self).spec_indexes()[k],
                        ) && {
                            let x = final(self).spec_indexes()[k];
                            let o = old(self).spec_indexes()[k];
                            &&& x.scan_status == status
                            &&& x.id == o.id
                            &&& x.name == o.name
                            &&& x.kind == o.kind
                            &&& x.is_plugin == o.is_plugin
                            &&& x.icon == o.icon
                            &&& x.folders@ == o.folders@
                            &&& x.last_scanned_at == o.last_scanned_at
                            &&& x.created_at == o.created_at
                        }
                    &&& final(self).spec_items() == old(self).spec_items()
                    &&& final(self).spec_versions() == old(self).spec_versions()
                    &&& final(self).spec_parts() == old(self).spec_parts()
                    &&& final(self).spec_next_id() == old(self).spec_next_id()
                },
                Err(e) => final(self).unchanged(old(self)) && e == StoreError::MissingIndex,
            },
    {
        let p = match self.index_pos(id) {
            Some(p) => p,
            None => {
                return Err(StoreError::MissingIndex);
            },
        };
        let mut x = copy_index(&self.indexes[p]);
        x.scan_status = status;
        proof {
            lemma_wf_update_index(
                self.indexes@,
                self.items@,
                self.versions@,
                self.parts@,
                self.next_id as int,
                p as int,
                x,
            );
        }
        self.indexes.set(p, x);
        Ok(())
    }

    /// Move an index to a scan state and record when it was last scanned.
    pub fn update_scan_status_with_timestamp(
        &mut self,
        id: i64,
        status: ScanStatus,
        ts: i64,
    ) -> (r: Result<(), StoreError>)
        requires
            old(self).wf(),
        ensures
            final(self).wf(),
            r is Ok <==> has_index_id(old(self).spec_indexes(), id as int),
            match r {
                Ok(_) => {
                    &&& final(self).spec_indexes().len() == old(self).spec_indexes().len()
                    &&& exists|k: int|
                        0 <= k < old(self).spec_indexes().len() && (
                        #[trigger] old(self).spec_indexes()[k]).id == id && final(self).spec_indexes() == old(self).spec_indexes().update(
                            k,
                            final(self).spec_indexes()[k],
                        ) && {
                            let x = final(self).spec_indexes()[k];
                            let o = old(self).spec_indexes()[k];
                            &&& x.scan_status == status
                            &&& x.last_scanned_at == ts
                            &&& x.id == o.id
                            &&& x.name == o.name
                            &&& x.kind == o.kind
                            &&& x.folders@ == o.folders@
                        }
                    &&& final(self).spec_items() == old(self).spec_items()
                    &&& final(self).spec_versions() == old(self).spec_versions()
                    &&& final(self).spec_parts() == old(self).spec_parts()
                    &&& final(self).spec_next_id() == old(self).spec_next_id()
                },
                Err(e) => final(self).unchanged(old(self)) && e == StoreError::MissingIndex,
            },
    {
        let p = match self.index_pos(id) {
            Some(p) => p,
            None => {
                return Err(StoreError::MissingIndex);
            },
        };
        let mut x = copy_index(&self.indexes[p]);
        x.scan_status = status;
        x.last_scanned_at = ts;
        proof {
            lemma_wf_update_index(
                self.indexes@,
                self.items@,
                self.versions@,
                self.parts@,
                self.next_id as int,
                p as int,
                x,
            );
        }
        self.indexes.set(p, x);
        Ok(())
    }

    /// Whether an index already carries the name, optionally ignoring one id.
    #[verifier::loop_isolation(false)]
    pub fn name_exists(&self, name: &str, exclude_id: i64) -> (r: bool)
        ensures
            r == exists|j: int|
                0 <= j < self.spec_indexes().len() && (#[trigger] self.spec_indexes()[j]).name@
                    == name@ && self.spec_indexes()[j].id != exclude_id,
    {
        let mut i: usize = 0;
        while i < self.indexes.len()
            invariant
                i <= self.indexes@.len(),
                forall|j: int|
                    0 <= j < i ==> !((#[trigger] self.spec_indexes()[j]).name@ == name@
                        && self.spec_indexes()[j].id != exclude_id),
            decreases self.indexes@.len() - i,
        {
            if self.indexes[i].id != exclude_id && str_eq_str(self.indexes[i].name.as_str(), name) {
                return true;
            }
            i = i + 1;
        }
        false
    }

    /// Delete an index; its items, their versions and their parts go with
    /// it.
    pub fn delete_index(&mut self, id: i64) -> (r: Result<(), StoreError>)
        requires
            old(self).wf(),
        ensures
            final(self).wf(),
            r is Ok <==> has_index_id(old(self).spec_indexes(), id as int),
            !has_index_id(final(self).spec_indexes(), id as int),
            items_subset(final(self).spec_items(), old(self).spec_items()),
            versions_subset(final(self).spec_versions(), old(self).spec_versions()),
            parts_subset(final(self).spec_parts(), old(self).spec_parts()),
            r is Err ==> final(self).unchanged(old(self)),
    {
        let p = match self.index_pos(id) {
            Some(p) => p,
            None => {
                return Err(StoreError::MissingIndex);
            },
        };
        let ghost pre = self.indexes@;
        proof {
            lemma_weak_remove_index(
                self.indexes@,
                self.items@,
                self.versions@,
                self.parts@,
                self.next_id as int,
                p as int,
            );
        }
        self.indexes.remove(p);
        proof {
            assert forall|i: int| 0 <= i < self.indexes@.len() implies (
            #[trigger] self.indexes@[i]).id != id by {
                let oi = if i < p {
                    i
                } else {
                    i + 1
                };
                assert(self.indexes@[i] == pre[oi]);
                if oi != p {
                    if oi < p {
                        assert(pre[oi].id != pre[p as int].id);
                    } else {
                        assert(pre[p as int].id != pre[oi].id);
                    }
                }
            }
        }
        self.sweep_orphans();
        Ok(())
    }
}

/// An item carries the source path within the index.
pub open spec fn item_sp_match(it: VideoItem, index_id: int, sp: Seq<char>) -> bool {
    &&& it.index_id == index_id
    &&& it.source_path is Some
    &&& it.source_path->0@ == sp
}

/// An item sits under the parent with the number.
pub open spec fn item_pn_match(it: VideoItem, parent_id: int, number: int) -> bool {
    &&& it.parent_id is Some
    &&& it.parent_id->0 == parent_id
    &&& it.number is Some
    &&& it.number->0 == number
}

/// A part carries the content key.
pub open spec fn part_key_match(p: VideoPart, size: int, hash: Seq<char>) -> bool {
    &&& p.size is Some
    &&& p.size->0 == size
    &&& p.fast_hash is Some
    &&& p.fast_hash->0@ == hash
}

impl MediaStore {
    // ---------- video items ----------

    /// Create an item: its index must exist, its parent (when given) must
    /// exist in that index, its source path and its (parent, number) slot
    /// must be free.
    pub fn add_video_item(
        &mut self,
        index_id: i64,
        kind: ItemKind,
        title: String,
        parent_id: Option<i64>,
        source_path: Option<String>,
        number: Option<i64>,
        year: Option<i64>,
        metadata: ItemMeta,
        now: i64,
    ) -> (r: Result<i64, StoreError>)
        requires
            old(self).wf(),
        ensures
            final(self).wf(),
            r is Ok <==> (has_index_id(old(self).spec_indexes(), index_id as int) && parent_ref_ok(
                old(self).spec_items(),
                index_id as int,
                parent_id,
            ) && sp_free(old(self).spec_items(), index_id as int, source_path) && ordinal_free(
                old(self).spec_items(),
                parent_id,
                number,
            ) && old(self).spec_next_id() < i64::MAX),
            match r {
                Ok(id) => {
                    &&& id == old(self).spec_next_id()
                    &&& final(self).spec_next_id() == old(self).spec_next_id() + 1
                    &&& final(self).spec_items().len() == old(self).spec_items().len() + 1
                    &&& final(self).spec_items().subrange(0, old(self).spec_items().len() as int)
                        == old(self).spec_items()
                    &&& {
                        let x = final(self).spec_items().last();
                        &&& x.id == id
                        &&& x.index_id == index_id
                        &&& x.kind == kind
                        &&& x.parent_id == parent_id
                        &&& x.title@ == title@
                        &&& x.number == number
                        &&& x.year == year
                        &&& x.source_path == source_path
                        &&& x.metadata == metadata
                        &&& x.added_at == now
                        &&& x.updated_at == now
                    }
                    &&& final(self).spec_indexes() == old(self).spec_indexes()
                    &&& final(self).spec_versions() == old(self).spec_versions()
                    &&& final(self).spec_parts() == old(self).spec_parts()
                },
                Err(_) => final(self).unchanged(old(self)),
            },
    {
        if self.index_pos(index_id).is_none() {
            return Err(StoreError::MissingIndex);
        }
        match parent_id {
            Some(p) => {
                match self.item_pos(p) {
                    Some(w) => {
                        if self.items[w].index_id != index_id {
                            proof {
                                lemma_no_other_with_id(self.items@, w as int);
                            }
                            return Err(StoreError::MissingParent);
                        }
                    },
                    None => {
                        return Err(StoreError::MissingParent);
                    },
                }
            },
            None => {},
        }
        match &source_path {
            Some(sp) => {
                if self.sp_taken(index_id, sp, -1) {
                    proof {
                        assert(!sp_free(self.items@, index_id as int, source_path)) by {
                            let j = choose|j: int|
                                0 <= j < self.items@.len() && (#[trigger] self.items@[j]).index_id
                                    == index_id && self.items@[j].source_path is Some
                                    && self.items@[j].source_path->0@ == sp@
                                    && self.items@[j].id != -1;
                            assert(self.items@[j].index_id == index_id as int
                                && self.items@[j].source_path is Some
                                && self.items@[j].source_path->0@ == source_path->0@);
                        }
                    }
                    return Err(StoreError::DuplicateSourcePath);
                }
            },
            None => {},
        }
        match (parent_id, number) {
            (Some(p), Some(n)) => {
                if self.ordinal_taken(p, n) {
                    return Err(StoreError::DuplicateNumber);
                }
            },
            _ => {},
        }
        let id = match self.take_id() {
            Some(id) => id,
            None => {
                return Err(StoreError::MissingItem);
            },
        };
        let mut x = VideoItem::new(index_id, kind, title, parent_id, metadata, now);
        x.id = id;
        x.number = number;
        x.year = year;
        x.source_path = source_path;
        proof {
            assert forall|j: int| 0 <= j < self.items@.len() implies !same_source_path(
                #[trigger] self.items@[j],
                x,
            ) by {
                if x.source_path is Some {
                    assert(sp_free(self.items@, index_id as int, x.source_path));
                }
            }
            assert forall|j: int| 0 <= j < self.items@.len() implies !same_ordinal(
                #[trigger] self.items@[j],
                x,
            ) by {}
            lemma_push_item(
                self.indexes@,
                self.items@,
                self.versions@,
                self.parts@,
                id as int,
                x,
            );
        }
        self.items.push(x);
        proof {
            assert(self.items@.subrange(0, old(self).items@.len() as int) =~= old(self).items@);
        }
        Ok(id)
    }

    /// The item with the given id.
    pub fn get_video_item_by_id(&self, id: i64) -> (r: Option<VideoItem>)
        ensures
            match r {
                Some(x) => x.id == id && self.spec_items().contains(x),
                None => !has_item_id(self.spec_items(), id as int),
            },
    {
        match self.item_pos(id) {
            Some(p) => {
                let x = copy_item(&self.items[p]);
                proof {
                    assert(self.items@[p as int] == x);
                }
                Some(x)
            },
            None => None,
        }
    }

    /// The items of an index, in creation order.
    #[verifier::loop_isolation(false)]
    pub fn get_video_items_by_index(&self, index_id: i64) -> (r: Vec<VideoItem>)
        ensures
            forall|k: int|
                0 <= k < r@.len() ==> (#[trigger] r@[k]).index_id == index_id
                    && self.spec_items().contains(r@[k]),
            forall|t: int|
                0 <= t < self.spec_items().len() && (#[trigger] self.spec_items()[t]).index_id
                    == index_id ==> r@.contains(self.spec_items()[t]),
    {
        let mut r: Vec<VideoItem> = Vec::new();
        let mut i: usize = 0;
        while i < self.items.len()
            invariant
                i <= self.items@.len(),
                forall|k: int|
                    0 <= k < r@.len() ==> (#[trigger] r@[k]).index_id == index_id
                        && self.spec_items().contains(r@[k]),
                forall|t: int|
                    0 <= t < i && (#[trigger] self.spec_items()[t]).index_id == index_id
                        ==> r@.contains(self.spec_items()[t]),
            decreases self.items@.len() - i,
        {
            let ghost prev = r@;
            if self.items[i].index_id == index_id {
                let x = copy_item(&self.items[i]);
                proof {
                    assert(self.items@[i as int] == x);
                }
                r.push(x);
            }
            proof {
                assert forall|t: int|
                    0 <= t < i + 1 && (#[trigger] self.spec_items()[t]).index_id == index_id
                    implies r@.contains(self.spec_items()[t]) by {
                    if t < i {
                        let k = choose|k: int| 0 <= k < prev.len() && prev[k] == self.spec_items()[t];
                        assert(r@[k] == self.spec_items()[t]);
                    } else {
                        assert(r@[r@.len() - 1] == self.spec_items()[t]);
                    }
                }
            }
            i = i + 1;
        }
        r
    }

    /// The items of one kind within an index.
    #[verifier::loop_isolation(false)]
    pub fn get_video_items_by_type(&self, index_id: i64, kind: ItemKind) -> (r: Vec<VideoItem>)
        ensures
            forall|k: int|
                0 <= k < r@.len() ==> (#[trigger] r@[k]).index_id == index_id && r@[k].kind
                    == kind && self.spec_items().contains(r@[k]),
            forall|t: int|
                0 <= t < self.spec_items().len() && (#[trigger] self.spec_items()[t]).index_id
                    == index_id && self.spec_items()[t].kind == kind ==> r@.contains(
                    self.spec_items()[t],
                ),
    {
        let mut r: Vec<VideoItem> = Vec::new();
        let mut i: usize = 0;
        while i < self.items.len()
            invariant
                i <= self.items@.len(),
                forall|k: int|
                    0 <= k < r@.len() ==> (#[trigger] r@[k]).index_id == index_id && r@[k].kind
                        == kind && self.spec_items().contains(r@[k]),
                forall|t: int|
                    0 <= t < i && (#[trigger] self.spec_items()[t]).index_id == index_id
                        && self.spec_items()[t].kind == kind ==> r@.contains(
                        self.spec_items()[t],
                    ),
            decreases self.items@.len() - i,
        {
            let ghost prev = r@;
            if self.items[i].index_id == index_id && kind_eq(self.items[i].kind, kind) {
                let x = copy_item(&self.items[i]);
                proof {
                    assert(self.items@[i as int] == x);
                }
                r.push(x);
            }
            proof {
                assert forall|t: int|
                    0 <= t < i + 1 && (#[trigger] self.spec_items()[t]).index_id == index_id
                        && self.spec_items()[t].kind == kind implies r@.contains(
                    self.spec_items()[t],
                ) by {
                    if t < i {
                        let k = choose|k: int| 0 <= k < prev.len() && prev[k] == self.spec_items()[t];
                        assert(r@[k] == self.spec_items()[t]);
                    } else {
                        assert(r@[r@.len() - 1] == self.spec_items()[t]);
                    }
                }
            }
            i = i + 1;
        }
        r
    }

    /// The children of an item.
    #[verifier::loop_isolation(false)]
    pub fn get_video_item_children(&self, parent_id: i64) -> (r: Vec<VideoItem>)
        ensures
            forall|k: int|
                0 <= k < r@.len() ==> (#[trigger] r@[k]).parent_id == Some(parent_id)
                    && self.spec_items().contains(r@[k]),
            forall|t: int|
                0 <= t < self.spec_items().len() && (#[trigger] self.spec_items()[t]).parent_id
                    == Some(parent_id) ==> r@.contains(self.spec_items()[t]),
    {
        let mut r: Vec<VideoItem> = Vec::new();
        let mut i: usize = 0;
        while i < self.items.len()
            invariant
                i <= self.items@.len(),
                forall|k: int|
                    0 <= k < r@.len() ==> (#[trigger] r@[k]).parent_id == Some(parent_id)
                        && self.spec_items().contains(r@[k]),
                forall|t: int|
                    0 <= t < i && (#[trigger] self.spec_items()[t]).parent_id == Some(parent_id)
                        ==> r@.contains(self.spec_items()[t]),
            decreases self.items@.len() - i,
        {
            let ghost prev = r@;
            let hit = match self.items[i].parent_id {
                Some(p) => p == parent_id,
                None => false,
            };
            if hit {
                let x = copy_item(&self.items[i]);
                proof {
                    assert(self.items@[i as int] == x);
                }
                r.push(x);
            }
            proof {
                assert forall|t: int|
                    0 <= t < i + 1 && (#[trigger] self.spec_items()[t]).parent_id == Some(
                        parent_id,
                    ) implies r@.contains(self.spec_items()[t]) by {
                    if t < i {
                        let k = choose|k: int| 0 <= k < prev.len() && prev[k] == self.spec_items()[t];
                        assert(r@[k] == self.spec_items()[t]);
                    } else {
                        assert(r@[r@.len() - 1] == self.spec_items()[t]);
                    }
                }
            }
            i = i + 1;
        }
        r
    }

    /// The items of an index carrying a source path: by uniqueness at most
    /// one.
    #[verifier::loop_isolation(false)]
    pub fn get_video_items_by_source_path(&self, index_id: i64, sp: &str) -> (r: Vec<VideoItem>)
        ensures
            forall|k: int|
                0 <= k < r@.len() ==> item_sp_match(#[trigger] r@[k], index_id as int, sp@)
                    && self.spec_items().contains(r@[k]),
            forall|t: int|
                0 <= t < self.spec_items().len() && item_sp_match(
                    #[trigger] self.spec_items()[t],
                    index_id as int,
                    sp@,
                ) ==> r@.contains(self.spec_items()[t]),
            self.wf() ==> r@.len() <= 1,
    {
        let mut r: Vec<VideoItem> = Vec::new();
        let mut i: usize = 0;
        let ghost mut witness: int = -1;
        while i < self.items.len()
            invariant
                i <= self.items@.len(),
                forall|k: int|
                    0 <= k < r@.len() ==> item_sp_match(#[trigger] r@[k], index_id as int, sp@)
                        && self.spec_items().contains(r@[k]),
                forall|t: int|
                    0 <= t < i && item_sp_match(
                        #[trigger] self.spec_items()[t],
                        index_id as int,
                        sp@,
                    ) ==> r@.contains(self.spec_items()[t]),
                r@.len() > 0 ==> 0 <= witness < i && item_sp_match(
                    self.spec_items()[witness],
                    index_id as int,
                    sp@,
                ),
                r@.len() <= 1 || !self.wf(),
                self.wf() && r@.len() == 1 ==> forall|t: int|
                    witness < t < i ==> !item_sp_match(
                        #[trigger] self.spec_items()[t],
                        index_id as int,
                        sp@,
                    ),
            decreases self.items@.len() - i,
        {
            let ghost prev = r@;
            let hit = self.items[i].index_id == index_id && {
                match &self.items[i].source_path {
                    Some(s) => str_eq_str(s.as_str(), sp),
                    None => false,
                }
            };
            if hit {
                proof {
                    if r@.len() > 0 && self.wf() {
                        assert(same_source_path(
                            self.spec_items()[witness],
                            self.spec_items()[i as int],
                        ));
                        assert(false);
                    }
                    witness = i as int;
                }
                let x = copy_item(&self.items[i]);
                proof {
                    assert(self.items@[i as int] == x);
                }
                r.push(x);
            }
            proof {
                assert forall|t: int|
                    0 <= t < i + 1 && item_sp_match(
                        #[trigger] self.spec_items()[t],
                        index_id as int,
                        sp@,
                    ) implies r@.contains(self.spec_items()[t]) by {
                    if t < i {
                        let k = choose|k: int| 0 <= k < prev.len() && prev[k] == self.spec_items()[t];
                        assert(r@[k] == self.spec_items()[t]);
                    } else {
                        assert(r@[r@.len() - 1] == self.spec_items()[t]);
                    }
                }
            }
            i = i + 1;
        }
        r
    }

    /// The items under a parent with a number: by uniqueness at most one.
    #[verifier::loop_isolation(false)]
    pub fn get_video_items_by_parent_and_number(&self, parent_id: i64, number: i64) -> (r: Vec<
        VideoItem,
    >)
        ensures
            forall|k: int|
                0 <= k < r@.len() ==> item_pn_match(#[trigger] r@[k], parent_id as int, number as int)
                    && self.spec_items().contains(r@[k]),
            forall|t: int|
                0 <= t < self.spec_items().len() && item_pn_match(
                    #[trigger] self.spec_items()[t],
                    parent_id as int,
                    number as int,
                ) ==> r@.contains(self.spec_items()[t]),
            self.wf() ==> r@.len() <= 1,
    {
        let mut r: Vec<VideoItem> = Vec::new();
        let mut i: usize = 0;
        let ghost mut witness: int = -1;
        while i < self.items.len()
            invariant
                i <= self.items@.len(),
                forall|k: int|
                    0 <= k < r@.len() ==> item_pn_match(
                        #[trigger] r@[k],
                        parent_id as int,
                        number as int,
                    ) && self.spec_items().contains(r@[k]),
                forall|t: int|
                    0 <= t < i && item_pn_match(
                        #[trigger] self.spec_items()[t],
                        parent_id as int,
                        number as int,
                    ) ==> r@.contains(self.spec_items()[t]),
                r@.len() > 0 ==> 0 <= witness < i && item_pn_match(
                    self.spec_items()[witness],
                    parent_id as int,
                    number as int,
                ),
                r@.len() <= 1 || !self.wf(),
            decreases self.items@.len() - i,
        {
            let ghost prev = r@;
            let pid_hit = match self.items[i].parent_id {
                Some(p) => p == parent_id,
                None => false,
            };
            let num_hit = match self.items[i].number {
                Some(n) => n == number,
                None => false,
            };
            if pid_hit && num_hit {
                proof {
                    if r@.len() > 0 && self.wf() {
                        assert(same_ordinal(
                            self.spec_items()[witness],
                            self.spec_items()[i as int],
                        ));
                        assert(false);
                    }
                    witness = i as int;
                }
                let x = copy_item(&self.items[i]);
                proof {
                    assert(self.items@[i as int] == x);
                }
                r.push(x);
            }
            proof {
                assert forall|t: int|
                    0 <= t < i + 1 && item_pn_match(
                        #[trigger] self.spec_items()[t],
                        parent_id as int,
                        number as int,
                    ) implies r@.contains(self.spec_items()[t]) by {
                    if t < i {
                        let k = choose|k: int| 0 <= k < prev.len() && prev[k] == self.spec_items()[t];
                        assert(r@[k] == self.spec_items()[t]);
                    } else {
                        assert(r@[r@.len() - 1] == self.spec_items()[t]);
                    }
                }
            }
            i = i + 1;
        }
        r
    }

    /// The items of an index with a title.
    #[verifier::loop_isolation(false)]
    pub fn get_video_items_by_title(&self, index_id: i64, title: &str) -> (r: Vec<VideoItem>)
        ensures
            forall|k: int|
                0 <= k < r@.len() ==> (#[trigger] r@[k]).index_id == index_id && r@[k].title@
                    == title@ && self.spec_items().contains(r@[k]),
            forall|t: int|
                0 <= t < self.spec_items().len() && (#[trigger] self.spec_items()[t]).index_id
                    == index_id && self.spec_items()[t].title@ == title@ ==> r@.contains(
                    self.spec_items()[t],
                ),
    {
        let mut r: Vec<VideoItem> = Vec::new();
        let mut i: usize = 0;
        while i < self.items.len()
            invariant
                i <= self.items@.len(),
                forall|k: int|
                    0 <= k < r@.len() ==> (#[trigger] r@[k]).index_id == index_id && r@[k].title@
                        == title@ && self.spec_items().contains(r@[k]),
                forall|t: int|
                    0 <= t < i && (#[trigger] self.spec_items()[t]).index_id == index_id
                        && self.spec_items()[t].title@ == title@ ==> r@.contains(
                        self.spec_items()[t],
                    ),
            decreases self.items@.len() - i,
        {
            let ghost prev = r@;
            if self.items[i].index_id == index_id && str_eq_str(
                self.items[i].title.as_str(),
                title,
            ) {
                let x = copy_item(&self.items[i]);
                proof {
                    assert(self.items@[i as int] == x);
                }
                r.push(x);
            }
            proof {
                assert forall|t: int|
                    0 <= t < i + 1 && (#[trigger] self.spec_items()[t]).index_id == index_id
                        && self.spec_items()[t].title@ == title@ implies r@.contains(
                    self.spec_items()[t],
                ) by {
                    if t < i {
                        let k = choose|k: int| 0 <= k < prev.len() && prev[k] == self.spec_items()[t];
                        assert(r@[k] == self.spec_items()[t]);
                    } else {
                        assert(r@[r@.len() - 1] == self.spec_items()[t]);
                    }
                }
            }
            i = i + 1;
        }
        r
    }

    /// Point an item at a new source path, or clear it.
    pub fn update_video_item_source_path(&mut self, item_id: i64, sp: Option<String>) -> (r:
        Result<(), StoreError>)
        requires
            old(self).wf(),
        ensures
            final(self).wf(),
            r is Ok <==> (has_item_id(old(self).spec_items(), item_id as int) && {
                let k = choose|k: int|
                    0 <= k < old(self).spec_items().len() && (#[trigger] old(self).spec_items()[k]).id == item_id;
                match sp {
                    Some(s) => !exists|j: int|
                        0 <= j < old(self).spec_items().len() && j != k && (#[trigger] old(self).spec_items()[j]).index_id == old(self).spec_items()[k].index_id && old(self).spec_items()[j].source_path is Some && old(self).spec_items()[j].source_path->0@ == s@,
                    None => true,
                }
            }),
            match r {
                Ok(_) => {
                    &&& final(self).spec_items().len() == old(self).spec_items().len()
                    &&& exists|k: int|
                        0 <= k < old(self).spec_items().len() && (#[trigger] old(self).spec_items()[k]).id == item_id && final(self).spec_items() == old(self).spec_items().update(k, final(self).spec_items()[k]) && {
                            let x = final(self).spec_items()[k];
                            let o = old(self).spec_items()[k];
                            &&& x.source_path == sp
                            &&& x.id == o.id
                            &&& x.index_id == o.index_id
                            &&& x.kind == o.kind
                            &&& x.parent_id == o.parent_id
                            &&& x.title == o.title
                            &&& x.number == o.number
                            &&& x.metadata == o.metadata
                        }
                    &&& final(self).spec_indexes() == old(self).spec_indexes()
                    &&& final(self).spec_versions() == old(self).spec_versions()
                    &&& final(self).spec_parts() == old(self).spec_parts()
                    &&& final(self).spec_next_id() == old(self).spec_next_id()
                },
                Err(_) => final(self).unchanged(old(self)),
            },
    {
        let p = match self.item_pos(item_id) {
            Some(p) => p,
            None => {
                return Err(StoreError::MissingItem);
            },
        };
        proof {
            lemma_no_other_with_id(self.items@, p as int);
            let k = choose|k: int|
                0 <= k < self.items@.len() && (#[trigger] self.items@[k]).id == item_id;
            assert(k == p as int);
        }
        match &sp {
            Some(s) => {
                if self.sp_taken(self.items[p].index_id, s, item_id) {
                    proof {
                        let j = choose|j: int|
                            0 <= j < self.items@.len() && (#[trigger] self.items@[j]).index_id
                                == self.items@[p as int].index_id && self.items@[j].source_path
                                is Some && self.items@[j].source_path->0@ == s@
                                && self.items@[j].id != item_id;
                        assert(j != p as int);
                    }
                    return Err(StoreError::DuplicateSourcePath);
                }
            },
            None => {},
        }
        let mut x = copy_item(&self.items[p]);
        x.source_path = sp;
        proof {
            assert forall|j: int|
                0 <= j < self.items@.len() && j != p as int implies !same_source_path(
                #[trigger] self.items@[j],
                x,
            ) by {
                if x.source_path is Some {
                    if self.items@[j].id == item_id {
                        assert(self.items@[j].id != self.items@[p as int].id || j == p as int);
                    }
                }
            }
            assert forall|j: int|
                0 <= j < self.items@.len() && j != p as int implies !same_ordinal(
                #[trigger] self.items@[j],
                x,
            ) by {
                if j < p as int {
                    assert(!same_ordinal(self.items@[j], self.items@[p as int]));
                } else {
                    assert(!same_ordinal(self.items@[p as int], self.items@[j]));
                }
            }
            assert(parent_ok(self.items@, x)) by {
                assert(parent_ok(self.items@, self.items@[p as int]));
            }
            lemma_update_item(
                self.indexes@,
                self.items@,
                self.versions@,
                self.parts@,
                self.next_id as int,
                p as int,
                x,
            );
        }
        self.items.set(p, x);
        Ok(())
    }

    /// Delete an item; its versions, their parts, and its descendants go
    /// with it.
    pub fn delete_video_item(&mut self, item_id: i64) -> (r: Result<(), StoreError>)
        requires
            old(self).wf(),
        ensures
            final(self).wf(),
            r is Ok <==> has_item_id(old(self).spec_items(), item_id as int),
            !has_item_id(final(self).spec_items(), item_id as int),
            final(self).spec_indexes() == old(self).spec_indexes(),
            items_subset(final(self).spec_items(), old(self).spec_items()),
            versions_subset(final(self).spec_versions(), old(self).spec_versions()),
            parts_subset(final(self).spec_parts(), old(self).spec_parts()),
            r is Err ==> final(self).unchanged(old(self)),
    {
        let p = match self.item_pos(item_id) {
            Some(p) => p,
            None => {
                return Err(StoreError::MissingItem);
            },
        };
        let ghost pre = self.items@;
        proof {
            lemma_weak_remove_item(
                self.indexes@,
                self.items@,
                self.versions@,
                self.parts@,
                self.next_id as int,
                p as int,
            );
        }
        self.items.remove(p);
        proof {
            assert forall|i: int| 0 <= i < self.items@.len() implies old(self).items@.contains(
                #[trigger] self.items@[i],
            ) && self.items@[i].id != item_id by {
                let oi = if i < p {
                    i
                } else {
                    i + 1
                };
                assert(self.items@[i] == pre[oi]);
                assert(old(self).items@.contains(pre[oi]));
                if oi != p {
                    if oi < p {
                        assert(pre[oi].id != pre[p as int].id);
                    } else {
                        assert(pre[p as int].id != pre[oi].id);
                    }
                }
            }
        }
        self.sweep_orphans();
        proof {
            assert forall|i: int| 0 <= i < self.items@.len() implies (
            #[trigger] self.items@[i]).id != item_id by {
                let mid = old(self).items@.remove(p as int);
                assert(mid.contains(self.items@[i]));
            }
        }
        Ok(())
    }

    // ---------- video versions ----------

    /// Create a version under an item.
    pub fn add_video_version_with_params(
        &mut self,
        item_id: i64,
        edition: Option<String>,
        source: Option<String>,
        container: Option<String>,
        resolution: Option<String>,
        hdr: bool,
        audio_channels: Option<i64>,
        bitrate: Option<i64>,
        runtime_ms: Option<i64>,
        probe_version: Option<String>,
        now: i64,
    ) -> (r: Result<i64, StoreError>)
        requires
            old(self).wf(),
        ensures
            final(self).wf(),
            r is Ok <==> (has_item_id(old(self).spec_items(), item_id as int) && old(self).spec_next_id() < i64::MAX),
            match r {
                Ok(id) => {
                    &&& id == old(self).spec_next_id()
                    &&& final(self).spec_next_id() == old(self).spec_next_id() + 1
                    &&& final(self).spec_versions().len() == old(self).spec_versions().len() + 1
                    &&& final(self).spec_versions().subrange(
                        0,
                        old(self).spec_versions().len() as int,
                    ) == old(self).spec_versions()
                    &&& {
                        let x = final(self).spec_versions().last();
                        &&& x.id == id
                        &&& x.item_id == item_id
                        &&& x.edition == edition
                        &&& x.source == source
                        &&& x.container == container
                        &&& x.resolution == resolution
                        &&& x.hdr == hdr
                        &&& x.audio_channels == audio_channels
                        &&& x.bitrate == bitrate
                        &&& x.runtime_ms == runtime_ms
                        &&& x.probe_version == probe_version
                        &&& x.created_at == now
                        &&& x.updated_at == now
                    }
                    &&& final(self).spec_indexes() == old(self).spec_indexes()
                    &&& final(self).spec_items() == old(self).spec_items()
                    &&& final(self).spec_parts() == old(self).spec_parts()
                },
                Err(_) => final(self).unchanged(old(self)),
            },
    {
        if self.item_pos(item_id).is_none() {
            return Err(StoreError::MissingItem);
        }
        let id = match self.take_id() {
            Some(id) => id,
            None => {
                return Err(StoreError::MissingVersion);
            },
        };
        let x = VideoVersion {
            id,
            item_id,
            edition,
            source,
            container,
            resolution,
            hdr,
            audio_channels,
            bitrate,
            runtime_ms,
            probe_version,
            created_at: now,
            updated_at: now,
        };
        proof {
            lemma_push_version(
                self.indexes@,
                self.items@,
                self.versions@,
                self.parts@,
                id as int,
                x,
            );
        }
        self.versions.push(x);
        proof {
            assert(self.versions@.subrange(0, old(self).versions@.len() as int) =~= old(self).versions@);
        }
        Ok(id)
    }

    /// The version with the given id.
    pub fn get_video_version_by_id(&self, id: i64) -> (r: Option<VideoVersion>)
        ensures
            match r {
                Some(x) => x.id == id && self.spec_versions().contains(x),
                None => !has_version_id(self.spec_versions(), id as int),
            },
    {
        match self.version_pos(id) {
            Some(p) => {
                let x = copy_version(&self.versions[p]);
                proof {
                    assert(self.versions@[p as int] == x);
                }
                Some(x)
            },
            None => None,
        }
    }

    /// The versions of an item, in creation order.
    #[verifier::loop_isolation(false)]
    pub fn get_video_versions_by_item(&self, item_id: i64) -> (r: Vec<VideoVersion>)
        ensures
            forall|k: int|
                0 <= k < r@.len() ==> (#[trigger] r@[k]).item_id == item_id
                    && self.spec_versions().contains(r@[k]),
            forall|t: int|
                0 <= t < self.spec_versions().len() && (
                #[trigger] self.spec_versions()[t]).item_id == item_id ==> r@.contains(
                    self.spec_versions()[t],
                ),
    {
        let mut r: Vec<VideoVersion> = Vec::new();
        let mut i: usize = 0;
        while i < self.versions.len()
            invariant
                i <= self.versions@.len(),
                forall|k: int|
                    0 <= k < r@.len() ==> (#[trigger] r@[k]).item_id == item_id
                        && self.spec_versions().contains(r@[k]),
                forall|t: int|
                    0 <= t < i && (#[trigger] self.spec_versions()[t]).item_id == item_id
                        ==> r@.contains(self.spec_versions()[t]),
            decreases self.versions@.len() - i,
        {
            let ghost prev = r@;
            if self.versions[i].item_id == item_id {
                let x = copy_version(&self.versions[i]);
                proof {
                    assert(self.versions@[i as int] == x);
                }
                r.push(x);
            }
            proof {
                assert forall|t: int|
                    0 <= t < i + 1 && (#[trigger] self.spec_versions()[t]).item_id == item_id
                    implies r@.contains(self.spec_versions()[t]) by {
                    if t < i {
                        let k = choose|k: int|
                            0 <= k < prev.len() && prev[k] == self.spec_versions()[t];
                        assert(r@[k] == self.spec_versions()[t]);
                    } else {
                        assert(r@[r@.len() - 1] == self.spec_versions()[t]);
                    }
                }
            }
            i = i + 1;
        }
        r
    }

    /// Reparent a version under another item.
    pub fn update_video_version_item_id(&mut self, version_id: i64, item_id: i64) -> (r: Result<
        (),
        StoreError,
    >)
        requires
            old(self).wf(),
        ensures
            final(self).wf(),
            r is Ok <==> (has_version_id(old(self).spec_versions(), version_id as int)
                && has_item_id(old(self).spec_items(), item_id as int)),
            match r {
                Ok(_) => {
                    &&& final(self).spec_versions().len() == old(self).spec_versions().len()
                    &&& exists|k: int|
                        0 <= k < old(self).spec_versions().len() && (#[trigger] old(self).spec_versions()[k]).id == version_id && final(self).spec_versions()
                            == old(self).spec_versions().update(
                            k,
                            final(self).spec_versions()[k],
                        ) && {
                            let x = final(self).spec_versions()[k];
                            let o = old(self).spec_versions()[k];
                            &&& x.item_id == item_id
                            &&& x.id == o.id
                            &&& x.edition == o.edition
                        }
                    &&& final(self).spec_indexes() == old(self).spec_indexes()
                    &&& final(self).spec_items() == old(self).spec_items()
                    &&& final(self).spec_parts() == old(self).spec_parts()
                    &&& final(self).spec_next_id() == old(self).spec_next_id()
                },
                Err(_) => final(self).unchanged(old(self)),
            },
    {
        let p = match self.version_pos(version_id) {
            Some(p) => p,
            None => {
                return Err(StoreError::MissingVersion);
            },
        };
        if self.item_pos(item_id).is_none() {
            return Err(StoreError::MissingItem);
        }
        let mut x = copy_version(&self.versions[p]);
        x.item_id = item_id;
        proof {
            lemma_update_version(
                self.indexes@,
                self.items@,
                self.versions@,
                self.parts@,
                self.next_id as int,
                p as int,
                x,
            );
        }
        self.versions.set(p, x);
        Ok(())
    }

    /// Delete a version; its parts go with it.
    pub fn delete_video_version(&mut self, version_id: i64) -> (r: Result<(), StoreError>)
        requires
            old(self).wf(),
        ensures
            final(self).wf(),
            r is Ok <==> has_version_id(old(self).spec_versions(), version_id as int),
            !has_version_id(final(self).spec_versions(), version_id as int),
            final(self).spec_indexes() == old(self).spec_indexes(),
            final(self).spec_items() == old(self).spec_items(),
            versions_subset(final(self).spec_versions(), old(self).spec_versions()),
            parts_subset(final(self).spec_parts(), old(self).spec_parts()),
            r is Err ==> final(self).unchanged(old(self)),
    {
        if self.version_pos(version_id).is_none() {
            return Err(StoreError::MissingVersion);
        }
        let mut finished = false;
        while !finished
            invariant
                self.wf(),
                self.spec_indexes() == old(self).spec_indexes(),
                self.spec_items() == old(self).spec_items(),
                self.spec_versions() == old(self).spec_versions(),
                parts_subset(self.spec_parts(), old(self).spec_parts()),
                self.spec_next_id() == old(self).spec_next_id(),
                finished ==> forall|j: int|
                    0 <= j < self.spec_parts().len() ==> (#[trigger] self.spec_parts()[j]).version_id
                        != version_id,
            decreases self.spec_parts().len(), (if finished { 0int } else { 1int }),
        {
            let ghost pre = self.parts@;
            match self.find_part_of_version(version_id) {
                Some(k) => {
                    proof {
                        lemma_remove_part(
                            self.indexes@,
                            self.items@,
                            self.versions@,
                            self.parts@,
                            self.next_id as int,
                            k as int,
                        );
                    }
                    self.parts.remove(k);
                    proof {
                        assert forall|i: int|
                            0 <= i < self.parts@.len() implies old(self).parts@.contains(
                            #[trigger] self.parts@[i],
                        ) by {
                            let oi = if i < k {
                                i
                            } else {
                                i + 1
                            };
                            assert(self.parts@[i] == pre[oi]);
                            assert(old(self).parts@.contains(pre[oi]));
                        }
                    }
                },
                None => {
                    finished = true;
                },
            }
        }
        let p = match self.version_pos(version_id) {
            Some(p) => p,
            None => {
                return Ok(());
            },
        };
        let ghost pre_vs = self.versions@;
        proof {
            lemma_remove_version(
                self.indexes@,
                self.items@,
                self.versions@,
                self.parts@,
                self.next_id as int,
                p as int,
            );
        }
        self.versions.remove(p);
        proof {
            assert forall|i: int| 0 <= i < self.versions@.len() implies old(self).versions@.contains(#[trigger] self.versions@[i]) && self.versions@[i].id
                != version_id by {
                let oi = if i < p {
                    i
                } else {
                    i + 1
                };
                assert(self.versions@[i] == pre_vs[oi]);
                assert(old(self).versions@.contains(pre_vs[oi]));
                if oi != p {
                    if oi < p {
                        assert(pre_vs[oi].id != pre_vs[p as int].id);
                    } else {
                        assert(pre_vs[p as int].id != pre_vs[oi].id);
                    }
                }
            }
        }
        Ok(())
    }

    /// First part owned by the version, if any.
    #[verifier::loop_isolation(false)]
    fn find_part_of_version(&self, version_id: i64) -> (r: Option<usize>)
        ensures
            match r {
                Some(p) => p < self.spec_parts().len() && self.spec_parts()[p as int].version_id
                    == version_id,
                None => forall|j: int|
                    0 <= j < self.spec_parts().len() ==> (#[trigger] self.spec_parts()[j]).version_id
                        != version_id,
            },
    {
        let mut i: usize = 0;
        while i < self.parts.len()
            invariant
                i <= self.parts@.len(),
                forall|j: int|
                    0 <= j < i ==> (#[trigger] self.parts@[j]).version_id != version_id,
            decreases self.parts@.len() - i,
        {
            if self.parts[i].version_id == version_id {
                return Some(i);
            }
            i = i + 1;
        }
        None
    }
}

impl MediaStore {
    // ---------- video parts ----------

    /// Create a part under a version; its content key must be free.
    pub fn add_video_part_with_params(
        &mut self,
        version_id: i64,
        path: String,
        size: Option<i64>,
        mtime: Option<i64>,
        part_index: i64,
        duration_ms: Option<i64>,
        fast_hash: Option<String>,
        now: i64,
    ) -> (r: Result<i64, StoreError>)
        requires
            old(self).wf(),
        ensures
            final(self).wf(),
            r is Ok <==> (has_version_id(old(self).spec_versions(), version_id as int) && key_free(
                old(self).spec_parts(),
                size,
                fast_hash,
            ) && old(self).spec_next_id() < i64::MAX),
            match r {
                Ok(id) => {
                    &&& id == old(self).spec_next_id()
                    &&& final(self).spec_next_id() == old(self).spec_next_id() + 1
                    &&& final(self).spec_parts().len() == old(self).spec_parts().len() + 1
                    &&& final(self).spec_parts().subrange(0, old(self).spec_parts().len() as int)
                        == old(self).spec_parts()
                    &&& {
                        let x = final(self).spec_parts().last();
                        &&& x.id == id
                        &&& x.version_id == version_id
                        &&& x.path@ == path@
                        &&& x.size == size
                        &&& x.mtime == mtime
                        &&& x.part_index == part_index
                        &&& x.duration_ms == duration_ms
                        &&& x.fast_hash == fast_hash
                        &&& x.created_at == now
                        &&& x.updated_at == now
                    }
                    &&& final(self).spec_indexes() == old(self).spec_indexes()
                    &&& final(self).spec_items() == old(self).spec_items()
                    &&& final(self).spec_versions() == old(self).spec_versions()
                },
                Err(_) => final(self).unchanged(old(self)),
            },
    {
        if self.version_pos(version_id).is_none() {
            return Err(StoreError::MissingVersion);
        }
        match (&size, &fast_hash) {
            (Some(sz), Some(h)) => {
                if self.key_taken(*sz, h, -1) {
                    proof {
                        assert(!key_free(self.parts@, size, fast_hash)) by {
                            let j = choose|j: int|
                                0 <= j < self.parts@.len() && (#[trigger] self.parts@[j]).size
                                    is Some && self.parts@[j].size->0 == size->0
                                    && self.parts@[j].fast_hash is Some
                                    && self.parts@[j].fast_hash->0@ == fast_hash->0@
                                    && self.parts@[j].id != -1;
                            assert(self.parts@[j].size->0 == size->0);
                        }
                    }
                    return Err(StoreError::DuplicateContentKey);
                }
            },
            _ => {},
        }
        let id = match self.take_id() {
            Some(id) => id,
            None => {
                return Err(StoreError::MissingPart);
            },
        };
        let x = VideoPart {
            id,
            version_id,
            path,
            size,
            mtime,
            part_index,
            duration_ms,
            fast_hash,
            created_at: now,
            updated_at: now,
        };
        proof {
            assert forall|j: int| 0 <= j < self.parts@.len() implies !same_content_key(
                #[trigger] self.parts@[j],
                x,
            ) by {
                if x.size is Some && x.fast_hash is Some {
                    assert(key_free(self.parts@, size, fast_hash));
                }
            }
            lemma_push_part(
                self.indexes@,
                self.items@,
                self.versions@,
                self.parts@,
                id as int,
                x,
            );
        }
        self.parts.push(x);
        proof {
            assert(self.parts@.subrange(0, old(self).parts@.len() as int) =~= old(self).parts@);
        }
        Ok(id)
    }

    /// The part with the given id.
    pub fn get_video_part_by_id(&self, id: i64) -> (r: Option<VideoPart>)
        ensures
            match r {
                Some(x) => x.id == id && self.spec_parts().contains(x),
                None => !has_part_id(self.spec_parts(), id as int),
            },
    {
        match self.part_pos(id) {
            Some(p) => {
                let x = copy_part(&self.parts[p]);
                proof {
                    assert(self.parts@[p as int] == x);
                }
                Some(x)
            },
            None => None,
        }
    }

    /// The parts of a version, in creation order.
    #[verifier::loop_isolation(false)]
    pub fn get_video_parts_by_version(&self, version_id: i64) -> (r: Vec<VideoPart>)
        ensures
            forall|k: int|
                0 <= k < r@.len() ==> (#[trigger] r@[k]).version_id == version_id
                    && self.spec_parts().contains(r@[k]),
            forall|t: int|
                0 <= t < self.spec_parts().len() && (#[trigger] self.spec_parts()[t]).version_id
                    == version_id ==> r@.contains(self.spec_parts()[t]),
    {
        let mut r: Vec<VideoPart> = Vec::new();
        let mut i: usize = 0;
        while i < self.parts.len()
            invariant
                i <= self.parts@.len(),
                forall|k: int|
                    0 <= k < r@.len() ==> (#[trigger] r@[k]).version_id == version_id
                        && self.spec_parts().contains(r@[k]),
                forall|t: int|
                    0 <= t < i && (#[trigger] self.spec_parts()[t]).version_id == version_id
                        ==> r@.contains(self.spec_parts()[t]),
            decreases self.parts@.len() - i,
        {
            let ghost prev = r@;
            if self.parts[i].version_id == version_id {
                let x = copy_part(&self.parts[i]);
                proof {
                    assert(self.parts@[i as int] == x);
                }
                r.push(x);
            }
            proof {
                assert forall|t: int|
                    0 <= t < i + 1 && (#[trigger] self.spec_parts()[t]).version_id == version_id
                    implies r@.contains(self.spec_parts()[t]) by {
                    if t < i {
                        let k = choose|k: int| 0 <= k < prev.len() && prev[k] == self.spec_parts()[t];
                        assert(r@[k] == self.spec_parts()[t]);
                    } else {
                        assert(r@[r@.len() - 1] == self.spec_parts()[t]);
                    }
                }
            }
            i = i + 1;
        }
        r
    }

    /// The content-identity probe: the parts with a (size, fast hash) key.
    /// In a well-formed store there is at most one.
    #[verifier::loop_isolation(false)]
    pub fn get_video_parts_by_size_and_hash(&self, size: i64, hash: &str) -> (r: Vec<VideoPart>)
        ensures
            forall|k: int|
                0 <= k < r@.len() ==> part_key_match(#[trigger] r@[k], size as int, hash@)
                    && self.spec_parts().contains(r@[k]),
            forall|t: int|
                0 <= t < self.spec_parts().len() && part_key_match(
                    #[trigger] self.spec_parts()[t],
                    size as int,
                    hash@,
                ) ==> r@.contains(self.spec_parts()[t]),
            self.wf() ==> r@.len() <= 1,
    {
        let mut r: Vec<VideoPart> = Vec::new();
        let mut i: usize = 0;
        let ghost mut witness: int = -1;
        while i < self.parts.len()
            invariant
                i <= self.parts@.len(),
                forall|k: int|
                    0 <= k < r@.len() ==> part_key_match(#[trigger] r@[k], size as int, hash@)
                        && self.spec_parts().contains(r@[k]),
                forall|t: int|
                    0 <= t < i && part_key_match(
                        #[trigger] self.spec_parts()[t],
                        size as int,
                        hash@,
                    ) ==> r@.contains(self.spec_parts()[t]),
                r@.len() > 0 ==> 0 <= witness < i && part_key_match(
                    self.spec_parts()[witness],
                    size as int,
                    hash@,
                ),
                r@.len() <= 1 || !self.wf(),
            decreases self.parts@.len() - i,
        {
            let ghost prev = r@;
            let size_hit = match self.parts[i].size {
                Some(s) => s == size,
                None => false,
            };
            let hash_hit = match &self.parts[i].fast_hash {
                Some(h) => str_eq_str(h.as_str(), hash),
                None => false,
            };
            if size_hit && hash_hit {
                proof {
                    if r@.len() > 0 && self.wf() {
                        assert(same_content_key(
                            self.spec_parts()[witness],
                            self.spec_parts()[i as int],
                        ));
                        assert(false);
                    }
                    witness = i as int;
                }
                let x = copy_part(&self.parts[i]);
                proof {
                    assert(self.parts@[i as int] == x);
                }
                r.push(x);
            }
            proof {
                assert forall|t: int|
                    0 <= t < i + 1 && part_key_match(
                        #[trigger] self.spec_parts()[t],
                        size as int,
                        hash@,
                    ) implies r@.contains(self.spec_parts()[t]) by {
                    if t < i {
                        let k = choose|k: int| 0 <= k < prev.len() && prev[k] == self.spec_parts()[t];
                        assert(r@[k] == self.spec_parts()[t]);
                    } else {
                        assert(r@[r@.len() - 1] == self.spec_parts()[t]);
                    }
                }
            }
            i = i + 1;
        }
        r
    }

    /// The parts at a file path.
    #[verifier::loop_isolation(false)]
    pub fn get_video_part_by_path(&self, path: &str) -> (r: Vec<VideoPart>)
        ensures
            forall|k: int|
                0 <= k < r@.len() ==> (#[trigger] r@[k]).path@ == path@
                    && self.spec_parts().contains(r@[k]),
            forall|t: int|
                0 <= t < self.spec_parts().len() && (#[trigger] self.spec_parts()[t]).path@
                    == path@ ==> r@.contains(self.spec_parts()[t]),
    {
        let mut r: Vec<VideoPart> = Vec::new();
        let mut i: usize = 0;
        while i < self.parts.len()
            invariant
                i <= self.parts@.len(),
                forall|k: int|
                    0 <= k < r@.len() ==> (#[trigger] r@[k]).path@ == path@
                        && self.spec_parts().contains(r@[k]),
                forall|t: int|
                    0 <= t < i && (#[trigger] self.spec_parts()[t]).path@ == path@
                        ==> r@.contains(self.spec_parts()[t]),
            decreases self.parts@.len() - i,
        {
            let ghost prev = r@;
            if str_eq_str(self.parts[i].path.as_str(), path) {
                let x = copy_part(&self.parts[i]);
                proof {
                    assert(self.parts@[i as int] == x);
                }
                r.push(x);
            }
            proof {
                assert forall|t: int|
                    0 <= t < i + 1 && (#[trigger] self.spec_parts()[t]).path@ == path@ implies
                    r@.contains(self.spec_parts()[t]) by {
                    if t < i {
                        let k = choose|k: int| 0 <= k < prev.len() && prev[k] == self.spec_parts()[t];
                        assert(r@[k] == self.spec_parts()[t]);
                    } else {
                        assert(r@[r@.len() - 1] == self.spec_parts()[t]);
                    }
                }
            }
            i = i + 1;
        }
        r
    }

    /// Mark a part as seen by the running scan.
    pub fn update_video_part_updated_at(&mut self, part_id: i64, now: i64) -> (r: Result<
        (),
        StoreError,
    >)
        requires
            old(self).wf(),
        ensures
            final(self).wf(),
            r is Ok <==> has_part_id(old(self).spec_parts(), part_id as int),
            match r {
                Ok(_) => {
                    &&& final(self).spec_parts().len() == old(self).spec_parts().len()
                    &&& exists|k: int|
                        0 <= k < old(self).spec_parts().len() && (#[trigger] old(self).spec_parts()[k]).id == part_id && final(self).spec_parts() == old(self).spec_parts().update(k, final(self).spec_parts()[k]) && {
                            let x = final(self).spec_parts()[k];
                            let o = old(self).spec_parts()[k];
                            &&& x.updated_at == now
                            &&& x.id == o.id
                            &&& x.version_id == o.version_id
                            &&& x.path == o.path
                            &&& x.size == o.size
                            &&& x.mtime == o.mtime
                            &&& x.fast_hash == o.fast_hash
                            &&& x.part_index == o.part_index
                        }
                    &&& final(self).spec_indexes() == old(self).spec_indexes()
                    &&& final(self).spec_items() == old(self).spec_items()
                    &&& final(self).spec_versions() == old(self).spec_versions()
                    &&& final(self).spec_next_id() == old(self).spec_next_id()
                },
                Err(_) => final(self).unchanged(old(self)),
            },
    {
        let p = match self.part_pos(part_id) {
            Some(p) => p,
            None => {
                return Err(StoreError::MissingPart);
            },
        };
        let mut x = copy_part(&self.parts[p]);
        x.updated_at = now;
        proof {
            self.lemma_part_update_keeps_keys(p as int, x);
            lemma_update_part(
                self.indexes@,
                self.items@,
                self.versions@,
                self.parts@,
                self.next_id as int,
                p as int,
                x,
            );
        }
        self.parts.set(p, x);
        Ok(())
    }

    /// A part row that keeps its content key conflicts with no other row.
    proof fn lemma_part_update_keeps_keys(&self, k: int, x: VideoPart)
        requires
            self.wf(),
            0 <= k < self.spec_parts().len(),
            x.size == self.spec_parts()[k].size,
            x.fast_hash == self.spec_parts()[k].fast_hash,
        ensures
            forall|j: int|
                0 <= j < self.spec_parts().len() && j != k ==> !same_content_key(
                    #[trigger] self.spec_parts()[j],
                    x,
                ),
    {
        let ps = self.spec_parts();
        assert forall|j: int| 0 <= j < ps.len() && j != k implies !same_content_key(
            #[trigger] ps[j],
            x,
        ) by {
            if j < k {
                assert(!same_content_key(ps[j], ps[k]));
            } else {
                assert(!same_content_key(ps[k], ps[j]));
            }
        }
    }

    /// Record a part's new path and mtime after a move.
    pub fn update_video_part_path(&mut self, part_id: i64, path: String, mtime: i64, now: i64)
        -> (r: Result<(), StoreError>)
        requires
            old(self).wf(),
        ensures
            final(self).wf(),
            r is Ok <==> has_part_id(old(self).spec_parts(), part_id as int),
            match r {
                Ok(_) => {
                    &&& final(self).spec_parts().len() == old(self).spec_parts().len()
                    &&& exists|k: int|
                        0 <= k < old(self).spec_parts().len() && (#[trigger] old(self).spec_parts()[k]).id == part_id && final(self).spec_parts() == old(self).spec_parts().update(k, final(self).spec_parts()[k]) && {
                            let x = final(self).spec_parts()[k];
                            let o = old(self).spec_parts()[k];
                            &&& x.path@ == path@
                            &&& x.mtime == Some(mtime)
                            &&& x.updated_at == now
                            &&& x.id == o.id
                            &&& x.version_id == o.version_id
                            &&& x.size == o.size
                            &&& x.fast_hash == o.fast_hash
                            &&& x.part_index == o.part_index
                        }
                    &&& final(self).spec_indexes() == old(self).spec_indexes()
                    &&& final(self).spec_items() == old(self).spec_items()
                    &&& final(self).spec_versions() == old(self).spec_versions()
                    &&& final(self).spec_next_id() == old(self).spec_next_id()
                },
                Err(_) => final(self).unchanged(old(self)),
            },
    {
        let p = match self.part_pos(part_id) {
            Some(p) => p,
            None => {
                return Err(StoreError::MissingPart);
            },
        };
        let mut x = copy_part(&self.parts[p]);
        x.path = path;
        x.mtime = Some(mtime);
        x.updated_at = now;
        proof {
            self.lemma_part_update_keeps_keys(p as int, x);
            lemma_update_part(
                self.indexes@,
                self.items@,
                self.versions@,
                self.parts@,
                self.next_id as int,
                p as int,
                x,
            );
        }
        self.parts.set(p, x);
        Ok(())
    }

    /// Repoint a part at another version.
    pub fn update_video_part_version_id(&mut self, part_id: i64, version_id: i64) -> (r: Result<
        (),
        StoreError,
    >)
        requires
            old(self).wf(),
        ensures
            final(self).wf(),
            r is Ok <==> (has_part_id(old(self).spec_parts(), part_id as int) && has_version_id(
                old(self).spec_versions(),
                version_id as int,
            )),
            match r {
                Ok(_) => {
                    &&& final(self).spec_parts().len() == old(self).spec_parts().len()
                    &&& exists|k: int|
                        0 <= k < old(self).spec_parts().len() && (#[trigger] old(self).spec_parts()[k]).id == part_id && final(self).spec_parts() == old(self).spec_parts().update(k, final(self).spec_parts()[k]) && {
                            let x = final(self).spec_parts()[k];
                            let o = old(self).spec_parts()[k];
                            &&& x.version_id == version_id
                            &&& x.id == o.id
                            &&& x.path == o.path
                            &&& x.size == o.size
                            &&& x.fast_hash == o.fast_hash
                        }
                    &&& final(self).spec_indexes() == old(self).spec_indexes()
                    &&& final(self).spec_items() == old(self).spec_items()
                    &&& final(self).spec_versions() == old(self).spec_versions()
                    &&& final(self).spec_next_id() == old(self).spec_next_id()
                },
                Err(_) => final(self).unchanged(old(self)),
            },
    {
        let p = match self.part_pos(part_id) {
            Some(p) => p,
            None => {
                return Err(StoreError::MissingPart);
            },
        };
        if self.version_pos(version_id).is_none() {
            return Err(StoreError::MissingVersion);
        }
        let mut x = copy_part(&self.parts[p]);
        x.version_id = version_id;
        proof {
            self.lemma_part_update_keeps_keys(p as int, x);
            lemma_update_part(
                self.indexes@,
                self.items@,
                self.versions@,
                self.parts@,
                self.next_id as int,
                p as int,
                x,
            );
        }
        self.parts.set(p, x);
        Ok(())
    }

    /// Delete one part.
    pub fn delete_video_part(&mut self, part_id: i64) -> (r: Result<(), StoreError>)
        requires
            old(self).wf(),
        ensures
            final(self).wf(),
            r is Ok <==> has_part_id(old(self).spec_parts(), part_id as int),
            !has_part_id(final(self).spec_parts(), part_id as int),
            final(self).spec_indexes() == old(self).spec_indexes(),
            final(self).spec_items() == old(self).spec_items(),
            final(self).spec_versions() == old(self).spec_versions(),
            match r {
                Ok(_) => exists|k: int|
                    0 <= k < old(self).spec_parts().len() && (#[trigger] old(self).spec_parts()[k]).id == part_id && final(self).spec_parts() == old(self).spec_parts().remove(k),
                Err(_) => final(self).unchanged(old(self)),
            },
    {
        let p = match self.part_pos(part_id) {
            Some(p) => p,
            None => {
                return Err(StoreError::MissingPart);
            },
        };
        let ghost pre = self.parts@;
        proof {
            lemma_remove_part(
                self.indexes@,
                self.items@,
                self.versions@,
                self.parts@,
                self.next_id as int,
                p as int,
            );
        }
        self.parts.remove(p);
        proof {
            assert forall|i: int| 0 <= i < self.parts@.len() implies (
            #[trigger] self.parts@[i]).id != part_id by {
                let oi = if i < p {
                    i
                } else {
                    i + 1
                };
                assert(self.parts@[i] == pre[oi]);
                if oi != p {
                    if oi < p {
                        assert(pre[oi].id != pre[p as int].id);
                    } else {
                        assert(pre[p as int].id != pre[oi].id);
                    }
                }
            }
        }
        Ok(())
    }
}

// ---------- the post-scan reap ----------

/// The version belongs to an item of the index.
pub open spec fn version_in_index(its: Seq<VideoItem>, v: VideoVersion, index_id: int) -> bool {
    exists|t: int|
        0 <= t < its.len() && (#[trigger] its[t]).id == v.item_id && its[t].index_id == index_id
}

/// The part belongs, through its version, to an item of the index.
pub open spec fn part_in_index(
    its: Seq<VideoItem>,
    vs: Seq<VideoVersion>,
    p: VideoPart,
    index_id: int,
) -> bool {
    exists|w: int|
        0 <= w < vs.len() && (#[trigger] vs[w]).id == p.version_id && version_in_index(
            its,
            vs[w],
            index_id,
        )
}

/// Some part remains under the version.
pub open spec fn version_has_part(ps: Seq<VideoPart>, v: VideoVersion) -> bool {
    exists|j: int| 0 <= j < ps.len() && (#[trigger] ps[j]).version_id == v.id
}

/// Some version remains under the item.
pub open spec fn item_has_version(vs: Seq<VideoVersion>, it: VideoItem) -> bool {
    exists|j: int| 0 <= j < vs.len() && (#[trigger] vs[j]).item_id == it.id
}

/// Some child remains under the item.
pub open spec fn item_has_child(its: Seq<VideoItem>, it: VideoItem) -> bool {
    exists|j: int|
        0 <= j < its.len() && (#[trigger] its[j]).parent_id is Some && its[j].parent_id->0 == it.id
}

impl MediaStore {
    /// The index an item id belongs to, when the item exists.
    #[verifier::loop_isolation(false)]
    fn item_in_index(&self, item_id: i64, index_id: i64) -> (r: bool)
        requires
            self.wf(),
        ensures
            r == exists|t: int|
                0 <= t < self.spec_items().len() && (#[trigger] self.spec_items()[t]).id == item_id
                    && self.spec_items()[t].index_id == index_id,
    {
        match self.item_pos(item_id) {
            Some(w) => {
                proof {
                    lemma_no_other_with_id(self.items@, w as int);
                }
                self.items[w].index_id == index_id
            },
            None => false,
        }
    }

    /// Whether this part hangs under the index.
    #[verifier::loop_isolation(false)]
    fn part_belongs(&self, p: usize, index_id: i64) -> (r: bool)
        requires
            self.wf(),
            p < self.spec_parts().len(),
        ensures
            r == part_in_index(
                self.spec_items(),
                self.spec_versions(),
                self.spec_parts()[p as int],
                index_id as int,
            ),
    {
        match self.version_pos(self.parts[p].version_id) {
            Some(w) => {
                proof {
                    lemma_no_other_version_with_id(self.versions@, w as int);
                }
                let belongs = self.item_in_index(self.versions[w].item_id, index_id);
                proof {
                    let part = self.spec_parts()[p as int];
                    if part_in_index(
                        self.spec_items(),
                        self.spec_versions(),
                        part,
                        index_id as int,
                    ) {
                        let w2 = choose|w2: int|
                            0 <= w2 < self.spec_versions().len() && (
                            #[trigger] self.spec_versions()[w2]).id == part.version_id
                                && version_in_index(
                                self.spec_items(),
                                self.spec_versions()[w2],
                                index_id as int,
                            );
                        assert(self.spec_versions()[w2].id == self.spec_versions()[w as int].id);
                        assert(w2 == w as int);
                    }
                    if belongs {
                        assert(version_in_index(
                            self.spec_items(),
                            self.spec_versions()[w as int],
                            index_id as int,
                        ));
                    }
                }
                belongs
            },
            None => {
                proof {
                    assert(has_version_id(
                        self.spec_versions(),
                        self.spec_parts()[p as int].version_id as int,
                    ));
                }
                false
            },
        }
    }

    /// A stale part of the index: untouched since before the scan began.
    #[verifier::loop_isolation(false)]
    fn find_stale_part(&self, index_id: i64, ts: i64) -> (r: Option<usize>)
        requires
            self.wf(),
        ensures
            match r {
                Some(p) => p < self.spec_parts().len() && self.spec_parts()[p as int].updated_at
                    < ts && part_in_index(
                    self.spec_items(),
                    self.spec_versions(),
                    self.spec_parts()[p as int],
                    index_id as int,
                ),
                None => forall|j: int|
                    0 <= j < self.spec_parts().len() && part_in_index(
                        self.spec_items(),
                        self.spec_versions(),
                        #[trigger] self.spec_parts()[j],
                        index_id as int,
                    ) ==> self.spec_parts()[j].updated_at >= ts,
            },
    {
        let mut i: usize = 0;
        while i < self.parts.len()
            invariant
                i <= self.parts@.len(),
                forall|j: int|
                    0 <= j < i && part_in_index(
                        self.spec_items(),
                        self.spec_versions(),
                        #[trigger] self.spec_parts()[j],
                        index_id as int,
                    ) ==> self.spec_parts()[j].updated_at >= ts,
            decreases self.parts@.len() - i,
        {
            if self.parts[i].updated_at < ts && self.part_belongs(i, index_id) {
                return Some(i);
            }
            i = i + 1;
        }
        None
    }

    /// An empty version of the index: no parts left under it.
    #[verifier::loop_isolation(false)]
    fn find_empty_version(&self, index_id: i64) -> (r: Option<usize>)
        requires
            self.wf(),
        ensures
            match r {
                Some(p) => p < self.spec_versions().len() && version_in_index(
                    self.spec_items(),
                    self.spec_versions()[p as int],
                    index_id as int,
                ) && !version_has_part(self.spec_parts(), self.spec_versions()[p as int]),
                None => forall|j: int|
                    0 <= j < self.spec_versions().len() && version_in_index(
                        self.spec_items(),
                        #[trigger] self.spec_versions()[j],
                        index_id as int,
                    ) ==> version_has_part(self.spec_parts(), self.spec_versions()[j]),
            },
    {
        let mut i: usize = 0;
        while i < self.versions.len()
            invariant
                i <= self.versions@.len(),
                forall|j: int|
                    0 <= j < i && version_in_index(
                        self.spec_items(),
                        #[trigger] self.spec_versions()[j],
                        index_id as int,
                    ) ==> version_has_part(self.spec_parts(), self.spec_versions()[j]),
            decreases self.versions@.len() - i,
        {
            if self.item_in_index(self.versions[i].item_id, index_id) {
                if self.find_part_of_version(self.versions[i].id).is_none() {
                    return Some(i);
                }
            }
            i = i + 1;
        }
        None
    }

    /// A bare item of the index: no versions and no children left.
    #[verifier::loop_isolation(false)]
    fn find_bare_item(&self, index_id: i64) -> (r: Option<usize>)
        requires
            self.wf(),
        ensures
            match r {
                Some(p) => p < self.spec_items().len() && self.spec_items()[p as int].index_id
                    == index_id && !item_has_version(
                    self.spec_versions(),
                    self.spec_items()[p as int],
                ) && !item_has_child(self.spec_items(), self.spec_items()[p as int]),
                None => forall|j: int|
                    0 <= j < self.spec_items().len() && (#[trigger] self.spec_items()[j]).index_id
                        == index_id ==> item_has_version(
                        self.spec_versions(),
                        self.spec_items()[j],
                    ) || item_has_child(self.spec_items(), self.spec_items()[j]),
            },
    {
        let mut i: usize = 0;
        while i < self.items.len()
            invariant
                i <= self.items@.len(),
                forall|j: int|
                    0 <= j < i && (#[trigger] self.spec_items()[j]).index_id == index_id
                        ==> item_has_version(self.spec_versions(), self.spec_items()[j])
                        || item_has_child(self.spec_items(), self.spec_items()[j]),
            decreases self.items@.len() - i,
        {
            if self.items[i].index_id == index_id {
                if self.find_version_of_item(self.items[i].id).is_none() && self.find_child_of_item(
                    self.items[i].id,
                ).is_none() {
                    return Some(i);
                }
            }
            i = i + 1;
        }
        None
    }

    #[verifier::loop_isolation(false)]
    fn find_version_of_item(&self, item_id: i64) -> (r: Option<usize>)
        ensures
            match r {
                Some(p) => p < self.spec_versions().len() && self.spec_versions()[p as int].item_id
                    == item_id,
                None => forall|j: int|
                    0 <= j < self.spec_versions().len() ==> (
                    #[trigger] self.spec_versions()[j]).item_id != item_id,
            },
    {
        let mut i: usize = 0;
        while i < self.versions.len()
            invariant
                i <= self.versions@.len(),
                forall|j: int|
                    0 <= j < i ==> (#[trigger] self.versions@[j]).item_id != item_id,
            decreases self.versions@.len() - i,
        {
            if self.versions[i].item_id == item_id {
                return Some(i);
            }
            i = i + 1;
        }
        None
    }

    #[verifier::loop_isolation(false)]
    fn find_child_of_item(&self, item_id: i64) -> (r: Option<usize>)
        ensures
            match r {
                Some(p) => p < self.spec_items().len() && self.spec_items()[p as int].parent_id
                    == Some(item_id),
                None => forall|j: int|
                    0 <= j < self.spec_items().len() ==> (#[trigger] self.spec_items()[j]).parent_id
                        != Some(item_id),
            },
    {
        let mut i: usize = 0;
        while i < self.items.len()
            invariant
                i <= self.items@.len(),
                forall|j: int| 0 <= j < i ==> (#[trigger] self.items@[j]).parent_id != Some(item_id),
            decreases self.items@.len() - i,
        {
            let hit = match self.items[i].parent_id {
                Some(p) => p == item_id,
                None => false,
            };
            if hit {
                return Some(i);
            }
            i = i + 1;
        }
        None
    }

    /// The reap after a scan: delete the index's parts not seen since the
    /// scan began, then its versions left without parts, then its items left
    /// without versions and children, bottom up. Returns how many of each
    /// went.
    pub fn cleanup_deleted_files(&mut self, index_id: i64, pre_scan_ts: i64) -> (r: (
        usize,
        usize,
        usize,
    ))
        requires
            old(self).wf(),
        ensures
            final(self).wf(),
            final(self).spec_indexes() == old(self).spec_indexes(),
            items_subset(final(self).spec_items(), old(self).spec_items()),
            versions_subset(final(self).spec_versions(), old(self).spec_versions()),
            parts_subset(final(self).spec_parts(), old(self).spec_parts()),
            forall|j: int|
                0 <= j < final(self).spec_parts().len() && part_in_index(
                    final(self).spec_items(),
                    final(self).spec_versions(),
                    #[trigger] final(self).spec_parts()[j],
                    index_id as int,
                ) ==> final(self).spec_parts()[j].updated_at >= pre_scan_ts,
            forall|j: int|
                0 <= j < final(self).spec_versions().len() && version_in_index(
                    final(self).spec_items(),
                    #[trigger] final(self).spec_versions()[j],
                    index_id as int,
                ) ==> version_has_part(final(self).spec_parts(), final(self).spec_versions()[j]),
            forall|j: int|
                0 <= j < final(self).spec_items().len() && (
                #[trigger] final(self).spec_items()[j]).index_id == index_id ==> item_has_version(
                    final(self).spec_versions(),
                    final(self).spec_items()[j],
                ) || item_has_child(final(self).spec_items(), final(self).spec_items()[j]),
            forall|k: int|
                0 <= k < old(self).spec_parts().len() && !(part_in_index(
                    old(self).spec_items(),
                    old(self).spec_versions(),
                    #[trigger] old(self).spec_parts()[k],
                    index_id as int,
                ) && old(self).spec_parts()[k].updated_at < pre_scan_ts) ==> final(self).spec_parts().contains(old(self).spec_parts()[k]),
            forall|k: int|
                0 <= k < old(self).spec_versions().len() && (!version_in_index(
                    old(self).spec_items(),
                    #[trigger] old(self).spec_versions()[k],
                    index_id as int,
                ) || version_has_part(final(self).spec_parts(), old(self).spec_versions()[k]))
                    ==> final(self).spec_versions().contains(old(self).spec_versions()[k]),
            forall|k: int|
                0 <= k < old(self).spec_items().len() && ((#[trigger] old(self).spec_items()[k]).index_id != index_id || item_has_version(
                    final(self).spec_versions(),
                    old(self).spec_items()[k],
                )) ==> final(self).spec_items().contains(old(self).spec_items()[k]),
    {
        let mut deleted_parts: usize = 0;
        let mut deleted_versions: usize = 0;
        let mut deleted_items: usize = 0;
        let mut finished = false;
        while !finished
            invariant
                self.wf(),
                self.spec_indexes() == old(self).spec_indexes(),
                self.spec_items() == old(self).spec_items(),
                self.spec_versions() == old(self).spec_versions(),
                parts_subset(self.spec_parts(), old(self).spec_parts()),
                finished ==> forall|j: int|
                    0 <= j < self.spec_parts().len() && part_in_index(
                        self.spec_items(),
                        self.spec_versions(),
                        #[trigger] self.spec_parts()[j],
                        index_id as int,
                    ) ==> self.spec_parts()[j].updated_at >= pre_scan_ts,
                forall|k: int|
                    0 <= k < old(self).spec_parts().len() && !(part_in_index(
                        old(self).spec_items(),
                        old(self).spec_versions(),
                        #[trigger] old(self).spec_parts()[k],
                        index_id as int,
                    ) && old(self).spec_parts()[k].updated_at < pre_scan_ts)
                        ==> self.spec_parts().contains(old(self).spec_parts()[k]),
            decreases self.spec_parts().len(), (if finished { 0int } else { 1int }),
        {
            let ghost pre = self.parts@;
            match self.find_stale_part(index_id, pre_scan_ts) {
                Some(k) => {
                    proof {
                        lemma_remove_part(
                            self.indexes@,
                            self.items@,
                            self.versions@,
                            self.parts@,
                            self.next_id as int,
                            k as int,
                        );
                    }
                    self.parts.remove(k);
                    if deleted_parts < usize::MAX {
                        deleted_parts = deleted_parts + 1;
                    }
                    proof {
                        assert forall|i: int|
                            0 <= i < self.parts@.len() implies old(self).parts@.contains(
                            #[trigger] self.parts@[i],
                        ) by {
                            let oi = if i < k {
                                i
                            } else {
                                i + 1
                            };
                            assert(self.parts@[i] == pre[oi]);
                            assert(old(self).parts@.contains(pre[oi]));
                        }
                        assert forall|t: int|
                            0 <= t < old(self).spec_parts().len() && !(part_in_index(
                                old(self).spec_items(),
                                old(self).spec_versions(),
                                #[trigger] old(self).spec_parts()[t],
                                index_id as int,
                            ) && old(self).spec_parts()[t].updated_at < pre_scan_ts) implies
                            self.spec_parts().contains(old(self).spec_parts()[t]) by {
                            let x = old(self).spec_parts()[t];
                            assert(pre.contains(x));
                            assert(part_in_index(
                                old(self).spec_items(),
                                old(self).spec_versions(),
                                pre[k as int],
                                index_id as int,
                            ) && pre[k as int].updated_at < pre_scan_ts);
                            assert(x != pre[k as int]);
                            lemma_remove_keeps_contains(pre, k as int, x);
                        }
                    }
                },
                None => {
                    finished = true;
                },
            }
        }
        let ghost after_parts = *self;
        let mut finished2 = false;
        while !finished2
            invariant
                self.wf(),
                self.spec_indexes() == old(self).spec_indexes(),
                self.spec_items() == old(self).spec_items(),
                versions_subset(self.spec_versions(), after_parts.spec_versions()),
                self.spec_parts() == after_parts.spec_parts(),
                parts_subset(self.spec_parts(), old(self).spec_parts()),
                forall|t: int|
                    0 <= t < old(self).spec_parts().len() && !(part_in_index(
                        old(self).spec_items(),
                        old(self).spec_versions(),
                        #[trigger] old(self).spec_parts()[t],
                        index_id as int,
                    ) && old(self).spec_parts()[t].updated_at < pre_scan_ts)
                        ==> self.spec_parts().contains(old(self).spec_parts()[t]),
                forall|t: int|
                    0 <= t < old(self).spec_versions().len() && (!version_in_index(
                        old(self).spec_items(),
                        #[trigger] old(self).spec_versions()[t],
                        index_id as int,
                    ) || version_has_part(self.spec_parts(), old(self).spec_versions()[t]))
                        ==> self.spec_versions().contains(old(self).spec_versions()[t]),
                forall|j: int|
                    0 <= j < self.spec_parts().len() && part_in_index(
                        self.spec_items(),
                        self.spec_versions(),
                        #[trigger] self.spec_parts()[j],
                        index_id as int,
                    ) ==> self.spec_parts()[j].updated_at >= pre_scan_ts,
                finished2 ==> forall|j: int|
                    0 <= j < self.spec_versions().len() && version_in_index(
                        self.spec_items(),
                        #[trigger] self.spec_versions()[j],
                        index_id as int,
                    ) ==> version_has_part(self.spec_parts(), self.spec_versions()[j]),
            decreases self.spec_versions().len(), (if finished2 { 0int } else { 1int }),
        {
            let ghost pre_vs = self.versions@;
            let ghost pre_ps = self.parts@;
            match self.find_empty_version(index_id) {
                Some(k) => {
                    let vid = self.versions[k].id;
                    proof {
                        assert(!version_has_part(self.parts@, self.versions@[k as int]));
                        assert forall|j: int|
                            0 <= j < self.parts@.len() implies (
                        #[trigger] self.parts@[j]).version_id != self.versions@[k as int].id by {}
                        lemma_remove_version(
                            self.indexes@,
                            self.items@,
                            self.versions@,
                            self.parts@,
                            self.next_id as int,
                            k as int,
                        );
                    }
                    self.versions.remove(k);
                    if deleted_versions < usize::MAX {
                        deleted_versions = deleted_versions + 1;
                    }
                    proof {
                        assert forall|i: int|
                            0 <= i < self.versions@.len() implies after_parts.versions@.contains(
                            #[trigger] self.versions@[i],
                        ) by {
                            let oi = if i < k {
                                i
                            } else {
                                i + 1
                            };
                            assert(self.versions@[i] == pre_vs[oi]);
                            assert(after_parts.versions@.contains(pre_vs[oi]));
                        }
                        assert forall|t: int|
                            0 <= t < old(self).spec_versions().len() && (!version_in_index(
                                old(self).spec_items(),
                                #[trigger] old(self).spec_versions()[t],
                                index_id as int,
                            ) || version_has_part(self.spec_parts(), old(self).spec_versions()[t]))
                            implies self.spec_versions().contains(
                            old(self).spec_versions()[t],
                        ) by {
                            let x = old(self).spec_versions()[t];
                            assert(pre_vs.contains(x));
                            assert(version_in_index(
                                old(self).spec_items(),
                                pre_vs[k as int],
                                index_id as int,
                            ));
                            assert(!version_has_part(self.spec_parts(), pre_vs[k as int]));
                            assert(x != pre_vs[k as int]);
                            lemma_remove_keeps_contains(pre_vs, k as int, x);
                        }
                        assert forall|j: int|
                            0 <= j < self.parts@.len() && part_in_index(
                                self.items@,
                                self.versions@,
                                #[trigger] self.parts@[j],
                                index_id as int,
                            ) implies self.parts@[j].updated_at >= pre_scan_ts by {
                            let w = choose|w: int|
                                0 <= w < self.versions@.len() && (
                                #[trigger] self.versions@[w]).id == self.parts@[j].version_id
                                    && version_in_index(
                                    self.items@,
                                    self.versions@[w],
                                    index_id as int,
                                );
                            let ow = if w < k {
                                w
                            } else {
                                w + 1
                            };
                            assert(self.versions@[w] == pre_vs[ow]);
                            assert(part_in_index(
                                self.items@,
                                pre_vs,
                                self.parts@[j],
                                index_id as int,
                            ));
                        }
                    }
                },
                None => {
                    finished2 = true;
                },
            }
        }
        let ghost after_versions = *self;
        let mut finished3 = false;
        while !finished3
            invariant
                self.wf(),
                self.spec_indexes() == old(self).spec_indexes(),
                items_subset(self.spec_items(), after_versions.spec_items()),
                self.spec_versions() == after_versions.spec_versions(),
                self.spec_parts() == after_versions.spec_parts(),
                forall|t: int|
                    0 <= t < old(self).spec_items().len() && ((#[trigger] old(self).spec_items()[t]).index_id != index_id || item_has_version(
                        self.spec_versions(),
                        old(self).spec_items()[t],
                    )) ==> self.spec_items().contains(old(self).spec_items()[t]),
                forall|j: int|
                    0 <= j < self.spec_parts().len() && part_in_index(
                        self.spec_items(),
                        self.spec_versions(),
                        #[trigger] self.spec_parts()[j],
                        index_id as int,
                    ) ==> self.spec_parts()[j].updated_at >= pre_scan_ts,
                forall|j: int|
                    0 <= j < self.spec_versions().len() && version_in_index(
                        self.spec_items(),
                        #[trigger] self.spec_versions()[j],
                        index_id as int,
                    ) ==> version_has_part(self.spec_parts(), self.spec_versions()[j]),
                finished3 ==> forall|j: int|
                    0 <= j < self.spec_items().len() && (#[trigger] self.spec_items()[j]).index_id
                        == index_id ==> item_has_version(self.spec_versions(), self.spec_items()[j])
                        || item_has_child(self.spec_items(), self.spec_items()[j]),
            decreases self.spec_items().len(), (if finished3 { 0int } else { 1int }),
        {
            let ghost pre_its = self.items@;
            match self.find_bare_item(index_id) {
                Some(k) => {
                    proof {
                        assert forall|j: int|
                            0 <= j < self.versions@.len() implies (
                        #[trigger] self.versions@[j]).item_id != self.items@[k as int].id by {
                            assert(!item_has_version(self.versions@, self.items@[k as int]));
                        }
                        assert forall|j: int|
                            0 <= j < self.items@.len() implies ((
                        #[trigger] self.items@[j]).parent_id is Some ==> self.items@[j].parent_id->0
                            != self.items@[k as int].id) by {
                            assert(!item_has_child(self.items@, self.items@[k as int]));
                        }
                        lemma_remove_item(
                            self.indexes@,
                            self.items@,
                            self.versions@,
                            self.parts@,
                            self.next_id as int,
                            k as int,
                        );
                    }
                    self.items.remove(k);
                    if deleted_items < usize::MAX {
                        deleted_items = deleted_items + 1;
                    }
                    proof {
                        assert forall|t: int|
                            0 <= t < old(self).spec_items().len() && ((#[trigger] old(self).spec_items()[t]).index_id != index_id || item_has_version(
                                self.spec_versions(),
                                old(self).spec_items()[t],
                            )) implies self.spec_items().contains(old(self).spec_items()[t]) by {
                            let x = old(self).spec_items()[t];
                            assert(pre_its.contains(x));
                            assert(pre_its[k as int].index_id == index_id);
                            assert(!item_has_version(self.spec_versions(), pre_its[k as int]));
                            assert(x != pre_its[k as int]);
                            lemma_remove_keeps_contains(pre_its, k as int, x);
                        }
                        assert forall|i: int|
                            0 <= i < self.items@.len() implies after_versions.items@.contains(
                            #[trigger] self.items@[i],
                        ) by {
                            let oi = if i < k {
                                i
                            } else {
                                i + 1
                            };
                            assert(self.items@[i] == pre_its[oi]);
                            assert(after_versions.items@.contains(pre_its[oi]));
                        }
                        assert forall|j: int|
                            0 <= j < self.parts@.len() && part_in_index(
                                self.items@,
                                self.versions@,
                                #[trigger] self.parts@[j],
                                index_id as int,
                            ) implies self.parts@[j].updated_at >= pre_scan_ts by {
                            lemma_chain_shrinks(pre_its, self.items@, self.versions@, k as int);
                            assert(part_in_index(
                                pre_its,
                                self.versions@,
                                self.parts@[j],
                                index_id as int,
                            ));
                        }
                        assert forall|j: int|
                            0 <= j < self.spec_versions().len() && version_in_index(
                                self.spec_items(),
                                #[trigger] self.spec_versions()[j],
                                index_id as int,
                            ) implies version_has_part(
                            self.spec_parts(),
                            self.spec_versions()[j],
                        ) by {
                            let t = choose|t: int|
                                0 <= t < self.items@.len() && (#[trigger] self.items@[t]).id
                                    == self.spec_versions()[j].item_id && self.items@[t].index_id
                                    == index_id;
                            let ot = if t < k {
                                t
                            } else {
                                t + 1
                            };
                            assert(self.items@[t] == pre_its[ot]);
                            assert(version_in_index(
                                pre_its,
                                self.spec_versions()[j],
                                index_id as int,
                            ));
                        }
                    }
                },
                None => {
                    finished3 = true;
                },
            }
        }
        (deleted_parts, deleted_versions, deleted_items)
    }
}

/// Removing one row keeps every other row's membership.
proof fn lemma_remove_keeps_contains<T>(s: Seq<T>, j: int, x: T)
    requires
        0 <= j < s.len(),
        s.contains(x),
        x != s[j],
    ensures
        s.remove(j).contains(x),
{
    let t = choose|t: int| 0 <= t < s.len() && s[t] == x;
    if t < j {
        assert(s.remove(j)[t] == x);
    } else {
        assert(s.remove(j)[t - 1] == x);
    }
}

/// Removing an item only shrinks the set of chains: a part or version
/// chained into an index through the shrunken item table was chained before.
proof fn lemma_chain_shrinks(
    pre: Seq<VideoItem>,
    now: Seq<VideoItem>,
    vs: Seq<VideoVersion>,
    k: int,
)
    requires
        0 <= k < pre.len(),
        now == pre.remove(k),
    ensures
        forall|j: int, index_id: int|
            0 <= j < vs.len() && #[trigger] version_in_index(now, vs[j], index_id)
                ==> version_in_index(pre, vs[j], index_id),
{
    assert forall|j: int, index_id: int|
        0 <= j < vs.len() && #[trigger] version_in_index(now, vs[j], index_id) implies
        version_in_index(pre, vs[j], index_id) by {
        let t = choose|t: int|
            0 <= t < now.len() && (#[trigger] now[t]).id == vs[j].item_id && now[t].index_id
                == index_id;
        let ot = if t < k {
            t
        } else {
            t + 1
        };
        assert(now[t] == pre[ot]);
    }
}

proof fn lemma_no_other_version_with_id(vs: Seq<VideoVersion>, k: int)
    requires
        forall|i: int, j: int|
            0 <= i < j < vs.len() ==> (#[trigger] vs[i]).id != (#[trigger] vs[j]).id,
        0 <= k < vs.len(),
    ensures
        forall|j: int| 0 <= j < vs.len() && j != k ==> (#[trigger] vs[j]).id != vs[k].id,
{
    assert forall|j: int| 0 <= j < vs.len() && j != k implies (#[trigger] vs[j]).id != vs[k].id by {
        if j < k {
            assert(vs[j].id != vs[k].id);
        } else {
            assert(vs[k].id != vs[j].id);
        }
    }
}

/// In a table with unique ids, only position `k` carries its id.
proof fn lemma_no_other_with_id(its: Seq<VideoItem>, k: int)
    requires
        forall|i: int, j: int|
            0 <= i < j < its.len() ==> (#[trigger] its[i]).id != (#[trigger] its[j]).id,
        0 <= k < its.len(),
    ensures
        forall|j: int| 0 <= j < its.len() && j != k ==> (#[trigger] its[j]).id != its[k].id,
{
    assert forall|j: int| 0 <= j < its.len() && j != k implies (#[trigger] its[j]).id != its[k].id
        by {
        if j < k {
            assert(its[j].id != its[k].id);
        } else {
            assert(its[k].id != its[j].id);
        }
    }
}

fn kind_eq(a: ItemKind, b: ItemKind) -> (r: bool)
    ensures
        r == (a == b),
{
    a == b
}

/// String slice equality means equality of the character sequences.
fn str_eq_str(a: &str, b: &str) -> (r: bool)
    ensures
        r == (a@ == b@),
{
    let av = crate::text::chars_of(a);
    let bv = crate::text::chars_of(b);
    crate::text::chars_eq(&av, &bv)
}

fn eq_string(a: &String, b: &String) -> (r: bool)
    ensures
        r == (a@ == b@),
{
    a.eq(b)
}

proof fn lemma_wf_update_index(
    ixs: Seq<Index>,
    its: Seq<VideoItem>,
    vs: Seq<VideoVersion>,
    ps: Seq<VideoPart>,
    next: int,
    k: int,
    x: Index,
)
    requires
        wf_parts(ixs, its, vs, ps, next),
        0 <= k < ixs.len(),
        x.id == ixs[k].id,
    ensures
        wf_parts(ixs.update(k, x), its, vs, ps, next),
{
    let new_ixs = ixs.update(k, x);
    assert forall|i: int, j: int| 0 <= i < j < new_ixs.len() implies (#[trigger] new_ixs[i]).id
        != (#[trigger] new_ixs[j]).id by {
        if i != k {
            assert(new_ixs[i] == ixs[i]);
        }
        if j != k {
            assert(new_ixs[j] == ixs[j]);
        }
    }
    assert forall|i: int| 0 <= i < new_ixs.len() implies 1 <= (#[trigger] new_ixs[i]).id < next by {
        if i != k {
            assert(new_ixs[i] == ixs[i]);
        }
    }
    assert forall|i: int| 0 <= i < its.len() implies has_index_id(
        new_ixs,
        (#[trigger] its[i]).index_id as int,
    ) by {
        let w = choose|w: int| 0 <= w < ixs.len() && (#[trigger] ixs[w]).id == its[i].index_id;
        if w == k {
            assert(new_ixs[k].id == its[i].index_id);
        } else {
            assert(new_ixs[w].id == its[i].index_id);
        }
    }
}

} // verus!
