//! The catalog's records: indexes, video items, versions, parts, and the
//! small account records the server keeps beside them.
//!
//! Every record carries plain values; timestamps are Unix seconds handed in
//! by the caller, so that the records themselves are pure data.

use vstd::prelude::*;

verus! {

/// Scan lifecycle of an index.
#[derive(Debug, Clone, Copy, PartialEq, Eq, Structural)]
pub enum ScanStatus {
    Idle,
    Queued,
    Scanning,
    Done,
    Failed,
}

/// What kind of node a video item is; a closed sum so matches are checked
/// exhaustively.
#[derive(Debug, Clone, Copy, PartialEq, Eq, Structural)]
pub enum ItemKind {
    Movie,
    Show,
    Season,
    Episode,
    Video,
    Extra,
}

/// Typed metadata bag of a video item: what the scanner records there.
#[derive(Debug, Clone)]
pub struct ItemMeta {
    pub air_date: Option<String>,
    pub extra_type: Option<String>,
}

impl ItemMeta {
    pub fn empty() -> (r: ItemMeta)
        ensures
            r.air_date is None,
            r.extra_type is None,
    {
        ItemMeta { air_date: None, extra_type: None }
    }
}

/// An access token.
#[derive(Debug, Clone)]
pub struct Token {
    pub token: String,
    pub user_agent: String,
    pub created_at: i64,
}

impl Token {
    pub fn new(token: String, user_agent: String, now: i64) -> (r: Token)
        ensures
            r.token@ == token@,
            r.user_agent@ == user_agent@,
            r.created_at == now,
    {
        Token { token, user_agent, created_at: now }
    }
}

/// A viewer profile.
#[derive(Debug, Clone)]
pub struct Profile {
    pub id: i64,
    pub name: String,
    pub color: String,
    pub created_at: i64,
}

impl Profile {
    /// A fresh profile; the store assigns the id.
    pub fn new(name: String, color: String, now: i64) -> (r: Profile)
        ensures
            r.id == 0,
            r.name@ == name@,
            r.color@ == color@,
            r.created_at == now,
    {
        Profile { id: 0, name, color, created_at: now }
    }
}

/// A catalog root: a named set of folders scanned into one hierarchy.
#[derive(Debug, Clone)]
pub struct Index {
    pub id: i64,
    pub name: String,
    pub kind: String,
    pub is_plugin: bool,
    pub icon: Option<String>,
    pub folders: Vec<String>,
    pub scan_status: ScanStatus,
    pub last_scanned_at: i64,
    pub created_at: i64,
}

impl Index {
    pub fn new(name: String, kind: String, icon: Option<String>, folders: Vec<String>, now: i64)
        -> (r: Index)
        ensures
            r.id == 0,
            r.name@ == name@,
            r.kind@ == kind@,
            !r.is_plugin,
            r.scan_status == ScanStatus::Idle,
            r.last_scanned_at == 0,
            r.created_at == now,
            r.folders@ == folders@,
            r.icon == icon,
    {
        Index {
            id: 0,
            name,
            kind,
            is_plugin: false,
            icon,
            folders,
            scan_status: ScanStatus::Idle,
            last_scanned_at: 0,
            created_at: now,
        }
    }
}

/// A queued or running scan.
#[derive(Debug, Clone)]
pub struct ScanJob {
    pub id: i64,
    pub index_id: i64,
    pub status: ScanStatus,
    pub created_at: i64,
    pub updated_at: i64,
}

impl ScanJob {
    pub fn new(index_id: i64, status: ScanStatus, now: i64) -> (r: ScanJob)
        ensures
            r.id == 0,
            r.index_id == index_id,
            r.status == status,
            r.created_at == now,
            r.updated_at == now,
    {
        ScanJob { id: 0, index_id, status, created_at: now, updated_at: now }
    }
}

/// A hierarchy node: show, season, episode, movie, plain video or extra.
#[derive(Debug, Clone)]
pub struct VideoItem {
    pub id: i64,
    pub index_id: i64,
    pub kind: ItemKind,
    pub parent_id: Option<i64>,
    pub title: String,
    pub sort_title: Option<String>,
    pub year: Option<i64>,
    pub number: Option<i64>,
    pub source_path: Option<String>,
    pub metadata: ItemMeta,
    pub added_at: i64,
    pub latest_added_at: i64,
    pub created_at: i64,
    pub updated_at: i64,
}

impl VideoItem {
    pub fn new(
        index_id: i64,
        kind: ItemKind,
        title: String,
        parent_id: Option<i64>,
        metadata: ItemMeta,
        now: i64,
    ) -> (r: VideoItem)
        ensures
            r.id == 0,
            r.index_id == index_id,
            r.kind == kind,
            r.parent_id == parent_id,
            r.title@ == title@,
            r.sort_title is None,
            r.year is None,
            r.number is None,
            r.source_path is None,
            r.metadata == metadata,
            r.added_at == now,
            r.latest_added_at == now,
            r.created_at == now,
            r.updated_at == now,
    {
        VideoItem {
            id: 0,
            index_id,
            kind,
            parent_id,
            title,
            sort_title: None,
            year: None,
            number: None,
            source_path: None,
            metadata,
            added_at: now,
            latest_added_at: now,
            created_at: now,
            updated_at: now,
        }
    }
}

/// One rendition of an item's content: an edition and its technical shape.
#[derive(Debug, Clone)]
pub struct VideoVersion {
    pub id: i64,
    pub item_id: i64,
    pub edition: Option<String>,
    pub source: Option<String>,
    pub container: Option<String>,
    pub resolution: Option<String>,
    pub hdr: bool,
    pub audio_channels: Option<i64>,
    pub bitrate: Option<i64>,
    pub runtime_ms: Option<i64>,
    pub probe_version: Option<String>,
    pub created_at: i64,
    pub updated_at: i64,
}

impl VideoVersion {
    pub fn new(item_id: i64, now: i64) -> (r: VideoVersion)
        ensures
            r.id == 0,
            r.item_id == item_id,
            r.edition is None,
            r.source is None,
            r.container is None,
            r.resolution is None,
            !r.hdr,
            r.audio_channels is None,
            r.bitrate is None,
            r.runtime_ms is None,
            r.probe_version is None,
            r.created_at == now,
            r.updated_at == now,
    {
        VideoVersion {
            id: 0,
            item_id,
            edition: None,
            source: None,
            container: None,
            resolution: None,
            hdr: false,
            audio_channels: None,
            bitrate: None,
            runtime_ms: None,
            probe_version: None,
            created_at: now,
            updated_at: now,
        }
    }
}

/// One physical file on disk, owned by a version.
#[derive(Debug, Clone)]
pub struct VideoPart {
    pub id: i64,
    pub version_id: i64,
    pub path: String,
    pub size: Option<i64>,
    pub mtime: Option<i64>,
    pub part_index: i64,
    pub duration_ms: Option<i64>,
    pub fast_hash: Option<String>,
    pub created_at: i64,
    pub updated_at: i64,
}

impl VideoPart {
    pub fn new(version_id: i64, path: String, part_index: i64, now: i64) -> (r: VideoPart)
        ensures
            r.id == 0,
            r.version_id == version_id,
            r.path@ == path@,
            r.size is None,
            r.mtime is None,
            r.part_index == part_index,
            r.duration_ms is None,
            r.fast_hash is None,
            r.created_at == now,
            r.updated_at == now,
    {
        VideoPart {
            id: 0,
            version_id,
            path,
            size: None,
            mtime: None,
            part_index,
            duration_ms: None,
            fast_hash: None,
            created_at: now,
            updated_at: now,
        }
    }
}

} // verus!
