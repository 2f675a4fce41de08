//! Content-addressed asset storage: blob paths and the asset index.
//!
//! File reads and writes happen around these functions; here stand the
//! path scheme of the blob store and the record index of a project.
use vstd::prelude::*;

use crate::hash::{hex_of, ContentHash};
use crate::text::{chars_of, push_str};

verus! {

/// Stable project-scoped asset identifier (a 128-bit ULID value).
#[derive(Clone, Copy, PartialEq, Eq, PartialOrd, Ord, Hash, Debug, Structural)]
pub struct AssetId(pub u128);

/// Asset category stored in the database.
#[derive(Debug, Clone, Copy, PartialEq, Eq, Structural)]
pub enum AssetKind {
    /// Triangle mesh geometry.
    Mesh,
    /// PBR material description.
    Material,
    /// Raw texture image bytes.
    Texture,
    /// Point cloud metadata blob.
    PointCloud,
    /// Point cloud chunk payload blob.
    PointCloudChunk,
    /// Gaussian splat metadata blob.
    GaussianSplat,
    /// Gaussian splat chunk payload blob.
    GaussianSplatChunk,
}

/// Metadata entry stored in the asset index.
#[derive(Debug, Clone, PartialEq, Eq)]
pub struct AssetRecord {
    /// Stable project-scoped asset identifier.
    pub id: AssetId,
    /// Asset category.
    pub kind: AssetKind,
    /// Content hash of the primary blob.
    pub content_hash: ContentHash,
    /// Human-readable asset name.
    pub name: String,
    /// MIME type when known.
    pub mime_type: Option<String>,
}

/// Mathematical content of an [`AssetRecord`].
pub struct AssetRecordView {
    pub id: AssetId,
    pub kind: AssetKind,
    pub content_hash: ContentHash,
    pub name: Seq<char>,
    pub mime_type: Option<Seq<char>>,
}

pub open spec fn opt_view(s: Option<String>) -> Option<Seq<char>> {
    match s {
        Some(v) => Some(v@),
        None => None,
    }
}

impl View for AssetRecord {
    type V = AssetRecordView;

    open spec fn view(&self) -> AssetRecordView {
        AssetRecordView {
            id: self.id,
            kind: self.kind,
            content_hash: self.content_hash,
            name: self.name@,
            mime_type: opt_view(self.mime_type),
        }
    }
}

fn clone_opt(s: &Option<String>) -> (r: Option<String>)
    ensures
        opt_view(r) == opt_view(*s),
{
    match s {
        Some(v) => Some(v.clone()),
        None => None,
    }
}

impl AssetRecord {
    /// A copy of this record with the same content.
    pub fn duplicate(&self) -> (r: AssetRecord)
        ensures
            r@ == self@,
    {
        AssetRecord {
            id: self.id,
            kind: self.kind,
            content_hash: self.content_hash,
            name: self.name.clone(),
            mime_type: clone_opt(&self.mime_type),
        }
    }
}

/// Asset database error type.
#[derive(Debug, Clone, PartialEq, Eq)]
pub enum AssetError {
    /// IO failure, with its message.
    Io(String),
    /// JSON serialization failure.
    Serialization(String),
    /// Asset was not found.
    NotFound(AssetId),
    /// Blob was not found.
    BlobNotFound(String),
    /// Invalid content hash string.
    InvalidHash(String),
}

/// `Path::join` of a relative component onto a base path: a separator is
/// added unless the base is empty or already ends with one.
pub open spec fn path_join(base: Seq<char>, part: Seq<char>) -> Seq<char> {
    if base.len() == 0 {
        part
    } else if base.last() == '/' {
        base + part
    } else {
        base + seq!['/'] + part
    }
}

fn path_join_exec(base: &str, part: &str) -> (r: String)
    ensures
        r@ == path_join(base@, part@),
{
    let b = chars_of(base);
    let mut r = base.to_owned();
    if b.len() == 0 {
        return part.to_owned();
    }
    if b[b.len() - 1] != '/' {
        push_str(&mut r, "/");
        assert("/"@ == seq!['/']) by {
            reveal_strlit("/");
        }
    }
    push_str(&mut r, part);
    r
}

/// Filesystem location of content-addressed blobs.
#[derive(Debug, Clone)]
pub struct BlobStore {
    root: String,
}

/// Where a blob with the given hash lives below the blob root:
/// `<root>/<first two hex digits>/<hex>`.
pub open spec fn blob_path(root: Seq<char>, hash: ContentHash) -> Seq<char> {
    path_join(path_join(root, hex_of(hash.0@).subrange(0, 2)), hex_of(hash.0@))
}

impl BlobStore {
    /// The blob root of the project at `project_root`: `<project>/assets/blobs`.
    /// The directory itself is created by the caller.
    pub fn new(project_root: &str) -> (r: Self)
        ensures
            r.root()@ == path_join(project_root@, "assets/blobs"@),
    {
        BlobStore { root: path_join_exec(project_root, "assets/blobs") }
    }

    /// The blob root directory.
    pub closed spec fn root(self) -> String {
        self.root
    }

    /// The blob root directory.
    pub fn root_dir(&self) -> (r: &String)
        ensures
            r == self.root(),
    {
        &self.root
    }

    /// File path of the blob with the given hash.
    pub fn path_for(&self, hash: ContentHash) -> (r: String)
        ensures
            r@ == blob_path(self.root()@, hash),
    {
        let hex = hash.to_hex();
        let digits = chars_of(hex.as_str());
        proof {
            crate::hash::lemma_hex_len(hash.0@);
        }
        let prefix = crate::text::string_from_range(&digits, 0, 2);
        let dir = path_join_exec(self.root.as_str(), prefix.as_str());
        path_join_exec(dir.as_str(), hex.as_str())
    }
}

/// Project asset database: the project root, its blob store and the asset
/// index, kept in ascending id order with each id once.
#[derive(Debug)]
pub struct AssetDb {
    root: String,
    blobs: BlobStore,
    records: Vec<AssetRecord>,
}

pub open spec fn ids_sorted(s: Seq<AssetRecord>) -> bool {
    forall|i: int, j: int| 0 <= i < j < s.len() ==> (#[trigger] s[i]).id.0 < (#[trigger] s[j]).id.0
}

/// The index as a map from asset id to record.
pub open spec fn record_map(s: Seq<AssetRecord>) -> Map<AssetId, AssetRecordView> {
    Map::new(
        |id: AssetId| exists|i: int| 0 <= i < s.len() && (#[trigger] s[i]).id == id,
        |id: AssetId| s[choose|i: int| 0 <= i < s.len() && (#[trigger] s[i]).id == id]@,
    )
}

proof fn lemma_record_at(s: Seq<AssetRecord>, i: int)
    requires
        ids_sorted(s),
        0 <= i < s.len(),
    ensures
        record_map(s).contains_key(s[i].id),
        record_map(s)[s[i].id] == s[i]@,
{
    let j = choose|j: int| 0 <= j < s.len() && (#[trigger] s[j]).id == s[i].id;
    assert(s[j].id == s[i].id);
    if j < i {
        assert(s[j].id.0 < s[i].id.0);
    } else if j > i {
        assert(s[i].id.0 < s[j].id.0);
    }
}

proof fn lemma_record_map_ext(s: Seq<AssetRecord>, t: Seq<AssetRecord>, m: Map<AssetId, AssetRecordView>)
    requires
        ids_sorted(t),
        forall|id: AssetId| #[trigger] m.contains_key(id) <==> exists|i: int| 0 <= i < t.len() && (#[trigger] t[i]).id == id,
        forall|i: int| 0 <= i < t.len() ==> m[(#[trigger] t[i]).id] == t[i]@,
    ensures
        record_map(t) == m,
{
    assert forall|id: AssetId| #[trigger] record_map(t).contains_key(id) implies record_map(t)[id] == m[id] by {
        let i = choose|i: int| 0 <= i < t.len() && (#[trigger] t[i]).id == id;
        lemma_record_at(t, i);
    }
    assert(record_map(t) =~= m);
}

impl AssetDb {
    #[verifier::type_invariant]
    spec fn sorted(self) -> bool {
        ids_sorted(self.records@)
    }

    /// The asset index as a map from id to record.
    pub closed spec fn index(self) -> Map<AssetId, AssetRecordView> {
        record_map(self.records@)
    }

    /// The project root directory.
    pub closed spec fn root(self) -> String {
        self.root
    }

    /// The blob store of the project.
    pub closed spec fn blob_store(self) -> BlobStore {
        self.blobs
    }

    /// A database over the project at `project_root` holding the given
    /// records (as read from the index file); a later record replaces an
    /// earlier one with the same id.
    pub fn open(project_root: &str, records: Vec<AssetRecord>) -> (r: Self)
        ensures
            r.root()@ == project_root@,
            r.blob_store().root()@ == path_join(project_root@, "assets/blobs"@),
            r.index() == records_loaded(records@),
    {
        let mut db = AssetDb {
            root: project_root.to_owned(),
            blobs: BlobStore::new(project_root),
            records: Vec::new(),
        };
        assert(record_map(db.records@) =~= Map::<AssetId, AssetRecordView>::empty());
        let mut i: usize = 0;
        while i < records.len()
            invariant
                i <= records.len(),
                db.index() == records_loaded(records@.take(i as int)),
                db.root()@ == project_root@,
                db.blob_store().root()@ == path_join(project_root@, "assets/blobs"@),
            decreases records.len() - i,
        {
            let r = records[i].duplicate();
            db.insert_record(r);
            assert(records@.take(i + 1).drop_last() == records@.take(i as int));
            i += 1;
        }
        assert(records@.take(i as int) == records@);
        db
    }

    /// Returns the project root directory.
    pub fn project_root(&self) -> (r: &String)
        ensures
            r == self.root(),
    {
        &self.root
    }

    /// Borrow blob storage.
    pub fn blobs(&self) -> (r: &BlobStore)
        ensures
            r == self.blob_store(),
    {
        &self.blobs
    }

    fn insert_record(&mut self, record: AssetRecord)
        ensures
            final(self).index() == old(self).index().insert(record.id, record@),
            final(self).root() == old(self).root(),
            final(self).blob_store() == old(self).blob_store(),
    {
        proof {
            use_type_invariant(&*self);
        }
        let mut records: Vec<AssetRecord> = Vec::new();
        std::mem::swap(&mut records, &mut self.records);
        let ghost old_records = records@;
        let n = records.len();
        let mut p: usize = 0;
        while p < n && records[p].id.0 < record.id.0
            invariant
                n == records.len(),
                records@ == old_records,
                p <= n,
                forall|i: int| 0 <= i < p ==> (#[trigger] records@[i]).id.0 < record.id.0,
            decreases n - p,
        {
            p += 1;
        }
        let ghost m = record_map(old_records).insert(record.id, record@);
        if p < n && records[p].id.0 == record.id.0 {
            records.set(p, record);
            proof {
                let t = records@;
                assert(ids_sorted(t)) by {
                    assert forall|i: int, j: int| 0 <= i < j < t.len() implies (#[trigger] t[i]).id.0 < (#[trigger] t[j]).id.0 by {
                        assert(old_records[i].id.0 < old_records[j].id.0);
                    }
                }
                assert forall|id: AssetId| #[trigger] m.contains_key(id) <==> exists|i: int| 0 <= i < t.len() && (#[trigger] t[i]).id == id by {
                    if record_map(old_records).contains_key(id) {
                        let i = choose|i: int| 0 <= i < old_records.len() && (#[trigger] old_records[i]).id == id;
                        assert(t[i].id == id);
                    }
                    if exists|i: int| 0 <= i < t.len() && (#[trigger] t[i]).id == id {
                        let i = choose|i: int| 0 <= i < t.len() && (#[trigger] t[i]).id == id;
                        if i != p {
                            assert(old_records[i].id == id);
                        }
                    }
                }
                assert forall|i: int| 0 <= i < t.len() implies m[(#[trigger] t[i]).id] == t[i]@ by {
                    if i != p {
                        lemma_record_at(old_records, i);
                        assert(t[i].id.0 != t[p as int].id.0);
                    }
                }
                lemma_record_map_ext(old_records, t, m);
            }
        } else {
            records.insert(p, record);
            proof {
                let t = records@;
                assert forall|j: int| p <= j < n implies record.id.0 < (#[trigger] old_records[j]).id.0 by {
                    if j > p {
                        assert(old_records[p as int].id.0 < old_records[j].id.0);
                    }
                }
                assert(ids_sorted(t)) by {
                    assert forall|i: int, j: int| 0 <= i < j < t.len() implies (#[trigger] t[i]).id.0 < (#[trigger] t[j]).id.0 by {
                        if i < p && j < p {
                            assert(old_records[i].id.0 < old_records[j].id.0);
                        } else if i < p && j > p {
                            assert(old_records[j - 1].id.0 > record.id.0);
                        } else if i > p {
                            assert(old_records[i - 1].id.0 < old_records[j - 1].id.0);
                        }
                    }
                }
                assert forall|id: AssetId| #[trigger] m.contains_key(id) <==> exists|i: int| 0 <= i < t.len() && (#[trigger] t[i]).id == id by {
                    if record_map(old_records).contains_key(id) {
                        let i = choose|i: int| 0 <= i < old_records.len() && (#[trigger] old_records[i]).id == id;
                        if i < p {
                            assert(t[i].id == id);
                        } else {
                            assert(t[i + 1].id == id);
                        }
                    }
                    if id == record.id {
                        assert(t[p as int].id == id);
                    }
                    if exists|i: int| 0 <= i < t.len() && (#[trigger] t[i]).id == id {
                        let i = choose|i: int| 0 <= i < t.len() && (#[trigger] t[i]).id == id;
                        if i < p {
                            assert(old_records[i].id == id);
                        } else if i > p {
                            assert(old_records[i - 1].id == id);
                        }
                    }
                }
                assert forall|i: int| 0 <= i < t.len() implies m[(#[trigger] t[i]).id] == t[i]@ by {
                    if i < p {
                        lemma_record_at(old_records, i);
                    } else if i > p {
                        lemma_record_at(old_records, i - 1);
                    }
                }
                lemma_record_map_ext(old_records, t, m);
            }
        }
        self.records = records;
    }

    /// Insert a record for an asset whose blob was stored under `content_hash`,
    /// replacing any record with the same id.
    pub fn insert(
        &mut self,
        id: AssetId,
        kind: AssetKind,
        name: &str,
        content_hash: ContentHash,
        mime_type: Option<String>,
    ) -> (r: AssetRecord)
        ensures
            r@ == (AssetRecordView { id, kind, content_hash, name: name@, mime_type: opt_view(mime_type) }),
            final(self).index() == old(self).index().insert(id, r@),
            final(self).root() == old(self).root(),
            final(self).blob_store() == old(self).blob_store(),
    {
        let record = AssetRecord { id, kind, content_hash, name: name.to_owned(), mime_type };
        let r = record.duplicate();
        self.insert_record(record);
        r
    }

    /// Lookup an asset record by id.
    pub fn get(&self, asset_id: AssetId) -> (r: Option<&AssetRecord>)
        ensures
            match r {
                Some(record) => self.index().contains_key(asset_id) && record@ == self.index()[asset_id],
                None => !self.index().contains_key(asset_id),
            },
    {
        proof {
            use_type_invariant(self);
        }
        let mut i: usize = 0;
        while i < self.records.len()
            invariant
                i <= self.records.len(),
                ids_sorted(self.records@),
                forall|j: int| 0 <= j < i ==> (#[trigger] self.records@[j]).id != asset_id,
            decreases self.records.len() - i,
        {
            if self.records[i].id.0 == asset_id.0 {
                proof {
                    lemma_record_at(self.records@, i as int);
                }
                return Some(&self.records[i]);
            }
            i += 1;
        }
        None
    }

    /// Point an existing asset record at a new blob.
    pub fn replace_blob(&mut self, id: AssetId, content_hash: ContentHash) -> (r: Result<AssetRecord, AssetError>)
        ensures
            match r {
                Ok(record) => old(self).index().contains_key(id) && record@ == (AssetRecordView {
                    content_hash,
                    ..old(self).index()[id]
                }) && final(self).index() == old(self).index().insert(id, record@),
                Err(e) => !old(self).index().contains_key(id) && e == AssetError::NotFound(id)
                    && final(self).index() == old(self).index(),
            },
            final(self).root() == old(self).root(),
            final(self).blob_store() == old(self).blob_store(),
    {
        let updated = match self.get(id) {
            Some(record) => {
                let mut updated = record.duplicate();
                updated.content_hash = content_hash;
                updated
            },
            None => {
                return Err(AssetError::NotFound(id));
            },
        };
        let r = updated.duplicate();
        self.insert_record(updated);
        Ok(r)
    }

    /// Asset records in ascending id order.
    pub fn records(&self) -> (r: Vec<AssetRecord>)
        ensures
            ids_sorted(r@),
            record_map(r@) == self.index(),
    {
        proof {
            use_type_invariant(self);
        }
        let mut r: Vec<AssetRecord> = Vec::new();
        let mut i: usize = 0;
        while i < self.records.len()
            invariant
                i <= self.records.len(),
                r.len() == i,
                forall|j: int| 0 <= j < i ==> (#[trigger] r@[j])@ == self.records@[j]@ && r@[j].id == self.records@[j].id,
            decreases self.records.len() - i,
        {
            r.push(self.records[i].duplicate());
            i += 1;
        }
        proof {
            assert(ids_sorted(r@)) by {
                assert forall|a: int, b: int| 0 <= a < b < r@.len() implies (#[trigger] r@[a]).id.0 < (#[trigger] r@[b]).id.0 by {
                    assert(self.records@[a].id.0 < self.records@[b].id.0);
                }
            }
            let m = record_map(self.records@);
            assert forall|id: AssetId| #[trigger] m.contains_key(id) <==> exists|i: int| 0 <= i < r@.len() && (#[trigger] r@[i]).id == id by {
                if m.contains_key(id) {
                    let i = choose|i: int| 0 <= i < self.records@.len() && (#[trigger] self.records@[i]).id == id;
                    assert(r@[i].id == id);
                }
                if exists|i: int| 0 <= i < r@.len() && (#[trigger] r@[i]).id == id {
                    let i = choose|i: int| 0 <= i < r@.len() && (#[trigger] r@[i]).id == id;
                    assert(self.records@[i].id == id);
                }
            }
            assert forall|i: int| 0 <= i < r@.len() implies m[(#[trigger] r@[i]).id] == r@[i]@ by {
                lemma_record_at(self.records@, i);
            }
            lemma_record_map_ext(self.records@, r@, m);
        }
        r
    }
}

/// The index obtained by inserting the records of `s` in order.
pub open spec fn records_loaded(s: Seq<AssetRecord>) -> Map<AssetId, AssetRecordView>
    decreases s.len(),
{
    if s.len() == 0 {
        Map::empty()
    } else {
        records_loaded(s.drop_last()).insert(s.last().id, s.last()@)
    }
}

/// What a lookup gives back after an insert: the inserted record, and for
/// every other id whatever it gave before.
pub proof fn law_get_after_insert(
    before: Map<AssetId, AssetRecordView>,
    after: Map<AssetId, AssetRecordView>,
    record: AssetRecordView,
    other: AssetId,
)
    requires
        after == before.insert(record.id, record),
    ensures
        after.contains_key(record.id) && after[record.id] == record,
        other != record.id ==> (after.contains_key(other) == before.contains_key(other)
            && (before.contains_key(other) ==> after[other] == before[other])),
{
}


/// Saving the index writes its records in id order; opening a database from
/// those records gives back the same index.
pub proof fn law_reload_round_trip(s: Seq<AssetRecord>)
    requires
        ids_sorted(s),
    ensures
        records_loaded(s) == record_map(s),
    decreases s.len(),
{
    if s.len() > 0 {
        let t = s.drop_last();
        let last = s.last();
        assert(ids_sorted(t)) by {
            assert forall|i: int, j: int| 0 <= i < j < t.len() implies (#[trigger] t[i]).id.0 < (
            #[trigger] t[j]).id.0 by {
                assert(t[i] == s[i] && t[j] == s[j]);
            }
        }
        law_reload_round_trip(t);
        let m = record_map(t).insert(last.id, last@);
        assert forall|id: AssetId| #[trigger] m.contains_key(id) <==> exists|i: int|
            0 <= i < s.len() && (#[trigger] s[i]).id == id by {
            if m.contains_key(id) && id != last.id {
                let i = choose|i: int| 0 <= i < t.len() && (#[trigger] t[i]).id == id;
                assert(s[i].id == id);
            }
            if id == last.id {
                assert(s[s.len() - 1].id == id);
            }
            if exists|i: int| 0 <= i < s.len() && (#[trigger] s[i]).id == id {
                let i = choose|i: int| 0 <= i < s.len() && (#[trigger] s[i]).id == id;
                if i < s.len() - 1 {
                    assert(t[i].id == id);
                }
            }
        }
        assert forall|i: int| 0 <= i < s.len() implies m[(#[trigger] s[i]).id] == s[i]@ by {
            if i < s.len() - 1 {
                assert(s[i].id.0 < last.id.0);
                assert(t[i] == s[i]);
                lemma_record_at(t, i);
            }
        }
        lemma_record_map_ext(s, s, m);
    }
}
} // verus!
