//! The metadata store: photos keyed by path, albums keyed by id, and the
//! memberships that join them, with the queries the library answers.

use vstd::prelude::*;
use crate::civil::year_of_timestamp;
use crate::media::PhotoMetadata;
use crate::order::{is_permutation, order_desc, sorted_desc_by};
use crate::text::{chars_of, string_of};

verus! {

/// Where a record came from.
#[derive(Clone, Copy, Debug, PartialEq, Eq, Structural)]
pub enum SourceType {
    Scan,
    Upload,
}

impl SourceType {
    /// The name under which the source is stored (`scan`, `upload`).
    pub fn as_str(&self) -> (r: &'static str)
        ensures
            *self == SourceType::Scan ==> r@ == "scan"@,
            *self == SourceType::Upload ==> r@ == "upload"@,
    {
        match self {
            SourceType::Scan => "scan",
            SourceType::Upload => "upload",
        }
    }
}

/// Why a store operation could not be carried out.
#[derive(Clone, Copy, Debug, PartialEq, Eq, Structural)]
pub enum StoreError {
    /// No more rows or album ids can be issued.
    Full,
    /// A capture time falls in a year that four digits cannot write.
    YearOutOfRange,
}

/// A stored photo: its record, where it came from, and when it was stored.
#[derive(Debug)]
pub struct PhotoRow {
    pub photo: PhotoMetadata,
    pub source_type: SourceType,
    /// Time of the last insert or replace, seconds since the epoch.
    pub created_at: i64,
}

impl PhotoRow {
    pub fn duplicate(&self) -> (r: Self)
        ensures
            r == *self,
    {
        PhotoRow { photo: self.photo.duplicate(), source_type: self.source_type, created_at: self.created_at }
    }
}

/// A stored album.
#[derive(Debug)]
pub struct AlbumRow {
    pub id: i64,
    pub name: String,
    pub cover_photo_path: Option<String>,
    pub created_at: i64,
}

/// A photo's membership in an album.
#[derive(Debug)]
pub struct Membership {
    pub album_id: i64,
    pub photo_path: String,
    pub added_at: i64,
}

impl Membership {
    pub fn duplicate(&self) -> (r: Self)
        ensures
            r == *self,
    {
        Membership { album_id: self.album_id, photo_path: self.photo_path.clone(), added_at: self.added_at }
    }
}

/// An album as listed, with the number of its memberships.
#[derive(Clone, Debug)]
pub struct Album {
    pub id: i64,
    pub name: String,
    pub cover_photo_path: Option<String>,
    pub count: i64,
}

/// The contents of a store.
pub struct StoreView {
    pub photos: Seq<PhotoRow>,
    pub albums: Seq<AlbumRow>,
    pub members: Seq<Membership>,
    pub next_album_id: int,
}

/// The photos, albums and memberships of one library.
pub struct MetadataStore {
    photos: Vec<PhotoRow>,
    albums: Vec<AlbumRow>,
    members: Vec<Membership>,
    next_album_id: i64,
}

impl View for MetadataStore {
    type V = StoreView;

    closed spec fn view(&self) -> StoreView {
        StoreView {
            photos: self.photos@,
            albums: self.albums@,
            members: self.members@,
            next_album_id: self.next_album_id as int,
        }
    }
}

pub open spec fn unique_paths(rows: Seq<PhotoRow>) -> bool {
    forall|i: int, j: int|
        0 <= i < j < rows.len() ==> #[trigger] rows[i].photo.path@ != #[trigger] rows[j].photo.path@
}

pub open spec fn unique_album_ids(albums: Seq<AlbumRow>) -> bool {
    forall|i: int, j: int| 0 <= i < j < albums.len() ==> #[trigger] albums[i].id != #[trigger] albums[j].id
}

pub open spec fn same_membership(a: Membership, b: Membership) -> bool {
    a.album_id == b.album_id && a.photo_path@ == b.photo_path@
}

pub open spec fn unique_members(ms: Seq<Membership>) -> bool {
    forall|i: int, j: int| 0 <= i < j < ms.len() ==> !same_membership(#[trigger] ms[i], #[trigger] ms[j])
}

/// The invariant of a store: paths identify photos, ids identify albums and
/// lie below the next id to issue, a photo is in an album at most once, and
/// the row counts fit the counters.
pub open spec fn store_wf(v: StoreView) -> bool {
    &&& unique_paths(v.photos)
    &&& unique_album_ids(v.albums)
    &&& forall|i: int| 0 <= i < v.albums.len() ==> 1 <= #[trigger] v.albums[i].id < v.next_album_id
    &&& 1 <= v.next_album_id <= i64::MAX
    &&& unique_members(v.members)
    &&& v.photos.len() < i64::MAX
    &&& v.members.len() < i64::MAX
}

pub open spec fn path_is_not(p: Seq<char>) -> spec_fn(PhotoRow) -> bool {
    |r: PhotoRow| r.photo.path@ != p
}

pub open spec fn path_key() -> spec_fn(PhotoRow) -> Seq<char> {
    |r: PhotoRow| r.photo.path@
}

/// The rows whose path is not `p`.
pub open spec fn without_path(rows: Seq<PhotoRow>, p: Seq<char>) -> Seq<PhotoRow> {
    rows.filter(path_is_not(p))
}

/// The rows after an insert-or-replace of `row`: any row with its path goes,
/// and `row` is added.
pub open spec fn upserted(rows: Seq<PhotoRow>, row: PhotoRow) -> Seq<PhotoRow> {
    without_path(rows, row.photo.path@).push(row)
}

pub open spec fn has_path(rows: Seq<PhotoRow>, p: Seq<char>) -> bool {
    exists|i: int| 0 <= i < rows.len() && rows[i].photo.path@ == p
}

/// Every element of a filtered sequence is an element of the sequence, and
/// filtering keeps distinct keys distinct.
proof fn lemma_filter_subset_unique<A, K>(s: Seq<A>, pred: spec_fn(A) -> bool, key: spec_fn(A) -> K)
    ensures
        forall|k: int| 0 <= k < s.filter(pred).len() ==> s.contains(#[trigger] s.filter(pred)[k]),
        forall|k: int| 0 <= k < s.filter(pred).len() ==> pred(#[trigger] s.filter(pred)[k]),
        (forall|i: int, j: int| 0 <= i < j < s.len() ==> key(#[trigger] s[i]) != key(#[trigger] s[j]))
            ==> (forall|i: int, j: int|
            0 <= i < j < s.filter(pred).len() ==> key(#[trigger] s.filter(pred)[i]) != key(
                #[trigger] s.filter(pred)[j],
            )),
    decreases s.len(),
{
    reveal(Seq::filter);
    if s.len() > 0 {
        let d = s.drop_last();
        lemma_filter_subset_unique(d, pred, key);
        let f = s.filter(pred);
        let fd = d.filter(pred);
        assert forall|k: int| 0 <= k < f.len() implies s.contains(#[trigger] f[k]) by {
            if k < fd.len() {
                assert(f[k] == fd[k]);
                let j = choose|j: int| 0 <= j < d.len() && d[j] == fd[k];
                assert(s[j] == d[j]);
            } else {
                assert(f[k] == s[s.len() - 1]);
            }
        }
        assert forall|k: int| 0 <= k < f.len() implies pred(#[trigger] f[k]) by {
            if k < fd.len() {
                assert(f[k] == fd[k]);
            }
        }
        if forall|i: int, j: int| 0 <= i < j < s.len() ==> key(#[trigger] s[i]) != key(#[trigger] s[j]) {
            assert forall|i: int, j: int| 0 <= i < j < d.len() implies key(#[trigger] d[i]) != key(
                #[trigger] d[j],
            ) by {
                assert(d[i] == s[i] && d[j] == s[j]);
            }
            assert forall|i: int, j: int| 0 <= i < j < f.len() implies key(#[trigger] f[i]) != key(
                #[trigger] f[j],
            ) by {
                if j < fd.len() {
                    assert(f[i] == fd[i] && f[j] == fd[j]);
                } else {
                    assert(f[i] == fd[i]);
                    assert(d.contains(fd[i]));
                    let a = choose|a: int| 0 <= a < d.len() && d[a] == fd[i];
                    assert(s[a] == d[a]);
                    assert(f[j] == s[s.len() - 1]);
                }
            }
        }
    }
}

pub proof fn lemma_without_path(rows: Seq<PhotoRow>, p: Seq<char>)
    ensures
        forall|k: int| 0 <= k < without_path(rows, p).len() ==> rows.contains(#[trigger] without_path(rows, p)[k]),
        forall|k: int| 0 <= k < without_path(rows, p).len() ==> (#[trigger] without_path(rows, p)[k]).photo.path@ != p,
        unique_paths(rows) ==> unique_paths(without_path(rows, p)),
{
    let key = path_key();
    let pred = path_is_not(p);
    lemma_filter_subset_unique(rows, pred, key);
    if unique_paths(rows) {
        assert forall|i: int, j: int| 0 <= i < j < rows.len() implies key(#[trigger] rows[i]) != key(
            #[trigger] rows[j],
        ) by {}
        let w = without_path(rows, p);
        assert forall|i: int, j: int| 0 <= i < j < w.len() implies #[trigger] w[i].photo.path@ != #[trigger] w[j].photo.path@ by {
            assert(key(w[i]) != key(w[j]));
        }
    }
}

pub open spec fn member_path_is_not(p: Seq<char>) -> spec_fn(Membership) -> bool {
    |m: Membership| m.photo_path@ != p
}

pub open spec fn member_album_is_not(id: i64) -> spec_fn(Membership) -> bool {
    |m: Membership| m.album_id != id
}

pub open spec fn member_key() -> spec_fn(Membership) -> (i64, Seq<char>) {
    |m: Membership| (m.album_id, m.photo_path@)
}

/// The memberships that do not refer to photo path `p`.
pub open spec fn without_member_path(ms: Seq<Membership>, p: Seq<char>) -> Seq<Membership> {
    ms.filter(member_path_is_not(p))
}

/// The memberships that do not refer to album `id`.
pub open spec fn without_member_album(ms: Seq<Membership>, id: i64) -> Seq<Membership> {
    ms.filter(member_album_is_not(id))
}

pub proof fn lemma_member_filter(ms: Seq<Membership>, pred: spec_fn(Membership) -> bool)
    ensures
        forall|k: int| 0 <= k < ms.filter(pred).len() ==> ms.contains(#[trigger] ms.filter(pred)[k]),
        forall|k: int| 0 <= k < ms.filter(pred).len() ==> pred(#[trigger] ms.filter(pred)[k]),
        unique_members(ms) ==> unique_members(ms.filter(pred)),
{
    let key = member_key();
    lemma_filter_subset_unique(ms, pred, key);
    if unique_members(ms) {
        assert forall|i: int, j: int| 0 <= i < j < ms.len() implies key(#[trigger] ms[i]) != key(
            #[trigger] ms[j],
        ) by {
            assert(!same_membership(ms[i], ms[j]));
        }
        let w = ms.filter(pred);
        assert forall|i: int, j: int| 0 <= i < j < w.len() implies !same_membership(#[trigger] w[i], #[trigger] w[j]) by {
            assert(key(w[i]) != key(w[j]));
        }
    }
}

/// A row with its favorite flag set to `fav`.
pub open spec fn with_favorite(row: PhotoRow, fav: bool) -> PhotoRow {
    PhotoRow { photo: PhotoMetadata { is_favorite: fav, ..row.photo }, ..row }
}

/// The rows after the favorite flag of the row with path `p` is set.
pub open spec fn favorite_set(rows: Seq<PhotoRow>, p: Seq<char>, fav: bool) -> Seq<PhotoRow> {
    rows.map_values(|r: PhotoRow| if r.photo.path@ == p { with_favorite(r, fav) } else { r })
}

/// `out` holds the records of `rows`, each once, in some order.
pub open spec fn records_of(out: Seq<PhotoMetadata>, rows: Seq<PhotoRow>) -> bool {
    exists|order: Seq<usize>|
        {
            &&& is_permutation(order, rows.len() as int)
            &&& out.len() == rows.len()
            &&& forall|k: int| 0 <= k < out.len() ==> out[k] == #[trigger] rows[order[k] as int].photo
        }
}

/// Latest capture time first.
pub open spec fn newest_first(out: Seq<PhotoMetadata>) -> bool {
    forall|a: int, b: int| 0 <= a < b < out.len() ==> #[trigger] out[a].date_taken >= #[trigger] out[b].date_taken
}

/// A listing of rows: their records, latest capture time first.
fn listing(rows: &Vec<PhotoRow>) -> (r: Vec<PhotoMetadata>)
    ensures
        records_of(r@, rows@),
        newest_first(r@),
{
    let mut keys: Vec<i64> = Vec::new();
    let mut i: usize = 0;
    while i < rows.len()
        invariant
            i <= rows@.len(),
            keys@.len() == i,
            forall|k: int| 0 <= k < i ==> keys@[k] == #[trigger] rows@[k].photo.date_taken,
        decreases rows@.len() - i,
    {
        keys.push(rows[i].photo.date_taken);
        i = i + 1;
    }
    let order = order_desc(&keys);
    let mut out: Vec<PhotoMetadata> = Vec::new();
    let mut k: usize = 0;
    while k < order.len()
        invariant
            k <= order@.len(),
            is_permutation(order@, rows@.len() as int),
            sorted_desc_by(order@, keys@),
            keys@.len() == rows@.len(),
            forall|m: int| 0 <= m < rows@.len() ==> keys@[m] == #[trigger] rows@[m].photo.date_taken,
            out@.len() == k,
            forall|j: int| 0 <= j < k ==> out@[j] == #[trigger] rows@[order@[j] as int].photo,
        decreases order@.len() - k,
    {
        out.push(rows[order[k]].photo.duplicate());
        k = k + 1;
    }
    assert forall|a: int, b: int| 0 <= a < b < out@.len() implies #[trigger] out@[a].date_taken
        >= #[trigger] out@[b].date_taken by {
        assert(keys@[order@[a] as int] >= keys@[order@[b] as int]);
        assert(out@[a] == rows@[order@[a] as int].photo);
        assert(out@[b] == rows@[order@[b] as int].photo);
    }
    assert(records_of(out@, rows@));
    out
}

impl MetadataStore {
    /// An empty store; the first album gets id 1.
    pub fn new() -> (r: Self)
        ensures
            store_wf(r@),
            r@.photos.len() == 0,
            r@.albums.len() == 0,
            r@.members.len() == 0,
            r@.next_album_id == 1,
    {
        MetadataStore { photos: Vec::new(), albums: Vec::new(), members: Vec::new(), next_album_id: 1 }
    }

    pub open spec fn wf(&self) -> bool {
        store_wf(self@)
    }

    /// Inserts a record under its path, replacing any row with that path
    /// (favorite flag included), stamped with `source_type` and time `now`.
    pub fn insert_photo(&mut self, photo: PhotoMetadata, source_type: SourceType, now: i64) -> (r: Result<(), StoreError>)
        requires
            old(self).wf(),
        ensures
            final(self).wf(),
            r is Err <==> old(self)@.photos.len() >= i64::MAX - 1,
            r is Err ==> final(self)@ == old(self)@,
            r is Ok ==> final(self)@ == (StoreView {
                photos: upserted(old(self)@.photos, PhotoRow { photo, source_type, created_at: now }),
                ..old(self)@
            }),
    {
        if self.photos.len() as u64 >= (i64::MAX as u64) - 1 {
            return Err(StoreError::Full);
        }
        let ghost rows = self.photos@;
        let ghost p = photo.path@;
        let mut kept: Vec<PhotoRow> = Vec::new();
        let mut i: usize = 0;
        while i < self.photos.len()
            invariant
                i <= self.photos@.len(),
                rows == self.photos@,
                p == photo.path@,
                kept@ == without_path(rows.subrange(0, i as int), p),
            decreases self.photos@.len() - i,
        {
            proof {
                reveal(Seq::filter);
                assert(rows.subrange(0, i + 1).drop_last() == rows.subrange(0, i as int));
                assert(rows.subrange(0, i + 1).last() == rows[i as int]);
            }
            if self.photos[i].photo.path != photo.path {
                kept.push(self.photos[i].duplicate());
            }
            i = i + 1;
        }
        assert(rows.subrange(0, rows.len() as int) == rows);
        let row = PhotoRow { photo, source_type, created_at: now };
        kept.push(row);
        proof {
            lemma_without_path(rows, p);
            let w = without_path(rows, p);
            assert forall|a: int, b: int| 0 <= a < b < kept@.len() implies #[trigger] kept@[a].photo.path@
                != #[trigger] kept@[b].photo.path@ by {
                if b == kept@.len() - 1 {
                    assert(kept@[a] == w[a]);
                } else {
                    assert(kept@[a] == w[a] && kept@[b] == w[b]);
                }
            }
        }
        self.photos = kept;
        Ok(())
    }

    /// All records, latest capture time first.
    pub fn get_all_photos(&self) -> (r: Vec<PhotoMetadata>)
        ensures
            records_of(r@, self@.photos),
            newest_first(r@),
    {
        listing(&self.photos)
    }

    /// Whether a record with this path is stored.
    pub fn photo_exists(&self, path: &str) -> (r: bool)
        ensures
            r == has_path(self@.photos, path@),
    {
        let p = string_of(&chars_of(path));
        let mut i: usize = 0;
        while i < self.photos.len()
            invariant
                i <= self.photos@.len(),
                p@ == path@,
                forall|k: int| 0 <= k < i ==> (#[trigger] self.photos@[k]).photo.path@ != path@,
            decreases self.photos@.len() - i,
        {
            if self.photos[i].photo.path == p {
                return true;
            }
            i = i + 1;
        }
        false
    }

    /// Deletes the record with this path and every membership that refers
    /// to it.
    pub fn delete_photo(&mut self, path: &str)
        requires
            old(self).wf(),
        ensures
            final(self).wf(),
            final(self)@ == (StoreView {
                photos: without_path(old(self)@.photos, path@),
                members: without_member_path(old(self)@.members, path@),
                ..old(self)@
            }),
    {
        let p = string_of(&chars_of(path));
        let ghost rows = self.photos@;
        let mut kept: Vec<PhotoRow> = Vec::new();
        let mut i: usize = 0;
        while i < self.photos.len()
            invariant
                i <= self.photos@.len(),
                rows == self.photos@,
                p@ == path@,
                kept@ == without_path(rows.subrange(0, i as int), path@),
            decreases self.photos@.len() - i,
        {
            proof {
                reveal(Seq::filter);
                assert(rows.subrange(0, i + 1).drop_last() == rows.subrange(0, i as int));
                assert(rows.subrange(0, i + 1).last() == rows[i as int]);
            }
            if self.photos[i].photo.path != p {
                kept.push(self.photos[i].duplicate());
            }
            i = i + 1;
        }
        assert(rows.subrange(0, rows.len() as int) == rows);
        let ghost ms = self.members@;
        let mut kept_members: Vec<Membership> = Vec::new();
        let mut j: usize = 0;
        while j < self.members.len()
            invariant
                j <= self.members@.len(),
                ms == self.members@,
                p@ == path@,
                kept_members@ == without_member_path(ms.subrange(0, j as int), path@),
            decreases self.members@.len() - j,
        {
            proof {
                reveal(Seq::filter);
                assert(ms.subrange(0, j + 1).drop_last() == ms.subrange(0, j as int));
                assert(ms.subrange(0, j + 1).last() == ms[j as int]);
            }
            if self.members[j].photo_path != p {
                kept_members.push(self.members[j].duplicate());
            }
            j = j + 1;
        }
        assert(ms.subrange(0, ms.len() as int) == ms);
        proof {
            lemma_without_path(rows, path@);
            lemma_member_filter(ms, member_path_is_not(path@));
            rows.lemma_filter_len(path_is_not(path@));
            ms.lemma_filter_len(member_path_is_not(path@));
        }
        self.photos = kept;
        self.members = kept_members;
    }

    /// Sets the favorite flag of the record with this path; no record has
    /// that path, nothing changes.
    pub fn set_photo_favorite(&mut self, path: &str, is_favorite: bool)
        requires
            old(self).wf(),
        ensures
            final(self).wf(),
            final(self)@ == (StoreView {
                photos: favorite_set(old(self)@.photos, path@, is_favorite),
                ..old(self)@
            }),
    {
        let p = string_of(&chars_of(path));
        let ghost rows = self.photos@;
        let mut out: Vec<PhotoRow> = Vec::new();
        let mut i: usize = 0;
        while i < self.photos.len()
            invariant
                i <= self.photos@.len(),
                rows == self.photos@,
                p@ == path@,
                out@.len() == i,
                forall|k: int| 0 <= k < i ==> out@[k] == (if (#[trigger] rows[k]).photo.path@ == path@ {
                    with_favorite(rows[k], is_favorite)
                } else {
                    rows[k]
                }),
            decreases self.photos@.len() - i,
        {
            let mut row = self.photos[i].duplicate();
            if row.photo.path == p {
                row.photo.is_favorite = is_favorite;
            }
            out.push(row);
            i = i + 1;
        }
        assert(out@ =~= favorite_set(rows, path@, is_favorite));
        proof {
            let f = favorite_set(rows, path@, is_favorite);
            assert forall|a: int, b: int| 0 <= a < b < f.len() implies #[trigger] f[a].photo.path@
                != #[trigger] f[b].photo.path@ by {
                assert(rows[a].photo.path@ != rows[b].photo.path@);
            }
        }
        self.photos = out;
    }
}

pub open spec fn album_is_not(id: i64) -> spec_fn(AlbumRow) -> bool {
    |a: AlbumRow| a.id != id
}

pub open spec fn album_key() -> spec_fn(AlbumRow) -> i64 {
    |a: AlbumRow| a.id
}

/// The albums whose id is not `id`.
pub open spec fn without_album(albums: Seq<AlbumRow>, id: i64) -> Seq<AlbumRow> {
    albums.filter(album_is_not(id))
}

pub open spec fn membership_is_not(id: i64, p: Seq<char>) -> spec_fn(Membership) -> bool {
    |m: Membership| !(m.album_id == id && m.photo_path@ == p)
}

/// The memberships with the pair (`id`, `p`) removed.
pub open spec fn without_membership(ms: Seq<Membership>, id: i64, p: Seq<char>) -> Seq<Membership> {
    ms.filter(membership_is_not(id, p))
}

pub open spec fn has_membership(ms: Seq<Membership>, id: i64, p: Seq<char>) -> bool {
    exists|i: int| 0 <= i < ms.len() && (#[trigger] ms[i]).album_id == id && ms[i].photo_path@ == p
}

pub open spec fn member_of(id: i64) -> spec_fn(Membership) -> bool {
    |m: Membership| m.album_id == id
}

/// The number of memberships in album `id`.
pub open spec fn member_count(ms: Seq<Membership>, id: i64) -> int {
    ms.filter(member_of(id)).len() as int
}

pub open spec fn in_album(ms: Seq<Membership>, id: i64) -> spec_fn(PhotoRow) -> bool {
    |r: PhotoRow| has_membership(ms, id, r.photo.path@)
}

/// The photo rows that album `id` holds.
pub open spec fn rows_in_album(rows: Seq<PhotoRow>, ms: Seq<Membership>, id: i64) -> Seq<PhotoRow> {
    rows.filter(in_album(ms, id))
}

pub open spec fn option_view(o: Option<String>) -> Option<Seq<char>> {
    match o {
        Some(s) => Some(s@),
        None => None,
    }
}

/// `out` lists the albums, each once, with their membership counts, the most
/// recently created first.
pub open spec fn albums_listed(out: Seq<Album>, albums: Seq<AlbumRow>, ms: Seq<Membership>) -> bool {
    exists|order: Seq<usize>|
        {
            &&& is_permutation(order, albums.len() as int)
            &&& out.len() == albums.len()
            &&& forall|k: int|
                0 <= k < out.len() ==> {
                    let a = #[trigger] albums[order[k] as int];
                    &&& out[k].id == a.id
                    &&& out[k].name == a.name
                    &&& out[k].cover_photo_path == a.cover_photo_path
                    &&& out[k].count == member_count(ms, a.id)
                }
            &&& forall|x: int, y: int|
                0 <= x < y < out.len() ==> (#[trigger] albums[order[x] as int]).created_at >= (
                #[trigger] albums[order[y] as int]).created_at
        }
}

proof fn lemma_album_filter(albums: Seq<AlbumRow>, id: i64, next: int)
    requires
        unique_album_ids(albums),
        forall|i: int| 0 <= i < albums.len() ==> 1 <= #[trigger] albums[i].id < next,
    ensures
        unique_album_ids(without_album(albums, id)),
        forall|i: int|
            0 <= i < without_album(albums, id).len() ==> 1 <= #[trigger] without_album(albums, id)[i].id < next,
        without_album(albums, id).len() <= albums.len(),
{
    let key = album_key();
    lemma_filter_subset_unique(albums, album_is_not(id), key);
    albums.lemma_filter_len(album_is_not(id));
    assert forall|i: int, j: int| 0 <= i < j < albums.len() implies key(#[trigger] albums[i]) != key(
        #[trigger] albums[j],
    ) by {}
    let w = without_album(albums, id);
    assert forall|i: int, j: int| 0 <= i < j < w.len() implies #[trigger] w[i].id != #[trigger] w[j].id by {
        assert(key(w[i]) != key(w[j]));
    }
    assert forall|i: int| 0 <= i < w.len() implies 1 <= #[trigger] w[i].id < next by {
        assert(albums.contains(w[i]));
    }
}

impl MetadataStore {
    /// Creates an album named `name` at time `now` and returns its id: one
    /// more than the last id issued.
    pub fn create_album(&mut self, name: &str, now: i64) -> (r: Result<i64, StoreError>)
        requires
            old(self).wf(),
        ensures
            final(self).wf(),
            r is Err <==> old(self)@.next_album_id == i64::MAX,
            r is Err ==> final(self)@ == old(self)@,
            r matches Ok(id) ==> {
                &&& id == old(self)@.next_album_id
                &&& final(self)@.albums.len() == old(self)@.albums.len() + 1
                &&& final(self)@.albums.drop_last() == old(self)@.albums
                &&& final(self)@.albums.last().id == id
                &&& final(self)@.albums.last().name@ == name@
                &&& final(self)@.albums.last().cover_photo_path is None
                &&& final(self)@.albums.last().created_at == now
                &&& final(self)@.next_album_id == id + 1
                &&& final(self)@.photos == old(self)@.photos
                &&& final(self)@.members == old(self)@.members
            },
    {
        if self.next_album_id == i64::MAX {
            return Err(StoreError::Full);
        }
        let id = self.next_album_id;
        let ghost before = self.albums@;
        self.albums.push(AlbumRow { id, name: string_of(&chars_of(name)), cover_photo_path: None, created_at: now });
        self.next_album_id = id + 1;
        proof {
            let a = self.albums@;
            assert(a.drop_last() == before);
            assert forall|i: int, j: int| 0 <= i < j < a.len() implies #[trigger] a[i].id != #[trigger] a[j].id by {
                if j < a.len() - 1 {
                    assert(a[i] == before[i] && a[j] == before[j]);
                } else {
                    assert(a[i] == before[i]);
                }
            }
            assert forall|i: int| 0 <= i < a.len() implies 1 <= #[trigger] a[i].id < id + 1 by {
                if i < a.len() - 1 {
                    assert(a[i] == before[i]);
                }
            }
        }
        Ok(id)
    }

    /// Deletes album `id` and every membership in it.
    pub fn delete_album(&mut self, id: i64)
        requires
            old(self).wf(),
        ensures
            final(self).wf(),
            final(self)@ == (StoreView {
                albums: without_album(old(self)@.albums, id),
                members: without_member_album(old(self)@.members, id),
                ..old(self)@
            }),
    {
        let ghost albums = self.albums@;
        let mut kept: Vec<AlbumRow> = Vec::new();
        let mut i: usize = 0;
        while i < self.albums.len()
            invariant
                i <= self.albums@.len(),
                albums == self.albums@,
                kept@ == without_album(albums.subrange(0, i as int), id),
            decreases self.albums@.len() - i,
        {
            proof {
                reveal(Seq::filter);
                assert(albums.subrange(0, i + 1).drop_last() == albums.subrange(0, i as int));
                assert(albums.subrange(0, i + 1).last() == albums[i as int]);
            }
            if self.albums[i].id != id {
                let a = &self.albums[i];
                let cover = match &a.cover_photo_path {
                    Some(c) => Some(c.clone()),
                    None => None,
                };
                kept.push(AlbumRow { id: a.id, name: a.name.clone(), cover_photo_path: cover, created_at: a.created_at });
            }
            i = i + 1;
        }
        assert(albums.subrange(0, albums.len() as int) == albums);
        let ghost ms = self.members@;
        let mut kept_members: Vec<Membership> = Vec::new();
        let mut j: usize = 0;
        while j < self.members.len()
            invariant
                j <= self.members@.len(),
                ms == self.members@,
                kept_members@ == without_member_album(ms.subrange(0, j as int), id),
            decreases self.members@.len() - j,
        {
            proof {
                reveal(Seq::filter);
                assert(ms.subrange(0, j + 1).drop_last() == ms.subrange(0, j as int));
                assert(ms.subrange(0, j + 1).last() == ms[j as int]);
            }
            if self.members[j].album_id != id {
                kept_members.push(self.members[j].duplicate());
            }
            j = j + 1;
        }
        assert(ms.subrange(0, ms.len() as int) == ms);
        proof {
            lemma_album_filter(albums, id, self@.next_album_id);
            lemma_member_filter(ms, member_album_is_not(id));
            ms.lemma_filter_len(member_album_is_not(id));
        }
        self.albums = kept;
        self.members = kept_members;
    }
}

fn find_membership(ms: &Vec<Membership>, id: i64, p: &String) -> (r: bool)
    ensures
        r == has_membership(ms@, id, p@),
{
    let mut i: usize = 0;
    while i < ms.len()
        invariant
            i <= ms@.len(),
            forall|k: int| 0 <= k < i ==> !((#[trigger] ms@[k]).album_id == id && ms@[k].photo_path@ == p@),
        decreases ms@.len() - i,
    {
        if ms[i].album_id == id && ms[i].photo_path == *p {
            return true;
        }
        i = i + 1;
    }
    false
}

fn copy_album(a: &AlbumRow) -> (r: AlbumRow)
    ensures
        r == *a,
{
    let cover = match &a.cover_photo_path {
        Some(c) => Some(c.clone()),
        None => None,
    };
    AlbumRow { id: a.id, name: a.name.clone(), cover_photo_path: cover, created_at: a.created_at }
}

impl MetadataStore {
    /// Puts the photo with path `path` into album `album_id` at time `now`;
    /// where it is there already, nothing changes.
    pub fn add_photo_to_album(&mut self, album_id: i64, path: &str, now: i64) -> (r: Result<(), StoreError>)
        requires
            old(self).wf(),
        ensures
            final(self).wf(),
            r is Err <==> !has_membership(old(self)@.members, album_id, path@)
                && old(self)@.members.len() >= i64::MAX - 1,
            r is Err || has_membership(old(self)@.members, album_id, path@) ==> final(self)@ == old(self)@,
            r is Ok && !has_membership(old(self)@.members, album_id, path@) ==> {
                &&& final(self)@.members.len() == old(self)@.members.len() + 1
                &&& final(self)@.members.drop_last() == old(self)@.members
                &&& final(self)@.members.last().album_id == album_id
                &&& final(self)@.members.last().photo_path@ == path@
                &&& final(self)@.members.last().added_at == now
                &&& final(self)@.photos == old(self)@.photos
                &&& final(self)@.albums == old(self)@.albums
                &&& final(self)@.next_album_id == old(self)@.next_album_id
            },
    {
        let p = string_of(&chars_of(path));
        if find_membership(&self.members, album_id, &p) {
            return Ok(());
        }
        if self.members.len() as u64 >= (i64::MAX as u64) - 1 {
            return Err(StoreError::Full);
        }
        let ghost before = self.members@;
        self.members.push(Membership { album_id, photo_path: p, added_at: now });
        proof {
            let m = self.members@;
            assert(m.drop_last() == before);
            assert forall|a: int, b: int| 0 <= a < b < m.len() implies !same_membership(#[trigger] m[a], #[trigger] m[b]) by {
                if b < m.len() - 1 {
                    assert(m[a] == before[a] && m[b] == before[b]);
                } else {
                    assert(m[a] == before[a]);
                }
            }
        }
        Ok(())
    }

    /// Takes the photo with path `path` out of album `album_id`.
    pub fn remove_photo_from_album(&mut self, album_id: i64, path: &str)
        requires
            old(self).wf(),
        ensures
            final(self).wf(),
            final(self)@ == (StoreView {
                members: without_membership(old(self)@.members, album_id, path@),
                ..old(self)@
            }),
    {
        let p = string_of(&chars_of(path));
        let ghost ms = self.members@;
        let mut kept: Vec<Membership> = Vec::new();
        let mut j: usize = 0;
        while j < self.members.len()
            invariant
                j <= self.members@.len(),
                ms == self.members@,
                p@ == path@,
                kept@ == without_membership(ms.subrange(0, j as int), album_id, path@),
            decreases self.members@.len() - j,
        {
            proof {
                reveal(Seq::filter);
                assert(ms.subrange(0, j + 1).drop_last() == ms.subrange(0, j as int));
                assert(ms.subrange(0, j + 1).last() == ms[j as int]);
            }
            if !(self.members[j].album_id == album_id && self.members[j].photo_path == p) {
                kept.push(self.members[j].duplicate());
            }
            j = j + 1;
        }
        assert(ms.subrange(0, ms.len() as int) == ms);
        proof {
            lemma_member_filter(ms, membership_is_not(album_id, path@));
            ms.lemma_filter_len(membership_is_not(album_id, path@));
        }
        self.members = kept;
    }

    /// Makes the photo path `path` the cover of album `album_id`; where there
    /// is no such album, nothing changes.
    pub fn set_album_cover(&mut self, album_id: i64, path: &str)
        requires
            old(self).wf(),
        ensures
            final(self).wf(),
            final(self)@.photos == old(self)@.photos,
            final(self)@.members == old(self)@.members,
            final(self)@.next_album_id == old(self)@.next_album_id,
            final(self)@.albums.len() == old(self)@.albums.len(),
            forall|i: int|
                0 <= i < old(self)@.albums.len() ==> {
                    let a = #[trigger] old(self)@.albums[i];
                    let b = final(self)@.albums[i];
                    &&& b.id == a.id
                    &&& b.name == a.name
                    &&& b.created_at == a.created_at
                    &&& option_view(b.cover_photo_path) == if a.id == album_id {
                        Some(path@)
                    } else {
                        option_view(a.cover_photo_path)
                    }
                },
    {
        let p = string_of(&chars_of(path));
        let ghost albums = self.albums@;
        let mut out: Vec<AlbumRow> = Vec::new();
        let mut i: usize = 0;
        while i < self.albums.len()
            invariant
                i <= self.albums@.len(),
                albums == self.albums@,
                p@ == path@,
                out@.len() == i,
                forall|k: int|
                    0 <= k < i ==> {
                        let a = #[trigger] albums[k];
                        let b = out@[k];
                        &&& b.id == a.id
                        &&& b.name == a.name
                        &&& b.created_at == a.created_at
                        &&& option_view(b.cover_photo_path) == if a.id == album_id {
                            Some(path@)
                        } else {
                            option_view(a.cover_photo_path)
                        }
                    },
            decreases self.albums@.len() - i,
        {
            let mut a = copy_album(&self.albums[i]);
            if a.id == album_id {
                a.cover_photo_path = Some(p.clone());
            }
            out.push(a);
            i = i + 1;
        }
        proof {
            let o = out@;
            assert forall|x: int, y: int| 0 <= x < y < o.len() implies #[trigger] o[x].id != #[trigger] o[y].id by {
                assert(albums[x].id != albums[y].id);
            }
            assert forall|x: int| 0 <= x < o.len() implies 1 <= #[trigger] o[x].id < self@.next_album_id by {
                assert(albums[x].id == o[x].id);
            }
        }
        self.albums = out;
    }

    /// All albums with their membership counts, the most recently created
    /// first.
    pub fn get_albums(&self) -> (r: Vec<Album>)
        requires
            self.wf(),
        ensures
            albums_listed(r@, self@.albums, self@.members),
    {
        let mut keys: Vec<i64> = Vec::new();
        let mut i: usize = 0;
        while i < self.albums.len()
            invariant
                i <= self.albums@.len(),
                keys@.len() == i,
                forall|k: int| 0 <= k < i ==> keys@[k] == #[trigger] self.albums@[k].created_at,
            decreases self.albums@.len() - i,
        {
            keys.push(self.albums[i].created_at);
            i = i + 1;
        }
        let order = order_desc(&keys);
        let mut out: Vec<Album> = Vec::new();
        let mut k: usize = 0;
        while k < order.len()
            invariant
                self.wf(),
                k <= order@.len(),
                is_permutation(order@, self.albums@.len() as int),
                sorted_desc_by(order@, keys@),
                keys@.len() == self.albums@.len(),
                forall|m: int| 0 <= m < self.albums@.len() ==> keys@[m] == #[trigger] self.albums@[m].created_at,
                out@.len() == k,
                forall|j: int|
                    0 <= j < k ==> {
                        let a = #[trigger] self.albums@[order@[j] as int];
                        &&& out@[j].id == a.id
                        &&& out@[j].name == a.name
                        &&& out@[j].cover_photo_path == a.cover_photo_path
                        &&& out@[j].count == member_count(self.members@, a.id)
                    },
            decreases order@.len() - k,
        {
            let a = copy_album(&self.albums[order[k]]);
            let count = self.count_members(a.id);
            out.push(Album { id: a.id, name: a.name, cover_photo_path: a.cover_photo_path, count });
            k = k + 1;
        }
        proof {
            assert forall|x: int, y: int| 0 <= x < y < out@.len() implies (#[trigger] self.albums@[order@[x] as int]).created_at
                >= (#[trigger] self.albums@[order@[y] as int]).created_at by {
                assert(keys@[order@[x] as int] >= keys@[order@[y] as int]);
            }
        }
        out
    }

    /// The number of memberships in album `id`.
    fn count_members(&self, id: i64) -> (r: i64)
        requires
            self.wf(),
        ensures
            r == member_count(self@.members, id),
    {
        let ghost ms = self.members@;
        let mut c: i64 = 0;
        let mut j: usize = 0;
        while j < self.members.len()
            invariant
                self.wf(),
                j <= self.members@.len(),
                ms == self.members@,
                c == ms.subrange(0, j as int).filter(member_of(id)).len(),
            decreases self.members@.len() - j,
        {
            proof {
                reveal(Seq::filter);
                assert(ms.subrange(0, j + 1).drop_last() == ms.subrange(0, j as int));
                assert(ms.subrange(0, j + 1).last() == ms[j as int]);
                ms.subrange(0, j as int).lemma_filter_len(member_of(id));
            }
            if self.members[j].album_id == id {
                c = c + 1;
            }
            j = j + 1;
        }
        assert(ms.subrange(0, ms.len() as int) == ms);
        c
    }

    /// The records of the photos in album `album_id`, latest capture time
    /// first.
    pub fn get_album_photos(&self, album_id: i64) -> (r: Vec<PhotoMetadata>)
        ensures
            records_of(r@, rows_in_album(self@.photos, self@.members, album_id)),
            newest_first(r@),
    {
        let ghost rows = self.photos@;
        let mut selected: Vec<PhotoRow> = Vec::new();
        let mut i: usize = 0;
        while i < self.photos.len()
            invariant
                i <= self.photos@.len(),
                rows == self.photos@,
                selected@ == rows_in_album(rows.subrange(0, i as int), self@.members, album_id),
            decreases self.photos@.len() - i,
        {
            proof {
                reveal(Seq::filter);
                assert(rows.subrange(0, i + 1).drop_last() == rows.subrange(0, i as int));
                assert(rows.subrange(0, i + 1).last() == rows[i as int]);
            }
            if find_membership(&self.members, album_id, &self.photos[i].photo.path) {
                selected.push(self.photos[i].duplicate());
            }
            i = i + 1;
        }
        assert(rows.subrange(0, rows.len() as int) == rows);
        listing(&selected)
    }
}

/// The UTC year in which a row's photo was captured.
pub open spec fn year_of_row(r: PhotoRow) -> int {
    year_of_timestamp(r.photo.date_taken as int)
}

pub open spec fn year_is(y: int) -> spec_fn(PhotoRow) -> bool {
    |r: PhotoRow| year_of_row(r) == y
}

/// The number of rows captured in year `y`.
pub open spec fn year_count(rows: Seq<PhotoRow>, y: int) -> int {
    rows.filter(year_is(y)).len() as int
}

/// Every row was captured in a year that four digits can write.
pub open spec fn years_writable(rows: Seq<PhotoRow>) -> bool {
    forall|i: int| 0 <= i < rows.len() ==> 0 <= #[trigger] year_of_row(rows[i]) <= 9999
}

pub open spec fn year_listed(ys: Seq<int>, y: int) -> bool {
    exists|k: int| 0 <= k < ys.len() && ys[k] == y
}

/// `table` gives, for each year `ys[k]` in which some row was captured, the
/// year in four digits and the number of rows captured in it, latest year
/// first.
pub open spec fn year_table(table: Seq<(String, i64)>, ys: Seq<int>, rows: Seq<PhotoRow>) -> bool {
    &&& ys.len() == table.len()
    &&& forall|a: int, b: int| 0 <= a < b < ys.len() ==> #[trigger] ys[a] > #[trigger] ys[b]
    &&& forall|k: int|
        0 <= k < ys.len() ==> {
            &&& 0 <= #[trigger] ys[k] <= 9999
            &&& table[k].0@ == crate::text::padded_decimal(ys[k] as nat, 4)
            &&& table[k].1 == year_count(rows, ys[k])
            &&& table[k].1 >= 1
        }
    &&& forall|i: int| 0 <= i < rows.len() ==> #[trigger] year_listed(ys, year_of_row(rows[i]))
}

pub open spec fn entry_years(e: Seq<(i32, i64)>) -> Seq<int> {
    e.map_values(|x: (i32, i64)| x.0 as int)
}

proof fn lemma_year_count_step(rows: Seq<PhotoRow>, i: int, z: int)
    requires
        0 <= i < rows.len(),
    ensures
        year_count(rows.subrange(0, i + 1), z) == year_count(rows.subrange(0, i), z) + if year_of_row(rows[i]) == z {
            1int
        } else {
            0int
        },
        year_count(rows.subrange(0, i), z) <= i,
{
    reveal(Seq::filter);
    assert(rows.subrange(0, i + 1).drop_last() == rows.subrange(0, i));
    assert(rows.subrange(0, i + 1).last() == rows[i]);
    rows.subrange(0, i).lemma_filter_len(year_is(z));
}

proof fn lemma_year_count_zero(rows: Seq<PhotoRow>, z: int)
    requires
        forall|j: int| 0 <= j < rows.len() ==> year_of_row(#[trigger] rows[j]) != z,
    ensures
        year_count(rows, z) == 0,
{
    lemma_filter_subset_unique(rows, year_is(z), path_key());
    let f = rows.filter(year_is(z));
    if f.len() > 0 {
        assert(rows.contains(f[0]));
        assert(year_is(z)(f[0]));
    }
}

fn replace_entry(e: &mut Vec<(i32, i64)>, p: usize, x: (i32, i64))
    requires
        p < old(e)@.len(),
    ensures
        final(e)@ == old(e)@.update(p as int, x),
{
    let ghost before = e@;
    e.remove(p);
    e.insert(p, x);
    assert(e@ =~= before.update(p as int, x));
}

impl MetadataStore {
    /// The number of photos captured in each year, latest year first, each
    /// year in four digits; fails where some photo was captured in a year
    /// that four digits cannot write.
    pub fn get_photo_count_by_year(&self) -> (r: Result<Vec<(String, i64)>, StoreError>)
        requires
            self.wf(),
        ensures
            r is Err <==> !years_writable(self@.photos),
            r matches Err(e) ==> e == StoreError::YearOutOfRange,
            r is Ok ==> exists|ys: Seq<int>| year_table(r->Ok_0@, ys, self@.photos),
    {
        let ghost rows = self.photos@;
        let mut e: Vec<(i32, i64)> = Vec::new();
        let mut i: usize = 0;
        while i < self.photos.len()
            invariant
                self.wf(),
                rows == self.photos@,
                i <= rows.len(),
                forall|a: int, b: int| 0 <= a < b < e@.len() ==> (#[trigger] e@[a]).0 > (#[trigger] e@[b]).0,
                forall|k: int|
                    0 <= k < e@.len() ==> {
                        &&& 0 <= (#[trigger] e@[k]).0 <= 9999
                        &&& e@[k].1 == year_count(rows.subrange(0, i as int), e@[k].0 as int)
                        &&& e@[k].1 >= 1
                    },
                forall|j: int| 0 <= j < i ==> #[trigger] year_listed(entry_years(e@), year_of_row(rows[j])),
                forall|j: int| 0 <= j < i ==> 0 <= #[trigger] year_of_row(rows[j]) <= 9999,
            decreases rows.len() - i,
        {
            let y: i32 = match crate::civil::year_month_of(self.photos[i].photo.date_taken) {
                Some((y, _m)) => y,
                None => {
                    assert(!(0 <= year_of_row(rows[i as int]) <= 9999));
                    return Err(StoreError::YearOutOfRange);
                },
            };
            if y < 0 || y > 9999 {
                return Err(StoreError::YearOutOfRange);
            }
            assert(year_of_row(rows[i as int]) == y);
            let mut p: usize = 0;
            while p < e.len() && e[p].0 > y
                invariant
                    p <= e@.len(),
                    forall|q: int| 0 <= q < p ==> (#[trigger] e@[q]).0 > y,
                decreases e@.len() - p,
            {
                p = p + 1;
            }
            let ghost old_e = e@;
            let ghost pre = rows.subrange(0, i as int);
            proof {
                assert forall|z: int| true implies year_count(rows.subrange(0, i + 1), z) == year_count(pre, z)
                    + if year_of_row(rows[i as int]) == z { 1int } else { 0int } && year_count(pre, z) <= i by {
                    lemma_year_count_step(rows, i as int, z);
                }
            }
            if p < e.len() && e[p].0 == y {
                let c = e[p].1;
                assert(c == year_count(pre, y as int));
                assert(c <= i);
                replace_entry(&mut e, p, (y, c + 1));
                proof {
                    let ne = e@;
                    assert forall|k: int| 0 <= k < ne.len() implies {
                        &&& 0 <= (#[trigger] ne[k]).0 <= 9999
                        &&& ne[k].1 == year_count(rows.subrange(0, i + 1), ne[k].0 as int)
                        &&& ne[k].1 >= 1
                    } by {
                        if k != p {
                            assert(ne[k] == old_e[k]);
                            if k < p {
                                assert(old_e[k].0 > old_e[p as int].0);
                            } else {
                                assert(old_e[p as int].0 > old_e[k].0);
                            }
                        }
                    }
                    assert forall|j: int| 0 <= j < i + 1 implies #[trigger] year_listed(entry_years(ne), year_of_row(rows[j])) by {
                        if j < i {
                            assert(year_listed(entry_years(old_e), year_of_row(rows[j])));
                            let k = choose|k: int| 0 <= k < entry_years(old_e).len() && entry_years(old_e)[k] == year_of_row(rows[j]);
                            assert(entry_years(ne)[k] == entry_years(old_e)[k]);
                        } else {
                            assert(entry_years(ne)[p as int] == y);
                        }
                    }
                }
            } else {
                proof {
                    assert forall|j: int| 0 <= j < pre.len() implies year_of_row(#[trigger] pre[j]) != y by {
                        assert(pre[j] == rows[j]);
                        assert(year_listed(entry_years(old_e), year_of_row(rows[j])));
                        let k = choose|k: int| 0 <= k < entry_years(old_e).len() && entry_years(old_e)[k] == year_of_row(rows[j]);
                        if k < p {
                            assert(old_e[k].0 > y);
                        } else {
                            assert(old_e[k].0 < y) by {
                                if k > p {
                                    assert(old_e[p as int].0 > old_e[k].0);
                                }
                            }
                        }
                    }
                    lemma_year_count_zero(pre, y as int);
                }
                e.insert(p, (y, 1));
                proof {
                    old_e.insert_ensures(p as int, (y, 1i64));
                    let ne = e@;
                    assert forall|a: int, b: int| 0 <= a < b < ne.len() implies (#[trigger] ne[a]).0 > (#[trigger] ne[b]).0 by {
                        if b < p {
                        } else if b == p {
                        } else if a < p {
                            assert(ne[b] == old_e[b - 1]);
                            if p < b - 1 {
                                assert(old_e[p as int].0 > old_e[b - 1].0);
                            }
                        } else if a == p {
                            assert(ne[b] == old_e[b - 1]);
                            if p < b - 1 {
                                assert(old_e[p as int].0 > old_e[b - 1].0);
                            }
                        } else {
                            assert(ne[a] == old_e[a - 1] && ne[b] == old_e[b - 1]);
                        }
                    }
                    assert forall|k: int| 0 <= k < ne.len() implies {
                        &&& 0 <= (#[trigger] ne[k]).0 <= 9999
                        &&& ne[k].1 == year_count(rows.subrange(0, i + 1), ne[k].0 as int)
                        &&& ne[k].1 >= 1
                    } by {
                        if k < p {
                            assert(ne[k] == old_e[k]);
                        } else if k > p {
                            assert(ne[k] == old_e[k - 1]);
                        }
                    }
                    assert forall|j: int| 0 <= j < i + 1 implies #[trigger] year_listed(entry_years(ne), year_of_row(rows[j])) by {
                        if j < i {
                            assert(year_listed(entry_years(old_e), year_of_row(rows[j])));
                            let k = choose|k: int| 0 <= k < entry_years(old_e).len() && entry_years(old_e)[k] == year_of_row(rows[j]);
                            if k < p {
                                assert(entry_years(ne)[k] == entry_years(old_e)[k]);
                            } else {
                                assert(entry_years(ne)[k + 1] == entry_years(old_e)[k]);
                            }
                        } else {
                            assert(entry_years(ne)[p as int] == y);
                        }
                    }
                }
            }
            i = i + 1;
        }
        assert(rows.subrange(0, rows.len() as int) == rows);
        let mut table: Vec<(String, i64)> = Vec::new();
        let mut k: usize = 0;
        while k < e.len()
            invariant
                k <= e@.len(),
                table@.len() == k,
                forall|m: int|
                    0 <= m < e@.len() ==> 0 <= (#[trigger] e@[m]).0 <= 9999,
                forall|m: int|
                    0 <= m < k ==> {
                        &&& (#[trigger] table@[m]).0@ == crate::text::padded_decimal(e@[m].0 as nat, 4)
                        &&& table@[m].1 == e@[m].1
                    },
            decreases e@.len() - k,
        {
            let (y, c) = e[k];
            table.push((string_of(&crate::text::padded_digits(y as u64, 4)), c));
            k = k + 1;
        }
        proof {
            let ys = entry_years(e@);
            assert(ys.len() == table@.len());
            assert forall|m: int| 0 <= m < ys.len() implies {
                &&& 0 <= #[trigger] ys[m] <= 9999
                &&& table@[m].0@ == crate::text::padded_decimal(ys[m] as nat, 4)
                &&& table@[m].1 == year_count(rows, ys[m])
                &&& table@[m].1 >= 1
            } by {
                assert(ys[m] == e@[m].0 as int);
            }
            assert forall|a: int, b: int| 0 <= a < b < ys.len() implies #[trigger] ys[a] > #[trigger] ys[b] by {
                assert(e@[a].0 > e@[b].0);
            }
            assert(year_table(table@, ys, rows));
            assert(rows == self@.photos);
            assert(year_table(table@, ys, self@.photos));
        }
        let r: Result<Vec<(String, i64)>, StoreError> = Ok(table);
        assert(r->Ok_0@ == table@);
        r
    }
}


fn paths_unique(rows: &Vec<PhotoRow>) -> (r: bool)
    ensures
        r == unique_paths(rows@),
{
    let mut j: usize = 0;
    while j < rows.len()
        invariant
            j <= rows@.len(),
            forall|a: int, b: int| 0 <= a < b < j ==> #[trigger] rows@[a].photo.path@ != #[trigger] rows@[b].photo.path@,
        decreases rows@.len() - j,
    {
        let mut i: usize = 0;
        while i < j
            invariant
                i <= j < rows@.len(),
                forall|a: int| 0 <= a < i ==> #[trigger] rows@[a].photo.path@ != rows@[j as int].photo.path@,
            decreases j - i,
        {
            if rows[i].photo.path == rows[j].photo.path {
                return false;
            }
            i = i + 1;
        }
        j = j + 1;
    }
    true
}

fn album_ids_valid(albums: &Vec<AlbumRow>, next: i64) -> (r: bool)
    ensures
        r == (unique_album_ids(albums@) && forall|i: int| 0 <= i < albums@.len() ==> 1 <= #[trigger] albums@[i].id < next),
{
    let mut j: usize = 0;
    while j < albums.len()
        invariant
            j <= albums@.len(),
            forall|a: int, b: int| 0 <= a < b < j ==> #[trigger] albums@[a].id != #[trigger] albums@[b].id,
            forall|a: int| 0 <= a < j ==> 1 <= #[trigger] albums@[a].id < next,
        decreases albums@.len() - j,
    {
        if albums[j].id < 1 || albums[j].id >= next {
            return false;
        }
        let mut i: usize = 0;
        while i < j
            invariant
                i <= j < albums@.len(),
                forall|a: int| 0 <= a < i ==> #[trigger] albums@[a].id != albums@[j as int].id,
            decreases j - i,
        {
            if albums[i].id == albums[j].id {
                return false;
            }
            i = i + 1;
        }
        j = j + 1;
    }
    true
}

fn members_unique(ms: &Vec<Membership>) -> (r: bool)
    ensures
        r == unique_members(ms@),
{
    let mut j: usize = 0;
    while j < ms.len()
        invariant
            j <= ms@.len(),
            forall|a: int, b: int| 0 <= a < b < j ==> !same_membership(#[trigger] ms@[a], #[trigger] ms@[b]),
        decreases ms@.len() - j,
    {
        let mut i: usize = 0;
        while i < j
            invariant
                i <= j < ms@.len(),
                forall|a: int| 0 <= a < i ==> !same_membership(#[trigger] ms@[a], ms@[j as int]),
            decreases j - i,
        {
            if ms[i].album_id == ms[j].album_id && ms[i].photo_path == ms[j].photo_path {
                return false;
            }
            i = i + 1;
        }
        j = j + 1;
    }
    true
}

impl MetadataStore {
    /// A store holding the given rows, where they satisfy the store's
    /// invariant; none otherwise.
    pub fn from_rows(photos: Vec<PhotoRow>, albums: Vec<AlbumRow>, members: Vec<Membership>, next_album_id: i64) -> (r:
        Option<Self>)
        ensures
            r is Some <==> store_wf(
                StoreView {
                    photos: photos@,
                    albums: albums@,
                    members: members@,
                    next_album_id: next_album_id as int,
                },
            ),
            r matches Some(st) ==> st@ == (StoreView {
                photos: photos@,
                albums: albums@,
                members: members@,
                next_album_id: next_album_id as int,
            }),
    {
        if next_album_id < 1 || photos.len() as u64 >= i64::MAX as u64 || members.len() as u64 >= i64::MAX as u64 {
            return None;
        }
        if !paths_unique(&photos) || !album_ids_valid(&albums, next_album_id) || !members_unique(&members) {
            return None;
        }
        Some(MetadataStore { photos, albums, members, next_album_id })
    }

    /// The stored photo rows.
    pub fn photo_rows(&self) -> (r: &Vec<PhotoRow>)
        ensures
            r@ == self@.photos,
    {
        &self.photos
    }

    /// The stored album rows.
    pub fn album_rows(&self) -> (r: &Vec<AlbumRow>)
        ensures
            r@ == self@.albums,
    {
        &self.albums
    }

    /// The stored memberships.
    pub fn memberships(&self) -> (r: &Vec<Membership>)
        ensures
            r@ == self@.members,
    {
        &self.members
    }

    /// The id that the next album created gets.
    pub fn next_album_id(&self) -> (r: i64)
        ensures
            r == self@.next_album_id,
    {
        self.next_album_id
    }
}

} // verus!
