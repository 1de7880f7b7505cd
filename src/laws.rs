//! Properties that hold across several store operations.

use vstd::prelude::*;
use crate::capture::{exif_timestamp, filename_timestamp, first_available};
use crate::ingest::alternative_name;
use crate::media::PhotoMetadata;
use crate::store::{
    favorite_set, lemma_member_filter, lemma_without_path, member_album_is_not, member_path_is_not,
    records_of, upserted, with_favorite, without_member_album, without_member_path, without_path,
    PhotoRow, SourceType,
};

verus! {

/// Inserting the same record twice leaves exactly one row with its path: the
/// row of the second insert, with the second insert's time.
pub proof fn insert_twice_keeps_one_row(
    rows: Seq<PhotoRow>,
    photo: PhotoMetadata,
    source_type: SourceType,
    first: i64,
    second: i64,
)
    ensures
        ({
            let once = upserted(rows, PhotoRow { photo, source_type, created_at: first });
            let twice = upserted(once, PhotoRow { photo, source_type, created_at: second });
            &&& twice.len() >= 1
            &&& twice.last() == PhotoRow { photo, source_type, created_at: second }
            &&& forall|i: int| 0 <= i < twice.len() - 1 ==> (#[trigger] twice[i]).photo.path@ != photo.path@
        }),
{
    let once = upserted(rows, PhotoRow { photo, source_type, created_at: first });
    let twice = upserted(once, PhotoRow { photo, source_type, created_at: second });
    lemma_without_path(once, photo.path@);
    assert forall|i: int| 0 <= i < twice.len() - 1 implies (#[trigger] twice[i]).photo.path@ != photo.path@ by {
        assert(twice[i] == without_path(once, photo.path@)[i]);
    }
}

/// Deleting an album leaves no membership in it and keeps every membership
/// in another album.
pub proof fn album_delete_cascades(members: Seq<crate::store::Membership>, id: i64)
    ensures
        forall|k: int|
            0 <= k < without_member_album(members, id).len() ==> (#[trigger] without_member_album(members, id)[k]).album_id
                != id,
        forall|i: int|
            0 <= i < members.len() && (#[trigger] members[i]).album_id != id ==> without_member_album(members, id).contains(
                members[i],
            ),
{
    lemma_member_filter(members, member_album_is_not(id));
    assert forall|i: int| 0 <= i < members.len() && (#[trigger] members[i]).album_id != id implies without_member_album(
        members,
        id,
    ).contains(members[i]) by {
        members.lemma_filter_contains(member_album_is_not(id), i);
    }
}

/// Deleting a photo removes its row and its membership in every album, and
/// keeps every membership of another photo.
pub proof fn photo_delete_cascades(rows: Seq<PhotoRow>, members: Seq<crate::store::Membership>, p: Seq<char>)
    ensures
        forall|k: int|
            0 <= k < without_path(rows, p).len() ==> (#[trigger] without_path(rows, p)[k]).photo.path@ != p,
        forall|k: int|
            0 <= k < without_member_path(members, p).len() ==> (#[trigger] without_member_path(members, p)[k]).photo_path@
                != p,
        forall|i: int|
            0 <= i < members.len() && (#[trigger] members[i]).photo_path@ != p ==> without_member_path(members, p).contains(
                members[i],
            ),
{
    lemma_without_path(rows, p);
    lemma_member_filter(members, member_path_is_not(p));
    assert forall|i: int| 0 <= i < members.len() && (#[trigger] members[i]).photo_path@ != p implies without_member_path(
        members,
        p,
    ).contains(members[i]) by {
        members.lemma_filter_contains(member_path_is_not(p), i);
    }
}

/// Marking a photo as favorite shows it as favorite in any listing; storing
/// a fresh record for the same path (as a rescan does) shows it as not
/// favorite again.
pub proof fn favorite_round_trip(
    rows: Seq<PhotoRow>,
    p: Seq<char>,
    listed: Seq<PhotoMetadata>,
    rescanned: PhotoMetadata,
    source_type: SourceType,
    now: i64,
    relisted: Seq<PhotoMetadata>,
)
    requires
        records_of(listed, favorite_set(rows, p, true)),
        rescanned.path@ == p,
        !rescanned.is_favorite,
        records_of(
            relisted,
            upserted(favorite_set(rows, p, true), PhotoRow { photo: rescanned, source_type, created_at: now }),
        ),
    ensures
        forall|k: int| 0 <= k < listed.len() && (#[trigger] listed[k]).path@ == p ==> listed[k].is_favorite,
        forall|k: int| 0 <= k < relisted.len() && (#[trigger] relisted[k]).path@ == p ==> !relisted[k].is_favorite,
{
    let f = favorite_set(rows, p, true);
    let order = choose|order: Seq<usize>|
        {
            &&& crate::order::is_permutation(order, f.len() as int)
            &&& listed.len() == f.len()
            &&& forall|k: int| 0 <= k < listed.len() ==> listed[k] == #[trigger] f[order[k] as int].photo
        };
    assert forall|k: int| 0 <= k < listed.len() && (#[trigger] listed[k]).path@ == p implies listed[k].is_favorite by {
        let j = order[k] as int;
        assert(listed[k] == f[j].photo);
        if rows[j].photo.path@ == p {
            assert(f[j] == with_favorite(rows[j], true));
        } else {
            assert(f[j] == rows[j]);
        }
    }
    let row = PhotoRow { photo: rescanned, source_type, created_at: now };
    let g = upserted(f, row);
    let order2 = choose|order: Seq<usize>|
        {
            &&& crate::order::is_permutation(order, g.len() as int)
            &&& relisted.len() == g.len()
            &&& forall|k: int| 0 <= k < relisted.len() ==> relisted[k] == #[trigger] g[order[k] as int].photo
        };
    lemma_without_path(f, p);
    assert forall|k: int| 0 <= k < relisted.len() && (#[trigger] relisted[k]).path@ == p implies !relisted[k].is_favorite by {
        let j = order2[k] as int;
        assert(relisted[k] == g[j].photo);
        if j < g.len() - 1 {
            assert(g[j] == without_path(f, p)[j]);
        }
    }
}

/// The capture time comes from the first stage that has one: an embedded
/// date wins whatever the name, modification time and clock say; then a date
/// in the name; then the modification time.
pub proof fn capture_date_fallback_order(bytes: Seq<u8>, name: Seq<char>, modified: Option<i64>, now: i64)
    ensures
        exif_timestamp(bytes) matches Some(t) ==> first_available(
            exif_timestamp(bytes),
            filename_timestamp(name),
            modified,
            now,
        ) == t,
        exif_timestamp(bytes) is None && filename_timestamp(name) is Some ==> first_available(
            exif_timestamp(bytes),
            filename_timestamp(name),
            modified,
            now,
        ) == filename_timestamp(name)->0,
        exif_timestamp(bytes) is None && filename_timestamp(name) is None && modified is Some ==> first_available(
            exif_timestamp(bytes),
            filename_timestamp(name),
            modified,
            now,
        ) == modified->0 as int,
{
}

/// When a copy of a file already sits in the destination and `<stem>_1.<ext>`
/// does not, the second copy is named `<stem>_1.<ext>`.
pub proof fn second_copy_takes_first_suffix(name: Seq<char>, taken: Seq<Seq<char>>, chosen: Seq<char>, n: nat)
    requires
        taken.contains(name),
        !taken.contains(alternative_name(name, 1)),
        n >= 1,
        chosen == alternative_name(name, n),
        !taken.contains(chosen),
        forall|m: nat| 1 <= m < n ==> taken.contains(#[trigger] alternative_name(name, m)),
    ensures
        chosen == alternative_name(name, 1),
{
    if n > 1 {
        assert(taken.contains(alternative_name(name, 1)));
    }
}

/// Inserting records under two different paths leaves a row for each.
pub proof fn distinct_paths_give_distinct_rows(rows: Seq<PhotoRow>, first: PhotoRow, second: PhotoRow)
    requires
        first.photo.path@ != second.photo.path@,
    ensures
        ({
            let both = upserted(upserted(rows, first), second);
            &&& both.contains(first)
            &&& both.contains(second)
        }),
{
    let once = upserted(rows, first);
    let both = upserted(once, second);
    assert(once[once.len() - 1] == first);
    once.lemma_filter_contains(crate::store::path_is_not(second.photo.path@), once.len() - 1);
    let w = without_path(once, second.photo.path@);
    let k = choose|k: int| 0 <= k < w.len() && w[k] == first;
    assert(both[k] == first);
    assert(both[both.len() - 1] == second);
}

} // verus!
