use terra::media::PhotoMetadata;
use terra::store::{AlbumRow, MetadataStore, Membership, PhotoRow, SourceType, StoreError};

fn photo(path: &str, date_taken: i64) -> PhotoMetadata {
    PhotoMetadata {
        path: path.to_string(),
        name: path.rsplit('/').next().unwrap().to_string(),
        date_taken,
        width: 4,
        height: 3,
        is_favorite: false,
    }
}

#[test]
fn inserting_same_record_twice_keeps_one_row_with_later_time() {
    let mut st = MetadataStore::new();
    st.insert_photo(photo("/p/a.jpg", 100), SourceType::Scan, 10).unwrap();
    st.insert_photo(photo("/p/a.jpg", 100), SourceType::Scan, 20).unwrap();
    assert_eq!(st.get_all_photos().len(), 1);
    assert_eq!(st.photo_rows().len(), 1);
    assert_eq!(st.photo_rows()[0].created_at, 20);
}

#[test]
fn upload_insert_stores_source_and_time() {
    let mut st = MetadataStore::new();
    st.insert_photo(photo("/p/a.jpg", 100), SourceType::Upload, 42).unwrap();
    assert_eq!(st.photo_rows()[0].created_at, 42);
    assert!(st.photo_exists("/p/a.jpg"));
    assert_eq!(st.photo_rows()[0].source_type, SourceType::Upload);
    assert_eq!(SourceType::Upload.as_str(), "upload");
    assert_eq!(SourceType::Scan.as_str(), "scan");
}

#[test]
fn photos_listed_latest_capture_first() {
    let mut st = MetadataStore::new();
    st.insert_photo(photo("/p/old.jpg", 100), SourceType::Scan, 1).unwrap();
    st.insert_photo(photo("/p/new.jpg", 300), SourceType::Scan, 1).unwrap();
    st.insert_photo(photo("/p/mid.jpg", 200), SourceType::Scan, 1).unwrap();
    let dates: Vec<i64> = st.get_all_photos().iter().map(|p| p.date_taken).collect();
    assert_eq!(dates, vec![300, 200, 100]);
    assert!(MetadataStore::new().get_all_photos().is_empty());
}

#[test]
fn existence_and_deletion_by_path() {
    let mut st = MetadataStore::new();
    st.insert_photo(photo("/p/a.jpg", 100), SourceType::Scan, 1).unwrap();
    assert!(st.photo_exists("/p/a.jpg"));
    assert!(!st.photo_exists("/p/b.jpg"));
    st.delete_photo("/p/a.jpg");
    assert!(!st.photo_exists("/p/a.jpg"));
    st.delete_photo("/p/missing.jpg");
    assert!(st.get_all_photos().is_empty());
}

#[test]
fn favorite_round_trip_and_reset_by_rescan() {
    let mut st = MetadataStore::new();
    st.insert_photo(photo("/p/a.jpg", 100), SourceType::Scan, 1).unwrap();
    st.insert_photo(photo("/p/b.jpg", 50), SourceType::Scan, 1).unwrap();
    st.set_photo_favorite("/p/a.jpg", true);
    let listed = st.get_all_photos();
    assert!(listed.iter().find(|p| p.path == "/p/a.jpg").unwrap().is_favorite);
    assert!(!listed.iter().find(|p| p.path == "/p/b.jpg").unwrap().is_favorite);
    st.insert_photo(photo("/p/a.jpg", 100), SourceType::Scan, 2).unwrap();
    let relisted = st.get_all_photos();
    assert!(!relisted.iter().find(|p| p.path == "/p/a.jpg").unwrap().is_favorite);
}

#[test]
fn favorite_on_unknown_path_changes_nothing() {
    let mut st = MetadataStore::new();
    st.insert_photo(photo("/p/a.jpg", 100), SourceType::Scan, 1).unwrap();
    st.set_photo_favorite("/p/zzz.jpg", true);
    assert!(!st.get_all_photos()[0].is_favorite);
}

#[test]
fn counts_by_year_latest_year_first() {
    let mut st = MetadataStore::new();
    st.insert_photo(photo("/p/a.jpg", 1614556800), SourceType::Scan, 1).unwrap();
    st.insert_photo(photo("/p/b.jpg", 1622548800), SourceType::Scan, 1).unwrap();
    st.insert_photo(photo("/p/c.jpg", 1688169600), SourceType::Scan, 1).unwrap();
    let counts = st.get_photo_count_by_year().unwrap();
    assert_eq!(counts, vec![("2023".to_string(), 1), ("2021".to_string(), 2)]);
    assert_eq!(MetadataStore::new().get_photo_count_by_year().unwrap(), vec![]);
}

#[test]
fn counts_by_year_pads_early_years_and_rejects_five_digit_years() {
    let mut st = MetadataStore::new();
    st.insert_photo(photo("/p/a.jpg", -62135596800), SourceType::Scan, 1).unwrap();
    assert_eq!(st.get_photo_count_by_year().unwrap(), vec![("0001".to_string(), 1)]);
    st.insert_photo(photo("/p/b.jpg", 253402300800), SourceType::Scan, 1).unwrap();
    assert_eq!(st.get_photo_count_by_year(), Err(StoreError::YearOutOfRange));
}

#[test]
fn albums_get_increasing_ids_and_counts() {
    let mut st = MetadataStore::new();
    st.insert_photo(photo("/p/a.jpg", 100), SourceType::Scan, 1).unwrap();
    st.insert_photo(photo("/p/b.jpg", 200), SourceType::Scan, 1).unwrap();
    let trips = st.create_album("Trips", 10).unwrap();
    let pets = st.create_album("Pets", 20).unwrap();
    assert_eq!((trips, pets), (1, 2));
    st.add_photo_to_album(trips, "/p/a.jpg", 30).unwrap();
    st.add_photo_to_album(trips, "/p/b.jpg", 30).unwrap();
    st.add_photo_to_album(trips, "/p/b.jpg", 31).unwrap();
    let albums = st.get_albums();
    assert_eq!(albums.len(), 2);
    assert_eq!((albums[0].id, albums[0].name.as_str(), albums[0].count), (pets, "Pets", 0));
    assert_eq!((albums[1].id, albums[1].name.as_str(), albums[1].count), (trips, "Trips", 2));
    let inside: Vec<String> = st.get_album_photos(trips).into_iter().map(|p| p.path).collect();
    assert_eq!(inside, vec!["/p/b.jpg".to_string(), "/p/a.jpg".to_string()]);
}

#[test]
fn removing_from_album_and_setting_cover() {
    let mut st = MetadataStore::new();
    st.insert_photo(photo("/p/a.jpg", 100), SourceType::Scan, 1).unwrap();
    let id = st.create_album("Trips", 5).unwrap();
    st.add_photo_to_album(id, "/p/a.jpg", 6).unwrap();
    st.set_album_cover(id, "/p/a.jpg");
    assert_eq!(st.get_albums()[0].cover_photo_path, Some("/p/a.jpg".to_string()));
    st.remove_photo_from_album(id, "/p/a.jpg");
    assert_eq!(st.get_albums()[0].count, 0);
    assert!(st.get_album_photos(id).is_empty());
}

#[test]
fn deleting_album_removes_its_memberships() {
    let mut st = MetadataStore::new();
    st.insert_photo(photo("/p/a.jpg", 100), SourceType::Scan, 1).unwrap();
    let one = st.create_album("One", 1).unwrap();
    let two = st.create_album("Two", 2).unwrap();
    st.add_photo_to_album(one, "/p/a.jpg", 3).unwrap();
    st.add_photo_to_album(two, "/p/a.jpg", 3).unwrap();
    st.delete_album(one);
    assert!(st.memberships().iter().all(|m| m.album_id != one));
    assert_eq!(st.memberships().len(), 1);
    assert_eq!(st.get_albums().len(), 1);
    assert_eq!(st.create_album("Three", 4).unwrap(), 3);
}

#[test]
fn deleting_photo_removes_it_from_every_album() {
    let mut st = MetadataStore::new();
    st.insert_photo(photo("/p/a.jpg", 100), SourceType::Scan, 1).unwrap();
    st.insert_photo(photo("/p/b.jpg", 100), SourceType::Scan, 1).unwrap();
    let one = st.create_album("One", 1).unwrap();
    let two = st.create_album("Two", 2).unwrap();
    st.add_photo_to_album(one, "/p/a.jpg", 3).unwrap();
    st.add_photo_to_album(two, "/p/a.jpg", 3).unwrap();
    st.add_photo_to_album(two, "/p/b.jpg", 3).unwrap();
    st.delete_photo("/p/a.jpg");
    assert!(st.get_album_photos(one).is_empty());
    assert_eq!(st.get_album_photos(two).len(), 1);
    assert!(st.memberships().iter().all(|m| m.photo_path != "/p/a.jpg"));
}

#[test]
fn store_rebuilt_from_valid_rows_only() {
    let row = |p: &str| PhotoRow { photo: photo(p, 1), source_type: SourceType::Scan, created_at: 1 };
    let album = AlbumRow { id: 1, name: "A".to_string(), cover_photo_path: None, created_at: 1 };
    let member = || Membership { album_id: 1, photo_path: "/p/a.jpg".to_string(), added_at: 1 };
    let st = MetadataStore::from_rows(vec![row("/p/a.jpg")], vec![album], vec![member()], 2).unwrap();
    assert_eq!(st.next_album_id(), 2);
    assert_eq!(st.album_rows().len(), 1);
    assert!(MetadataStore::from_rows(vec![row("/p/a.jpg"), row("/p/a.jpg")], vec![], vec![], 1).is_none());
    assert!(MetadataStore::from_rows(vec![], vec![], vec![member(), member()], 1).is_none());
    let stale = AlbumRow { id: 5, name: "B".to_string(), cover_photo_path: None, created_at: 1 };
    assert!(MetadataStore::from_rows(vec![], vec![stale], vec![], 5).is_none());
}

#[test]
fn album_ids_exhausted_is_full() {
    let mut st = MetadataStore::from_rows(vec![], vec![], vec![], i64::MAX).unwrap();
    assert_eq!(st.create_album("Late", 1), Err(StoreError::Full));
    assert!(st.get_albums().is_empty());
}

#[test]
fn photos_with_equal_capture_times_are_all_listed() {
    let mut st = MetadataStore::new();
    st.insert_photo(photo("/p/a.jpg", 100), SourceType::Scan, 1).unwrap();
    st.insert_photo(photo("/p/b.jpg", 100), SourceType::Scan, 1).unwrap();
    st.insert_photo(photo("/p/c.jpg", 90), SourceType::Scan, 1).unwrap();
    let listed = st.get_all_photos();
    assert_eq!(listed.len(), 3);
    assert!(listed[..2].iter().any(|p| p.path == "/p/a.jpg"));
    assert!(listed[..2].iter().any(|p| p.path == "/p/b.jpg"));
    assert_eq!(listed[2].path, "/p/c.jpg");
}
