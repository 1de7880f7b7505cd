use terra::ingest::{destination_name, shard_dirs};
use terra::media::PhotoMetadata;
use terra::store::{MetadataStore, SourceType};

#[test]
fn shard_is_four_digit_year_and_two_digit_month() {
    assert_eq!(shard_dirs(1622548800), Some(("2021".to_string(), "06".to_string())));
    assert_eq!(shard_dirs(0), Some(("1970".to_string(), "01".to_string())));
    assert_eq!(shard_dirs(-1), Some(("1969".to_string(), "12".to_string())));
    assert_eq!(shard_dirs(253402300800), None);
    assert_eq!(shard_dirs(i64::MAX), None);
}

#[test]
fn free_name_is_kept() {
    assert_eq!(destination_name("IMG.jpg", &vec![]), Some("IMG.jpg".to_string()));
    assert_eq!(destination_name("IMG.jpg", &vec!["other.jpg".to_string()]), Some("IMG.jpg".to_string()));
}

#[test]
fn colliding_name_gets_least_free_suffix() {
    let taken = vec!["IMG.jpg".to_string()];
    assert_eq!(destination_name("IMG.jpg", &taken), Some("IMG_1.jpg".to_string()));
    let taken = vec!["IMG.jpg".to_string(), "IMG_1.jpg".to_string(), "IMG_2.jpg".to_string()];
    assert_eq!(destination_name("IMG.jpg", &taken), Some("IMG_3.jpg".to_string()));
    let taken = vec!["a.b.png".to_string(), "a.b_2.png".to_string()];
    assert_eq!(destination_name("a.b.png", &taken), Some("a.b_1.png".to_string()));
}

#[test]
fn colliding_name_without_extension_is_skipped() {
    assert_eq!(destination_name("README", &vec!["README".to_string()]), None);
}

#[test]
fn two_uploads_sharing_a_basename_give_two_rows() {
    let mut taken: Vec<String> = Vec::new();
    let mut st = MetadataStore::new();
    for _source in ["/cam1/IMG.jpg", "/cam2/IMG.jpg"] {
        let name = destination_name("IMG.jpg", &taken).unwrap();
        taken.push(name.clone());
        let rec = PhotoMetadata {
            path: format!("/lib/2021/06/{}", name),
            name,
            date_taken: 1622548800,
            width: 0,
            height: 0,
            is_favorite: false,
        };
        st.insert_photo(rec, SourceType::Upload, 1).unwrap();
    }
    assert_eq!(taken, vec!["IMG.jpg".to_string(), "IMG_1.jpg".to_string()]);
    assert_eq!(st.get_all_photos().len(), 2);
}
