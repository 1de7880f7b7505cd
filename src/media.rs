//! Media records, the extension allow-lists, the dimension probe and the
//! per-file metadata extractor.

use vstd::prelude::*;
use crate::capture::{exif_timestamp, filename_timestamp, first_available, resolve_capture_date};
use crate::text::{
    chars_of, extension, extension_of, file_name, file_name_of, lower_of, lowercase, string_of,
};

verus! {

/// One media file as the library records it.
#[derive(Clone, Debug)]
pub struct PhotoMetadata {
    /// Absolute (canonical where possible) path: the record's identity.
    pub path: String,
    /// File name shown to the user.
    pub name: String,
    /// Capture time, seconds since the Unix epoch (UTC).
    pub date_taken: i64,
    /// Pixel width; 0 with height 0 means "not probed".
    pub width: u32,
    /// Pixel height; 0 with width 0 means "not probed".
    pub height: u32,
    pub is_favorite: bool,
}

impl PhotoMetadata {
    /// A copy with every field equal.
    pub fn duplicate(&self) -> (r: Self)
        ensures
            r == *self,
    {
        PhotoMetadata {
            path: self.path.clone(),
            name: self.name.clone(),
            date_taken: self.date_taken,
            width: self.width,
            height: self.height,
            is_favorite: self.is_favorite,
        }
    }
}

pub open spec fn is_image_extension(e: Seq<char>) -> bool {
    ||| e == seq!['j', 'p', 'g']
    ||| e == seq!['j', 'p', 'e', 'g']
    ||| e == seq!['p', 'n', 'g']
    ||| e == seq!['h', 'e', 'i', 'c']
    ||| e == seq!['w', 'e', 'b', 'p']
    ||| e == seq!['g', 'i', 'f']
    ||| e == seq!['b', 'm', 'p']
}

pub open spec fn is_video_extension(e: Seq<char>) -> bool {
    ||| e == seq!['m', 'p', '4']
    ||| e == seq!['m', 'o', 'v']
    ||| e == seq!['a', 'v', 'i']
    ||| e == seq!['w', 'e', 'b', 'm']
    ||| e == seq!['m', 'k', 'v']
}

/// The lower-cased extension of the file that a path names.
pub open spec fn lower_extension_of(p: Seq<char>) -> Option<Seq<char>> {
    match file_name_of(p) {
        Some(f) => match extension_of(f) {
            Some(e) => Some(lower_of(e)),
            None => None,
        },
        None => None,
    }
}

pub open spec fn is_video_path(p: Seq<char>) -> bool {
    lower_extension_of(p) matches Some(e) && is_video_extension(e)
}

pub open spec fn is_media_path(p: Seq<char>) -> bool {
    lower_extension_of(p) matches Some(e) && (is_image_extension(e) || is_video_extension(e))
}

fn word_eq(v: &Vec<char>, w: &[char]) -> (r: bool)
    ensures
        r == (v@ == w@),
{
    if v.len() != w.len() {
        return false;
    }
    let mut i: usize = 0;
    while i < v.len()
        invariant
            v@.len() == w@.len(),
            i <= v@.len(),
            forall|j: int| 0 <= j < i ==> v@[j] == w@[j],
        decreases v@.len() - i,
    {
        if v[i] != w[i] {
            return false;
        }
        i = i + 1;
    }
    assert(v@ =~= w@);
    true
}

/// Whether a lower-cased extension is one of the still-image formats.
pub fn is_image_ext(e: &Vec<char>) -> (r: bool)
    ensures
        r == is_image_extension(e@),
{
    let r = word_eq(e, &['j', 'p', 'g']) || word_eq(e, &['j', 'p', 'e', 'g']) || word_eq(e, &['p', 'n', 'g'])
        || word_eq(e, &['h', 'e', 'i', 'c']) || word_eq(e, &['w', 'e', 'b', 'p']) || word_eq(e, &['g', 'i', 'f'])
        || word_eq(e, &['b', 'm', 'p']);
    r
}

/// Whether a lower-cased extension is one of the video formats.
pub fn is_video_ext(e: &Vec<char>) -> (r: bool)
    ensures
        r == is_video_extension(e@),
{
    word_eq(e, &['m', 'p', '4']) || word_eq(e, &['m', 'o', 'v']) || word_eq(e, &['a', 'v', 'i'])
        || word_eq(e, &['w', 'e', 'b', 'm']) || word_eq(e, &['m', 'k', 'v'])
}

/// The lower-cased extension of the file that a path names.
fn lower_extension(path: &str) -> (r: Option<Vec<char>>)
    ensures
        r is None <==> lower_extension_of(path@) is None,
        r matches Some(e) ==> lower_extension_of(path@) == Some(e@),
{
    let p = chars_of(path);
    match file_name(&p) {
        Some(f) => match extension(&f) {
            Some(e) => {
                let lower = lowercase(string_of(&e).as_str());
                Some(chars_of(lower.as_str()))
            },
            None => None,
        },
        None => None,
    }
}

/// Whether a path names a video file (by its extension, in any case).
pub fn is_video(path: &str) -> (r: bool)
    ensures
        r == is_video_path(path@),
{
    match lower_extension(path) {
        Some(e) => is_video_ext(&e),
        None => false,
    }
}

/// Whether a path names a supported image or video file (by its extension,
/// in any case).
pub fn is_media_file(path: &str) -> (r: bool)
    ensures
        r == is_media_path(path@),
{
    match lower_extension(path) {
        Some(e) => is_image_ext(&e) || is_video_ext(&e),
        None => false,
    }
}

pub open spec fn path_views(ps: Seq<String>) -> Seq<Seq<char>> {
    ps.map_values(|s: String| s@)
}

/// The supported media paths of a list, in their order.
pub open spec fn media_only(ps: Seq<Seq<char>>) -> Seq<Seq<char>>
    decreases ps.len(),
{
    if ps.len() == 0 {
        Seq::empty()
    } else if is_media_path(ps.last()) {
        media_only(ps.drop_last()).push(ps.last())
    } else {
        media_only(ps.drop_last())
    }
}

/// Keeps the paths whose extension (in any case) is a supported image or video
/// format, in their order.
pub fn select_media_files(paths: &Vec<String>) -> (r: Vec<String>)
    ensures
        path_views(r@) == media_only(path_views(paths@)),
{
    let ghost all = path_views(paths@);
    let mut r: Vec<String> = Vec::new();
    let mut i: usize = 0;
    assert(all.subrange(0, 0) == Seq::<Seq<char>>::empty());
    assert(path_views(r@) == Seq::<Seq<char>>::empty());
    while i < paths.len()
        invariant
            i <= paths@.len(),
            all == path_views(paths@),
            path_views(r@) == media_only(all.subrange(0, i as int)),
        decreases paths@.len() - i,
    {
        let ghost before = r@;
        assert(all.subrange(0, i + 1).drop_last() == all.subrange(0, i as int));
        assert(all.subrange(0, i + 1).last() == paths@[i as int]@);
        if is_media_file(paths[i].as_str()) {
            r.push(paths[i].clone());
            assert(path_views(r@) == path_views(before).push(paths@[i as int]@));
        }
        i = i + 1;
    }
    assert(all.subrange(0, paths@.len() as int) == all);
    r
}

/// What the image crate makes of an image's bytes: its pixel width and
/// height, or none where it cannot decode them.
pub uninterp spec fn image_dimensions_of(b: Seq<u8>) -> Option<(u32, u32)>;

/// Relies on `image::load_from_memory` with `DynamicImage::width` and
/// `DynamicImage::height`: the pixel size of an image whose bytes decode.
#[verifier::external_body]
fn decoded_dimensions(bytes: &[u8]) -> (r: Option<(u32, u32)>)
    ensures
        r == image_dimensions_of(bytes@),
{
    image::load_from_memory(bytes).ok().map(|img| (img.width(), img.height()))
}

/// The dimensions to record: those decoded, or the unknown sentinel `(0, 0)`.
pub fn dimensions_or_unknown(decoded: Option<(u32, u32)>) -> (r: (u32, u32))
    ensures
        r == match decoded {
            Some(d) => d,
            None => (0u32, 0u32),
        },
{
    match decoded {
        Some(d) => d,
        None => (0, 0),
    }
}

/// The dimensions that the probe records for a file: `(0, 0)` for a video,
/// else its decoded size, or `(0, 0)` where it does not decode.
pub open spec fn probed_dimensions(path: Seq<char>, bytes: Seq<u8>) -> (u32, u32) {
    if is_video_path(path) {
        (0, 0)
    } else {
        match image_dimensions_of(bytes) {
            Some(d) => d,
            None => (0, 0),
        }
    }
}

/// Probes the pixel size of a file from its path and bytes.
pub fn probe_dimensions(path: &str, bytes: &[u8]) -> (r: (u32, u32))
    ensures
        r == probed_dimensions(path@, bytes@),
{
    if is_video(path) {
        (0, 0)
    } else {
        dimensions_or_unknown(decoded_dimensions(bytes))
    }
}

/// What is known of one file before its metadata is resolved.
pub struct MediaFile {
    /// The path as it was found.
    pub path: String,
    /// The canonical absolute path, where it could be resolved.
    pub canonical_path: Option<String>,
    /// The file's bytes (empty where it could not be read).
    pub bytes: Vec<u8>,
    /// The file's modification time in whole seconds since the epoch, if known.
    pub modified: Option<i64>,
}

/// Resolves the metadata record of one file: its canonical path (or the path
/// as found), its file name, its capture time and its dimensions; none where
/// the path names no file.
pub fn process_image(file: &MediaFile, now: i64) -> (r: Option<PhotoMetadata>)
    ensures
        r is None <==> file_name_of(file.path@) is None,
        r matches Some(rec) ==> {
            &&& rec.path@ == match file.canonical_path {
                Some(c) => c@,
                None => file.path@,
            }
            &&& Some(rec.name@) == file_name_of(file.path@)
            &&& rec.date_taken as int == first_available(
                exif_timestamp(file.bytes@),
                filename_timestamp(rec.name@),
                file.modified,
                now,
            )
            &&& (rec.width, rec.height) == probed_dimensions(file.path@, file.bytes@)
            &&& !rec.is_favorite
        },
{
    let p = chars_of(file.path.as_str());
    let name = match file_name(&p) {
        Some(f) => string_of(&f),
        None => return None,
    };
    let path = match &file.canonical_path {
        Some(c) => c.clone(),
        None => file.path.clone(),
    };
    let date_taken = resolve_capture_date(file.bytes.as_slice(), name.as_str(), file.modified, now);
    let (width, height) = probe_dimensions(file.path.as_str(), file.bytes.as_slice());
    Some(PhotoMetadata { path, name, date_taken, width, height, is_favorite: false })
}

} // verus!
