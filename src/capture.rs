//! The capture-date resolver: embedded EXIF date, then a date written in the
//! file name, then the file's modification time, then the current time.

use vstd::prelude::*;
use crate::civil::{valid_civil, epoch_seconds, timestamp_of_civil};
use crate::text::{is_digit, digit_value, decimal_value, chars_of, pow10};

verus! {

/// Index just past the run of ASCII digits that starts at `i`.
pub open spec fn run_end(t: Seq<char>, i: int) -> int
    decreases t.len() - i,
{
    if 0 <= i < t.len() && is_digit(t[i]) {
        run_end(t, i + 1)
    } else {
        i
    }
}

/// A run of exactly `w` digits at `i`: its value and the index past it.
pub open spec fn field_at(t: Seq<char>, i: int, w: int) -> Option<(int, int)> {
    let e = run_end(t, i);
    if e == i + w {
        Some((decimal_value(t.subrange(i, e)), e))
    } else {
        None
    }
}

pub open spec fn is_field_separator(c: char) -> bool {
    c == ':'
}

/// What may follow a field: a separator (`kind` 0), a space (1), or the end of
/// the text (2).
pub open spec fn delimiter_at(t: Seq<char>, e: int, kind: int) -> bool {
    if kind == 0 {
        e < t.len() && is_field_separator(t[e])
    } else if kind == 1 {
        e < t.len() && t[e] == ' '
    } else {
        e == t.len()
    }
}

/// A field of exactly `w` digits at `i` followed by its delimiter: the field's
/// value and the index after the delimiter (the end, after the last field).
pub open spec fn field_then(t: Seq<char>, i: int, w: int, kind: int) -> Option<(int, int)> {
    match field_at(t, i, w) {
        Some((v, e)) => if delimiter_at(t, e, kind) {
            Some((v, if kind == 2 { e } else { e + 1 }))
        } else {
            None
        },
        None => None,
    }
}

/// The six fields of `YYYY:MM:DD HH:MM:SS`: a four-digit year and two-digit
/// other fields, colon-delimited, with one space between date and time.
pub open spec fn stamp_fields(t: Seq<char>) -> Option<(int, int, int, int, int, int)> {
    match field_then(t, 0, 4, 0) {
        None => None,
        Some((y, i1)) => match field_then(t, i1, 2, 0) {
            None => None,
            Some((m, i2)) => match field_then(t, i2, 2, 1) {
                None => None,
                Some((d, i3)) => match field_then(t, i3, 2, 0) {
                    None => None,
                    Some((h, i4)) => match field_then(t, i4, 2, 0) {
                        None => None,
                        Some((mi, i5)) => match field_then(t, i5, 2, 2) {
                            None => None,
                            Some((s, _i6)) => Some((y, m, d, h, mi, s)),
                        },
                    },
                },
            },
        },
    }
}

pub open spec fn is_space(c: char) -> bool {
    c == ' ' || c == '\t' || c == '\n' || c == '\r' || c == '\x0b' || c == '\x0c'
}

pub open spec fn strip_trailing_nul(t: Seq<char>) -> Seq<char>
    decreases t.len(),
{
    if t.len() > 0 && t.last() == '\0' {
        strip_trailing_nul(t.drop_last())
    } else {
        t
    }
}

pub open spec fn strip_trailing_space(t: Seq<char>) -> Seq<char>
    decreases t.len(),
{
    if t.len() > 0 && is_space(t.last()) {
        strip_trailing_space(t.drop_last())
    } else {
        t
    }
}

pub open spec fn strip_leading_space(t: Seq<char>) -> Seq<char>
    decreases t.len(),
{
    if t.len() > 0 && is_space(t[0]) {
        strip_leading_space(t.drop_first())
    } else {
        t
    }
}

/// An EXIF date text without its NUL padding and surrounding white space.
pub open spec fn trim_exif_text(t: Seq<char>) -> Seq<char> {
    strip_leading_space(strip_trailing_space(strip_trailing_nul(t)))
}

/// The UTC Unix time that an EXIF date text denotes, if it is well formed and
/// names a date and time that exist.
pub open spec fn exif_text_timestamp(t: Seq<char>) -> Option<int> {
    match stamp_fields(trim_exif_text(t)) {
        Some((y, m, d, h, mi, s)) => if valid_civil(y, m, d, h, mi, s) {
            Some(epoch_seconds(y, m, d, h, mi, s))
        } else {
            None
        },
        None => None,
    }
}

proof fn lemma_run_end_ge(t: Seq<char>, i: int)
    ensures
        run_end(t, i) >= i,
    decreases t.len() - i,
{
    if 0 <= i < t.len() && is_digit(t[i]) {
        lemma_run_end_ge(t, i + 1);
    }
}

fn is_digit_char(c: char) -> (r: bool)
    ensures
        r == is_digit(c),
{
    '0' <= c && c <= '9'
}

fn is_space_char(c: char) -> (r: bool)
    ensures
        r == is_space(c),
{
    c == ' ' || c == '\t' || c == '\n' || c == '\r' || c == '\x0b' || c == '\x0c'
}

/// Reads a field of exactly `w` digits at `i`.
fn scan_field(t: &Vec<char>, i: usize, w: usize) -> (r: Option<(u32, usize)>)
    requires
        i <= t@.len(),
        1 <= w <= 4,
    ensures
        r is None <==> field_at(t@, i as int, w as int) is None,
        r matches Some((v, e)) ==> field_at(t@, i as int, w as int) == Some((v as int, e as int)),
        r matches Some((v, e)) ==> v < 10000,
{
    let mut k: usize = i;
    let mut v: u32 = 0;
    proof {
        reveal_with_fuel(pow10, 5);
        assert(t@.subrange(i as int, i as int) == Seq::<char>::empty());
    }
    while k < t.len() && is_digit_char(t[k])
        invariant
            i <= k <= t@.len(),
            k - i <= w <= 4,
            run_end(t@, i as int) == run_end(t@, k as int),
            v as int == decimal_value(t@.subrange(i as int, k as int)),
            v < pow10((k - i) as nat),
            pow10(0) == 1 && pow10(1) == 10 && pow10(2) == 100 && pow10(3) == 1000 && pow10(4) == 10000,
        decreases t@.len() - k,
    {
        if k - i == w {
            proof {
                lemma_run_end_ge(t@, k as int + 1);
            }
            return None;
        }
        let d: u32 = t[k] as u32 - '0' as u32;
        proof {
            let s1 = t@.subrange(i as int, k + 1);
            assert(s1.drop_last() == t@.subrange(i as int, k as int));
            assert(s1.last() == t@[k as int]);
            assert(pow10((k + 1 - i) as nat) == 10 * pow10((k - i) as nat));
        }
        v = v * 10 + d;
        k = k + 1;
    }
    if k - i != w {
        None
    } else {
        Some((v, k))
    }
}

/// Reads a field of exactly `w` digits at `i` and the delimiter after it.
fn scan_field_then(t: &Vec<char>, i: usize, w: usize, kind: u8) -> (r: Option<(u32, usize)>)
    requires
        i <= t@.len(),
        1 <= w <= 4,
        kind <= 2,
    ensures
        r is None <==> field_then(t@, i as int, w as int, kind as int) is None,
        r matches Some((v, e)) ==> field_then(t@, i as int, w as int, kind as int) == Some((v as int, e as int)),
        r matches Some((v, e)) ==> e <= t@.len() && v < 10000,
{
    match scan_field(t, i, w) {
        None => None,
        Some((v, e)) => {
            let ok = if kind == 0 {
                e < t.len() && t[e] == ':'
            } else if kind == 1 {
                e < t.len() && t[e] == ' '
            } else {
                e == t.len()
            };
            if !ok {
                None
            } else if kind == 2 {
                Some((v, e))
            } else {
                Some((v, e + 1))
            }
        },
    }
}

/// Removes NUL padding and surrounding white space from an EXIF date text.
fn trim_exif(t: &Vec<char>) -> (r: Vec<char>)
    ensures
        r@ == trim_exif_text(t@),
{
    let mut end: usize = t.len();
    assert(t@.subrange(0, end as int) == t@);
    while end > 0 && t[end - 1] == '\0'
        invariant
            end <= t@.len(),
            strip_trailing_nul(t@) == strip_trailing_nul(t@.subrange(0, end as int)),
        decreases end,
    {
        assert(t@.subrange(0, end as int).drop_last() == t@.subrange(0, end - 1));
        end = end - 1;
    }
    let ghost u = t@.subrange(0, end as int);
    assert(strip_trailing_nul(t@) == u);
    let nul_end = end;
    while end > 0 && is_space_char(t[end - 1])
        invariant
            end <= nul_end <= t@.len(),
            u == t@.subrange(0, nul_end as int),
            strip_trailing_space(u) == strip_trailing_space(t@.subrange(0, end as int)),
        decreases end,
    {
        assert(t@.subrange(0, end as int).drop_last() == t@.subrange(0, end - 1));
        end = end - 1;
    }
    let ghost w = t@.subrange(0, end as int);
    assert(strip_trailing_space(u) == w);
    let mut start: usize = 0;
    assert(w.subrange(0, w.len() as int) == w);
    while start < end && is_space_char(t[start])
        invariant
            start <= end <= t@.len(),
            w == t@.subrange(0, end as int),
            strip_leading_space(w) == strip_leading_space(w.subrange(start as int, end as int)),
        decreases end - start,
    {
        assert(w.subrange(start as int, end as int).drop_first() == w.subrange(start + 1, end as int));
        start = start + 1;
    }
    assert(strip_leading_space(w) == w.subrange(start as int, end as int));
    crate::text::slice_chars(t, start, end)
}

/// The six fields of a trimmed EXIF date text, as `stamp_fields` gives them.
fn scan_stamp(t: &Vec<char>) -> (r: Option<(u32, u32, u32, u32, u32, u32)>)
    ensures
        r is None <==> stamp_fields(t@) is None,
        r matches Some((y, m, d, h, mi, s)) ==> stamp_fields(t@) == Some(
            (y as int, m as int, d as int, h as int, mi as int, s as int),
        ),
        r matches Some((y, m, d, h, mi, s)) ==> y < 10000,
{
    let (y, i1) = match scan_field_then(t, 0, 4, 0) {
        Some(p) => p,
        None => return None,
    };
    let (m, i2) = match scan_field_then(t, i1, 2, 0) {
        Some(p) => p,
        None => return None,
    };
    let (d, i3) = match scan_field_then(t, i2, 2, 1) {
        Some(p) => p,
        None => return None,
    };
    let (h, i4) = match scan_field_then(t, i3, 2, 0) {
        Some(p) => p,
        None => return None,
    };
    let (mi, i5) = match scan_field_then(t, i4, 2, 0) {
        Some(p) => p,
        None => return None,
    };
    let (s, _i6) = match scan_field_then(t, i5, 2, 2) {
        Some(p) => p,
        None => return None,
    };
    Some((y, m, d, h, mi, s))
}

/// Parses an EXIF date text (`2023:01:15 14:30:45`, possibly NUL-padded) into
/// a UTC Unix time; a malformed text, or one naming a date or time that does
/// not exist, gives none.
pub fn parse_exif_datetime(datetime_str: &str) -> (r: Option<i64>)
    ensures
        r is None <==> exif_text_timestamp(datetime_str@) is None,
        r matches Some(ts) ==> exif_text_timestamp(datetime_str@) == Some(ts as int),
{
    let t = chars_of(datetime_str);
    let trimmed = trim_exif(&t);
    match scan_stamp(&trimmed) {
        Some((y, m, d, h, mi, s)) => {
            timestamp_of_civil(y as i32, m, d, h, mi, s)
        },
        None => None,
    }
}

pub open spec fn digits_at(t: Seq<char>, i: int, n: int) -> bool {
    &&& 0 <= i
    &&& i + n <= t.len()
    &&& forall|j: int| i <= j < i + n ==> is_digit(#[trigger] t[j])
}

pub open spec fn is_date_separator(c: char) -> bool {
    c == '-' || c == '_'
}

/// `YYYY` separator `MM` separator `DD` at `i`, each separator `-` or `_`.
pub open spec fn date_pattern_at(t: Seq<char>, i: int) -> bool {
    &&& digits_at(t, i, 4)
    &&& i + 10 <= t.len()
    &&& is_date_separator(t[i + 4])
    &&& digits_at(t, i + 5, 2)
    &&& is_date_separator(t[i + 7])
    &&& digits_at(t, i + 8, 2)
}

/// The first index at or after `i` where the date pattern stands, or -1.
pub open spec fn first_date_pattern(t: Seq<char>, i: int) -> int
    decreases t.len() - i,
{
    if i < 0 || i + 10 > t.len() {
        -1
    } else if date_pattern_at(t, i) {
        i
    } else {
        first_date_pattern(t, i + 1)
    }
}

/// `_HHMMSS` at `i`.
pub open spec fn time_pattern_at(t: Seq<char>, i: int) -> bool {
    i + 7 <= t.len() && t[i] == '_' && digits_at(t, i + 1, 6)
}

pub open spec fn number_at(t: Seq<char>, i: int, n: int) -> int {
    decimal_value(t.subrange(i, i + n))
}

/// The UTC Unix time of the first `YYYY-MM-DD` date in a file name (with a
/// plausible year, month and day), at the `_HHMMSS` time of day that directly
/// follows it or else at midnight; none where there is no such date, or the
/// date and time do not exist.
pub open spec fn filename_timestamp(t: Seq<char>) -> Option<int> {
    let i = first_date_pattern(t, 0);
    if i < 0 {
        None
    } else {
        let y = number_at(t, i, 4);
        let m = number_at(t, i + 5, 2);
        let d = number_at(t, i + 8, 2);
        if y < 1970 || y > 2100 || m < 1 || m > 12 || d < 1 || d > 31 {
            None
        } else {
            let timed = time_pattern_at(t, i + 10);
            let h = if timed { number_at(t, i + 11, 2) } else { 0 };
            let mi = if timed { number_at(t, i + 13, 2) } else { 0 };
            let s = if timed { number_at(t, i + 15, 2) } else { 0 };
            if valid_civil(y, m, d, h, mi, s) {
                Some(epoch_seconds(y, m, d, h, mi, s))
            } else {
                None
            }
        }
    }
}

fn digits_here(t: &Vec<char>, i: usize, n: usize) -> (r: bool)
    requires
        i + n <= t@.len(),
    ensures
        r == digits_at(t@, i as int, n as int),
{
    let _len = t.len();
    let end = i + n;
    let mut k: usize = i;
    while k < end
        invariant
            i <= k <= i + n <= t@.len(),
            end == i + n,
            forall|j: int| i <= j < k ==> is_digit(#[trigger] t@[j]),
        decreases i + n - k,
    {
        if !is_digit_char(t[k]) {
            return false;
        }
        k = k + 1;
    }
    true
}

/// The value of the `n` digits at `i`.
fn read_number(t: &Vec<char>, i: usize, n: usize) -> (r: u32)
    requires
        digits_at(t@, i as int, n as int),
        n <= 4,
    ensures
        r as int == number_at(t@, i as int, n as int),
        r < 10000,
{
    let _len = t.len();
    let end = i + n;
    let mut k: usize = i;
    let mut v: u32 = 0;
    proof {
        reveal_with_fuel(pow10, 5);
        assert(t@.subrange(i as int, i as int) == Seq::<char>::empty());
    }
    while k < end
        invariant
            i <= k <= i + n <= t@.len(),
            end == i + n,
            n <= 4,
            digits_at(t@, i as int, n as int),
            v as int == decimal_value(t@.subrange(i as int, k as int)),
            v < pow10((k - i) as nat),
            pow10(0) == 1 && pow10(1) == 10 && pow10(2) == 100 && pow10(3) == 1000 && pow10(4) == 10000,
        decreases i + n - k,
    {
        assert(is_digit(t@[k as int]));
        let d: u32 = t[k] as u32 - '0' as u32;
        proof {
            let s1 = t@.subrange(i as int, k + 1);
            assert(s1.drop_last() == t@.subrange(i as int, k as int));
            assert(s1.last() == t@[k as int]);
            assert(pow10((k + 1 - i) as nat) == 10 * pow10((k - i) as nat));
        }
        v = v * 10 + d;
        k = k + 1;
    }
    v
}

fn date_pattern_here(t: &Vec<char>, i: usize) -> (r: bool)
    requires
        i + 10 <= t@.len(),
    ensures
        r == date_pattern_at(t@, i as int),
{
    let _n = t.len();
    digits_here(t, i, 4) && (t[i + 4] == '-' || t[i + 4] == '_') && digits_here(t, i + 5, 2)
        && (t[i + 7] == '-' || t[i + 7] == '_') && digits_here(t, i + 8, 2)
}

/// Reads a capture time from a date written in a file name
/// (`2017-11-26_030858.jpeg`).
pub fn parse_filename_date(filename: &str) -> (r: Option<i64>)
    ensures
        r is None <==> filename_timestamp(filename@) is None,
        r matches Some(ts) ==> filename_timestamp(filename@) == Some(ts as int),
{
    let t = chars_of(filename);
    let mut i: usize = 0;
    while t.len() >= 10 && i <= t.len() - 10
        invariant
            t@ == filename@,
            i <= t@.len(),
            first_date_pattern(t@, 0) == first_date_pattern(t@, i as int),
        decreases t@.len() - i,
    {
        if date_pattern_here(&t, i) {
            let y = read_number(&t, i, 4);
            let m = read_number(&t, i + 5, 2);
            let d = read_number(&t, i + 8, 2);
            if y < 1970 || y > 2100 || m < 1 || m > 12 || d < 1 || d > 31 {
                return None;
            }
            let timed = t.len() - i >= 17 && t[i + 10] == '_' && digits_here(&t, i + 11, 6);
            assert(timed == time_pattern_at(t@, i + 10));
            let (h, mi, s) = if timed {
                proof {
                    assert(digits_at(t@, i + 11, 2));
                    assert(digits_at(t@, i + 13, 2));
                    assert(digits_at(t@, i + 15, 2));
                }
                (read_number(&t, i + 11, 2), read_number(&t, i + 13, 2), read_number(&t, i + 15, 2))
            } else {
                (0, 0, 0)
            };
            return timestamp_of_civil(y as i32, m, d, h, mi, s);
        }
        i = i + 1;
    }
    None
}

/// EXIF tag number of the date and time the image was originally recorded.
pub const DATE_TIME_ORIGINAL_TAG: u32 = 0x9003;

/// EXIF tag number of the date and time the file was last changed.
pub const DATE_TIME_TAG: u32 = 0x0132;

/// The EXIF entries that rexif finds in an image's bytes, each as its tag
/// number and, for a text value, that text; none where the bytes hold no
/// readable EXIF block.
pub uninterp spec fn exif_entries_of(b: Seq<u8>) -> Option<Seq<(u32, Option<Seq<char>>)>>;

pub open spec fn entry_view(e: (u32, Option<String>)) -> (u32, Option<Seq<char>>) {
    (e.0, match e.1 {
        Some(s) => Some(s@),
        None => None,
    })
}

pub open spec fn entries_view(v: Seq<(u32, Option<String>)>) -> Seq<(u32, Option<Seq<char>>)> {
    v.map_values(|e: (u32, Option<String>)| entry_view(e))
}

/// Relies on `rexif::parse_buffer`: the entries of the EXIF block of an image
/// (a JPEG or TIFF file's bytes), each with its tag number and its text for an
/// ASCII value.
#[verifier::external_body]
fn exif_entries(bytes: &[u8]) -> (r: Option<Vec<(u32, Option<String>)>>)
    ensures
        r is None <==> exif_entries_of(bytes@) is None,
        r matches Some(v) ==> exif_entries_of(bytes@) == Some(entries_view(v@)),
{
    match rexif::parse_buffer(bytes) {
        Ok(data) => Some(
            data.entries.into_iter().map(|e| {
                let text = match e.value {
                    rexif::TagValue::Ascii(s) => Some(s),
                    _ => None,
                };
                (e.tag as u32, text)
            }).collect(),
        ),
        Err(_) => None,
    }
}

/// The time of the first entry from `i` on that has tag `tag` and a
/// well-formed date text.
pub open spec fn tagged_timestamp(es: Seq<(u32, Option<Seq<char>>)>, tag: u32, i: int) -> Option<int>
    decreases es.len() - i,
{
    if i < 0 || i >= es.len() {
        None
    } else if es[i].0 == tag && es[i].1 is Some && exif_text_timestamp(es[i].1->0) is Some {
        exif_text_timestamp(es[i].1->0)
    } else {
        tagged_timestamp(es, tag, i + 1)
    }
}

/// The recording date of an EXIF block, or else its last-change date.
pub open spec fn entries_timestamp(es: Seq<(u32, Option<Seq<char>>)>) -> Option<int> {
    match tagged_timestamp(es, DATE_TIME_ORIGINAL_TAG, 0) {
        Some(t) => Some(t),
        None => tagged_timestamp(es, DATE_TIME_TAG, 0),
    }
}

/// The capture time that the EXIF block of an image's bytes states.
pub open spec fn exif_timestamp(b: Seq<u8>) -> Option<int> {
    match exif_entries_of(b) {
        Some(es) => entries_timestamp(es),
        None => None,
    }
}

fn first_tagged(entries: &Vec<(u32, Option<String>)>, tag: u32) -> (r: Option<i64>)
    ensures
        r is None <==> tagged_timestamp(entries_view(entries@), tag, 0) is None,
        r matches Some(ts) ==> tagged_timestamp(entries_view(entries@), tag, 0) == Some(ts as int),
{
    let ghost es = entries_view(entries@);
    let mut i: usize = 0;
    while i < entries.len()
        invariant
            i <= entries@.len(),
            es == entries_view(entries@),
            es.len() == entries@.len(),
            tagged_timestamp(es, tag, 0) == tagged_timestamp(es, tag, i as int),
        decreases entries@.len() - i,
    {
        assert(es[i as int] == entry_view(entries@[i as int]));
        let (t, text) = &entries[i];
        if *t == tag {
            match text {
                Some(s) => {
                    let parsed = parse_exif_datetime(s.as_str());
                    if parsed.is_some() {
                        return parsed;
                    }
                },
                None => {},
            }
        }
        i = i + 1;
    }
    None
}

/// The capture time stated by a list of EXIF entries: the first well-formed
/// recording date, or else the first well-formed last-change date.
pub fn exif_date_from_entries(entries: &Vec<(u32, Option<String>)>) -> (r: Option<i64>)
    ensures
        r is None <==> entries_timestamp(entries_view(entries@)) is None,
        r matches Some(ts) ==> entries_timestamp(entries_view(entries@)) == Some(ts as int),
{
    match first_tagged(entries, DATE_TIME_ORIGINAL_TAG) {
        Some(ts) => Some(ts),
        None => first_tagged(entries, DATE_TIME_TAG),
    }
}

/// The capture time stated in the EXIF block of an image's bytes.
pub fn extract_exif_date(bytes: &[u8]) -> (r: Option<i64>)
    ensures
        r is None <==> exif_timestamp(bytes@) is None,
        r matches Some(ts) ==> exif_timestamp(bytes@) == Some(ts as int),
{
    match exif_entries(bytes) {
        Some(entries) => exif_date_from_entries(&entries),
        None => None,
    }
}

/// The first time that the fallback chain provides: embedded date, date in
/// the file name, modification time, and last the current time.
pub open spec fn first_available(
    embedded: Option<int>,
    from_name: Option<int>,
    modified: Option<i64>,
    now: i64,
) -> int {
    match embedded {
        Some(t) => t,
        None => match from_name {
            Some(t) => t,
            None => match modified {
                Some(t) => t as int,
                None => now as int,
            },
        },
    }
}

pub open spec fn option_int(o: Option<i64>) -> Option<int> {
    match o {
        Some(t) => Some(t as int),
        None => None,
    }
}

/// Picks the capture time from the results of the stages of the chain, the
/// first stage that has one winning.
pub fn choose_capture_date(embedded: Option<i64>, from_name: Option<i64>, modified: Option<i64>, now: i64) -> (r: i64)
    ensures
        r as int == first_available(option_int(embedded), option_int(from_name), modified, now),
{
    match embedded {
        Some(t) => t,
        None => match from_name {
            Some(t) => t,
            None => match modified {
                Some(t) => t,
                None => now,
            },
        },
    }
}

/// Resolves the capture time of a file from its bytes, its name, its
/// modification time (if known) and the current time.
pub fn resolve_capture_date(bytes: &[u8], name: &str, modified: Option<i64>, now: i64) -> (r: i64)
    ensures
        r as int == first_available(exif_timestamp(bytes@), filename_timestamp(name@), modified, now),
{
    let embedded = extract_exif_date(bytes);
    let from_name = if embedded.is_none() {
        parse_filename_date(name)
    } else {
        None
    };
    choose_capture_date(embedded, from_name, modified, now)
}

} // verus!
