use photo_organizer::index::{parse_i64, parse_sidecar, sidecar_fields, MetadataIndex};
use photo_organizer::placement::{
    candidate_name, candidate_path, destination_dir, extension_bucket, month_name, target_dir,
};
use photo_organizer::reservation::{NameSearch, ReservationSet};
use photo_organizer::resolve::resolve_timestamp;
use photo_organizer::text::{decimal_text, join_path, split_file_name};
use photo_organizer::timestamp::{
    embedded_capture_time, resolve_from_sources, ResolvedTimestamp, TimestampSource,
};
use rayon::iter::{IntoParallelIterator, ParallelIterator};
use std::collections::HashSet;
use std::sync::Mutex;

const JULY_15_2022: i64 = 1657843200;
const MARCH_4_2021_050607: i64 = 1614834367;

fn push_u16(b: &mut Vec<u8>, v: u16) {
    b.extend_from_slice(&v.to_le_bytes());
}

fn push_u32(b: &mut Vec<u8>, v: u32) {
    b.extend_from_slice(&v.to_le_bytes());
}

/// A little-endian TIFF stream whose Exif IFD holds one DateTimeOriginal.
fn tiff_with_date(date: &str) -> Vec<u8> {
    let mut b = Vec::new();
    b.extend_from_slice(b"II");
    push_u16(&mut b, 42);
    push_u32(&mut b, 8);
    push_u16(&mut b, 1);
    push_u16(&mut b, 0x8769);
    push_u16(&mut b, 4);
    push_u32(&mut b, 1);
    push_u32(&mut b, 26);
    push_u32(&mut b, 0);
    push_u16(&mut b, 1);
    push_u16(&mut b, 0x9003);
    push_u16(&mut b, 2);
    push_u32(&mut b, (date.len() + 1) as u32);
    push_u32(&mut b, 44);
    push_u32(&mut b, 0);
    b.extend_from_slice(date.as_bytes());
    b.push(0);
    b
}

fn sidecar(title: &str, stamp: &str) -> String {
    format!(
        "{{\"title\": \"{}\", \"photoTakenTime\": {{\"timestamp\": \"{}\", \"formatted\": \"x\"}}}}",
        title, stamp
    )
}

#[test]
fn decimal_text_renders_integers() {
    assert_eq!(decimal_text(0), "0");
    assert_eq!(decimal_text(7), "7");
    assert_eq!(decimal_text(2022), "2022");
    assert_eq!(decimal_text(-5), "-5");
    assert_eq!(decimal_text(i64::MIN), i64::MIN.to_string());
    assert_eq!(decimal_text(i64::MAX), i64::MAX.to_string());
}

#[test]
fn split_file_name_follows_path_rules() {
    assert_eq!(split_file_name("IMG_01.JPG"), ("IMG_01".to_string(), Some("JPG".to_string())));
    assert_eq!(split_file_name("archive.tar.gz"), ("archive.tar".to_string(), Some("gz".to_string())));
    assert_eq!(split_file_name(".hidden"), (".hidden".to_string(), None));
    assert_eq!(split_file_name("README"), ("README".to_string(), None));
    assert_eq!(split_file_name("trailing."), ("trailing".to_string(), Some(String::new())));
}

#[test]
fn join_path_inserts_one_separator() {
    assert_eq!(join_path("out", "2022"), "out/2022");
    assert_eq!(join_path("out/", "2022"), "out/2022");
    assert_eq!(join_path("", "2022"), "2022");
}

#[test]
fn month_names_and_unknown() {
    assert_eq!(month_name(1), "January");
    assert_eq!(month_name(7), "July");
    assert_eq!(month_name(12), "December");
    assert_eq!(month_name(0), "Unknown");
    assert_eq!(month_name(13), "Unknown");
}

#[test]
fn bucket_ignores_extension_case() {
    assert_eq!(extension_bucket("IMG_01.JPG"), "jpg");
    assert_eq!(extension_bucket("IMG_02.jpg"), "jpg");
    assert_eq!(extension_bucket("clip.MoV"), "mov");
    assert_eq!(extension_bucket("README"), "no_ext");
    assert_eq!(extension_bucket(".hidden"), "no_ext");
    assert_eq!(extension_bucket("PHOTO.ÉTÉ"), "été");
}

#[test]
fn destination_of_july_photo() {
    let dir = destination_dir("out", JULY_15_2022, "IMG_01.JPG").unwrap();
    assert_eq!(dir, "out/2022/July/jpg");
    assert_eq!(candidate_path(&dir, "IMG_01.JPG", 0), "out/2022/July/jpg/IMG_01.JPG");
    assert_eq!(target_dir("/data/", 1999, 12, "notes"), "/data/1999/December/no_ext");
    assert_eq!(target_dir("out", -44, 3, "a.PNG"), "out/-44/March/png");
}

#[test]
fn destination_out_of_calendar_range() {
    assert_eq!(destination_dir("out", i64::MAX, "a.jpg"), None);
    assert_eq!(destination_dir("out", 0, "a.jpg"), Some("out/1970/January/jpg".to_string()));
}

#[test]
fn candidate_names_number_the_stem() {
    assert_eq!(candidate_name("A.jpg", 0), "A.jpg");
    assert_eq!(candidate_name("A.jpg", 1), "A_1.jpg");
    assert_eq!(candidate_name("A.jpg", 12), "A_12.jpg");
    assert_eq!(candidate_name("README", 2), "README_2");
    assert_eq!(candidate_name("trailing.", 1), "trailing_1");
    assert_eq!(candidate_name("archive.tar.gz", 3), "archive.tar_3.gz");
}

#[test]
fn sidecar_parses_title_and_timestamp() {
    let text = sidecar("IMG_01.JPG", "1657843200");
    assert_eq!(parse_sidecar(&text), Some(("IMG_01.JPG".to_string(), JULY_15_2022)));
    assert_eq!(parse_sidecar(&sidecar("neg.jpg", "-86400")), Some(("neg.jpg".to_string(), -86400)));
}

#[test]
fn sidecar_with_bad_timestamp_is_skipped() {
    assert_eq!(parse_sidecar(&sidecar("IMG_01.JPG", "not-a-number")), None);
    assert_eq!(parse_sidecar(&sidecar("IMG_01.JPG", " 12")), None);
    assert_eq!(parse_sidecar(&sidecar("IMG_01.JPG", "99999999999999999999")), None);
    assert_eq!(parse_sidecar(&sidecar("IMG_01.JPG", "9223372036854775807")), None);
    let mut index = MetadataIndex::new();
    assert!(!index.add_sidecar(&sidecar("IMG_01.JPG", "not-a-number")));
    assert_eq!(index.lookup("IMG_01.JPG"), None);
}

#[test]
fn sidecar_malformed_structure_is_skipped() {
    assert_eq!(parse_sidecar("{not json"), None);
    assert_eq!(parse_sidecar("{\"photoTakenTime\": {\"timestamp\": \"5\"}}"), None);
    assert_eq!(parse_sidecar("{\"title\": \"a.jpg\", \"photoTakenTime\": {\"timestamp\": 5}}"), None);
    assert_eq!(parse_sidecar("{\"title\": \"a.jpg\"}"), None);
}

#[test]
fn index_last_write_wins() {
    let mut index = MetadataIndex::new();
    assert!(index.add_sidecar(&sidecar("a.jpg", "100")));
    assert!(index.add_sidecar(&sidecar("b.jpg", "200")));
    assert!(index.add_sidecar(&sidecar("a.jpg", "300")));
    assert_eq!(index.lookup("a.jpg"), Some(300));
    assert_eq!(index.lookup("b.jpg"), Some(200));
    assert_eq!(index.lookup("A.jpg"), None);
    index.insert("c.jpg".to_string(), 7);
    assert_eq!(index.lookup("c.jpg"), Some(7));
}

#[test]
fn embedded_tag_is_read_as_utc() {
    let bytes = tiff_with_date("2021:03:04 05:06:07");
    assert_eq!(embedded_capture_time(&bytes), Some(MARCH_4_2021_050607));
    assert_eq!(embedded_capture_time(&b"not an image".to_vec()), None);
    assert_eq!(embedded_capture_time(&Vec::new()), None);
}

#[test]
fn resolution_prefers_sidecar() {
    let mut index = MetadataIndex::new();
    index.add_sidecar(&sidecar("IMG_01.JPG", "1657843200"));
    let bytes = tiff_with_date("2021:03:04 05:06:07");
    let r = resolve_timestamp(&index, "IMG_01.JPG", &bytes, Some(1), Some(2));
    assert_eq!(
        r,
        Some(ResolvedTimestamp { epoch_secs: JULY_15_2022, source: TimestampSource::SidecarMetadata })
    );
}

#[test]
fn resolution_falls_back_to_embedded_tag() {
    let index = MetadataIndex::new();
    let bytes = tiff_with_date("2021:03:04 05:06:07");
    let r = resolve_timestamp(&index, "IMG_02.JPG", &bytes, Some(1), Some(2));
    assert_eq!(
        r,
        Some(ResolvedTimestamp {
            epoch_secs: MARCH_4_2021_050607,
            source: TimestampSource::EmbeddedCaptureTag
        })
    );
}

#[test]
fn resolution_falls_back_to_filesystem_time() {
    let mut index = MetadataIndex::new();
    index.add_sidecar(&sidecar("IMG_03.JPG", "not-a-number"));
    let plain = b"plain bytes".to_vec();
    let created = resolve_timestamp(&index, "IMG_03.JPG", &plain, Some(11), Some(22));
    assert_eq!(created, Some(ResolvedTimestamp { epoch_secs: 11, source: TimestampSource::FilesystemTime }));
    let modified = resolve_timestamp(&index, "IMG_03.JPG", &plain, None, Some(22));
    assert_eq!(modified, Some(ResolvedTimestamp { epoch_secs: 22, source: TimestampSource::FilesystemTime }));
    assert_eq!(resolve_timestamp(&index, "IMG_03.JPG", &plain, None, None), None);
    let bad_tag = tiff_with_date("sometime");
    let r = resolve_timestamp(&index, "IMG_03.JPG", &bad_tag, Some(11), None);
    assert_eq!(r, Some(ResolvedTimestamp { epoch_secs: 11, source: TimestampSource::FilesystemTime }));
}

#[test]
fn resolve_from_sources_orders_sources() {
    assert_eq!(
        resolve_from_sources(Some(1), Some(2), Some(3), Some(4)),
        Some(ResolvedTimestamp { epoch_secs: 1, source: TimestampSource::SidecarMetadata })
    );
    assert_eq!(
        resolve_from_sources(None, Some(2), Some(3), Some(4)),
        Some(ResolvedTimestamp { epoch_secs: 2, source: TimestampSource::EmbeddedCaptureTag })
    );
    assert_eq!(resolve_from_sources(None, None, None, None), None);
}

#[test]
fn reservation_claims_once() {
    let mut set = ReservationSet::new();
    assert!(!set.is_reserved("d/A.jpg"));
    assert!(set.try_claim("d/A.jpg".to_string(), false));
    assert!(set.is_reserved("d/A.jpg"));
    assert!(!set.try_claim("d/A.jpg".to_string(), false));
    assert!(!set.try_claim("d/B.jpg".to_string(), true));
    assert!(!set.is_reserved("d/B.jpg"));
}

fn place(set: &Mutex<ReservationSet>, dir: &str, name: &str, on_disk: &HashSet<String>) -> String {
    let mut search = NameSearch::new(dir, name);
    loop {
        let path = search.candidate();
        let exists = on_disk.contains(&path);
        if set.lock().unwrap().try_claim(path.clone(), exists) {
            return path;
        }
        assert!(search.advance());
    }
}

#[test]
fn second_copy_of_same_name_is_numbered() {
    let set = Mutex::new(ReservationSet::new());
    let none = HashSet::new();
    assert_eq!(place(&set, "out/2022/July/jpg", "A.jpg", &none), "out/2022/July/jpg/A.jpg");
    assert_eq!(place(&set, "out/2022/July/jpg", "A.jpg", &none), "out/2022/July/jpg/A_1.jpg");
}

#[test]
fn existing_file_is_not_overwritten() {
    let set = Mutex::new(ReservationSet::new());
    let mut on_disk = HashSet::new();
    on_disk.insert("d/A.jpg".to_string());
    on_disk.insert("d/A_1.jpg".to_string());
    assert_eq!(place(&set, "d", "A.jpg", &on_disk), "d/A_2.jpg");
    assert_eq!(place(&set, "d", "A.jpg", &on_disk), "d/A_3.jpg");
}

#[test]
fn concurrent_placements_get_distinct_names() {
    let set = Mutex::new(ReservationSet::new());
    let none = HashSet::new();
    let paths: Vec<String> = (0..200).into_par_iter().map(|_| place(&set, "d", "A.jpg", &none)).collect();
    let distinct: HashSet<String> = paths.iter().cloned().collect();
    assert_eq!(distinct.len(), 200);
    for n in 1..200 {
        assert!(distinct.contains(&format!("d/A_{}.jpg", n)));
    }
    assert!(distinct.contains("d/A.jpg"));
}

#[test]
fn parse_i64_matches_from_str() {
    assert_eq!(parse_i64("0"), Some(0));
    assert_eq!(parse_i64("1657843200"), Some(1657843200));
    assert_eq!(parse_i64("+42"), Some(42));
    assert_eq!(parse_i64("-42"), Some(-42));
    assert_eq!(parse_i64("007"), Some(7));
    assert_eq!(parse_i64("9223372036854775807"), Some(i64::MAX));
    assert_eq!(parse_i64("-9223372036854775808"), Some(i64::MIN));
    assert_eq!(parse_i64("9223372036854775808"), None);
    assert_eq!(parse_i64("-9223372036854775809"), None);
    assert_eq!(parse_i64("123456789012345678901234"), None);
    assert_eq!(parse_i64(""), None);
    assert_eq!(parse_i64("-"), None);
    assert_eq!(parse_i64("+"), None);
    assert_eq!(parse_i64("12a"), None);
    assert_eq!(parse_i64(" 1"), None);
    assert_eq!(parse_i64("1_000"), None);
    assert_eq!(parse_i64("not-a-number"), None);
}

#[test]
fn sidecar_fields_reads_the_two_keys() {
    let text = "{\"title\": \"x.jpg\", \"photoTakenTime\": {\"timestamp\": \"12\"}, \"timestamp\": \"99\"}";
    assert_eq!(sidecar_fields(text), Some(("x.jpg".to_string(), "12".to_string())));
    assert_eq!(sidecar_fields("{\"title\": \"x.jpg\", \"timestamp\": \"12\"}"), None);
    assert_eq!(sidecar_fields("{\"name\": \"x.jpg\", \"photoTakenTime\": {\"timestamp\": \"12\"}}"), None);
    assert_eq!(sidecar_fields("[1, 2]"), None);
}
