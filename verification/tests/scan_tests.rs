use exif_reader::aggregate::create_output_record;
use exif_reader::classify::{ext_is_jpg, scan_exif_from_folder, FolderEntry, ScanCounters};
use exif_reader::extract::scan_exif_from_img;
use exif_reader::year::create_year_output_record;

/// A minimal little-endian TIFF buffer whose Exif directory holds one
/// f-number reading of 28/10, which the decoder renders as "2.8".
fn fnumber_image_bytes() -> Vec<u8> {
    let mut b: Vec<u8> = Vec::new();
    // header: byte order, magic, offset of the first directory
    b.extend_from_slice(&[0x49, 0x49, 0x2A, 0x00, 8, 0, 0, 0]);
    // first directory: one entry pointing at the Exif directory (offset 26)
    b.extend_from_slice(&[1, 0]);
    b.extend_from_slice(&[0x69, 0x87, 4, 0, 1, 0, 0, 0, 26, 0, 0, 0]);
    b.extend_from_slice(&[0, 0, 0, 0]);
    // Exif directory: one rational f-number entry, data at offset 44
    b.extend_from_slice(&[1, 0]);
    b.extend_from_slice(&[0x9D, 0x82, 5, 0, 1, 0, 0, 0, 44, 0, 0, 0]);
    b.extend_from_slice(&[0, 0, 0, 0]);
    // the rational 28/10
    b.extend_from_slice(&[28, 0, 0, 0, 10, 0, 0, 0]);
    b
}

fn jpg_entry(depth: usize, bytes: Option<Vec<u8>>) -> FolderEntry {
    FolderEntry { depth, is_file: true, ext: "jpg".to_string(), bytes }
}

#[test]
fn decodes_fnumber_from_image_bytes() {
    let bytes = fnumber_image_bytes();
    let mut record = create_output_record();
    let decoded = scan_exif_from_img(&bytes, &mut record);
    assert!(decoded);
    assert_eq!(record.f_number.count_of(&"2.8".to_string()), 1);
    assert_eq!(record.f_number.len(), 1);
    assert_eq!(record.focal_length.len(), 0);
}

#[test]
fn corrupt_bytes_leave_record_untouched() {
    let bytes = vec![0xde, 0xad, 0xbe, 0xef, 1, 2, 3];
    let mut record = create_output_record();
    let decoded = scan_exif_from_img(&bytes, &mut record);
    assert!(!decoded);
    assert_eq!(record.f_number.len(), 0);
    assert_eq!(record.focal_length.len(), 0);
    assert_eq!(record.exposure_time.len(), 0);
}

#[test]
fn one_corrupt_file_does_not_spoil_the_scan() {
    let entries = vec![
        jpg_entry(1, Some(fnumber_image_bytes())),
        jpg_entry(1, Some(vec![0, 1, 2, 3, 4])),
    ];
    let mut record = create_output_record();
    let mut counters = ScanCounters::new();
    scan_exif_from_folder(&entries, &mut record, &mut counters);
    assert_eq!(record.f_number.count_of(&"2.8".to_string()), 1);
    assert_eq!(counters.visited, 2);
    assert_eq!(counters.decoded, 1);
}

#[test]
fn unreadable_file_is_skipped() {
    let entries = vec![jpg_entry(0, None), jpg_entry(0, Some(fnumber_image_bytes()))];
    let mut record = create_output_record();
    let mut counters = ScanCounters::new();
    scan_exif_from_folder(&entries, &mut record, &mut counters);
    assert_eq!(counters.visited, 2);
    assert_eq!(counters.decoded, 1);
    assert_eq!(record.f_number.count_of(&"2.8".to_string()), 1);
}

#[test]
fn file_below_depth_bound_is_never_visited() {
    let entries = vec![jpg_entry(5, Some(fnumber_image_bytes()))];
    let mut record = create_output_record();
    let mut counters = ScanCounters::new();
    scan_exif_from_folder(&entries, &mut record, &mut counters);
    assert_eq!(counters.visited, 0);
    assert_eq!(counters.decoded, 0);
    assert_eq!(record.f_number.len(), 0);
}

#[test]
fn file_at_depth_bound_is_visited() {
    let entries = vec![jpg_entry(4, Some(fnumber_image_bytes()))];
    let mut record = create_output_record();
    let mut counters = ScanCounters::new();
    scan_exif_from_folder(&entries, &mut record, &mut counters);
    assert_eq!(counters.visited, 1);
    assert_eq!(counters.decoded, 1);
}

#[test]
fn directories_and_wrong_extensions_are_not_visited_as_candidates() {
    let entries = vec![
        FolderEntry { depth: 1, is_file: false, ext: "".to_string(), bytes: None },
        FolderEntry {
            depth: 1,
            is_file: true,
            ext: "png".to_string(),
            bytes: Some(fnumber_image_bytes()),
        },
        FolderEntry {
            depth: 2,
            is_file: true,
            ext: "JPG".to_string(),
            bytes: Some(fnumber_image_bytes()),
        },
    ];
    let mut record = create_output_record();
    let mut counters = ScanCounters::new();
    scan_exif_from_folder(&entries, &mut record, &mut counters);
    // the directory is not a file; the png file is visited but not decoded
    assert_eq!(counters.visited, 2);
    assert_eq!(counters.decoded, 1);
    assert_eq!(record.f_number.count_of(&"2.8".to_string()), 1);
}

#[test]
fn counters_monotonic_and_decoded_bounded_by_visited() {
    let mut record = create_output_record();
    let mut counters = ScanCounters::new();
    let first = vec![jpg_entry(1, Some(fnumber_image_bytes())), jpg_entry(1, None)];
    scan_exif_from_folder(&first, &mut record, &mut counters);
    let (v1, d1) = (counters.visited, counters.decoded);
    assert!(d1 <= v1);
    let second = vec![jpg_entry(2, Some(fnumber_image_bytes()))];
    scan_exif_from_folder(&second, &mut record, &mut counters);
    assert!(counters.visited >= v1);
    assert!(counters.decoded >= d1);
    assert!(counters.decoded <= counters.visited);
    assert_eq!(record.f_number.count_of(&"2.8".to_string()), 2);
}

#[test]
fn empty_listing_changes_nothing() {
    let entries: Vec<FolderEntry> = Vec::new();
    let mut record = create_output_record();
    let mut counters = ScanCounters::new();
    scan_exif_from_folder(&entries, &mut record, &mut counters);
    assert_eq!(counters.visited, 0);
    assert_eq!(counters.decoded, 0);
    assert_eq!(record.focal_length.len(), 0);
    assert_eq!(record.f_number.len(), 0);
    assert_eq!(record.exposure_time.len(), 0);
}

#[test]
fn extension_match_ignores_ascii_case() {
    assert!(ext_is_jpg(&"jpg".to_string()));
    assert!(ext_is_jpg(&"JPG".to_string()));
    assert!(ext_is_jpg(&"jPg".to_string()));
    assert!(!ext_is_jpg(&"jpeg".to_string()));
    assert!(!ext_is_jpg(&"png".to_string()));
    assert!(!ext_is_jpg(&"".to_string()));
}

#[test]
fn year_buckets_are_independent() {
    let years = vec!["2022".to_string(), "2023".to_string(), "2024".to_string()];
    let mut buckets = create_year_output_record(&years);
    assert_eq!(buckets.len(), 3);
    assert_eq!(buckets.bucket_index(&"2023".to_string()), Some(1));
    assert_eq!(buckets.bucket_index(&"2021".to_string()), None);
    assert_eq!(buckets.year_at(0).as_str(), "2022");

    let entries = vec![jpg_entry(1, Some(fnumber_image_bytes()))];
    let mut counters = ScanCounters::new();
    buckets.scan_into(0, &entries, &mut counters);
    assert_eq!(buckets.record_at(0).f_number.count_of(&"2.8".to_string()), 1);
    assert_eq!(buckets.record_at(1).f_number.len(), 0);
    assert_eq!(buckets.record_at(2).f_number.len(), 0);
    assert_eq!(counters.visited, 1);
    assert_eq!(counters.decoded, 1);
}
