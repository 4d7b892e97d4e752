use exif_reader::aggregate::create_output_record;
use exif_reader::extract::apply_fields;
use exif_reader::fields::{is_sentinel, tracked_field_of, FieldContext, RawField, TrackedField};
use exif_reader::report::{get_analyze_result, u64_to_string};

fn exif_field(tag: u16, value: &str) -> RawField {
    RawField { ctx: FieldContext::Exif, tag, value: value.to_string() }
}

#[test]
fn fresh_record_has_all_fields_empty() {
    let r = create_output_record();
    assert_eq!(r.focal_length.len(), 0);
    assert_eq!(r.f_number.len(), 0);
    assert_eq!(r.exposure_time.len(), 0);
    assert_eq!(r.focal_length.count_of(&"50".to_string()), 0);
}

#[test]
fn record_field_counts_occurrences() {
    let mut r = create_output_record();
    r.record_field(TrackedField::FocalLength, &"50".to_string());
    r.record_field(TrackedField::FocalLength, &"50".to_string());
    r.record_field(TrackedField::FocalLength, &"85".to_string());
    assert_eq!(r.focal_length.len(), 2);
    assert_eq!(r.focal_length.count_of(&"50".to_string()), 2);
    assert_eq!(r.focal_length.count_of(&"85".to_string()), 1);
    assert_eq!(r.f_number.len(), 0);
}

#[test]
fn sentinel_value_is_never_recorded() {
    let mut r = create_output_record();
    let fields = vec![
        exif_field(33437, "0"),
        exif_field(37386, "0"),
        exif_field(33434, "1/250"),
    ];
    apply_fields(&mut r, &fields);
    assert_eq!(r.f_number.len(), 0);
    assert_eq!(r.focal_length.len(), 0);
    assert_eq!(r.exposure_time.count_of(&"1/250".to_string()), 1);
}

#[test]
fn sentinel_does_not_block_later_reading() {
    let mut r = create_output_record();
    let fields = vec![exif_field(33437, "0"), exif_field(33437, "2.8")];
    apply_fields(&mut r, &fields);
    assert_eq!(r.f_number.count_of(&"2.8".to_string()), 1);
    assert_eq!(r.f_number.count_of(&"0".to_string()), 0);
}

#[test]
fn same_fields_applied_twice_contribute_identically() {
    let fields = vec![exif_field(33437, "2.8"), exif_field(37386, "50")];
    let mut once = create_output_record();
    apply_fields(&mut once, &fields);
    let mut twice = create_output_record();
    apply_fields(&mut twice, &fields);
    apply_fields(&mut twice, &fields);
    assert_eq!(once.f_number.count_of(&"2.8".to_string()), 1);
    assert_eq!(twice.f_number.count_of(&"2.8".to_string()), 2);
    assert_eq!(twice.focal_length.count_of(&"50".to_string()), 2);
    assert_eq!(twice.f_number.len(), once.f_number.len());
}

#[test]
fn duplicate_tag_first_occurrence_wins() {
    let mut r = create_output_record();
    let fields = vec![exif_field(37386, "50mm"), exif_field(37386, "85mm")];
    apply_fields(&mut r, &fields);
    assert_eq!(r.focal_length.count_of(&"50mm".to_string()), 1);
    assert_eq!(r.focal_length.count_of(&"85mm".to_string()), 0);
    assert_eq!(r.focal_length.len(), 1);
}

#[test]
fn untracked_and_wrong_context_fields_are_skipped() {
    let mut r = create_output_record();
    let fields = vec![
        RawField { ctx: FieldContext::Tiff, tag: 33437, value: "2.8".to_string() },
        RawField { ctx: FieldContext::Gps, tag: 37386, value: "50".to_string() },
        exif_field(271, "some camera"),
    ];
    apply_fields(&mut r, &fields);
    assert_eq!(r.f_number.len(), 0);
    assert_eq!(r.focal_length.len(), 0);
    assert_eq!(r.exposure_time.len(), 0);
}

#[test]
fn merging_batches_is_order_independent() {
    let batch1 = vec![exif_field(33437, "2.8"), exif_field(37386, "50")];
    let batch2 = vec![exif_field(33437, "2.8")];
    let batch3 = vec![exif_field(33437, "4.0"), exif_field(33434, "1/60")];

    let mut sequential = create_output_record();
    apply_fields(&mut sequential, &batch1);
    apply_fields(&mut sequential, &batch2);
    apply_fields(&mut sequential, &batch3);

    let mut wa = create_output_record();
    apply_fields(&mut wa, &batch1);
    let mut wb = create_output_record();
    apply_fields(&mut wb, &batch3);
    apply_fields(&mut wb, &batch2);
    wb.merge_from(&wa);

    for v in ["2.8", "4.0"] {
        assert_eq!(
            sequential.f_number.count_of(&v.to_string()),
            wb.f_number.count_of(&v.to_string())
        );
    }
    assert_eq!(sequential.f_number.len(), wb.f_number.len());
    assert_eq!(
        sequential.focal_length.count_of(&"50".to_string()),
        wb.focal_length.count_of(&"50".to_string())
    );
    assert_eq!(
        sequential.exposure_time.count_of(&"1/60".to_string()),
        wb.exposure_time.count_of(&"1/60".to_string())
    );
}

#[test]
fn report_renders_all_fields_in_fixed_order() {
    let mut r = create_output_record();
    r.record_field(TrackedField::FocalLength, &"50".to_string());
    r.record_field(TrackedField::FocalLength, &"50".to_string());
    r.record_field(TrackedField::FNumber, &"2.8".to_string());
    let s = get_analyze_result(&r);
    assert_eq!(
        s,
        "{\"Lens focal length\":{\"50\":2},\"F number\":{\"2.8\":1},\"Exposure time\":{}}"
    );
}

#[test]
fn report_of_empty_record() {
    let r = create_output_record();
    let s = get_analyze_result(&r);
    assert_eq!(s, "{\"Lens focal length\":{},\"F number\":{},\"Exposure time\":{}}");
}

#[test]
fn report_joins_entries_with_commas() {
    let mut r = create_output_record();
    r.record_field(TrackedField::ExposureTime, &"1/250".to_string());
    r.record_field(TrackedField::ExposureTime, &"1/60".to_string());
    let s = get_analyze_result(&r);
    assert_eq!(
        s,
        "{\"Lens focal length\":{},\"F number\":{},\"Exposure time\":{\"1/250\":1,\"1/60\":1}}"
    );
}

#[test]
fn decimal_rendering_of_counts() {
    assert_eq!(u64_to_string(0), "0");
    assert_eq!(u64_to_string(7), "7");
    assert_eq!(u64_to_string(10), "10");
    assert_eq!(u64_to_string(12345), "12345");
    assert_eq!(u64_to_string(u64::MAX), "18446744073709551615");
}

#[test]
fn sentinel_recognition() {
    assert!(is_sentinel(&"0".to_string()));
    assert!(!is_sentinel(&"0.0".to_string()));
    assert!(!is_sentinel(&"".to_string()));
}

#[test]
fn tracked_field_identification() {
    assert_eq!(
        tracked_field_of(FieldContext::Exif, 37386),
        Some(TrackedField::FocalLength)
    );
    assert_eq!(tracked_field_of(FieldContext::Exif, 33437), Some(TrackedField::FNumber));
    assert_eq!(
        tracked_field_of(FieldContext::Exif, 33434),
        Some(TrackedField::ExposureTime)
    );
    assert_eq!(tracked_field_of(FieldContext::Tiff, 33437), None);
    assert_eq!(tracked_field_of(FieldContext::Exif, 271), None);
}
