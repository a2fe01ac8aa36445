use photo_organizer::collision::{contains_name, resolve_name, MAX_ATTEMPTS};
use photo_organizer::layout::{dated_dir, mirrored_dir, plan_placement, relative_dir, Placement};
use photo_organizer::metadata::extract_capture_time;
use photo_organizer::naming::{candidate_name, extension_suffix, push_decimal};
use photo_organizer::setup::{check_setup, SetupError, TargetAction};
use photo_organizer::summary::{Outcome, Summary};
use photo_organizer::timestamp::{capture_time_from_values, CaptureTime};

fn time(year: u16, month: u8, day: u8, hour: u8, minute: u8, second: u8) -> CaptureTime {
    CaptureTime { year, month, day, hour, minute, second }
}

fn listing(names: &[&str]) -> Vec<String> {
    names.iter().map(|s| s.to_string()).collect()
}

/// A little-endian TIFF whose Exif directory holds one DateTimeOriginal value.
fn tiff_with_capture_time(value: &[u8; 19]) -> Vec<u8> {
    let mut d: Vec<u8> = vec![0x49, 0x49, 0x2A, 0x00, 0x08, 0x00, 0x00, 0x00];
    d.extend_from_slice(&[0x01, 0x00]);
    d.extend_from_slice(&[0x69, 0x87, 0x04, 0x00, 0x01, 0x00, 0x00, 0x00, 0x1A, 0x00, 0x00, 0x00]);
    d.extend_from_slice(&[0x00, 0x00, 0x00, 0x00]);
    d.extend_from_slice(&[0x01, 0x00]);
    d.extend_from_slice(&[0x03, 0x90, 0x02, 0x00, 0x14, 0x00, 0x00, 0x00, 0x2C, 0x00, 0x00, 0x00]);
    d.extend_from_slice(&[0x00, 0x00, 0x00, 0x00]);
    d.extend_from_slice(value);
    d.push(0);
    d
}

#[test]
fn decimal_rendering() {
    let mut s = String::from("n=");
    push_decimal(&mut s, 0);
    assert_eq!(s, "n=0");
    let mut s = String::new();
    push_decimal(&mut s, 10203);
    assert_eq!(s, "10203");
    let mut s = String::new();
    push_decimal(&mut s, u64::MAX);
    assert_eq!(s, "18446744073709551615");
}

#[test]
fn extension_suffix_keeps_case() {
    assert_eq!(extension_suffix(Some("JPG")), ".JPG");
    assert_eq!(extension_suffix(Some("tar")), ".tar");
    assert_eq!(extension_suffix(None), "");
}

#[test]
fn candidate_names_follow_probe_sequence() {
    assert_eq!(candidate_name("name", ".ext", 0), "name.ext");
    assert_eq!(candidate_name("name", ".ext", 1), "name1.ext");
    assert_eq!(candidate_name("name", ".ext", 12), "name12.ext");
    assert_eq!(candidate_name("name", "", 3), "name3");
}

#[test]
fn reads_capture_time_from_field_values() {
    let values = vec![b"2023:05:10 14:30:00".to_vec()];
    assert_eq!(capture_time_from_values(&values), Some(time(2023, 5, 10, 14, 30, 0)));
    let longer = vec![b"1999:12:31 23:59:58.25".to_vec(), b"2000:01:01 00:00:00".to_vec()];
    assert_eq!(capture_time_from_values(&longer), Some(time(1999, 12, 31, 23, 59, 58)));
}

#[test]
fn unusable_field_values_give_no_time() {
    assert_eq!(capture_time_from_values(&vec![]), None);
    assert_eq!(capture_time_from_values(&vec![b"    :  :     :  :  ".to_vec()]), None);
    assert_eq!(capture_time_from_values(&vec![b"                   ".to_vec()]), None);
    assert_eq!(capture_time_from_values(&vec![b"2023:05:10 14:30".to_vec()]), None);
    assert_eq!(capture_time_from_values(&vec![b"2023-05-10 14:30:00".to_vec()]), None);
    assert_eq!(capture_time_from_values(&vec![b"2023:05:1x 14:30:00".to_vec()]), None);
}

#[test]
fn field_ranges_are_not_checked() {
    let values = vec![b"2023:13:40 25:61:99".to_vec()];
    assert_eq!(capture_time_from_values(&values), Some(time(2023, 13, 40, 25, 61, 99)));
}

#[test]
fn extracts_capture_time_from_image_bytes() {
    let data = tiff_with_capture_time(b"2023:05:10 14:30:00");
    assert_eq!(extract_capture_time(&data), Some(time(2023, 5, 10, 14, 30, 0)));
}

#[test]
fn no_metadata_gives_no_time() {
    assert_eq!(extract_capture_time(b"plain text, not an image"), None);
    assert_eq!(extract_capture_time(&[]), None);
    let blank = tiff_with_capture_time(b"    :  :     :  :  ");
    assert_eq!(extract_capture_time(&blank), None);
}

#[test]
fn stem_joins_fields_with_underscores() {
    assert_eq!(time(2023, 5, 10, 14, 30, 0).stem(), "2023_5_10_14_30_0");
    assert_eq!(time(0, 0, 0, 0, 0, 0).stem(), "0_0_0_0_0_0");
}

#[test]
fn dated_directory_uses_raw_values() {
    assert_eq!(dated_dir(&time(2023, 5, 10, 14, 30, 0), '/'), "2023/5/10");
    assert_eq!(dated_dir(&time(2001, 12, 1, 0, 0, 0), '\\'), "2001\\12\\1");
}

#[test]
fn relative_directory_strips_root_and_separators() {
    assert_eq!(relative_dir("/src", "/src/misc", '/'), "misc");
    assert_eq!(relative_dir("/src", "/src/a/b", '/'), "a/b");
    assert_eq!(relative_dir("/src/", "/src/a/b/", '/'), "a/b");
    assert_eq!(relative_dir("/src", "/src", '/'), "");
    assert_eq!(relative_dir("/src", "/elsewhere/x", '/'), "elsewhere/x");
}

#[test]
fn mirrored_directory_is_under_other() {
    assert_eq!(mirrored_dir("/src", "/src/misc", '/'), "other/misc");
    assert_eq!(mirrored_dir("/src", "/src/a/b", '/'), "other/a/b");
    assert_eq!(mirrored_dir("/src", "/src", '/'), "other");
}

#[test]
fn scenario_dated_photo() {
    let values = vec![b"2023:05:10 14:30:00".to_vec()];
    let t = capture_time_from_values(&values);
    let p = plan_placement("/src", "/src/camera", "IMG_0001.jpg", Some("jpg"), t, '/');
    match p {
        Placement::Dated { dir, stem, suffix } => {
            assert_eq!(dir, "2023/5/10");
            let name = resolve_name(&stem, &suffix, &vec![], MAX_ATTEMPTS);
            assert_eq!(name, Some("2023_5_10_14_30_0.jpg".to_string()));
        }
        Placement::Mirrored { .. } => panic!("a dated file was mirrored"),
    }
}

#[test]
fn scenario_two_files_same_name() {
    let mut dir = listing(&[]);
    let first = resolve_name("name", ".ext", &dir, MAX_ATTEMPTS).unwrap();
    assert_eq!(first, "name.ext");
    dir.push(first);
    let second = resolve_name("name", ".ext", &dir, MAX_ATTEMPTS).unwrap();
    assert_eq!(second, "name1.ext");
}

#[test]
fn scenario_unclassified_document() {
    let p = plan_placement("/src", "/src/misc", "doc.txt", Some("txt"), None, '/');
    match p {
        Placement::Mirrored { dir, name } => {
            assert_eq!(dir, "other/misc");
            assert_eq!(name, "doc.txt");
        }
        Placement::Dated { .. } => panic!("a file without a time was dated"),
    }
}

#[test]
fn unclassified_file_at_root_goes_to_bucket() {
    let p = plan_placement("/src", "/src", "notes", None, None, '/');
    match p {
        Placement::Mirrored { dir, name } => {
            assert_eq!(dir, "other");
            assert_eq!(name, "notes");
        }
        Placement::Dated { .. } => panic!("a file without a time was dated"),
    }
}

#[test]
fn scenario_non_blank_target_refused() {
    assert_eq!(check_setup(true, false, true, false), Err(SetupError::TargetNotBlank));
}

#[test]
fn setup_decisions() {
    assert_eq!(check_setup(false, false, false, false), Err(SetupError::InvalidSource));
    assert_eq!(check_setup(true, true, false, false), Err(SetupError::BlankSource));
    assert_eq!(check_setup(true, false, true, true), Ok(TargetAction::UseExisting));
    assert_eq!(check_setup(true, false, false, false), Ok(TargetAction::Create));
}

#[test]
fn many_collisions_are_numbered_in_order() {
    let mut dir = listing(&["other.jpg"]);
    for k in 0..5u64 {
        let name = resolve_name("2020_1_1_0_0_0", ".jpg", &dir, MAX_ATTEMPTS).unwrap();
        assert_eq!(name, candidate_name("2020_1_1_0_0_0", ".jpg", k));
        assert!(!contains_name(&dir, &name));
        dir.push(name);
    }
    assert_eq!(dir[5], "2020_1_1_0_0_04.jpg");
}

#[test]
fn resolution_skips_to_first_gap() {
    let dir = listing(&["a.png", "a1.png", "a3.png"]);
    assert_eq!(resolve_name("a", ".png", &dir, MAX_ATTEMPTS), Some("a2.png".to_string()));
}

#[test]
fn resolution_is_repeatable_and_order_blind() {
    let a = listing(&["x.jpg", "x1.jpg", "y.jpg"]);
    let b = listing(&["y.jpg", "x1.jpg", "x.jpg", "x.jpg"]);
    let r1 = resolve_name("x", ".jpg", &a, MAX_ATTEMPTS);
    let r2 = resolve_name("x", ".jpg", &a, MAX_ATTEMPTS);
    let r3 = resolve_name("x", ".jpg", &b, MAX_ATTEMPTS);
    assert_eq!(r1, Some("x2.jpg".to_string()));
    assert_eq!(r1, r2);
    assert_eq!(r1, r3);
}

#[test]
fn resolution_gives_up_at_limit() {
    let dir = listing(&["b.gif", "b1.gif", "b2.gif"]);
    assert_eq!(resolve_name("b", ".gif", &dir, 3), None);
    assert_eq!(resolve_name("b", ".gif", &dir, 4), Some("b3.gif".to_string()));
    assert_eq!(resolve_name("b", ".gif", &listing(&[]), 0), None);
}

#[test]
fn summary_counts_outcomes() {
    let outcomes = vec![
        Outcome::Classified,
        Outcome::Unclassified,
        Outcome::Classified,
        Outcome::Failed,
        Outcome::Classified,
    ];
    let s = Summary::of(&outcomes);
    assert_eq!(s, Summary { classified: 3, unclassified: 1, failed: 1 });
    assert!(!s.all_placed());
    let empty = Summary::of(&vec![]);
    assert_eq!(empty, Summary { classified: 0, unclassified: 0, failed: 0 });
    assert!(empty.all_placed());
}

/// A little-endian TIFF whose Exif directory holds DateTimeOriginal as one
/// SHORT value instead of text.
fn tiff_with_numeric_capture_time() -> Vec<u8> {
    let mut d: Vec<u8> = vec![0x49, 0x49, 0x2A, 0x00, 0x08, 0x00, 0x00, 0x00];
    d.extend_from_slice(&[0x01, 0x00]);
    d.extend_from_slice(&[0x69, 0x87, 0x04, 0x00, 0x01, 0x00, 0x00, 0x00, 0x1A, 0x00, 0x00, 0x00]);
    d.extend_from_slice(&[0x00, 0x00, 0x00, 0x00]);
    d.extend_from_slice(&[0x01, 0x00]);
    d.extend_from_slice(&[0x03, 0x90, 0x03, 0x00, 0x01, 0x00, 0x00, 0x00, 0xE7, 0x07, 0x00, 0x00]);
    d.extend_from_slice(&[0x00, 0x00, 0x00, 0x00]);
    d
}

#[test]
fn non_text_capture_field_gives_no_time() {
    assert_eq!(extract_capture_time(&tiff_with_numeric_capture_time()), None);
}

#[test]
fn same_bytes_give_same_time() {
    let data = tiff_with_capture_time(b"2019:02:03 04:05:06");
    assert_eq!(extract_capture_time(&data), extract_capture_time(&data.clone()));
    assert_eq!(extract_capture_time(&data), Some(time(2019, 2, 3, 4, 5, 6)));
}
