//! Reading a file's capture time from the Exif metadata embedded in it.

use vstd::prelude::*;
use crate::timestamp::{CaptureTime, capture_time_from_values, capture_time_of_values};

verus! {

/// The ASCII values of the primary image's DateTimeOriginal field in the Exif
/// metadata of the image `data`: `None` where the container cannot be read or
/// is not a TIFF, JPEG, HEIF, PNG or WebP image, where the field is missing,
/// and where it holds values of another type. It depends on the bytes alone.
pub uninterp spec fn exif_capture_values(data: Seq<u8>) -> Option<Seq<Seq<u8>>>;

/// Relies on exif::Reader::read_from_container, which parses the Exif
/// attributes of an image held in memory (an error becomes `None`), and on
/// exif::Exif::get_field, which looks up the primary image's DateTimeOriginal
/// field; only its ASCII values are kept.
#[verifier::external_body]
fn capture_field_values(data: &[u8]) -> (r: Option<Vec<Vec<u8>>>)
    ensures
        match r {
            Some(v) => exif_capture_values(data@) == Some(v.deep_view()),
            None => exif_capture_values(data@) is None,
        },
{
    let exif = exif::Reader::new().read_from_container(&mut std::io::Cursor::new(data)).ok()?;
    match &exif.get_field(exif::Tag::DateTimeOriginal, exif::In::PRIMARY)?.value {
        exif::Value::Ascii(values) => Some(values.clone()),
        _ => None,
    }
}

/// The capture time that an image's metadata gives: read from the first
/// ASCII value of the primary image's DateTimeOriginal field, and absent
/// where there is no such value or it is malformed.
pub open spec fn capture_time_of_image(data: Seq<u8>) -> Option<CaptureTime> {
    match exif_capture_values(data) {
        Some(v) => capture_time_of_values(v),
        None => None,
    }
}

/// Reads the capture time of an image from its bytes. Missing, corrupt or
/// malformed metadata gives `None`.
pub fn extract_capture_time(data: &[u8]) -> (r: Option<CaptureTime>)
    ensures
        r == capture_time_of_image(data@),
{
    match capture_field_values(data) {
        Some(values) => capture_time_from_values(&values),
        None => None,
    }
}

/// The capture time depends on the bytes alone: two images with the same
/// bytes give the same result, and bytes in which no date-time field can be
/// found give none.
pub proof fn lemma_capture_time_by_bytes(a: Seq<u8>, b: Seq<u8>)
    requires
        a == b,
    ensures
        capture_time_of_image(a) == capture_time_of_image(b),
        exif_capture_values(a) is None ==> capture_time_of_image(a) is None,
{
}

} // verus!
