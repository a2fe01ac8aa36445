//! Capture timestamps: the six fields that a photo's metadata records, how
//! they are read from an Exif date-time value, and the stem they give a file.

use vstd::prelude::*;
use crate::naming::{decimal, push_decimal};

verus! {

/// When a picture was taken, as recorded in its metadata. No time zone; the
/// fields are used verbatim and are not checked for range.
#[derive(Clone, Copy, Debug, PartialEq, Eq, Structural)]
pub struct CaptureTime {
    pub year: u16,
    pub month: u8,
    pub day: u8,
    pub hour: u8,
    pub minute: u8,
    pub second: u8,
}

pub open spec fn is_digit_byte(c: u8) -> bool {
    48 <= c <= 57
}

/// Every byte of `d[lo..hi]` is a decimal digit.
pub open spec fn digits_in(d: Seq<u8>, lo: int, hi: int) -> bool {
    forall|k: int| lo <= k < hi ==> is_digit_byte(#[trigger] d[k])
}

/// The number written by the digits `d[lo..hi]`.
pub open spec fn number_in(d: Seq<u8>, lo: int, hi: int) -> nat
    decreases hi - lo,
{
    if hi <= lo {
        0
    } else {
        number_in(d, lo, hi - 1) * 10 + (d[hi - 1] - 48) as nat
    }
}

/// The capture time that an Exif date-time value `YYYY:MM:DD HH:MM:SS`
/// states: `None` when it is shorter, a delimiter is wrong or a field holds
/// anything but digits (which includes the blank forms of the value).
pub open spec fn exif_date_time_of(d: Seq<u8>) -> Option<CaptureTime> {
    if d.len() >= 19 && d[4] == 58u8 && d[7] == 58u8 && d[10] == 32u8 && d[13] == 58u8
        && d[16] == 58u8 && digits_in(d, 0, 4) && digits_in(d, 5, 7) && digits_in(d, 8, 10)
        && digits_in(d, 11, 13) && digits_in(d, 14, 16) && digits_in(d, 17, 19) {
        Some(
            CaptureTime {
                year: number_in(d, 0, 4) as u16,
                month: number_in(d, 5, 7) as u8,
                day: number_in(d, 8, 10) as u8,
                hour: number_in(d, 11, 13) as u8,
                minute: number_in(d, 14, 16) as u8,
                second: number_in(d, 17, 19) as u8,
            },
        )
    } else {
        None
    }
}

/// Relies on exif::DateTime::from_ascii: it accepts a value of at least
/// nineteen bytes with `:` `:` ` ` `:` `:` at offsets 4, 7, 10, 13, 16 and
/// digits elsewhere in the first nineteen, and reads the six numbers.
#[verifier::external_body]
fn parse_exif_date_time(data: &[u8]) -> (r: Option<CaptureTime>)
    ensures
        r == exif_date_time_of(data@),
{
    match exif::DateTime::from_ascii(data) {
        Ok(t) => Some(
            CaptureTime {
                year: t.year,
                month: t.month,
                day: t.day,
                hour: t.hour,
                minute: t.minute,
                second: t.second,
            },
        ),
        Err(_) => None,
    }
}

/// The capture time carried by the ASCII values of a date-time field: read
/// from the first value, and absent when there is none.
pub open spec fn capture_time_of_values(values: Seq<Seq<u8>>) -> Option<CaptureTime> {
    if values.len() == 0 {
        None
    } else {
        exif_date_time_of(values[0])
    }
}

/// Reads the capture time from the ASCII values of a date-time field.
pub fn capture_time_from_values(values: &Vec<Vec<u8>>) -> (r: Option<CaptureTime>)
    ensures
        r == capture_time_of_values(values.deep_view()),
{
    assert(values.deep_view().len() == values@.len());
    if values.len() == 0 {
        None
    } else {
        assert(values.deep_view()[0] =~= values@[0]@);
        parse_exif_date_time(values[0].as_slice())
    }
}

/// The stem of a classified file: the six fields joined by underscores.
pub open spec fn stem_of(t: CaptureTime) -> Seq<char> {
    decimal(t.year as nat) + seq!['_'] + decimal(t.month as nat) + seq!['_'] + decimal(
        t.day as nat,
    ) + seq!['_'] + decimal(t.hour as nat) + seq!['_'] + decimal(t.minute as nat) + seq!['_']
        + decimal(t.second as nat)
}

impl CaptureTime {
    /// Builds the stem `year_month_day_hour_minute_second`.
    pub fn stem(&self) -> (r: String)
        ensures
            r@ == stem_of(*self),
    {
        proof {
            reveal_strlit("_");
        }
        let mut r = String::new();
        push_decimal(&mut r, self.year as u64);
        r.append("_");
        push_decimal(&mut r, self.month as u64);
        r.append("_");
        push_decimal(&mut r, self.day as u64);
        r.append("_");
        push_decimal(&mut r, self.hour as u64);
        r.append("_");
        push_decimal(&mut r, self.minute as u64);
        r.append("_");
        push_decimal(&mut r, self.second as u64);
        assert(r@ =~= stem_of(*self));
        r
    }
}

} // verus!
