//! The local wall-clock timestamp prefixed to every rendered line.

use vstd::prelude::*;

use crate::text::{dec_padded, push_dec_padded};

verus! {

/// Local calendar fields of one instant: year, month, day, hour, minute,
/// second.
pub struct ClockFields {
    pub year: i16,
    pub month: i8,
    pub day: i8,
    pub hour: i8,
    pub minute: i8,
    pub second: i8,
}

/// The ranges jiff documents for civil date-time fields.
pub open spec fn fields_in_range(f: ClockFields) -> bool {
    &&& -9999 <= f.year <= 9999
    &&& 1 <= f.month <= 12
    &&& 1 <= f.day <= 31
    &&& 0 <= f.hour <= 23
    &&& 0 <= f.minute <= 59
    &&& 0 <= f.second <= 59
}

/// The current instant in the machine's local time zone:
/// `jiff::Zoned::now()`, read field by field. The instant depends on the
/// clock and the zone on the environment and disk, so only the documented
/// field ranges are stated.
#[verifier::external_body]
fn local_now() -> (f: ClockFields)
    ensures
        fields_in_range(f),
{
    let now = jiff::Zoned::now();
    ClockFields {
        year: now.year(),
        month: now.month(),
        day: now.day(),
        hour: now.hour(),
        minute: now.minute(),
        second: now.second(),
    }
}

/// A year as `{:04}` renders it: four characters including a sign.
pub open spec fn year_text(y: int) -> Seq<char> {
    if y < 0 {
        seq!['-'] + dec_padded((-y) as nat, 3)
    } else {
        dec_padded(y as nat, 4)
    }
}

/// `yyyy-mm-dd HH:MM:SS` for the given fields.
pub open spec fn timestamp_text(f: ClockFields) -> Seq<char> {
    year_text(f.year as int) + seq!['-'] + dec_padded(f.month as nat, 2) + seq!['-'] + dec_padded(
        f.day as nat,
        2,
    ) + seq![' '] + dec_padded(f.hour as nat, 2) + seq![':'] + dec_padded(f.minute as nat, 2)
        + seq![':'] + dec_padded(f.second as nat, 2)
}

/// A text is a rendered timestamp.
pub open spec fn is_timestamp(s: Seq<char>) -> bool {
    exists|f: ClockFields| fields_in_range(f) && s == timestamp_text(f)
}

/// Format calendar fields as `yyyy-mm-dd HH:MM:SS`.
pub fn format_timestamp(f: &ClockFields) -> (out: String)
    requires
        fields_in_range(*f),
    ensures
        out@ == timestamp_text(*f),
{
    let mut out = String::new();
    if f.year < 0 {
        out.push('-');
        push_dec_padded(&mut out, (-(f.year as i32)) as u64, 3);
        assert(out@ =~= year_text(f.year as int));
    } else {
        push_dec_padded(&mut out, f.year as u64, 4);
    }
    out.push('-');
    push_dec_padded(&mut out, f.month as u64, 2);
    out.push('-');
    push_dec_padded(&mut out, f.day as u64, 2);
    out.push(' ');
    push_dec_padded(&mut out, f.hour as u64, 2);
    out.push(':');
    push_dec_padded(&mut out, f.minute as u64, 2);
    out.push(':');
    push_dec_padded(&mut out, f.second as u64, 2);
    assert(out@ =~= timestamp_text(*f));
    out
}

/// Local wall-clock time as `yyyy-mm-dd HH:MM:SS`, taken at write time.
pub fn timestamp() -> (out: String)
    ensures
        is_timestamp(out@),
{
    let f = local_now();
    let out = format_timestamp(&f);
    assert(fields_in_range(f) && out@ == timestamp_text(f));
    out
}

} // verus!
