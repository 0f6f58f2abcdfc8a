//! Wall-clock values as plain numbers: the time of day, its bucket, and the
//! date and time texts that the protocol and the snapshots carry.
use vstd::prelude::*;
use crate::text::{ascii_string, ascii_text, is_ascii_bytes, lemma_padded_ascii, padded_digits, push_padded};

verus! {

/// A time of day.
#[derive(Clone, Copy, Debug, PartialEq, Eq, Structural)]
pub struct ClockTime {
    pub hour: u8,
    pub minute: u8,
    pub second: u8,
}

/// A calendar date.
#[derive(Clone, Copy, Debug, PartialEq, Eq, Structural)]
pub struct CalendarDate {
    pub year: u16,
    pub month: u8,
    pub day: u8,
}

/// Width of a history bucket, in seconds.
pub const BUCKET_SECONDS: u32 = 30;

pub open spec fn valid_time(t: ClockTime) -> bool {
    t.hour < 24 && t.minute < 60 && t.second < 60
}

pub open spec fn seconds_of_day(t: ClockTime) -> nat {
    t.hour as nat * 3600 + t.minute as nat * 60 + t.second as nat
}

/// `HH:MM:SS`.
pub open spec fn clock_text(t: ClockTime) -> Seq<u8> {
    padded_digits(t.hour as nat, 2) + seq![0x3Au8] + padded_digits(t.minute as nat, 2) + seq![
        0x3Au8,
    ] + padded_digits(t.second as nat, 2)
}

/// `YYYYMMDD`.
pub open spec fn date_digits(d: CalendarDate) -> Seq<u8> {
    padded_digits(d.year as nat, 4) + padded_digits(d.month as nat, 2) + padded_digits(
        d.day as nat,
        2,
    )
}

/// The bucket of the day that a time falls in.
pub fn bucket_index(t: ClockTime, bucket_seconds: u32) -> (r: u32)
    requires
        valid_time(t),
        bucket_seconds > 0,
    ensures
        r == seconds_of_day(t) / (bucket_seconds as nat),
{
    let secs: u32 = (t.hour as u32) * 3600 + (t.minute as u32) * 60 + (t.second as u32);
    secs / bucket_seconds
}

/// Appends the digits of a date, `YYYYMMDD`.
pub fn push_date(out: &mut Vec<u8>, d: CalendarDate)
    ensures
        final(out)@ == old(out)@ + date_digits(d),
{
    push_padded(out, d.year as u64, 4);
    push_padded(out, d.month as u64, 2);
    push_padded(out, d.day as u64, 2);
    assert(final(out)@ =~= old(out)@ + date_digits(d));
}

/// The time of day as `HH:MM:SS`.
pub fn format_clock(t: ClockTime) -> (r: String)
    ensures
        r@ == ascii_text(clock_text(t)),
{
    let mut out: Vec<u8> = Vec::new();
    push_padded(&mut out, t.hour as u64, 2);
    out.push(0x3Au8);
    push_padded(&mut out, t.minute as u64, 2);
    out.push(0x3Au8);
    push_padded(&mut out, t.second as u64, 2);
    assert(out@ =~= clock_text(t));
    proof {
        lemma_padded_ascii(t.hour as nat, 2);
        lemma_padded_ascii(t.minute as nat, 2);
        lemma_padded_ascii(t.second as nat, 2);
        assert(is_ascii_bytes(clock_text(t)));
    }
    ascii_string(out.as_slice())
}

} // verus!
