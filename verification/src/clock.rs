//! Wall-clock readings and their textual renderings: the log stamp
//! `YYYY-MM-DD HH:MM:SS` and the archive naming convention
//! `<dest>_<YYMMDDHH>.zip`.
use vstd::prelude::*;

use chrono::Datelike;
use chrono::Timelike;

verus! {

use vstd::string::StringExecFns;
use crate::text::{dec_seq, u32_to_dec, push_char};

/// One reading of the local wall clock: the seconds value orders
/// readings; the calendar fields render them.
pub struct ClockReading {
    /// Seconds of the local-naive time since the epoch; due-ness
    /// arithmetic runs on this field alone.
    pub epoch_seconds: i64,
    pub year: i32,
    pub month: u32,
    pub day: u32,
    pub hour: u32,
    pub minute: u32,
    pub second: u32,
}

/// The calendar fields lie in their usual ranges.
pub open spec fn wf_clock(c: ClockReading) -> bool {
    &&& 1 <= c.month <= 12
    &&& 1 <= c.day <= 31
    &&& c.hour <= 23
    &&& c.minute <= 59
    &&& c.second <= 59
}

/// Relies on chrono: one `Local::now().naive_local()` reading, taken
/// apart with `and_utc().timestamp()` and the `Datelike`/`Timelike`
/// accessors `year`, `month`, `day`, `hour`, `minute` and `second`.
/// chrono documents month in 1..=12, day in 1..=31, hour below 24,
/// minute below 60 and second below 60 (a leap second lives in the
/// sub-second field, which is not read). chrono's `now` panics on a
/// system clock set before the Unix epoch; this wrapper inherits
/// that, as no argument can exclude an environment.
#[verifier::external_body]
fn local_now_reading() -> (r: ClockReading)
    ensures
        wf_clock(r),
{
    let t = chrono::Local::now().naive_local();
    ClockReading {
        epoch_seconds: t.and_utc().timestamp(),
        year: t.year(),
        month: t.month(),
        day: t.day(),
        hour: t.hour(),
        minute: t.minute(),
        second: t.second(),
    }
}

/// Read the local wall clock.
pub fn now_reading() -> (r: ClockReading)
    ensures
        wf_clock(r),
{
    local_now_reading()
}

/// A two-digit zero-padded rendering; numbers of three or more digits
/// keep all of them.
pub open spec fn pad2_spec(n: nat) -> Seq<char> {
    if n < 10 {
        seq!['0'] + dec_seq(n)
    } else {
        dec_seq(n)
    }
}

/// A four-digit zero-padded rendering for years 0..=9999.
pub open spec fn pad4_spec(n: nat) -> Seq<char> {
    if n < 10 {
        seq!['0', '0', '0'] + dec_seq(n)
    } else if n < 100 {
        seq!['0', '0'] + dec_seq(n)
    } else if n < 1000 {
        seq!['0'] + dec_seq(n)
    } else {
        dec_seq(n)
    }
}

/// Years outside the four-digit range render as its nearest bound.
pub open spec fn clamp_year_spec(y: int) -> nat {
    if y < 0 {
        0
    } else if y > 9999 {
        9999
    } else {
        y as nat
    }
}

/// The log-stamp rendering of a reading.
pub open spec fn stamp_spec(c: ClockReading) -> Seq<char> {
    pad4_spec(clamp_year_spec(c.year as int)) + seq!['-'] + pad2_spec(c.month as nat) + seq!['-']
        + pad2_spec(c.day as nat) + seq![' '] + pad2_spec(c.hour as nat) + seq![':'] + pad2_spec(
        c.minute as nat,
    ) + seq![':'] + pad2_spec(c.second as nat)
}

/// The archive name a reading gives a destination:
/// `<dest>_<YYMMDDHH>.zip`.
pub open spec fn archive_name_spec(dest: Seq<char>, c: ClockReading) -> Seq<char> {
    dest + seq!['_'] + pad2_spec(clamp_year_spec(c.year as int) % 100) + pad2_spec(c.month as nat)
        + pad2_spec(c.day as nat) + pad2_spec(c.hour as nat) + ".zip"@
}

fn push_pad2(s: &mut String, n: u32)
    ensures
        final(s)@ == old(s)@ + pad2_spec(n as nat),
{
    if n < 10 {
        push_char(s, '0');
    }
    let d = u32_to_dec(n);
    s.append(d.as_str());
    proof {
        assert(final(s)@ =~= old(s)@ + pad2_spec(n as nat));
    }
}

fn push_pad4(s: &mut String, n: u32)
    requires
        n <= 9999,
    ensures
        final(s)@ == old(s)@ + pad4_spec(n as nat),
{
    if n < 10 {
        push_char(s, '0');
        push_char(s, '0');
        push_char(s, '0');
    } else if n < 100 {
        push_char(s, '0');
        push_char(s, '0');
    } else if n < 1000 {
        push_char(s, '0');
    }
    let d = u32_to_dec(n);
    s.append(d.as_str());
    proof {
        assert(final(s)@ =~= old(s)@ + pad4_spec(n as nat));
    }
}

/// Clamp a year into the four-digit range.
fn clamp_year(y: i32) -> (r: u32)
    ensures
        r as nat == clamp_year_spec(y as int),
{
    if y < 0 {
        0
    } else if y > 9999 {
        9999
    } else {
        y as u32
    }
}

/// Render a reading as a log stamp, `YYYY-MM-DD HH:MM:SS`.
pub fn format_stamp(c: &ClockReading) -> (r: String)
    ensures
        r@ == stamp_spec(*c),
{
    let mut s = String::new();
    push_pad4(&mut s, clamp_year(c.year));
    push_char(&mut s, '-');
    push_pad2(&mut s, c.month);
    push_char(&mut s, '-');
    push_pad2(&mut s, c.day);
    push_char(&mut s, ' ');
    push_pad2(&mut s, c.hour);
    push_char(&mut s, ':');
    push_pad2(&mut s, c.minute);
    push_char(&mut s, ':');
    push_pad2(&mut s, c.second);
    proof {
        assert(s@ =~= stamp_spec(*c));
    }
    s
}

/// The archive file a run writes beside the destination: the
/// destination path, an underscore, the reading as `YYMMDDHH`, and the
/// `.zip` ending. An existing file of that name is replaced.
pub fn archive_zip_name(dest: &str, c: &ClockReading) -> (r: String)
    ensures
        r@ == archive_name_spec(dest@, *c),
{
    let mut s = String::from_str(dest);
    push_char(&mut s, '_');
    let y = clamp_year(c.year);
    push_pad2(&mut s, y % 100);
    push_pad2(&mut s, c.month);
    push_pad2(&mut s, c.day);
    push_pad2(&mut s, c.hour);
    s.append(".zip");
    proof {
        assert(s@ =~= archive_name_spec(dest@, *c));
    }
    s
}

} // verus!
