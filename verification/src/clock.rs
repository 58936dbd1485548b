//! Wall-clock time and the `[HH:MM]` stamps shown beside chat lines.

use vstd::prelude::*;
use std::time::Duration;
use std::time::SystemTime;
use crate::text::{digit_char, digit_to_char, digits_value, lemma_digit_char, string_of};

verus! {

#[verifier::external_type_specification]
#[verifier::external_body]
pub struct ExSystemTime(SystemTime);

/// The current time of the system clock: `SystemTime::now`. Nothing is
/// stated of it: it is whatever the clock reads.
#[verifier::external_body]
fn system_now() -> SystemTime {
    SystemTime::now()
}

/// The time elapsed from the Unix epoch to `t`: `SystemTime::duration_since`
/// with `UNIX_EPOCH`, `None` where `t` lies before the epoch. Nothing is
/// stated of the duration: it depends on the clock.
#[verifier::external_body]
fn since_epoch(t: &SystemTime) -> Option<Duration> {
    match t.duration_since(std::time::UNIX_EPOCH) {
        Ok(d) => Some(d),
        Err(_) => None,
    }
}

/// The whole seconds of a duration: `Duration::as_secs`. `Duration` is
/// opaque here, so nothing is stated of the number.
#[verifier::external_body]
fn whole_seconds(d: &Duration) -> u64 {
    d.as_secs()
}

/// Seconds since the Unix epoch by the system clock; `None` when the clock
/// is set before the epoch.
pub fn unix_seconds() -> Option<u64> {
    let now = system_now();
    match since_epoch(&now) {
        Some(d) => Some(whole_seconds(&d)),
        None => None,
    }
}

/// `n < 100` written with two digits, a leading zero where needed, as
/// `{:02}` writes it.
pub open spec fn two_digits(n: nat) -> Seq<char> {
    seq![digit_char(n / 10), digit_char(n % 10)]
}

/// The hour of the day (UTC) at `secs` seconds after the epoch.
pub open spec fn clock_hours(secs: nat) -> nat {
    (secs / 3600) % 24
}

/// The minute of the hour at `secs` seconds after the epoch.
pub open spec fn clock_minutes(secs: nat) -> nat {
    (secs / 60) % 60
}

/// The stamp `[HH:MM]` for `secs` seconds after the epoch.
pub open spec fn clock_text(secs: nat) -> Seq<char> {
    seq!['['] + two_digits(clock_hours(secs)) + seq![':'] + two_digits(clock_minutes(secs))
        + seq![']']
}

/// The stamp `[HH:MM]` for `secs` seconds after the Unix epoch.
pub fn format_clock(secs: u64) -> (r: String)
    ensures
        r@ == clock_text(secs as nat),
{
    let hours = (secs / 3600) % 24;
    let minutes = (secs / 60) % 60;
    let mut v: Vec<char> = Vec::new();
    v.push('[');
    v.push(digit_to_char((hours / 10) as u8));
    v.push(digit_to_char((hours % 10) as u8));
    v.push(':');
    v.push(digit_to_char((minutes / 10) as u8));
    v.push(digit_to_char((minutes % 10) as u8));
    v.push(']');
    assert(v@ =~= clock_text(secs as nat));
    string_of(&v)
}

/// The stamp `[HH:MM]` for the current time; `None` when the system clock is
/// set before the Unix epoch.
pub fn get_timestamp() -> (r: Option<String>)
    ensures
        r matches Some(t) ==> exists|secs: u64| t@ == clock_text(secs as nat),
{
    match unix_seconds() {
        Some(secs) => Some(format_clock(secs)),
        None => None,
    }
}

/// A stamp is seven characters, `[`, two digits, `:`, two digits, `]`,
/// and its fields read back as an hour below 24 and a minute below 60.
pub proof fn lemma_clock_text(secs: nat)
    ensures
        clock_text(secs).len() == 7,
        clock_text(secs)[0] == '[',
        clock_text(secs)[3] == ':',
        clock_text(secs)[6] == ']',
        digits_value(clock_text(secs).subrange(1, 3)) == clock_hours(secs),
        digits_value(clock_text(secs).subrange(4, 6)) == clock_minutes(secs),
        clock_hours(secs) < 24,
        clock_minutes(secs) < 60,
{
    let h = clock_hours(secs);
    let m = clock_minutes(secs);
    let t = clock_text(secs);
    lemma_digit_char(h / 10);
    lemma_digit_char(h % 10);
    lemma_digit_char(m / 10);
    lemma_digit_char(m % 10);
    let hs = t.subrange(1, 3);
    let ms = t.subrange(4, 6);
    assert(hs =~= two_digits(h));
    assert(ms =~= two_digits(m));
    assert(hs.drop_last().drop_last() =~= Seq::<char>::empty());
    assert(ms.drop_last().drop_last() =~= Seq::<char>::empty());
    assert(digits_value(Seq::<char>::empty()) == 0);
    assert(hs.drop_last().last() == digit_char(h / 10));
    assert(ms.drop_last().last() == digit_char(m / 10));
    assert(digits_value(hs.drop_last()) == h / 10);
    assert(digits_value(ms.drop_last()) == m / 10);
}

} // verus!
