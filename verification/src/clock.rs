//! The wall clock.
use std::time::{SystemTime, UNIX_EPOCH};
use vstd::prelude::*;

verus! {

/// `std::time::SystemTime`.
#[verifier::external_type_specification]
#[verifier::external_body]
pub struct ExSystemTime(SystemTime);

/// A time after the UNIX epoch: whole seconds, and the nanoseconds beyond them.
#[derive(Clone, Copy, Debug, PartialEq, Eq, Structural)]
pub struct Reading {
    pub secs: u64,
    pub nanos: u32,
}

/// The clock shows a time before the UNIX epoch.
#[derive(Clone, Copy, Debug, PartialEq, Eq, Structural)]
pub struct ClockError;

/// `SystemTime::now`: the time that the clock shows, of which nothing is claimed.
#[verifier::external_body]
fn now() -> SystemTime {
    SystemTime::now()
}

/// `SystemTime::duration_since` of the UNIX epoch: how far the time lies behind it, or nothing
/// where it lies before. The nanoseconds make up less than a second; nothing else is claimed.
#[verifier::external_body]
fn since_epoch(time: SystemTime) -> (reading: Option<Reading>)
    ensures
        reading is Some ==> reading->0.nanos < 1_000_000_000,
{
    let elapsed = time.duration_since(UNIX_EPOCH).ok()?;
    Some(Reading { secs: elapsed.as_secs(), nanos: elapsed.subsec_nanos() })
}

/// The whole milliseconds of a reading.
pub open spec fn reading_millis(reading: Reading) -> int {
    reading.secs * 1_000 + reading.nanos as int / 1_000_000
}

/// The whole microseconds of a reading.
pub open spec fn reading_micros(reading: Reading) -> int {
    reading.secs * 1_000_000 + reading.nanos as int / 1_000
}

/// Whether a clock can show that: the nanoseconds make up less than a second.
pub open spec fn is_reading(reading: Option<Reading>) -> bool {
    reading is Some ==> reading->0.nanos < 1_000_000_000
}

/// The milliseconds since the UNIX epoch, in 64 bits, unless the clock is before it.
pub open spec fn timestamp_of(reading: Option<Reading>) -> Result<u64, ClockError> {
    match reading {
        Some(reading) => Ok((reading_millis(reading) % 0x1_0000_0000_0000_0000) as u64),
        None => Err(ClockError),
    }
}

/// The milliseconds since the UNIX epoch, in 64 bits, or zero where the clock is before it.
pub open spec fn timestamp_or_zero(reading: Option<Reading>) -> u64 {
    match timestamp_of(reading) {
        Ok(timestamp) => timestamp,
        Err(_) => 0,
    }
}

/// The microseconds since the UNIX epoch, or zero where the clock is before it.
pub open spec fn micros_of(reading: Option<Reading>) -> u128 {
    match reading {
        Some(reading) => reading_micros(reading) as u128,
        None => 0,
    }
}

/// The milliseconds of a reading since the UNIX epoch.
pub fn checked_timestamp(reading: Option<Reading>) -> (timestamp: Result<u64, ClockError>)
    ensures
        timestamp == timestamp_of(reading),
{
    match reading {
        Some(reading) => {
            let millis: u128 = (reading.secs as u128) * 1_000 + (reading.nanos as u128) / 1_000_000;
            Ok((millis % 0x1_0000_0000_0000_0000) as u64)
        },
        None => Err(ClockError),
    }
}

/// The milliseconds of a reading since the UNIX epoch, or zero where it is before it.
pub fn millis_or_zero(reading: Option<Reading>) -> (millis: u64)
    ensures
        millis == timestamp_or_zero(reading),
{
    match checked_timestamp(reading) {
        Ok(timestamp) => timestamp,
        Err(_) => 0,
    }
}

/// The microseconds of a reading since the UNIX epoch, or zero where it is before it.
pub fn micros_or_zero(reading: Option<Reading>) -> (micros: u128)
    ensures
        micros == micros_of(reading),
{
    match reading {
        Some(reading) => (reading.secs as u128) * 1_000_000 + (reading.nanos as u128) / 1_000,
        None => 0,
    }
}

/// Whether the clock gave that reading: it is what [`since_epoch`] made of a time that [`now`]
/// returned. Only a reading that was taken is known to be one.
pub closed spec fn is_shown(reading: Option<Reading>) -> bool {
    exists|time: SystemTime|
        call_ensures(now, (), time) && call_ensures(since_epoch, (time,), reading)
}

/// Whether the clock gave that time in milliseconds, zero standing for one before the UNIX epoch.
pub open spec fn is_time_ms(timestamp: u64) -> bool {
    exists|reading: Option<Reading>| #[trigger]
        is_shown(reading) && is_reading(reading) && timestamp == timestamp_or_zero(reading)
}

/// Whether the clock gave that time in microseconds, zero standing for one before the UNIX epoch.
pub open spec fn is_time_micros(micros: u128) -> bool {
    exists|reading: Option<Reading>| #[trigger]
        is_shown(reading) && is_reading(reading) && micros == micros_of(reading)
}

/// What the clock shows.
pub fn read_clock() -> (reading: Option<Reading>)
    ensures
        is_reading(reading),
        is_shown(reading),
{
    since_epoch(now())
}

/// The time in milliseconds since the UNIX epoch, or zero where the clock is before it.
pub fn current_timestamp_ms() -> (timestamp: u64)
    ensures
        exists|reading: Option<Reading>|
            is_reading(reading) && timestamp == #[trigger] timestamp_or_zero(reading),
        is_time_ms(timestamp),
{
    let reading = read_clock();
    assert(is_reading(reading) && is_shown(reading));
    millis_or_zero(reading)
}

/// The time in microseconds since the UNIX epoch, or zero where the clock is before it.
pub fn current_micros() -> (micros: u128)
    ensures
        exists|reading: Option<Reading>|
            is_reading(reading) && micros == #[trigger] micros_of(reading),
        is_time_micros(micros),
{
    let reading = read_clock();
    assert(is_reading(reading) && is_shown(reading));
    micros_or_zero(reading)
}

/// A timestamp counts the whole milliseconds that have passed since the UNIX epoch: so many have,
/// and one more has not. There is none where the clock is before it, and zero stands for that.
pub proof fn timestamps_count_milliseconds(reading: Reading)
    requires
        reading.nanos < 1_000_000_000,
        reading.secs * 1_000 + 999 <= u64::MAX,
    ensures
        timestamp_of(Some(reading)) is Ok,
        ({
            let timestamp = timestamp_of(Some(reading))->Ok_0;
            let nanos = reading.secs * 1_000_000_000 + reading.nanos;
            &&& timestamp * 1_000_000 <= nanos < (timestamp + 1) * 1_000_000
            &&& timestamp_or_zero(Some(reading)) == timestamp
        }),
        timestamp_of(None) == Err::<u64, ClockError>(ClockError),
        timestamp_or_zero(None) == 0,
{
}

/// Of two readings whose milliseconds fit into 64 bits, the later one has no lower timestamp.
pub proof fn timestamps_follow_the_clock(first: Reading, second: Reading)
    requires
        first.nanos < 1_000_000_000,
        second.nanos < 1_000_000_000,
        second.secs * 1_000 + 999 <= u64::MAX,
        first.secs * 1_000_000_000 + first.nanos <= second.secs * 1_000_000_000 + second.nanos,
    ensures
        timestamp_or_zero(Some(first)) <= timestamp_or_zero(Some(second)),
        micros_of(Some(first)) <= micros_of(Some(second)),
{
}

/// The microseconds of a reading are those that have passed since the UNIX epoch: so many have, and
/// one more has not. Zero stands for a clock before it.
pub proof fn readings_count_microseconds(reading: Reading)
    requires
        reading.nanos < 1_000_000_000,
    ensures
        ({
            let micros = micros_of(Some(reading));
            let nanos = reading.secs * 1_000_000_000 + reading.nanos;
            micros * 1_000 <= nanos < (micros + 1) * 1_000
        }),
        micros_of(None) == 0,
{
}

/// Whether a time in milliseconds is that of a reading that the clock gave: so many whole milliseconds
/// have passed since the UNIX epoch, and one more has not, or zero stands for a clock before it.
pub open spec fn tells_the_time(timestamp: u64) -> bool {
    exists|reading: Option<Reading>| #[trigger]
        is_shown(reading) && match reading {
            Some(reading) => reading.secs * 1_000 + 999 <= u64::MAX ==> timestamp * 1_000_000
                <= reading.secs * 1_000_000_000 + reading.nanos < (timestamp + 1) * 1_000_000,
            None => timestamp == 0,
        }
}

/// A time in milliseconds that the clock gave tells the time.
pub proof fn given_times_tell_the_time(timestamp: u64)
    requires
        is_time_ms(timestamp),
    ensures
        tells_the_time(timestamp),
{
    let reading = choose|reading: Option<Reading>| #[trigger]
        is_shown(reading) && is_reading(reading) && timestamp == timestamp_or_zero(reading);
    if let Some(r) = reading {
        if r.secs * 1_000 + 999 <= u64::MAX {
            timestamps_count_milliseconds(r);
        }
    }
    assert(is_shown(reading));
}

} // verus!
