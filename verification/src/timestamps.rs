//! Timestamp arithmetic: extending a Unix timestamp by calendar offsets,
//! applied step by step exactly as callers expect, and the deadline check
//! built on it.
use vstd::prelude::*;
use crate::common_error::CommonError;

verus! {

/// The unit a timestamp is given in.
#[derive(Clone, Copy, Debug, Default, Hash, PartialEq, Eq, PartialOrd, Ord)]
pub enum Unit {
    #[default]
    Seconds,
    Milliseconds,
}

/// The extension applied in full, in milliseconds, over the integers.
pub open spec fn extended_ms(
    base: int,
    years: int,
    months: int,
    days: int,
    hours: int,
    minutes: int,
    seconds: int,
    milliseconds: int,
) -> int {
    base + years * 31_536_000_000 + months * 2_592_000_000 + days * 86_400_000 + hours * 3_600_000
        + minutes * 60_000 + seconds * 1_000 + milliseconds
}

/// Does every intermediate value stay in range, the offsets being applied in
/// their fixed order?
pub open spec fn extension_fits(
    base: int,
    years: int,
    months: int,
    days: int,
    hours: int,
    minutes: int,
    seconds: int,
    milliseconds: int,
) -> bool {
    let v1 = base + years * 31_536_000_000;
    let v2 = v1 + months * 2_592_000_000;
    let v3 = v2 + days * 86_400_000;
    let v4 = v3 + hours * 3_600_000;
    let v5 = v4 + minutes * 60_000;
    let v6 = v5 + seconds * 1_000;
    let v7 = v6 + milliseconds;
    &&& 0 <= v1 <= u64::MAX
    &&& 0 <= v2 <= u64::MAX
    &&& 0 <= v3 <= u64::MAX
    &&& 0 <= v4 <= u64::MAX
    &&& 0 <= v5 <= u64::MAX
    &&& 0 <= v6 <= u64::MAX
    &&& 0 <= v7 <= u64::MAX
}

/// Relies on `std::time::SystemTime`: the milliseconds since the Unix epoch,
/// or `None` when the clock stands before the epoch or beyond what a `u64`
/// holds. The result depends on the clock, so nothing is promised of it.
#[verifier::external_body]
fn now_unix_millis() -> Option<u64> {
    std::time::SystemTime::now().duration_since(std::time::UNIX_EPOCH).ok().and_then(
        |d| u64::try_from(d.as_millis()).ok(),
    )
}

/// Extend a millisecond timestamp by the offsets, applied in their fixed
/// order; `None` as soon as one step leaves the range of a `u64`.
pub fn extend_timestamp_ms(
    base: u64,
    years: i64,
    months: i64,
    days: i64,
    hours: i64,
    minutes: i64,
    seconds: i64,
    milliseconds: i64,
) -> (r: Option<u64>)
    ensures
        extension_fits(
            base as int,
            years as int,
            months as int,
            days as int,
            hours as int,
            minutes as int,
            seconds as int,
            milliseconds as int,
        ) ==> r == Some(
            extended_ms(
                base as int,
                years as int,
                months as int,
                days as int,
                hours as int,
                minutes as int,
                seconds as int,
                milliseconds as int,
            ) as u64,
        ),
        !extension_fits(
            base as int,
            years as int,
            months as int,
            days as int,
            hours as int,
            minutes as int,
            seconds as int,
            milliseconds as int,
        ) ==> r is None,
{
    let top: i128 = u64::MAX as i128;
    let mut acc: i128 = base as i128;
    acc = acc + (years as i128) * 31_536_000_000;
    if acc < 0 || acc > top {
        return None;
    }
    acc = acc + (months as i128) * 2_592_000_000;
    if acc < 0 || acc > top {
        return None;
    }
    acc = acc + (days as i128) * 86_400_000;
    if acc < 0 || acc > top {
        return None;
    }
    acc = acc + (hours as i128) * 3_600_000;
    if acc < 0 || acc > top {
        return None;
    }
    acc = acc + (minutes as i128) * 60_000;
    if acc < 0 || acc > top {
        return None;
    }
    acc = acc + (seconds as i128) * 1_000;
    if acc < 0 || acc > top {
        return None;
    }
    acc = acc + (milliseconds as i128);
    if acc < 0 || acc > top {
        return None;
    }
    Some(acc as u64)
}

/// A timestamp in milliseconds rendered in the asked-for unit.
pub fn timestamp_in_unit(ms: u64, unit: Unit) -> (r: u64)
    ensures
        unit is Seconds ==> r == ms as int / 1000,
        unit is Milliseconds ==> r == ms,
{
    match unit {
        Unit::Seconds => ms / 1000,
        Unit::Milliseconds => ms,
    }
}

/// The current timestamp in the asked-for unit; an internal error when the
/// clock cannot be read sensibly.
pub fn get_current_timestamp(unit: Unit) -> (r: Result<u64, CommonError>)
    ensures
        r matches Err(e) ==> e.code == 500,
{
    match now_unix_millis() {
        Some(ms) => Ok(timestamp_in_unit(ms, unit)),
        None => Err(CommonError { code: 500, message: "clock out of range".to_owned() }),
    }
}

/// Extend a timestamp — the current one, when 0 is passed — by the given
/// offsets, each applied in order; an error when a step leaves the range of
/// a `u64` or the clock cannot be read.
pub fn extend_current_timestamp(
    src_timestamp: u64,
    years: i64,
    months: i64,
    days: i64,
    hours: i64,
    minutes: i64,
    seconds: i64,
    milliseconds: i64,
    unit: Unit,
) -> (r: Result<u64, CommonError>)
    requires
        unit is Seconds ==> src_timestamp * 1000 <= u64::MAX,
    ensures
        ({
            let base = if unit is Seconds {
                src_timestamp * 1000
            } else {
                src_timestamp as int
            };
            &&& (src_timestamp != 0 && extension_fits(
                base,
                years as int,
                months as int,
                days as int,
                hours as int,
                minutes as int,
                seconds as int,
                milliseconds as int,
            ) ==> ({
                let v = extended_ms(
                    base,
                    years as int,
                    months as int,
                    days as int,
                    hours as int,
                    minutes as int,
                    seconds as int,
                    milliseconds as int,
                );
                r == Ok::<u64, CommonError>(
                    (if unit is Seconds {
                        v / 1000
                    } else {
                        v
                    }) as u64,
                )
            }))
            &&& (src_timestamp != 0 && !extension_fits(
                base,
                years as int,
                months as int,
                days as int,
                hours as int,
                minutes as int,
                seconds as int,
                milliseconds as int,
            ) ==> r is Err)
            &&& (r matches Err(e) ==> e.code == 500)
        }),
{
    let src_ms: u64 = match unit {
        Unit::Seconds => src_timestamp * 1000,
        Unit::Milliseconds => src_timestamp,
    };
    let base: u64 = if src_ms == 0 {
        match now_unix_millis() {
            Some(ms) => ms,
            None => {
                return Err(CommonError { code: 500, message: "clock out of range".to_owned() });
            },
        }
    } else {
        src_ms
    };
    proof {
        if unit is Seconds && src_timestamp != 0 {
            assert(src_ms != 0);
        }
    }
    match extend_timestamp_ms(base, years, months, days, hours, minutes, seconds, milliseconds) {
        Some(v) => Ok(timestamp_in_unit(v, unit)),
        None => Err(CommonError { code: 500, message: "timestamp out of range".to_owned() }),
    }
}

/// Is `now` at or past the deadline, brought forward by the given margin?
/// Exact over its plain inputs; `is_almost_timeout` feeds it the clock.
pub fn is_almost_deadline(now_ms: u64, deadline_ms: u64, seconds_before_timeout: i64) -> (r: Result<
    bool,
    CommonError,
>)
    ensures
        0 <= deadline_ms - seconds_before_timeout * 1_000 <= u64::MAX ==> r == Ok::<
            bool,
            CommonError,
        >(now_ms >= deadline_ms - seconds_before_timeout * 1_000),
        !(0 <= deadline_ms - seconds_before_timeout * 1_000 <= u64::MAX) ==> (r matches Err(e)
            && e.code == 500),
{
    if seconds_before_timeout == i64::MIN {
        return Err(CommonError { code: 500, message: "margin out of range".to_owned() });
    }
    match extend_timestamp_ms(deadline_ms, 0, 0, 0, 0, 0, -seconds_before_timeout, 0) {
        Some(almost) => Ok(now_ms >= almost),
        None => Err(CommonError { code: 500, message: "timestamp out of range".to_owned() }),
    }
}

/// Is the current time within the margin of the deadline? An error when the
/// clock cannot be read or the margin leaves the range of a `u64`.
pub fn is_almost_timeout(context_deadline_ms: u64, seconds_before_timeout: i64) -> (r: Result<
    bool,
    CommonError,
>)
    ensures
        r is Ok ==> 0 <= context_deadline_ms - seconds_before_timeout * 1_000 <= u64::MAX,
        !(0 <= context_deadline_ms - seconds_before_timeout * 1_000 <= u64::MAX) ==> r is Err,
        r matches Err(e) ==> e.code == 500,
{
    let now = match now_unix_millis() {
        Some(ms) => ms,
        None => {
            return Err(CommonError { code: 500, message: "clock out of range".to_owned() });
        },
    };
    is_almost_deadline(now, context_deadline_ms, seconds_before_timeout)
}

} // verus!
