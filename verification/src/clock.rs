//! Time stamps.

use crate::text;
use std::time::{Duration, SystemTime, SystemTimeError};
use vstd::prelude::*;

verus! {

/// `std::time::SystemTime`: a reading of the system clock.
#[verifier::external_type_specification]
#[verifier::external_body]
pub struct ExSystemTime(SystemTime);

/// `std::time::SystemTimeError`: says that one time lies before another.
#[verifier::external_type_specification]
#[verifier::external_body]
pub struct ExSystemTimeError(SystemTimeError);

/// `SystemTime::now` reads the clock. Which time comes back depends on the machine: nothing is
/// stated of it.
pub assume_specification[ std::time::SystemTime::now ]() -> (time: std::time::SystemTime)
;

/// How far a time lies behind the Unix epoch; `None` for a time before it.
pub uninterp spec fn epoch_distance(time: SystemTime) -> Option<Duration>;

/// `SystemTime::duration_since`, counted from the Unix epoch: an error says that the time lies
/// before the epoch.
#[verifier::external_body]
fn since_epoch(time: SystemTime) -> (r: Result<Duration, SystemTimeError>)
    ensures
        epoch_distance(time) == (match r {
            Ok(distance) => Some(distance),
            Err(_) => None,
        }),
{
    time.duration_since(SystemTime::UNIX_EPOCH)
}

/// The whole milliseconds in a duration.
pub uninterp spec fn whole_millis(duration: Duration) -> u128;

/// `Duration::as_millis`: the whole milliseconds in the duration.
pub assume_specification[ Duration::as_millis ](duration: &Duration) -> (r: u128)
    ensures
        r == whole_millis(*duration),
;

/// The stamp of a time: the milliseconds since the Unix epoch as a decimal numeral, `0` for a time
/// before it.
pub open spec fn stamp_of(time: SystemTime) -> Seq<char> {
    match epoch_distance(time) {
        Some(distance) => text::numeral(whole_millis(distance) as nat),
        None => text::numeral(0),
    }
}

/// Whether a text is the stamp of some time.
pub open spec fn is_stamp(s: Seq<char>) -> bool {
    exists|time: SystemTime| s == #[trigger] stamp_of(time)
}

/// The stamp of a time.
pub fn stamp(time: SystemTime) -> (r: String)
    ensures
        r@ == stamp_of(time),
        epoch_distance(time) matches Some(distance) ==> r@ == text::numeral(
            whole_millis(distance) as nat,
        ),
        epoch_distance(time) is None ==> r@ == "0"@,
{
    proof {
        law_stamps_count_milliseconds(time);
    }
    match since_epoch(time) {
        Ok(distance) => text::decimal(distance.as_millis()),
        Err(_) => text::decimal(0),
    }
}

/// The stamp of the time at which the clock was read.
pub fn now() -> (r: String)
    ensures
        is_stamp(r@),
{
    stamp(SystemTime::now())
}

/// The stamp of a time is the numeral of its milliseconds since the Unix epoch, and `0` before it.
pub proof fn law_stamps_count_milliseconds(time: SystemTime)
    ensures
        epoch_distance(time) matches Some(distance) ==> stamp_of(time) == text::numeral(
            whole_millis(distance) as nat,
        ),
        epoch_distance(time) is None ==> stamp_of(time) == "0"@,
{
    reveal_strlit("0");
    assert("0"@ =~= seq!['0']);
}

/// A stamp is a row of digits.
pub proof fn law_a_stamp_is_a_row_of_digits(s: Seq<char>)
    requires
        is_stamp(s),
    ensures
        s.len() > 0,
        forall|i: int| 0 <= i < s.len() ==> '0' <= #[trigger] s[i] <= '9',
{
    let time = choose|time: SystemTime| s == #[trigger] stamp_of(time);
    match epoch_distance(time) {
        Some(distance) => lemma_digits(whole_millis(distance) as nat),
        None => lemma_digits(0),
    }
}

proof fn lemma_digits(n: nat)
    ensures
        text::numeral(n).len() > 0,
        forall|i: int|
            0 <= i < text::numeral(n).len() ==> '0' <= #[trigger] text::numeral(n)[i] <= '9',
    decreases n,
{
    if n >= 10 {
        lemma_digits(n / 10);
    }
}

} // verus!
