//! Time and chance: what the machine gives that no two runs share.
use std::time::{Duration, Instant};
use uuid::Uuid;
use vstd::prelude::*;

verus! {

/// A point in time of the machine's steady clock.
#[verifier::external_type_specification]
#[verifier::external_body]
pub struct ExInstant(Instant);

/// `std::time::Instant::now`: the present. Nothing is said of it.
pub assume_specification[ Instant::now ]() -> Instant
;

/// `std::time::Instant::elapsed`: the time since an instant. Nothing is said of it.
pub assume_specification[ Instant::elapsed ](instant: &Instant) -> Duration
;

/// `std::time::Duration::as_millis`: the whole milliseconds of a span. As spans are opaque here,
/// nothing is said of them.
pub assume_specification[ Duration::as_millis ](duration: &Duration) -> u128
;

/// The milliseconds, at most as many as the result can hold.
pub fn capped_millis(millis: u128) -> (r: u64)
    ensures
        r == (if millis < u64::MAX {
            millis as int
        } else {
            u64::MAX as int
        }),
{
    if millis < u64::MAX as u128 {
        millis as u64
    } else {
        u64::MAX
    }
}

/// The milliseconds since an instant, at most as many as the result can hold. They are the
/// clock's, so nothing is said of them.
pub(crate) fn elapsed_millis(started_at: &Instant) -> (r: u64) {
    capped_millis(started_at.elapsed().as_millis())
}

/// A small hexadecimal digit.
pub open spec fn is_hex_digit(c: char) -> bool {
    '0' <= c <= '9' || 'a' <= c <= 'f'
}

/// The text is a random identifier in its usual form: 32 small hexadecimal digits in groups of
/// 8, 4, 4, 4 and 12 between hyphens, with the digits of the random kind at their places.
pub open spec fn is_random_identifier(text: Seq<char>) -> bool {
    &&& text.len() == 36
    &&& text[8] == '-' && text[13] == '-' && text[18] == '-' && text[23] == '-'
    &&& text[14] == '4'
    &&& text[19] == '8' || text[19] == '9' || text[19] == 'a' || text[19] == 'b'
    &&& forall|i: int|
        0 <= i < 36 && i != 8 && i != 13 && i != 18 && i != 23 ==> is_hex_digit(#[trigger] text[i])
}

/// `uuid::Uuid::new_v4` in its `Display` form: a fresh random identifier. Its form holds of every
/// outcome; its digits are chance.
#[verifier::external_body]
pub(crate) fn new_identifier() -> (r: String)
    ensures
        is_random_identifier(r@),
{
    Uuid::new_v4().to_string()
}

} // verus!
