//! Random numbers and the time of day.
use vstd::prelude::*;

verus! {

/// `rand::random::<u32>`: any number. Nothing is claimed of it.
#[verifier::external_body]
pub(crate) fn random_u32() -> (n: u32) {
    rand::random::<u32>()
}

/// `rand::random::<u64>`: any number. Nothing is claimed of it.
#[verifier::external_body]
pub(crate) fn random_u64() -> (n: u64) {
    rand::random::<u64>()
}

/// `rand::random::<[u8; 4]>`: any bytes. Nothing is claimed of them.
#[verifier::external_body]
pub(crate) fn random_4() -> (b: [u8; 4]) {
    rand::random::<[u8; 4]>()
}

/// `rand::random::<[u8; 8]>`: any bytes. Nothing is claimed of them.
#[verifier::external_body]
pub(crate) fn random_8() -> (b: [u8; 8]) {
    rand::random::<[u8; 8]>()
}

/// `rand::random::<[u8; 12]>`: any bytes. Nothing is claimed of them.
#[verifier::external_body]
pub(crate) fn random_12() -> (b: [u8; 12]) {
    rand::random::<[u8; 12]>()
}

/// `rand::Rng::gen_range` on the thread's generator: any number from zero to `max`.
#[verifier::external_body]
pub(crate) fn random_up_to(max: u64) -> (n: u64)
    ensures
        n <= max,
{
    rand::Rng::gen_range(&mut rand::thread_rng(), 0..=max)
}

/// Whether the two characters from `i` on are decimal digits.
pub open spec fn two_digits(s: Seq<char>, i: int) -> bool {
    '0' <= s[i] <= '9' && '0' <= s[i + 1] <= '9'
}

/// Whether a text is a year as RFC 3339 texts have it: four digits, or a sign and at least four.
pub open spec fn is_year(s: Seq<char>) -> bool {
    if s.len() == 4 {
        two_digits(s, 0) && two_digits(s, 2)
    } else {
        &&& s.len() > 4
        &&& s[0] == '+' || s[0] == '-'
        &&& forall|i: int| 1 <= i < s.len() ==> '0' <= #[trigger] s[i] <= '9'
    }
}

/// Whether a text has the form of a point in time in whole seconds of UTC, such as
/// `2024-01-02T03:04:05Z`.
pub open spec fn is_utc_text(s: Seq<char>) -> bool {
    let n = s.len() - 16;
    &&& n >= 4
    &&& is_year(s.take(n))
    &&& s[n] == '-' && two_digits(s, n + 1)
    &&& s[n + 3] == '-' && two_digits(s, n + 4)
    &&& s[n + 6] == 'T' && two_digits(s, n + 7)
    &&& s[n + 9] == ':' && two_digits(s, n + 10)
    &&& s[n + 12] == ':' && two_digits(s, n + 13)
    &&& s[n + 15] == 'Z'
}

/// `chrono::Utc::now` written by `DateTime::to_rfc3339_opts` with whole seconds and `Z`: a text of
/// that form. Which point in time it is depends on when the call is made and is left unsaid.
#[verifier::external_body]
pub(crate) fn utc_text() -> (s: String)
    ensures
        is_utc_text(s@),
{
    chrono::Utc::now().to_rfc3339_opts(chrono::SecondsFormat::Secs, true)
}

/// `chrono::Utc::now` in seconds since 1970. Nothing is claimed of it.
#[verifier::external_body]
pub(crate) fn utc_seconds() -> (n: i64) {
    chrono::Utc::now().timestamp()
}

} // verus!
