//! Small verified helpers, and the two calls that leave the engine: the
//! commit-id generator and the clock.

use rand::Rng;
use vstd::prelude::*;
use vstd::std_specs::cmp::PartialEqSpec;

verus! {

/// True exactly when the two strings hold the same characters.
pub fn compare_strings(a: &str, b: &str) -> (r: bool)
    ensures
        r == (a@ == b@),
{
    let a_owned: String = a.to_owned();
    let b_owned: String = b.to_owned();
    a_owned == b_owned
}

/// True exactly when the two byte vectors hold the same bytes.
pub fn bytes_eq(a: &Vec<u8>, b: &Vec<u8>) -> (r: bool)
    ensures
        r == (a@ == b@),
{
    let r = a == b;
    proof {
        if r {
            assert(a@ =~= b@);
        }
        if a@ == b@ {
            assert(a.eq_spec(b));
        }
    }
    r
}

/// A copy of a byte vector.
pub fn clone_bytes(v: &Vec<u8>) -> (r: Vec<u8>)
    ensures
        r@ == v@,
{
    let r = v.clone();
    proof {
        assert(r@ =~= v@);
    }
    r
}

/// True of the characters a commit id is drawn from: ASCII letters and
/// digits.
pub open spec fn is_ascii_alphanumeric_char(c: char) -> bool {
    ||| 48 <= (c as u32) <= 57
    ||| 65 <= (c as u32) <= 90
    ||| 97 <= (c as u32) <= 122
}

/// Relies on rand's `Alphanumeric` distribution, which samples uniformly
/// from the 62 ASCII letters and digits: seven sampled characters form the
/// id.  The result depends on the generator's state, so only its shape is
/// stated.
#[verifier::external_body]
pub fn generate_commit_id() -> (r: String)
    ensures
        r@.len() == 7,
        forall|i: int| 0 <= i < r@.len() ==> is_ascii_alphanumeric_char(#[trigger] r@[i]),
{
    rand::thread_rng().sample_iter(&rand::distributions::Alphanumeric).take(7).map(
        char::from,
    ).collect()
}

/// True of a digit character.
pub open spec fn is_ascii_digit_char(c: char) -> bool {
    48 <= (c as u32) <= 57
}

/// The shape `%Y-%m-%d %H:%M:%S` gives every date: month, day, hour,
/// minute and second are each two zero-padded digits, the year at least
/// four digits (more, with a sign, outside the four-digit range), with
/// fixed separators between the fields.  Positions are counted from the
/// end, where they do not move with the year's width.
pub open spec fn is_formatted_date(s: Seq<char>) -> bool {
    &&& s.len() >= 19
    &&& s[s.len() - 15] == '-'
    &&& s[s.len() - 12] == '-'
    &&& s[s.len() - 9] == ' '
    &&& s[s.len() - 6] == ':'
    &&& s[s.len() - 3] == ':'
    &&& is_ascii_digit_char(s[s.len() - 14]) && is_ascii_digit_char(s[s.len() - 13])
    &&& is_ascii_digit_char(s[s.len() - 11]) && is_ascii_digit_char(s[s.len() - 10])
    &&& is_ascii_digit_char(s[s.len() - 8]) && is_ascii_digit_char(s[s.len() - 7])
    &&& is_ascii_digit_char(s[s.len() - 5]) && is_ascii_digit_char(s[s.len() - 4])
    &&& is_ascii_digit_char(s[s.len() - 2]) && is_ascii_digit_char(s[s.len() - 1])
}

/// Relies on chrono's `Utc::now`, formatted as `%Y-%m-%d %H:%M:%S`: per
/// chrono's format documentation, `%m`, `%d`, `%H`, `%M` and `%S` are each
/// zero-padded to two digits and `%Y` to at least four, so every outcome
/// has the shape `is_formatted_date` states.  Which instant it is depends
/// on the clock, so nothing more is claimed.
#[verifier::external_body]
pub fn get_current_formatted_date() -> (r: String)
    ensures
        is_formatted_date(r@),
{
    let now: chrono::DateTime<chrono::Utc> = chrono::Utc::now();
    now.format("%Y-%m-%d %H:%M:%S").to_string()
}

} // verus!
