//! HTTP status codes.

use vstd::prelude::*;
use vstd::string::*;

use crate::number;

verus! {

/// The reason phrase that `reqwest::StatusCode::canonical_reason` gives for a status code. Nothing
/// for a number that is no status code or has no such phrase.
pub uninterp spec fn canonical_reason(code: u16) -> Option<Seq<char>>;

/// `reqwest::StatusCode::canonical_reason` depends on the status code alone. Which phrase belongs to
/// which code is the table of that crate and is not restated here.
#[verifier::external_body]
pub(crate) fn reason_of(code: u16) -> (res: Option<String>)
    ensures
        (match res {
            Some(reason) => canonical_reason(code) == Some(reason@),
            None => canonical_reason(code) is None,
        }),
{
    match reqwest::StatusCode::from_u16(code) {
        Ok(status) => status.canonical_reason().map(|reason| reason.to_string()),
        Err(_) => None,
    }
}

/// The status code says that the request succeeded.
pub open spec fn is_success(code: u16) -> bool {
    200 <= code < 300
}

/// `reqwest::StatusCode::is_success` holds of the status codes from 200 to 299. A number that is no
/// status code is no success either.
#[verifier::external_body]
pub(crate) fn succeeded(code: u16) -> (res: bool)
    ensures
        res == is_success(code),
{
    match reqwest::StatusCode::from_u16(code) {
        Ok(status) => status.is_success(),
        Err(_) => false,
    }
}

/// The note on a candidate that could not be reached.
pub open spec fn send_failure(candidate: Seq<char>, error: Seq<char>) -> Seq<char> {
    candidate + " => "@ + error
}

/// The note on a candidate that answered with a status code other than success.
pub open spec fn status_failure(
    candidate: Seq<char>,
    code: u16,
    reason: Option<Seq<char>>,
) -> Seq<char> {
    candidate + " => HTTP "@ + number::decimal(code as nat) + " "@ + (match reason {
        Some(reason) => reason,
        None => "Unknown"@,
    })
}

/// Notes that a candidate could not be reached.
pub fn send_failure_line(candidate: &str, error: &str) -> (res: String)
    ensures
        res@ == send_failure(candidate@, error@),
{
    let mut line = candidate.to_owned();
    line.append(" => ");
    line.append(error);
    line
}

/// Notes that a candidate answered with a status code other than success.
pub fn status_failure_line(candidate: &str, code: u16, reason: &Option<String>) -> (res: String)
    ensures
        res@ == status_failure(
            candidate@,
            code,
            match *reason {
                Some(reason) => Some(reason@),
                None => None,
            },
        ),
{
    let mut line = candidate.to_owned();
    line.append(" => HTTP ");
    line.append(number::decimal_text(code as u64).as_str());
    line.append(" ");
    match reason {
        Some(reason) => line.append(reason.as_str()),
        None => line.append("Unknown"),
    }
    line
}

/// Success is a status code of the two hundreds.
pub proof fn law_success_codes(code: u16)
    ensures
        is_success(code) <==> code / 100 == 2,
{
}

/// A note on a failure starts with the address and says what was wrong: the error, or the status code
/// and its reason, or that there is none.
pub proof fn law_failure_notes(candidate: Seq<char>, error: Seq<char>, code: u16, reason: Seq<char>)
    ensures
        send_failure(candidate, error) == candidate + " => "@ + error,
        status_failure(candidate, code, Some(reason)) == candidate + " => HTTP "@ + number::decimal(
            code as nat,
        ) + " "@ + reason,
        status_failure(candidate, code, None) == candidate + " => HTTP "@ + number::decimal(
            code as nat,
        ) + " Unknown"@,
{
    reveal_strlit(" ");
    reveal_strlit("Unknown");
    reveal_strlit(" Unknown");
    let start = candidate + " => HTTP "@ + number::decimal(code as nat);
    assert(start + " "@ + "Unknown"@ =~= start + " Unknown"@);
}

} // verus!
