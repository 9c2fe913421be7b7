//! The fixed message for each API error status code.
use vstd::prelude::*;

verus! {

/// The message owed for a status code; empty for one that has none.
pub open spec fn error_message_of(status_code: int) -> Seq<char> {
    if status_code == 400 {
        "Bad request"@
    } else if status_code == 401 {
        "Unauthorized"@
    } else if status_code == 403 {
        "Forbidden"@
    } else if status_code == 404 {
        "Data was not found"@
    } else if status_code == 409 {
        "Conflict"@
    } else if status_code == 500 {
        "Internal server error"@
    } else {
        Seq::empty()
    }
}

/// The number formed by the first three decimal digits of a code.
pub open spec fn leading_three_digits(c: int) -> int
    decreases c,
{
    if c < 1000 {
        c
    } else {
        leading_three_digits(c / 10)
    }
}

/// The HTTP status behind an extended response code: its first three decimal
/// digits. The code must have at least three.
pub fn status_code_of(code: u32) -> (r: i64)
    requires
        code >= 100,
    ensures
        r == leading_three_digits(code as int),
        100 <= r <= 999,
{
    let mut c: u32 = code;
    while c >= 1000
        invariant
            c >= 100,
            leading_three_digits(c as int) == leading_three_digits(code as int),
        decreases c,
    {
        c = c / 10;
    }
    c as i64
}

/// The message for an API error status code.
pub fn api_error_message(status_code: i64) -> (r: String)
    ensures
        r@ == error_message_of(status_code as int),
{
    if status_code == 400 {
        "Bad request".to_owned()
    } else if status_code == 401 {
        "Unauthorized".to_owned()
    } else if status_code == 403 {
        "Forbidden".to_owned()
    } else if status_code == 404 {
        "Data was not found".to_owned()
    } else if status_code == 409 {
        "Conflict".to_owned()
    } else if status_code == 500 {
        "Internal server error".to_owned()
    } else {
        String::new()
    }
}

} // verus!
