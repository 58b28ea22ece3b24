//! What the service answers when a request fails.

use crate::utils::response::{GenericResponse, GenericStringResponse};
use vstd::prelude::*;

verus! {

/// The character of the decimal digit `d`.
pub open spec fn digit(d: int) -> char {
    (('0' as u8) + d) as char
}

/// `n` written in decimal digits, without leading zeros.
pub open spec fn decimal(n: nat) -> Seq<char>
    decreases n,
{
    if n < 10 {
        seq![digit(n as int)]
    } else {
        decimal(n / 10).push(digit((n % 10) as int))
    }
}

/// Answers a request that lacks valid credentials.
pub fn unauthorized() -> (response: GenericResponse<'static>)
    ensures
        response.status@ == "401"@,
        response.message@ == "Unauthorized"@,
{
    GenericResponse { status: "401", message: "Unauthorized" }
}

/// Answers a request for something the caller may not have.
pub fn forbidden() -> (response: GenericResponse<'static>)
    ensures
        response.status@ == "403"@,
        response.message@ == "You are forbidden from accessing this resource"@,
{
    GenericResponse { status: "403", message: "You are forbidden from accessing this resource" }
}

/// Answers a request for something that does not exist.
pub fn not_found() -> (response: GenericResponse<'static>)
    ensures
        response.status@ == "404"@,
        response.message@ == "Not found"@,
{
    GenericResponse { status: "404", message: "Not found" }
}

/// Answers a caller that sends too many requests.
pub fn too_many_requests() -> (response: GenericResponse<'static>)
    ensures
        response.status@ == "429"@,
        response.message@ == "You are being rate limited"@,
{
    GenericResponse { status: "429", message: "You are being rate limited" }
}

/// One decimal digit as text.
fn digit_text(d: u16) -> (text: &'static str)
    requires
        d < 10,
    ensures
        text@ == seq![digit(d as int)],
{
    proof {
        reveal_strlit("0");
        reveal_strlit("1");
        reveal_strlit("2");
        reveal_strlit("3");
        reveal_strlit("4");
        reveal_strlit("5");
        reveal_strlit("6");
        reveal_strlit("7");
        reveal_strlit("8");
        reveal_strlit("9");
    }
    let text = match d {
        0 => "0",
        1 => "1",
        2 => "2",
        3 => "3",
        4 => "4",
        5 => "5",
        6 => "6",
        7 => "7",
        8 => "8",
        _ => "9",
    };
    assert(text@ =~= seq![digit(d as int)]);
    text
}

/// Writes a status code in decimal digits.
pub fn status_text(code: u16) -> (text: String)
    ensures
        text@ == decimal(code as nat),
    decreases code,
{
    if code < 10 {
        String::from_str(digit_text(code))
    } else {
        let mut text = status_text(code / 10);
        text.append(digit_text(code % 10));
        assert(text@ =~= decimal(code as nat));
        text
    }
}

/// Answers any other failure with its status code and the reason that goes
/// with the code.
pub fn internal_error(code: u16, reason: &str) -> (response: GenericStringResponse)
    ensures
        response.status@ == decimal(code as nat),
        response.message@ == reason@,
{
    GenericStringResponse { status: status_text(code), message: String::from_str(reason) }
}

} // verus!
