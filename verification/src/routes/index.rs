//! The greeting at the service root.

use crate::utils::response::GenericResponse;
use vstd::prelude::*;

verus! {

/// Answers a request for the service root.
pub fn index() -> (response: GenericResponse<'static>)
    ensures
        response.status@ == "200"@,
        response.message@ == "Hello, world!"@,
{
    GenericResponse { status: "200", message: "Hello, world!" }
}

} // verus!
