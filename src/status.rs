use vstd::prelude::*;

verus! {

/// The reason phrase registered for a status code; "Unknown" for any other code.
pub open spec fn status_text(code: u16) -> Seq<char> {
    if code == 200 {
        "OK"@
    } else if code == 201 {
        "Created"@
    } else if code == 404 {
        "Not Found"@
    } else if code == 405 {
        "Method Not Allowed"@
    } else if code == 400 {
        "Bad Request"@
    } else if code == 500 {
        "Internal Server Error"@
    } else {
        "Unknown"@
    }
}

/// Whether a reason phrase is registered for `code`.
pub open spec fn is_registered(code: u16) -> bool {
    code == 200 || code == 201 || code == 404 || code == 405 || code == 400 || code == 500
}

/// The reason phrase for `status_code`.
pub fn get_status_text(status_code: u16) -> (r: &'static str)
    ensures
        r@ == status_text(status_code),
{
    match status_code {
        200 => "OK",
        201 => "Created",
        404 => "Not Found",
        405 => "Method Not Allowed",
        400 => "Bad Request",
        500 => "Internal Server Error",
        _ => "Unknown",
    }
}

} // verus!
