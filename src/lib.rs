//! The core of a small HTTP/1.1 server: reading a request from one buffer of raw bytes,
//! routing it by method and path, and writing the response back as bytes, gzip-compressed
//! when the client accepts it. Sockets and files are left to the caller: routing yields
//! an `Action` that says which file to read or write, and the caller completes the
//! response with what that gave.

pub mod bytes;
pub mod headers;
pub mod request;
pub mod response;
pub mod router;
pub mod status;

pub use request::{HttpRequest, RequestError};
pub use response::HttpResponse;
pub use router::{
    dispatch, finish_read, finish_write, handle_connection, handle_get_request,
    handle_post_request, parse_encoding, Action,
};
pub use status::get_status_text;
