//! A small HTTP/1.x server core: request and response models with their wire
//! encodings, a cookie codec, a single-part multipart decoder, a router with
//! dynamic path segments and per-method catch-alls, and a traversal-safe
//! static file server.
//!
//! Reading from and writing to sockets, the filesystem and the clock stay
//! outside this crate; the parsing, matching and serialization rules live
//! here, each with a contract.
mod cookie;
mod datetime;
mod file_server;
mod header;
mod method;
mod multipart;
mod request;
mod response;
mod response_builder;
mod router;
mod strmap;
mod strutil;
mod version;

pub use cookie::{is_name_valid, is_value_valid, CookieError, HttpCookie, SameSitePolicy};
pub use datetime::{format_http_date, format_rfc2822, now_timestamp, parse_rfc2822};
pub use file_server::{is_safe_relative_subpath, FileError, FileServer, MountPoint};
pub use header::HttpHeader;
pub use method::HttpMethod;
pub use multipart::{ContentDispositionHeader, MultipartBody, MultipartBodyPart, MultipartError};
pub use request::{
    body_length, parse_header_line, parse_http_request_start_line, HttpRequest, HttpRequestRaw,
    ProtocolError,
};
pub use response::{HttpResponse, HttpStatusCode, ResponseError, SortedCookies, SortedHeaders};
pub use response_builder::HttpResponseBuilder;
pub use router::{
    file_response, Handler, RequestRoute, RoutePart, Router, RouterError, RouterOutcome,
    RoutingData, StoredRoute,
};
pub use strmap::StrMap;
pub use strutil::{
    find_char, parse_i32, parse_u64, split_once, split_str, starts_with, str_eq, trim, trim_char,
    u64_to_string,
};
pub use version::HttpVersion;
