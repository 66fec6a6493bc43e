//! HTTP protocol versions and what each one supports.

use vstd::prelude::*;
use crate::text::{chars_of, find_first, occurs_at, occurs_at_exec, contains, first_occurrence};

verus! {

/// The protocol versions this server speaks.
#[derive(Debug, Clone, Copy, PartialEq, Eq, Structural)]
pub enum HttpVersion {
    /// HTTP/0.9: the body alone, no status line and no headers.
    Http09,
    /// HTTP/1.0: status line and headers; connections close unless asked otherwise.
    Http10,
    /// HTTP/1.1: status line and headers; connections persist unless asked otherwise.
    Http11,
}

/// The version named by a request line: the first `HTTP/` in it decides,
/// and anything but `HTTP/1.1` or `HTTP/1.0` there (or no `HTTP/` at all)
/// means HTTP/0.9.
pub open spec fn version_of_line(line: Seq<char>) -> HttpVersion {
    if contains(line, "HTTP/"@) {
        let i = first_occurrence(line, "HTTP/"@);
        if occurs_at(line, "HTTP/1.1"@, i) {
            HttpVersion::Http11
        } else if occurs_at(line, "HTTP/1.0"@, i) {
            HttpVersion::Http10
        } else {
            HttpVersion::Http09
        }
    } else {
        HttpVersion::Http09
    }
}

pub open spec fn prefix_of(v: HttpVersion) -> Seq<char> {
    match v {
        HttpVersion::Http09 => ""@,
        HttpVersion::Http10 => "HTTP/1.0"@,
        HttpVersion::Http11 => "HTTP/1.1"@,
    }
}

/// The version named by the request line `line`.
pub fn version_in(line: &Vec<char>) -> (r: HttpVersion)
    ensures
        r == version_of_line(line@),
{
    let marker = chars_of("HTTP/");
    match find_first(line, &marker) {
        Some(i) => {
            if occurs_at_exec(line, &chars_of("HTTP/1.1"), i) {
                HttpVersion::Http11
            } else if occurs_at_exec(line, &chars_of("HTTP/1.0"), i) {
                HttpVersion::Http10
            } else {
                HttpVersion::Http09
            }
        },
        None => HttpVersion::Http09,
    }
}

impl HttpVersion {
    /// Reads the version from the first line of a request; a missing or
    /// unknown version token gives HTTP/0.9.
    pub fn from_request_line(request_line: &str) -> (r: HttpVersion)
        ensures
            r == version_of_line(request_line@),
    {
        version_in(&chars_of(request_line))
    }

    /// The token that opens a status line: empty for HTTP/0.9.
    pub fn status_line_prefix(&self) -> (r: &'static str)
        ensures
            r@ == prefix_of(*self),
    {
        match self {
            HttpVersion::Http09 => "",
            HttpVersion::Http10 => "HTTP/1.0",
            HttpVersion::Http11 => "HTTP/1.1",
        }
    }

    /// Whether responses carry a status line and headers: all but HTTP/0.9.
    pub fn supports_headers(&self) -> (r: bool)
        ensures
            r == (*self != HttpVersion::Http09),
    {
        match self {
            HttpVersion::Http09 => false,
            HttpVersion::Http10 => true,
            HttpVersion::Http11 => true,
        }
    }

    /// Whether connections persist by default: HTTP/1.1 only.
    pub fn supports_persistent_connections(&self) -> (r: bool)
        ensures
            r == (*self == HttpVersion::Http11),
    {
        match self {
            HttpVersion::Http09 => false,
            HttpVersion::Http10 => false,
            HttpVersion::Http11 => true,
        }
    }

    /// The version as it is written on the wire (`HTTP/0.9` included).
    pub fn to_string(&self) -> (r: String)
        ensures
            r@ == match *self {
                HttpVersion::Http09 => "HTTP/0.9"@,
                HttpVersion::Http10 => "HTTP/1.0"@,
                HttpVersion::Http11 => "HTTP/1.1"@,
            },
    {
        let s = match self {
            HttpVersion::Http09 => "HTTP/0.9",
            HttpVersion::Http10 => "HTTP/1.0",
            HttpVersion::Http11 => "HTTP/1.1",
        };
        s.to_owned()
    }
}

} // verus!
