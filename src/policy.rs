//! Whether a connection stays open after a response.

use vstd::prelude::*;
use crate::text::{
    chars_of, contains, contains_exec, first_index_from, index_of, lines, lines_view, lower_of,
    lowercase_chars, occurs_at_exec, split_lines, starts_with, to_lowercase, trim_of, trimmed,
};
use crate::version::{HttpVersion, version_in, version_of_line};

verus! {

/// Responses larger than this (10 MiB) always close the connection.
pub const MAX_KEEP_ALIVE_RESPONSE: usize = 10485760;

/// Limits on how long one connection is reused.
#[derive(Debug, Clone)]
pub struct ConnectionPolicy {
    /// Requests served on one connection before it is closed.
    pub max_requests: usize,
    /// Seconds an idle connection is kept open.
    pub idle_timeout_seconds: u64,
}

/// The header value as characters.
pub open spec fn header_chars(h: Option<&str>) -> Option<Seq<char>> {
    match h {
        Some(x) => Some(x@),
        None => None,
    }
}

/// The keep-alive decision: under the request cap, within the size bound,
/// and then by version: never for HTTP/0.9, only on request for HTTP/1.0,
/// unless asked to close for HTTP/1.1. Header values are compared in lower
/// case (`str::to_lowercase`).
pub open spec fn keeps_alive(
    max_requests: int,
    version: HttpVersion,
    connection: Option<Seq<char>>,
    response_size: int,
    request_count: int,
) -> bool {
    &&& request_count < max_requests
    &&& response_size <= MAX_KEEP_ALIVE_RESPONSE
    &&& match version {
        HttpVersion::Http09 => false,
        HttpVersion::Http10 => match connection {
            Some(h) => contains(lower_of(h), "keep-alive"@),
            None => false,
        },
        HttpVersion::Http11 => match connection {
            Some(h) => !contains(lower_of(h), "close"@),
            None => true,
        },
    }
}

/// The version of a request: from its first line, HTTP/0.9 if it has none.
pub open spec fn request_version(request: Seq<char>) -> HttpVersion {
    if lines(request).len() > 0 {
        version_of_line(lines(request)[0])
    } else {
        HttpVersion::Http09
    }
}

/// A `Connection:` header line, its name matched in lower case.
pub open spec fn is_connection_line(l: Seq<char>) -> bool {
    starts_with(lower_of(l), "connection:"@)
}

/// The trimmed value (after the line's first `:`) of the first
/// `Connection:` line at or after line `i`; none if that line has no `:`.
pub open spec fn connection_from(ls: Seq<Seq<char>>, i: int) -> Option<Seq<char>>
    decreases ls.len() - i,
{
    if i < 0 || i >= ls.len() {
        None
    } else if is_connection_line(ls[i]) {
        let c = first_index_from(ls[i], ':', 0);
        if c < ls[i].len() {
            Some(trim_of(ls[i], c + 1, ls[i].len() as int))
        } else {
            None
        }
    } else {
        connection_from(ls, i + 1)
    }
}

/// HTTP/0.9 connections never persist, whatever the request says.
pub proof fn lemma_http09_never_persists(
    max_requests: int,
    connection: Option<Seq<char>>,
    response_size: int,
    request_count: int,
)
    ensures
        !keeps_alive(max_requests, HttpVersion::Http09, connection, response_size, request_count),
{
}

/// Once the request cap is reached, or the response exceeds the size bound,
/// the connection closes, whatever the version and the request say.
pub proof fn lemma_limits_close(
    max_requests: int,
    version: HttpVersion,
    connection: Option<Seq<char>>,
    response_size: int,
    request_count: int,
)
    requires
        request_count >= max_requests || response_size > MAX_KEEP_ALIVE_RESPONSE,
    ensures
        !keeps_alive(max_requests, version, connection, response_size, request_count),
{
}

impl Default for ConnectionPolicy {
    /// At most 100 requests per connection, 5 seconds of idleness.
    fn default() -> (r: ConnectionPolicy)
        ensures
            r.max_requests == 100 && r.idle_timeout_seconds == 5,
    {
        ConnectionPolicy { max_requests: 100, idle_timeout_seconds: 5 }
    }
}

impl ConnectionPolicy {
    pub fn new(max_requests: usize, idle_timeout_seconds: u64) -> (r: ConnectionPolicy)
        ensures
            r.max_requests == max_requests && r.idle_timeout_seconds == idle_timeout_seconds,
    {
        ConnectionPolicy { max_requests, idle_timeout_seconds }
    }

    /// Whether to keep the connection open after a response of
    /// `response_size` bytes, `request_count` requests having been served.
    pub fn should_keep_alive(
        &self,
        version: &HttpVersion,
        request_connection_header: Option<&str>,
        response_size: usize,
        request_count: usize,
    ) -> (r: bool)
        ensures
            r == keeps_alive(
                self.max_requests as int,
                *version,
                header_chars(request_connection_header),
                response_size as int,
                request_count as int,
            ),
    {
        if request_count >= self.max_requests {
            return false;
        }
        if response_size > MAX_KEEP_ALIVE_RESPONSE {
            return false;
        }
        match version {
            HttpVersion::Http09 => false,
            HttpVersion::Http10 => match request_connection_header {
                Some(h) => contains_exec(&chars_of(to_lowercase(h).as_str()), &chars_of("keep-alive")),
                None => false,
            },
            HttpVersion::Http11 => match request_connection_header {
                Some(h) => !contains_exec(&chars_of(to_lowercase(h).as_str()), &chars_of("close")),
                None => true,
            },
        }
    }

    /// The version (from the first line) and the trimmed value of the first
    /// `Connection:` header of a raw request.
    pub fn parse_request_info(request: &str) -> (r: (HttpVersion, Option<String>))
        ensures
            r.0 == request_version(request@),
            match (r.1, connection_from(lines(request@), 0)) {
                (Some(v), Some(w)) => v@ == w,
                (None, None) => true,
                _ => false,
            },
    {
        let ls = split_lines(&chars_of(request));
        let ghost lv = lines_view(ls@);
        assert(lv == lines(request@));
        let version = if ls.len() > 0 {
            assert(lv[0] == ls@[0]@);
            version_in(&ls[0])
        } else {
            HttpVersion::Http09
        };
        let prefix = chars_of("connection:");
        let mut i: usize = 0;
        while i < ls.len()
            invariant
                lv == lines_view(ls@),
                lv == lines(request@),
                version == request_version(request@),
                lv.len() == ls@.len(),
                prefix@ == "connection:"@,
                i <= ls@.len(),
                connection_from(lv, 0) == connection_from(lv, i as int),
            decreases ls.len() - i,
        {
            assert(lv[i as int] == ls@[i as int]@);
            if occurs_at_exec(&lowercase_chars(&ls[i]), &prefix, 0) {
                let colon = index_of(&ls[i], ':', 0);
                if colon == ls[i].len() {
                    return (version, None);
                }
                let value = trimmed(&ls[i], colon + 1, ls[i].len());
                return (version, Some(value));
            }
            i = i + 1;
        }
        assert(connection_from(lv, i as int) == None::<Seq<char>>);
        (version, None)
    }
}

} // verus!
