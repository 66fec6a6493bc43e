//! A protocol-agnostic HTTP response and its encoding for each version.

use vstd::prelude::*;
use vstd::utf8::encode_utf8;
use crate::text::{push_char, push_str, push_decimal, decimal};
use crate::version::{HttpVersion, prefix_of};

verus! {

/// Status, headers and body of one response. Header names are kept unique
/// by `set_header`, and headers are written in the order they were first set.
#[derive(Debug, Clone)]
pub struct HttpResponse {
    pub status_code: u16,
    pub status_text: String,
    pub headers: Vec<(String, String)>,
    pub body: Vec<u8>,
}

/// A header as a pair of character sequences.
pub type HeaderView = (Seq<char>, Seq<char>);

/// Index of the first header named `name` (meaningful where there is one).
pub open spec fn header_index(hs: Seq<HeaderView>, name: Seq<char>) -> int {
    choose|i: int| 0 <= i < hs.len() && hs[i].0 == name && forall|j: int| 0 <= j < i ==> hs[j].0 != name
}

pub open spec fn has_header(hs: Seq<HeaderView>, name: Seq<char>) -> bool {
    exists|i: int| 0 <= i < hs.len() && hs[i].0 == name
}

/// The header list after setting `name` to `value`: the first header of
/// that name takes the new value in place; with none, the header is appended.
pub open spec fn with_header(hs: Seq<HeaderView>, name: Seq<char>, value: Seq<char>) -> Seq<HeaderView> {
    if has_header(hs, name) {
        hs.update(header_index(hs, name), (name, value))
    } else {
        hs.push((name, value))
    }
}

/// No two headers share a name.
pub open spec fn names_unique(hs: Seq<HeaderView>) -> bool {
    forall|i: int, j: int| 0 <= i < hs.len() && 0 <= j < hs.len() && i != j ==> hs[i].0 != hs[j].0
}

/// `Name: Value\r\n` for each header, in order.
pub open spec fn header_lines(hs: Seq<HeaderView>) -> Seq<char>
    decreases hs.len(),
{
    if hs.len() == 0 {
        Seq::empty()
    } else {
        header_lines(hs.drop_last()) + hs.last().0 + ": "@ + hs.last().1 + "\r\n"@
    }
}

/// The connection directive: HTTP/1.1 announces only closing, HTTP/1.0 only
/// keeping alive.
pub open spec fn connection_line(v: HttpVersion, keep_alive: bool) -> Seq<char> {
    match v {
        HttpVersion::Http11 => if keep_alive { ""@ } else { "Connection: close\r\n"@ },
        HttpVersion::Http10 => if keep_alive { "Connection: Keep-Alive\r\n"@ } else { ""@ },
        HttpVersion::Http09 => ""@,
    }
}

/// Status line, header lines, connection directive and the blank line.
pub open spec fn head_text(
    v: HttpVersion,
    code: u16,
    text: Seq<char>,
    hs: Seq<HeaderView>,
    keep_alive: bool,
) -> Seq<char> {
    prefix_of(v) + " "@ + decimal(code as nat) + " "@ + text + "\r\n"@ + header_lines(hs)
        + connection_line(v, keep_alive) + "\r\n"@
}

/// The bytes of a response on the wire.
pub open spec fn wire_bytes(
    v: HttpVersion,
    code: u16,
    text: Seq<char>,
    hs: Seq<HeaderView>,
    body: Seq<u8>,
    keep_alive: bool,
) -> Seq<u8> {
    if v == HttpVersion::Http09 {
        body
    } else {
        encode_utf8(head_text(v, code, text, hs, keep_alive)) + body
    }
}

/// `Cache-Control` for a cache duration in seconds: `-1` caches for good,
/// `0` forbids caching, a positive value allows it that long, and anything
/// else falls back to `no-cache`.
pub open spec fn cache_control_for(seconds: int) -> Seq<char> {
    if seconds == -1 {
        "public, max-age=31536000, immutable"@
    } else if seconds == 0 {
        "no-cache, no-store, must-revalidate"@
    } else if seconds > 0 {
        "public, max-age="@ + decimal(seconds as nat)
    } else {
        "no-cache"@
    }
}

/// The headers that every HTML page and file response carries.
pub open spec fn with_security_headers(hs: Seq<HeaderView>) -> Seq<HeaderView> {
    with_header(
        with_header(
            with_header(hs, "X-Content-Type-Options"@, "nosniff"@),
            "X-Frame-Options"@,
            "DENY"@,
        ),
        "X-XSS-Protection"@,
        "1; mode=block"@,
    )
}

/// The pairs of `list` as character sequences.
pub open spec fn entries_view(list: Seq<(String, String)>) -> Seq<HeaderView> {
    list.map_values(|h: (String, String)| (h.0@, h.1@))
}

/// Sets `name` to `value` in a list of pairs: the first pair of that name
/// takes the value in place, and with none the pair is appended.
pub fn set_entry(list: &mut Vec<(String, String)>, name_s: String, value_s: String)
    ensures
        entries_view(final(list)@) == with_header(entries_view(old(list)@), name_s@, value_s@),
        names_unique(entries_view(old(list)@)) ==> names_unique(entries_view(final(list)@)),
{
    let ghost name = name_s@;
    let ghost value = value_s@;
    let ghost hs = entries_view(list@);
    let mut i: usize = 0;
    while i < list.len()
        invariant
            entries_view(list@) == hs,
            hs == entries_view(old(list)@),
            list@.len() == hs.len(),
            name_s@ == name,
            value_s@ == value,
            i <= hs.len(),
            forall|j: int| 0 <= j < i ==> hs[j].0 != name,
        decreases list.len() - i,
    {
        if list[i].0 == name_s {
            proof {
                assert(hs[i as int].0 == name);
                assert(has_header(hs, name));
                let k = header_index(hs, name);
                if k < i {
                    assert(hs[k].0 != name);
                }
                if k > i {
                    assert(hs[i as int].0 != name);
                }
            }
            list.set(i, (name_s, value_s));
            assert(entries_view(list@) =~= with_header(hs, name, value));
            proof {
                let n = entries_view(list@);
                if names_unique(hs) {
                    assert forall|a: int, b: int|
                        0 <= a < n.len() && 0 <= b < n.len() && a != b implies n[a].0 != n[b].0 by {
                        assert(n[a].0 == hs[a].0);
                        assert(n[b].0 == hs[b].0);
                    }
                }
            }
            return;
        }
        i = i + 1;
    }
    assert(!has_header(hs, name));
    list.push((name_s, value_s));
    assert(entries_view(list@) =~= with_header(hs, name, value));
}

impl HttpResponse {
    /// The headers as character sequences, in order.
    pub open spec fn header_view(&self) -> Seq<HeaderView> {
        entries_view(self.headers@)
    }

    /// The header names are unique.
    pub open spec fn wf(&self) -> bool {
        names_unique(self.header_view())
    }

    /// A response with the given status and body and no headers.
    pub fn new(status_code: u16, status_text: &str, body: Vec<u8>) -> (r: HttpResponse)
        ensures
            r.status_code == status_code,
            r.status_text@ == status_text@,
            r.header_view() == Seq::<HeaderView>::empty(),
            r.body@ == body@,
            r.wf(),
    {
        let r = HttpResponse {
            status_code,
            status_text: status_text.to_owned(),
            headers: Vec::new(),
            body,
        };
        assert(r.header_view() =~= Seq::<HeaderView>::empty());
        r
    }

    /// `200 OK` with the given body.
    pub fn ok(body: Vec<u8>) -> (r: HttpResponse)
        ensures
            r.status_code == 200 && r.status_text@ == "OK"@,
            r.header_view() == Seq::<HeaderView>::empty(),
            r.body@ == body@,
            r.wf(),
    {
        HttpResponse::new(200, "OK", body)
    }

    /// `404 Not Found` with the given body.
    pub fn not_found(body: Vec<u8>) -> (r: HttpResponse)
        ensures
            r.status_code == 404 && r.status_text@ == "Not Found"@,
            r.header_view() == Seq::<HeaderView>::empty(),
            r.body@ == body@,
            r.wf(),
    {
        HttpResponse::new(404, "Not Found", body)
    }

    /// `500 Internal Server Error` with the given body.
    pub fn internal_server_error(body: Vec<u8>) -> (r: HttpResponse)
        ensures
            r.status_code == 500 && r.status_text@ == "Internal Server Error"@,
            r.header_view() == Seq::<HeaderView>::empty(),
            r.body@ == body@,
            r.wf(),
    {
        HttpResponse::new(500, "Internal Server Error", body)
    }

    /// Sets header `name` to `value`, replacing an earlier value of the same
    /// name in place.
    pub fn set_header(&mut self, name: &str, value: &str)
        ensures
            final(self).header_view() == with_header(old(self).header_view(), name@, value@),
            final(self).status_code == old(self).status_code,
            final(self).status_text == old(self).status_text,
            final(self).body == old(self).body,
            old(self).wf() ==> final(self).wf(),
    {
        set_entry(&mut self.headers, name.to_owned(), value.to_owned());
    }

    /// Sets `Content-Type`.
    pub fn set_content_type(&mut self, content_type: &str)
        ensures
            final(self).header_view() == with_header(old(self).header_view(), "Content-Type"@, content_type@),
            final(self).status_code == old(self).status_code,
            final(self).status_text == old(self).status_text,
            final(self).body == old(self).body,
            old(self).wf() ==> final(self).wf(),
    {
        self.set_header("Content-Type", content_type);
    }

    /// Sets `Content-Length` to the length of the body.
    pub fn set_content_length(&mut self)
        ensures
            final(self).header_view() == with_header(
                old(self).header_view(),
                "Content-Length"@,
                decimal(old(self).body@.len()),
            ),
            final(self).status_code == old(self).status_code,
            final(self).status_text == old(self).status_text,
            final(self).body == old(self).body,
            old(self).wf() ==> final(self).wf(),
    {
        let mut len = String::new();
        push_decimal(&mut len, self.body.len() as u64);
        self.set_header("Content-Length", len.as_str());
    }

    /// Sets `Cache-Control`.
    pub fn set_cache_control(&mut self, cache_control: &str)
        ensures
            final(self).header_view() == with_header(old(self).header_view(), "Cache-Control"@, cache_control@),
            final(self).status_code == old(self).status_code,
            final(self).status_text == old(self).status_text,
            final(self).body == old(self).body,
            old(self).wf() ==> final(self).wf(),
    {
        self.set_header("Cache-Control", cache_control);
    }

    /// Sets `Last-Modified` (a date in HTTP format).
    pub fn set_last_modified(&mut self, last_modified: &str)
        ensures
            final(self).header_view() == with_header(old(self).header_view(), "Last-Modified"@, last_modified@),
            final(self).status_code == old(self).status_code,
            final(self).status_text == old(self).status_text,
            final(self).body == old(self).body,
            old(self).wf() ==> final(self).wf(),
    {
        self.set_header("Last-Modified", last_modified);
    }

    /// Sets `ETag`.
    pub fn set_etag(&mut self, etag: &str)
        ensures
            final(self).header_view() == with_header(old(self).header_view(), "ETag"@, etag@),
            final(self).status_code == old(self).status_code,
            final(self).status_text == old(self).status_text,
            final(self).body == old(self).body,
            old(self).wf() ==> final(self).wf(),
    {
        self.set_header("ETag", etag);
    }

    /// `301 Moved Permanently` to `location`, with an empty body.
    pub fn moved_permanently(location: &str) -> (r: HttpResponse)
        ensures
            r.status_code == 301 && r.status_text@ == "Moved Permanently"@,
            r.header_view() == seq![("Location"@, location@)],
            r.body@.len() == 0,
            r.wf(),
    {
        let mut r = HttpResponse::new(301, "Moved Permanently", Vec::new());
        r.set_header("Location", location);
        assert(!has_header(Seq::<HeaderView>::empty(), "Location"@));
        assert(Seq::<HeaderView>::empty().push(("Location"@, location@)) =~= seq![("Location"@, location@)]);
        r
    }

    /// `304 Not Modified` carrying the validators, with an empty body.
    pub fn not_modified(last_modified: &str, etag: &str) -> (r: HttpResponse)
        ensures
            r.status_code == 304 && r.status_text@ == "Not Modified"@,
            r.header_view() == seq![("Last-Modified"@, last_modified@), ("ETag"@, etag@)],
            r.body@.len() == 0,
            r.wf(),
    {
        let mut r = HttpResponse::new(304, "Not Modified", Vec::new());
        r.set_last_modified(last_modified);
        let ghost h1 = r.header_view();
        assert(h1 =~= seq![("Last-Modified"@, last_modified@)]);
        r.set_etag(etag);
        proof {
            reveal_strlit("Last-Modified");
            reveal_strlit("ETag");
            assert("Last-Modified"@ != "ETag"@) by {
                assert("Last-Modified"@.len() != "ETag"@.len());
            }
            assert(!has_header(h1, "ETag"@));
        }
        assert(r.header_view() =~= seq![("Last-Modified"@, last_modified@), ("ETag"@, etag@)]);
        r
    }
    /// Sets `Last-Modified`, `ETag` and the `Cache-Control` that the duration
    /// calls for (see `cache_control_for`).
    pub fn add_caching_headers(&mut self, last_modified: &str, etag: &str, cache_duration_seconds: i64)
        ensures
            final(self).header_view() == with_header(
                with_header(
                    with_header(old(self).header_view(), "Last-Modified"@, last_modified@),
                    "ETag"@,
                    etag@,
                ),
                "Cache-Control"@,
                cache_control_for(cache_duration_seconds as int),
            ),
            final(self).status_code == old(self).status_code,
            final(self).status_text == old(self).status_text,
            final(self).body == old(self).body,
            old(self).wf() ==> final(self).wf(),
    {
        self.set_last_modified(last_modified);
        self.set_etag(etag);
        if cache_duration_seconds == -1 {
            self.set_cache_control("public, max-age=31536000, immutable");
        } else if cache_duration_seconds == 0 {
            self.set_cache_control("no-cache, no-store, must-revalidate");
        } else if cache_duration_seconds > 0 {
            let mut cc = String::new();
            push_str(&mut cc, "public, max-age=");
            push_decimal(&mut cc, cache_duration_seconds as u64);
            self.set_cache_control(cc.as_str());
        } else {
            self.set_cache_control("no-cache");
        }
    }

    /// Adds the content-sniffing, framing and XSS headers and sets
    /// `Cache-Control: no-cache`.
    pub fn add_security_headers(&mut self)
        ensures
            final(self).header_view() == with_header(
                with_security_headers(old(self).header_view()),
                "Cache-Control"@,
                "no-cache"@,
            ),
            final(self).status_code == old(self).status_code,
            final(self).status_text == old(self).status_text,
            final(self).body == old(self).body,
            old(self).wf() ==> final(self).wf(),
    {
        self.add_security_headers_no_cache_override();
        self.set_cache_control("no-cache");
    }

    /// Adds the content-sniffing, framing and XSS headers and leaves
    /// `Cache-Control` as it is.
    pub fn add_security_headers_no_cache_override(&mut self)
        ensures
            final(self).header_view() == with_security_headers(old(self).header_view()),
            final(self).status_code == old(self).status_code,
            final(self).status_text == old(self).status_text,
            final(self).body == old(self).body,
            old(self).wf() ==> final(self).wf(),
    {
        self.set_header("X-Content-Type-Options", "nosniff");
        self.set_header("X-Frame-Options", "DENY");
        self.set_header("X-XSS-Protection", "1; mode=block");
    }

    /// The response as bytes for `version`: the body alone for HTTP/0.9;
    /// otherwise status line, headers, the connection directive that
    /// `keep_alive` calls for, a blank line and the body.
    pub fn encode(&self, version: &HttpVersion, keep_alive: bool) -> (r: Vec<u8>)
        ensures
            r@ == wire_bytes(
                *version,
                self.status_code,
                self.status_text@,
                self.header_view(),
                self.body@,
                keep_alive,
            ),
    {
        let mut out: Vec<u8> = Vec::new();
        if *version == HttpVersion::Http09 {
            out.extend_from_slice(self.body.as_slice());
            assert(out@ =~= self.body@);
            return out;
        }
        let mut head = String::new();
        push_str(&mut head, version.status_line_prefix());
        push_char(&mut head, ' ');
        push_decimal(&mut head, self.status_code as u64);
        push_char(&mut head, ' ');
        push_str(&mut head, self.status_text.as_str());
        push_str(&mut head, "\r\n");
        let ghost start = head@;
        let ghost hv = self.header_view();
        let mut i: usize = 0;
        while i < self.headers.len()
            invariant
                hv == self.header_view(),
                hv.len() == self.headers@.len(),
                i <= hv.len(),
                head@ == start + header_lines(hv.subrange(0, i as int)),
            decreases self.headers.len() - i,
        {
            let ghost before = head@;
            push_str(&mut head, self.headers[i].0.as_str());
            push_str(&mut head, ": ");
            push_str(&mut head, self.headers[i].1.as_str());
            push_str(&mut head, "\r\n");
            proof {
                let sub = hv.subrange(0, i + 1);
                assert(sub.drop_last() =~= hv.subrange(0, i as int));
                assert(sub.last() == hv[i as int]);
                assert(head@ =~= start + header_lines(sub));
            }
            i = i + 1;
        }
        assert(hv.subrange(0, hv.len() as int) =~= hv);
        match version {
            HttpVersion::Http11 => {
                if !keep_alive {
                    push_str(&mut head, "Connection: close\r\n");
                }
            },
            HttpVersion::Http10 => {
                if keep_alive {
                    push_str(&mut head, "Connection: Keep-Alive\r\n");
                }
            },
            HttpVersion::Http09 => {},
        }
        push_str(&mut head, "\r\n");
        proof {
            reveal_strlit("");
            reveal_strlit(" ");
            assert(""@ =~= Seq::<char>::empty());
            assert(" "@ =~= seq![' ']);
        }
        assert(head@ =~= head_text(*version, self.status_code, self.status_text@, hv, keep_alive));
        out.extend_from_slice(head.as_str().as_bytes());
        out.extend_from_slice(self.body.as_slice());
        assert(out@ =~= wire_bytes(*version, self.status_code, self.status_text@, hv, self.body@, keep_alive));
        out
    }
}

/// HTTP/0.9 responses are the body alone, whatever status and headers were set.
pub proof fn lemma_http09_body_only(
    code: u16,
    text: Seq<char>,
    hs: Seq<HeaderView>,
    body: Seq<u8>,
    keep_alive: bool,
)
    ensures
        wire_bytes(HttpVersion::Http09, code, text, hs, body, keep_alive) == body,
{
}

/// HTTP/1.1 says nothing of the connection when it persists, and
/// `Connection: close` right before the blank line when it does not.
pub proof fn lemma_http11_connection_directive(code: u16, text: Seq<char>, hs: Seq<HeaderView>)
    ensures
        head_text(HttpVersion::Http11, code, text, hs, true) == "HTTP/1.1"@ + " "@ + decimal(
            code as nat,
        ) + " "@ + text + "\r\n"@ + header_lines(hs) + "\r\n"@,
        head_text(HttpVersion::Http11, code, text, hs, false) == "HTTP/1.1"@ + " "@ + decimal(
            code as nat,
        ) + " "@ + text + "\r\n"@ + header_lines(hs) + "Connection: close\r\n"@ + "\r\n"@,
{
    reveal_strlit("");
    assert(""@ =~= Seq::<char>::empty());
    let base = "HTTP/1.1"@ + " "@ + decimal(code as nat) + " "@ + text + "\r\n"@ + header_lines(hs);
    assert(base + ""@ =~= base);
}

} // verus!
