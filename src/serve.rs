//! What a request is answered with: the serving decision and the responses
//! for files, simple pages and redirects.

use vstd::prelude::*;
use vstd::slice::slice_to_vec;
use crate::cache::{FileCacheInfo, cache_duration_for};
use crate::date::http_date;
use crate::mime::mime_of_path;
use crate::response::{
    HeaderView, HttpResponse, cache_control_for, with_header, with_security_headers, wire_bytes,
};
use crate::percent::percent_decoded;
use crate::security::{
    SecureFileServer, SecurityConfig, ServeFacts, ServeOutcome, before_first, clean, clean_tail,
    file_verdict, lemma_empty_clean, path_part, redirect_location, lemma_index_names_kept, lemma_push_clean,
    lemma_resolved_path_clean, lemma_walk_clean, push_path, push_segment, resolve_directory,
    resolved_dir, resolved_path,
};
use crate::text::{chars_of, decimal, ends_with, occurs_at_exec, push_decimal, starts_with};
use crate::version::HttpVersion;

verus! {

/// The bytes of a `301` redirect to `location`.
pub open spec fn redirect_bytes(location: Seq<char>, version: HttpVersion, keep_alive: bool) -> Seq<u8> {
    wire_bytes(
        version,
        301,
        "Moved Permanently"@,
        seq![("Location"@, location)],
        Seq::empty(),
        keep_alive,
    )
}

/// Headers of a simple page (a challenge answer or a default page): type and
/// length, the date if given, the security headers for HTML, and a
/// `Cache-Control` that forbids caching plain text and allows five minutes
/// otherwise.
pub open spec fn simple_headers(
    content_type: Seq<char>,
    length: nat,
    last_modified: Option<Seq<char>>,
) -> Seq<HeaderView> {
    let h1 = seq![("Content-Type"@, content_type), ("Content-Length"@, decimal(length))];
    let h2 = match last_modified {
        Some(d) => with_header(h1, "Last-Modified"@, d),
        None => h1,
    };
    let h3 = if starts_with(content_type, "text/html"@) {
        with_header(with_security_headers(h2), "Cache-Control"@, "no-cache"@)
    } else {
        h2
    };
    if starts_with(content_type, "text/plain"@) {
        with_header(h3, "Cache-Control"@, "no-cache"@)
    } else {
        with_header(h3, "Cache-Control"@, "public, max-age=300"@)
    }
}

/// Headers of a file response: type by extension, the length, the
/// validators with the cache lifetime of the type, and the security headers.
pub open spec fn file_headers(path: Seq<char>, length: nat, info: FileCacheInfo) -> Seq<HeaderView> {
    let mime = mime_of_path(path);
    with_security_headers(
        with_header(
            with_header(
                with_header(
                    seq![("Content-Type"@, mime), ("Content-Length"@, decimal(length))],
                    "Last-Modified"@,
                    http_date(info.last_modified as nat),
                ),
                "ETag"@,
                info.etag@,
            ),
            "Cache-Control"@,
            cache_control_for(cache_duration_for(mime) as int),
        ),
    )
}

/// How a request target is answered, given what the file system showed.
/// Where the target resolves to a directory that exists: without a trailing
/// slash on its path it is redirected to the path with one; with it, it is
/// answered by its `index.html`, else its `index.htm`, else "not found".
/// Anything else is resolved as a file and checked, every refusal being
/// "not found".
pub open spec fn serve_choice(
    cfg: SecurityConfig,
    request_path: Seq<char>,
    root: Seq<char>,
    facts: ServeFacts,
) -> Result<Seq<char>, Option<Seq<u8>>> {
    if facts.resolved_is_dir && resolved_dir(request_path, root) is Ok {
        let dir = resolved_dir(request_path, root)->Ok_0;
        if !ends_with(path_part(request_path), "/"@) {
            Err(Some(redirect_bytes(redirect_location(request_path), HttpVersion::Http11, false)))
        } else if facts.has_index_html {
            Ok(push_path(dir, "index.html"@))
        } else if facts.has_index_htm {
            Ok(push_path(dir, "index.htm"@))
        } else {
            Err(None)
        }
    } else {
        match (resolved_path(request_path, root), facts.resolved) {
            (Ok(p), Some(f)) => match file_verdict(cfg, root, p, f) {
                Ok(q) => Ok(q),
                Err(_) => Err(None),
            },
            _ => Err(None),
        }
    }
}

/// The outcome matches the choice: a file to read (`Ok`), bytes to send
/// (`Err(Some)`), or "not found" (`Err(None)`).
pub open spec fn outcome_is(r: ServeOutcome, c: Result<Seq<char>, Option<Seq<u8>>>) -> bool {
    match (r, c) {
        (ServeOutcome::ReadFile(f), Ok(p)) => f@ == p,
        (ServeOutcome::Respond(b), Err(Some(x))) => b@ == x,
        (ServeOutcome::NotFound, Err(None)) => true,
        _ => false,
    }
}

impl SecureFileServer {
    /// The encoded `301` redirect to `location`.
    pub fn generate_redirect_response(&self, location: &str, version: &HttpVersion, keep_alive: bool) -> (r: Vec<u8>)
        ensures
            r@ == redirect_bytes(location@, *version, keep_alive),
    {
        let response = HttpResponse::moved_permanently(location);
        response.encode(version, keep_alive)
    }

    /// Decides how `request_path` is answered below `document_root`.
    pub fn serve_file(&self, request_path: &str, document_root: &str, facts: &ServeFacts) -> (r: ServeOutcome)
        ensures
            outcome_is(r, serve_choice(self.cfg(), request_path@, document_root@, *facts)),
    {
        if facts.resolved_is_dir {
            if let Ok(mut dir) = resolve_directory(request_path, document_root) {
                match self.check_redirect(request_path, document_root, true) {
                    Some(url) => {
                        return ServeOutcome::Respond(
                            self.generate_redirect_response(url.as_str(), &HttpVersion::Http11, false),
                        );
                    },
                    None => {},
                }
                if facts.has_index_html {
                    push_segment(&mut dir, "index.html");
                    return ServeOutcome::ReadFile(dir);
                } else if facts.has_index_htm {
                    push_segment(&mut dir, "index.htm");
                    return ServeOutcome::ReadFile(dir);
                } else {
                    return ServeOutcome::NotFound;
                }
            }
        }
        match self.sanitize_path_with_root(request_path, document_root) {
            Ok(p) => match &facts.resolved {
                Some(f) => match self.check_file(document_root, p.as_str(), f) {
                    Ok(q) => ServeOutcome::ReadFile(q),
                    Err(_) => ServeOutcome::NotFound,
                },
                None => ServeOutcome::NotFound,
            },
            Err(_) => ServeOutcome::NotFound,
        }
    }

    /// A `200` page of `content_type`, for the given version and keep-alive
    /// decision; `last_modified` is an HTTP date to announce, if any.
    pub fn generate_simple_http_response_with_version(
        &self,
        content: &[u8],
        content_type: &str,
        last_modified: Option<&str>,
        version: &HttpVersion,
        keep_alive: bool,
    ) -> (r: Vec<u8>)
        ensures
            r@ == wire_bytes(
                *version,
                200,
                "OK"@,
                simple_headers(
                    content_type@,
                    content@.len(),
                    match last_modified {
                        Some(d) => Some(d@),
                        None => None,
                    },
                ),
                content@,
                keep_alive,
            ),
    {
        let mut response = HttpResponse::ok(slice_to_vec(content));
        response.set_content_type(content_type);
        response.set_content_length();
        proof {
            reveal_strlit("Content-Type");
            reveal_strlit("Content-Length");
            assert("Content-Type"@ != "Content-Length"@) by {
                assert("Content-Type"@[8] != "Content-Length"@[8]);
            }
        }
        assert(response.header_view() =~= seq![
            ("Content-Type"@, content_type@),
            ("Content-Length"@, decimal(content@.len())),
        ]);
        if let Some(d) = last_modified {
            response.set_last_modified(d);
        }
        let t = chars_of(content_type);
        if occurs_at_exec(&t, &chars_of("text/html"), 0) {
            response.add_security_headers();
        }
        if occurs_at_exec(&t, &chars_of("text/plain"), 0) {
            response.set_cache_control("no-cache");
        } else {
            response.set_cache_control("public, max-age=300");
        }
        response.encode(version, keep_alive)
    }

    /// A simple page over HTTP/1.1, closing the connection.
    pub fn generate_simple_http_response(&self, content: &[u8], content_type: &str, last_modified: Option<&str>) -> (r: Vec<u8>)
        ensures
            r@ == wire_bytes(
                HttpVersion::Http11,
                200,
                "OK"@,
                simple_headers(
                    content_type@,
                    content@.len(),
                    match last_modified {
                        Some(d) => Some(d@),
                        None => None,
                    },
                ),
                content@,
                false,
            ),
    {
        self.generate_simple_http_response_with_version(content, content_type, last_modified, &HttpVersion::Http11, false)
    }

    fn file_response(&self, file_path: &str, body: Vec<u8>, content_length: usize, cache: &FileCacheInfo) -> (r: HttpResponse)
        ensures
            r.status_code == 200 && r.status_text@ == "OK"@,
            r.header_view() == file_headers(file_path@, content_length as nat, *cache),
            r.body@ == body@,
    {
        let mime = self.get_mime_type(file_path);
        let mut response = HttpResponse::ok(body);
        response.set_content_type(mime.as_str());
        let mut len = String::new();
        push_decimal(&mut len, content_length as u64);
        response.set_header("Content-Length", len.as_str());
        proof {
            reveal_strlit("Content-Type");
            reveal_strlit("Content-Length");
            assert("Content-Type"@ != "Content-Length"@) by {
                assert("Content-Type"@[8] != "Content-Length"@[8]);
            }
        }
        assert(response.header_view() =~= seq![
            ("Content-Type"@, mime@),
            ("Content-Length"@, decimal(content_length as nat)),
        ]);
        let date = cache.last_modified_http();
        let duration = cache.get_cache_duration(mime.as_str());
        response.add_caching_headers(date.as_str(), cache.etag.as_str(), duration);
        response.add_security_headers_no_cache_override();
        response
    }

    /// The `200` response carrying the file at `file_path` (already
    /// resolved and checked), for the given version and keep-alive decision.
    pub fn generate_http_response_with_version(
        &self,
        file_path: &str,
        content: &[u8],
        cache: &FileCacheInfo,
        version: &HttpVersion,
        keep_alive: bool,
    ) -> (r: Vec<u8>)
        ensures
            r@ == wire_bytes(
                *version,
                200,
                "OK"@,
                file_headers(file_path@, content@.len(), *cache),
                content@,
                keep_alive,
            ),
    {
        let response = self.file_response(file_path, slice_to_vec(content), content.len(), cache);
        response.encode(version, keep_alive)
    }

    /// The file response over HTTP/1.1, closing the connection.
    pub fn generate_http_response(&self, file_path: &str, content: &[u8], cache: &FileCacheInfo) -> (r: Vec<u8>)
        ensures
            r@ == wire_bytes(
                HttpVersion::Http11,
                200,
                "OK"@,
                file_headers(file_path@, content@.len(), *cache),
                content@,
                false,
            ),
    {
        self.generate_http_response_with_version(file_path, content, cache, &HttpVersion::Http11, false)
    }

    /// The status line and headers of the file response alone, the body of
    /// `content_length` bytes to follow separately.
    pub fn generate_file_response_headers_with_version(
        &self,
        file_path: &str,
        content_length: usize,
        cache: &FileCacheInfo,
        version: &HttpVersion,
        keep_alive: bool,
    ) -> (r: Vec<u8>)
        ensures
            r@ == wire_bytes(
                *version,
                200,
                "OK"@,
                file_headers(file_path@, content_length as nat, *cache),
                Seq::empty(),
                keep_alive,
            ),
    {
        let response = self.file_response(file_path, Vec::new(), content_length, cache);
        response.encode(version, keep_alive)
    }

    /// The file response headers over HTTP/1.1, closing the connection.
    pub fn generate_file_response_headers(&self, file_path: &str, content_length: usize, cache: &FileCacheInfo) -> (r: Vec<u8>)
        ensures
            r@ == wire_bytes(
                HttpVersion::Http11,
                200,
                "OK"@,
                file_headers(file_path@, content_length as nat, *cache),
                Seq::empty(),
                false,
            ),
    {
        self.generate_file_response_headers_with_version(file_path, content_length, cache, &HttpVersion::Http11, false)
    }
}

proof fn lemma_prefix(root: Seq<char>, t: Seq<char>)
    ensures
        starts_with(root + t, root),
        (root + t).subrange(root.len() as int, (root + t).len() as int) == t,
{
    assert forall|k: int| 0 <= k < root.len() implies #[trigger] (root + t)[0 + k] == root[k] by {}
    assert((root + t).subrange(root.len() as int, (root + t).len() as int) =~= t);
}

/// Where symbolic links are not followed, every file chosen lies below the
/// root, and no segment after the root holds `..` or starts with `.`.
pub proof fn lemma_served_files_stay_below_root(
    cfg: SecurityConfig,
    request_path: Seq<char>,
    root: Seq<char>,
    facts: ServeFacts,
)
    requires
        !cfg.follow_symlinks,
    ensures
        serve_choice(cfg, request_path, root, facts) matches Ok(p) ==> starts_with(p, root) && clean(
            p.subrange(root.len() as int, p.len() as int),
        ),
{
    if let Ok(p) = serve_choice(cfg, request_path, root, facts) {
        if facts.resolved_is_dir && resolved_dir(request_path, root) is Ok && ends_with(
            path_part(request_path),
            "/"@,
        ) {
            let path = before_first(before_first(request_path, '?'), '#');
            let d = percent_decoded(path)->Some_0;
            let empty = Seq::<char>::empty();
            lemma_empty_clean();
            assert(root + empty =~= root);
            lemma_walk_clean(d, 0, 0, root, empty);
            let dir = resolved_dir(request_path, root)->Ok_0;
            let t = choose|t: Seq<char>| dir == root + t && clean_tail(t);
            lemma_index_names_kept();
            let name = if facts.has_index_html { "index.html"@ } else { "index.htm"@ };
            let t2 = lemma_push_clean(root, t, name);
            assert(p == root + t2);
            lemma_prefix(root, t2);
        } else {
            lemma_resolved_path_clean(request_path, root);
            let q = resolved_path(request_path, root)->Ok_0;
            assert(p == q);
            if q == root {
                assert(root =~= root + Seq::<char>::empty());
                lemma_prefix(root, Seq::<char>::empty());
            }
        }
    }
}

} // verus!
