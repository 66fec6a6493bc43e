//! Path security: domain-scoped document roots, resolution of request
//! targets to files below the root, and the file policy (size, extensions).

use vstd::prelude::*;
use crate::mime::{MimeTypes, extension, extension_of, mime_of_path};
use crate::percent::{lemma_decoding_keeps_dots, percent_decode, percent_decoded};
use crate::text::{
    chars_of, first_index_from, lower_of, to_lowercase, contains, contains_exec, ends_with, occurs_at, occurs_at_exec, push_char, push_str,
    starts_with,
};
use crate::version::HttpVersion;

verus! {

/// Why a request target was refused. All of them reach the client as the
/// same "not found".
#[derive(Debug, Clone, Copy, PartialEq, Eq, Structural)]
pub enum PathError {
    /// The percent-decoded target is not UTF-8.
    BadEncoding,
    /// A path segment is or contains `..`.
    Traversal,
    /// A path segment starts with `.`.
    HiddenFile,
    /// The resolved path is not below the document root.
    OutsideRoot,
    /// Nothing exists at the resolved path.
    NotFound,
    /// The resolved path is not a regular file.
    NotAFile,
    /// The file is larger than the configured maximum.
    TooLarge,
    /// The extension is blocked, or missing from a non-empty allow-list.
    ExtensionRefused,
}

/// `char::is_alphanumeric`: alphabetic or numeric in Unicode.
pub uninterp spec fn alphanumeric(c: char) -> bool;

/// Relies on `char::is_alphanumeric`, a fixed Unicode property of the
/// character; among ASCII characters exactly the letters and digits have it.
#[verifier::external_body]
fn is_alphanumeric(c: char) -> (r: bool)
    ensures
        r == alphanumeric(c),
        (c as u32) < 128 ==> (r <==> (('a' <= c && c <= 'z') || ('A' <= c && c <= 'Z') || ('0'
            <= c && c <= '9'))),
{
    c.is_alphanumeric()
}

/// A host name that may name a directory: letters, digits and dots only,
/// at least one dot, no dot at either end, no `..`.
pub open spec fn domain_safe(d: Seq<char>) -> bool {
    &&& forall|i: int| 0 <= i < d.len() ==> alphanumeric(#[trigger] d[i]) || d[i] == '.'
    &&& !contains(d, ".."@)
    &&& contains(d, "."@)
    &&& !starts_with(d, "."@)
    &&& !ends_with(d, "."@)
    &&& !contains(d, "..."@)
}

/// Where the per-domain document roots live.
pub const DOMAIN_ROOT_BASE: &'static str = "/var/www";

/// `base` with `seg` appended as `PathBuf::push` appends a relative segment.
pub open spec fn push_path(base: Seq<char>, seg: Seq<char>) -> Seq<char> {
    if base.len() == 0 {
        seg
    } else if base.last() == '/' {
        base + seg
    } else {
        base + seq!['/'] + seg
    }
}

/// Appends `seg` to the path `base`.
pub fn push_segment(base: &mut String, seg: &str)
    ensures
        final(base)@ == push_path(old(base)@, seg@),
{
    let v = chars_of(base.as_str());
    if v.len() > 0 && v[v.len() - 1] != '/' {
        push_char(base, '/');
    }
    push_str(base, seg);
}

/// Security settings of one server.
#[derive(Debug, Clone)]
pub struct SecurityConfig {
    /// Directory below which everything served must lie.
    pub document_root: String,
    /// Whether symbolic links are resolved before the root check.
    pub follow_symlinks: bool,
    /// Largest file served, in bytes.
    pub max_file_size: u64,
    /// Extensions served (lower case); empty means all.
    pub allowed_extensions: Vec<String>,
    /// Extensions never served (lower case).
    pub blocked_extensions: Vec<String>,
    /// User to switch to after binding.
    pub drop_to_uid: Option<u32>,
    /// Group to switch to after binding.
    pub drop_to_gid: Option<u32>,
    /// Seconds an idle persistent connection is kept.
    pub keep_alive_timeout_secs: u64,
    /// Requests served on one persistent connection.
    pub keep_alive_max_requests: usize,
    /// Oldest protocol version accepted.
    pub minimum_http_version: HttpVersion,
}

impl Default for SecurityConfig {
    /// Root `/var/www/html`, no symlinks, 10 TiB files, no extension lists,
    /// no privilege drop, 5 s and 100 requests per connection, any version.
    fn default() -> (r: SecurityConfig)
        ensures
            r.document_root@ == "/var/www/html"@,
            !r.follow_symlinks,
            r.max_file_size == 10995116277760,
            r.allowed_extensions@.len() == 0,
            r.blocked_extensions@.len() == 0,
            r.drop_to_uid is None && r.drop_to_gid is None,
            r.keep_alive_timeout_secs == 5,
            r.keep_alive_max_requests == 100,
            r.minimum_http_version == HttpVersion::Http09,
    {
        SecurityConfig {
            document_root: "/var/www/html".to_owned(),
            follow_symlinks: false,
            max_file_size: 10995116277760,
            allowed_extensions: Vec::new(),
            blocked_extensions: Vec::new(),
            drop_to_uid: None,
            drop_to_gid: None,
            keep_alive_timeout_secs: 5,
            keep_alive_max_requests: 100,
            minimum_http_version: HttpVersion::Http09,
        }
    }
}

pub open spec fn names(v: Seq<String>) -> Seq<Seq<char>> {
    v.map_values(|s: String| s@)
}

/// Whether a file with extension `ext` may be served: not blocked, and on
/// the allow-list when there is one; compared in lower case
/// (`str::to_lowercase`).
pub open spec fn extension_allowed(cfg: SecurityConfig, ext: Seq<char>) -> bool {
    &&& !names(cfg.blocked_extensions@).contains(lower_of(ext))
    &&& (cfg.allowed_extensions@.len() == 0 || names(cfg.allowed_extensions@).contains(lower_of(ext)))
}

/// Whether `v` holds a string equal to `s`.
fn holds(v: &Vec<String>, s: &String) -> (r: bool)
    ensures
        r == names(v@).contains(s@),
{
    let mut i: usize = 0;
    while i < v.len()
        invariant
            i <= v@.len(),
            forall|k: int| 0 <= k < i ==> v@[k]@ != s@,
        decreases v.len() - i,
    {
        if v[i] == *s {
            assert(names(v@)[i as int] == s@);
            return true;
        }
        i = i + 1;
    }
    assert forall|k: int| 0 <= k < names(v@).len() implies names(v@)[k] != s@ by {
        assert(names(v@)[k] == v@[k]@);
    }
    false
}

/// The facts about a resolved path that only the file system knows.
#[derive(Debug, Clone)]
pub struct FileFacts {
    /// The path after canonicalization: the resolved path itself unless
    /// symbolic links are followed.
    pub canonical: String,
    /// Something exists there.
    pub exists: bool,
    /// It is a regular file.
    pub is_file: bool,
    /// Its size, when its metadata could be read.
    pub size: Option<u64>,
}

/// `path` lies at or below `root`, segment-wise.
pub open spec fn within_root(path: Seq<char>, root: Seq<char>) -> bool {
    path == root || (starts_with(path, root) && (root.len() > 0 && root.last() == '/' || (
    path.len() > root.len() && path[root.len() as int] == '/')))
}

/// Whether `path` lies at or below `root`.
pub fn is_within_root(path: &str, root: &str) -> (r: bool)
    ensures
        r == within_root(path@, root@),
{
    let p = chars_of(path);
    let q = chars_of(root);
    if !occurs_at_exec(&p, &q, 0) {
        if p.len() == q.len() {
            assert(p@ != q@) by {
                assert(!occurs_at(p@, q@, 0));
                if p@ == q@ {
                    assert(occurs_at(p@, q@, 0));
                }
            }
        }
        return false;
    }
    if p.len() == q.len() {
        assert forall|k: int| 0 <= k < p@.len() implies p@[k] == q@[k] by {
            assert(p@[0 + k] == q@[k]);
        }
        assert(p@ =~= q@);
        return true;
    }
    assert(p@ != q@);
    (q.len() > 0 && q[q.len() - 1] == '/') || p[q.len()] == '/'
}

/// The path whose file is served for the resolved path `resolved`: its
/// canonical form where symbolic links are followed, itself otherwise.
pub open spec fn served_path(cfg: SecurityConfig, resolved: Seq<char>, facts: FileFacts) -> Seq<char> {
    if cfg.follow_symlinks {
        facts.canonical@
    } else {
        resolved
    }
}

/// The checks on a resolved file, in order: below the root (after
/// canonicalization), present, a regular file, within the size limit, and
/// of an allowed extension.
pub open spec fn file_verdict(
    cfg: SecurityConfig,
    root: Seq<char>,
    resolved: Seq<char>,
    facts: FileFacts,
) -> Result<Seq<char>, PathError> {
    let path = served_path(cfg, resolved, facts);
    if !within_root(path, root) {
        Err(PathError::OutsideRoot)
    } else if !facts.exists {
        Err(PathError::NotFound)
    } else if !facts.is_file {
        Err(PathError::NotAFile)
    } else if facts.size matches Some(n) && n > cfg.max_file_size {
        Err(PathError::TooLarge)
    } else if extension_of(path) matches Some(e) && !extension_allowed(cfg, e) {
        Err(PathError::ExtensionRefused)
    } else {
        Ok(path)
    }
}

/// The part of `s` before the first `c` (all of `s` without one).
pub open spec fn before_first(s: Seq<char>, c: char) -> Seq<char> {
    s.subrange(0, first_index_from(s, c, 0))
}

/// `s` up to its first `c`.
pub fn cut_at(s: &Vec<char>, c: char) -> (r: Vec<char>)
    ensures
        r@ == before_first(s@, c),
{
    let mut i: usize = 0;
    while i < s.len() && s[i] != c
        invariant
            i <= s@.len(),
            first_index_from(s@, c, 0) == first_index_from(s@, c, i as int),
        decreases s.len() - i,
    {
        i = i + 1;
    }
    crate::text::sub_vec(s, 0, i)
}

/// One path segment applied to the path built so far: empty and `.`
/// segments change nothing, a segment holding `..` or starting with `.` is
/// refused, and any other is appended.
pub open spec fn apply_segment(acc: Result<Seq<char>, PathError>, seg: Seq<char>) -> Result<
    Seq<char>,
    PathError,
> {
    match acc {
        Err(e) => Err(e),
        Ok(a) => if seg.len() == 0 || seg == "."@ {
            Ok(a)
        } else if contains(seg, ".."@) {
            Err(PathError::Traversal)
        } else if seg[0] == '.' {
            Err(PathError::HiddenFile)
        } else {
            Ok(push_path(a, seg))
        },
    }
}

/// The segments of `p` (split at `/`) applied in order, the current one
/// having begun at `start` and scanning having reached `pos`.
pub open spec fn walk(p: Seq<char>, pos: int, start: int, acc: Result<Seq<char>, PathError>) -> Result<
    Seq<char>,
    PathError,
>
    decreases p.len() - pos,
{
    if pos >= p.len() {
        apply_segment(acc, p.subrange(start, p.len() as int))
    } else if p[pos] == '/' {
        walk(p, pos + 1, pos + 1, apply_segment(acc, p.subrange(start, pos)))
    } else {
        walk(p, pos + 1, start, acc)
    }
}

/// The path a request target names below `root`, or why it is refused:
/// query and fragment dropped, percent-decoded, an absolute path anchored
/// at the root, segments applied in order, `index.html` for the root
/// itself, and the result held to lie below the root.
pub open spec fn resolved_path(target: Seq<char>, root: Seq<char>) -> Result<Seq<char>, PathError> {
    let path = before_first(before_first(target, '?'), '#');
    match percent_decoded(path) {
        None => Err(PathError::BadEncoding),
        Some(d) => {
            let init = if starts_with(d, "/"@) { root } else { Seq::empty() };
            match walk(d, 0, 0, Ok(init)) {
                Err(e) => Err(e),
                Ok(a) => {
                    let full = if a.len() == 0 || a == root {
                        push_path(a, "index.html"@)
                    } else {
                        a
                    };
                    if within_root(full, root) {
                        Ok(full)
                    } else {
                        Err(PathError::OutsideRoot)
                    }
                },
            }
        },
    }
}

pub proof fn lemma_walk_keeps_error(p: Seq<char>, pos: int, start: int, e: PathError)
    ensures
        walk(p, pos, start, Err(e)) == Err::<Seq<char>, PathError>(e),
    decreases p.len() - pos,
{
    if pos < p.len() {
        lemma_walk_keeps_error(p, pos + 1, if p[pos] == '/' { pos + 1 } else { start }, e);
    }
}

/// Applies the segment `d[start..end]` to the path `acc`.
fn apply_segment_exec(acc: &mut String, d: &Vec<char>, start: usize, end: usize) -> (r: Result<(), PathError>)
    requires
        start <= end <= d@.len(),
    ensures
        match apply_segment(Ok(old(acc)@), d@.subrange(start as int, end as int)) {
            Ok(a) => r is Ok && final(acc)@ == a,
            Err(e) => r == Err::<(), PathError>(e),
        },
{
    let seg = crate::text::sub_vec(d, start, end);
    proof {
        reveal_strlit(".");
    }
    if seg.len() == 0 || (seg.len() == 1 && seg[0] == '.') {
        assert(seg.len() == 1 ==> seg@ =~= "."@);
        return Ok(());
    }
    assert(seg@ != "."@);
    if contains_exec(&seg, &chars_of("..")) {
        return Err(PathError::Traversal);
    }
    if seg[0] == '.' {
        return Err(PathError::HiddenFile);
    }
    let s = crate::text::string_of(&seg, 0, seg.len());
    assert(seg@.subrange(0, seg@.len() as int) =~= seg@);
    push_segment(acc, s.as_str());
    Ok(())
}

pub open spec fn same_path(r: Result<String, PathError>, s: Result<Seq<char>, PathError>) -> bool {
    match (r, s) {
        (Ok(a), Ok(b)) => a@ == b,
        (Err(e), Err(f)) => e == f,
        _ => false,
    }
}

/// The percent-decoded path of a request target (query and fragment
/// dropped), if it is UTF-8.
fn decoded_path(request_path: &str) -> (r: Option<Vec<char>>)
    ensures
        match (r, percent_decoded(before_first(before_first(request_path@, '?'), '#'))) {
            (Some(v), Some(d)) => v@ == d,
            (None, None) => true,
            _ => false,
        },
{
    let target = chars_of(request_path);
    let path = cut_at(&cut_at(&target, '?'), '#');
    let path_s = crate::text::string_of(&path, 0, path.len());
    assert(path@.subrange(0, path@.len() as int) =~= path@);
    match percent_decode(path_s.as_str()) {
        None => None,
        Some(d) => Some(chars_of(d.as_str())),
    }
}

/// Applies the segments of `d` to `init` (see `walk`).
fn walk_exec(d: &Vec<char>, init: String) -> (r: Result<String, PathError>)
    ensures
        same_path(r, walk(d@, 0, 0, Ok(init@))),
{
    let mut acc = init;
    let mut pos: usize = 0;
    let mut start: usize = 0;
    while pos < d.len()
        invariant
            start <= pos <= d@.len(),
            walk(d@, 0, 0, Ok(init@)) == walk(d@, pos as int, start as int, Ok(acc@)),
        decreases d.len() - pos,
    {
        if d[pos] == '/' {
            let ghost before = acc@;
            match apply_segment_exec(&mut acc, d, start, pos) {
                Ok(()) => {},
                Err(e) => {
                    proof {
                        lemma_walk_keeps_error(d@, pos + 1, pos + 1, e);
                        assert(walk(d@, pos as int, start as int, Ok(before)) == walk(
                            d@,
                            pos + 1,
                            pos + 1,
                            Err(e),
                        ));
                    }
                    return Err(e);
                },
            }
            start = pos + 1;
        }
        pos = pos + 1;
    }
    match apply_segment_exec(&mut acc, d, start, d.len()) {
        Ok(()) => Ok(acc),
        Err(e) => Err(e),
    }
}

/// Resolves `request_path` below `document_root` (see `resolved_path`),
/// without touching the file system.
pub fn resolve_below(request_path: &str, document_root: &str) -> (r: Result<String, PathError>)
    ensures
        same_path(r, resolved_path(request_path@, document_root@)),
{
    let d = match decoded_path(request_path) {
        None => return Err(PathError::BadEncoding),
        Some(d) => d,
    };
    let rooted = occurs_at_exec(&d, &chars_of("/"), 0);
    let init = if rooted {
        document_root.to_owned()
    } else {
        String::new()
    };
    let mut acc = match walk_exec(&d, init) {
        Ok(a) => a,
        Err(e) => return Err(e),
    };
    let root_chars = chars_of(document_root);
    let acc_chars = chars_of(acc.as_str());
    let mut is_root = acc_chars.len() == root_chars.len();
    if is_root {
        is_root = occurs_at_exec(&acc_chars, &root_chars, 0);
        proof {
            if is_root {
                assert forall|k: int| 0 <= k < acc@.len() implies acc@[k] == document_root@[k] by {
                    assert(acc_chars@[0 + k] == root_chars@[k]);
                }
                assert(acc@ =~= document_root@);
            } else if acc@ == document_root@ {
                assert(occurs_at(acc_chars@, root_chars@, 0));
            }
        }
    }
    if acc_chars.len() == 0 || is_root {
        push_segment(&mut acc, "index.html");
    }
    if is_within_root(acc.as_str(), document_root) {
        Ok(acc)
    } else {
        Err(PathError::OutsideRoot)
    }
}

/// The directory a request target names, always taken from `root`: the
/// target's path decoded and its segments applied to the root.
pub open spec fn resolved_dir(target: Seq<char>, root: Seq<char>) -> Result<Seq<char>, PathError> {
    match percent_decoded(before_first(before_first(target, '?'), '#')) {
        None => Err(PathError::BadEncoding),
        Some(d) => walk(d, 0, 0, Ok(root)),
    }
}

/// Resolves `request_path` as a directory below `document_root` (see
/// `resolved_dir`), without touching the file system.
pub fn resolve_directory(request_path: &str, document_root: &str) -> (r: Result<String, PathError>)
    ensures
        same_path(r, resolved_dir(request_path@, document_root@)),
{
    match decoded_path(request_path) {
        None => Err(PathError::BadEncoding),
        Some(d) => walk_exec(&d, document_root.to_owned()),
    }
}

proof fn lemma_walk_rejects_dotdot(
    p: Seq<char>,
    pos: int,
    start: int,
    acc: Result<Seq<char>, PathError>,
    i: int,
)
    requires
        0 <= start <= pos <= p.len(),
        start <= i,
        occurs_at(p, ".."@, i),
        forall|k: int| start <= k < pos ==> p[k] != '/',
    ensures
        walk(p, pos, start, acc) is Err,
    decreases p.len() - pos,
{
    reveal_strlit("..");
    reveal_strlit(".");
    assert(p[i + 0] == '.' && p[i + 1] == '.');
    if let Err(e) = acc {
        lemma_walk_keeps_error(p, pos, start, e);
    } else if pos >= p.len() {
        let seg = p.subrange(start, p.len() as int);
        assert(occurs_at(seg, ".."@, i - start)) by {
            assert forall|k: int| 0 <= k < 2 implies #[trigger] seg[i - start + k] == ".."@[k] by {
                assert(seg[i - start + k] == p[i + k]);
            }
        }
        assert(seg.len() >= 2);
        assert(seg != "."@);
    } else if p[pos] == '/' {
        if i + 2 <= pos {
            let seg = p.subrange(start, pos);
            assert(occurs_at(seg, ".."@, i - start)) by {
                assert forall|k: int| 0 <= k < 2 implies #[trigger] seg[i - start + k] == ".."@[k] by {
                    assert(seg[i - start + k] == p[i + k]);
                }
            }
            assert(seg.len() >= 2);
            assert(seg != "."@);
            let next = apply_segment(acc, seg);
            assert(next is Err);
            lemma_walk_keeps_error(p, pos + 1, pos + 1, next->Err_0);
        } else {
            assert(i != pos && i + 1 != pos);
            lemma_walk_rejects_dotdot(p, pos + 1, pos + 1, apply_segment(acc, p.subrange(start, pos)), i);
        }
    } else {
        lemma_walk_rejects_dotdot(p, pos + 1, start, acc, i);
    }
}

/// A target whose path (query and fragment aside) holds `..`, written out
/// or percent-encoded, is refused; and nothing outside the root is ever
/// returned.
pub proof fn lemma_traversal_refused(target: Seq<char>, root: Seq<char>)
    ensures
        contains(before_first(before_first(target, '?'), '#'), ".."@) ==> resolved_path(
            target,
            root,
        ) is Err,
        (percent_decoded(before_first(before_first(target, '?'), '#')) matches Some(d) && contains(
            d,
            ".."@,
        )) ==> resolved_path(target, root) is Err,
        resolved_path(target, root) matches Ok(p) ==> within_root(p, root),
{
    let path = before_first(before_first(target, '?'), '#');
    if contains(path, ".."@) {
        lemma_decoding_keeps_dots(path);
    }
    if let Some(d) = percent_decoded(path) {
        if contains(d, ".."@) {
            let i = choose|i: int| occurs_at(d, ".."@, i);
            let init = if starts_with(d, "/"@) { root } else { Seq::empty() };
            lemma_walk_rejects_dotdot(d, 0, 0, Ok(init), i);
        }
    }
}

/// No segment of `s` (split at `/`) holds `..` or starts with `.`: `..`
/// occurs nowhere, and no `.` begins `s` or follows a `/`.
pub open spec fn clean(s: Seq<char>) -> bool {
    &&& !contains(s, ".."@)
    &&& (s.len() > 0 ==> s[0] != '.')
    &&& forall|i: int| 1 <= i < s.len() && #[trigger] s[i - 1] == '/' ==> s[i] != '.'
}

/// A segment that `apply_segment` appends.
pub open spec fn kept_segment(seg: Seq<char>) -> bool {
    &&& seg.len() > 0
    &&& !contains(seg, ".."@)
    &&& seg[0] != '.'
    &&& forall|i: int| 0 <= i < seg.len() ==> #[trigger] seg[i] != '/'
}

/// What the segments add after the base: clean, and not ending in `/`.
pub open spec fn clean_tail(tail: Seq<char>) -> bool {
    clean(tail) && (tail.len() > 0 ==> tail.last() != '/')
}

pub(crate) proof fn lemma_push_clean(base: Seq<char>, tail: Seq<char>, seg: Seq<char>) -> (t: Seq<char>)
    requires
        clean_tail(tail),
        kept_segment(seg),
    ensures
        push_path(base + tail, seg) == base + t,
        clean_tail(t),
{
    reveal_strlit("..");
    if tail.len() == 0 && (base.len() == 0 || base.last() == '/') {
        assert(base + tail =~= base);
        seg
    } else {
        let t = tail + seq!['/'] + seg;
        if tail.len() > 0 {
            assert((base + tail).last() == tail.last());
        } else {
            assert(base + tail =~= base);
        }
        assert(push_path(base + tail, seg) =~= base + t);
        let n = tail.len() as int;
        assert(t[n] == '/');
        assert forall|i: int| !occurs_at(t, ".."@, i) by {
            if occurs_at(t, ".."@, i) {
                assert(t[i + 0] == '.' && t[i + 1] == '.');
                if i + 1 < n {
                    assert(tail[i] == t[i] && tail[i + 1] == t[i + 1]);
                    assert(occurs_at(tail, ".."@, i));
                } else if i + 1 == n {
                    assert(t[i + 1] == '/');
                } else if i == n {
                } else {
                    let j = i - n - 1;
                    assert(seg[j] == t[i] && seg[j + 1] == t[i + 1]);
                    assert(occurs_at(seg, ".."@, j));
                }
            }
        }
        assert forall|i: int| 1 <= i < t.len() && #[trigger] t[i - 1] == '/' implies t[i] != '.' by {
            if i < n {
                assert(tail[i - 1] == t[i - 1] && tail[i] == t[i]);
            } else if i == n {
                assert(t[i - 1] == tail.last());
            } else if i == n + 1 {
                assert(t[i] == seg[0]);
            } else {
                assert(t[i - 1] == seg[i - n - 2]);
            }
        }
        if tail.len() > 0 {
            assert(t[0] == tail[0]);
        }
        assert(t.last() == seg.last());
        t
    }
}

pub(crate) proof fn lemma_walk_clean(
    p: Seq<char>,
    pos: int,
    start: int,
    base: Seq<char>,
    tail: Seq<char>,
)
    requires
        0 <= start <= pos <= p.len(),
        forall|k: int| start <= k < pos ==> p[k] != '/',
        clean_tail(tail),
    ensures
        walk(p, pos, start, Ok(base + tail)) matches Ok(a) ==> exists|t: Seq<char>|
            a == base + t && clean_tail(t),
    decreases p.len() - pos,
{
    reveal_strlit(".");
    let end = if pos >= p.len() { p.len() as int } else { pos };
    let seg = p.subrange(start, end);
    let next = apply_segment(Ok(base + tail), seg);
    if pos < p.len() && p[pos] != '/' {
        lemma_walk_clean(p, pos + 1, start, base, tail);
    } else {
        let t2 = if seg.len() == 0 || seg == "."@ || contains(seg, ".."@) || seg[0] == '.' {
            tail
        } else {
            assert forall|i: int| 0 <= i < seg.len() implies #[trigger] seg[i] != '/' by {
                assert(seg[i] == p[start + i]);
            }
            lemma_push_clean(base, tail, seg)
        };
        if next is Ok {
            assert(next == Ok::<Seq<char>, PathError>(base + t2));
            if pos < p.len() {
                lemma_walk_clean(p, pos + 1, pos + 1, base, t2);
            }
        } else if pos < p.len() {
            lemma_walk_keeps_error(p, pos + 1, pos + 1, next->Err_0);
        }
    }
}

pub(crate) proof fn lemma_empty_clean()
    ensures
        clean(Seq::<char>::empty()),
{
    reveal_strlit("..");
    assert forall|i: int| !occurs_at(Seq::<char>::empty(), ".."@, i) by {}
}

pub(crate) proof fn lemma_index_names_kept()
    ensures
        kept_segment("index.html"@),
        kept_segment("index.htm"@),
{
    reveal_strlit("..");
    reveal_strlit("index.html");
    reveal_strlit("index.htm");
    assert forall|i: int| !occurs_at("index.html"@, ".."@, i) by {
        if occurs_at("index.html"@, ".."@, i) {
            assert("index.html"@[i + 0] == '.' && "index.html"@[i + 1] == '.');
        }
    }
    assert forall|i: int| !occurs_at("index.htm"@, ".."@, i) by {
        if occurs_at("index.htm"@, ".."@, i) {
            assert("index.htm"@[i + 0] == '.' && "index.htm"@[i + 1] == '.');
        }
    }
}

/// A clean path seen from a segment boundary is still clean.
proof fn lemma_clean_suffix(s: Seq<char>, k: int)
    requires
        clean(s),
        0 <= k <= s.len(),
        k < s.len() ==> s[k] == '/' || (k > 0 && s[k - 1] == '/'),
    ensures
        clean(s.subrange(k, s.len() as int)),
{
    reveal_strlit("..");
    let u = s.subrange(k, s.len() as int);
    assert forall|i: int| !occurs_at(u, ".."@, i) by {
        if occurs_at(u, ".."@, i) {
            assert(u[i + 0] == s[k + i] && u[i + 1] == s[k + i + 1]);
            assert(occurs_at(s, ".."@, k + i));
        }
    }
    assert forall|i: int| 1 <= i < u.len() && #[trigger] u[i - 1] == '/' implies u[i] != '.' by {
        assert(u[i - 1] == s[k + i - 1] && u[i] == s[k + i]);
    }
    if u.len() > 0 {
        assert(u[0] == s[k]);
        if s[k] != '/' {
            assert(s[k - 1] == '/');
        }
    }
}

/// A resolved path lies below the root, and what follows the root has no
/// segment that holds `..` or starts with `.`.
pub proof fn lemma_resolved_path_clean(target: Seq<char>, root: Seq<char>)
    ensures
        resolved_path(target, root) matches Ok(p) ==> within_root(p, root) && clean(
            p.subrange(root.len() as int, p.len() as int),
        ),
{
    let path = before_first(before_first(target, '?'), '#');
    if let Some(d) = percent_decoded(path) {
        let rooted = starts_with(d, "/"@);
        let init = if rooted { root } else { Seq::empty() };
        let empty = Seq::<char>::empty();
        lemma_empty_clean();
        assert(init + empty =~= init);
        lemma_walk_clean(d, 0, 0, init, empty);
        if let Ok(a) = walk(d, 0, 0, Ok(init)) {
            let t = choose|t: Seq<char>| a == init + t && clean_tail(t);
            let full = if a.len() == 0 || a == root { push_path(a, "index.html"@) } else { a };
            let ft = if a.len() == 0 || a == root {
                lemma_index_names_kept();
                lemma_push_clean(init, t, "index.html"@)
            } else {
                t
            };
            assert(full == init + ft);
            if within_root(full, root) {
                if rooted {
                    assert(full.subrange(root.len() as int, full.len() as int) =~= ft);
                } else {
                    assert(full =~= ft);
                    let k = root.len() as int;
                    if full != root && !(root.len() > 0 && root.last() == '/') {
                        assert(full[k] == '/');
                    }
                    if full != root && root.len() > 0 && root.last() == '/' {
                        assert(full[0 + (k - 1)] == root[k - 1]);
                    }
                    lemma_clean_suffix(full, k);
                }
            }
        }
    }
}

/// Below a root free of `..`, a resolved path holds `..` nowhere.
pub proof fn lemma_resolved_path_free_of_dotdot(target: Seq<char>, root: Seq<char>)
    ensures
        !contains(root, ".."@) ==> (resolved_path(target, root) matches Ok(p) ==> !contains(
            p,
            ".."@,
        )),
{
    lemma_resolved_path_clean(target, root);
    reveal_strlit("..");
    if let Ok(p) = resolved_path(target, root) {
        if !contains(root, ".."@) {
            let k = root.len() as int;
            let u = p.subrange(k, p.len() as int);
            assert forall|i: int| !occurs_at(p, ".."@, i) by {
                if occurs_at(p, ".."@, i) {
                    assert(p[i + 0] == '.' && p[i + 1] == '.');
                    if p == root {
                        assert(occurs_at(root, ".."@, i));
                    } else {
                        assert(starts_with(p, root));
                        if i + 1 < k {
                            assert(p[0 + i] == root[i] && p[0 + (i + 1)] == root[i + 1]);
                            assert(occurs_at(root, ".."@, i));
                        } else if i + 1 == k {
                            assert(u[0] == p[k]);
                        } else {
                            assert(u[i - k] == p[i] && u[i - k + 1] == p[i + 1]);
                            assert(occurs_at(u, ".."@, i - k));
                        }
                    }
                }
            }
        }
    }
}

/// The path part of a request target: before any query or fragment.
pub open spec fn path_part(t: Seq<char>) -> Seq<char> {
    before_first(before_first(t, '?'), '#')
}

/// Where a directory named without its trailing slash is redirected: the
/// path part with `/` appended, then the query or fragment as it came.
pub open spec fn redirect_location(t: Seq<char>) -> Seq<char> {
    path_part(t) + seq!['/'] + t.subrange(path_part(t).len() as int, t.len() as int)
}

/// The length of the path part of `t`, a prefix of it.
fn path_part_len(t: &Vec<char>) -> (b: usize)
    ensures
        b <= t@.len(),
        t@.subrange(0, b as int) == path_part(t@),
{
    let a = crate::text::index_of(t, '?', 0);
    let ta = crate::text::sub_vec(t, 0, a);
    assert(ta@ == before_first(t@, '?'));
    let b = crate::text::index_of(&ta, '#', 0);
    assert(t@.subrange(0, b as int) =~= ta@.subrange(0, b as int));
    b
}

/// What is known of the file system for serving one request target.
#[derive(Debug, Clone)]
pub struct ServeFacts {
    /// The resolved directory (`resolve_directory`) exists and is a directory.
    pub resolved_is_dir: bool,
    /// The resolved directory (`resolve_directory`) holds `index.html`.
    pub has_index_html: bool,
    /// The resolved directory holds `index.htm`.
    pub has_index_htm: bool,
    /// The facts about the resolved target, where it resolved.
    pub resolved: Option<FileFacts>,
}

/// How a request target is answered.
#[derive(Debug, Clone)]
pub enum ServeOutcome {
    /// Send these bytes (a redirect).
    Respond(Vec<u8>),
    /// Send the contents of this file.
    ReadFile(String),
    /// Answer "not found".
    NotFound,
}

/// The identities seen after a privilege drop differ from those asked for.
#[derive(Debug, Clone, Copy, PartialEq, Eq, Structural)]
pub struct PrivilegeMismatch {
    pub expected_uid: u32,
    pub expected_gid: u32,
    pub uid: u32,
    pub gid: u32,
}

/// Checks the identities read back after setting group, then user: the
/// drop succeeded only if both are the ones asked for.
pub fn verify_privilege_drop(expected_uid: u32, expected_gid: u32, uid: u32, gid: u32) -> (r: Result<
    (),
    PrivilegeMismatch,
>)
    ensures
        r is Ok <==> (uid == expected_uid && gid == expected_gid),
        r matches Err(m) ==> m == (PrivilegeMismatch { expected_uid, expected_gid, uid, gid }),
{
    if uid != expected_uid || gid != expected_gid {
        Err(PrivilegeMismatch { expected_uid, expected_gid, uid, gid })
    } else {
        Ok(())
    }
}

/// The file-serving core: configuration and content-type table.
#[derive(Debug, Clone)]
pub struct SecureFileServer {
    config: SecurityConfig,
    mime_types: MimeTypes,
}

impl SecureFileServer {
    pub closed spec fn cfg(&self) -> SecurityConfig {
        self.config
    }

    pub fn new(config: SecurityConfig) -> (r: SecureFileServer)
        ensures
            r.cfg() == config,
    {
        SecureFileServer { config, mime_types: MimeTypes {} }
    }

    /// The (user, group) to drop to: both must be configured. The group is
    /// to be set first, then the user.
    pub fn privilege_drop_target(&self) -> (r: Option<(u32, u32)>)
        ensures
            r == match (self.cfg().drop_to_uid, self.cfg().drop_to_gid) {
                (Some(u), Some(g)) => Some((u, g)),
                _ => None,
            },
    {
        match (self.config.drop_to_uid, self.config.drop_to_gid) {
            (Some(u), Some(g)) => Some((u, g)),
            _ => None,
        }
    }

    pub fn config(&self) -> (r: &SecurityConfig)
        ensures
            *r == self.cfg(),
    {
        &self.config
    }

    pub fn update_config(&mut self, config: SecurityConfig)
        ensures
            final(self).cfg() == config,
    {
        self.config = config;
    }

    /// Whether `domain` may name a per-domain document root (see `domain_safe`).
    pub fn is_domain_safe(domain: &str) -> (r: bool)
        ensures
            r == domain_safe(domain@),
    {
        let d = chars_of(domain);
        let mut i: usize = 0;
        while i < d.len()
            invariant
                d@ == domain@,
                i <= d@.len(),
                forall|k: int| 0 <= k < i ==> alphanumeric(#[trigger] d@[k]) || d@[k] == '.',
            decreases d.len() - i,
        {
            if !(is_alphanumeric(d[i]) || d[i] == '.') {
                return false;
            }
            i = i + 1;
        }
        let dot = chars_of(".");
        if contains_exec(&d, &chars_of("..")) {
            return false;
        }
        if !contains_exec(&d, &dot) {
            return false;
        }
        if occurs_at_exec(&d, &dot, 0) {
            return false;
        }
        if d.len() > 0 && occurs_at_exec(&d, &dot, d.len() - 1) {
            return false;
        }
        proof {
            reveal_strlit(".");
        }
        if contains_exec(&d, &chars_of("...")) {
            return false;
        }
        true
    }

    /// `/var/www/<domain>`, where the domain is safe to use as a directory.
    pub fn domain_root_candidate(domain: &str) -> (r: Option<String>)
        ensures
            r is Some <==> domain_safe(domain@),
            r matches Some(p) ==> p@ == push_path(DOMAIN_ROOT_BASE@, domain@),
    {
        if Self::is_domain_safe(domain) {
            let mut p = DOMAIN_ROOT_BASE.to_owned();
            push_segment(&mut p, domain);
            Some(p)
        } else {
            None
        }
    }

    /// The document root for `domain`: its own directory where the domain
    /// is safe and that directory exists (`candidate_is_dir`), the
    /// configured root otherwise.
    pub fn get_domain_document_root(&self, domain: &str, candidate_is_dir: bool) -> (r: String)
        ensures
            r@ == if domain_safe(domain@) && candidate_is_dir {
                push_path(DOMAIN_ROOT_BASE@, domain@)
            } else {
                self.cfg().document_root@
            },
    {
        match Self::domain_root_candidate(domain) {
            Some(p) => {
                if candidate_is_dir {
                    return p;
                }
            },
            None => {},
        }
        self.config.document_root.clone()
    }

    /// Resolves `request_path` below the configured document root.
    pub fn sanitize_path(&self, request_path: &str) -> (r: Result<String, PathError>)
        ensures
            same_path(r, resolved_path(request_path@, self.cfg().document_root@)),
    {
        resolve_below(request_path, self.config.document_root.as_str())
    }

    /// Resolves `request_path` below `document_root`.
    pub fn sanitize_path_with_root(&self, request_path: &str, document_root: &str) -> (r: Result<
        String,
        PathError,
    >)
        ensures
            same_path(r, resolved_path(request_path@, document_root@)),
    {
        resolve_below(request_path, document_root)
    }

    /// Whether files with `extension` may be served.
    pub fn is_extension_allowed(&self, extension: &str) -> (r: bool)
        ensures
            r == extension_allowed(self.cfg(), extension@),
    {
        let e = to_lowercase(extension);
        if holds(&self.config.blocked_extensions, &e) {
            return false;
        }
        if self.config.allowed_extensions.len() > 0 {
            return holds(&self.config.allowed_extensions, &e);
        }
        true
    }

    /// The checks on a resolved file (see `file_verdict`); the path to read
    /// where all pass.
    pub fn check_file(&self, document_root: &str, resolved: &str, facts: &FileFacts) -> (r: Result<
        String,
        PathError,
    >)
        ensures
            same_path(r, file_verdict(self.cfg(), document_root@, resolved@, *facts)),
    {
        let path = if self.config.follow_symlinks {
            facts.canonical.clone()
        } else {
            resolved.to_owned()
        };
        if !is_within_root(path.as_str(), document_root) {
            return Err(PathError::OutsideRoot);
        }
        if !facts.exists {
            return Err(PathError::NotFound);
        }
        if !facts.is_file {
            return Err(PathError::NotAFile);
        }
        if let Some(n) = facts.size {
            if n > self.config.max_file_size {
                return Err(PathError::TooLarge);
            }
        }
        if let Some(e) = extension(path.as_str()) {
            if !self.is_extension_allowed(e.as_str()) {
                return Err(PathError::ExtensionRefused);
            }
        }
        Ok(path)
    }

    /// The content type of `path`.
    pub fn get_mime_type(&self, path: &str) -> (r: String)
        ensures
            r@ == mime_of_path(path@),
    {
        self.mime_types.get_mime_type(path)
    }

    /// Whether `request_path` asks for the root: it is empty or all slashes.
    pub fn is_root_request(&self, request_path: &str) -> (r: bool)
        ensures
            r == forall|i: int| 0 <= i < request_path@.len() ==> request_path@[i] == '/',
    {
        let v = chars_of(request_path);
        let mut i: usize = 0;
        while i < v.len()
            invariant
                v@ == request_path@,
                i <= v@.len(),
                forall|k: int| 0 <= k < i ==> v@[k] == '/',
            decreases v.len() - i,
        {
            if v[i] != '/' {
                return false;
            }
            i = i + 1;
        }
        true
    }

    /// A redirect to the target with `/` after its path, where the target
    /// resolves to a directory (`resolved_is_dir` says it exists) and its
    /// path does not end in `/`.
    pub fn check_redirect(&self, request_path: &str, document_root: &str, resolved_is_dir: bool) -> (r:
        Option<String>)
        ensures
            r is Some <==> (resolved_dir(request_path@, document_root@) is Ok && resolved_is_dir
                && !ends_with(path_part(request_path@), "/"@)),
            r matches Some(u) ==> u@ == redirect_location(request_path@),
    {
        if !resolved_is_dir {
            return None;
        }
        match resolve_directory(request_path, document_root) {
            Ok(_) => {},
            Err(_) => return None,
        }
        let t = chars_of(request_path);
        let b = path_part_len(&t);
        let ghost p = path_part(request_path@);
        proof {
            reveal_strlit("/");
            assert("/"@ =~= seq!['/']);
        }
        if b > 0 && t[b - 1] == '/' {
            assert(p[p.len() - 1 + 0] == "/"@[0]);
            assert(occurs_at(p, "/"@, p.len() - 1));
            return None;
        }
        assert(!occurs_at(p, "/"@, p.len() - 1)) by {
            if p.len() > 0 {
                assert(p[p.len() - 1 + 0] != "/"@[0]);
            }
        }
        let mut u = crate::text::string_of(&t, 0, b);
        push_char(&mut u, '/');
        let rest = crate::text::string_of(&t, b, t.len());
        push_str(&mut u, rest.as_str());
        Some(u)
    }
}

} // verus!
