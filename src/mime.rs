//! Content types by file extension.

use vstd::prelude::*;
use crate::text::{chars_of, lower_of, to_lowercase};

verus! {

/// The index of the last `c` in `s[0..end]`, or -1.
pub open spec fn last_index_of(s: Seq<char>, c: char, end: int) -> int
    decreases end,
{
    if end <= 0 {
        -1
    } else if s[end - 1] == c {
        end - 1
    } else {
        last_index_of(s, c, end - 1)
    }
}

/// The file name of a path as `Path::file_name` finds it, scanning back
/// from `end` with the current segment ending at `seg_end`: empty and `.`
/// segments are passed over, a final `..` has none, and otherwise the
/// last segment is the name (as a range of `p`).
pub open spec fn file_name_from(p: Seq<char>, end: int, seg_end: int) -> Option<(int, int)>
    decreases end,
{
    if end <= 0 || p[end - 1] == '/' {
        let seg = p.subrange(end, seg_end);
        if seg.len() == 0 || seg == "."@ {
            if end <= 0 {
                None
            } else {
                file_name_from(p, end - 1, end - 1)
            }
        } else if seg == ".."@ {
            None
        } else {
            Some((end, seg_end))
        }
    } else {
        file_name_from(p, end - 1, seg_end)
    }
}

/// The extension of a path as `Path::extension` gives it: what follows the
/// last `.` of the file name, where that `.` is not the name's first
/// character.
pub open spec fn extension_of(p: Seq<char>) -> Option<Seq<char>> {
    match file_name_from(p, p.len() as int, p.len() as int) {
        None => None,
        Some((a, b)) => {
            let name = p.subrange(a, b);
            let k = last_index_of(name, '.', name.len() as int);
            if k > 0 {
                Some(name.subrange(k + 1, name.len() as int))
            } else {
                None
            }
        },
    }
}

/// The index of the last `c` in `v[0..end]`.
pub fn last_index(v: &Vec<char>, c: char, end: usize) -> (r: Option<usize>)
    requires
        end <= v@.len(),
    ensures
        match r {
            Some(i) => i < end && i == last_index_of(v@, c, end as int),
            None => last_index_of(v@, c, end as int) == -1,
        },
{
    let mut j = end;
    while j > 0
        invariant
            j <= end <= v@.len(),
            last_index_of(v@, c, end as int) == last_index_of(v@, c, j as int),
        decreases j,
    {
        if v[j - 1] == c {
            return Some(j - 1);
        }
        j = j - 1;
    }
    None
}

/// The file name of `v` (see `file_name_from`), as a range.
fn file_name_range(v: &Vec<char>) -> (r: Option<(usize, usize)>)
    ensures
        match (r, file_name_from(v@, v@.len() as int, v@.len() as int)) {
            (Some((a, b)), Some((c, d))) => a == c && b == d && a <= b <= v@.len(),
            (None, None) => true,
            _ => false,
        },
{
    let mut end = v.len();
    let mut seg_end = v.len();
    loop
        invariant
            end <= seg_end <= v@.len(),
            file_name_from(v@, v@.len() as int, v@.len() as int) == file_name_from(
                v@,
                end as int,
                seg_end as int,
            ),
        decreases end,
    {
        if end == 0 || v[end - 1] == '/' {
            let ghost seg = v@.subrange(end as int, seg_end as int);
            let len = seg_end - end;
            let is_dot = len == 1 && v[end] == '.';
            let is_dotdot = len == 2 && v[end] == '.' && v[end + 1] == '.';
            proof {
                reveal_strlit(".");
                reveal_strlit("..");
                assert("."@ =~= seq!['.']);
                assert(".."@ =~= seq!['.', '.']);
                if len >= 1 {
                    assert(seg[0] == v@[end as int]);
                }
                if len >= 2 {
                    assert(seg[1] == v@[end + 1]);
                }
                if is_dot {
                    assert(seg =~= "."@);
                } else {
                    assert(seg != "."@) by {
                        if seg == "."@ {
                            assert(seg[0] == '.');
                        }
                    }
                }
                if is_dotdot {
                    assert(seg =~= ".."@);
                } else {
                    assert(seg != ".."@) by {
                        if seg == ".."@ {
                            assert(seg[0] == '.' && seg[1] == '.');
                        }
                    }
                }
            }
            if len == 0 || is_dot {
                if end == 0 {
                    return None;
                }
                end = end - 1;
                seg_end = end;
            } else if is_dotdot {
                return None;
            } else {
                return Some((end, seg_end));
            }
        } else {
            end = end - 1;
        }
    }
}

/// The extension of `path`, as `extension_of` defines it.
pub fn extension(path: &str) -> (r: Option<String>)
    ensures
        match (r, extension_of(path@)) {
            (Some(e), Some(f)) => e@ == f,
            (None, None) => true,
            _ => false,
        },
{
    let v = chars_of(path);
    let (a, b) = match file_name_range(&v) {
        Some(r) => r,
        None => return None,
    };
    let name = crate::text::sub_vec(&v, a, b);
    match last_index(&name, '.', name.len()) {
        Some(k) => {
            if k > 0 {
                Some(crate::text::string_of(&name, k + 1, name.len()))
            } else {
                None
            }
        },
        None => None,
    }
}

/// The content type for a lower-case extension, if the table has one.
pub open spec fn mime_of_ext(e: Seq<char>) -> Option<Seq<char>> {
    if e == "html"@ || e == "htm"@ { Some("text/html; charset=utf-8"@) }
    else if e == "txt"@ { Some("text/plain; charset=utf-8"@) }
    else if e == "css"@ { Some("text/css; charset=utf-8"@) }
    else if e == "js"@ || e == "mjs"@ { Some("application/javascript; charset=utf-8"@) }
    else if e == "wasm"@ { Some("application/wasm"@) }
    else if e == "jpg"@ || e == "jpeg"@ { Some("image/jpeg"@) }
    else if e == "png"@ { Some("image/png"@) }
    else if e == "gif"@ { Some("image/gif"@) }
    else if e == "svg"@ { Some("image/svg+xml"@) }
    else if e == "webp"@ { Some("image/webp"@) }
    else if e == "ico"@ { Some("image/x-icon"@) }
    else if e == "bmp"@ { Some("image/bmp"@) }
    else if e == "woff"@ { Some("font/woff"@) }
    else if e == "woff2"@ { Some("font/woff2"@) }
    else if e == "ttf"@ { Some("font/ttf"@) }
    else if e == "otf"@ { Some("font/otf"@) }
    else if e == "pdf"@ { Some("application/pdf"@) }
    else if e == "json"@ { Some("application/json; charset=utf-8"@) }
    else if e == "xml"@ { Some("application/xml; charset=utf-8"@) }
    else if e == "zip"@ { Some("application/zip"@) }
    else if e == "tar"@ { Some("application/x-tar"@) }
    else if e == "gz"@ || e == "tgz"@ { Some("application/gzip"@) }
    else if e == "bin"@ { Some("application/octet-stream"@) }
    else { None }
}

/// The content type of a path: by its extension in lower case, and
/// `application/octet-stream` where it has none or an unknown one.
pub open spec fn mime_of_path(p: Seq<char>) -> Seq<char> {
    match extension_of(p) {
        Some(e) => match mime_of_ext(lower_of(e)) {
            Some(m) => m,
            None => "application/octet-stream"@,
        },
        None => "application/octet-stream"@,
    }
}

/// The built-in table of content types by extension (see `mime_of_ext`).
#[derive(Debug, Clone, Default)]
pub struct MimeTypes {}

/// Whether `a` holds the characters of `b`.
fn is(a: &Vec<char>, b: &str) -> (r: bool)
    ensures
        r == (a@ == b@),
{
    let bv = chars_of(b);
    if a.len() != bv.len() {
        return false;
    }
    let mut i: usize = 0;
    while i < a.len()
        invariant
            a@.len() == bv@.len(),
            bv@ == b@,
            i <= a@.len(),
            forall|k: int| 0 <= k < i ==> a@[k] == bv@[k],
        decreases a.len() - i,
    {
        if a[i] != bv[i] {
            return false;
        }
        i = i + 1;
    }
    assert(a@ =~= bv@);
    true
}

/// The content type for a lower-case extension, if the table has one.
fn mime_of_ext_exec(e: &Vec<char>) -> (r: Option<&'static str>)
    ensures
        match (r, mime_of_ext(e@)) {
            (Some(m), Some(n)) => m@ == n,
            (None, None) => true,
            _ => false,
        },
{
    if is(e, "html") || is(e, "htm") { Some("text/html; charset=utf-8") }
    else if is(e, "txt") { Some("text/plain; charset=utf-8") }
    else if is(e, "css") { Some("text/css; charset=utf-8") }
    else if is(e, "js") || is(e, "mjs") { Some("application/javascript; charset=utf-8") }
    else if is(e, "wasm") { Some("application/wasm") }
    else if is(e, "jpg") || is(e, "jpeg") { Some("image/jpeg") }
    else if is(e, "png") { Some("image/png") }
    else if is(e, "gif") { Some("image/gif") }
    else if is(e, "svg") { Some("image/svg+xml") }
    else if is(e, "webp") { Some("image/webp") }
    else if is(e, "ico") { Some("image/x-icon") }
    else if is(e, "bmp") { Some("image/bmp") }
    else if is(e, "woff") { Some("font/woff") }
    else if is(e, "woff2") { Some("font/woff2") }
    else if is(e, "ttf") { Some("font/ttf") }
    else if is(e, "otf") { Some("font/otf") }
    else if is(e, "pdf") { Some("application/pdf") }
    else if is(e, "json") { Some("application/json; charset=utf-8") }
    else if is(e, "xml") { Some("application/xml; charset=utf-8") }
    else if is(e, "zip") { Some("application/zip") }
    else if is(e, "tar") { Some("application/x-tar") }
    else if is(e, "gz") || is(e, "tgz") { Some("application/gzip") }
    else if is(e, "bin") { Some("application/octet-stream") }
    else { None }
}

impl MimeTypes {
    /// The content type of `path` by its extension (see `mime_of_path`).
    pub fn get_mime_type(&self, path: &str) -> (r: String)
        ensures
            r@ == mime_of_path(path@),
    {
        match extension(path) {
            Some(e) => {
                let l = chars_of(to_lowercase(e.as_str()).as_str());
                match mime_of_ext_exec(&l) {
                    Some(m) => m.to_owned(),
                    None => "application/octet-stream".to_owned(),
                }
            },
            None => "application/octet-stream".to_owned(),
        }
    }
}

} // verus!
