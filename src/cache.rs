//! Cache validators (`Last-Modified`, `ETag`), conditional requests and the
//! cache duration of each kind of content.

use vstd::prelude::*;
use crate::date::{format_http_date, http_date};
use crate::text::{
    chars_of, decimal, digit_char, lines, lines_view, occurs_at_exec, push_char, push_decimal, split_lines,
    starts_with, trim_of, trimmed,
};

verus! {

/// What the cache validators are made from: the modification time (Unix
/// seconds), the size, and the ETag derived from the two.
#[derive(Debug, Clone)]
pub struct FileCacheInfo {
    pub last_modified: u64,
    pub size: u64,
    pub etag: String,
}

/// The weak validator `"<mtime>-<size>"`, quotes included.
pub open spec fn etag_of(last_modified: nat, size: nat) -> Seq<char> {
    seq!['"'] + decimal(last_modified) + seq!['-'] + decimal(size) + seq!['"']
}

pub open spec fn is_digit(c: char) -> bool {
    '0' <= c && c <= '9'
}

pub proof fn lemma_decimal_digits(n: nat)
    ensures
        decimal(n).len() >= 1,
        forall|i: int| 0 <= i < decimal(n).len() ==> is_digit(#[trigger] decimal(n)[i]),
    decreases n,
{
    if n >= 10 {
        lemma_decimal_digits(n / 10);
    }
}

proof fn lemma_decimal_injective(a: nat, b: nat)
    requires
        decimal(a) == decimal(b),
    ensures
        a == b,
    decreases a,
{
    lemma_decimal_digits(a / 10);
    lemma_decimal_digits(b / 10);
    if a < 10 && b >= 10 {
        assert(decimal(a).len() == 1);
    }
    if b < 10 && a >= 10 {
        assert(decimal(b).len() == 1);
    }
    if a < 10 && b < 10 {
        assert(decimal(a)[0] == digit_char(a));
        assert(decimal(b)[0] == digit_char(b));
    }
    if a >= 10 && b >= 10 {
        assert(decimal(a).last() == digit_char(a % 10));
        assert(decimal(b).last() == digit_char(b % 10));
        assert(a % 10 == b % 10);
        assert(decimal(a).drop_last() == decimal(a / 10));
        assert(decimal(b).drop_last() == decimal(b / 10));
        lemma_decimal_injective(a / 10, b / 10);
        assert(a == 10 * (a / 10) + a % 10);
        assert(b == 10 * (b / 10) + b % 10);
    }
}

/// Equal ETags come only from equal modification times and sizes: changing
/// either changes the ETag.
pub proof fn lemma_etag_injective(m1: nat, s1: nat, m2: nat, s2: nat)
    ensures
        etag_of(m1, s1) == etag_of(m2, s2) <==> (m1 == m2 && s1 == s2),
{
    if etag_of(m1, s1) == etag_of(m2, s2) {
        let e = etag_of(m1, s1);
        let d1 = decimal(m1);
        let d2 = decimal(m2);
        lemma_decimal_digits(m1);
        lemma_decimal_digits(m2);
        lemma_decimal_digits(s1);
        lemma_decimal_digits(s2);
        assert(e[d1.len() as int + 1] == '-');
        assert(etag_of(m2, s2)[d2.len() as int + 1] == '-');
        if d1.len() < d2.len() {
            assert(etag_of(m2, s2)[d1.len() as int + 1] == d2[d1.len() as int]);
        }
        if d2.len() < d1.len() {
            assert(e[d2.len() as int + 1] == d1[d2.len() as int]);
        }
        assert(d1.len() == d2.len());
        assert(d1 =~= e.subrange(1, d1.len() as int + 1));
        assert(d2 =~= etag_of(m2, s2).subrange(1, d2.len() as int + 1));
        lemma_decimal_injective(m1, m2);
        let t = d1.len() as int + 2;
        assert(decimal(s1) =~= e.subrange(t, e.len() as int - 1));
        assert(decimal(s2) =~= etag_of(m2, s2).subrange(t, e.len() as int - 1));
        lemma_decimal_injective(s1, s2);
    }
}

/// Cache lifetime in seconds by content type: a year for images, CSS,
/// JavaScript and fonts; a day for archives and binaries; an hour for HTML,
/// JSON and XML; none for anything else.
pub open spec fn cache_duration_for(t: Seq<char>) -> i64 {
    if starts_with(t, "image/"@) || starts_with(t, "text/css"@) || starts_with(
        t,
        "application/javascript"@,
    ) || starts_with(t, "application/font-"@) || starts_with(t, "font/"@) {
        31536000
    } else if starts_with(t, "application/gzip"@) || starts_with(t, "application/zip"@)
        || starts_with(t, "application/x-tar"@) || starts_with(t, "application/octet-stream"@) {
        86400
    } else if starts_with(t, "text/html"@) || starts_with(t, "application/json"@) || starts_with(
        t,
        "application/xml"@,
    ) || starts_with(t, "text/xml"@) {
        3600
    } else {
        0
    }
}

/// The first index in `i..to` that is not a double quote, or `to`.
pub open spec fn skip_quotes(s: Seq<char>, i: int, to: int) -> int
    decreases to - i,
{
    if i < to && s[i] == '"' {
        skip_quotes(s, i + 1, to)
    } else {
        i
    }
}

/// The end of `s[from..j]` once trailing double quotes are dropped.
pub open spec fn back_quotes(s: Seq<char>, from: int, j: int) -> int
    decreases j - from,
{
    if from < j && s[j - 1] == '"' {
        back_quotes(s, from, j - 1)
    } else {
        j
    }
}

/// `s` without the double quotes at either end (`str::trim_matches('"')`).
pub open spec fn unquoted(s: Seq<char>) -> Seq<char> {
    let a = skip_quotes(s, 0, s.len() as int);
    s.subrange(a, back_quotes(s, a, s.len() as int))
}

/// The decimal value of a run of ASCII digits.
pub open spec fn digits_value(s: Seq<char>) -> nat
    decreases s.len(),
{
    if s.len() == 0 {
        0
    } else {
        digits_value(s.drop_last()) * 10 + (s.last() as u32 - '0' as u32) as nat
    }
}

/// `s` without a leading `+`.
pub open spec fn unsigned_part(s: Seq<char>) -> Seq<char> {
    if s.len() > 0 && s[0] == '+' {
        s.drop_first()
    } else {
        s
    }
}

pub open spec fn all_digits(d: Seq<char>) -> bool {
    forall|i: int| 0 <= i < d.len() ==> is_digit(#[trigger] d[i])
}

/// What `str::parse::<u64>` gives: an optional `+`, then at least one ASCII
/// digit, with a value that fits in 64 bits.
pub open spec fn parse_u64(s: Seq<char>) -> Option<u64> {
    let d = unsigned_part(s);
    if d.len() > 0 && all_digits(d) && digits_value(d) <= u64::MAX {
        Some(digits_value(d) as u64)
    } else {
        None
    }
}

/// A conditional request is answered with 304 when `If-None-Match` names
/// the current ETag (quotes aside), or else when `If-Modified-Since` is a
/// timestamp no earlier than the last modification.
pub open spec fn not_modified(
    info_etag: Seq<char>,
    last_modified: u64,
    if_modified_since: Option<Seq<char>>,
    if_none_match: Option<Seq<char>>,
) -> bool {
    (if_none_match matches Some(m) && unquoted(m) == unquoted(info_etag)) || (
    if_modified_since matches Some(t) && parse_u64(t) matches Some(v) && v >= last_modified)
}

pub open spec fn opt_chars(h: Option<&str>) -> Option<Seq<char>> {
    match h {
        Some(x) => Some(x@),
        None => None,
    }
}

/// The trimmed value of the last line before line `n` that starts with
/// `name`, a header name including its colon.
pub open spec fn last_header(ls: Seq<Seq<char>>, n: int, name: Seq<char>) -> Option<Seq<char>>
    decreases n,
{
    if n <= 0 || n > ls.len() {
        None
    } else if starts_with(ls[n - 1], name) {
        Some(trim_of(ls[n - 1], name.len() as int, ls[n - 1].len() as int))
    } else {
        last_header(ls, n - 1, name)
    }
}

pub open spec fn same_value(a: Option<String>, b: Option<Seq<char>>) -> bool {
    match (a, b) {
        (Some(x), Some(y)) => x@ == y,
        (None, None) => true,
        _ => false,
    }
}

impl FileCacheInfo {
    /// The ETag is the one the time and size give.
    pub open spec fn wf(&self) -> bool {
        self.etag@ == etag_of(self.last_modified as nat, self.size as nat)
    }

    /// Validators for a file modified at `last_modified` (Unix seconds) and
    /// `size` bytes long.
    pub fn from_metadata(last_modified: u64, size: u64) -> (r: FileCacheInfo)
        ensures
            r.wf(),
            r.last_modified == last_modified,
            r.size == size,
            r.etag@ == etag_of(last_modified as nat, size as nat),
    {
        let mut etag = String::new();
        push_char(&mut etag, '"');
        push_decimal(&mut etag, last_modified);
        push_char(&mut etag, '-');
        push_decimal(&mut etag, size);
        push_char(&mut etag, '"');
        assert(etag@ =~= etag_of(last_modified as nat, size as nat));
        FileCacheInfo { last_modified, size, etag }
    }

    /// `Last-Modified` as an HTTP date.
    pub fn last_modified_http(&self) -> (r: String)
        ensures
            r@ == http_date(self.last_modified as nat),
    {
        format_http_date(self.last_modified)
    }

    /// How long a response of `content_type` may be cached, in seconds.
    pub fn get_cache_duration(&self, content_type: &str) -> (r: i64)
        ensures
            r == cache_duration_for(content_type@),
    {
        let t = chars_of(content_type);
        if occurs_at_exec(&t, &chars_of("image/"), 0) || occurs_at_exec(
            &t,
            &chars_of("text/css"),
            0) || occurs_at_exec(&t, &chars_of("application/javascript"), 0) || occurs_at_exec(
            &t,
            &chars_of("application/font-"),
            0) || occurs_at_exec(&t, &chars_of("font/"), 0) {
            31536000
        } else if occurs_at_exec(&t, &chars_of("application/gzip"), 0) || occurs_at_exec(
            &t,
            &chars_of("application/zip"),
            0) || occurs_at_exec(&t, &chars_of("application/x-tar"), 0) || occurs_at_exec(
            &t,
            &chars_of("application/octet-stream"),
            0) {
            86400
        } else if occurs_at_exec(&t, &chars_of("text/html"), 0) || occurs_at_exec(
            &t,
            &chars_of("application/json"),
            0) || occurs_at_exec(&t, &chars_of("application/xml"), 0) || occurs_at_exec(
            &t,
            &chars_of("text/xml"),
            0) {
            3600
        } else {
            0
        }
    }
}

/// `s` with the double quotes at both ends removed.
pub fn strip_quotes(s: &str) -> (r: Vec<char>)
    ensures
        r@ == unquoted(s@),
{
    let v = chars_of(s);
    let mut a: usize = 0;
    while a < v.len() && v[a] == '"'
        invariant
            a <= v@.len(),
            skip_quotes(v@, 0, v@.len() as int) == skip_quotes(v@, a as int, v@.len() as int),
        decreases v.len() - a,
    {
        a = a + 1;
    }
    let mut b = v.len();
    while a < b && v[b - 1] == '"'
        invariant
            a <= b <= v@.len(),
            back_quotes(v@, a as int, v@.len() as int) == back_quotes(v@, a as int, b as int),
        decreases b - a,
    {
        b = b - 1;
    }
    crate::text::sub_vec(&v, a, b)
}

/// Parses an unsigned 64-bit decimal as `str::parse::<u64>` does.
pub fn parse_decimal_u64(s: &str) -> (r: Option<u64>)
    ensures
        r == parse_u64(s@),
{
    let v = chars_of(s);
    let start: usize = if v.len() > 0 && v[0] == '+' { 1 } else { 0 };
    let ghost d = unsigned_part(s@);
    assert(d =~= v@.subrange(start as int, v@.len() as int));
    if start >= v.len() {
        return None;
    }
    let mut value: u64 = 0;
    let mut overflow = false;
    let mut i = start;
    while i < v.len()
        invariant
            start <= i <= v@.len(),
            v@ == s@,
            d == unsigned_part(s@),
            d == v@.subrange(start as int, v@.len() as int),
            forall|k: int| start <= k < i ==> is_digit(#[trigger] v@[k]),
            overflow <==> digits_value(v@.subrange(start as int, i as int)) > u64::MAX,
            !overflow ==> value == digits_value(v@.subrange(start as int, i as int)),
        decreases v.len() - i,
    {
        let c = v[i];
        if !('0' <= c && c <= '9') {
            proof {
                let k = i - start;
                assert(d[k] == c);
                assert(!is_digit(d[k]));
                assert(0 <= k < d.len());
                assert(!all_digits(d));
            }
            return None;
        }
        let digit = (c as u32 - '0' as u32) as u64;
        let ghost prev = digits_value(v@.subrange(start as int, i as int));
        assert(v@.subrange(start as int, i + 1).drop_last() =~= v@.subrange(start as int, i as int));
        assert(digits_value(v@.subrange(start as int, i + 1)) == prev * 10 + digit);
        if !overflow {
            if value > (u64::MAX - digit) / 10 {
                overflow = true;
                assert(prev * 10 + digit > u64::MAX) by (nonlinear_arith)
                    requires
                        prev > (u64::MAX - digit) / 10,
                        digit <= 9,
                ;
            } else {
                assert(prev * 10 + digit <= u64::MAX) by (nonlinear_arith)
                    requires
                        prev <= (u64::MAX - digit) / 10,
                        digit <= 9,
                ;
                value = value * 10 + digit;
            }
        } else {
            assert(prev * 10 + digit > u64::MAX) by (nonlinear_arith)
                requires
                    prev > u64::MAX,
            ;
        }
        i = i + 1;
    }
    assert(v@.subrange(start as int, i as int) == d);
    assert forall|k: int| 0 <= k < d.len() implies is_digit(#[trigger] d[k]) by {
        assert(d[k] == v@[start + k]);
    }
    assert(all_digits(d));
    if overflow {
        None
    } else {
        Some(value)
    }
}

/// Whether a conditional request may be answered with 304 Not Modified.
pub fn should_return_not_modified(
    cache_info: &FileCacheInfo,
    if_modified_since: Option<&str>,
    if_none_match: Option<&str>,
) -> (r: bool)
    ensures
        r == not_modified(
            cache_info.etag@,
            cache_info.last_modified,
            opt_chars(if_modified_since),
            opt_chars(if_none_match),
        ),
{
    if let Some(m) = if_none_match {
        let client = strip_quotes(m);
        let server = strip_quotes(cache_info.etag.as_str());
        if client.len() == server.len() {
            let mut i: usize = 0;
            while i < client.len()
                invariant
                    client@.len() == server@.len(),
                    i <= client@.len(),
                    forall|k: int| 0 <= k < i ==> client@[k] == server@[k],
                ensures
                    i <= client@.len(),
                    forall|k: int| 0 <= k < i ==> client@[k] == server@[k],
                    i < client@.len() ==> client@[i as int] != server@[i as int],
                decreases client.len() - i,
            {
                if client[i] != server[i] {
                    break;
                }
                i = i + 1;
            }
            if i == client.len() {
                assert(client@ =~= server@);
                return true;
            }
            assert(client@[i as int] != server@[i as int]);
        }
        assert(client@ != server@);
    }
    if let Some(t) = if_modified_since {
        if let Some(v) = parse_decimal_u64(t) {
            if v >= cache_info.last_modified {
                return true;
            }
        }
    }
    false
}

/// The trimmed values of the last `If-Modified-Since:` and `If-None-Match:`
/// lines of a raw request (names matched exactly).
pub fn parse_conditional_headers(request: &str) -> (r: (Option<String>, Option<String>))
    ensures
        same_value(r.0, last_header(lines(request@), lines(request@).len() as int, "If-Modified-Since:"@)),
        same_value(r.1, last_header(lines(request@), lines(request@).len() as int, "If-None-Match:"@)),
{
    let ls = split_lines(&chars_of(request));
    let ghost lv = lines_view(ls@);
    let ims_name = chars_of("If-Modified-Since:");
    let inm_name = chars_of("If-None-Match:");
    let mut ims: Option<String> = None;
    let mut inm: Option<String> = None;
    let mut i: usize = 0;
    while i < ls.len()
        invariant
            lv == lines_view(ls@),
            lv == lines(request@),
            lv.len() == ls@.len(),
            ims_name@ == "If-Modified-Since:"@,
            inm_name@ == "If-None-Match:"@,
            i <= ls@.len(),
            same_value(ims, last_header(lv, i as int, "If-Modified-Since:"@)),
            same_value(inm, last_header(lv, i as int, "If-None-Match:"@)),
        decreases ls.len() - i,
    {
        assert(lv[i as int] == ls@[i as int]@);
        if occurs_at_exec(&ls[i], &ims_name, 0) {
            ims = Some(trimmed(&ls[i], ims_name.len(), ls[i].len()));
        }
        if occurs_at_exec(&ls[i], &inm_name, 0) {
            inm = Some(trimmed(&ls[i], inm_name.len(), ls[i].len()));
        }
        i = i + 1;
    }
    (ims, inm)
}

/// A conditional request whose `If-None-Match` names the current ETag
/// (quotes aside), or whose `If-Modified-Since` is a timestamp no earlier
/// than the last modification, is answered with 304.
pub proof fn lemma_matching_validator_not_modified(
    info: FileCacheInfo,
    if_modified_since: Option<Seq<char>>,
    if_none_match: Option<Seq<char>>,
)
    requires
        (if_none_match matches Some(m) && unquoted(m) == unquoted(info.etag@)) || (
        if_modified_since matches Some(t) && parse_u64(t) matches Some(v) && v
            >= info.last_modified),
    ensures
        not_modified(info.etag@, info.last_modified, if_modified_since, if_none_match),
{
}

} // verus!
