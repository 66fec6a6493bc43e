//! The environment handed to request handlers: method, query and headers.

use vstd::prelude::*;
use crate::response::{HeaderView, entries_view, set_entry, with_header};
use crate::text::first_index_from;
use crate::text::{chars_of, push_char};

verus! {

pub open spec fn hex_digit_value(c: char) -> Option<int> {
    if '0' <= c && c <= '9' {
        Some(c as u32 - '0' as u32)
    } else if 'a' <= c && c <= 'f' {
        Some(c as u32 - 'a' as u32 + 10)
    } else if 'A' <= c && c <= 'F' {
        Some(c as u32 - 'A' as u32 + 10)
    } else {
        None
    }
}

/// The byte that two characters name in base 16, as `u8::from_str_radix`
/// reads them (a leading `+` allowed).
pub open spec fn hex_pair(c1: char, c2: char) -> Option<u8> {
    match (hex_digit_value(c1), hex_digit_value(c2)) {
        (Some(a), Some(b)) => Some((16 * a + b) as u8),
        (None, Some(b)) => if c1 == '+' { Some(b as u8) } else { None },
        _ => None,
    }
}

/// Form decoding: `+` is a space, `%` and two characters naming a byte is
/// that byte as a Latin-1 character, a `%` before two other characters is
/// kept with them, and a `%` with fewer than two characters after it ends
/// the text.
pub open spec fn form_decoded(s: Seq<char>) -> Seq<char>
    decreases s.len(),
{
    if s.len() == 0 {
        Seq::empty()
    } else if s[0] == '+' {
        seq![' '] + form_decoded(s.drop_first())
    } else if s[0] == '%' {
        if s.len() >= 3 {
            match hex_pair(s[1], s[2]) {
                Some(b) => seq![b as char] + form_decoded(s.subrange(3, s.len() as int)),
                None => seq!['%', s[1], s[2]] + form_decoded(s.subrange(3, s.len() as int)),
            }
        } else {
            seq!['%']
        }
    } else {
        seq![s[0]] + form_decoded(s.drop_first())
    }
}

fn hex_digit_value_exec(c: char) -> (r: Option<u32>)
    ensures
        match (r, hex_digit_value(c)) {
            (Some(a), Some(b)) => a == b,
            (None, None) => true,
            _ => false,
        },
{
    if '0' <= c && c <= '9' {
        Some(c as u32 - '0' as u32)
    } else if 'a' <= c && c <= 'f' {
        Some(c as u32 - 'a' as u32 + 10)
    } else if 'A' <= c && c <= 'F' {
        Some(c as u32 - 'A' as u32 + 10)
    } else {
        None
    }
}

/// Decodes `v[from..to]` as `form_decoded` does.
fn form_decode_range(v: &Vec<char>, from: usize, to: usize) -> (r: String)
    requires
        from <= to <= v@.len(),
    ensures
        r@ == form_decoded(v@.subrange(from as int, to as int)),
{
    let mut out = String::new();
    let mut i = from;
    while i < to
        invariant
            from <= i <= to <= v@.len(),
            out@ + form_decoded(v@.subrange(i as int, to as int)) == form_decoded(
                v@.subrange(from as int, to as int),
            ),
        decreases to - i,
    {
        let ghost rest = v@.subrange(i as int, to as int);
        let c = v[i];
        assert(rest[0] == c);
        if c == '+' {
            assert(rest.drop_first() =~= v@.subrange(i + 1, to as int));
            push_char(&mut out, ' ');
            i = i + 1;
        } else if c == '%' {
            if to - i >= 3 {
                let c1 = v[i + 1];
                let c2 = v[i + 2];
                assert(rest[1] == c1 && rest[2] == c2);
                assert(rest.subrange(3, rest.len() as int) =~= v@.subrange(i + 3, to as int));
                let a = hex_digit_value_exec(c1);
                let b = hex_digit_value_exec(c2);
                match (a, b) {
                    (Some(x), Some(y)) => {
                        push_char(&mut out, ((16 * x + y) as u8) as char);
                    },
                    (None, Some(y)) => {
                        if c1 == '+' {
                            push_char(&mut out, (y as u8) as char);
                        } else {
                            push_char(&mut out, '%');
                            push_char(&mut out, c1);
                            push_char(&mut out, c2);
                        }
                    },
                    _ => {
                        push_char(&mut out, '%');
                        push_char(&mut out, c1);
                        push_char(&mut out, c2);
                    },
                }
                i = i + 3;
            } else {
                push_char(&mut out, '%');
                assert(v@.subrange(to as int, to as int) =~= Seq::<char>::empty());
                i = to;
            }
        } else {
            assert(rest.drop_first() =~= v@.subrange(i + 1, to as int));
            push_char(&mut out, c);
            i = i + 1;
        }
    }
    out
}

/// Decodes form-encoded text (see `form_decoded`).
pub fn url_decode(s: &str) -> (r: String)
    ensures
        r@ == form_decoded(s@),
{
    let v = chars_of(s);
    assert(v@.subrange(0, v@.len() as int) =~= v@);
    form_decode_range(&v, 0, v.len())
}

/// One `key=value` piece applied to the parameters so far: split at the
/// first `=`, both sides decoded, a later key replacing an earlier one;
/// pieces without `=` are skipped.
pub open spec fn add_param(acc: Seq<HeaderView>, piece: Seq<char>) -> Seq<HeaderView> {
    let e = first_index_from(piece, '=', 0);
    if e < piece.len() {
        with_header(
            acc,
            form_decoded(piece.subrange(0, e)),
            form_decoded(piece.subrange(e + 1, piece.len() as int)),
        )
    } else {
        acc
    }
}

/// The parameters of the `&`-separated pieces of `q`, the current piece
/// having begun at `start` and scanning having reached `pos`.
pub open spec fn params_from(q: Seq<char>, pos: int, start: int, acc: Seq<HeaderView>) -> Seq<HeaderView>
    decreases q.len() - pos,
{
    if pos >= q.len() {
        add_param(acc, q.subrange(start, q.len() as int))
    } else if q[pos] == '&' {
        params_from(q, pos + 1, pos + 1, add_param(acc, q.subrange(start, pos)))
    } else {
        params_from(q, pos + 1, start, acc)
    }
}

/// Request data as a handler sees it.
pub struct CgiEnv {
    pub query_string: String,
    pub request_method: String,
    pub content_length: Option<usize>,
    pub content_type: Option<String>,
    /// Request headers as (name, value) pairs.
    pub headers: Vec<(String, String)>,
}

fn add_param_exec(params: &mut Vec<(String, String)>, q: &Vec<char>, start: usize, end: usize)
    requires
        start <= end <= q@.len(),
    ensures
        entries_view(final(params)@) == add_param(
            entries_view(old(params)@),
            q@.subrange(start as int, end as int),
        ),
{
    let ghost piece = q@.subrange(start as int, end as int);
    let mut e = start;
    while e < end && q[e] != '='
        invariant
            start <= e <= end <= q@.len(),
            piece == q@.subrange(start as int, end as int),
            forall|k: int| start <= k < e ==> q@[k] != '=',
        decreases end - e,
    {
        e = e + 1;
    }
    assert(first_index_from(piece, '=', 0) == e - start) by {
        assert forall|j: int| 0 <= j <= e - start implies first_index_from(piece, '=', j) == e - start by {
            lemma_first_index(piece, j, (e - start) as int);
        }
    }
    if e < end {
        assert(piece.subrange(0, e - start) =~= q@.subrange(start as int, e as int));
        assert(piece.subrange(e - start + 1, piece.len() as int) =~= q@.subrange(e + 1, end as int));
        let key = form_decode_range(q, start, e);
        let value = form_decode_range(q, e + 1, end);
        set_entry(params, key, value);
    }
}

proof fn lemma_first_index(s: Seq<char>, j: int, e: int)
    requires
        0 <= j <= e <= s.len(),
        forall|k: int| j <= k < e ==> s[k] != '=',
        e < s.len() ==> s[e] == '=',
    ensures
        first_index_from(s, '=', j) == e,
    decreases e - j,
{
    if j < e {
        lemma_first_index(s, j + 1, e);
    }
}

impl CgiEnv {
    pub fn new() -> (r: CgiEnv)
        ensures
            r.query_string@.len() == 0,
            r.request_method@.len() == 0,
            r.content_length is None,
            r.content_type is None,
            r.headers@.len() == 0,
    {
        CgiEnv {
            query_string: String::new(),
            request_method: String::new(),
            content_length: None,
            content_type: None,
            headers: Vec::new(),
        }
    }

    /// The environment of a request: its method, query string and headers.
    pub fn from_request(
        method: &str,
        uri: &str,
        host: &str,
        query_string: &str,
        headers: &Vec<(String, String)>,
    ) -> (r: CgiEnv)
        ensures
            r.request_method@ == method@,
            r.query_string@ == query_string@,
            entries_view(r.headers@) == entries_view(headers@),
            r.content_length is None,
            r.content_type is None,
    {
        let mut env = CgiEnv::new();
        env.request_method = method.to_owned();
        env.query_string = query_string.to_owned();
        let mut i: usize = 0;
        while i < headers.len()
            invariant
                i <= headers@.len(),
                env.request_method@ == method@,
                env.query_string@ == query_string@,
                env.content_length is None,
                env.content_type is None,
                env.headers@.len() == i,
                entries_view(env.headers@) == entries_view(headers@.subrange(0, i as int)),
            decreases headers.len() - i,
        {
            let name = headers[i].0.clone();
            let value = headers[i].1.clone();
            let ghost before = env.headers@;
            env.headers.push((name, value));
            proof {
                let a = entries_view(env.headers@);
                let b = entries_view(headers@.subrange(0, i + 1));
                assert(a.len() == b.len());
                assert forall|k: int| 0 <= k < a.len() implies a[k] == b[k] by {
                    if k < i {
                        assert(a[k] == entries_view(before)[k]);
                        assert(entries_view(before)[k] == entries_view(headers@.subrange(0, i as int))[k]);
                    } else {
                        assert(env.headers@[k] == (name, value));
                    }
                }
                assert(a =~= b);
            }
            i = i + 1;
        }
        assert(headers@.subrange(0, headers@.len() as int) =~= headers@);
        env
    }

    /// The decoded query parameters, each key once with its last value, in
    /// order of first appearance.
    pub fn parse_query(&self) -> (r: Vec<(String, String)>)
        ensures
            entries_view(r@) == params_from(self.query_string@, 0, 0, Seq::empty()),
    {
        let q = chars_of(self.query_string.as_str());
        let mut params: Vec<(String, String)> = Vec::new();
        assert(entries_view(params@) =~= Seq::<HeaderView>::empty());
        let mut pos: usize = 0;
        let mut start: usize = 0;
        while pos < q.len()
            invariant
                start <= pos <= q@.len(),
                q@ == self.query_string@,
                params_from(q@, 0, 0, Seq::empty()) == params_from(
                    q@,
                    pos as int,
                    start as int,
                    entries_view(params@),
                ),
            decreases q.len() - pos,
        {
            if q[pos] == '&' {
                add_param_exec(&mut params, &q, start, pos);
                start = pos + 1;
            }
            pos = pos + 1;
        }
        add_param_exec(&mut params, &q, start, q.len());
        params
    }
}

} // verus!
