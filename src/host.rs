//! The host a request is addressed to.

use vstd::prelude::*;
use crate::text::first_index_from;
use crate::text::{
    chars_of, index_of, lines, lines_view, lower_of, lowercase_chars, occurs_at_exec, split_lines,
    starts_with, trim_of, trimmed,
};

verus! {

/// The domain of the first `Host:` line at or after line `i` (name matched
/// in lower case): what lies between the line's first and second `:`,
/// trimmed.
pub open spec fn host_from(ls: Seq<Seq<char>>, i: int) -> Option<Seq<char>>
    decreases ls.len() - i,
{
    if i < 0 || i >= ls.len() {
        None
    } else if starts_with(lower_of(ls[i]), "host:"@) {
        let a = first_index_from(ls[i], ':', 0);
        if a < ls[i].len() {
            Some(trim_of(ls[i], a + 1, first_index_from(ls[i], ':', a + 1)))
        } else {
            None
        }
    } else {
        host_from(ls, i + 1)
    }
}

/// The domain named by the `Host:` header of a raw request, without port.
pub fn extract_domain_from_host_header(request: &str) -> (r: Option<String>)
    ensures
        match (r, host_from(lines(request@), 0)) {
            (Some(d), Some(e)) => d@ == e,
            (None, None) => true,
            _ => false,
        },
{
    let ls = split_lines(&chars_of(request));
    let ghost lv = lines_view(ls@);
    let prefix = chars_of("host:");
    let mut i: usize = 0;
    while i < ls.len()
        invariant
            lv == lines_view(ls@),
            lv == lines(request@),
            lv.len() == ls@.len(),
            prefix@ == "host:"@,
            i <= ls@.len(),
            host_from(lv, 0) == host_from(lv, i as int),
        decreases ls.len() - i,
    {
        assert(lv[i as int] == ls@[i as int]@);
        if occurs_at_exec(&lowercase_chars(&ls[i]), &prefix, 0) {
            let line = &ls[i];
            let a = index_of(line, ':', 0);
            if a == line.len() {
                return None;
            }
            let end = index_of(line, ':', a + 1);
            return Some(trimmed(line, a + 1, end));
        }
        i = i + 1;
    }
    assert(host_from(lv, i as int) == None::<Seq<char>>);
    None
}

} // verus!
