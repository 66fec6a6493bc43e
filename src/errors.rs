//! Errors that say which operation failed, on what, and why.

use vstd::prelude::*;
use crate::text::push_str;

verus! {

/// A failed operation, the path or address it concerned (if any), and the
/// underlying error's message.
#[derive(Debug, Clone)]
pub struct EnhancedError {
    pub operation: String,
    pub path: Option<String>,
    pub original_error: String,
}

/// `<operation> failed for '<path>': <error>`, or without the path part.
pub open spec fn error_message(e: EnhancedError) -> Seq<char> {
    match e.path {
        Some(p) => e.operation@ + " failed for '"@ + p@ + "': "@ + e.original_error@,
        None => e.operation@ + " failed: "@ + e.original_error@,
    }
}

impl EnhancedError {
    /// The error as one line of text.
    pub fn to_string(&self) -> (r: String)
        ensures
            r@ == error_message(*self),
    {
        let mut s = String::new();
        push_str(&mut s, self.operation.as_str());
        match &self.path {
            Some(p) => {
                push_str(&mut s, " failed for '");
                push_str(&mut s, p.as_str());
                push_str(&mut s, "': ");
            },
            None => {
                push_str(&mut s, " failed: ");
            },
        }
        push_str(&mut s, self.original_error.as_str());
        proof {
            reveal_strlit("");
        }
        assert(s@ =~= error_message(*self));
        s
    }
}

/// A failed file operation on `path`.
pub fn file_operation_error(operation: &str, path: &str, error: &str) -> (r: EnhancedError)
    ensures
        r.operation@ == operation@,
        r.path matches Some(p) && p@ == path@,
        r.original_error@ == error@,
{
    EnhancedError {
        operation: operation.to_owned(),
        path: Some(path.to_owned()),
        original_error: error.to_owned(),
    }
}

/// A failed network operation on `address`.
pub fn network_operation_error(operation: &str, address: &str, error: &str) -> (r: EnhancedError)
    ensures
        r.operation@ == operation@,
        r.path matches Some(p) && p@ == address@,
        r.original_error@ == error@,
{
    EnhancedError {
        operation: operation.to_owned(),
        path: Some(address.to_owned()),
        original_error: error.to_owned(),
    }
}

/// A failed operation that concerns no path.
pub fn operation_error(operation: &str, error: &str) -> (r: EnhancedError)
    ensures
        r.operation@ == operation@,
        r.path is None,
        r.original_error@ == error@,
{
    EnhancedError { operation: operation.to_owned(), path: None, original_error: error.to_owned() }
}

} // verus!
