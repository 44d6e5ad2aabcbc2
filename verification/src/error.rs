//! The library's typed errors.

use vstd::prelude::*;
use vstd::string::StringExecFns;
use crate::gpx::text::{decimal, push_decimal};

verus! {

/// What went wrong, with a message for the rider or the log.
#[derive(Debug, Clone, PartialEq)]
pub enum CoreError {
    /// The caller handed in something the library refuses.
    InvalidArgument(String),
    /// A region file is damaged or of an unknown format.
    Region(String),
    /// The rider's database could not be read or written.
    Storage(String),
    /// No route satisfies the request.
    NoRoute(String),
}

impl CoreError {
    /// The text shown for the error: a prefix naming its kind, then the
    /// message.
    pub open spec fn text(&self) -> Seq<char> {
        match self {
            CoreError::InvalidArgument(m) => "invalid argument: "@ + m@,
            CoreError::Region(m) => "region file error: "@ + m@,
            CoreError::Storage(m) => "storage error: "@ + m@,
            CoreError::NoRoute(m) => "no route satisfies the constraints: "@ + m@,
        }
    }

    /// The text shown for the error (see [`Self::text`]).
    pub fn message(&self) -> (s: String)
        ensures
            s@ == self.text(),
    {
        match self {
            CoreError::InvalidArgument(m) => String::from_str("invalid argument: ").concat(m.as_str()),
            CoreError::Region(m) => String::from_str("region file error: ").concat(m.as_str()),
            CoreError::Storage(m) => String::from_str("storage error: ").concat(m.as_str()),
            CoreError::NoRoute(m) => String::from_str("no route satisfies the constraints: ").concat(m.as_str()),
        }
    }
}

/// `text` as an owned string.
pub fn owned(text: &str) -> (s: String)
    ensures
        s@ == text@,
{
    String::from_str(text)
}

/// `a`, the decimal digits of `n`, then `b`.
pub fn with_number(a: &str, n: u64, b: &str) -> (s: String)
    ensures
        s@ == a@ + decimal(n as nat) + b@,
{
    let mut s = owned(a);
    push_decimal(&mut s, n);
    s.concat(b)
}

/// The decimal text of `n`, with a minus sign when it is negative.
pub open spec fn signed_decimal(n: int) -> Seq<char> {
    if n < 0 { seq!['-'] + decimal((-n) as nat) } else { decimal(n as nat) }
}

/// `a`, the decimal text of `n` (signed), then `b`.
pub fn with_signed(a: &str, n: i64, b: &str) -> (s: String)
    ensures
        s@ == a@ + signed_decimal(n as int) + b@,
{
    let mut s = owned(a);
    if n < 0 {
        s.push('-');
        let m: u64 = if n == i64::MIN { 9223372036854775808u64 } else { (-n) as u64 };
        push_decimal(&mut s, m);
        assert(s@ =~= a@ + signed_decimal(n as int));
    } else {
        push_decimal(&mut s, n as u64);
    }
    s.concat(b)
}

/// `a` followed by `b`.
pub fn join(a: String, b: String) -> (s: String)
    ensures
        s@ == a@ + b@,
{
    a.concat(b.as_str())
}

/// A region error with message `text`.
pub fn region_error(text: &str) -> (e: CoreError)
    ensures
        e matches CoreError::Region(m) && m@ == text@,
{
    CoreError::Region(owned(text))
}

} // verus!
