use vstd::prelude::*;

pub mod token;
pub mod scan;
pub mod laws;

pub use token::{Lexeme, Number, Type};
pub use scan::{scan, ScanError, Scanner, Continuation};

verus! {

/// The characters of `s`, in order.
pub fn chars_of(s: &str) -> (r: Vec<char>)
    ensures
        r@ == s@,
{
    let mut out: Vec<char> = Vec::new();
    for c in it: s.chars()
        invariant
            out@ == it.seq().take(it.index() as int),
            it.seq() == s@,
    {
        out.push(c);
    }
    out
}

} // verus!
