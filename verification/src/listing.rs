//! Lines of a listing: one instruction each, as a mnemonic and its operands.

use crate::render::sign_str;
use vstd::prelude::*;
use vstd::string::*;

verus! {

/// The line of an instruction with two operands: the mnemonic, a space, the
/// operands with a comma and a space between them, and a line feed.
pub open spec fn line(name: Seq<char>, first: Seq<char>, second: Seq<char>) -> Seq<char> {
    name + seq![' '] + first + seq![','] + seq![' '] + second + seq!['\n']
}

/// The line of an instruction without operands: the mnemonic and a line feed.
pub open spec fn bare_line(name: Seq<char>) -> Seq<char> {
    name + seq!['\n']
}

/// The line of an instruction with two operands.
pub fn make_line(name: &str, first: &str, second: &str) -> (s: String)
    ensures
        s@ == line(name@, first@, second@),
{
    let mut s = String::from_str(name);
    s.append(sign_str(' '));
    s.append(first);
    s.append(sign_str(','));
    s.append(sign_str(' '));
    s.append(second);
    s.append(sign_str('\n'));
    s
}

/// The line of an instruction without operands.
pub fn make_bare_line(name: &str) -> (s: String)
    ensures
        s@ == bare_line(name@),
{
    let mut s = String::from_str(name);
    s.append(sign_str('\n'));
    s
}

} // verus!
