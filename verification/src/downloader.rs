use vstd::prelude::*;

verus! {

/// The greeting that the example download entry point prints.
pub fn download_files() -> (greeting: String)
    ensures
        greeting@ == seq!['h', 'e', 'l', 'l', 'o'],
{
    let greeting = String::from_str("hello");
    proof {
        reveal_strlit("hello");
    }
    greeting
}

} // verus!
