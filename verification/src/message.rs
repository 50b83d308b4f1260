//! Error messages built from pieces of text and characters.
use vstd::prelude::*;
use crate::string_ops::{push_char, push_str};

verus! {

/// The text of `before`, the character `c`, then `after`.
pub(crate) fn with_char(before: &str, c: char, after: &str) -> (s: String)
    ensures
        s@ == before@ + seq![c] + after@,
{
    let mut s = String::new();
    push_str(&mut s, before);
    push_char(&mut s, c);
    push_str(&mut s, after);
    s
}

/// The five pieces of text one after another.
pub(crate) fn with_two_strs(a: &str, x: &str, b: &str, y: &str, c: &str) -> (s: String)
    ensures
        s@ == a@ + x@ + b@ + y@ + c@,
{
    let mut s = String::new();
    push_str(&mut s, a);
    push_str(&mut s, x);
    push_str(&mut s, b);
    push_str(&mut s, y);
    push_str(&mut s, c);
    s
}

/// The three pieces of text one after another.
pub(crate) fn with_str(before: &str, x: &str, after: &str) -> (s: String)
    ensures
        s@ == before@ + x@ + after@,
{
    let mut s = String::new();
    push_str(&mut s, before);
    push_str(&mut s, x);
    push_str(&mut s, after);
    s
}

/// The text `a`, the character `x`, the text `b`, the character `y`, the text `c`.
pub(crate) fn with_two_chars(a: &str, x: char, b: &str, y: char, c: &str) -> (s: String)
    ensures
        s@ == a@ + seq![x] + b@ + seq![y] + c@,
{
    let mut s = String::new();
    push_str(&mut s, a);
    push_char(&mut s, x);
    push_str(&mut s, b);
    push_char(&mut s, y);
    push_str(&mut s, c);
    s
}

} // verus!
