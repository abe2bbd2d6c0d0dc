//! Runs of bytes of one class, the building block of the log grammar.
use vstd::prelude::*;
use crate::bytes::is_ws;

verus! {

/// The byte classes that the log grammar distinguishes.
#[derive(Clone, Copy, PartialEq, Eq, Structural)]
pub enum Class {
    /// ASCII whitespace.
    Space,
    /// ASCII decimal digit.
    Digit,
    /// Lower-case hex digit or `-` (the body of a uuid).
    Hex,
    /// Lower-case letter, digit or `-` (the body of an identifier).
    Ident,
    /// Anything but `~` and whitespace (an instance token).
    Token,
}

pub open spec fn in_class(c: Class, b: u8) -> bool {
    match c {
        Class::Space => is_ws(b),
        Class::Digit => 48 <= b <= 57,
        Class::Hex => (48 <= b <= 57) || (97 <= b <= 102) || b == 45,
        Class::Ident => (48 <= b <= 57) || (97 <= b <= 122) || b == 45,
        Class::Token => b != 126 && !is_ws(b),
    }
}

/// The number of bytes of class `c` starting at `i`.
pub open spec fn run(s: Seq<u8>, i: int, c: Class) -> nat
    decreases s.len() - i,
{
    if 0 <= i < s.len() && in_class(c, s[i]) {
        1 + run(s, i + 1, c)
    } else {
        0
    }
}

pub proof fn lemma_run_bound(s: Seq<u8>, i: int, c: Class)
    requires
        0 <= i <= s.len(),
    ensures
        i + run(s, i, c) <= s.len(),
    decreases s.len() - i,
{
    if i < s.len() && in_class(c, s[i]) {
        lemma_run_bound(s, i + 1, c);
    }
}

pub fn in_class_byte(c: Class, b: u8) -> (r: bool)
    ensures
        r == in_class(c, b),
{
    match c {
        Class::Space => b == 32 || (9 <= b && b <= 13),
        Class::Digit => 48 <= b && b <= 57,
        Class::Hex => (48 <= b && b <= 57) || (97 <= b && b <= 102) || b == 45,
        Class::Ident => (48 <= b && b <= 57) || (97 <= b && b <= 122) || b == 45,
        Class::Token => b != 126 && !(b == 32 || (9 <= b && b <= 13)),
    }
}

/// The length of the run of class `c` that starts at `i`.
pub fn run_len(s: &[u8], i: usize, c: Class) -> (r: usize)
    requires
        i <= s@.len(),
    ensures
        r == run(s@, i as int, c),
        i + r <= s@.len(),
{
    let mut j = i;
    while j < s.len() && in_class_byte(c, s[j])
        invariant
            i <= j <= s@.len(),
            run(s@, i as int, c) == (j - i) + run(s@, j as int, c),
        decreases s.len() - j,
    {
        j = j + 1;
    }
    j - i
}

} // verus!
