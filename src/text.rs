//! Small string-building steps on character sequences.

use vstd::prelude::*;

verus! {

/// Relies on `String::push`: the character is appended at the end.
#[verifier::external_body]
pub(crate) fn push_char(s: &mut String, c: char)
    ensures
        final(s)@ == old(s)@.push(c),
{
    s.push(c);
}

/// `n` copies of `c`.
pub open spec fn repeat_char(c: char, n: nat) -> Seq<char> {
    Seq::new(n, |_i: int| c)
}

/// Appends every character of `v`, in order.
pub(crate) fn push_chars(s: &mut String, v: &Vec<char>)
    ensures
        final(s)@ == old(s)@ + v@,
{
    let mut j: usize = 0;
    while j < v.len()
        invariant
            j <= v.len(),
            s@ == old(s)@ + v@.subrange(0, j as int),
        decreases v.len() - j,
    {
        push_char(s, v[j]);
        assert(v@.subrange(0, j + 1 as int) =~= v@.subrange(0, j as int).push(v@[j as int]));
        j = j + 1;
    }
    assert(v@.subrange(0, v.len() as int) =~= v@);
}

/// Appends `n` copies of `c`.
pub(crate) fn push_repeated(s: &mut String, c: char, n: usize)
    ensures
        final(s)@ == old(s)@ + repeat_char(c, n as nat),
{
    let mut j: usize = 0;
    while j < n
        invariant
            j <= n,
            s@ == old(s)@ + repeat_char(c, j as nat),
        decreases n - j,
    {
        push_char(s, c);
        assert(repeat_char(c, (j + 1) as nat) =~= repeat_char(c, j as nat).push(c));
        j = j + 1;
    }
}

/// The characters of `s`, in order.
pub(crate) fn chars_of(s: &str) -> (v: Vec<char>)
    ensures
        v@ == s@,
{
    let mut v: Vec<char> = Vec::new();
    for c in it: s.chars()
        invariant
            it.seq() == s@,
            v@ == it.seq().subrange(0, it.index() as int),
    {
        v.push(c);
    }
    v
}

} // verus!
