//! Decimal rendering of a hash digest, cut to a fixed number of digits.

use vstd::prelude::*;

verus! {

/// The character for a decimal digit `d` (`0 <= d < 10`).
pub open spec fn digit_char(d: nat) -> char {
    ((d + 48) as u8) as char
}

/// The last `n` decimal digits of `h`, most significant first, with leading
/// zeros where `h` has fewer than `n` digits.
pub open spec fn last_digits(h: nat, n: nat) -> Seq<char>
    decreases n,
{
    if n == 0 {
        Seq::empty()
    } else {
        last_digits(h / 10, (n - 1) as nat).push(digit_char(h % 10))
    }
}

/// Asking for one digit more adds it on the left: the digits already shown stay.
pub proof fn lemma_last_digits_grow_left(h: nat, n: nat)
    ensures
        last_digits(h, n + 1).len() == n + 1,
        last_digits(h, n + 1).subrange(1, n + 1 as int) == last_digits(h, n),
    decreases n,
{
    lemma_last_digits_len(h, n + 1);
    if n > 0 {
        lemma_last_digits_grow_left(h / 10, (n - 1) as nat);
        assert(last_digits(h, n + 1).subrange(1, n + 1 as int) =~= last_digits(h, n));
    } else {
        assert(last_digits(h, 1).subrange(1, 1) =~= Seq::<char>::empty());
    }
}

/// `last_digits(h, n)` has exactly `n` characters.
pub proof fn lemma_last_digits_len(h: nat, n: nat)
    ensures
        last_digits(h, n).len() == n,
    decreases n,
{
    if n > 0 {
        lemma_last_digits_len(h / 10, (n - 1) as nat);
    }
}

/// Every character of `last_digits` is an ASCII decimal digit.
pub proof fn lemma_last_digits_are_digits(h: nat, n: nat)
    ensures
        forall|i: int|
            0 <= i < last_digits(h, n).len() ==> '0' <= #[trigger] last_digits(h, n)[i] <= '9',
    decreases n,
{
    if n > 0 {
        lemma_last_digits_are_digits(h / 10, (n - 1) as nat);
        lemma_last_digits_len(h / 10, (n - 1) as nat);
    }
}

/// The last `n` decimal digits of `h`, left-padded with `'0'` to exactly `n` characters.
pub fn hashpatty_digits(h: u64, n: usize) -> (r: Vec<char>)
    ensures
        r@ == last_digits(h as nat, n as nat),
{
    let mut acc: Vec<char> = Vec::new();
    let mut cur: u64 = h;
    let mut k: usize = 0;
    while k < n
        invariant
            k <= n,
            last_digits(h as nat, n as nat) == last_digits(cur as nat, (n - k) as nat) + acc@,
        decreases n - k,
    {
        let d: u64 = cur % 10;
        let c: char = ((d as u8) + 48u8) as char;
        proof {
            let m = (n - k) as nat;
            assert(last_digits(cur as nat, m) == last_digits(cur as nat / 10, (m - 1) as nat).push(
                digit_char(cur as nat % 10),
            ));
            assert(c == digit_char(cur as nat % 10));
            assert(last_digits(cur as nat, m) + acc@ =~= last_digits(cur as nat / 10, (m - 1) as nat)
                + seq![c].add(acc@));
        }
        let ghost before = acc@;
        acc.insert(0, c);
        assert(acc@ =~= seq![c].add(before));
        cur = cur / 10;
        k = k + 1;
    }
    proof {
        assert(last_digits(cur as nat, 0) =~= Seq::<char>::empty());
        assert(Seq::<char>::empty() + acc@ =~= acc@);
    }
    acc
}

} // verus!
