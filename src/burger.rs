//! Shortening one string to a hashburger: left bun, hashpatty, right bun.

use std::collections::hash_map::DefaultHasher;
use std::hash::Hasher;
use vstd::prelude::*;
use vstd::std_specs::hash::DefaultHasherAdditionalSpecFns;
use vstd::string::StrSliceExecFns;
use vstd::string::StringExecFns;
use vstd::utf8::encode_utf8;

use crate::digits::hashpatty_digits;
use crate::digits::last_digits;
use crate::digits::lemma_last_digits_are_digits;
use crate::digits::lemma_last_digits_grow_left;
use crate::digits::lemma_last_digits_len;
use crate::text::push_chars;
use crate::text::push_repeated;
use crate::text::repeat_char;

verus! {

/// The shape of a hashburger.
#[derive(Clone, Copy, Debug)]
pub struct BurgerizeArgs {
    /// Characters kept verbatim from the start of a long input.
    pub left_bun_length: usize,
    /// Decimal digits of the digest shown between the buns.
    pub center_hashpatty_length: usize,
    /// Characters kept verbatim from the end of a long input.
    pub right_bun_length: usize,
    /// Character used to right-pad short inputs; `None` leaves them as they are.
    pub padding_char: Option<char>,
}

/// The width of a hashburger: both buns and the hashpatty.
pub open spec fn burger_len(args: BurgerizeArgs) -> int {
    args.left_bun_length + args.center_hashpatty_length + args.right_bun_length
}

/// The width fits in a `usize`.
pub open spec fn args_fit(args: BurgerizeArgs) -> bool {
    burger_len(args) <= usize::MAX
}

/// The digest of a patty: a `DefaultHasher` fed the patty as `str` hashes it,
/// that is its UTF-8 bytes followed by the byte `0xff`.
pub open spec fn patty_digest(patty: Seq<char>) -> u64 {
    DefaultHasher::spec_finish(seq![encode_utf8(patty), seq![0xffu8]])
}

/// The part of a long input between its buns.
pub open spec fn patty_of(s: Seq<char>, args: BurgerizeArgs) -> Seq<char> {
    s.subrange(args.left_bun_length as int, s.len() - args.right_bun_length)
}

/// The digits that stand between the buns of a long input.
pub open spec fn hashpatty_of(s: Seq<char>, args: BurgerizeArgs) -> Seq<char> {
    last_digits(patty_digest(patty_of(s, args)) as nat, args.center_hashpatty_length as nat)
}

/// The hashburger of `s`.
///
/// An input no longer than the width is returned as it is, or right-padded to
/// the width when a padding character is given. A longer input becomes its
/// first `left_bun_length` characters, the last `center_hashpatty_length`
/// decimal digits of its patty's digest, and its last `right_bun_length`
/// characters.
pub open spec fn burgerized(s: Seq<char>, args: BurgerizeArgs) -> Seq<char> {
    if s.len() <= burger_len(args) {
        match args.padding_char {
            None => s,
            Some(c) => s + repeat_char(c, (burger_len(args) - s.len()) as nat),
        }
    } else {
        s.subrange(0, args.left_bun_length as int) + hashpatty_of(s, args) + s.subrange(
            s.len() - args.right_bun_length,
            s.len() as int,
        )
    }
}

/// The length of a hashburger: the width when the input is long or padded,
/// the input's own length when a short input is left unpadded.
pub proof fn lemma_burgerized_len(s: Seq<char>, args: BurgerizeArgs)
    ensures
        s.len() <= burger_len(args) && args.padding_char is Some ==> burgerized(s, args).len()
            == burger_len(args),
        s.len() <= burger_len(args) && args.padding_char is None ==> burgerized(s, args).len()
            == s.len(),
        s.len() > burger_len(args) ==> burgerized(s, args).len() == burger_len(args),
{
    lemma_last_digits_len(
        patty_digest(patty_of(s, args)) as nat,
        args.center_hashpatty_length as nat,
    );
}

/// A long input keeps its first `left_bun_length` and last `right_bun_length`
/// characters verbatim, with the hashpatty, all decimal digits, between them.
pub proof fn lemma_buns_preserved(s: Seq<char>, args: BurgerizeArgs)
    requires
        s.len() > burger_len(args),
    ensures
        burgerized(s, args).subrange(0, args.left_bun_length as int) == s.subrange(
            0,
            args.left_bun_length as int,
        ),
        burgerized(s, args).subrange(
            args.left_bun_length as int,
            args.left_bun_length + args.center_hashpatty_length,
        ) == hashpatty_of(s, args),
        forall|i: int|
            args.left_bun_length <= i < args.left_bun_length + args.center_hashpatty_length
                ==> '0' <= #[trigger] burgerized(s, args)[i] <= '9',
        burgerized(s, args).subrange(
            burger_len(args) - args.right_bun_length,
            burger_len(args),
        ) == s.subrange(s.len() - args.right_bun_length, s.len() as int),
{
    let l = args.left_bun_length as int;
    let c = args.center_hashpatty_length as int;
    let t = burger_len(args);
    let out = burgerized(s, args);
    lemma_burgerized_len(s, args);
    lemma_last_digits_len(patty_digest(patty_of(s, args)) as nat, c as nat);
    lemma_last_digits_are_digits(patty_digest(patty_of(s, args)) as nat, c as nat);
    assert(out.subrange(0, l) =~= s.subrange(0, l));
    assert forall|i: int| l <= i < l + c implies '0' <= #[trigger] out[i] <= '9' by {
        assert(out[i] == hashpatty_of(s, args)[i - l]);
    }
    assert(out.subrange(l, l + c) =~= hashpatty_of(s, args));
    assert(out.subrange(t - args.right_bun_length, t) =~= s.subrange(
        s.len() - args.right_bun_length,
        s.len() as int,
    ));
}

/// The hashburger depends on the input and the shape alone: equal inputs and
/// equal shapes give equal hashburgers.
pub proof fn lemma_burgerize_deterministic(
    s1: Seq<char>,
    args1: BurgerizeArgs,
    s2: Seq<char>,
    args2: BurgerizeArgs,
)
    requires
        s1 == s2,
        args1 == args2,
    ensures
        burgerized(s1, args1) == burgerized(s2, args2),
{
}

/// Widening the hashpatty by one digit, all else fixed, on an input that is
/// long for the wider shape, adds a digit on the left: the rightmost digits of
/// the new hashpatty are the old hashpatty.
pub proof fn lemma_hashpatty_grows_left(s: Seq<char>, args: BurgerizeArgs, wider: BurgerizeArgs)
    requires
        wider.left_bun_length == args.left_bun_length,
        wider.right_bun_length == args.right_bun_length,
        wider.padding_char == args.padding_char,
        wider.center_hashpatty_length == args.center_hashpatty_length + 1,
        s.len() > burger_len(wider),
    ensures
        hashpatty_of(s, wider).len() == args.center_hashpatty_length + 1,
        hashpatty_of(s, wider).subrange(1, hashpatty_of(s, wider).len() as int) == hashpatty_of(
            s,
            args,
        ),
        burgerized(s, wider).subrange(
            args.left_bun_length + 1,
            burger_len(wider) - args.right_bun_length,
        ) == hashpatty_of(s, args),
{
    let h = patty_digest(patty_of(s, args)) as nat;
    let c = args.center_hashpatty_length as nat;
    assert(patty_of(s, wider) == patty_of(s, args));
    lemma_last_digits_grow_left(h, c);
    lemma_buns_preserved(s, wider);
    let l = args.left_bun_length as int;
    assert(burgerized(s, wider).subrange(l + 1, l + c + 1) =~= burgerized(s, wider).subrange(
        l,
        l + c + 1,
    ).subrange(1, c + 1 as int));
}

/// The digest of `patty`, as `DefaultHasher` computes it for a `str`.
fn digest(patty: &str) -> (h: u64)
    ensures
        h == patty_digest(patty@),
{
    let mut hasher = DefaultHasher::new();
    hasher.write(patty.as_bytes());
    let tag: Vec<u8> = vec![0xffu8];
    assert(tag@ =~= seq![0xffu8]);
    let tag_bytes = tag.as_slice();
    assert(tag_bytes@ =~= seq![0xffu8]);
    hasher.write(tag_bytes);
    assert(hasher@ =~= seq![encode_utf8(patty@), seq![0xffu8]]);
    hasher.finish()
}

/// Turns `string` into its hashburger.
pub fn burgerize(string: &String, args: &BurgerizeArgs) -> (r: String)
    requires
        args_fit(*args),
    ensures
        r@ == burgerized(string@, *args),
        string@.len() <= burger_len(*args) ==> r@.len() == match args.padding_char {
            Some(_) => burger_len(*args),
            None => string@.len() as int,
        },
        string@.len() > burger_len(*args) ==> {
            &&& r@.len() == burger_len(*args)
            &&& r@.subrange(0, args.left_bun_length as int) == string@.subrange(
                0,
                args.left_bun_length as int,
            )
            &&& r@.subrange(burger_len(*args) - args.right_bun_length, burger_len(*args))
                == string@.subrange(string@.len() - args.right_bun_length, string@.len() as int)
        },
{
    proof {
        lemma_burgerized_len(string@, *args);
        if string@.len() > burger_len(*args) {
            lemma_buns_preserved(string@, *args);
        }
    }
    let total: usize = args.left_bun_length + args.center_hashpatty_length + args.right_bun_length;
    let s: &str = string.as_str();
    let len: usize = s.unicode_len();
    if len <= total {
        return match args.padding_char {
            None => string.clone(),
            Some(c) => {
                let mut out = string.clone();
                push_repeated(&mut out, c, total - len);
                out
            },
        };
    }
    let left: usize = args.left_bun_length;
    let right_start: usize = len - args.right_bun_length;
    let patty = s.substring_char(left, right_start);
    let h = digest(patty);
    let center = hashpatty_digits(h, args.center_hashpatty_length);
    let mut out = String::from_str(s.substring_char(0, left));
    push_chars(&mut out, &center);
    out.append(s.substring_char(right_start, len));
    out
}

} // verus!
