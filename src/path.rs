//! Shortening a path: its components become hashburgers, and the middle ones
//! may be elided behind a divider.

use vstd::prelude::*;
use vstd::string::StringExecFns;

use crate::burger::args_fit;
use crate::burger::burgerize;
use crate::burger::burgerized;
use crate::burger::BurgerizeArgs;
use crate::text::chars_of;
use crate::text::push_char;
use crate::text::push_chars;

verus! {

/// The separator between path components.
pub const SEPARATOR: char = '/';

/// The pieces of `s` between separators, empty pieces included: `"a//b"` has
/// the pieces `"a"`, `""` and `"b"`.
pub open spec fn segments(s: Seq<char>) -> Seq<Seq<char>>
    decreases s.len(),
{
    if s.len() == 0 {
        seq![Seq::empty()]
    } else {
        let prev = segments(s.drop_last());
        if s.last() == SEPARATOR {
            prev.push(Seq::empty())
        } else {
            prev.update(prev.len() - 1, prev.last().push(s.last()))
        }
    }
}

/// Whether the piece at index `i` is a component: it is not empty, and it is
/// not `"."` unless it opens the path.
pub open spec fn is_component(segs: Seq<Seq<char>>, i: int) -> bool {
    segs[i].len() > 0 && (segs[i] != seq!['.'] || i == 0)
}

/// The components among the first `k` pieces, in order.
pub open spec fn components_upto(segs: Seq<Seq<char>>, k: int) -> Seq<Seq<char>>
    decreases k,
{
    if k <= 0 {
        Seq::empty()
    } else if is_component(segs, k - 1) {
        components_upto(segs, k - 1).push(segs[k - 1])
    } else {
        components_upto(segs, k - 1)
    }
}

/// The components of the path `s`, root excluded.
pub open spec fn path_components(s: Seq<char>) -> Seq<Seq<char>> {
    components_upto(segments(s), segments(s).len() as int)
}

/// A path is absolute when it starts at the root.
pub open spec fn is_absolute(s: Seq<char>) -> bool {
    s.len() > 0 && s[0] == SEPARATOR
}

/// What is written before the components: the root, for an absolute path.
pub open spec fn root_prefix(s: Seq<char>) -> Seq<char> {
    if is_absolute(s) {
        seq![SEPARATOR]
    } else {
        Seq::empty()
    }
}

/// The parts joined, with `sep` between each two.
pub open spec fn join(parts: Seq<Seq<char>>, sep: char) -> Seq<char>
    decreases parts.len(),
{
    if parts.len() == 0 {
        Seq::empty()
    } else if parts.len() == 1 {
        parts[0]
    } else {
        join(parts.drop_last(), sep) + seq![sep] + parts.last()
    }
}

/// Each component turned into its hashburger.
pub open spec fn burgerized_components(s: Seq<char>, args: BurgerizeArgs) -> Seq<Seq<char>> {
    path_components(s).map_values(|c: Seq<char>| burgerized(c, args))
}

/// Whether every component is kept: the kept counts reach the component count.
pub open spec fn covers_all(s: Seq<char>, start: nat, end: nat) -> bool {
    start + end >= path_components(s).len()
}

/// The burgerized head group: the first `start` components.
pub open spec fn head_group(s: Seq<char>, start: nat, args: BurgerizeArgs) -> Seq<Seq<char>> {
    burgerized_components(s, args).subrange(0, start as int)
}

/// The burgerized tail group: the last `end` components.
pub open spec fn tail_group(s: Seq<char>, end: nat, args: BurgerizeArgs) -> Seq<Seq<char>> {
    let b = burgerized_components(s, args);
    b.subrange(b.len() - end, b.len() as int)
}

/// The shortened path.
///
/// The root of an absolute path is kept as it is. When the kept counts cover
/// every component, all components are burgerized and joined by the
/// separator. Otherwise the first `start` and the last `end` components are
/// burgerized, each group joined by the separator, and the groups joined by
/// the divider.
pub open spec fn burgerized_path(
    s: Seq<char>,
    start: nat,
    end: nat,
    divider: char,
    args: BurgerizeArgs,
) -> Seq<char> {
    if covers_all(s, start, end) {
        root_prefix(s) + join(burgerized_components(s, args), SEPARATOR)
    } else {
        root_prefix(s) + join(head_group(s, start, args), SEPARATOR) + seq![divider] + join(
            tail_group(s, end, args),
            SEPARATOR,
        )
    }
}

/// The pieces of `s` between separators.
fn split_segments(s: &Vec<char>) -> (r: Vec<Vec<char>>)
    ensures
        r@.map_values(|v: Vec<char>| v@) == segments(s@),
{
    let mut done: Vec<Vec<char>> = Vec::new();
    let mut cur: Vec<char> = Vec::new();
    let mut i: usize = 0;
    while i < s.len()
        invariant
            i <= s.len(),
            segments(s@.subrange(0, i as int)) == done@.map_values(|v: Vec<char>| v@).push(cur@),
        decreases s.len() - i,
    {
        let c = s[i];
        let ghost prefix = s@.subrange(0, i + 1 as int);
        assert(prefix.drop_last() =~= s@.subrange(0, i as int));
        if c == SEPARATOR {
            let ghost before = done@;
            let finished = cur;
            cur = Vec::new();
            done.push(finished);
            assert(done@.map_values(|v: Vec<char>| v@) =~= before.map_values(|v: Vec<char>| v@).push(
                finished@,
            ));
        } else {
            cur.push(c);
        }
        i = i + 1;
        assert(segments(s@.subrange(0, i as int)) =~= done@.map_values(|v: Vec<char>| v@).push(
            cur@,
        ));
    }
    assert(s@.subrange(0, s.len() as int) =~= s@);
    let ghost before = done@;
    done.push(cur);
    assert(done@.map_values(|v: Vec<char>| v@) =~= before.map_values(|v: Vec<char>| v@).push(
        cur@,
    ));
    done
}

/// The character sequences that the strings hold, in order.
pub open spec fn string_views(v: Seq<String>) -> Seq<Seq<char>> {
    v.map_values(|p: String| p@)
}

/// A path taken apart: whether it starts at the root, and its components in
/// order, the root excluded.
pub struct PathParts {
    pub absolute: bool,
    pub components: Vec<String>,
}

/// Takes the path `input` apart into its root and its components.
pub fn split_path(input: &str) -> (r: PathParts)
    ensures
        r.absolute == is_absolute(input@),
        string_views(r.components@) == path_components(input@),
{
    let chars = chars_of(input);
    let segs = split_segments(&chars);
    let ghost all = segments(chars@);
    let mut comps: Vec<String> = Vec::new();
    let mut k: usize = 0;
    while k < segs.len()
        invariant
            k <= segs.len(),
            segs@.map_values(|v: Vec<char>| v@) == all,
            all == segments(input@),
            string_views(comps@) == components_upto(all, k as int),
        decreases segs.len() - k,
    {
        let seg = &segs[k];
        assert(seg@ == all[k as int]);
        let is_dot = seg.len() == 1 && seg[0] == '.';
        assert(is_dot <==> seg@ == seq!['.']) by {
            if seg@ == seq!['.'] {
                assert(seg@[0] == '.');
            }
            if is_dot {
                assert(seg@ =~= seq!['.']);
            }
        }
        if seg.len() > 0 && (k == 0 || !is_dot) {
            let mut c = String::new();
            push_chars(&mut c, seg);
            let ghost before = comps@;
            comps.push(c);
            assert(string_views(comps@) =~= string_views(before).push(seg@));
        }
        k = k + 1;
    }
    let absolute = chars.len() > 0 && chars[0] == SEPARATOR;
    PathParts { absolute, components: comps }
}

/// Appends the parts from index `from` up to `to`, with the separator between
/// each two.
fn push_joined(out: &mut String, parts: &Vec<String>, from: usize, to: usize)
    requires
        from <= to <= parts.len(),
    ensures
        final(out)@ == old(out)@ + join(string_views(parts@).subrange(from as int, to as int), SEPARATOR),
{
    let ghost views = string_views(parts@);
    let mut k: usize = from;
    while k < to
        invariant
            from <= k <= to <= parts.len(),
            views == string_views(parts@),
            out@ == old(out)@ + join(views.subrange(from as int, k as int), SEPARATOR),
        decreases to - k,
    {
        let ghost before = out@;
        let ghost done = views.subrange(from as int, k as int);
        let ghost next = views.subrange(from as int, k + 1 as int);
        assert(next.drop_last() =~= done);
        if k > from {
            push_char(out, SEPARATOR);
        }
        out.append(parts[k].as_str());
        proof {
            if k > from {
                assert(out@ =~= old(out)@ + (join(done, SEPARATOR) + seq![SEPARATOR] + next.last()));
            } else {
                assert(done.len() == 0);
                assert(join(done, SEPARATOR) =~= Seq::<char>::empty());
                assert(out@ =~= old(out)@ + next[0]);
            }
        }
        k = k + 1;
    }
}

/// Turns the path `input` into a series of hashburgers: the root kept, the
/// first `start_components` and last `end_components` components burgerized,
/// and a `divider` where components were elided.
pub fn burgerize_path(
    input: &str,
    start_components: usize,
    end_components: usize,
    divider: char,
    burgerize_args: BurgerizeArgs,
) -> (r: String)
    requires
        args_fit(burgerize_args),
    ensures
        r@ == burgerized_path(
            input@,
            start_components as nat,
            end_components as nat,
            divider,
            burgerize_args,
        ),
{
    let parts = split_path(input);
    let ghost comps = path_components(input@);
    let mut burgers: Vec<String> = Vec::new();
    let mut k: usize = 0;
    while k < parts.components.len()
        invariant
            k <= parts.components.len(),
            args_fit(burgerize_args),
            string_views(parts.components@) == comps,
            string_views(burgers@) == comps.subrange(0, k as int).map_values(
                |c: Seq<char>| burgerized(c, burgerize_args),
            ),
        decreases parts.components.len() - k,
    {
        let b = burgerize(&parts.components[k], &burgerize_args);
        let ghost before = burgers@;
        burgers.push(b);
        proof {
            assert(string_views(parts.components@)[k as int] == parts.components@[k as int]@);
            assert(b@ == burgerized(comps[k as int], burgerize_args));
            assert(string_views(burgers@) =~= string_views(before).push(b@));
            assert(comps.subrange(0, k + 1 as int) =~= comps.subrange(0, k as int).push(
                comps[k as int],
            ));
            assert(comps.subrange(0, k + 1 as int).map_values(
                |c: Seq<char>| burgerized(c, burgerize_args),
            ) =~= comps.subrange(0, k as int).map_values(
                |c: Seq<char>| burgerized(c, burgerize_args),
            ).push(burgerized(comps[k as int], burgerize_args)));
        }
        k = k + 1;
    }
    let ghost all = string_views(burgers@);
    assert(comps.subrange(0, comps.len() as int) =~= comps);
    assert(all == burgerized_components(input@, burgerize_args));
    let n = burgers.len();
    let mut result = String::new();
    if parts.absolute {
        push_char(&mut result, SEPARATOR);
    }
    assert(result@ =~= root_prefix(input@));
    if start_components >= n || end_components >= n - start_components {
        push_joined(&mut result, &burgers, 0, n);
        assert(all.subrange(0, n as int) =~= all);
    } else {
        push_joined(&mut result, &burgers, 0, start_components);
        push_char(&mut result, divider);
        push_joined(&mut result, &burgers, n - end_components, n);
        assert(result@ =~= root_prefix(input@) + join(head_group(input@, start_components as nat, burgerize_args), SEPARATOR)
            + seq![divider] + join(tail_group(input@, end_components as nat, burgerize_args), SEPARATOR));
    }
    result
}

/// `c` occurs nowhere in `s`.
pub open spec fn avoids(s: Seq<char>, c: char) -> bool {
    forall|j: int| 0 <= j < s.len() ==> s[j] != c
}

/// A joined sequence holds only what its parts and separators hold.
pub proof fn lemma_join_avoids(parts: Seq<Seq<char>>, sep: char, c: char)
    requires
        c != sep,
        forall|i: int| 0 <= i < parts.len() ==> avoids(#[trigger] parts[i], c),
    ensures
        avoids(join(parts, sep), c),
    decreases parts.len(),
{
    if parts.len() > 1 {
        lemma_join_avoids(parts.drop_last(), sep, c);
        assert(avoids(parts[parts.len() - 1], c));
        let left = join(parts.drop_last(), sep) + seq![sep];
        assert forall|j: int| 0 <= j < join(parts, sep).len() implies join(parts, sep)[j] != c by {
            if j < left.len() {
                assert(join(parts, sep)[j] == left[j]);
            } else {
                assert(join(parts, sep)[j] == parts.last()[j - left.len()]);
            }
        }
    } else if parts.len() == 1 {
        assert(avoids(parts[0], c));
    }
}

/// When the kept counts cover every component, the result is the root
/// followed by every burgerized component, joined by the separator alone: no
/// divider is inserted, so a divider that is not the separator and occurs in
/// no burgerized component occurs nowhere in the result.
pub proof fn lemma_full_coverage(
    s: Seq<char>,
    start: nat,
    end: nat,
    divider: char,
    args: BurgerizeArgs,
)
    requires
        covers_all(s, start, end),
    ensures
        burgerized_path(s, start, end, divider, args) == root_prefix(s) + join(
            burgerized_components(s, args),
            SEPARATOR,
        ),
        divider != SEPARATOR && (forall|i: int|
            0 <= i < burgerized_components(s, args).len() ==> avoids(
                #[trigger] burgerized_components(s, args)[i],
                divider,
            )) ==> avoids(burgerized_path(s, start, end, divider, args), divider),
{
    let b = burgerized_components(s, args);
    if divider != SEPARATOR && (forall|i: int| 0 <= i < b.len() ==> avoids(#[trigger] b[i], divider)) {
        lemma_join_avoids(b, SEPARATOR, divider);
        let out = burgerized_path(s, start, end, divider, args);
        let pre = root_prefix(s);
        assert forall|j: int| 0 <= j < out.len() implies out[j] != divider by {
            if j >= pre.len() {
                assert(out[j] == join(b, SEPARATOR)[j - pre.len()]);
            }
        }
    }
}

/// When some components are elided, the result is the root, the burgerized
/// head group, one divider, and the burgerized tail group. The divider stands
/// exactly once in the result, between the groups, whenever it occurs neither
/// in the root nor in either joined group.
pub proof fn lemma_partial_coverage(
    s: Seq<char>,
    start: nat,
    end: nat,
    divider: char,
    args: BurgerizeArgs,
)
    requires
        !covers_all(s, start, end),
    ensures
        burgerized_path(s, start, end, divider, args) == root_prefix(s) + join(
            head_group(s, start, args),
            SEPARATOR,
        ) + seq![divider] + join(tail_group(s, end, args), SEPARATOR),
        ({
            let at = root_prefix(s).len() + join(head_group(s, start, args), SEPARATOR).len() as int;
            let out = burgerized_path(s, start, end, divider, args);
            avoids(root_prefix(s), divider) && avoids(
                join(head_group(s, start, args), SEPARATOR),
                divider,
            ) && avoids(join(tail_group(s, end, args), SEPARATOR), divider) ==> {
                &&& out[at] == divider
                &&& forall|j: int| 0 <= j < out.len() && j != at ==> out[j] != divider
            }
        }),
{
    let pre = root_prefix(s);
    let head = join(head_group(s, start, args), SEPARATOR);
    let tail = join(tail_group(s, end, args), SEPARATOR);
    let out = burgerized_path(s, start, end, divider, args);
    let at = pre.len() + head.len() as int;
    if avoids(pre, divider) && avoids(head, divider) && avoids(tail, divider) {
        assert(out[at] == divider);
        assert forall|j: int| 0 <= j < out.len() && j != at implies out[j] != divider by {
            if j < pre.len() {
                assert(out[j] == pre[j]);
            } else if j < at {
                assert(out[j] == head[j - pre.len()]);
            } else {
                assert(out[j] == tail[j - at - 1]);
            }
        }
    }
}

} // verus!
