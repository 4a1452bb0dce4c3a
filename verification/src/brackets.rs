//! What it means for the loop brackets of an instruction sequence to match.

use vstd::prelude::*;
use crate::cmd::Cmd;

verus! {

/// The change in nesting depth that an instruction causes.
pub open spec fn delta(c: Cmd) -> int {
    match c {
        Cmd::Start => 1,
        Cmd::End => -1,
        _ => 0,
    }
}

/// The nesting depth before position `i`: the number of `Start` minus the
/// number of `End` among the first `i` instructions.
pub open spec fn depth(cmds: Seq<Cmd>, i: int) -> int
    decreases i,
{
    if i <= 0 {
        0
    } else {
        depth(cmds, i - 1) + delta(cmds[i - 1])
    }
}

/// `a` holds a `Start`, `b` the `End` that closes it: the depth stays above
/// that of `a` strictly between them and returns to it right after `b`.
pub open spec fn matched(cmds: Seq<Cmd>, a: int, b: int) -> bool {
    &&& 0 <= a < b < cmds.len()
    &&& cmds[a] == Cmd::Start
    &&& cmds[b] == Cmd::End
    &&& depth(cmds, b + 1) == depth(cmds, a)
    &&& forall|k: int| a < k <= b ==> #[trigger] depth(cmds, k) > depth(cmds, a)
}

/// Some `End` has no `Start` before it left to close.
pub open spec fn has_unmatched_close(cmds: Seq<Cmd>) -> bool {
    exists|k: int| 0 <= k <= cmds.len() && #[trigger] depth(cmds, k) < 0
}

/// Every `End` closes a `Start`, yet some `Start` is never closed.
pub open spec fn has_unmatched_open(cmds: Seq<Cmd>) -> bool {
    !has_unmatched_close(cmds) && depth(cmds, cmds.len() as int) > 0
}

/// Every `Start` has its `End` and every `End` its `Start`.
pub open spec fn balanced(cmds: Seq<Cmd>) -> bool {
    !has_unmatched_close(cmds) && depth(cmds, cmds.len() as int) == 0
}

/// `jumps` is the jump table of `cmds`: it is defined exactly at the
/// positions of the brackets and sends each to its partner.
pub open spec fn resolves(cmds: Seq<Cmd>, jumps: Map<usize, usize>) -> bool {
    &&& forall|p: usize| #[trigger]
        jumps.contains_key(p) ==> p < cmds.len() && (cmds[p as int] == Cmd::Start || cmds[p as int]
            == Cmd::End)
    &&& forall|p: usize|
        p < cmds.len() && (#[trigger] cmds[p as int]) == Cmd::Start ==> jumps.contains_key(p)
            && matched(cmds, p as int, jumps[p] as int)
    &&& forall|p: usize|
        p < cmds.len() && (#[trigger] cmds[p as int]) == Cmd::End ==> jumps.contains_key(p)
            && matched(cmds, jumps[p] as int, p as int)
}

/// The depth before a position depends only on the instructions before it.
pub proof fn lemma_depth_prefix(s: Seq<Cmd>, t: Seq<Cmd>, k: int)
    requires
        s.is_prefix_of(t),
        0 <= k <= s.len(),
    ensures
        depth(s, k) == depth(t, k),
    decreases k,
{
    if k > 0 {
        lemma_depth_prefix(s, t, k - 1);
        assert(s[k - 1] == t[k - 1]);
    }
}

/// Appending an instruction changes the depth at the end by its delta.
pub proof fn lemma_depth_push(s: Seq<Cmd>, c: Cmd)
    ensures
        depth(s.push(c), s.len() as int + 1) == depth(s, s.len() as int) + delta(c),
{
    lemma_depth_prefix(s, s.push(c), s.len() as int);
    assert(s.push(c)[s.len() as int] == c);
}

/// A partner, where there is one, is unique: a `Start` has one `End` and an
/// `End` one `Start`.
pub proof fn lemma_matched_unique(cmds: Seq<Cmd>, a: int, b: int, c: int, d: int)
    requires
        matched(cmds, a, b),
        matched(cmds, c, d),
    ensures
        a == c <==> b == d,
{
    if a == c && b != d {
        if b < d {
            assert(depth(cmds, b + 1) > depth(cmds, a));
        } else {
            assert(depth(cmds, d + 1) > depth(cmds, a));
        }
    }
    if b == d && a != c {
        if a < c {
            assert(depth(cmds, c) > depth(cmds, a));
        } else {
            assert(depth(cmds, a) > depth(cmds, c));
        }
    }
}

} // verus!
