//! The lexical model: how a single token is classified, and what the
//! tokens before the first divider contribute to commands and flags.
use vstd::prelude::*;

verus! {

/// The token `--`, which switches every later token to a path.
pub open spec fn divider() -> Seq<char> {
    seq!['-', '-']
}

/// A token that begins with `--`.
pub open spec fn is_long_flag(t: Seq<char>) -> bool {
    t.len() >= 2 && t[0] == '-' && t[1] == '-'
}

/// A token that begins with a single `-`.
pub open spec fn is_short_flag(t: Seq<char>) -> bool {
    t.len() >= 1 && t[0] == '-' && !is_long_flag(t)
}

/// A token that begins with no dash at all (the empty token included).
pub open spec fn is_command(t: Seq<char>) -> bool {
    !(t.len() >= 1 && t[0] == '-')
}

/// The flags named by a short-flag token: one per character after the dash
/// when there are two or more of them, else the (possibly empty) rest.
pub open spec fn short_flag_entries(t: Seq<char>) -> Seq<Seq<char>> {
    if t.len() > 2 {
        Seq::new((t.len() - 1) as nat, |k: int| seq![t[k + 1]])
    } else {
        seq![t.subrange(1, t.len() as int)]
    }
}

/// The flag entries that one token contributes before the divider.
pub open spec fn flag_entries(t: Seq<char>) -> Seq<Seq<char>> {
    if is_long_flag(t) {
        seq![t.subrange(2, t.len() as int)]
    } else if is_short_flag(t) {
        short_flag_entries(t)
    } else {
        seq![]
    }
}

/// The commands among `ts`, in order.
pub open spec fn commands_of(ts: Seq<Seq<char>>) -> Seq<Seq<char>>
    decreases ts.len(),
{
    if ts.len() == 0 {
        seq![]
    } else if is_command(ts.last()) {
        commands_of(ts.drop_last()).push(ts.last())
    } else {
        commands_of(ts.drop_last())
    }
}

/// The flag entries of `ts`, token after token.
pub open spec fn flags_of(ts: Seq<Seq<char>>) -> Seq<Seq<char>>
    decreases ts.len(),
{
    if ts.len() == 0 {
        seq![]
    } else {
        flags_of(ts.drop_last()) + flag_entries(ts.last())
    }
}

/// The position of the first divider in `ts`, or `ts.len()` if there is none.
pub open spec fn first_divider(ts: Seq<Seq<char>>) -> int
    decreases ts.len(),
{
    if ts.len() == 0 {
        0
    } else if ts[0] == divider() {
        0
    } else {
        1 + first_divider(ts.drop_first())
    }
}

/// The flag entries of two token runs, one after the other.
pub proof fn lemma_flags_of_append(a: Seq<Seq<char>>, b: Seq<Seq<char>>)
    ensures
        flags_of(a + b) == flags_of(a) + flags_of(b),
    decreases b.len(),
{
    if b.len() == 0 {
        assert(a + b =~= a);
        assert(flags_of(a) + flags_of(b) =~= flags_of(a));
    } else {
        assert((a + b).drop_last() =~= a + b.drop_last());
        lemma_flags_of_append(a, b.drop_last());
        assert(flags_of(a) + (flags_of(b.drop_last()) + flag_entries(b.last())) =~= (flags_of(a)
            + flags_of(b.drop_last())) + flag_entries(b.last()));
    }
}

/// `d` is the first divider of `ts` when no earlier token is one and the
/// token at `d` is one (or `d` is the end).
pub proof fn lemma_first_divider_at(ts: Seq<Seq<char>>, d: int)
    requires
        0 <= d <= ts.len(),
        d < ts.len() ==> ts[d] == divider(),
        forall|j: int| 0 <= j < d ==> ts[j] != divider(),
    ensures
        first_divider(ts) == d,
    decreases ts.len(),
{
    if ts.len() > 0 && d > 0 {
        assert(ts[0] != divider());
        let r = ts.drop_first();
        assert forall|j: int| 0 <= j < d - 1 implies r[j] != divider() by {
            assert(r[j] == ts[j + 1]);
        }
        lemma_first_divider_at(r, d - 1);
    }
}

/// The first divider lies within the sequence, holds a divider when it is
/// not the end, and no earlier token is one.
pub proof fn lemma_first_divider_bounds(ts: Seq<Seq<char>>)
    ensures
        0 <= first_divider(ts) <= ts.len(),
        first_divider(ts) < ts.len() ==> ts[first_divider(ts)] == divider(),
        forall|j: int| 0 <= j < first_divider(ts) ==> ts[j] != divider(),
    decreases ts.len(),
{
    if ts.len() > 0 && ts[0] != divider() {
        let r = ts.drop_first();
        lemma_first_divider_bounds(r);
        assert forall|j: int| 0 <= j < first_divider(ts) implies ts[j] != divider() by {
            if j > 0 {
                assert(ts[j] == r[j - 1]);
            }
        }
    }
}

} // verus!
