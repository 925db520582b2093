//! Properties of the classification that hold of every command line.
use vstd::prelude::*;

use crate::config::{model_of, rest_of, ArgumentConfig};
use crate::tokens::{
    commands_of, divider, first_divider, flag_entries, flags_of, is_command, is_long_flag,
    is_short_flag, lemma_first_divider_at, lemma_first_divider_bounds,
    lemma_flags_of_append, short_flag_entries,
};

verus! {

/// The number of tokens in `ts` that are flags (that begin with a dash).
pub open spec fn flag_token_count(ts: Seq<Seq<char>>) -> nat
    decreases ts.len(),
{
    if ts.len() == 0 {
        0
    } else if is_command(ts.last()) {
        flag_token_count(ts.drop_last())
    } else {
        flag_token_count(ts.drop_last()) + 1
    }
}

proof fn lemma_commands_and_flag_tokens(ts: Seq<Seq<char>>)
    ensures
        commands_of(ts).len() + flag_token_count(ts) == ts.len(),
        forall|k: int| 0 <= k < commands_of(ts).len() ==> is_command(#[trigger] commands_of(ts)[k]),
    decreases ts.len(),
{
    if ts.len() > 0 {
        lemma_commands_and_flag_tokens(ts.drop_last());
    }
}

/// The flag entries of `ts` are those of the tokens before `i`, then those of
/// the token at `i`, then those of the tokens after it.
proof fn lemma_flags_of_split(ts: Seq<Seq<char>>, i: int)
    requires
        0 <= i < ts.len(),
    ensures
        flags_of(ts) == flags_of(ts.subrange(0, i)) + flag_entries(ts[i]) + flags_of(
            ts.subrange(i + 1, ts.len() as int),
        ),
{
    let a = ts.subrange(0, i);
    let b = ts.subrange(i + 1, ts.len() as int);
    assert(ts =~= a + seq![ts[i]] + b);
    lemma_flags_of_append(a + seq![ts[i]], b);
    lemma_flags_of_append(a, seq![ts[i]]);
    let one = seq![ts[i]];
    assert(one.drop_last() =~= Seq::<Seq<char>>::empty());
    assert(flags_of(one.drop_last()) == Seq::<Seq<char>>::empty());
    assert(one.last() == ts[i]);
    assert(flags_of(one) =~= flag_entries(ts[i]));
}

/// A long flag before the divider gives exactly one flag entry, the token
/// without its leading `--`, after the entries of every earlier token and
/// before those of every later one.
pub proof fn lemma_long_flag_entry(args: Seq<Seq<char>>, i: int)
    requires
        0 <= i < first_divider(rest_of(args)),
        is_long_flag(rest_of(args)[i]),
    ensures
        ({
            let rest = rest_of(args);
            let d = first_divider(rest);
            model_of(args).flags == flags_of(rest.subrange(0, i)) + seq![
                rest[i].subrange(2, rest[i].len() as int),
            ] + flags_of(rest.subrange(i + 1, d))
        }),
{
    let rest = rest_of(args);
    let d = first_divider(rest);
    lemma_first_divider_bounds(rest);
    let before = rest.subrange(0, d);
    lemma_flags_of_split(before, i);
    assert(before.subrange(0, i) =~= rest.subrange(0, i));
    assert(before.subrange(i + 1, d) =~= rest.subrange(i + 1, d));
}

/// A grouped short flag `-abc` before the divider gives one flag entry per
/// character after the dash, in the order of the characters, after the
/// entries of every earlier token and before those of every later one.
pub proof fn lemma_grouped_short_flag_entries(args: Seq<Seq<char>>, i: int)
    requires
        0 <= i < first_divider(rest_of(args)),
        is_short_flag(rest_of(args)[i]),
        rest_of(args)[i].len() > 2,
    ensures
        ({
            let rest = rest_of(args);
            let d = first_divider(rest);
            let e = short_flag_entries(rest[i]);
            &&& model_of(args).flags == flags_of(rest.subrange(0, i)) + e + flags_of(
                rest.subrange(i + 1, d),
            )
            &&& e.len() == rest[i].len() - 1
            &&& forall|k: int| 0 <= k < e.len() ==> #[trigger] e[k] == seq![rest[i][k + 1]]
        }),
{
    let rest = rest_of(args);
    let d = first_divider(rest);
    lemma_first_divider_bounds(rest);
    let before = rest.subrange(0, d);
    lemma_flags_of_split(before, i);
    assert(before.subrange(0, i) =~= rest.subrange(0, i));
    assert(before.subrange(i + 1, d) =~= rest.subrange(i + 1, d));
}

/// Every token after the first divider is a path, verbatim and in order, and
/// adds nothing to the commands or the flags: those are the ones of the
/// command line cut before the divider.
pub proof fn lemma_tokens_after_divider_are_paths(
    exe: Seq<char>,
    before: Seq<Seq<char>>,
    after: Seq<Seq<char>>,
)
    requires
        forall|j: int| 0 <= j < before.len() ==> before[j] != divider(),
    ensures
        ({
            let args = seq![exe] + before + seq![divider()] + after;
            let cut = seq![exe] + before;
            &&& model_of(args).paths == after
            &&& model_of(args).commands == model_of(cut).commands
            &&& model_of(args).flags == model_of(cut).flags
            &&& model_of(cut).paths == Seq::<Seq<char>>::empty()
        }),
{
    let args = seq![exe] + before + seq![divider()] + after;
    let cut = seq![exe] + before;
    let rest = rest_of(args);
    assert(rest =~= before + seq![divider()] + after);
    let b = before.len() as int;
    lemma_first_divider_at(rest, b);
    assert(rest.subrange(0, b) =~= before);
    assert(rest.subrange(b + 1, rest.len() as int) =~= after);
    assert(rest_of(cut) =~= before);
    lemma_first_divider_at(before, b);
    assert(before.subrange(0, b) =~= before);
}

/// The first divider is the one token after the executable that lands
/// nowhere: every other token is exactly one command, one flag token or one
/// path, and no command is a divider.
pub proof fn lemma_divider_consumed(args: Seq<Seq<char>>)
    ensures
        ({
            let rest = rest_of(args);
            let d = first_divider(rest);
            let m = model_of(args);
            &&& m.commands.len() + flag_token_count(rest.subrange(0, d)) + m.paths.len() + (if d
                < rest.len() {
                1int
            } else {
                0int
            }) == rest.len()
            &&& forall|k: int| 0 <= k < m.commands.len() ==> #[trigger] m.commands[k] != divider()
            &&& d < rest.len() ==> rest[d] == divider() && m.paths == rest.subrange(
                d + 1,
                rest.len() as int,
            )
        }),
{
    let rest = rest_of(args);
    let d = first_divider(rest);
    lemma_first_divider_bounds(rest);
    let before = rest.subrange(0, d);
    lemma_commands_and_flag_tokens(before);
    assert forall|k: int| 0 <= k < commands_of(before).len() implies #[trigger] commands_of(
        before,
    )[k] != divider() by {
        assert(is_command(commands_of(before)[k]));
        assert(divider()[0] == '-');
    }
}

/// Classifying the same command line twice gives the same four fields.
pub proof fn lemma_classification_deterministic(
    args: Seq<Seq<char>>,
    a: ArgumentConfig,
    b: ArgumentConfig,
)
    requires
        a@ == model_of(args),
        b@ == model_of(args),
    ensures
        a.executable@ == b.executable@,
        a@.commands == b@.commands,
        a@.flags == b@.flags,
        a@.paths == b@.paths,
{
}

} // verus!
