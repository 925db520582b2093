//! The parsed command line and the routine that fills it.
use vstd::prelude::*;

use crate::tokens::{
    commands_of, divider, first_divider, flag_entries, flags_of, is_command, is_long_flag,
    is_short_flag, lemma_first_divider_at, short_flag_entries,
};

verus! {

/// The characters of each string, in order.
pub open spec fn tokens_of(v: Seq<String>) -> Seq<Seq<char>> {
    v.map_values(|s: String| s@)
}

/// What an `ArgumentConfig` holds, as sequences of characters.
pub struct ConfigModel {
    pub executable: Seq<char>,
    pub commands: Seq<Seq<char>>,
    pub flags: Seq<Seq<char>>,
    pub paths: Seq<Seq<char>>,
}

/// The tokens after the first one.
pub open spec fn rest_of(args: Seq<Seq<char>>) -> Seq<Seq<char>> {
    if args.len() == 0 {
        seq![]
    } else {
        args.drop_first()
    }
}

/// The classification of a whole command line: the first token is the
/// executable; of the rest, those before the first divider give commands and
/// flags, and those after it are paths, verbatim.
pub open spec fn model_of(args: Seq<Seq<char>>) -> ConfigModel {
    let rest = rest_of(args);
    let d = first_divider(rest);
    let before = rest.subrange(0, d);
    ConfigModel {
        executable: if args.len() == 0 {
            seq![]
        } else {
            args[0]
        },
        commands: commands_of(before),
        flags: flags_of(before),
        paths: if d < rest.len() {
            rest.subrange(d + 1, rest.len() as int)
        } else {
            seq![]
        },
    }
}

/// The arguments passed to an executable, sorted into four kinds.
///
/// `./bin -fx --verbose foo bar -- from to` gives the executable `./bin`,
/// the commands `foo`, `bar`, the flags `f`, `x`, `verbose` and the paths
/// `from`, `to`.
#[derive(Debug)]
pub struct ArgumentConfig {
    pub executable: String,
    pub commands: Vec<String>,
    pub flags: Vec<String>,
    pub paths: Vec<String>,
}

impl View for ArgumentConfig {
    type V = ConfigModel;

    open spec fn view(&self) -> ConfigModel {
        ConfigModel {
            executable: self.executable@,
            commands: tokens_of(self.commands@),
            flags: tokens_of(self.flags@),
            paths: tokens_of(self.paths@),
        }
    }
}

proof fn lemma_tokens_of_push(v: Seq<String>, s: String)
    ensures
        tokens_of(v.push(s)) == tokens_of(v).push(s@),
{
    assert(tokens_of(v.push(s)) =~= tokens_of(v).push(s@));
}

fn is_divider_token(arg: &String) -> (r: bool)
    ensures
        r == (arg@ == divider()),
{
    let s = arg.as_str();
    if s.unicode_len() == 2 && s.get_char(0) == '-' && s.get_char(1) == '-' {
        assert(arg@ =~= divider());
        true
    } else {
        false
    }
}

/// Appends to `flags` the entries that the flag token `arg` names.
fn push_flag_entries(flags: &mut Vec<String>, arg: &String)
    requires
        is_long_flag(arg@) || is_short_flag(arg@),
    ensures
        tokens_of(final(flags)@) == tokens_of(old(flags)@) + flag_entries(arg@),
{
    let s = arg.as_str();
    let n = s.unicode_len();
    let t = Ghost(arg@);
    if n >= 2 && s.get_char(0) == '-' && s.get_char(1) == '-' {
        let name = String::from_str(s.substring_char(2, n));
        proof {
            lemma_tokens_of_push(flags@, name);
        }
        flags.push(name);
        assert(tokens_of(flags@) =~= tokens_of(old(flags)@) + flag_entries(t@));
    } else if n > 2 {
        let mut j: usize = 1;
        while j < n
            invariant
                s@ == t@,
                n == t@.len(),
                n > 2,
                1 <= j <= n,
                tokens_of(flags@) == tokens_of(old(flags)@) + short_flag_entries(t@).subrange(
                    0,
                    j - 1,
                ),
            decreases n - j,
        {
            let c = String::from_str(s.substring_char(j, j + 1));
            proof {
                lemma_tokens_of_push(flags@, c);
                assert(c@ =~= short_flag_entries(t@)[j - 1]);
                assert(short_flag_entries(t@).subrange(0, j as int) =~= short_flag_entries(
                    t@,
                ).subrange(0, j - 1).push(c@));
            }
            flags.push(c);
            j = j + 1;
        }
        assert(short_flag_entries(t@).subrange(0, n - 1) =~= short_flag_entries(t@));
    } else {
        let name = String::from_str(s.substring_char(1, n));
        proof {
            lemma_tokens_of_push(flags@, name);
        }
        flags.push(name);
        assert(tokens_of(flags@) =~= tokens_of(old(flags)@) + flag_entries(t@));
    }
}

/// Whether `arg` begins with a dash.
fn starts_with_dash(arg: &String) -> (r: bool)
    ensures
        r == !is_command(arg@),
{
    let s = arg.as_str();
    s.unicode_len() >= 1 && s.get_char(0) == '-'
}

impl ArgumentConfig {
    /// A config with an empty executable and no commands, flags or paths.
    pub fn new() -> (r: ArgumentConfig)
        ensures
            r@ == (ConfigModel {
                executable: seq![],
                commands: seq![],
                flags: seq![],
                paths: seq![],
            }),
    {
        let r = ArgumentConfig {
            executable: String::new(),
            commands: Vec::new(),
            flags: Vec::new(),
            paths: Vec::new(),
        };
        assert(tokens_of(r.commands@) =~= seq![]);
        assert(tokens_of(r.flags@) =~= seq![]);
        assert(tokens_of(r.paths@) =~= seq![]);
        r
    }

    /// Reads the tokens of a command line into this config: the first token
    /// becomes the executable, and the classified rest is appended to the
    /// commands, flags and paths already held. `args` is left as it was.
    pub fn parse_args(&mut self, args: &mut Vec<String>)
        ensures
            *final(args) == *old(args),
            final(self)@.executable == model_of(tokens_of(old(args)@)).executable,
            final(self)@.commands == old(self)@.commands + model_of(tokens_of(old(args)@)).commands,
            final(self)@.flags == old(self)@.flags + model_of(tokens_of(old(args)@)).flags,
            final(self)@.paths == old(self)@.paths + model_of(tokens_of(old(args)@)).paths,
    {
        let ghost all = tokens_of(args@);
        let ghost rest = rest_of(all);
        let ghost old_commands = tokens_of(self.commands@);
        let ghost old_flags = tokens_of(self.flags@);
        let ghost old_paths = tokens_of(self.paths@);
        self.executable = if args.len() == 0 {
            String::new()
        } else {
            args[0].clone()
        };
        let mut path_divider = false;
        let ghost mut d: int = 0;
        let mut i: usize = 1;
        while i < args.len()
            invariant
                *args == *old(args),
                all == tokens_of(args@),
                rest == rest_of(all),
                1 <= i,
                i - 1 <= rest.len(),
                self.executable@ == model_of(all).executable,
                !path_divider ==> {
                    &&& forall|j: int| 0 <= j < i - 1 ==> rest[j] != divider()
                    &&& tokens_of(self.commands@) == old_commands + commands_of(
                        rest.subrange(0, i - 1),
                    )
                    &&& tokens_of(self.flags@) == old_flags + flags_of(rest.subrange(0, i - 1))
                    &&& tokens_of(self.paths@) == old_paths
                },
                path_divider ==> {
                    &&& 0 <= d < i - 1
                    &&& rest[d] == divider()
                    &&& forall|j: int| 0 <= j < d ==> rest[j] != divider()
                    &&& tokens_of(self.commands@) == old_commands + commands_of(rest.subrange(0, d))
                    &&& tokens_of(self.flags@) == old_flags + flags_of(rest.subrange(0, d))
                    &&& tokens_of(self.paths@) == old_paths + rest.subrange(d + 1, i - 1)
                },
            decreases args.len() - i,
        {
            let arg = &args[i];
            let ghost k: int = i - 1;
            assert(rest[k] == arg@);
            let ghost prefix = rest.subrange(0, k);
            assert(rest.subrange(0, k + 1).drop_last() =~= prefix);
            if !path_divider && is_divider_token(arg) {
                path_divider = true;
                proof {
                    d = k;
                }
            } else if path_divider {
                let p = arg.clone();
                proof {
                    lemma_tokens_of_push(self.paths@, p);
                    assert(rest.subrange(d + 1, k + 1) =~= rest.subrange(d + 1, k).push(arg@));
                }
                self.paths.push(p);
            } else if starts_with_dash(arg) {
                push_flag_entries(&mut self.flags, arg);
                assert(is_command(arg@) == false);
                assert(commands_of(rest.subrange(0, k + 1)) == commands_of(prefix));
                assert(old_flags + flags_of(prefix) + flag_entries(arg@) =~= old_flags + flags_of(
                    rest.subrange(0, k + 1),
                ));
            } else {
                let c = arg.clone();
                proof {
                    lemma_tokens_of_push(self.commands@, c);
                    assert(commands_of(rest.subrange(0, k + 1)) == commands_of(prefix).push(arg@));
                    assert(flag_entries(arg@) =~= seq![]);
                    assert(flags_of(rest.subrange(0, k + 1)) =~= flags_of(prefix));
                }
                self.commands.push(c);
            }
            i = i + 1;
        }
        proof {
            if path_divider {
                lemma_first_divider_at(rest, d);
            } else {
                lemma_first_divider_at(rest, rest.len() as int);
                assert(rest.subrange(0, rest.len() as int) =~= rest);
                assert(old_paths + seq![] =~= old_paths);
            }
        }
    }

    /// The config of the command line `args`.
    pub fn from_args(args: Vec<String>) -> (r: ArgumentConfig)
        ensures
            r@ == model_of(tokens_of(args@)),
            r.executable@ == (if args@.len() == 0 {
                seq![]
            } else {
                args@[0]@
            }),
    {
        let mut args = args;
        let mut r = ArgumentConfig::new();
        r.parse_args(&mut args);
        assert(r@.commands =~= model_of(tokens_of(args@)).commands);
        assert(r@.flags =~= model_of(tokens_of(args@)).flags);
        assert(r@.paths =~= model_of(tokens_of(args@)).paths);
        r
    }
}

} // verus!
