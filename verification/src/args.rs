//! Command-line decisions.
//!
//! The process's argv splits on `--` delimiters: the first group holds the
//! options, every later group is one server command line. A bare digit-only
//! `--listen` value expands to a bind address on all interfaces; any other
//! value must already be a socket address, which the caller validates.

use vstd::prelude::*;

use crate::config::{all_digit_chars, command_model};
use crate::selector::commands_model;
use crate::util::{append_chars, chars_eq, str_to_chars};

verus! {

/// Splits from `args`, with `cur` the group read so far.
pub open spec fn split_groups_rec(args: Seq<Seq<char>>, cur: Seq<Seq<char>>) -> Seq<
    Seq<Seq<char>>,
>
    decreases args.len(),
{
    if args.len() == 0 {
        seq![cur]
    } else if args[0] == "--"@ {
        seq![cur] + split_groups_rec(args.drop_first(), Seq::empty())
    } else {
        split_groups_rec(args.drop_first(), cur.push(args[0]))
    }
}

/// The `--`-delimited groups of an argument list.
pub open spec fn split_groups(args: Seq<Seq<char>>) -> Seq<Seq<Seq<char>>> {
    split_groups_rec(args, Seq::empty())
}

/// The option arguments and, when any delimiter occurred, the server
/// command lines.
pub fn split_commands(args: &Vec<Vec<char>>) -> (r: (Vec<Vec<char>>, Option<Vec<Vec<Vec<char>>>>))
    ensures
        ({
            let groups = split_groups(command_model(*args));
            command_model(r.0) == groups[0] && (match r.1 {
                Some(cmds) => groups.len() >= 2 && commands_model(cmds@) == groups.skip(1),
                None => groups.len() < 2,
            })
        }),
{
    let ghost m = command_model(*args);
    let delim = str_to_chars("--");
    let mut groups: Vec<Vec<Vec<char>>> = Vec::new();
    let mut cur: Vec<Vec<char>> = Vec::new();
    let mut i: usize = 0;
    proof {
        assert(m.skip(0) =~= m);
        assert(commands_model(groups@).len() == 0);
        assert(command_model(cur) =~= Seq::<Seq<char>>::empty());
    }
    #[verifier::loop_isolation(false)]
    while i < args.len()
        invariant
            i <= args.len(),
            delim@ == "--"@,
            m.len() == args.len(),
            forall|k: int| 0 <= k < args.len() ==> m[k] == args[k]@,
            commands_model(groups@).len() == groups.len(),
            split_groups(m) == commands_model(groups@) + split_groups_rec(
                m.skip(i as int),
                command_model(cur),
            ),
        decreases args.len() - i,
    {
        proof {
            assert(m.skip(i as int).drop_first() =~= m.skip(i as int + 1));
        }
        if chars_eq(args[i].as_slice(), delim.as_slice()) {
            let ghost prev = commands_model(groups@);
            groups.push(cur);
            proof {
                assert(commands_model(groups@) =~= prev.push(command_model(groups[groups.len()
                    - 1])));
                assert((prev + seq![command_model(groups[groups.len() - 1])]) + split_groups_rec(
                    m.skip(i as int + 1),
                    Seq::empty(),
                ) =~= prev + (seq![command_model(groups[groups.len() - 1])] + split_groups_rec(
                    m.skip(i as int + 1),
                    Seq::empty(),
                )));
                assert(prev.push(command_model(groups[groups.len() - 1])) =~= prev + seq![
                    command_model(groups[groups.len() - 1]),
                ]);
            }
            cur = Vec::new();
            proof {
                assert(command_model(cur) =~= Seq::<Seq<char>>::empty());
            }
        } else {
            let ghost prevc = command_model(cur);
            cur.push(crate::config::clone_chars(&args[i]));
            proof {
                assert(command_model(cur) =~= prevc.push(m[i as int]));
            }
        }
        i += 1;
    }
    proof {
        assert(m.skip(i as int).len() == 0);
        assert(split_groups_rec(m.skip(i as int), command_model(cur)) == seq![command_model(cur)]);
    }
    let ghost prev = commands_model(groups@);
    let opts = cur;
    let ghost groups_all = split_groups(m);
    proof {
        assert(groups_all =~= prev + seq![command_model(opts)]);
    }
    // The options group is the first; the rest are server command lines.
    // `split_groups` always yields the first group, so the first recorded
    // delimiter decides whether any command lines exist.
    if groups.len() == 0 {
        proof {
            assert(groups_all.len() == 1);
            assert(groups_all[0] == command_model(opts));
        }
        (opts, None)
    } else {
        // The groups vector holds every group before the last delimiter;
        // the options are its first entry and the command lines follow.
        let mut rest = groups;
        let first = rest.remove(0);
        rest.push(opts);
        proof {
            assert(groups_all[0] == command_model(first));
            assert(commands_model(rest@) =~= groups_all.skip(1));
        }
        (first, Some(rest))
    }
}

/// The expanded bind address of a bare digit-only listen value.
pub open spec fn spec_expand_listen(v: Seq<char>) -> Option<Seq<char>> {
    if all_digit_chars(v) {
        Some("0.0.0.0:"@ + v)
    } else {
        None
    }
}

/// Expands a digit-only listen value to a full bind address; any other
/// value is left to socket-address validation outside.
pub fn expand_listen(value: &[char]) -> (r: Option<Vec<char>>)
    ensures
        match r {
            Some(out) => spec_expand_listen(value@) == Some(out@),
            None => spec_expand_listen(value@) is None,
        },
{
    let mut i: usize = 0;
    #[verifier::loop_isolation(false)]
    while i < value.len()
        invariant
            i <= value.len(),
            forall|k: int| 0 <= k < i ==> crate::config::is_digit_char(#[trigger] value@[k]),
        decreases value.len() - i,
    {
        if value[i] < '0' || value[i] > '9' {
            proof {
                assert(!all_digit_chars(value@));
            }
            return None;
        }
        i += 1;
    }
    let mut out = str_to_chars("0.0.0.0:");
    append_chars(&mut out, value);
    Some(out)
}

} // verus!
