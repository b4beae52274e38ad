//! Server selection.
//!
//! A connection names the server it wants with an optional `name` query.
//! The named registry from the configuration wins; then a startup command
//! line whose first argument equals the name; then, depending on
//! `not_found_error`, the connection fails or falls back to the first
//! startup command line.

use vstd::prelude::*;

use crate::config::{command_model, Config, ConfigModel};
use crate::util::{assoc_find, chars_eq, lemma_assoc_find_skip};

verus! {

/// Why no server could be selected.
#[derive(Clone, Copy, PartialEq, Eq, Structural, Debug)]
pub enum SelectError {
    /// No startup command line exists to fall back to.
    NoServer,
    /// The requested name matched nothing and `not_found_error` is set.
    UnknownServer,
}

/// The startup command lines as sequences of argument strings.
pub open spec fn commands_model(cs: Seq<Vec<Vec<char>>>) -> Seq<Seq<Seq<char>>> {
    Seq::new(cs.len(), |i: int| command_model(cs[i]))
}

/// The first startup command line, or `NoServer` when there is none.
pub open spec fn spec_first_command(commands: Option<Seq<Seq<Seq<char>>>>) -> Result<
    Seq<Seq<char>>,
    SelectError,
> {
    match commands {
        Some(cs) => if cs.len() > 0 {
            Ok(cs[0])
        } else {
            Err(SelectError::NoServer)
        },
        None => Err(SelectError::NoServer),
    }
}

/// The first command line whose first argument is `name`, if any.
pub open spec fn spec_argv0_find(cs: Seq<Seq<Seq<char>>>, name: Seq<char>) -> Option<
    Seq<Seq<char>>,
>
    decreases cs.len(),
{
    if cs.len() == 0 {
        None
    } else if cs[0].len() > 0 && cs[0][0] == name {
        Some(cs[0])
    } else {
        spec_argv0_find(cs.drop_first(), name)
    }
}

/// The named-registry entry for `name`, if any.
pub open spec fn spec_named_lookup(config: Option<ConfigModel>, name: Seq<char>) -> Option<
    Seq<Seq<char>>,
> {
    match config {
        Some(c) => match c.servers {
            Some(entries) => assoc_find(entries, name),
            None => None,
        },
        None => None,
    }
}

pub open spec fn spec_strict(config: Option<ConfigModel>) -> bool {
    match config {
        Some(c) => c.not_found_error,
        None => false,
    }
}

/// The command line selected for a connection. Pure and total: every
/// (commands, config, name) input selects exactly one command line or one
/// error.
pub open spec fn spec_select(
    commands: Option<Seq<Seq<Seq<char>>>>,
    config: Option<ConfigModel>,
    name: Option<Seq<char>>,
) -> Result<Seq<Seq<char>>, SelectError> {
    match name {
        None => spec_first_command(commands),
        Some(q) => match spec_named_lookup(config, q) {
            Some(cmd) => Ok(cmd),
            None => match commands {
                Some(cs) => match spec_argv0_find(cs, q) {
                    Some(cmd) => Ok(cmd),
                    None => if spec_strict(config) {
                        Err(SelectError::UnknownServer)
                    } else {
                        spec_first_command(commands)
                    },
                },
                None => if spec_strict(config) {
                    Err(SelectError::UnknownServer)
                } else {
                    spec_first_command(commands)
                },
            },
        },
    }
}

/// Skipping command lines that do not match leaves `spec_argv0_find` alone.
proof fn lemma_argv0_find_skip(cs: Seq<Seq<Seq<char>>>, name: Seq<char>, i: int)
    requires
        0 <= i <= cs.len(),
        forall|k: int| 0 <= k < i ==> !(cs[k].len() > 0 && cs[k][0] == name),
    ensures
        spec_argv0_find(cs, name) == spec_argv0_find(cs.skip(i), name),
    decreases i,
{
    if i > 0 {
        lemma_argv0_find_skip(cs.drop_first(), name, i - 1);
        assert(cs.drop_first().skip(i - 1) =~= cs.skip(i));
    } else {
        assert(cs.skip(0) =~= cs);
    }
}

/// The model of an optional configuration reference.
pub open spec fn opt_config_model(config: Option<&Config>) -> Option<ConfigModel> {
    match config {
        Some(c) => Some(c@),
        None => None,
    }
}

/// The model of the optional startup command list.
pub open spec fn opt_commands_model(commands: &Option<Vec<Vec<Vec<char>>>>) -> Option<
    Seq<Seq<Seq<char>>>,
> {
    match commands {
        Some(cs) => Some(commands_model(cs@)),
        None => None,
    }
}

/// Selects the command line to spawn for a connection.
pub fn get_command<'a>(
    commands: &'a Option<Vec<Vec<Vec<char>>>>,
    config: Option<&'a Config>,
    name: &Option<Vec<char>>,
) -> (r: Result<&'a Vec<Vec<char>>, SelectError>)
    ensures
        match r {
            Ok(cmd) => spec_select(
                opt_commands_model(commands),
                opt_config_model(config),
                match name {
                    Some(q) => Some(q@),
                    None => None,
                },
            ) == Ok::<_, SelectError>(command_model(*cmd)),
            Err(e) => spec_select(
                opt_commands_model(commands),
                opt_config_model(config),
                match name {
                    Some(q) => Some(q@),
                    None => None,
                },
            ) == Err::<Seq<Seq<char>>, _>(e),
        },
{
    match name {
        Some(q) => {
            // Named registry first.
            if let Some(c) = config {
                if let Some(servers) = &c.servers {
                    let ghost sm = crate::config::servers_model(servers@);
                    let mut i: usize = 0;
                    #[verifier::loop_isolation(false)]
                    while i < servers.len()
                        invariant
                            i <= servers.len(),
                            sm.len() == servers.len(),
                            forall|k: int|
                                0 <= k < servers.len() ==> sm[k] == (servers[k].0@, servers[k].1@),
                            forall|k: int| 0 <= k < i ==> sm[k].0 != q@,
                        decreases servers.len() - i,
                    {
                        if chars_eq(servers[i].0.as_slice(), q.as_slice()) {
                            proof {
                                lemma_assoc_find_skip(sm, q@, i as int);
                                assert(sm.skip(i as int)[0] == sm[i as int]);
                            }
                            return Ok(&servers[i].1.command);
                        }
                        i += 1;
                    }
                    proof {
                        lemma_assoc_find_skip(sm, q@, i as int);
                    }
                }
            }
            proof {
                assert(spec_named_lookup(opt_config_model(config), q@) is None);
            }
            // Then a startup command line whose first argument matches.
            if let Some(cs) = commands {
                let ghost cm = commands_model(cs@);
                let mut i: usize = 0;
                #[verifier::loop_isolation(false)]
                while i < cs.len()
                    invariant
                        i <= cs.len(),
                        cm.len() == cs.len(),
                        forall|k: int| 0 <= k < cs.len() ==> cm[k] == command_model(cs[k]),
                        forall|k: int| 0 <= k < i ==> !(cm[k].len() > 0 && cm[k][0] == q@),
                    decreases cs.len() - i,
                {
                    let line = &cs[i];
                    if line.len() > 0 && chars_eq(line[0].as_slice(), q.as_slice()) {
                        proof {
                            lemma_argv0_find_skip(cm, q@, i as int);
                            assert(cm.skip(i as int)[0] == cm[i as int]);
                        }
                        return Ok(line);
                    }
                    i += 1;
                }
                proof {
                    lemma_argv0_find_skip(cm, q@, i as int);
                }
            }
            // Fall back, or refuse under `not_found_error`.
            let strict = match config {
                Some(c) => c.not_found_error,
                None => false,
            };
            if strict {
                Err(SelectError::UnknownServer)
            } else {
                first_command(commands)
            }
        },
        None => first_command(commands),
    }
}

/// The first startup command line.
fn first_command<'a>(commands: &'a Option<Vec<Vec<Vec<char>>>>) -> (r: Result<
    &'a Vec<Vec<char>>,
    SelectError,
>)
    ensures
        match r {
            Ok(cmd) => spec_first_command(opt_commands_model(commands)) == Ok::<_, SelectError>(
                command_model(*cmd),
            ),
            Err(e) => spec_first_command(opt_commands_model(commands)) == Err::<
                Seq<Seq<char>>,
                _,
            >(e),
        },
{
    match commands {
        Some(cs) => {
            if cs.len() > 0 {
                Ok(&cs[0])
            } else {
                Err(SelectError::NoServer)
            }
        },
        None => Err(SelectError::NoServer),
    }
}

/// The selector never fails with `strict_name` off and a nonempty startup
/// list: it answers with some command line, the first one when nothing
/// matches the requested name.
pub proof fn lemma_select_total_fallback(
    commands: Option<Seq<Seq<Seq<char>>>>,
    config: Option<ConfigModel>,
    name: Option<Seq<char>>,
)
    requires
        !spec_strict(config),
        commands matches Some(cs) && cs.len() > 0,
    ensures
        spec_select(commands, config, name) is Ok,
        (match name {
            Some(q) => spec_named_lookup(config, q) is None && spec_argv0_find(
                commands->Some_0,
                q,
            ) is None,
            None => true,
        }) ==> spec_select(commands, config, name) == Ok::<_, SelectError>(commands->Some_0[0]),
{
}

/// With `strict_name` on, a name that matches nothing refuses the
/// connection.
pub proof fn lemma_select_strict_refuses(
    commands: Option<Seq<Seq<Seq<char>>>>,
    config: Option<ConfigModel>,
    q: Seq<char>,
)
    requires
        spec_strict(config),
        spec_named_lookup(config, q) is None,
        (match commands {
            Some(cs) => spec_argv0_find(cs, q) is None,
            None => true,
        }),
    ensures
        spec_select(commands, config, Some(q)) == Err::<Seq<Seq<char>>, _>(
            SelectError::UnknownServer,
        ),
{
}

} // verus!
