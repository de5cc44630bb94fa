//! The command line.
use vstd::prelude::*;
use vstd::string::*;

verus! {

/// What `--help` prints.
pub const USAGE: &'static str =
    "usage: dialogos [--config <path>]   (default: dialogos.toml)";

/// The config file that is read if none is named.
pub const DEFAULT_CONFIG_PATH: &'static str = "dialogos.toml";

/// What the arguments ask for.
#[derive(Debug, PartialEq, Eq)]
pub enum Command {
    /// Run the bot with this config file.
    Run(String),
    /// Print the usage.
    Help,
}

/// Why the arguments make no sense.
#[derive(Debug, PartialEq, Eq)]
pub enum ArgsError {
    /// The path after `--config` is missing.
    MissingPath,
    /// An argument that means nothing.
    Unexpected(String),
}

/// What the arguments ask for, or what is wrong with them.
pub enum Request {
    Run(Seq<char>),
    Help,
    MissingPath,
    Unexpected(Seq<char>),
}

/// What is told of the arguments.
pub open spec fn request_view(res: Result<Command, ArgsError>) -> Request {
    match res {
        Ok(Command::Run(path)) => Request::Run(path@),
        Ok(Command::Help) => Request::Help,
        Err(ArgsError::MissingPath) => Request::MissingPath,
        Err(ArgsError::Unexpected(arg)) => Request::Unexpected(arg@),
    }
}

/// The request that `args` make, read from left to right, where `path` is the
/// config file named so far: the last `--config` counts, and the first `--help`
/// or mistake ends the reading.
pub open spec fn request(args: Seq<Seq<char>>, path: Seq<char>) -> Request
    decreases args.len(),
{
    if args.len() == 0 {
        Request::Run(path)
    } else if args[0] == "--config"@ || args[0] == "-c"@ {
        if args.len() < 2 {
            Request::MissingPath
        } else {
            request(args.skip(2), args[1])
        }
    } else if args[0] == "--help"@ || args[0] == "-h"@ {
        Request::Help
    } else {
        Request::Unexpected(args[0])
    }
}

/// The texts of the arguments.
pub open spec fn arg_views(args: Seq<String>) -> Seq<Seq<char>> {
    args.map_values(|arg: String| arg@)
}

fn is_text(arg: &String, text: &str) -> (res: bool)
    ensures
        res == (arg@ == text@),
{
    *arg == text.to_owned()
}

/// Which config file the arguments (without the program's own name) ask for.
pub fn config_path_from_args(args: &Vec<String>) -> (res: Result<Command, ArgsError>)
    ensures
        request_view(res) == request(arg_views(args@), "dialogos.toml"@),
{
    let mut path: String = DEFAULT_CONFIG_PATH.to_owned();
    let mut i: usize = 0;
    assert(arg_views(args@).skip(0) =~= arg_views(args@));
    while i < args.len()
        invariant
            i <= args@.len(),
            request(arg_views(args@), "dialogos.toml"@) == request(
                arg_views(args@).skip(i as int),
                path@,
            ),
        decreases args@.len() - i,
    {
        let ghost rest = arg_views(args@).skip(i as int);
        assert(rest[0] == args@[i as int]@);
        if is_text(&args[i], "--config") || is_text(&args[i], "-c") {
            if i + 1 >= args.len() {
                return Err(ArgsError::MissingPath);
            }
            assert(rest[1] == args@[i + 1]@);
            assert(rest.skip(2) =~= arg_views(args@).skip(i + 2));
            path = args[i + 1].clone();
            i = i + 2;
        } else if is_text(&args[i], "--help") || is_text(&args[i], "-h") {
            return Ok(Command::Help);
        } else {
            return Err(ArgsError::Unexpected(args[i].clone()));
        }
    }
    Ok(Command::Run(path))
}

impl ArgsError {
    /// What to tell the operator.
    pub fn message(&self) -> (text: String)
        ensures
            text@ == (match *self {
                ArgsError::MissingPath => "--config requires a path argument"@,
                ArgsError::Unexpected(arg) => "unexpected argument: "@ + arg@,
            }),
    {
        match self {
            ArgsError::MissingPath => "--config requires a path argument".to_owned(),
            ArgsError::Unexpected(arg) => "unexpected argument: ".to_owned().concat(arg.as_str()),
        }
    }
}

/// Whether every other argument, from the first on, names a config file by the
/// argument after it.
pub open spec fn names_files(args: Seq<Seq<char>>) -> bool {
    &&& args.len() % 2 == 0
    &&& forall|i: int|
        0 <= i < args.len() && i % 2 == 0 ==> (#[trigger] args[i]) == "--config"@ || args[i]
            == "-c"@
}

/// However many config files are named, the last one counts, or the default if
/// none is; and whatever follows is read with that in mind.
pub proof fn law_last_config_counts(named: Seq<Seq<char>>, rest: Seq<Seq<char>>, path: Seq<char>)
    requires
        names_files(named),
    ensures
        request(named + rest, path) == request(
            rest,
            if named.len() > 0 {
                named.last()
            } else {
                path
            },
        ),
    decreases named.len(),
{
    if named.len() > 0 {
        let all = named + rest;
        let later = named.skip(2);
        assert(all[0] == named[0]);
        assert(all[1] == named[1]);
        assert(all.skip(2) =~= later + rest);
        assert forall|i: int| 0 <= i < later.len() && i % 2 == 0 implies (#[trigger] later[i])
            == "--config"@ || later[i] == "-c"@ by {
            assert(later[i] == named[i + 2]);
        }
        law_last_config_counts(later, rest, named[1]);
        if later.len() > 0 {
            assert(later.last() == named.last());
        } else {
            assert(named.last() == named[1]);
        }
    } else {
        assert(named + rest =~= rest);
    }
}

/// What may follow the config files that are named: nothing, and the bot runs;
/// a `--help`, whatever stands behind it; a `--config` without a path; or
/// something that means nothing, which is told back.
pub proof fn law_arguments_end_in_one_of_four_ways(rest: Seq<Seq<char>>, path: Seq<char>)
    ensures
        rest.len() == 0 ==> request(rest, path) == Request::Run(path),
        rest.len() > 0 && (rest[0] == "--help"@ || rest[0] == "-h"@) ==> request(rest, path)
            == Request::Help,
        rest.len() == 1 && (rest[0] == "--config"@ || rest[0] == "-c"@) ==> request(rest, path)
            == Request::MissingPath,
        rest.len() > 0 && rest[0] != "--help"@ && rest[0] != "-h"@ && rest[0] != "--config"@
            && rest[0] != "-c"@ ==> request(rest, path) == Request::Unexpected(rest[0]),
{
    reveal_strlit("--help");
    reveal_strlit("-h");
    reveal_strlit("--config");
    reveal_strlit("-c");
    assert("--help"@.len() == 6);
    assert("-h"@.len() == 2);
    assert("--config"@.len() == 8);
    assert("-c"@.len() == 2);
    assert("-h"@[1] != "-c"@[1]);
}

/// The arguments, and what they ask for, are seen whole.
pub proof fn law_arguments_are_seen_whole(args: Seq<String>, i: int, text: String)
    ensures
        arg_views(args).len() == args.len(),
        0 <= i < args.len() ==> arg_views(args)[i] == args[i]@,
        request_view(Ok(Command::Run(text))) == Request::Run(text@),
        request_view(Ok(Command::Help)) == Request::Help,
        request_view(Err(ArgsError::MissingPath)) == Request::MissingPath,
        request_view(Err(ArgsError::Unexpected(text))) == Request::Unexpected(text@),
{
}

} // verus!
