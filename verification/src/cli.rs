//! The server's command line.

use crate::text;
use vstd::prelude::*;

verus! {

/// What the command line asks for.
#[derive(Debug)]
pub enum Command {
    /// Print the usage and stop.
    Help,
    /// Boot from the configuration at the path.
    Serve(String),
}

/// A [`Command`] with its path as a character sequence.
pub enum CommandView {
    Help,
    Serve(Seq<char>),
}

impl View for Command {
    type V = CommandView;

    open spec fn view(&self) -> CommandView {
        match *self {
            Command::Help => CommandView::Help,
            Command::Serve(path) => CommandView::Serve(path@),
        }
    }
}

pub open spec fn asks_for_config(arg: Seq<char>) -> bool {
    arg == "--config"@ || arg == "-c"@
}

pub open spec fn asks_for_help(arg: Seq<char>) -> bool {
    arg == "--help"@ || arg == "-h"@
}

/// What the arguments ask for: the first one that names a configuration with a
/// path behind it, or asks for help, decides. Others are skipped.
pub open spec fn parsed(args: Seq<Seq<char>>) -> CommandView
    decreases args.len(),
{
    if args.len() == 0 {
        CommandView::Serve("config/local.yaml"@)
    } else if asks_for_config(args[0]) && args.len() > 1 {
        CommandView::Serve(args[1])
    } else if asks_for_help(args[0]) {
        CommandView::Help
    } else {
        parsed(args.skip(1))
    }
}

/// Views of the arguments.
pub open spec fn words(args: Seq<String>) -> Seq<Seq<char>> {
    args.map_values(|a: String| a@)
}

/// Reads the arguments that follow the program's name.
pub fn parse_config_path(args: &Vec<String>) -> (out: Command)
    ensures
        out@ == parsed(words(args@)),
{
    let ghost all = words(args@);
    let mut i: usize = 0;
    assert(all.skip(0) =~= all);
    while i < args.len()
        invariant
            i <= args@.len(),
            all == words(args@),
            parsed(all.skip(i as int)) == parsed(all),
        decreases args@.len() - i,
    {
        let ghost rest = all.skip(i as int);
        let arg: &str = args[i].as_str();
        assert(rest[0] == arg@);
        if text::same(arg, "--config") || text::same(arg, "-c") {
            if i < args.len() - 1 {
                assert(rest[1] == args@[i + 1]@);
                return Command::Serve(args[i + 1].clone());
            }
            proof {
                reveal_strlit("--config");
                reveal_strlit("-c");
                reveal_strlit("--help");
                reveal_strlit("-h");
                assert("-c"@[1] != "-h"@[1]);
                assert("--config"@[2] != "--help"@[2]);
            }
        } else if text::same(arg, "--help") || text::same(arg, "-h") {
            return Command::Help;
        }
        assert(rest.skip(1) =~= all.skip(i + 1));
        i = i + 1;
    }
    Command::Serve("config/local.yaml".to_owned())
}

/// The first argument that decides does: a configuration flag with something behind it
/// names the file, a help flag asks for help. Where none decides, the default file is
/// served.
pub proof fn the_first_deciding_argument_counts(args: Seq<Seq<char>>, i: int)
    requires
        0 <= i <= args.len(),
        forall|j: int|
            0 <= j < i ==> (#[trigger] args[j]) != "--help"@ && args[j] != "-h"@ && (j + 1
                == args.len() || args[j] != "--config"@ && args[j] != "-c"@),
    ensures
        i + 1 < args.len() && (args[i] == "--config"@ || args[i] == "-c"@) ==> parsed(args)
            == CommandView::Serve(args[i + 1]),
        i < args.len() && (args[i] == "--help"@ || args[i] == "-h"@) ==> parsed(args)
            == CommandView::Help,
        i == args.len() ==> parsed(args) == CommandView::Serve("config/local.yaml"@),
    decreases i,
{
    reveal_strlit("--config");
    reveal_strlit("-c");
    reveal_strlit("--help");
    reveal_strlit("-h");
    assert("--config"@[2] != "--help"@[2] && "-c"@[1] != "-h"@[1]);
    assert("--config"@.len() != "-h"@.len() && "-c"@.len() != "--help"@.len());
    if i > 0 {
        let rest = args.skip(1);
        assert(args[0] != "--help"@);
        assert forall|j: int| 0 <= j < i - 1 implies (#[trigger] rest[j]) != "--help"@ && rest[j]
            != "-h"@ && (j + 1 == rest.len() || rest[j] != "--config"@ && rest[j] != "-c"@) by {
            assert(rest[j] == args[j + 1]);
        }
        the_first_deciding_argument_counts(rest, i - 1);
        if i < args.len() {
            assert(rest[i - 1] == args[i]);
        }
        if i + 1 < args.len() {
            assert(rest[i] == args[i + 1]);
        }
    }
}

/// Commands and arguments are seen as they are.
pub proof fn arguments_are_seen_as_they_are(command: Command, args: Seq<String>, i: int)
    ensures
        match command {
            Command::Help => command@ == CommandView::Help,
            Command::Serve(path) => command@ == CommandView::Serve(path@),
        },
        words(args).len() == args.len(),
        0 <= i < args.len() ==> words(args)[i] == args[i]@,
{
}

} // verus!
