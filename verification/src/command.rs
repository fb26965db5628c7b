//! The command line.
use crate::text::{list_of, same_text, texts};
use vstd::prelude::*;

verus! {

/// What the program was asked to do.
#[derive(Debug, PartialEq, Eq)]
pub enum Command {
    /// The launcher opens.
    Menu,
    Play(String),
    Login,
    Stream(String),
    Sync(String),
    Download { channel: String, folder: String },
    YouTube,
    Help,
}

/// The flag that changes the window; it stands anywhere.
pub const BORDERLESS: &'static str = "--borderless";

/// The arguments without the flag.
pub open spec fn without_flag(args: Seq<Seq<char>>) -> Seq<Seq<char>>
    decreases args.len(),
{
    if args.len() == 0 {
        seq![]
    } else if args.last() == BORDERLESS@ {
        without_flag(args.drop_last())
    } else {
        without_flag(args.drop_last()).push(args.last())
    }
}

/// What is said where the path or the channel of a command is missing.
pub open spec fn missing_argument(command: Seq<char>) -> Seq<char> {
    if command == "play"@ {
        "missing path: music-terminal-player play <file-or-folder>"@
    } else if command == "stream"@ {
        "missing channel: music-terminal-player stream <public-channel>"@
    } else if command == "sync"@ {
        "missing channel: music-terminal-player sync <public-channel>"@
    } else {
        "missing channel: music-terminal-player download <public-channel> [folder]"@
    }
}

/// Whether a command needs a path or a channel.
pub open spec fn needs_argument(command: Seq<char>) -> bool {
    command == "play"@ || command == "stream"@ || command == "sync"@ || command == "download"@
}

/// Whether a word asks for help.
pub open spec fn asks_help(command: Seq<char>) -> bool {
    command == "help"@ || command == "--help"@ || command == "-h"@
}

/// Whether `r` is what the arguments ask for.
pub open spec fn command_is(args: Seq<Seq<char>>, r: Result<Command, String>) -> bool {
    if args.len() == 0 {
        r matches Ok(Command::Menu)
    } else {
        let word = args[0];
        if needs_argument(word) && args.len() < 2 {
            r matches Err(e) && e@ == missing_argument(word)
        } else if word == "play"@ {
            r matches Ok(Command::Play(path)) && path@ == args[1]
        } else if word == "login"@ {
            r matches Ok(Command::Login)
        } else if word == "stream"@ {
            r matches Ok(Command::Stream(channel)) && channel@ == args[1]
        } else if word == "sync"@ {
            r matches Ok(Command::Sync(channel)) && channel@ == args[1]
        } else if word == "download"@ {
            r matches Ok(Command::Download { channel, folder }) && channel@ == args[1] && folder@
                == if args.len() > 2 {
                args[2]
            } else {
                "music"@
            }
        } else if word == "youtube"@ {
            r matches Ok(Command::YouTube)
        } else if asks_help(word) {
            r matches Ok(Command::Help)
        } else {
            r matches Err(e) && e@ == "unknown command: "@ + word
        }
    }
}

/// The command line: whether the window changes, whether the launcher was
/// opened without a command, and what is asked for.
pub struct CommandLine {
    pub borderless: bool,
    pub interactive: bool,
    pub command: Result<Command, String>,
}

fn drop_flag(args: &Vec<String>) -> (r: Vec<String>)
    ensures
        texts(r@) == without_flag(texts(args@)),
{
    let ghost all = texts(args@);
    let mut out: Vec<String> = Vec::new();
    let mut i: usize = 0;
    assert(texts(out@) =~= without_flag(all.take(0)));
    while i < args.len()
        invariant
            i <= args@.len(),
            all == texts(args@),
            texts(out@) == without_flag(all.take(i as int)),
        decreases args@.len() - i,
    {
        assert(all.take(i + 1).drop_last() =~= all.take(i as int));
        assert(all.take(i + 1).last() == args@[i as int]@);
        if !same_text(args[i].as_str(), BORDERLESS) {
            let arg = args[i].as_str().to_string();
            let ghost before = out@;
            out.push(arg);
            assert(texts(out@) =~= texts(before).push(arg@));
        }
        i += 1;
    }
    assert(all.take(i as int) =~= all);
    out
}

fn lacks(command: &str) -> (r: Result<Command, String>)
    ensures
        r matches Err(e) && e@ == missing_argument(command@),
{
    if same_text(command, "play") {
        Err("missing path: music-terminal-player play <file-or-folder>".to_string())
    } else if same_text(command, "stream") {
        Err("missing channel: music-terminal-player stream <public-channel>".to_string())
    } else if same_text(command, "sync") {
        Err("missing channel: music-terminal-player sync <public-channel>".to_string())
    } else {
        Err(
            "missing channel: music-terminal-player download <public-channel> [folder]".to_string(),
        )
    }
}

/// What arguments without the flag ask for.
pub fn parse_command(args: &Vec<String>) -> (r: Result<Command, String>)
    ensures
        command_is(texts(args@), r),
{
    let ghost all = texts(args@);
    assert(all.len() == args@.len());
    if args.len() == 0 {
        return Ok(Command::Menu);
    }
    assert(all[0] == args@[0]@);
    let word = args[0].as_str();
    let needs = same_text(word, "play") || same_text(word, "stream") || same_text(word, "sync")
        || same_text(word, "download");
    if needs && args.len() < 2 {
        return lacks(word);
    }
    if needs {
        assert(all[1] == args@[1]@);
    }
    if same_text(word, "play") {
        return Ok(Command::Play(args[1].as_str().to_string()));
    }
    if same_text(word, "login") {
        return Ok(Command::Login);
    }
    if same_text(word, "stream") {
        return Ok(Command::Stream(args[1].as_str().to_string()));
    }
    if same_text(word, "sync") {
        return Ok(Command::Sync(args[1].as_str().to_string()));
    }
    if same_text(word, "download") {
        let folder = if args.len() > 2 {
            assert(all[2] == args@[2]@);
            args[2].as_str().to_string()
        } else {
            "music".to_string()
        };
        return Ok(Command::Download { channel: args[1].as_str().to_string(), folder });
    }
    if same_text(word, "youtube") {
        return Ok(Command::YouTube);
    }
    if same_text(word, "help") || same_text(word, "--help") || same_text(word, "-h") {
        return Ok(Command::Help);
    }
    let mut e = "unknown command: ".to_string();
    e.append(word);
    Err(e)
}

/// Reads the command line.
pub fn parse_command_line(args: &Vec<String>) -> (r: CommandLine)
    ensures
        r.borderless == texts(args@).contains(BORDERLESS@),
        r.interactive == (forall|i: int|
            0 <= i < args@.len() ==> #[trigger] texts(args@)[i] == BORDERLESS@),
        command_is(without_flag(texts(args@)), r.command),
{
    let ghost all = texts(args@);
    let mut borderless = false;
    let mut interactive = true;
    let mut i: usize = 0;
    while i < args.len()
        invariant
            i <= args@.len(),
            all == texts(args@),
            borderless == exists|k: int| 0 <= k < i && #[trigger] all[k] == BORDERLESS@,
            interactive == forall|k: int| 0 <= k < i ==> #[trigger] all[k] == BORDERLESS@,
        decreases args@.len() - i,
    {
        assert(all[i as int] == args@[i as int]@);
        if same_text(args[i].as_str(), BORDERLESS) {
            borderless = true;
        } else {
            interactive = false;
        }
        i += 1;
    }
    let rest = drop_flag(args);
    CommandLine { borderless, interactive, command: parse_command(&rest) }
}

/// What help prints.
pub open spec fn usage() -> Seq<Seq<char>> {
    seq![
        "music-terminal-player"@,
        ""@,
        "Usage:"@,
        "  music-terminal-player [--borderless]"@,
        "  music-terminal-player [--borderless] play <file-or-folder>"@,
        "  music-terminal-player login"@,
        "  music-terminal-player stream <public-channel>"@,
        "  music-terminal-player sync <public-channel>"@,
        "  music-terminal-player download <public-channel> [folder]"@,
        "  music-terminal-player youtube"@,
        ""@,
        "Controls while playing:"@,
        "  p/Space play/pause | n next | v previous | r shuffle | l loop mode"@,
        "  u queue | Up/Down and +/- volume 10% | Left/Right volume 1%"@,
        "  b menu | q/Ctrl+C quit"@,
        ""@,
        "Telegram login and streaming need TG_ID and TG_HASH from https://my.telegram.org"@,
    ]
}

pub fn usage_lines() -> (r: Vec<String>)
    ensures
        texts(r@) == usage(),
{
    let r = list_of(
        vec![
            "music-terminal-player",
            "",
            "Usage:",
            "  music-terminal-player [--borderless]",
            "  music-terminal-player [--borderless] play <file-or-folder>",
            "  music-terminal-player login",
            "  music-terminal-player stream <public-channel>",
            "  music-terminal-player sync <public-channel>",
            "  music-terminal-player download <public-channel> [folder]",
            "  music-terminal-player youtube",
            "",
            "Controls while playing:",
            "  p/Space play/pause | n next | v previous | r shuffle | l loop mode",
            "  u queue | Up/Down and +/- volume 10% | Left/Right volume 1%",
            "  b menu | q/Ctrl+C quit",
            "",
            "Telegram login and streaming need TG_ID and TG_HASH from https://my.telegram.org",
        ],
    );
    assert(texts(r@) =~= usage());
    r
}

/// The flag is taken out wherever it stands, and nothing else is.
pub proof fn the_flag_stands_anywhere(args: Seq<Seq<char>>)
    ensures
        without_flag(args) == args.filter(|arg: Seq<char>| arg != "--borderless"@),
    decreases args.len(),
{
    reveal(Seq::filter);
    if args.len() > 0 {
        the_flag_stands_anywhere(args.drop_last());
    }
}

/// The words of the command line and what each asks for.
pub proof fn words_name_their_commands(args: Seq<Seq<char>>, r: Result<Command, String>)
    requires
        args.len() > 0,
        command_is(args, r),
    ensures
        args[0] == "play"@ && args.len() > 1 ==> (r matches Ok(Command::Play(path)) && path@
            == args[1]),
        args[0] == "stream"@ && args.len() > 1 ==> (r matches Ok(Command::Stream(channel))
            && channel@ == args[1]),
        args[0] == "sync"@ && args.len() > 1 ==> (r matches Ok(Command::Sync(channel)) && channel@
            == args[1]),
        args[0] == "download"@ && args.len() == 2 ==> (r matches Ok(
            Command::Download { channel, folder },
        ) && channel@ == args[1] && folder@ == "music"@),
        args[0] == "download"@ && args.len() > 2 ==> (r matches Ok(
            Command::Download { channel, folder },
        ) && channel@ == args[1] && folder@ == args[2]),
        args[0] == "login"@ ==> r matches Ok(Command::Login),
        args[0] == "youtube"@ ==> r matches Ok(Command::YouTube),
        args[0] == "help"@ || args[0] == "--help"@ || args[0] == "-h"@ ==> r matches Ok(
            Command::Help,
        ),
        args.len() == 1 && (args[0] == "play"@ || args[0] == "stream"@ || args[0] == "sync"@
            || args[0] == "download"@) ==> r is Err,
        r is Ok ==> seq![
            "play"@,
            "stream"@,
            "sync"@,
            "download"@,
            "login"@,
            "youtube"@,
            "help"@,
            "--help"@,
            "-h"@,
        ].contains(args[0]),
{
    reveal_strlit("play");
    reveal_strlit("stream");
    reveal_strlit("sync");
    reveal_strlit("download");
    reveal_strlit("login");
    reveal_strlit("youtube");
    reveal_strlit("help");
    reveal_strlit("--help");
    reveal_strlit("-h");
    assert("play"@[0] == 'p');
    assert("sync"@[0] == 's');
    assert("help"@[0] == 'h');
    assert("login"@.len() == 5);
    assert("stream"@[1] == 't' && "--help"@[1] == '-');
    assert("download"@.len() == 8 && "youtube"@.len() == 7 && "-h"@.len() == 2);
    let words = seq![
        "play"@,
        "stream"@,
        "sync"@,
        "download"@,
        "login"@,
        "youtube"@,
        "help"@,
        "--help"@,
        "-h"@,
    ];
    assert(words[0] == "play"@ && words[1] == "stream"@ && words[2] == "sync"@ && words[3]
        == "download"@ && words[4] == "login"@ && words[5] == "youtube"@ && words[6] == "help"@
        && words[7] == "--help"@ && words[8] == "-h"@);
}

} // verus!
