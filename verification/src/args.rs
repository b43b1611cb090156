use crate::banner::{is_version_banner, version_banner};
use crate::error::HopError;
use crate::path::{final_segment, final_segment_of, join, join_of};
use crate::text::{same_text, text_of, texts};
use vstd::prelude::*;
use vstd::string::*;

verus! {

/// What a look at the filesystem found at a path.
#[derive(Clone, Copy, Debug, PartialEq, Eq, Structural)]
pub enum PathState {
    /// Nothing is there.
    Missing,
    /// A regular file.
    File,
    /// A directory.
    Dir,
    /// Something that is neither.
    Other,
}

/// A location to keep, or a request for one.
#[derive(Debug, PartialEq, Eq)]
pub enum Rabbit {
    /// A directory: its name and its path.
    Dir(String, String),
    /// A file: its name and its path.
    File(String, String),
    /// A request by name.
    RequestName(String),
    /// A request by a path that exists.
    RequestPath(String),
}

/// What a `Rabbit` holds.
pub enum RabbitView {
    Dir(Seq<char>, Seq<char>),
    File(Seq<char>, Seq<char>),
    RequestName(Seq<char>),
    RequestPath(Seq<char>),
}

impl View for Rabbit {
    type V = RabbitView;

    open spec fn view(&self) -> RabbitView {
        match self {
            Rabbit::Dir(name, path) => RabbitView::Dir(name@, path@),
            Rabbit::File(name, path) => RabbitView::File(name@, path@),
            Rabbit::RequestName(name) => RabbitView::RequestName(name@),
            Rabbit::RequestPath(path) => RabbitView::RequestPath(path@),
        }
    }
}

impl Clone for Rabbit {
    fn clone(&self) -> (r: Self)
        ensures
            r == *self,
    {
        match self {
            Rabbit::Dir(name, path) => Rabbit::Dir(name.clone(), path.clone()),
            Rabbit::File(name, path) => Rabbit::File(name.clone(), path.clone()),
            Rabbit::RequestName(name) => Rabbit::RequestName(name.clone()),
            Rabbit::RequestPath(path) => Rabbit::RequestPath(path.clone()),
        }
    }
}

/// The name under which a path is kept: the one given, or else the final
/// segment of the path, if it has one.
pub open spec fn name_for(path: Seq<char>, given: Option<Seq<char>>) -> Option<Seq<char>> {
    match given {
        Some(name) => Some(name),
        None => final_segment_of(path),
    }
}

/// The location at `path` under `name`, a directory or else a file.
pub open spec fn located(path: Seq<char>, name: Seq<char>, is_dir: bool) -> RabbitView {
    if is_dir {
        RabbitView::Dir(name, path)
    } else {
        RabbitView::File(name, path)
    }
}

/// The request that `input` makes: for a path where one exists, else for a name.
pub open spec fn requested(input: Seq<char>, exists: bool) -> RabbitView {
    if exists {
        RabbitView::RequestPath(input)
    } else {
        RabbitView::RequestName(input)
    }
}

/// The location at `path` to keep: under the name given or else under its
/// final segment, and a failure where there is neither.
pub open spec fn keep_of(path: Seq<char>, given: Option<Seq<char>>, is_dir: bool) -> Result<
    RabbitView,
    HopError,
> {
    match name_for(path, given) {
        Some(name) => Ok(located(path, name, is_dir)),
        None => Err(HopError::Name),
    }
}

impl Rabbit {
    /// The location at `input`, under the name given or else under its final
    /// segment; a failure where no name is given and `input` has no final
    /// segment. `is_dir` says whether a directory was found at `input`.
    pub fn from(input: String, name: Option<String>, is_dir: bool) -> (r: Result<Rabbit, HopError>)
        ensures
            match r {
                Ok(bunny) => keep_of(input@, text_of(name), is_dir) == Ok::<RabbitView, HopError>(
                    bunny@,
                ),
                Err(e) => keep_of(input@, text_of(name), is_dir) == Err::<RabbitView, HopError>(e),
            },
    {
        let current_name = match name {
            Some(given_name) => given_name,
            None => match final_segment(input.as_str()) {
                Some(segment) => segment,
                None => {
                    return Err(HopError::Name);
                },
            },
        };
        if is_dir {
            Ok(Rabbit::Dir(current_name, input))
        } else {
            Ok(Rabbit::File(current_name, input))
        }
    }

    /// The request that `input` makes. `exists` says whether anything was
    /// found at `input` taken as a path.
    pub fn request(input: String, exists: bool) -> (r: Self)
        ensures
            r@ == requested(input@, exists),
    {
        if exists {
            Rabbit::RequestPath(input)
        } else {
            Rabbit::RequestName(input)
        }
    }
}

/// What the user asks for.
#[derive(Debug, PartialEq, Eq)]
pub enum Cmd {
    /// Keep a location, or hop to what a request names.
    Use(Rabbit),
    /// Forget a shortcut.
    Remove(Rabbit),
    /// Show a text.
    PrintMsg(String),
    /// Mark a place to come back to.
    SetBrb(String),
    /// Hop back to the marked place.
    BrbHop,
    /// Show the shortcuts.
    ListHops,
    /// Show the help text.
    PrintHelp,
    /// Run again, with this command line.
    Passthrough(String),
    /// Show where the program keeps its files.
    LocateBunnyhop,
    /// Show where a shortcut leads.
    LocateShortcut(String),
    /// Open the configuration.
    Configure,
    /// Hop to a shortcut and open it.
    HopDirAndEdit(String),
    /// Open a location.
    EditDir(Rabbit),
    /// Show the history.
    ShowHistory,
    /// Hop to the newest match in the history.
    PullHistory(Rabbit),
}

/// What a `Cmd` holds.
pub enum CmdView {
    Use(RabbitView),
    Remove(RabbitView),
    PrintMsg(Seq<char>),
    SetBrb(Seq<char>),
    BrbHop,
    ListHops,
    PrintHelp,
    Passthrough(Seq<char>),
    LocateBunnyhop,
    LocateShortcut(Seq<char>),
    Configure,
    HopDirAndEdit(Seq<char>),
    EditDir(RabbitView),
    ShowHistory,
    PullHistory(RabbitView),
}

impl View for Cmd {
    type V = CmdView;

    open spec fn view(&self) -> CmdView {
        match self {
            Cmd::Use(bunny) => CmdView::Use(bunny@),
            Cmd::Remove(bunny) => CmdView::Remove(bunny@),
            Cmd::PrintMsg(msg) => CmdView::PrintMsg(msg@),
            Cmd::SetBrb(loc) => CmdView::SetBrb(loc@),
            Cmd::BrbHop => CmdView::BrbHop,
            Cmd::ListHops => CmdView::ListHops,
            Cmd::PrintHelp => CmdView::PrintHelp,
            Cmd::Passthrough(line) => CmdView::Passthrough(line@),
            Cmd::LocateBunnyhop => CmdView::LocateBunnyhop,
            Cmd::LocateShortcut(name) => CmdView::LocateShortcut(name@),
            Cmd::Configure => CmdView::Configure,
            Cmd::HopDirAndEdit(name) => CmdView::HopDirAndEdit(name@),
            Cmd::EditDir(bunny) => CmdView::EditDir(bunny@),
            Cmd::ShowHistory => CmdView::ShowHistory,
            Cmd::PullHistory(bunny) => CmdView::PullHistory(bunny@),
        }
    }
}

/// What a parse gives, seen through the view of the command.
pub open spec fn parsed_view(r: Result<Cmd, HopError>) -> Result<CmdView, HopError> {
    match r {
        Ok(cmd) => Ok(cmd@),
        Err(e) => Err(e),
    }
}

/// The argument at `at`, if the command line is that long.
pub open spec fn arg_at(args: Seq<Seq<char>>, at: int) -> Option<Seq<char>> {
    if 0 <= at < args.len() {
        Some(args[at])
    } else {
        None
    }
}

/// The command that a command line stands for. `args[0]` is the program's
/// name and `args[1]` the command word. `cwd` is the working directory and
/// `cwd_state` what was found there. `word` is what was found at `args[1]`
/// as seen from `cwd`: a word that is no command asks for that path where
/// something is there, and else for a name. `target` is what was found at
/// `args[2]` as seen from `cwd`, and is not looked at where there is no
/// `args[2]`. `banner` is the text to show for the version.
pub open spec fn parse_of(
    args: Seq<Seq<char>>,
    cwd: Seq<char>,
    cwd_state: PathState,
    word: PathState,
    target: PathState,
    banner: Seq<char>,
) -> Result<CmdView, HopError> {
    let second = arg_at(args, 2);
    if args.len() < 2 {
        Ok(CmdView::PrintMsg("[error] Unable to parse current arguments."@))
    } else if args[1] == "add"@ {
        let kept = match second {
            Some(entry) => if target == PathState::File {
                keep_of(join_of(cwd, entry), arg_at(args, 3), false)
            } else {
                keep_of(cwd, Some(entry), cwd_state == PathState::Dir)
            },
            None => keep_of(cwd, None, cwd_state == PathState::Dir),
        };
        match kept {
            Ok(bunny) => Ok(CmdView::Use(bunny)),
            Err(e) => Err(e),
        }
    } else if args[1] == "rm"@ || args[1] == "remove"@ {
        match second {
            Some(name) => Ok(CmdView::Remove(requested(name, target != PathState::Missing))),
            None => Ok(CmdView::Remove(requested(cwd, cwd_state != PathState::Missing))),
        }
    } else if args[1] == "ls"@ || args[1] == "list"@ {
        Ok(CmdView::Passthrough("_ls"@))
    } else if args[1] == "_ls"@ {
        Ok(CmdView::ListHops)
    } else if args[1] == "version"@ || args[1] == "v"@ {
        Ok(CmdView::Passthrough("_version"@))
    } else if args[1] == "_version"@ {
        Ok(CmdView::PrintMsg(banner))
    } else if args[1] == "brb"@ {
        Ok(CmdView::SetBrb(cwd))
    } else if args[1] == "back"@ {
        Ok(CmdView::BrbHop)
    } else if args[1] == "help"@ {
        Ok(CmdView::Passthrough("_help"@))
    } else if args[1] == "_help"@ {
        Ok(CmdView::PrintHelp)
    } else if args[1] == "config"@ || args[1] == "configure"@ {
        Ok(CmdView::Configure)
    } else if args[1] == "edit"@ {
        match second {
            Some(name) => Ok(CmdView::HopDirAndEdit(name)),
            None => match keep_of(cwd, None, cwd_state == PathState::Dir) {
                Ok(bunny) => Ok(CmdView::EditDir(bunny)),
                Err(e) => Err(e),
            },
        }
    } else if args[1] == "locate"@ {
        match second {
            Some(name) => Ok(CmdView::LocateShortcut(name)),
            None => Ok(CmdView::Passthrough("_list_all_history_hops"@)),
        }
    } else if args[1] == "_list_all_history_hops"@ {
        Ok(CmdView::LocateBunnyhop)
    } else if args[1] == "history"@ {
        match second {
            Some(arg) => Ok(CmdView::Passthrough("_history "@ + arg)),
            None => Ok(CmdView::Passthrough("_history"@)),
        }
    } else if args[1] == "_history"@ {
        match second {
            Some(name) => Ok(CmdView::PullHistory(requested(name, target != PathState::Missing))),
            None => Ok(CmdView::ShowHistory),
        }
    } else {
        Ok(CmdView::Use(requested(args[1], word != PathState::Missing)))
    }
}

/// A copy of the argument at `at`, if the command line is that long.
fn arg(args: &Vec<String>, at: usize) -> (r: Option<String>)
    ensures
        text_of(r) == arg_at(texts(args@), at as int),
{
    if at < args.len() {
        Some(args[at].clone())
    } else {
        None
    }
}

impl Cmd {
    /// Reads a command line. `args[0]` is the program's name and `args[1]`
    /// the command word. `cwd` is the working directory and `cwd_state` what
    /// was found there. `word_state` is what was found at `args[1]` as seen
    /// from `cwd`: a word that is no command asks for that path where
    /// something is there, and else for a name. `target_state` is what was
    /// found at `args[2]` as seen from `cwd`, and is not looked at where
    /// there is no `args[2]`. The version is shown by a banner that is
    /// painted as the terminal allows.
    pub fn parse(
        args: &Vec<String>,
        cwd: &str,
        cwd_state: PathState,
        word_state: PathState,
        target_state: PathState,
    ) -> (r: Result<Cmd, HopError>)
        ensures
            exists|banner: Seq<char>|
                is_version_banner(banner) && parsed_view(r) == #[trigger] parse_of(
                    texts(args@),
                    cwd@,
                    cwd_state,
                    word_state,
                    target_state,
                    banner,
                ),
    {
        Cmd::parse_with(args, cwd, cwd_state, word_state, target_state, version_banner())
    }

    /// Reads a command line as `parse` does, with the given text to show
    /// for the version.
    pub fn parse_with(
        args: &Vec<String>,
        cwd: &str,
        cwd_state: PathState,
        word_state: PathState,
        target_state: PathState,
        banner: String,
    ) -> (r: Result<Cmd, HopError>)
        ensures
            parsed_view(r) == parse_of(
                texts(args@),
                cwd@,
                cwd_state,
                word_state,
                target_state,
                banner@,
            ),
    {
        if args.len() < 2 {
            return Ok(Cmd::PrintMsg("[error] Unable to parse current arguments.".to_owned()));
        }
        let primary = args[1].as_str();
        let second = arg(args, 2);
        let cwd_is_dir = cwd_state == PathState::Dir;
        assert(texts(args@)[1] == primary@);
        if same_text(primary, "add") {
            let kept = match second {
                Some(entry) => if target_state == PathState::File {
                    Rabbit::from(join(cwd, entry.as_str()), arg(args, 3), false)
                } else {
                    Rabbit::from(cwd.to_owned(), Some(entry), cwd_is_dir)
                },
                None => Rabbit::from(cwd.to_owned(), None, cwd_is_dir),
            };
            match kept {
                Ok(bunny) => Ok(Cmd::Use(bunny)),
                Err(e) => Err(e),
            }
        } else if same_text(primary, "rm") || same_text(primary, "remove") {
            match second {
                Some(name) => Ok(
                    Cmd::Remove(Rabbit::request(name, target_state != PathState::Missing)),
                ),
                None => Ok(
                    Cmd::Remove(Rabbit::request(cwd.to_owned(), cwd_state != PathState::Missing)),
                ),
            }
        } else if same_text(primary, "ls") || same_text(primary, "list") {
            Ok(Cmd::Passthrough("_ls".to_owned()))
        } else if same_text(primary, "_ls") {
            Ok(Cmd::ListHops)
        } else if same_text(primary, "version") || same_text(primary, "v") {
            Ok(Cmd::Passthrough("_version".to_owned()))
        } else if same_text(primary, "_version") {
            Ok(Cmd::PrintMsg(banner))
        } else if same_text(primary, "brb") {
            Ok(Cmd::SetBrb(cwd.to_owned()))
        } else if same_text(primary, "back") {
            Ok(Cmd::BrbHop)
        } else if same_text(primary, "help") {
            Ok(Cmd::Passthrough("_help".to_owned()))
        } else if same_text(primary, "_help") {
            Ok(Cmd::PrintHelp)
        } else if same_text(primary, "config") || same_text(primary, "configure") {
            Ok(Cmd::Configure)
        } else if same_text(primary, "edit") {
            match second {
                Some(name) => Ok(Cmd::HopDirAndEdit(name)),
                None => match Rabbit::from(cwd.to_owned(), None, cwd_is_dir) {
                    Ok(bunny) => Ok(Cmd::EditDir(bunny)),
                    Err(e) => Err(e),
                },
            }
        } else if same_text(primary, "locate") {
            match second {
                Some(name) => Ok(Cmd::LocateShortcut(name)),
                None => Ok(Cmd::Passthrough("_list_all_history_hops".to_owned())),
            }
        } else if same_text(primary, "_list_all_history_hops") {
            Ok(Cmd::LocateBunnyhop)
        } else if same_text(primary, "history") {
            match second {
                Some(arg) => {
                    let mut line = "_history ".to_owned();
                    line.append(arg.as_str());
                    Ok(Cmd::Passthrough(line))
                },
                None => Ok(Cmd::Passthrough("_history".to_owned())),
            }
        } else if same_text(primary, "_history") {
            match second {
                Some(name) => Ok(
                    Cmd::PullHistory(Rabbit::request(name, target_state != PathState::Missing)),
                ),
                None => Ok(Cmd::ShowHistory),
            }
        } else {
            Ok(Cmd::Use(Rabbit::request(primary.to_owned(), word_state != PathState::Missing)))
        }
    }
}

} // verus!
