use bunnyhop::args::{Cmd, PathState, Rabbit};
use bunnyhop::error::HopError;

fn argv(words: &[&str]) -> Vec<String> {
    let mut v = vec!["hp".to_string()];
    for w in words {
        v.push(w.to_string());
    }
    v
}

fn parse(words: &[&str], cwd: &str, cwd_state: PathState, target: PathState) -> Result<Cmd, HopError> {
    Cmd::parse(&argv(words), cwd, cwd_state, PathState::Missing, target)
}

fn parse_word(word: &str, word_state: PathState) -> Result<Cmd, HopError> {
    Cmd::parse(&argv(&[word]), "/home/u", PathState::Dir, word_state, PathState::Missing)
}

#[test]
fn rabbit_from_takes_the_given_name() {
    let r = Rabbit::from("/home/u/code".to_string(), Some("work".to_string()), true);
    assert_eq!(r, Ok(Rabbit::Dir("work".to_string(), "/home/u/code".to_string())));
}

#[test]
fn rabbit_from_derives_the_name_from_the_final_segment() {
    let r = Rabbit::from("/home/u/code".to_string(), None, true);
    assert_eq!(r, Ok(Rabbit::Dir("code".to_string(), "/home/u/code".to_string())));
    let r = Rabbit::from("/home/u/notes.txt".to_string(), None, false);
    assert_eq!(r, Ok(Rabbit::File("notes.txt".to_string(), "/home/u/notes.txt".to_string())));
    let r = Rabbit::from("/home/u/code/".to_string(), None, true);
    assert_eq!(r, Ok(Rabbit::Dir("code".to_string(), "/home/u/code/".to_string())));
}

#[test]
fn rabbit_from_keeps_a_name_for_the_root() {
    let r = Rabbit::from("/".to_string(), Some("root".to_string()), true);
    assert_eq!(r, Ok(Rabbit::Dir("root".to_string(), "/".to_string())));
    let r = Rabbit::from("/a/..".to_string(), Some("up".to_string()), false);
    assert_eq!(r, Ok(Rabbit::File("up".to_string(), "/a/..".to_string())));
}

#[test]
fn rabbit_from_fails_where_there_is_no_name() {
    assert_eq!(Rabbit::from("/".to_string(), None, true), Err(HopError::Name));
    assert_eq!(Rabbit::from("".to_string(), None, true), Err(HopError::Name));
    assert_eq!(Rabbit::from("/a/..".to_string(), None, true), Err(HopError::Name));
    assert_eq!(Rabbit::from(".".to_string(), None, false), Err(HopError::Name));
    assert_eq!(Rabbit::from("//".to_string(), None, false), Err(HopError::Name));
}

#[test]
fn rabbit_request_tells_paths_from_names() {
    assert_eq!(Rabbit::request("code".to_string(), false), Rabbit::RequestName("code".to_string()));
    assert_eq!(Rabbit::request("code".to_string(), true), Rabbit::RequestPath("code".to_string()));
}

#[test]
fn rabbit_clone_is_equal() {
    let r = Rabbit::File("a".to_string(), "/x/a".to_string());
    assert_eq!(r.clone(), r);
}

#[test]
fn parse_without_a_command_word() {
    let r = Cmd::parse(
        &vec!["hp".to_string()],
        "/home/u",
        PathState::Dir,
        PathState::Missing,
        PathState::Missing,
    );
    assert_eq!(r, Ok(Cmd::PrintMsg("[error] Unable to parse current arguments.".to_string())));
    let r = Cmd::parse(
        &Vec::new(),
        "/home/u",
        PathState::Dir,
        PathState::Missing,
        PathState::Missing,
    );
    assert_eq!(r, Ok(Cmd::PrintMsg("[error] Unable to parse current arguments.".to_string())));
}

#[test]
fn parse_add_of_the_working_directory() {
    let r = parse(&["add"], "/home/u/code", PathState::Dir, PathState::Missing);
    assert_eq!(r, Ok(Cmd::Use(Rabbit::Dir("code".to_string(), "/home/u/code".to_string()))));
}

#[test]
fn parse_add_under_a_name() {
    let r = parse(&["add", "work"], "/home/u/code", PathState::Dir, PathState::Missing);
    assert_eq!(r, Ok(Cmd::Use(Rabbit::Dir("work".to_string(), "/home/u/code".to_string()))));
    let r = parse(&["add", "sub"], "/home/u/code", PathState::Dir, PathState::Dir);
    assert_eq!(r, Ok(Cmd::Use(Rabbit::Dir("sub".to_string(), "/home/u/code".to_string()))));
}

#[test]
fn parse_add_of_a_file() {
    let r = parse(&["add", "notes.txt"], "/home/u", PathState::Dir, PathState::File);
    assert_eq!(
        r,
        Ok(Cmd::Use(Rabbit::File("notes.txt".to_string(), "/home/u/notes.txt".to_string())))
    );
    let r = parse(&["add", "notes.txt", "n"], "/home/u", PathState::Dir, PathState::File);
    assert_eq!(r, Ok(Cmd::Use(Rabbit::File("n".to_string(), "/home/u/notes.txt".to_string()))));
    let r = parse(&["add", "/etc/hosts"], "/home/u", PathState::Dir, PathState::File);
    assert_eq!(r, Ok(Cmd::Use(Rabbit::File("hosts".to_string(), "/etc/hosts".to_string()))));
}

#[test]
fn parse_add_fails_without_a_name() {
    assert_eq!(parse(&["add"], "/", PathState::Dir, PathState::Missing), Err(HopError::Name));
    assert_eq!(parse(&["add", ".."], "/home/u", PathState::Dir, PathState::File), Err(HopError::Name));
    assert_eq!(parse(&["edit"], "/", PathState::Dir, PathState::Missing), Err(HopError::Name));
}

#[test]
fn parse_remove() {
    let r = parse(&["rm", "code"], "/home/u", PathState::Dir, PathState::Missing);
    assert_eq!(r, Ok(Cmd::Remove(Rabbit::RequestName("code".to_string()))));
    let r = parse(&["remove", "code"], "/home/u", PathState::Dir, PathState::Dir);
    assert_eq!(r, Ok(Cmd::Remove(Rabbit::RequestPath("code".to_string()))));
    let r = parse(&["rm"], "/home/u", PathState::Dir, PathState::Missing);
    assert_eq!(r, Ok(Cmd::Remove(Rabbit::RequestPath("/home/u".to_string()))));
    let r = parse(&["rm"], "/home/u", PathState::Missing, PathState::Missing);
    assert_eq!(r, Ok(Cmd::Remove(Rabbit::RequestName("/home/u".to_string()))));
}

#[test]
fn parse_words_that_run_again() {
    for (word, line) in [
        ("ls", "_ls"),
        ("list", "_ls"),
        ("version", "_version"),
        ("v", "_version"),
        ("help", "_help"),
        ("locate", "_list_all_history_hops"),
        ("history", "_history"),
    ] {
        let r = parse(&[word], "/home/u", PathState::Dir, PathState::Missing);
        assert_eq!(r, Ok(Cmd::Passthrough(line.to_string())));
    }
    let r = parse(&["history", "proj"], "/home/u", PathState::Dir, PathState::Missing);
    assert_eq!(r, Ok(Cmd::Passthrough("_history proj".to_string())));
}

#[test]
fn parse_words_without_arguments() {
    let at = |word: &str| parse(&[word], "/home/u", PathState::Dir, PathState::Missing);
    assert_eq!(at("_ls"), Ok(Cmd::ListHops));
    assert_eq!(at("brb"), Ok(Cmd::SetBrb("/home/u".to_string())));
    assert_eq!(at("back"), Ok(Cmd::BrbHop));
    assert_eq!(at("_help"), Ok(Cmd::PrintHelp));
    assert_eq!(at("config"), Ok(Cmd::Configure));
    assert_eq!(at("configure"), Ok(Cmd::Configure));
    assert_eq!(at("_list_all_history_hops"), Ok(Cmd::LocateBunnyhop));
    assert_eq!(at("_history"), Ok(Cmd::ShowHistory));
    assert_eq!(at("edit"), Ok(Cmd::EditDir(Rabbit::Dir("u".to_string(), "/home/u".to_string()))));
}

#[test]
fn parse_words_with_an_argument() {
    let r = parse(&["edit", "code"], "/home/u", PathState::Dir, PathState::Missing);
    assert_eq!(r, Ok(Cmd::HopDirAndEdit("code".to_string())));
    let r = parse(&["locate", "code"], "/home/u", PathState::Dir, PathState::Missing);
    assert_eq!(r, Ok(Cmd::LocateShortcut("code".to_string())));
    let r = parse(&["_history", "code"], "/home/u", PathState::Dir, PathState::Missing);
    assert_eq!(r, Ok(Cmd::PullHistory(Rabbit::RequestName("code".to_string()))));
    let r = parse(&["_history", "/a"], "/home/u", PathState::Dir, PathState::Dir);
    assert_eq!(r, Ok(Cmd::PullHistory(Rabbit::RequestPath("/a".to_string()))));
}

#[test]
fn parse_any_other_word_is_a_name_to_hop_to() {
    let r = parse(&["code"], "/home/u", PathState::Dir, PathState::Dir);
    assert_eq!(r, Ok(Cmd::Use(Rabbit::RequestName("code".to_string()))));
    let r = parse(&["Add"], "/home/u", PathState::Dir, PathState::Missing);
    assert_eq!(r, Ok(Cmd::Use(Rabbit::RequestName("Add".to_string()))));
    let r = parse_word("/tmp/work", PathState::Missing);
    assert_eq!(r, Ok(Cmd::Use(Rabbit::RequestName("/tmp/work".to_string()))));
}

#[test]
fn parse_a_word_that_is_an_existing_path_is_a_path_to_hop_to() {
    let r = parse_word("/tmp/work", PathState::Dir);
    assert_eq!(r, Ok(Cmd::Use(Rabbit::RequestPath("/tmp/work".to_string()))));
    let r = parse_word("code", PathState::Dir);
    assert_eq!(r, Ok(Cmd::Use(Rabbit::RequestPath("code".to_string()))));
    let r = parse_word("notes.txt", PathState::File);
    assert_eq!(r, Ok(Cmd::Use(Rabbit::RequestPath("notes.txt".to_string()))));
    let r = parse_word("pipe", PathState::Other);
    assert_eq!(r, Ok(Cmd::Use(Rabbit::RequestPath("pipe".to_string()))));
}

#[test]
fn parse_command_words_win_over_paths_of_their_name() {
    assert_eq!(parse_word("back", PathState::Dir), Ok(Cmd::BrbHop));
    assert_eq!(parse_word("_ls", PathState::File), Ok(Cmd::ListHops));
    assert_eq!(
        parse_word("add", PathState::Dir),
        Ok(Cmd::Use(Rabbit::Dir("u".to_string(), "/home/u".to_string())))
    );
}

#[test]
fn parse_with_shows_the_given_banner() {
    let r = Cmd::parse_with(
        &argv(&["_version"]),
        "/home/u",
        PathState::Dir,
        PathState::Missing,
        PathState::Missing,
        "hop 1".to_string(),
    );
    assert_eq!(r, Ok(Cmd::PrintMsg("hop 1".to_string())));
    let r = Cmd::parse_with(
        &argv(&["brb"]),
        "/home/u",
        PathState::Dir,
        PathState::Missing,
        PathState::Missing,
        "hop 1".to_string(),
    );
    assert_eq!(r, Ok(Cmd::SetBrb("/home/u".to_string())));
}

#[test]
fn banner_is_made_of_its_parts() {
    assert_eq!(bunnyhop::banner::compose_banner("a", "b", "c"), "a \u{1F407} bc");
    assert_eq!(bunnyhop::banner::VERSION, "0.1.0");
}

#[test]
fn parse_version_gives_the_banner() {
    colored::control::set_override(true);
    let r = parse(&["_version"], "/home/u", PathState::Dir, PathState::Missing);
    assert_eq!(
        r,
        Ok(Cmd::PrintMsg(
            "\u{1b}[1;36mBunnyHop\u{1b}[0m \u{1F407} \u{1b}[1mv.\u{1b}[0m\u{1b}[1;97m0.1.0\u{1b}[0m"
                .to_string()
        ))
    );
    colored::control::set_override(false);
    let r = parse(&["_version"], "/home/u", PathState::Dir, PathState::Missing);
    assert_eq!(r, Ok(Cmd::PrintMsg("BunnyHop \u{1F407} v.0.1.0".to_string())));
    colored::control::unset_override();
}
