use bunnyhop::args::{Cmd, PathState, Rabbit};
use bunnyhop::bookmark::BackBookmark;
use bunnyhop::error::HopError;
use bunnyhop::history::HistoryEntry;
use bunnyhop::hopper::{Hopper, Outcome};
use bunnyhop::shortcut::{Kind, Shortcut};

fn sc(name: &str, target: &str, kind: Kind) -> Shortcut {
    Shortcut { name: name.to_string(), target: target.to_string(), kind }
}

fn visit(path: &str, seq: u64) -> HistoryEntry {
    HistoryEntry { path: path.to_string(), seq }
}

fn name(n: &str) -> Rabbit {
    Rabbit::RequestName(n.to_string())
}

#[test]
fn ghost_is_unknown_in_an_empty_hopper() {
    let mut hopper = Hopper::new(".config/hop");
    assert_eq!(hopper.execute(Cmd::Use(name("ghost")), "/home/u"), Err(HopError::UnknownTarget));
    assert_eq!(hopper.history().len(), 0);
    assert_eq!(hopper.shortcuts().len(), 0);
}

#[test]
fn added_directory_is_listed_under_its_name() {
    let mut hopper = Hopper::new(".config/hop");
    let cmd = Cmd::Use(Rabbit::from("/home/u/code".to_string(), None, true).unwrap());
    assert_eq!(
        hopper.execute(cmd, "/home/u/code"),
        Ok(Outcome::Saved(sc("code", "/home/u/code", Kind::Dir)))
    );
    assert_eq!(
        hopper.execute(Cmd::ListHops, "/"),
        Ok(Outcome::Shortcuts(vec![sc("code", "/home/u/code", Kind::Dir)]))
    );
}

#[test]
fn added_file_is_kept_as_a_file() {
    let mut hopper = Hopper::new(".config/hop");
    let cmd = Cmd::Use(Rabbit::File("n".to_string(), "notes.txt".to_string()));
    assert_eq!(
        hopper.execute(cmd, "/home/u"),
        Ok(Outcome::Saved(sc("n", "/home/u/notes.txt", Kind::File)))
    );
    assert_eq!(hopper.execute(Cmd::Use(name("n")), "/"), Ok(Outcome::Hop("/home/u".to_string())));
    assert_eq!(
        hopper.execute(Cmd::HopDirAndEdit("n".to_string()), "/"),
        Ok(Outcome::Edit("/home/u/notes.txt".to_string()))
    );
}

#[test]
fn shortcut_is_used_before_history() {
    let mut hopper = Hopper::new(".config/hop");
    hopper.execute(Cmd::Use(Rabbit::Dir("proj".to_string(), "/a/proj".to_string())), "/").unwrap();
    hopper.execute(Cmd::Use(Rabbit::RequestPath("/b/proj-old".to_string())), "/").unwrap();
    assert_eq!(
        hopper.execute(Cmd::Use(name("proj")), "/home/u"),
        Ok(Outcome::Hop("/a/proj".to_string()))
    );
    assert_eq!(
        hopper.execute(Cmd::Use(name("old")), "/home/u"),
        Ok(Outcome::Hop("/b/proj-old".to_string()))
    );
}

#[test]
fn existing_path_is_used_before_a_shortcut_of_its_name() {
    let mut hopper = Hopper::new(".config/hop");
    hopper.execute(Cmd::Use(Rabbit::Dir("work".to_string(), "/elsewhere".to_string())), "/").unwrap();
    let args = vec!["hp".to_string(), "work".to_string()];
    let there = Cmd::parse(&args, "/tmp", PathState::Dir, PathState::Dir, PathState::Missing);
    assert_eq!(hopper.execute(there.unwrap(), "/tmp"), Ok(Outcome::Hop("/tmp/work".to_string())));
    let absent = Cmd::parse(&args, "/tmp", PathState::Dir, PathState::Missing, PathState::Missing);
    assert_eq!(hopper.execute(absent.unwrap(), "/tmp"), Ok(Outcome::Hop("/elsewhere".to_string())));
    let args = vec!["hp".to_string(), "/tmp/work".to_string()];
    let there = Cmd::parse(&args, "/", PathState::Dir, PathState::Dir, PathState::Missing);
    let mut empty = Hopper::new(".config/hop");
    assert_eq!(empty.execute(there.unwrap(), "/"), Ok(Outcome::Hop("/tmp/work".to_string())));
}

#[test]
fn second_shortcut_under_a_name_replaces_the_first() {
    let mut hopper = Hopper::new(".config/hop");
    hopper.execute(Cmd::Use(Rabbit::Dir("n".to_string(), "/first".to_string())), "/").unwrap();
    hopper.execute(Cmd::Use(Rabbit::Dir("m".to_string(), "/other".to_string())), "/").unwrap();
    assert_eq!(
        hopper.execute(Cmd::Use(Rabbit::Dir("n".to_string(), "second".to_string())), "/home/u"),
        Ok(Outcome::Saved(sc("n", "/home/u/second", Kind::Dir)))
    );
    assert_eq!(hopper.shortcuts().lookup("n"), Some(sc("n", "/home/u/second", Kind::Dir)));
    assert_eq!(
        hopper.shortcuts().list(),
        vec![sc("n", "/home/u/second", Kind::Dir), sc("m", "/other", Kind::Dir)]
    );
}

#[test]
fn hops_join_the_history() {
    let mut hopper = Hopper::new(".config/hop");
    hopper.execute(Cmd::Use(Rabbit::Dir("a".to_string(), "/x/a".to_string())), "/").unwrap();
    hopper.execute(Cmd::Use(name("a")), "/").unwrap();
    hopper.execute(Cmd::Use(Rabbit::RequestPath("b".to_string())), "/home/u").unwrap();
    assert_eq!(
        hopper.execute(Cmd::ShowHistory, "/"),
        Ok(Outcome::Visits(vec![visit("/home/u/b", 1), visit("/x/a", 0)]))
    );
    assert_eq!(
        hopper.execute(Cmd::PullHistory(name("a")), "/"),
        Ok(Outcome::Hop("/x/a".to_string()))
    );
    assert_eq!(hopper.history().len(), 3);
    assert_eq!(hopper.execute(Cmd::PullHistory(name("zz")), "/"), Err(HopError::NotFound));
    assert_eq!(hopper.history().len(), 3);
}

#[test]
fn back_returns_the_marked_place_again_and_again() {
    let mut hopper = Hopper::new(".config/hop");
    assert_eq!(hopper.execute(Cmd::BrbHop, "/"), Err(HopError::NotFound));
    assert_eq!(hopper.execute(Cmd::SetBrb("/home/u/here".to_string()), "/"), Ok(Outcome::Marked));
    assert_eq!(hopper.execute(Cmd::BrbHop, "/"), Ok(Outcome::Hop("/home/u/here".to_string())));
    assert_eq!(hopper.execute(Cmd::BrbHop, "/"), Ok(Outcome::Hop("/home/u/here".to_string())));
    assert_eq!(hopper.bookmark().get(), Some("/home/u/here".to_string()));
    assert_eq!(hopper.execute(Cmd::SetBrb("/other".to_string()), "/"), Ok(Outcome::Marked));
    assert_eq!(hopper.execute(Cmd::BrbHop, "/"), Ok(Outcome::Hop("/other".to_string())));
}

#[test]
fn bookmark_set_and_get() {
    let mut mark = BackBookmark::new();
    assert_eq!(mark.get(), None);
    mark.set("/a".to_string());
    assert_eq!(mark.get(), Some("/a".to_string()));
    assert_eq!(mark.get(), Some("/a".to_string()));
    mark.set("/b".to_string());
    assert_eq!(mark.get(), Some("/b".to_string()));
    assert_eq!(BackBookmark::restore(None).get(), None);
    assert_eq!(BackBookmark::restore(Some("/c".to_string())).get(), Some("/c".to_string()));
}

#[test]
fn remove_forgets_a_shortcut() {
    let mut hopper = Hopper::new(".config/hop");
    hopper.execute(Cmd::Use(Rabbit::Dir("a".to_string(), "/x/a".to_string())), "/").unwrap();
    assert_eq!(hopper.execute(Cmd::Remove(name("b")), "/"), Err(HopError::NotFound));
    assert_eq!(hopper.execute(Cmd::Remove(name("a")), "/"), Ok(Outcome::Removed));
    assert_eq!(hopper.execute(Cmd::ListHops, "/"), Ok(Outcome::Shortcuts(Vec::new())));
    assert_eq!(hopper.execute(Cmd::Use(name("a")), "/"), Err(HopError::UnknownTarget));
    hopper.execute(Cmd::Use(Rabbit::Dir("a".to_string(), "/x/a".to_string())), "/").unwrap();
    assert_eq!(
        hopper.execute(Cmd::Remove(Rabbit::RequestPath("a".to_string())), "/x"),
        Ok(Outcome::Removed)
    );
    assert_eq!(hopper.shortcuts().len(), 0);
}

#[test]
fn locate_shows_paths() {
    let mut hopper = Hopper::new("/home/u/.config/hop");
    hopper.execute(Cmd::Use(Rabbit::Dir("a".to_string(), "/x/a".to_string())), "/").unwrap();
    assert_eq!(
        hopper.execute(Cmd::LocateShortcut("a".to_string()), "/"),
        Ok(Outcome::Located("/x/a".to_string()))
    );
    assert_eq!(hopper.execute(Cmd::LocateShortcut("b".to_string()), "/"), Err(HopError::NotFound));
    assert_eq!(
        hopper.execute(Cmd::LocateBunnyhop, "/"),
        Ok(Outcome::Located("/home/u/.config/hop".to_string()))
    );
    assert_eq!(
        hopper.execute(Cmd::Configure, "/"),
        Ok(Outcome::Edit("/home/u/.config/hop".to_string()))
    );
    assert_eq!(hopper.config(), "/home/u/.config/hop");
}

#[test]
fn edit_opens_places() {
    let mut hopper = Hopper::new(".config/hop");
    hopper.execute(Cmd::Use(Rabbit::Dir("a".to_string(), "/x/a".to_string())), "/").unwrap();
    assert_eq!(
        hopper.execute(Cmd::EditDir(Rabbit::Dir("u".to_string(), "/home/u".to_string())), "/"),
        Ok(Outcome::Edit("/home/u".to_string()))
    );
    assert_eq!(
        hopper.execute(Cmd::EditDir(Rabbit::File("f".to_string(), "f.txt".to_string())), "/home/u"),
        Ok(Outcome::Edit("/home/u/f.txt".to_string()))
    );
    assert_eq!(
        hopper.execute(Cmd::EditDir(Rabbit::RequestPath("docs".to_string())), "/home/u"),
        Ok(Outcome::Edit("/home/u/docs".to_string()))
    );
    assert_eq!(hopper.execute(Cmd::EditDir(name("a")), "/"), Ok(Outcome::Edit("/x/a".to_string())));
    assert_eq!(hopper.execute(Cmd::EditDir(name("zz")), "/"), Err(HopError::UnknownTarget));
    assert_eq!(
        hopper.execute(Cmd::HopDirAndEdit("zz".to_string()), "/"),
        Err(HopError::UnknownTarget)
    );
    assert_eq!(hopper.history().len(), 0);
}

#[test]
fn texts_are_handed_through() {
    let mut hopper = Hopper::new(".config/hop");
    assert_eq!(
        hopper.execute(Cmd::Passthrough("_ls".to_string()), "/"),
        Ok(Outcome::Run("_ls".to_string()))
    );
    assert_eq!(
        hopper.execute(Cmd::PrintMsg("hello".to_string()), "/"),
        Ok(Outcome::Message("hello".to_string()))
    );
    assert_eq!(hopper.execute(Cmd::PrintHelp, "/"), Ok(Outcome::Help));
}
