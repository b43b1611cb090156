use bunnyhop::error::HopError;
use bunnyhop::history::HistoryLog;
use bunnyhop::resolver::{resolve, Intent, Origin, Request, Resolution};
use bunnyhop::shortcut::{Kind, ShortcutStore};

fn place(target: &str, kind: Kind, origin: Origin) -> Result<Resolution, HopError> {
    Ok(Resolution { target: target.to_string(), kind, origin })
}

#[test]
fn unknown_name_with_nothing_kept() {
    let r = resolve(
        &ShortcutStore::new(),
        &HistoryLog::new(),
        &Request::Name("ghost".to_string()),
        "/home/u",
        Intent::Hop,
    );
    assert_eq!(r, Err(HopError::UnknownTarget));
}

#[test]
fn shortcut_wins_over_history() {
    let mut store = ShortcutStore::new();
    store.add(Some("proj".to_string()), "/a/proj".to_string(), Kind::Dir).unwrap();
    let mut log = HistoryLog::new();
    log.record("/b/proj-old".to_string());
    let r = resolve(&store, &log, &Request::Name("proj".to_string()), "/home/u", Intent::Hop);
    assert_eq!(r, place("/a/proj", Kind::Dir, Origin::Shortcut));
}

#[test]
fn history_serves_names_without_shortcut() {
    let mut store = ShortcutStore::new();
    store.add(Some("proj".to_string()), "/a/proj".to_string(), Kind::Dir).unwrap();
    let mut log = HistoryLog::new();
    log.record("/b/proj-old".to_string());
    log.record("/c/elsewhere".to_string());
    log.record("/d/old-things".to_string());
    let r = resolve(&store, &log, &Request::Name("old".to_string()), "/home/u", Intent::Hop);
    assert_eq!(r, place("/d/old-things", Kind::Dir, Origin::History));
    let r = resolve(&store, &log, &Request::Name("proj-".to_string()), "/home/u", Intent::Hop);
    assert_eq!(r, place("/b/proj-old", Kind::Dir, Origin::History));
    let r = resolve(&store, &log, &Request::Name("pr0j".to_string()), "/home/u", Intent::Hop);
    assert_eq!(r, Err(HopError::UnknownTarget));
}

#[test]
fn no_request_means_the_working_directory() {
    let r = resolve(
        &ShortcutStore::new(),
        &HistoryLog::new(),
        &Request::Here,
        "/home/u",
        Intent::Hop,
    );
    assert_eq!(r, place("/home/u", Kind::Dir, Origin::WorkingDir));
}

#[test]
fn a_path_bypasses_the_names() {
    let mut store = ShortcutStore::new();
    store.add(Some("code".to_string()), "/elsewhere".to_string(), Kind::Dir).unwrap();
    let log = HistoryLog::new();
    let r = resolve(
        &store,
        &log,
        &Request::Literal("code".to_string(), Kind::Dir),
        "/home/u",
        Intent::Hop,
    );
    assert_eq!(r, place("/home/u/code", Kind::Dir, Origin::Literal));
    let r = resolve(
        &store,
        &log,
        &Request::Literal("/etc/hosts".to_string(), Kind::File),
        "/home/u",
        Intent::Edit,
    );
    assert_eq!(r, place("/etc/hosts", Kind::File, Origin::Literal));
}

#[test]
fn file_shortcut_hops_to_its_directory_and_opens_itself() {
    let mut store = ShortcutStore::new();
    store.add(Some("notes".to_string()), "/home/u/docs/notes.txt".to_string(), Kind::File).unwrap();
    store.add(Some("docs".to_string()), "/home/u/docs".to_string(), Kind::Dir).unwrap();
    let log = HistoryLog::new();
    let name = Request::Name("notes".to_string());
    assert_eq!(
        resolve(&store, &log, &name, "/", Intent::Hop),
        place("/home/u/docs", Kind::File, Origin::Shortcut)
    );
    assert_eq!(
        resolve(&store, &log, &name, "/", Intent::Edit),
        place("/home/u/docs/notes.txt", Kind::File, Origin::Shortcut)
    );
    let dir = Request::Name("docs".to_string());
    assert_eq!(
        resolve(&store, &log, &dir, "/", Intent::Hop),
        place("/home/u/docs", Kind::Dir, Origin::Shortcut)
    );
    assert_eq!(
        resolve(&store, &log, &dir, "/", Intent::Edit),
        place("/home/u/docs", Kind::Dir, Origin::Shortcut)
    );
}
