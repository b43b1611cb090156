use bunnyhop::args::Rabbit;
use bunnyhop::error::HopError;
use bunnyhop::shortcut::{Kind, Shortcut, ShortcutStore};

fn sc(name: &str, target: &str, kind: Kind) -> Shortcut {
    Shortcut { name: name.to_string(), target: target.to_string(), kind }
}

#[test]
fn new_store_is_empty() {
    let store = ShortcutStore::new();
    assert_eq!(store.len(), 0);
    assert_eq!(store.list(), Vec::<Shortcut>::new());
    assert_eq!(store.lookup("code"), None);
}

#[test]
fn add_without_name_takes_the_final_segment() {
    let mut store = ShortcutStore::new();
    let made = store.add(None, "/home/u/code".to_string(), Kind::Dir);
    assert_eq!(made, Ok(sc("code", "/home/u/code", Kind::Dir)));
    assert_eq!(store.list(), vec![sc("code", "/home/u/code", Kind::Dir)]);
    let made = store.add(None, "/home/u/docs/".to_string(), Kind::Dir);
    assert_eq!(made, Ok(sc("docs", "/home/u/docs/", Kind::Dir)));
}

#[test]
fn add_of_the_root_without_name_fails() {
    let mut store = ShortcutStore::new();
    store.add(Some("keep".to_string()), "/k".to_string(), Kind::Dir).unwrap();
    assert_eq!(store.add(None, "/".to_string(), Kind::Dir), Err(HopError::Name));
    assert_eq!(store.add(None, "".to_string(), Kind::Dir), Err(HopError::Name));
    assert_eq!(store.add(None, "/a/..".to_string(), Kind::Dir), Err(HopError::Name));
    assert_eq!(store.list(), vec![sc("keep", "/k", Kind::Dir)]);
    assert_eq!(
        store.add(Some("root".to_string()), "/".to_string(), Kind::Dir),
        Ok(sc("root", "/", Kind::Dir))
    );
}

#[test]
fn second_add_under_a_name_wins() {
    let mut store = ShortcutStore::new();
    store.add(Some("a".to_string()), "/first".to_string(), Kind::Dir).unwrap();
    store.add(Some("b".to_string()), "/other".to_string(), Kind::Dir).unwrap();
    store.add(Some("a".to_string()), "/second.txt".to_string(), Kind::File).unwrap();
    assert_eq!(store.lookup("a"), Some(sc("a", "/second.txt", Kind::File)));
    assert_eq!(store.len(), 2);
    assert_eq!(
        store.list(),
        vec![sc("a", "/second.txt", Kind::File), sc("b", "/other", Kind::Dir)]
    );
}

#[test]
fn lookup_matches_whole_names_only() {
    let mut store = ShortcutStore::new();
    store.add(Some("proj".to_string()), "/a/proj".to_string(), Kind::Dir).unwrap();
    assert_eq!(store.lookup("proj"), Some(sc("proj", "/a/proj", Kind::Dir)));
    assert_eq!(store.lookup("pro"), None);
    assert_eq!(store.lookup("Proj"), None);
    assert_eq!(store.lookup("proj "), None);
    assert_eq!(store.lookup(""), None);
}

#[test]
fn list_keeps_the_order_of_arrival() {
    let mut store = ShortcutStore::new();
    for name in ["z", "a", "m"] {
        store.add(Some(name.to_string()), format!("/{}", name), Kind::Dir).unwrap();
    }
    let names: Vec<String> = store.list().into_iter().map(|e| e.name).collect();
    assert_eq!(names, vec!["z", "a", "m"]);
    assert_eq!(store.entries(), &store.list());
}

#[test]
fn remove_by_name_then_lookup_is_absent() {
    let mut store = ShortcutStore::new();
    store.add(Some("a".to_string()), "/a".to_string(), Kind::Dir).unwrap();
    store.add(Some("b".to_string()), "/b".to_string(), Kind::Dir).unwrap();
    assert_eq!(store.remove(&Rabbit::RequestName("a".to_string()), "/home/u"), Ok(()));
    assert_eq!(store.lookup("a"), None);
    assert_eq!(store.list(), vec![sc("b", "/b", Kind::Dir)]);
}

#[test]
fn remove_of_something_unknown_fails_and_changes_nothing() {
    let mut store = ShortcutStore::new();
    store.add(Some("a".to_string()), "/a".to_string(), Kind::Dir).unwrap();
    assert_eq!(
        store.remove(&Rabbit::RequestName("zz".to_string()), "/home/u"),
        Err(HopError::NotFound)
    );
    assert_eq!(
        store.remove(&Rabbit::RequestPath("/nowhere".to_string()), "/home/u"),
        Err(HopError::NotFound)
    );
    assert_eq!(store.list(), vec![sc("a", "/a", Kind::Dir)]);
    let mut empty = ShortcutStore::new();
    assert_eq!(empty.remove(&Rabbit::RequestName("a".to_string()), "/"), Err(HopError::NotFound));
}

#[test]
fn remove_by_path_uses_the_absolute_form() {
    let mut store = ShortcutStore::new();
    store.add(Some("one".to_string()), "/home/u/code".to_string(), Kind::Dir).unwrap();
    store.add(Some("two".to_string()), "/home/u/docs".to_string(), Kind::Dir).unwrap();
    store.add(Some("three".to_string()), "/home/u/code".to_string(), Kind::Dir).unwrap();
    assert_eq!(store.remove(&Rabbit::RequestPath("code".to_string()), "/home/u"), Ok(()));
    assert_eq!(store.list(), vec![sc("two", "/home/u/docs", Kind::Dir)]);
    assert_eq!(store.remove(&Rabbit::RequestPath("/home/u/docs".to_string()), "/tmp"), Ok(()));
    assert_eq!(store.len(), 0);
}

#[test]
fn remove_of_a_located_place_goes_by_its_name() {
    let mut store = ShortcutStore::new();
    store.add(Some("one".to_string()), "/x".to_string(), Kind::Dir).unwrap();
    store.add(Some("two".to_string()), "/y".to_string(), Kind::File).unwrap();
    assert_eq!(store.remove(&Rabbit::Dir("one".to_string(), "/y".to_string()), "/"), Ok(()));
    assert_eq!(store.list(), vec![sc("two", "/y", Kind::File)]);
    assert_eq!(store.remove(&Rabbit::File("two".to_string(), "/zz".to_string()), "/"), Ok(()));
    assert_eq!(store.len(), 0);
}

#[test]
fn restore_wants_distinct_names() {
    let ok = ShortcutStore::restore(vec![sc("a", "/a", Kind::Dir), sc("b", "/a", Kind::Dir)]);
    assert_eq!(ok.unwrap().list(), vec![sc("a", "/a", Kind::Dir), sc("b", "/a", Kind::Dir)]);
    let twice = ShortcutStore::restore(vec![
        sc("a", "/a", Kind::Dir),
        sc("b", "/b", Kind::Dir),
        sc("a", "/c", Kind::Dir),
    ]);
    assert!(twice.is_none());
    assert!(ShortcutStore::restore(Vec::new()).is_some());
}

#[test]
fn shortcut_clone_is_equal() {
    let e = sc("a", "/a", Kind::File);
    assert_eq!(e.clone(), e);
}
