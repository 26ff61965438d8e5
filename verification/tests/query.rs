//! Finding the database of a file, and the map that it is found in.

use context_engine::query::find_db_for_file;
use context_engine::strmap::StrMap;

fn handles(repos: &[&str]) -> StrMap<usize> {
    let mut map = StrMap::new();
    for (i, repo) in repos.iter().enumerate() {
        map.insert(repo, i);
    }
    map
}

#[test]
fn the_repo_of_a_file_is_found_by_its_prefix() {
    let map = handles(&["/a", "/b", "/b/c"]);
    assert_eq!(find_db_for_file(&map, "/b/x.rs"), Some(&1));
    assert_eq!(find_db_for_file(&map, "/a"), Some(&0));
    assert_eq!(find_db_for_file(&map, "/b/c/x.rs"), Some(&1));
}

#[test]
fn the_first_handle_is_the_fallback() {
    let map = handles(&["/a", "/b"]);
    assert_eq!(find_db_for_file(&map, "/z/x.rs"), Some(&0));
    assert_eq!(find_db_for_file(&map, ""), Some(&0));
    assert_eq!(find_db_for_file(&handles(&[]), "/a"), None);
}

#[test]
fn a_map_keeps_its_entries() {
    let mut map = handles(&["x", "y", "z"]);
    map.insert("y", 9);
    assert_eq!(map.len(), 3);
    assert_eq!(map.get("y"), Some(&9));
    assert_eq!(map.remove("x"), Some(0));
    assert_eq!(map.remove("x"), None);
    assert_eq!(map.get("x"), None);
    assert_eq!((map.key_at(0).as_str(), map.value_at(0)), ("z", &2));
    assert_eq!((map.key_at(1).as_str(), map.value_at(1)), ("y", &9));
    if let Some(v) = map.get_mut("z") {
        *v = 5;
    }
    assert_eq!(map.get("z"), Some(&5));
}
