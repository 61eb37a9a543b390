use godotty::path::{contains_bytes, same_bytes, FilePath};
use godotty::pathset::{PathMap, PathSet};
use std::path::Path;

fn path(text: &str) -> FilePath {
    FilePath { parts: Path::new(text).components().map(|c| c.as_os_str().to_str().unwrap().as_bytes().to_vec()).collect() }
}

#[test]
fn byte_searches() {
    assert!(contains_bytes(b"libgodotty.so", b"godotty"));
    assert!(!contains_bytes(b"godott", b"godotty"));
    assert!(contains_bytes(b"aab", b"ab"));
    assert!(contains_bytes(b"x", b""));
    assert!(same_bytes(b"ab", b"ab"));
    assert!(!same_bytes(b"ab", b"abc"));
}

#[test]
fn spellings_of_one_path_are_equal() {
    assert!(path("/a/b/c.tscn").same(&path("/a//b/./c.tscn")));
    assert!(path("/a/b/").same(&path("/a/b")));
    assert!(!path("/a/b").same(&path("/a/c")));
    assert!(!path("/a/b").same(&path("a/b")));
    assert!(path("/a/b").duplicate().same(&path("/a/b")));
    assert!(path("/a").join("b").same(&path("/a/b")));
}

#[test]
fn extensions_agree_with_std() {
    for text in ["/p/a.import", "/p/a.b.import", "/p/.import", "/p/a", "/p/a.", "/p/a.importx", "/", "/p/..", "import", "/p.import/a"] {
        let expect = Path::new(text).extension().is_some_and(|e| e == "import");
        assert_eq!(path(text).has_extension("import"), expect, "{text}");
    }
}

#[test]
fn paths_move_between_roots() {
    let from = path("/real/project");
    let to = path("/home/me/project");
    assert!(path("/real/project/a/b.gd").rebased(&from, &to).same(&path("/home/me/project/a/b.gd")));
    assert!(path("/real/project").rebased(&from, &to).same(&to));
    assert!(path("/real/projects/a").rebased(&from, &to).same(&path("/real/projects/a")));
    assert!(path("/other").rebased(&from, &to).same(&path("/other")));
}

#[test]
fn sets_hold_each_path_once() {
    let mut set = PathSet::new();
    assert!(set.is_empty());
    set.insert(path("/a/b"));
    set.insert(path("/c"));
    set.insert(path("/a//b"));
    assert_eq!(set.items.len(), 2);
    assert!(set.contains(&path("/a/b")));
    assert!(!set.contains(&path("/a")));
    assert_eq!(PathSet::from_list(vec![path("/x"), path("/x/"), path("/y")]).items.len(), 2);
}

#[test]
fn maps_look_paths_up() {
    let mut map: PathMap<i32> = PathMap::new();
    map.insert(path("/a"), 1);
    map.insert(path("/b"), 2);
    map.insert(path("/a/"), 3);
    assert_eq!(map.len(), 2);
    assert_eq!(map.get(&path("/a")), Some(&3));
    assert_eq!(map.get(&path("/c")), None);
    map.remove(&path("/a"));
    map.remove(&path("/c"));
    assert_eq!(map.len(), 1);
    map.insert(path("/c"), 5);
    map.insert(path("/d"), 6);
    map.retain(&vec![true, false, true]);
    let kept: Vec<i32> = map.entries.iter().map(|(_, value)| *value).collect();
    assert_eq!(kept, vec![2, 6]);
    assert_eq!((map.get(&path("/b")), map.get(&path("/c")), map.get(&path("/d"))), (Some(&2), None, Some(&6)));
}
