use virtual_fs::error::FsError;
use virtual_fs::fs_types::NegativeLookupCache;
use virtual_fs::path::{file_name, normalize_path, render};

fn segs(v: &[&str]) -> Vec<String> {
    v.iter().map(|s| s.to_string()).collect()
}

#[test]
fn normalizes_paths() {
    assert_eq!(normalize_path("/a/./b/../c//d/", false, false), Ok(segs(&["a", "c", "d"])));
    assert_eq!(normalize_path("../../x", false, false), Ok(segs(&["x"])));
    assert_eq!(normalize_path("", false, false), Err(FsError::InvalidInput));
    assert_eq!(normalize_path("", true, false), Ok(Vec::new()));
    assert_eq!(normalize_path("a\\b", true, true), Ok(segs(&["a", "b"])));
    assert_eq!(normalize_path("a\\b", true, false), Ok(segs(&["a\\b"])));
}

#[test]
fn renders_and_roundtrips() {
    assert_eq!(render(&Vec::new()), "/");
    assert_eq!(render(&segs(&["lib", "python"])), "/lib/python");
    let once = normalize_path("x/../y/./z", false, false).unwrap();
    let rendered = render(&once);
    assert_eq!(normalize_path(&rendered, false, false), Ok(once));
}

#[test]
fn file_names() {
    assert_eq!(file_name("/tmp/a.zip"), Some("a.zip".to_string()));
    assert_eq!(file_name("/tmp/a.zip/"), Some("a.zip".to_string()));
    assert_eq!(file_name("/tmp/a.zip/."), Some("a.zip".to_string()));
    assert_eq!(file_name("/tmp/.."), None);
    assert_eq!(file_name("/"), None);
    assert_eq!(file_name(""), None);
}

#[test]
fn negative_cache_forgets_oldest() {
    let mut cache = NegativeLookupCache::new(2);
    cache.insert(segs(&["a"]));
    cache.insert(segs(&["a"]));
    assert_eq!(cache.len(), 1);
    cache.insert(segs(&["b"]));
    cache.insert(segs(&["c"]));
    assert_eq!(cache.len(), 2);
    assert!(!cache.contains(&segs(&["a"])));
    assert!(cache.contains(&segs(&["b"])));
    assert!(cache.contains(&segs(&["c"])));
}
