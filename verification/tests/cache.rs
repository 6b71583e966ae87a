use ptyzzz::cache::RowCache;

fn all(cache: &RowCache) -> String {
    let mut out = String::new();
    cache.push_rows(&mut out);
    out
}

#[test]
fn rows_stand_in_id_order() {
    let mut cache = RowCache::new();
    for id in [3, -1, 7, 0] {
        cache.insert(id, format!("[{id}]"));
    }
    assert_eq!(all(&cache), "[-1][0][3][7]");
    assert_eq!(cache.get(3).map(|s| s.as_str()), Some("[3]"));
    assert_eq!(cache.get(4), None);
}

#[test]
fn a_second_insert_replaces_the_row() {
    let mut cache = RowCache::new();
    cache.insert(1, "a".to_string());
    cache.insert(2, "b".to_string());
    cache.insert(1, "c".to_string());
    assert_eq!(all(&cache), "cb");
}

#[test]
fn old_rows_are_dropped() {
    let mut cache = RowCache::new();
    for id in 0..5 {
        cache.insert(id, id.to_string());
    }
    cache.drop_below(3);
    assert_eq!(all(&cache), "34");
    cache.drop_below(9);
    assert_eq!(all(&cache), "");
    cache.insert(1, "x".to_string());
    cache.clear();
    assert_eq!(all(&cache), "");
}
