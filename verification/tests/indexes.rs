use kvs::index::Index;

fn s(text: &str) -> String {
    text.to_owned()
}

fn pairs(index: &Index) -> Vec<(String, String)> {
    let mut out = Vec::new();
    for i in 0..index.len() {
        let (key, value) = index.entry(i);
        out.push((key.clone(), value.clone()));
    }
    out.sort();
    out
}

#[test]
fn a_new_index_is_empty() {
    let index = Index::new();
    assert_eq!(index.len(), 0);
    assert_eq!(index.get("a"), None);
}

#[test]
fn insert_binds_and_overwrites() {
    let mut index = Index::new();
    index.insert(s("a"), s("1"));
    index.insert(s("b"), s("2"));
    assert_eq!(index.get("a"), Some(&s("1")));
    assert_eq!(index.get("b"), Some(&s("2")));
    assert_eq!(index.len(), 2);
    index.insert(s("a"), s("3"));
    assert_eq!(index.get("a"), Some(&s("3")));
    assert_eq!(index.get("b"), Some(&s("2")));
    assert_eq!(index.len(), 2);
}

#[test]
fn remove_unbinds_and_returns_the_value() {
    let mut index = Index::new();
    index.insert(s("a"), s("1"));
    index.insert(s("b"), s("2"));
    index.insert(s("c"), s("3"));
    assert_eq!(index.remove("a"), Some(s("1")));
    assert_eq!(index.get("a"), None);
    assert_eq!(index.get("b"), Some(&s("2")));
    assert_eq!(index.get("c"), Some(&s("3")));
    assert_eq!(index.len(), 2);
    assert_eq!(index.remove("a"), None);
    assert_eq!(index.len(), 2);
    assert_eq!(index.remove("c"), Some(s("3")));
    assert_eq!(index.remove("b"), Some(s("2")));
    assert_eq!(index.len(), 0);
    assert_eq!(index.get("b"), None);
}

#[test]
fn the_entries_are_the_live_pairs_each_once() {
    let mut index = Index::new();
    for i in 0..20 {
        index.insert(format!("k{}", i), format!("v{}", i));
    }
    for i in 0..20 {
        if i % 3 == 0 {
            assert_eq!(index.remove(&format!("k{}", i)), Some(format!("v{}", i)));
        }
    }
    index.insert(s("k1"), s("again"));
    let mut expected = Vec::new();
    for i in 0..20 {
        if i % 3 != 0 {
            let value = if i == 1 { s("again") } else { format!("v{}", i) };
            expected.push((format!("k{}", i), value));
        }
    }
    expected.sort();
    assert_eq!(pairs(&index), expected);
    assert_eq!(index.len(), expected.len());
    for (key, value) in &expected {
        assert_eq!(index.get(key), Some(value));
    }
}

#[test]
fn a_key_can_come_back_after_its_removal() {
    let mut index = Index::new();
    index.insert(s("a"), s("1"));
    assert_eq!(index.remove("a"), Some(s("1")));
    index.insert(s("a"), s("2"));
    assert_eq!(index.get("a"), Some(&s("2")));
    assert_eq!(pairs(&index), vec![(s("a"), s("2"))]);
}

#[test]
fn the_empty_key_is_a_key() {
    let mut index = Index::new();
    index.insert(s(""), s(""));
    assert_eq!(index.get(""), Some(&s("")));
    assert_eq!(index.len(), 1);
    assert_eq!(index.remove(""), Some(s("")));
    assert_eq!(index.len(), 0);
}
