use loga::AttrMap;

fn pairs(m: &AttrMap) -> Vec<(String, String)> {
    let mut out = Vec::new();
    for i in 0..m.len() {
        out.push((m.key_at(i).to_string(), m.value_at(i).clone()));
    }
    out
}

fn owned(v: &[(&str, &str)]) -> Vec<(String, String)> {
    v.iter().map(|(k, v)| (k.to_string(), v.to_string())).collect()
}

#[test]
fn new_map_is_empty() {
    let m = AttrMap::new();
    assert_eq!(m.len(), 0);
}

#[test]
fn insert_keeps_first_position_and_last_value() {
    let mut m = AttrMap::new();
    m.insert("a", "1".to_string());
    m.insert("b", "2".to_string());
    m.insert("a", "3".to_string());
    assert_eq!(pairs(&m), owned(&[("a", "3"), ("b", "2")]));
}

#[test]
fn configurators_applied_in_turn_let_the_second_win() {
    let c1 = |mut m: AttrMap| {
        m.insert("a", "1".to_string());
        m.insert("b", "2".to_string());
        m
    };
    let c2 = |mut m: AttrMap| {
        m.insert("b", "3".to_string());
        m.insert("c", "4".to_string());
        m
    };
    let m = AttrMap::configured(c1).extend_with(c2);
    assert_eq!(pairs(&m), owned(&[("a", "1"), ("b", "3"), ("c", "4")]));
}

#[test]
fn configurators_in_the_other_order_let_the_first_win() {
    let c1 = |mut m: AttrMap| {
        m.insert("b", "2".to_string());
        m
    };
    let c2 = |mut m: AttrMap| {
        m.insert("b", "3".to_string());
        m
    };
    let m = AttrMap::configured(c2).extend_with(c1);
    assert_eq!(pairs(&m), owned(&[("b", "2")]));
}

#[test]
fn keys_compare_by_text() {
    assert!(loga::attrs::str_eq("key", "key"));
    assert!(!loga::attrs::str_eq("key", "kez"));
    assert!(!loga::attrs::str_eq("key", "keys"));
    assert!(loga::attrs::str_eq("", ""));
}
