use loga::{AttrMap, Level, Log, DEBUG, ERR, INFO, WARN};

fn attr(k: &'static str, v: &'static str) -> impl FnOnce(AttrMap) -> AttrMap {
    move |mut m: AttrMap| {
        m.insert(k, v.to_string());
        m
    }
}

fn own(l: &Log) -> Vec<(String, String)> {
    let a = l.own_attrs();
    (0..a.len()).map(|i| (a.key_at(i).to_string(), a.value_at(i).clone())).collect()
}

const ALL: [Level; 4] = [DEBUG, INFO, WARN, ERR];

#[test]
fn fork_leaves_parent_unchanged() {
    let parent = Log::new().fork(attr("system", "main"));
    let before = own(&parent);
    let mut children = Vec::new();
    for _ in 0..5 {
        children.push(parent.fork(attr("system", "child")));
    }
    children.push(parent.fork_with_log_from(ERR, attr("extra", "1")));
    assert_eq!(own(&parent), before);
    for c in &children {
        assert_eq!(c.parent().unwrap().id(), parent.id());
    }
    assert_eq!(own(&children[0]), vec![("system".to_string(), "child".to_string())]);
}

#[test]
fn fork_keeps_only_its_own_attributes() {
    let root = Log::new().fork(attr("a", "1"));
    let child = root.fork(attr("b", "2"));
    assert_eq!(own(&child), vec![("b".to_string(), "2".to_string())]);
    assert!(Log::new().parent().is_none());
}

#[test]
fn non_rooted_chain_emits_nothing() {
    let l = Log::new();
    let forked = l.fork(attr("a", "1")).fork_with_log_from(DEBUG, attr("b", "2"));
    for level in ALL {
        assert_eq!(l.should_log(level), None);
        assert_eq!(forked.should_log(level), None);
        assert!(l.log(level, "x").is_none());
        assert!(Log::default().log(level, "x").is_none());
    }
}

#[test]
fn rooted_chain_emits_at_and_above_its_level() {
    let l = Log::new_root(WARN);
    assert_eq!(l.should_log(DEBUG), None);
    assert_eq!(l.should_log(INFO), None);
    assert_eq!(l.should_log(WARN), Some(WARN));
    assert_eq!(l.should_log(ERR), Some(ERR));
}

#[test]
fn raising_the_level_never_lowers_it() {
    let l = Log::new_root(WARN);
    let lower = l.fork_with_log_from(DEBUG, attr("a", "1"));
    assert_eq!(lower.should_log(INFO), None);
    assert_eq!(lower.should_log(WARN), Some(WARN));
    let higher = l.fork_with_log_from(ERR, attr("a", "1"));
    assert_eq!(higher.should_log(WARN), None);
    assert_eq!(higher.should_log(ERR), Some(ERR));
    let plain = higher.fork(attr("b", "2"));
    assert_eq!(plain.should_log(WARN), None);
    assert_eq!(plain.should_log(ERR), Some(ERR));
}

#[test]
fn log_below_level_gives_nothing_and_at_level_gives_message() {
    let l = Log::new_root(WARN);
    assert!(l.log(INFO, "x").is_none());
    let t = l.log(WARN, "y").unwrap();
    assert_eq!(t.title, "y");
    assert!(t.children.is_empty());
}

#[test]
fn suppressed_log_does_not_call_configurator() {
    let called = std::cell::Cell::new(false);
    let l = Log::new_root(ERR);
    let r = l.log_with(INFO, "x", |m: AttrMap| {
        called.set(true);
        m
    });
    assert!(r.is_none());
    assert!(!called.get());
    let r = l.log_with(ERR, "x", |mut m: AttrMap| {
        called.set(true);
        m.insert("k", "v".to_string());
        m
    });
    assert!(called.get());
    assert_eq!(loga::compact_text(&r.unwrap()), "x [ k = v ]");
}

#[test]
fn levels_are_ordered_and_labelled() {
    assert!(DEBUG < INFO && INFO < WARN && WARN < ERR);
    assert_eq!(DEBUG.label(), "DEBUG");
    assert_eq!(INFO.label(), "INFO");
    assert_eq!(WARN.label(), "WARN");
    assert_eq!(ERR.label(), "ERROR");
    assert_eq!(INFO.higher(WARN), WARN);
    assert_eq!(ERR.higher(DEBUG), ERR);
    assert!(WARN.at_least(&WARN));
    assert!(!INFO.at_least(&WARN));
}
