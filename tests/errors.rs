use loga::{
    agg_err, agg_err_with, err, err_with, fatal_tree, AttrMap, ErrContext, Error, Log, RenderBranch, RenderNode,
    ResultContext, ERR, INFO,
};

fn attr(k: &'static str, v: &'static str) -> impl FnOnce(AttrMap) -> AttrMap {
    move |mut m: AttrMap| {
        m.insert(k, v.to_string());
        m
    }
}

fn tree(e: &Error) -> RenderBranch {
    e.build_render_nodes(&Vec::new())
}

fn branch(n: &RenderNode) -> &RenderBranch {
    match n {
        RenderNode::Branch(b) => b,
        RenderNode::KVLeaf { .. } => panic!("expected a branch"),
    }
}

fn count_key(b: &RenderBranch, key: &str) -> usize {
    let mut n = 0;
    for c in &b.children {
        match c {
            RenderNode::KVLeaf { key: k, .. } => {
                if *k == key {
                    n += 1;
                }
            },
            RenderNode::Branch(inner) => n += count_key(inner, key),
        }
    }
    n
}

#[test]
fn wrapped_twice_renders_three_nested_titles() {
    let e = err("disk full").context("upload failed").context("batch failed");
    let t = tree(&e);
    assert_eq!(t.title, "batch failed");
    assert_eq!(t.children.len(), 1);
    let c1 = branch(&t.children[0]);
    assert_eq!(c1.title, "Caused by:");
    let u = branch(&c1.children[0]);
    assert_eq!(u.title, "upload failed");
    let c2 = branch(&u.children[0]);
    assert_eq!(c2.title, "Caused by:");
    let d = branch(&c2.children[0]);
    assert_eq!(d.title, "disk full");
    assert!(d.children.is_empty());
    assert_eq!(e.to_string(), "batch failed [ Caused by: [ upload failed [ Caused by: [ disk full [ ] ] ] ] ]");
}

#[test]
fn aggregate_renders_one_branch_with_children_in_order() {
    let e = agg_err("batch failed", vec![err("item 1 failed"), err("item 2 failed")]);
    let t = tree(&e);
    assert_eq!(t.title, "batch failed");
    assert_eq!(t.children.len(), 1);
    let c = branch(&t.children[0]);
    assert_eq!(c.title, "Caused by:");
    assert_eq!(c.children.len(), 2);
    assert_eq!(branch(&c.children[0]).title, "item 1 failed");
    assert_eq!(branch(&c.children[1]).title, "item 2 failed");
}

#[test]
fn empty_aggregate_has_no_cause_branch() {
    let e = agg_err("nothing", vec![]);
    let t = tree(&e);
    assert!(t.children.is_empty());
    assert_eq!(e.to_string(), "nothing [ ]");
}

#[test]
fn shared_frame_attributes_are_shown_once() {
    let root = Log::new().fork(attr("system", "main"));
    let a = root.fork(attr("item", "1"));
    let b = root.fork(attr("item", "2"));
    let e = root.agg_err("batch failed", vec![a.err("a failed"), b.err("b failed")]);
    let t = tree(&e);
    assert_eq!(count_key(&t, "system"), 1);
    assert_eq!(count_key(&t, "item"), 2);
    assert_eq!(
        e.to_string(),
        "batch failed [ system = main, Caused by: [ a failed [ item = 1 ], b failed [ item = 2 ] ] ]"
    );
}

#[test]
fn same_key_in_unrelated_frames_is_shown_by_each() {
    let a = Log::new().fork(attr("k", "1"));
    let b = Log::new().fork(attr("k", "1"));
    let e = a.err("outer").also(b.err("inner"));
    assert_eq!(count_key(&tree(&e), "k"), 2);
}

#[test]
fn own_attributes_hide_context_attributes_of_the_same_key() {
    let l = Log::new().fork(attr("k", "ctx")).fork(attr("j", "ctx"));
    let e = l.err_with("failed", attr("k", "own"));
    assert_eq!(e.to_string(), "failed [ k = own, j = ctx ]");
}

#[test]
fn nearer_frame_wins_for_a_key() {
    let l = Log::new().fork(attr("k", "far")).fork(attr("k", "near"));
    assert_eq!(l.err("failed").to_string(), "failed [ k = near ]");
}

#[test]
fn also_keeps_message_and_causes_and_appends_incidental() {
    let primary = err_with("primary", attr("a", "1")).context("wrapped");
    let before = primary.to_string();
    let e = primary.also(err("cleanup failed")).also(err("second"));
    assert_eq!(
        e.to_string(),
        "wrapped [ Caused by: [ primary [ a = 1 ] ], Incidentally: [ cleanup failed [ ], second [ ] ] ]"
    );
    assert!(before.starts_with("wrapped [ Caused by: [ primary [ a = 1 ] ]"));
}

#[test]
fn stack_context_attaches_the_chain() {
    let l = Log::new().fork(attr("user", "u1"));
    let e = err("io").stack_context(&l, "load failed");
    assert_eq!(e.to_string(), "load failed [ user = u1, Caused by: [ io [ ] ] ]");
    let e = err("io").stack_context_with(&l, "load failed", attr("file", "a.txt"));
    assert_eq!(e.to_string(), "load failed [ file = a.txt, user = u1, Caused by: [ io [ ] ] ]");
}

#[test]
fn context_below_a_shared_chain_is_not_repeated() {
    let l = Log::new().fork(attr("user", "u1"));
    let e = l.err("inner").stack_context(&l, "outer");
    assert_eq!(e.to_string(), "outer [ user = u1, Caused by: [ inner [ ] ] ]");
}

#[test]
fn constructors_set_parts() {
    assert_eq!(err_with("m", attr("x", "1")).to_string(), "m [ x = 1 ]");
    assert_eq!(
        agg_err_with("m", vec![err("a")], attr("x", "1")).to_string(),
        "m [ x = 1, Caused by: [ a [ ] ] ]"
    );
    let l = Log::new().fork(attr("c", "2"));
    assert_eq!(l.err_with("m", attr("x", "1")).to_string(), "m [ x = 1, c = 2 ]");
    assert_eq!(l.agg_err("m", vec![err("a")]).to_string(), "m [ c = 2, Caused by: [ a [ ] ] ]");
    assert_eq!(
        l.agg_err_with("m", vec![err("a")], attr("x", "1")).to_string(),
        "m [ x = 1, c = 2, Caused by: [ a [ ] ] ]"
    );
    assert_eq!(err("a").context_with("m", attr("x", "1")).to_string(), "m [ x = 1, Caused by: [ a [ ] ] ]");
    assert_eq!(Error::from(42).to_string(), "42 [ ]");
}

#[test]
fn log_err_attaches_the_logging_chain() {
    let l = Log::new_root(INFO).fork(attr("logger", "log2"));
    let t = l.log_err(ERR, err("boom")).unwrap();
    assert_eq!(loga::compact_text(&t), "boom [ logger = log2 ]");
    let quiet = Log::new().fork(attr("logger", "none"));
    assert!(quiet.log_err(ERR, err("boom")).is_none());
}

#[test]
fn fatal_tree_prefixes_the_title() {
    let t = fatal_tree(&err("boom").context("outer"));
    assert_eq!(t.title, "Exiting due to error: outer");
    assert_eq!(branch(&t.children[0]).title, "Caused by:");
}

#[test]
fn standard_errors_take_context() {
    let io = std::io::Error::new(std::io::ErrorKind::Other, "disk");
    assert_eq!(io.context("read failed").to_string(), "read failed [ Caused by: [ disk [ ] ] ]");
    let io = std::io::Error::new(std::io::ErrorKind::Other, "disk");
    let l = Log::new().fork(attr("f", "x"));
    assert_eq!(
        io.stack_context_with(&l, "read failed", attr("n", "1")).to_string(),
        "read failed [ n = 1, f = x, Caused by: [ disk [ ] ] ]"
    );
}

#[test]
fn result_also_combines_outcomes() {
    let ok: Result<i32, Error> = Ok(1);
    let fine: Result<(), Error> = Ok(());
    assert_eq!(ok.also(fine).unwrap(), 1);
    let ok: Result<i32, Error> = Ok(1);
    let bad: Result<(), Error> = Err(err("cleanup"));
    assert_eq!(ok.also(bad).unwrap_err().to_string(), "cleanup [ ]");
    let failed: Result<i32, Error> = Err(err("main"));
    let fine: Result<(), Error> = Ok(());
    assert_eq!(failed.also(fine).unwrap_err().to_string(), "main [ ]");
    let failed: Result<i32, Error> = Err(err("main"));
    let bad: Result<(), Error> = Err(err("cleanup"));
    assert_eq!(failed.also(bad).unwrap_err().to_string(), "main [ Incidentally: [ cleanup [ ] ] ]");
}

#[test]
fn option_also_and_context() {
    let none: Option<i32> = None;
    let bad: Result<(), Error> = Err(err("cleanup"));
    assert_eq!(none.also(bad).unwrap_err().to_string(), "No value [ Incidentally: [ cleanup [ ] ] ]");
    let none: Option<i32> = None;
    let fine: Result<(), Error> = Ok(());
    assert_eq!(none.also(fine).unwrap_err().to_string(), "No value [ ]");
    assert_eq!(Some(3).context("missing").unwrap(), 3);
    let none: Option<i32> = None;
    assert_eq!(none.context("missing").unwrap_err().to_string(), "missing [ ]");
    let none: Option<i32> = None;
    let l = Log::new().fork(attr("k", "v"));
    assert_eq!(none.stack_context(&l, "missing").unwrap_err().to_string(), "missing [ k = v ]");
}

#[test]
fn result_context_wraps_only_failures() {
    let ok: Result<i32, Error> = Ok(5);
    assert_eq!(ok.context("x").unwrap(), 5);
    let bad: Result<i32, Error> = Err(err("inner"));
    assert_eq!(bad.context_with("outer", attr("a", "1")).unwrap_err().to_string(), "outer [ a = 1, Caused by: [ inner [ ] ] ]");
}

#[test]
fn result_log_logs_only_failures_that_pass_the_gate() {
    let l = Log::new_root(INFO);
    let ok: Result<i32, Error> = Ok(5);
    assert!(ResultContext::log(ok, &l, ERR, "x").is_none());
    let bad: Result<i32, Error> = Err(err("inner"));
    let t = ResultContext::log(bad, &l, ERR, "outer").unwrap();
    assert_eq!(loga::compact_text(&t), "outer [ Caused by: [ inner [ ] ] ]");
    let none: Option<i32> = None;
    let t = ResultContext::log(none, &l, ERR, "outer").unwrap();
    assert_eq!(loga::compact_text(&t), "outer [ Caused by: [ No value [ ] ] ]");
    let quiet = Log::new();
    let bad: Result<i32, Error> = Err(err("inner"));
    assert!(ResultContext::log(bad, &quiet, ERR, "outer").is_none());
}
