use loga::{err, err_with, layout, AttrMap, Line, LineKind};

fn attr(k: &'static str, v: &'static str) -> impl FnOnce(AttrMap) -> AttrMap {
    move |mut m: AttrMap| {
        m.insert(k, v.to_string());
        m
    }
}

fn texts(ls: &[Line]) -> Vec<String> {
    ls.iter().map(|l| l.text.clone()).collect()
}

#[test]
fn layout_indents_each_level_by_two_spaces() {
    let e = err("disk full").context("upload failed").context("batch failed");
    let t = e.build_render_nodes(&Vec::new());
    let ls = layout(&t, 80);
    assert_eq!(texts(&ls), vec!["Caused by:", "  upload failed", "    Caused by:", "      disk full"]);
    assert!(ls.iter().all(|l| l.kind == LineKind::Title));
}

#[test]
fn layout_writes_attributes_with_a_label() {
    let e = err_with("failed", attr("key", "value"));
    let t = e.build_render_nodes(&Vec::new());
    let ls = layout(&t, 80);
    assert_eq!(texts(&ls), vec!["- key = value"]);
    assert_eq!(ls[0].kind, LineKind::Attr);
}

#[test]
fn long_values_wrap_under_the_value() {
    let e = err_with("failed", attr("k", "aaa bbb ccc ddd")).context("outer");
    let t = e.build_render_nodes(&Vec::new());
    let ls = layout(&t, 16);
    assert_eq!(texts(&ls), vec!["Caused by:", "  failed", "    - k = aaa", "          bbb", "          ccc", "          ddd"]);
}

#[test]
fn long_titles_wrap_at_the_same_indent() {
    let e = err("one two three four").context("top");
    let t = e.build_render_nodes(&Vec::new());
    let ls = layout(&t, 10);
    assert_eq!(texts(&ls), vec!["Caused by:", "  one two", "  three", "  four"]);
}

#[test]
fn wide_characters_count_by_display_width() {
    let e = err_with("failed", attr("\u{30ad}", "a b"));
    let t = e.build_render_nodes(&Vec::new());
    let ls = layout(&t, 9);
    assert_eq!(texts(&ls), vec!["- \u{30ad} = a", "       b"]);
}
