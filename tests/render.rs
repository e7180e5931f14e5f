use treeline::{DefaultTreeConfig, GlyphConfig, Tree};

fn simple() -> GlyphConfig {
    GlyphConfig {
        space: String::from(" "),
        line: String::from("-"),
        last: String::from("+"),
        join: String::from("+"),
        bar: String::from("|"),
        depth: 1,
    }
}

fn emoji() -> GlyphConfig {
    GlyphConfig {
        space: String::from(" "),
        line: String::from("\u{27fc}"),
        last: String::from("\u{1f494}"),
        join: String::from("\u{1f496}"),
        bar: String::from("\u{1f1ee}\u{1f1ea}|"),
        depth: 1,
    }
}

#[test]
fn render_tree_root() {
    let tree = Tree::root("foo");
    assert_eq!(tree.to_string(), "foo\n")
}

#[test]
fn render_tree_with_leaves() {
    let tree = Tree::new(
        "foo",
        vec![Tree::new("bar", vec![Tree::root("baz")])],
    );
    assert_eq!(
        tree.to_string(),
        r#"foo
└── bar
    └── baz
"#
    )
}

#[test]
fn leaf_renders_label_under_any_config() {
    let tree = Tree::root("solo");
    assert_eq!(tree.render(&DefaultTreeConfig), "solo\n");
    assert_eq!(tree.render(&simple()), "solo\n");
    assert_eq!(tree.render(&emoji()), "solo\n");
}

#[test]
fn empty_label_leaf() {
    let tree = Tree::root("");
    assert_eq!(tree.to_string(), "\n");
}

#[test]
fn rendering_is_repeatable() {
    let tree = Tree::new("r", vec![Tree::new("a", vec![Tree::root("x")]), Tree::root("b")]);
    let cfg = simple();
    assert_eq!(tree.render(&cfg), tree.render(&cfg));
    assert_eq!(tree.to_string(), tree.to_string());
}

#[test]
fn two_children_join_then_last() {
    let tree = Tree::new("foo", vec![Tree::root("a"), Tree::root("b")]);
    assert_eq!(tree.to_string(), "foo\n├── a\n└── b\n");
}

#[test]
fn closed_column_is_blank_below_last_child() {
    let tree = Tree::new(
        "foo",
        vec![Tree::root("a"), Tree::new("b", vec![Tree::root("c")])],
    );
    assert_eq!(tree.to_string(), "foo\n├── a\n└── b\n    └── c\n");
}

#[test]
fn bar_continues_under_open_branches() {
    let tree = Tree::new(
        "n",
        vec![
            Tree::new("a", vec![Tree::root("a1")]),
            Tree::new("b", vec![Tree::root("b1")]),
            Tree::new("c", vec![Tree::root("c1")]),
        ],
    );
    assert_eq!(
        tree.to_string(),
        "n\n├── a\n│   └── a1\n├── b\n│   └── b1\n└── c\n    └── c1\n"
    );
}

#[test]
fn indentation_grows_with_nesting() {
    let tree = Tree::new(
        "0",
        vec![Tree::new("1", vec![Tree::new("2", vec![Tree::root("3")]), Tree::root("2b")])],
    );
    assert_eq!(
        tree.to_string(),
        "0\n└── 1\n    ├── 2\n    │   └── 3\n    └── 2b\n"
    );
}

#[test]
fn open_and_closed_columns_mix() {
    let tree = Tree::new(
        "r",
        vec![
            Tree::new("a", vec![Tree::new("b", vec![Tree::root("c")])]),
            Tree::root("d"),
        ],
    );
    assert_eq!(
        tree.render(&simple()),
        "r\n+- a\n|  +- b\n|     +- c\n+- d\n"
    );
}

#[test]
fn two_configs_same_lines_and_labels() {
    let tree = Tree::new(
        "foo",
        vec![Tree::new("a", vec![Tree::root("x")]), Tree::root("b")],
    );
    let fancy = tree.to_string();
    let plain = tree.render(&simple());
    assert_eq!(fancy, "foo\n├── a\n│   └── x\n└── b\n");
    assert_eq!(plain, "foo\n+- a\n|  +- x\n+- b\n");
    assert_ne!(fancy, plain);
    assert_eq!(fancy.lines().count(), plain.lines().count());
    let labels = |s: &str| -> Vec<String> {
        s.lines().map(|l| l.rsplit(' ').next().unwrap().to_string()).collect()
    };
    assert_eq!(labels(&fancy), labels(&plain));
}

#[test]
fn emoji_glyphs() {
    let tree = Tree::new("r", vec![Tree::new("a", vec![Tree::root("b")]), Tree::root("c")]);
    assert_eq!(
        tree.render(&emoji()),
        "r\n\u{1f496}\u{27fc} a\n\u{1f1ee}\u{1f1ea}|  \u{1f494}\u{27fc} b\n\u{1f494}\u{27fc} c\n"
    );
}

#[test]
fn zero_depth_config() {
    let mut cfg = simple();
    cfg.depth = 0;
    let tree = Tree::new("r", vec![Tree::new("a", vec![Tree::root("b")]), Tree::root("c")]);
    assert_eq!(tree.render(&cfg), "r\n+ a\n| + b\n+ c\n");
}

#[test]
fn push_appends_in_order() {
    let mut tree = Tree::root(String::from("top"));
    tree.push(Tree::root(String::from("one")))
        .push(Tree::root(String::from("two")));
    let mut sub = Tree::root(String::from("three"));
    sub.push(Tree::root(String::from("deep")));
    tree.push(sub);
    assert_eq!(tree.children.len(), 3);
    assert_eq!(
        tree.to_string(),
        "top\n├── one\n├── two\n└── three\n    └── deep\n"
    );
}

#[test]
fn write_appends_to_existing_text() {
    let tree = Tree::new("a", vec![Tree::root("b")]);
    let mut out = String::from(">>");
    tree.write(&mut out, &DefaultTreeConfig);
    assert_eq!(out, ">>a\n└── b\n");
}
