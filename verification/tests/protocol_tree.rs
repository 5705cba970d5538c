use vibesurfer::attrs::Attrs;
use vibesurfer::codes::{Op, Role};
use vibesurfer::delta::apply::{apply, find, take_subtree};
use vibesurfer::delta::diff::diff;
use vibesurfer::delta::{encode, parse, DeltaOp};
use vibesurfer::error::ParseError;
use vibesurfer::tree::{Node, OpSet, Ref, Tree};

fn sample_tree() -> Tree {
    let mut p = Node::leaf(Ref(3), Role::P, "This domain is for examples.");
    p.attrs.insert("lang".into(), "en".into());

    let mut lnk = Node::leaf(Ref(4), Role::Lnk, "More information");
    lnk.ops.insert(Op::Click);
    lnk.attrs.insert("href".into(), "https://www.iana.org/".into());

    let mut hd = Node::leaf(Ref(2), Role::Hd, "Example Domain");
    hd.attrs.insert("level".into(), "1".into());

    let doc = Node {
        r: Ref(1),
        role: Role::Doc,
        label: "Example Domain".into(),
        ops: OpSet::new(),
        attrs: Attrs::new(),
        children: vec![hd, p, lnk],
    };
    Tree::from_root(doc)
}

#[test]
fn encode_sample_matches_spec_shape() {
    let encoded = sample_tree().encode();
    let expected = "\
1 doc \"Example Domain\"
  2 hd \"Example Domain\" level=1
  3 p \"This domain is for examples.\" lang=en
  4 lnk \"More information\" click href=https://www.iana.org/
";
    assert_eq!(encoded, expected);
}

#[test]
fn round_trip_sample() {
    let t = sample_tree();
    let s = t.encode();
    let parsed = Tree::parse(&s).expect("parses");
    assert_eq!(parsed, t);
}

#[test]
fn empty_tree_round_trips() {
    let empty = Tree::new();
    assert_eq!(empty.encode(), "");
    assert_eq!(Tree::parse("").unwrap(), empty);
}

#[test]
fn parse_handles_blank_lines() {
    let s = "\n1 doc empty\n\n";
    let parsed = Tree::parse(s).unwrap();
    assert_eq!(parsed.roots.len(), 1);
    assert_eq!(parsed.roots[0].label, "empty");
}

#[test]
fn parse_rejects_unknown_role() {
    let err = Tree::parse("1 zzz foo").unwrap_err();
    assert!(matches!(err, ParseError::UnknownCode(_)));
}

#[test]
fn parse_rejects_bad_ref() {
    let err = Tree::parse("xx doc foo").unwrap_err();
    assert!(matches!(err, ParseError::InvalidRef { .. }));
}

#[test]
fn parse_nests_deeper_indent_under_previous_line() {
    let t = Tree::parse("1 doc a\n    2 p b\n3 p c\n").unwrap();
    assert_eq!(t.roots.len(), 2);
    assert_eq!(t.roots[0].children.len(), 1);
    assert_eq!(t.roots[0].children[0].r, Ref(2));
}

#[test]
fn ops_cluster_round_trips() {
    let mut node = Node::leaf(Ref(1), Role::Btn, "Submit");
    node.ops.insert(Op::Click);
    node.ops.insert(Op::Focus);
    node.ops.insert(Op::Hover);
    let tree = Tree::from_root(node);
    let s = tree.encode();
    assert!(s.contains("click,hover,focus"));
    let back = Tree::parse(&s).unwrap();
    assert_eq!(back, tree);
}

#[test]
fn attribute_with_whitespace_quoted() {
    let mut node = Node::leaf(Ref(1), Role::Tf, "");
    node.attrs.insert("placeholder".into(), "Your name here".into());
    let s = Tree::from_root(node.clone()).encode();
    assert!(s.contains("placeholder=\"Your name here\""));
    let back = Tree::parse(&s).unwrap();
    assert_eq!(back, Tree::from_root(node));
}

#[test]
fn iter_pre_order() {
    let t = sample_tree();
    let mut it = t.iter();
    let mut refs: Vec<u32> = Vec::new();
    while let Some(n) = it.next() {
        refs.push(n.r.0);
    }
    assert_eq!(refs, vec![1, 2, 3, 4]);
}

#[test]
fn ref_root_is_zero() {
    assert!(Ref::root().is_root());
    assert!(!Ref(1).is_root());
    assert_eq!(Ref(17).to_string(), "17");
}

#[test]
fn add_round_trip() {
    let mut attrs = Attrs::new();
    attrs.insert("href".into(), "https://example.com".into());
    let op = DeltaOp::Add {
        r: Ref(7),
        parent: Ref(1),
        pos: Some(2),
        role: Role::Lnk,
        label: "Click here".into(),
        ops: OpSet::from_ops(&[Op::Click]),
        attrs,
    };
    let s = encode(std::slice::from_ref(&op));
    assert_eq!(s, "+7@1:2 lnk \"Click here\" click href=https://example.com\n");
    let parsed = parse(&s).unwrap();
    assert_eq!(parsed, vec![op]);
}

#[test]
fn remove_round_trip() {
    let s = encode(&[DeltaOp::Remove { r: Ref(42) }]);
    assert_eq!(s, "-42\n");
    let parsed = parse(&s).unwrap();
    assert_eq!(parsed, vec![DeltaOp::Remove { r: Ref(42) }]);
}

#[test]
fn update_round_trip() {
    let mut attrs = Attrs::new();
    attrs.insert("aria-pressed".into(), "true".into());
    let op = DeltaOp::Update { r: Ref(3), attrs };
    let s = encode(std::slice::from_ref(&op));
    assert_eq!(s, "~3 aria-pressed=true\n");
    assert_eq!(parse(&s).unwrap(), vec![op]);
}

#[test]
fn move_round_trip() {
    let op = DeltaOp::Move { r: Ref(5), parent: Ref(2), pos: Some(0) };
    let s = encode(std::slice::from_ref(&op));
    assert_eq!(s, ">5@2:0\n");
    assert_eq!(parse(&s).unwrap(), vec![op]);
}

#[test]
fn replace_round_trip() {
    let new_node = Node::leaf(Ref(1), Role::Doc, "Replaced");
    let op = DeltaOp::Replace { r: Ref(1), subtree: vec![new_node] };
    let s = encode(std::slice::from_ref(&op));
    let parsed = parse(&s).unwrap();
    assert_eq!(parsed, vec![op]);
}

#[test]
fn apply_add_to_root() {
    let a = Tree::new();
    let ops = vec![DeltaOp::Add {
        r: Ref(1),
        parent: Ref::root(),
        pos: None,
        role: Role::Doc,
        label: "Hello".into(),
        ops: OpSet::new(),
        attrs: Attrs::new(),
    }];
    let tree = apply(&a, &ops).unwrap();
    assert_eq!(tree.roots.len(), 1);
    assert_eq!(tree.roots[0].label, "Hello");
}

#[test]
fn apply_diff_round_trip_simple() {
    let a = Tree::from_root(Node::leaf(Ref(1), Role::Doc, "A"));
    let b = Tree::from_root(Node::leaf(Ref(1), Role::Doc, "B"));
    let ops = diff(&a, &b);
    let result = apply(&a, &ops).unwrap();
    assert_eq!(result, b);
}

#[test]
fn apply_diff_attr_change() {
    let mut a_root = Node::leaf(Ref(1), Role::Doc, "X");
    a_root.attrs.insert("k".into(), "1".into());
    let a = Tree::from_root(a_root);
    let mut b_root = Node::leaf(Ref(1), Role::Doc, "X");
    b_root.attrs.insert("k".into(), "2".into());
    let b = Tree::from_root(b_root);
    let ops = diff(&a, &b);
    assert!(matches!(ops.as_slice(), [DeltaOp::Update { .. }]));
    assert_eq!(apply(&a, &ops).unwrap(), b);
}

#[test]
fn apply_diff_add_child() {
    let a = Tree::from_root(Node::leaf(Ref(1), Role::Doc, "X"));
    let mut b_root = Node::leaf(Ref(1), Role::Doc, "X");
    b_root.children.push(Node::leaf(Ref(2), Role::P, "kid"));
    let b = Tree::from_root(b_root);
    let ops = diff(&a, &b);
    assert!(matches!(ops.as_slice(), [DeltaOp::Add { .. }]));
    assert_eq!(apply(&a, &ops).unwrap(), b);
}

#[test]
fn apply_diff_remove_child() {
    let mut a_root = Node::leaf(Ref(1), Role::Doc, "X");
    a_root.children.push(Node::leaf(Ref(2), Role::P, "kid"));
    let a = Tree::from_root(a_root);
    let b = Tree::from_root(Node::leaf(Ref(1), Role::Doc, "X"));
    let ops = diff(&a, &b);
    assert!(matches!(ops.as_slice(), [DeltaOp::Remove { r: Ref(2) }]));
    assert_eq!(apply(&a, &ops).unwrap(), b);
}

#[test]
fn apply_diff_reorder_children() {
    let mut a_root = Node::leaf(Ref(1), Role::Doc, "X");
    a_root.children.push(Node::leaf(Ref(2), Role::P, "a"));
    a_root.children.push(Node::leaf(Ref(3), Role::P, "b"));
    let a = Tree::from_root(a_root);
    let mut b_root = Node::leaf(Ref(1), Role::Doc, "X");
    b_root.children.push(Node::leaf(Ref(3), Role::P, "b"));
    b_root.children.push(Node::leaf(Ref(2), Role::P, "a"));
    let b = Tree::from_root(b_root);
    let ops = diff(&a, &b);
    let result = apply(&a, &ops).unwrap();
    assert_eq!(result, b);
}

#[test]
fn diff_identity() {
    let mut root = Node::leaf(Ref(1), Role::Doc, "X");
    root.children.push(Node::leaf(Ref(2), Role::P, "kid"));
    let t = Tree::from_root(root);
    assert!(diff(&t, &t).is_empty());
}

#[test]
fn apply_rejects_missing_and_duplicate_refs() {
    let t = Tree::from_root(Node::leaf(Ref(1), Role::Doc, "X"));
    assert_eq!(apply(&t, &[DeltaOp::Remove { r: Ref(9) }]).unwrap(), t);
    let err = apply(&t, &[DeltaOp::Update { r: Ref(9), attrs: Attrs::new() }]).unwrap_err();
    assert_eq!(err, ParseError::ApplyMissingRef(9));
    let mv = DeltaOp::Move { r: Ref(9), parent: Ref::root(), pos: None };
    assert_eq!(apply(&t, &[mv]).unwrap_err(), ParseError::ApplyMissingRef(9));
    let add = DeltaOp::Add {
        r: Ref(1),
        parent: Ref::root(),
        pos: None,
        role: Role::P,
        label: "dup".into(),
        ops: OpSet::new(),
        attrs: Attrs::new(),
    };
    assert_eq!(apply(&t, &[add]).unwrap_err(), ParseError::ApplyDuplicateRef(1));
}

#[test]
fn find_and_take_subtree() {
    let mut t = sample_tree();
    assert_eq!(find(&t, Ref(3)).map(|n| n.label.clone()), Some("This domain is for examples.".to_string()));
    assert!(find(&t, Ref(99)).is_none());
    let taken = take_subtree(&mut t, Ref(2)).unwrap();
    assert_eq!(taken.label, "Example Domain");
    assert!(find(&t, Ref(2)).is_none());
    assert_eq!(t.roots[0].children.len(), 2);
}

#[test]
fn delta_parse_rejects_garbage() {
    assert!(parse("?what\n").is_err());
    assert_eq!(parse("").unwrap(), Vec::<DeltaOp>::new());
}

#[test]
fn apply_diff_on_flat_forests_gives_the_target() {
    let a = Tree {
        roots: vec![
            Node::leaf(Ref(1), Role::P, "one"),
            Node::leaf(Ref(2), Role::P, "two"),
            Node::leaf(Ref(3), Role::P, "three"),
        ],
    };
    let mut two = Node::leaf(Ref(2), Role::P, "two");
    two.attrs.insert("k".to_string(), "v".to_string());
    let b = Tree {
        roots: vec![
            two,
            Node::leaf(Ref(5), Role::Btn, "new"),
            Node::leaf(Ref(3), Role::Hd, "three"),
            Node::leaf(Ref(6), Role::Lnk, "tail"),
        ],
    };
    let ops = diff(&a, &b);
    assert_eq!(apply(&a, &ops).unwrap(), b);
}

#[test]
fn apply_diff_on_nested_trees_gives_the_target() {
    let mut two = Node::leaf(Ref(2), Role::Sec, "s");
    two.children.push(Node::leaf(Ref(4), Role::P, "deep"));
    let mut root_a = Node::leaf(Ref(1), Role::Doc, "X");
    root_a.children.push(two);
    root_a.children.push(Node::leaf(Ref(3), Role::P, "old"));
    root_a.children.push(Node::leaf(Ref(8), Role::P, "gone"));
    let a = Tree::from_root(root_a);

    let mut four = Node::leaf(Ref(4), Role::P, "deep");
    four.attrs.insert("k".to_string(), "v".to_string());
    let mut six = Node::leaf(Ref(6), Role::Lst, "list");
    six.children.push(Node::leaf(Ref(9), Role::Li, "item"));
    let mut two_b = Node::leaf(Ref(2), Role::Sec, "s");
    two_b.children.push(four);
    two_b.children.push(six);
    let mut root_b = Node::leaf(Ref(1), Role::Doc, "X");
    root_b.children.push(two_b);
    root_b.children.push(Node::leaf(Ref(7), Role::Btn, "new"));
    root_b.children.push(Node::leaf(Ref(3), Role::Hd, "renamed"));
    let b = Tree::from_root(root_b);

    let ops = diff(&a, &b);
    assert_eq!(apply(&a, &ops).unwrap(), b);
}

#[test]
fn apply_diff_rotates_children_with_an_added_one() {
    let mut a_root = Node::leaf(Ref(1), Role::Doc, "X");
    for (r, l) in [(2, "a"), (3, "b"), (4, "c")] {
        a_root.children.push(Node::leaf(Ref(r), Role::P, l));
    }
    let a = Tree::from_root(a_root);
    let mut b_root = Node::leaf(Ref(1), Role::Doc, "X");
    for (r, l) in [(4, "c"), (9, "new"), (2, "a"), (3, "b2")] {
        b_root.children.push(Node::leaf(Ref(r), Role::P, l));
    }
    let b = Tree::from_root(b_root);
    let ops = diff(&a, &b);
    assert_eq!(apply(&a, &ops).unwrap(), b);
}
