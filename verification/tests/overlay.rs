use env_overlay::{load, Error, Field, Shape, Tree, Variable};

fn text(s: &str) -> Tree {
    Tree::String(s.to_string())
}

fn number(s: &str) -> Tree {
    Tree::Number(s.to_string())
}

fn leaf(name: &str) -> Field {
    Field { name: name.to_string(), shape: Shape::Leaf }
}

fn record(name: &str, fields: Vec<Field>) -> Field {
    Field { name: name.to_string(), shape: Shape::Record(fields) }
}

fn mapping(entries: Vec<(&str, Tree)>) -> Tree {
    Tree::Mapping(entries.into_iter().map(|(k, v)| (text(k), v)).collect())
}

fn vars(pairs: Vec<(&str, &str)>) -> Vec<Variable> {
    pairs
        .into_iter()
        .map(|(k, v)| Variable { name: k.to_string(), value: Ok(v.to_string()) })
        .collect()
}

#[test]
fn test_envs_simple() {
    let shape = Shape::Record(vec![leaf("a"), leaf("b"), leaf("c")]);
    let a = mapping(vec![("a", number("0")), ("b", number("0")), ("c", number("0"))]);

    let v = vars(vec![("PFX_A", "10")]);
    assert_eq!(
        load("pfx", &shape, a, &v).0.unwrap(),
        mapping(vec![("a", number("10")), ("b", number("0")), ("c", number("0"))])
    );
}

fn nested_shape() -> Shape {
    Shape::Record(vec![
        leaf("a"),
        leaf("b"),
        record("c", vec![leaf("a"), record("b", vec![leaf("a"), leaf("b"), leaf("c")]), leaf("c")]),
    ])
}

fn nested_tree(b: &str, c_a: &str, c_b_b: &str) -> Tree {
    mapping(vec![
        ("a", number("0")),
        ("b", number(b)),
        (
            "c",
            mapping(vec![
                ("a", number(c_a)),
                ("b", mapping(vec![("a", number("0")), ("b", number(c_b_b)), ("c", number("0"))])),
                ("c", number("0")),
            ]),
        ),
    ])
}

#[test]
fn test_envs_nested() {
    let shape = nested_shape();

    assert_eq!(
        load("pfx", &shape, nested_tree("0", "0", "0"), &vars(vec![])).0.unwrap(),
        nested_tree("0", "0", "0")
    );
    let v = vars(vec![("PFX_B", "32"), ("PFX_C_A", "12"), ("PFX_C_B_B", "42")]);
    assert_eq!(
        load("pfx", &shape, nested_tree("0", "0", "0"), &v).0.unwrap(),
        nested_tree("32", "12", "42")
    );
}

fn mixed_tree(a: Tree, b: Tree, c_a: Vec<Tree>, c_c: &str, c_d: &str) -> Tree {
    mapping(vec![
        ("a", a),
        ("b", b),
        (
            "c",
            mapping(vec![
                ("a", Tree::Sequence(c_a)),
                ("b", Tree::Sequence(vec![])),
                ("c", number(c_c)),
                ("d", number(c_d)),
            ]),
        ),
    ])
}

#[test]
fn test_envs_mixed() {
    let shape = Shape::Record(vec![
        leaf("a"),
        leaf("b"),
        record("c", vec![leaf("a"), leaf("b"), leaf("c"), leaf("d")]),
    ]);
    let a = || mixed_tree(Tree::Bool(false), number("0"), vec![], "0", "0");

    assert_eq!(load("pfx", &shape, a(), &vars(vec![])).0.unwrap(), a());
    let v = vars(vec![
        ("PFX_A", "true"),
        ("PFX_B", "33"),
        ("PFX_C_A", "[1,2,3]"),
        ("PFX_C_C", "-1"),
        ("PFX_C_D", "-3"),
    ]);
    assert_eq!(
        load("pfx", &shape, a(), &v).0.unwrap(),
        mixed_tree(
            Tree::Bool(true),
            number("33"),
            vec![number("1"), number("2"), number("3")],
            "-1",
            "-3"
        )
    );
}

fn strings(items: Vec<&str>) -> Tree {
    Tree::Sequence(items.into_iter().map(text).collect())
}

fn types_tree(values: Vec<Tree>) -> Tree {
    let names = vec![
        "a", "u1", "u2", "u3", "u4", "i1", "i2", "i3", "i4", "f1", "f2", "s", "c", "o1", "o2",
        "bt", "hm", "ll", "hs", "vd", "vc", "a1", "a2", "unit", "t1", "t2", "t3", "sock", "path",
        "dur",
    ];
    assert_eq!(names.len(), values.len());
    mapping(names.into_iter().zip(values).collect())
}

#[test]
fn test_types() {
    let names = vec![
        "a", "u1", "u2", "u3", "u4", "i1", "i2", "i3", "i4", "f1", "f2", "s", "c", "o1", "o2",
        "bt", "hm", "ll", "hs", "vd", "vc", "a1", "a2", "unit", "t1", "t2", "t3", "sock", "path",
    ];
    let mut fields: Vec<Field> = names.into_iter().map(leaf).collect();
    fields.push(record("dur", vec![leaf("secs"), leaf("nanos")]));
    let shape = Shape::Record(fields);
    let dur = |secs: &str| mapping(vec![("secs", number(secs)), ("nanos", number("0"))]);

    let a = || {
        types_tree(vec![
            Tree::Bool(false),
            number("1"),
            number("2"),
            number("3"),
            number("4"),
            number("-1"),
            number("-2"),
            number("-3"),
            number("4"),
            number("3.14"),
            number("-3.1415"),
            text("hello"),
            text("c"),
            Tree::Null,
            text("world"),
            strings(vec![]),
            mapping(vec![]),
            strings(vec![]),
            strings(vec![]),
            strings(vec![]),
            strings(vec![]),
            Tree::Sequence(vec![number("1")]),
            Tree::Sequence(vec![number("1"), number("2"), number("3")]),
            Tree::Null,
            Tree::Sequence(vec![number("3")]),
            Tree::Sequence(vec![number("0"), Tree::Bool(false)]),
            Tree::Sequence(vec![number("0"), Tree::Bool(false), text("")]),
            text("127.0.0.1:3939"),
            text("/home/unko"),
            dur("39"),
        ])
    };

    assert_eq!(load("pfx", &shape, a(), &vars(vec![])).0.unwrap(), a());
    let v = vars(vec![
        ("PFX_A", "true"),
        ("PFX_U1", "4"),
        ("PFX_U2", "5"),
        ("PFX_U3", "6"),
        ("PFX_U4", "7"),
        ("PFX_I1", "-5"),
        ("PFX_I2", "-4"),
        ("PFX_I3", "-3"),
        ("PFX_I4", "-2"),
        ("PFX_F1", "1.414"),
        ("PFX_F2", "-1.414"),
        ("PFX_S", "unko"),
        ("PFX_C", "z"),
        ("PFX_O1", "Gotcha"),
        ("PFX_O2", ""),
        ("PFX_BT", "[a,b,c]"),
        ("PFX_HM", "{'a': 'b', 'c':'d'}"),
        ("PFX_LL", "[u,n,k,o]"),
        ("PFX_HS", "[h, s]"),
        ("PFX_VD", "[bigg_s, d_ckus]"),
        ("PFX_VC", "[incontinentia, buttocks]"),
        ("PFX_A1", "[3]"),
        ("PFX_A2", "[1, 1, 5]"),
        ("PFX_UNIT", ""),
        ("PFX_T1", "[8]"),
        ("PFX_T2", "[8, true]"),
        ("PFX_T3", "[8, true, '6']"),
        ("PFX_SOCK", "10.32.0.33:4454"),
        ("PFX_PATH", "/home/biggus/dickus"),
        ("PFX_DUR", "30sec"),
    ]);
    let expected = types_tree(vec![
        Tree::Bool(true),
        number("4"),
        number("5"),
        number("6"),
        number("7"),
        number("-5"),
        number("-4"),
        number("-3"),
        number("-2"),
        number("1.414"),
        number("-1.414"),
        text("unko"),
        text("z"),
        text("Gotcha"),
        Tree::Null,
        strings(vec!["a", "b", "c"]),
        mapping(vec![("a", text("b")), ("c", text("d"))]),
        strings(vec!["u", "n", "k", "o"]),
        strings(vec!["h", "s"]),
        strings(vec!["bigg_s", "d_ckus"]),
        strings(vec!["incontinentia", "buttocks"]),
        Tree::Sequence(vec![number("3")]),
        Tree::Sequence(vec![number("1"), number("1"), number("5")]),
        Tree::Null,
        Tree::Sequence(vec![number("8")]),
        Tree::Sequence(vec![number("8"), Tree::Bool(true)]),
        Tree::Sequence(vec![number("8"), Tree::Bool(true), text("6")]),
        text("10.32.0.33:4454"),
        text("/home/biggus/dickus"),
        dur("30"),
    ]);
    let mut overlaid = a();
    if let Tree::Mapping(entries) = &mut overlaid {
        entries[29].1 = dur("30");
    }
    assert_eq!(load("pfx", &shape, overlaid, &v).0.unwrap(), expected);
}

#[test]
fn identity_without_overrides() {
    let other = vars(vec![("OTHER_B", "1"), ("PFX", "oops"), ("PFX_C", "9"), ("pfx_b", "7")]);
    assert_eq!(
        load("pfx", &nested_shape(), nested_tree("1", "2", "3"), &other).0.unwrap(),
        nested_tree("1", "2", "3")
    );
}

#[test]
fn sequence_is_replaced_as_a_whole() {
    let shape = Shape::Record(vec![leaf("field")]);
    let tree = mapping(vec![("field", Tree::Sequence(vec![number("7"), number("8"), number("9"), number("10")]))]);
    let v = vars(vec![("PFX_FIELD", "[1,2,3]")]);
    assert_eq!(
        load("pfx", &shape, tree, &v).0.unwrap(),
        mapping(vec![("field", Tree::Sequence(vec![number("1"), number("2"), number("3")]))])
    );
}

#[test]
fn map_is_replaced_as_a_whole() {
    let shape = Shape::Record(vec![leaf("field")]);
    let tree = mapping(vec![("field", mapping(vec![("x", text("y")), ("a", text("old"))]))]);
    let v = vars(vec![("PFX_FIELD", "{'a':'b','c':'d'}")]);
    assert_eq!(
        load("pfx", &shape, tree, &v).0.unwrap(),
        mapping(vec![("field", mapping(vec![("a", text("b")), ("c", text("d"))]))])
    );
}

#[test]
fn empty_text_sets_null() {
    let shape = Shape::Record(vec![leaf("o1"), leaf("o2")]);
    let tree = mapping(vec![("o1", number("5")), ("o2", text("world"))]);
    let v = vars(vec![("PFX_O1", ""), ("PFX_O2", "")]);
    assert_eq!(
        load("pfx", &shape, tree, &v).0.unwrap(),
        mapping(vec![("o1", Tree::Null), ("o2", Tree::Null)])
    );
}

#[test]
fn unreadable_variable_fails_the_whole_overlay() {
    let shape = Shape::Record(vec![leaf("a"), leaf("b"), leaf("c")]);
    let tree = mapping(vec![("a", number("0")), ("b", number("0")), ("c", number("0"))]);
    let v = vec![
        Variable { name: "PFX_A".to_string(), value: Ok("10".to_string()) },
        Variable { name: "PFX_B".to_string(), value: Err("not valid unicode".to_string()) },
        Variable { name: "PFX_C".to_string(), value: Ok("[".to_string()) },
    ];
    assert_eq!(
        load("pfx", &shape, tree, &v).0,
        Err(Error::VarError("not valid unicode".to_string()))
    );
}

#[test]
fn text_that_is_no_document_fails() {
    let shape = Shape::Record(vec![leaf("a"), leaf("b")]);
    let tree = mapping(vec![("a", number("0")), ("b", number("0"))]);
    let v = vec![
        Variable { name: "PFX_A".to_string(), value: Ok("[1, 2".to_string()) },
        Variable { name: "PFX_B".to_string(), value: Err("never read".to_string()) },
    ];
    match load("pfx", &shape, tree, &v).0 {
        Err(Error::UnpackError(address, message)) => {
            assert_eq!(address, "PFX_A");
            assert!(!message.is_empty());
        }
        other => panic!("unexpected result: {:?}", other),
    }
}

#[test]
fn key_that_is_no_string_is_unsupported() {
    let shape = Shape::Record(vec![leaf("hm"), leaf("z")]);
    let tree = || {
        Tree::Mapping(vec![
            (text("hm"), Tree::Mapping(vec![(number("1"), text("one"))])),
            (text("z"), number("0")),
        ])
    };
    assert_eq!(load("pfx", &shape, tree(), &vars(vec![])).0.unwrap(), tree());
    assert_eq!(
        load("pfx", &shape, tree(), &vars(vec![("PFX_HM", "{2: two}")])).0.unwrap(),
        Tree::Mapping(vec![
            (text("hm"), Tree::Mapping(vec![(number("2"), text("two"))])),
            (text("z"), number("0")),
        ])
    );
    assert_eq!(load("pfx", &shape, tree(), &vars(vec![("PFX_Z", "1")])).0, Err(Error::Unsupported));
}

#[test]
fn names_are_matched_exactly() {
    let shape = Shape::Record(vec![leaf("a")]);
    let tree = mapping(vec![("a", number("0"))]);
    let v = vars(vec![("pfx_a", "1"), ("PFX_A ", "2"), ("XPFX_A", "3"), ("PFX_A", "4"), ("PFX_A", "5")]);
    assert_eq!(load("pfx", &shape, tree, &v).0.unwrap(), mapping(vec![("a", number("4"))]));
}

#[test]
fn leaf_at_the_root_is_addressed_by_the_prefix() {
    let v = vars(vec![("PFX", "{a: 1, b: [x, ~, 2.5, !t y]}")]);
    assert_eq!(
        load("pfx", &Shape::Leaf, number("0"), &v).0.unwrap(),
        mapping(vec![
            ("a", number("1")),
            (
                "b",
                Tree::Sequence(vec![
                    text("x"),
                    Tree::Null,
                    number("2.5"),
                    Tree::Tagged("!t".to_string(), Box::new(text("y"))),
                ])
            ),
        ])
    );
}

#[test]
fn refused_text_at_the_root_names_the_prefix() {
    let v = vars(vec![("PFX", "[1,2")]);
    match load("pfx", &Shape::Leaf, number("0"), &v) {
        (Err(Error::UnpackError(address, message)), repeated) => {
            assert_eq!(address, "PFX");
            assert!(!message.is_empty());
            assert!(repeated.is_empty());
        }
        other => panic!("unexpected result: {:?}", other),
    }
}

#[test]
fn ambiguous_addresses_come_with_the_tree() {
    let shape = Shape::Record(vec![record("a", vec![leaf("b")]), leaf("a_b")]);
    let tree = mapping(vec![("a", mapping(vec![("b", number("0"))])), ("a_b", number("0"))]);
    let (result, repeated) = load("pfx", &shape, tree, &vars(vec![("PFX_A_B", "7")]));
    assert_eq!(
        result,
        Ok(mapping(vec![("a", mapping(vec![("b", number("7"))])), ("a_b", number("0"))]))
    );
    assert_eq!(repeated, vec!["PFX_A_B".to_string()]);
}

#[test]
fn ambiguous_addresses_come_with_the_failure() {
    let shape = Shape::Record(vec![leaf("a"), leaf("A"), leaf("b"), leaf("B")]);
    let tree = mapping(vec![("a", number("0")), ("b", number("0"))]);
    let v = vec![Variable { name: "PFX_B".to_string(), value: Err("unreadable".to_string()) }];
    let (result, repeated) = load("pfx", &shape, tree, &v);
    assert_eq!(result, Err(Error::VarError("unreadable".to_string())));
    assert_eq!(repeated, vec!["PFX_A".to_string()]);
}

#[test]
fn no_address_is_ambiguous_where_all_differ() {
    let (result, repeated) = load("pfx", &nested_shape(), nested_tree("0", "0", "0"), &vars(vec![]));
    assert_eq!(result, Ok(nested_tree("0", "0", "0")));
    assert!(repeated.is_empty());
}
