use bevycss::num::Num;
use bevycss::PropertyToken::{Dimension, Identifier, Number, Percentage, Str};
use bevycss::SelectorElement::{Class, Component, Name};
use bevycss::{PropertyToken, SelectorElement, StyleSheetParser};

#[test]
fn parse_empty() {
    assert!(
        StyleSheetParser::parse("").is_empty(),
        "Should return an empty list of rules"
    );
    assert!(
        StyleSheetParser::parse("{}").is_empty(),
        "\"{{}}\" Should return an empty list of rules"
    );
    assert!(
        StyleSheetParser::parse(" {}").is_empty(),
        "\" {{}}\" Should return an empty list of rules"
    );
    assert!(
        StyleSheetParser::parse("# {}").is_empty(),
        "\"# {{}}\" Should return an empty list of rules"
    );
    assert!(
        StyleSheetParser::parse("@@@ {}").is_empty(),
        "Should return an empty list of rules"
    );
    assert!(
        StyleSheetParser::parse("{}{}").is_empty(),
        "Should return an empty list of rules"
    );
}

#[test]
fn parse_single_name_selector_no_property() {
    let rules = StyleSheetParser::parse("#id {}");
    assert_eq!(rules.len(), 1, "Should have a single rule");

    let rule = &rules[0];
    let tree = rule.selector.get_parent_tree();
    assert_eq!(tree.len(), 1, "Should have a single selector node");

    let node = &tree[0];
    assert_eq!(tree.len(), 1, "Should have a single selector");

    match &node[0] {
        SelectorElement::Name(name) => assert_eq!(name, "id"),
        _ => assert!(false, "Should have a name selector"),
    }

    assert!(rule.properties.is_empty(), "Should have no token");
}

#[test]
fn parse_single_class_selector_no_property() {
    let rules = StyleSheetParser::parse(".class {}");
    assert_eq!(rules.len(), 1, "Should have a single rule");

    let rule = &rules[0];
    let tree = rule.selector.get_parent_tree();
    assert_eq!(tree.len(), 1, "Should have a single selector node");

    let node = &tree[0];
    assert_eq!(tree.len(), 1, "Should have a single selector");

    match &node[0] {
        SelectorElement::Class(name) => assert_eq!(name, "class"),
        _ => assert!(false, "Should have a class selector"),
    }

    assert!(rule.properties.is_empty(), "Should have no token");
}

#[test]
fn parse_single_component_selector_no_property() {
    let rules = StyleSheetParser::parse("button {}");
    assert_eq!(rules.len(), 1, "Should have a single rule");

    let rule = &rules[0];
    let tree = rule.selector.get_parent_tree();
    assert_eq!(tree.len(), 1, "Should have a single selector node");

    let node = &tree[0];
    assert_eq!(tree.len(), 1, "Should have a single selector");

    match &node[0] {
        SelectorElement::Component(name) => assert_eq!(name, "button"),
        _ => assert!(false, "Should have a class selector"),
    }

    assert!(rule.properties.is_empty(), "Should have no token");
}

#[test]
fn parse_single_complex_class_selector_no_property() {
    let rules = StyleSheetParser::parse(".a.b.c.d.e.f.g {}");
    assert_eq!(rules.len(), 1, "Should have a single rule");

    let rule = &rules[0];
    let tree = rule.selector.get_parent_tree();
    assert_eq!(tree.len(), 1, "Should have a single selector node");

    let node = &tree[0];
    assert_eq!(node.len(), 7, "Should have a 7 selector class");

    let expected: Vec<SelectorElement> = vec![
        Class("a".to_string()),
        Class("b".to_string()),
        Class("c".to_string()),
        Class("d".to_string()),
        Class("e".to_string()),
        Class("f".to_string()),
        Class("g".to_string()),
    ];

    expected
        .into_iter()
        .zip(node.into_iter())
        .for_each(|(expected, element)| {
            assert_eq!(expected, *element);
        });

    assert!(rule.properties.is_empty(), "Should have no token");
}

#[test]
fn parse_single_composed_selector_no_property() {
    let rules = StyleSheetParser::parse("a.b#c.d {}");
    assert_eq!(rules.len(), 1, "Should have a single rule");

    let rule = &rules[0];
    let tree = rule.selector.get_parent_tree();
    assert_eq!(tree.len(), 1, "Should have a single selector node");

    let node = &tree[0];
    assert_eq!(node.len(), 4, "Should have a 4 selectors");

    let expected: Vec<SelectorElement> = vec![
        Component("a".to_string()),
        Class("b".to_string()),
        Name("c".to_string()),
        Class("d".to_string()),
    ];

    expected
        .into_iter()
        .zip(node.into_iter())
        .for_each(|(expected, element)| {
            assert_eq!(expected, *element);
        });

    assert!(rule.properties.is_empty(), "Should have no token");
}

#[test]
fn parse_multiple_composed_selector_no_property() {
    let rules = StyleSheetParser::parse("a.b #c .d e#f .g.h i j.k#l {}");
    assert_eq!(rules.len(), 1, "Should have a single rule");

    let rule = &rules[0];
    let tree = rule.selector.get_parent_tree();
    assert_eq!(tree.len(), 7, "Should have a single selector node");

    let expected: Vec<Vec<SelectorElement>> = vec![
        vec![Component("a".to_string()), Class("b".to_string())],
        vec![Name("c".to_string())],
        vec![Class("d".to_string())],
        vec![Component("e".to_string()), Name("f".to_string())],
        vec![Class("g".to_string()), Class("h".to_string())],
        vec![Component("i".to_string())],
        vec![
            Component("j".to_string()),
            Class("k".to_string()),
            Name("l".to_string()),
        ],
    ];

    expected
        .into_iter()
        .zip(tree.into_iter())
        .for_each(|(node_expected, node)| {
            node_expected
                .into_iter()
                .zip(node)
                .for_each(|(expected, element)| {
                    assert_eq!(expected, element);
                });
        });

    assert!(rule.properties.is_empty(), "Should have no properties");
}

#[test]
fn parse_single_token() {
    let rules = StyleSheetParser::parse("a {b: c}");
    assert_eq!(rules.len(), 1, "Should have a single rule");

    let properties = &rules[0].properties;

    assert_eq!(properties.len(), 1, "Should have a single property");
    assert!(
        properties.contains_key(&"b".to_string()),
        "Should have a property named \"b\""
    );

    let values = properties.get(&"b".to_string()).unwrap();

    assert_eq!(values.len(), 1, "Should have a single property value");

    match &values.0[0] {
        PropertyToken::Identifier(ident) => assert_eq!(ident, "c"),
        _ => assert!(
            false,
            "Should have a property value of type identifier token"
        ),
    }
}

#[test]
fn parse_multiple_complex_properties() {
    let rules = StyleSheetParser::parse(
        r#"a {
            b: c;
            d: 0px;
            e: #f;
            g: h i j;
            k-k: 100%;
            l: 15.3px 3%;
            m: 12.9;
            n: "str";
            o: p q #r #s "t" 1 45.67% 33px;
        }"#,
    );

    assert_eq!(rules.len(), 1, "Should have a single rule");

    let properties = &rules[0].properties;

    let expected = [
        ("b", vec![Identifier("c".to_string())]),
        ("d", vec![Dimension(Num::new(0, 1))]),
        ("e", vec![PropertyToken::Hash("f".to_string())]),
        (
            "g",
            vec![
                Identifier("h".to_string()),
                Identifier("i".to_string()),
                Identifier("j".to_string()),
            ],
        ),
        ("k-k", vec![Percentage(Num::new(1000, 1))]),
        (
            "l",
            vec![Dimension(Num::new(153, 1)), Percentage(Num::new(30, 1))],
        ),
        ("m", vec![Number(Num::new(129, 1))]),
        ("n", vec![Str("str".to_string())]),
        (
            "o",
            vec![
                Identifier("p".to_string()),
                Identifier("q".to_string()),
                PropertyToken::Hash("r".to_string()),
                PropertyToken::Hash("s".to_string()),
                Str("t".to_string()),
                Number(Num::new(10, 1)),
                Percentage(Num::new(4567, 2)),
                Dimension(Num::new(330, 1)),
            ],
        ),
    ];

    assert_eq!(properties.len(), expected.len(), "{:?}", properties);
    expected.into_iter().for_each(|(name, values)| {
        assert!(properties.contains_key(&name.to_string()));
        values
            .iter()
            .zip(properties.get(&name.to_string()).unwrap().0.iter())
            .for_each(|(expected, token)| {
                assert_eq!(token, expected);
            })
    });
}

#[test]
fn parse_multiple_rules() {
    let rules = StyleSheetParser::parse(r#"a{a:a}a{a:a}a{a:a}a{a:a}"#);

    assert_eq!(rules.len(), 4, "Should have 4 rules");

    for rule in rules {
        match &rule.selector.get_parent_tree()[0][0] {
            SelectorElement::Component(a) => assert_eq!(a, "a"),
            _ => assert!(false, "Should have only a single component \"a\""),
        }

        match rule
            .properties
            .get(&"a".to_string())
            .expect("Should have a single property named \"a\"")
            .0
            .iter()
            .next()
            .expect("Should have a single property value")
        {
            PropertyToken::Identifier(a) => assert_eq!(a, "a"),
            _ => assert!(
                false,
                "Should have only a single property value of type identifier"
            ),
        }
    }
}
