use bevycss::num::Num;
use bevycss::selector::parse_selector_range;
use bevycss::try_parse_value;
use bevycss::SelectorElement::{Class, Component, Name};
use bevycss::tokenizer::{str_to_chars, tokenize};
use bevycss::{
    apply_pass, match_selector, BevyCssPlugin, ComponentFilterRegistry, EcssError, Node,
    PropertyKind, PropertyRegistry, PropertyToken, PropertyValues, RegisterProperty,
    SelectorElement, StyleSheetAsset, StyleSheetParser, Token, Tree, TypedValue, Val,
};

#[test]
fn three_groups_with_descendant_boundaries() {
    let rules = StyleSheetParser::parse("a.b #c .d {}");
    assert_eq!(rules.len(), 1);
    let tree = rules[0].selector.get_parent_tree();
    assert_eq!(tree.len(), 3);
    assert_eq!(
        tree[0],
        vec![Component("a".to_string()), Class("b".to_string())]
    );
    assert_eq!(tree[1], vec![Name("c".to_string())]);
    assert_eq!(tree[2], vec![Class("d".to_string())]);
}

#[test]
fn trailing_whitespace_adds_no_empty_group() {
    let r1 = StyleSheetParser::parse("a.b {}");
    let r2 = StyleSheetParser::parse("a.b    {}");
    assert_eq!(r1, r2);
    let tree = r1[0].selector.get_parent_tree();
    assert_eq!(tree.len(), 1);
    assert_eq!(tree[0].len(), 2);
}

#[test]
fn five_token_kinds_resolve_exactly() {
    let rules = StyleSheetParser::parse(r#"a { d: 0px; e: #f; k-k: 100%; m: 12.9; n: "str"; }"#);
    assert_eq!(rules.len(), 1);
    let p = &rules[0].properties;
    assert_eq!(
        p.get(&"d".to_string()).unwrap().0,
        vec![PropertyToken::Dimension(Num::new(0, 1))]
    );
    assert_eq!(
        p.get(&"e".to_string()).unwrap().0,
        vec![PropertyToken::Hash("f".to_string())]
    );
    assert_eq!(
        p.get(&"k-k".to_string()).unwrap().0,
        vec![PropertyToken::Percentage(Num::new(1000, 1))]
    );
    assert_eq!(
        p.get(&"m".to_string()).unwrap().0,
        vec![PropertyToken::Number(Num::new(129, 1))]
    );
    assert_eq!(
        p.get(&"n".to_string()).unwrap().0,
        vec![PropertyToken::Str("str".to_string())]
    );
}

#[test]
fn last_rule_wins_on_same_node() {
    let sheet = StyleSheetAsset::parse(".n { x: 1; } .m { x: 2; }");
    let tree = Tree {
        nodes: vec![Node {
            parent: None,
            classes: vec!["n".to_string(), "m".to_string()],
            name: None,
        }],
    };
    let kinds = ComponentFilterRegistry::new();
    let mut props = PropertyRegistry::new();
    props.register_property("x".to_string(), PropertyKind::Length);
    let out = apply_pass(&sheet, &tree, &kinds, &props);
    assert_eq!(
        out.get_value(0, &"x".to_string()),
        Some(&TypedValue::Length(Val::Px(Num::new(2, 0))))
    );
    assert_eq!(out.len(), 1);
}

#[test]
fn malformed_declaration_skipped_locally() {
    let rules = StyleSheetParser::parse("a { b: c; @@; d: e; }");
    assert_eq!(rules.len(), 1);
    let p = &rules[0].properties;
    assert_eq!(p.len(), 2);
    assert!(p.contains_key(&"b".to_string()));
    assert!(p.contains_key(&"d".to_string()));
}

#[test]
fn bad_value_skips_only_that_application() {
    let sheet = StyleSheetAsset::parse(".n { x: 1 2 3; y: 4; }");
    let tree = Tree {
        nodes: vec![Node {
            parent: None,
            classes: vec!["n".to_string()],
            name: None,
        }],
    };
    let kinds = ComponentFilterRegistry::new();
    let mut props = PropertyRegistry::new();
    props.register_property("x".to_string(), PropertyKind::Length);
    props.register_property("y".to_string(), PropertyKind::Length);
    let out = apply_pass(&sheet, &tree, &kinds, &props);
    assert_eq!(out.get_value(0, &"x".to_string()), None);
    assert_eq!(
        out.get_value(0, &"y".to_string()),
        Some(&TypedValue::Length(Val::Px(Num::new(4, 0))))
    );
}

#[test]
fn descendant_chain_requires_matching_ancestor() {
    // 0 -> 1 -> 2 is a parent chain whose root is of kind "a";
    // 3 -> 4 sits under a root that is not.
    let tree = Tree {
        nodes: vec![
            Node { parent: None, classes: vec![], name: None },
            Node { parent: Some(0), classes: vec![], name: None },
            Node { parent: Some(1), classes: vec![], name: None },
            Node { parent: None, classes: vec![], name: None },
            Node { parent: Some(3), classes: vec![], name: None },
        ],
    };
    let mut kinds = ComponentFilterRegistry::new();
    kinds.register("a".to_string(), vec![0]);
    kinds.register("c".to_string(), vec![2, 4]);
    let rules = StyleSheetParser::parse("a c {}");
    assert_eq!(rules.len(), 1);
    let matched = match_selector(&tree, &kinds, &rules[0].selector);
    assert_eq!(matched, vec![2]);
}

#[test]
fn single_group_matches_at_any_depth() {
    let tree = Tree {
        nodes: vec![
            Node { parent: None, classes: vec!["d".to_string()], name: None },
            Node { parent: Some(0), classes: vec![], name: None },
            Node { parent: Some(1), classes: vec!["d".to_string()], name: None },
        ],
    };
    let kinds = ComponentFilterRegistry::new();
    let rules = StyleSheetParser::parse(".d {}");
    let matched = match_selector(&tree, &kinds, &rules[0].selector);
    assert_eq!(matched, vec![0, 2]);
}

#[test]
fn unknown_kind_is_a_silent_non_match() {
    let tree = Tree {
        nodes: vec![Node { parent: None, classes: vec![], name: None }],
    };
    let kinds = ComponentFilterRegistry::new();
    let rules = StyleSheetParser::parse("zz {}");
    assert_eq!(rules.len(), 1, "an unregistered kind is no parse error");
    let matched = match_selector(&tree, &kinds, &rules[0].selector);
    assert!(matched.is_empty());
}

#[test]
fn apply_pass_is_idempotent() {
    let sheet = StyleSheetAsset::parse(".n { x: 10px; y: #ab; } .m { x: 3%; }");
    let tree = Tree {
        nodes: vec![
            Node {
                parent: None,
                classes: vec!["n".to_string(), "m".to_string()],
                name: None,
            },
            Node {
                parent: Some(0),
                classes: vec!["n".to_string()],
                name: None,
            },
        ],
    };
    let kinds = ComponentFilterRegistry::new();
    let mut props = PropertyRegistry::new();
    props.register_property("x".to_string(), PropertyKind::Length);
    props.register_property("y".to_string(), PropertyKind::Color);
    let out1 = apply_pass(&sheet, &tree, &kinds, &props);
    let out2 = apply_pass(&sheet, &tree, &kinds, &props);
    assert_eq!(out1, out2);
}

#[test]
fn parsing_twice_yields_equal_rule_lists() {
    let text = r#"a.b #c { x: 1px; y: "t"; } .d { z: auto; } @@bad {} e { k: #fff; }"#;
    let r1 = StyleSheetParser::parse(text);
    let r2 = StyleSheetParser::parse(text);
    assert_eq!(r1, r2);
}

#[test]
fn selector_error_variants() {
    let chars = str_to_chars("@");
    let toks = tokenize(&chars);
    match parse_selector_range(&toks, 0, toks.len()) {
        Err(EcssError::UnexpectedToken(Token::Delimiter(c))) => assert_eq!(c, '@'),
        r => panic!("expected an unexpected-token error, got {:?}", r),
    }

    let empty: Vec<Token> = Vec::new();
    match parse_selector_range(&empty, 0, 0) {
        Err(EcssError::InvalidSelector) => {}
        r => panic!("expected an invalid-selector error, got {:?}", r),
    }

    let empty_hash = vec![Token::Hash(String::new())];
    match parse_selector_range(&empty_hash, 0, 1) {
        Err(EcssError::InvalidSelector) => {}
        r => panic!("expected an invalid-selector error, got {:?}", r),
    }
}

#[test]
fn value_resolution_shapes() {
    let one_ident = PropertyValues(vec![PropertyToken::Identifier("auto".to_string())]);
    assert_eq!(
        try_parse_value(PropertyKind::Length, &one_ident),
        Ok(TypedValue::Length(Val::Auto))
    );
    assert_eq!(
        try_parse_value(PropertyKind::Keyword, &one_ident),
        Ok(TypedValue::Keyword("auto".to_string()))
    );
    assert_eq!(
        try_parse_value(PropertyKind::Color, &one_ident),
        Err(EcssError::PropertyValueParseFailure)
    );

    let two = PropertyValues(vec![
        PropertyToken::Dimension(Num::new(1, 0)),
        PropertyToken::Percentage(Num::new(2, 0)),
    ]);
    assert_eq!(
        try_parse_value(PropertyKind::Rect, &two),
        Ok(TypedValue::Rect(
            Val::Px(Num::new(1, 0)),
            Val::Percent(Num::new(2, 0)),
            Val::Px(Num::new(1, 0)),
            Val::Percent(Num::new(2, 0)),
        ))
    );

    let three = PropertyValues(vec![
        PropertyToken::Number(Num::new(1, 0)),
        PropertyToken::Number(Num::new(2, 0)),
        PropertyToken::Number(Num::new(3, 0)),
    ]);
    assert_eq!(
        try_parse_value(PropertyKind::Rect, &three),
        Err(EcssError::PropertyValueParseFailure)
    );
}

#[test]
fn kind_registry_last_registration_wins() {
    let mut kinds = ComponentFilterRegistry::new();
    kinds.register("k".to_string(), vec![1]);
    kinds.register("k".to_string(), vec![2]);
    assert_eq!(kinds.lookup(&"k".to_string()), Some(&vec![2]));
    assert_eq!(kinds.lookup(&"other".to_string()), None);
}

#[test]
fn reload_swaps_the_whole_rule_list() {
    let mut sheet = StyleSheetAsset::parse("a { x: 1; }");
    assert_eq!(sheet.len(), 1);
    sheet.reload("b { y: 2; } c { z: 3; }");
    assert_eq!(sheet, StyleSheetAsset::parse("b { y: 2; } c { z: 3; }"));
    assert_eq!(sheet.len(), 2);
}

#[test]
fn string_tokens_unescape_quoted_content() {
    let rules = StyleSheetParser::parse("a { n: \"s\\\"t\"; m: 'u\\'v'; }");
    let p = &rules[0].properties;
    assert_eq!(
        p.get(&"n".to_string()).unwrap().0,
        vec![PropertyToken::Str("s\"t".to_string())]
    );
    assert_eq!(
        p.get(&"m".to_string()).unwrap().0,
        vec![PropertyToken::Str("u'v".to_string())]
    );
}

#[test]
fn oversized_numbers_saturate() {
    let rules = StyleSheetParser::parse("a { m: 99999999999999999999; }");
    let p = &rules[0].properties;
    assert_eq!(
        p.get(&"m".to_string()).unwrap().0,
        vec![PropertyToken::Number(Num::new(u64::MAX, 0))]
    );
}

#[test]
fn numeric_magnitudes_normalize() {
    assert_eq!(Num::new(1290, 2), Num::new(129, 1));
    let n = Num::new(1000, 1);
    assert_eq!(n.mantissa, 100);
    assert_eq!(n.frac_digits, 0);
    assert_ne!(Num::new(129, 1), Num::new(129, 2));
}

#[test]
fn plugin_hot_reload_flag() {
    assert!(BevyCssPlugin::with_hot_reload().hot_reload);
    assert!(!BevyCssPlugin::default().hot_reload);
}

#[test]
fn error_messages_describe_each_failure() {
    assert_eq!(EcssError::InvalidSelector.message(), "invalid selector");
    assert_eq!(
        EcssError::UnexpectedToken(Token::Delimiter('@')).message(),
        "unexpected token in selector"
    );
    assert_eq!(
        EcssError::PropertyValueParseFailure.message(),
        "property value has the wrong shape"
    );
}
