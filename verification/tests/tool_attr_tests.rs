use llama_harness::tool_attr::{tool, AttrToken, ToolArgs, ToolAttrError};

fn ident(s: &str) -> AttrToken {
    AttrToken::Ident(s.to_string())
}

fn lit(s: &str) -> AttrToken {
    AttrToken::Str(s.to_string())
}

fn pair(key: &str, value: &str) -> Vec<AttrToken> {
    vec![ident(key), AttrToken::Punct('='), lit(value)]
}

#[test]
fn description_only_takes_the_function_name() {
    let attr = pair("description", "Get weather for a city");
    let t = tool(&attr, true, "get_weather").unwrap();
    assert_eq!(t.name, "get_weather");
    assert_eq!(t.description, "Get weather for a city");
}

#[test]
fn name_argument_overrides_the_function_name() {
    let mut attr = pair("name", "weather");
    attr.push(AttrToken::Punct(','));
    attr.extend(pair("description", "Look it up"));
    let t = tool(&attr, true, "get_weather").unwrap();
    assert_eq!(t.name, "weather");
    assert_eq!(t.description, "Look it up");
}

#[test]
fn commas_are_optional_and_later_values_win() {
    let mut attr = pair("description", "first");
    attr.extend(pair("description", "second"));
    attr.push(AttrToken::Punct(','));
    let args = ToolArgs::parse(&attr).unwrap();
    assert_eq!(args.name, None);
    assert_eq!(args.description.as_deref(), Some("second"));
}

#[test]
fn empty_arguments_parse_to_nothing() {
    let args = ToolArgs::parse(&Vec::new()).unwrap();
    assert!(args.name.is_none());
    assert!(args.description.is_none());
}

#[test]
fn function_must_be_async() {
    let attr = pair("description", "d");
    let e = tool(&attr, false, "f").unwrap_err();
    assert!(matches!(e, ToolAttrError::NotAsync));
    assert_eq!(e.message(), "`#[tool]` requires the function to be `async`");
}

#[test]
fn description_is_required_and_not_empty() {
    let e = tool(&Vec::new(), true, "f").unwrap_err();
    assert!(matches!(e, ToolAttrError::MissingDescription));
    assert_eq!(e.message(), "`#[tool]` requires `description = \"...\"`");
    let e = tool(&pair("description", ""), true, "f").unwrap_err();
    assert!(matches!(e, ToolAttrError::MissingDescription));
}

#[test]
fn arguments_are_checked_before_asyncness() {
    let e = tool(&pair("title", "x"), false, "f").unwrap_err();
    match &e {
        ToolAttrError::UnknownKey(k) => assert_eq!(k, "title"),
        other => panic!("unexpected {:?}", other),
    }
    assert_eq!(
        e.message(),
        "unknown #[tool] attribute (expected `name` or `description`)"
    );
}

#[test]
fn malformed_arguments_are_rejected() {
    let e = ToolArgs::parse(&vec![lit("x")]).unwrap_err();
    assert!(matches!(e, ToolAttrError::ExpectedIdent));
    let e = ToolArgs::parse(&vec![ident("name"), lit("x")]).unwrap_err();
    assert!(matches!(e, ToolAttrError::ExpectedEq));
    let e = ToolArgs::parse(&vec![ident("name"), AttrToken::Punct('=')]).unwrap_err();
    assert!(matches!(e, ToolAttrError::ExpectedString));
    let e = ToolArgs::parse(&vec![
        ident("name"),
        AttrToken::Punct('='),
        AttrToken::Other("3".to_string()),
    ])
    .unwrap_err();
    assert!(matches!(e, ToolAttrError::ExpectedString));
    let mut attr = pair("name", "a");
    attr.push(AttrToken::Punct(';'));
    let e = ToolArgs::parse(&attr).unwrap_err();
    assert!(matches!(e, ToolAttrError::ExpectedIdent));
}

#[test]
fn keyword_keys_are_named_in_the_error() {
    let attr = vec![
        AttrToken::Keyword("type".to_string()),
        AttrToken::Punct('='),
        lit("x"),
    ];
    let e = ToolArgs::parse(&attr).unwrap_err();
    match &e {
        ToolAttrError::KeywordKey(k) => assert_eq!(k, "type"),
        other => panic!("unexpected {:?}", other),
    }
    assert_eq!(e.message(), "expected identifier, found keyword `type`");
}
