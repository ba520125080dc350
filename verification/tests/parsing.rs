use context_variants::error::{ParseError, ParseErrorKind};
use context_variants::lexer::{next_token, Token, TokenKind};
use context_variants::model::{Classification, Context, FieldGroup, FieldRef, RuleSet, TypeExpr};
use context_variants::parser::{
    parse_field_list, parse_function_call, parse_groups_expression, parse_method_chain,
    parse_mixed_args, parse_name_list, parse_tag_list, scan_span,
};
use context_variants::rust_syntax::is_option_type;

fn name(text: &str) -> Vec<u8> {
    text.as_bytes().to_vec()
}

fn literal(text: &str) -> FieldRef {
    FieldRef::Field { name: name(text) }
}

fn names(list: &[&str]) -> Vec<Vec<u8>> {
    list.iter().map(|n| name(n)).collect()
}

fn error(kind: ParseErrorKind, position: usize) -> ParseError {
    ParseError { kind, position }
}

fn empty(name_of: &str) -> Context {
    Context {
        name: name(name_of),
        required: Vec::new(),
        optional: Vec::new(),
        excluded: Vec::new(),
        default_behavior: None,
        has_chain: true,
        end_position: 0,
    }
}

#[test]
fn tokens_of_a_source() {
    let src = b"  Create: requires(a_1, \"x\\\"y\") -> 9z";
    let mut at = 0;
    let mut seen: Vec<(TokenKind, usize, usize)> = Vec::new();
    loop {
        let t = next_token(src, at);
        seen.push((t.kind, t.start, t.end));
        if t.kind == TokenKind::End {
            break;
        }
        at = t.end;
    }
    assert_eq!(
        seen,
        vec![
            (TokenKind::Word, 2, 8),
            (TokenKind::Colon, 8, 9),
            (TokenKind::Word, 10, 18),
            (TokenKind::OpenParen, 18, 19),
            (TokenKind::Word, 19, 22),
            (TokenKind::Comma, 22, 23),
            (TokenKind::Text, 24, 30),
            (TokenKind::CloseParen, 30, 31),
            (TokenKind::Arrow, 32, 34),
            (TokenKind::Number, 35, 37),
            (TokenKind::End, 37, 37),
        ]
    );
}

#[test]
fn token_edges() {
    assert_eq!(next_token(b"", 0), Token { kind: TokenKind::End, start: 0, end: 0 });
    assert_eq!(next_token(b"ab", 7), Token { kind: TokenKind::End, start: 7, end: 7 });
    assert_eq!(next_token(b" \t\r\n", 0), Token { kind: TokenKind::End, start: 4, end: 4 });
    assert_eq!(next_token(b" \"abc", 0), Token { kind: TokenKind::Unterminated, start: 1, end: 5 });
    assert_eq!(next_token(b"\"a\\", 0), Token { kind: TokenKind::Unterminated, start: 0, end: 3 });
    assert_eq!(next_token(b"-x", 0), Token { kind: TokenKind::Other, start: 0, end: 1 });
    assert_eq!(next_token(b"<>", 0), Token { kind: TokenKind::Less, start: 0, end: 1 });
    assert_eq!(next_token(b"<>", 1), Token { kind: TokenKind::Greater, start: 1, end: 2 });
    assert_eq!(next_token(b"[]{}", 0).kind, TokenKind::OpenBracket);
    assert_eq!(next_token(b"[]{}", 1).kind, TokenKind::CloseBracket);
    assert_eq!(next_token(b"[]{}", 2).kind, TokenKind::OpenBrace);
    assert_eq!(next_token(b"[]{}", 3).kind, TokenKind::CloseBrace);
    assert_eq!(next_token(b".=", 0).kind, TokenKind::Dot);
    assert_eq!(next_token(b".=", 1).kind, TokenKind::Equals);
    assert_eq!(
        next_token("\u{e9}t\u{e9}".as_bytes(), 0),
        Token { kind: TokenKind::Word, start: 0, end: 5 }
    );
}

#[test]
fn name_lists() {
    assert_eq!(parse_name_list(b")", 0), Ok((Vec::new(), 1)));
    assert_eq!(parse_name_list(b" a , b )", 0), Ok((names(&["a", "b"]), 8)));
    assert_eq!(parse_name_list(b"a,b,)", 0), Ok((names(&["a", "b"]), 5)));
    assert_eq!(parse_name_list(b"a b)", 0), Err(error(ParseErrorKind::Malformed, 2)));
    assert_eq!(parse_name_list(b",a)", 0), Err(error(ParseErrorKind::Malformed, 0)));
    assert_eq!(parse_name_list(b"a,", 0), Err(error(ParseErrorKind::Malformed, 2)));
}

#[test]
fn spans() {
    assert_eq!(scan_span(b"Result<String, E>, next", 0, true), Ok((17, 17)));
    assert_eq!(scan_span(b"Result<String, E>, next", 0, false), Ok((13, 13)));
    assert_eq!(scan_span(b" f(a, [b, c]) )", 0, false), Ok((13, 13)));
    assert_eq!(scan_span(b"  , x", 0, true), Ok((2, 0)));
    assert_eq!(scan_span(b"a \"b,)\" )", 0, false), Ok((7, 7)));
    assert_eq!(scan_span(b"fn(u8) -> u8)", 0, true), Ok((12, 12)));
    assert_eq!(scan_span(b"a (b", 0, true), Err(error(ParseErrorKind::Malformed, 4)));
}

#[test]
fn field_lists() {
    let (refs, next) = parse_field_list(
        b"id, name as Option<String>, all_fields(), all_fields(a).except(b, c), all_fields(d), grp.except(e))",
        0,
    )
    .unwrap();
    assert_eq!(next, 99);
    assert_eq!(
        refs,
        vec![
            literal("id"),
            FieldRef::Typed {
                name: name("name"),
                ty: TypeExpr { text: name("Option<String>"), optional: true }
            },
            FieldRef::AllFields { except: Vec::new() },
            FieldRef::AllFields { except: names(&["b", "c"]) },
            FieldRef::AllFields { except: names(&["d"]) },
            FieldRef::Group { name: name("grp"), except: names(&["e"]), position: 85 },
        ]
    );
    assert_eq!(refs[0].to_text(), name("id"));
    assert_eq!(refs[1].to_text(), name("name as Option<String>"));
    assert_eq!(refs[2].to_text(), name("all_fields()"));
    assert_eq!(refs[3].to_text(), name("all_fields().except(b, c)"));
    assert_eq!(refs[5].to_text(), name("grp.except(e)"));
}

#[test]
fn field_list_errors() {
    assert_eq!(parse_field_list(b"a, 5)", 0), Err(error(ParseErrorKind::Malformed, 3)));
    assert_eq!(parse_field_list(b"some(a))", 0), Err(error(ParseErrorKind::Malformed, 0)));
    assert_eq!(parse_field_list(b"a.but(b))", 0), Err(error(ParseErrorKind::Malformed, 2)));
    assert_eq!(parse_field_list(b"a.except b)", 0), Err(error(ParseErrorKind::Malformed, 9)));
    assert_eq!(parse_field_list(b"a as )", 0), Err(error(ParseErrorKind::Malformed, 5)));
    assert_eq!(parse_field_list(b"a as 1 + )", 0), Err(error(ParseErrorKind::Malformed, 5)));
    assert_eq!(parse_field_list(b"a as T b)", 0), Err(error(ParseErrorKind::Malformed, 5)));
    assert_eq!(parse_field_list(b"a b)", 0), Err(error(ParseErrorKind::Malformed, 2)));
    assert_eq!(parse_field_list(b"a", 0), Err(error(ParseErrorKind::Malformed, 1)));
}

#[test]
fn type_overrides() {
    let (refs, _) = parse_field_list(
        b"a as String, b as Result<String, ApiError>, c as serde_json::Value, d as &'static str, e as Option<u8>)",
        0,
    )
    .unwrap();
    let types: Vec<(String, bool)> = refs
        .iter()
        .map(|r| match r {
            FieldRef::Typed { ty, .. } => (String::from_utf8(ty.text.clone()).unwrap(), ty.optional),
            other => panic!("not typed: {:?}", other),
        })
        .collect();
    assert_eq!(
        types,
        vec![
            ("String".to_string(), false),
            ("Result<String, ApiError>".to_string(), false),
            ("serde_json::Value".to_string(), false),
            ("&'static str".to_string(), false),
            ("Option<u8>".to_string(), true),
        ]
    );
}

#[test]
fn option_types() {
    assert!(is_option_type(b"Option<String>"));
    assert!(is_option_type(b"std::option::Option<Vec<u8>>"));
    assert!(is_option_type(b" Option < u8 > "));
    assert!(!is_option_type(b"Vec<Option<u8>>"));
    assert!(!is_option_type(b"&Option<u8>"));
    assert!(!is_option_type(b"(Option<u8>,)"));
    assert!(!is_option_type(b"String"));
    assert!(!is_option_type(b"Option<"));
    assert!(!is_option_type(b""));
    assert!(!is_option_type(&[0xff, 0xfe]));
}

#[test]
fn calls() {
    let (ctx, next) = parse_function_call(b"requires(a, b)", 0, empty("C")).unwrap();
    assert_eq!(next, 14);
    assert_eq!(ctx.required, vec![literal("a"), literal("b")]);
    let (ctx, _) = parse_function_call(b"optional(c)", 0, ctx).unwrap();
    let (ctx, _) = parse_function_call(b"excludes(d)", 0, ctx).unwrap();
    let (ctx, _) = parse_function_call(b"requires(e)", 0, ctx).unwrap();
    let (ctx, _) = parse_function_call(b"default(exclude)", 0, ctx).unwrap();
    assert_eq!(ctx.required, vec![literal("a"), literal("b"), literal("e")]);
    assert_eq!(ctx.optional, vec![literal("c")]);
    assert_eq!(ctx.excluded, vec![literal("d")]);
    assert_eq!(ctx.default_behavior, Some(Classification::Excluded));
    assert_eq!(
        parse_function_call(b"default(required)", 0, empty("C")).unwrap().0.default_behavior,
        Some(Classification::Required)
    );
    assert_eq!(
        parse_function_call(b"default(optional)", 0, empty("C")).unwrap().0.default_behavior,
        Some(Classification::Optional)
    );
}

#[test]
fn call_errors() {
    assert_eq!(
        parse_function_call(b"demands(a)", 0, empty("C")),
        Err(error(ParseErrorKind::UnknownCall, 0))
    );
    assert_eq!(
        parse_function_call(b"requires a", 0, empty("C")),
        Err(error(ParseErrorKind::Malformed, 9))
    );
    assert_eq!(
        parse_function_call(b"(a)", 0, empty("C")),
        Err(error(ParseErrorKind::Malformed, 0))
    );
    assert_eq!(
        parse_function_call(b"default(excluded)", 0, empty("C")),
        Err(error(ParseErrorKind::InvalidValue, 0))
    );
    assert_eq!(
        parse_function_call(b"default(required, optional)", 0, empty("C")),
        Err(error(ParseErrorKind::InvalidValue, 0))
    );
    assert_eq!(
        parse_function_call(b"default()", 0, empty("C")),
        Err(error(ParseErrorKind::InvalidValue, 0))
    );
    assert_eq!(
        parse_function_call(b"default(all_fields())", 0, empty("C")),
        Err(error(ParseErrorKind::InvalidValue, 0))
    );
}

#[test]
fn chains() {
    let (ctx, next) =
        parse_method_chain(b" requires(a) . optional(b).requires(c) ,", 0, empty("C")).unwrap();
    assert_eq!(next, 38);
    assert_eq!(ctx.end_position, 38);
    assert_eq!(ctx.required, vec![literal("a"), literal("c")]);
    assert_eq!(ctx.optional, vec![literal("b")]);
    assert_eq!(
        parse_method_chain(b"requires(a).", 0, empty("C")),
        Err(error(ParseErrorKind::Malformed, 12))
    );
    assert_eq!(
        parse_method_chain(b"requires(a).b", 0, empty("C")),
        Err(error(ParseErrorKind::Malformed, 13))
    );
}

#[test]
fn group_definitions() {
    let one = parse_groups_expression(b"auth(user_id, token)", 0).unwrap();
    assert_eq!(
        one,
        (
            vec![FieldGroup {
                name: name("auth"),
                members: vec![literal("user_id"), literal("token")]
            }],
            20
        )
    );
    let (many, _) =
        parse_groups_expression(b"(a(x), b(all_fields().except(x)), )", 0).unwrap();
    assert_eq!(
        many,
        vec![
            FieldGroup { name: name("a"), members: vec![literal("x")] },
            FieldGroup {
                name: name("b"),
                members: vec![FieldRef::AllFields { except: names(&["x"]) }]
            },
        ]
    );
    assert_eq!(parse_groups_expression(b"()", 0), Ok((Vec::new(), 2)));
    assert_eq!(
        parse_groups_expression(b"a(b.except(c))", 0),
        Err(error(ParseErrorKind::InvalidValue, 0))
    );
    assert_eq!(
        parse_groups_expression(b"a(b as T)", 0),
        Err(error(ParseErrorKind::InvalidValue, 0))
    );
    assert_eq!(parse_groups_expression(b"\"a\"", 0), Err(error(ParseErrorKind::InvalidValue, 0)));
    assert_eq!(parse_groups_expression(b"a", 0), Err(error(ParseErrorKind::InvalidValue, 1)));
    assert_eq!(parse_groups_expression(b"(a(x) b(y))", 0), Err(error(ParseErrorKind::Malformed, 6)));
}

#[test]
fn tag_lists() {
    assert_eq!(
        parse_tag_list(b"[serde(skip_serializing_if = \"Option::is_none\"), serde(default) , doc = \"a, b]\"]", 0),
        Ok((
            names(&["serde(skip_serializing_if = \"Option::is_none\")", "serde(default)", "doc = \"a, b]\""]),
            80
        ))
    );
    assert_eq!(parse_tag_list(b"[]", 0), Ok((Vec::new(), 2)));
    assert_eq!(parse_tag_list(b"[a,]", 0), Ok((names(&["a"]), 4)));
    assert_eq!(parse_tag_list(b"[,a]", 0), Err(error(ParseErrorKind::Malformed, 1)));
    assert_eq!(parse_tag_list(b"[a)", 0), Err(error(ParseErrorKind::Malformed, 2)));
    assert_eq!(parse_tag_list(b"[a", 0), Err(error(ParseErrorKind::Malformed, 2)));
    assert_eq!(parse_tag_list(b"serde(default)", 0), Err(error(ParseErrorKind::InvalidValue, 0)));
}

#[test]
fn whole_sources() {
    let rules = parse_mixed_args(
        b"Create: requires(name), Read, prefix = \"P\", suffix = \"S\", default = \"exclude\",
          build_base = false, optional_base = true, groups = g(name),
          optional_attrs = [a(b)], required_attrs = [c, d],",
    )
    .unwrap();
    assert_eq!(rules.contexts.len(), 2);
    assert_eq!(rules.contexts[0].name, name("Create"));
    assert!(rules.contexts[0].has_chain);
    assert_eq!(rules.contexts[0].end_position, 22);
    assert_eq!(rules.contexts[1].name, name("Read"));
    assert!(!rules.contexts[1].has_chain);
    assert_eq!(rules.contexts[1].end_position, 28);
    assert_eq!(rules.prefix, Some(name("P")));
    assert_eq!(rules.suffix, Some(name("S")));
    assert_eq!(rules.global_default, Some(Classification::Excluded));
    assert!(!rules.build_base);
    assert!(rules.optional_base);
    assert_eq!(rules.groups, vec![FieldGroup { name: name("g"), members: vec![literal("name")] }]);
    assert_eq!(rules.optional_attrs, names(&["a(b)"]));
    assert_eq!(rules.required_attrs, names(&["c", "d"]));
}

#[test]
fn defaults_of_a_source() {
    let rules = parse_mixed_args(b"Create").unwrap();
    assert_eq!(
        rules,
        RuleSet {
            contexts: vec![Context {
                name: name("Create"),
                required: Vec::new(),
                optional: Vec::new(),
                excluded: Vec::new(),
                default_behavior: None,
                has_chain: false,
                end_position: 6,
            }],
            groups: Vec::new(),
            global_default: None,
            prefix: None,
            suffix: None,
            build_base: true,
            optional_base: false,
            optional_attrs: Vec::new(),
            required_attrs: Vec::new(),
        }
    );
    assert_eq!(RuleSet::new().contexts.len(), 0);
    assert!(RuleSet::new().build_base);
}

#[test]
fn later_directives_replace_earlier_ones() {
    let rules = parse_mixed_args(
        b"A, suffix = \"One\", suffix = \"Two\", default = required, default = optional, groups = a(x), groups = b(y)",
    )
    .unwrap();
    assert_eq!(rules.suffix, Some(name("Two")));
    assert_eq!(rules.global_default, Some(Classification::Optional));
    assert_eq!(rules.groups, vec![FieldGroup { name: name("b"), members: vec![literal("y")] }]);
}

#[test]
fn string_values_are_decoded() {
    let rules = parse_mixed_args(b"A, prefix = \"a\\\"b\\n\\u{e9}\", suffix = \"\"").unwrap();
    assert_eq!(rules.prefix, Some("a\"b\n\u{e9}".as_bytes().to_vec()));
    assert_eq!(rules.suffix, Some(Vec::new()));
    assert_eq!(
        parse_mixed_args(b"A, prefix = \"a\\qb\""),
        Err(error(ParseErrorKind::InvalidValue, 12))
    );
}

#[test]
fn source_errors() {
    assert_eq!(parse_mixed_args(b""), Err(error(ParseErrorKind::NoContexts, 0)));
    assert_eq!(parse_mixed_args(b"  "), Err(error(ParseErrorKind::NoContexts, 0)));
    assert_eq!(parse_mixed_args(b"suffix = \"Form\""), Err(error(ParseErrorKind::NoContexts, 0)));
    assert_eq!(parse_mixed_args(b"A B"), Err(error(ParseErrorKind::Malformed, 2)));
    assert_eq!(parse_mixed_args(b", A"), Err(error(ParseErrorKind::Malformed, 0)));
    assert_eq!(parse_mixed_args(b"A,, B"), Err(error(ParseErrorKind::Malformed, 2)));
    assert_eq!(parse_mixed_args(b"A: "), Err(error(ParseErrorKind::Malformed, 3)));
    assert_eq!(parse_mixed_args(b"A: requires(a) optional(b)"), Err(error(ParseErrorKind::Malformed, 15)));
    assert_eq!(parse_mixed_args(b"A: requires(\"a)"), Err(error(ParseErrorKind::Malformed, 12)));
    assert_eq!(parse_mixed_args(b"A: wants(a)"), Err(error(ParseErrorKind::UnknownCall, 3)));
    assert_eq!(parse_mixed_args(b"A, colour = red"), Err(error(ParseErrorKind::UnknownDirective, 3)));
    assert_eq!(parse_mixed_args(b"A, prefix = Form"), Err(error(ParseErrorKind::InvalidValue, 12)));
    assert_eq!(parse_mixed_args(b"A, default = never"), Err(error(ParseErrorKind::InvalidValue, 13)));
    assert_eq!(parse_mixed_args(b"A, default = \"never\""), Err(error(ParseErrorKind::InvalidValue, 13)));
    assert_eq!(parse_mixed_args(b"A, default = 1"), Err(error(ParseErrorKind::InvalidValue, 13)));
    assert_eq!(parse_mixed_args(b"A, build_base = yes"), Err(error(ParseErrorKind::InvalidValue, 16)));
    assert_eq!(parse_mixed_args(b"A, optional_base = \"true\""), Err(error(ParseErrorKind::InvalidValue, 19)));
    assert_eq!(parse_mixed_args(b"A, optional_attrs = a"), Err(error(ParseErrorKind::InvalidValue, 20)));
    assert_eq!(parse_mixed_args(b"A, groups = [a]"), Err(error(ParseErrorKind::InvalidValue, 12)));
}

#[test]
fn older_sources() {
    let rules = RuleSet::from_args(b"Create = requires(a).default(exclude), Read, suffix = \"X\"").unwrap();
    assert_eq!(rules.contexts.len(), 2);
    assert_eq!(rules.contexts[0].required, vec![literal("a")]);
    assert_eq!(rules.contexts[0].default_behavior, Some(Classification::Excluded));
    assert_eq!(rules.suffix, Some(name("X")));
    assert_eq!(
        RuleSet::from_args(b"A, suffix = \"X\", suffix = \"Y\""),
        Err(error(ParseErrorKind::InvalidValue, 17))
    );
    assert_eq!(RuleSet::from_args(b"A, default = exclude"), Err(error(ParseErrorKind::Malformed, 20)));
    assert_eq!(RuleSet::from_args(b"A(requires(a))"), Err(error(ParseErrorKind::Malformed, 1)));
    assert_eq!(RuleSet::from_args(b"prefix = \"X\""), Err(error(ParseErrorKind::NoContexts, 0)));
}
