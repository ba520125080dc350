use context_variants::attrs::{attr_matches_pattern, should_exclude_from_variants};
use context_variants::classify::{classify_field, find_match, find_mention, resolve_field};
use context_variants::error::{ParseError, ParseErrorKind};
use context_variants::groups::{expand_field_groups, expand_refs, lookup_group};
use context_variants::model::{
    Classification, Context, FieldDescriptor, FieldGroup, FieldRef, RuleSet, TypeExpr,
};
use context_variants::session::{expand_context_variants, field_names, resolve, ResolveError};
use context_variants::text::{bytes_eq, contains_text, join_texts};
use context_variants::validate::{find_matching_lists, validate_fluent_contexts, Diagnostic};

fn name(text: &str) -> Vec<u8> {
    text.as_bytes().to_vec()
}

fn names(list: &[&str]) -> Vec<Vec<u8>> {
    list.iter().map(|n| name(n)).collect()
}

fn literal(text: &str) -> FieldRef {
    FieldRef::Field { name: name(text) }
}

fn wildcard(except: &[&str]) -> FieldRef {
    FieldRef::AllFields { except: names(except) }
}

fn typed(field: &str, ty: &str, optional: bool) -> FieldRef {
    FieldRef::Typed { name: name(field), ty: TypeExpr { text: name(ty), optional } }
}

fn field(name_of: &str, ty: &str) -> FieldDescriptor {
    FieldDescriptor {
        name: name(name_of),
        ty: TypeExpr { text: name(ty), optional: ty.starts_with("Option<") },
        base_only: names(&["base"]),
        when_required: names(&["req"]),
        when_optional: names(&["opt"]),
        skip_defaults: false,
    }
}

fn context(
    name_of: &str,
    required: Vec<FieldRef>,
    optional: Vec<FieldRef>,
    excluded: Vec<FieldRef>,
    default_behavior: Option<Classification>,
) -> Context {
    Context {
        name: name(name_of),
        required,
        optional,
        excluded,
        default_behavior,
        has_chain: true,
        end_position: 9,
    }
}

fn rules(contexts: Vec<Context>) -> RuleSet {
    let mut r = RuleSet::new();
    r.contexts = contexts;
    r.optional_attrs = names(&["shared_opt"]);
    r.required_attrs = names(&["shared_req"]);
    r
}

#[test]
fn matching() {
    let all = names(&["id", "name", "email"]);
    assert!(literal("id").matches_field(b"id", &all));
    assert!(!literal("id").matches_field(b"name", &all));
    assert!(literal("ghost").matches_field(b"ghost", &all));
    assert!(typed("id", "String", false).matches_field(b"id", &all));
    assert!(wildcard(&[]).matches_field(b"email", &all));
    assert!(!wildcard(&[]).matches_field(b"ghost", &all));
    assert!(!wildcard(&["email"]).matches_field(b"email", &all));
    assert!(wildcard(&["email", "ghost"]).matches_field(b"name", &all));
    let unresolved = FieldRef::Group { name: name("g"), except: Vec::new(), position: 0 };
    assert!(!unresolved.matches_field(b"g", &all));
    assert!(!unresolved.matches_field(b"id", &all));
}

#[test]
fn first_match_is_found() {
    let all = names(&["id", "name"]);
    let refs = vec![literal("name"), wildcard(&[]), literal("id")];
    assert_eq!(find_match(&refs, b"id", &all), Some(1));
    assert_eq!(find_match(&refs, b"name", &all), Some(0));
    assert_eq!(find_match(&refs, b"ghost", &all), None);
    assert_eq!(find_match(&Vec::new(), b"id", &all), None);
}

#[test]
fn precedence() {
    let all = names(&["a", "b", "c", "d"]);
    let ctx = context(
        "C",
        vec![literal("a"), literal("b"), literal("c")],
        vec![literal("b"), literal("c")],
        vec![literal("c")],
        None,
    );
    assert_eq!(classify_field(&ctx, None, b"a", &all), Classification::Required);
    assert_eq!(classify_field(&ctx, None, b"b", &all), Classification::Optional);
    assert_eq!(classify_field(&ctx, None, b"c", &all), Classification::Excluded);
    assert_eq!(classify_field(&ctx, None, b"d", &all), Classification::Optional);
    assert_eq!(
        classify_field(&ctx, Some(Classification::Excluded), b"d", &all),
        Classification::Excluded
    );
    assert_eq!(
        classify_field(&ctx, Some(Classification::Required), b"a", &all),
        Classification::Required
    );
    let with_default = context("D", Vec::new(), Vec::new(), Vec::new(), Some(Classification::Required));
    assert_eq!(
        classify_field(&with_default, Some(Classification::Excluded), b"d", &all),
        Classification::Required
    );
    assert_eq!(
        find_matching_lists(&ctx, b"c", &all),
        vec![Classification::Required, Classification::Optional, Classification::Excluded]
    );
    assert_eq!(find_matching_lists(&ctx, b"a", &all), vec![Classification::Required]);
    assert!(find_matching_lists(&ctx, b"d", &all).is_empty());
}

#[test]
fn mention_takes_the_first_matching_reference() {
    let all = names(&["a", "b"]);
    let ctx = context(
        "C",
        vec![wildcard(&[]), typed("a", "Late", false)],
        vec![],
        vec![typed("b", "Gone", false)],
        None,
    );
    let a = find_mention(&ctx, b"a", &all);
    assert_eq!(a.fate, Some(Classification::Required));
    assert_eq!(a.type_override, None);
    let b = find_mention(&ctx, b"b", &all);
    assert_eq!(b.fate, Some(Classification::Excluded));
    assert_eq!(b.type_override, Some(TypeExpr { text: name("Gone"), optional: false }));
    let ctx = context("C", vec![typed("a", "First", false), typed("a", "Second", false)], vec![], vec![], None);
    assert_eq!(
        find_mention(&ctx, b"a", &all).type_override,
        Some(TypeExpr { text: name("First"), optional: false })
    );
}

#[test]
fn entries() {
    let all = names(&["a", "b", "c"]);
    let set = rules(Vec::new());
    let ctx = context("C", vec![literal("a")], vec![typed("b", "T", false)], vec![literal("c")], None);
    let a = resolve_field(&field("a", "u8"), &ctx, &set, &all).unwrap();
    assert_eq!(a.name, name("a"));
    assert_eq!(a.classification, Classification::Required);
    assert_eq!(a.ty, TypeExpr { text: name("u8"), optional: false });
    assert_eq!(a.overlay, names(&["req", "shared_req"]));
    let b = resolve_field(&field("b", "u8"), &ctx, &set, &all).unwrap();
    assert_eq!(b.classification, Classification::Optional);
    assert_eq!(b.ty, TypeExpr { text: name("::core::option::Option<T>"), optional: true });
    assert_eq!(b.overlay, names(&["opt", "shared_opt"]));
    assert_eq!(resolve_field(&field("c", "u8"), &ctx, &set, &all), None);
    let mut shy = field("a", "u8");
    shy.skip_defaults = true;
    assert_eq!(resolve_field(&shy, &ctx, &set, &all).unwrap().overlay, names(&["req"]));
    shy.name = name("b");
    assert_eq!(resolve_field(&shy, &ctx, &set, &all).unwrap().overlay, names(&["opt"]));
}

#[test]
fn group_lookup_takes_the_last_definition() {
    let groups = vec![
        FieldGroup { name: name("g"), members: vec![literal("a")] },
        FieldGroup { name: name("h"), members: vec![literal("b")] },
        FieldGroup { name: name("g"), members: vec![literal("c")] },
    ];
    assert_eq!(lookup_group(&groups, b"g"), Some(2));
    assert_eq!(lookup_group(&groups, b"h"), Some(1));
    assert_eq!(lookup_group(&groups, b"i"), None);
}

#[test]
fn expansion() {
    let all = names(&["a", "b", "c", "d"]);
    let groups = vec![
        FieldGroup { name: name("pair"), members: vec![literal("c"), literal("a"), literal("ghost")] },
        FieldGroup { name: name("rest"), members: vec![wildcard(&["a"])] },
    ];
    let refs = vec![
        literal("pair"),
        literal("d"),
        typed("pair", "T", false),
        wildcard(&["b"]),
        FieldRef::Group { name: name("rest"), except: names(&["c"]), position: 5 },
    ];
    assert_eq!(
        expand_refs(&refs, &groups, &all),
        Ok(vec![
            literal("a"),
            literal("c"),
            literal("d"),
            typed("pair", "T", false),
            wildcard(&["b"]),
            literal("b"),
            literal("d"),
        ])
    );
    let bad = vec![literal("a"), FieldRef::Group { name: name("nope"), except: Vec::new(), position: 31 }];
    assert_eq!(
        expand_refs(&bad, &groups, &all),
        Err(ParseError { kind: ParseErrorKind::UndefinedGroup, position: 31 })
    );
}

#[test]
fn failed_expansion_leaves_the_rules() {
    let all = names(&["a"]);
    let mut set = rules(vec![
        context("A", vec![literal("g")], vec![], vec![], None),
        context(
            "B",
            vec![],
            vec![],
            vec![FieldRef::Group { name: name("h"), except: vec![], position: 3 }],
            None,
        ),
    ]);
    set.groups = vec![FieldGroup { name: name("g"), members: vec![literal("a")] }];
    let before = rules(vec![
        context("A", vec![literal("g")], vec![], vec![], None),
        context(
            "B",
            vec![],
            vec![],
            vec![FieldRef::Group { name: name("h"), except: vec![], position: 3 }],
            None,
        ),
    ]);
    assert_eq!(
        expand_field_groups(&mut set, &all),
        Err(ParseError { kind: ParseErrorKind::UndefinedGroup, position: 3 })
    );
    assert_eq!(set.contexts, before.contexts);
    set.contexts.pop();
    assert_eq!(expand_field_groups(&mut set, &all), Ok(()));
    assert_eq!(set.contexts[0].required, vec![literal("a")]);
}

#[test]
fn validation() {
    let all = names(&["a", "b", "c"]);
    let mut set = rules(vec![
        context("Both", vec![literal("a"), literal("a")], vec![wildcard(&["b", "c"])], vec![], None),
        context("Fine", vec![literal("a"), literal("a")], vec![], vec![], Some(Classification::Excluded)),
    ]);
    let found = validate_fluent_contexts(&set, &all);
    assert_eq!(
        found,
        vec![
            Diagnostic::Conflict {
                context: name("Both"),
                field: name("a"),
                lists: vec![Classification::Required, Classification::Optional],
                position: 9,
            },
            Diagnostic::Coverage { context: name("Both"), fields: names(&["b", "c"]), position: 9 },
        ]
    );
    assert_eq!(found[1].message(), name("context 'Both': missing fields: b, c"));
    set.global_default = Some(Classification::Optional);
    assert_eq!(validate_fluent_contexts(&set, &all).len(), 1);
    set.contexts[0].optional.clear();
    assert!(validate_fluent_contexts(&set, &all).is_empty());
    set.global_default = None;
    set.contexts[0].has_chain = false;
    assert!(validate_fluent_contexts(&set, &all).is_empty());
}

#[test]
fn resolution_of_rules() {
    let fields = vec![field("a", "u8"), field("b", "Option<u8>")];
    assert_eq!(field_names(&fields), names(&["a", "b"]));
    let mut set = rules(vec![context("C", vec![literal("both")], vec![], vec![], None)]);
    set.groups = vec![FieldGroup { name: name("both"), members: vec![wildcard(&[])] }];
    set.prefix = Some(name("Pre"));
    set.build_base = false;
    let unexpanded = expand_context_variants(&set, &fields);
    assert!(matches!(unexpanded, Err(ResolveError::Invalid(ref found)) if found.len() == 1));
    let table = resolve(set, &fields).unwrap();
    assert!(!table.build_base);
    assert_eq!(table.contexts[0].output_name, name("PreC"));
    assert_eq!(table.contexts[0].fields.len(), 2);
    assert_eq!(table.contexts[0].fields[1].ty, TypeExpr { text: name("Option<u8>"), optional: true });
}

#[test]
fn texts() {
    assert!(bytes_eq(b"abc", b"abc"));
    assert!(!bytes_eq(b"abc", b"abd"));
    assert!(!bytes_eq(b"abc", b"ab"));
    assert!(bytes_eq(b"", b""));
    assert!(contains_text(&names(&["a", "bc"]), b"bc"));
    assert!(!contains_text(&names(&["a", "bc"]), b"b"));
    assert_eq!(join_texts(&names(&[]), b", "), name(""));
    assert_eq!(join_texts(&names(&["a"]), b", "), name("a"));
    assert_eq!(join_texts(&names(&["a", "", "c"]), b", "), name("a, , c"));
}

#[test]
fn attribute_patterns() {
    assert!(attr_matches_pattern(b"derive", b"derive"));
    assert!(attr_matches_pattern(b"sqlx::FromRow", b"FromRow"));
    assert!(attr_matches_pattern(b"sqlx::FromRow", b"sqlx::FromRow"));
    assert!(attr_matches_pattern(b"a::b::c", b"b::c"));
    assert!(!attr_matches_pattern(b"sqlx::FromRow", b"Row"));
    assert!(!attr_matches_pattern(b"sqlx::FromRow", b"sqlx"));
    assert!(!attr_matches_pattern(b"serde", b"::serde"));
    assert!(attr_matches_pattern(b"a::", b""));
    assert!(should_exclude_from_variants(b"diesel::table_name", &names(&["sqlx", "table_name"])));
    assert!(!should_exclude_from_variants(b"serde", &names(&["sqlx", "table_name"])));
    assert!(!should_exclude_from_variants(b"serde", &Vec::new()));
}
