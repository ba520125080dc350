use context_variants::model::{Classification, FieldDescriptor, TypeExpr};
use context_variants::session::{ResolvedContext, ResolvedTable};
use context_variants::variants;

fn field(name: &str, ty: &str) -> FieldDescriptor {
    FieldDescriptor {
        name: name.as_bytes().to_vec(),
        ty: TypeExpr { text: ty.as_bytes().to_vec(), optional: ty.starts_with("Option<") },
        base_only: Vec::new(),
        when_required: Vec::new(),
        when_optional: Vec::new(),
        skip_defaults: false,
    }
}

fn tagged(name: &str, ty: &str, base: &[&str], required: &[&str], optional: &[&str]) -> FieldDescriptor {
    let mut f = field(name, ty);
    f.base_only = base.iter().map(|t| t.as_bytes().to_vec()).collect();
    f.when_required = required.iter().map(|t| t.as_bytes().to_vec()).collect();
    f.when_optional = optional.iter().map(|t| t.as_bytes().to_vec()).collect();
    f
}

fn text(bytes: &[u8]) -> String {
    String::from_utf8(bytes.to_vec()).unwrap()
}

fn shape(ctx: &ResolvedContext) -> Vec<(String, Classification, String)> {
    ctx.fields.iter().map(|f| (text(&f.name), f.classification, text(&f.ty.text))).collect()
}

fn overlay(ctx: &ResolvedContext, name: &str) -> Vec<String> {
    let entry = ctx.fields.iter().find(|f| f.name == name.as_bytes()).unwrap();
    entry.overlay.iter().map(|t| text(t)).collect()
}

fn context<'a>(table: &'a ResolvedTable, output_name: &str) -> &'a ResolvedContext {
    table.contexts.iter().find(|c| c.output_name == output_name.as_bytes()).unwrap()
}

fn entry(name: &str, c: Classification, ty: &str) -> (String, Classification, String) {
    (name.to_string(), c, ty.to_string())
}

const OPT: &str = "::core::option::Option<";

fn opt(ty: &str) -> String {
    format!("{}{}>", OPT, ty)
}

fn user_form() -> ResolvedTable {
    let fields =
        vec![field("name", "String"), field("id", "u64"), field("email", "String"), field("password", "String")];
    variants(
        b"Create: requires(name).excludes(email, password,id),
    Update: requires(id, name).optional(email).excludes(password),
    suffix = \"Form\"",
        &fields,
    )
    .unwrap()
}

#[test]
fn test_user_form() {
    let table = user_form();
    assert!(table.build_base);
    assert!(!table.optional_base);
    let names: Vec<String> = table.contexts.iter().map(|c| text(&c.output_name)).collect();
    assert_eq!(names, vec!["CreateForm".to_string(), "UpdateForm".to_string()]);
}

#[test]
fn test_create_form() {
    let table = user_form();
    assert_eq!(
        shape(context(&table, "CreateForm")),
        vec![entry("name", Classification::Required, "String")]
    );
}

#[test]
fn test_update_form() {
    let table = user_form();
    assert_eq!(
        shape(context(&table, "UpdateForm")),
        vec![
            entry("name", Classification::Required, "String"),
            entry("id", Classification::Required, "u64"),
            entry("email", Classification::Optional, &opt("String")),
        ]
    );
}

#[test]
fn test_method_chaining() {
    let fields = vec![
        field("id", "u64"),
        field("name", "String"),
        field("email", "String"),
        field("password", "String"),
        field("metadata", "Option<serde_json::Value>"),
        field("admin", "bool"),
    ];
    let table = variants(
        b"Create: requires(name, email).default(exclude),
    Update: requires(id, name).optional(email).default(optional).excludes(password,admin),
    Read: requires(id).optional(name, email).default(exclude),
    default = exclude,
    suffix = \"Data\"",
        &fields,
    )
    .unwrap();
    assert_eq!(
        shape(context(&table, "CreateData")),
        vec![
            entry("name", Classification::Required, "String"),
            entry("email", Classification::Required, "String"),
        ]
    );
    assert_eq!(
        shape(context(&table, "UpdateData")),
        vec![
            entry("id", Classification::Required, "u64"),
            entry("name", Classification::Required, "String"),
            entry("email", Classification::Optional, &opt("String")),
            entry("metadata", Classification::Optional, "Option<serde_json::Value>"),
        ]
    );
    assert_eq!(
        shape(context(&table, "ReadData")),
        vec![
            entry("id", Classification::Required, "u64"),
            entry("name", Classification::Optional, &opt("String")),
            entry("email", Classification::Optional, &opt("String")),
        ]
    );
}

#[test]
fn test_field_groups_syntax() {
    let fields = vec![
        field("user_id", "String"),
        field("token", "String"),
        field("name", "String"),
        field("email", "String"),
        field("metadata", "Option<String>"),
    ];
    let table = variants(
        b"prefix = \"UserRequest\",
        groups = (
            auth(user_id, token),
            contact(name, email)
        ),
        Login: requires(auth).default(exclude),
        Register: requires(contact).optional(auth).default(exclude),
        Update: requires(auth, name).default(exclude),
    ",
        &fields,
    )
    .unwrap();
    assert_eq!(
        shape(context(&table, "UserRequestLogin")),
        vec![
            entry("user_id", Classification::Required, "String"),
            entry("token", Classification::Required, "String"),
        ]
    );
    assert_eq!(
        shape(context(&table, "UserRequestRegister")),
        vec![
            entry("user_id", Classification::Optional, &opt("String")),
            entry("token", Classification::Optional, &opt("String")),
            entry("name", Classification::Required, "String"),
            entry("email", Classification::Required, "String"),
        ]
    );
    assert_eq!(
        shape(context(&table, "UserRequestUpdate")),
        vec![
            entry("user_id", Classification::Required, "String"),
            entry("token", Classification::Required, "String"),
            entry("name", Classification::Required, "String"),
        ]
    );
}

#[test]
fn test_conditional_attributes() {
    let fields = vec![
        tagged(
            "email",
            "String",
            &["doc = \"Email field with base-only documentation\""],
            &["serde(rename = \"email_address\")"],
            &["serde(skip_serializing_if = \"Option::is_none\")"],
        ),
        tagged(
            "password",
            "String",
            &["serde(rename = \"base_password\")"],
            &["serde(rename = \"pwd\")"],
            &["serde(default)"],
        ),
        tagged("username", "String", &["doc = \"Username with base documentation\""], &[], &[]),
    ];
    let table = variants(
        b"Login: requires(email, password, username).default(exclude),
    Profile: requires(username).optional(email).excludes(password),
    suffix = \"Form\"",
        &fields,
    )
    .unwrap();
    let login = context(&table, "LoginForm");
    assert_eq!(
        shape(login),
        vec![
            entry("email", Classification::Required, "String"),
            entry("password", Classification::Required, "String"),
            entry("username", Classification::Required, "String"),
        ]
    );
    assert_eq!(overlay(login, "email"), vec!["serde(rename = \"email_address\")".to_string()]);
    assert_eq!(overlay(login, "password"), vec!["serde(rename = \"pwd\")".to_string()]);
    assert!(overlay(login, "username").is_empty());
    assert!(!overlay(login, "password").iter().any(|t| t.contains("base_password")));
    let profile = context(&table, "ProfileForm");
    assert_eq!(
        shape(profile),
        vec![
            entry("email", Classification::Optional, &opt("String")),
            entry("username", Classification::Required, "String"),
        ]
    );
    assert_eq!(
        overlay(profile, "email"),
        vec!["serde(skip_serializing_if = \"Option::is_none\")".to_string()]
    );
    assert!(profile.fields.iter().all(|f| !f.overlay.iter().any(|t| text(t).contains("base_password"))));
}

#[test]
fn test_context_level_attributes() {
    let fields = vec![
        field("id", "u64"),
        field("name", "String"),
        tagged(
            "email",
            "String",
            &["serde(deserialize_with = \"deserialize_email_base\")"],
            &["serde(deserialize_with = \"deserialize_email_required\")"],
            &["serde(deserialize_with = \"deserialize_email_optional\")"],
        ),
        field("password", "String"),
        field("admin", "bool"),
        field("metadata", "Option<serde_json::Value>"),
    ];
    let table = variants(
        b"Create: requires(name, email, password).excludes(id, admin, metadata),
    Update: requires(id, name, admin).optional(email, metadata).excludes(password),
    Read: requires(id, admin).optional(name, email, metadata).excludes(password),
    optional_attrs = [serde(skip_serializing_if = \"Option::is_none\"), serde(default)],
    suffix = \"Entity\"",
        &fields,
    )
    .unwrap();
    let create = context(&table, "CreateEntity");
    assert_eq!(
        shape(create),
        vec![
            entry("name", Classification::Required, "String"),
            entry("email", Classification::Required, "String"),
            entry("password", Classification::Required, "String"),
        ]
    );
    assert_eq!(
        overlay(create, "email"),
        vec!["serde(deserialize_with = \"deserialize_email_required\")".to_string()]
    );
    let update = context(&table, "UpdateEntity");
    assert_eq!(
        shape(update),
        vec![
            entry("id", Classification::Required, "u64"),
            entry("name", Classification::Required, "String"),
            entry("email", Classification::Optional, &opt("String")),
            entry("admin", Classification::Required, "bool"),
            entry("metadata", Classification::Optional, "Option<serde_json::Value>"),
        ]
    );
    assert_eq!(
        overlay(update, "email"),
        vec![
            "serde(deserialize_with = \"deserialize_email_optional\")".to_string(),
            "serde(skip_serializing_if = \"Option::is_none\")".to_string(),
            "serde(default)".to_string(),
        ]
    );
    assert_eq!(
        overlay(update, "metadata"),
        vec!["serde(skip_serializing_if = \"Option::is_none\")".to_string(), "serde(default)".to_string()]
    );
    assert!(overlay(update, "id").is_empty());
    let read = context(&table, "ReadEntity");
    assert_eq!(
        shape(read),
        vec![
            entry("id", Classification::Required, "u64"),
            entry("name", Classification::Optional, &opt("String")),
            entry("email", Classification::Optional, &opt("String")),
            entry("admin", Classification::Required, "bool"),
            entry("metadata", Classification::Optional, "Option<serde_json::Value>"),
        ]
    );
}

#[test]
fn test_all_fields_functionality() {
    let fields = vec![
        field("id", "u64"),
        field("name", "String"),
        field("email", "String"),
        field("password", "String"),
        field("admin", "bool"),
        field("metadata", "Option<serde_json::Value>"),
    ];
    let table = variants(
        b"Create: requires(name, email).excludes(id, admin, password).default(optional),
    Update: requires(id).optional(all_fields().except(password, admin,id)).default(exclude),
    Read: requires(id).optional(all_fields().except(password,id)).default(exclude),
    suffix = \"Model\"",
        &fields,
    )
    .unwrap();
    assert_eq!(
        shape(context(&table, "CreateModel")),
        vec![
            entry("name", Classification::Required, "String"),
            entry("email", Classification::Required, "String"),
            entry("metadata", Classification::Optional, "Option<serde_json::Value>"),
        ]
    );
    assert_eq!(
        shape(context(&table, "UpdateModel")),
        vec![
            entry("id", Classification::Required, "u64"),
            entry("name", Classification::Optional, &opt("String")),
            entry("email", Classification::Optional, &opt("String")),
            entry("metadata", Classification::Optional, "Option<serde_json::Value>"),
        ]
    );
    assert_eq!(
        shape(context(&table, "ReadModel")),
        vec![
            entry("id", Classification::Required, "u64"),
            entry("name", Classification::Optional, &opt("String")),
            entry("email", Classification::Optional, &opt("String")),
            entry("admin", Classification::Optional, &opt("bool")),
            entry("metadata", Classification::Optional, "Option<serde_json::Value>"),
        ]
    );
}
