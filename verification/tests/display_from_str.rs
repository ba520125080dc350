use context_variants::model::{Classification, FieldDescriptor, TypeExpr};
use context_variants::session::ResolvedTable;
use context_variants::variants;

fn request() -> (Vec<FieldDescriptor>, ResolvedTable) {
    let fields = vec![FieldDescriptor {
        name: b"id".to_vec(),
        ty: TypeExpr { text: b"u64".to_vec(), optional: false },
        base_only: vec![b"serde_as(as = \"Option<DisplayFromStr>\")".to_vec()],
        when_required: vec![b"serde_as(as = \"DisplayFromStr\")".to_vec()],
        when_optional: vec![b"serde_as(as = \"Option<DisplayFromStr>\")".to_vec()],
        skip_defaults: false,
    }];
    let table = variants(
        b"suffix = \"Request\",
    optional_base = true,
    Received: requires(id).default(optional),",
        &fields,
    )
    .unwrap();
    (fields, table)
}

#[test]
fn test_base_request_serialization() {
    let (fields, table) = request();
    assert!(table.build_base);
    assert!(table.optional_base);
    assert_eq!(
        fields[0].ty.wrap_optional(),
        TypeExpr { text: b"::core::option::Option<u64>".to_vec(), optional: true }
    );
}

#[test]
fn test_base_request_default() {
    let (fields, table) = request();
    assert!(table.optional_base);
    assert!(fields[0].ty.wrap_optional().optional);
}

#[test]
fn test_received_request_serialization() {
    let (_, table) = request();
    assert_eq!(table.contexts.len(), 1);
    assert_eq!(table.contexts[0].output_name, b"ReceivedRequest".to_vec());
    let id = &table.contexts[0].fields[0];
    assert_eq!(id.classification, Classification::Required);
    assert_eq!(id.overlay, vec![b"serde_as(as = \"DisplayFromStr\")".to_vec()]);
}

#[test]
fn test_received_request_deserialization() {
    let (_, table) = request();
    let id = &table.contexts[0].fields[0];
    assert_eq!(id.name, b"id".to_vec());
    assert_eq!(id.ty, TypeExpr { text: b"u64".to_vec(), optional: false });
}
