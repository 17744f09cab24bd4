use log_analyzer::config::{Field as SchemaField, FieldType, Schema};
use log_analyzer::engine::{register_fields, schema_builder_for};
use log_analyzer::extract::{record_from_groups, strip_line_end, Extractor};
use tantivy::schema::FieldType as EngineType;

fn pairs(d: &log_analyzer::record::Document) -> Vec<(String, String)> {
    d.fields.iter().map(|f| (f.name.clone(), f.content.clone())).collect()
}

#[test]
fn named_groups_become_fields() {
    let ex = Extractor::new(r"^(?P<level>\w+): (?P<msg>.+)$").unwrap();
    let d = ex.extract("ERROR: disk full");
    assert_eq!(
        pairs(&d),
        vec![("level".to_string(), "ERROR".to_string()), ("msg".to_string(), "disk full".to_string())]
    );
}

#[test]
fn empty_group_is_omitted() {
    let ex = Extractor::new(r"^(?P<level>\w*):(?P<msg>.*)$").unwrap();
    let d = ex.extract(":only message");
    assert_eq!(pairs(&d), vec![("msg".to_string(), "only message".to_string())]);
}

#[test]
fn line_without_match_gives_empty_record() {
    let ex = Extractor::new(r"^(?P<level>\w+): (?P<msg>.+)$").unwrap();
    assert!(ex.extract("no separator here").fields.is_empty());
}

#[test]
fn unnamed_groups_give_no_field() {
    let ex = Extractor::new(r"(\d+)-(?P<tail>\d+)").unwrap();
    let d = ex.extract("12-34 and 5-6");
    assert_eq!(
        pairs(&d),
        vec![("tail".to_string(), "34".to_string()), ("tail".to_string(), "6".to_string())]
    );
}

#[test]
fn invalid_pattern_is_refused() {
    assert!(Extractor::new("(?P<open>").is_none());
}

#[test]
fn record_from_group_texts() {
    let names = vec![None, Some("a".to_string()), None, Some("b".to_string())];
    let matches = vec![
        vec![Some("x=1".to_string()), Some("x".to_string()), Some("=".to_string()), Some("".to_string())],
        vec![Some("y".to_string()), None, None, Some("y".to_string())],
    ];
    let d = record_from_groups(&names, &matches);
    assert_eq!(pairs(&d), vec![("a".to_string(), "x".to_string()), ("b".to_string(), "y".to_string())]);
    assert!(record_from_groups(&names, &vec![]).fields.is_empty());
}

#[test]
fn schema_fields_are_registered_in_order() {
    let schema = Schema {
        name: "logs".to_string(),
        fields: vec![
            SchemaField { name: "msg".to_string(), field_type: FieldType::Text },
            SchemaField { name: "ts".to_string(), field_type: FieldType::Date },
            SchemaField { name: "n".to_string(), field_type: FieldType::Integer64 },
            SchemaField { name: "u".to_string(), field_type: FieldType::Unsigned64 },
            SchemaField { name: "f".to_string(), field_type: FieldType::Float64 },
        ],
    };
    let (builder, handles) = schema_builder_for(&schema);
    let built = builder.build();
    assert_eq!(handles.len(), 5);
    let names = ["msg", "ts", "n", "u", "f"];
    for (i, name) in names.iter().enumerate() {
        assert_eq!(built.get_field(name), Some(handles[i]));
        let entry = built.get_field_entry(handles[i]);
        assert_eq!(entry.name(), *name);
        assert!(entry.is_stored());
        assert!(entry.is_indexed());
    }
    assert_eq!(built.num_fields(), 5);
    assert!(matches!(built.get_field_entry(handles[0]).field_type(), EngineType::Str(_)));
    assert!(matches!(built.get_field_entry(handles[1]).field_type(), EngineType::Date(_)));
    assert!(matches!(built.get_field_entry(handles[2]).field_type(), EngineType::I64(_)));
    assert!(matches!(built.get_field_entry(handles[3]).field_type(), EngineType::U64(_)));
    assert!(matches!(built.get_field_entry(handles[4]).field_type(), EngineType::F64(_)));
}

#[test]
fn line_terminator_is_stripped_once() {
    assert_eq!(strip_line_end("ERROR: disk full\n"), "ERROR: disk full");
    assert_eq!(strip_line_end("a\r\n"), "a");
    assert_eq!(strip_line_end("a\n\n"), "a\n");
    assert_eq!(strip_line_end("\r"), "\r");
    assert_eq!(strip_line_end(""), "");
    assert_eq!(strip_line_end("été\n"), "été");
}

#[test]
fn read_line_is_extracted_without_terminator() {
    let ex = Extractor::new(r"^(?P<level>\w+): (?P<msg>.+)$").unwrap();
    let d = ex.extract(strip_line_end("WARN: low memory\n"));
    assert_eq!(
        pairs(&d),
        vec![("level".to_string(), "WARN".to_string()), ("msg".to_string(), "low memory".to_string())]
    );
}

#[test]
fn registering_appends_after_existing_fields() {
    let first = Schema {
        name: "a".to_string(),
        fields: vec![SchemaField { name: "msg".to_string(), field_type: FieldType::Text }],
    };
    let second = Schema {
        name: "b".to_string(),
        fields: vec![SchemaField { name: "count".to_string(), field_type: FieldType::Unsigned64 }],
    };
    let (mut builder, first_handles) = schema_builder_for(&first);
    let second_handles = register_fields(&mut builder, &second);
    let built = builder.build();
    assert_eq!(built.num_fields(), 2);
    assert_eq!(built.get_field("msg"), Some(first_handles[0]));
    assert_eq!(built.get_field("count"), Some(second_handles[0]));
    assert_ne!(first_handles[0], second_handles[0]);
}
