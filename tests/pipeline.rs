use log_analyzer::coerce::{coerce, CoercedDocument, Value};
use log_analyzer::config::{Field as SchemaField, FieldType, Schema};
use log_analyzer::engine::schema_builder_for;
use log_analyzer::frame::{encode_frame, FrameReader};
use log_analyzer::record::{Document, Field};
use tantivy::collector::{Count, TopDocs};
use tantivy::query::QueryParser;
use tantivy::schema::Field as EngineField;
use tantivy::Index;

fn msg_schema() -> Schema {
    Schema {
        name: "logs".to_string(),
        fields: vec![SchemaField { name: "msg".to_string(), field_type: FieldType::Text }],
    }
}

fn engine_doc(handles: &[EngineField], d: &CoercedDocument) -> tantivy::Document {
    let mut doc = tantivy::Document::new();
    for f in d.fields.iter() {
        match &f.value {
            Value::Text(t) => doc.add_text(handles[f.slot], t),
            other => panic!("unexpected value {:?}", other),
        }
    }
    doc
}

fn record(content: &str) -> Document {
    Document { fields: vec![Field { name: "msg".to_string(), content: content.to_string() }] }
}

fn search(index: &Index, handles: &[EngineField], reader: &tantivy::IndexReader, q: &str) -> (usize, Vec<String>) {
    let parser = QueryParser::for_index(index, handles.to_vec());
    let query = parser.parse_query(q).unwrap();
    let searcher = reader.searcher();
    let (count, top) = searcher.search(&query, &(Count, TopDocs::with_limit(20).and_offset(0))).unwrap();
    let docs = top.iter().map(|(_, a)| index.schema().to_json(&searcher.doc(*a).unwrap())).collect();
    (count, docs)
}

#[test]
fn streamed_record_is_found_after_commit() {
    let schema = msg_schema();
    let (builder, handles) = schema_builder_for(&schema);
    let index = Index::create_in_ram(builder.build());
    let mut writer = index.writer_with_num_threads(1, 15_000_000).unwrap();
    let reader = index.reader().unwrap();

    let frame = encode_frame(&b"hello world".to_vec()).unwrap();
    let mut frames = FrameReader::new();
    frames.push_bytes(&frame);
    let payload = frames.next_frame().unwrap().unwrap();
    let text = String::from_utf8(payload).unwrap();

    let coerced = coerce(&schema, &record(&text)).unwrap();
    writer.add_document(engine_doc(&handles, &coerced)).unwrap();
    assert_eq!(search(&index, &handles, &reader, "hello").0, 0);
    writer.commit().unwrap();
    reader.reload().unwrap();
    let (count, docs) = search(&index, &handles, &reader, "hello");
    assert_eq!(count, 1);
    assert_eq!(docs, vec![r#"{"msg":["hello world"]}"#.to_string()]);

    // a commit with nothing pending neither fails nor repeats a document
    writer.commit().unwrap();
    writer.commit().unwrap();
    reader.reload().unwrap();
    assert_eq!(search(&index, &handles, &reader, "hello").0, 1);
}

#[test]
fn interleaved_connections_lose_and_repeat_nothing() {
    let schema = msg_schema();
    let (builder, handles) = schema_builder_for(&schema);
    let index = Index::create_in_ram(builder.build());
    let mut writer = index.writer_with_num_threads(1, 15_000_000).unwrap();
    let reader = index.reader().unwrap();

    let connections = 4;
    let per_connection = 5;
    let mut streams: Vec<Vec<u8>> = Vec::new();
    for c in 0..connections {
        let mut bytes = Vec::new();
        for m in 0..per_connection {
            let text = format!("entry c{} m{}", c, m);
            bytes.extend(encode_frame(&text.into_bytes()).unwrap());
        }
        streams.push(bytes);
    }
    let mut readers: Vec<FrameReader> = (0..connections).map(|_| FrameReader::new()).collect();
    let mut offsets = vec![0usize; connections];
    let mut seen = vec![Vec::new(); connections];
    while offsets.iter().zip(streams.iter()).any(|(o, s)| *o < s.len()) {
        for c in 0..connections {
            let end = (offsets[c] + 7).min(streams[c].len());
            readers[c].push_bytes(&streams[c][offsets[c]..end]);
            offsets[c] = end;
            while let Some(p) = readers[c].next_frame().unwrap() {
                let text = String::from_utf8(p).unwrap();
                seen[c].push(text.clone());
                let coerced = coerce(&schema, &record(&text)).unwrap();
                writer.add_document(engine_doc(&handles, &coerced)).unwrap();
            }
        }
    }
    for c in 0..connections {
        let expected: Vec<String> = (0..per_connection).map(|m| format!("entry c{} m{}", c, m)).collect();
        assert_eq!(seen[c], expected);
    }
    writer.commit().unwrap();
    reader.reload().unwrap();
    assert_eq!(search(&index, &handles, &reader, "entry").0, connections * per_connection);
}
