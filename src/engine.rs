//! Declaration of the schema's fields to the index engine.
use vstd::prelude::*;
use crate::config::{FieldType, Schema, valid_field_name, valid_field_names};
use tantivy::schema::Field as EngineField;

verus! {

#[verifier::external_type_specification]
#[verifier::external_body]
pub struct ExSchemaBuilder(tantivy::schema::SchemaBuilder);

#[verifier::external_type_specification]
#[verifier::external_body]
pub struct ExEngineField(EngineField);

/// The field entries that an engine schema builder holds, in the order in
/// which they were added: each name with the kind of field it was added as.
pub uninterp spec fn registered(b: tantivy::schema::SchemaBuilder) -> Seq<(Seq<char>, FieldType)>;

/// Relies on tantivy's `Schema::builder`: a builder without entries.
#[verifier::external_body]
fn new_schema_builder() -> (r: tantivy::schema::SchemaBuilder)
    ensures
        registered(r) == Seq::<(Seq<char>, FieldType)>::empty(),
{
    tantivy::schema::Schema::builder()
}

/// Relies on tantivy's `SchemaBuilder::add_text_field`, stored and tokenized
/// for full-text search: appends one text entry.
/// tantivy asserts `is_valid_field_name` on the name, hence the `requires`.
#[verifier::external_body]
fn add_text_field(b: &mut tantivy::schema::SchemaBuilder, name: &str) -> (r:
    EngineField)
    requires
        valid_field_name(name@),
    ensures
        registered(*final(b)) == registered(*old(b)).push((name@, FieldType::Text)),
{
    b.add_text_field(name, tantivy::schema::STORED | tantivy::schema::TEXT)
}

/// Relies on tantivy's `SchemaBuilder::add_date_field`, stored and indexed:
/// appends one date entry.
/// tantivy asserts `is_valid_field_name` on the name, hence the `requires`.
#[verifier::external_body]
fn add_date_field(b: &mut tantivy::schema::SchemaBuilder, name: &str) -> (r:
    EngineField)
    requires
        valid_field_name(name@),
    ensures
        registered(*final(b)) == registered(*old(b)).push((name@, FieldType::Date)),
{
    b.add_date_field(name, tantivy::schema::STORED | tantivy::schema::INDEXED)
}

/// Relies on tantivy's `SchemaBuilder::add_i64_field`, stored and indexed:
/// appends one signed integer entry.
/// tantivy asserts `is_valid_field_name` on the name, hence the `requires`.
#[verifier::external_body]
fn add_i64_field(b: &mut tantivy::schema::SchemaBuilder, name: &str) -> (r:
    EngineField)
    requires
        valid_field_name(name@),
    ensures
        registered(*final(b)) == registered(*old(b)).push((name@, FieldType::Integer64)),
{
    b.add_i64_field(name, tantivy::schema::STORED | tantivy::schema::INDEXED)
}

/// Relies on tantivy's `SchemaBuilder::add_u64_field`, stored and indexed:
/// appends one unsigned integer entry.
/// tantivy asserts `is_valid_field_name` on the name, hence the `requires`.
#[verifier::external_body]
fn add_u64_field(b: &mut tantivy::schema::SchemaBuilder, name: &str) -> (r:
    EngineField)
    requires
        valid_field_name(name@),
    ensures
        registered(*final(b)) == registered(*old(b)).push((name@, FieldType::Unsigned64)),
{
    b.add_u64_field(name, tantivy::schema::STORED | tantivy::schema::INDEXED)
}

/// Relies on tantivy's `SchemaBuilder::add_f64_field`, stored and indexed:
/// appends one floating-point entry.
/// tantivy asserts `is_valid_field_name` on the name, hence the `requires`.
#[verifier::external_body]
fn add_float_field(b: &mut tantivy::schema::SchemaBuilder, name: &str) -> (r:
    EngineField)
    requires
        valid_field_name(name@),
    ensures
        registered(*final(b)) == registered(*old(b)).push((name@, FieldType::Float64)),
{
    b.add_f64_field(name, tantivy::schema::STORED | tantivy::schema::INDEXED)
}

/// Adds every field of the schema to the engine's schema builder, in order
/// and each as its declared type, and gives the engine's handles in the same
/// order, so that a schema position is also the position of its handle.
pub fn register_fields(b: &mut tantivy::schema::SchemaBuilder, schema: &Schema) -> (r: Vec<
    EngineField,
>)
    requires
        valid_field_names(schema@),
    ensures
        registered(*final(b)) == registered(*old(b)) + schema@,
        r@.len() == schema@.len(),
{
    let ghost start = registered(*b);
    let mut handles: Vec<EngineField> = Vec::new();
    let mut i: usize = 0;
    while i < schema.fields.len()
        invariant
            i <= schema@.len(),
            handles@.len() == i,
            registered(*b) == start + schema@.subrange(0, i as int),
            valid_field_names(schema@),
        decreases schema@.len() - i,
    {
        let field = &schema.fields[i];
        let name = field.name.as_str();
        assert(schema@[i as int].0 == name@);
        let handle = match field.field_type {
            FieldType::Text => add_text_field(b, name),
            FieldType::Date => add_date_field(b, name),
            FieldType::Integer64 => add_i64_field(b, name),
            FieldType::Unsigned64 => add_u64_field(b, name),
            FieldType::Float64 => add_float_field(b, name),
        };
        handles.push(handle);
        assert(schema@[i as int] == (field.name@, field.field_type));
        assert(schema@.subrange(0, i + 1) =~= schema@.subrange(0, i as int).push(schema@[i as int]));
        i = i + 1;
    }
    assert(schema@.subrange(0, schema@.len() as int) =~= schema@);
    handles
}

/// An engine schema builder that holds exactly the schema's fields, in order
/// and each as its declared type, with the engine's handles in the same order.
pub fn schema_builder_for(schema: &Schema) -> (r: (tantivy::schema::SchemaBuilder, Vec<EngineField>))
    requires
        valid_field_names(schema@),
    ensures
        registered(r.0) == schema@,
        r.1@.len() == schema@.len(),
{
    let mut builder = new_schema_builder();
    let handles = register_fields(&mut builder, schema);
    assert(Seq::<(Seq<char>, FieldType)>::empty() + schema@ =~= schema@);
    (builder, handles)
}

} // verus!
