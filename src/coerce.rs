//! Coercion of records against the schema: every field is looked up and its
//! text read as the declared type, or the whole record is rejected.
use vstd::prelude::*;
use crate::config::{FieldType, Schema, declares, lemma_slot_of, slot_of};
use crate::decimal::{digits_only, float_text, is_float_text};
use crate::record::Document;

verus! {

/// An instant, as seconds since the Unix epoch and nanoseconds past that
/// second (above a billion only within a leap second).
#[derive(Clone, Copy, PartialEq, Eq, Structural, Debug)]
pub struct Timestamp {
    pub seconds: i64,
    pub nanos: u32,
}

/// A field value of the declared type. A `Float64` value keeps its text, which
/// is that of a floating-point number: this library holds no floating-point
/// values, and the number is read where the document is handed on.
#[derive(Clone, PartialEq, Debug)]
pub enum Value {
    Text(String),
    Date(Timestamp),
    Integer64(i64),
    Unsigned64(u64),
    Float64(String),
}

/// The mathematical content of a `Value`.
pub enum ValueView {
    Text(Seq<char>),
    Date(Timestamp),
    Integer64(i64),
    Unsigned64(u64),
    Float64(Seq<char>),
}

impl View for Value {
    type V = ValueView;

    open spec fn view(&self) -> ValueView {
        match self {
            Value::Text(s) => ValueView::Text(s@),
            Value::Date(t) => ValueView::Date(*t),
            Value::Integer64(v) => ValueView::Integer64(*v),
            Value::Unsigned64(v) => ValueView::Unsigned64(*v),
            Value::Float64(s) => ValueView::Float64(s@),
        }
    }
}

/// A coerced field: the schema position that declares it, and its value.
#[derive(Clone, PartialEq, Debug)]
pub struct CoercedField {
    pub slot: usize,
    pub value: Value,
}

/// A record whose every field was found in the schema and read as its type.
#[derive(Clone, PartialEq, Debug)]
pub struct CoercedDocument {
    pub fields: Vec<CoercedField>,
}

impl View for CoercedField {
    type V = (int, ValueView);

    open spec fn view(&self) -> (int, ValueView) {
        (self.slot as int, self.value@)
    }
}

impl View for CoercedDocument {
    type V = Seq<(int, ValueView)>;

    open spec fn view(&self) -> Seq<(int, ValueView)> {
        self.fields@.map_values(|f: CoercedField| f@)
    }
}

/// Why a field made its record fail.
#[derive(Clone, Copy, PartialEq, Eq, Structural, Debug)]
pub enum Problem {
    /// The schema declares no field of this name.
    UnknownField,
    /// An earlier field of the record has the same name.
    DuplicateField,
    /// The content cannot be read as the declared type.
    InvalidContent,
}

/// A rejected record: the position of the first failing field, and why.
#[derive(Clone, Copy, PartialEq, Eq, Structural, Debug)]
pub struct CoerceError {
    pub position: usize,
    pub problem: Problem,
}

/// The number that a string of decimal digits spells.
pub open spec fn digits_value(s: Seq<char>) -> int
    decreases s.len(),
{
    if s.len() == 0 {
        0
    } else {
        10 * digits_value(s.drop_last()) + ((s.last() as u32) as int - ('0' as u32) as int)
    }
}

/// The integer of an optional `+` or `-` sign followed by decimal digits.
pub open spec fn signed_decimal(s: Seq<char>) -> Option<int> {
    if s.len() > 0 && s[0] == '-' && digits_only(s.drop_first()) {
        Some(-digits_value(s.drop_first()))
    } else if s.len() > 0 && s[0] == '+' && digits_only(s.drop_first()) {
        Some(digits_value(s.drop_first()))
    } else if digits_only(s) {
        Some(digits_value(s))
    } else {
        None
    }
}

/// The integer of an optional `+` sign followed by decimal digits.
pub open spec fn unsigned_decimal(s: Seq<char>) -> Option<int> {
    if s.len() > 0 && s[0] == '+' && digits_only(s.drop_first()) {
        Some(digits_value(s.drop_first()))
    } else if digits_only(s) {
        Some(digits_value(s))
    } else {
        None
    }
}

/// The `i64` that the text spells, where it spells one in range.
pub open spec fn i64_of_text(s: Seq<char>) -> Option<i64> {
    match signed_decimal(s) {
        Some(v) => if i64::MIN <= v <= i64::MAX { Some(v as i64) } else { None },
        None => None,
    }
}

/// The `u64` that the text spells, where it spells one in range.
pub open spec fn u64_of_text(s: Seq<char>) -> Option<u64> {
    match unsigned_decimal(s) {
        Some(v) => if 0 <= v <= u64::MAX { Some(v as u64) } else { None },
        None => None,
    }
}

/// The instant of an RFC 3339 timestamp, as seconds since the Unix epoch and
/// nanoseconds past that second, or `None` where the text is not one.
pub uninterp spec fn rfc3339_of(s: Seq<char>) -> Option<(i64, u32)>;

/// Relies on `<i64 as FromStr>::from_str`: an optional sign and decimal
/// digits, in range, and nothing else.
#[verifier::external_body]
fn parse_i64(s: &str) -> (r: Option<i64>)
    ensures
        r == i64_of_text(s@),
{
    <i64 as std::str::FromStr>::from_str(s).ok()
}

/// Relies on `<u64 as FromStr>::from_str`: an optional `+` and decimal
/// digits, in range, and nothing else.
#[verifier::external_body]
fn parse_u64(s: &str) -> (r: Option<u64>)
    ensures
        r == u64_of_text(s@),
{
    <u64 as std::str::FromStr>::from_str(s).ok()
}

/// Relies on chrono's `DateTime::parse_from_rfc3339`, read back through
/// `timestamp` and `timestamp_subsec_nanos`.
#[verifier::external_body]
fn parse_rfc3339(s: &str) -> (r: Option<(i64, u32)>)
    ensures
        r == rfc3339_of(s@),
{
    chrono::DateTime::parse_from_rfc3339(s).ok().map(|d| (d.timestamp(), d.timestamp_subsec_nanos()))
}

/// The value that text `c` gives for declared type `t`, or `None` where it
/// cannot be read as that type.
pub open spec fn typed_value(t: FieldType, c: Seq<char>) -> Option<ValueView> {
    match t {
        FieldType::Text => Some(ValueView::Text(c)),
        FieldType::Date => match rfc3339_of(c) {
            Some(p) => Some(ValueView::Date(Timestamp { seconds: p.0, nanos: p.1 })),
            None => None,
        },
        FieldType::Integer64 => match i64_of_text(c) {
            Some(v) => Some(ValueView::Integer64(v)),
            None => None,
        },
        FieldType::Unsigned64 => match u64_of_text(c) {
            Some(v) => Some(ValueView::Unsigned64(v)),
            None => None,
        },
        FieldType::Float64 => if float_text(c) {
            Some(ValueView::Float64(c))
        } else {
            None
        },
    }
}

/// Field `i` of the record has a name that an earlier field has too.
pub open spec fn repeats_earlier(rec: Seq<(Seq<char>, Seq<char>)>, i: int) -> bool {
    exists|j: int| 0 <= j < i && rec[j].0 == rec[i].0
}

/// What is wrong with field `i` of the record, or `None` where it coerces.
pub open spec fn field_problem(
    s: Seq<(Seq<char>, FieldType)>,
    rec: Seq<(Seq<char>, Seq<char>)>,
    i: int,
) -> Option<Problem> {
    if !declares(s, rec[i].0) {
        Some(Problem::UnknownField)
    } else if repeats_earlier(rec, i) {
        Some(Problem::DuplicateField)
    } else if typed_value(s[slot_of(s, rec[i].0)].1, rec[i].1) is None {
        Some(Problem::InvalidContent)
    } else {
        None
    }
}

/// Every field of the record coerces.
pub open spec fn coercible(s: Seq<(Seq<char>, FieldType)>, rec: Seq<(Seq<char>, Seq<char>)>) -> bool {
    forall|i: int| 0 <= i < rec.len() ==> field_problem(s, rec, i) is None
}

/// The coerced form of one field that coerces.
pub open spec fn coerced_field(s: Seq<(Seq<char>, FieldType)>, f: (Seq<char>, Seq<char>)) -> (
    int,
    ValueView,
) {
    let k = slot_of(s, f.0);
    (k, typed_value(s[k].1, f.1).unwrap())
}

/// Reads `content` as declared type `t`.
pub fn coerce_content(t: FieldType, content: &String) -> (r: Option<Value>)
    ensures
        match r {
            Some(v) => typed_value(t, content@) == Some(v@),
            None => typed_value(t, content@) is None,
        },
{
    match t {
        FieldType::Text => Some(Value::Text(content.clone())),
        FieldType::Date => match parse_rfc3339(content.as_str()) {
            Some(p) => Some(Value::Date(Timestamp { seconds: p.0, nanos: p.1 })),
            None => None,
        },
        FieldType::Integer64 => match parse_i64(content.as_str()) {
            Some(v) => Some(Value::Integer64(v)),
            None => None,
        },
        FieldType::Unsigned64 => match parse_u64(content.as_str()) {
            Some(v) => Some(Value::Unsigned64(v)),
            None => None,
        },
        FieldType::Float64 => if is_float_text(content.as_str()) {
            Some(Value::Float64(content.clone()))
        } else {
            None
        },
    }
}

/// Coerces a record against the schema. It succeeds exactly when every field
/// is declared, named once, and readable as its type; then the fields keep
/// their order and fields that the record lacks are simply absent. Otherwise
/// the error gives the first failing field.
pub fn coerce(schema: &Schema, doc: &Document) -> (r: Result<CoercedDocument, CoerceError>)
    ensures
        match r {
            Ok(d) => coercible(schema@, doc@) && d@ == doc@.map_values(
                |f: (Seq<char>, Seq<char>)| coerced_field(schema@, f),
            ),
            Err(e) => {
                &&& e.position < doc@.len()
                &&& field_problem(schema@, doc@, e.position as int) == Some(e.problem)
                &&& forall|j: int| 0 <= j < e.position ==> field_problem(schema@, doc@, j) is None
            },
        },
{
    let n = doc.fields.len();
    let mut out: Vec<CoercedField> = Vec::new();
    let mut i: usize = 0;
    while i < n
        invariant
            n == doc@.len(),
            i <= n,
            forall|j: int| 0 <= j < i ==> field_problem(schema@, doc@, j) is None,
            out@.map_values(|f: CoercedField| f@) == doc@.subrange(0, i as int).map_values(
                |f: (Seq<char>, Seq<char>)| coerced_field(schema@, f),
            ),
        decreases n - i,
    {
        let name = &doc.fields[i].name;
        assert(doc@[i as int].0 == name@);
        let k = match schema.find_field(name) {
            None => {
                return Err(CoerceError { position: i, problem: Problem::UnknownField });
            },
            Some(k) => k,
        };
        assert(declares(schema@, doc@[i as int].0));
        let mut j: usize = 0;
        while j < i
            invariant
                i < n,
                n == doc@.len(),
                j <= i,
                doc@[i as int].0 == name@,
                declares(schema@, doc@[i as int].0),
                k == slot_of(schema@, name@),
                k < schema@.len(),
                forall|m: int| 0 <= m < i ==> field_problem(schema@, doc@, m) is None,
                out@.map_values(|f: CoercedField| f@) == doc@.subrange(0, i as int).map_values(
                    |f: (Seq<char>, Seq<char>)| coerced_field(schema@, f),
                ),
                forall|m: int| 0 <= m < j ==> doc@[m].0 != doc@[i as int].0,
            decreases i - j,
        {
            if doc.fields[j].name == *name {
                assert(doc@[j as int].0 == doc@[i as int].0);
                assert(repeats_earlier(doc@, i as int));
                return Err(CoerceError { position: i, problem: Problem::DuplicateField });
            }
            j = j + 1;
        }
        assert(!repeats_earlier(doc@, i as int));
        let field_type = schema.fields[k].field_type;
        assert(schema@[k as int].1 == field_type);
        let content = &doc.fields[i].content;
        match coerce_content(field_type, content) {
            None => {
                return Err(CoerceError { position: i, problem: Problem::InvalidContent });
            },
            Some(v) => {
                let ghost before = out@;
                out.push(CoercedField { slot: k, value: v });
                assert(doc@.subrange(0, i + 1) =~= doc@.subrange(0, i as int).push(doc@[i as int]));
                assert(out@ == before.push(CoercedField { slot: k, value: v }));
                assert(out@.map_values(|f: CoercedField| f@) =~= before.map_values(
                    |f: CoercedField| f@,
                ).push((k as int, v@)));
            },
        }
        i = i + 1;
    }
    assert(doc@.subrange(0, n as int) =~= doc@);
    Ok(CoercedDocument { fields: out })
}

/// A record that carries only some of the declared fields, each named once and
/// readable as its type, is accepted; each coerced field is the schema field
/// of the record field's name, so that no absent field appears.
pub proof fn lemma_sparse_record_accepted(
    s: Seq<(Seq<char>, FieldType)>,
    rec: Seq<(Seq<char>, Seq<char>)>,
)
    requires
        forall|i: int| 0 <= i < rec.len() ==> declares(s, #[trigger] rec[i].0),
        forall|i: int|
            0 <= i < rec.len() ==> (typed_value(s[slot_of(s, #[trigger] rec[i].0)].1, rec[i].1) is Some),
        forall|i: int, j: int| 0 <= i < j < rec.len() ==> rec[i].0 != rec[j].0,
    ensures
        coercible(s, rec),
        forall|i: int|
            0 <= i < rec.len() ==> {
                let c = #[trigger] coerced_field(s, rec[i]);
                &&& 0 <= c.0 < s.len()
                &&& s[c.0].0 == rec[i].0
                &&& typed_value(s[c.0].1, rec[i].1) == Some(c.1)
            },
{
    assert forall|i: int| 0 <= i < rec.len() implies field_problem(s, rec, i) is None by {
        assert(declares(s, rec[i].0));
        assert(!repeats_earlier(rec, i));
    }
    assert forall|i: int| 0 <= i < rec.len() implies {
        let c = #[trigger] coerced_field(s, rec[i]);
        &&& 0 <= c.0 < s.len()
        &&& s[c.0].0 == rec[i].0
        &&& typed_value(s[c.0].1, rec[i].1) == Some(c.1)
    } by {
        assert(declares(s, rec[i].0));
        lemma_slot_of(s, rec[i].0);
        assert(typed_value(s[slot_of(s, rec[i].0)].1, rec[i].1) is Some);
    }
}

} // verus!
