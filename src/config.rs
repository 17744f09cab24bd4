//! The schema: field names and the type declared for each, fixed at startup.
use vstd::prelude::*;
use vstd::string::StrSliceExecFns;

verus! {

/// The type declared for a schema field.
#[derive(Clone, Copy, PartialEq, Eq, Structural, Debug)]
pub enum FieldType {
    Text,
    Date,
    Integer64,
    Unsigned64,
    Float64,
}

/// One declared field of the schema.
pub struct Field {
    pub name: String,
    pub field_type: FieldType,
}

/// The schema: declared fields, in order of declaration.
pub struct Schema {
    pub name: String,
    pub fields: Vec<Field>,
}

/// The service's configuration: the schema and where the index lives.
pub struct Config {
    pub schema: Schema,
    pub storage_path: String,
}

impl View for Field {
    type V = (Seq<char>, FieldType);

    open spec fn view(&self) -> (Seq<char>, FieldType) {
        (self.name@, self.field_type)
    }
}

impl View for Schema {
    type V = Seq<(Seq<char>, FieldType)>;

    open spec fn view(&self) -> Seq<(Seq<char>, FieldType)> {
        self.fields@.map_values(|f: Field| f@)
    }
}

/// `k` is the first position of the schema that declares `name`.
pub open spec fn is_first_slot(s: Seq<(Seq<char>, FieldType)>, name: Seq<char>, k: int) -> bool {
    &&& 0 <= k < s.len()
    &&& s[k].0 == name
    &&& forall|j: int| 0 <= j < k ==> s[j].0 != name
}

/// The schema declares `name`.
pub open spec fn declares(s: Seq<(Seq<char>, FieldType)>, name: Seq<char>) -> bool {
    exists|k: int| 0 <= k < s.len() && s[k].0 == name
}

/// The position of the first declaration of `name`, where there is one.
pub open spec fn slot_of(s: Seq<(Seq<char>, FieldType)>, name: Seq<char>) -> int {
    choose|k: int| is_first_slot(s, name, k)
}

/// No two declared fields share a name.
pub open spec fn names_unique(s: Seq<(Seq<char>, FieldType)>) -> bool {
    forall|i: int, j: int| 0 <= i < s.len() && 0 <= j < s.len() && i != j ==> s[i].0 != s[j].0
}

/// A name that the index engine takes for a field: not empty, and not
/// starting with `-`.
pub open spec fn valid_field_name(name: Seq<char>) -> bool {
    name.len() > 0 && name[0] != '-'
}

/// Every declared name is one that the index engine takes.
pub open spec fn valid_field_names(s: Seq<(Seq<char>, FieldType)>) -> bool {
    forall|i: int| 0 <= i < s.len() ==> valid_field_name(#[trigger] s[i].0)
}

/// Where a name is declared, its first declaration is found by `slot_of`.
pub proof fn lemma_slot_of(s: Seq<(Seq<char>, FieldType)>, name: Seq<char>)
    requires
        declares(s, name),
    ensures
        is_first_slot(s, name, slot_of(s, name)),
    decreases s.len(),
{
    let k = choose|k: int| 0 <= k < s.len() && s[k].0 == name;
    if exists|j: int| 0 <= j < k && s[j].0 == name {
        let j = choose|j: int| 0 <= j < k && s[j].0 == name;
        let t = s.subrange(0, k);
        assert(t[j].0 == name);
        lemma_slot_of(t, name);
        let m = slot_of(t, name);
        assert(is_first_slot(s, name, m)) by {
            assert forall|i: int| 0 <= i < m implies s[i].0 != name by {
                assert(t[i] == s[i]);
            }
        }
        lemma_first_slot_unique(s, name, m);
    } else {
        assert(is_first_slot(s, name, k));
        lemma_first_slot_unique(s, name, k);
    }
}

/// Two first declarations of a name are the same position.
pub proof fn lemma_first_slot_unique(s: Seq<(Seq<char>, FieldType)>, name: Seq<char>, k: int)
    requires
        is_first_slot(s, name, k),
    ensures
        declares(s, name),
        slot_of(s, name) == k,
{
    assert(s[k].0 == name);
    let m = slot_of(s, name);
    assert(is_first_slot(s, name, m));
    if m < k {
        assert(s[m].0 != name);
    } else if k < m {
        assert(s[k].0 != name);
    }
}

impl Schema {
    /// The first position that declares `name`, or `None` where none does.
    pub fn find_field(&self, name: &String) -> (r: Option<usize>)
        ensures
            r is Some <==> declares(self@, name@),
            r matches Some(k) ==> k == slot_of(self@, name@) && is_first_slot(self@, name@, k as int),
    {
        let mut i: usize = 0;
        while i < self.fields.len()
            invariant
                i <= self.fields@.len(),
                forall|j: int| 0 <= j < i ==> self@[j].0 != name@,
            decreases self.fields@.len() - i,
        {
            if self.fields[i].name == *name {
                assert(self@[i as int].0 == name@);
                proof {
                    lemma_first_slot_unique(self@, name@, i as int);
                }
                return Some(i);
            }
            i = i + 1;
        }
        None
    }

    /// Whether every declared name is one that the index engine takes.
    pub fn has_valid_names(&self) -> (r: bool)
        ensures
            r == valid_field_names(self@),
    {
        let mut i: usize = 0;
        while i < self.fields.len()
            invariant
                i <= self.fields@.len(),
                forall|j: int| 0 <= j < i ==> valid_field_name(#[trigger] self@[j].0),
            decreases self.fields@.len() - i,
        {
            let name = self.fields[i].name.as_str();
            assert(self@[i as int].0 == name@);
            if name.is_empty() || name.get_char(0) == '-' {
                return false;
            }
            i = i + 1;
        }
        true
    }

    /// Whether every declared name is declared once only.
    pub fn has_unique_names(&self) -> (r: bool)
        ensures
            r == names_unique(self@),
    {
        let n = self.fields.len();
        let mut i: usize = 0;
        while i < n
            invariant
                n == self.fields@.len(),
                i <= n,
                forall|a: int, b: int| 0 <= a < i && 0 <= b < n && a != b ==> self@[a].0 != self@[b].0,
            decreases n - i,
        {
            let mut j: usize = 0;
            while j < n
                invariant
                    n == self.fields@.len(),
                    i < n,
                    j <= n,
                    forall|a: int, b: int| 0 <= a < i && 0 <= b < n && a != b ==> self@[a].0 != self@[b].0,
                    forall|b: int| 0 <= b < j && i != b ==> self@[i as int].0 != self@[b].0,
                decreases n - j,
            {
                if i != j && self.fields[i].name == self.fields[j].name {
                    assert(self@[i as int].0 == self@[j as int].0);
                    return false;
                }
                j = j + 1;
            }
            i = i + 1;
        }
        true
    }
}

} // verus!
