//! The decoded document, and how a leaf value becomes a typed constant.
use vstd::prelude::*;

verus! {

/// A decoded TOML value. A float is kept as the decoder's decimal rendering
/// and a date-time as the decoder's rendering; an array also keeps the
/// decoder's debug rendering of its items, and a table the decoder's
/// rendering of itself, for the fallbacks that print them.
#[derive(Debug)]
pub enum TomlValue {
    String(String),
    Integer(i64),
    Float(String),
    Boolean(bool),
    Datetime(String),
    Array(Vec<TomlValue>, String),
    Table(Vec<(String, TomlValue)>, String),
}

/// The type of an emitted constant.
#[derive(Debug, PartialEq, Eq)]
pub enum TypeDesc {
    /// A static string reference.
    Str,
    I64,
    F64,
    Bool,
    /// A static slice of the element type.
    Slice(Box<TypeDesc>),
}

/// The value of an emitted constant.
#[derive(Debug)]
pub enum Literal {
    Str(String),
    Int(i64),
    /// A float's decimal rendering.
    Float(String),
    Bool(bool),
    List(Vec<Literal>),
}

/// A literal as mathematical values.
pub ghost enum LiteralModel {
    Str(Seq<char>),
    Int(i64),
    Float(Seq<char>),
    Bool(bool),
    List(Seq<LiteralModel>),
}

impl Literal {
    pub open spec fn view(&self) -> LiteralModel
        decreases self,
    {
        match self {
            Literal::Str(s) => LiteralModel::Str(s@),
            Literal::Int(i) => LiteralModel::Int(*i),
            Literal::Float(f) => LiteralModel::Float(f@),
            Literal::Bool(b) => LiteralModel::Bool(*b),
            Literal::List(items) => LiteralModel::List(
                Seq::new(
                    items@.len(),
                    |i: int|
                        if 0 <= i < items@.len() {
                            items@[i].view()
                        } else {
                            LiteralModel::Bool(false)
                        },
                ),
            ),
        }
    }
}

impl TomlValue {
    pub open spec fn variant(&self) -> int {
        match self {
            TomlValue::String(_) => 0,
            TomlValue::Integer(_) => 1,
            TomlValue::Float(_) => 2,
            TomlValue::Boolean(_) => 3,
            TomlValue::Datetime(_) => 4,
            TomlValue::Array(..) => 5,
            TomlValue::Table(..) => 6,
        }
    }

    pub open spec fn spec_is_table(&self) -> bool {
        self is Table
    }

    /// Whether this value is a table.
    #[verifier::when_used_as_spec(spec_is_table)]
    pub fn is_table(&self) -> (r: bool)
        ensures
            r == self.spec_is_table(),
    {
        match self {
            TomlValue::Table(..) => true,
            _ => false,
        }
    }

    fn variant_of(&self) -> (r: u8)
        ensures
            r as int == self.variant(),
    {
        match self {
            TomlValue::String(_) => 0,
            TomlValue::Integer(_) => 1,
            TomlValue::Float(_) => 2,
            TomlValue::Boolean(_) => 3,
            TomlValue::Datetime(_) => 4,
            TomlValue::Array(..) => 5,
            TomlValue::Table(..) => 6,
        }
    }
}

/// All items are of the first item's variant.
pub open spec fn homogeneous(items: Seq<TomlValue>) -> bool {
    forall|i: int| 0 <= i < items.len() ==> #[trigger] items[i].variant() == items[0].variant()
}

/// The constant type that a value maps to.
pub open spec fn type_of(v: TomlValue) -> TypeDesc
    decreases v,
{
    match v {
        TomlValue::String(_) => TypeDesc::Str,
        TomlValue::Integer(_) => TypeDesc::I64,
        TomlValue::Float(_) => TypeDesc::F64,
        TomlValue::Boolean(_) => TypeDesc::Bool,
        TomlValue::Datetime(_) => TypeDesc::Str,
        TomlValue::Array(items, _) => {
            if items@.len() == 0 {
                TypeDesc::Slice(Box::new(TypeDesc::Str))
            } else if homogeneous(items@) {
                TypeDesc::Slice(Box::new(type_of(items@[0])))
            } else {
                TypeDesc::Str
            }
        },
        TomlValue::Table(..) => TypeDesc::Str,
    }
}

/// The constant value that a value maps to: a homogeneous array becomes a
/// list of its items' literals, anything else that is not a scalar becomes
/// the decoder's rendering of it.
pub open spec fn literal_of(v: TomlValue) -> LiteralModel
    decreases v,
{
    match v {
        TomlValue::String(s) => LiteralModel::Str(s@),
        TomlValue::Integer(i) => LiteralModel::Int(i),
        TomlValue::Float(f) => LiteralModel::Float(f@),
        TomlValue::Boolean(b) => LiteralModel::Bool(b),
        TomlValue::Datetime(d) => LiteralModel::Str(d@),
        TomlValue::Array(items, rendered) => {
            if items@.len() == 0 || homogeneous(items@) {
                LiteralModel::List(
                    Seq::new(
                        items@.len(),
                        |i: int|
                            if 0 <= i < items@.len() {
                                literal_of(items@[i])
                            } else {
                                LiteralModel::Bool(false)
                            },
                    ),
                )
            } else {
                LiteralModel::Str(rendered@)
            }
        },
        TomlValue::Table(_, rendered) => LiteralModel::Str(rendered@),
    }
}

fn type_of_value(value: &TomlValue) -> (r: TypeDesc)
    ensures
        r == type_of(*value),
    decreases value,
{
    match value {
        TomlValue::String(_) => TypeDesc::Str,
        TomlValue::Integer(_) => TypeDesc::I64,
        TomlValue::Float(_) => TypeDesc::F64,
        TomlValue::Boolean(_) => TypeDesc::Bool,
        TomlValue::Datetime(_) => TypeDesc::Str,
        TomlValue::Array(items, _) => {
            if items.len() == 0 {
                TypeDesc::Slice(Box::new(TypeDesc::Str))
            } else if all_same_variant(items) {
                proof {
                    assert(decreases_to!(items => items[0]));
                }
                TypeDesc::Slice(Box::new(type_of_value(&items[0])))
            } else {
                TypeDesc::Str
            }
        },
        TomlValue::Table(..) => TypeDesc::Str,
    }
}

fn all_same_variant(items: &Vec<TomlValue>) -> (r: bool)
    requires
        items@.len() > 0,
    ensures
        r == homogeneous(items@),
{
    let first = items[0].variant_of();
    let mut i: usize = 0;
    while i < items.len()
        invariant
            i <= items@.len(),
            first as int == items@[0].variant(),
            forall|j: int| 0 <= j < i ==> #[trigger] items@[j].variant() == items@[0].variant(),
        decreases items.len() - i,
    {
        if items[i].variant_of() != first {
            return false;
        }
        i = i + 1;
    }
    true
}

/// Maps a leaf value to the type and value of the constant that stands for it.
pub fn convert_value_to_tokens(value: &TomlValue) -> (r: (TypeDesc, Literal))
    ensures
        r.0 == type_of(*value),
        r.1.view() == literal_of(*value),
    decreases value,
{
    let ty = type_of_value(value);
    let lit = match value {
        TomlValue::String(s) => Literal::Str(s.clone()),
        TomlValue::Integer(i) => Literal::Int(*i),
        TomlValue::Float(f) => Literal::Float(f.clone()),
        TomlValue::Boolean(b) => Literal::Bool(*b),
        TomlValue::Datetime(d) => Literal::Str(d.clone()),
        TomlValue::Array(items, rendered) => {
            if items.len() == 0 || all_same_variant(items) {
                let ghost uniform = items@.len() == 0 || homogeneous(items@);
                assert(uniform);
                let mut out: Vec<Literal> = Vec::new();
                let mut i: usize = 0;
                while i < items.len()
                    invariant
                        *value is Array,
                        value->Array_0 == *items,
                        i <= items@.len(),
                        out@.len() == i,
                        forall|j: int| 0 <= j < i ==> #[trigger] out@[j].view() == literal_of(items@[j]),
                    decreases items.len() - i,
                {
                    proof {
                        assert(decreases_to!(items => items[i as int]));
                    }
                    let (_, item) = convert_value_to_tokens(&items[i]);
                    out.push(item);
                    i = i + 1;
                }
                let r = Literal::List(out);
                let ghost s = Seq::new(
                    out@.len(),
                    |i: int|
                        if 0 <= i < out@.len() {
                            out@[i].view()
                        } else {
                            LiteralModel::Bool(false)
                        },
                );
                let ghost t = Seq::new(
                    items@.len(),
                    |i: int|
                        if 0 <= i < items@.len() {
                            literal_of(items@[i])
                        } else {
                            LiteralModel::Bool(false)
                        },
                );
                assert(s =~= t);
                assert(r.view() is List);
                assert(r.view()->List_0 =~= s);
                assert(literal_of(*value)->List_0 =~= t);
                r
            } else {
                Literal::Str(rendered.clone())
            }
        },
        TomlValue::Table(_, rendered) => Literal::Str(rendered.clone()),
    };
    (ty, lit)
}

#[verifier::external_type_specification]
#[verifier::external_body]
pub struct ExTomlValue(toml::Value);

/// The value tree that the decoder makes of a document, if it decodes.
pub uninterp spec fn decoded_document(text: Seq<char>) -> Option<TomlValue>;

/// Relies on toml's `FromStr` for `toml::Value`, which decodes a whole
/// document, with the result converted by `import_value`; an error becomes
/// the decoder's message.
#[verifier::external_body]
fn decode(text: &str) -> (r: Result<TomlValue, String>)
    ensures
        match r {
            Ok(v) => decoded_document(text@) == Some(v),
            Err(_) => decoded_document(text@) is None,
        },
{
    text.parse::<toml::Value>().map(|v| import_value(&v)).map_err(|e| e.to_string())
}

/// Relies on the variants of `toml::Value`, converted one for one, and on the
/// decoder's renderings: `Display` of a float, a date-time and a table,
/// `Debug` of an array's items.
#[verifier::external_body]
fn import_value(v: &toml::Value) -> TomlValue {
    match v {
        toml::Value::String(s) => TomlValue::String(s.clone()),
        toml::Value::Integer(i) => TomlValue::Integer(*i),
        toml::Value::Float(f) => TomlValue::Float(f.to_string()),
        toml::Value::Boolean(b) => TomlValue::Boolean(*b),
        toml::Value::Datetime(d) => TomlValue::Datetime(d.to_string()),
        toml::Value::Array(a) => TomlValue::Array(a.iter().map(import_value).collect(), format!("{:?}", a)),
        toml::Value::Table(t) => TomlValue::Table(
            t.iter().map(|(k, x)| (k.clone(), import_value(x))).collect(),
            v.to_string(),
        ),
    }
}

/// The first entry of a table under `key`.
pub open spec fn entry_of(v: TomlValue, key: Seq<char>) -> Option<TomlValue> {
    match v {
        TomlValue::Table(es, _) => if exists|i: int| 0 <= i < es@.len() && es@[i].0@ == key {
            let i = choose|i: int|
                0 <= i < es@.len() && es@[i].0@ == key && forall|j: int| 0 <= j < i ==> es@[j].0@ != key;
            Some(es@[i].1)
        } else {
            None
        },
        _ => None,
    }
}

impl TomlValue {
    /// The value under `key`, when this is a table that has it.
    pub fn get(&self, key: &str) -> (r: Option<&TomlValue>)
        ensures
            match r {
                Some(v) => entry_of(*self, key@) == Some(*v),
                None => entry_of(*self, key@) is None,
            },
    {
        match self {
            TomlValue::Table(es, _) => {
                let k = String::from_str(key);
                let mut i: usize = 0;
                while i < es.len()
                    invariant
                        *self is Table,
                        self->Table_0 == *es,
                        k@ == key@,
                        i <= es@.len(),
                        forall|j: int| 0 <= j < i ==> es@[j].0@ != key@,
                    decreases es.len() - i,
                {
                    if es[i].0 == k {
                        proof {
                            let c = choose|c: int|
                                0 <= c < es@.len() && es@[c].0@ == key@ && forall|j: int| 0 <= j < c ==> es@[j].0@ != key@;
                            assert(c == i) by {
                                if c > i {
                                    assert(es@[i as int].0@ == key@);
                                }
                            }
                        }
                        return Some(&es[i].1);
                    }
                    i = i + 1;
                }
                None
            },
            _ => None,
        }
    }
}

/// Decodes a TOML document into a value tree, or gives the decoder's message.
pub fn parse_document(text: &str) -> (r: Result<TomlValue, String>)
    ensures
        match r {
            Ok(v) => decoded_document(text@) == Some(v),
            Err(_) => decoded_document(text@) is None,
        },
{
    decode(text)
}

/// Whether `text` decodes to a document with a `workspace` entry.
pub fn declares_workspace(text: &str) -> (r: bool)
    ensures
        r == (decoded_document(text@) matches Some(d) && entry_of(d, seq!['w', 'o', 'r', 'k', 's', 'p', 'a', 'c', 'e']) is Some),
{
    match parse_document(text) {
        Ok(doc) => {
            let key = String::from_str("workspace");
            proof {
                reveal_strlit("workspace");
            }
            assert(key@ =~= seq!['w', 'o', 'r', 'k', 's', 'p', 'a', 'c', 'e']);
            doc.get(key.as_str()).is_some()
        },
        Err(_) => false,
    }
}

} // verus!
