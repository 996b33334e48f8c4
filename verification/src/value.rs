//! Executable value trees for the two formats.
//!
//! Objects and tables are held as vectors of key/value pairs, so a tree owns
//! plain values only.  Floating-point payloads are carried as IEEE 754 bit
//! patterns: the adapters never do arithmetic on them, and bits make "copied
//! unchanged" exact.  The view of a tree is its model in [`crate::model`].

use vstd::prelude::*;

use crate::model::{json_ints_in_range, toml_ints_in_range, wrap_to_i64, SpecJson, SpecToml};

verus! {

/// A parsed JSON document.  A number is signed, unsigned (used when it
/// exceeds signed range) or a float carried as its bit pattern.
#[derive(Debug, PartialEq)]
pub enum JsonValue {
    Null,
    Boolean(bool),
    I64(i64),
    U64(u64),
    Float(u64),
    Str(String),
    Array(Vec<JsonValue>),
    Object(Vec<(String, JsonValue)>),
}

/// A parsed TOML document.  A datetime keeps its canonical text; a float is
/// carried as its bit pattern.
#[derive(Debug, PartialEq)]
pub enum TomlValue {
    Str(String),
    Integer(i64),
    Float(u64),
    Boolean(bool),
    Datetime(String),
    Array(Vec<TomlValue>),
    Table(Vec<(String, TomlValue)>),
}

/// The model of a JSON tree; children before parents.
pub open spec fn spec_of_json(v: JsonValue) -> SpecJson
    decreases v,
{
    match v {
        JsonValue::Null => SpecJson::Null,
        JsonValue::Boolean(b) => SpecJson::Bool(b),
        JsonValue::I64(i) => SpecJson::Int(i as int),
        JsonValue::U64(u) => SpecJson::Int(u as int),
        JsonValue::Float(bits) => SpecJson::Float(bits),
        JsonValue::Str(s) => SpecJson::Str(s@),
        JsonValue::Array(items) => SpecJson::Arr(spec_of_json_seq(items@)),
        JsonValue::Object(entries) => SpecJson::Obj(spec_of_json_entries(entries@)),
    }
}

/// Elementwise model of an array's children.
pub open spec fn spec_of_json_seq(s: Seq<JsonValue>) -> Seq<SpecJson>
    decreases s,
{
    if s.len() == 0 {
        Seq::empty()
    } else {
        seq![spec_of_json(s[0])] + spec_of_json_seq(s.drop_first())
    }
}

/// Entrywise model of an object's entries.
pub open spec fn spec_of_json_entries(s: Seq<(String, JsonValue)>) -> Seq<(Seq<char>, SpecJson)>
    decreases s,
{
    if s.len() == 0 {
        Seq::empty()
    } else {
        seq![(s[0].0@, spec_of_json(s[0].1))] + spec_of_json_entries(s.drop_first())
    }
}

impl View for JsonValue {
    type V = SpecJson;

    open spec fn view(&self) -> SpecJson {
        spec_of_json(*self)
    }
}

/// The model of a TOML tree; children before parents.
pub open spec fn spec_of_toml(v: TomlValue) -> SpecToml
    decreases v,
{
    match v {
        TomlValue::Str(s) => SpecToml::Str(s@),
        TomlValue::Integer(i) => SpecToml::Int(i as int),
        TomlValue::Float(bits) => SpecToml::Float(bits),
        TomlValue::Boolean(b) => SpecToml::Bool(b),
        TomlValue::Datetime(s) => SpecToml::Datetime(s@),
        TomlValue::Array(items) => SpecToml::Arr(spec_of_toml_seq(items@)),
        TomlValue::Table(entries) => SpecToml::Table(spec_of_toml_entries(entries@)),
    }
}

/// Elementwise model of an array's children.
pub open spec fn spec_of_toml_seq(s: Seq<TomlValue>) -> Seq<SpecToml>
    decreases s,
{
    if s.len() == 0 {
        Seq::empty()
    } else {
        seq![spec_of_toml(s[0])] + spec_of_toml_seq(s.drop_first())
    }
}

/// Entrywise model of a table's entries.
pub open spec fn spec_of_toml_entries(s: Seq<(String, TomlValue)>) -> Seq<(Seq<char>, SpecToml)>
    decreases s,
{
    if s.len() == 0 {
        Seq::empty()
    } else {
        seq![(s[0].0@, spec_of_toml(s[0].1))] + spec_of_toml_entries(s.drop_first())
    }
}

impl View for TomlValue {
    type V = SpecToml;

    open spec fn view(&self) -> SpecToml {
        spec_of_toml(*self)
    }
}

/// Two's-complement reinterpretation of an unsigned 64-bit integer as a
/// signed one, computed without relying on truncating casts.
pub fn wrap_u64(u: u64) -> (r: i64)
    ensures
        r as int == wrap_to_i64(u as int),
{
    if u <= i64::MAX as u64 {
        u as i64
    } else {
        let d: u64 = u64::MAX - u;
        -(d as i64) - 1
    }
}

/// Length and elements of [`spec_of_json_seq`].
pub proof fn lemma_spec_of_json_seq(s: Seq<JsonValue>)
    ensures
        spec_of_json_seq(s).len() == s.len(),
        forall|k: int| 0 <= k < s.len() ==> spec_of_json_seq(s)[k] == spec_of_json(#[trigger] s[k]),
    decreases s,
{
    if s.len() > 0 {
        lemma_spec_of_json_seq(s.drop_first());
        assert forall|k: int| 0 <= k < s.len() implies spec_of_json_seq(s)[k]
            == spec_of_json(#[trigger] s[k]) by {
            if k > 0 {
                assert(s.drop_first()[k - 1] == s[k]);
            }
        }
    }
}

/// Length and elements of [`spec_of_json_entries`].
pub proof fn lemma_spec_of_json_entries(s: Seq<(String, JsonValue)>)
    ensures
        spec_of_json_entries(s).len() == s.len(),
        forall|k: int| 0 <= k < s.len()
            ==> spec_of_json_entries(s)[k] == ((#[trigger] s[k]).0@, spec_of_json(s[k].1)),
    decreases s,
{
    if s.len() > 0 {
        lemma_spec_of_json_entries(s.drop_first());
        assert forall|k: int| 0 <= k < s.len() implies spec_of_json_entries(s)[k]
            == ((#[trigger] s[k]).0@, spec_of_json(s[k].1)) by {
            if k > 0 {
                assert(s.drop_first()[k - 1] == s[k]);
            }
        }
    }
}

/// Length and elements of [`spec_of_toml_seq`].
pub proof fn lemma_spec_of_toml_seq(s: Seq<TomlValue>)
    ensures
        spec_of_toml_seq(s).len() == s.len(),
        forall|k: int| 0 <= k < s.len() ==> spec_of_toml_seq(s)[k] == spec_of_toml(#[trigger] s[k]),
    decreases s,
{
    if s.len() > 0 {
        lemma_spec_of_toml_seq(s.drop_first());
        assert forall|k: int| 0 <= k < s.len() implies spec_of_toml_seq(s)[k]
            == spec_of_toml(#[trigger] s[k]) by {
            if k > 0 {
                assert(s.drop_first()[k - 1] == s[k]);
            }
        }
    }
}

/// Length and elements of [`spec_of_toml_entries`].
pub proof fn lemma_spec_of_toml_entries(s: Seq<(String, TomlValue)>)
    ensures
        spec_of_toml_entries(s).len() == s.len(),
        forall|k: int| 0 <= k < s.len()
            ==> spec_of_toml_entries(s)[k] == ((#[trigger] s[k]).0@, spec_of_toml(s[k].1)),
    decreases s,
{
    if s.len() > 0 {
        lemma_spec_of_toml_entries(s.drop_first());
        assert forall|k: int| 0 <= k < s.len() implies spec_of_toml_entries(s)[k]
            == ((#[trigger] s[k]).0@, spec_of_toml(s[k].1)) by {
            if k > 0 {
                assert(s.drop_first()[k - 1] == s[k]);
            }
        }
    }
}


impl Clone for JsonValue {
    /// Deep copy: the copy has the same model as the original.
    #[verifier::loop_isolation(false)]
    fn clone(&self) -> (r: Self)
        ensures
            r@ == self@,
        decreases *self,
    {
        match self {
            JsonValue::Null => JsonValue::Null,
            JsonValue::Boolean(b) => JsonValue::Boolean(*b),
            JsonValue::I64(i) => JsonValue::I64(*i),
            JsonValue::U64(u) => JsonValue::U64(*u),
            JsonValue::Float(bits) => JsonValue::Float(*bits),
            JsonValue::Str(s) => JsonValue::Str(s.clone()),
            JsonValue::Array(items) => {
                let mut out: Vec<JsonValue> = Vec::new();
                let mut i: usize = 0;
                while i < items.len()
                    invariant
                        i <= items.len(),
                        out@.len() == i,
                        forall|k: int| 0 <= k < i
                            ==> spec_of_json(#[trigger] out@[k]) == spec_of_json(items@[k]),
                    decreases items@.len() - i,
                {
                    let c = items[i].clone();
                    out.push(c);
                    i = i + 1;
                }
                proof {
                    lemma_spec_of_json_seq(out@);
                    lemma_spec_of_json_seq(items@);
                    assert forall|k: int| 0 <= k < out@.len() implies spec_of_json_seq(out@)[k]
                        == spec_of_json_seq(items@)[k] by {
                        assert(spec_of_json(out@[k]) == spec_of_json(items@[k]));
                    }
                    assert(spec_of_json_seq(out@) =~= spec_of_json_seq(items@));
                }
                JsonValue::Array(out)
            },
            JsonValue::Object(entries) => {
                let mut out: Vec<(String, JsonValue)> = Vec::new();
                let mut i: usize = 0;
                while i < entries.len()
                    invariant
                        i <= entries.len(),
                        out@.len() == i,
                        forall|k: int| 0 <= k < i
                            ==> (#[trigger] out@[k]).0@ == entries@[k].0@
                                && spec_of_json(out@[k].1) == spec_of_json(entries@[k].1),
                    decreases entries@.len() - i,
                {
                    let key = entries[i].0.clone();
                    let c = entries[i].1.clone();
                    out.push((key, c));
                    i = i + 1;
                }
                proof {
                    lemma_spec_of_json_entries(out@);
                    lemma_spec_of_json_entries(entries@);
                    assert forall|k: int| 0 <= k < out@.len() implies spec_of_json_entries(
                        out@,
                    )[k] == spec_of_json_entries(entries@)[k] by {
                        assert(out@[k].0@ == entries@[k].0@);
                        assert(spec_of_json(out@[k].1) == spec_of_json(entries@[k].1));
                    }
                    assert(spec_of_json_entries(out@) =~= spec_of_json_entries(entries@));
                }
                JsonValue::Object(out)
            },
        }
    }
}

impl Clone for TomlValue {
    /// Deep copy: the copy has the same model as the original.
    #[verifier::loop_isolation(false)]
    fn clone(&self) -> (r: Self)
        ensures
            r@ == self@,
        decreases *self,
    {
        match self {
            TomlValue::Str(s) => TomlValue::Str(s.clone()),
            TomlValue::Integer(i) => TomlValue::Integer(*i),
            TomlValue::Float(bits) => TomlValue::Float(*bits),
            TomlValue::Boolean(b) => TomlValue::Boolean(*b),
            TomlValue::Datetime(s) => TomlValue::Datetime(s.clone()),
            TomlValue::Array(items) => {
                let mut out: Vec<TomlValue> = Vec::new();
                let mut i: usize = 0;
                while i < items.len()
                    invariant
                        i <= items.len(),
                        out@.len() == i,
                        forall|k: int| 0 <= k < i
                            ==> spec_of_toml(#[trigger] out@[k]) == spec_of_toml(items@[k]),
                    decreases items@.len() - i,
                {
                    let c = items[i].clone();
                    out.push(c);
                    i = i + 1;
                }
                proof {
                    lemma_spec_of_toml_seq(out@);
                    lemma_spec_of_toml_seq(items@);
                    assert forall|k: int| 0 <= k < out@.len() implies spec_of_toml_seq(out@)[k]
                        == spec_of_toml_seq(items@)[k] by {
                        assert(spec_of_toml(out@[k]) == spec_of_toml(items@[k]));
                    }
                    assert(spec_of_toml_seq(out@) =~= spec_of_toml_seq(items@));
                }
                TomlValue::Array(out)
            },
            TomlValue::Table(entries) => {
                let mut out: Vec<(String, TomlValue)> = Vec::new();
                let mut i: usize = 0;
                while i < entries.len()
                    invariant
                        i <= entries.len(),
                        out@.len() == i,
                        forall|k: int| 0 <= k < i
                            ==> (#[trigger] out@[k]).0@ == entries@[k].0@
                                && spec_of_toml(out@[k].1) == spec_of_toml(entries@[k].1),
                    decreases entries@.len() - i,
                {
                    let key = entries[i].0.clone();
                    let c = entries[i].1.clone();
                    out.push((key, c));
                    i = i + 1;
                }
                proof {
                    lemma_spec_of_toml_entries(out@);
                    lemma_spec_of_toml_entries(entries@);
                    assert forall|k: int| 0 <= k < out@.len() implies spec_of_toml_entries(
                        out@,
                    )[k] == spec_of_toml_entries(entries@)[k] by {
                        assert(out@[k].0@ == entries@[k].0@);
                        assert(spec_of_toml(out@[k].1) == spec_of_toml(entries@[k].1));
                    }
                    assert(spec_of_toml_entries(out@) =~= spec_of_toml_entries(entries@));
                }
                TomlValue::Table(out)
            },
        }
    }
}


/// Every executable JSON tree's model has its integers within signed or
/// unsigned 64-bit range, so the round-trip laws apply to every parsed tree.
pub proof fn lemma_json_value_ints_in_range(v: JsonValue)
    ensures
        json_ints_in_range(spec_of_json(v)),
    decreases v,
{
    match v {
        JsonValue::Array(items) => {
            lemma_spec_of_json_seq(items@);
            let a = spec_of_json_seq(items@);
            assert forall|k: int| 0 <= k < a.len() implies json_ints_in_range(
                #[trigger] a[k],
            ) by {
                lemma_json_value_ints_in_range(items@[k]);
            }
        },
        JsonValue::Object(entries) => {
            lemma_spec_of_json_entries(entries@);
            let o = spec_of_json_entries(entries@);
            assert forall|k: int| 0 <= k < o.len() implies json_ints_in_range(
                (#[trigger] o[k]).1,
            ) by {
                lemma_json_value_ints_in_range(entries@[k].1);
            }
        },
        _ => {},
    }
}

/// Every executable TOML tree's model has its integers within signed 64-bit
/// range, so the round-trip laws apply to every parsed tree.
pub proof fn lemma_toml_value_ints_in_range(v: TomlValue)
    ensures
        toml_ints_in_range(spec_of_toml(v)),
    decreases v,
{
    match v {
        TomlValue::Array(items) => {
            lemma_spec_of_toml_seq(items@);
            let a = spec_of_toml_seq(items@);
            assert forall|k: int| 0 <= k < a.len() implies toml_ints_in_range(
                #[trigger] a[k],
            ) by {
                lemma_toml_value_ints_in_range(items@[k]);
            }
        },
        TomlValue::Table(entries) => {
            lemma_spec_of_toml_entries(entries@);
            let o = spec_of_toml_entries(entries@);
            assert forall|k: int| 0 <= k < o.len() implies toml_ints_in_range(
                (#[trigger] o[k]).1,
            ) by {
                lemma_toml_value_ints_in_range(entries@[k].1);
            }
        },
        _ => {},
    }
}

} // verus!
