//! Mathematical models of the two document formats and the specification-level
//! conversion between them.
//!
//! A document of either format is a finite tree.  Mappings (JSON objects, TOML
//! tables) are modelled as sequences of key/value pairs so that a model keeps
//! the order in which an executable tree stores its entries; order-insensitive
//! equality is expressed separately by [`equiv_json`] and [`equiv_toml`].
//! Floating-point payloads are carried as their IEEE 754 bit patterns, which
//! makes "copied unchanged" a statement about bits rather than about an
//! approximate arithmetic type.

use vstd::prelude::*;

verus! {

/// Model of a JSON document.  Signed and unsigned 64-bit integers both appear
/// as the single mathematical integer they denote.
pub enum SpecJson {
    Null,
    Bool(bool),
    Int(int),
    Float(u64),
    Str(Seq<char>),
    Arr(Seq<SpecJson>),
    Obj(Seq<(Seq<char>, SpecJson)>),
}

/// Model of a TOML document.  A datetime is carried as its canonical text.
pub enum SpecToml {
    Str(Seq<char>),
    Int(int),
    Float(u64),
    Bool(bool),
    Datetime(Seq<char>),
    Arr(Seq<SpecToml>),
    Table(Seq<(Seq<char>, SpecToml)>),
}

/// Reinterpretation of an integer in unsigned 64-bit range as a signed 64-bit
/// integer: values above `i64::MAX` wrap around to negative ones.
pub open spec fn wrap_to_i64(i: int) -> int {
    if i > i64::MAX {
        i - 0x1_0000_0000_0000_0000
    } else {
        i
    }
}

/// The JSON-to-TOML mapping, node by node: scalars are copied, `null` becomes
/// the empty string, integers beyond signed range wrap, and containers are
/// converted child by child with their order kept.
pub open spec fn json_to_toml_spec(j: SpecJson) -> SpecToml
    decreases j,
{
    match j {
        SpecJson::Null => SpecToml::Str(Seq::empty()),
        SpecJson::Bool(b) => SpecToml::Bool(b),
        SpecJson::Int(i) => SpecToml::Int(wrap_to_i64(i)),
        SpecJson::Float(bits) => SpecToml::Float(bits),
        SpecJson::Str(s) => SpecToml::Str(s),
        SpecJson::Arr(a) => SpecToml::Arr(json_seq_to_toml(a)),
        SpecJson::Obj(o) => SpecToml::Table(json_entries_to_toml(o)),
    }
}

/// Elementwise [`json_to_toml_spec`] over an array's children.
pub open spec fn json_seq_to_toml(a: Seq<SpecJson>) -> Seq<SpecToml>
    decreases a,
{
    if a.len() == 0 {
        Seq::empty()
    } else {
        seq![json_to_toml_spec(a[0])] + json_seq_to_toml(a.drop_first())
    }
}

/// Entrywise [`json_to_toml_spec`] over an object's entries; keys are kept.
pub open spec fn json_entries_to_toml(o: Seq<(Seq<char>, SpecJson)>) -> Seq<(Seq<char>, SpecToml)>
    decreases o,
{
    if o.len() == 0 {
        Seq::empty()
    } else {
        seq![(o[0].0, json_to_toml_spec(o[0].1))] + json_entries_to_toml(o.drop_first())
    }
}

/// The TOML-to-JSON mapping, node by node: every variant is copied unchanged
/// except a datetime, which degrades to its text.
pub open spec fn toml_to_json_spec(t: SpecToml) -> SpecJson
    decreases t,
{
    match t {
        SpecToml::Str(s) => SpecJson::Str(s),
        SpecToml::Int(i) => SpecJson::Int(i),
        SpecToml::Float(bits) => SpecJson::Float(bits),
        SpecToml::Bool(b) => SpecJson::Bool(b),
        SpecToml::Datetime(s) => SpecJson::Str(s),
        SpecToml::Arr(a) => SpecJson::Arr(toml_seq_to_json(a)),
        SpecToml::Table(o) => SpecJson::Obj(toml_entries_to_json(o)),
    }
}

/// Elementwise [`toml_to_json_spec`] over an array's children.
pub open spec fn toml_seq_to_json(a: Seq<SpecToml>) -> Seq<SpecJson>
    decreases a,
{
    if a.len() == 0 {
        Seq::empty()
    } else {
        seq![toml_to_json_spec(a[0])] + toml_seq_to_json(a.drop_first())
    }
}

/// Entrywise [`toml_to_json_spec`] over a table's entries; keys are kept.
pub open spec fn toml_entries_to_json(o: Seq<(Seq<char>, SpecToml)>) -> Seq<(Seq<char>, SpecJson)>
    decreases o,
{
    if o.len() == 0 {
        Seq::empty()
    } else {
        seq![(o[0].0, toml_to_json_spec(o[0].1))] + toml_entries_to_json(o.drop_first())
    }
}

/// A JSON tree whose integers all lie in the range the collaborating parsers
/// produce: within signed or unsigned 64-bit range.
pub open spec fn json_ints_in_range(j: SpecJson) -> bool
    decreases j,
{
    match j {
        SpecJson::Int(i) => i64::MIN <= i <= u64::MAX,
        SpecJson::Arr(a) => forall|k: int| 0 <= k < a.len() ==> json_ints_in_range(#[trigger] a[k]),
        SpecJson::Obj(o) => forall|k: int| 0 <= k < o.len() ==> json_ints_in_range(#[trigger] o[k].1),
        _ => true,
    }
}

/// A TOML tree whose integers all lie in signed 64-bit range, as every tree
/// built from `i64` payloads does.
pub open spec fn toml_ints_in_range(t: SpecToml) -> bool
    decreases t,
{
    match t {
        SpecToml::Int(i) => i64::MIN <= i <= i64::MAX,
        SpecToml::Arr(a) => forall|k: int| 0 <= k < a.len() ==> toml_ints_in_range(#[trigger] a[k]),
        SpecToml::Table(o) => forall|k: int| 0 <= k < o.len() ==> toml_ints_in_range(#[trigger] o[k].1),
        _ => true,
    }
}

/// A TOML tree with no datetime anywhere.
pub open spec fn toml_datetime_free(t: SpecToml) -> bool
    decreases t,
{
    match t {
        SpecToml::Datetime(_) => false,
        SpecToml::Arr(a) => forall|k: int| 0 <= k < a.len() ==> toml_datetime_free(#[trigger] a[k]),
        SpecToml::Table(o) => forall|k: int| 0 <= k < o.len() ==> toml_datetime_free(#[trigger] o[k].1),
        _ => true,
    }
}

/// What one round trip through TOML leaves of a JSON tree: every `null`
/// becomes the empty string and every integer beyond signed range wraps;
/// everything else is untouched.
pub open spec fn degrade_json(j: SpecJson) -> SpecJson
    decreases j,
{
    match j {
        SpecJson::Null => SpecJson::Str(Seq::empty()),
        SpecJson::Int(i) => SpecJson::Int(wrap_to_i64(i)),
        SpecJson::Arr(a) => SpecJson::Arr(degrade_json_seq(a)),
        SpecJson::Obj(o) => SpecJson::Obj(degrade_json_entries(o)),
        _ => j,
    }
}

/// No two entries of an object share a key.
pub open spec fn json_keys_unique(o: Seq<(Seq<char>, SpecJson)>) -> bool {
    forall|i: int, j: int| 0 <= i < j < o.len() ==> (#[trigger] o[i]).0 != (#[trigger] o[j]).0
}

/// No two entries of a table share a key.
pub open spec fn toml_keys_unique(o: Seq<(Seq<char>, SpecToml)>) -> bool {
    forall|i: int, j: int| 0 <= i < j < o.len() ==> (#[trigger] o[i]).0 != (#[trigger] o[j]).0
}


/// Key uniqueness at every level: every object anywhere in the tree has
/// pairwise distinct keys, as every parsed document does.
pub open spec fn json_keys_unique_deep(j: SpecJson) -> bool
    decreases j,
{
    match j {
        SpecJson::Arr(a) => forall|k: int| 0 <= k < a.len()
            ==> json_keys_unique_deep(#[trigger] a[k]),
        SpecJson::Obj(o) => json_keys_unique(o) && forall|k: int| 0 <= k < o.len()
            ==> json_keys_unique_deep((#[trigger] o[k]).1),
        _ => true,
    }
}

/// Key uniqueness at every level: every table anywhere in the tree has
/// pairwise distinct keys, as every parsed document does.
pub open spec fn toml_keys_unique_deep(t: SpecToml) -> bool
    decreases t,
{
    match t {
        SpecToml::Arr(a) => forall|k: int| 0 <= k < a.len()
            ==> toml_keys_unique_deep(#[trigger] a[k]),
        SpecToml::Table(o) => toml_keys_unique(o) && forall|k: int| 0 <= k < o.len()
            ==> toml_keys_unique_deep((#[trigger] o[k]).1),
        _ => true,
    }
}

/// Equality of JSON trees under unordered-mapping comparison: arrays must
/// match position by position, while an object's entries may come in any
/// order, provided keys are unique on both sides and each key maps to an
/// equivalent value.
pub open spec fn equiv_json(a: SpecJson, b: SpecJson) -> bool
    decreases a,
{
    match (a, b) {
        (SpecJson::Arr(x), SpecJson::Arr(y)) => {
            &&& x.len() == y.len()
            &&& forall|i: int| 0 <= i < x.len() ==> equiv_json(#[trigger] x[i], y[i])
        },
        (SpecJson::Obj(x), SpecJson::Obj(y)) => {
            &&& json_keys_unique(x)
            &&& json_keys_unique(y)
            &&& x.len() == y.len()
            &&& forall|i: int| 0 <= i < x.len()
                ==> exists|j: int|
                    0 <= j < y.len() && (#[trigger] y[j]).0 == (#[trigger] x[i]).0
                        && equiv_json(x[i].1, y[j].1)
        },
        _ => a == b,
    }
}

/// Equality of TOML trees under unordered-mapping comparison; the analogue of
/// [`equiv_json`].
pub open spec fn equiv_toml(a: SpecToml, b: SpecToml) -> bool
    decreases a,
{
    match (a, b) {
        (SpecToml::Arr(x), SpecToml::Arr(y)) => {
            &&& x.len() == y.len()
            &&& forall|i: int| 0 <= i < x.len() ==> equiv_toml(#[trigger] x[i], y[i])
        },
        (SpecToml::Table(x), SpecToml::Table(y)) => {
            &&& toml_keys_unique(x)
            &&& toml_keys_unique(y)
            &&& x.len() == y.len()
            &&& forall|i: int| 0 <= i < x.len()
                ==> exists|j: int|
                    0 <= j < y.len() && (#[trigger] y[j]).0 == (#[trigger] x[i]).0
                        && equiv_toml(x[i].1, y[j].1)
        },
        _ => a == b,
    }
}

/// Elementwise [`degrade_json`] over an array's children.
pub open spec fn degrade_json_seq(a: Seq<SpecJson>) -> Seq<SpecJson>
    decreases a,
{
    if a.len() == 0 {
        Seq::empty()
    } else {
        seq![degrade_json(a[0])] + degrade_json_seq(a.drop_first())
    }
}

/// Entrywise [`degrade_json`] over an object's entries.
pub open spec fn degrade_json_entries(o: Seq<(Seq<char>, SpecJson)>) -> Seq<(Seq<char>, SpecJson)>
    decreases o,
{
    if o.len() == 0 {
        Seq::empty()
    } else {
        seq![(o[0].0, degrade_json(o[0].1))] + degrade_json_entries(o.drop_first())
    }
}

/// Length and elements of [`json_seq_to_toml`].
pub proof fn lemma_json_seq_to_toml(a: Seq<SpecJson>)
    ensures
        json_seq_to_toml(a).len() == a.len(),
        forall|k: int| 0 <= k < a.len()
            ==> json_seq_to_toml(a)[k] == json_to_toml_spec(#[trigger] a[k]),
    decreases a,
{
    if a.len() > 0 {
        lemma_json_seq_to_toml(a.drop_first());
        assert forall|k: int| 0 <= k < a.len() implies json_seq_to_toml(a)[k]
            == json_to_toml_spec(#[trigger] a[k]) by {
            if k > 0 {
                assert(a.drop_first()[k - 1] == a[k]);
            }
        }
    }
}
/// Length and elements of [`json_entries_to_toml`].
pub proof fn lemma_json_entries_to_toml(o: Seq<(Seq<char>, SpecJson)>)
    ensures
        json_entries_to_toml(o).len() == o.len(),
        forall|k: int| 0 <= k < o.len()
            ==> json_entries_to_toml(o)[k] == ((#[trigger] o[k]).0, json_to_toml_spec(o[k].1)),
    decreases o,
{
    if o.len() > 0 {
        lemma_json_entries_to_toml(o.drop_first());
        assert forall|k: int| 0 <= k < o.len() implies json_entries_to_toml(o)[k]
            == ((#[trigger] o[k]).0, json_to_toml_spec(o[k].1)) by {
            if k > 0 {
                assert(o.drop_first()[k - 1] == o[k]);
            }
        }
    }
}
/// Length and elements of [`toml_seq_to_json`].
pub proof fn lemma_toml_seq_to_json(a: Seq<SpecToml>)
    ensures
        toml_seq_to_json(a).len() == a.len(),
        forall|k: int| 0 <= k < a.len()
            ==> toml_seq_to_json(a)[k] == toml_to_json_spec(#[trigger] a[k]),
    decreases a,
{
    if a.len() > 0 {
        lemma_toml_seq_to_json(a.drop_first());
        assert forall|k: int| 0 <= k < a.len() implies toml_seq_to_json(a)[k]
            == toml_to_json_spec(#[trigger] a[k]) by {
            if k > 0 {
                assert(a.drop_first()[k - 1] == a[k]);
            }
        }
    }
}
/// Length and elements of [`toml_entries_to_json`].
pub proof fn lemma_toml_entries_to_json(o: Seq<(Seq<char>, SpecToml)>)
    ensures
        toml_entries_to_json(o).len() == o.len(),
        forall|k: int| 0 <= k < o.len()
            ==> toml_entries_to_json(o)[k] == ((#[trigger] o[k]).0, toml_to_json_spec(o[k].1)),
    decreases o,
{
    if o.len() > 0 {
        lemma_toml_entries_to_json(o.drop_first());
        assert forall|k: int| 0 <= k < o.len() implies toml_entries_to_json(o)[k]
            == ((#[trigger] o[k]).0, toml_to_json_spec(o[k].1)) by {
            if k > 0 {
                assert(o.drop_first()[k - 1] == o[k]);
            }
        }
    }
}


/// Length and elements of [`degrade_json_seq`].
pub proof fn lemma_degrade_json_seq(a: Seq<SpecJson>)
    ensures
        degrade_json_seq(a).len() == a.len(),
        forall|k: int| 0 <= k < a.len() ==> degrade_json_seq(a)[k] == degrade_json(#[trigger] a[k]),
    decreases a,
{
    if a.len() > 0 {
        lemma_degrade_json_seq(a.drop_first());
        assert forall|k: int| 0 <= k < a.len() implies degrade_json_seq(a)[k]
            == degrade_json(#[trigger] a[k]) by {
            if k > 0 {
                assert(a.drop_first()[k - 1] == a[k]);
            }
        }
    }
}

/// Length and elements of [`degrade_json_entries`].
pub proof fn lemma_degrade_json_entries(o: Seq<(Seq<char>, SpecJson)>)
    ensures
        degrade_json_entries(o).len() == o.len(),
        forall|k: int| 0 <= k < o.len()
            ==> degrade_json_entries(o)[k] == ((#[trigger] o[k]).0, degrade_json(o[k].1)),
    decreases o,
{
    if o.len() > 0 {
        lemma_degrade_json_entries(o.drop_first());
        assert forall|k: int| 0 <= k < o.len() implies degrade_json_entries(o)[k]
            == ((#[trigger] o[k]).0, degrade_json(o[k].1)) by {
            if k > 0 {
                assert(o.drop_first()[k - 1] == o[k]);
            }
        }
    }
}

} // verus!
