//! The two verified adapters: recursive walks that rebuild a tree of the
//! other format, exactly as [`crate::model`] describes them.

use vstd::prelude::*;

use crate::model::{
    json_entries_to_toml, json_seq_to_toml, json_to_toml_spec, lemma_json_entries_to_toml,
    lemma_json_seq_to_toml, lemma_toml_entries_to_json, lemma_toml_seq_to_json,
    toml_entries_to_json, toml_seq_to_json, toml_to_json_spec,
};
use crate::value::{
    lemma_spec_of_json_entries, lemma_spec_of_json_seq, lemma_spec_of_toml_entries,
    lemma_spec_of_toml_seq, spec_of_json, spec_of_json_entries, spec_of_json_seq, spec_of_toml,
    spec_of_toml_entries, spec_of_toml_seq, wrap_u64, JsonValue, TomlValue,
};

verus! {








/// Convert a JSON tree to the TOML tree the mapping in [`crate::model`]
/// assigns to it.  Total: every JSON variant has a defined image.
#[verifier::loop_isolation(false)]
pub fn json_to_toml(v: &JsonValue) -> (t: TomlValue)
    ensures
        t@ == json_to_toml_spec(v@),
    decreases *v,
{
    match v {
        JsonValue::Null => TomlValue::Str(String::new()),
        JsonValue::Boolean(b) => TomlValue::Boolean(*b),
        JsonValue::I64(i) => TomlValue::Integer(*i),
        JsonValue::U64(u) => TomlValue::Integer(wrap_u64(*u)),
        JsonValue::Float(bits) => TomlValue::Float(*bits),
        JsonValue::Str(s) => TomlValue::Str(s.clone()),
        JsonValue::Array(items) => {
            let mut out: Vec<TomlValue> = Vec::new();
            let mut i: usize = 0;
            while i < items.len()
                invariant
                    i <= items.len(),
                    out@.len() == i,
                    forall|k: int| 0 <= k < i
                        ==> spec_of_toml(#[trigger] out@[k])
                            == json_to_toml_spec(spec_of_json(items@[k])),
                decreases items@.len() - i,
            {
                let c = json_to_toml(&items[i]);
                out.push(c);
                i = i + 1;
            }
            proof {
                lemma_spec_of_toml_seq(out@);
                lemma_spec_of_json_seq(items@);
                lemma_json_seq_to_toml(spec_of_json_seq(items@));
                assert forall|k: int| 0 <= k < out@.len() implies spec_of_toml_seq(out@)[k]
                    == json_seq_to_toml(spec_of_json_seq(items@))[k] by {
                    assert(spec_of_json_seq(items@)[k] == spec_of_json(items@[k]));
                    assert(spec_of_toml(out@[k]) == json_to_toml_spec(spec_of_json(items@[k])));
                }
                assert(spec_of_toml_seq(out@) =~= json_seq_to_toml(spec_of_json_seq(items@)));
            }
            TomlValue::Array(out)
        },
        JsonValue::Object(entries) => {
            let mut out: Vec<(String, TomlValue)> = Vec::new();
            let mut i: usize = 0;
            while i < entries.len()
                invariant
                    i <= entries.len(),
                    out@.len() == i,
                    forall|k: int| 0 <= k < i
                        ==> (#[trigger] out@[k]).0@ == entries@[k].0@
                            && spec_of_toml(out@[k].1)
                                == json_to_toml_spec(spec_of_json(entries@[k].1)),
                decreases entries@.len() - i,
            {
                let key = entries[i].0.clone();
                let c = json_to_toml(&entries[i].1);
                out.push((key, c));
                i = i + 1;
            }
            proof {
                lemma_spec_of_toml_entries(out@);
                lemma_spec_of_json_entries(entries@);
                lemma_json_entries_to_toml(spec_of_json_entries(entries@));
                assert forall|k: int| 0 <= k < out@.len() implies spec_of_toml_entries(out@)[k]
                    == json_entries_to_toml(spec_of_json_entries(entries@))[k] by {
                    assert(spec_of_json_entries(entries@)[k]
                        == (entries@[k].0@, spec_of_json(entries@[k].1)));
                    assert(out@[k].0@ == entries@[k].0@);
                    assert(spec_of_toml(out@[k].1)
                        == json_to_toml_spec(spec_of_json(entries@[k].1)));
                }
                assert(spec_of_toml_entries(out@)
                    =~= json_entries_to_toml(spec_of_json_entries(entries@)));
            }
            TomlValue::Table(out)
        },
    }
}

/// Convert a TOML tree to the JSON tree the mapping in [`crate::model`]
/// assigns to it.  Total: every TOML variant has a defined image.
#[verifier::loop_isolation(false)]
pub fn toml_to_json(v: &TomlValue) -> (j: JsonValue)
    ensures
        j@ == toml_to_json_spec(v@),
    decreases *v,
{
    match v {
        TomlValue::Str(s) => JsonValue::Str(s.clone()),
        TomlValue::Integer(i) => JsonValue::I64(*i),
        TomlValue::Float(bits) => JsonValue::Float(*bits),
        TomlValue::Boolean(b) => JsonValue::Boolean(*b),
        TomlValue::Datetime(s) => JsonValue::Str(s.clone()),
        TomlValue::Array(items) => {
            let mut out: Vec<JsonValue> = Vec::new();
            let mut i: usize = 0;
            while i < items.len()
                invariant
                    i <= items.len(),
                    out@.len() == i,
                    forall|k: int| 0 <= k < i
                        ==> spec_of_json(#[trigger] out@[k])
                            == toml_to_json_spec(spec_of_toml(items@[k])),
                decreases items@.len() - i,
            {
                let c = toml_to_json(&items[i]);
                out.push(c);
                i = i + 1;
            }
            proof {
                lemma_spec_of_json_seq(out@);
                lemma_spec_of_toml_seq(items@);
                lemma_toml_seq_to_json(spec_of_toml_seq(items@));
                assert forall|k: int| 0 <= k < out@.len() implies spec_of_json_seq(out@)[k]
                    == toml_seq_to_json(spec_of_toml_seq(items@))[k] by {
                    assert(spec_of_toml_seq(items@)[k] == spec_of_toml(items@[k]));
                    assert(spec_of_json(out@[k]) == toml_to_json_spec(spec_of_toml(items@[k])));
                }
                assert(spec_of_json_seq(out@) =~= toml_seq_to_json(spec_of_toml_seq(items@)));
            }
            JsonValue::Array(out)
        },
        TomlValue::Table(entries) => {
            let mut out: Vec<(String, JsonValue)> = Vec::new();
            let mut i: usize = 0;
            while i < entries.len()
                invariant
                    i <= entries.len(),
                    out@.len() == i,
                    forall|k: int| 0 <= k < i
                        ==> (#[trigger] out@[k]).0@ == entries@[k].0@
                            && spec_of_json(out@[k].1)
                                == toml_to_json_spec(spec_of_toml(entries@[k].1)),
                decreases entries@.len() - i,
            {
                let key = entries[i].0.clone();
                let c = toml_to_json(&entries[i].1);
                out.push((key, c));
                i = i + 1;
            }
            proof {
                lemma_spec_of_json_entries(out@);
                lemma_spec_of_toml_entries(entries@);
                lemma_toml_entries_to_json(spec_of_toml_entries(entries@));
                assert forall|k: int| 0 <= k < out@.len() implies spec_of_json_entries(out@)[k]
                    == toml_entries_to_json(spec_of_toml_entries(entries@))[k] by {
                    assert(spec_of_toml_entries(entries@)[k]
                        == (entries@[k].0@, spec_of_toml(entries@[k].1)));
                    assert(out@[k].0@ == entries@[k].0@);
                    assert(spec_of_json(out@[k].1)
                        == toml_to_json_spec(spec_of_toml(entries@[k].1)));
                }
                assert(spec_of_json_entries(out@)
                    =~= toml_entries_to_json(spec_of_toml_entries(entries@)));
            }
            JsonValue::Object(out)
        },
    }
}

} // verus!
