//! Laws the two adapters obey, proved once and for all over the models in
//! [`crate::model`].

use vstd::prelude::*;

use crate::model::{
    degrade_json, degrade_json_entries, degrade_json_seq, equiv_json, equiv_toml,
    json_entries_to_toml, json_ints_in_range, json_seq_to_toml,
    json_to_toml_spec, lemma_degrade_json_entries, lemma_degrade_json_seq,
    lemma_json_entries_to_toml, lemma_json_seq_to_toml, lemma_toml_entries_to_json,
    lemma_toml_seq_to_json, toml_datetime_free, toml_entries_to_json, toml_ints_in_range,
    toml_seq_to_json, toml_to_json_spec, SpecJson, SpecToml,
};

verus! {

/// Round trip through TOML: converting a JSON tree to TOML and back yields
/// the tree unchanged except for the two documented degradations — every
/// `null` has become the empty string, and every integer beyond signed
/// 64-bit range has wrapped.  On a tree with neither, the round trip is the
/// identity.
pub proof fn lemma_json_round_trip(j: SpecJson)
    requires
        json_ints_in_range(j),
    ensures
        toml_to_json_spec(json_to_toml_spec(j)) == degrade_json(j),
    decreases j,
{
    match j {
        SpecJson::Arr(a) => {
            lemma_json_seq_to_toml(a);
            lemma_toml_seq_to_json(crate::model::json_seq_to_toml(a));
            lemma_degrade_json_seq(a);
            assert forall|k: int| 0 <= k < a.len() implies round_trip_json_seq(a)[k]
                == degrade_json_seq(a)[k] by {
                lemma_json_round_trip(a[k]);
            }
            assert(round_trip_json_seq(a) =~= degrade_json_seq(a));
        },
        SpecJson::Obj(o) => {
            lemma_json_entries_to_toml(o);
            lemma_toml_entries_to_json(crate::model::json_entries_to_toml(o));
            lemma_degrade_json_entries(o);
            assert forall|k: int| 0 <= k < o.len() implies round_trip_json_entries(o)[k]
                == degrade_json_entries(o)[k] by {
                lemma_json_round_trip(o[k].1);
            }
            assert(round_trip_json_entries(o) =~= degrade_json_entries(o));
        },
        _ => {},
    }
}

/// The children of a JSON array after a full round trip through TOML.
pub open spec fn round_trip_json_seq(a: Seq<SpecJson>) -> Seq<SpecJson> {
    crate::model::toml_seq_to_json(crate::model::json_seq_to_toml(a))
}

/// The entries of a JSON object after a full round trip through TOML.
pub open spec fn round_trip_json_entries(
    o: Seq<(Seq<char>, SpecJson)>,
) -> Seq<(Seq<char>, SpecJson)> {
    crate::model::toml_entries_to_json(crate::model::json_entries_to_toml(o))
}

/// The degradation of one round trip is as far as a tree ever falls: a second
/// application changes nothing, so round-tripping is idempotent after the
/// first lossy step.
pub proof fn lemma_degrade_json_idempotent(j: SpecJson)
    requires
        json_ints_in_range(j),
    ensures
        json_ints_in_range(degrade_json(j)),
        degrade_json(degrade_json(j)) == degrade_json(j),
    decreases j,
{
    match j {
        SpecJson::Arr(a) => {
            lemma_degrade_json_seq(a);
            lemma_degrade_json_seq(degrade_json_seq(a));
            assert forall|k: int| 0 <= k < a.len() implies json_ints_in_range(
                #[trigger] degrade_json_seq(a)[k],
            ) && degrade_json_seq(degrade_json_seq(a))[k] == degrade_json_seq(a)[k] by {
                lemma_degrade_json_idempotent(a[k]);
            }
            assert(degrade_json_seq(degrade_json_seq(a)) =~= degrade_json_seq(a));
        },
        SpecJson::Obj(o) => {
            lemma_degrade_json_entries(o);
            lemma_degrade_json_entries(degrade_json_entries(o));
            assert forall|k: int| 0 <= k < o.len() implies json_ints_in_range(
                (#[trigger] degrade_json_entries(o)[k]).1,
            ) && degrade_json_entries(degrade_json_entries(o))[k]
                == degrade_json_entries(o)[k] by {
                lemma_degrade_json_idempotent(o[k].1);
            }
            assert(degrade_json_entries(degrade_json_entries(o)) =~= degrade_json_entries(o));
        },
        _ => {},
    }
}

/// Round trip through JSON: on a TOML tree without datetimes (whose integers
/// lie in signed 64-bit range, as every executable tree's do), converting to
/// JSON and back reproduces the tree exactly.
pub proof fn lemma_toml_round_trip(t: SpecToml)
    requires
        toml_ints_in_range(t),
        toml_datetime_free(t),
    ensures
        json_to_toml_spec(toml_to_json_spec(t)) == t,
    decreases t,
{
    match t {
        SpecToml::Arr(a) => {
            lemma_toml_seq_to_json(a);
            lemma_json_seq_to_toml(crate::model::toml_seq_to_json(a));
            assert forall|k: int| 0 <= k < a.len() implies round_trip_toml_seq(a)[k]
                == a[k] by {
                lemma_toml_round_trip(a[k]);
            }
            assert(round_trip_toml_seq(a) =~= a);
        },
        SpecToml::Table(o) => {
            lemma_toml_entries_to_json(o);
            lemma_json_entries_to_toml(crate::model::toml_entries_to_json(o));
            assert forall|k: int| 0 <= k < o.len() implies round_trip_toml_entries(o)[k]
                == o[k] by {
                lemma_toml_round_trip(o[k].1);
            }
            assert(round_trip_toml_entries(o) =~= o);
        },
        _ => {},
    }
}

/// The children of a TOML array after a full round trip through JSON.
pub open spec fn round_trip_toml_seq(a: Seq<SpecToml>) -> Seq<SpecToml> {
    crate::model::json_seq_to_toml(crate::model::toml_seq_to_json(a))
}

/// The entries of a TOML table after a full round trip through JSON.
pub open spec fn round_trip_toml_entries(
    o: Seq<(Seq<char>, SpecToml)>,
) -> Seq<(Seq<char>, SpecToml)> {
    crate::model::json_entries_to_toml(crate::model::toml_entries_to_json(o))
}

/// A second round trip through TOML changes nothing further: the degradation
/// of the first pass is final.
pub proof fn lemma_json_round_trip_idempotent(j: SpecJson)
    requires
        json_ints_in_range(j),
    ensures
        toml_to_json_spec(json_to_toml_spec(toml_to_json_spec(json_to_toml_spec(j))))
            == toml_to_json_spec(json_to_toml_spec(j)),
{
    lemma_json_round_trip(j);
    lemma_degrade_json_idempotent(j);
    lemma_json_round_trip(degrade_json(j));
}

/// Key-order independence, JSON to TOML: reordering the entries of any object
/// in a source tree never changes the converted tree's equality under
/// unordered-mapping comparison.
pub proof fn lemma_json_to_toml_key_order(a: SpecJson, b: SpecJson)
    requires
        equiv_json(a, b),
    ensures
        equiv_toml(json_to_toml_spec(a), json_to_toml_spec(b)),
    decreases a,
{
    match (a, b) {
        (SpecJson::Arr(x), SpecJson::Arr(y)) => {
            lemma_json_seq_to_toml(x);
            lemma_json_seq_to_toml(y);
            assert forall|i: int| 0 <= i < json_seq_to_toml(x).len() implies equiv_toml(
                #[trigger] json_seq_to_toml(x)[i],
                json_seq_to_toml(y)[i],
            ) by {
                assert(equiv_json(x[i], y[i]));
                lemma_json_to_toml_key_order(x[i], y[i]);
            }
            assert(equiv_toml(
                SpecToml::Arr(json_seq_to_toml(x)),
                SpecToml::Arr(json_seq_to_toml(y)),
            ));
        },
        (SpecJson::Obj(x), SpecJson::Obj(y)) => {
            lemma_json_entries_to_toml(x);
            lemma_json_entries_to_toml(y);
            let cx = json_entries_to_toml(x);
            let cy = json_entries_to_toml(y);
            assert forall|i: int, j: int| 0 <= i < j < cx.len() implies (#[trigger] cx[i]).0
                != (#[trigger] cx[j]).0 by {
                assert(x[i].0 != x[j].0);
            }
            assert forall|i: int, j: int| 0 <= i < j < cy.len() implies (#[trigger] cy[i]).0
                != (#[trigger] cy[j]).0 by {
                assert(y[i].0 != y[j].0);
            }
            assert forall|i: int| 0 <= i < cx.len() implies exists|j: int|
                0 <= j < cy.len() && (#[trigger] cy[j]).0 == (#[trigger] cx[i]).0
                    && equiv_toml(cx[i].1, cy[j].1) by {
                assert(0 <= i < x.len());
                assert(exists|j: int|
                    0 <= j < y.len() && (#[trigger] y[j]).0 == x[i].0
                        && equiv_json(x[i].1, y[j].1));
                let w = choose|j: int|
                    0 <= j < y.len() && (#[trigger] y[j]).0 == x[i].0
                        && equiv_json(x[i].1, y[j].1);
                lemma_json_to_toml_key_order(x[i].1, y[w].1);
                assert(0 <= w < cy.len() && cy[w].0 == cx[i].0 && equiv_toml(cx[i].1, cy[w].1));
            }
            assert(equiv_toml(SpecToml::Table(cx), SpecToml::Table(cy)));
        },
        _ => {
            assert(a == b);
        },
    }
}

/// Key-order independence, TOML to JSON: reordering the entries of any table
/// in a source tree never changes the converted tree's equality under
/// unordered-mapping comparison.
pub proof fn lemma_toml_to_json_key_order(a: SpecToml, b: SpecToml)
    requires
        equiv_toml(a, b),
    ensures
        equiv_json(toml_to_json_spec(a), toml_to_json_spec(b)),
    decreases a,
{
    match (a, b) {
        (SpecToml::Arr(x), SpecToml::Arr(y)) => {
            lemma_toml_seq_to_json(x);
            lemma_toml_seq_to_json(y);
            assert forall|i: int| 0 <= i < toml_seq_to_json(x).len() implies equiv_json(
                #[trigger] toml_seq_to_json(x)[i],
                toml_seq_to_json(y)[i],
            ) by {
                assert(equiv_toml(x[i], y[i]));
                lemma_toml_to_json_key_order(x[i], y[i]);
            }
            assert(equiv_json(
                SpecJson::Arr(toml_seq_to_json(x)),
                SpecJson::Arr(toml_seq_to_json(y)),
            ));
        },
        (SpecToml::Table(x), SpecToml::Table(y)) => {
            lemma_toml_entries_to_json(x);
            lemma_toml_entries_to_json(y);
            let cx = toml_entries_to_json(x);
            let cy = toml_entries_to_json(y);
            assert forall|i: int, j: int| 0 <= i < j < cx.len() implies (#[trigger] cx[i]).0
                != (#[trigger] cx[j]).0 by {
                assert(x[i].0 != x[j].0);
            }
            assert forall|i: int, j: int| 0 <= i < j < cy.len() implies (#[trigger] cy[i]).0
                != (#[trigger] cy[j]).0 by {
                assert(y[i].0 != y[j].0);
            }
            assert forall|i: int| 0 <= i < cx.len() implies exists|j: int|
                0 <= j < cy.len() && (#[trigger] cy[j]).0 == (#[trigger] cx[i]).0
                    && equiv_json(cx[i].1, cy[j].1) by {
                assert(0 <= i < x.len());
                assert(exists|j: int|
                    0 <= j < y.len() && (#[trigger] y[j]).0 == x[i].0
                        && equiv_toml(x[i].1, y[j].1));
                let w = choose|j: int|
                    0 <= j < y.len() && (#[trigger] y[j]).0 == x[i].0
                        && equiv_toml(x[i].1, y[j].1);
                lemma_toml_to_json_key_order(x[i].1, y[w].1);
                assert(0 <= w < cy.len() && cy[w].0 == cx[i].0 && equiv_json(cx[i].1, cy[w].1));
            }
            assert(equiv_json(SpecJson::Obj(cx), SpecJson::Obj(cy)));
        },
        _ => {
            assert(a == b);
        },
    }
}

} // verus!
