//! Input sources and the trusted boundary around the collaborating parsers.
//!
//! Parsing is delegated to outside crates; only the thin calls below are
//! trusted, each with a contract read off the callee's source.  What a parser
//! returns for a given text is named by uninterpreted functions
//! ([`json_doc_of`], [`json_error_of`], [`toml_doc_of`], [`toml_errors_of`]):
//! the library never restates either grammar, it only promises that the same
//! text always yields the same outcome, and every step after the call is
//! verified.
//!
//! The JSON parser is not total: it accumulates a number's exponent digits in
//! a machine word without overflow checks, so an exponent of twenty or more
//! digits can abort it.  The trusted call therefore `requires`
//! [`exponents_bounded`], and [`parse_json`] runs a verified pre-scan that
//! declines the excluded texts with a fixed diagnostic instead of handing
//! them to the parser.

use vstd::prelude::*;

use crate::convert::{json_to_toml, toml_to_json};
use crate::model::{
    json_keys_unique_deep, json_to_toml_spec, toml_keys_unique_deep, toml_to_json_spec, SpecJson,
    SpecToml,
};
use crate::value::{spec_of_json, spec_of_toml, JsonValue, TomlValue};
use rustc_serialize::json::Json as RustcJson;
use rustc_serialize::json::{error_str, ParserError};
use toml::Value as TomlCrateValue;

verus! {

/// A diagnostic from the JSON parser: at most one per failed parse.
#[derive(Clone, Debug)]
pub struct JsonParseError {
    /// Line on which the parser stopped.
    pub line: usize,
    /// Column on which the parser stopped.
    pub col: usize,
    /// Human-readable description of the failure.
    pub desc: String,
}

impl View for JsonParseError {
    type V = (int, int, Seq<char>);

    open spec fn view(&self) -> (int, int, Seq<char>) {
        (self.line as int, self.col as int, self.desc@)
    }
}

/// A diagnostic from the TOML parser, which reports every independent error
/// it finds, not only the first.
#[derive(Clone, Debug)]
pub struct TomlParseError {
    /// The low byte the diagnostic points at.
    pub lo: usize,
    /// One byte beyond the last byte the diagnostic points at.
    pub hi: usize,
    /// Human-readable description of the failure.
    pub desc: String,
}

impl View for TomlParseError {
    type V = (int, int, Seq<char>);

    open spec fn view(&self) -> (int, int, Seq<char>) {
        (self.lo as int, self.hi as int, self.desc@)
    }
}

/// The models of a list of TOML diagnostics, in order.
pub open spec fn toml_errors_model(es: Seq<TomlParseError>) -> Seq<(int, int, Seq<char>)> {
    es.map_values(|e: TomlParseError| e@)
}

/// The JSON document a text denotes, if it parses: the parse is a function
/// of the text alone.
pub uninterp spec fn json_doc_of(s: Seq<char>) -> Option<SpecJson>;

/// The diagnostic (line, column, description) the JSON parser reports for a
/// text that does not parse; a function of the text alone.
pub uninterp spec fn json_error_of(s: Seq<char>) -> (int, int, Seq<char>);

/// The TOML document a text denotes, if it parses: the parse is a function
/// of the text alone.
pub uninterp spec fn toml_doc_of(s: Seq<char>) -> Option<SpecToml>;

/// The complete list of diagnostics (low byte, high byte, description) the
/// TOML parser accumulates over a text that does not parse, in the order it
/// reports them; a function of the text alone.
pub uninterp spec fn toml_errors_of(s: Seq<char>) -> Seq<(int, int, Seq<char>)>;

/// The model of a tree the JSON parser produced.
pub uninterp spec fn rustc_json_model(j: rustc_serialize::json::Json) -> SpecJson;

/// The model of a tree the TOML parser produced.
pub uninterp spec fn toml_crate_model(v: toml::Value) -> SpecToml;

#[verifier::external_type_specification]
#[verifier::external_body]
pub struct ExRustcJson(RustcJson);

#[verifier::external_type_specification]
#[verifier::external_body]
pub struct ExTomlValue(toml::Value);

/// One decimal digit, as the JSON number grammar knows it.
pub open spec fn is_dec_digit(c: char) -> bool {
    48 <= c as u32 <= 57
}

/// Position `i` starts a run of `n` consecutive decimal digits.
pub open spec fn digit_run_at(s: Seq<char>, i: int, n: int) -> bool {
    i + n <= s.len() && forall|j: int| i <= j < i + n ==> is_dec_digit(#[trigger] s[j])
}

/// An exponent marker at `i` followed, directly or after a sign, by twenty
/// or more digits.  Twenty digits are the fewest whose value can exceed the
/// JSON parser's 64-bit exponent accumulator.
pub open spec fn long_exponent_at(s: Seq<char>, i: int) -> bool {
    &&& 0 <= i < s.len()
    &&& (s[i] == 'e' || s[i] == 'E')
    &&& {
        ||| digit_run_at(s, i + 1, 20)
        ||| (i + 1 < s.len() && (s[i + 1] == '+' || s[i + 1] == '-') && digit_run_at(s, i + 2, 20))
    }
}

/// No exponent marker anywhere in the text introduces twenty or more
/// digits.  On these texts the JSON parser is total.
pub open spec fn exponents_bounded(s: Seq<char>) -> bool {
    forall|i: int| !long_exponent_at(s, i)
}

/// The diagnostic with which a text excluded by [`exponents_bounded`] is
/// declined before it reaches the parser.
pub open spec fn long_exponent_diag() -> (int, int, Seq<char>) {
    (0, 0, "number exponent too long to parse"@)
}

/// Decide [`is_dec_digit`].
fn dec_digit(c: char) -> (r: bool)
    ensures
        r == is_dec_digit(c),
{
    let n = c as u32;
    48 <= n && n <= 57
}

/// Scan a text for an exponent marker that introduces twenty or more
/// digits, the one shape of input [`parse_json`] declines.
#[verifier::loop_isolation(false)]
fn has_long_exponent(s: &str) -> (r: bool)
    ensures
        r == !exponents_bounded(s@),
{
    let n = s.unicode_len();
    let mut i: usize = 0;
    while i < n
        invariant
            i <= n,
            forall|m: int| 0 <= m < i ==> !long_exponent_at(s@, m),
        decreases n - i,
    {
        let c = s.get_char(i);
        if c == 'e' || c == 'E' {
            let mut p = i + 1;
            if p < n {
                let c2 = s.get_char(p);
                if c2 == '+' || c2 == '-' {
                    p = p + 1;
                }
            }
            let mut idx: usize = p;
            let mut run_broken: bool = false;
            while !run_broken && idx < n && idx - p < 20
                invariant
                    p <= idx <= n,
                    idx - p <= 20,
                    forall|q: int| p <= q < idx ==> is_dec_digit(#[trigger] s@[q]),
                    run_broken ==> idx < n && idx - p < 20 && !is_dec_digit(s@[idx as int]),
                decreases n - idx, (if run_broken { 0int } else { 1int }),
            {
                if dec_digit(s.get_char(idx)) {
                    idx = idx + 1;
                } else {
                    run_broken = true;
                }
            }
            if !run_broken && idx - p >= 20 {
                proof {
                    assert(digit_run_at(s@, p as int, 20));
                    assert(long_exponent_at(s@, i as int));
                    assert(!exponents_bounded(s@));
                }
                return true;
            }
            proof {
                if run_broken {
                    assert(p <= idx < p + 20);
                    assert(!is_dec_digit(s@[idx as int]));
                    assert(!digit_run_at(s@, p as int, 20));
                } else {
                    assert(idx == n && p + 20 > s@.len());
                    assert(!digit_run_at(s@, p as int, 20));
                }
                assert(!long_exponent_at(s@, i as int));
            }
        }
        i = i + 1;
    }
    proof {
        assert forall|m: int| !long_exponent_at(s@, m) by {
            if 0 <= m < s@.len() {
                assert(!long_exponent_at(s@, m));
            }
        }
    }
    false
}

/// Relies on `rustc_serialize::json::Json::from_str`: it parses a complete
/// JSON document, deterministically in the text alone, and on failure
/// reports a single structured diagnostic (its line, column and static
/// description are carried over).  Its `parse_exponent` accumulates a
/// number's exponent digits without overflow checks, so the one input shape
/// on which the call is not total — an exponent marker followed by twenty or
/// more digits — is kept out by `requires`.
#[verifier::external_body]
fn json_from_str(s: &str) -> (r: Result<rustc_serialize::json::Json, JsonParseError>)
    requires
        exponents_bounded(s@),
    ensures
        r is Ok <==> json_doc_of(s@) is Some,
        r matches Ok(j) ==> json_doc_of(s@) == Some(rustc_json_model(j)),
        r matches Err(e) ==> e@ == json_error_of(s@),
{
    match RustcJson::from_str(s) {
        Ok(j) => Ok(j),
        Err(ParserError::SyntaxError(c, line, col)) => {
            Err(JsonParseError { line, col, desc: error_str(c).to_string() })
        },
        Err(ParserError::IoError(e)) => {
            Err(JsonParseError { line: 0, col: 0, desc: e.to_string() })
        },
    }
}

/// Relies on the variants of `rustc_serialize::json::Json` only: each node
/// is carried over one for one (a float as its bit pattern), so the result's
/// model is the model of the parsed tree; objects are `BTreeMap`s, so every
/// object's keys are distinct.
#[verifier::external_body]
fn json_value_of(j: &rustc_serialize::json::Json) -> (v: JsonValue)
    ensures
        v@ == rustc_json_model(*j),
        json_keys_unique_deep(v@),
{
    match j {
        RustcJson::I64(i) => JsonValue::I64(*i),
        RustcJson::U64(u) => JsonValue::U64(*u),
        RustcJson::F64(f) => JsonValue::Float(f.to_bits()),
        RustcJson::String(s) => JsonValue::Str(s.clone()),
        RustcJson::Boolean(b) => JsonValue::Boolean(*b),
        RustcJson::Array(a) => JsonValue::Array(a.iter().map(json_value_of).collect()),
        RustcJson::Object(o) => {
            JsonValue::Object(o.iter().map(|(k, x)| (k.clone(), json_value_of(x))).collect())
        },
        RustcJson::Null => JsonValue::Null,
    }
}

/// Relies on `toml::Parser::new` and `Parser::parse` and the parser's public
/// `errors` list: a successful parse yields the document's root table,
/// deterministically in the text alone; on failure the list holds every
/// diagnostic the parser accumulated, which its documentation guarantees is
/// nonempty, and each is carried over as its byte span and description.
#[verifier::external_body]
fn toml_from_str(s: &str) -> (r: Result<toml::Value, Vec<TomlParseError>>)
    ensures
        r is Ok <==> toml_doc_of(s@) is Some,
        r matches Ok(v) ==> toml_doc_of(s@) == Some(toml_crate_model(v))
            && toml_crate_model(v) is Table,
        r matches Err(es) ==> toml_errors_model(es@) == toml_errors_of(s@) && es@.len() > 0,
{
    let mut p = toml::Parser::new(s);
    match p.parse() {
        Some(table) => Ok(TomlCrateValue::Table(table)),
        None => Err(
            p.errors.iter().map(
                |e| TomlParseError { lo: e.lo, hi: e.hi, desc: e.desc.clone() },
            ).collect(),
        ),
    }
}

/// Relies on the variants of `toml::Value` only: each node is carried over
/// one for one (a float as its bit pattern, a datetime as its text), so the
/// result's model is the model of the parsed tree; tables are `BTreeMap`s,
/// so every table's keys are distinct.
#[verifier::external_body]
fn toml_value_of(v: &toml::Value) -> (t: TomlValue)
    ensures
        t@ == toml_crate_model(*v),
        toml_keys_unique_deep(t@),
{
    match v {
        TomlCrateValue::String(s) => TomlValue::Str(s.clone()),
        TomlCrateValue::Integer(i) => TomlValue::Integer(*i),
        TomlCrateValue::Float(f) => TomlValue::Float(f.to_bits()),
        TomlCrateValue::Boolean(b) => TomlValue::Boolean(*b),
        TomlCrateValue::Datetime(s) => TomlValue::Datetime(s.clone()),
        TomlCrateValue::Array(a) => TomlValue::Array(a.iter().map(toml_value_of).collect()),
        TomlCrateValue::Table(t) => {
            TomlValue::Table(t.iter().map(|(k, x)| (k.clone(), toml_value_of(x))).collect())
        },
    }
}

/// Parse a JSON document from text.  On texts within [`exponents_bounded`]
/// — everything but a numeric exponent of twenty or more digits, which
/// would abort the parser and is declined with a fixed diagnostic —
/// returns `Ok` exactly when the text is valid JSON, and then the tree the
/// text denotes, with distinct keys in every object; a failure carries the
/// parser's single diagnostic unchanged and never a partial tree.
pub fn parse_json(s: &str) -> (r: Result<JsonValue, JsonParseError>)
    ensures
        r is Ok <==> exponents_bounded(s@) && json_doc_of(s@) is Some,
        r matches Ok(v) ==> Some(v@) == json_doc_of(s@) && json_keys_unique_deep(v@),
        exponents_bounded(s@) ==> (r matches Err(e) ==> e@ == json_error_of(s@)),
        !exponents_bounded(s@) ==> (r matches Err(e) ==> e@ == long_exponent_diag()),
{
    if has_long_exponent(s) {
        Err(JsonParseError { line: 0, col: 0, desc: "number exponent too long to parse".to_owned() })
    } else {
        match json_from_str(s) {
            Ok(j) => Ok(json_value_of(&j)),
            Err(e) => Err(e),
        }
    }
}

/// Parse a TOML document from text.  Returns `Ok` exactly when the text is
/// valid TOML, and then the table-rooted tree the text denotes, with
/// distinct keys in every table; a failure carries the parser's complete
/// diagnostic list unchanged — every independent error, at least one — and
/// never a partial tree.
pub fn parse_toml(s: &str) -> (r: Result<TomlValue, Vec<TomlParseError>>)
    ensures
        r is Ok <==> toml_doc_of(s@) is Some,
        r matches Ok(v) ==> Some(v@) == toml_doc_of(s@) && v@ is Table
            && toml_keys_unique_deep(v@),
        r matches Err(es) ==> toml_errors_model(es@) == toml_errors_of(s@) && es@.len() > 0,
{
    match toml_from_str(s) {
        Ok(raw) => Ok(toml_value_of(&raw)),
        Err(es) => Err(es),
    }
}

/// A source of JSON documents.
pub trait JsonSrc: Sized {
    /// The document this source holds, if its contents parse.
    spec fn json_doc(&self) -> Option<SpecJson>;

    /// The diagnostic this source reports when its contents do not parse.
    spec fn json_diag(&self) -> (int, int, Seq<char>);

    /// Attempt to parse the source into a JSON tree.  Parsing only reads
    /// the source, which is left unchanged; a failure carries the source's
    /// diagnostic unchanged.
    fn parse(&mut self) -> (r: Result<JsonValue, JsonParseError>)
        ensures
            *final(self) == *old(self),
            r is Ok <==> old(self).json_doc() is Some,
            r matches Ok(v) ==> Some(v@) == old(self).json_doc(),
            r matches Err(e) ==> e@ == old(self).json_diag(),
    ;
}

/// A source of TOML documents.
pub trait TomlSrc: Sized {
    /// The document this source holds, if its contents parse.
    spec fn toml_doc(&self) -> Option<SpecToml>;

    /// The diagnostics this source reports when its contents do not parse.
    spec fn toml_diags(&self) -> Seq<(int, int, Seq<char>)>;

    /// Attempt to parse the source into a TOML tree.  Parsing only reads
    /// the source, which is left unchanged; a failure carries the source's
    /// complete diagnostic list unchanged, at least one entry.
    fn parse(&mut self) -> (r: Result<TomlValue, Vec<TomlParseError>>)
        ensures
            *final(self) == *old(self),
            r is Ok <==> old(self).toml_doc() is Some,
            r matches Ok(v) ==> Some(v@) == old(self).toml_doc(),
            r matches Err(es) ==> toml_errors_model(es@) == old(self).toml_diags()
                && es@.len() > 0,
    ;
}

impl JsonSrc for String {
    /// The text's document; a text the parser cannot take (an over-long
    /// numeric exponent) holds none.
    open spec fn json_doc(&self) -> Option<SpecJson> {
        if exponents_bounded(self@) {
            json_doc_of(self@)
        } else {
            None
        }
    }

    open spec fn json_diag(&self) -> (int, int, Seq<char>) {
        if exponents_bounded(self@) {
            json_error_of(self@)
        } else {
            long_exponent_diag()
        }
    }

    fn parse(&mut self) -> (r: Result<JsonValue, JsonParseError>) {
        parse_json(self.as_str())
    }
}

impl TomlSrc for String {
    /// The text's document.  A parsed TOML document is always rooted in a
    /// table, so the filter below discards nothing: it only makes that fact
    /// visible to callers through the trait.
    open spec fn toml_doc(&self) -> Option<SpecToml> {
        match toml_doc_of(self@) {
            Some(d) => if d is Table {
                Some(d)
            } else {
                None
            },
            None => None,
        }
    }

    open spec fn toml_diags(&self) -> Seq<(int, int, Seq<char>)> {
        toml_errors_of(self@)
    }

    fn parse(&mut self) -> (r: Result<TomlValue, Vec<TomlParseError>>) {
        parse_toml(self.as_str())
    }
}

impl JsonSrc for JsonValue {
    /// An already-parsed value is its own document.
    open spec fn json_doc(&self) -> Option<SpecJson> {
        Some(spec_of_json(*self))
    }

    /// This source never fails, so no diagnostic is ever reported.
    open spec fn json_diag(&self) -> (int, int, Seq<char>) {
        (0, 0, Seq::<char>::empty())
    }

    fn parse(&mut self) -> (r: Result<JsonValue, JsonParseError>) {
        Ok(self.clone())
    }
}

impl TomlSrc for TomlValue {
    /// An already-parsed value is its own document.
    open spec fn toml_doc(&self) -> Option<SpecToml> {
        Some(spec_of_toml(*self))
    }

    /// This source never fails, so no diagnostics are ever reported.
    open spec fn toml_diags(&self) -> Seq<(int, int, Seq<char>)> {
        Seq::empty()
    }

    fn parse(&mut self) -> (r: Result<TomlValue, Vec<TomlParseError>>) {
        Ok(self.clone())
    }
}

/// Conversions from JSON to TOML.
pub struct Json;

impl Json {
    /// Parse the source and convert the document to a TOML tree, reading
    /// the source only.  Succeeds exactly when the source parses;
    /// conversion itself never fails, and a failure hands the source's
    /// diagnostic through unchanged.
    pub fn as_toml<J: JsonSrc>(src: &mut J) -> (r: Result<TomlValue, JsonParseError>)
        ensures
            *final(src) == *old(src),
            r is Ok <==> old(src).json_doc() is Some,
            r matches Ok(t) ==> old(src).json_doc() matches Some(d)
                && t@ == json_to_toml_spec(d),
            r matches Err(e) ==> e@ == old(src).json_diag(),
    {
        match src.parse() {
            Ok(v) => Ok(json_to_toml(&v)),
            Err(e) => Err(e),
        }
    }
}

/// Conversions from TOML to JSON.
pub struct Toml;

impl Toml {
    /// Parse the source and convert the document to a JSON tree, reading
    /// the source only.  Succeeds exactly when the source parses;
    /// conversion itself never fails, and a failure hands the source's
    /// complete diagnostic list through unchanged, at least one entry.
    pub fn as_json<T: TomlSrc>(src: &mut T) -> (r: Result<JsonValue, Vec<TomlParseError>>)
        ensures
            *final(src) == *old(src),
            r is Ok <==> old(src).toml_doc() is Some,
            r matches Ok(j) ==> old(src).toml_doc() matches Some(d)
                && j@ == toml_to_json_spec(d),
            r matches Err(es) ==> toml_errors_model(es@) == old(src).toml_diags()
                && es@.len() > 0,
    {
        match src.parse() {
            Ok(v) => Ok(toml_to_json(&v)),
            Err(es) => Err(es),
        }
    }
}

} // verus!
