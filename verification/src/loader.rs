use vstd::prelude::*;
use vstd::string::StrSliceExecFns;
use crate::value::ValModel;
use crate::value::models_of;
use crate::value::lemma_models_from;
use crate::value::lemma_pair_models_from;
use crate::parser::sci_nanos;
use crate::parser::str_to_nanos;

verus! {

broadcast use
    vstd::std_specs::vec::group_vec_axioms,
    vstd::seq::axiom_seq_index_decreases,
    lemma_models_from,
    lemma_pair_models_from;

#[verifier::external_type_specification]
#[verifier::external_body]
pub struct ExSerdeValue(serde_json::Value);

/// What a parsed `serde_json` document holds, as a value model. Object
/// member order is the document's member order (`serde_json` is built
/// with `preserve_order`); numbers are read from their canonical text,
/// truncated to nano-units.
pub uninterp spec fn serde_model(v: serde_json::Value) -> ValModel;

/// What parsing a JSON text yields: the document's model, or nothing
/// when the text is not valid JSON.
pub uninterp spec fn json_doc_of(s: Seq<char>) -> Option<ValModel>;

/// The kind of a document node.
pub enum SerdeKind {
    Null,
    Bool,
    Num,
    Str,
    Arr,
    Obj,
}

/// Relies on `serde_json::from_str::<serde_json::Value>`: parses a JSON
/// text into a document value, or fails when the parser rejects the
/// text; `json_doc_of` names the outcome for each text.
#[verifier::external_body]
fn parse_json_text(s: &str) -> (r: Option<serde_json::Value>)
    ensures
        match r {
            Some(v) => json_doc_of(s@) == Some(serde_model(v)),
            None => json_doc_of(s@) is None,
        },
{
    match serde_json::from_str::<serde_json::Value>(s) {
        Ok(v) => Some(v),
        Err(_) => None,
    }
}

/// Relies on matching `serde_json::Value`'s variants: tells the kinds
/// of document nodes apart.
#[verifier::external_body]
fn serde_kind(v: &serde_json::Value) -> (r: SerdeKind)
    ensures
        (r is Null <==> serde_model(*v) is Null),
        (r is Bool <==> serde_model(*v) is Bool),
        (r is Num <==> serde_model(*v) is Num),
        (r is Str <==> serde_model(*v) is Str),
        (r is Arr <==> serde_model(*v) is Arr),
        (r is Obj <==> serde_model(*v) is Obj),
{
    match v {
        serde_json::Value::Null => SerdeKind::Null,
        serde_json::Value::Bool(_) => SerdeKind::Bool,
        serde_json::Value::Number(_) => SerdeKind::Num,
        serde_json::Value::String(_) => SerdeKind::Str,
        serde_json::Value::Array(_) => SerdeKind::Arr,
        serde_json::Value::Object(_) => SerdeKind::Obj,
    }
}

/// Relies on `serde_json::Value::as_bool`: the boolean a boolean node
/// holds.
#[verifier::external_body]
fn serde_bool(v: &serde_json::Value) -> (r: bool)
    requires
        serde_model(*v) is Bool,
    ensures
        r == serde_model(*v)->b,
{
    v.as_bool().unwrap_or(false)
}

/// Relies on `serde_json::Value::as_str`: the text a string node holds.
#[verifier::external_body]
fn serde_str(v: &serde_json::Value) -> (r: String)
    requires
        serde_model(*v) is Str,
    ensures
        r@ == serde_model(*v)->s,
{
    match v.as_str() {
        Some(s) => s.to_string(),
        None => String::new(),
    }
}

/// Relies on the `Display` of `serde_json::Number`: a number node
/// prints as a decimal numeral (with optional fraction and exponent),
/// and the node's model is that numeral's nano-unit value.
#[verifier::external_body]
fn serde_num_text(v: &serde_json::Value) -> (r: String)
    requires
        serde_model(*v) is Num,
    ensures
        sci_nanos(r@) == Some(serde_model(*v)->n),
{
    match v {
        serde_json::Value::Number(n) => n.to_string(),
        _ => String::new(),
    }
}

/// Relies on `serde_json::Value::as_array`: the element count of an
/// array node.
#[verifier::external_body]
fn serde_arr_len(v: &serde_json::Value) -> (r: usize)
    requires
        serde_model(*v) is Arr,
    ensures
        r == serde_model(*v)->elems.len(),
{
    match v.as_array() {
        Some(a) => a.len(),
        None => 0,
    }
}

/// Relies on `serde_json::Value::as_array` and `Vec` indexing: the
/// element of an array node at an in-range position.
#[verifier::external_body]
fn serde_arr_get<'a>(v: &'a serde_json::Value, i: usize) -> (r: &'a serde_json::Value)
    requires
        serde_model(*v) is Arr,
        i < serde_model(*v)->elems.len(),
    ensures
        serde_model(*r) == serde_model(*v)->elems[i as int],
{
    &v.as_array().unwrap()[i]
}

/// Relies on `serde_json::Value::as_object`: the member count of an
/// object node.
#[verifier::external_body]
fn serde_obj_len(v: &serde_json::Value) -> (r: usize)
    requires
        serde_model(*v) is Obj,
    ensures
        r == serde_model(*v)->pairs.len(),
{
    match v.as_object() {
        Some(m) => m.len(),
        None => 0,
    }
}

/// Relies on `serde_json::Map` iteration (in member order, with
/// `preserve_order`): the key of the member at an in-range position.
#[verifier::external_body]
fn serde_obj_key(v: &serde_json::Value, i: usize) -> (r: String)
    requires
        serde_model(*v) is Obj,
        i < serde_model(*v)->pairs.len(),
    ensures
        r@ == serde_model(*v)->pairs[i as int].0,
{
    match v.as_object().unwrap().iter().nth(i) {
        Some((k, _)) => k.clone(),
        None => String::new(),
    }
}

/// Relies on `serde_json::Map` iteration (in member order, with
/// `preserve_order`): the value of the member at an in-range position.
#[verifier::external_body]
fn serde_obj_val<'a>(v: &'a serde_json::Value, i: usize) -> (r: &'a serde_json::Value)
    requires
        serde_model(*v) is Obj,
        i < serde_model(*v)->pairs.len(),
    ensures
        serde_model(*r) == serde_model(*v)->pairs[i as int].1,
{
    match v.as_object().unwrap().iter().nth(i) {
        Some((_, x)) => x,
        None => v,
    }
}

/// Converts a parsed document into a value of the library, member by
/// member and element by element.
fn value_from_serde(v: &serde_json::Value) -> (r: crate::value::JsonValue)
    ensures
        r@ == serde_model(*v),
    decreases serde_model(*v),
{
    match serde_kind(v) {
        SerdeKind::Null => crate::value::JsonValue::Null,
        SerdeKind::Bool => crate::value::JsonValue::Bool(serde_bool(v)),
        SerdeKind::Num => {
            let t = serde_num_text(v);
            match str_to_nanos(t.as_str()) {
                Some(n) => crate::value::JsonValue::Num(n),
                None => {
                    proof {
                        assert(false);
                    }
                    crate::value::JsonValue::Null
                },
            }
        },
        SerdeKind::Str => crate::value::JsonValue::Str(serde_str(v)),
        SerdeKind::Arr => {
            let ghost em = serde_model(*v)->elems;
            let len = serde_arr_len(v);
            let mut out: Vec<crate::value::JsonValue> = Vec::new();
            let mut i: usize = 0;
            #[verifier::loop_isolation(false)]
            while i < len
                invariant
                    0 <= i <= len,
                    out@.len() == i,
                    forall|j: int| 0 <= j < i ==> out@[j].model() == em[j],
                decreases len - i,
            {
                let c = serde_arr_get(v, i);
                proof {
                    assert(decreases_to!(serde_model(*v) => em));
                    assert(decreases_to!(em => em[i as int]));
                }
                let cv = value_from_serde(c);
                out.push(cv);
                i += 1;
            }
            let r = crate::value::JsonValue::Arr(out);
            proof {
                assert(models_of(out@) =~= em);
            }
            r
        },
        SerdeKind::Obj => {
            let ghost pm = serde_model(*v)->pairs;
            let len = serde_obj_len(v);
            let mut out: Vec<(String, crate::value::JsonValue)> = Vec::new();
            let mut i: usize = 0;
            #[verifier::loop_isolation(false)]
            while i < len
                invariant
                    0 <= i <= len,
                    out@.len() == i,
                    forall|j: int|
                        0 <= j < i ==> out@[j].0@ == pm[j].0 && out@[j].1.model() == pm[j].1,
                decreases len - i,
            {
                let k = serde_obj_key(v, i);
                let c = serde_obj_val(v, i);
                proof {
                    assert(decreases_to!(serde_model(*v) => pm));
                    assert(decreases_to!(pm => pm[i as int]));
                    assert(decreases_to!(pm[i as int] => pm[i as int].1));
                }
                let cv = value_from_serde(c);
                out.push((k, cv));
                i += 1;
            }
            let r = crate::value::JsonValue::Obj(out);
            proof {
                assert(crate::value::JsonValue::pair_models_from(out@, 0) =~= pm);
            }
            r
        },
    }
}

/// Parses a JSON text into a value of the library.
pub fn parse_json(s: &str) -> (r: Option<crate::value::JsonValue>)
    ensures
        match r {
            Some(v) => json_doc_of(s@) == Some(v@),
            None => json_doc_of(s@) is None,
        },
{
    match parse_json_text(s) {
        Some(sv) => Some(value_from_serde(&sv)),
        None => None,
    }
}

} // verus!
