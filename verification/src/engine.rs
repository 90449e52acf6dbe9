use vstd::prelude::*;
use crate::value::JsonValue;
use crate::value::ValModel;
use crate::value::models_of;
use crate::value::lemma_models_from;
use crate::value::lemma_pair_models_from;
use crate::value::deep_copy;
use crate::value::deep_eq;
use crate::comparison::CmpMode;
use crate::jsonpath::from_value;
use crate::jsonpath::from_value_model;
use crate::loader::parse_json;
use crate::loader::json_doc_of;
use crate::expression::parse_expr;
use crate::expression::eval_ast;
use crate::expression::eval_ast_model;
use crate::expression::sp_expr;

verus! {

broadcast use
    vstd::std_specs::vec::group_vec_axioms,
    vstd::seq::axiom_seq_index_decreases,
    lemma_models_from,
    lemma_pair_models_from;

// --- from_json ---

/// The result of parsing a JSON text and evaluating a path text against
/// it: null when either text is bad or nothing matches.
pub open spec fn from_json_model(json: Seq<char>, path: Seq<char>) -> ValModel {
    match json_doc_of(json) {
        None => ValModel::Null,
        Some(d) => from_value_model(d, path, CmpMode::CaseSensitive, ValModel::Null),
    }
}

/// Parses a JSON text and evaluates a path against it; null when the
/// JSON is invalid, the path is invalid, or nothing matches.
pub fn from_json(json_str: &str, path: &str) -> (r: JsonValue)
    ensures
        r@ == from_json_model(json_str@, path@),
{
    match parse_json(json_str) {
        None => JsonValue::Null,
        Some(data) => from_value(&data, path),
    }
}

// --- first ---

/// The first element of an array value; null for an empty array or any
/// other value.
pub open spec fn first_model(v: ValModel) -> ValModel {
    match v {
        ValModel::Arr { elems } => if elems.len() > 0 {
            elems[0]
        } else {
            ValModel::Null
        },
        _ => ValModel::Null,
    }
}

/// Returns the first element of a result array, or null.
pub fn first(vals: &JsonValue) -> (r: JsonValue)
    ensures
        r@ == first_model(vals@),
{
    match vals {
        JsonValue::Arr(a) => {
            if a.len() > 0 {
                deep_copy(&a[0])
            } else {
                JsonValue::Null
            }
        },
        _ => JsonValue::Null,
    }
}

// --- unique ---

/// Deduplication keeping the first occurrence of each value.
pub open spec fn dedup(s: Seq<ValModel>) -> Seq<ValModel>
    decreases s.len(),
{
    if s.len() == 0 {
        Seq::empty()
    } else {
        let rest = dedup(s.drop_last());
        if rest.contains(s.last()) {
            rest
        } else {
            rest.push(s.last())
        }
    }
}

/// An array deduplicated element-wise; other values unchanged.
pub open spec fn unique_model(v: ValModel) -> ValModel {
    match v {
        ValModel::Arr { elems } => ValModel::Arr { elems: dedup(elems) },
        _ => v,
    }
}

/// No two members of a sequence are equal.
pub open spec fn distinct(s: Seq<ValModel>) -> bool {
    forall|i: int, j: int| 0 <= i < j < s.len() ==> s[i] != s[j]
}

proof fn lemma_dedup_distinct(s: Seq<ValModel>)
    ensures
        distinct(dedup(s)),
    decreases s.len(),
{
    if s.len() > 0 {
        lemma_dedup_distinct(s.drop_last());
        let rest = dedup(s.drop_last());
        let x = s.last();
        if !rest.contains(x) {
            assert forall|i: int, j: int| 0 <= i < j < rest.push(x).len() implies rest.push(x)[i]
                != rest.push(x)[j] by {
                if j == rest.len() {
                    assert(rest.push(x)[i] == rest[i]);
                    assert(!rest.contains(x));
                    assert(rest[i] != x);
                }
            }
        }
    }
}

proof fn lemma_dedup_identity(t: Seq<ValModel>)
    requires
        distinct(t),
    ensures
        dedup(t) == t,
    decreases t.len(),
{
    if t.len() > 0 {
        let d = t.drop_last();
        assert(distinct(d)) by {
            assert forall|i: int, j: int| 0 <= i < j < d.len() implies d[i] != d[j] by {
                assert(d[i] == t[i] && d[j] == t[j]);
            }
        }
        lemma_dedup_identity(d);
        assert(!d.contains(t.last())) by {
            if d.contains(t.last()) {
                let k = choose|k: int| 0 <= k < d.len() && d[k] == t.last();
                assert(t[k] == t[t.len() - 1]);
                assert(false);
            }
        }
        assert(d.push(t.last()) =~= t);
    }
}

/// Law: deduplication is idempotent; applying it twice equals applying
/// it once.
pub proof fn lemma_dedup_idempotent(s: Seq<ValModel>)
    ensures
        dedup(dedup(s)) == dedup(s),
{
    lemma_dedup_distinct(s);
    lemma_dedup_identity(dedup(s));
}

/// Law: `unique` is idempotent on every value; applying it twice equals
/// applying it once.
pub proof fn lemma_unique_idempotent(v: ValModel)
    ensures
        unique_model(unique_model(v)) == unique_model(v),
{
    match v {
        ValModel::Arr { elems } => {
            lemma_dedup_idempotent(elems);
        },
        _ => {},
    }
}

/// Whether a value equal to `x` stands among the collected values.
fn contains_val(out: &Vec<JsonValue>, x: &JsonValue) -> (r: bool)
    ensures
        r == models_of(out@).contains(x@),
{
    let ghost om = models_of(out@);
    let mut j: usize = 0;
    #[verifier::loop_isolation(false)]
    while j < out.len()
        invariant
            0 <= j <= out.len(),
            forall|k: int| 0 <= k < j ==> om[k] != x@,
        decreases out.len() - j,
    {
        if deep_eq(&out[j], x) {
            proof {
                assert(om[j as int] == x@);
            }
            return true;
        }
        proof {
            assert(om[j as int] == out@[j as int].model());
        }
        j += 1;
    }
    proof {
        if om.contains(x@) {
            let k = choose|k: int| 0 <= k < om.len() && om[k] == x@;
            assert(false);
        }
    }
    false
}

/// Deduplicates an array value, keeping the first occurrence of each
/// element; other values are returned unchanged.
pub fn unique(vals: &JsonValue) -> (r: JsonValue)
    ensures
        r@ == unique_model(vals@),
{
    match vals {
        JsonValue::Arr(a) => {
            let ghost em = models_of(a@);
            let mut out: Vec<JsonValue> = Vec::new();
            let mut i: usize = 0;
            #[verifier::loop_isolation(false)]
            while i < a.len()
                invariant
                    0 <= i <= a.len(),
                    models_of(out@) == dedup(em.subrange(0, i as int)),
                decreases a.len() - i,
            {
                let ghost pre = models_of(out@);
                proof {
                    assert(em.subrange(0, i + 1).drop_last() =~= em.subrange(0, i as int));
                    assert(em.subrange(0, i + 1).last() == em[i as int]);
                    assert(em[i as int] == a@[i as int].model());
                }
                let present = contains_val(&out, &a[i]);
                if !present {
                    let c = deep_copy(&a[i]);
                    out.push(c);
                    proof {
                        assert(models_of(out@) =~= pre.push(em[i as int]));
                    }
                }
                i += 1;
            }
            proof {
                assert(em.subrange(0, a@.len() as int) =~= em);
            }
            JsonValue::Arr(out)
        },
        _ => deep_copy(vals),
    }
}

// --- or_default ---

/// The value substituted by `or_default`: the default text parsed as
/// JSON, or - when it is not valid JSON - the text itself as a string.
pub open spec fn or_default_model(v: ValModel, d: Seq<char>) -> ValModel {
    let dflt = match json_doc_of(d) {
        Some(x) => x,
        None => ValModel::Str { s: d },
    };
    match v {
        ValModel::Null => dflt,
        ValModel::Arr { elems } => if elems.len() == 0 {
            dflt
        } else {
            v
        },
        _ => v,
    }
}

/// Substitutes a default for a null or empty-array result; any other
/// value is returned unchanged.
pub fn or_default(vals: &JsonValue, default_json: &str) -> (r: JsonValue)
    ensures
        r@ == or_default_model(vals@, default_json@),
{
    let need = match vals {
        JsonValue::Null => true,
        JsonValue::Arr(a) => a.len() == 0,
        _ => false,
    };
    if !need {
        return deep_copy(vals);
    }
    match parse_json(default_json) {
        Some(d) => d,
        None => JsonValue::Str(default_json.to_owned()),
    }
}

// --- the expression entry point ---

/// The result of a whole expression text: the evaluated call tree, or
/// null when the text does not parse.
pub open spec fn eval_expr_model(s: Seq<char>) -> ValModel {
    match sp_expr(s) {
        Some(nd) => eval_ast_model(nd),
        None => ValModel::Null,
    }
}

/// Evaluates one expression text, such as a `first(from_json(.., ..))`
/// call; null when the text does not parse.
pub fn eval_expr(expr: &str) -> (r: JsonValue)
    ensures
        r@ == eval_expr_model(expr@),
{
    match parse_expr(expr) {
        Ok(ast) => eval_ast(&ast),
        Err(_) => JsonValue::Null,
    }
}

} // verus!
