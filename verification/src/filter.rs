use vstd::prelude::*;
use vstd::string::StrSliceExecFns;
use crate::value::JsonValue;
use crate::value::ValModel;
use crate::value::ref_models_of;
use crate::value::ref_models_from;
use crate::value::lemma_ref_models_from;
use crate::value::lemma_models_from;
use crate::value::lemma_pair_models_from;
use crate::value::deep_copy;
use crate::comparison::CmpMode;
use crate::comparison::cmp_model;
use crate::comparison::cmp_values;
use crate::fold::lower_of;
use crate::fold::upper_of;
use crate::fold::lower_str;
use crate::fold::upper_str;

use crate::parser::Parser;
use crate::parser::ParseError;
use crate::parser::ws_end;
use crate::parser::digit_char;
use crate::parser::ident_end;
use crate::parser::digits_end;
use crate::parser::find_char;
use crate::parser::digits_val;
use crate::parser::int_sign_pos;
use crate::parser::quoted_body;
use crate::parser::num_literal_spec;
use crate::parser::lemma_ws_end;
use crate::parser::lemma_ident_end;
use crate::parser::lemma_digits_end;
use crate::parser::lemma_find_char;
use crate::parser::lemma_quoted_body;
use vstd::string::StringExecFns;

verus! {

broadcast use
    vstd::std_specs::vec::group_vec_axioms,
    vstd::seq::axiom_seq_index_decreases,
    lemma_ref_models_from,
    lemma_models_from,
    lemma_pair_models_from,
    lemma_ws_end,
    lemma_ident_end,
    lemma_digits_end,
    lemma_find_char,
    lemma_quoted_body;

// --- the filter AST ---

/// One step of a current-node (`@`) reference inside a filter: a
/// restricted path with keys, indices and wildcards only.
#[derive(Debug)]
pub enum PathToken {
    Key(String),
    Index(i64),
    Wildcard,
}

/// Model of a path token.
pub enum TokModel {
    Key { k: Seq<char> },
    Index { i: int },
    Wildcard,
}

impl View for PathToken {
    type V = TokModel;

    open spec fn view(&self) -> TokModel {
        match self {
            PathToken::Key(k) => TokModel::Key { k: k@ },
            PathToken::Index(i) => TokModel::Index { i: *i as int },
            PathToken::Wildcard => TokModel::Wildcard,
        }
    }
}

/// The models of a token sequence.
pub open spec fn tok_models(s: Seq<PathToken>) -> Seq<TokModel> {
    s.map_values(|t: PathToken| t@)
}

/// A value-producing sub-expression inside a filter.
#[derive(Debug)]
pub enum Operand {
    /// A `@`-prefixed reference into the candidate node.
    CurrentPath(Vec<PathToken>),
    /// A literal value.
    Literal(JsonValue),
    /// `lower(op)`: lower-cases a string result.
    Lower(Box<Operand>),
    /// `upper(op)`: upper-cases a string result.
    Upper(Box<Operand>),
    /// `length(op)`: the element, member, or character count.
    Length(Box<Operand>),
}

/// Model of an operand.
pub enum OpModel {
    CurrentPath { toks: Seq<TokModel> },
    Literal { v: ValModel },
    Lower { op: Box<OpModel> },
    Upper { op: Box<OpModel> },
    Length { op: Box<OpModel> },
}

impl View for Operand {
    type V = OpModel;

    open spec fn view(&self) -> OpModel
        decreases self,
    {
        match self {
            Operand::CurrentPath(toks) => OpModel::CurrentPath { toks: tok_models(toks@) },
            Operand::Literal(v) => OpModel::Literal { v: v@ },
            Operand::Lower(b) => OpModel::Lower { op: Box::new((**b)@) },
            Operand::Upper(b) => OpModel::Upper { op: Box::new((**b)@) },
            Operand::Length(b) => OpModel::Length { op: Box::new((**b)@) },
        }
    }
}

/// A boolean filter expression over a candidate node.
#[derive(Debug)]
pub enum FilterExpr {
    Eq(Operand, Operand),
    Ne(Operand, Operand),
    Lt(Operand, Operand),
    Lte(Operand, Operand),
    Gt(Operand, Operand),
    Gte(Operand, Operand),
    And(Box<FilterExpr>, Box<FilterExpr>),
    Or(Box<FilterExpr>, Box<FilterExpr>),
    Not(Box<FilterExpr>),
    Truthy(Operand),
}

/// Model of a filter expression.
pub enum FilterModel {
    Eq { a: OpModel, b: OpModel },
    Ne { a: OpModel, b: OpModel },
    Lt { a: OpModel, b: OpModel },
    Lte { a: OpModel, b: OpModel },
    Gt { a: OpModel, b: OpModel },
    Gte { a: OpModel, b: OpModel },
    And { l: Box<FilterModel>, r: Box<FilterModel> },
    Or { l: Box<FilterModel>, r: Box<FilterModel> },
    Not { e: Box<FilterModel> },
    Truthy { op: OpModel },
}

impl View for FilterExpr {
    type V = FilterModel;

    open spec fn view(&self) -> FilterModel
        decreases self,
    {
        match self {
            FilterExpr::Eq(a, b) => FilterModel::Eq { a: a@, b: b@ },
            FilterExpr::Ne(a, b) => FilterModel::Ne { a: a@, b: b@ },
            FilterExpr::Lt(a, b) => FilterModel::Lt { a: a@, b: b@ },
            FilterExpr::Lte(a, b) => FilterModel::Lte { a: a@, b: b@ },
            FilterExpr::Gt(a, b) => FilterModel::Gt { a: a@, b: b@ },
            FilterExpr::Gte(a, b) => FilterModel::Gte { a: a@, b: b@ },
            FilterExpr::And(l, r) => FilterModel::And {
                l: Box::new((**l)@),
                r: Box::new((**r)@),
            },
            FilterExpr::Or(l, r) => FilterModel::Or { l: Box::new((**l)@), r: Box::new((**r)@) },
            FilterExpr::Not(e) => FilterModel::Not { e: Box::new((**e)@) },
            FilterExpr::Truthy(op) => FilterModel::Truthy { op: op@ },
        }
    }
}

// --- evaluation: model level ---

/// Truthiness of a value: null is false, booleans are themselves, a
/// number is true when non-zero, and strings, arrays and objects are
/// true when non-empty.
pub open spec fn truthy_model(v: ValModel) -> bool {
    match v {
        ValModel::Null => false,
        ValModel::Bool { b } => b,
        ValModel::Num { n } => n != 0,
        ValModel::Str { s } => s.len() > 0,
        ValModel::Arr { elems } => elems.len() > 0,
        ValModel::Obj { pairs } => pairs.len() > 0,
    }
}

/// The first value bound to key `k` in `pairs` at or after `i`.
pub open spec fn obj_get_from(pairs: Seq<(Seq<char>, ValModel)>, k: Seq<char>, i: int) -> Option<
    ValModel,
>
    decreases pairs.len() - i,
{
    if 0 <= i < pairs.len() {
        if pairs[i].0 == k {
            Some(pairs[i].1)
        } else {
            obj_get_from(pairs, k, i + 1)
        }
    } else {
        None
    }
}

/// The first value bound to key `k` in `pairs`.
pub open spec fn obj_get(pairs: Seq<(Seq<char>, ValModel)>, k: Seq<char>) -> Option<ValModel> {
    obj_get_from(pairs, k, 0)
}

/// The member values of an object, in member order.
pub open spec fn obj_vals(pairs: Seq<(Seq<char>, ValModel)>) -> Seq<ValModel> {
    Seq::new(pairs.len(), |i: int| pairs[i].1)
}

/// What one node contributes under one path token: the value at the key
/// for objects, the element at a non-negative in-range index for arrays,
/// or all children for a wildcard; anything else contributes nothing.
pub open spec fn tok_contrib(v: ValModel, t: TokModel) -> Seq<ValModel> {
    match t {
        TokModel::Key { k } => match v {
            ValModel::Obj { pairs } => match obj_get(pairs, k) {
                Some(x) => seq![x],
                None => Seq::empty(),
            },
            _ => Seq::empty(),
        },
        TokModel::Index { i } => match v {
            ValModel::Arr { elems } => if 0 <= i < elems.len() {
                seq![elems[i]]
            } else {
                Seq::empty()
            },
            _ => Seq::empty(),
        },
        TokModel::Wildcard => match v {
            ValModel::Arr { elems } => elems,
            ValModel::Obj { pairs } => obj_vals(pairs),
            _ => Seq::empty(),
        },
    }
}

/// Law: a negative index selects nothing from any node; it is a defined
/// no-match, never an out-of-bounds access.
pub proof fn lemma_negative_index_empty(v: ValModel, i: int)
    requires
        i < 0,
    ensures
        tok_contrib(v, TokModel::Index { i }) == Seq::<ValModel>::empty(),
{
}

/// One token applied to the working set `cur[j..]`.
pub open spec fn tok_apply_from(cur: Seq<ValModel>, t: TokModel, j: int) -> Seq<ValModel>
    decreases cur.len() - j,
{
    if 0 <= j < cur.len() {
        tok_contrib(cur[j], t) + tok_apply_from(cur, t, j + 1)
    } else {
        Seq::empty()
    }
}

/// The token sequence `toks[k..]` applied to the working set.
pub open spec fn toks_apply(cur: Seq<ValModel>, toks: Seq<TokModel>, k: int) -> Seq<ValModel>
    decreases toks.len() - k,
{
    if 0 <= k < toks.len() {
        toks_apply(tok_apply_from(cur, toks[k], 0), toks, k + 1)
    } else {
        cur
    }
}

/// The character, element, or member count of a value; zero otherwise.
pub open spec fn len_of(v: ValModel) -> int {
    match v {
        ValModel::Str { s } => s.len() as int,
        ValModel::Arr { elems } => elems.len() as int,
        ValModel::Obj { pairs } => pairs.len() as int,
        _ => 0,
    }
}

/// The value of an operand against the candidate node `cur`: a literal
/// is itself; `lower`/`upper` fold a string result and pass anything
/// else through; `length` counts; a current-node path walks the tokens
/// and takes the first match, or null when there is none.
pub open spec fn op_eval(op: OpModel, cur: ValModel) -> ValModel
    decreases op,
{
    match op {
        OpModel::Literal { v } => v,
        OpModel::Lower { op: inner } => {
            let v = op_eval(*inner, cur);
            match v {
                ValModel::Str { s } => ValModel::Str { s: lower_of(s) },
                _ => v,
            }
        },
        OpModel::Upper { op: inner } => {
            let v = op_eval(*inner, cur);
            match v {
                ValModel::Str { s } => ValModel::Str { s: upper_of(s) },
                _ => v,
            }
        },
        OpModel::Length { op: inner } => {
            let v = op_eval(*inner, cur);
            ValModel::Num { n: len_of(v) * 1_000_000_000 }
        },
        OpModel::CurrentPath { toks } => {
            let nodes = toks_apply(seq![cur], toks, 0);
            if nodes.len() > 0 {
                nodes[0]
            } else {
                ValModel::Null
            }
        },
    }
}

/// Whether a filter holds of the candidate node `cur` under comparison
/// mode `m`.
pub open spec fn filter_holds(e: FilterModel, cur: ValModel, m: CmpMode) -> bool
    decreases e,
{
    match e {
        FilterModel::Eq { a, b } => cmp_model(op_eval(a, cur), op_eval(b, cur), m) == 0,
        FilterModel::Ne { a, b } => cmp_model(op_eval(a, cur), op_eval(b, cur), m) != 0,
        FilterModel::Lt { a, b } => cmp_model(op_eval(a, cur), op_eval(b, cur), m) < 0,
        FilterModel::Lte { a, b } => cmp_model(op_eval(a, cur), op_eval(b, cur), m) <= 0,
        FilterModel::Gt { a, b } => cmp_model(op_eval(a, cur), op_eval(b, cur), m) > 0,
        FilterModel::Gte { a, b } => cmp_model(op_eval(a, cur), op_eval(b, cur), m) >= 0,
        FilterModel::And { l, r } => filter_holds(*l, cur, m) && filter_holds(*r, cur, m),
        FilterModel::Or { l, r } => filter_holds(*l, cur, m) || filter_holds(*r, cur, m),
        FilterModel::Not { e } => !filter_holds(*e, cur, m),
        FilterModel::Truthy { op } => truthy_model(op_eval(op, cur)),
    }
}

// --- evaluation: executable level ---

/// Looks up the first binding of `k` in an object's members.
pub fn obj_find<'a>(pairs: &'a Vec<(String, JsonValue)>, k: &String) -> (r: Option<&'a JsonValue>)
    ensures
        match r {
            Some(v) => obj_get(JsonValue::pair_models_from(pairs@, 0), k@) == Some(v@),
            None => obj_get(JsonValue::pair_models_from(pairs@, 0), k@) is None,
        },
{
    let ghost pm = JsonValue::pair_models_from(pairs@, 0);
    let mut i: usize = 0;
    #[verifier::loop_isolation(false)]
    while i < pairs.len()
        invariant
            0 <= i <= pairs.len(),
            obj_get_from(pm, k@, 0) == obj_get_from(pm, k@, i as int),
        decreases pairs.len() - i,
    {
        if pairs[i].0 == *k {
            proof {
                assert(pm[i as int].0 == k@);
            }
            return Some(&pairs[i].1);
        }
        proof {
            assert(pm[i as int].0 != k@);
        }
        i += 1;
    }
    None
}

/// Pushes one reference, extending the models by one.
pub(crate) fn push_ref<'a>(out: &mut Vec<&'a JsonValue>, v: &'a JsonValue)
    ensures
        final(out)@ == old(out)@.push(v),
        ref_models_of(final(out)@) == ref_models_of(old(out)@) + seq![v.model()],
{
    let ghost o0 = out@;
    out.push(v);
    proof {
        lemma_ref_models_push(o0, v);
    }
}

/// Applies one path token to every node of the working set.
#[verifier::rlimit(100)]
#[verifier::spinoff_prover]
pub(crate) fn apply_tok<'a>(nodes: &Vec<&'a JsonValue>, t: &PathToken) -> (r: Vec<&'a JsonValue>)
    ensures
        ref_models_of(r@) == tok_apply_from(ref_models_of(nodes@), t@, 0),
{
    let ghost cur = ref_models_of(nodes@);
    let mut out: Vec<&'a JsonValue> = Vec::new();
    let mut j: usize = 0;
    #[verifier::loop_isolation(false)]
    while j < nodes.len()
        invariant
            0 <= j <= nodes.len(),
            ref_models_of(out@) + tok_apply_from(cur, t@, j as int) == tok_apply_from(cur, t@, 0),
        decreases nodes.len() - j,
    {
        let ghost pre = ref_models_of(out@);
        let v: &JsonValue = nodes[j];
        proof {
            assert(cur[j as int] == v@);
        }
        match t {
            PathToken::Key(k) => {
                match v {
                    JsonValue::Obj(pairs) => {
                        match obj_find(pairs, k) {
                            Some(x) => {
                                push_ref(&mut out, x);
                                proof {
                                    assert(tok_contrib(cur[j as int], t@) =~= seq![x.model()]);
                                    assert(ref_models_of(out@) =~= pre + tok_contrib(
                                        cur[j as int],
                                        t@,
                                    ));
                                }
                            },
                            None => {
                                proof {
                                    assert(tok_contrib(cur[j as int], t@) =~= Seq::<
                                        ValModel,
                                    >::empty());
                                }
                            },
                        }
                    },
                    _ => {},
                }
            },
            PathToken::Index(i) => {
                if *i >= 0 {
                    match v {
                        JsonValue::Arr(elems) => {
                            if (*i as u64) < (elems.len() as u64) {
                                let idx: usize = *i as usize;
                                proof {
                                    assert(idx as int == *i as int);
                                }
                                push_ref(&mut out, &elems[idx]);
                                proof {
                                    lemma_models_from(elems@, 0);
                                    assert(tok_contrib(cur[j as int], t@) =~= seq![
                                        elems@[*i as int].model(),
                                    ]);
                                }
                            } else {
                                proof {
                                    lemma_models_from(elems@, 0);
                                    assert(tok_contrib(cur[j as int], t@) =~= Seq::<
                                        ValModel,
                                    >::empty());
                                }
                            }
                        },
                        _ => {},
                    }
                }
            },
            PathToken::Wildcard => {
                match v {
                    JsonValue::Arr(elems) => {
                        let ghost em = crate::value::models_of(elems@);
                        let mut x: usize = 0;
                        #[verifier::loop_isolation(false)]
                        while x < elems.len()
                            invariant
                                0 <= x <= elems.len(),
                                ref_models_of(out@) =~= pre + em.subrange(0, x as int),
                            decreases elems.len() - x,
                        {
                            push_ref(&mut out, &elems[x]);
                            proof {
                                assert(em.subrange(0, x + 1) =~= em.subrange(0, x as int) + seq![
                                    elems@[x as int].model(),
                                ]);
                                assert(ref_models_of(out@) =~= pre + em.subrange(0, x + 1));
                            }
                            x += 1;
                        }
                        proof {
                            assert(em.subrange(0, elems@.len() as int) =~= em);
                        }
                    },
                    JsonValue::Obj(pairs) => {
                        let ghost pm = JsonValue::pair_models_from(pairs@, 0);
                        let mut x: usize = 0;
                        #[verifier::loop_isolation(false)]
                        while x < pairs.len()
                            invariant
                                0 <= x <= pairs.len(),
                                ref_models_of(out@) =~= pre + obj_vals(pm).subrange(0, x as int),
                            decreases pairs.len() - x,
                        {
                            push_ref(&mut out, &pairs[x].1);
                            proof {
                                assert(obj_vals(pm).subrange(0, x + 1) =~= obj_vals(pm).subrange(
                                    0,
                                    x as int,
                                ) + seq![pm[x as int].1]);
                                assert(ref_models_of(out@) =~= pre + obj_vals(pm).subrange(
                                    0,
                                    x + 1,
                                ));
                            }
                            x += 1;
                        }
                        proof {
                            assert(obj_vals(pm).subrange(0, pairs@.len() as int) =~= obj_vals(pm));
                        }
                    },
                    _ => {},
                }
            },
        }
        proof {
            assert(ref_models_of(out@) =~= pre + tok_contrib(cur[j as int], t@));
            assert(pre + tok_contrib(cur[j as int], t@) + tok_apply_from(cur, t@, j + 1) =~= pre + (
            tok_contrib(cur[j as int], t@) + tok_apply_from(cur, t@, j + 1)));
        }
        j += 1;
    }
    proof {
        assert(ref_models_of(out@) + tok_apply_from(cur, t@, nodes@.len() as int) =~= ref_models_of(
            out@,
        ));
    }
    out
}

/// Appending one reference appends its model.
pub proof fn lemma_ref_models_push(s: Seq<&JsonValue>, v: &JsonValue)
    ensures
        ref_models_of(s.push(v)) == ref_models_of(s) + seq![v.model()],
{
    lemma_ref_models_push_from(s, v, 0);
}

proof fn lemma_ref_models_push_from(s: Seq<&JsonValue>, v: &JsonValue, i: int)
    requires
        0 <= i <= s.len(),
    ensures
        ref_models_from(s.push(v), i) == ref_models_from(s, i) + seq![v.model()],
    decreases s.len() - i,
{
    if i < s.len() {
        lemma_ref_models_push_from(s, v, i + 1);
        assert(s.push(v)[i] == s[i]);
        assert(ref_models_from(s.push(v), i) =~= ref_models_from(s, i) + seq![v.model()]);
    } else {
        assert(s.push(v)[i] == v);
        assert(ref_models_from(s.push(v), i + 1) =~= Seq::<ValModel>::empty());
        assert(ref_models_from(s.push(v), i) =~= ref_models_from(s, i) + seq![v.model()]);
    }
}

/// Walks a current-node token path from `current` and returns the
/// matched nodes.
fn eval_tokens<'a>(current: &'a JsonValue, toks: &Vec<PathToken>) -> (r: Vec<&'a JsonValue>)
    ensures
        ref_models_of(r@) == toks_apply(seq![current@], tok_models(toks@), 0),
{
    let ghost tm = tok_models(toks@);
    let mut nodes: Vec<&'a JsonValue> = Vec::new();
    nodes.push(current);
    proof {
        assert(ref_models_of(nodes@) =~= seq![current@]);
    }
    let mut k: usize = 0;
    #[verifier::loop_isolation(false)]
    while k < toks.len()
        invariant
            0 <= k <= toks.len(),
            toks_apply(seq![current@], tm, 0) == toks_apply(ref_models_of(nodes@), tm, k as int),
        decreases toks.len() - k,
    {
        let next = apply_tok(&nodes, &toks[k]);
        proof {
            assert(tm[k as int] == toks@[k as int]@);
        }
        nodes = next;
        k += 1;
    }
    nodes
}

/// The count of characters, elements, or members of a value (zero for
/// anything else), as a number value.
fn length_value(v: &JsonValue) -> (r: JsonValue)
    ensures
        r@ == (ValModel::Num { n: len_of(v@) * 1_000_000_000 }),
{
    match v {
        JsonValue::Str(s) => {
            let c = s.as_str().unicode_len();
            proof {
                assert(len_of(v@) == c as int);
            }
            JsonValue::Num((c as i128) * 1_000_000_000i128)
        },
        JsonValue::Arr(elems) => {
            let c = elems.len();
            proof {
                lemma_models_from(elems@, 0);
                assert(len_of(v@) == c as int);
            }
            JsonValue::Num((c as i128) * 1_000_000_000i128)
        },
        JsonValue::Obj(pairs) => {
            let c = pairs.len();
            proof {
                lemma_pair_models_from(pairs@, 0);
                assert(len_of(v@) == c as int);
            }
            JsonValue::Num((c as i128) * 1_000_000_000i128)
        },
        _ => {
            proof {
                assert(len_of(v@) == 0);
            }
            JsonValue::Num(0)
        },
    }
}

/// Evaluates an operand against the candidate node.
pub fn eval_operand(op: &Operand, current: &JsonValue) -> (r: JsonValue)
    ensures
        r@ == op_eval(op@, current@),
    decreases op,
{
    match op {
        Operand::Literal(v) => deep_copy(v),
        Operand::Lower(inner) => {
            let v = eval_operand(&**inner, current);
            match v {
                JsonValue::Str(s) => JsonValue::Str(lower_str(s.as_str())),
                other => other,
            }
        },
        Operand::Upper(inner) => {
            let v = eval_operand(&**inner, current);
            match v {
                JsonValue::Str(s) => JsonValue::Str(upper_str(s.as_str())),
                other => other,
            }
        },
        Operand::Length(inner) => {
            let v = eval_operand(&**inner, current);
            length_value(&v)
        },
        Operand::CurrentPath(toks) => {
            let nodes = eval_tokens(current, toks);
            if nodes.len() > 0 {
                let first: &JsonValue = nodes[0];
                proof {
                    assert(ref_models_of(nodes@)[0] == first@);
                }
                deep_copy(first)
            } else {
                JsonValue::Null
            }
        },
    }
}

/// Decides the truthiness of a value.
pub fn truthy(v: &JsonValue) -> (r: bool)
    ensures
        r == truthy_model(v@),
{
    match v {
        JsonValue::Null => false,
        JsonValue::Bool(b) => *b,
        JsonValue::Num(n) => *n != 0,
        JsonValue::Str(s) => s.as_str().unicode_len() > 0,
        JsonValue::Arr(elems) => elems.len() > 0,
        JsonValue::Obj(pairs) => pairs.len() > 0,
    }
}

/// Evaluates a filter expression against the candidate node under the
/// given comparison mode.
pub fn eval_filter(expr: &FilterExpr, current: &JsonValue, mode: CmpMode) -> (r: bool)
    ensures
        r == filter_holds(expr@, current@, mode),
    decreases expr,
{
    match expr {
        FilterExpr::Eq(a, b) => {
            let va = eval_operand(a, current);
            let vb = eval_operand(b, current);
            cmp_values(&va, &vb, mode) == 0
        },
        FilterExpr::Ne(a, b) => {
            let va = eval_operand(a, current);
            let vb = eval_operand(b, current);
            cmp_values(&va, &vb, mode) != 0
        },
        FilterExpr::Lt(a, b) => {
            let va = eval_operand(a, current);
            let vb = eval_operand(b, current);
            cmp_values(&va, &vb, mode) < 0
        },
        FilterExpr::Lte(a, b) => {
            let va = eval_operand(a, current);
            let vb = eval_operand(b, current);
            cmp_values(&va, &vb, mode) <= 0
        },
        FilterExpr::Gt(a, b) => {
            let va = eval_operand(a, current);
            let vb = eval_operand(b, current);
            cmp_values(&va, &vb, mode) > 0
        },
        FilterExpr::Gte(a, b) => {
            let va = eval_operand(a, current);
            let vb = eval_operand(b, current);
            cmp_values(&va, &vb, mode) >= 0
        },
        FilterExpr::And(l, r) => eval_filter(&**l, current, mode) && eval_filter(
            &**r,
            current,
            mode,
        ),
        FilterExpr::Or(l, r) => eval_filter(&**l, current, mode) || eval_filter(
            &**r,
            current,
            mode,
        ),
        FilterExpr::Not(e) => !eval_filter(&**e, current, mode),
        FilterExpr::Truthy(op) => {
            let v = eval_operand(op, current);
            truthy(&v)
        },
    }
}


// --- parsing: model level ---

/// The characters remaining at position `i`, for termination measures.
pub open spec fn rem(s: Seq<char>, i: int) -> int {
    if i <= s.len() {
        s.len() - i
    } else {
        0
    }
}

/// The position a sub-parse ended at, forced into `(lo, s.len()]` (a
/// successful sub-parse always consumes at least one character, so this
/// is the identity wherever it is reached).
pub open spec fn next_pos(s: Seq<char>, lo: int, raw: int) -> int {
    if lo < raw && raw <= s.len() {
        raw
    } else if lo + 1 <= s.len() {
        lo + 1
    } else {
        s.len() as int
    }
}

/// Whether the word `w` stands at position `j` of `s`.
pub open spec fn lit_at(s: Seq<char>, j: int, w: Seq<char>) -> bool {
    0 <= j && j + w.len() <= s.len() && s.subrange(j, j + w.len()) == w
}

/// The operand grammar at position `i`: a quoted string, the keywords
/// `true`/`false`/`null`, a `lower`/`upper`/`length` transform, a
/// current-node path, or a number literal, tried in that order.
pub open spec fn sp_operand(s: Seq<char>, i: int) -> Option<(OpModel, int)>
    decreases rem(s, i), 0int,
{
    let j = ws_end(s, i);
    if j < s.len() && (s[j] == '"' || s[j] == '\'') {
        match quoted_body(s, j + 1, s[j]) {
            Some((t, j2)) => Some((OpModel::Literal { v: ValModel::Str { s: t } }, j2)),
            None => None,
        }
    } else if lit_at(s, j, seq!['t', 'r', 'u', 'e']) {
        Some((OpModel::Literal { v: ValModel::Bool { b: true } }, j + 4))
    } else if lit_at(s, j, seq!['f', 'a', 'l', 's', 'e']) {
        Some((OpModel::Literal { v: ValModel::Bool { b: false } }, j + 5))
    } else if lit_at(s, j, seq!['n', 'u', 'l', 'l']) {
        Some((OpModel::Literal { v: ValModel::Null }, j + 4))
    } else if lit_at(s, j, seq!['l', 'o', 'w', 'e', 'r', '(']) {
        match sp_operand(s, j + 6) {
            Some((inner, j2)) => if j2 < s.len() && s[j2] == ')' {
                Some((OpModel::Lower { op: Box::new(inner) }, j2 + 1))
            } else {
                None
            },
            None => None,
        }
    } else if lit_at(s, j, seq!['u', 'p', 'p', 'e', 'r', '(']) {
        match sp_operand(s, j + 6) {
            Some((inner, j2)) => if j2 < s.len() && s[j2] == ')' {
                Some((OpModel::Upper { op: Box::new(inner) }, j2 + 1))
            } else {
                None
            },
            None => None,
        }
    } else if lit_at(s, j, seq!['l', 'e', 'n', 'g', 't', 'h', '(']) {
        match sp_operand(s, j + 7) {
            Some((inner, j2)) => if j2 < s.len() && s[j2] == ')' {
                Some((OpModel::Length { op: Box::new(inner) }, j2 + 1))
            } else {
                None
            },
            None => None,
        }
    } else if j < s.len() && s[j] == '@' {
        match sp_toks(s, j + 1) {
            Some((toks, j2)) => Some((OpModel::CurrentPath { toks }, j2)),
            None => None,
        }
    } else if j < s.len() && (s[j] == '-' || crate::parser::is_digit_char(s[j])) {
        let (ov, j2) = num_literal_spec(s, j);
        match ov {
            Some(n) => Some((OpModel::Literal { v: ValModel::Num { n } }, j2)),
            None => None,
        }
    } else {
        None
    }
}

/// The current-node token list grammar: `.key`, `.*`, `[n]`, `['key']`,
/// `[*]`, repeated; it ends (without error) at the first character that
/// starts none of these.
pub open spec fn sp_toks(s: Seq<char>, i: int) -> Option<(Seq<TokModel>, int)>
    decreases rem(s, i), 0int,
{
    let j = ws_end(s, i);
    if j < s.len() && s[j] == '.' {
        if j + 1 < s.len() && s[j + 1] == '*' {
            match sp_toks(s, j + 2) {
                Some((ts, j2)) => Some((seq![TokModel::Wildcard] + ts, j2)),
                None => None,
            }
        } else {
            let e = ident_end(s, j + 1);
            if e == j + 1 {
                None
            } else {
                match sp_toks(s, e) {
                    Some((ts, j2)) => Some(
                        (seq![TokModel::Key { k: s.subrange(j + 1, e) }] + ts, j2),
                    ),
                    None => None,
                }
            }
        }
    } else if j < s.len() && s[j] == '[' {
        let k = j + 1;
        if k < s.len() && s[k] == '*' {
            if k + 1 < s.len() && s[k + 1] == ']' {
                match sp_toks(s, k + 2) {
                    Some((ts, j2)) => Some((seq![TokModel::Wildcard] + ts, j2)),
                    None => None,
                }
            } else {
                None
            }
        } else if k < s.len() && (s[k] == '"' || s[k] == '\'') {
            match quoted_body(s, k + 1, s[k]) {
                Some((t, k2)) => if k2 < s.len() && s[k2] == ']' {
                    match sp_toks(s, k2 + 1) {
                        Some((ts, j2)) => Some((seq![TokModel::Key { k: t }] + ts, j2)),
                        None => None,
                    }
                } else {
                    None
                },
                None => None,
            }
        } else {
            let e = find_char(s, k, ']');
            if e == s.len() {
                None
            } else {
                let c = s.subrange(k, e);
                let p = int_sign_pos(c, 0);
                let de = digits_end(c, p);
                let dv = digits_val(c, p, de);
                let v = if p > 0 {
                    -dv
                } else {
                    dv
                };
                if de > p && i64::MIN <= v <= i64::MAX {
                    match sp_toks(s, e + 1) {
                        Some((ts, j2)) => Some((seq![TokModel::Index { i: v }] + ts, j2)),
                        None => None,
                    }
                } else {
                    None
                }
            }
        }
    } else {
        Some((Seq::empty(), j))
    }
}

/// The comparison level of the filter grammar: a parenthesized filter,
/// or an operand optionally followed by a comparison operator and a
/// second operand; a lone operand is a truthiness test.
pub open spec fn sp_compare(s: Seq<char>, i: int) -> Option<(FilterModel, int)>
    decreases rem(s, i), 1int,
{
    let j = ws_end(s, i);
    if j < s.len() && s[j] == '(' {
        match sp_or(s, j + 1) {
            Some((inner, j2)) => if j2 < s.len() && s[j2] == ')' {
                Some((inner, j2 + 1))
            } else {
                None
            },
            None => None,
        }
    } else {
        match sp_operand(s, j) {
            Some((a, j2raw)) => {
                let j2 = if j2raw > j {
                    j2raw
                } else {
                    j + 1
                };
                let k = ws_end(s, j2);
                if lit_at(s, k, seq!['=', '=']) {
                    match sp_operand(s, k + 2) {
                        Some((b, j3)) => Some((FilterModel::Eq { a, b }, j3)),
                        None => None,
                    }
                } else if lit_at(s, k, seq!['!', '=']) {
                    match sp_operand(s, k + 2) {
                        Some((b, j3)) => Some((FilterModel::Ne { a, b }, j3)),
                        None => None,
                    }
                } else if lit_at(s, k, seq!['<', '=']) {
                    match sp_operand(s, k + 2) {
                        Some((b, j3)) => Some((FilterModel::Lte { a, b }, j3)),
                        None => None,
                    }
                } else if lit_at(s, k, seq!['>', '=']) {
                    match sp_operand(s, k + 2) {
                        Some((b, j3)) => Some((FilterModel::Gte { a, b }, j3)),
                        None => None,
                    }
                } else if k < s.len() && s[k] == '<' {
                    match sp_operand(s, k + 1) {
                        Some((b, j3)) => Some((FilterModel::Lt { a, b }, j3)),
                        None => None,
                    }
                } else if k < s.len() && s[k] == '>' {
                    match sp_operand(s, k + 1) {
                        Some((b, j3)) => Some((FilterModel::Gt { a, b }, j3)),
                        None => None,
                    }
                } else {
                    Some((FilterModel::Truthy { op: a }, k))
                }
            },
            None => None,
        }
    }
}

/// The negation level: any number of prefix `!`, then a comparison.
pub open spec fn sp_not(s: Seq<char>, i: int) -> Option<(FilterModel, int)>
    decreases rem(s, i), 2int,
{
    let j = ws_end(s, i);
    if j < s.len() && s[j] == '!' {
        match sp_not(s, j + 1) {
            Some((inner, j2)) => Some((FilterModel::Not { e: Box::new(inner) }, j2)),
            None => None,
        }
    } else {
        sp_compare(s, j)
    }
}

/// The conjunction level: negations joined by `&&`, left-associated.
pub open spec fn sp_and(s: Seq<char>, i: int) -> Option<(FilterModel, int)>
    decreases rem(s, i), 4int,
{
    match sp_not(s, i) {
        Some((l, jraw)) => sp_and_rest(s, l, next_pos(s, i, jraw)),
        None => None,
    }
}

/// The `&&` continuation after a parsed left conjunct at position `j`.
pub open spec fn sp_and_rest(s: Seq<char>, l: FilterModel, j: int) -> Option<(FilterModel, int)>
    decreases rem(s, j), 3int,
{
    let k = ws_end(s, j);
    if lit_at(s, k, seq!['&', '&']) {
        match sp_not(s, k + 2) {
            Some((r2, j3raw)) => sp_and_rest(
                s,
                FilterModel::And { l: Box::new(l), r: Box::new(r2) },
                next_pos(s, k + 2, j3raw),
            ),
            None => None,
        }
    } else {
        Some((l, k))
    }
}

/// The disjunction level: conjunctions joined by `||`, left-associated.
/// This is the whole filter grammar.
pub open spec fn sp_or(s: Seq<char>, i: int) -> Option<(FilterModel, int)>
    decreases rem(s, i), 6int,
{
    match sp_and(s, i) {
        Some((l, jraw)) => sp_or_rest(s, l, next_pos(s, i, jraw)),
        None => None,
    }
}

/// The `||` continuation after a parsed left disjunct at position `j`.
pub open spec fn sp_or_rest(s: Seq<char>, l: FilterModel, j: int) -> Option<(FilterModel, int)>
    decreases rem(s, j), 5int,
{
    let k = ws_end(s, j);
    if lit_at(s, k, seq!['|', '|']) {
        match sp_and(s, k + 2) {
            Some((r2, j3raw)) => sp_or_rest(
                s,
                FilterModel::Or { l: Box::new(l), r: Box::new(r2) },
                next_pos(s, k + 2, j3raw),
            ),
            None => None,
        }
    } else {
        Some((l, k))
    }
}


// --- parsing: executable level ---

/// Parses the token list of a current-node reference (the cursor stands
/// just after `@`).
#[verifier::rlimit(100)]
#[verifier::spinoff_prover]
fn parse_tokens<'a>(parser: &mut Parser<'a>) -> (r: Result<Vec<PathToken>, ParseError>)
    requires
        old(parser).wf(),
    ensures
        final(parser).wf(),
        final(parser).same_src(old(parser)),
        match sp_toks(old(parser).src(), old(parser).pos()) {
            Some((ts, j)) => r is Ok && tok_models(r->Ok_0@) == ts && final(parser).pos() == j
                && j >= old(parser).pos(),
            None => r is Err,
        },
{
    let ghost s = parser.src();
    let ghost i0 = parser.pos();
    let mut toks: Vec<PathToken> = Vec::new();
    let mut done = false;
    proof {
        assert(tok_models(toks@) =~= Seq::<TokModel>::empty());
    }
    #[verifier::loop_isolation(false)]
    while !done
        invariant
            parser.wf(),
            parser.same_src(old(parser)),
            parser.pos() >= i0,
            !done ==> sp_toks(s, i0) == (match sp_toks(s, parser.pos()) {
                Some((ts2, j2)) => Some((tok_models(toks@) + ts2, j2)),
                None => None::<(Seq<TokModel>, int)>,
            }),
            done ==> sp_toks(s, i0) == Some((tok_models(toks@), parser.pos())),
        decreases parser.n - parser.i, (if done {
            0int
        } else {
            1int
        }),
    {
        let ghost p_entry = parser.pos();
        parser.skip_ws();
        let ghost t0 = toks@;
        if parser.consume_char('.') {
            if parser.consume_char('*') {
                toks.push(PathToken::Wildcard);
                proof {
                    assert(tok_models(toks@) =~= tok_models(t0) + seq![TokModel::Wildcard]);
                    lemma_toks_step(s, i0, p_entry, tok_models(t0), TokModel::Wildcard, parser.pos());
                }
            } else {
                let k = match parser.parse_identifier() {
                    Ok(k) => k,
                    Err(e) => {
                        return Err(e);
                    },
                };
                let ghost tk = (TokModel::Key { k: k@ });
                toks.push(PathToken::Key(k));
                proof {
                    assert(tok_models(toks@) =~= tok_models(t0) + seq![tk]);
                    lemma_toks_step(s, i0, p_entry, tok_models(t0), tk, parser.pos());
                }
            }
        } else if parser.consume_char('[') {
            if parser.consume_char('*') {
                match parser.expect(']') {
                    Ok(u) => u,
                    Err(e) => {
                        return Err(e);
                    },
                };
                toks.push(PathToken::Wildcard);
                proof {
                    assert(tok_models(toks@) =~= tok_models(t0) + seq![TokModel::Wildcard]);
                    lemma_toks_step(s, i0, p_entry, tok_models(t0), TokModel::Wildcard, parser.pos());
                }
            } else {
                let c0 = parser.peek_char();
                let is_quote = match c0 {
                    Some(c) => c == '"' || c == '\'',
                    None => false,
                };
                if is_quote {
                    let t = match parser.parse_quoted_string() {
                        Ok(t) => t,
                        Err(e) => {
                            return Err(e);
                        },
                    };
                    match parser.expect(']') {
                        Ok(u) => u,
                        Err(e) => {
                            return Err(e);
                        },
                    };
                    let ghost tk = (TokModel::Key { k: t@ });
                    toks.push(PathToken::Key(t));
                    proof {
                        assert(tok_models(toks@) =~= tok_models(t0) + seq![tk]);
                        lemma_toks_step(s, i0, p_entry, tok_models(t0), tk, parser.pos());
                    }
                } else {
                    let content = match parser.capture_until(']') {
                        Ok(c) => c,
                        Err(e) => {
                            return Err(e);
                        },
                    };
                    match parser.expect(']') {
                        Ok(u) => u,
                        Err(e) => {
                            return Err(e);
                        },
                    };
                    let mut tmp = Parser::new(content);
                    let idx = match tmp.parse_int() {
                        Ok(v) => v,
                        Err(e) => {
                            return Err(e);
                        },
                    };
                    let ghost tk = (TokModel::Index { i: idx as int });
                    toks.push(PathToken::Index(idx));
                    proof {
                        assert(tok_models(toks@) =~= tok_models(t0) + seq![tk]);
                        lemma_toks_step(s, i0, p_entry, tok_models(t0), tk, parser.pos());
                    }
                }
            }
        } else {
            done = true;
        }
    }
    Ok(toks)
}

/// Re-associates one parsed token onto the accumulated list.
proof fn lemma_toks_step(s: Seq<char>, i0: int, p: int, t0: Seq<TokModel>, t: TokModel, q: int)
    requires
        sp_toks(s, i0) == (match sp_toks(s, p) {
            Some((ts2, j2)) => Some((t0 + ts2, j2)),
            None => None::<(Seq<TokModel>, int)>,
        }),
        sp_toks(s, p) == (match sp_toks(s, q) {
            Some((ts3, j3)) => Some((seq![t] + ts3, j3)),
            None => None::<(Seq<TokModel>, int)>,
        }),
    ensures
        sp_toks(s, i0) == (match sp_toks(s, q) {
            Some((ts3, j3)) => Some(((t0 + seq![t]) + ts3, j3)),
            None => None::<(Seq<TokModel>, int)>,
        }),
{
    match sp_toks(s, q) {
        Some((ts3, j3)) => {
            assert(t0 + (seq![t] + ts3) =~= (t0 + seq![t]) + ts3);
        },
        None => {},
    }
}

/// Parses one operand of a filter comparison.
#[verifier::rlimit(100)]
#[verifier::spinoff_prover]
fn parse_operand<'a>(parser: &mut Parser<'a>) -> (r: Result<Operand, ParseError>)
    requires
        old(parser).wf(),
    ensures
        final(parser).wf(),
        final(parser).same_src(old(parser)),
        match sp_operand(old(parser).src(), old(parser).pos()) {
            Some((m, j)) => r is Ok && r->Ok_0@ == m && final(parser).pos() == j && j > old(
                parser,
            ).pos(),
            None => r is Err,
        },
    decreases parser.n - parser.i, 0int,
{
    let ghost s = parser.src();
    let ghost i0 = parser.pos();
    parser.skip_ws();
    let c0 = parser.peek_char();
    let is_quote = match c0 {
        Some(c) => c == '"' || c == '\'',
        None => false,
    };
    if is_quote {
        let t = match parser.parse_quoted_string() {
            Ok(t) => t,
            Err(e) => {
                return Err(e);
            },
        };
        return Ok(Operand::Literal(JsonValue::Str(t)));
    }
    proof {
        reveal_strlit("true");
        reveal_strlit("false");
        reveal_strlit("null");
        reveal_strlit("lower(");
        reveal_strlit("upper(");
        reveal_strlit("length(");
        assert("true"@ =~= seq!['t', 'r', 'u', 'e']);
        assert("false"@ =~= seq!['f', 'a', 'l', 's', 'e']);
        assert("null"@ =~= seq!['n', 'u', 'l', 'l']);
        assert("lower("@ =~= seq!['l', 'o', 'w', 'e', 'r', '(']);
        assert("upper("@ =~= seq!['u', 'p', 'p', 'e', 'r', '(']);
        assert("length("@ =~= seq!['l', 'e', 'n', 'g', 't', 'h', '(']);
    }
    if parser.peek_str("true") {
        parser.advance(4);
        return Ok(Operand::Literal(JsonValue::Bool(true)));
    }
    if parser.peek_str("false") {
        parser.advance(5);
        return Ok(Operand::Literal(JsonValue::Bool(false)));
    }
    if parser.peek_str("null") {
        parser.advance(4);
        return Ok(Operand::Literal(JsonValue::Null));
    }
    if parser.peek_str("lower(") {
        parser.advance(6);
        let inner = match parse_operand(parser) {
            Ok(x) => x,
            Err(e) => {
                return Err(e);
            },
        };
        match parser.expect(')') {
            Ok(u) => u,
            Err(e) => {
                return Err(e);
            },
        };
        return Ok(Operand::Lower(Box::new(inner)));
    }
    if parser.peek_str("upper(") {
        parser.advance(6);
        let inner = match parse_operand(parser) {
            Ok(x) => x,
            Err(e) => {
                return Err(e);
            },
        };
        match parser.expect(')') {
            Ok(u) => u,
            Err(e) => {
                return Err(e);
            },
        };
        return Ok(Operand::Upper(Box::new(inner)));
    }
    if parser.peek_str("length(") {
        parser.advance(7);
        let inner = match parse_operand(parser) {
            Ok(x) => x,
            Err(e) => {
                return Err(e);
            },
        };
        match parser.expect(')') {
            Ok(u) => u,
            Err(e) => {
                return Err(e);
            },
        };
        return Ok(Operand::Length(Box::new(inner)));
    }
    if parser.consume_char('@') {
        let toks = match parse_tokens(parser) {
            Ok(t) => t,
            Err(e) => {
                return Err(e);
            },
        };
        return Ok(Operand::CurrentPath(toks));
    }
    let is_num = match parser.peek_char() {
        Some(c) => c == '-' || digit_char(c),
        None => false,
    };
    if is_num {
        let v = match parser.parse_number_literal() {
            Ok(v) => v,
            Err(e) => {
                return Err(e);
            },
        };
        return Ok(Operand::Literal(v));
    }
    Err(ParseError::InvalidSyntax(String::from_str("invalid operand")))
}

/// Parses a comparison or a parenthesized filter.
#[verifier::rlimit(100)]
#[verifier::spinoff_prover]
fn parse_filter_compare<'a>(parser: &mut Parser<'a>) -> (r: Result<FilterExpr, ParseError>)
    requires
        old(parser).wf(),
    ensures
        final(parser).wf(),
        final(parser).same_src(old(parser)),
        match sp_compare(old(parser).src(), old(parser).pos()) {
            Some((m, j)) => r is Ok && r->Ok_0@ == m && final(parser).pos() == j && j > old(
                parser,
            ).pos(),
            None => r is Err,
        },
    decreases parser.n - parser.i, 1int,
{
    let ghost s = parser.src();
    let ghost i0 = parser.pos();
    parser.skip_ws();
    if parser.consume_char('(') {
        let inner = match parse_filter_or(parser) {
            Ok(x) => x,
            Err(e) => {
                return Err(e);
            },
        };
        match parser.expect(')') {
            Ok(u) => u,
            Err(e) => {
                return Err(e);
            },
        };
        return Ok(inner);
    }
    let left = match parse_operand(parser) {
        Ok(x) => x,
        Err(e) => {
            return Err(e);
        },
    };
    parser.skip_ws();
    proof {
        reveal_strlit("==");
        reveal_strlit("!=");
        reveal_strlit("<=");
        reveal_strlit(">=");
        assert("=="@ =~= seq!['=', '=']);
        assert("!="@ =~= seq!['!', '=']);
        assert("<="@ =~= seq!['<', '=']);
        assert(">="@ =~= seq!['>', '=']);
    }
    if parser.peek_str("==") {
        parser.advance(2);
        let right = match parse_operand(parser) {
            Ok(x) => x,
            Err(e) => {
                return Err(e);
            },
        };
        return Ok(FilterExpr::Eq(left, right));
    }
    if parser.peek_str("!=") {
        parser.advance(2);
        let right = match parse_operand(parser) {
            Ok(x) => x,
            Err(e) => {
                return Err(e);
            },
        };
        return Ok(FilterExpr::Ne(left, right));
    }
    if parser.peek_str("<=") {
        parser.advance(2);
        let right = match parse_operand(parser) {
            Ok(x) => x,
            Err(e) => {
                return Err(e);
            },
        };
        return Ok(FilterExpr::Lte(left, right));
    }
    if parser.peek_str(">=") {
        parser.advance(2);
        let right = match parse_operand(parser) {
            Ok(x) => x,
            Err(e) => {
                return Err(e);
            },
        };
        return Ok(FilterExpr::Gte(left, right));
    }
    if parser.consume_char('<') {
        let right = match parse_operand(parser) {
            Ok(x) => x,
            Err(e) => {
                return Err(e);
            },
        };
        return Ok(FilterExpr::Lt(left, right));
    }
    if parser.consume_char('>') {
        let right = match parse_operand(parser) {
            Ok(x) => x,
            Err(e) => {
                return Err(e);
            },
        };
        return Ok(FilterExpr::Gt(left, right));
    }
    Ok(FilterExpr::Truthy(left))
}

/// Parses any number of prefix `!` and then a comparison.
#[verifier::rlimit(100)]
#[verifier::spinoff_prover]
fn parse_filter_not<'a>(parser: &mut Parser<'a>) -> (r: Result<FilterExpr, ParseError>)
    requires
        old(parser).wf(),
    ensures
        final(parser).wf(),
        final(parser).same_src(old(parser)),
        match sp_not(old(parser).src(), old(parser).pos()) {
            Some((m, j)) => r is Ok && r->Ok_0@ == m && final(parser).pos() == j && j > old(
                parser,
            ).pos(),
            None => r is Err,
        },
    decreases parser.n - parser.i, 2int,
{
    parser.skip_ws();
    if parser.consume_char('!') {
        let inner = match parse_filter_not(parser) {
            Ok(x) => x,
            Err(e) => {
                return Err(e);
            },
        };
        Ok(FilterExpr::Not(Box::new(inner)))
    } else {
        parse_filter_compare(parser)
    }
}

/// Parses conjunctions joined by `&&`, left-associated.
#[verifier::rlimit(100)]
#[verifier::spinoff_prover]
fn parse_filter_and<'a>(parser: &mut Parser<'a>) -> (r: Result<FilterExpr, ParseError>)
    requires
        old(parser).wf(),
    ensures
        final(parser).wf(),
        final(parser).same_src(old(parser)),
        match sp_and(old(parser).src(), old(parser).pos()) {
            Some((m, j)) => r is Ok && r->Ok_0@ == m && final(parser).pos() == j && j > old(
                parser,
            ).pos(),
            None => r is Err,
        },
    decreases parser.n - parser.i, 3int,
{
    let ghost s = parser.src();
    let ghost i0 = parser.pos();
    let mut left = match parse_filter_not(parser) {
        Ok(x) => x,
        Err(e) => {
            return Err(e);
        },
    };
    let mut done = false;
    #[verifier::loop_isolation(false)]
    while !done
        invariant
            parser.wf(),
            parser.same_src(old(parser)),
            parser.pos() > i0,
            !done ==> sp_and(s, i0) == sp_and_rest(s, left@, parser.pos()),
            done ==> sp_and(s, i0) == Some((left@, parser.pos())),
        decreases parser.n - parser.i, (if done {
            0int
        } else {
            1int
        }),
    {
        parser.skip_ws();
        proof {
            reveal_strlit("&&");
            assert("&&"@ =~= seq!['&', '&']);
        }
        if parser.peek_str("&&") {
            parser.advance(2);
            let right = match parse_filter_not(parser) {
                Ok(x) => x,
                Err(e) => {
                    return Err(e);
                },
            };
            left = FilterExpr::And(Box::new(left), Box::new(right));
        } else {
            done = true;
        }
    }
    Ok(left)
}

/// Parses a whole filter expression: disjunctions joined by `||`,
/// left-associated, over conjunctions, negations and comparisons.
#[verifier::rlimit(100)]
#[verifier::spinoff_prover]
pub fn parse_filter_or<'a>(parser: &mut Parser<'a>) -> (r: Result<FilterExpr, ParseError>)
    requires
        old(parser).wf(),
    ensures
        final(parser).wf(),
        final(parser).same_src(old(parser)),
        match sp_or(old(parser).src(), old(parser).pos()) {
            Some((m, j)) => r is Ok && r->Ok_0@ == m && final(parser).pos() == j && j > old(
                parser,
            ).pos(),
            None => r is Err,
        },
    decreases parser.n - parser.i, 4int,
{
    let ghost s = parser.src();
    let ghost i0 = parser.pos();
    let mut left = match parse_filter_and(parser) {
        Ok(x) => x,
        Err(e) => {
            return Err(e);
        },
    };
    let mut done = false;
    #[verifier::loop_isolation(false)]
    while !done
        invariant
            parser.wf(),
            parser.same_src(old(parser)),
            parser.pos() > i0,
            !done ==> sp_or(s, i0) == sp_or_rest(s, left@, parser.pos()),
            done ==> sp_or(s, i0) == Some((left@, parser.pos())),
        decreases parser.n - parser.i, (if done {
            0int
        } else {
            1int
        }),
    {
        parser.skip_ws();
        proof {
            reveal_strlit("||");
            assert("||"@ =~= seq!['|', '|']);
        }
        if parser.peek_str("||") {
            parser.advance(2);
            let right = match parse_filter_and(parser) {
                Ok(x) => x,
                Err(e) => {
                    return Err(e);
                },
            };
            left = FilterExpr::Or(Box::new(left), Box::new(right));
        } else {
            done = true;
        }
    }
    Ok(left)
}

} // verus!
