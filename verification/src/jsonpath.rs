use vstd::prelude::*;
use vstd::string::StrSliceExecFns;
use crate::value::JsonValue;
use crate::value::ValModel;
use crate::value::models_of;
use crate::value::ref_models_of;
use crate::value::lemma_ref_models_from;
use crate::value::lemma_models_from;
use crate::value::lemma_pair_models_from;
use crate::value::deep_copy;
use crate::comparison::CmpMode;
use crate::context::Context;
use crate::filter::FilterExpr;
use crate::filter::FilterModel;
use crate::filter::PathToken;
use crate::filter::TokModel;
use crate::filter::tok_contrib;
use crate::filter::tok_apply_from;
use crate::filter::filter_holds;
use crate::filter::eval_filter;
use crate::filter::apply_tok;
use crate::filter::push_ref;
use crate::filter::sp_or;
use crate::filter::next_pos;
use crate::filter::lit_at;
use crate::filter::rem;
use crate::filter::parse_filter_or;
use crate::parser::Parser;
use crate::parser::ParseError;
use crate::parser::ws_end;
use crate::parser::ident_end;
use crate::parser::digits_end;
use crate::parser::digits_val;
use crate::parser::find_char;
use crate::parser::int_sign_pos;
use crate::parser::quoted_body;
use crate::parser::is_ident_char;
use crate::parser::ident_char;
use crate::parser::lemma_ws_end;
use crate::parser::lemma_ident_end;
use crate::parser::lemma_digits_end;
use crate::parser::lemma_find_char;
use crate::parser::lemma_quoted_body;

verus! {

broadcast use
    vstd::std_specs::vec::group_vec_axioms,
    vstd::seq::axiom_seq_index_decreases,
    lemma_ref_models_from,
    lemma_models_from,
    lemma_pair_models_from,
    lemma_ws_end,
    lemma_ident_end,
    lemma_digits_end,
    lemma_find_char,
    lemma_quoted_body;

pub type ParseErr = ParseError;

// --- the path AST ---

/// One step of a path: root anchor, key access, wildcard, array index,
/// array slice, recursive descent, or a predicate filter.
#[derive(Debug)]
pub enum Segment {
    Root,
    Key(String),
    Wildcard,
    Index(i64),
    Slice { start: Option<i64>, end: Option<i64>, step: Option<i64> },
    Recursive,
    Filter(Box<FilterExpr>),
}

/// Model of a segment.
pub enum SegModel {
    Root,
    Key { k: Seq<char> },
    Wildcard,
    Index { i: int },
    Slice { start: Option<int>, end: Option<int>, step: Option<int> },
    Recursive,
    Filter { e: FilterModel },
}

impl View for Segment {
    type V = SegModel;

    open spec fn view(&self) -> SegModel {
        match self {
            Segment::Root => SegModel::Root,
            Segment::Key(k) => SegModel::Key { k: k@ },
            Segment::Wildcard => SegModel::Wildcard,
            Segment::Index(i) => SegModel::Index { i: *i as int },
            Segment::Slice { start, end, step } => SegModel::Slice {
                start: match start {
                    Some(v) => Some(*v as int),
                    None => None,
                },
                end: match end {
                    Some(v) => Some(*v as int),
                    None => None,
                },
                step: match step {
                    Some(v) => Some(*v as int),
                    None => None,
                },
            },
            Segment::Recursive => SegModel::Recursive,
            Segment::Filter(e) => SegModel::Filter { e: (**e)@ },
        }
    }
}

/// The models of a segment sequence.
pub open spec fn seg_models(s: Seq<Segment>) -> Seq<SegModel> {
    s.map_values(|g: Segment| g@)
}

/// A parsed path: a sequence of segments, the first of which is `Root`.
#[derive(Debug)]
pub struct Path {
    pub segments: Vec<Segment>,
}

impl View for Path {
    type V = Seq<SegModel>;

    open spec fn view(&self) -> Seq<SegModel> {
        seg_models(self.segments@)
    }
}

// --- evaluation: model level ---

/// Clamps `x` into `[a, b]`.
pub open spec fn clamp(x: int, a: int, b: int) -> int {
    if x < a {
        a
    } else if x > b {
        b
    } else {
        x
    }
}

/// Python-style normalization of a slice bound against length `n`.
pub open spec fn norm_bound(b: int, n: int) -> int {
    if b < 0 {
        clamp(n + b, 0, n)
    } else {
        clamp(b, 0, n)
    }
}

/// The elements picked by a forward slice walk: indices `i`, `i+st`,
/// and so on, strictly below `hi`.
pub open spec fn slice_fwd(elems: Seq<ValModel>, i: int, hi: int, st: int) -> Seq<ValModel>
    decreases
            (if i < hi {
                hi - i
            } else {
                0int
            })
        when st >= 1
{
    if i < hi {
        seq![elems[i]] + slice_fwd(elems, i + st, hi, st)
    } else {
        Seq::empty()
    }
}

/// The elements picked by a backward slice walk: indices `i`, `i+st`,
/// and so on down to `lo`, stopping when the index would pass zero.
pub open spec fn slice_bwd(elems: Seq<ValModel>, i: int, lo: int, st: int) -> Seq<ValModel>
    decreases
            (if i >= 0 {
                i + 1
            } else {
                0
            })
        when st <= -1
{
    if i >= lo && i >= 0 {
        seq![elems[i]] + slice_bwd(elems, i + st, lo, st)
    } else {
        Seq::empty()
    }
}

/// The elements of an array selected by a slice with Python semantics:
/// a zero step selects nothing; negative bounds count from the end; a
/// negative step walks backward from just below the upper bound.
pub open spec fn slice_vals(
    elems: Seq<ValModel>,
    start: Option<int>,
    end: Option<int>,
    step: Option<int>,
) -> Seq<ValModel> {
    let n = elems.len() as int;
    let st = match step {
        Some(x) => x,
        None => 1,
    };
    if st == 0 {
        Seq::empty()
    } else {
        let lo = norm_bound(
            match start {
                Some(x) => x,
                None => 0,
            },
            n,
        );
        let hi = norm_bound(
            match end {
                Some(x) => x,
                None => n,
            },
            n,
        );
        if st > 0 {
            slice_fwd(elems, lo, hi, st)
        } else {
            if hi == 0 {
                Seq::empty()
            } else {
                slice_bwd(elems, clamp(hi - 1, 0, n - 1), lo, st)
            }
        }
    }
}

/// The node itself and every object or array nested beneath it, in
/// depth-first pre-order; scalar leaves are excluded.
pub open spec fn collect_desc(v: ValModel) -> Seq<ValModel>
    decreases v, 0int,
{
    match v {
        ValModel::Arr { elems } => seq![v] + desc_elems(elems, 0),
        ValModel::Obj { pairs } => seq![v] + desc_pairs(pairs, 0),
        _ => Seq::empty(),
    }
}

pub open spec fn desc_elems(elems: Seq<ValModel>, i: int) -> Seq<ValModel>
    decreases elems, elems.len() - i,
{
    if 0 <= i < elems.len() {
        collect_desc(elems[i]) + desc_elems(elems, i + 1)
    } else {
        Seq::empty()
    }
}

pub open spec fn desc_pairs(pairs: Seq<(Seq<char>, ValModel)>, i: int) -> Seq<ValModel>
    decreases pairs, pairs.len() - i,
{
    if 0 <= i < pairs.len() {
        collect_desc(pairs[i].1) + desc_pairs(pairs, i + 1)
    } else {
        Seq::empty()
    }
}

/// The filter candidates a node offers: the elements of an array, or
/// the node itself.
pub open spec fn cand_of(v: ValModel) -> Seq<ValModel> {
    match v {
        ValModel::Arr { elems } => elems,
        _ => seq![v],
    }
}

/// The members of `xs[i..]` that satisfy the filter.
pub open spec fn filter_seq(xs: Seq<ValModel>, e: FilterModel, m: CmpMode, i: int) -> Seq<ValModel>
    decreases xs.len() - i,
{
    if 0 <= i < xs.len() {
        (if filter_holds(e, xs[i], m) {
            seq![xs[i]]
        } else {
            Seq::empty()
        }) + filter_seq(xs, e, m, i + 1)
    } else {
        Seq::empty()
    }
}

/// What one node contributes under one (non-root) segment.
pub open spec fn seg_contrib(v: ValModel, g: SegModel, m: CmpMode) -> Seq<ValModel> {
    match g {
        SegModel::Root => Seq::empty(),
        SegModel::Key { k } => tok_contrib(v, TokModel::Key { k }),
        SegModel::Index { i } => tok_contrib(v, TokModel::Index { i }),
        SegModel::Wildcard => tok_contrib(v, TokModel::Wildcard),
        SegModel::Slice { start, end, step } => match v {
            ValModel::Arr { elems } => slice_vals(elems, start, end, step),
            _ => Seq::empty(),
        },
        SegModel::Recursive => collect_desc(v),
        SegModel::Filter { e } => filter_seq(cand_of(v), e, m, 0),
    }
}

/// One segment applied to the working set `cur[j..]`.
pub open spec fn seg_apply_from(cur: Seq<ValModel>, g: SegModel, m: CmpMode, j: int) -> Seq<
    ValModel,
>
    decreases cur.len() - j,
{
    if 0 <= j < cur.len() {
        seg_contrib(cur[j], g, m) + seg_apply_from(cur, g, m, j + 1)
    } else {
        Seq::empty()
    }
}

/// One segment applied to the whole working set: `Root` resets the set
/// to the document; every other segment folds over the nodes.
pub open spec fn seg_apply(cur: Seq<ValModel>, g: SegModel, root: ValModel, m: CmpMode) -> Seq<
    ValModel,
> {
    match g {
        SegModel::Root => seq![root],
        _ => seg_apply_from(cur, g, m, 0),
    }
}

/// The segments `segs[k..]` folded over the working set.
pub open spec fn eval_segs(
    cur: Seq<ValModel>,
    segs: Seq<SegModel>,
    root: ValModel,
    m: CmpMode,
    k: int,
) -> Seq<ValModel>
    decreases segs.len() - k,
{
    if 0 <= k < segs.len() {
        eval_segs(seg_apply(cur, segs[k], root, m), segs, root, m, k + 1)
    } else {
        cur
    }
}

/// The matches of a parsed path against a document: the working set
/// starts as the document alone and each segment folds over it.
pub open spec fn eval_path_model(root: ValModel, segs: Seq<SegModel>, m: CmpMode) -> Seq<ValModel> {
    eval_segs(seq![root], segs, root, m, 0)
}

// --- evaluation: executable level ---

/// Normalizes a slice bound against the array length.
fn norm_bound_exec(b: i64, n: usize) -> (r: usize)
    ensures
        r as int == norm_bound(b as int, n as int),
        r <= n,
{
    if b >= 0 {
        if (b as u64) >= (n as u64) {
            n
        } else {
            b as usize
        }
    } else {
        let m = (-(b as i128)) as u128;
        if m >= (n as u128) {
            0
        } else {
            n - (m as usize)
        }
    }
}

/// Pushes the slice of an array onto the output, per the slice bounds.
#[verifier::rlimit(100)]
#[verifier::spinoff_prover]
fn slice_into<'a>(
    out: &mut Vec<&'a JsonValue>,
    elems: &'a Vec<JsonValue>,
    start: Option<i64>,
    end: Option<i64>,
    step: Option<i64>,
)
    ensures
        ref_models_of(final(out)@) == ref_models_of(old(out)@) + slice_vals(
            models_of(elems@),
            match start {
                Some(v) => Some(v as int),
                None => None,
            },
            match end {
                Some(v) => Some(v as int),
                None => None,
            },
            match step {
                Some(v) => Some(v as int),
                None => None,
            },
        ),
{
    let ghost em = models_of(elems@);
    let ghost pre = ref_models_of(out@);
    let n = elems.len();
    let st: i64 = match step {
        Some(x) => x,
        None => 1,
    };
    if st == 0 {
        proof {
            assert(ref_models_of(out@) =~= pre + Seq::<ValModel>::empty());
        }
        return ;
    }
    let lo: usize = match start {
        Some(b) => norm_bound_exec(b, n),
        None => 0,
    };
    let hi: usize = match end {
        Some(b) => norm_bound_exec(b, n),
        None => n,
    };
    if st > 0 {
        let mut i: u128 = lo as u128;
        #[verifier::loop_isolation(false)]
        while i < (hi as u128)
            invariant
                lo as u128 <= i,
                ref_models_of(out@) + slice_fwd(em, i as int, hi as int, st as int) =~= pre
                    + slice_fwd(em, lo as int, hi as int, st as int),
            decreases
                    (if i < hi as u128 {
                        hi as int - i as int
                    } else {
                        0int
                    }),
        {
            let ghost preq = ref_models_of(out@);
            push_ref(out, &elems[i as usize]);
            proof {
                assert(em[i as int] == elems@[i as int].model());
                assert(preq + (seq![em[i as int]] + slice_fwd(
                    em,
                    i as int + st as int,
                    hi as int,
                    st as int,
                )) =~= (preq + seq![em[i as int]]) + slice_fwd(
                    em,
                    i as int + st as int,
                    hi as int,
                    st as int,
                ));
            }
            i = i + (st as u128);
        }
        proof {
            assert(slice_fwd(em, i as int, hi as int, st as int) =~= Seq::<ValModel>::empty());
            assert(ref_models_of(out@) + Seq::<ValModel>::empty() =~= ref_models_of(out@));
        }
    } else {
        if hi == 0 {
            proof {
                assert(ref_models_of(out@) =~= pre + Seq::<ValModel>::empty());
            }
            return ;
        }
        let mut i: i128 = (hi as i128) - 1;
        proof {
            assert(i as int == clamp(hi as int - 1, 0, n as int - 1));
        }
        let ghost istart = i as int;
        #[verifier::loop_isolation(false)]
        while i >= (lo as i128) && i >= 0
            invariant
                i <= n as i128 - 1,
                ref_models_of(out@) + slice_bwd(em, i as int, lo as int, st as int) =~= pre
                    + slice_bwd(em, istart, lo as int, st as int),
            decreases
                    (if i >= 0 {
                        i + 1
                    } else {
                        0int
                    }),
        {
            let ghost preq = ref_models_of(out@);
            push_ref(out, &elems[i as usize]);
            proof {
                assert(em[i as int] == elems@[i as int].model());
                assert(preq + (seq![em[i as int]] + slice_bwd(
                    em,
                    i as int + st as int,
                    lo as int,
                    st as int,
                )) =~= (preq + seq![em[i as int]]) + slice_bwd(
                    em,
                    i as int + st as int,
                    lo as int,
                    st as int,
                ));
            }
            i = i + (st as i128);
        }
        proof {
            assert(slice_bwd(em, i as int, lo as int, st as int) =~= Seq::<ValModel>::empty());
            assert(ref_models_of(out@) + Seq::<ValModel>::empty() =~= ref_models_of(out@));
        }
    }
}

/// Collects the node and all its object or array descendants in
/// pre-order onto the output.
fn collect_into<'a>(out: &mut Vec<&'a JsonValue>, v: &'a JsonValue)
    ensures
        ref_models_of(final(out)@) == ref_models_of(old(out)@) + collect_desc(v@),
    decreases v,
{
    let ghost pre = ref_models_of(out@);
    match v {
        JsonValue::Arr(elems) => {
            let ghost em = models_of(elems@);
            push_ref(out, v);
            let mut i: usize = 0;
            #[verifier::loop_isolation(false)]
            while i < elems.len()
                invariant
                    0 <= i <= elems.len(),
                    ref_models_of(out@) + desc_elems(em, i as int) =~= pre + collect_desc(v@),
                decreases elems.len() - i,
            {
                let ghost preq = ref_models_of(out@);
                collect_into(out, &elems[i]);
                proof {
                    assert(em[i as int] == elems@[i as int].model());
                    assert(preq + (collect_desc(em[i as int]) + desc_elems(em, i + 1)) =~= (preq
                        + collect_desc(em[i as int])) + desc_elems(em, i + 1));
                }
                i += 1;
            }
            proof {
                assert(desc_elems(em, elems@.len() as int) =~= Seq::<ValModel>::empty());
                assert(ref_models_of(out@) + Seq::<ValModel>::empty() =~= ref_models_of(out@));
            }
        },
        JsonValue::Obj(pairs) => {
            let ghost pm = JsonValue::pair_models_from(pairs@, 0);
            push_ref(out, v);
            let mut i: usize = 0;
            #[verifier::loop_isolation(false)]
            while i < pairs.len()
                invariant
                    0 <= i <= pairs.len(),
                    ref_models_of(out@) + desc_pairs(pm, i as int) =~= pre + collect_desc(v@),
                decreases pairs.len() - i,
            {
                let ghost preq = ref_models_of(out@);
                collect_into(out, &pairs[i].1);
                proof {
                    assert(pm[i as int].1 == pairs@[i as int].1.model());
                    assert(preq + (collect_desc(pm[i as int].1) + desc_pairs(pm, i + 1)) =~= (preq
                        + collect_desc(pm[i as int].1)) + desc_pairs(pm, i + 1));
                }
                i += 1;
            }
            proof {
                assert(desc_pairs(pm, pairs@.len() as int) =~= Seq::<ValModel>::empty());
                assert(ref_models_of(out@) + Seq::<ValModel>::empty() =~= ref_models_of(out@));
            }
        },
        _ => {
            proof {
                assert(ref_models_of(out@) =~= pre + collect_desc(v@));
            }
        },
    }
}

/// A key, index, or wildcard segment selects exactly what the same
/// path token selects.
proof fn lemma_tok_seg_apply(cur: Seq<ValModel>, t: TokModel, g: SegModel, m: CmpMode, j: int)
    requires
        (g matches SegModel::Key { k } ==> t == (TokModel::Key { k })),
        (g matches SegModel::Index { i } ==> t == (TokModel::Index { i })),
        (g is Wildcard ==> t is Wildcard),
        g is Key || g is Index || g is Wildcard,
    ensures
        tok_apply_from(cur, t, j) == seg_apply_from(cur, g, m, j),
    decreases cur.len() - j,
{
    if 0 <= j < cur.len() {
        lemma_tok_seg_apply(cur, t, g, m, j + 1);
    }
}

/// Applies one non-root segment to every node of the working set.
#[verifier::rlimit(100)]
#[verifier::spinoff_prover]
fn apply_segment<'a>(nodes: &Vec<&'a JsonValue>, g: &Segment, mode: CmpMode) -> (r: Vec<&'a JsonValue>)
    requires
        !(g@ is Root),
    ensures
        ref_models_of(r@) == seg_apply_from(ref_models_of(nodes@), g@, mode, 0),
{
    let ghost cur = ref_models_of(nodes@);
    match g {
        Segment::Key(k) => {
            let t = PathToken::Key(k.clone());
            let r = apply_tok(nodes, &t);
            proof {
                lemma_tok_seg_apply(cur, t@, g@, mode, 0);
            }
            r
        },
        Segment::Index(i) => {
            let t = PathToken::Index(*i);
            let r = apply_tok(nodes, &t);
            proof {
                lemma_tok_seg_apply(cur, t@, g@, mode, 0);
            }
            r
        },
        Segment::Wildcard => {
            let t = PathToken::Wildcard;
            let r = apply_tok(nodes, &t);
            proof {
                lemma_tok_seg_apply(cur, t@, g@, mode, 0);
            }
            r
        },
        Segment::Slice { start, end, step } => {
            let mut out: Vec<&'a JsonValue> = Vec::new();
            let mut j: usize = 0;
            #[verifier::loop_isolation(false)]
            while j < nodes.len()
                invariant
                    0 <= j <= nodes.len(),
                    ref_models_of(out@) + seg_apply_from(cur, g@, mode, j as int) == seg_apply_from(
                        cur,
                        g@,
                        mode,
                        0,
                    ),
                decreases nodes.len() - j,
            {
                let ghost pre = ref_models_of(out@);
                let v: &JsonValue = nodes[j];
                proof {
                    assert(cur[j as int] == v@);
                }
                match v {
                    JsonValue::Arr(elems) => {
                        slice_into(&mut out, elems, *start, *end, *step);
                    },
                    _ => {},
                }
                proof {
                    assert(ref_models_of(out@) =~= pre + seg_contrib(cur[j as int], g@, mode));
                    assert(pre + seg_contrib(cur[j as int], g@, mode) + seg_apply_from(
                        cur,
                        g@,
                        mode,
                        j + 1,
                    ) =~= pre + (seg_contrib(cur[j as int], g@, mode) + seg_apply_from(
                        cur,
                        g@,
                        mode,
                        j + 1,
                    )));
                }
                j += 1;
            }
            proof {
                assert(ref_models_of(out@) + seg_apply_from(cur, g@, mode, nodes@.len() as int)
                    =~= ref_models_of(out@));
            }
            out
        },
        Segment::Recursive => {
            let mut out: Vec<&'a JsonValue> = Vec::new();
            let mut j: usize = 0;
            #[verifier::loop_isolation(false)]
            while j < nodes.len()
                invariant
                    0 <= j <= nodes.len(),
                    ref_models_of(out@) + seg_apply_from(cur, g@, mode, j as int) == seg_apply_from(
                        cur,
                        g@,
                        mode,
                        0,
                    ),
                decreases nodes.len() - j,
            {
                let ghost pre = ref_models_of(out@);
                let v: &JsonValue = nodes[j];
                proof {
                    assert(cur[j as int] == v@);
                }
                collect_into(&mut out, v);
                proof {
                    assert(pre + seg_contrib(cur[j as int], g@, mode) + seg_apply_from(
                        cur,
                        g@,
                        mode,
                        j + 1,
                    ) =~= pre + (seg_contrib(cur[j as int], g@, mode) + seg_apply_from(
                        cur,
                        g@,
                        mode,
                        j + 1,
                    )));
                }
                j += 1;
            }
            proof {
                assert(ref_models_of(out@) + seg_apply_from(cur, g@, mode, nodes@.len() as int)
                    =~= ref_models_of(out@));
            }
            out
        },
        Segment::Filter(e) => {
            let mut out: Vec<&'a JsonValue> = Vec::new();
            let mut j: usize = 0;
            #[verifier::loop_isolation(false)]
            while j < nodes.len()
                invariant
                    0 <= j <= nodes.len(),
                    ref_models_of(out@) + seg_apply_from(cur, g@, mode, j as int) == seg_apply_from(
                        cur,
                        g@,
                        mode,
                        0,
                    ),
                decreases nodes.len() - j,
            {
                let ghost pre = ref_models_of(out@);
                let v: &JsonValue = nodes[j];
                proof {
                    assert(cur[j as int] == v@);
                }
                match v {
                    JsonValue::Arr(elems) => {
                        let ghost em = models_of(elems@);
                        let mut x: usize = 0;
                        #[verifier::loop_isolation(false)]
                        while x < elems.len()
                            invariant
                                0 <= x <= elems.len(),
                                ref_models_of(out@) + filter_seq(em, (**e)@, mode, x as int) =~= pre
                                    + filter_seq(em, (**e)@, mode, 0),
                            decreases elems.len() - x,
                        {
                            let keep = eval_filter(&**e, &elems[x], mode);
                            let ghost preq = ref_models_of(out@);
                            let ghost piece: Seq<ValModel> = if filter_holds(
                                (**e)@,
                                em[x as int],
                                mode,
                            ) {
                                seq![em[x as int]]
                            } else {
                                Seq::empty()
                            };
                            proof {
                                assert(em[x as int] == elems@[x as int].model());
                            }
                            if keep {
                                push_ref(&mut out, &elems[x]);
                            }
                            proof {
                                assert(ref_models_of(out@) =~= preq + piece);
                                assert(preq + (piece + filter_seq(em, (**e)@, mode, x + 1)) =~= (
                                preq + piece) + filter_seq(em, (**e)@, mode, x + 1));
                            }
                            x += 1;
                        }
                        proof {
                            assert(filter_seq(em, (**e)@, mode, elems@.len() as int) =~= Seq::<
                                ValModel,
                            >::empty());
                            assert(ref_models_of(out@) + Seq::<ValModel>::empty()
                                =~= ref_models_of(out@));
                            assert(cand_of(v@) == em);
                        }
                    },
                    _ => {
                        let keep = eval_filter(&**e, v, mode);
                        if keep {
                            push_ref(&mut out, v);
                        }
                        proof {
                            assert(cand_of(v@) =~= seq![v@]);
                            assert(filter_seq(cand_of(v@), (**e)@, mode, 1) =~= Seq::<
                                ValModel,
                            >::empty());
                            assert(ref_models_of(out@) =~= pre + filter_seq(
                                cand_of(v@),
                                (**e)@,
                                mode,
                                0,
                            ));
                        }
                    },
                }
                proof {
                    assert(ref_models_of(out@) =~= pre + seg_contrib(cur[j as int], g@, mode));
                    assert(pre + seg_contrib(cur[j as int], g@, mode) + seg_apply_from(
                        cur,
                        g@,
                        mode,
                        j + 1,
                    ) =~= pre + (seg_contrib(cur[j as int], g@, mode) + seg_apply_from(
                        cur,
                        g@,
                        mode,
                        j + 1,
                    )));
                }
                j += 1;
            }
            proof {
                assert(ref_models_of(out@) + seg_apply_from(cur, g@, mode, nodes@.len() as int)
                    =~= ref_models_of(out@));
            }
            out
        },
        Segment::Root => Vec::new(),
    }
}

/// Evaluates a parsed path against a document, returning the matched
/// nodes as borrows into the document.
fn eval_path_refs<'a>(root: &'a JsonValue, path: &Path, mode: CmpMode) -> (r: Vec<&'a JsonValue>)
    ensures
        ref_models_of(r@) == eval_path_model(root@, path@, mode),
{
    let ghost segs = path@;
    let mut cur: Vec<&'a JsonValue> = Vec::new();
    cur.push(root);
    proof {
        assert(ref_models_of(cur@) =~= seq![root@]);
    }
    let mut k: usize = 0;
    #[verifier::loop_isolation(false)]
    while k < path.segments.len()
        invariant
            0 <= k <= path.segments.len(),
            eval_path_model(root@, segs, mode) == eval_segs(
                ref_models_of(cur@),
                segs,
                root@,
                mode,
                k as int,
            ),
        decreases path.segments.len() - k,
    {
        let g = &path.segments[k];
        proof {
            assert(segs[k as int] == g@);
        }
        let next = match g {
            Segment::Root => {
                let mut fresh: Vec<&'a JsonValue> = Vec::new();
                fresh.push(root);
                proof {
                    assert(ref_models_of(fresh@) =~= seq![root@]);
                }
                fresh
            },
            _ => apply_segment(&cur, g, mode),
        };
        cur = next;
        k += 1;
    }
    cur
}

/// Evaluates a parsed path against a document under the given options,
/// returning the matched values as copies, in match order, duplicates
/// preserved.
pub fn evaluate_path(data: &JsonValue, path: &Path, ctx: &Context) -> (r: Vec<JsonValue>)
    ensures
        models_of(r@) == eval_path_model(data@, path@, ctx.mode),
{
    let refs = eval_path_refs(data, path, ctx.mode);
    let mut out: Vec<JsonValue> = Vec::new();
    let mut i: usize = 0;
    #[verifier::loop_isolation(false)]
    while i < refs.len()
        invariant
            0 <= i <= refs.len(),
            out@.len() == i,
            forall|j: int| 0 <= j < i ==> out@[j].model() == ref_models_of(refs@)[j],
        decreases refs.len() - i,
    {
        let c = deep_copy(refs[i]);
        out.push(c);
        i += 1;
    }
    proof {
        assert(models_of(out@) =~= ref_models_of(refs@));
    }
    out
}


// --- parsing: model level ---

/// A slice component: trimmed, it is empty (unspecified) or a fully
/// consumed optionally-signed decimal integer in `i64` range; anything
/// else is a syntax error (the outer `None`).
pub open spec fn opt_i64_spec(p: Seq<char>) -> Option<Option<int>> {
    let lo = ws_end(p, 0);
    if lo == p.len() {
        Some(None)
    } else {
        let q: int = if p[lo] == '-' || p[lo] == '+' {
            lo + 1
        } else {
            lo
        };
        let e = digits_end(p, q);
        let dv = digits_val(p, q, e);
        let v = if p[lo] == '-' {
            -dv
        } else {
            dv
        };
        if e > q && ws_end(p, e) == p.len() && i64::MIN <= v <= i64::MAX {
            Some(Some(v))
        } else {
            None
        }
    }
}

/// The body of a slice bracket, split on `:` into at most three
/// optional components.
pub open spec fn sp_slice(c: Seq<char>) -> Option<SegModel> {
    let c1 = find_char(c, 0, ':');
    let c2 = if c1 < c.len() {
        find_char(c, c1 + 1, ':')
    } else {
        c.len() as int
    };
    let c3 = if c2 < c.len() {
        find_char(c, c2 + 1, ':')
    } else {
        c.len() as int
    };
    if c3 < c.len() {
        None
    } else {
        let sa = opt_i64_spec(c.subrange(0, c1));
        let sb = if c1 < c.len() {
            opt_i64_spec(c.subrange(c1 + 1, c2))
        } else {
            Some(None)
        };
        let sc = if c2 < c.len() {
            opt_i64_spec(c.subrange(c2 + 1, c3))
        } else {
            Some(None)
        };
        match (sa, sb, sc) {
            (Some(a), Some(b), Some(st)) => Some(SegModel::Slice { start: a, end: b, step: st }),
            _ => None,
        }
    }
}

/// A bracket segment body starting at `kk` (just after `[`): wildcard,
/// filter, quoted key, or index/slice text up to `]`. The outer `None`
/// is a syntax error; this production never stops the path.
pub open spec fn sp_bracket(s: Seq<char>, kk: int) -> Option<Option<(SegModel, int)>> {
    let j = ws_end(s, kk);
    if j < s.len() && s[j] == '*' {
        if j + 1 < s.len() && s[j + 1] == ']' {
            Some(Some((SegModel::Wildcard, j + 2)))
        } else {
            None
        }
    } else if j < s.len() && s[j] == '?' {
        if j + 1 < s.len() && s[j + 1] == '(' {
            match sp_or(s, j + 2) {
                Some((f, j2)) => if j2 < s.len() && s[j2] == ')' && j2 + 1 < s.len() && s[j2 + 1]
                    == ']' {
                    Some(Some((SegModel::Filter { e: f }, j2 + 2)))
                } else {
                    None
                },
                None => None,
            }
        } else {
            None
        }
    } else if j < s.len() && (s[j] == '"' || s[j] == '\'') {
        match quoted_body(s, j + 1, s[j]) {
            Some((t, j2)) => if j2 < s.len() && s[j2] == ']' {
                Some(Some((SegModel::Key { k: t }, j2 + 1)))
            } else {
                None
            },
            None => None,
        }
    } else {
        let e = find_char(s, j, ']');
        if e == s.len() {
            None
        } else {
            let c = s.subrange(j, e);
            if find_char(c, 0, ':') < c.len() {
                match sp_slice(c) {
                    Some(g) => Some(Some((g, e + 1))),
                    None => None,
                }
            } else {
                let p = int_sign_pos(c, 0);
                let de = digits_end(c, p);
                let dv = digits_val(c, p, de);
                let v = if p > 0 {
                    -dv
                } else {
                    dv
                };
                if de > p && i64::MIN <= v <= i64::MAX {
                    Some(Some((SegModel::Index { i: v }, e + 1)))
                } else {
                    None
                }
            }
        }
    }
}

/// The next segment at position `j` (after white space): `..`, a dot
/// segment, a bracket segment, or - directly after a recursive descent -
/// a bare wildcard or key. The inner `None` stops the path without an
/// error; the outer `None` is a syntax error.
pub open spec fn sp_next(s: Seq<char>, j: int, prev_rec: bool) -> Option<Option<(SegModel, int)>> {
    if lit_at(s, j, seq!['.', '.']) {
        Some(Some((SegModel::Recursive, j + 2)))
    } else if j < s.len() && s[j] == '.' {
        if j + 1 < s.len() && s[j + 1] == '*' {
            Some(Some((SegModel::Wildcard, j + 2)))
        } else {
            let e = ident_end(s, j + 1);
            if e == j + 1 {
                None
            } else {
                Some(Some((SegModel::Key { k: s.subrange(j + 1, e) }, e)))
            }
        }
    } else if j < s.len() && s[j] == '[' {
        sp_bracket(s, j + 1)
    } else if prev_rec && j < s.len() && s[j] == '*' {
        Some(Some((SegModel::Wildcard, j + 1)))
    } else if prev_rec && j < s.len() && is_ident_char(s[j]) {
        let e = ident_end(s, j);
        Some(Some((SegModel::Key { k: s.subrange(j, e) }, e)))
    } else {
        Some(None)
    }
}

/// The segment sequence from position `i` on: segments are parsed until
/// the end of the input or the first unrecognized character (which
/// stops parsing without an error).
pub open spec fn sp_segments(s: Seq<char>, i: int, prev_rec: bool) -> Option<Seq<SegModel>>
    decreases rem(s, i), 0int,
{
    if 0 <= i < s.len() {
        let j = ws_end(s, i);
        match sp_next(s, j, prev_rec) {
            None => None,
            Some(None) => Some(Seq::empty()),
            Some(Some((g, j2))) => match sp_segments(s, next_pos(s, j, j2), g is Recursive) {
                Some(rest) => Some(seq![g] + rest),
                None => None,
            },
        }
    } else {
        Some(Seq::empty())
    }
}

/// A whole path: `$`, then segments. Trailing unrecognized characters
/// are ignored, not an error.
pub open spec fn sp_path(s: Seq<char>) -> Option<Seq<SegModel>> {
    let j = ws_end(s, 0);
    if j < s.len() && s[j] == '$' {
        match sp_segments(s, j + 1, false) {
            Some(rest) => Some(seq![SegModel::Root] + rest),
            None => None,
        }
    } else {
        None
    }
}

// --- parsing: executable level ---

/// Finds the next occurrence of `c` at or after `from`.
fn find_in(t: &str, from: usize, c: char) -> (r: usize)
    requires
        from <= t@.len(),
    ensures
        r as int == find_char(t@, from as int, c),
        r <= t@.len(),
{
    let n = t.unicode_len();
    let mut j = from;
    #[verifier::loop_isolation(false)]
    while j < n && t.get_char(j) != c
        invariant
            from <= j <= n,
            find_char(t@, from as int, c) == find_char(t@, j as int, c),
        decreases n - j,
    {
        j += 1;
    }
    j
}

/// Parses one trimmed slice component.
fn parse_opt_i64(t: &str) -> (r: Result<Option<i64>, ParseError>)
    ensures
        match opt_i64_spec(t@) {
            Some(ov) => r is Ok && (match (r->Ok_0, ov) {
                (Some(x), Some(y)) => x as int == y,
                (None, None) => true,
                _ => false,
            }),
            None => r is Err,
        },
{
    broadcast use crate::parser::lemma_digits_val_bounds;

    let mut p = Parser::new(t);
    p.skip_ws();
    if p.eof() {
        return Ok(None);
    }
    let neg = p.consume_char('-');
    if !neg {
        let _ = p.consume_char('+');
    }
    let q = p.i;
    let acc = p.parse_digits_clamped(9_223_372_036_854_775_808u128);
    if p.i == q {
        return Err(ParseError::InvalidSyntax(String::from_str("bad slice number")));
    }
    p.skip_ws();
    if !p.eof() {
        return Err(ParseError::InvalidSyntax(String::from_str("bad slice number")));
    }
    if neg {
        if acc <= 9_223_372_036_854_775_808u128 {
            let v = -(acc as i128);
            Ok(Some(v as i64))
        } else {
            Err(ParseError::InvalidSyntax(String::from_str("bad slice number")))
        }
    } else {
        if acc <= 9_223_372_036_854_775_807u128 {
            Ok(Some(acc as i64))
        } else {
            Err(ParseError::InvalidSyntax(String::from_str("bad slice number")))
        }
    }
}

/// Parses the text between slice brackets into a slice segment.
fn parse_slice(content: &str) -> (r: Result<Option<Segment>, ParseError>)
    ensures
        match sp_slice(content@) {
            Some(g) => r is Ok && (r->Ok_0 matches Some(seg) && seg@ == g),
            None => r is Err,
        },
{
    let n = content.unicode_len();
    let c1 = find_in(content, 0, ':');
    let c2 = if c1 < n {
        find_in(content, c1 + 1, ':')
    } else {
        n
    };
    let c3 = if c2 < n {
        find_in(content, c2 + 1, ':')
    } else {
        n
    };
    if c3 < n {
        return Err(ParseError::InvalidSyntax(String::from_str("slice too many components")));
    }
    let start = match parse_opt_i64(content.substring_char(0, c1)) {
        Ok(v) => v,
        Err(e) => {
            return Err(e);
        },
    };
    let end = if c1 < n {
        match parse_opt_i64(content.substring_char(c1 + 1, c2)) {
            Ok(v) => v,
            Err(e) => {
                return Err(e);
            },
        }
    } else {
        None
    };
    let step = if c2 < n {
        match parse_opt_i64(content.substring_char(c2 + 1, c3)) {
            Ok(v) => v,
            Err(e) => {
                return Err(e);
            },
        }
    } else {
        None
    };
    Ok(Some(Segment::Slice { start, end, step }))
}

/// Parser for path strings.
pub struct PathParser<'a> {
    pub parser: Parser<'a>,
}

impl<'a> PathParser<'a> {
    /// Creates a path parser over the given text.
    pub fn new(s: &'a str) -> (r: PathParser<'a>)
        ensures
            r.parser.wf(),
            r.parser.src() == s@,
            r.parser.pos() == 0,
    {
        PathParser { parser: Parser::new(s) }
    }

    /// Parses a bracket segment; the cursor stands just after `[`.
    #[verifier::rlimit(100)]
    #[verifier::spinoff_prover]
    fn parse_bracket_segment(&mut self) -> (r: Result<Option<Segment>, ParseError>)
        requires
            old(self).parser.wf(),
        ensures
            final(self).parser.wf(),
            final(self).parser.same_src(&old(self).parser),
            match sp_bracket(old(self).parser.src(), old(self).parser.pos()) {
                Some(Some((g, j2))) => r is Ok && (r->Ok_0 matches Some(seg) && seg@ == g) && final(self).parser.pos() == j2 && j2 > old(self).parser.pos(),
                Some(None) => false,
                None => r is Err,
            },
    {
        let ghost s = self.parser.src();
        self.parser.skip_ws();
        if self.parser.consume_char('*') {
            match self.parser.expect(']') {
                Ok(u) => u,
                Err(e) => {
                    return Err(e);
                },
            };
            return Ok(Some(Segment::Wildcard));
        }
        let c0 = self.parser.peek_char();
        let is_q = match c0 {
            Some(c) => c == '?',
            None => false,
        };
        if is_q {
            let _ = self.parser.consume_char('?');
            match self.parser.expect('(') {
                Ok(u) => u,
                Err(e) => {
                    return Err(e);
                },
            };
            let f = match parse_filter_or(&mut self.parser) {
                Ok(f) => f,
                Err(e) => {
                    return Err(e);
                },
            };
            match self.parser.expect(')') {
                Ok(u) => u,
                Err(e) => {
                    return Err(e);
                },
            };
            match self.parser.expect(']') {
                Ok(u) => u,
                Err(e) => {
                    return Err(e);
                },
            };
            return Ok(Some(Segment::Filter(Box::new(f))));
        }
        let is_quote = match c0 {
            Some(c) => c == '"' || c == '\'',
            None => false,
        };
        if is_quote {
            let k = match self.parser.parse_quoted_string() {
                Ok(k) => k,
                Err(e) => {
                    return Err(e);
                },
            };
            match self.parser.expect(']') {
                Ok(u) => u,
                Err(e) => {
                    return Err(e);
                },
            };
            return Ok(Some(Segment::Key(k)));
        }
        let content = match self.parser.capture_until(']') {
            Ok(c) => c,
            Err(e) => {
                return Err(e);
            },
        };
        match self.parser.expect(']') {
            Ok(u) => u,
            Err(e) => {
                return Err(e);
            },
        };
        if find_in(content, 0, ':') < content.unicode_len() {
            parse_slice(content)
        } else {
            let mut tmp = Parser::new(content);
            let idx = match tmp.parse_int() {
                Ok(v) => v,
                Err(e) => {
                    return Err(e);
                },
            };
            Ok(Some(Segment::Index(idx)))
        }
    }

    /// Parses a dot segment (the cursor stands just after `.`): a
    /// wildcard or an identifier key.
    fn parse_dot_segment(&mut self) -> (r: Result<Option<Segment>, ParseError>)
        requires
            old(self).parser.wf(),
        ensures
            final(self).parser.wf(),
            final(self).parser.same_src(&old(self).parser),
            ({
                let s = old(self).parser.src();
                let p = old(self).parser.pos();
                if p < s.len() && s[p] == '*' {
                    r is Ok && (r->Ok_0 matches Some(seg) && seg@ == SegModel::Wildcard)
                        && final(self).parser.pos() == p + 1
                } else {
                    let e = ident_end(s, p);
                    if e == p {
                        r is Err
                    } else {
                        r is Ok && (r->Ok_0 matches Some(seg) && seg@ == (SegModel::Key {
                            k: s.subrange(p, e),
                        })) && final(self).parser.pos() == e
                    }
                }
            }),
    {
        if self.parser.consume_char('*') {
            return Ok(Some(Segment::Wildcard));
        }
        let k = match self.parser.parse_identifier() {
            Ok(k) => k,
            Err(e) => {
                return Err(e);
            },
        };
        Ok(Some(Segment::Key(k)))
    }

    /// Parses a bare wildcard or key directly after a recursive descent.
    fn parse_bare_segment(&mut self) -> (r: Result<Option<Segment>, ParseError>)
        requires
            old(self).parser.wf(),
        ensures
            final(self).parser.wf(),
            final(self).parser.same_src(&old(self).parser),
            ({
                let s = old(self).parser.src();
                let p = old(self).parser.pos();
                if p < s.len() && s[p] == '*' {
                    r is Ok && (r->Ok_0 matches Some(seg) && seg@ == SegModel::Wildcard)
                        && final(self).parser.pos() == p + 1
                } else if p < s.len() && is_ident_char(s[p]) {
                    let e = ident_end(s, p);
                    r is Ok && (r->Ok_0 matches Some(seg) && seg@ == (SegModel::Key {
                        k: s.subrange(p, e),
                    })) && final(self).parser.pos() == e && e > p
                } else {
                    r is Ok && r->Ok_0 is None && final(self).parser.pos() == p
                }
            }),
    {
        if self.parser.consume_char('*') {
            return Ok(Some(Segment::Wildcard));
        }
        let c0 = self.parser.peek_char();
        let is_id = match c0 {
            Some(c) => ident_char(c),
            None => false,
        };
        if is_id {
            proof {
                let s = self.parser.src();
                let p = self.parser.pos();
                assert(ident_end(s, p) == ident_end(s, p + 1));
                lemma_ident_end(s, p + 1);
                assert(ident_end(s, p) > p);
            }
            let k = match self.parser.parse_identifier() {
                Ok(k) => k,
                Err(e) => {
                    return Err(e);
                },
            };
            return Ok(Some(Segment::Key(k)));
        }
        Ok(None)
    }

    /// Parses the next segment, or `None` at the first unrecognized
    /// character. `prev_rec` says whether the segment before was a
    /// recursive descent, after which a bare key or `*` is accepted.
    #[verifier::rlimit(100)]
    #[verifier::spinoff_prover]
    fn parse_next_segment(&mut self, prev_rec: bool) -> (r: Result<Option<Segment>, ParseError>)
        requires
            old(self).parser.wf(),
        ensures
            final(self).parser.wf(),
            final(self).parser.same_src(&old(self).parser),
            match sp_next(old(self).parser.src(), old(self).parser.pos(), prev_rec) {
                Some(Some((g, j2))) => r is Ok && (r->Ok_0 matches Some(seg) && seg@ == g) && final(self).parser.pos() == j2 && j2 > old(self).parser.pos(),
                Some(None) => r is Ok && r->Ok_0 is None && final(self).parser.pos() == old(
                    self,
                ).parser.pos(),
                None => r is Err,
            },
    {
        let ghost s = self.parser.src();
        proof {
            reveal_strlit("..");
            assert(".."@ =~= seq!['.', '.']);
        }
        if self.parser.peek_str("..") {
            self.parser.advance(2);
            return Ok(Some(Segment::Recursive));
        }
        if self.parser.consume_char('.') {
            return self.parse_dot_segment();
        }
        if self.parser.consume_char('[') {
            return self.parse_bracket_segment();
        }
        if prev_rec {
            return self.parse_bare_segment();
        }
        Ok(None)
    }

    /// Parses a whole path: `$`, then segments until the end of the
    /// input or the first unrecognized character.
    #[verifier::rlimit(100)]
    #[verifier::spinoff_prover]
    fn parse(&mut self) -> (r: Result<Path, ParseError>)
        requires
            old(self).parser.wf(),
            old(self).parser.pos() == 0,
        ensures
            final(self).parser.wf(),
            final(self).parser.same_src(&old(self).parser),
            match sp_path(old(self).parser.src()) {
                Some(m) => r is Ok && r->Ok_0@ == m,
                None => r is Err,
            },
    {
        let ghost s = self.parser.src();
        self.parser.skip_ws();
        if !self.parser.consume_char('$') {
            return Err(ParseError::InvalidSyntax(String::from_str("path must start with `$`")));
        }
        let mut segments: Vec<Segment> = Vec::new();
        segments.push(Segment::Root);
        proof {
            assert(seg_models(segments@) =~= seq![SegModel::Root]);
        }
        let mut prev_rec = false;
        let mut done = false;
        #[verifier::loop_isolation(false)]
        while !done
            invariant
                self.parser.wf(),
                self.parser.same_src(&old(self).parser),
                segments@.len() >= 1,
                !done ==> (match sp_segments(s, self.parser.pos(), prev_rec) {
                    Some(rest) => sp_path(s) == Some(seg_models(segments@) + rest),
                    None => sp_path(s) is None,
                }),
                done ==> sp_path(s) == Some(seg_models(segments@)),
            decreases self.parser.n - self.parser.i, (if done {
                0int
            } else {
                1int
            }),
        {
            if self.parser.eof() {
                proof {
                    assert(sp_segments(s, self.parser.pos(), prev_rec) == Some(Seq::<
                        SegModel,
                    >::empty()));
                    assert(seg_models(segments@) + Seq::<SegModel>::empty() =~= seg_models(
                        segments@,
                    ));
                }
                done = true;
            } else {
                let ghost p_entry = self.parser.pos();
                self.parser.skip_ws();
                match self.parse_next_segment(prev_rec) {
                    Err(e) => {
                        return Err(e);
                    },
                    Ok(None) => {
                        proof {
                            assert(seg_models(segments@) + Seq::<SegModel>::empty() =~= seg_models(
                                segments@,
                            ));
                        }
                        done = true;
                    },
                    Ok(Some(seg)) => {
                        let ghost g = seg@;
                        let ghost m0 = seg_models(segments@);
                        prev_rec = match &seg {
                            Segment::Recursive => true,
                            _ => false,
                        };
                        segments.push(seg);
                        proof {
                            assert(seg_models(segments@) =~= m0 + seq![g]);
                            match sp_segments(s, self.parser.pos(), prev_rec) {
                                Some(rest) => {
                                    assert(m0 + (seq![g] + rest) =~= (m0 + seq![g]) + rest);
                                },
                                None => {},
                            }
                        }
                    },
                }
            }
        }
        Ok(Path { segments })
    }
}

/// Parses a path string into a path.
pub fn parse_path(input: &str) -> (r: Result<Path, ParseError>)
    ensures
        match sp_path(input@) {
            Some(m) => r is Ok && r->Ok_0@ == m,
            None => r is Err,
        },
{
    let mut p = PathParser::new(input);
    p.parse()
}

// --- the top-level entry points ---

/// The default substituted for an absent result.
pub open spec fn default_model(d: Option<JsonValue>) -> ValModel {
    match d {
        Some(v) => v@,
        None => ValModel::Null,
    }
}

/// The result of evaluating a path text against a document: the default
/// (or null) when the path fails to parse or nothing matches; the match
/// itself when there is exactly one and it is an array (so selecting a
/// whole array does not nest it); otherwise the array of all matches.
pub open spec fn from_value_model(d: ValModel, path: Seq<char>, m: CmpMode, dflt: ValModel)
    -> ValModel {
    match sp_path(path) {
        None => dflt,
        Some(segs) => {
            let refs = eval_path_model(d, segs, m);
            if refs.len() == 0 {
                dflt
            } else if refs.len() == 1 && refs[0] is Arr {
                refs[0]
            } else {
                ValModel::Arr { elems: refs }
            }
        },
    }
}

/// The configured default value, or null.
fn default_value(ctx: &Context) -> (r: JsonValue)
    ensures
        r@ == default_model(ctx.default),
{
    match &ctx.default {
        Some(v) => deep_copy(v),
        None => JsonValue::Null,
    }
}

/// Copies the matched nodes into one array value.
fn materialize(refs: &Vec<&JsonValue>) -> (r: JsonValue)
    ensures
        r@ == (ValModel::Arr { elems: ref_models_of(refs@) }),
{
    let mut out: Vec<JsonValue> = Vec::new();
    let mut i: usize = 0;
    #[verifier::loop_isolation(false)]
    while i < refs.len()
        invariant
            0 <= i <= refs.len(),
            out@.len() == i,
            forall|j: int| 0 <= j < i ==> out@[j].model() == ref_models_of(refs@)[j],
        decreases refs.len() - i,
    {
        let c = deep_copy(refs[i]);
        out.push(c);
        i += 1;
    }
    proof {
        assert(models_of(out@) =~= ref_models_of(refs@));
    }
    JsonValue::Arr(out)
}

/// Evaluates a path text against a document under the given options.
pub fn from_value_with(data: &JsonValue, path: &str, ctx: &Context) -> (r: JsonValue)
    ensures
        r@ == from_value_model(data@, path@, ctx.mode, default_model(ctx.default)),
{
    let mut pp = PathParser::new(path);
    match pp.parse() {
        Err(_) => default_value(ctx),
        Ok(ast) => {
            let refs = eval_path_refs(data, &ast, ctx.mode);
            if refs.len() == 0 {
                default_value(ctx)
            } else {
                let is_single_arr = if refs.len() == 1 {
                    let first: &JsonValue = refs[0];
                    match first {
                        JsonValue::Arr(_) => true,
                        _ => false,
                    }
                } else {
                    false
                };
                if is_single_arr {
                    let first: &JsonValue = refs[0];
                    proof {
                        assert(ref_models_of(refs@)[0] == first@);
                    }
                    deep_copy(first)
                } else {
                    materialize(&refs)
                }
            }
        },
    }
}

/// Evaluates a path text against a document with the standard options:
/// case-sensitive comparison, null for an absent result.
pub fn from_value(data: &JsonValue, path: &str) -> (r: JsonValue)
    ensures
        r@ == from_value_model(data@, path@, CmpMode::CaseSensitive, ValModel::Null),
{
    let ctx = Context::new();
    from_value_with(data, path, &ctx)
}

/// Law: recursive descent is a pre-order walk; for an object or array
/// node the collected set starts with the node itself, and for a scalar
/// it is empty.
pub proof fn lemma_recursive_self_first(v: ValModel)
    ensures
        (v is Arr || v is Obj) ==> collect_desc(v).len() > 0 && collect_desc(v)[0] == v,
        !(v is Arr || v is Obj) ==> collect_desc(v).len() == 0,
{
    match v {
        ValModel::Arr { elems } => {
            assert(collect_desc(v)[0] == v);
        },
        ValModel::Obj { pairs } => {
            assert(collect_desc(v)[0] == v);
        },
        _ => {},
    }
}

/// Law: the root path `$` parses to the single root segment, and
/// evaluating that segment sequence against any document yields exactly
/// that document, under every comparison mode.
pub proof fn lemma_root_path_identity(d: ValModel, m: CmpMode)
    ensures
        sp_path(seq!['$']) == Some(seq![SegModel::Root]),
        eval_path_model(d, seq![SegModel::Root], m) == seq![d],
{
    let s = seq!['$'];
    assert(!crate::parser::is_ws_char('$'));
    assert(ws_end(s, 0) == 0);
    assert(s[0] == '$');
    assert(sp_segments(s, 1, false) == Some(Seq::<SegModel>::empty()));
    assert(seq![SegModel::Root] + Seq::<SegModel>::empty() =~= seq![SegModel::Root]);
    let segs = seq![SegModel::Root];
    assert(seg_apply(seq![d], segs[0], d, m) == seq![d]);
    assert(eval_segs(seq![d], segs, d, m, 1) == seq![d]);
    assert(eval_path_model(d, segs, m) == seq![d]);
}

} // verus!
