use vstd::prelude::*;

verus! {

broadcast use vstd::std_specs::vec::group_vec_axioms, vstd::seq::axiom_seq_index_decreases;

/// Mathematical model of a JSON document value.
///
/// Numbers are modelled as an integer count of nano-units: the number
/// `x` is represented by `n` with `x == n / 1_000_000_000`. Fractional
/// digits beyond the ninth are truncated when a document is loaded, and
/// magnitudes are saturated at `num_cap()` nano-units.
pub enum ValModel {
    Null,
    Bool { b: bool },
    Num { n: int },
    Str { s: Seq<char> },
    Arr { elems: Seq<ValModel> },
    Obj { pairs: Seq<(Seq<char>, ValModel)> },
}

/// A JSON document value: the input documents and the results of path
/// evaluation are values of this type. Object member order is the
/// insertion order of the document; keys are expected to be unique but
/// lookups take the first binding when they are not.
#[derive(Debug, PartialEq)]
pub enum JsonValue {
    Null,
    Bool(bool),
    /// A number, as a count of nano-units: `Num(n)` is the number `n / 10^9`.
    Num(i128),
    Str(String),
    Arr(Vec<JsonValue>),
    Obj(Vec<(String, JsonValue)>),
}

/// Nano-units in one unit: numbers carry nine decimal fraction digits.
pub const NANOS_PER_UNIT: i128 = 1_000_000_000;

/// Saturation bound for number magnitudes, in nano-units.
pub open spec fn num_cap() -> int {
    1_000_000_000_000_000_000_000_000_000_000_000_000int
}

impl JsonValue {
    pub open spec fn model(self) -> ValModel
        decreases self, 0int,
    {
        match self {
            JsonValue::Null => ValModel::Null,
            JsonValue::Bool(b) => ValModel::Bool { b },
            JsonValue::Num(n) => ValModel::Num { n: n as int },
            JsonValue::Str(s) => ValModel::Str { s: s@ },
            JsonValue::Arr(elems) => ValModel::Arr { elems: JsonValue::models_from(elems@, 0) },
            JsonValue::Obj(pairs) => ValModel::Obj { pairs: JsonValue::pair_models_from(pairs@, 0) },
        }
    }

    pub open spec fn models_from(s: Seq<JsonValue>, i: int) -> Seq<ValModel>
        decreases s, s.len() - i,
    {
        if 0 <= i < s.len() {
            seq![s[i].model()] + JsonValue::models_from(s, i + 1)
        } else {
            Seq::empty()
        }
    }

    pub open spec fn pair_models_from(s: Seq<(String, JsonValue)>, i: int) -> Seq<
        (Seq<char>, ValModel),
    >
        decreases s, s.len() - i,
    {
        if 0 <= i < s.len() {
            seq![(s[i].0@, s[i].1.model())] + JsonValue::pair_models_from(s, i + 1)
        } else {
            Seq::empty()
        }
    }
}

impl View for JsonValue {
    type V = ValModel;

    open spec fn view(&self) -> ValModel {
        self.model()
    }
}

/// The models of a sequence of values, element by element.
pub open spec fn models_of(s: Seq<JsonValue>) -> Seq<ValModel> {
    JsonValue::models_from(s, 0)
}

/// The models of a sequence of borrowed values, element by element.
pub open spec fn ref_models_from(s: Seq<&JsonValue>, i: int) -> Seq<ValModel>
    decreases s.len() - i,
{
    if 0 <= i < s.len() {
        seq![s[i].model()] + ref_models_from(s, i + 1)
    } else {
        Seq::empty()
    }
}

pub open spec fn ref_models_of(s: Seq<&JsonValue>) -> Seq<ValModel> {
    ref_models_from(s, 0)
}

pub broadcast proof fn lemma_models_from(s: Seq<JsonValue>, i: int)
    requires
        0 <= i <= s.len(),
    ensures
        (#[trigger] JsonValue::models_from(s, i)).len() == s.len() - i,
        forall|j: int|
            0 <= j < s.len() - i ==> JsonValue::models_from(s, i)[j] == s[i + j].model(),
    decreases s.len() - i,
{
    if i < s.len() {
        lemma_models_from(s, i + 1);
    }
}

pub broadcast proof fn lemma_pair_models_from(s: Seq<(String, JsonValue)>, i: int)
    requires
        0 <= i <= s.len(),
    ensures
        (#[trigger] JsonValue::pair_models_from(s, i)).len() == s.len() - i,
        forall|j: int|
            0 <= j < s.len() - i ==> JsonValue::pair_models_from(s, i)[j] == (
                s[i + j].0@,
                s[i + j].1.model(),
            ),
    decreases s.len() - i,
{
    if i < s.len() {
        lemma_pair_models_from(s, i + 1);
    }
}

pub broadcast proof fn lemma_ref_models_from(s: Seq<&JsonValue>, i: int)
    requires
        0 <= i <= s.len(),
    ensures
        (#[trigger] ref_models_from(s, i)).len() == s.len() - i,
        forall|j: int| 0 <= j < s.len() - i ==> ref_models_from(s, i)[j] == s[i + j].model(),
    decreases s.len() - i,
{
    if i < s.len() {
        lemma_ref_models_from(s, i + 1);
    }
}

impl JsonValue {
    /// The value of a whole number: `from_int(i)` is the number `i`.
    pub fn from_int(i: i64) -> (r: JsonValue)
        ensures
            r@ == (ValModel::Num { n: i * 1_000_000_000int }),
    {
        JsonValue::Num((i as i128) * NANOS_PER_UNIT)
    }
}

/// Structural equality of two values, decided recursively.
pub fn deep_eq(a: &JsonValue, b: &JsonValue) -> (r: bool)
    ensures
        r == (a@ == b@),
    decreases a,
{
    broadcast use lemma_models_from, lemma_pair_models_from;

    match (a, b) {
        (JsonValue::Null, JsonValue::Null) => true,
        (JsonValue::Bool(x), JsonValue::Bool(y)) => x == y,
        (JsonValue::Num(x), JsonValue::Num(y)) => x == y,
        (JsonValue::Str(x), JsonValue::Str(y)) => *x == *y,
        (JsonValue::Arr(xs), JsonValue::Arr(ys)) => {
            let xm = Ghost(models_of(xs@));
            let ym = Ghost(models_of(ys@));
            if xs.len() != ys.len() {
                proof {
                    assert(xm@.len() != ym@.len());
                }
                false
            } else {
                let mut i: usize = 0;
                let mut same = true;
                #[verifier::loop_isolation(false)]
                while i < xs.len()
                    invariant
                        0 <= i <= xs.len(),
                        same <==> forall|j: int| 0 <= j < i ==> xm@[j] == ym@[j],
                    decreases xs.len() - i,
                {
                    let e = deep_eq(&xs[i], &ys[i]);
                    proof {
                        assert(xm@[i as int] == xs@[i as int].model());
                        assert(ym@[i as int] == ys@[i as int].model());
                    }
                    if !e {
                        same = false;
                    }
                    i += 1;
                }
                proof {
                    if same {
                        assert(xm@ =~= ym@);
                    } else {
                        assert(xm@ != ym@);
                    }
                }
                same
            }
        },
        (JsonValue::Obj(xs), JsonValue::Obj(ys)) => {
            let xm = Ghost(JsonValue::pair_models_from(xs@, 0));
            let ym = Ghost(JsonValue::pair_models_from(ys@, 0));
            if xs.len() != ys.len() {
                proof {
                    assert(xm@.len() != ym@.len());
                }
                false
            } else {
                let mut i: usize = 0;
                let mut same = true;
                #[verifier::loop_isolation(false)]
                while i < xs.len()
                    invariant
                        0 <= i <= xs.len(),
                        same <==> forall|j: int| 0 <= j < i ==> xm@[j] == ym@[j],
                    decreases xs.len() - i,
                {
                    let keys_eq = xs[i].0 == ys[i].0;
                    let vals_eq = deep_eq(&xs[i].1, &ys[i].1);
                    if !(keys_eq && vals_eq) {
                        proof {
                            assert(xm@[i as int] != ym@[i as int]);
                        }
                        same = false;
                    } else {
                        proof {
                            assert(xm@[i as int] == ym@[i as int]);
                        }
                    }
                    i += 1;
                }
                proof {
                    if same {
                        assert(xm@ =~= ym@);
                    } else {
                        assert(xm@ != ym@);
                    }
                }
                same
            }
        },
        _ => {
            proof {
                assert(a@ != b@);
            }
            false
        },
    }
}

/// A structural copy of a value, with the same model.
pub fn deep_copy(v: &JsonValue) -> (r: JsonValue)
    ensures
        r@ == v@,
    decreases v,
{
    broadcast use lemma_models_from, lemma_pair_models_from;

    match v {
        JsonValue::Null => JsonValue::Null,
        JsonValue::Bool(b) => JsonValue::Bool(*b),
        JsonValue::Num(n) => JsonValue::Num(*n),
        JsonValue::Str(s) => JsonValue::Str(s.clone()),
        JsonValue::Arr(elems) => {
            let mut out: Vec<JsonValue> = Vec::new();
            let mut i: usize = 0;
            #[verifier::loop_isolation(false)]
            while i < elems.len()
                invariant
                    0 <= i <= elems.len(),
                    out@.len() == i,
                    forall|j: int| 0 <= j < i ==> out@[j].model() == elems@[j].model(),
                decreases elems.len() - i,
            {
                let c = deep_copy(&elems[i]);
                out.push(c);
                i += 1;
            }
            let r = JsonValue::Arr(out);
            proof {
                assert(models_of(out@) =~= models_of(elems@));
            }
            r
        },
        JsonValue::Obj(pairs) => {
            let mut out: Vec<(String, JsonValue)> = Vec::new();
            let mut i: usize = 0;
            #[verifier::loop_isolation(false)]
            while i < pairs.len()
                invariant
                    0 <= i <= pairs.len(),
                    out@.len() == i,
                    forall|j: int|
                        0 <= j < i ==> out@[j].0@ == pairs@[j].0@ && out@[j].1.model()
                            == pairs@[j].1.model(),
                decreases pairs.len() - i,
            {
                let k = pairs[i].0.clone();
                let c = deep_copy(&pairs[i].1);
                out.push((k, c));
                i += 1;
            }
            let r = JsonValue::Obj(out);
            proof {
                assert(JsonValue::pair_models_from(out@, 0) =~= JsonValue::pair_models_from(pairs@, 0));
            }
            r
        },
    }
}

} // verus!
