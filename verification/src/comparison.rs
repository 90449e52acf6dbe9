use vstd::prelude::*;
use vstd::string::StrSliceExecFns;
use crate::value::JsonValue;
use crate::value::ValModel;
use crate::text::json_text;
use crate::text::lex_cmp;
use crate::text::str_cmp;
use crate::text::to_json_text;
use crate::fold::lower_of;
use crate::fold::upper_of;
use crate::fold::lower_str;
use crate::fold::upper_str;
use crate::parser::sci_nanos;
use crate::parser::str_to_nanos;

verus! {

/// String comparison mode: compare as given, or fold both sides to one
/// case first.
#[derive(Debug, Clone, Copy, PartialEq, Eq)]
pub enum CmpMode {
    CaseSensitive,
    CaseFoldLower,
    CaseFoldUpper,
}

/// The text a string contributes to a comparison under a mode.
pub open spec fn fold_of(s: Seq<char>, m: CmpMode) -> Seq<char> {
    match m {
        CmpMode::CaseSensitive => s,
        CmpMode::CaseFoldLower => lower_of(s),
        CmpMode::CaseFoldUpper => upper_of(s),
    }
}

/// The sign of an integer: `-1`, `0`, or `1`.
pub open spec fn sgn(x: int) -> int {
    if x < 0 {
        -1
    } else if x == 0 {
        0
    } else {
        1
    }
}

/// Fallback ordering: the folded canonical texts of the two values,
/// compared lexicographically.
pub open spec fn text_cmp_model(a: ValModel, b: ValModel, m: CmpMode) -> int {
    lex_cmp(fold_of(json_text(a), m), fold_of(json_text(b), m))
}

/// The ordering class of two values: strings compare lexicographically
/// after case folding; numbers compare by value; booleans as 0 and 1; a
/// number against a string compares numerically when the string reads as
/// a number (the number is always the left operand of that comparison,
/// whichever side it stood on); every other pairing falls back to the
/// folded canonical texts.
pub open spec fn cmp_model(a: ValModel, b: ValModel, m: CmpMode) -> int {
    match (a, b) {
        (ValModel::Str { s: sa }, ValModel::Str { s: sb }) => lex_cmp(
            fold_of(sa, m),
            fold_of(sb, m),
        ),
        (ValModel::Num { n: na }, ValModel::Num { n: nb }) => sgn(na - nb),
        (ValModel::Bool { b: ba }, ValModel::Bool { b: bb }) => (if ba {
            1int
        } else {
            0int
        }) - (if bb {
            1int
        } else {
            0int
        }),
        (ValModel::Num { n: na }, ValModel::Str { s: sb }) => match sci_nanos(sb) {
            Some(d) => sgn(na - d),
            None => text_cmp_model(a, b, m),
        },
        (ValModel::Str { s: sa }, ValModel::Num { n: nb }) => match sci_nanos(sa) {
            Some(d) => sgn(nb - d),
            None => text_cmp_model(a, b, m),
        },
        _ => text_cmp_model(a, b, m),
    }
}

fn fold_string(s: &str, m: CmpMode) -> (r: String)
    ensures
        r@ == fold_of(s@, m),
{
    match m {
        CmpMode::CaseSensitive => s.to_owned(),
        CmpMode::CaseFoldLower => lower_str(s),
        CmpMode::CaseFoldUpper => upper_str(s),
    }
}

fn text_cmp(a: &JsonValue, b: &JsonValue, mode: CmpMode) -> (r: i32)
    ensures
        r as int == text_cmp_model(a@, b@, mode),
        -1 <= r <= 1,
{
    let ta = to_json_text(a);
    let tb = to_json_text(b);
    let fa = fold_string(ta.as_str(), mode);
    let fb = fold_string(tb.as_str(), mode);
    str_cmp(fa.as_str(), fb.as_str())
}

/// Compares two values under the given mode, returning their ordering
/// class `-1`, `0`, or `1`.
pub fn cmp_values(a: &JsonValue, b: &JsonValue, mode: CmpMode) -> (r: i32)
    ensures
        r as int == cmp_model(a@, b@, mode),
        -1 <= r <= 1,
{
    match (a, b) {
        (JsonValue::Str(x), JsonValue::Str(y)) => {
            let fa = fold_string(x.as_str(), mode);
            let fb = fold_string(y.as_str(), mode);
            str_cmp(fa.as_str(), fb.as_str())
        },
        (JsonValue::Num(x), JsonValue::Num(y)) => {
            if *x < *y {
                -1
            } else if *x > *y {
                1
            } else {
                0
            }
        },
        (JsonValue::Bool(x), JsonValue::Bool(y)) => {
            (if *x {
                1i32
            } else {
                0i32
            }) - (if *y {
                1i32
            } else {
                0i32
            })
        },
        (JsonValue::Num(x), JsonValue::Str(y)) => {
            match str_to_nanos(y.as_str()) {
                Some(d) => {
                    if *x < d {
                        -1
                    } else if *x > d {
                        1
                    } else {
                        0
                    }
                },
                None => text_cmp(a, b, mode),
            }
        },
        (JsonValue::Str(x), JsonValue::Num(y)) => {
            match str_to_nanos(x.as_str()) {
                Some(d) => {
                    if *y < d {
                        -1
                    } else if *y > d {
                        1
                    } else {
                        0
                    }
                },
                None => text_cmp(a, b, mode),
            }
        },
        _ => text_cmp(a, b, mode),
    }
}

} // verus!
