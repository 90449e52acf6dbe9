use vstd::prelude::*;
use vstd::string::StrSliceExecFns;
use crate::value::JsonValue;
use crate::value::ValModel;
use crate::value::models_of;
use crate::value::lemma_models_from;
use crate::value::lemma_pair_models_from;
use crate::parser::push_char;

verus! {

broadcast use vstd::std_specs::vec::group_vec_axioms, vstd::seq::axiom_seq_index_decreases;

// --- decimal digits of numbers ---

/// The character for one decimal digit.
pub open spec fn digit_to_char(d: int) -> char {
    ((48 + d) as u8) as char
}

/// The decimal digits of a non-negative integer, most significant first.
pub open spec fn dec_digits(u: int) -> Seq<char>
    decreases u,
{
    if u < 10 {
        seq![digit_to_char(if u >= 0 {
            u % 10
        } else {
            0
        })]
    } else {
        dec_digits(u / 10) + seq![digit_to_char(u % 10)]
    }
}

/// Exactly `k` zero-padded digits of `fr`.
pub open spec fn full_digits(fr: int, k: int) -> Seq<char>
    decreases k,
{
    if k <= 0 {
        Seq::empty()
    } else {
        full_digits(fr / 10, k - 1) + seq![digit_to_char(fr % 10)]
    }
}

/// `k` zero-padded digits of `fr` with the trailing zeros stripped.
pub open spec fn strip_digits(fr: int, k: int) -> Seq<char>
    decreases k,
{
    if k <= 0 {
        Seq::empty()
    } else if fr % 10 == 0 {
        strip_digits(fr / 10, k - 1)
    } else {
        full_digits(fr, k)
    }
}

/// The canonical text of the number with magnitude `m` nano-units.
pub open spec fn mag_text(m: int) -> Seq<char> {
    dec_digits(m / 1_000_000_000) + if m % 1_000_000_000 == 0 {
        Seq::<char>::empty()
    } else {
        seq!['.'] + strip_digits(m % 1_000_000_000, 9)
    }
}

/// The canonical text of a number value given in nano-units.
pub open spec fn num_text(n: int) -> Seq<char> {
    if n < 0 {
        seq!['-'] + mag_text(-n)
    } else {
        mag_text(n)
    }
}

// --- string escaping ---

/// The character for one hexadecimal digit.
pub open spec fn hex_to_char(d: int) -> char {
    if d < 10 {
        digit_to_char(d)
    } else {
        ((87 + d) as u8) as char
    }
}

/// How one character is written inside a quoted JSON string.
pub open spec fn esc_json(c: char) -> Seq<char> {
    let u = c as u32;
    if c == '"' {
        seq!['\\', '"']
    } else if c == '\\' {
        seq!['\\', '\\']
    } else if u == 8 {
        seq!['\\', 'b']
    } else if u == 9 {
        seq!['\\', 't']
    } else if u == 10 {
        seq!['\\', 'n']
    } else if u == 12 {
        seq!['\\', 'f']
    } else if u == 13 {
        seq!['\\', 'r']
    } else if u < 32 {
        seq!['\\', 'u', '0', '0', hex_to_char(u as int / 16), hex_to_char(u as int % 16)]
    } else {
        seq![c]
    }
}

/// The escaped form of `s[i..]`.
pub open spec fn esc_all(s: Seq<char>, i: int) -> Seq<char>
    decreases s.len() - i,
{
    if 0 <= i < s.len() {
        esc_json(s[i]) + esc_all(s, i + 1)
    } else {
        Seq::empty()
    }
}

// --- the canonical text of a value ---

/// The canonical compact JSON text of a value.
pub open spec fn json_text(v: ValModel) -> Seq<char>
    decreases v, 1int,
{
    match v {
        ValModel::Null => seq!['n', 'u', 'l', 'l'],
        ValModel::Bool { b } => if b {
            seq!['t', 'r', 'u', 'e']
        } else {
            seq!['f', 'a', 'l', 's', 'e']
        },
        ValModel::Num { n } => num_text(n),
        ValModel::Str { s } => seq!['"'] + esc_all(s, 0) + seq!['"'],
        ValModel::Arr { elems } => seq!['['] + arr_text(elems, 0) + seq![']'],
        ValModel::Obj { pairs } => seq!['{'] + obj_text(pairs, 0) + seq!['}'],
    }
}

/// The comma-separated texts of `elems[i..]`, with a leading comma for `i > 0`.
pub open spec fn arr_text(elems: Seq<ValModel>, i: int) -> Seq<char>
    decreases elems, elems.len() - i, 0int,
{
    if 0 <= i < elems.len() {
        (if i > 0 {
            seq![',']
        } else {
            Seq::<char>::empty()
        }) + json_text(elems[i]) + arr_text(elems, i + 1)
    } else {
        Seq::empty()
    }
}

/// The comma-separated member texts of `pairs[i..]`, with a leading comma
/// for `i > 0`.
pub open spec fn obj_text(pairs: Seq<(Seq<char>, ValModel)>, i: int) -> Seq<char>
    decreases pairs, pairs.len() - i, 0int,
{
    if 0 <= i < pairs.len() {
        (if i > 0 {
            seq![',']
        } else {
            Seq::<char>::empty()
        }) + seq!['"'] + esc_all(pairs[i].0, 0) + seq!['"', ':'] + json_text(pairs[i].1)
            + obj_text(pairs, i + 1)
    } else {
        Seq::empty()
    }
}

// --- executable serialization ---

fn push_dec_digits(out: &mut String, u: u128)
    ensures
        final(out)@ == old(out)@ + dec_digits(u as int),
    decreases u,
{
    if u < 10 {
        push_char(out, ((48 + (u as u8)) as u8) as char);
    } else {
        proof {
            assert(u / 10 < u) by (nonlinear_arith)
                requires
                    u >= 10,
            ;
        }
        push_dec_digits(out, u / 10);
        let d = (u % 10) as u8;
        push_char(out, ((48 + d) as u8) as char);
        proof {
            assert(final(out)@ =~= old(out)@ + dec_digits(u as int));
        }
    }
}

fn push_full_digits(out: &mut String, fr: u128, k: u8)
    ensures
        final(out)@ == old(out)@ + full_digits(fr as int, k as int),
    decreases k,
{
    if k == 0 {
        proof {
            assert(final(out)@ =~= old(out)@ + full_digits(fr as int, 0));
        }
        return ;
    }
    push_full_digits(out, fr / 10, k - 1);
    let d = (fr % 10) as u8;
    push_char(out, ((48 + d) as u8) as char);
    proof {
        assert(final(out)@ =~= old(out)@ + full_digits(fr as int, k as int));
    }
}

fn push_strip_digits(out: &mut String, fr: u128, k: u8)
    ensures
        final(out)@ == old(out)@ + strip_digits(fr as int, k as int),
    decreases k,
{
    if k == 0 {
        proof {
            assert(final(out)@ =~= old(out)@ + strip_digits(fr as int, 0));
        }
        return ;
    }
    if fr % 10 == 0 {
        push_strip_digits(out, fr / 10, k - 1);
    } else {
        push_full_digits(out, fr, k);
    }
}

fn push_num_text(out: &mut String, n: i128)
    ensures
        final(out)@ == old(out)@ + num_text(n as int),
{
    let mag: u128 = if n < 0 {
        push_char(out, '-');
        ((-(n + 1)) as u128) + 1
    } else {
        n as u128
    };
    proof {
        assert(mag as int == if n < 0 {
            -(n as int)
        } else {
            n as int
        });
    }
    let ghost mid = out@;
    let units = mag / 1_000_000_000u128;
    let fr = mag % 1_000_000_000u128;
    push_dec_digits(out, units);
    if fr != 0 {
        push_char(out, '.');
        push_strip_digits(out, fr, 9);
    }
    proof {
        assert(final(out)@ =~= old(out)@ + num_text(n as int));
    }
}

fn push_esc(out: &mut String, c: char)
    ensures
        final(out)@ == old(out)@ + esc_json(c),
{
    let u = c as u32;
    if c == '"' {
        push_char(out, '\\');
        push_char(out, '"');
    } else if c == '\\' {
        push_char(out, '\\');
        push_char(out, '\\');
    } else if u == 8 {
        push_char(out, '\\');
        push_char(out, 'b');
    } else if u == 9 {
        push_char(out, '\\');
        push_char(out, 't');
    } else if u == 10 {
        push_char(out, '\\');
        push_char(out, 'n');
    } else if u == 12 {
        push_char(out, '\\');
        push_char(out, 'f');
    } else if u == 13 {
        push_char(out, '\\');
        push_char(out, 'r');
    } else if u < 32 {
        push_char(out, '\\');
        push_char(out, 'u');
        push_char(out, '0');
        push_char(out, '0');
        let hi = (u / 16) as u8;
        let lo = (u % 16) as u8;
        push_char(
            out,
            if hi < 10 {
                (48 + hi) as char
            } else {
                (87 + hi) as char
            },
        );
        push_char(
            out,
            if lo < 10 {
                (48 + lo) as char
            } else {
                (87 + lo) as char
            },
        );
    } else {
        push_char(out, c);
    }
    proof {
        assert(final(out)@ =~= old(out)@ + esc_json(c));
    }
}

fn push_esc_str(out: &mut String, s: &str)
    ensures
        final(out)@ == old(out)@ + esc_all(s@, 0),
{
    let n = s.unicode_len();
    let mut j: usize = 0;
    #[verifier::loop_isolation(false)]
    while j < n
        invariant
            j <= n,
            out@ + esc_all(s@, j as int) == old(out)@ + esc_all(s@, 0),
        decreases n - j,
    {
        let ghost pre = out@;
        let c = s.get_char(j);
        push_esc(out, c);
        proof {
            assert(pre + (esc_json(c) + esc_all(s@, j + 1)) =~= (pre + esc_json(c)) + esc_all(
                s@,
                j + 1,
            ));
        }
        j += 1;
    }
    proof {
        assert(out@ + esc_all(s@, n as int) =~= out@);
    }
}

#[verifier::rlimit(100)]
#[verifier::spinoff_prover]
fn push_json_text(out: &mut String, v: &JsonValue)
    ensures
        final(out)@ == old(out)@ + json_text(v@),
    decreases v,
{
    broadcast use lemma_models_from, lemma_pair_models_from;

    match v {
        JsonValue::Null => {
            push_char(out, 'n');
            push_char(out, 'u');
            push_char(out, 'l');
            push_char(out, 'l');
            proof {
                assert(final(out)@ =~= old(out)@ + json_text(v@));
            }
        },
        JsonValue::Bool(b) => {
            if *b {
                push_char(out, 't');
                push_char(out, 'r');
                push_char(out, 'u');
                push_char(out, 'e');
            } else {
                push_char(out, 'f');
                push_char(out, 'a');
                push_char(out, 'l');
                push_char(out, 's');
                push_char(out, 'e');
            }
            proof {
                assert(final(out)@ =~= old(out)@ + json_text(v@));
            }
        },
        JsonValue::Num(n) => {
            push_num_text(out, *n);
        },
        JsonValue::Str(s) => {
            push_char(out, '"');
            push_esc_str(out, s.as_str());
            push_char(out, '"');
            proof {
                assert(final(out)@ =~= old(out)@ + json_text(v@));
            }
        },
        JsonValue::Arr(elems) => {
            let ghost em = models_of(elems@);
            let ghost base = out@ + seq!['['];
            push_char(out, '[');
            let mut i: usize = 0;
            #[verifier::loop_isolation(false)]
            while i < elems.len()
                invariant
                    i <= elems.len(),
                    out@ + arr_text(em, i as int) == base + arr_text(em, 0),
                decreases elems.len() - i,
            {
                let ghost pre = out@;
                if i > 0 {
                    push_char(out, ',');
                }
                let ghost sep: Seq<char> = if i > 0 {
                    seq![',']
                } else {
                    Seq::empty()
                };
                push_json_text(out, &elems[i]);
                proof {
                    assert(em[i as int] == elems@[i as int].model());
                    assert(out@ =~= pre + (sep + json_text(em[i as int])));
                    assert(pre + (sep + json_text(em[i as int])) + arr_text(em, i + 1) =~= pre + (
                    (sep + json_text(em[i as int])) + arr_text(em, i + 1)));
                }
                i += 1;
            }
            proof {
                assert(out@ + arr_text(em, elems.len() as int) =~= out@);
            }
            push_char(out, ']');
            proof {
                assert(final(out)@ =~= old(out)@ + json_text(v@));
            }
        },
        JsonValue::Obj(pairs) => {
            let ghost pm = JsonValue::pair_models_from(pairs@, 0);
            let ghost base = out@ + seq!['{'];
            push_char(out, '{');
            let mut i: usize = 0;
            #[verifier::loop_isolation(false)]
            while i < pairs.len()
                invariant
                    i <= pairs.len(),
                    out@ + obj_text(pm, i as int) == base + obj_text(pm, 0),
                decreases pairs.len() - i,
            {
                let ghost pre = out@;
                if i > 0 {
                    push_char(out, ',');
                }
                let ghost sep: Seq<char> = if i > 0 {
                    seq![',']
                } else {
                    Seq::empty()
                };
                push_char(out, '"');
                push_esc_str(out, pairs[i].0.as_str());
                push_char(out, '"');
                push_char(out, ':');
                push_json_text(out, &pairs[i].1);
                proof {
                    assert(pm[i as int] == (pairs@[i as int].0@, pairs@[i as int].1.model()));
                    let piece = sep + seq!['"'] + esc_all(pm[i as int].0, 0) + seq!['"', ':']
                        + json_text(pm[i as int].1);
                    assert(out@ =~= pre + piece);
                    assert(pre + piece + obj_text(pm, i + 1) =~= pre + (piece + obj_text(
                        pm,
                        i + 1,
                    )));
                }
                i += 1;
            }
            proof {
                assert(out@ + obj_text(pm, pairs.len() as int) =~= out@);
            }
            push_char(out, '}');
            proof {
                assert(final(out)@ =~= old(out)@ + json_text(v@));
            }
        },
    }
}

/// The canonical compact JSON text of a value, as a string.
pub fn to_json_text(v: &JsonValue) -> (r: String)
    ensures
        r@ == json_text(v@),
{
    let mut out = String::new();
    push_json_text(&mut out, v);
    proof {
        assert(out@ =~= json_text(v@));
    }
    out
}

// --- lexicographic comparison ---

/// Lexicographic order of two character sequences from position `i` on,
/// by code point: `-1`, `0`, or `1`.
pub open spec fn lex_cmp_from(a: Seq<char>, b: Seq<char>, i: int) -> int
    decreases a.len() - i,
{
    if i >= a.len() && i >= b.len() {
        0
    } else if i >= a.len() {
        -1
    } else if i >= b.len() {
        1
    } else if (a[i] as u32) < (b[i] as u32) {
        -1
    } else if (a[i] as u32) > (b[i] as u32) {
        1
    } else {
        lex_cmp_from(a, b, i + 1)
    }
}

/// Lexicographic order of two character sequences, by code point.
pub open spec fn lex_cmp(a: Seq<char>, b: Seq<char>) -> int {
    lex_cmp_from(a, b, 0)
}

/// Compares two strings lexicographically by code point.
pub fn str_cmp(a: &str, b: &str) -> (r: i32)
    ensures
        r as int == lex_cmp(a@, b@),
        -1 <= r <= 1,
{
    let na = a.unicode_len();
    let nb = b.unicode_len();
    let mut i: usize = 0;
    #[verifier::loop_isolation(false)]
    while i < na && i < nb
        invariant
            i <= na && i <= nb,
            lex_cmp(a@, b@) == lex_cmp_from(a@, b@, i as int),
        decreases na - i,
    {
        let ca = a.get_char(i) as u32;
        let cb = b.get_char(i) as u32;
        if ca < cb {
            return -1;
        }
        if ca > cb {
            return 1;
        }
        i += 1;
    }
    if na == nb {
        0
    } else if na < nb {
        -1
    } else {
        1
    }
}


/// Decides whether two strings hold the same characters.
pub fn str_eq(a: &str, b: &str) -> (r: bool)
    ensures
        r == (a@ == b@),
{
    let na = a.unicode_len();
    let nb = b.unicode_len();
    if na != nb {
        return false;
    }
    let mut i: usize = 0;
    #[verifier::loop_isolation(false)]
    while i < na
        invariant
            0 <= i <= na,
            forall|k: int| 0 <= k < i ==> a@[k] == b@[k],
        decreases na - i,
    {
        if a.get_char(i) != b.get_char(i) {
            return false;
        }
        i += 1;
    }
    proof {
        assert(a@ =~= b@);
    }
    true
}

} // verus!
