use vstd::prelude::*;
use vstd::string::StrSliceExecFns;
use crate::value::JsonValue;
use crate::value::ValModel;
use crate::value::lemma_models_from;
use crate::value::lemma_pair_models_from;
use crate::parser::Parser;
use crate::parser::ws_end;
use crate::parser::ident_end;
use crate::parser::quoted_body;
use crate::parser::lemma_ws_end;
use crate::parser::lemma_ident_end;
use crate::parser::lemma_quoted_body;
use crate::filter::rem;
use crate::filter::next_pos;
use crate::text::str_eq;
use crate::engine::from_json;
use crate::engine::from_json_model;
use crate::engine::first;
use crate::engine::first_model;
use crate::engine::unique;
use crate::engine::unique_model;
use crate::engine::or_default;
use crate::engine::or_default_model;

verus! {

broadcast use
    vstd::std_specs::vec::group_vec_axioms,
    vstd::seq::axiom_seq_index_decreases,
    lemma_models_from,
    lemma_pair_models_from,
    lemma_ws_end,
    lemma_ident_end,
    lemma_quoted_body;

/// One node of the outer call-expression language: a function call with
/// arguments, or a quoted string.
#[derive(Debug)]
pub enum ENode {
    Call { name: String, args: Vec<ENode> },
    Str(String),
}

/// Model of an expression node.
pub enum ENodeModel {
    Call { name: Seq<char>, args: Seq<ENodeModel> },
    Str { s: Seq<char> },
}

impl ENode {
    pub open spec fn model(self) -> ENodeModel
        decreases self, 0int,
    {
        match self {
            ENode::Call { name, args } => ENodeModel::Call {
                name: name@,
                args: ENode::models_from(args@, 0),
            },
            ENode::Str(s) => ENodeModel::Str { s: s@ },
        }
    }

    pub open spec fn models_from(s: Seq<ENode>, i: int) -> Seq<ENodeModel>
        decreases s, s.len() - i,
    {
        if 0 <= i < s.len() {
            seq![s[i].model()] + ENode::models_from(s, i + 1)
        } else {
            Seq::empty()
        }
    }
}

impl View for ENode {
    type V = ENodeModel;

    open spec fn view(&self) -> ENodeModel {
        self.model()
    }
}

/// The models of a node sequence.
pub open spec fn enode_models(s: Seq<ENode>) -> Seq<ENodeModel> {
    ENode::models_from(s, 0)
}

pub broadcast proof fn lemma_enode_models_from(s: Seq<ENode>, i: int)
    requires
        0 <= i <= s.len(),
    ensures
        (#[trigger] ENode::models_from(s, i)).len() == s.len() - i,
        forall|j: int| 0 <= j < s.len() - i ==> ENode::models_from(s, i)[j] == s[i + j].model(),
    decreases s.len() - i,
{
    if i < s.len() {
        lemma_enode_models_from(s, i + 1);
    }
}

/// Errors of expression parsing.
#[derive(Debug)]
pub enum EParseErr {
    Invalid(String),
}

// --- parsing: model level ---

/// An expression node at position `i`: a quoted string, or a call
/// `name(args)`.
pub open spec fn sp_node(s: Seq<char>, i: int) -> Option<(ENodeModel, int)>
    decreases rem(s, i), 1int,
{
    let j = ws_end(s, i);
    if j < s.len() && (s[j] == '"' || s[j] == '\'') {
        match quoted_body(s, j + 1, s[j]) {
            Some((t, j2)) => Some((ENodeModel::Str { s: t }, j2)),
            None => None,
        }
    } else {
        let e = ident_end(s, j);
        if e == j {
            None
        } else {
            let name = s.subrange(j, e);
            let j2 = ws_end(s, e);
            if j2 < s.len() && s[j2] == '(' {
                match sp_args(s, j2 + 1) {
                    Some((args, j3)) => if j3 < s.len() && s[j3] == ')' {
                        Some((ENodeModel::Call { name, args }, j3 + 1))
                    } else {
                        None
                    },
                    None => None,
                }
            } else {
                None
            }
        }
    }
}

/// A comma-separated argument list; empty when `)` follows directly.
pub open spec fn sp_args(s: Seq<char>, i: int) -> Option<(Seq<ENodeModel>, int)>
    decreases rem(s, i), 3int,
{
    let j = ws_end(s, i);
    if j < s.len() && s[j] == ')' {
        Some((Seq::empty(), j))
    } else {
        sp_args_loop(s, Seq::empty(), j)
    }
}

/// The argument list continuation with the arguments seen so far.
pub open spec fn sp_args_loop(s: Seq<char>, acc: Seq<ENodeModel>, i: int) -> Option<
    (Seq<ENodeModel>, int),
>
    decreases rem(s, i), 2int,
{
    match sp_node(s, i) {
        None => None,
        Some((nd, jraw)) => {
            let j2 = next_pos(s, i, jraw);
            let k = ws_end(s, j2);
            if k < s.len() && s[k] == ',' {
                sp_args_loop(s, acc.push(nd), k + 1)
            } else {
                Some((acc.push(nd), k))
            }
        },
    }
}

/// A whole expression: one node, then only white space to the end.
pub open spec fn sp_expr(s: Seq<char>) -> Option<ENodeModel> {
    match sp_node(s, 0) {
        Some((nd, j)) => if ws_end(s, j) == s.len() {
            Some(nd)
        } else {
            None
        },
        None => None,
    }
}

// --- parsing: executable level ---

/// Scanner over an expression text.
pub struct EParser<'a> {
    pub p: Parser<'a>,
}

impl<'a> EParser<'a> {
    pub fn new(s: &'a str) -> (r: EParser<'a>)
        ensures
            r.p.wf(),
            r.p.src() == s@,
            r.p.pos() == 0,
    {
        EParser { p: Parser::new(s) }
    }

    pub fn peek_char(&self) -> (r: Option<char>)
        requires
            self.p.wf(),
        ensures
            match r {
                Some(c) => self.p.pos() < self.p.src().len() && c == self.p.src()[self.p.pos()],
                None => self.p.pos() == self.p.src().len(),
            },
    {
        self.p.peek_char()
    }

    pub fn consume_char(&mut self, c: char) -> (r: bool)
        requires
            old(self).p.wf(),
        ensures
            final(self).p.wf(),
            final(self).p.same_src(&old(self).p),
            r == (old(self).p.pos() < old(self).p.src().len() && old(self).p.src()[old(
                self,
            ).p.pos()] == c),
            final(self).p.pos() == if r {
                old(self).p.pos() + 1
            } else {
                old(self).p.pos()
            },
    {
        self.p.consume_char(c)
    }

    pub fn expect(&mut self, c: char) -> (r: Result<(), EParseErr>)
        requires
            old(self).p.wf(),
        ensures
            final(self).p.wf(),
            final(self).p.same_src(&old(self).p),
            r is Ok <==> (old(self).p.pos() < old(self).p.src().len() && old(self).p.src()[old(
                self,
            ).p.pos()] == c),
            final(self).p.pos() == if r is Ok {
                old(self).p.pos() + 1
            } else {
                old(self).p.pos()
            },
    {
        match self.p.expect(c) {
            Ok(u) => Ok(u),
            Err(crate::parser::ParseError::InvalidSyntax(m)) => Err(EParseErr::Invalid(m)),
        }
    }

    pub fn skip_ws(&mut self)
        requires
            old(self).p.wf(),
        ensures
            final(self).p.wf(),
            final(self).p.same_src(&old(self).p),
            final(self).p.pos() == ws_end(old(self).p.src(), old(self).p.pos()),
            old(self).p.pos() <= final(self).p.pos(),
    {
        self.p.skip_ws()
    }

    pub fn eof(&self) -> (r: bool)
        requires
            self.p.wf(),
        ensures
            r == (self.p.pos() == self.p.src().len()),
    {
        self.p.eof()
    }

    pub fn parse_ident(&mut self) -> (r: Result<String, EParseErr>)
        requires
            old(self).p.wf(),
        ensures
            final(self).p.wf(),
            final(self).p.same_src(&old(self).p),
            ({
                let e = ident_end(old(self).p.src(), old(self).p.pos());
                match r {
                    Ok(id) => e > old(self).p.pos() && id@ == old(self).p.src().subrange(
                        old(self).p.pos(),
                        e,
                    ) && final(self).p.pos() == e,
                    Err(_) => e == old(self).p.pos() && final(self).p.pos() == old(self).p.pos(),
                }
            }),
    {
        match self.p.parse_identifier() {
            Ok(id) => Ok(id),
            Err(crate::parser::ParseError::InvalidSyntax(m)) => Err(EParseErr::Invalid(m)),
        }
    }

    pub fn parse_string(&mut self) -> (r: Result<String, EParseErr>)
        requires
            old(self).p.wf(),
        ensures
            final(self).p.wf(),
            final(self).p.same_src(&old(self).p),
            old(self).p.pos() <= final(self).p.pos(),
            ({
                let s = old(self).p.src();
                let i0 = old(self).p.pos();
                if i0 < s.len() && (s[i0] == '\'' || s[i0] == '"') {
                    match quoted_body(s, i0 + 1, s[i0]) {
                        Some((t, j)) => r is Ok && r->Ok_0@ == t && final(self).p.pos() == j,
                        None => r is Err,
                    }
                } else {
                    r is Err && final(self).p.pos() == i0
                }
            }),
    {
        match self.p.parse_quoted_string() {
            Ok(t) => Ok(t),
            Err(crate::parser::ParseError::InvalidSyntax(m)) => Err(EParseErr::Invalid(m)),
        }
    }

    /// Parses one expression node.
    #[verifier::rlimit(100)]
    #[verifier::spinoff_prover]
    pub fn parse_node(&mut self) -> (r: Result<ENode, EParseErr>)
        requires
            old(self).p.wf(),
        ensures
            final(self).p.wf(),
            final(self).p.same_src(&old(self).p),
            old(self).p.pos() <= final(self).p.pos(),
            match sp_node(old(self).p.src(), old(self).p.pos()) {
                Some((m, j)) => r is Ok && r->Ok_0@ == m && final(self).p.pos() == j && j > old(
                    self,
                ).p.pos(),
                None => r is Err,
            },
        decreases old(self).p.n - old(self).p.i, 0int,
    {
        let ghost s = self.p.src();
        self.skip_ws();
        let c0 = self.peek_char();
        let is_quote = match c0 {
            Some(c) => c == '"' || c == '\'',
            None => false,
        };
        if is_quote {
            let t = match self.parse_string() {
                Ok(t) => t,
                Err(e) => {
                    return Err(e);
                },
            };
            return Ok(ENode::Str(t));
        }
        let name = match self.parse_ident() {
            Ok(n) => n,
            Err(e) => {
                return Err(e);
            },
        };
        self.skip_ws();
        match self.expect('(') {
            Ok(u) => u,
            Err(e) => {
                return Err(e);
            },
        };
        let args = match self.parse_args() {
            Ok(a) => a,
            Err(e) => {
                return Err(e);
            },
        };
        match self.expect(')') {
            Ok(u) => u,
            Err(e) => {
                return Err(e);
            },
        };
        Ok(ENode::Call { name, args })
    }

    /// Parses the comma-separated argument list of a call.
    #[verifier::rlimit(100)]
    #[verifier::spinoff_prover]
    pub fn parse_args(&mut self) -> (r: Result<Vec<ENode>, EParseErr>)
        requires
            old(self).p.wf(),
        ensures
            final(self).p.wf(),
            final(self).p.same_src(&old(self).p),
            old(self).p.pos() <= final(self).p.pos(),
            match sp_args(old(self).p.src(), old(self).p.pos()) {
                Some((ms, j)) => r is Ok && enode_models(r->Ok_0@) == ms && final(self).p.pos()
                    == j,
                None => r is Err,
            },
        decreases old(self).p.n - old(self).p.i, 1int,
    {
        broadcast use lemma_enode_models_from;

        let ghost s = self.p.src();
        let ghost i0 = self.p.pos();
        let mut out: Vec<ENode> = Vec::new();
        self.skip_ws();
        let c0 = self.peek_char();
        let at_close = match c0 {
            Some(c) => c == ')',
            None => false,
        };
        if at_close {
            proof {
                assert(enode_models(out@) =~= Seq::<ENodeModel>::empty());
            }
            return Ok(out);
        }
        let mut done = false;
        #[verifier::loop_isolation(false)]
        while !done
            invariant
                self.p.wf(),
                self.p.same_src(&old(self).p),
                i0 <= self.p.pos(),
                !done ==> sp_args(s, i0) == sp_args_loop(s, enode_models(out@), self.p.pos()),
                done ==> sp_args(s, i0) == Some((enode_models(out@), self.p.pos())),
            decreases self.p.n - self.p.i, (if done {
                0int
            } else {
                1int
            }),
        {
            let ghost acc0 = enode_models(out@);
            let nd = match self.parse_node() {
                Ok(n) => n,
                Err(e) => {
                    return Err(e);
                },
            };
            let ghost g = nd@;
            out.push(nd);
            proof {
                assert(enode_models(out@) =~= acc0.push(g));
            }
            self.skip_ws();
            if !self.consume_char(',') {
                done = true;
            }
        }
        Ok(out)
    }
}

/// Parses a whole expression text: one node, then the end of the input.
pub fn parse_expr(input: &str) -> (r: Result<ENode, EParseErr>)
    ensures
        match sp_expr(input@) {
            Some(m) => r is Ok && r->Ok_0@ == m,
            None => r is Err,
        },
{
    let mut p = EParser::new(input);
    let node = match p.parse_node() {
        Ok(n) => n,
        Err(e) => {
            return Err(e);
        },
    };
    p.skip_ws();
    if !p.eof() {
        return Err(EParseErr::Invalid(String::from_str("trailing input")));
    }
    Ok(node)
}

// --- evaluation ---

/// Whether the argument count matches what a built-in expects.
pub fn check_arg_count(args: &[ENode], expected: usize) -> (r: bool)
    ensures
        r == (args@.len() == expected),
{
    args.len() == expected
}

/// The string a value holds, if it is a string.
fn extract_string(value: JsonValue) -> (r: Option<String>)
    ensures
        match r {
            Some(s) => value@ matches ValModel::Str { s: t } && s@ == t,
            None => !(value@ is Str),
        },
{
    match value {
        JsonValue::Str(s) => Some(s),
        _ => None,
    }
}

/// The value of an expression node: a string literal is itself; the
/// built-ins `from_json`, `first`, `unique` and `or_default` apply to
/// their evaluated arguments; a wrong name, arity, or argument type
/// yields null.
pub open spec fn eval_ast_model(nd: ENodeModel) -> ValModel
    decreases nd,
{
    match nd {
        ENodeModel::Str { s } => ValModel::Str { s },
        ENodeModel::Call { name, args } => {
            if name == seq!['f', 'r', 'o', 'm', '_', 'j', 's', 'o', 'n'] {
                if args.len() != 2 {
                    ValModel::Null
                } else {
                    match (eval_ast_model(args[0]), eval_ast_model(args[1])) {
                        (ValModel::Str { s: a }, ValModel::Str { s: b }) => from_json_model(a, b),
                        _ => ValModel::Null,
                    }
                }
            } else if name == seq!['f', 'i', 'r', 's', 't'] {
                if args.len() != 1 {
                    ValModel::Null
                } else {
                    first_model(eval_ast_model(args[0]))
                }
            } else if name == seq!['u', 'n', 'i', 'q', 'u', 'e'] {
                if args.len() != 1 {
                    ValModel::Null
                } else {
                    unique_model(eval_ast_model(args[0]))
                }
            } else if name == seq!['o', 'r', '_', 'd', 'e', 'f', 'a', 'u', 'l', 't'] {
                if args.len() != 2 {
                    ValModel::Null
                } else {
                    match eval_ast_model(args[1]) {
                        ValModel::Str { s: d } => or_default_model(eval_ast_model(args[0]), d),
                        _ => ValModel::Null,
                    }
                }
            } else {
                ValModel::Null
            }
        },
    }
}

/// The built-in functions of the expression language.
enum Builtin {
    FromJson,
    First,
    Unique,
    OrDefault,
    Other,
}

/// Recognizes a built-in function name.
fn classify(name: &str) -> (r: Builtin)
    ensures
        (r is FromJson <==> name@ == seq!['f', 'r', 'o', 'm', '_', 'j', 's', 'o', 'n']),
        (r is First <==> name@ == seq!['f', 'i', 'r', 's', 't']),
        (r is Unique <==> name@ == seq!['u', 'n', 'i', 'q', 'u', 'e']),
        (r is OrDefault <==> name@ == seq!['o', 'r', '_', 'd', 'e', 'f', 'a', 'u', 'l', 't']),
{
    proof {
        reveal_strlit("from_json");
        reveal_strlit("first");
        reveal_strlit("unique");
        reveal_strlit("or_default");
        assert("from_json"@ =~= seq!['f', 'r', 'o', 'm', '_', 'j', 's', 'o', 'n']);
        assert("first"@ =~= seq!['f', 'i', 'r', 's', 't']);
        assert("unique"@ =~= seq!['u', 'n', 'i', 'q', 'u', 'e']);
        assert("or_default"@ =~= seq!['o', 'r', '_', 'd', 'e', 'f', 'a', 'u', 'l', 't']);
    }
    if str_eq(name, "from_json") {
        Builtin::FromJson
    } else if str_eq(name, "first") {
        Builtin::First
    } else if str_eq(name, "unique") {
        Builtin::Unique
    } else if str_eq(name, "or_default") {
        Builtin::OrDefault
    } else {
        Builtin::Other
    }
}

/// Applies `from_json` to two evaluated arguments: both must be
/// strings, else the result is null.
fn apply_from_json(v0: JsonValue, v1: JsonValue) -> (r: JsonValue)
    ensures
        r@ == (match (v0@, v1@) {
            (ValModel::Str { s: a }, ValModel::Str { s: b }) => from_json_model(a, b),
            _ => ValModel::Null,
        }),
{
    let json_s = match extract_string(v0) {
        Some(s) => s,
        None => {
            return JsonValue::Null;
        },
    };
    let path_s = match extract_string(v1) {
        Some(s) => s,
        None => {
            return JsonValue::Null;
        },
    };
    from_json(json_s.as_str(), path_s.as_str())
}

/// Applies `or_default` to two evaluated arguments: the default must be
/// a string, else the result is null.
fn apply_or_default(v0: JsonValue, v1: JsonValue) -> (r: JsonValue)
    ensures
        r@ == (match v1@ {
            ValModel::Str { s: d } => or_default_model(v0@, d),
            _ => ValModel::Null,
        }),
{
    let d = match extract_string(v1) {
        Some(s) => s,
        None => {
            return JsonValue::Null;
        },
    };
    or_default(&v0, d.as_str())
}

/// Evaluates an expression node.
#[verifier::rlimit(100)]
#[verifier::spinoff_prover]
pub fn eval_ast(node: &ENode) -> (r: JsonValue)
    ensures
        r@ == eval_ast_model(node@),
    decreases node,
{
    broadcast use lemma_enode_models_from;

    match node {
        ENode::Str(s) => JsonValue::Str(s.clone()),
        ENode::Call { name, args } => {
            proof {
                assert(node@ matches ENodeModel::Call { name: nm, args: am } && nm == name@ && am
                    == enode_models(args@));
                assert(enode_models(args@).len() == args@.len());
            }
            match classify(name.as_str()) {
                Builtin::FromJson => {
                    if !check_arg_count(args.as_slice(), 2) {
                        return JsonValue::Null;
                    }
                    let v0 = eval_ast(&args[0]);
                    let v1 = eval_ast(&args[1]);
                    apply_from_json(v0, v1)
                },
                Builtin::First => {
                    if !check_arg_count(args.as_slice(), 1) {
                        return JsonValue::Null;
                    }
                    let v0 = eval_ast(&args[0]);
                    first(&v0)
                },
                Builtin::Unique => {
                    if !check_arg_count(args.as_slice(), 1) {
                        return JsonValue::Null;
                    }
                    let v0 = eval_ast(&args[0]);
                    unique(&v0)
                },
                Builtin::OrDefault => {
                    if !check_arg_count(args.as_slice(), 2) {
                        return JsonValue::Null;
                    }
                    let v0 = eval_ast(&args[0]);
                    let v1 = eval_ast(&args[1]);
                    apply_or_default(v0, v1)
                },
                Builtin::Other => JsonValue::Null,
            }
        },
    }
}

} // verus!
