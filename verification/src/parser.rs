//! Parser.
//!
//! Consumes the lexer's token stream and produces a sequence of statement
//! nodes by recursive descent. Parsing never fails outright: a token that
//! does not start a recognized statement is skipped, so stray lines do not
//! abort a whole run.
//!
//! Every function is pinned by a specification twin; [`parse`] returns
//! exactly the abstract syntax tree that [`spec_parse`] prescribes.

use vstd::prelude::*;
use vstd::string::StringExecFns;
use crate::lexer::{Token, Tok, toks_view};
use crate::text::string_of;

verus! {

#[derive(Debug, PartialEq)]
pub enum Expr {
    StringLit(String),
    Value(String),
    BinaryOp(Box<Expr>, BinaryOperator, Box<Expr>),
}

#[derive(Debug, PartialEq, Clone)]
pub enum BinaryOperator {
    Add,
    Sub,
    Mul,
    Div,
    Mod,
    Gt,
    Lt,
    Ge,
    Le,
    Eq,
    Ne,
}

#[derive(Debug, PartialEq)]
pub enum ASTNode {
    AIModel(String),
    Neuro(String),
    SetVar(String, Expr),
    SetVarFromAI(String, String),
    MacroCall(String),
    IfStatement {
        condition: BoolExpr,
        body: Vec<ASTNode>,
        elif_blocks: Vec<(BoolExpr, Vec<ASTNode>)>,
        else_body: Option<Vec<ASTNode>>,
    },
}

#[derive(Debug, PartialEq)]
pub enum BoolExpr {
    Equals(String, String),
    NotEquals(String, String),
    EqualsVar(String, String),
    NotEqualsVar(String, String),
    VarEqualsVar(String, String),
    VarNotEqualsVar(String, String),
    Greater(String, String),
    GreaterEqual(String, String),
    Less(String, String),
    LessEqual(String, String),
    And(Box<BoolExpr>, Box<BoolExpr>),
    Or(Box<BoolExpr>, Box<BoolExpr>),
}

// ---------------------------------------------------------------------------
// ghost images of the syntax tree
// ---------------------------------------------------------------------------

pub enum ExprS {
    StrLit(Seq<char>),
    Value(Seq<char>),
    Bin(Box<ExprS>, BinaryOperator, Box<ExprS>),
}

pub enum BoolS {
    Equals(Seq<char>, Seq<char>),
    NotEquals(Seq<char>, Seq<char>),
    EqualsVar(Seq<char>, Seq<char>),
    NotEqualsVar(Seq<char>, Seq<char>),
    VarEqualsVar(Seq<char>, Seq<char>),
    VarNotEqualsVar(Seq<char>, Seq<char>),
    Greater(Seq<char>, Seq<char>),
    GreaterEqual(Seq<char>, Seq<char>),
    Less(Seq<char>, Seq<char>),
    LessEqual(Seq<char>, Seq<char>),
    And(Box<BoolS>, Box<BoolS>),
    Or(Box<BoolS>, Box<BoolS>),
}

pub enum NodeS {
    AIModel(Seq<char>),
    Neuro(Seq<char>),
    SetVar(Seq<char>, ExprS),
    SetVarFromAI(Seq<char>, Seq<char>),
    MacroCall(Seq<char>),
    If { cond: BoolS, body: Seq<NodeS>, elifs: Seq<(BoolS, Seq<NodeS>)>, els: Option<Seq<NodeS>> },
}

pub open spec fn expr_view(e: Expr) -> ExprS
    decreases e,
{
    match e {
        Expr::StringLit(s) => ExprS::StrLit(s@),
        Expr::Value(s) => ExprS::Value(s@),
        Expr::BinaryOp(l, op, r) => ExprS::Bin(
            Box::new(expr_view(*l)),
            op,
            Box::new(expr_view(*r)),
        ),
    }
}

impl View for Expr {
    type V = ExprS;

    open spec fn view(&self) -> ExprS {
        expr_view(*self)
    }
}

pub open spec fn bool_view(b: BoolExpr) -> BoolS
    decreases b,
{
    match b {
        BoolExpr::Equals(a, c) => BoolS::Equals(a@, c@),
        BoolExpr::NotEquals(a, c) => BoolS::NotEquals(a@, c@),
        BoolExpr::EqualsVar(a, c) => BoolS::EqualsVar(a@, c@),
        BoolExpr::NotEqualsVar(a, c) => BoolS::NotEqualsVar(a@, c@),
        BoolExpr::VarEqualsVar(a, c) => BoolS::VarEqualsVar(a@, c@),
        BoolExpr::VarNotEqualsVar(a, c) => BoolS::VarNotEqualsVar(a@, c@),
        BoolExpr::Greater(a, c) => BoolS::Greater(a@, c@),
        BoolExpr::GreaterEqual(a, c) => BoolS::GreaterEqual(a@, c@),
        BoolExpr::Less(a, c) => BoolS::Less(a@, c@),
        BoolExpr::LessEqual(a, c) => BoolS::LessEqual(a@, c@),
        BoolExpr::And(l, r) => BoolS::And(Box::new(bool_view(*l)), Box::new(bool_view(*r))),
        BoolExpr::Or(l, r) => BoolS::Or(Box::new(bool_view(*l)), Box::new(bool_view(*r))),
    }
}

impl View for BoolExpr {
    type V = BoolS;

    open spec fn view(&self) -> BoolS {
        bool_view(*self)
    }
}

pub open spec fn node_view(n: ASTNode) -> NodeS
    decreases n,
{
    match n {
        ASTNode::AIModel(s) => NodeS::AIModel(s@),
        ASTNode::Neuro(s) => NodeS::Neuro(s@),
        ASTNode::SetVar(v, e) => NodeS::SetVar(v@, expr_view(e)),
        ASTNode::SetVarFromAI(v, p) => NodeS::SetVarFromAI(v@, p@),
        ASTNode::MacroCall(s) => NodeS::MacroCall(s@),
        ASTNode::IfStatement { condition, body, elif_blocks, else_body } => NodeS::If {
            cond: bool_view(condition),
            body: nodes_view(body@),
            elifs: elifs_view(elif_blocks@),
            els: match else_body {
                Some(b) => Some(nodes_view(b@)),
                None => None,
            },
        },
    }
}

pub open spec fn nodes_view(v: Seq<ASTNode>) -> Seq<NodeS>
    decreases v,
{
    if v.len() == 0 {
        Seq::empty()
    } else {
        seq![node_view(v[0])] + nodes_view(v.drop_first())
    }
}

pub open spec fn elifs_view(p: Seq<(BoolExpr, Vec<ASTNode>)>) -> Seq<(BoolS, Seq<NodeS>)>
    decreases p,
{
    if p.len() == 0 {
        Seq::empty()
    } else {
        seq![(bool_view(p[0].0), nodes_view(p[0].1@))] + elifs_view(p.drop_first())
    }
}

impl View for ASTNode {
    type V = NodeS;

    open spec fn view(&self) -> NodeS {
        node_view(*self)
    }
}

pub proof fn lemma_nodes_view_len(v: Seq<ASTNode>)
    ensures
        nodes_view(v).len() == v.len(),
    decreases v,
{
    if v.len() > 0 {
        lemma_nodes_view_len(v.drop_first());
    }
}

pub proof fn lemma_nodes_view_index(v: Seq<ASTNode>, i: int)
    requires
        0 <= i < v.len(),
    ensures
        nodes_view(v).len() == v.len(),
        nodes_view(v)[i] == node_view(v[i]),
    decreases v,
{
    lemma_nodes_view_len(v);
    if i == 0 {
    } else {
        lemma_nodes_view_index(v.drop_first(), i - 1);
        assert(v.drop_first()[i - 1] == v[i]);
    }
}

pub proof fn lemma_elifs_view_len(v: Seq<(BoolExpr, Vec<ASTNode>)>)
    ensures
        elifs_view(v).len() == v.len(),
    decreases v,
{
    if v.len() > 0 {
        lemma_elifs_view_len(v.drop_first());
    }
}

pub proof fn lemma_elifs_view_index(v: Seq<(BoolExpr, Vec<ASTNode>)>, i: int)
    requires
        0 <= i < v.len(),
    ensures
        elifs_view(v).len() == v.len(),
        elifs_view(v)[i] == (bool_view(v[i].0), nodes_view(v[i].1@)),
    decreases v,
{
    lemma_elifs_view_len(v);
    if i == 0 {
    } else {
        lemma_elifs_view_index(v.drop_first(), i - 1);
        assert(v.drop_first()[i - 1] == v[i]);
    }
}

pub proof fn lemma_nodes_view_push(v: Seq<ASTNode>, n: ASTNode)
    ensures
        nodes_view(v.push(n)) == nodes_view(v) + seq![node_view(n)],
    decreases v,
{
    if v.len() == 0 {
        assert(v.push(n).drop_first() =~= Seq::<ASTNode>::empty());
        assert(v.push(n)[0] == n);
        assert(nodes_view(Seq::<ASTNode>::empty()) == Seq::<NodeS>::empty());
        assert(nodes_view(v.push(n)) =~= nodes_view(v) + seq![node_view(n)]);
    } else {
        assert(v.push(n).drop_first() =~= v.drop_first().push(n));
        assert(v.push(n)[0] == v[0]);
        lemma_nodes_view_push(v.drop_first(), n);
        assert(nodes_view(v.push(n)) =~= nodes_view(v) + seq![node_view(n)]);
    }
}

// ---------------------------------------------------------------------------
// token stream helpers
// ---------------------------------------------------------------------------

/// Position clamp: guarantees progress past `i`, and stays within the
/// stream, without changing the value wherever the parser in fact consumed
/// a token.
pub open spec fn adv(t: Seq<Tok>, i: nat, j: nat) -> nat {
    let k = if j > i {
        j
    } else {
        i + 1
    };
    if k > t.len() {
        t.len()
    } else {
        k
    }
}

pub open spec fn spec_skip_newlines(t: Seq<Tok>, i: nat) -> nat
    decreases t.len() - i,
{
    if i < t.len() && (t[i as int] is Newline) {
        spec_skip_newlines(t, i + 1)
    } else {
        i
    }
}

/// A value operand: a string or number token, or a minus sign followed by a
/// number (read as a negative literal). Returns the operand, if any, and the
/// position after what was consumed.
pub open spec fn spec_take_value(t: Seq<Tok>, i: nat) -> (Option<Seq<char>>, nat) {
    if i >= t.len() {
        (None, i)
    } else {
        match t[i as int] {
            Tok::Minus => if i + 1 >= t.len() {
                (None, i + 1)
            } else {
                match t[(i + 1) as int] {
                    Tok::NumT(n) => (Some(seq!['-'] + n), (i + 2) as nat),
                    _ => (None, (i + 2) as nat),
                }
            },
            Tok::StrT(s) => (Some(s), (i + 1) as nat),
            Tok::NumT(n) => (Some(n), (i + 1) as nat),
            _ => (None, (i + 1) as nat),
        }
    }
}

/// A quoted literal is recognized by its wrapping quote characters.
pub open spec fn spec_is_lit(s: Seq<char>) -> bool {
    s.len() > 0 && s[0] == '"' && s[s.len() - 1] == '"'
}

/// The literal's content, its wrapping quote characters removed; on a bare
/// word, the word itself. Mirrors trimming every leading and trailing quote.
pub open spec fn spec_strip_quotes(s: Seq<char>) -> Seq<char>
    decreases s.len(),
{
    if s.len() >= 2 && s[0] == '"' {
        spec_strip_quotes(s.subrange(1, s.len() as int))
    } else if s.len() >= 1 && s[s.len() - 1] == '"' {
        spec_strip_quotes(s.subrange(0, s.len() - 1))
    } else if s.len() == 1 && s[0] == '"' {
        Seq::empty()
    } else {
        s
    }
}

pub open spec fn spec_strip_if_lit(s: Seq<char>) -> Seq<char> {
    if spec_is_lit(s) {
        spec_strip_quotes(s)
    } else {
        s
    }
}

// ---------------------------------------------------------------------------
// boolean expressions
// ---------------------------------------------------------------------------

/// One comparison atom: two operands around a comparator. Equality between
/// two quoted literals becomes a classifier comparison; a bare word on
/// either side makes it a variable comparison instead.
pub open spec fn spec_parse_bool_atom(t: Seq<Tok>, i: nat) -> (Option<BoolS>, nat) {
    let (lo, i1) = spec_take_value(t, i);
    match lo {
        None => (None, i1),
        Some(l) => if i1 >= t.len() {
            (None, i1)
        } else {
            let op = t[i1 as int];
            let (ro, i3) = spec_take_value(t, i1 + 1);
            match ro {
                None => (None, i3),
                Some(r) => match op {
                    Tok::Equals => (
                        Some(
                            if !spec_is_lit(l) && !spec_is_lit(r) {
                                BoolS::VarEqualsVar(l, r)
                            } else if !spec_is_lit(l) {
                                BoolS::EqualsVar(l, spec_strip_quotes(r))
                            } else {
                                BoolS::Equals(spec_strip_quotes(l), spec_strip_quotes(r))
                            },
                        ),
                        i3,
                    ),
                    Tok::NotEquals => (
                        Some(
                            if !spec_is_lit(l) && !spec_is_lit(r) {
                                BoolS::VarNotEqualsVar(l, r)
                            } else if !spec_is_lit(l) {
                                BoolS::NotEqualsVar(l, spec_strip_quotes(r))
                            } else {
                                BoolS::NotEquals(spec_strip_quotes(l), spec_strip_quotes(r))
                            },
                        ),
                        i3,
                    ),
                    Tok::GreaterThan => (
                        Some(BoolS::Greater(spec_strip_if_lit(l), spec_strip_if_lit(r))),
                        i3,
                    ),
                    Tok::GreaterEqual => (
                        Some(BoolS::GreaterEqual(spec_strip_if_lit(l), spec_strip_if_lit(r))),
                        i3,
                    ),
                    Tok::LessThan => (
                        Some(BoolS::Less(spec_strip_if_lit(l), spec_strip_if_lit(r))),
                        i3,
                    ),
                    Tok::LessEqual => (
                        Some(BoolS::LessEqual(spec_strip_if_lit(l), spec_strip_if_lit(r))),
                        i3,
                    ),
                    _ => (None, i3),
                },
            }
        },
    }
}

/// Left-associative chain of `and` / `or`, with no precedence between them.
pub open spec fn spec_bool_tail(t: Seq<Tok>, lhs: BoolS, i: nat) -> (Option<BoolS>, nat)
    decreases t.len() - i,
{
    if i < t.len() && ((t[i as int] is And) || (t[i as int] is Or)) {
        let and = t[i as int] is And;
        let (ro, j) = spec_parse_bool_atom(t, i + 1);
        match ro {
            None => (None, j),
            Some(rhs) => {
                let combined = if and {
                    BoolS::And(Box::new(lhs), Box::new(rhs))
                } else {
                    BoolS::Or(Box::new(lhs), Box::new(rhs))
                };
                spec_bool_tail(t, combined, adv(t, i, j))
            },
        }
    } else {
        (Some(lhs), i)
    }
}

#[verifier::opaque]
pub open spec fn spec_parse_bool_expr(t: Seq<Tok>, i: nat) -> (Option<BoolS>, nat) {
    let (ao, j) = spec_parse_bool_atom(t, i);
    match ao {
        None => (None, j),
        Some(e) => spec_bool_tail(t, e, adv(t, i, j)),
    }
}

// ---------------------------------------------------------------------------
// arithmetic expressions
// ---------------------------------------------------------------------------

pub open spec fn spec_parse_factor(t: Seq<Tok>, i: nat) -> (Option<ExprS>, nat)
    decreases t.len() - i, 0nat,
{
    if i >= t.len() {
        (None, i)
    } else {
        match t[i as int] {
            Tok::Minus => {
                let (fo, j) = spec_parse_factor(t, i + 1);
                match fo {
                    None => (None, j),
                    Some(f) => (
                        Some(
                            ExprS::Bin(
                                Box::new(ExprS::Value("0"@)),
                                BinaryOperator::Sub,
                                Box::new(f),
                            ),
                        ),
                        j,
                    ),
                }
            },
            Tok::NumT(n) => (Some(ExprS::Value(n)), (i + 1) as nat),
            Tok::StrT(s) => if spec_is_lit(s) {
                (Some(ExprS::StrLit(spec_strip_quotes(s))), (i + 1) as nat)
            } else {
                (Some(ExprS::Value(s)), (i + 1) as nat)
            },
            Tok::LParen => {
                let (eo, j) = spec_parse_expr(t, i + 1);
                match eo {
                    None => (None, j),
                    Some(e) => if j < t.len() && (t[j as int] is RParen) {
                        (Some(e), j + 1)
                    } else {
                        (None, if j < t.len() {
                            j + 1
                        } else {
                            j
                        })
                    },
                }
            },
            _ => (None, (i + 1) as nat),
        }
    }
}

pub open spec fn spec_term_tail(t: Seq<Tok>, lhs: ExprS, i: nat) -> (Option<ExprS>, nat)
    decreases t.len() - i, 1nat,
{
    if i >= t.len() {
        (None, i)
    } else {
        let op = match t[i as int] {
            Tok::Star => Some(BinaryOperator::Mul),
            Tok::Slash => Some(BinaryOperator::Div),
            Tok::Percent => Some(BinaryOperator::Mod),
            _ => None,
        };
        match op {
            None => (Some(lhs), i),
            Some(op) => {
                let (fo, j) = spec_parse_factor(t, i + 1);
                match fo {
                    None => (None, j),
                    Some(f) => spec_term_tail(
                        t,
                        ExprS::Bin(Box::new(lhs), op, Box::new(f)),
                        adv(t, i, j),
                    ),
                }
            },
        }
    }
}

pub open spec fn spec_parse_term(t: Seq<Tok>, i: nat) -> (Option<ExprS>, nat)
    decreases t.len() - i, 2nat,
{
    if i >= t.len() {
        (None, i)
    } else {
        let (fo, j) = spec_parse_factor(t, i);
        match fo {
            None => (None, j),
            Some(f) => spec_term_tail(t, f, adv(t, i, j)),
        }
    }
}

pub open spec fn spec_expr_tail(t: Seq<Tok>, lhs: ExprS, i: nat) -> (Option<ExprS>, nat)
    decreases t.len() - i, 3nat,
{
    if i >= t.len() {
        (None, i)
    } else {
        let op = match t[i as int] {
            Tok::Plus => Some(BinaryOperator::Add),
            Tok::Minus => Some(BinaryOperator::Sub),
            Tok::GreaterThan => Some(BinaryOperator::Gt),
            Tok::LessThan => Some(BinaryOperator::Lt),
            Tok::GreaterEqual => Some(BinaryOperator::Ge),
            Tok::LessEqual => Some(BinaryOperator::Le),
            Tok::Equals => Some(BinaryOperator::Eq),
            Tok::NotEquals => Some(BinaryOperator::Ne),
            _ => None,
        };
        match op {
            None => (Some(lhs), i),
            Some(op) => {
                let (to, j) = spec_parse_term(t, i + 1);
                match to {
                    None => (None, j),
                    Some(rhs) => spec_expr_tail(
                        t,
                        ExprS::Bin(Box::new(lhs), op, Box::new(rhs)),
                        adv(t, i, j),
                    ),
                }
            },
        }
    }
}

/// Comparators share the precedence tier of `+` and `-`; `*`, `/` and `%`
/// bind tighter.
pub open spec fn spec_parse_expr(t: Seq<Tok>, i: nat) -> (Option<ExprS>, nat)
    decreases t.len() - i, 4nat,
{
    if i >= t.len() {
        (None, i)
    } else {
        let (to, j) = spec_parse_term(t, i);
        match to {
            None => (None, j),
            Some(f) => spec_expr_tail(t, f, adv(t, i, j)),
        }
    }
}

// ---------------------------------------------------------------------------
// statements
// ---------------------------------------------------------------------------

/// Model selection: `AI : STRING`. Positions reflect what a failing attempt
/// consumed, so recovery resumes after the tokens it already took.
#[verifier::opaque]
pub open spec fn spec_stmt_ai(t: Seq<Tok>, i: nat) -> (Option<NodeS>, nat) {
    let i1 = i + 1;
    if i1 >= t.len() {
        (None, i1)
    } else if t[i1 as int] is Colon {
        let i2 = i1 + 1;
        if i2 >= t.len() {
            (None, i2)
        } else {
            match t[i2 as int] {
                Tok::StrT(path) => (Some(NodeS::AIModel(path)), i2 + 1),
                _ => (None, i2 + 1),
            }
        }
    } else {
        (None, i1 + 1)
    }
}

/// Output: `neuro (STRING | IDENT)`.
#[verifier::opaque]
pub open spec fn spec_stmt_neuro(t: Seq<Tok>, i: nat) -> (Option<NodeS>, nat) {
    let i1 = i + 1;
    if i1 >= t.len() {
        (None, i1)
    } else {
        match t[i1 as int] {
            Tok::StrT(s) => (Some(NodeS::Neuro(s)), i1 + 1),
            _ => (None, i1 + 1),
        }
    }
}

/// Assignment: `set IDENT = expr` or `set IDENT from AI : STRING`.
#[verifier::opaque]
pub open spec fn spec_stmt_set(t: Seq<Tok>, i: nat) -> (Option<NodeS>, nat) {
    let i1 = i + 1;
    if i1 >= t.len() {
        (None, i1)
    } else {
        match t[i1 as int] {
            Tok::StrT(var) => {
                let i2 = i1 + 1;
                if i2 < t.len() && (t[i2 as int] is EqualsAssign) {
                    let (eo, j) = spec_parse_expr(t, i2 + 1);
                    match eo {
                        Some(e) => (Some(NodeS::SetVar(var, e)), j),
                        None => (None, j),
                    }
                } else if i2 < t.len() && (t[i2 as int] is From) {
                    let i3 = i2 + 1;
                    if i3 >= t.len() {
                        (None, i3)
                    } else if t[i3 as int] is AI {
                        let i4 = i3 + 1;
                        if i4 >= t.len() {
                            (None, i4)
                        } else if t[i4 as int] is Colon {
                            let i5 = i4 + 1;
                            if i5 >= t.len() {
                                (None, i5)
                            } else {
                                match t[i5 as int] {
                                    Tok::StrT(prompt) => (
                                        Some(NodeS::SetVarFromAI(var, prompt)),
                                        i5 + 1,
                                    ),
                                    _ => (None, i5 + 1),
                                }
                            }
                        } else {
                            (None, i4 + 1)
                        }
                    } else {
                        (None, i3 + 1)
                    }
                } else {
                    (None, i2)
                }
            },
            _ => (None, i1 + 1),
        }
    }
}

/// The word tokens of a macro instruction, up to the end of the line.
pub open spec fn spec_macro_parts(t: Seq<Tok>, i: nat) -> (Seq<Seq<char>>, nat)
    decreases t.len() - i,
{
    if i >= t.len() {
        (Seq::empty(), i)
    } else {
        match t[i as int] {
            Tok::StrT(s) => {
                let (rest, j) = spec_macro_parts(t, i + 1);
                (seq![s] + rest, j)
            },
            Tok::NumT(n) => {
                let (rest, j) = spec_macro_parts(t, i + 1);
                (seq![n] + rest, j)
            },
            _ => (Seq::empty(), i),
        }
    }
}

pub open spec fn spec_join_sp(parts: Seq<Seq<char>>) -> Seq<char>
    decreases parts.len(),
{
    if parts.len() == 0 {
        Seq::empty()
    } else if parts.len() == 1 {
        parts[0]
    } else {
        parts[0] + " "@ + spec_join_sp(parts.drop_first())
    }
}

/// Macro invocation: `macro from AI : <rest of line>`, the token texts
/// rejoined with single spaces.
#[verifier::opaque]
pub open spec fn spec_stmt_macro(t: Seq<Tok>, i: nat) -> (Option<NodeS>, nat) {
    let i1 = i + 1;
    if i1 >= t.len() {
        (None, i1)
    } else if !(t[i1 as int] is From) {
        (None, i1 + 1)
    } else {
        let i2 = i1 + 1;
        if i2 >= t.len() {
            (None, i2)
        } else if !(t[i2 as int] is AI) {
            (None, i2 + 1)
        } else {
            let i3 = i2 + 1;
            if i3 >= t.len() {
                (None, i3)
            } else if !(t[i3 as int] is Colon) {
                (None, i3 + 1)
            } else {
                let (parts, j) = spec_macro_parts(t, i3 + 1);
                if parts.len() > 0 {
                    (Some(NodeS::MacroCall(spec_join_sp(parts))), j)
                } else {
                    (None, j)
                }
            }
        }
    }
}

/// `condition : NEWLINE* INDENT block` — the branch header shared by `if`,
/// `elif` and `else` (for `else` the condition part is absent). Returns the
/// block, or nothing on a malformed header, with the consumed position.
#[verifier::opaque]
pub open spec fn spec_branch_body(t: Seq<Tok>, i: nat) -> (Option<Seq<NodeS>>, nat)
    decreases t.len() - i, 4nat,
{
    if i >= t.len() {
        (None, i)
    } else if !(t[i as int] is Colon) {
        (None, i + 1)
    } else {
        let j = spec_skip_newlines(t, i + 1);
        let jc = if j < i + 1 {
            i + 1
        } else if j > t.len() {
            t.len()
        } else {
            j
        };
        if jc >= t.len() {
            (None, jc)
        } else if !(t[jc as int] is Indent) {
            (None, jc + 1)
        } else {
            let (body, k) = spec_parse_block(t, jc + 1);
            (Some(body), k)
        }
    }
}

/// The `elif` chain: each branch is a condition with its block.
#[verifier::opaque]
pub open spec fn spec_elifs(t: Seq<Tok>, i: nat) -> (Option<Seq<(BoolS, Seq<NodeS>)>>, nat)
    decreases t.len() - i, 5nat,
{
    if i < t.len() && (t[i as int] is Elif) {
        let (co, j) = spec_parse_bool_expr(t, i + 1);
        match co {
            None => (None, j),
            Some(c) => {
                let jc = adv(t, i, j);
                let (bo, k) = spec_branch_body(t, jc);
                match bo {
                    None => (None, k),
                    Some(b) => {
                        let kc = adv(t, i, k);
                        let (ro, m) = spec_elifs(t, kc);
                        match ro {
                            None => (None, m),
                            Some(rest) => (Some(seq![(c, b)] + rest), m),
                        }
                    },
                }
            },
        }
    } else {
        (Some(Seq::empty()), i)
    }
}

/// `if`/`elif`/`else` with indentation-delimited blocks, staged after each
/// consumed part.
#[verifier::opaque]
pub open spec fn spec_if_after_elifs(
    t: Seq<Tok>,
    i: nat,
    cond: BoolS,
    body: Seq<NodeS>,
    elifs: Seq<(BoolS, Seq<NodeS>)>,
    m: nat,
) -> (Option<NodeS>, nat)
    decreases t.len() - i, 6nat,
{
    if i >= t.len() {
        (None, i)
    } else {
    let mc = adv(t, i, m);
    if mc < t.len() && (t[mc as int] is Else) {
        let (ebo, p) = spec_branch_body(t, mc + 1);
        match ebo {
            None => (None, p),
            Some(eb) => (
                Some(NodeS::If { cond: cond, body: body, elifs: elifs, els: Some(eb) }),
                p,
            ),
        }
    } else {
        (Some(NodeS::If { cond: cond, body: body, elifs: elifs, els: None }), m)
    }
    }
}

#[verifier::opaque]
pub open spec fn spec_if_after_body(t: Seq<Tok>, i: nat, cond: BoolS, body: Seq<NodeS>, k: nat) -> (
    Option<NodeS>,
    nat,
)
    decreases t.len() - i, 7nat,
{
    if i >= t.len() {
        (None, i)
    } else {
        let kc = adv(t, i, k);
        let (eo, m) = spec_elifs(t, kc);
        match eo {
            None => (None, m),
            Some(elifs) => spec_if_after_elifs(t, i, cond, body, elifs, m),
        }
    }
}

#[verifier::opaque]
pub open spec fn spec_if_after_cond(t: Seq<Tok>, i: nat, cond: BoolS, j: nat) -> (
    Option<NodeS>,
    nat,
)
    decreases t.len() - i, 8nat,
{
    if i >= t.len() {
        (None, i)
    } else {
        let jc = adv(t, i, j);
        let (bo, k) = spec_branch_body(t, jc);
        match bo {
            None => (None, k),
            Some(body) => spec_if_after_body(t, i, cond, body, k),
        }
    }
}

#[verifier::opaque]
pub open spec fn spec_stmt_if(t: Seq<Tok>, i: nat) -> (Option<NodeS>, nat)
    decreases t.len() - i, 9nat,
{
    let (co, j) = spec_parse_bool_expr(t, i + 1);
    match co {
        None => (None, j),
        Some(cond) => spec_if_after_cond(t, i, cond, j),
    }
}

/// One statement, dispatched on its first token; `None` with the consumed
/// position when no statement shape matches.
#[verifier::opaque]
pub open spec fn spec_parse_statement(t: Seq<Tok>, i: nat) -> (Option<NodeS>, nat)
    decreases t.len() - i, 10nat,
{
    if i >= t.len() {
        (None, i)
    } else {
        match t[i as int] {
            Tok::AI => spec_stmt_ai(t, i),
            Tok::Neuro => spec_stmt_neuro(t, i),
            Tok::SetKw => spec_stmt_set(t, i),
            Tok::Macro => spec_stmt_macro(t, i),
            Tok::If => spec_stmt_if(t, i),
            Tok::Comment => (None, i + 1),
            _ => (None, i),
        }
    }
}

/// A block body: statements until the closing dedent.
#[verifier::opaque]
pub open spec fn spec_parse_block(t: Seq<Tok>, i: nat) -> (Seq<NodeS>, nat)
    decreases t.len() - i, 11nat,
{
    if i >= t.len() {
        (Seq::empty(), i)
    } else if t[i as int] is Dedent {
        (Seq::empty(), i + 1)
    } else if t[i as int] is Newline {
        spec_parse_block(t, i + 1)
    } else {
        let (o, j) = spec_parse_statement(t, i);
        match o {
            Some(n) => {
                let (rest, k) = spec_parse_block(t, adv(t, i, j));
                (seq![n] + rest, k)
            },
            None => {
                let jj = if j < t.len() {
                    j + 1
                } else {
                    j
                };
                spec_parse_block(t, adv(t, i, jj))
            },
        }
    }
}

/// The statement list of the whole stream; an unrecognized token is dropped.
#[verifier::opaque]
pub open spec fn spec_parse_stmts(t: Seq<Tok>, i: nat) -> Seq<NodeS>
    decreases t.len() - i, 12nat,
{
    if i >= t.len() {
        Seq::empty()
    } else {
        let (o, j) = spec_parse_statement(t, i);
        match o {
            Some(n) => seq![n] + spec_parse_stmts(t, adv(t, i, j)),
            None => {
                let jj = if j < t.len() {
                    j + 1
                } else {
                    j
                };
                spec_parse_stmts(t, adv(t, i, jj))
            },
        }
    }
}

/// The abstract syntax tree of a token stream.
pub open spec fn spec_parse(t: Seq<Tok>) -> Seq<NodeS> {
    spec_parse_stmts(t, 0)
}

// ---------------------------------------------------------------------------
// executable parser
// ---------------------------------------------------------------------------

pub open spec fn oval_rel(a: Option<String>, b: Option<Seq<char>>) -> bool {
    match (a, b) {
        (Some(x), Some(y)) => x@ == y,
        (None, None) => true,
        _ => false,
    }
}

pub open spec fn oexpr_rel(a: Option<Expr>, b: Option<ExprS>) -> bool {
    match (a, b) {
        (Some(x), Some(y)) => expr_view(x) == y,
        (None, None) => true,
        _ => false,
    }
}

pub open spec fn obool_rel(a: Option<BoolExpr>, b: Option<BoolS>) -> bool {
    match (a, b) {
        (Some(x), Some(y)) => bool_view(x) == y,
        (None, None) => true,
        _ => false,
    }
}

pub open spec fn onode_rel(a: Option<ASTNode>, b: Option<NodeS>) -> bool {
    match (a, b) {
        (Some(x), Some(y)) => node_view(x) == y,
        (None, None) => true,
        _ => false,
    }
}

pub open spec fn strs_view(v: Seq<String>) -> Seq<Seq<char>> {
    v.map_values(|s: String| s@)
}

pub proof fn lemma_nodes_view_concat(a: Seq<ASTNode>, b: Seq<ASTNode>)
    ensures
        nodes_view(a + b) == nodes_view(a) + nodes_view(b),
    decreases a,
{
    if a.len() == 0 {
        assert(a + b =~= b);
        assert(nodes_view(a) + nodes_view(b) =~= nodes_view(b));
    } else {
        assert((a + b).drop_first() =~= a.drop_first() + b);
        assert((a + b)[0] == a[0]);
        lemma_nodes_view_concat(a.drop_first(), b);
        assert(nodes_view(a + b) =~= nodes_view(a) + nodes_view(b));
    }
}

pub proof fn lemma_elifs_view_concat(a: Seq<(BoolExpr, Vec<ASTNode>)>, b: Seq<(BoolExpr, Vec<ASTNode>)>)
    ensures
        elifs_view(a + b) == elifs_view(a) + elifs_view(b),
    decreases a,
{
    if a.len() == 0 {
        assert(a + b =~= b);
        assert(elifs_view(a) + elifs_view(b) =~= elifs_view(b));
    } else {
        assert((a + b).drop_first() =~= a.drop_first() + b);
        assert((a + b)[0] == a[0]);
        lemma_elifs_view_concat(a.drop_first(), b);
        assert(elifs_view(a + b) =~= elifs_view(a) + elifs_view(b));
    }
}

fn skip_newlines(t: &Vec<Token>, i: usize) -> (r: usize)
    requires
        i <= t@.len(),
    ensures
        r == spec_skip_newlines(toks_view(t@), i as nat),
        i <= r <= t@.len(),
    decreases t@.len() - i,
{
    proof {
        assert(i < t@.len() ==> toks_view(t@)[i as int] == t@[i as int]@);
    }
    if i < t.len() && matches!(&t[i], Token::Newline) {
        skip_newlines(t, i + 1)
    } else {
        i
    }
}

fn strip_q(v: Vec<char>) -> (r: Vec<char>)
    ensures
        r@ == spec_strip_quotes(v@),
    decreases v@.len(),
{
    if v.len() >= 2 && v[0] == '"' {
        strip_q(crate::text::subvec(&v, 1, v.len()))
    } else if v.len() >= 1 && v[v.len() - 1] == '"' {
        strip_q(crate::text::subvec(&v, 0, v.len() - 1))
    } else {
        v
    }
}

/// The literal's content with its wrapping quote characters removed.
pub fn strip_quotes_str(s: &String) -> (r: String)
    ensures
        r@ == spec_strip_quotes(s@),
{
    let v = crate::text::chars_of(s.as_str());
    let w = strip_q(v);
    string_of(&w)
}

/// Whether a token text is a quoted literal.
pub fn is_lit_str(s: &String) -> (r: bool)
    ensures
        r == spec_is_lit(s@),
{
    let v = crate::text::chars_of(s.as_str());
    v.len() > 0 && v[0] == '"' && v[v.len() - 1] == '"'
}

fn strip_if_lit_str(s: &String) -> (r: String)
    ensures
        r@ == spec_strip_if_lit(s@),
{
    if is_lit_str(s) {
        strip_quotes_str(s)
    } else {
        s.clone()
    }
}

fn take_value(t: &Vec<Token>, i: usize) -> (r: (Option<String>, usize))
    requires
        i <= t@.len(),
    ensures
        ({
            let (o, j) = spec_take_value(toks_view(t@), i as nat);
            oval_rel(r.0, o) && r.1 == j && i <= r.1 <= t@.len() && (r.0 is Some ==> r.1 > i)
        }),
{
    if i >= t.len() {
        return (None, i);
    }
    proof {
        assert(toks_view(t@)[i as int] == t@[i as int]@);
    }
    match &t[i] {
        Token::Minus => {
            if i + 1 >= t.len() {
                (None, i + 1)
            } else {
                proof {
                    assert(toks_view(t@)[i + 1] == t@[i + 1]@);
                }
                match &t[i + 1] {
                    Token::Number(n) => {
                        let mut s = String::new();
                        s.push('-');
                        s.append(n.as_str());
                        proof {
                            assert(s@ =~= seq!['-'] + n@);
                        }
                        (Some(s), i + 2)
                    },
                    _ => (None, i + 2),
                }
            }
        },
        Token::String(s) => (Some(s.clone()), i + 1),
        Token::Number(n) => (Some(n.clone()), i + 1),
        _ => (None, i + 1),
    }
}

fn parse_bool_atom(t: &Vec<Token>, i: usize) -> (r: (Option<BoolExpr>, usize))
    requires
        i <= t@.len(),
    ensures
        ({
            let (o, j) = spec_parse_bool_atom(toks_view(t@), i as nat);
            obool_rel(r.0, o) && r.1 == j && i <= r.1 <= t@.len() && (r.0 is Some ==> r.1 > i)
        }),
{
    let (lo, i1) = take_value(t, i);
    let l = match lo {
        None => {
            return (None, i1);
        },
        Some(l) => l,
    };
    if i1 >= t.len() {
        return (None, i1);
    }
    proof {
        assert(toks_view(t@)[i1 as int] == t@[i1 as int]@);
    }
    let (ro, i3) = take_value(t, i1 + 1);
    let rv = match ro {
        None => {
            return (None, i3);
        },
        Some(rv) => rv,
    };
    let node = match &t[i1] {
        Token::Equals => {
            if !is_lit_str(&l) && !is_lit_str(&rv) {
                BoolExpr::VarEqualsVar(l, rv)
            } else if !is_lit_str(&l) {
                BoolExpr::EqualsVar(l, strip_quotes_str(&rv))
            } else {
                BoolExpr::Equals(strip_quotes_str(&l), strip_quotes_str(&rv))
            }
        },
        Token::NotEquals => {
            if !is_lit_str(&l) && !is_lit_str(&rv) {
                BoolExpr::VarNotEqualsVar(l, rv)
            } else if !is_lit_str(&l) {
                BoolExpr::NotEqualsVar(l, strip_quotes_str(&rv))
            } else {
                BoolExpr::NotEquals(strip_quotes_str(&l), strip_quotes_str(&rv))
            }
        },
        Token::GreaterThan => BoolExpr::Greater(strip_if_lit_str(&l), strip_if_lit_str(&rv)),
        Token::GreaterEqual => BoolExpr::GreaterEqual(strip_if_lit_str(&l), strip_if_lit_str(&rv)),
        Token::LessThan => BoolExpr::Less(strip_if_lit_str(&l), strip_if_lit_str(&rv)),
        Token::LessEqual => BoolExpr::LessEqual(strip_if_lit_str(&l), strip_if_lit_str(&rv)),
        _ => {
            return (None, i3);
        },
    };
    (Some(node), i3)
}

fn parse_bool_expr(t: &Vec<Token>, i: usize) -> (r: (Option<BoolExpr>, usize))
    requires
        i <= t@.len(),
    ensures
        ({
            let (o, j) = spec_parse_bool_expr(toks_view(t@), i as nat);
            obool_rel(r.0, o) && r.1 == j && i <= r.1 <= t@.len() && (r.0 is Some ==> r.1 > i)
        }),
{
    reveal(spec_parse_bool_expr);
    let (ao, j) = parse_bool_atom(t, i);
    match ao {
        None => (None, j),
        Some(e) => {
            proof {
                assert(adv(toks_view(t@), i as nat, j as nat) == j as nat);
            }
            bool_tail(t, e, j)
        },
    }
}

fn bool_tail(t: &Vec<Token>, lhs: BoolExpr, i: usize) -> (r: (Option<BoolExpr>, usize))
    requires
        i <= t@.len(),
    ensures
        ({
            let (o, j) = spec_bool_tail(toks_view(t@), bool_view(lhs), i as nat);
            obool_rel(r.0, o) && r.1 == j && i <= r.1 <= t@.len() && (r.0 is Some ==> r.1 >= i)
        }),
    decreases t@.len() - i,
{
    proof {
        assert(i < t@.len() ==> toks_view(t@)[i as int] == t@[i as int]@);
    }
    if i < t.len() && (matches!(&t[i], Token::And) || matches!(&t[i], Token::Or)) {
        let and = matches!(&t[i], Token::And);
        let (ro, j) = parse_bool_atom(t, i + 1);
        match ro {
            None => (None, j),
            Some(rhs) => {
                let combined = if and {
                    BoolExpr::And(Box::new(lhs), Box::new(rhs))
                } else {
                    BoolExpr::Or(Box::new(lhs), Box::new(rhs))
                };
                proof {
                    assert(adv(toks_view(t@), i as nat, j as nat) == j as nat);
                }
                bool_tail(t, combined, j)
            },
        }
    } else {
        (Some(lhs), i)
    }
}

fn parse_factor(t: &Vec<Token>, i: usize) -> (r: (Option<Expr>, usize))
    requires
        i <= t@.len(),
    ensures
        ({
            let (o, j) = spec_parse_factor(toks_view(t@), i as nat);
            oexpr_rel(r.0, o) && r.1 == j && i <= r.1 <= t@.len() && (r.0 is Some ==> r.1 > i)
        }),
    decreases t@.len() - i, 0nat,
{
    if i >= t.len() {
        return (None, i);
    }
    proof {
        assert(toks_view(t@)[i as int] == t@[i as int]@);
    }
    match &t[i] {
        Token::Minus => {
            let (fo, j) = parse_factor(t, i + 1);
            match fo {
                None => (None, j),
                Some(f) => {
                    let mut zero = String::new();
                    zero.push('0');
                    proof {
                        reveal_strlit("0");
                        assert(zero@ =~= "0"@);
                    }
                    let ghost fv = expr_view(f);
                    let node = Expr::BinaryOp(
                        Box::new(Expr::Value(zero)),
                        BinaryOperator::Sub,
                        Box::new(f),
                    );
                    proof {
                        assert(expr_view(node) is Bin);
                        let l0 = expr_view(node)->Bin_0;
                        assert(*l0 == expr_view(Expr::Value(zero)));
                        assert(expr_view(Expr::Value(zero)) == ExprS::Value("0"@));
                        assert(expr_view(node)->Bin_2 == Box::new(fv));
                        assert(expr_view(node) == ExprS::Bin(
                            Box::new(ExprS::Value("0"@)),
                            BinaryOperator::Sub,
                            Box::new(fv),
                        ));
                    }
                    (Some(node), j)
                },
            }
        },
        Token::Number(n) => (Some(Expr::Value(n.clone())), i + 1),
        Token::String(s) => {
            if is_lit_str(s) {
                (Some(Expr::StringLit(strip_quotes_str(s))), i + 1)
            } else {
                (Some(Expr::Value(s.clone())), i + 1)
            }
        },
        Token::LParen => {
            let (eo, j) = parse_expr(t, i + 1);
            match eo {
                None => (None, j),
                Some(e) => {
                    proof {
                        assert(j < t@.len() ==> toks_view(t@)[j as int] == t@[j as int]@);
                    }
                    if j < t.len() && matches!(&t[j], Token::RParen) {
                        (Some(e), j + 1)
                    } else {
                        (None, if j < t.len() {
                            j + 1
                        } else {
                            j
                        })
                    }
                },
            }
        },
        _ => (None, i + 1),
    }
}

fn term_tail(t: &Vec<Token>, lhs: Expr, i: usize) -> (r: (Option<Expr>, usize))
    requires
        i <= t@.len(),
    ensures
        ({
            let (o, j) = spec_term_tail(toks_view(t@), expr_view(lhs), i as nat);
            oexpr_rel(r.0, o) && r.1 == j && i <= r.1 <= t@.len()
        }),
    decreases t@.len() - i, 1nat,
{
    if i >= t.len() {
        return (None, i);
    }
    proof {
        assert(toks_view(t@)[i as int] == t@[i as int]@);
    }
    let op = match &t[i] {
        Token::Star => Some(BinaryOperator::Mul),
        Token::Slash => Some(BinaryOperator::Div),
        Token::Percent => Some(BinaryOperator::Mod),
        _ => None,
    };
    match op {
        None => (Some(lhs), i),
        Some(op) => {
            let (fo, j) = parse_factor(t, i + 1);
            match fo {
                None => (None, j),
                Some(f) => {
                    proof {
                        assert(adv(toks_view(t@), i as nat, j as nat) == j as nat);
                    }
                    term_tail(t, Expr::BinaryOp(Box::new(lhs), op, Box::new(f)), j)
                },
            }
        },
    }
}

fn parse_term(t: &Vec<Token>, i: usize) -> (r: (Option<Expr>, usize))
    requires
        i <= t@.len(),
    ensures
        ({
            let (o, j) = spec_parse_term(toks_view(t@), i as nat);
            oexpr_rel(r.0, o) && r.1 == j && i <= r.1 <= t@.len() && (r.0 is Some ==> r.1 > i)
        }),
    decreases t@.len() - i, 2nat,
{
    if i >= t.len() {
        return (None, i);
    }
    let (fo, j) = parse_factor(t, i);
    match fo {
        None => (None, j),
        Some(f) => {
            proof {
                assert(adv(toks_view(t@), i as nat, j as nat) == j as nat);
            }
            term_tail(t, f, j)
        },
    }
}

fn expr_tail(t: &Vec<Token>, lhs: Expr, i: usize) -> (r: (Option<Expr>, usize))
    requires
        i <= t@.len(),
    ensures
        ({
            let (o, j) = spec_expr_tail(toks_view(t@), expr_view(lhs), i as nat);
            oexpr_rel(r.0, o) && r.1 == j && i <= r.1 <= t@.len()
        }),
    decreases t@.len() - i, 3nat,
{
    if i >= t.len() {
        return (None, i);
    }
    proof {
        assert(toks_view(t@)[i as int] == t@[i as int]@);
    }
    let op = match &t[i] {
        Token::Plus => Some(BinaryOperator::Add),
        Token::Minus => Some(BinaryOperator::Sub),
        Token::GreaterThan => Some(BinaryOperator::Gt),
        Token::LessThan => Some(BinaryOperator::Lt),
        Token::GreaterEqual => Some(BinaryOperator::Ge),
        Token::LessEqual => Some(BinaryOperator::Le),
        Token::Equals => Some(BinaryOperator::Eq),
        Token::NotEquals => Some(BinaryOperator::Ne),
        _ => None,
    };
    match op {
        None => (Some(lhs), i),
        Some(op) => {
            let (to, j) = parse_term(t, i + 1);
            match to {
                None => (None, j),
                Some(rhs) => {
                    proof {
                        assert(adv(toks_view(t@), i as nat, j as nat) == j as nat);
                    }
                    expr_tail(t, Expr::BinaryOp(Box::new(lhs), op, Box::new(rhs)), j)
                },
            }
        },
    }
}

fn parse_expr(t: &Vec<Token>, i: usize) -> (r: (Option<Expr>, usize))
    requires
        i <= t@.len(),
    ensures
        ({
            let (o, j) = spec_parse_expr(toks_view(t@), i as nat);
            oexpr_rel(r.0, o) && r.1 == j && i <= r.1 <= t@.len() && (r.0 is Some ==> r.1 > i)
        }),
    decreases t@.len() - i, 4nat,
{
    if i >= t.len() {
        return (None, i);
    }
    let (to, j) = parse_term(t, i);
    match to {
        None => (None, j),
        Some(f) => {
            proof {
                assert(adv(toks_view(t@), i as nat, j as nat) == j as nat);
            }
            expr_tail(t, f, j)
        },
    }
}

// ---------------------------------------------------------------------------
// executable statements
// ---------------------------------------------------------------------------

fn stmt_ai(t: &Vec<Token>, i: usize) -> (r: (Option<ASTNode>, usize))
    requires
        i < t@.len(),
    ensures
        ({
            let (o, j) = spec_stmt_ai(toks_view(t@), i as nat);
            onode_rel(r.0, o) && r.1 == j && i <= r.1 <= t@.len() && (r.0 is Some ==> r.1 > i)
        }),
{
    reveal(spec_stmt_ai);
    let tlen = t.len();
    let i1 = i + 1;
    if i1 >= tlen {
        return (None, i1);
    }
    proof {
        assert(toks_view(t@)[i1 as int] == t@[i1 as int]@);
    }
    if matches!(&t[i1], Token::Colon) {
        let i2 = i1 + 1;
        if i2 >= t.len() {
            return (None, i2);
        }
        proof {
            assert(toks_view(t@)[i2 as int] == t@[i2 as int]@);
        }
        match &t[i2] {
            Token::String(path) => (Some(ASTNode::AIModel(path.clone())), i2 + 1),
            _ => (None, i2 + 1),
        }
    } else {
        (None, i1 + 1)
    }
}

fn stmt_neuro(t: &Vec<Token>, i: usize) -> (r: (Option<ASTNode>, usize))
    requires
        i < t@.len(),
    ensures
        ({
            let (o, j) = spec_stmt_neuro(toks_view(t@), i as nat);
            onode_rel(r.0, o) && r.1 == j && i <= r.1 <= t@.len() && (r.0 is Some ==> r.1 > i)
        }),
{
    reveal(spec_stmt_neuro);
    let tlen = t.len();
    let i1 = i + 1;
    if i1 >= tlen {
        return (None, i1);
    }
    proof {
        assert(toks_view(t@)[i1 as int] == t@[i1 as int]@);
    }
    match &t[i1] {
        Token::String(s) => (Some(ASTNode::Neuro(s.clone())), i1 + 1),
        _ => (None, i1 + 1),
    }
}

#[verifier::rlimit(60)]
fn stmt_set(t: &Vec<Token>, i: usize) -> (r: (Option<ASTNode>, usize))
    requires
        i < t@.len(),
    ensures
        ({
            let (o, j) = spec_stmt_set(toks_view(t@), i as nat);
            onode_rel(r.0, o) && r.1 == j && i <= r.1 <= t@.len() && (r.0 is Some ==> r.1 > i)
        }),
{
    reveal(spec_stmt_set);
    let tlen = t.len();
    let i1 = i + 1;
    if i1 >= tlen {
        return (None, i1);
    }
    proof {
        assert(toks_view(t@)[i1 as int] == t@[i1 as int]@);
    }
    let var = match &t[i1] {
        Token::String(v) => v.clone(),
        _ => {
            return (None, i1 + 1);
        },
    };
    let i2 = i1 + 1;
    proof {
        assert(i2 < t@.len() ==> toks_view(t@)[i2 as int] == t@[i2 as int]@);
    }
    if i2 < t.len() && matches!(&t[i2], Token::EqualsAssign) {
        let (eo, j) = parse_expr(t, i2 + 1);
        match eo {
            Some(e) => (Some(ASTNode::SetVar(var, e)), j),
            None => (None, j),
        }
    } else if i2 < t.len() && matches!(&t[i2], Token::From) {
        let i3 = i2 + 1;
        if i3 >= t.len() {
            return (None, i3);
        }
        proof {
            assert(toks_view(t@)[i3 as int] == t@[i3 as int]@);
        }
        if matches!(&t[i3], Token::AI) {
            let i4 = i3 + 1;
            if i4 >= t.len() {
                return (None, i4);
            }
            proof {
                assert(toks_view(t@)[i4 as int] == t@[i4 as int]@);
            }
            if matches!(&t[i4], Token::Colon) {
                let i5 = i4 + 1;
                if i5 >= t.len() {
                    return (None, i5);
                }
                proof {
                    assert(toks_view(t@)[i5 as int] == t@[i5 as int]@);
                }
                match &t[i5] {
                    Token::String(prompt) => (
                        Some(ASTNode::SetVarFromAI(var, prompt.clone())),
                        i5 + 1,
                    ),
                    _ => (None, i5 + 1),
                }
            } else {
                (None, i4 + 1)
            }
        } else {
            (None, i3 + 1)
        }
    } else {
        (None, i2)
    }
}

fn macro_parts(t: &Vec<Token>, i: usize) -> (r: (Vec<String>, usize))
    requires
        i <= t@.len(),
    ensures
        ({
            let (parts, j) = spec_macro_parts(toks_view(t@), i as nat);
            strs_view(r.0@) == parts && r.1 == j && i <= r.1 <= t@.len()
        }),
    decreases t@.len() - i,
{
    if i >= t.len() {
        return (Vec::new(), i);
    }
    proof {
        assert(toks_view(t@)[i as int] == t@[i as int]@);
    }
    let head = match &t[i] {
        Token::String(s) => s.clone(),
        Token::Number(n) => n.clone(),
        _ => {
            let out: Vec<String> = Vec::new();
            proof {
                assert(strs_view(out@) =~= Seq::<Seq<char>>::empty());
            }
            return (out, i);
        },
    };
    let (mut rest, j) = macro_parts(t, i + 1);
    let ghost rest0 = rest@;
    let mut out: Vec<String> = Vec::new();
    out.push(head);
    out.append(&mut rest);
    proof {
        assert(strs_view(out@) =~= seq![t@[i as int]@->StrT_0] + strs_view(rest0) || strs_view(
            out@,
        ) =~= seq![t@[i as int]@->NumT_0] + strs_view(rest0));
        let (parts, jj) = spec_macro_parts(toks_view(t@), i as nat);
        assert(strs_view(out@) =~= parts);
    }
    (out, j)
}

fn join_sp(parts: &Vec<String>, from: usize) -> (r: String)
    requires
        from <= parts@.len(),
    ensures
        r@ == spec_join_sp(strs_view(parts@).subrange(from as int, parts@.len() as int)),
    decreases parts@.len() - from,
{
    let ghost whole = strs_view(parts@).subrange(from as int, parts@.len() as int);
    if from >= parts.len() {
        proof {
            assert(whole =~= Seq::<Seq<char>>::empty());
        }
        return String::new();
    }
    if from + 1 == parts.len() {
        proof {
            assert(whole.len() == 1);
            assert(whole[0] == parts@[from as int]@);
        }
        return parts[from].clone();
    }
    let mut s = parts[from].clone();
    s.append(" ");
    let rest = join_sp(parts, from + 1);
    s.append(rest.as_str());
    proof {
        assert(whole[0] == parts@[from as int]@);
        assert(whole.drop_first() =~= strs_view(parts@).subrange(
            (from + 1) as int,
            parts@.len() as int,
        ));
        assert(s@ =~= spec_join_sp(whole));
    }
    s
}

fn stmt_macro(t: &Vec<Token>, i: usize) -> (r: (Option<ASTNode>, usize))
    requires
        i < t@.len(),
    ensures
        ({
            let (o, j) = spec_stmt_macro(toks_view(t@), i as nat);
            onode_rel(r.0, o) && r.1 == j && i <= r.1 <= t@.len() && (r.0 is Some ==> r.1 > i)
        }),
{
    reveal(spec_stmt_macro);
    let tlen = t.len();
    let i1 = i + 1;
    if i1 >= tlen {
        return (None, i1);
    }
    proof {
        assert(toks_view(t@)[i1 as int] == t@[i1 as int]@);
    }
    if !matches!(&t[i1], Token::From) {
        return (None, i1 + 1);
    }
    let i2 = i1 + 1;
    if i2 >= t.len() {
        return (None, i2);
    }
    proof {
        assert(toks_view(t@)[i2 as int] == t@[i2 as int]@);
    }
    if !matches!(&t[i2], Token::AI) {
        return (None, i2 + 1);
    }
    let i3 = i2 + 1;
    if i3 >= t.len() {
        return (None, i3);
    }
    proof {
        assert(toks_view(t@)[i3 as int] == t@[i3 as int]@);
    }
    if !matches!(&t[i3], Token::Colon) {
        return (None, i3 + 1);
    }
    let (parts, j) = macro_parts(t, i3 + 1);
    if parts.len() > 0 {
        let instr = join_sp(&parts, 0);
        proof {
            assert(strs_view(parts@).subrange(0, parts@.len() as int) =~= strs_view(parts@));
        }
        (Some(ASTNode::MacroCall(instr)), j)
    } else {
        proof {
            let (sparts, sj) = spec_macro_parts(toks_view(t@), (i3 + 1) as nat);
            assert(sparts.len() == 0);
        }
        (None, j)
    }
}

/// Branch header and block shared by `if`, `elif` and `else`.
fn branch_body(t: &Vec<Token>, i: usize) -> (r: (Option<Vec<ASTNode>>, usize))
    requires
        i <= t@.len(),
    ensures
        ({
            let (o, j) = spec_branch_body(toks_view(t@), i as nat);
            (match (r.0, o) {
                (Some(b), Some(bs)) => nodes_view(b@) == bs,
                (None, None) => true,
                _ => false,
            }) && r.1 == j && i <= r.1 <= t@.len()
        }),
    decreases t@.len() - i, 4nat,
{
    reveal_with_fuel(spec_branch_body, 2);
    if i >= t.len() {
        return (None, i);
    }
    proof {
        assert(toks_view(t@)[i as int] == t@[i as int]@);
    }
    if !matches!(&t[i], Token::Colon) {
        return (None, i + 1);
    }
    let j = skip_newlines(t, i + 1);
    proof {
        assert(j >= i + 1 && j <= t@.len());
    }
    if j >= t.len() {
        return (None, j);
    }
    proof {
        assert(toks_view(t@)[j as int] == t@[j as int]@);
    }
    if !matches!(&t[j], Token::Indent) {
        return (None, j + 1);
    }
    let (body, k) = parse_block(t, j + 1);
    proof {
        reveal(spec_branch_body);
        reveal(spec_parse_block);
        let tv = toks_view(t@);
        let (sb, sk) = spec_parse_block(tv, (j + 1) as nat);
        assert(spec_branch_body(tv, i as nat) == (Some(sb), sk));
    }
    (Some(body), k)
}

#[verifier::rlimit(60)]
fn elifs(t: &Vec<Token>, i: usize) -> (r: (Option<Vec<(BoolExpr, Vec<ASTNode>)>>, usize))
    requires
        i <= t@.len(),
    ensures
        ({
            let (o, j) = spec_elifs(toks_view(t@), i as nat);
            (match (r.0, o) {
                (Some(b), Some(bs)) => elifs_view(b@) == bs,
                (None, None) => true,
                _ => false,
            }) && r.1 == j && i <= r.1 <= t@.len()
        }),
    decreases t@.len() - i, 5nat,
{
    reveal(spec_elifs);
    reveal(spec_parse_bool_expr);
    reveal(spec_branch_body);
    proof {
        assert(i < t@.len() ==> toks_view(t@)[i as int] == t@[i as int]@);
    }
    if i < t.len() && matches!(&t[i], Token::Elif) {
        let (co, j) = parse_bool_expr(t, i + 1);
        let c = match co {
            None => {
                return (None, j);
            },
            Some(c) => c,
        };
        proof {
            assert(adv(toks_view(t@), i as nat, j as nat) == j as nat);
        }
        let (bo, k) = branch_body(t, j);
        let b = match bo {
            None => {
                return (None, k);
            },
            Some(b) => b,
        };
        proof {
            assert(adv(toks_view(t@), i as nat, k as nat) == k as nat);
        }
        let (ro, m) = elifs(t, k);
        match ro {
            None => (None, m),
            Some(mut rest) => {
                let ghost rest0 = rest@;
                let mut out: Vec<(BoolExpr, Vec<ASTNode>)> = Vec::new();
                let ghost cb = (bool_view(c), nodes_view(b@));
                out.push((c, b));
                out.append(&mut rest);
                proof {
                    assert(out@ =~= seq![out@[0]] + rest0);
                    lemma_elifs_view_concat(seq![out@[0]], rest0);
                    assert(seq![out@[0]].drop_first() =~= Seq::<(BoolExpr, Vec<ASTNode>)>::empty());
                    assert(elifs_view(Seq::<(BoolExpr, Vec<ASTNode>)>::empty())
                        == Seq::<(BoolS, Seq<NodeS>)>::empty());
                    assert(elifs_view(seq![out@[0]]) =~= seq![cb]);
                    let (so, sj) = spec_elifs(toks_view(t@), i as nat);
                    assert(elifs_view(out@) =~= so->0);
                }
                (Some(out), m)
            },
        }
    } else {
        let out: Vec<(BoolExpr, Vec<ASTNode>)> = Vec::new();
        proof {
            assert(elifs_view(out@) =~= Seq::<(BoolS, Seq<NodeS>)>::empty());
        }
        (Some(out), i)
    }
}

#[verifier::rlimit(100)]
#[verifier::spinoff_prover]
fn stmt_if(t: &Vec<Token>, i: usize) -> (r: (Option<ASTNode>, usize))
    requires
        i < t@.len(),
    ensures
        ({
            let (o, j) = spec_stmt_if(toks_view(t@), i as nat);
            onode_rel(r.0, o) && r.1 == j && i <= r.1 <= t@.len() && (r.0 is Some ==> r.1 > i)
        }),
    decreases t@.len() - i, 9nat,
{
    reveal(spec_stmt_if);
    reveal(spec_if_after_cond);
    reveal(spec_if_after_body);
    reveal(spec_if_after_elifs);
    reveal(spec_parse_bool_expr);
    reveal(spec_branch_body);
    reveal(spec_elifs);
    let tlen = t.len();
    let ghost tv = toks_view(t@);
    let (co, j) = parse_bool_expr(t, i + 1);
    let cond = match co {
        None => {
            return (None, j);
        },
        Some(c) => c,
    };
    proof {
        assert(spec_stmt_if(tv, i as nat) == spec_if_after_cond(tv, i as nat, bool_view(cond), j as nat));
        assert(adv(tv, i as nat, j as nat) == j as nat);
    }
    let (bo, k) = branch_body(t, j);
    let body = match bo {
        None => {
            return (None, k);
        },
        Some(b) => b,
    };
    proof {
        assert(spec_if_after_cond(tv, i as nat, bool_view(cond), j as nat) == spec_if_after_body(
            tv,
            i as nat,
            bool_view(cond),
            nodes_view(body@),
            k as nat,
        ));
        assert(adv(tv, i as nat, k as nat) == k as nat);
    }
    let (eo, m) = elifs(t, k);
    let elif_blocks = match eo {
        None => {
            return (None, m);
        },
        Some(e) => e,
    };
    proof {
        assert(spec_if_after_body(tv, i as nat, bool_view(cond), nodes_view(body@), k as nat)
            == spec_if_after_elifs(
            tv,
            i as nat,
            bool_view(cond),
            nodes_view(body@),
            elifs_view(elif_blocks@),
            m as nat,
        ));
        assert(adv(tv, i as nat, m as nat) == m as nat);
        assert(m < t@.len() ==> toks_view(t@)[m as int] == t@[m as int]@);
    }
    if m < t.len() && matches!(&t[m], Token::Else) {
        let (ebo, p) = branch_body(t, m + 1);
        match ebo {
            None => (None, p),
            Some(eb) => (
                Some(
                    ASTNode::IfStatement {
                        condition: cond,
                        body: body,
                        elif_blocks: elif_blocks,
                        else_body: Some(eb),
                    },
                ),
                p,
            ),
        }
    } else {
        (
            Some(
                ASTNode::IfStatement {
                    condition: cond,
                    body: body,
                    elif_blocks: elif_blocks,
                    else_body: None,
                },
            ),
            m,
        )
    }
}

#[verifier::rlimit(100)]
#[verifier::spinoff_prover]
fn parse_statement(t: &Vec<Token>, i: usize) -> (r: (Option<ASTNode>, usize))
    requires
        i <= t@.len(),
    ensures
        ({
            let (o, j) = spec_parse_statement(toks_view(t@), i as nat);
            onode_rel(r.0, o) && r.1 == j && i <= r.1 <= t@.len() && (r.0 is Some ==> r.1 > i)
        }),
    decreases t@.len() - i, 10nat,
{
    reveal(spec_parse_statement);
    reveal(spec_stmt_ai);
    reveal(spec_stmt_neuro);
    reveal(spec_stmt_set);
    reveal(spec_stmt_macro);
    reveal(spec_stmt_if);
    if i >= t.len() {
        return (None, i);
    }
    proof {
        assert(toks_view(t@)[i as int] == t@[i as int]@);
    }
    match &t[i] {
        Token::AI => stmt_ai(t, i),
        Token::Neuro => stmt_neuro(t, i),
        Token::SetKw => stmt_set(t, i),
        Token::Macro => stmt_macro(t, i),
        Token::If => stmt_if(t, i),
        Token::Comment => (None, i + 1),
        _ => (None, i),
    }
}

#[verifier::rlimit(60)]
fn parse_block(t: &Vec<Token>, i: usize) -> (r: (Vec<ASTNode>, usize))
    requires
        i <= t@.len(),
    ensures
        ({
            let (b, j) = spec_parse_block(toks_view(t@), i as nat);
            nodes_view(r.0@) == b && r.1 == j && i <= r.1 <= t@.len()
        }),
    decreases t@.len() - i, 11nat,
{
    reveal(spec_parse_block);
    reveal(spec_parse_statement);
    if i >= t.len() {
        let out: Vec<ASTNode> = Vec::new();
        proof {
            assert(nodes_view(out@) =~= Seq::<NodeS>::empty());
        }
        return (out, i);
    }
    proof {
        assert(toks_view(t@)[i as int] == t@[i as int]@);
    }
    if matches!(&t[i], Token::Dedent) {
        let out: Vec<ASTNode> = Vec::new();
        proof {
            assert(nodes_view(out@) =~= Seq::<NodeS>::empty());
        }
        return (out, i + 1);
    }
    if matches!(&t[i], Token::Newline) {
        return parse_block(t, i + 1);
    }
    let (o, j) = parse_statement(t, i);
    match o {
        Some(n) => {
            proof {
                assert(adv(toks_view(t@), i as nat, j as nat) == j as nat);
            }
            let ghost nv = node_view(n);
            let (mut rest, k) = parse_block(t, j);
            let ghost rest0 = rest@;
            let mut out: Vec<ASTNode> = Vec::new();
            out.push(n);
            out.append(&mut rest);
            proof {
                assert(out@ =~= seq![out@[0]] + rest0);
                lemma_nodes_view_concat(seq![out@[0]], rest0);
                assert(seq![out@[0]].drop_first() =~= Seq::<ASTNode>::empty());
                assert(nodes_view(Seq::<ASTNode>::empty()) == Seq::<NodeS>::empty());
                assert(nodes_view(seq![out@[0]]) =~= seq![nv]);
                let (sb, sj) = spec_parse_block(toks_view(t@), i as nat);
                assert(nodes_view(out@) =~= sb);
            }
            (out, k)
        },
        None => {
            let jj = if j < t.len() {
                j + 1
            } else {
                j
            };
            proof {
                assert(adv(toks_view(t@), i as nat, jj as nat) == jj as nat);
            }
            parse_block(t, jj)
        },
    }
}

/// Parses a token stream into its statement list.
#[verifier::rlimit(100)]
pub fn parse(tokens: Vec<Token>) -> (r: Vec<ASTNode>)
    ensures
        nodes_view(r@) == spec_parse(toks_view(tokens@)),
{
    reveal(spec_parse_stmts);
    reveal(spec_parse_statement);
    let t = &tokens;
    let ghost tv = toks_view(tokens@);
    let mut out: Vec<ASTNode> = Vec::new();
    let mut i: usize = 0;
    proof {
        assert(nodes_view(out@) + spec_parse_stmts(tv, 0) =~= spec_parse_stmts(tv, 0));
    }
    while i < t.len()
        invariant
            i <= t@.len(),
            tv == toks_view(t@),
            t == tokens,
            spec_parse_stmts(tv, 0) == nodes_view(out@) + spec_parse_stmts(tv, i as nat),
        decreases t@.len() - i,
    {
        reveal(spec_parse_stmts);
        let ghost out0 = out@;
        let (o, j) = parse_statement(t, i);
        match o {
            Some(n) => {
                proof {
                    assert(adv(tv, i as nat, j as nat) == j as nat);
                }
                let ghost nv = node_view(n);
                out.push(n);
                proof {
                    lemma_nodes_view_push(out0, n);
                    assert((nodes_view(out0) + seq![nv]) + spec_parse_stmts(tv, j as nat)
                        =~= nodes_view(out0) + (seq![nv] + spec_parse_stmts(tv, j as nat)));
                }
                i = j;
            },
            None => {
                let jj = if j < t.len() {
                    j + 1
                } else {
                    j
                };
                proof {
                    assert(adv(tv, i as nat, jj as nat) == jj as nat);
                }
                i = jj;
            },
        }
    }
    proof {
        assert(spec_parse_stmts(tv, i as nat) =~= Seq::<NodeS>::empty());
        assert(nodes_view(out@) + Seq::<NodeS>::empty() =~= nodes_view(out@));
    }
    out
}

} // verus!
