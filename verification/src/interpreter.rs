//! Interpreter.
//!
//! Walks the syntax tree, keeping a variable environment and an output
//! buffer. Arithmetic follows the numeric coercion rules of
//! [`crate::numeric`]; equality is case-insensitive and whitespace-trimmed.
//! Classifier-backed statements reach the external classifier only through
//! the [`Classifier`] trait; every decision taken on its answers is
//! verified for every possible answer, and where no classifier can load,
//! the whole run is pinned by [`spec_run_nodes`].
//!
//! Macro invocation synthesizes source text, tokenizes and parses it, and
//! runs the result in the same environment, under an explicit expansion
//! depth that fails closed.

use vstd::prelude::*;
use crate::env::{Env, spec_lookup_or};
use crate::lexer::{tokenize, spec_tokenize};
use crate::parser::{parse, spec_parse, ASTNode, Expr, BinaryOperator, BoolExpr, NodeS, ExprS,
    BoolS, nodes_view, node_view, expr_view, bool_view, elifs_view, is_lit_str, strip_quotes_str,
    spec_is_lit, spec_strip_quotes};
use crate::numeric::{Num, NumS, parse_num, spec_parse_num, num_add, num_sub, num_mul, num_div,
    num_cmp, spec_num_add, spec_num_sub, spec_num_mul, spec_num_div, spec_num_cmp, fmt_num,
    spec_fmt_num, spec_parse_dec, spec_abs, spec_trunc_rem, DecS};
use crate::synth::{synthesize_macro, spec_synthesize, spec_trigger};
use crate::text::{chars_of, string_of, trim, spec_trim, chars_eq_ci, spec_seq_eq_ci, chars_eq,
    spec_lower_u, lower_u, extend};

verus! {

/// The label set a loaded classifier answers with.
#[derive(Debug, PartialEq, Eq, Structural, Clone, Copy)]
pub enum ModelKind {
    SST2,
    Toxic,
    FactCheck,
    Intent,
    MacroIntent,
    Unknown,
}

/// The external classifier: the library never implements real inference,
/// it only decides on the answers. Nothing is assumed of the answers
/// themselves; the one stated fact is that a kind of classifier that never
/// loads indeed never loads.
pub trait Classifier: Sized {
    spec fn loads() -> bool;

    fn load(path: &str) -> (r: Option<Self>)
        ensures
            !Self::loads() ==> r is None,
    ;

    fn kind(&self) -> ModelKind;

    fn predict(&self, text: &str) -> Option<String>;

    /// The label and whether its confidence reached the synthesis
    /// threshold.
    fn predict_confident(&self, text: &str) -> Option<(String, bool)>;
}

/// The classifier that is never there: every load fails and every
/// prediction is absent. With it the interpreter is fully deterministic.
pub struct NoClassifier;

impl Classifier for NoClassifier {
    open spec fn loads() -> bool {
        false
    }

    fn load(path: &str) -> (r: Option<Self>) {
        None
    }

    fn kind(&self) -> ModelKind {
        ModelKind::Unknown
    }

    fn predict(&self, text: &str) -> Option<String> {
        None
    }

    fn predict_confident(&self, text: &str) -> Option<(String, bool)> {
        None
    }
}

// ---------------------------------------------------------------------------
// value semantics
// ---------------------------------------------------------------------------

/// A value that keeps its own spelling: an integer numeral or a reserved
/// word is itself, anything else resolves through the environment.
pub open spec fn spec_self_value(v: Seq<char>) -> bool {
    (spec_parse_num(v) matches Some(n) && n matches NumS::Fin(d) && d.s == 0) || v == "None"@ || v
        == "true"@ || v == "false"@
}

/// Case-insensitive lexicographic comparison, negative/zero/positive.
pub open spec fn spec_lex_cmp(a: Seq<char>, b: Seq<char>) -> int
    decreases a.len(),
{
    if a.len() == 0 && b.len() == 0 {
        0
    } else if a.len() == 0 {
        -1
    } else if b.len() == 0 {
        1
    } else if spec_lower_u(a[0]) < spec_lower_u(b[0]) {
        -1
    } else if spec_lower_u(a[0]) > spec_lower_u(b[0]) {
        1
    } else {
        spec_lex_cmp(a.drop_first(), b.drop_first())
    }
}

fn lex_cmp(a: &Vec<char>, i: usize, b: &Vec<char>, j: usize) -> (r: i32)
    requires
        i <= a@.len(),
        j <= b@.len(),
    ensures
        r == spec_lex_cmp(a@.subrange(i as int, a@.len() as int), b@.subrange(j as int, b@.len() as int)),
    decreases a@.len() - i,
{
    let ghost sa = a@.subrange(i as int, a@.len() as int);
    let ghost sb = b@.subrange(j as int, b@.len() as int);
    if i >= a.len() && j >= b.len() {
        0
    } else if i >= a.len() {
        -1
    } else if j >= b.len() {
        1
    } else {
        let la = lower_u(a[i]);
        let lb = lower_u(b[j]);
        proof {
            assert(sa[0] == a@[i as int]);
            assert(sb[0] == b@[j as int]);
        }
        if la < lb {
            -1
        } else if la > lb {
            1
        } else {
            let r = lex_cmp(a, i + 1, b, j + 1);
            proof {
                assert(sa.drop_first() =~= a@.subrange((i + 1) as int, a@.len() as int));
                assert(sb.drop_first() =~= b@.subrange((j + 1) as int, b@.len() as int));
            }
            r
        }
    }
}

/// Comparison of two value spellings: numeric where both read as numbers,
/// else case-insensitive lexicographic; negative, zero or positive.
pub open spec fn spec_vals_cmp(a0: Seq<char>, b0: Seq<char>) -> int {
    let a = spec_trim(a0);
    let b = spec_trim(b0);
    match (spec_parse_num(a), spec_parse_num(b)) {
        (Some(x), Some(y)) => spec_num_cmp(x, y),
        _ => spec_lex_cmp(a, b),
    }
}

/// Compares two value spellings.
pub fn vals_cmp(a0: &str, b0: &str) -> (r: i32)
    ensures
        r < 0 <==> spec_vals_cmp(a0@, b0@) < 0,
        r == 0 <==> spec_vals_cmp(a0@, b0@) == 0,
        r > 0 <==> spec_vals_cmp(a0@, b0@) > 0,
{
    let av = chars_of(a0);
    let bv = chars_of(b0);
    let a = trim(&av);
    let b = trim(&bv);
    let na = parse_num(&a);
    let nb = parse_num(&b);
    match (na, nb) {
        (Some(x), Some(y)) => num_cmp(&x, &y),
        (x, y) => {
            proof {
                assert(a@.subrange(0, a@.len() as int) =~= a@);
                assert(b@.subrange(0, b@.len() as int) =~= b@);
            }
            lex_cmp(&a, 0, &b, 0)
        },
    }
}

/// Case-insensitive, whitespace-trimmed equality of two values.
pub open spec fn spec_eq_case(a: Seq<char>, b: Seq<char>) -> bool {
    spec_seq_eq_ci(spec_trim(a), spec_trim(b))
}

pub fn eq_case(a: &str, b: &str) -> (r: bool)
    ensures
        r == spec_eq_case(a@, b@),
{
    let av = chars_of(a);
    let bv = chars_of(b);
    let at = trim(&av);
    let bt = trim(&bv);
    chars_eq_ci(&at, &bt)
}

/// The arithmetic type-mismatch sentinel.
pub open spec fn spec_arith_err() -> Seq<char> {
    "\u{274c} Arithmetic does not work on strings"@
}

/// The modulo type-mismatch sentinel.
pub open spec fn spec_mod_err() -> Seq<char> {
    "\u{274c} Modulo does not work on strings"@
}

/// What one expression evaluates to, over the environment.
pub open spec fn spec_eval_expr(env: Map<Seq<char>, Seq<char>>, e: ExprS) -> Seq<char>
    decreases e,
{
    match e {
        ExprS::StrLit(s) => s,
        ExprS::Value(v) => if spec_self_value(v) {
            v
        } else {
            spec_lookup_or(env, v)
        },
        ExprS::Bin(l, op, r) => {
            let lraw = spec_eval_expr(env, *l);
            let rraw = spec_eval_expr(env, *r);
            spec_eval_binop(lraw, op, rraw)
        },
    }
}

/// One binary operation over two value spellings.
pub open spec fn spec_eval_binop(lraw: Seq<char>, op: BinaryOperator, rraw: Seq<char>) -> Seq<
    char,
> {
    let lt = spec_trim(lraw);
    let rt = spec_trim(rraw);
    let ln = spec_parse_num(lt);
    let rn = spec_parse_num(rt);
    match op {
        BinaryOperator::Add => match (ln, rn) {
            (Some(a), Some(b)) => spec_fmt_num(spec_num_add(a, b)),
            _ => lraw + rraw,
        },
        BinaryOperator::Sub => match (ln, rn) {
            (Some(a), Some(b)) => spec_fmt_num(spec_num_sub(a, b)),
            _ => spec_arith_err(),
        },
        BinaryOperator::Mul => match (ln, rn) {
            (Some(a), Some(b)) => spec_fmt_num(spec_num_mul(a, b)),
            _ => spec_arith_err(),
        },
        BinaryOperator::Div => match (ln, rn) {
            (Some(a), Some(b)) => spec_fmt_num(spec_num_div(a, b)),
            _ => spec_arith_err(),
        },
        BinaryOperator::Mod => match (ln, rn) {
            (Some(NumS::Fin(a)), Some(NumS::Fin(b))) => if a.s == 0 && b.s == 0 {
                if b.m == 0 {
                    spec_mod_err()
                } else {
                    spec_fmt_num(NumS::Fin(DecS { m: spec_trunc_rem(a.m, b.m), s: 0 }))
                }
            } else {
                spec_mod_err()
            },
            _ => spec_mod_err(),
        },
        BinaryOperator::Gt => spec_bool_str(spec_vals_cmp(lraw, rraw) > 0),
        BinaryOperator::Lt => spec_bool_str(spec_vals_cmp(lraw, rraw) < 0),
        BinaryOperator::Ge => spec_bool_str(spec_vals_cmp(lraw, rraw) >= 0),
        BinaryOperator::Le => spec_bool_str(spec_vals_cmp(lraw, rraw) <= 0),
        BinaryOperator::Eq => spec_bool_str(spec_eq_case(lraw, rraw)),
        BinaryOperator::Ne => spec_bool_str(!spec_eq_case(lraw, rraw)),
    }
}

pub open spec fn spec_bool_str(b: bool) -> Seq<char> {
    if b {
        "true"@
    } else {
        "false"@
    }
}

fn bool_str(b: bool) -> (r: String)
    ensures
        r@ == spec_bool_str(b),
{
    if b {
        let v = chars_of("true");
        string_of(&v)
    } else {
        let v = chars_of("false");
        string_of(&v)
    }
}

/// Evaluates one expression against an environment.
pub fn eval_expr(env: &Env, e: &Expr) -> (r: String)
    ensures
        r@ == spec_eval_expr(env@, expr_view(*e)),
    decreases *e,
{
    match e {
        Expr::StringLit(s) => s.clone(),
        Expr::Value(v) => {
            let vv = chars_of(v.as_str());
            let vt = &vv;
            let intlike = match parse_num(vt) {
                Some(Num::Fin(d)) => d.s == 0,
                _ => false,
            };
            proof {
                reveal_strlit("None");
                reveal_strlit("true");
                reveal_strlit("false");
            }
            let nonev = chars_of("None");
            let truev = chars_of("true");
            let falsev = chars_of("false");
            let reserved = chars_eq(&vv, &nonev) || chars_eq(&vv, &truev) || chars_eq(
                &vv,
                &falsev,
            );
            if intlike && !matches!(parse_num(&vv), Some(Num::NaN)) {
                proof {
                    assert(spec_self_value(v@));
                }
                v.clone()
            } else if reserved {
                v.clone()
            } else {
                proof {
                    assert(!spec_self_value(v@));
                }
                env.get_or_literal(v.as_str())
            }
        },
        Expr::BinaryOp(l, op, r) => {
            let lraw = eval_expr(env, &**l);
            let rraw = eval_expr(env, &**r);
            eval_binop(lraw, op, rraw)
        },
    }
}

fn eval_binop(lraw: String, op: &BinaryOperator, rraw: String) -> (r: String)
    ensures
        r@ == spec_eval_binop(lraw@, *op, rraw@),
{
    let lv = chars_of(lraw.as_str());
    let rv = chars_of(rraw.as_str());
    let lt = trim(&lv);
    let rt = trim(&rv);
    let ln = parse_num(&lt);
    let rn = parse_num(&rt);
    let lts = string_of(&lt);
    let rts = string_of(&rt);
    match op {
        BinaryOperator::Add => match (&ln, &rn) {
            (Some(a), Some(b)) => {
                let n = num_add(a, b);
                string_of(&fmt_num(&n))
            },
            _ => {
                let mut out = chars_of(lraw.as_str());
                let rr = chars_of(rraw.as_str());
                extend(&mut out, &rr);
                string_of(&out)
            },
        },
        BinaryOperator::Sub => match (&ln, &rn) {
            (Some(a), Some(b)) => {
                let n = num_sub(a, b);
                string_of(&fmt_num(&n))
            },
            _ => string_of(&chars_of("\u{274c} Arithmetic does not work on strings")),
        },
        BinaryOperator::Mul => match (&ln, &rn) {
            (Some(a), Some(b)) => {
                let n = num_mul(a, b);
                string_of(&fmt_num(&n))
            },
            _ => string_of(&chars_of("\u{274c} Arithmetic does not work on strings")),
        },
        BinaryOperator::Div => match (&ln, &rn) {
            (Some(a), Some(b)) => {
                let n = num_div(a, b);
                string_of(&fmt_num(&n))
            },
            _ => string_of(&chars_of("\u{274c} Arithmetic does not work on strings")),
        },
        BinaryOperator::Mod => {
            let ia = match &ln {
                Some(Num::Fin(d)) => if d.s == 0 {
                    Some(d.m)
                } else {
                    None
                },
                _ => None,
            };
            let ib = match &rn {
                Some(Num::Fin(d)) => if d.s == 0 {
                    Some(d.m)
                } else {
                    None
                },
                _ => None,
            };
            match (ia, ib) {
                (Some(a), Some(b)) => {
                    if b == 0 {
                        string_of(&chars_of("\u{274c} Modulo does not work on strings"))
                    } else {
                        proof {
                            crate::numeric::lemma_pow10_18();
                            crate::numeric::lemma_pow10_36();
                        }
                        let ua: u128 = if a < 0 {
                            (-a) as u128
                        } else {
                            a as u128
                        };
                        let ub: u128 = if b < 0 {
                            (-b) as u128
                        } else {
                            b as u128
                        };
                        let mag = ua % ub;
                        let m: i128 = if a < 0 {
                            -(mag as i128)
                        } else {
                            mag as i128
                        };
                        let n = Num::Fin(crate::numeric::Dec { m, s: 0 });
                        proof {
                            assert(ua as int == spec_abs(a as int));
                            assert(ub as int == spec_abs(b as int));
                            assert(mag as int == spec_abs(a as int) % spec_abs(b as int));
                            assert(m as int == spec_trunc_rem(a as int, b as int));
                        }
                        string_of(&fmt_num(&n))
                    }
                },
                _ => string_of(&chars_of("\u{274c} Modulo does not work on strings")),
            }
        },
        BinaryOperator::Gt => bool_str(vals_cmp(lraw.as_str(), rraw.as_str()) > 0),
        BinaryOperator::Lt => bool_str(vals_cmp(lraw.as_str(), rraw.as_str()) < 0),
        BinaryOperator::Ge => bool_str(vals_cmp(lraw.as_str(), rraw.as_str()) >= 0),
        BinaryOperator::Le => bool_str(vals_cmp(lraw.as_str(), rraw.as_str()) <= 0),
        BinaryOperator::Eq => bool_str(eq_case(lraw.as_str(), rraw.as_str())),
        BinaryOperator::Ne => bool_str(!eq_case(lraw.as_str(), rraw.as_str())),
    }
}

// ---------------------------------------------------------------------------
// boolean conditions
// ---------------------------------------------------------------------------

/// What a condition evaluates to when no classifier is present: the
/// classifier comparisons are false, everything else is decided by the
/// environment.
pub open spec fn spec_eval_bool(env: Map<Seq<char>, Seq<char>>, b: BoolS) -> bool
    decreases b,
{
    match b {
        BoolS::Equals(p, e) => false,
        BoolS::NotEquals(p, e) => false,
        BoolS::EqualsVar(v, l) => spec_eq_case(spec_lookup_or(env, v), l),
        BoolS::NotEqualsVar(v, l) => !spec_eq_case(spec_lookup_or(env, v), l),
        BoolS::VarEqualsVar(a, c) => spec_eq_case(spec_lookup_or(env, a), spec_lookup_or(env, c)),
        BoolS::VarNotEqualsVar(a, c) => !spec_eq_case(
            spec_lookup_or(env, a),
            spec_lookup_or(env, c),
        ),
        BoolS::Greater(l, r) => spec_vals_cmp(spec_lookup_or(env, l), spec_lookup_or(env, r)) > 0,
        BoolS::GreaterEqual(l, r) => spec_vals_cmp(
            spec_lookup_or(env, l),
            spec_lookup_or(env, r),
        ) >= 0,
        BoolS::Less(l, r) => spec_vals_cmp(spec_lookup_or(env, l), spec_lookup_or(env, r)) < 0,
        BoolS::LessEqual(l, r) => spec_vals_cmp(spec_lookup_or(env, l), spec_lookup_or(env, r))
            <= 0,
        BoolS::And(l, r) => spec_eval_bool(env, *l) && spec_eval_bool(env, *r),
        BoolS::Or(l, r) => spec_eval_bool(env, *l) || spec_eval_bool(env, *r),
    }
}

/// A condition free of classifier comparisons.
pub open spec fn spec_bool_pure(b: BoolS) -> bool
    decreases b,
{
    match b {
        BoolS::Equals(p, e) => false,
        BoolS::NotEquals(p, e) => false,
        BoolS::And(l, r) => spec_bool_pure(*l) && spec_bool_pure(*r),
        BoolS::Or(l, r) => spec_bool_pure(*l) && spec_bool_pure(*r),
        _ => true,
    }
}

// ---------------------------------------------------------------------------
// the interpreter
// ---------------------------------------------------------------------------

/// The ghost state one run threads: the environment and the output lines.
pub struct StateS {
    pub env: Map<Seq<char>, Seq<char>>,
    pub out: Seq<Seq<char>>,
}

pub open spec fn node_wt(n: NodeS) -> nat
    decreases n,
{
    match n {
        NodeS::If { cond, body, elifs, els } => 1 + nodes_wt(body) + elifs_wt(elifs) + (match els {
            Some(b) => 1 + nodes_wt(b),
            None => 0,
        }),
        _ => 1,
    }
}

pub open spec fn nodes_wt(l: Seq<NodeS>) -> nat
    decreases l,
{
    if l.len() == 0 {
        0
    } else {
        node_wt(l[0]) + nodes_wt(l.drop_first())
    }
}

pub open spec fn elifs_wt(l: Seq<(BoolS, Seq<NodeS>)>) -> nat
    decreases l,
{
    if l.len() == 0 {
        0
    } else {
        1 + nodes_wt(l[0].1) + elifs_wt(l.drop_first())
    }
}

/// The expansion depth macro re-entry is allowed; failing closed past it.
pub open spec fn spec_macro_depth() -> int {
    8
}

/// The fatal-model-load message.
pub open spec fn spec_load_err(path: Seq<char>) -> Seq<char> {
    "\u{274c} Failed to load model: "@ + path
}

/// The closed-failure message for too-deep macro expansion.
pub open spec fn spec_depth_err() -> Seq<char> {
    "\u{274c} Macro expansion too deep"@
}

/// What the output statement emits for its argument.
pub open spec fn spec_neuro_msg(env: Map<Seq<char>, Seq<char>>, arg: Seq<char>) -> Seq<char> {
    if spec_is_lit(arg) {
        spec_strip_quotes(arg)
    } else if env.contains_key(arg) {
        spec_trim(env[arg])
    } else {
        spec_trim(spec_strip_quotes(arg))
    }
}

/// One statement of a classifier-free run.
pub open spec fn spec_run_node(st: StateS, n: NodeS, depth: int) -> Result<StateS, Seq<char>>
    decreases depth, node_wt(n), 0nat,
{
    match n {
        NodeS::AIModel(path) => Err(spec_load_err(path)),
        NodeS::Neuro(arg) => Ok(
            StateS { env: st.env, out: st.out.push(spec_neuro_msg(st.env, arg)) },
        ),
        NodeS::SetVar(name, e) => Ok(
            StateS { env: st.env.insert(name, spec_trim(spec_eval_expr(st.env, e))), out: st.out },
        ),
        NodeS::SetVarFromAI(name, prompt) => Ok(
            StateS { env: st.env.insert(name, spec_trim(prompt)), out: st.out },
        ),
        NodeS::MacroCall(instr) => {
            if spec_trigger(instr) {
                // the entry marker short-circuits synthesis: the fixed
                // comment line is emitted, before any classification
                if depth > 0 {
                    Ok(StateS { env: st.env, out: st.out.push("// main starts here"@) })
                } else {
                    Err(spec_depth_err())
                }
            } else {
                let dsl = spec_synthesize("Unknown"@, false, instr);
                match spec_tokenize(dsl) {
                    Ok(ts) => if depth > 0 {
                        spec_run_nodes(st, spec_parse(ts), depth - 1)
                    } else {
                        Err(spec_depth_err())
                    },
                    Err(e) => Ok(st),
                }
            }
        },
        NodeS::If { cond, body, elifs, els } => if spec_eval_bool(st.env, cond) {
            spec_run_nodes(st, body, depth)
        } else {
            match spec_elif_chain(st, elifs, depth) {
                Err(e) => Err(e),
                Ok((true, st2)) => Ok(st2),
                Ok((false, st2)) => match els {
                    Some(b) => spec_run_nodes(st2, b, depth),
                    None => Ok(st2),
                },
            }
        },
    }
}

/// A statement that reaches no classifier: not a model selection, not a
/// macro invocation, every nested block likewise. Conditions need no
/// restriction: with no handle held, a classifier comparison is false.
pub open spec fn spec_node_cfree(n: NodeS) -> bool
    decreases n,
{
    match n {
        NodeS::AIModel(p) => false,
        NodeS::MacroCall(i) => false,
        NodeS::If { cond, body, elifs, els } => spec_nodes_cfree(body) && spec_elifs_cfree(elifs)
            && (match els {
            Some(b) => spec_nodes_cfree(b),
            None => true,
        }),
        _ => true,
    }
}

pub open spec fn spec_nodes_cfree(l: Seq<NodeS>) -> bool
    decreases l,
{
    if l.len() == 0 {
        true
    } else {
        spec_node_cfree(l[0]) && spec_nodes_cfree(l.drop_first())
    }
}

pub open spec fn spec_elifs_cfree(l: Seq<(BoolS, Seq<NodeS>)>) -> bool
    decreases l,
{
    if l.len() == 0 {
        true
    } else {
        spec_nodes_cfree(l[0].1) && spec_elifs_cfree(l.drop_first())
    }
}

pub open spec fn spec_run_nodes(st: StateS, l: Seq<NodeS>, depth: int) -> Result<StateS, Seq<char>>
    decreases depth, nodes_wt(l), l.len(),
{
    if l.len() == 0 {
        Ok(st)
    } else {
        match spec_run_node(st, l[0], depth) {
            Ok(st2) => spec_run_nodes(st2, l.drop_first(), depth),
            Err(e) => Err(e),
        }
    }
}

/// The `elif` chain alone: whether a branch matched, and the state.
pub open spec fn spec_elif_chain(st: StateS, elifs: Seq<(BoolS, Seq<NodeS>)>, depth: int) -> Result<
    (bool, StateS),
    Seq<char>,
>
    decreases depth, elifs_wt(elifs), 2nat,
{
    if elifs.len() == 0 {
        Ok((false, st))
    } else if spec_eval_bool(st.env, elifs[0].0) {
        match spec_run_nodes(st, elifs[0].1, depth) {
            Ok(st2) => Ok((true, st2)),
            Err(e) => Err(e),
        }
    } else {
        spec_elif_chain(st, elifs.drop_first(), depth)
    }
}

pub proof fn lemma_nodes_cfree_index(l: Seq<NodeS>, i: int)
    requires
        spec_nodes_cfree(l),
        0 <= i < l.len(),
    ensures
        spec_node_cfree(l[i]),
    decreases i,
{
    if i > 0 {
        lemma_nodes_cfree_index(l.drop_first(), i - 1);
    }
}

pub proof fn lemma_elifs_cfree_index(l: Seq<(BoolS, Seq<NodeS>)>, i: int)
    requires
        spec_elifs_cfree(l),
        0 <= i < l.len(),
    ensures
        spec_nodes_cfree(l[i].1),
    decreases i,
{
    if i > 0 {
        lemma_elifs_cfree_index(l.drop_first(), i - 1);
    }
}

pub struct Interpreter<C: Classifier> {
    ai_model: Option<C>,
    ai_is_macro: bool,
    macro_model: Option<C>,
    pub variables: Env,
    output: Vec<String>,
}

/// The output lines as character sequences.
pub open spec fn out_view(v: Seq<String>) -> Seq<Seq<char>> {
    v.map_values(|s: String| s@)
}

impl<C: Classifier> Interpreter<C> {
    /// No classifier handle is held.
    pub closed spec fn cfree(&self) -> bool {
        self.ai_model is None && self.macro_model is None
    }

    pub closed spec fn state(&self) -> StateS {
        StateS { env: self.variables@, out: out_view(self.output@) }
    }

    /// A fresh interpreter: empty environment, empty output, no model.
    pub fn new() -> (r: Self)
        ensures
            r.cfree(),
            r.state().env == Map::<Seq<char>, Seq<char>>::empty(),
            r.state().out == Seq::<Seq<char>>::empty(),
    {
        let r = Interpreter {
            ai_model: None,
            ai_is_macro: false,
            macro_model: None,
            variables: Env::new(),
            output: Vec::new(),
        };
        proof {
            assert(out_view(r.output@) =~= Seq::<Seq<char>>::empty());
        }
        r
    }

    /// Drops the buffered output.
    pub fn clear_output(&mut self)
        ensures
            final(self).state().out == Seq::<Seq<char>>::empty(),
            final(self).state().env == old(self).state().env,
            final(self).cfree() == old(self).cfree(),
    {
        self.output.clear();
        proof {
            assert(out_view(self.output@) =~= Seq::<Seq<char>>::empty());
        }
    }

    /// The buffered output joined with newlines, the buffer drained.
    pub fn take_output(&mut self) -> (r: String)
        ensures
            r@ == crate::synth::spec_join_nl(old(self).state().out),
            final(self).state().out == Seq::<Seq<char>>::empty(),
            final(self).state().env == old(self).state().env,
            final(self).cfree() == old(self).cfree(),
    {
        let joined = self.join_output(0);
        self.output.clear();
        proof {
            assert(out_view(self.output@) =~= Seq::<Seq<char>>::empty());
            assert(out_view(old(self).output@).subrange(0, out_view(old(self).output@).len() as int)
                =~= out_view(old(self).output@));
        }
        joined
    }

    fn join_output(&self, from: usize) -> (r: String)
        requires
            from <= self.output@.len(),
        ensures
            r@ == crate::synth::spec_join_nl(
                out_view(self.output@).subrange(from as int, self.output@.len() as int),
            ),
        decreases self.output@.len() - from,
    {
        let ghost whole = out_view(self.output@).subrange(from as int, self.output@.len() as int);
        if from >= self.output.len() {
            proof {
                assert(whole =~= Seq::<Seq<char>>::empty());
            }
            return String::new();
        }
        let mut out = chars_of(self.output[from].as_str());
        proof {
            assert(out@ =~= whole[0]);
        }
        if from + 1 >= self.output.len() {
            proof {
                assert(whole.len() == 1);
            }
            return string_of(&out);
        }
        out.push('\n');
        let rest = self.join_output(from + 1);
        let rv = chars_of(rest.as_str());
        extend(&mut out, &rv);
        proof {
            assert(whole.drop_first() =~= out_view(self.output@).subrange(
                (from + 1) as int,
                self.output@.len() as int,
            ));
            assert(out@ =~= whole[0] + seq!['\n'] + crate::synth::spec_join_nl(
                whole.drop_first(),
            ));
        }
        string_of(&out)
    }

    /// Decides a classifier-literal comparison from whatever the
    /// classifier answered: an absent answer is false, a present one is
    /// compared case-insensitively and trimmed.
    pub fn classifier_eq(answer: Option<String>, expected: &str) -> (r: bool)
        ensures
            answer is None ==> r == false,
            answer matches Some(l) ==> r == spec_eq_case(l@, expected@),
    {
        match answer {
            Some(l) => eq_case(l.as_str(), expected),
            None => false,
        }
    }

    /// Evaluates a condition; with no classifier handle held the result is
    /// exactly the specification's, whatever classifier kind is in play.
    fn eval_bool(&self, b: &BoolExpr) -> (r: bool)
        ensures
            self.cfree() ==> r == spec_eval_bool(self.state().env, bool_view(*b)),
        decreases *b,
    {
        match b {
            BoolExpr::Equals(p, e) => {
                match &self.ai_model {
                    Some(m) => Self::classifier_eq(m.predict(p.as_str()), e.as_str()),
                    None => false,
                }
            },
            BoolExpr::NotEquals(p, e) => {
                match &self.ai_model {
                    Some(m) => match m.predict(p.as_str()) {
                        Some(l) => !eq_case(l.as_str(), e.as_str()),
                        None => false,
                    },
                    None => false,
                }
            },
            BoolExpr::EqualsVar(v, l) => {
                let val = self.variables.get_or_literal(v.as_str());
                eq_case(val.as_str(), l.as_str())
            },
            BoolExpr::NotEqualsVar(v, l) => {
                let val = self.variables.get_or_literal(v.as_str());
                !eq_case(val.as_str(), l.as_str())
            },
            BoolExpr::VarEqualsVar(a, c) => {
                let va = self.variables.get_or_literal(a.as_str());
                let vc = self.variables.get_or_literal(c.as_str());
                eq_case(va.as_str(), vc.as_str())
            },
            BoolExpr::VarNotEqualsVar(a, c) => {
                let va = self.variables.get_or_literal(a.as_str());
                let vc = self.variables.get_or_literal(c.as_str());
                !eq_case(va.as_str(), vc.as_str())
            },
            BoolExpr::Greater(l, r2) => {
                let lv = self.variables.get_or_literal(l.as_str());
                let rv = self.variables.get_or_literal(r2.as_str());
                vals_cmp(lv.as_str(), rv.as_str()) > 0
            },
            BoolExpr::GreaterEqual(l, r2) => {
                let lv = self.variables.get_or_literal(l.as_str());
                let rv = self.variables.get_or_literal(r2.as_str());
                vals_cmp(lv.as_str(), rv.as_str()) >= 0
            },
            BoolExpr::Less(l, r2) => {
                let lv = self.variables.get_or_literal(l.as_str());
                let rv = self.variables.get_or_literal(r2.as_str());
                vals_cmp(lv.as_str(), rv.as_str()) < 0
            },
            BoolExpr::LessEqual(l, r2) => {
                let lv = self.variables.get_or_literal(l.as_str());
                let rv = self.variables.get_or_literal(r2.as_str());
                vals_cmp(lv.as_str(), rv.as_str()) <= 0
            },
            BoolExpr::And(l, r2) => {
                // both sides are always evaluated: no short circuit
                let a = self.eval_bool(&**l);
                let c = self.eval_bool(&**r2);
                a && c
            },
            BoolExpr::Or(l, r2) => {
                let a = self.eval_bool(&**l);
                let c = self.eval_bool(&**r2);
                a || c
            },
        }
    }

    /// The macro classifier's answer, resolving the cached handle, the
    /// active handle when it is of the macro-intent kind, and the default
    /// model path, in that order.
    fn macro_predict(&mut self, text: &str) -> (r: Option<(String, bool)>)
        ensures
            final(self).state() == old(self).state(),
            (!C::loads() && old(self).cfree()) ==> final(self).cfree() && r is None,
    {
        match &self.macro_model {
            Some(m) => {
                return m.predict_confident(text);
            },
            None => {},
        }
        if self.ai_is_macro {
            match &self.ai_model {
                Some(m) => {
                    return m.predict_confident(text);
                },
                None => {},
            }
        }
        match C::load("models/intent_macro/model.onnx") {
            Some(m) => {
                let r = m.predict_confident(text);
                self.macro_model = Some(m);
                r
            },
            None => None,
        }
    }

    /// Runs one statement. An output statement never changes a variable;
    /// an assignment never writes output; a hard-triggered macro emits the
    /// fixed comment line without consulting any classifier; with no
    /// classifier handle held and no statement that reaches one, the
    /// effect is exactly the specification's, whatever classifier kind is
    /// in play; and so is the whole effect when no classifier can load.
    fn run_node(&mut self, n: &ASTNode, depth: u64) -> (r: Result<(), String>)
        ensures
            node_view(*n) matches NodeS::Neuro(arg) ==> r is Ok && final(self).state().env == old(
                self,
            ).state().env && final(self).state().out == old(self).state().out.push(
                spec_neuro_msg(old(self).state().env, arg),
            ) && final(self).cfree() == old(self).cfree(),
            node_view(*n) matches NodeS::SetVar(name, e) ==> r is Ok && final(self).state().out
                == old(self).state().out && final(self).state().env == old(self).state().env.insert(
                name,
                spec_trim(spec_eval_expr(old(self).state().env, e)),
            ) && final(self).cfree() == old(self).cfree(),
            (node_view(*n) matches NodeS::MacroCall(instr) && spec_trigger(instr) && depth > 0)
                ==> r is Ok && final(self).state().env == old(self).state().env
                && final(self).state().out == old(self).state().out.push("// main starts here"@)
                && final(self).cfree() == old(self).cfree(),
            (old(self).cfree() && spec_node_cfree(node_view(*n))) ==> (match spec_run_node(
                old(self).state(),
                node_view(*n),
                depth as int,
            ) {
                Ok(st) => r is Ok && final(self).state() == st && final(self).cfree(),
                Err(m) => r matches Err(e) && e@ == m,
            }),
            (!C::loads() && old(self).cfree()) ==> (match spec_run_node(
                old(self).state(),
                node_view(*n),
                depth as int,
            ) {
                Ok(st) => r is Ok && final(self).state() == st && final(self).cfree(),
                Err(m) => r matches Err(e) && e@ == m,
            }),
        decreases depth, *n,
    {
        match n {
            ASTNode::AIModel(path) => {
                match C::load(path.as_str()) {
                    Some(m) => {
                        let k = m.kind();
                        self.ai_is_macro = matches!(k, ModelKind::MacroIntent);
                        self.ai_model = Some(m);
                        Ok(())
                    },
                    None => {
                        let mut msg = chars_of("\u{274c} Failed to load model: ");
                        let pv = chars_of(path.as_str());
                        extend(&mut msg, &pv);
                        proof {
                            assert(msg@ =~= spec_load_err(path@));
                        }
                        Err(string_of(&msg))
                    },
                }
            },
            ASTNode::Neuro(arg) => {
                let msg: String = if is_lit_str(arg) {
                    strip_quotes_str(arg)
                } else {
                    match self.variables.get(arg.as_str()) {
                        Some(v) => {
                            let vv = chars_of(v.as_str());
                            let t = trim(&vv);
                            string_of(&t)
                        },
                        None => {
                            let st = strip_quotes_str(arg);
                            let sv = chars_of(st.as_str());
                            let t = trim(&sv);
                            string_of(&t)
                        },
                    }
                };
                let ghost o0 = self.output@;
                self.output.push(msg);
                proof {
                    assert(out_view(self.output@) =~= out_view(o0).push(
                        spec_neuro_msg(old(self).state().env, node_view(*n)->Neuro_0),
                    ));
                }
                Ok(())
            },
            ASTNode::SetVar(name, e) => {
                let val = eval_expr(&self.variables, e);
                let vv = chars_of(val.as_str());
                let t = trim(&vv);
                self.variables.insert(name.clone(), string_of(&t));
                Ok(())
            },
            ASTNode::SetVarFromAI(name, prompt) => {
                let stored: String = match &self.ai_model {
                    Some(m) => match m.predict(prompt.as_str()) {
                        Some(p) => {
                            let pv = chars_of(p.as_str());
                            let t = trim(&pv);
                            string_of(&t)
                        },
                        None => {
                            let pv = chars_of(prompt.as_str());
                            let t = trim(&pv);
                            string_of(&t)
                        },
                    },
                    None => {
                        let pv = chars_of(prompt.as_str());
                        let t = trim(&pv);
                        string_of(&t)
                    },
                };
                self.variables.insert(name.clone(), stored);
                Ok(())
            },
            ASTNode::MacroCall(instr) => {
                let iv = chars_of(instr.as_str());
                if crate::text::contains_lit(&iv, "main starts here") {
                    // the entry marker is answered before any classifier
                    // could be consulted or loaded
                    if depth == 0 {
                        let msg = string_of(&chars_of("\u{274c} Macro expansion too deep"));
                        return Err(msg);
                    }
                    let line = string_of(&chars_of("// main starts here"));
                    let ghost o0 = self.output@;
                    self.output.push(line);
                    proof {
                        assert(out_view(self.output@) =~= out_view(o0).push(
                            "// main starts here"@,
                        ));
                    }
                    return Ok(());
                }
                let lc = self.macro_predict(instr.as_str());
                let unknown = string_of(&chars_of("Unknown"));
                let (label, conf): (String, bool) = match lc {
                    Some((l, c)) => (l, c),
                    None => (unknown, false),
                };
                let dsl = synthesize_macro(label.as_str(), conf, instr.as_str());
                match tokenize(dsl.as_str()) {
                    Ok(toks) => {
                        let ast2 = parse(toks);
                        if depth == 0 {
                            let msg = string_of(&chars_of("\u{274c} Macro expansion too deep"));
                            return Err(msg);
                        }
                        self.run_list(&ast2, depth - 1)
                    },
                    Err(e2) => Ok(()),
                }
            },
            ASTNode::IfStatement { condition, body, elif_blocks, else_body } => {
                if self.eval_bool(condition) {
                    self.run_vec_nodes(body, depth)
                } else {
                    match self.run_elif_chain(elif_blocks, depth) {
                        Err(e) => Err(e),
                        Ok(true) => Ok(()),
                        Ok(false) => match else_body {
                            Some(b) => self.run_vec_nodes(b, depth),
                            None => Ok(()),
                        },
                    }
                }
            },
        }
    }

    /// Runs a statement list at the given depth. A list of one statement
    /// carries that statement's own guarantees; a list that reaches no
    /// classifier runs exactly as specified whatever classifier kind is in
    /// play.
    fn run_list(&mut self, l: &Vec<ASTNode>, depth: u64) -> (r: Result<(), String>)
        ensures
            l@.len() == 1 ==> (nodes_view(l@)[0] matches NodeS::Neuro(arg) ==> r is Ok
                && final(self).state().env == old(self).state().env
                && final(self).state().out == old(self).state().out.push(
                spec_neuro_msg(old(self).state().env, arg),
            ) && final(self).cfree() == old(self).cfree()),
            l@.len() == 1 ==> (nodes_view(l@)[0] matches NodeS::SetVar(name, e) ==> r is Ok
                && final(self).state().out == old(self).state().out && final(self).state().env
                == old(self).state().env.insert(
                name,
                spec_trim(spec_eval_expr(old(self).state().env, e)),
            ) && final(self).cfree() == old(self).cfree()),
            (depth > 0 && l@.len() == 1) ==> (nodes_view(l@)[0] matches NodeS::MacroCall(instr)
                ==> (spec_trigger(instr) ==> r is Ok && final(self).state().env == old(
                self,
            ).state().env && final(self).state().out == old(self).state().out.push(
                "// main starts here"@,
            ) && final(self).cfree() == old(self).cfree())),
            (old(self).cfree() && spec_nodes_cfree(nodes_view(l@))) ==> (match spec_run_nodes(
                old(self).state(),
                nodes_view(l@),
                depth as int,
            ) {
                Ok(st) => r is Ok && final(self).state() == st && final(self).cfree(),
                Err(m) => r matches Err(e) && e@ == m,
            }),
            (!C::loads() && old(self).cfree()) ==> (match spec_run_nodes(
                old(self).state(),
                nodes_view(l@),
                depth as int,
            ) {
                Ok(st) => r is Ok && final(self).state() == st && final(self).cfree(),
                Err(m) => r matches Err(e) && e@ == m,
            }),
        decreases depth, l@, 1nat,
    {
        let ghost st0 = self.state();
        let ghost lv = nodes_view(l@);
        proof {
            crate::parser::lemma_nodes_view_len(l@);
            assert(lv.subrange(0, lv.len() as int) =~= lv);
        }
        if l.len() == 1 {
            proof {
                crate::parser::lemma_nodes_view_index(l@, 0);
                assert(lv.drop_first() =~= Seq::<NodeS>::empty());
            }
            let res = self.run_node(&l[0], depth);
            proof {
                match spec_run_node(st0, lv[0], depth as int) {
                    Ok(st2) => {
                        assert(spec_run_nodes(st2, lv.drop_first(), depth as int) == Ok::<
                            StateS,
                            Seq<char>,
                        >(st2));
                    },
                    Err(m) => {},
                }
            }
            return res;
        }
        let mut i: usize = 0;
        while i < l.len()
            invariant
                i <= l@.len(),
                lv == nodes_view(l@),
                lv.len() == l@.len(),
                (old(self).cfree() && spec_nodes_cfree(lv)) ==> (self.cfree() && spec_run_nodes(
                    st0,
                    lv,
                    depth as int,
                ) == spec_run_nodes(
                    self.state(),
                    lv.subrange(i as int, lv.len() as int),
                    depth as int,
                )),
                (!C::loads() && old(self).cfree()) ==> (self.cfree() && spec_run_nodes(
                    st0,
                    lv,
                    depth as int,
                ) == spec_run_nodes(
                    self.state(),
                    lv.subrange(i as int, lv.len() as int),
                    depth as int,
                )),
                st0 == old(self).state(),
            decreases l@.len() - i,
        {
            let ghost pre = self.state();
            let ghost rest = lv.subrange(i as int, lv.len() as int);
            proof {
                crate::parser::lemma_nodes_view_index(l@, i as int);
                assert(rest[0] == lv[i as int]);
                assert(rest.drop_first() =~= lv.subrange((i + 1) as int, lv.len() as int));
                if old(self).cfree() && spec_nodes_cfree(lv) {
                    lemma_nodes_cfree_index(lv, i as int);
                }
            }
            let res = self.run_node(&l[i], depth);
            match res {
                Ok(()) => {},
                Err(e) => {
                    return Err(e);
                },
            }
            i = i + 1;
        }
        proof {
            if old(self).cfree() && (spec_nodes_cfree(lv) || !C::loads()) {
                assert(lv.subrange(i as int, lv.len() as int) =~= Seq::<NodeS>::empty());
            }
        }
        Ok(())
    }

    /// Runs the body of an if statement.
    fn run_vec_nodes(&mut self, l: &Vec<ASTNode>, depth: u64) -> (r: Result<(), String>)
        ensures
            (old(self).cfree() && spec_nodes_cfree(nodes_view(l@))) ==> (match spec_run_nodes(
                old(self).state(),
                nodes_view(l@),
                depth as int,
            ) {
                Ok(st) => r is Ok && final(self).state() == st && final(self).cfree(),
                Err(m) => r matches Err(e) && e@ == m,
            }),
            (!C::loads() && old(self).cfree()) ==> (match spec_run_nodes(
                old(self).state(),
                nodes_view(l@),
                depth as int,
            ) {
                Ok(st) => r is Ok && final(self).state() == st && final(self).cfree(),
                Err(m) => r matches Err(e) && e@ == m,
            }),
        decreases depth, *l, 1nat,
    {
        let ghost st0 = self.state();
        let ghost lv = nodes_view(l@);
        proof {
            crate::parser::lemma_nodes_view_len(l@);
            assert(lv.subrange(0, lv.len() as int) =~= lv);
        }
        let mut i: usize = 0;
        while i < l.len()
            invariant
                i <= l@.len(),
                lv == nodes_view(l@),
                lv.len() == l@.len(),
                (old(self).cfree() && spec_nodes_cfree(lv)) ==> (self.cfree() && spec_run_nodes(
                    st0,
                    lv,
                    depth as int,
                ) == spec_run_nodes(
                    self.state(),
                    lv.subrange(i as int, lv.len() as int),
                    depth as int,
                )),
                (!C::loads() && old(self).cfree()) ==> (self.cfree() && spec_run_nodes(
                    st0,
                    lv,
                    depth as int,
                ) == spec_run_nodes(
                    self.state(),
                    lv.subrange(i as int, lv.len() as int),
                    depth as int,
                )),
                st0 == old(self).state(),
            decreases l@.len() - i,
        {
            let ghost rest = lv.subrange(i as int, lv.len() as int);
            proof {
                crate::parser::lemma_nodes_view_index(l@, i as int);
                assert(rest[0] == lv[i as int]);
                assert(rest.drop_first() =~= lv.subrange((i + 1) as int, lv.len() as int));
                if old(self).cfree() && spec_nodes_cfree(lv) {
                    lemma_nodes_cfree_index(lv, i as int);
                }
            }
            let res = self.run_node(&l[i], depth);
            match res {
                Ok(()) => {},
                Err(e) => {
                    return Err(e);
                },
            }
            i = i + 1;
        }
        proof {
            if old(self).cfree() && (spec_nodes_cfree(lv) || !C::loads()) {
                assert(lv.subrange(i as int, lv.len() as int) =~= Seq::<NodeS>::empty());
            }
        }
        Ok(())
    }

    /// Runs the `elif` chain, reporting whether a branch matched.
    fn run_elif_chain(&mut self, elifs: &Vec<(BoolExpr, Vec<ASTNode>)>, depth: u64) -> (r: Result<
        bool,
        String,
    >)
        ensures
            (old(self).cfree() && spec_elifs_cfree(elifs_view(elifs@))) ==> (match spec_elif_chain(
                old(self).state(),
                elifs_view(elifs@),
                depth as int,
            ) {
                Ok((m, st)) => r matches Ok(b) && b == m && final(self).state() == st
                    && final(self).cfree(),
                Err(m) => r matches Err(e) && e@ == m,
            }),
            (!C::loads() && old(self).cfree()) ==> (match spec_elif_chain(
                old(self).state(),
                elifs_view(elifs@),
                depth as int,
            ) {
                Ok((m, st)) => r matches Ok(b) && b == m && final(self).state() == st
                    && final(self).cfree(),
                Err(m) => r matches Err(e) && e@ == m,
            }),
        decreases depth, *elifs, 2nat,
    {
        let ghost ev = elifs_view(elifs@);
        proof {
            crate::parser::lemma_elifs_view_len(elifs@);
            assert(ev.subrange(0, ev.len() as int) =~= ev);
        }
        let mut i: usize = 0;
        while i < elifs.len()
            invariant
                i <= elifs@.len(),
                ev == elifs_view(elifs@),
                ev.len() == elifs@.len(),
                (old(self).cfree() && spec_elifs_cfree(ev)) ==> (self.cfree() && self.state()
                    == old(self).state() && spec_elif_chain(old(self).state(), ev, depth as int)
                    == spec_elif_chain(
                    self.state(),
                    ev.subrange(i as int, ev.len() as int),
                    depth as int,
                )),
                (!C::loads() && old(self).cfree()) ==> (self.cfree() && self.state() == old(
                    self,
                ).state() && spec_elif_chain(old(self).state(), ev, depth as int)
                    == spec_elif_chain(
                    self.state(),
                    ev.subrange(i as int, ev.len() as int),
                    depth as int,
                )),
            decreases elifs@.len() - i,
        {
            let ghost rest = ev.subrange(i as int, ev.len() as int);
            proof {
                crate::parser::lemma_elifs_view_index(elifs@, i as int);
                assert(rest[0] == ev[i as int]);
                assert(rest.drop_first() =~= ev.subrange((i + 1) as int, ev.len() as int));
                if old(self).cfree() && spec_elifs_cfree(ev) {
                    lemma_elifs_cfree_index(ev, i as int);
                }
            }
            if self.eval_bool(&elifs[i].0) {
                let res = self.run_vec_nodes(&elifs[i].1, depth);
                match res {
                    Ok(()) => {
                        return Ok(true);
                    },
                    Err(e) => {
                        return Err(e);
                    },
                }
            }
            i = i + 1;
        }
        proof {
            if old(self).cfree() && (spec_elifs_cfree(ev) || !C::loads()) {
                assert(ev.subrange(i as int, ev.len() as int) =~= Seq::<(BoolS, Seq<NodeS>)>::empty());
            }
        }
        Ok(false)
    }

    /// Runs a statement list: the public entry of one execution unit.
    /// A script of one output statement never mutates the environment and
    /// appends exactly one resolved line, a script of one assignment
    /// never writes output, and a script of one hard-triggered macro
    /// invocation appends the fixed entry-marker comment without touching
    /// the environment, whatever classifier and state are in play; a
    /// fresh or classifier-free interpreter running statements that reach
    /// no classifier behaves exactly as specified for every classifier
    /// kind, and on every script when none can load.
    pub fn run(&mut self, ast: Vec<ASTNode>) -> (r: Result<(), String>)
        ensures
            ast@.len() == 1 ==> (nodes_view(ast@)[0] matches NodeS::Neuro(arg) ==> r is Ok
                && final(self).state().env == old(self).state().env
                && final(self).state().out == old(self).state().out.push(
                spec_neuro_msg(old(self).state().env, arg),
            ) && final(self).cfree() == old(self).cfree()),
            ast@.len() == 1 ==> (nodes_view(ast@)[0] matches NodeS::SetVar(name, e) ==> r is Ok
                && final(self).state().out == old(self).state().out && final(self).state().env
                == old(self).state().env.insert(
                name,
                spec_trim(spec_eval_expr(old(self).state().env, e)),
            ) && final(self).cfree() == old(self).cfree()),
            ast@.len() == 1 ==> (nodes_view(ast@)[0] matches NodeS::MacroCall(instr) ==> (
            spec_trigger(instr) ==> r is Ok && final(self).state().env == old(self).state().env
                && final(self).state().out == old(self).state().out.push("// main starts here"@)
                && final(self).cfree() == old(self).cfree())),
            (old(self).cfree() && spec_nodes_cfree(nodes_view(ast@))) ==> (match spec_run_nodes(
                old(self).state(),
                nodes_view(ast@),
                spec_macro_depth(),
            ) {
                Ok(st) => r is Ok && final(self).state() == st && final(self).cfree(),
                Err(m) => r matches Err(e) && e@ == m,
            }),
            (!C::loads() && old(self).cfree()) ==> (match spec_run_nodes(
                old(self).state(),
                nodes_view(ast@),
                spec_macro_depth(),
            ) {
                Ok(st) => r is Ok && final(self).state() == st && final(self).cfree(),
                Err(m) => r matches Err(e) && e@ == m,
            }),
    {
        self.run_list(&ast, 8)
    }
}

} // verus!
