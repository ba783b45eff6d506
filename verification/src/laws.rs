//! Laws of the pipeline, stated and proved over the same specifications the
//! executable functions are pinned to.

use vstd::prelude::*;
use crate::lexer::{spec_tokenize, spec_tok_lines, spec_tok_line, spec_scan, spec_close,
    spec_dedents, spec_lines, Tok, spec_scan_cons, spec_tok_line_itoks, spec_tok_line_stack};
use crate::parser::{spec_parse, spec_parse_stmts, NodeS, ExprS};
use crate::interpreter::{spec_run_node, spec_run_nodes, StateS, spec_neuro_msg, spec_eval_expr};
use crate::synth::{spec_synthesize, spec_build_loop_dsl, spec_loop_clamped, spec_repeat_lines,
    spec_loop_message, spec_strip_wrapping};


verus! {

/// Tokenizing then parsing is deterministic: the same source always yields
/// the same token stream, and the same token stream always yields the same
/// syntax tree.
pub proof fn lemma_pipeline_deterministic(
    s: Seq<char>,
    t1: Result<Seq<Tok>, Seq<char>>,
    t2: Result<Seq<Tok>, Seq<char>>,
)
    requires
        t1 == spec_tokenize(s),
        t2 == spec_tokenize(s),
    ensures
        t1 == t2,
        t1 matches Ok(ts1) ==> (t2 matches Ok(ts2) && spec_parse(ts1) == spec_parse(ts2)),
{
}

/// How many of a token a stream holds.
pub open spec fn count_tok(ts: Seq<Tok>, ind: bool) -> int
    decreases ts.len(),
{
    if ts.len() == 0 {
        0
    } else {
        (match ts[0] {
            Tok::Indent => if ind {
                1int
            } else {
                0
            },
            Tok::Dedent => if !ind {
                1int
            } else {
                0
            },
            _ => 0,
        }) + count_tok(ts.drop_first(), ind)
    }
}

proof fn lemma_count_concat(a: Seq<Tok>, b: Seq<Tok>, ind: bool)
    ensures
        count_tok(a + b, ind) == count_tok(a, ind) + count_tok(b, ind),
    decreases a.len(),
{
    if a.len() == 0 {
        assert(a + b =~= b);
    } else {
        assert((a + b).drop_first() =~= a.drop_first() + b);
        assert((a + b)[0] == a[0]);
        lemma_count_concat(a.drop_first(), b, ind);
    }
}

proof fn lemma_scan_balanced(t: Seq<char>, raw: Seq<char>, lineno: nat, i: nat)
    ensures
        spec_scan(t, raw, lineno, i) matches Ok(ts) ==> count_tok(ts, true) == 0 && count_tok(
            ts,
            false,
        ) == 0,
    decreases t.len() - i,
{
    if i >= t.len() {
    } else {
        let c = t[i as int];
        // each arm prepends a non-indent token to a balanced rest
        if c == '"' {
            let e = crate::lexer::spec_find_quote(t, i + 1);
            let e1 = if e < i + 1 {
                i + 1
            } else if e > t.len() {
                t.len()
            } else {
                e
            };
            if e1 < t.len() {
                let content = t.subrange((i + 1) as int, e1 as int);
                let tok = if crate::lexer::spec_ends_with(content, ".onnx"@) {
                    Tok::StrT(content)
                } else {
                    Tok::StrT(seq!['"'] + content + seq!['"'])
                };
                lemma_scan_balanced(t, raw, lineno, e1 + 1);
                lemma_cons_balanced_tok(t, raw, lineno, e1 + 1, tok);
            }
        } else if crate::text::spec_is_digit(c) {
            let j = crate::lexer::spec_digits_end(t, i);
            let j2 = if j + 1 < t.len() && t[j as int] == '.' && crate::text::spec_is_digit(
                t[(j + 1) as int],
            ) {
                crate::lexer::spec_digits_end(t, j + 1)
            } else {
                j
            };
            let j3 = if j2 < i + 1 {
                i + 1
            } else if j2 > t.len() {
                t.len()
            } else {
                j2
            };
            lemma_scan_balanced(t, raw, lineno, j3);
            lemma_cons_balanced_tok(t, raw, lineno, j3, Tok::NumT(t.subrange(i as int, j3 as int)));
        } else if crate::text::spec_is_alpha(c) {
            let j = crate::lexer::spec_word_end(t, i);
            let j1 = if j < i + 1 {
                i + 1
            } else if j > t.len() {
                t.len()
            } else {
                j
            };
            lemma_scan_balanced(t, raw, lineno, j1);
            lemma_cons_balanced_tok(
                t,
                raw,
                lineno,
                j1,
                crate::lexer::spec_keyword_tok(t.subrange(i as int, j1 as int)),
            );
        } else if crate::text::spec_is_ws(c) {
            lemma_scan_balanced(t, raw, lineno, i + 1);
        } else {
            lemma_scan_balanced(t, raw, lineno, i + 1);
            if i + 2 <= t.len() {
                lemma_scan_balanced(t, raw, lineno, i + 2);
            }
            lemma_all_plain_cons(t, raw, lineno, i);
        }
    }
}

/// Prepending one ordinary token keeps the stream balanced.
proof fn lemma_cons_balanced_tok(t: Seq<char>, raw: Seq<char>, lineno: nat, next: nat, tok: Tok)
    requires
        spec_scan(t, raw, lineno, next) matches Ok(ts) ==> count_tok(ts, true) == 0 && count_tok(
            ts,
            false,
        ) == 0,
        !(tok is Indent),
        !(tok is Dedent),
    ensures
        spec_scan_cons(tok, spec_scan(t, raw, lineno, next)) matches Ok(ts2) ==> count_tok(
            ts2,
            true,
        ) == 0 && count_tok(ts2, false) == 0,
{
    match spec_scan(t, raw, lineno, next) {
        Ok(ts) => {
            lemma_count_concat(seq![tok], ts, true);
            lemma_count_concat(seq![tok], ts, false);
            assert(seq![tok].drop_first() =~= Seq::<Tok>::empty());
            assert(count_tok(Seq::<Tok>::empty(), true) == 0);
            assert(count_tok(Seq::<Tok>::empty(), false) == 0);
            assert(count_tok(seq![tok], true) == 0);
            assert(count_tok(seq![tok], false) == 0);
        },
        Err(e) => {},
    }
}

/// Every single-character operator token of the scanner is ordinary.
proof fn lemma_all_plain_cons(t: Seq<char>, raw: Seq<char>, lineno: nat, i: nat)
    requires
        i < t.len(),
        t[i as int] != '"',
        !crate::text::spec_is_digit(t[i as int]),
        !crate::text::spec_is_alpha(t[i as int]),
        !crate::text::spec_is_ws(t[i as int]),
        spec_scan(t, raw, lineno, i + 1) matches Ok(ts) ==> count_tok(ts, true) == 0 && count_tok(
            ts,
            false,
        ) == 0,
        i + 2 <= t.len() ==> (spec_scan(t, raw, lineno, i + 2) matches Ok(ts) ==> count_tok(
            ts,
            true,
        ) == 0 && count_tok(ts, false) == 0),
    ensures
        spec_scan(t, raw, lineno, i) matches Ok(ts) ==> count_tok(ts, true) == 0 && count_tok(
            ts,
            false,
        ) == 0,
{
    lemma_cons_balanced_tok(t, raw, lineno, i + 1, Tok::Colon);
    lemma_cons_balanced_tok(t, raw, lineno, i + 1, Tok::EqualsAssign);
    lemma_cons_balanced_tok(t, raw, lineno, i + 1, Tok::GreaterThan);
    lemma_cons_balanced_tok(t, raw, lineno, i + 1, Tok::LessThan);
    lemma_cons_balanced_tok(t, raw, lineno, i + 1, Tok::Plus);
    lemma_cons_balanced_tok(t, raw, lineno, i + 1, Tok::Minus);
    lemma_cons_balanced_tok(t, raw, lineno, i + 1, Tok::Star);
    lemma_cons_balanced_tok(t, raw, lineno, i + 1, Tok::Slash);
    lemma_cons_balanced_tok(t, raw, lineno, i + 1, Tok::Percent);
    lemma_cons_balanced_tok(t, raw, lineno, i + 1, Tok::LParen);
    lemma_cons_balanced_tok(t, raw, lineno, i + 1, Tok::RParen);
    if i + 2 <= t.len() {
        lemma_cons_balanced_tok(t, raw, lineno, i + 2, Tok::Equals);
        lemma_cons_balanced_tok(t, raw, lineno, i + 2, Tok::NotEquals);
        lemma_cons_balanced_tok(t, raw, lineno, i + 2, Tok::GreaterEqual);
        lemma_cons_balanced_tok(t, raw, lineno, i + 2, Tok::LessEqual);
    }
}

proof fn lemma_dedents_balanced(st: Seq<int>, ind: int)
    ensures
        ({
            let (ts, st2) = spec_dedents(st, ind);
            count_tok(ts, true) == 0 && count_tok(ts, false) == st.len() - st2.len() && st2.len()
                <= st.len()
        }),
    decreases st.len(),
{
    if st.len() > 0 && ind < st.last() {
        lemma_dedents_balanced(st.drop_last(), ind);
        let (rts, rs2) = spec_dedents(st.drop_last(), ind);
        lemma_count_concat(seq![Tok::Dedent], rts, true);
        lemma_count_concat(seq![Tok::Dedent], rts, false);
        assert(seq![Tok::Dedent].drop_first() =~= Seq::<Tok>::empty());
        assert(count_tok(Seq::<Tok>::empty(), true) == 0);
        assert(count_tok(Seq::<Tok>::empty(), false) == 0);
        assert(count_tok(seq![Tok::Dedent], true) == 0);
        assert(count_tok(seq![Tok::Dedent], false) == 1);
    } else {
        assert(count_tok(Seq::<Tok>::empty(), true) == 0);
        assert(count_tok(Seq::<Tok>::empty(), false) == 0);
    }
}

/// One line's tokens keep the balance: the indents exceed the dedents by
/// exactly the growth of the indentation stack.
proof fn lemma_line_balanced(raw: Seq<char>, lineno: nat, st: Seq<int>)
    ensures
        spec_tok_line(raw, lineno, st) matches Ok((ts, st2)) ==> count_tok(ts, true) - count_tok(
            ts,
            false,
        ) == st2.len() - st.len(),
{
    match spec_tok_line(raw, lineno, st) {
        Ok((ts, st2)) => {
            let cut = crate::lexer::spec_cut(raw, 0, false);
            let line = raw.subrange(0, if cut <= raw.len() {
                cut as int
            } else {
                raw.len() as int
            });
            let trimmed = crate::text::spec_trim(line);
            if trimmed.len() == 0 {
                assert(count_tok(Seq::<Tok>::empty(), true) == 0);
                assert(count_tok(Seq::<Tok>::empty(), false) == 0);
            } else if trimmed[0] == '#' || (trimmed.len() >= 2 && trimmed[0] == '/' && trimmed[1]
                == '/') {
                assert(seq![Tok::Comment, Tok::Newline].drop_first() =~= seq![Tok::Newline]);
                assert(seq![Tok::Newline].drop_first() =~= Seq::<Tok>::empty());
                assert(count_tok(Seq::<Tok>::empty(), true) == 0);
                assert(count_tok(Seq::<Tok>::empty(), false) == 0);
                assert(count_tok(seq![Tok::Newline], true) == 0);
                assert(count_tok(seq![Tok::Newline], false) == 0);
                assert(count_tok(seq![Tok::Comment, Tok::Newline], true) == 0);
                assert(count_tok(seq![Tok::Comment, Tok::Newline], false) == 0);
            } else {
                let itoks = spec_tok_line_itoks(raw, st);
                let ind = crate::lexer::spec_indent_end(raw, 0) as int;
                assert(count_tok(Seq::<Tok>::empty(), true) == 0);
                assert(count_tok(Seq::<Tok>::empty(), false) == 0);
                if st.len() > 0 && ind > st.last() {
                    assert(seq![Tok::Indent].drop_first() =~= Seq::<Tok>::empty());
                    assert(count_tok(seq![Tok::Indent], true) == 1);
                    assert(count_tok(seq![Tok::Indent], false) == 0);
                } else if st.len() > 0 && ind < st.last() {
                    lemma_dedents_balanced(st, ind);
                }
                lemma_scan_balanced(trimmed, raw, lineno, 0);
                match spec_scan(trimmed, raw, lineno, 0) {
                    Ok(sts) => {
                        let st2v = spec_tok_line_stack(raw, st);
                        lemma_count_concat(itoks + sts, seq![Tok::Newline], true);
                        lemma_count_concat(itoks, sts, true);
                        lemma_count_concat(itoks + sts, seq![Tok::Newline], false);
                        lemma_count_concat(itoks, sts, false);
                        assert(seq![Tok::Newline].drop_first() =~= Seq::<Tok>::empty());
                        assert(count_tok(Seq::<Tok>::empty(), true) == 0);
                        assert(count_tok(Seq::<Tok>::empty(), false) == 0);
                        assert(count_tok(seq![Tok::Newline], true) == 0);
                        assert(count_tok(seq![Tok::Newline], false) == 0);
                    },
                    Err(e) => {},
                }
            }
        },
        Err(e) => {},
    }
}

proof fn lemma_lines_balanced(lines: Seq<Seq<char>>, i: nat, st: Seq<int>)
    ensures
        spec_tok_lines(lines, i, st) matches Ok((ts, st2)) ==> count_tok(ts, true) - count_tok(
            ts,
            false,
        ) == st2.len() - st.len(),
    decreases lines.len() - i,
{
    if i >= lines.len() {
    } else {
        match spec_tok_line(lines[i as int], i, st) {
            Ok((ts, st2)) => {
                lemma_line_balanced(lines[i as int], i, st);
                lemma_lines_balanced(lines, i + 1, st2);
                match spec_tok_lines(lines, i + 1, st2) {
                    Ok((rest, fs)) => {
                        lemma_count_concat(ts, rest, true);
                        lemma_count_concat(ts, rest, false);
                    },
                    Err(e) => {},
                }
            },
            Err(e) => {},
        }
    }
}

proof fn lemma_close_balanced(st: Seq<int>)
    ensures
        count_tok(spec_close(st), true) == 0,
        st.len() >= 1 ==> count_tok(spec_close(st), false) == st.len() - 1,
    decreases st.len(),
{
    assert(count_tok(Seq::<Tok>::empty(), true) == 0);
    assert(count_tok(Seq::<Tok>::empty(), false) == 0);
    if st.len() > 1 {
        lemma_close_balanced(st.drop_last());
        lemma_count_concat(seq![Tok::Dedent], spec_close(st.drop_last()), true);
        lemma_count_concat(seq![Tok::Dedent], spec_close(st.drop_last()), false);
        assert(seq![Tok::Dedent].drop_first() =~= Seq::<Tok>::empty());
        assert(count_tok(seq![Tok::Dedent], true) == 0);
        assert(count_tok(seq![Tok::Dedent], false) == 1);
    }
}

/// Indentation round-trip: every token stream the lexer accepts holds
/// exactly as many block-start tokens as block-end tokens, so every block
/// that opens is closed.
pub proof fn lemma_indent_balance(s: Seq<char>)
    ensures
        spec_tokenize(s) matches Ok(ts) ==> count_tok(ts, true) == count_tok(ts, false),
{
    match spec_tok_lines(spec_lines(s), 0, seq![0int]) {
        Ok((ts, st)) => {
            lemma_lines_balanced(spec_lines(s), 0, seq![0int]);
            lemma_stack_positive(spec_lines(s), 0, seq![0int]);
            lemma_close_balanced(st);
            lemma_count_concat(ts, spec_close(st), true);
            lemma_count_concat(ts, spec_close(st), false);
        },
        Err(e) => {},
    }
}

/// The indentation stack never empties: its bottom level stays.
proof fn lemma_stack_positive(lines: Seq<Seq<char>>, i: nat, st: Seq<int>)
    requires
        st.len() >= 1,
        st[0] == 0,
    ensures
        spec_tok_lines(lines, i, st) matches Ok((ts, st2)) ==> st2.len() >= 1 && st2[0] == 0,
    decreases lines.len() - i,
{
    if i >= lines.len() {
    } else {
        match spec_tok_line(lines[i as int], i, st) {
            Ok((ts, st2)) => {
                lemma_line_stack_positive(lines[i as int], i, st);
                lemma_stack_positive(lines, i + 1, st2);
            },
            Err(e) => {},
        }
    }
}

proof fn lemma_line_stack_positive(raw: Seq<char>, lineno: nat, st: Seq<int>)
    requires
        st.len() >= 1,
        st[0] == 0,
    ensures
        spec_tok_line(raw, lineno, st) matches Ok((ts, st2)) ==> st2.len() >= 1 && st2[0] == 0,
{
    let ind = crate::lexer::spec_indent_end(raw, 0) as int;
    if st.len() > 0 && ind < st.last() {
        lemma_dedents_keep_one(st, ind);
    }
}

proof fn lemma_dedents_keep_one(st: Seq<int>, ind: int)
    requires
        st.len() >= 1,
        st[0] == 0,
        ind >= 0,
    ensures
        spec_dedents(st, ind).1.len() >= 1,
        spec_dedents(st, ind).1[0] == 0,
    decreases st.len(),
{
    if st.len() > 0 && ind < st.last() {
        if st.len() == 1 {
            assert(st.last() == st[0]);
            assert(false);
        }
        assert(st.drop_last()[0] == st[0]);
        lemma_dedents_keep_one(st.drop_last(), ind);
    }
}

/// Loop synthesis clamps: whatever count an instruction asks for, the loop
/// template is the message line repeated between one and twelve times.
pub proof fn lemma_loop_clamp(prompt: Seq<char>)
    ensures
        1 <= spec_loop_clamped(spec_strip_wrapping(prompt)) <= 12,
        spec_build_loop_dsl(prompt) == spec_repeat_lines(
            "neuro \""@ + spec_loop_message(spec_strip_wrapping(prompt)) + "\""@,
            spec_loop_clamped(spec_strip_wrapping(prompt)),
        ),
{
}

/// Macro re-entrancy: running one macro statement is running the statements
/// parsed from its synthesized source, in the same environment, one
/// expansion level deeper. A script of one macro statement therefore
/// produces the same state as the synthesized statements run directly.
/// An instruction carrying the entry marker is answered before synthesis
/// and stands outside this law: see [`lemma_trigger_short_circuit`].
pub proof fn lemma_macro_reentrant(st: StateS, instr: Seq<char>, depth: int)
    requires
        depth > 0,
        !crate::synth::spec_trigger(instr),
        spec_tokenize(spec_synthesize("Unknown"@, false, instr)) is Ok,
    ensures
        spec_run_node(st, NodeS::MacroCall(instr), depth) == spec_run_nodes(
            st,
            spec_parse(spec_tokenize(spec_synthesize("Unknown"@, false, instr))->Ok_0),
            depth - 1,
        ),
{
}

/// A hard-triggered macro statement consults nothing: it appends the fixed
/// entry-marker comment line and leaves the environment alone.
pub proof fn lemma_trigger_short_circuit(st: StateS, instr: Seq<char>, depth: int)
    requires
        depth > 0,
        crate::synth::spec_trigger(instr),
    ensures
        spec_run_node(st, NodeS::MacroCall(instr), depth) matches Ok(st2) && st2.env == st.env
            && st2.out == st.out.push("// main starts here"@),
{
}

// ---------------------------------------------------------------------------
// well-formedness of synthesized text
// ---------------------------------------------------------------------------

proof fn lemma_find_nl_none(s: Seq<char>, i: nat)
    requires
        forall|j: int| 0 <= j < s.len() ==> s[j] != '\n',
        i <= s.len(),
    ensures
        crate::lexer::spec_find_nl(s, i) == s.len(),
    decreases s.len() - i,
{
    if i < s.len() {
        lemma_find_nl_none(s, i + 1);
    }
}

proof fn lemma_cut_quoted(s: Seq<char>, i: nat, k: nat)
    requires
        i <= k <= s.len(),
        forall|j: int| i <= j < k ==> s[j] != '"',
    ensures
        crate::lexer::spec_cut(s, i, true) == crate::lexer::spec_cut(s, k, true),
    decreases k - i,
{
    if i < k {
        lemma_cut_quoted(s, i + 1, k);
    }
}

proof fn lemma_find_quote_at(s: Seq<char>, i: nat, k: nat)
    requires
        i <= k < s.len(),
        forall|j: int| i <= j < k ==> s[j] != '"',
        s[k as int] == '"',
    ensures
        crate::lexer::spec_find_quote(s, i) == k,
    decreases k - i,
{
    if i < k {
        lemma_find_quote_at(s, i + 1, k);
    }
}

proof fn lemma_word_end_at(s: Seq<char>, i: nat, k: nat)
    requires
        i <= k <= s.len(),
        forall|j: int| i <= j < k ==> crate::text::spec_is_alnum_us(s[j]),
        k == s.len() || !crate::text::spec_is_alnum_us(s[k as int]),
    ensures
        crate::lexer::spec_word_end(s, i) == k,
    decreases k - i,
{
    if i < k {
        lemma_word_end_at(s, i + 1, k);
    }
}

/// The output-statement shape is well-formed source: for every message
/// free of quote and line-break characters, `neuro "<msg>"` tokenizes and
/// parses to exactly one output statement.
pub proof fn lemma_neuro_shape_valid(m: Seq<char>)
    requires
        forall|j: int| 0 <= j < m.len() ==> m[j] != '"',
        forall|j: int| 0 <= j < m.len() ==> m[j] != '\n',
    ensures
        spec_tokenize("neuro \""@ + m + "\""@) matches Ok(ts) && spec_parse(ts).len() == 1
            && spec_parse(ts)[0] is Neuro,
{
    reveal_strlit("neuro \"");
    reveal_strlit("\"");
    reveal_strlit("if");
    reveal_strlit("elif");
    reveal_strlit("else");
    reveal_strlit("neuro");
    let s = "neuro \""@ + m + "\""@;
    let n = s.len() as int;
    assert(n == m.len() + 8);
    assert(s[0] == 'n' && s[1] == 'e' && s[2] == 'u' && s[3] == 'r' && s[4] == 'o' && s[5] == ' '
        && s[6] == '"');
    assert(s[n - 1] == '"');
    assert(forall|j: int| 7 <= j < n - 1 ==> s[j] == m[j - 7]);
    assert(forall|j: int| 0 <= j < s.len() ==> s[j] != '\n');
    // one line, kept whole by the comment cut
    lemma_find_nl_none(s, 0);
    assert(crate::lexer::spec_strip_cr(s) =~= s);
    assert(spec_lines(s) =~= seq![s]);
    assert(crate::lexer::spec_cut(s, 0, false) == crate::lexer::spec_cut(s, 1, false));
    assert(crate::lexer::spec_cut(s, 1, false) == crate::lexer::spec_cut(s, 2, false));
    assert(crate::lexer::spec_cut(s, 2, false) == crate::lexer::spec_cut(s, 3, false));
    assert(crate::lexer::spec_cut(s, 3, false) == crate::lexer::spec_cut(s, 4, false));
    assert(crate::lexer::spec_cut(s, 4, false) == crate::lexer::spec_cut(s, 5, false));
    assert(crate::lexer::spec_cut(s, 5, false) == crate::lexer::spec_cut(s, 6, false));
    assert(crate::lexer::spec_cut(s, 6, false) == crate::lexer::spec_cut(s, 7, true));
    lemma_cut_quoted(s, 7, (n - 1) as nat);
    assert(crate::lexer::spec_cut(s, (n - 1) as nat, true) == crate::lexer::spec_cut(
        s,
        n as nat,
        false,
    ));
    assert(crate::lexer::spec_cut(s, n as nat, false) == n);
    assert(crate::lexer::spec_cut(s, 0, false) == n);
    // no surrounding whitespace, no indentation
    assert(crate::text::spec_skip_ws(s, 0) == 0);
    assert(crate::text::spec_rskip_ws(s, n) == n);
    assert(s.subrange(0, n) =~= s);
    assert(crate::text::spec_trim(s) =~= s);
    assert(crate::lexer::spec_indent_end(s, 0) == 0);
    // the scan: the keyword, a space, the string literal
    lemma_word_end_at(s, 0, 5);
    assert(s.subrange(0, 5) =~= "neuro"@);
    assert(!crate::text::spec_seq_eq_ci("neuro"@, "if"@));
    assert(!crate::text::spec_seq_eq_ci("neuro"@, "elif"@));
    assert(!crate::text::spec_seq_eq_ci("neuro"@, "else"@));
    assert(crate::text::spec_seq_eq_ci("neuro"@, "neuro"@));
    assert(crate::lexer::spec_keyword_tok("neuro"@) == Tok::Neuro);
    lemma_find_quote_at(s, 7, (n - 1) as nat);
    let content = s.subrange(7, n - 1);
    assert(content =~= m);
    let tok2 = if crate::lexer::spec_ends_with(m, ".onnx"@) {
        Tok::StrT(m)
    } else {
        Tok::StrT(seq!['"'] + m + seq!['"'])
    };
    assert(spec_scan(s, s, 0, (n) as nat) == Ok::<Seq<Tok>, Seq<char>>(Seq::empty()));
    assert(spec_scan(s, s, 0, 6) == Ok::<Seq<Tok>, Seq<char>>(seq![tok2] + Seq::<Tok>::empty()));
    assert(seq![tok2] + Seq::<Tok>::empty() =~= seq![tok2]);
    assert(spec_scan(s, s, 0, 5) == Ok::<Seq<Tok>, Seq<char>>(seq![tok2]));
    assert(spec_scan(s, s, 0, 0) == Ok::<Seq<Tok>, Seq<char>>(seq![Tok::Neuro] + seq![tok2]));
    let ts = seq![Tok::Neuro, tok2, Tok::Newline];
    assert(Seq::<Tok>::empty() + (seq![Tok::Neuro] + seq![tok2]) + seq![Tok::Newline] =~= ts);
    assert(spec_tok_line(s, 0, seq![0int]) == Ok::<(Seq<Tok>, Seq<int>), Seq<char>>(
        (ts, seq![0int]),
    ));
    assert(spec_tok_lines(seq![s], 1, seq![0int]) == Ok::<(Seq<Tok>, Seq<int>), Seq<char>>(
        (Seq::empty(), seq![0int]),
    ));
    assert(ts + Seq::<Tok>::empty() =~= ts);
    assert(spec_tok_lines(seq![s], 0, seq![0int]) == Ok::<(Seq<Tok>, Seq<int>), Seq<char>>(
        (ts, seq![0int]),
    ));
    assert(spec_close(seq![0int]) =~= Seq::<Tok>::empty());
    assert(spec_tokenize(s) == Ok::<Seq<Tok>, Seq<char>>(ts));
    // the parse: one output statement, the trailing newline dropped
    reveal_with_fuel(crate::parser::spec_parse_stmts, 2);
    reveal(crate::parser::spec_stmt_neuro);
    reveal_with_fuel(crate::parser::spec_parse_statement, 2);
    assert(ts[0] == Tok::Neuro && ts[1] == tok2 && ts[2] == Tok::Newline);
    assert(tok2 is StrT);
    assert(crate::parser::spec_stmt_neuro(ts, 0) == (
        Some(NodeS::Neuro(tok2->StrT_0)),
        2nat,
    ));
    assert(crate::parser::spec_parse_statement(ts, 0) == (
        Some(NodeS::Neuro(tok2->StrT_0)),
        2nat,
    ));
    assert(crate::parser::spec_parse_statement(ts, 2) == (None::<NodeS>, 2nat));
    assert(crate::parser::adv(ts, 0, 2) == 2);
    assert(crate::parser::adv(ts, 2, 3) == 3);
    assert(spec_parse_stmts(ts, 3) =~= Seq::<NodeS>::empty());
    assert(spec_parse_stmts(ts, 2) =~= Seq::<NodeS>::empty());
    assert(spec_parse_stmts(ts, 0) =~= seq![NodeS::Neuro(tok2->StrT_0)] + Seq::<NodeS>::empty());
    assert(seq![NodeS::Neuro(tok2->StrT_0)] + Seq::<NodeS>::empty() =~= seq![
        NodeS::Neuro(tok2->StrT_0),
    ]);
    assert(spec_parse(ts).len() == 1);
}

proof fn lemma_skip_ws_bounds(s: Seq<char>, i: int)
    requires
        0 <= i <= s.len(),
    ensures
        i <= crate::text::spec_skip_ws(s, i) <= s.len(),
    decreases s.len() - i,
{
    if i < s.len() && crate::text::spec_is_ws(s[i]) {
        lemma_skip_ws_bounds(s, i + 1);
    }
}

proof fn lemma_rskip_ws_bounds(s: Seq<char>, j: int)
    requires
        0 <= j <= s.len(),
    ensures
        0 <= crate::text::spec_rskip_ws(s, j) <= j,
    decreases j,
{
    if 0 < j && crate::text::spec_is_ws(s[j - 1]) {
        lemma_rskip_ws_bounds(s, j - 1);
    }
}

proof fn lemma_trim_keeps(s: Seq<char>, c: char)
    requires
        forall|j: int| 0 <= j < s.len() ==> s[j] != c,
    ensures
        forall|j: int|
            0 <= j < crate::text::spec_trim(s).len() ==> #[trigger] crate::text::spec_trim(s)[j]
                != c,
{
    lemma_skip_ws_bounds(s, 0);
    lemma_rskip_ws_bounds(s, s.len() as int);
}

proof fn lemma_drop_quotes_clean(s: Seq<char>, i: nat, c: char)
    requires
        i <= s.len(),
        c == '"' || (forall|j: int| 0 <= j < s.len() ==> s[j] != c),
    ensures
        forall|j: int|
            0 <= j < crate::synth::spec_drop_quotes(s, i).len() ==> #[trigger] crate::synth::spec_drop_quotes(s, i)[j] != c,
    decreases s.len() - i,
{
    let r = crate::synth::spec_drop_quotes(s, i);
    if i < s.len() {
        lemma_drop_quotes_clean(s, i + 1, c);
        let rr = crate::synth::spec_drop_quotes(s, i + 1);
        if !(s[i as int] == '"' || s[i as int] == '\'') {
            assert forall|j: int| 0 <= j < r.len() implies #[trigger] r[j] != c by {
                if j == 0 {
                    assert(r[0] == s[i as int]);
                } else {
                    assert(r[j] == rr[j - 1]);
                }
            }
        }
    }
}

proof fn lemma_strip_wrapping_no_nl(s: Seq<char>)
    requires
        forall|j: int| 0 <= j < s.len() ==> s[j] != '\n',
    ensures
        forall|j: int|
            0 <= j < spec_strip_wrapping(s).len() ==> #[trigger] spec_strip_wrapping(s)[j] != '\n',
    decreases s.len(),
{
    let t = crate::text::spec_trim(s);
    lemma_trim_keeps(s, '\n');
    crate::synth::lemma_trim_le(s);
    let r = spec_strip_wrapping(s);
    if t.len() >= 2 && ((t[0] == '"' && t[t.len() - 1] == '"') || (t[0] == '\'' && t[t.len() - 1]
        == '\'')) {
        let inner = t.subrange(1, t.len() - 1);
        assert(forall|j: int| 0 <= j < inner.len() ==> inner[j] != '\n');
        lemma_strip_wrapping_no_nl(inner);
        assert(r == spec_strip_wrapping(inner));
        assert forall|j: int| 0 <= j < r.len() implies #[trigger] r[j] != '\n' by {
            assert(r[j] == spec_strip_wrapping(inner)[j]);
        }
    } else {
        assert(r == t);
        assert forall|j: int| 0 <= j < r.len() implies #[trigger] r[j] != '\n' by {
            assert(r[j] == t[j]);
        }
    }
}

/// Whatever synthesis could not shape still yields runnable source: the
/// echo fallback, the last resort of every template, tokenizes and parses
/// to exactly one output statement, for every single-line instruction. A
/// template's structured output can still be refused by the lexer (a
/// condition word outside the lexer's alphabet, for one); the run then
/// drops the expansion and keeps its state, as [`spec_run_node`] states.
pub proof fn lemma_echo_fallback_valid(msg: Seq<char>)
    requires
        forall|j: int| 0 <= j < msg.len() ==> msg[j] != '\n',
    ensures
        spec_tokenize(crate::synth::spec_neuro_line(msg)) matches Ok(ts) && spec_parse(ts).len()
            == 1 && spec_parse(ts)[0] is Neuro,
{
    let w = spec_strip_wrapping(msg);
    lemma_strip_wrapping_no_nl(msg);
    let d = crate::synth::spec_drop_quotes(w, 0);
    lemma_drop_quotes_clean(w, 0, '"');
    lemma_drop_quotes_clean(w, 0, '\n');
    let m = crate::text::spec_trim(d);
    lemma_trim_keeps(d, '"');
    lemma_trim_keeps(d, '\n');
    lemma_neuro_shape_valid(m);
}

/// The fixed line of a hard-triggered instruction is itself runnable
/// source of one output statement.
pub proof fn lemma_trigger_line_valid(label0: Seq<char>, confident: bool, instr: Seq<char>)
    requires
        crate::synth::spec_trigger(instr),
    ensures
        spec_tokenize(spec_synthesize(label0, confident, instr)) matches Ok(ts) && spec_parse(
            ts,
        ).len() == 1 && spec_parse(ts)[0] is Neuro,
{
    reveal_strlit("neuro \"// main starts here\"");
    reveal_strlit("neuro \"");
    reveal_strlit("\"");
    reveal_strlit("// main starts here");
    let m = "// main starts here"@;
    assert("neuro \"// main starts here\""@ =~= "neuro \""@ + m + "\""@);
    lemma_neuro_shape_valid(m);
}

/// Evaluating an output statement never mutates the environment.
pub proof fn lemma_output_keeps_env(st: StateS, arg: Seq<char>, depth: int)
    ensures
        spec_run_node(st, NodeS::Neuro(arg), depth) matches Ok(st2) && st2.env == st.env
            && st2.out == st.out.push(spec_neuro_msg(st.env, arg)),
{
}

/// Evaluating an assignment never appends to the output buffer.
pub proof fn lemma_assign_keeps_output(st: StateS, name: Seq<char>, e: ExprS, depth: int)
    ensures
        spec_run_node(st, NodeS::SetVar(name, e), depth) matches Ok(st2) && st2.out == st.out
            && st2.env == st.env.insert(name, crate::text::spec_trim(spec_eval_expr(st.env, e))),
{
}

} // verus!
