//! Execution engine: one call that takes source text through
//! normalization, the lexer, the parser and the interpreter, and returns
//! the run's output or its error.

use vstd::prelude::*;
use crate::interpreter::{Interpreter, Classifier, spec_run_nodes, spec_macro_depth, StateS};

use crate::lexer::{tokenize, spec_tokenize};
use crate::parser::{parse, spec_parse};
use crate::text::{chars_of, string_of, subvec, extend, extend_str, trim, spec_trim,
    match_ci_at, spec_match_ci_at, skip_ws, spec_skip_ws};
use crate::synth::{spec_join_nl, spec_trim_start};

verus! {

// ---------------------------------------------------------------------------
// preprocessing
// ---------------------------------------------------------------------------

/// Line endings normalized to bare newlines, tabs widened to four spaces,
/// a leading byte-order mark dropped.
pub open spec fn spec_preprocess(s: Seq<char>) -> Seq<char> {
    let t = if s.len() > 0 && s[0] == '\u{feff}' {
        s.subrange(1, s.len() as int)
    } else {
        s
    };
    spec_pre_chars(t, 0)
}

pub open spec fn spec_pre_chars(s: Seq<char>, i: nat) -> Seq<char>
    decreases s.len() - i,
{
    if i >= s.len() {
        Seq::empty()
    } else if s[i as int] == '\r' && i + 1 < s.len() && s[(i + 1) as int] == '\n' {
        seq!['\n'] + spec_pre_chars(s, i + 2)
    } else if s[i as int] == '\r' {
        seq!['\n'] + spec_pre_chars(s, i + 1)
    } else if s[i as int] == '\t' {
        "    "@ + spec_pre_chars(s, i + 1)
    } else {
        seq![s[i as int]] + spec_pre_chars(s, i + 1)
    }
}

fn pre_chars(s: &Vec<char>, i: usize, acc: &mut Vec<char>)
    requires
        i <= s@.len(),
    ensures
        final(acc)@ == old(acc)@ + spec_pre_chars(s@, i as nat),
    decreases s@.len() - i,
{
    proof {
        reveal_strlit("    ");
    }
    if i >= s.len() {
        proof {
            assert(acc@ =~= acc@ + Seq::<char>::empty());
        }
        return ;
    }
    let ghost a0 = acc@;
    if s[i] == '\r' && i + 1 < s.len() && s[i + 1] == '\n' {
        acc.push('\n');
        pre_chars(s, i + 2, acc);
        proof {
            assert(a0.push('\n') =~= a0 + seq!['\n']);
            assert((a0 + seq!['\n']) + spec_pre_chars(s@, (i + 2) as nat) =~= a0 + (seq!['\n']
                + spec_pre_chars(s@, (i + 2) as nat)));
        }
    } else if s[i] == '\r' {
        acc.push('\n');
        pre_chars(s, i + 1, acc);
        proof {
            assert(a0.push('\n') =~= a0 + seq!['\n']);
            assert((a0 + seq!['\n']) + spec_pre_chars(s@, (i + 1) as nat) =~= a0 + (seq!['\n']
                + spec_pre_chars(s@, (i + 1) as nat)));
        }
    } else if s[i] == '\t' {
        extend_str(acc, "    ");
        pre_chars(s, i + 1, acc);
        proof {
            assert((a0 + "    "@) + spec_pre_chars(s@, (i + 1) as nat) =~= a0 + ("    "@
                + spec_pre_chars(s@, (i + 1) as nat)));
        }
    } else {
        acc.push(s[i]);
        pre_chars(s, i + 1, acc);
        proof {
            assert(a0.push(s@[i as int]) =~= a0 + seq![s@[i as int]]);
            assert((a0 + seq![s@[i as int]]) + spec_pre_chars(s@, (i + 1) as nat) =~= a0 + (seq![
                s@[i as int],
            ] + spec_pre_chars(s@, (i + 1) as nat)));
        }
    }
}

/// Normalizes line endings, tabs and a leading byte-order mark.
pub fn preprocess(input: &str) -> (r: String)
    ensures
        r@ == spec_preprocess(input@),
{
    let v = chars_of(input);
    let t: Vec<char> = if v.len() > 0 && v[0] == '\u{feff}' {
        subvec(&v, 1, v.len())
    } else {
        let c = subvec(&v, 0, v.len());
        proof {
            assert(c@ =~= v@);
        }
        c
    };
    let mut out: Vec<char> = Vec::new();
    pre_chars(&t, 0, &mut out);
    proof {
        assert(out@ =~= spec_preprocess(input@));
    }
    string_of(&out)
}

// ---------------------------------------------------------------------------
// legacy spellings
// ---------------------------------------------------------------------------

/// Case-insensitive replacement of every occurrence of `n` by `rep`,
/// scanning left to right without overlap.
pub open spec fn spec_replace_ci(h: Seq<char>, n: Seq<char>, rep: Seq<char>, i: nat) -> Seq<char>
    decreases h.len() - i,
{
    if i >= h.len() {
        Seq::empty()
    } else if n.len() > 0 && spec_match_ci_at(h, n, i as int) {
        rep + spec_replace_ci(h, n, rep, i + n.len())
    } else {
        seq![h[i as int]] + spec_replace_ci(h, n, rep, i + 1)
    }
}

fn replace_ci_into(h: &Vec<char>, n: &Vec<char>, rep: &Vec<char>, i: usize, acc: &mut Vec<char>)
    requires
        i <= h@.len(),
    ensures
        final(acc)@ == old(acc)@ + spec_replace_ci(h@, n@, rep@, i as nat),
    decreases h@.len() - i,
{
    if i >= h.len() {
        proof {
            assert(acc@ =~= acc@ + Seq::<char>::empty());
        }
        return ;
    }
    let ghost a0 = acc@;
    if n.len() > 0 && match_ci_at(h, n, i) {
        extend(acc, rep);
        replace_ci_into(h, n, rep, i + n.len(), acc);
        proof {
            assert((a0 + rep@) + spec_replace_ci(h@, n@, rep@, (i + n@.len()) as nat) =~= a0 + (
            rep@ + spec_replace_ci(h@, n@, rep@, (i + n@.len()) as nat)));
        }
    } else {
        acc.push(h[i]);
        replace_ci_into(h, n, rep, i + 1, acc);
        proof {
            assert(a0.push(h@[i as int]) =~= a0 + seq![h@[i as int]]);
            assert((a0 + seq![h@[i as int]]) + spec_replace_ci(h@, n@, rep@, (i + 1) as nat)
                =~= a0 + (seq![h@[i as int]] + spec_replace_ci(h@, n@, rep@, (i + 1) as nat)));
        }
    }
}

/// Replaces every case-insensitive occurrence of a needle.
pub fn replace_case_insensitive_safe(haystack: &str, needle: &str, replacement: &str) -> (r:
    String)
    ensures
        r@ == spec_replace_ci(haystack@, needle@, replacement@, 0),
{
    let h = chars_of(haystack);
    let n = chars_of(needle);
    let rep = chars_of(replacement);
    let mut out: Vec<char> = Vec::new();
    replace_ci_into(&h, &n, &rep, 0, &mut out);
    proof {
        assert(out@ =~= spec_replace_ci(haystack@, needle@, replacement@, 0));
    }
    string_of(&out)
}

/// Whether a line opens with an output verb in its legacy spelling:
/// the verb, then nothing, a space, a quote or a parenthesis.
pub open spec fn spec_legacy_verb(t: Seq<char>) -> Option<int> {
    if spec_match_ci_at(t, "say"@, 0) && (t.len() == 3 || t[3] == ' ' || t[3] == '"' || t[3]
        == '\'' || t[3] == '(') {
        Some(3)
    } else if spec_match_ci_at(t, "print"@, 0) && (t.len() == 5 || t[5] == ' ' || t[5] == '"'
        || t[5] == '\'' || t[5] == '(') {
        Some(5)
    } else {
        None
    }
}

fn legacy_verb(t: &Vec<char>) -> (r: Option<usize>)
    ensures
        match r {
            Some(l) => spec_legacy_verb(t@) == Some(l as int) && l <= t@.len(),
            None => spec_legacy_verb(t@) is None,
        },
{
    proof {
        reveal_strlit("say");
        reveal_strlit("print");
    }
    let say = chars_of("say");
    let pr = chars_of("print");
    if match_ci_at(t, &say, 0) && (t.len() == 3 || t[3] == ' ' || t[3] == '"' || t[3] == '\''
        || t[3] == '(') {
        Some(3)
    } else if match_ci_at(t, &pr, 0) && (t.len() == 5 || t[5] == ' ' || t[5] == '"' || t[5]
        == '\'' || t[5] == '(') {
        Some(5)
    } else {
        None
    }
}

/// A command in its legacy spelling: a leading `say`/`print` becomes the
/// output keyword.
pub open spec fn spec_tail_verb(t: Seq<char>) -> Seq<char> {
    match spec_legacy_verb(t) {
        Some(l) => if 0 <= l <= t.len() {
            "neuro"@ + t.subrange(l, t.len() as int)
        } else {
            t
        },
        None => t,
    }
}

/// An inline control line split into a block: where the text up to the
/// first colon opens with `if`, `elif` or `else` and a command follows the
/// colon, the command moves to its own line, indented four spaces further,
/// its leading output verb rewritten.
pub open spec fn spec_legacy_expand(conv: Seq<char>, ind: Seq<char>) -> Seq<char> {
    let ci = crate::synth::spec_find_char_at(conv, ':', 0);
    if ci < conv.len() {
        let head = conv.subrange(0, ci as int + 1);
        let tail = spec_trim_start(conv.subrange(ci as int + 1, conv.len() as int));
        let ht = spec_trim_start(head);
        let is_ctrl = spec_match_ci_at(ht, "if "@, 0) || spec_match_ci_at(ht, "elif "@, 0)
            || spec_match_ci_at(ht, "else"@, 0);
        if is_ctrl && tail.len() > 0 {
            head + seq!['\n'] + ind + "    "@ + spec_tail_verb(tail)
        } else {
            conv
        }
    } else {
        conv
    }
}

/// One line in today's spelling: a leading `say`/`print` becomes the
/// output keyword, keeping the indentation; an inline `if`/`elif`/`else`
/// command expands into a block; `: say` and `: print` after a colon
/// become the output keyword too.
pub open spec fn spec_legacy_line(line: Seq<char>) -> Seq<char> {
    let k = spec_skip_ws(line, 0);
    let ind = if 0 <= k <= line.len() {
        line.subrange(0, k)
    } else {
        Seq::empty()
    };
    let t = spec_trim_start(line);
    let conv = match spec_legacy_verb(t) {
        Some(l) => if 0 <= l <= t.len() {
            ind + "neuro"@ + t.subrange(l, t.len() as int)
        } else {
            line
        },
        None => line,
    };
    let exp = spec_legacy_expand(conv, ind);
    spec_replace_ci(spec_replace_ci(exp, ": say"@, ": neuro"@, 0), ": print"@, ": neuro"@, 0)
}

fn tail_verb(t: &Vec<char>) -> (r: Vec<char>)
    ensures
        r@ == spec_tail_verb(t@),
{
    match legacy_verb(t) {
        Some(l) => {
            let mut c = chars_of("neuro");
            let restv = subvec(t, l, t.len());
            extend(&mut c, &restv);
            proof {
                assert(c@ =~= "neuro"@ + t@.subrange(l as int, t@.len() as int));
            }
            c
        },
        None => {
            let c = subvec(t, 0, t.len());
            proof {
                assert(c@ =~= t@);
            }
            c
        },
    }
}

fn legacy_expand(conv: &Vec<char>, ind: &Vec<char>) -> (r: Vec<char>)
    ensures
        r@ == spec_legacy_expand(conv@, ind@),
{
    proof {
        reveal_strlit("if ");
        reveal_strlit("elif ");
        reveal_strlit("else");
        reveal_strlit("    ");
    }
    let ci = crate::synth::find_char_at(conv, ':', 0);
    if ci >= conv.len() {
        let c = subvec(conv, 0, conv.len());
        proof {
            assert(c@ =~= conv@);
        }
        return c;
    }
    let head = subvec(conv, 0, ci + 1);
    let tail0 = subvec(conv, ci + 1, conv.len());
    let tail = crate::synth::trim_start_chars(&tail0);
    let ht = crate::synth::trim_start_chars(&head);
    let ifw = chars_of("if ");
    let elifw = chars_of("elif ");
    let elsew = chars_of("else");
    let is_ctrl = match_ci_at(&ht, &ifw, 0) || match_ci_at(&ht, &elifw, 0) || match_ci_at(
        &ht,
        &elsew,
        0,
    );
    if is_ctrl && tail.len() > 0 {
        let mut out = subvec(&head, 0, head.len());
        out.push('\n');
        extend(&mut out, ind);
        extend_str(&mut out, "    ");
        let tv = tail_verb(&tail);
        extend(&mut out, &tv);
        proof {
            assert(out@ =~= head@ + seq!['\n'] + ind@ + "    "@ + spec_tail_verb(tail@));
        }
        out
    } else {
        let c = subvec(conv, 0, conv.len());
        proof {
            assert(c@ =~= conv@);
        }
        c
    }
}

fn legacy_line(line: &Vec<char>) -> (r: Vec<char>)
    ensures
        r@ == spec_legacy_line(line@),
{
    let k = skip_ws(line, 0);
    let ind = subvec(line, 0, k);
    let t = subvec(line, k, line.len());
    proof {
        assert(t@ =~= spec_trim_start(line@));
    }
    let conv: Vec<char> = match legacy_verb(&t) {
        Some(l) => {
            let mut c = subvec(&ind, 0, ind.len());
            proof {
                assert(c@ =~= ind@);
            }
            extend_str(&mut c, "neuro");
            let restv = subvec(&t, l, t.len());
            extend(&mut c, &restv);
            proof {
                assert(c@ =~= ind@ + "neuro"@ + t@.subrange(l as int, t@.len() as int));
            }
            c
        },
        None => {
            let c = subvec(line, 0, line.len());
            proof {
                assert(c@ =~= line@);
            }
            c
        },
    };
    let exp = legacy_expand(&conv, &ind);
    let n1 = chars_of(": say");
    let r1 = chars_of(": neuro");
    let mut s1: Vec<char> = Vec::new();
    replace_ci_into(&exp, &n1, &r1, 0, &mut s1);
    proof {
        assert(s1@ =~= spec_replace_ci(exp@, ": say"@, ": neuro"@, 0));
    }
    let n2 = chars_of(": print");
    let mut s2: Vec<char> = Vec::new();
    replace_ci_into(&s1, &n2, &r1, 0, &mut s2);
    proof {
        assert(s2@ =~= spec_legacy_line(line@));
    }
    s2
}

/// Every line in today's spelling, each followed by a newline.
pub open spec fn spec_normalize_legacy(input: Seq<char>) -> Seq<char> {
    spec_legacy_lines(crate::lexer::spec_lines(input))
}

pub open spec fn spec_legacy_lines(lines: Seq<Seq<char>>) -> Seq<char>
    decreases lines.len(),
{
    if lines.len() == 0 {
        Seq::empty()
    } else {
        spec_legacy_line(lines[0]) + seq!['\n'] + spec_legacy_lines(lines.drop_first())
    }
}

/// Rewrites legacy output spellings before tokenization.
pub fn normalize_legacy(input: &str) -> (r: String)
    ensures
        r@ == spec_normalize_legacy(input@),
{
    let v = chars_of(input);
    let lines = crate::lexer::split_lines_for(&v);
    let ghost lv = crate::lexer::lines_view(lines@);
    let mut out: Vec<char> = Vec::new();
    let mut i: usize = 0;
    proof {
        assert(lv.subrange(0, lv.len() as int) =~= lv);
        assert(out@ =~= Seq::<char>::empty());
        assert(Seq::<char>::empty() + spec_legacy_lines(lv) =~= spec_legacy_lines(lv));
    }
    while i < lines.len()
        invariant
            i <= lines@.len(),
            lv == crate::lexer::lines_view(lines@),
            out@ + spec_legacy_lines(lv.subrange(i as int, lv.len() as int)) == spec_legacy_lines(
                lv,
            ),
        decreases lines@.len() - i,
    {
        let ghost o0 = out@;
        let ghost rest = lv.subrange(i as int, lv.len() as int);
        proof {
            assert(rest[0] == lv[i as int]);
            assert(lv[i as int] == lines@[i as int]@);
            assert(rest.drop_first() =~= lv.subrange((i + 1) as int, lv.len() as int));
        }
        let nl = legacy_line(&lines[i]);
        extend(&mut out, &nl);
        out.push('\n');
        proof {
            assert(out@ =~= o0 + (spec_legacy_line(lv[i as int]) + seq!['\n']));
            assert((o0 + (spec_legacy_line(lv[i as int]) + seq!['\n'])) + spec_legacy_lines(
                rest.drop_first(),
            ) =~= o0 + (spec_legacy_line(lv[i as int]) + seq!['\n'] + spec_legacy_lines(
                rest.drop_first(),
            )));
        }
        i = i + 1;
    }
    proof {
        assert(lv.subrange(i as int, lv.len() as int) =~= Seq::<Seq<char>>::empty());
        assert(out@ + Seq::<char>::empty() =~= out@);
    }
    string_of(&out)
}

// ---------------------------------------------------------------------------
// whole-run execution
// ---------------------------------------------------------------------------

/// The success sentinel shown when a run emitted nothing.
pub open spec fn spec_ok_sentinel() -> Seq<char> {
    "\u{2705} Execution succeeded."@
}

/// A source text whose statements reach no classifier once parsed: such a
/// text runs exactly as specified whatever classifier kind is in play.
pub open spec fn spec_source_cfree(input: Seq<char>) -> bool {
    match spec_tokenize(spec_normalize_legacy(spec_preprocess(input))) {
        Ok(ts) => crate::interpreter::spec_nodes_cfree(spec_parse(ts)),
        Err(e) => true,
    }
}

/// One whole run of a source text from an initial state, with no
/// classifier present: the output joined with newlines, the sentinel where
/// nothing was emitted, or the run's error.
pub open spec fn spec_analyze(input: Seq<char>, st: StateS) -> Result<Seq<char>, Seq<char>> {
    let norm = spec_normalize_legacy(spec_preprocess(input));
    match spec_tokenize(norm) {
        Err(e) => Err(e),
        Ok(ts) => match spec_run_nodes(st, spec_parse(ts), spec_macro_depth()) {
            Err(m) => Err(m),
            Ok(st2) => {
                let out = spec_join_nl(st2.out);
                if spec_trim(out).len() == 0 {
                    Ok(spec_ok_sentinel())
                } else {
                    Ok(out)
                }
            },
        },
    }
}

/// Runs the whole input as one unit against the given interpreter.
pub fn analyze<C: Classifier>(input: &str, interpreter: &mut Interpreter<C>) -> (r: Result<
    String,
    String,
>)
    ensures
        (old(interpreter).cfree() && spec_source_cfree(input@)) ==> (match spec_analyze(
            input@,
            old(interpreter).state(),
        ) {
            Ok(o) => r matches Ok(s) && s@ == o,
            Err(e) => r matches Err(m) && m@ == e,
        }),
        (!C::loads() && old(interpreter).cfree()) ==> (match spec_analyze(
            input@,
            old(interpreter).state(),
        ) {
            Ok(o) => r matches Ok(s) && s@ == o,
            Err(e) => r matches Err(m) && m@ == e,
        }),
{
    let pre = preprocess(input);
    let norm = normalize_legacy(pre.as_str());
    match tokenize(norm.as_str()) {
        Err(e) => Err(e),
        Ok(toks) => {
            let ast = parse(toks);
            match interpreter.run(ast) {
                Err(e) => Err(e),
                Ok(()) => {
                    let out = interpreter.take_output();
                    let ov = chars_of(out.as_str());
                    let t = trim(&ov);
                    if t.len() == 0 {
                        Ok(string_of(&chars_of("\u{2705} Execution succeeded.")))
                    } else {
                        Ok(out)
                    }
                },
            }
        },
    }
}

/// The primary execution mode also serves block-wise callers: the whole
/// input runs as one unit.
pub fn analyze_blocks<C: Classifier>(input: &str, interpreter: &mut Interpreter<C>) -> (r: Result<
    String,
    String,
>)
    ensures
        (old(interpreter).cfree() && spec_source_cfree(input@)) ==> (match spec_analyze(
            input@,
            old(interpreter).state(),
        ) {
            Ok(o) => r matches Ok(s) && s@ == o,
            Err(e) => r matches Err(m) && m@ == e,
        }),
        (!C::loads() && old(interpreter).cfree()) ==> (match spec_analyze(
            input@,
            old(interpreter).state(),
        ) {
            Ok(o) => r matches Ok(s) && s@ == o,
            Err(e) => r matches Err(m) && m@ == e,
        }),
{
    analyze(input, interpreter)
}

/// A fixed demonstration snippet for a prompt.
pub open spec fn spec_generate(prompt: Seq<char>) -> Seq<char> {
    "# Generated DSL demo\nneuro \"Hello from NeuroChain\"\n# Prompt: "@ + prompt
}

/// Produces a fixed demonstration snippet; it never fails.
pub fn generate(prompt: &str) -> (r: Result<String, String>)
    ensures
        r matches Ok(s) && s@ == spec_generate(prompt@),
{
    let mut out = chars_of("# Generated DSL demo\nneuro \"Hello from NeuroChain\"\n# Prompt: ");
    let pv = chars_of(prompt);
    extend(&mut out, &pv);
    proof {
        assert(out@ =~= spec_generate(prompt@));
    }
    Ok(string_of(&out))
}

} // verus!
