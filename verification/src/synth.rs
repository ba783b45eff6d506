//! Macro synthesizer.
//!
//! Turns a classified natural-language instruction into source text of the
//! language itself. The resolved label picks a template builder; each
//! builder extracts structure from the instruction with a fixed battery of
//! word patterns, and every builder falls back, in the last resort, to a
//! single output statement echoing the sanitized instruction.
//!
//! Every function here is total and pinned by a specification twin: the
//! same instruction always synthesizes the same source text.

use vstd::prelude::*;
use crate::text::{
    chars_of, string_of, subvec, extend, extend_str, trim, skip_ws, is_ws, is_digit, is_alpha,
    is_alnum_us, match_ci_at, find_ci_from, rfind_ci, chars_eq_ci, spec_trim, spec_skip_ws,
    spec_is_ws, spec_is_digit, spec_is_alpha, spec_is_alnum_us, spec_match_ci_at,
    spec_find_ci_from, spec_rfind_ci, spec_contains_ci, spec_seq_eq_ci, digit_val,
    spec_digit_val,
};

verus! {

// ---------------------------------------------------------------------------
// small transforms
// ---------------------------------------------------------------------------

/// Wrapping quote pairs (double or single) removed repeatedly, with
/// whitespace trimmed between rounds.
pub open spec fn spec_strip_wrapping(s: Seq<char>) -> Seq<char>
    decreases s.len(),
    via spec_strip_wrapping_dec
{
    let t = spec_trim(s);
    if t.len() >= 2 && ((t[0] == '"' && t[t.len() - 1] == '"') || (t[0] == '\'' && t[t.len() - 1]
        == '\'')) {
        spec_strip_wrapping(t.subrange(1, t.len() - 1))
    } else {
        t
    }
}

#[via_fn]
proof fn spec_strip_wrapping_dec(s: Seq<char>) {
    lemma_trim_le(s);
}

proof fn lemma_skip_ws_range(s: Seq<char>, i: int)
    requires
        0 <= i <= s.len(),
    ensures
        i <= spec_skip_ws(s, i) <= s.len(),
    decreases s.len() - i,
{
    if i < s.len() && spec_is_ws(s[i]) {
        lemma_skip_ws_range(s, i + 1);
    }
}

proof fn lemma_rskip_ws_range(s: Seq<char>, j: int)
    requires
        0 <= j <= s.len(),
    ensures
        0 <= crate::text::spec_rskip_ws(s, j) <= j,
    decreases j,
{
    if 0 < j && spec_is_ws(s[j - 1]) {
        lemma_rskip_ws_range(s, j - 1);
    }
}

pub proof fn lemma_trim_le(s: Seq<char>)
    ensures
        spec_trim(s).len() <= s.len(),
{
    lemma_skip_ws_range(s, 0);
    lemma_rskip_ws_range(s, s.len() as int);
}

fn strip_wrapping_chars(s: Vec<char>) -> (r: Vec<char>)
    ensures
        r@ == spec_strip_wrapping(s@),
    decreases s@.len(),
{
    let t = trim(&s);
    proof {
        lemma_trim_le(s@);
    }
    if t.len() >= 2 && ((t[0] == '"' && t[t.len() - 1] == '"') || (t[0] == '\'' && t[t.len() - 1]
        == '\'')) {
        strip_wrapping_chars(subvec(&t, 1, t.len() - 1))
    } else {
        t
    }
}

/// The instruction with wrapping quotes removed.
pub fn strip_wrapping_quotes(s: &str) -> (r: String)
    ensures
        r@ == spec_strip_wrapping(s@),
{
    let v = chars_of(s);
    let w = strip_wrapping_chars(v);
    string_of(&w)
}

/// Characters in the sanitizer's trim set: quotes and sentence punctuation.
pub open spec fn spec_is_sanit(c: char) -> bool {
    c == '"' || c == '\'' || c == ' ' || c == '.' || c == ',' || c == '!' || c == '?' || c
        == '\u{2026}'
}

fn is_sanit(c: char) -> (r: bool)
    ensures
        r == spec_is_sanit(c),
{
    c == '"' || c == '\'' || c == ' ' || c == '.' || c == ',' || c == '!' || c == '?' || c
        == '\u{2026}'
}

pub open spec fn spec_skip_sanit(s: Seq<char>, i: nat) -> nat
    decreases s.len() - i,
{
    if i < s.len() && spec_is_sanit(s[i as int]) {
        spec_skip_sanit(s, i + 1)
    } else {
        i
    }
}

pub open spec fn spec_rskip_sanit(s: Seq<char>, j: int) -> int
    decreases j,
{
    if 0 < j <= s.len() && spec_is_sanit(s[j - 1]) {
        spec_rskip_sanit(s, j - 1)
    } else {
        j
    }
}

pub open spec fn spec_trim_sanit(s: Seq<char>) -> Seq<char> {
    let a = spec_skip_sanit(s, 0);
    let b = spec_rskip_sanit(s, s.len() as int);
    if a <= b {
        s.subrange(a as int, b)
    } else {
        Seq::empty()
    }
}

fn skip_sanit(s: &Vec<char>, i: usize) -> (r: usize)
    requires
        i <= s@.len(),
    ensures
        r == spec_skip_sanit(s@, i as nat),
        i <= r <= s@.len(),
    decreases s@.len() - i,
{
    if i < s.len() && is_sanit(s[i]) {
        skip_sanit(s, i + 1)
    } else {
        i
    }
}

fn rskip_sanit(s: &Vec<char>, j: usize) -> (r: usize)
    requires
        j <= s@.len(),
    ensures
        r == spec_rskip_sanit(s@, j as int),
        r <= j,
    decreases j,
{
    if 0 < j && is_sanit(s[j - 1]) {
        rskip_sanit(s, j - 1)
    } else {
        j
    }
}

fn trim_sanit(s: &Vec<char>) -> (r: Vec<char>)
    ensures
        r@ == spec_trim_sanit(s@),
{
    let a = skip_sanit(s, 0);
    let b = rskip_sanit(s, s.len());
    if a <= b {
        subvec(s, a, b)
    } else {
        let out: Vec<char> = Vec::new();
        proof {
            assert(out@ =~= Seq::<char>::empty());
        }
        out
    }
}

/// The sanitized form of a message: wrapping quotes gone, then quotes and
/// sentence punctuation trimmed from both ends, then whitespace trimmed.
pub open spec fn spec_sanitize(s: Seq<char>) -> Seq<char> {
    spec_trim(spec_trim_sanit(spec_strip_wrapping(s)))
}

pub fn sanitize_text(s: &str) -> (r: String)
    ensures
        r@ == spec_sanitize(s@),
{
    let v = chars_of(s);
    let w = strip_wrapping_chars(v);
    let x = trim_sanit(&w);
    let y = trim(&x);
    string_of(&y)
}

/// All quote characters removed.
pub open spec fn spec_drop_quotes(s: Seq<char>, i: nat) -> Seq<char>
    decreases s.len() - i,
{
    if i >= s.len() {
        Seq::empty()
    } else if s[i as int] == '"' || s[i as int] == '\'' {
        spec_drop_quotes(s, i + 1)
    } else {
        seq![s[i as int]] + spec_drop_quotes(s, i + 1)
    }
}

fn drop_quotes(s: &Vec<char>, i: usize, acc: &mut Vec<char>)
    requires
        i <= s@.len(),
    ensures
        final(acc)@ == old(acc)@ + spec_drop_quotes(s@, i as nat),
    decreases s@.len() - i,
{
    if i >= s.len() {
        proof {
            assert(acc@ =~= acc@ + Seq::<char>::empty());
        }
        return ;
    }
    if s[i] == '"' || s[i] == '\'' {
        drop_quotes(s, i + 1, acc);
    } else {
        let ghost a0 = acc@;
        acc.push(s[i]);
        drop_quotes(s, i + 1, acc);
        proof {
            assert((a0 + seq![s@[i as int]]) + spec_drop_quotes(s@, (i + 1) as nat) =~= a0 + (seq![
                s@[i as int],
            ] + spec_drop_quotes(s@, (i + 1) as nat)));
            assert(a0.push(s@[i as int]) =~= a0 + seq![s@[i as int]]);
        }
    }
}

/// The last-resort output statement: the instruction, quotes removed,
/// wrapped as a quoted output line.
pub open spec fn spec_neuro_line(msg: Seq<char>) -> Seq<char> {
    "neuro \""@ + spec_trim(spec_drop_quotes(spec_strip_wrapping(msg), 0)) + "\""@
}

pub fn neuro_line(msg: &str) -> (r: String)
    ensures
        r@ == spec_neuro_line(msg@),
{
    let v = chars_of(msg);
    let clean = strip_wrapping_chars(v);
    let mut safe: Vec<char> = Vec::new();
    drop_quotes(&clean, 0, &mut safe);
    let t = trim(&safe);
    let mut out = chars_of("neuro \"");
    extend(&mut out, &t);
    out.push('"');
    proof {
        reveal_strlit("\"");
        assert(out@ =~= spec_neuro_line(msg@));
    }
    string_of(&out)
}

// ---------------------------------------------------------------------------
// word search
// ---------------------------------------------------------------------------

/// A case-insensitive match of `n` at `i`, standing on its own word: the
/// neighbours, where they exist, are not word characters.
pub open spec fn spec_word_at(h: Seq<char>, n: Seq<char>, i: int) -> bool {
    spec_match_ci_at(h, n, i) && (i == 0 || !spec_is_alnum_us(h[i - 1])) && (i + n.len()
        == h.len() || !spec_is_alnum_us(h[i + n.len()]))
}

pub open spec fn spec_find_word_from(h: Seq<char>, n: Seq<char>, from: int) -> Option<int>
    decreases h.len() + 1 - from,
{
    if from < 0 || from + n.len() > h.len() {
        None
    } else if spec_word_at(h, n, from) {
        Some(from)
    } else {
        spec_find_word_from(h, n, from + 1)
    }
}

pub fn word_at(h: &Vec<char>, n: &Vec<char>, i: usize) -> (r: bool)
    ensures
        r == spec_word_at(h@, n@, i as int),
{
    if !match_ci_at(h, n, i) {
        return false;
    }
    if i > 0 && is_alnum_us(h[i - 1]) {
        return false;
    }
    if i < h.len() && h.len() - i > n.len() && is_alnum_us(h[i + n.len()]) {
        return false;
    }
    true
}

pub fn find_word_from(h: &Vec<char>, n: &Vec<char>, from: usize) -> (r: Option<usize>)
    ensures
        match r {
            Some(i) => from <= i && spec_find_word_from(h@, n@, from as int) == Some(i as int)
                && i + n@.len() <= h@.len() && spec_word_at(h@, n@, i as int),
            None => spec_find_word_from(h@, n@, from as int) is None,
        },
    decreases h@.len() + 1 - from,
{
    if from > h.len() || n.len() > h.len() - from {
        return None;
    }
    if word_at(h, n, from) {
        return Some(from);
    }
    if from >= h.len() {
        proof {
            assert(spec_find_word_from(h@, n@, (from + 1) as int) is None);
        }
        return None;
    }
    find_word_from(h, n, from + 1)
}

pub open spec fn spec_contains_word(h: Seq<char>, n: Seq<char>) -> bool {
    spec_find_word_from(h, n, 0) is Some
}

pub fn contains_word(h: &Vec<char>, lit: &str) -> (r: bool)
    ensures
        r == spec_contains_word(h@, lit@),
{
    let n = chars_of(lit);
    find_word_from(h, &n, 0).is_some()
}

// ---------------------------------------------------------------------------
// repeat counts
// ---------------------------------------------------------------------------

pub open spec fn spec_digits_end_at(s: Seq<char>, i: nat) -> nat
    decreases s.len() - i,
{
    if i < s.len() && spec_is_digit(s[i as int]) {
        spec_digits_end_at(s, i + 1)
    } else {
        i
    }
}

fn digits_end_at(s: &Vec<char>, i: usize) -> (r: usize)
    requires
        i <= s@.len(),
    ensures
        r == spec_digits_end_at(s@, i as nat),
        i <= r <= s@.len(),
    decreases s@.len() - i,
{
    if i < s.len() && is_digit(s[i]) {
        digits_end_at(s, i + 1)
    } else {
        i
    }
}

/// Exact value of the digit run starting at `i`, as written, however long.
pub open spec fn spec_digit_run_val(s: Seq<char>, i: nat, acc: int) -> int
    decreases s.len() - i,
{
    if i < s.len() && spec_is_digit(s[i as int]) {
        spec_digit_run_val(s, i + 1, acc * 10 + spec_digit_val(s[i as int]))
    } else {
        acc
    }
}

/// One above the largest count a machine word holds: the saturation point
/// of the executable reading, and the overflow threshold of a count.
pub open spec fn spec_count_cap() -> int {
    usize::MAX as int + 1
}

/// Reads the digit run, saturating at one above `usize::MAX`; the ghost
/// accumulator carries the exact value so the result is pinned to it.
fn digit_run_val(s: &Vec<char>, i: usize, acc: u128, Ghost(tacc): Ghost<int>) -> (r: u128)
    requires
        i <= s@.len(),
        0 <= tacc,
        acc == if tacc > spec_count_cap() {
            spec_count_cap()
        } else {
            tacc
        },
    ensures
        ({
            let t = spec_digit_run_val(s@, i as nat, tacc);
            r == if t > spec_count_cap() {
                spec_count_cap()
            } else {
                t
            }
        }),
    decreases s@.len() - i,
{
    if i < s.len() && is_digit(s[i]) {
        let d = digit_val(s[i]);
        let ghost t2 = tacc * 10 + d;
        let cap: u128 = (usize::MAX as u128) + 1;
        let raw: u128 = acc * 10 + (d as u128);
        let a2: u128 = if raw > cap {
            cap
        } else {
            raw
        };
        proof {
            if tacc > spec_count_cap() {
                assert(tacc * 10 >= spec_count_cap() * 10) by (nonlinear_arith)
                    requires
                        tacc > spec_count_cap(),
                        spec_count_cap() > 0,
                ;
                assert(spec_count_cap() * 10 > spec_count_cap()) by (nonlinear_arith)
                    requires
                        spec_count_cap() > 0,
                ;
            }
            assert(a2 == if t2 > spec_count_cap() {
                spec_count_cap()
            } else {
                t2
            });
        }
        digit_run_val(s, i + 1, a2, Ghost(t2))
    } else {
        acc
    }
}

/// The leftmost of the words `once`, `twice`, `thrice`, as a count.
pub open spec fn spec_once_word_at(p: Seq<char>, i: nat) -> Option<int>
    decreases p.len() - i,
{
    if i >= p.len() {
        None
    } else if spec_word_at(p, "once"@, i as int) {
        Some(1)
    } else if spec_word_at(p, "twice"@, i as int) {
        Some(2)
    } else if spec_word_at(p, "thrice"@, i as int) {
        Some(3)
    } else {
        spec_once_word_at(p, i + 1)
    }
}

fn once_word_at(p: &Vec<char>, i: usize) -> (r: Option<usize>)
    requires
        i <= p@.len(),
    ensures
        match r {
            Some(n) => spec_once_word_at(p@, i as nat) == Some(n as int),
            None => spec_once_word_at(p@, i as nat) is None,
        },
    decreases p@.len() - i,
{
    proof {
        reveal_strlit("once");
        reveal_strlit("twice");
        reveal_strlit("thrice");
    }
    let oncew = chars_of("once");
    let twicew = chars_of("twice");
    let thricew = chars_of("thrice");
    let mut j: usize = i;
    while j < p.len()
        invariant
            i <= j <= p@.len(),
            oncew@ == "once"@,
            twicew@ == "twice"@,
            thricew@ == "thrice"@,
            spec_once_word_at(p@, i as nat) == spec_once_word_at(p@, j as nat),
        decreases p@.len() - j,
    {
        if word_at(p, &oncew, j) {
            return Some(1);
        }
        if word_at(p, &twicew, j) {
            return Some(2);
        }
        if word_at(p, &thricew, j) {
            return Some(3);
        }
        j = j + 1;
    }
    None
}

/// The repeat count a loop instruction asks for: the exact number written
/// before a repetition word (`times`, `time`, `x`) when it fits a machine
/// word (an overflowing number reads as no count at all), else the
/// leftmost of the words `once`, `twice`, `thrice`, else a spelled-out
/// numeral before `times`.
pub open spec fn spec_loop_count(p0: Seq<char>) -> Option<int> {
    let p = spec_strip_wrapping(p0);
    match spec_count_times(p, 0) {
        Some(n) => if n <= usize::MAX {
            Some(n)
        } else {
            None
        },
        None => match spec_count_x(p, 0) {
            Some(n) => if n <= usize::MAX {
                Some(n)
            } else {
                None
            },
            None => match spec_once_word_at(p, 0) {
                Some(n) => Some(n),
                None => spec_count_numeral(p),
            },
        },
    }
}

/// A case-insensitive match at `i` whose right edge stands on a word
/// boundary; the left edge is free, so a count reads even when the word
/// leans on its number.
pub open spec fn spec_tail_word_at(h: Seq<char>, n: Seq<char>, i: int) -> bool {
    spec_match_ci_at(h, n, i) && (i + n.len() == h.len() || !spec_is_alnum_us(h[i + n.len()]))
}

pub fn tail_word_at(h: &Vec<char>, n: &Vec<char>, i: usize) -> (r: bool)
    ensures
        r == spec_tail_word_at(h@, n@, i as int),
{
    if !match_ci_at(h, n, i) {
        return false;
    }
    if i < h.len() && h.len() - i > n.len() && is_alnum_us(h[i + n.len()]) {
        return false;
    }
    true
}

/// A digit run, optional spaces, then a `time`/`times` word.
pub open spec fn spec_count_times(p: Seq<char>, i: nat) -> Option<int>
    decreases p.len() - i,
{
    if i >= p.len() {
        None
    } else if spec_is_digit(p[i as int]) && (i == 0 || !spec_is_alnum_us(p[i - 1])) {
        let e = spec_digits_end_at(p, i);
        let w = spec_skip_spaces(p, e);
        if spec_tail_word_at(p, "times"@, w as int) || spec_tail_word_at(p, "time"@, w as int) {
            Some(spec_digit_run_val(p, i, 0))
        } else {
            let e1 = if e > i {
                e
            } else {
                i + 1
            };
            if e1 > p.len() {
                None
            } else {
                spec_count_times(p, e1)
            }
        }
    } else {
        spec_count_times(p, i + 1)
    }
}

pub open spec fn spec_skip_spaces(s: Seq<char>, i: nat) -> nat
    decreases s.len() - i,
{
    if i < s.len() && s[i as int] == ' ' {
        spec_skip_spaces(s, i + 1)
    } else {
        i
    }
}

fn skip_spaces(s: &Vec<char>, i: usize) -> (r: usize)
    requires
        i <= s@.len(),
    ensures
        r == spec_skip_spaces(s@, i as nat),
        i <= r <= s@.len(),
    decreases s@.len() - i,
{
    if i < s.len() && s[i] == ' ' {
        skip_spaces(s, i + 1)
    } else {
        i
    }
}

fn count_times(p: &Vec<char>, i: usize) -> (r: Option<u128>)
    requires
        i <= p@.len(),
    ensures
        match r {
            Some(n) => spec_count_times(p@, i as nat) matches Some(t) && n == (if t
                > spec_count_cap() {
                spec_count_cap()
            } else {
                t
            }),
            None => spec_count_times(p@, i as nat) is None,
        },
    decreases p@.len() - i,
{
    if i >= p.len() {
        return None;
    }
    if is_digit(p[i]) && (i == 0 || !is_alnum_us(p[i - 1])) {
        let e = digits_end_at(p, i);
        let w = skip_spaces(p, e);
        let times = chars_of("times");
        let time = chars_of("time");
        if tail_word_at(p, &times, w) || tail_word_at(p, &time, w) {
            Some(digit_run_val(p, i, 0, Ghost(0)))
        } else {
            let e1 = if e > i {
                e
            } else {
                i + 1
            };
            count_times(p, e1)
        }
    } else {
        count_times(p, i + 1)
    }
}

/// A digit run, optional spaces, then a lone `x`.
pub open spec fn spec_count_x(p: Seq<char>, i: nat) -> Option<int>
    decreases p.len() - i,
{
    if i >= p.len() {
        None
    } else if spec_is_digit(p[i as int]) && (i == 0 || !spec_is_alnum_us(p[i - 1])) {
        let e = spec_digits_end_at(p, i);
        let w = spec_skip_spaces(p, e);
        if spec_tail_word_at(p, "x"@, w as int) {
            Some(spec_digit_run_val(p, i, 0))
        } else {
            let e1 = if e > i {
                e
            } else {
                i + 1
            };
            if e1 > p.len() {
                None
            } else {
                spec_count_x(p, e1)
            }
        }
    } else {
        spec_count_x(p, i + 1)
    }
}

fn count_x(p: &Vec<char>, i: usize) -> (r: Option<u128>)
    requires
        i <= p@.len(),
    ensures
        match r {
            Some(n) => spec_count_x(p@, i as nat) matches Some(t) && n == (if t
                > spec_count_cap() {
                spec_count_cap()
            } else {
                t
            }),
            None => spec_count_x(p@, i as nat) is None,
        },
    decreases p@.len() - i,
{
    if i >= p.len() {
        return None;
    }
    if is_digit(p[i]) && (i == 0 || !is_alnum_us(p[i - 1])) {
        let e = digits_end_at(p, i);
        let w = skip_spaces(p, e);
        let x = chars_of("x");
        if tail_word_at(p, &x, w) {
            Some(digit_run_val(p, i, 0, Ghost(0)))
        } else {
            let e1 = if e > i {
                e
            } else {
                i + 1
            };
            count_x(p, e1)
        }
    } else {
        count_x(p, i + 1)
    }
}

/// A spelled-out numeral directly before a `times` word.
pub open spec fn spec_numeral_val(w: Seq<char>) -> Option<int> {
    if spec_seq_eq_ci(w, "one"@) {
        Some(1)
    } else if spec_seq_eq_ci(w, "two"@) {
        Some(2)
    } else if spec_seq_eq_ci(w, "three"@) {
        Some(3)
    } else if spec_seq_eq_ci(w, "four"@) {
        Some(4)
    } else if spec_seq_eq_ci(w, "five"@) {
        Some(5)
    } else if spec_seq_eq_ci(w, "six"@) {
        Some(6)
    } else if spec_seq_eq_ci(w, "seven"@) {
        Some(7)
    } else if spec_seq_eq_ci(w, "eight"@) {
        Some(8)
    } else if spec_seq_eq_ci(w, "nine"@) {
        Some(9)
    } else if spec_seq_eq_ci(w, "ten"@) {
        Some(10)
    } else if spec_seq_eq_ci(w, "eleven"@) {
        Some(11)
    } else if spec_seq_eq_ci(w, "twelve"@) {
        Some(12)
    } else {
        None
    }
}

fn numeral_val(w: &Vec<char>) -> (r: Option<usize>)
    ensures
        match r {
            Some(n) => spec_numeral_val(w@) == Some(n as int) && 1 <= n <= 12,
            None => spec_numeral_val(w@) is None,
        },
{
    if chars_eq_ci_lit(w, "one") {
        Some(1)
    } else if chars_eq_ci_lit(w, "two") {
        Some(2)
    } else if chars_eq_ci_lit(w, "three") {
        Some(3)
    } else if chars_eq_ci_lit(w, "four") {
        Some(4)
    } else if chars_eq_ci_lit(w, "five") {
        Some(5)
    } else if chars_eq_ci_lit(w, "six") {
        Some(6)
    } else if chars_eq_ci_lit(w, "seven") {
        Some(7)
    } else if chars_eq_ci_lit(w, "eight") {
        Some(8)
    } else if chars_eq_ci_lit(w, "nine") {
        Some(9)
    } else if chars_eq_ci_lit(w, "ten") {
        Some(10)
    } else if chars_eq_ci_lit(w, "eleven") {
        Some(11)
    } else if chars_eq_ci_lit(w, "twelve") {
        Some(12)
    } else {
        None
    }
}

fn chars_eq_ci_lit(a: &Vec<char>, lit: &str) -> (r: bool)
    ensures
        r == spec_seq_eq_ci(a@, lit@),
{
    let n = chars_of(lit);
    chars_eq_ci(a, &n)
}

/// Scans for any word followed by spaces and a `times`/`time` word, whose
/// spelling is a numeral.
pub open spec fn spec_count_numeral(p: Seq<char>) -> Option<int> {
    spec_count_numeral_at(p, 0)
}

pub open spec fn spec_count_numeral_at(p: Seq<char>, i: nat) -> Option<int>
    decreases p.len() - i,
{
    if i >= p.len() {
        None
    } else if spec_is_alpha(p[i as int]) && (i == 0 || !spec_is_alnum_us(p[i - 1])) {
        let e = spec_word_end_at(p, i);
        let w = spec_skip_spaces(p, e);
        let word = p.subrange(i as int, e as int);
        if (spec_word_at(p, "times"@, w as int) || spec_word_at(p, "time"@, w as int))
            && spec_numeral_val(word) is Some {
            spec_numeral_val(word)
        } else {
            let e1 = if e > i {
                e
            } else {
                i + 1
            };
            if e1 > p.len() {
                None
            } else {
                spec_count_numeral_at(p, e1)
            }
        }
    } else {
        spec_count_numeral_at(p, i + 1)
    }
}

pub open spec fn spec_word_end_at(s: Seq<char>, i: nat) -> nat
    decreases s.len() - i,
{
    if i < s.len() && spec_is_alnum_us(s[i as int]) {
        spec_word_end_at(s, i + 1)
    } else {
        i
    }
}

fn word_end_at(s: &Vec<char>, i: usize) -> (r: usize)
    requires
        i <= s@.len(),
    ensures
        r == spec_word_end_at(s@, i as nat),
        i <= r <= s@.len(),
    decreases s@.len() - i,
{
    if i < s.len() && is_alnum_us(s[i]) {
        word_end_at(s, i + 1)
    } else {
        i
    }
}

fn count_numeral_at(p: &Vec<char>, i: usize) -> (r: Option<usize>)
    requires
        i <= p@.len(),
    ensures
        match r {
            Some(n) => spec_count_numeral_at(p@, i as nat) == Some(n as int) && 1 <= n <= 12,
            None => spec_count_numeral_at(p@, i as nat) is None,
        },
    decreases p@.len() - i,
{
    if i >= p.len() {
        return None;
    }
    if is_alpha(p[i]) && (i == 0 || !is_alnum_us(p[i - 1])) {
        let e = word_end_at(p, i);
        let w = skip_spaces(p, e);
        let word = subvec(p, i, e);
        let times = chars_of("times");
        let time = chars_of("time");
        let nv = numeral_val(&word);
        if (word_at(p, &times, w) || word_at(p, &time, w)) && nv.is_some() {
            nv
        } else {
            let e1 = if e > i {
                e
            } else {
                i + 1
            };
            count_numeral_at(p, e1)
        }
    } else {
        count_numeral_at(p, i + 1)
    }
}

/// The repeat count an instruction asks for, if any, exactly as written.
pub fn loop_count_from_prompt(prompt: &str) -> (r: Option<usize>)
    ensures
        match r {
            Some(n) => spec_loop_count(prompt@) == Some(n as int),
            None => spec_loop_count(prompt@) is None,
        },
{
    let v = chars_of(prompt);
    let p = strip_wrapping_chars(v);
    match count_times(&p, 0) {
        Some(n) => if n > usize::MAX as u128 {
            None
        } else {
            Some(n as usize)
        },
        None => match count_x(&p, 0) {
            Some(n) => if n > usize::MAX as u128 {
                None
            } else {
                Some(n as usize)
            },
            None => match once_word_at(&p, 0) {
                Some(n) => Some(n),
                None => count_numeral_at(&p, 0),
            },
        },
    }
}

/// An instruction reads as a loop when it carries repetition vocabulary or
/// a recognizable repeat count.
pub open spec fn spec_looks_like_loop(p: Seq<char>) -> bool {
    spec_contains_ci(p, " times"@) || spec_contains_ci(p, " time"@) || spec_contains_ci(
        p,
        " once"@,
    ) || spec_contains_ci(p, " twice"@) || spec_contains_ci(p, " thrice"@) || spec_count_x(
        spec_strip_wrapping(p),
        0,
    ) is Some || spec_loop_count(p) is Some
}

pub fn looks_like_loop_prompt(prompt: &str) -> (r: bool)
    ensures
        r == spec_looks_like_loop(prompt@),
{
    let v = chars_of(prompt);
    if crate::text::contains_lit(&v, " times") || crate::text::contains_lit(&v, " time")
        || crate::text::contains_lit(&v, " once") || crate::text::contains_lit(&v, " twice")
        || crate::text::contains_lit(&v, " thrice") {
        return true;
    }
    let p = strip_wrapping_chars(v);
    if count_x(&p, 0).is_some() {
        return true;
    }
    loop_count_from_prompt(prompt).is_some()
}

// ---------------------------------------------------------------------------
// replacement and removal
// ---------------------------------------------------------------------------

/// Every word-bounded, case-insensitive occurrence of `n` replaced by `rep`.
pub open spec fn spec_replace_word(h: Seq<char>, n: Seq<char>, rep: Seq<char>, i: nat) -> Seq<char>
    decreases h.len() - i,
{
    if i >= h.len() {
        Seq::empty()
    } else if n.len() > 0 && spec_word_at(h, n, i as int) {
        rep + spec_replace_word(h, n, rep, i + n.len())
    } else {
        seq![h[i as int]] + spec_replace_word(h, n, rep, i + 1)
    }
}

fn replace_word_into(h: &Vec<char>, n: &Vec<char>, rep: &Vec<char>, i: usize, acc: &mut Vec<char>)
    requires
        i <= h@.len(),
    ensures
        final(acc)@ == old(acc)@ + spec_replace_word(h@, n@, rep@, i as nat),
    decreases h@.len() - i,
{
    if i >= h.len() {
        proof {
            assert(acc@ =~= acc@ + Seq::<char>::empty());
        }
        return ;
    }
    if n.len() > 0 && word_at(h, n, i) {
        let ghost a0 = acc@;
        extend(acc, rep);
        replace_word_into(h, n, rep, i + n.len(), acc);
        proof {
            assert((a0 + rep@) + spec_replace_word(h@, n@, rep@, (i + n@.len()) as nat) =~= a0 + (
            rep@ + spec_replace_word(h@, n@, rep@, (i + n@.len()) as nat)));
        }
    } else {
        let ghost a0 = acc@;
        acc.push(h[i]);
        replace_word_into(h, n, rep, i + 1, acc);
        proof {
            assert(a0.push(h@[i as int]) =~= a0 + seq![h@[i as int]]);
            assert((a0 + seq![h@[i as int]]) + spec_replace_word(h@, n@, rep@, (i + 1) as nat)
                =~= a0 + (seq![h@[i as int]] + spec_replace_word(h@, n@, rep@, (i + 1) as nat)));
        }
    }
}

fn replace_word(h: &Vec<char>, n: &str, rep: &str) -> (r: Vec<char>)
    ensures
        r@ == spec_replace_word(h@, n@, rep@, 0),
{
    let nv = chars_of(n);
    let rv = chars_of(rep);
    let mut out: Vec<char> = Vec::new();
    replace_word_into(h, &nv, &rv, 0, &mut out);
    proof {
        assert(out@ =~= spec_replace_word(h@, n@, rep@, 0));
    }
    out
}

/// Every single-quote character replaced by a double quote.
pub open spec fn spec_swap_quotes(h: Seq<char>, i: nat) -> Seq<char>
    decreases h.len() - i,
{
    if i >= h.len() {
        Seq::empty()
    } else if h[i as int] == '\'' {
        seq!['"'] + spec_swap_quotes(h, i + 1)
    } else {
        seq![h[i as int]] + spec_swap_quotes(h, i + 1)
    }
}

fn swap_quotes(h: &Vec<char>) -> (r: Vec<char>)
    ensures
        r@ == spec_swap_quotes(h@, 0),
{
    let mut out: Vec<char> = Vec::new();
    let mut i: usize = 0;
    while i < h.len()
        invariant
            i <= h@.len(),
            out@ + spec_swap_quotes(h@, i as nat) == spec_swap_quotes(h@, 0),
        decreases h@.len() - i,
    {
        let ghost o0 = out@;
        if h[i] == '\'' {
            out.push('"');
            proof {
                assert(o0.push('"') =~= o0 + seq!['"']);
                assert((o0 + seq!['"']) + spec_swap_quotes(h@, (i + 1) as nat) =~= o0 + (seq!['"']
                    + spec_swap_quotes(h@, (i + 1) as nat)));
            }
        } else {
            out.push(h[i]);
            proof {
                assert(o0.push(h@[i as int]) =~= o0 + seq![h@[i as int]]);
                assert((o0 + seq![h@[i as int]]) + spec_swap_quotes(h@, (i + 1) as nat) =~= o0 + (
                seq![h@[i as int]] + spec_swap_quotes(h@, (i + 1) as nat)));
            }
        }
        i = i + 1;
    }
    proof {
        assert(out@ =~= out@ + spec_swap_quotes(h@, i as nat));
    }
    out
}

// ---------------------------------------------------------------------------
// quoted spans
// ---------------------------------------------------------------------------

/// The first quoted span (single or double quotes) at or after `i`, as its
/// content range.
pub open spec fn spec_first_quoted_at(h: Seq<char>, i: nat) -> Option<(nat, nat)>
    decreases h.len() - i,
{
    if i >= h.len() {
        None
    } else if h[i as int] == '\'' || h[i as int] == '"' {
        let q = h[i as int];
        let e = spec_find_char_at(h, q, i + 1);
        if e < h.len() && e > i + 1 {
            Some(((i + 1) as nat, e))
        } else {
            spec_first_quoted_at(h, i + 1)
        }
    } else {
        spec_first_quoted_at(h, i + 1)
    }
}

pub open spec fn spec_find_char_at(h: Seq<char>, c: char, i: nat) -> nat
    decreases h.len() - i,
{
    if i >= h.len() {
        h.len()
    } else if h[i as int] == c {
        i
    } else {
        spec_find_char_at(h, c, i + 1)
    }
}

pub(crate) fn find_char_at(h: &Vec<char>, c: char, i: usize) -> (r: usize)
    requires
        i <= h@.len(),
    ensures
        r == spec_find_char_at(h@, c, i as nat),
        i <= r <= h@.len(),
    decreases h@.len() - i,
{
    if i >= h.len() {
        h.len()
    } else if h[i] == c {
        i
    } else {
        find_char_at(h, c, i + 1)
    }
}

fn first_quoted_at(h: &Vec<char>, i: usize) -> (r: Option<(usize, usize)>)
    requires
        i <= h@.len(),
    ensures
        match r {
            Some((a, b)) => spec_first_quoted_at(h@, i as nat) == Some((a as nat, b as nat)) && i
                < a <= b < h@.len(),
            None => spec_first_quoted_at(h@, i as nat) is None,
        },
    decreases h@.len() - i,
{
    if i >= h.len() {
        return None;
    }
    if h[i] == '\'' || h[i] == '"' {
        let q = h[i];
        let e = find_char_at(h, q, i + 1);
        if e < h.len() && e > i + 1 {
            return Some((i + 1, e));
        }
        return first_quoted_at(h, i + 1);
    }
    first_quoted_at(h, i + 1)
}

/// The content of the first quoted span, if any.
pub open spec fn spec_first_quoted(h: Seq<char>) -> Option<Seq<char>> {
    match spec_first_quoted_at(h, 0) {
        Some((a, b)) => if a <= b <= h.len() {
            Some(h.subrange(a as int, b as int))
        } else {
            None
        },
        None => None,
    }
}

pub fn first_quoted(prompt: &str) -> (r: Option<String>)
    ensures
        match r {
            Some(s) => spec_first_quoted(prompt@) == Some(s@),
            None => spec_first_quoted(prompt@) is None,
        },
{
    let h = chars_of(prompt);
    match first_quoted_at(&h, 0) {
        Some((a, b)) => Some(string_of(&subvec(&h, a, b))),
        None => None,
    }
}

/// The contents of every quoted span, scanning left to right.
pub open spec fn spec_all_quoted(h: Seq<char>, i: nat) -> Seq<Seq<char>>
    decreases h.len() - i,
{
    match spec_first_quoted_at(h, i) {
        Some((a, b)) => if i < a && a <= b && b < h.len() {
            seq![h.subrange(a as int, b as int)] + spec_all_quoted(h, b + 1)
        } else {
            Seq::empty()
        },
        None => Seq::empty(),
    }
}

fn all_quoted_chars(h: &Vec<char>, i: usize) -> (r: Vec<String>)
    requires
        i <= h@.len(),
    ensures
        crate::parser::strs_view(r@) == spec_all_quoted(h@, i as nat),
    decreases h@.len() - i,
{
    let hl = h.len();
    match first_quoted_at(h, i) {
        Some((a, b)) => {
            let head = string_of(&subvec(h, a, b));
            let mut rest = all_quoted_chars(h, b + 1);
            let ghost rest0 = rest@;
            let mut out: Vec<String> = Vec::new();
            out.push(head);
            out.append(&mut rest);
            proof {
                assert(crate::parser::strs_view(out@) =~= spec_all_quoted(h@, i as nat));
            }
            out
        },
        None => {
            let out: Vec<String> = Vec::new();
            proof {
                assert(crate::parser::strs_view(out@) =~= Seq::<Seq<char>>::empty());
            }
            out
        },
    }
}

/// The contents of every quoted span in the instruction.
pub fn all_quoted(prompt: &str) -> (r: Vec<String>)
    ensures
        crate::parser::strs_view(r@) == spec_all_quoted(prompt@, 0),
{
    let h = chars_of(prompt);
    all_quoted_chars(&h, 0)
}

/// Print-like vocabulary anywhere in the instruction.
pub open spec fn spec_mentions_print(p: Seq<char>) -> bool {
    spec_contains_ci(p, "print"@) || spec_contains_ci(p, "show"@) || spec_contains_ci(
        p,
        "output"@,
    ) || spec_contains_ci(p, "echo"@) || spec_contains_ci(p, "say"@)
}

pub fn mentions_print(prompt: &str) -> (r: bool)
    ensures
        r == spec_mentions_print(prompt@),
{
    let v = chars_of(prompt);
    crate::text::contains_lit(&v, "print") || crate::text::contains_lit(&v, "show")
        || crate::text::contains_lit(&v, "output") || crate::text::contains_lit(&v, "echo")
        || crate::text::contains_lit(&v, "say")
}

// ---------------------------------------------------------------------------
// loop template
// ---------------------------------------------------------------------------

/// Where the repeat-count phrase begins, if anywhere: the earliest position
/// opening a digit count, a numeral count, or a `once`/`twice`/`thrice`
/// word.
pub open spec fn spec_count_start(p: Seq<char>, i: nat) -> Option<int>
    decreases p.len() - i,
{
    if i >= p.len() {
        None
    } else if spec_count_opens(p, i) {
        Some(i as int)
    } else {
        spec_count_start(p, i + 1)
    }
}

pub open spec fn spec_count_opens(p: Seq<char>, i: nat) -> bool {
    ||| (spec_is_digit(p[i as int]) && (i == 0 || !spec_is_alnum_us(p[i - 1])) && {
        let e = spec_digits_end_at(p, i);
        let w = spec_skip_spaces(p, e);
        spec_tail_word_at(p, "times"@, w as int) || spec_tail_word_at(p, "time"@, w as int)
            || spec_tail_word_at(p, "x"@, w as int)
    })
    ||| (spec_is_alpha(p[i as int]) && (i == 0 || !spec_is_alnum_us(p[i - 1])) && {
        let e = spec_word_end_at(p, i);
        let w = spec_skip_spaces(p, e);
        let word = p.subrange(i as int, e as int);
        (spec_numeral_val(word) is Some && (spec_word_at(p, "times"@, w as int) || spec_word_at(
            p,
            "time"@,
            w as int,
        ))) || spec_seq_eq_ci(word, "once"@) || spec_seq_eq_ci(word, "twice"@) || spec_seq_eq_ci(
            word,
            "thrice"@,
        )
    })
}

fn count_opens(p: &Vec<char>, i: usize) -> (r: bool)
    requires
        i < p@.len(),
    ensures
        r == spec_count_opens(p@, i as nat),
{
    if is_digit(p[i]) && (i == 0 || !is_alnum_us(p[i - 1])) {
        let e = digits_end_at(p, i);
        let w = skip_spaces(p, e);
        let times = chars_of("times");
        let time = chars_of("time");
        let x = chars_of("x");
        if tail_word_at(p, &times, w) || tail_word_at(p, &time, w) || tail_word_at(p, &x, w) {
            return true;
        }
    }
    if is_alpha(p[i]) && (i == 0 || !is_alnum_us(p[i - 1])) {
        let e = word_end_at(p, i);
        let w = skip_spaces(p, e);
        let word = subvec(p, i, e);
        let times = chars_of("times");
        let time = chars_of("time");
        if numeral_val(&word).is_some() && (word_at(p, &times, w) || word_at(p, &time, w)) {
            return true;
        }
        if chars_eq_ci_lit(&word, "once") || chars_eq_ci_lit(&word, "twice") || chars_eq_ci_lit(
            &word,
            "thrice",
        ) {
            return true;
        }
    }
    false
}

fn count_start(p: &Vec<char>, i: usize) -> (r: Option<usize>)
    requires
        i <= p@.len(),
    ensures
        match r {
            Some(k) => spec_count_start(p@, i as nat) == Some(k as int) && i <= k < p@.len(),
            None => spec_count_start(p@, i as nat) is None,
        },
    decreases p@.len() - i,
{
    if i >= p.len() {
        return None;
    }
    if count_opens(p, i) {
        return Some(i);
    }
    count_start(p, i + 1)
}

/// Leading filler and verb words that the message extraction strips, one
/// layer each: politeness, a loop marker, a repeat verb, an output verb and
/// the words `the phrase`.
pub open spec fn spec_strip_lead(s: Seq<char>, w: Seq<char>) -> Seq<char> {
    if spec_word_at(s, w, 0) && w.len() < s.len() && spec_is_ws(s[w.len() as int]) {
        let k = spec_skip_ws(s, w.len() as int);
        if 0 <= k <= s.len() {
            s.subrange(k, s.len() as int)
        } else {
            s
        }
    } else {
        s
    }
}

fn strip_lead(s: &Vec<char>, lit: &str) -> (r: Vec<char>)
    ensures
        r@ == spec_strip_lead(s@, lit@),
{
    let w = chars_of(lit);
    if word_at(s, &w, 0) && w.len() < s.len() && is_ws(s[w.len()]) {
        let k = skip_ws(s, w.len());
        subvec(s, k, s.len())
    } else {
        let r = subvec(s, 0, s.len());
        proof {
            assert(r@ =~= s@);
        }
        r
    }
}

pub open spec fn spec_strip_lead2(s: Seq<char>, w1: Seq<char>, w2: Seq<char>) -> Seq<char> {
    let t = spec_strip_lead(s, w1);
    if t == s {
        spec_strip_lead(s, w2)
    } else {
        t
    }
}

fn strip_lead2(s: &Vec<char>, l1: &str, l2: &str) -> (r: Vec<char>)
    ensures
        r@ == spec_strip_lead2(s@, l1@, l2@),
{
    let t = strip_lead(s, l1);
    if chars_eq_vec(&t, s) {
        strip_lead(s, l2)
    } else {
        t
    }
}

fn chars_eq_vec(a: &Vec<char>, b: &Vec<char>) -> (r: bool)
    ensures
        r == (a@ == b@),
{
    crate::text::chars_eq(a, b)
}

/// The output verbs an instruction may open with.
pub open spec fn spec_strip_verb(s: Seq<char>) -> Seq<char> {
    let t1 = spec_strip_lead(s, "show"@);
    if t1 != s {
        t1
    } else {
        let t2 = spec_strip_lead(s, "say"@);
        if t2 != s {
            t2
        } else {
            let t3 = spec_strip_lead(s, "print"@);
            if t3 != s {
                t3
            } else {
                let t4 = spec_strip_lead(s, "output"@);
                if t4 != s {
                    t4
                } else {
                    let t5 = spec_strip_lead(s, "echo"@);
                    if t5 != s {
                        t5
                    } else {
                        let t6 = spec_strip_lead(s, "display"@);
                        if t6 != s {
                            t6
                        } else {
                            let t7 = spec_strip_lead(s, "announce"@);
                            if t7 != s {
                                t7
                            } else {
                                let t8 = spec_strip_lead(s, "present"@);
                                if t8 != s {
                                    t8
                                } else {
                                    spec_strip_lead(s, "reveal"@)
                                }
                            }
                        }
                    }
                }
            }
        }
    }
}

fn strip_verb(s: &Vec<char>) -> (r: Vec<char>)
    ensures
        r@ == spec_strip_verb(s@),
{
    let t1 = strip_lead(s, "show");
    if !chars_eq_vec(&t1, s) {
        return t1;
    }
    let t2 = strip_lead(s, "say");
    if !chars_eq_vec(&t2, s) {
        return t2;
    }
    let t3 = strip_lead(s, "print");
    if !chars_eq_vec(&t3, s) {
        return t3;
    }
    let t4 = strip_lead(s, "output");
    if !chars_eq_vec(&t4, s) {
        return t4;
    }
    let t5 = strip_lead(s, "echo");
    if !chars_eq_vec(&t5, s) {
        return t5;
    }
    let t6 = strip_lead(s, "display");
    if !chars_eq_vec(&t6, s) {
        return t6;
    }
    let t7 = strip_lead(s, "announce");
    if !chars_eq_vec(&t7, s) {
        return t7;
    }
    let t8 = strip_lead(s, "present");
    if !chars_eq_vec(&t8, s) {
        return t8;
    }
    strip_lead(s, "reveal")
}

/// Trailing colons and commas trimmed, then whitespace.
pub open spec fn spec_rskip_cc(s: Seq<char>, j: int) -> int
    decreases j,
{
    if 0 < j <= s.len() && (s[j - 1] == ':' || s[j - 1] == ',') {
        spec_rskip_cc(s, j - 1)
    } else {
        j
    }
}

fn rskip_cc(s: &Vec<char>, j: usize) -> (r: usize)
    requires
        j <= s@.len(),
    ensures
        r == spec_rskip_cc(s@, j as int),
        r <= j,
    decreases j,
{
    if 0 < j && (s[j - 1] == ':' || s[j - 1] == ',') {
        rskip_cc(s, j - 1)
    } else {
        j
    }
}

pub open spec fn spec_trim_cc(s: Seq<char>) -> Seq<char> {
    let b = spec_rskip_cc(s, s.len() as int);
    if 0 <= b <= s.len() {
        s.subrange(0, b)
    } else {
        s
    }
}

fn trim_cc(s: &Vec<char>) -> (r: Vec<char>)
    ensures
        r@ == spec_trim_cc(s@),
{
    let b = rskip_cc(s, s.len());
    subvec(s, 0, b)
}

/// The message a loop instruction repeats: its first quoted span, else the
/// text before the repeat count with leading filler words stripped, else
/// the whole sanitized instruction.
pub open spec fn spec_loop_message(p0: Seq<char>) -> Seq<char> {
    let p = spec_strip_wrapping(p0);
    let q = match spec_first_quoted(p) {
        Some(q) => spec_sanitize(q),
        None => Seq::empty(),
    };
    if q.len() > 0 {
        q
    } else {
        let head0 = match spec_count_start(p, 0) {
            Some(m) => if 0 <= m <= p.len() {
                spec_trim(p.subrange(0, m))
            } else {
                spec_trim(p)
            },
            None => spec_trim(p),
        };
        let h1 = spec_strip_lead2(head0, "please"@, "kindly"@);
        let h2 = spec_strip_lead(h1, "loop"@);
        let h3 = spec_strip_lead2(h2, "repeat"@, "run"@);
        let h4 = spec_strip_verb(h3);
        let h5 = spec_strip_lead(h4, "the"@);
        let h6 = if h5 != h4 && spec_strip_lead(h5, "phrase"@) != h5 {
            spec_strip_lead(h5, "phrase"@)
        } else {
            h4
        };
        let head = spec_sanitize(spec_trim(spec_trim_cc(spec_trim(h6))));
        if head.len() > 0 {
            head
        } else {
            spec_sanitize(p)
        }
    }
}

/// The message a loop instruction repeats.
pub fn loop_message_from_prompt(prompt: &str) -> (r: String)
    ensures
        r@ == spec_loop_message(prompt@),
{
    let v = chars_of(prompt);
    let p = strip_wrapping_chars(v);
    match first_quoted_at(&p, 0) {
        Some((a, b)) => {
            let q = subvec(&p, a, b);
            let qs = string_of(&q);
            let msg = sanitize_text(qs.as_str());
            if msg.as_str().unicode_len() > 0 {
                return msg;
            }
            loop_message_head(&p)
        },
        None => loop_message_head(&p),
    }
}

fn loop_message_head(p: &Vec<char>) -> (r: String)
    requires
        spec_first_quoted(p@) is None || spec_sanitize(spec_first_quoted(p@)->0).len() == 0,
    ensures
        ({
            let head0 = match spec_count_start(p@, 0) {
                Some(m) => if 0 <= m <= p@.len() {
                    spec_trim(p@.subrange(0, m))
                } else {
                    spec_trim(p@)
                },
                None => spec_trim(p@),
            };
            let h1 = spec_strip_lead2(head0, "please"@, "kindly"@);
            let h2 = spec_strip_lead(h1, "loop"@);
            let h3 = spec_strip_lead2(h2, "repeat"@, "run"@);
            let h4 = spec_strip_verb(h3);
            let h5 = spec_strip_lead(h4, "the"@);
            let h6 = if h5 != h4 && spec_strip_lead(h5, "phrase"@) != h5 {
                spec_strip_lead(h5, "phrase"@)
            } else {
                h4
            };
            let head = spec_sanitize(spec_trim(spec_trim_cc(spec_trim(h6))));
            r@ == if head.len() > 0 {
                head
            } else {
                spec_sanitize(p@)
            }
        }),
{
    let head0 = match count_start(p, 0) {
        Some(m) => {
            let cut = subvec(p, 0, m);
            trim(&cut)
        },
        None => trim(p),
    };
    let h1 = strip_lead2(&head0, "please", "kindly");
    let h2 = strip_lead(&h1, "loop");
    let h3 = strip_lead2(&h2, "repeat", "run");
    let h4 = strip_verb(&h3);
    let h5 = strip_lead(&h4, "the");
    let h5p = strip_lead(&h5, "phrase");
    let h6 = if !chars_eq_vec(&h5, &h4) && !chars_eq_vec(&h5p, &h5) {
        h5p
    } else {
        let c = subvec(&h4, 0, h4.len());
        proof {
            assert(c@ =~= h4@);
        }
        c
    };
    let t1 = trim(&h6);
    let t2 = trim_cc(&t1);
    let t3 = trim(&t2);
    let ts = string_of(&t3);
    let head = sanitize_text(ts.as_str());
    if head.as_str().unicode_len() > 0 {
        head
    } else {
        let ps = string_of(p);
        sanitize_text(ps.as_str())
    }
}

/// Lines joined with newline characters.
pub open spec fn spec_join_nl(lines: Seq<Seq<char>>) -> Seq<char>
    decreases lines.len(),
{
    if lines.len() == 0 {
        Seq::empty()
    } else if lines.len() == 1 {
        lines[0]
    } else {
        lines[0] + seq!['\n'] + spec_join_nl(lines.drop_first())
    }
}

/// `count` copies of one output line, newline-separated.
pub open spec fn spec_repeat_lines(line: Seq<char>, count: int) -> Seq<char>
    decreases count,
{
    if count <= 1 {
        line
    } else {
        line + seq!['\n'] + spec_repeat_lines(line, count - 1)
    }
}

/// The clamped repeat count of a loop instruction.
pub open spec fn spec_loop_clamped(p: Seq<char>) -> int {
    let times = match spec_loop_count(p) {
        Some(n) => n,
        None => 1,
    };
    if times < 1 {
        1
    } else if times > 12 {
        12
    } else {
        times
    }
}

/// The loop template: the message repeated, clamped to one through twelve
/// output statements.
pub open spec fn spec_build_loop_dsl(prompt: Seq<char>) -> Seq<char> {
    let p = spec_strip_wrapping(prompt);
    let msg = spec_loop_message(p);
    let line = "neuro \""@ + msg + "\""@;
    spec_repeat_lines(line, spec_loop_clamped(p))
}

pub fn build_loop_dsl(prompt: &str) -> (r: String)
    ensures
        r@ == spec_build_loop_dsl(prompt@),
{
    let v = chars_of(prompt);
    let pv = strip_wrapping_chars(v);
    let p = string_of(&pv);
    let msg = loop_message_from_prompt(p.as_str());
    let times = match loop_count_from_prompt(p.as_str()) {
        Some(n) => n,
        None => 1,
    };
    let count: usize = if times < 1 {
        1
    } else if times > 12 {
        12
    } else {
        times
    };
    let mut line = chars_of("neuro \"");
    let mc = chars_of(msg.as_str());
    extend(&mut line, &mc);
    line.push('"');
    proof {
        reveal_strlit("\"");
        assert(line@ =~= "neuro \""@ + msg@ + "\""@);
    }
    let mut out = subvec(&line, 0, line.len());
    proof {
        assert(out@ =~= line@);
        lemma_repeat_tail(line@, count as int);
    }
    let mut k: usize = 1;
    while k < count
        invariant
            1 <= k <= count,
            count <= 12,
            out@ + spec_rep_tail(line@, count - k) == spec_repeat_lines(line@, count as int),
        decreases count - k,
    {
        let ghost o0 = out@;
        out.push('\n');
        extend(&mut out, &line);
        proof {
            assert(out@ =~= o0 + (seq!['\n'] + line@));
            assert((o0 + (seq!['\n'] + line@)) + spec_rep_tail(line@, count - k - 1) =~= o0 + ((
            seq!['\n'] + line@) + spec_rep_tail(line@, count - k - 1)));
            assert((seq!['\n'] + line@) + spec_rep_tail(line@, count - k - 1) =~= seq!['\n']
                + line@ + spec_rep_tail(line@, count - k - 1));
        }
        k = k + 1;
    }
    proof {
        assert(spec_rep_tail(line@, 0) =~= Seq::<char>::empty());
        assert(out@ + Seq::<char>::empty() =~= out@);
        assert(spec_build_loop_dsl(prompt@) == spec_repeat_lines(line@, count as int));
    }
    string_of(&out)
}

/// What remains to be appended after the first `total - left` copies.
pub open spec fn spec_rep_tail(line: Seq<char>, left: int) -> Seq<char>
    decreases left,
{
    if left <= 0 {
        Seq::empty()
    } else {
        seq!['\n'] + line + spec_rep_tail(line, left - 1)
    }
}

proof fn lemma_repeat_tail(line: Seq<char>, c: int)
    ensures
        spec_repeat_lines(line, c) == line + spec_rep_tail(line, c - 1),
    decreases c,
{
    if c <= 1 {
        assert(line + Seq::<char>::empty() =~= line);
    } else {
        lemma_repeat_tail(line, c - 1);
        assert(line + spec_rep_tail(line, c - 1) =~= line + seq!['\n'] + spec_repeat_lines(
            line,
            c - 1,
        )) by {
            assert(spec_rep_tail(line, c - 1) == seq!['\n'] + line + spec_rep_tail(line, c - 2));
            assert(line + (seq!['\n'] + line + spec_rep_tail(line, c - 2)) =~= ((line + seq![
                '\n',
            ]) + line) + spec_rep_tail(line, c - 2));
            assert(line + seq!['\n'] + spec_repeat_lines(line, c - 1) =~= (line + seq!['\n']) + (
            line + spec_rep_tail(line, c - 2)));
            assert((line + seq!['\n']) + (line + spec_rep_tail(line, c - 2)) =~= ((line + seq![
                '\n',
            ]) + line) + spec_rep_tail(line, c - 2));
        }
    }
}


// ---------------------------------------------------------------------------
// right-hand sides
// ---------------------------------------------------------------------------

/// Single-quote characters removed.
pub open spec fn spec_drop_sq(s: Seq<char>, i: nat) -> Seq<char>
    decreases s.len() - i,
{
    if i >= s.len() {
        Seq::empty()
    } else if s[i as int] == '\'' {
        spec_drop_sq(s, i + 1)
    } else {
        seq![s[i as int]] + spec_drop_sq(s, i + 1)
    }
}

fn drop_sq(s: &Vec<char>) -> (r: Vec<char>)
    ensures
        r@ == spec_drop_sq(s@, 0),
{
    let mut out: Vec<char> = Vec::new();
    let mut i: usize = 0;
    while i < s.len()
        invariant
            i <= s@.len(),
            out@ + spec_drop_sq(s@, i as nat) == spec_drop_sq(s@, 0),
        decreases s@.len() - i,
    {
        let ghost o0 = out@;
        if s[i] != '\'' {
            out.push(s[i]);
            proof {
                assert(o0.push(s@[i as int]) =~= o0 + seq![s@[i as int]]);
                assert((o0 + seq![s@[i as int]]) + spec_drop_sq(s@, (i + 1) as nat) =~= o0 + (seq![
                    s@[i as int],
                ] + spec_drop_sq(s@, (i + 1) as nat)));
            }
        }
        i = i + 1;
    }
    proof {
        assert(out@ =~= out@ + spec_drop_sq(s@, i as nat));
    }
    out
}

pub open spec fn spec_has_char(s: Seq<char>, c: char) -> bool {
    exists|k: int| 0 <= k < s.len() && s[k] == c
}

fn has_char(s: &Vec<char>, c: char) -> (r: bool)
    ensures
        r == spec_has_char(s@, c),
{
    let mut i: usize = 0;
    while i < s.len()
        invariant
            i <= s@.len(),
            forall|k: int| 0 <= k < i ==> s@[k] != c,
        decreases s@.len() - i,
    {
        if s[i] == c {
            return true;
        }
        i = i + 1;
    }
    false
}

pub open spec fn spec_count_char(s: Seq<char>, c: char, i: nat) -> nat
    decreases s.len() - i,
{
    if i >= s.len() {
        0
    } else if s[i as int] == c {
        1 + spec_count_char(s, c, i + 1)
    } else {
        spec_count_char(s, c, i + 1)
    }
}

fn count_char(s: &Vec<char>, c: char, i: usize) -> (r: usize)
    requires
        i <= s@.len(),
    ensures
        r == spec_count_char(s@, c, i as nat),
        r <= s@.len() - i,
    decreases s@.len() - i,
{
    if i >= s.len() {
        0
    } else if s[i] == c {
        1 + count_char(s, c, i + 1)
    } else {
        count_char(s, c, i + 1)
    }
}

pub open spec fn spec_all_alnum_us(s: Seq<char>) -> bool {
    forall|k: int| 0 <= k < s.len() ==> spec_is_alnum_us(s[k])
}

fn all_alnum_us(s: &Vec<char>) -> (r: bool)
    ensures
        r == spec_all_alnum_us(s@),
{
    let mut i: usize = 0;
    while i < s.len()
        invariant
            i <= s@.len(),
            forall|k: int| 0 <= k < i ==> spec_is_alnum_us(s@[k]),
        decreases s@.len() - i,
    {
        if !is_alnum_us(s[i]) {
            return false;
        }
        i = i + 1;
    }
    true
}

/// A bare right-hand side normalized to a literal: numbers and the words
/// `true`, `false` and `none` stay bare; a plain word stays bare unless its
/// spelling in the instruction carried quotes; anything else is quoted.
pub open spec fn spec_parse_rhs(raw: Seq<char>) -> Seq<char> {
    let had_quote = spec_has_char(raw, '\'') || spec_has_char(raw, '"');
    let val = spec_drop_sq(spec_strip_wrapping(spec_sanitize(raw)), 0);
    if val.len() == 0 {
        "\"\""@
    } else if crate::numeric::spec_parse_num(val) is Some {
        val
    } else if spec_seq_eq_ci(val, "true"@) || spec_seq_eq_ci(val, "false"@) || spec_seq_eq_ci(
        val,
        "none"@,
    ) {
        val
    } else if spec_all_alnum_us(val) {
        if had_quote {
            seq!['"'] + val + seq!['"']
        } else {
            val
        }
    } else {
        seq!['"'] + val + seq!['"']
    }
}

pub fn parse_rhs(raw: &str) -> (r: String)
    ensures
        r@ == spec_parse_rhs(raw@),
{
    let rv = chars_of(raw);
    let had_quote = has_char(&rv, '\'') || has_char(&rv, '"');
    let s1 = sanitize_text(raw);
    let s1v = chars_of(s1.as_str());
    let s2 = strip_wrapping_chars(s1v);
    let val = drop_sq(&s2);
    if val.len() == 0 {
        let mut q: Vec<char> = Vec::new();
        q.push('"');
        q.push('"');
        proof {
            reveal_strlit("\"\"");
            assert(q@ =~= "\"\""@);
        }
        return string_of(&q);
    }
    let is_num = crate::numeric::parse_num(&val).is_some();
    if is_num {
        return string_of(&val);
    }
    if chars_eq_ci_lit(&val, "true") || chars_eq_ci_lit(&val, "false") || chars_eq_ci_lit(
        &val,
        "none",
    ) {
        return string_of(&val);
    }
    if all_alnum_us(&val) && !had_quote {
        return string_of(&val);
    }
    let mut out: Vec<char> = Vec::new();
    out.push('"');
    extend(&mut out, &val);
    out.push('"');
    proof {
        assert(out@ =~= seq!['"'] + val@ + seq!['"']);
    }
    string_of(&out)
}

/// Trailing comma characters trimmed.
pub open spec fn spec_rskip_comma(s: Seq<char>, j: int) -> int
    decreases j,
{
    if 0 < j <= s.len() && s[j - 1] == ',' {
        spec_rskip_comma(s, j - 1)
    } else {
        j
    }
}

pub open spec fn spec_trim_commas(s: Seq<char>) -> Seq<char> {
    let b = spec_rskip_comma(s, s.len() as int);
    if 0 <= b <= s.len() {
        s.subrange(0, b)
    } else {
        s
    }
}

fn trim_commas(s: &Vec<char>) -> (r: Vec<char>)
    ensures
        r@ == spec_trim_commas(s@),
{
    let mut b = s.len();
    while b > 0 && s[b - 1] == ','
        invariant
            b <= s@.len(),
            spec_rskip_comma(s@, s@.len() as int) == spec_rskip_comma(s@, b as int),
        decreases b,
    {
        b = b - 1;
    }
    subvec(s, 0, b)
}

/// Where an embedded second assignment begins: whitespace, the word `and`,
/// whitespace, a name and an equals sign.
pub open spec fn spec_find_and_assign(t: Seq<char>, i: nat) -> Option<int>
    decreases t.len() - i,
{
    if i >= t.len() {
        None
    } else if spec_and_assign_at(t, i) {
        Some(i as int)
    } else {
        spec_find_and_assign(t, i + 1)
    }
}

pub open spec fn spec_and_assign_at(t: Seq<char>, i: nat) -> bool {
    spec_is_ws(t[i as int]) && {
        let k = spec_skip_ws(t, i as int);
        0 <= k < t.len() && spec_word_at(t, "and"@, k) && k + 3 < t.len() && spec_is_ws(
            t[k + 3],
        ) && {
            let k2 = spec_skip_ws(t, k + 3);
            0 <= k2 < t.len() && (spec_is_alpha(t[k2]) || t[k2] == '_') && {
                let e = spec_word_end_at(t, k2 as nat);
                let k3 = spec_skip_ws(t, e as int);
                0 <= k3 < t.len() && t[k3] == '='
            }
        }
    }
}

fn and_assign_at(t: &Vec<char>, i: usize) -> (r: bool)
    requires
        i < t@.len(),
    ensures
        r == spec_and_assign_at(t@, i as nat),
{
    if !is_ws(t[i]) {
        return false;
    }
    let k = skip_ws(t, i);
    if k >= t.len() {
        return false;
    }
    let and = chars_of("and");
    if !word_at(t, &and, k) {
        return false;
    }
    if t.len() - k <= 3 || !is_ws(t[k + 3]) {
        return false;
    }
    let k2 = skip_ws(t, k + 3);
    if k2 >= t.len() || !(is_alpha(t[k2]) || t[k2] == '_') {
        return false;
    }
    let e = word_end_at(t, k2);
    let k3 = skip_ws(t, e);
    k3 < t.len() && t[k3] == '='
}

fn find_and_assign(t: &Vec<char>, i: usize) -> (r: Option<usize>)
    requires
        i <= t@.len(),
    ensures
        match r {
            Some(k) => spec_find_and_assign(t@, i as nat) == Some(k as int) && i <= k < t@.len(),
            None => spec_find_and_assign(t@, i as nat) is None,
        },
    decreases t@.len() - i,
{
    if i >= t.len() {
        return None;
    }
    if and_assign_at(t, i) {
        return Some(i);
    }
    find_and_assign(t, i + 1)
}

/// An expression cleaned for the templates: trimmed, trailing commas gone,
/// an embedded `and name =` tail and a `, then` tail cut off, single quotes
/// turned into double quotes.
pub open spec fn spec_clean_expr(e: Seq<char>) -> Seq<char> {
    let t0 = spec_trim_commas(spec_trim(e));
    let t1 = match spec_find_and_assign(t0, 0) {
        Some(m) => if 0 <= m <= t0.len() {
            spec_trim(t0.subrange(0, m))
        } else {
            t0
        },
        None => t0,
    };
    let t2 = match spec_find_ci_from(t1, ", then"@, 0) {
        Some(m) => if 0 <= m <= t1.len() {
            spec_trim(t1.subrange(0, m))
        } else {
            t1
        },
        None => t1,
    };
    spec_swap_quotes(t2, 0)
}

pub fn clean_expr(e: &str) -> (r: String)
    ensures
        r@ == spec_clean_expr(e@),
{
    let ev = chars_of(e);
    let r = clean_expr_chars(&ev);
    string_of(&r)
}

fn clean_expr_chars(ev: &Vec<char>) -> (r: Vec<char>)
    ensures
        r@ == spec_clean_expr(ev@),
{
    let t = trim(ev);
    let t0 = trim_commas(&t);
    let t1 = match find_and_assign(&t0, 0) {
        Some(m) => {
            let cut = subvec(&t0, 0, m);
            trim(&cut)
        },
        None => t0,
    };
    let then = chars_of(", then");
    let t2 = match find_ci_from(&t1, &then, 0) {
        Some(m) => {
            proof {
                assert(spec_match_ci_at(t1@, ", then"@, m as int));
            }
            let cut = subvec(&t1, 0, m);
            trim(&cut)
        },
        None => {
            let c = subvec(&t1, 0, t1.len());
            proof {
                assert(c@ =~= t1@);
            }
            c
        },
    };
    swap_quotes(&t2)
}

/// Whether everything from `k` on reads as a power tail: spaces, `**`,
/// spaces, a digit run, trailing spaces and nothing else; the digit run.
pub open spec fn spec_pow_tail(e: Seq<char>, k: int) -> Option<Seq<char>> {
    let a = spec_skip_ws(e, k);
    if 0 <= a && a + 1 < e.len() && e[a] == '*' && e[a + 1] == '*' {
        let b = spec_skip_ws(e, a + 2);
        if 0 <= b < e.len() && spec_is_digit(e[b]) {
            let d = spec_digits_end_at(e, b as nat);
            if spec_skip_ws(e, d as int) == e.len() {
                Some(e.subrange(b, d as int))
            } else {
                None
            }
        } else {
            None
        }
    } else {
        None
    }
}

/// The shortest non-empty base whose remainder is a power tail, with its
/// exponent's digit run; the base never crosses a line break.
pub open spec fn spec_pow_split(e: Seq<char>, k: nat) -> Option<(Seq<char>, Seq<char>)>
    decreases e.len() - k,
{
    if k < 1 || k >= e.len() {
        None
    } else if e[k - 1] == '\n' {
        None
    } else {
        match spec_pow_tail(e, k as int) {
            Some(d) => Some((spec_trim(e.subrange(0, k as int)), d)),
            None => spec_pow_split(e, k + 1),
        }
    }
}

/// The exponent a power spelling asks for: the written value clamped to
/// eight; a number too large for a machine word reads as one.
pub open spec fn spec_pow_exp(d: Seq<char>) -> int {
    let v = spec_digit_run_val(d, 0, 0);
    if v > usize::MAX {
        1
    } else if v > 8 {
        8
    } else {
        v
    }
}

/// `n` parenthesized copies of the base, joined by multiplication.
pub open spec fn spec_pow_join(base: Seq<char>, n: int) -> Seq<char>
    decreases n,
{
    if n <= 1 {
        seq!['('] + base + seq![')']
    } else {
        spec_pow_join(base, n - 1) + " * ("@ + base + seq![')']
    }
}

/// A power spelling expanded to a product: exponent zero gives `1`, one
/// gives the base itself.
pub open spec fn spec_pow_expand(base: Seq<char>, d: Seq<char>) -> Seq<char> {
    let x = spec_pow_exp(d);
    if x == 0 {
        "1"@
    } else if x == 1 {
        base
    } else {
        spec_pow_join(base, x)
    }
}

fn pow_tail(e: &Vec<char>, k: usize) -> (r: Option<(usize, usize)>)
    requires
        k <= e@.len(),
    ensures
        match r {
            Some((b, d)) => spec_pow_tail(e@, k as int) == Some(
                e@.subrange(b as int, d as int),
            ) && b <= d <= e@.len(),
            None => spec_pow_tail(e@, k as int) is None,
        },
{
    let a = skip_ws(e, k);
    if !(e.len() - a > 1 && e[a] == '*' && e[a + 1] == '*') {
        return None;
    }
    let b = skip_ws(e, a + 2);
    if !(b < e.len() && is_digit(e[b])) {
        return None;
    }
    let d = digits_end_at(e, b);
    let w = skip_ws(e, d);
    if w == e.len() {
        Some((b, d))
    } else {
        None
    }
}

fn pow_split(e: &Vec<char>) -> (r: Option<(Vec<char>, usize, usize)>)
    ensures
        match r {
            Some((base, b, d)) => spec_pow_split(e@, 1) == Some(
                (base@, e@.subrange(b as int, d as int)),
            ) && b <= d <= e@.len(),
            None => spec_pow_split(e@, 1) is None,
        },
{
    let mut k: usize = 1;
    while k < e.len()
        invariant
            1 <= k,
            spec_pow_split(e@, 1) == spec_pow_split(e@, k as nat),
        decreases e@.len() - k,
    {
        if e[k - 1] == '\n' {
            return None;
        }
        match pow_tail(e, k) {
            Some((b, d)) => {
                let basev = subvec(e, 0, k);
                let base = trim(&basev);
                return Some((base, b, d));
            },
            None => {},
        }
        k = k + 1;
    }
    None
}

/// An expression normalized for a template: cleaned; a trailing integer
/// power is expanded to a product of its base; else where several quote
/// characters remain the quotes are dropped and the whole is quoted; an
/// arithmetic operator keeps it verbatim; else a bare literal.
pub open spec fn spec_normalize_expr(e: Seq<char>) -> Seq<char> {
    let c = spec_clean_expr(e);
    match spec_pow_split(c, 1) {
        Some((base, d)) => spec_pow_expand(base, d),
        None => if spec_count_char(c, '"', 0) > 1 {
            seq!['"'] + spec_trim(spec_drop_dq(c, 0)) + seq!['"']
        } else if spec_has_char(c, '+') || spec_has_char(c, '-') || spec_has_char(c, '*')
            || spec_has_char(c, '/') || spec_has_char(c, '%') {
            c
        } else {
            spec_parse_rhs(c)
        },
    }
}

pub open spec fn spec_drop_dq(s: Seq<char>, i: nat) -> Seq<char>
    decreases s.len() - i,
{
    if i >= s.len() {
        Seq::empty()
    } else if s[i as int] == '"' {
        spec_drop_dq(s, i + 1)
    } else {
        seq![s[i as int]] + spec_drop_dq(s, i + 1)
    }
}

fn drop_dq(s: &Vec<char>) -> (r: Vec<char>)
    ensures
        r@ == spec_drop_dq(s@, 0),
{
    let mut out: Vec<char> = Vec::new();
    let mut i: usize = 0;
    while i < s.len()
        invariant
            i <= s@.len(),
            out@ + spec_drop_dq(s@, i as nat) == spec_drop_dq(s@, 0),
        decreases s@.len() - i,
    {
        let ghost o0 = out@;
        if s[i] != '"' {
            out.push(s[i]);
            proof {
                assert(o0.push(s@[i as int]) =~= o0 + seq![s@[i as int]]);
                assert((o0 + seq![s@[i as int]]) + spec_drop_dq(s@, (i + 1) as nat) =~= o0 + (seq![
                    s@[i as int],
                ] + spec_drop_dq(s@, (i + 1) as nat)));
            }
        }
        i = i + 1;
    }
    proof {
        assert(out@ =~= out@ + spec_drop_dq(s@, i as nat));
    }
    out
}

pub fn normalize_expr(e: &str) -> (r: String)
    ensures
        r@ == spec_normalize_expr(e@),
{
    let ev = chars_of(e);
    let c = clean_expr_chars(&ev);
    match pow_split(&c) {
        Some((base, b, d)) => {
            let ghost dseq = c@.subrange(b as int, d as int);
            let dv = subvec(&c, b, d);
            let v = digit_run_val(&dv, 0, 0, Ghost(0));
            let x: usize = if v > usize::MAX as u128 {
                1
            } else {
                let vv = v as usize;
                if vv > 8 {
                    8
                } else {
                    vv
                }
            };
            proof {
                assert(x as int == spec_pow_exp(dseq));
            }
            if x == 0 {
                proof {
                    reveal_strlit("1");
                }
                return string_of(&chars_of("1"));
            }
            if x == 1 {
                return string_of(&base);
            }
            let mut out: Vec<char> = Vec::new();
            out.push('(');
            extend(&mut out, &base);
            out.push(')');
            proof {
                assert(out@ =~= seq!['('] + base@ + seq![')']);
            }
            let mut j: usize = 1;
            while j < x
                invariant
                    1 <= j <= x,
                    x <= 8,
                    out@ == spec_pow_join(base@, j as int),
                decreases x - j,
            {
                let ghost o0 = out@;
                extend_str(&mut out, " * (");
                extend(&mut out, &base);
                out.push(')');
                proof {
                    reveal_strlit(" * (");
                    assert(out@ =~= o0 + " * ("@ + base@ + seq![')']);
                }
                j = j + 1;
            }
            proof {
                assert(out@ == spec_pow_expand(base@, dseq));
            }
            return string_of(&out);
        },
        None => {},
    }
    if count_char(&c, '"', 0) > 1 {
        let d = drop_dq(&c);
        let t = trim(&d);
        let mut out: Vec<char> = Vec::new();
        out.push('"');
        extend(&mut out, &t);
        out.push('"');
        proof {
            assert(out@ =~= seq!['"'] + t@ + seq!['"']);
        }
        return string_of(&out);
    }
    if has_char(&c, '+') || has_char(&c, '-') || has_char(&c, '*') || has_char(&c, '/')
        || has_char(&c, '%') {
        return string_of(&c);
    }
    let cs = string_of(&c);
    parse_rhs(cs.as_str())
}


// ---------------------------------------------------------------------------
// assignment extraction
// ---------------------------------------------------------------------------

pub open spec fn spec_ident_start(c: char) -> bool {
    spec_is_alpha(c) || c == '_'
}

/// An assignment introduced by the keyword `kw`: the variable name and the
/// position where its right-hand side begins. Scans every occurrence of the
/// keyword until one fits.
pub open spec fn spec_find_assign(p: Seq<char>, kw: Seq<char>, i: nat) -> Option<(Seq<char>, nat)>
    decreases p.len() - i,
{
    if i >= p.len() {
        None
    } else if spec_word_at(p, kw, i as int) && spec_assign_shape(p, kw, i) is Some {
        spec_assign_shape(p, kw, i)
    } else {
        spec_find_assign(p, kw, i + 1)
    }
}

pub open spec fn spec_assign_shape(p: Seq<char>, kw: Seq<char>, si: nat) -> Option<(Seq<char>, nat)> {
    let after = si + kw.len();
    if after < p.len() && spec_is_ws(p[after as int]) {
        let k = spec_skip_ws(p, after as int);
        if 0 <= k < p.len() && spec_ident_start(p[k]) {
            let e = spec_word_end_at(p, k as nat);
            let var = p.subrange(k, e as int);
            let k2 = spec_skip_ws(p, e as int);
            let es: int = if 0 <= k2 < p.len() && p[k2] == '=' {
                spec_skip_ws(p, k2 + 1)
            } else if 0 <= k2 < p.len() && spec_word_at(p, "to"@, k2) {
                spec_skip_ws(p, k2 + 2)
            } else {
                k2
            };
            if 0 <= es < p.len() {
                Some((var, es as nat))
            } else {
                None
            }
        } else {
            None
        }
    } else {
        None
    }
}

fn assign_shape(p: &Vec<char>, kw: &Vec<char>, si: usize) -> (r: Option<(String, usize)>)
    requires
        si <= p@.len(),
    ensures
        match r {
            Some((v, es)) => spec_assign_shape(p@, kw@, si as nat) == Some((v@, es as nat)) && es
                < p@.len(),
            None => spec_assign_shape(p@, kw@, si as nat) is None,
        },
{
    proof {
        reveal_strlit("to");
    }
    let pl = p.len();
    if si >= pl || pl - si <= kw.len() {
        return None;
    }
    let after = si + kw.len();
    if !(after < pl && is_ws(p[after])) {
        return None;
    }
    let k = skip_ws(p, after);
    if !(k < pl && (is_alpha(p[k]) || p[k] == '_')) {
        return None;
    }
    let e = word_end_at(p, k);
    let var = string_of(&subvec(p, k, e));
    let k2 = skip_ws(p, e);
    let to = chars_of("to");
    let es: usize = if k2 < pl && p[k2] == '=' {
        skip_ws(p, k2 + 1)
    } else if k2 < pl && word_at(p, &to, k2) {
        skip_ws(p, k2 + 2)
    } else {
        k2
    };
    if es < pl {
        Some((var, es))
    } else {
        None
    }
}

fn find_assign(p: &Vec<char>, kw: &Vec<char>, i: usize) -> (r: Option<(String, usize)>)
    requires
        i <= p@.len(),
    ensures
        match r {
            Some((v, es)) => spec_find_assign(p@, kw@, i as nat) == Some((v@, es as nat)) && es
                < p@.len(),
            None => spec_find_assign(p@, kw@, i as nat) is None,
        },
    decreases p@.len() - i,
{
    if i >= p.len() {
        return None;
    }
    if word_at(p, kw, i) {
        match assign_shape(p, kw, i) {
            Some(r) => {
                return Some(r);
            },
            None => {},
        }
    }
    find_assign(p, kw, i + 1)
}

/// The `store EXPR in NAME` shape.
pub open spec fn spec_find_store(p: Seq<char>) -> Option<(Seq<char>, Seq<char>)> {
    match spec_find_word_from(p, "store"@, 0) {
        Some(si) => if si + 5 < p.len() && spec_is_ws(p[si + 5]) {
            let es = spec_skip_ws(p, si + 5);
            spec_store_in(p, es, es)
        } else {
            None
        },
        None => None,
    }
}

/// Finds the first `in NAME` after the expression start.
pub open spec fn spec_store_in(p: Seq<char>, es: int, from: int) -> Option<(Seq<char>, Seq<char>)>
    decreases p.len() + 1 - from,
{
    match spec_find_word_from(p, "in"@, from) {
        Some(wi) => if wi < from || wi >= p.len() {
            None
        } else if wi > es && wi >= 1 && wi + 2 < p.len() && spec_is_ws(p[wi - 1]) && spec_is_ws(
            p[wi + 2],
        ) && ({
            let k = spec_skip_ws(p, wi + 2);
            0 <= k < p.len() && spec_ident_start(p[k])
        }) && 0 <= es <= wi && spec_trim(p.subrange(es, wi)).len() > 0 {
            let k = spec_skip_ws(p, wi + 2);
            let e = spec_word_end_at(p, k as nat);
            Some((spec_trim(p.subrange(es, wi)), p.subrange(k, e as int)))
        } else {
            spec_store_in(p, es, wi + 1)
        },
        None => None,
    }
}

fn store_in(p: &Vec<char>, es: usize, from: usize) -> (r: Option<(String, String)>)
    requires
        es <= p@.len(),
        from <= p@.len(),
    ensures
        match r {
            Some((ex, v)) => spec_store_in(p@, es as int, from as int) == Some((ex@, v@)),
            None => spec_store_in(p@, es as int, from as int) is None,
        },
    decreases p@.len() + 1 - from,
{
    proof {
        reveal_strlit("in");
    }
    let inw = chars_of("in");
    let pl = p.len();
    match find_word_from(p, &inw, from) {
        Some(wi) => {
            if wi > es && wi >= 1 && pl - wi > 2 && is_ws(p[wi - 1]) && is_ws(p[wi + 2]) {
                let k = skip_ws(p, wi + 2);
                if k < pl && (is_alpha(p[k]) || p[k] == '_') {
                    let ex0 = subvec(p, es, wi);
                    let ext = trim(&ex0);
                    if ext.len() > 0 {
                        let e = word_end_at(p, k);
                        let var = string_of(&subvec(p, k, e));
                        return Some((string_of(&ext), var));
                    }
                }
            }
            store_in(p, es, wi + 1)
        },
        None => None,
    }
}

/// The separators that split an assignment's expression from its trailing
/// print request; checked in this order.
pub open spec fn spec_tail_cut(ex: Seq<char>) -> (Seq<char>, bool) {
    let c1 = spec_find_ci_from(ex, " and print"@, 0);
    let c2 = spec_find_ci_from(ex, " then print"@, 0);
    let c3 = spec_find_ci_from(ex, " and output"@, 0);
    let c4 = spec_find_ci_from(ex, " then output"@, 0);
    let c5 = spec_find_ci_from(ex, " and echo"@, 0);
    let c6 = spec_find_ci_from(ex, " then echo"@, 0);
    let m = if c1 is Some {
        c1
    } else if c2 is Some {
        c2
    } else if c3 is Some {
        c3
    } else if c4 is Some {
        c4
    } else if c5 is Some {
        c5
    } else {
        c6
    };
    match m {
        Some(idx) => if 0 <= idx <= ex.len() {
            (spec_trim(ex.subrange(0, idx)), true)
        } else {
            (ex, false)
        },
        None => (ex, false),
    }
}

fn tail_cut(ex: &Vec<char>) -> (r: (Vec<char>, bool))
    ensures
        ({
            let (se, sp) = spec_tail_cut(ex@);
            r.0@ == se && r.1 == sp
        }),
{
    let n1 = chars_of(" and print");
    let n2 = chars_of(" then print");
    let n3 = chars_of(" and output");
    let n4 = chars_of(" then output");
    let n5 = chars_of(" and echo");
    let n6 = chars_of(" then echo");
    let c1 = find_ci_from(ex, &n1, 0);
    let c2 = find_ci_from(ex, &n2, 0);
    let c3 = find_ci_from(ex, &n3, 0);
    let c4 = find_ci_from(ex, &n4, 0);
    let c5 = find_ci_from(ex, &n5, 0);
    let c6 = find_ci_from(ex, &n6, 0);
    let m = if c1.is_some() {
        c1
    } else if c2.is_some() {
        c2
    } else if c3.is_some() {
        c3
    } else if c4.is_some() {
        c4
    } else if c5.is_some() {
        c5
    } else {
        c6
    };
    match m {
        Some(idx) => {
            let cut = subvec(ex, 0, idx);
            (trim(&cut), true)
        },
        None => {
            let c = subvec(ex, 0, ex.len());
            proof {
                assert(c@ =~= ex@);
            }
            (c, false)
        },
    }
}

/// Print vocabulary anywhere after a space, asking for the stored value to
/// be printed.
pub open spec fn spec_wants_print(p: Seq<char>) -> bool {
    spec_contains_ci(p, " print"@) || spec_contains_ci(p, " output"@) || spec_contains_ci(
        p,
        " show"@,
    ) || spec_contains_ci(p, " echo"@)
}

fn wants_print(p: &Vec<char>) -> (r: bool)
    ensures
        r == spec_wants_print(p@),
{
    crate::text::contains_lit(p, " print") || crate::text::contains_lit(p, " output")
        || crate::text::contains_lit(p, " show") || crate::text::contains_lit(p, " echo")
}

/// The `into NAME` tail cut from an expression.
pub open spec fn spec_into_cut(ex: Seq<char>) -> Seq<char> {
    match spec_find_ci_from(ex, " into "@, 0) {
        Some(idx) => if 0 <= idx <= ex.len() && spec_trim(
            ex.subrange(idx + 6, ex.len() as int),
        ).len() > 0 {
            spec_trim(ex.subrange(0, idx))
        } else {
            ex
        },
        None => ex,
    }
}

fn into_cut(ex: &Vec<char>) -> (r: Vec<char>)
    ensures
        r@ == spec_into_cut(ex@),
{
    proof {
        reveal_strlit(" into ");
    }
    let el = ex.len();
    let into = chars_of(" into ");
    match find_ci_from(ex, &into, 0) {
        Some(idx) => {
            proof {
                assert(idx + " into "@.len() <= ex@.len());
            }
            let tailv = subvec(ex, idx + 6, ex.len());
            let tailt = trim(&tailv);
            if tailt.len() > 0 {
                let cut = subvec(ex, 0, idx);
                trim(&cut)
            } else {
                let c = subvec(ex, 0, ex.len());
                proof {
                    assert(c@ =~= ex@);
                }
                c
            }
        },
        None => {
            let c = subvec(ex, 0, ex.len());
            proof {
                assert(c@ =~= ex@);
            }
            c
        },
    }
}

/// The assignment an instruction describes: target variable, right-hand
/// side text, and whether a print of the result is requested.
pub open spec fn spec_parse_var_expr(p0: Seq<char>) -> Option<(Seq<char>, Seq<char>, bool)> {
    let p = spec_trim(p0);
    match spec_find_assign(p, "set"@, 0) {
        Some((var, es)) => Some(spec_assign_tail(p, var, es)),
        None => match spec_find_create_variable(p) {
            Some((var, es)) => Some(spec_assign_tail(p, var, es)),
            None => match spec_find_store(p) {
                Some((ex, var)) => Some(
                    (var, spec_clean_expr(spec_strip_wrapping(ex)), true),
                ),
                None => match spec_find_assign(p, "create"@, 0) {
                    Some((var, es)) => Some(spec_assign_tail(p, var, es)),
                    None => match spec_find_assign(p, "store"@, 0) {
                        Some((var, es)) => Some(spec_assign_tail(p, var, es)),
                        None => None,
                    },
                },
            },
        },
    }
}

/// `create variable NAME ...`: the `variable` marker word is skipped.
pub open spec fn spec_find_create_variable(p: Seq<char>) -> Option<(Seq<char>, nat)> {
    match spec_find_word_from(p, "create"@, 0) {
        Some(ci) => if ci + 6 < p.len() && spec_is_ws(p[ci + 6]) {
            let k = spec_skip_ws(p, ci + 6);
            if 0 <= k < p.len() && spec_word_at(p, "variable"@, k) {
                spec_assign_shape(p, "variable"@, k as nat)
            } else {
                None
            }
        } else {
            None
        },
        None => None,
    }
}

/// The shared expression tail: the print separators cut, the expression
/// cleaned, an `into` tail removed, an empty expression read as zero.
pub open spec fn spec_assign_tail(p: Seq<char>, var: Seq<char>, es: nat) -> (
    Seq<char>,
    Seq<char>,
    bool,
) {
    let ex0 = if es <= p.len() {
        p.subrange(es as int, p.len() as int)
    } else {
        Seq::empty()
    };
    let (ex1, dp0) = spec_tail_cut(ex0);
    let ex2 = spec_into_cut(spec_clean_expr(ex1));
    let ex3 = if ex2.len() == 0 {
        "0"@
    } else {
        ex2
    };
    (var, ex3, dp0 || spec_wants_print(p))
}

fn assign_tail(p: &Vec<char>, var: String, es: usize) -> (r: (String, String, bool))
    requires
        es < p@.len(),
    ensures
        ({
            let (v, e, d) = spec_assign_tail(p@, var@, es as nat);
            r.0@ == v && r.1@ == e && r.2 == d
        }),
{
    let ex0 = subvec(p, es, p.len());
    let (ex1, dp0) = tail_cut(&ex0);
    let ex1c = clean_expr_chars(&ex1);
    let ex2 = into_cut(&ex1c);
    let ex3: Vec<char> = if ex2.len() == 0 {
        proof {
            reveal_strlit("0");
        }
        let mut z: Vec<char> = Vec::new();
        z.push('0');
        proof {
            assert(z@ =~= "0"@);
        }
        z
    } else {
        ex2
    };
    let dp = dp0 || wants_print(p);
    (var, string_of(&ex3), dp)
}

/// The assignment an instruction describes, if any.
pub fn parse_var_expr(prompt: &str) -> (r: Option<(String, String, bool)>)
    ensures
        match r {
            Some((v, e, d)) => spec_parse_var_expr(prompt@) == Some((v@, e@, d)),
            None => spec_parse_var_expr(prompt@) is None,
        },
{
    let pv0 = chars_of(prompt);
    let p = trim(&pv0);
    let setw = chars_of("set");
    match find_assign(&p, &setw, 0) {
        Some((var, es)) => {
            return Some(assign_tail(&p, var, es));
        },
        None => {},
    }
    match find_create_variable(&p) {
        Some((var, es)) => {
            return Some(assign_tail(&p, var, es));
        },
        None => {},
    }
    match find_store(&p) {
        Some((ex, var)) => {
            let exv = chars_of(ex.as_str());
            let stripped = strip_wrapping_chars(exv);
            let cleaned = clean_expr_chars(&stripped);
            return Some((var, string_of(&cleaned), true));
        },
        None => {},
    }
    let createw = chars_of("create");
    match find_assign(&p, &createw, 0) {
        Some((var, es)) => {
            return Some(assign_tail(&p, var, es));
        },
        None => {},
    }
    let storew = chars_of("store");
    match find_assign(&p, &storew, 0) {
        Some((var, es)) => {
            return Some(assign_tail(&p, var, es));
        },
        None => {},
    }
    None
}

fn find_create_variable(p: &Vec<char>) -> (r: Option<(String, usize)>)
    ensures
        match r {
            Some((v, es)) => spec_find_create_variable(p@) == Some((v@, es as nat)) && es
                < p@.len(),
            None => spec_find_create_variable(p@) is None,
        },
{
    proof {
        reveal_strlit("create");
        reveal_strlit("variable");
    }
    let createw = chars_of("create");
    let pl = p.len();
    match find_word_from(p, &createw, 0) {
        Some(ci) => {
            if pl - ci > 6 && is_ws(p[ci + 6]) {
                let k = skip_ws(p, ci + 6);
                let variablew = chars_of("variable");
                if k < pl && word_at(p, &variablew, k) {
                    assign_shape(p, &variablew, k)
                } else {
                    None
                }
            } else {
                None
            }
        },
        None => None,
    }
}

fn find_store(p: &Vec<char>) -> (r: Option<(String, String)>)
    ensures
        match r {
            Some((ex, v)) => spec_find_store(p@) == Some((ex@, v@)),
            None => spec_find_store(p@) is None,
        },
{
    proof {
        reveal_strlit("store");
    }
    let storew = chars_of("store");
    let pl = p.len();
    match find_word_from(p, &storew, 0) {
        Some(si) => {
            if pl - si > 5 && is_ws(p[si + 5]) {
                let es = skip_ws(p, si + 5);
                store_in(p, es, es)
            } else {
                None
            }
        },
        None => None,
    }
}


// ---------------------------------------------------------------------------
// print tails
// ---------------------------------------------------------------------------

/// Where the last print-like request starts, preferring `print` over
/// `echo` over `output`, with the vocabulary word consumed.
pub open spec fn spec_print_tail_start(p: Seq<char>) -> Option<int> {
    match spec_rfind_ci(p, "print "@, if p.len() > 0 { p.len() - 1 } else { 0 }) {
        Some(i) => Some(i + 6),
        None => match spec_rfind_ci(p, "echo "@, if p.len() > 0 { p.len() - 1 } else { 0 }) {
            Some(i) => Some(i + 5),
            None => match spec_rfind_ci(p, "output "@, if p.len() > 0 { p.len() - 1 } else { 0 }) {
                Some(i) => Some(i + 7),
                None => None,
            },
        },
    }
}

fn print_tail_start(p: &Vec<char>) -> (r: Option<usize>)
    ensures
        match r {
            Some(i) => spec_print_tail_start(p@) == Some(i as int) && i <= p@.len(),
            None => spec_print_tail_start(p@) is None,
        },
{
    proof {
        reveal_strlit("print ");
        reveal_strlit("echo ");
        reveal_strlit("output ");
    }
    let pl = p.len();
    let upto = if pl > 0 {
        pl - 1
    } else {
        0
    };
    let n1 = chars_of("print ");
    match rfind_ci(p, &n1, upto) {
        Some(i) => {
            return Some(i + 6);
        },
        None => {},
    }
    let n2 = chars_of("echo ");
    match rfind_ci(p, &n2, upto) {
        Some(i) => {
            return Some(i + 5);
        },
        None => {},
    }
    let n3 = chars_of("output ");
    match rfind_ci(p, &n3, upto) {
        Some(i) => {
            return Some(i + 7);
        },
        None => {},
    }
    None
}

/// A quoted literal plus a variable, as the head of a print request.
pub open spec fn spec_lit_plus_var(raw: Seq<char>) -> Option<(Seq<char>, Seq<char>)> {
    if raw.len() > 0 && (raw[0] == '\'' || raw[0] == '"') {
        let q = raw[0];
        let e = spec_find_char_at(raw, q, 1);
        if 1 < e < raw.len() {
            let lit = raw.subrange(1, e as int);
            let k = spec_skip_ws(raw, (e + 1) as int);
            if 0 <= k < raw.len() && raw[k] == '+' {
                let k2 = spec_skip_ws(raw, k + 1);
                if 0 <= k2 < raw.len() && spec_ident_start(raw[k2]) {
                    let w = spec_word_end_at(raw, k2 as nat);
                    Some((lit, raw.subrange(k2, w as int)))
                } else {
                    None
                }
            } else {
                None
            }
        } else {
            None
        }
    } else {
        None
    }
}

fn lit_plus_var(raw: &Vec<char>) -> (r: Option<(String, String)>)
    ensures
        match r {
            Some((l, v)) => spec_lit_plus_var(raw@) == Some((l@, v@)),
            None => spec_lit_plus_var(raw@) is None,
        },
{
    let rl = raw.len();
    if !(rl > 0 && (raw[0] == '\'' || raw[0] == '"')) {
        return None;
    }
    let q = raw[0];
    let e = find_char_at(raw, q, 1);
    if !(1 < e && e < rl) {
        return None;
    }
    let lit = string_of(&subvec(raw, 1, e));
    let k = skip_ws(raw, e + 1);
    if !(k < rl && raw[k] == '+') {
        return None;
    }
    let k2 = skip_ws(raw, k + 1);
    if !(k2 < rl && (is_alpha(raw[k2]) || raw[k2] == '_')) {
        return None;
    }
    let w = word_end_at(raw, k2);
    Some((lit, string_of(&subvec(raw, k2, w))))
}

/// What a trailing print request prints, phrased over the assigned
/// variable: a literal-plus-variable concatenation, the word `it` standing
/// for the variable with its name shown, or the tail itself normalized.
pub open spec fn spec_find_print_tail(p: Seq<char>, var: Seq<char>) -> Option<Seq<char>> {
    match spec_print_tail_start(p) {
        Some(st) => if 0 <= st <= p.len() {
            let raw = spec_trim(p.subrange(st, p.len() as int));
            if spec_has_char(raw, '+') {
                match spec_lit_plus_var(raw) {
                    Some((lit, v)) => {
                        let spacer: Seq<char> = if lit.len() > 0 && lit[lit.len() - 1] == ' ' {
                            Seq::empty()
                        } else {
                            " "@
                        };
                        Some(
                            seq!['"'] + lit + seq!['"'] + " + \""@ + spacer + "\" + "@ + v,
                        )
                    },
                    None => Some(spec_swap_quotes(raw, 0)),
                }
            } else if spec_seq_eq_ci(raw, "it"@) {
                Some(seq!['"'] + var + "=\" + "@ + var)
            } else {
                Some(spec_normalize_expr(raw))
            }
        } else {
            None
        },
        None => None,
    }
}

pub fn find_print_tail(prompt: &str, var: &str) -> (r: Option<String>)
    ensures
        match r {
            Some(t) => spec_find_print_tail(prompt@, var@) == Some(t@),
            None => spec_find_print_tail(prompt@, var@) is None,
        },
{
    let p = chars_of(prompt);
    let vv = chars_of(var);
    match print_tail_start(&p) {
        Some(st) => {
            let rawv = subvec(&p, st, p.len());
            let raw = trim(&rawv);
            if has_char(&raw, '+') {
                match lit_plus_var(&raw) {
                    Some((lit, v)) => {
                        let litv = chars_of(lit.as_str());
                        let mut out: Vec<char> = Vec::new();
                        out.push('"');
                        extend(&mut out, &litv);
                        out.push('"');
                        extend_str(&mut out, " + \"");
                        if !(litv.len() > 0 && litv[litv.len() - 1] == ' ') {
                            out.push(' ');
                        }
                        extend_str(&mut out, "\" + ");
                        let vvv = chars_of(v.as_str());
                        extend(&mut out, &vvv);
                        proof {
                            let spacer: Seq<char> = if lit@.len() > 0 && lit@[lit@.len() - 1]
                                == ' ' {
                                Seq::empty()
                            } else {
                                " "@
                            };
                            reveal_strlit(" ");
                            assert(out@ =~= seq!['"'] + lit@ + seq!['"'] + " + \""@ + spacer
                                + "\" + "@ + v@);
                        }
                        Some(string_of(&out))
                    },
                    None => Some(string_of(&swap_quotes(&raw))),
                }
            } else if chars_eq_ci_lit(&raw, "it") {
                let mut out: Vec<char> = Vec::new();
                out.push('"');
                extend(&mut out, &vv);
                extend_str(&mut out, "=\" + ");
                extend(&mut out, &vv);
                proof {
                    assert(out@ =~= seq!['"'] + var@ + "=\" + "@ + var@);
                }
                Some(string_of(&out))
            } else {
                let raws = string_of(&raw);
                Some(normalize_expr(raws.as_str()))
            }
        },
        None => None,
    }
}

// ---------------------------------------------------------------------------
// conditions
// ---------------------------------------------------------------------------

/// Quotes a bare word on the right of each comparator, unless it reads as a
/// number or one of the words `true`, `false`, `none`.
pub open spec fn spec_quote_rhs(t: Seq<char>, i: nat) -> Seq<char>
    decreases t.len() - i,
{
    if i >= t.len() {
        Seq::empty()
    } else {
        let op2 = i + 1 < t.len() && ((t[i as int] == '=' && t[(i + 1) as int] == '=') || (t[i as int]
            == '!' && t[(i + 1) as int] == '=') || (t[i as int] == '>' && t[(i + 1) as int] == '=') || (t[i as int]
            == '<' && t[(i + 1) as int] == '='));
        let op1 = t[i as int] == '>' || t[i as int] == '<';
        if op2 {
            let j0 = spec_skip_ws(t, (i + 2) as int);
            let j = if j0 < i + 2 {
                (i + 2) as int
            } else if j0 > t.len() {
                t.len() as int
            } else {
                j0
            };
            if j < t.len() && spec_ident_start(t[j]) {
                let w0 = spec_word_end_at(t, j as nat);
                let w = if w0 <= j {
                    (j + 1) as nat
                } else if w0 > t.len() {
                    t.len()
                } else {
                    w0
                };
                let word = t.subrange(j, w as int);
                t.subrange(i as int, (i + 2) as int) + seq![' '] + spec_wrap_rhs(word)
                    + spec_quote_rhs(t, w)
            } else {
                t.subrange(i as int, (i + 2) as int) + spec_quote_rhs(t, i + 2)
            }
        } else if op1 {
            let j0 = spec_skip_ws(t, (i + 1) as int);
            let j = if j0 < i + 1 {
                (i + 1) as int
            } else if j0 > t.len() {
                t.len() as int
            } else {
                j0
            };
            if j < t.len() && spec_ident_start(t[j]) {
                let w0 = spec_word_end_at(t, j as nat);
                let w = if w0 <= j {
                    (j + 1) as nat
                } else if w0 > t.len() {
                    t.len()
                } else {
                    w0
                };
                let word = t.subrange(j, w as int);
                seq![t[i as int]] + seq![' '] + spec_wrap_rhs(word) + spec_quote_rhs(t, w)
            } else {
                seq![t[i as int]] + spec_quote_rhs(t, i + 1)
            }
        } else {
            seq![t[i as int]] + spec_quote_rhs(t, i + 1)
        }
    }
}

pub open spec fn spec_wrap_rhs(word: Seq<char>) -> Seq<char> {
    if crate::numeric::spec_parse_num(word) is Some || spec_seq_eq_ci(word, "true"@)
        || spec_seq_eq_ci(word, "false"@) || spec_seq_eq_ci(word, "none"@) {
        word
    } else {
        seq!['"'] + word + seq!['"']
    }
}

fn wrap_rhs(word: &Vec<char>) -> (r: Vec<char>)
    ensures
        r@ == spec_wrap_rhs(word@),
{
    if crate::numeric::parse_num(word).is_some() || chars_eq_ci_lit(word, "true")
        || chars_eq_ci_lit(word, "false") || chars_eq_ci_lit(word, "none") {
        let c = subvec(word, 0, word.len());
        proof {
            assert(c@ =~= word@);
        }
        c
    } else {
        let mut out: Vec<char> = Vec::new();
        out.push('"');
        extend(&mut out, word);
        out.push('"');
        proof {
            assert(out@ =~= seq!['"'] + word@ + seq!['"']);
        }
        out
    }
}

#[verifier::rlimit(100)]
#[verifier::spinoff_prover]
fn quote_rhs(t: &Vec<char>, i: usize, acc: &mut Vec<char>)
    requires
        i <= t@.len(),
    ensures
        final(acc)@ == old(acc)@ + spec_quote_rhs(t@, i as nat),
    decreases t@.len() - i,
{
    if i >= t.len() {
        proof {
            assert(acc@ =~= acc@ + Seq::<char>::empty());
        }
        return ;
    }
    let tl = t.len();
    let op2 = tl - i > 1 && ((t[i] == '=' && t[i + 1] == '=') || (t[i] == '!' && t[i + 1] == '=')
        || (t[i] == '>' && t[i + 1] == '=') || (t[i] == '<' && t[i + 1] == '='));
    let op1 = t[i] == '>' || t[i] == '<';
    if op2 {
        let j = skip_ws(t, i + 2);
        if j < tl && (is_alpha(t[j]) || t[j] == '_') {
            let w0 = word_end_at(t, j);
            let w = if w0 <= j {
                j + 1
            } else {
                w0
            };
            let word = subvec(t, j, w);
            let ghost a0 = acc@;
            let ops = subvec(t, i, i + 2);
            extend(acc, &ops);
            acc.push(' ');
            let wr = wrap_rhs(&word);
            extend(acc, &wr);
            quote_rhs(t, w, acc);
            proof {
                assert(acc@ =~= a0 + (t@.subrange(i as int, (i + 2) as int) + seq![' ']
                    + spec_wrap_rhs(word@) + spec_quote_rhs(t@, w as nat)));
            }
        } else {
            let ghost a0 = acc@;
            let ops = subvec(t, i, i + 2);
            extend(acc, &ops);
            quote_rhs(t, i + 2, acc);
            proof {
                assert(acc@ =~= a0 + (t@.subrange(i as int, (i + 2) as int) + spec_quote_rhs(
                    t@,
                    (i + 2) as nat,
                )));
            }
        }
    } else if op1 {
        let j = skip_ws(t, i + 1);
        if j < tl && (is_alpha(t[j]) || t[j] == '_') {
            let w0 = word_end_at(t, j);
            let w = if w0 <= j {
                j + 1
            } else {
                w0
            };
            let word = subvec(t, j, w);
            let ghost a0 = acc@;
            acc.push(t[i]);
            acc.push(' ');
            let wr = wrap_rhs(&word);
            extend(acc, &wr);
            quote_rhs(t, w, acc);
            proof {
                assert(acc@ =~= a0 + (seq![t@[i as int]] + seq![' '] + spec_wrap_rhs(word@)
                    + spec_quote_rhs(t@, w as nat)));
            }
        } else {
            let ghost a0 = acc@;
            acc.push(t[i]);
            quote_rhs(t, i + 1, acc);
            proof {
                assert(acc@ =~= a0 + (seq![t@[i as int]] + spec_quote_rhs(t@, (i + 1) as nat)));
            }
        }
    } else {
        let ghost a0 = acc@;
        acc.push(t[i]);
        quote_rhs(t, i + 1, acc);
        proof {
            assert(acc@ =~= a0 + (seq![t@[i as int]] + spec_quote_rhs(t@, (i + 1) as nat)));
        }
    }
}

/// A spoken condition normalized to comparator symbols, its bare right-hand
/// words quoted.
pub open spec fn spec_normalize_condition(raw: Seq<char>) -> Seq<char> {
    let c0 = spec_trim(raw);
    let c1 = spec_replace_word(c0, "greater than or equal to"@, ">="@, 0);
    let c2 = spec_replace_word(c1, "less than or equal to"@, "<="@, 0);
    let c3 = spec_replace_word(c2, "greater than"@, ">"@, 0);
    let c4 = spec_replace_word(c3, "less than"@, "<"@, 0);
    let c5 = spec_replace_word(c4, "is not"@, "!="@, 0);
    let c6 = spec_replace_word(c5, "not equal to"@, "!="@, 0);
    let c7 = spec_replace_word(c6, "equals"@, "=="@, 0);
    let c8 = spec_replace_word(c7, "equal to"@, "=="@, 0);
    let c9 = spec_replace_word(c8, "is"@, "=="@, 0);
    spec_trim(spec_trim_commas(spec_quote_rhs(c9, 0)))
}

pub fn normalize_condition(raw: &str) -> (r: String)
    ensures
        r@ == spec_normalize_condition(raw@),
{
    let rv = chars_of(raw);
    let c0 = trim(&rv);
    let c1 = replace_word(&c0, "greater than or equal to", ">=");
    let c2 = replace_word(&c1, "less than or equal to", "<=");
    let c3 = replace_word(&c2, "greater than", ">");
    let c4 = replace_word(&c3, "less than", "<");
    let c5 = replace_word(&c4, "is not", "!=");
    let c6 = replace_word(&c5, "not equal to", "!=");
    let c7 = replace_word(&c6, "equals", "==");
    let c8 = replace_word(&c7, "equal to", "==");
    let c9 = replace_word(&c8, "is", "==");
    let mut q: Vec<char> = Vec::new();
    quote_rhs(&c9, 0, &mut q);
    proof {
        assert(q@ =~= spec_quote_rhs(c9@, 0));
    }
    let t0 = trim_commas(&q);
    let t1 = trim(&t0);
    string_of(&t1)
}


// ---------------------------------------------------------------------------
// branch template
// ---------------------------------------------------------------------------

/// The earliest output verb (`say`, `print` or `output`) in a branch part,
/// with its length.
pub open spec fn spec_branch_verb(part: Seq<char>, i: nat) -> Option<(int, int)>
    decreases part.len() - i,
{
    if i >= part.len() {
        None
    } else if spec_word_at(part, "say"@, i as int) {
        Some((i as int, 3))
    } else if spec_word_at(part, "print"@, i as int) {
        Some((i as int, 5))
    } else if spec_word_at(part, "output"@, i as int) {
        Some((i as int, 6))
    } else {
        spec_branch_verb(part, i + 1)
    }
}

fn branch_verb(part: &Vec<char>, i: usize) -> (r: Option<(usize, usize)>)
    requires
        i <= part@.len(),
    ensures
        match r {
            Some((v, l)) => spec_branch_verb(part@, i as nat) == Some((v as int, l as int)) && v
                + l <= part@.len() && i <= v,
            None => spec_branch_verb(part@, i as nat) is None,
        },
    decreases part@.len() - i,
{
    proof {
        reveal_strlit("say");
        reveal_strlit("print");
        reveal_strlit("output");
    }
    if i >= part.len() {
        return None;
    }
    let say = chars_of("say");
    let pr = chars_of("print");
    let out = chars_of("output");
    if word_at(part, &say, i) {
        Some((i, 3))
    } else if word_at(part, &pr, i) {
        Some((i, 5))
    } else if word_at(part, &out, i) {
        Some((i, 6))
    } else {
        branch_verb(part, i + 1)
    }
}

/// One branch part split at its verb: the normalized condition and the
/// sanitized message.
pub open spec fn spec_branch_part(part: Seq<char>) -> Option<(Seq<char>, Seq<char>)> {
    match spec_branch_verb(part, 0) {
        Some((vi, l)) => if 0 <= vi && vi + l <= part.len() {
            let cond = spec_normalize_condition(spec_trim_cc(spec_trim(part.subrange(0, vi))));
            let msg = spec_sanitize(part.subrange(vi + l, part.len() as int));
            if cond.len() > 0 && msg.len() > 0 {
                Some((cond, msg))
            } else {
                None
            }
        } else {
            None
        },
        None => None,
    }
}

fn branch_part(part: &Vec<char>) -> (r: Option<(String, String)>)
    ensures
        match r {
            Some((c, m)) => spec_branch_part(part@) == Some((c@, m@)),
            None => spec_branch_part(part@) is None,
        },
{
    let pl = part.len();
    match branch_verb(part, 0) {
        Some((vi, l)) => {
            let condr = subvec(part, 0, vi);
            let condt = trim(&condr);
            let condc = trim_cc(&condt);
            let conds = string_of(&condc);
            let cond = normalize_condition(conds.as_str());
            let msgr = subvec(part, vi + l, part.len());
            let msgs = string_of(&msgr);
            let msg = sanitize_text(msgs.as_str());
            if cond.as_str().unicode_len() > 0 && msg.as_str().unicode_len() > 0 {
                Some((cond, msg))
            } else {
                None
            }
        },
        None => None,
    }
}

/// The `if`/`elif` parts of a branch head, split at each `elif` word.
pub open spec fn spec_branch_parts(rest: Seq<char>) -> Option<Seq<(Seq<char>, Seq<char>)>>
    decreases rest.len(),
{
    match spec_find_word_from(rest, "elif"@, 0) {
        Some(ei) => if 0 <= ei <= rest.len() && ei + 4 <= rest.len() {
            match spec_branch_part(spec_trim_commas(spec_trim(rest.subrange(0, ei)))) {
                Some(cm) => {
                    let rest2 = spec_trim(rest.subrange(ei + 4, rest.len() as int));
                    if rest2.len() < rest.len() {
                        match spec_branch_parts(rest2) {
                            Some(more) => Some(seq![cm] + more),
                            None => None,
                        }
                    } else {
                        None
                    }
                },
                None => None,
            }
        } else {
            None
        },
        None => match spec_branch_part(spec_trim_commas(spec_trim(rest))) {
            Some(cm) => Some(seq![cm]),
            None => None,
        },
    }
}

fn branch_parts(rest: &Vec<char>) -> (r: Option<Vec<(String, String)>>)
    ensures
        match r {
            Some(v) => spec_branch_parts(rest@) matches Some(sv) && pairs_view(v@) == sv,
            None => spec_branch_parts(rest@) is None,
        },
    decreases rest@.len(),
{
    proof {
        reveal_strlit("elif");
    }
    let rl = rest.len();
    let elifw = chars_of("elif");
    match find_word_from(rest, &elifw, 0) {
        Some(ei) => {
            let headr = subvec(rest, 0, ei);
            let headt = trim(&headr);
            let headc = trim_commas(&headt);
            match branch_part(&headc) {
                Some(cm) => {
                    let tailr = subvec(rest, ei + 4, rest.len());
                    let rest2 = trim(&tailr);
                    proof {
                        lemma_trim_le(rest@.subrange((ei + 4) as int, rest@.len() as int));
                    }
                    if rest2.len() < rest.len() {
                        match branch_parts(&rest2) {
                            Some(mut more) => {
                                let ghost more0 = more@;
                                let mut outv: Vec<(String, String)> = Vec::new();
                                outv.push(cm);
                                outv.append(&mut more);
                                proof {
                                    assert(pairs_view(outv@) =~= spec_branch_parts(rest@)->0);
                                }
                                Some(outv)
                            },
                            None => None,
                        }
                    } else {
                        None
                    }
                },
                None => None,
            }
        },
        None => {
            let headt = trim(rest);
            let headc = trim_commas(&headt);
            match branch_part(&headc) {
                Some(cm) => {
                    let mut outv: Vec<(String, String)> = Vec::new();
                    outv.push(cm);
                    proof {
                        assert(pairs_view(outv@) =~= seq![(cm.0@, cm.1@)]);
                    }
                    Some(outv)
                },
                None => None,
            }
        },
    }
}

pub open spec fn pairs_view(v: Seq<(String, String)>) -> Seq<(Seq<char>, Seq<char>)> {
    v.map_values(|p: (String, String)| (p.0@, p.1@))
}

/// The branch lines: an `if` line, `elif` lines, one indented output each.
pub open spec fn spec_branch_lines(parts: Seq<(Seq<char>, Seq<char>)>, first: bool) -> Seq<char>
    decreases parts.len(),
{
    if parts.len() == 0 {
        Seq::empty()
    } else {
        let kw: Seq<char> = if first {
            "if "@
        } else {
            "elif "@
        };
        let blk = kw + parts[0].0 + ":\n    neuro \""@ + parts[0].1 + "\""@;
        if parts.len() == 1 {
            blk
        } else {
            blk + seq!['\n'] + spec_branch_lines(parts.drop_first(), false)
        }
    }
}

fn branch_lines(parts: &Vec<(String, String)>, from: usize, first: bool, acc: &mut Vec<char>)
    requires
        from <= parts@.len(),
    ensures
        final(acc)@ == old(acc)@ + spec_branch_lines(
            pairs_view(parts@).subrange(from as int, parts@.len() as int),
            first,
        ),
    decreases parts@.len() - from,
{
    proof {
        reveal_strlit("\"");
    }
    let ghost whole = pairs_view(parts@).subrange(from as int, parts@.len() as int);
    if from >= parts.len() {
        proof {
            assert(whole =~= Seq::<(Seq<char>, Seq<char>)>::empty());
            assert(acc@ =~= acc@ + Seq::<char>::empty());
        }
        return ;
    }
    let ghost a0 = acc@;
    if first {
        extend_str(acc, "if ");
    } else {
        extend_str(acc, "elif ");
    }
    let cv = chars_of(parts[from].0.as_str());
    extend(acc, &cv);
    extend_str(acc, ":\n    neuro \"");
    let mv = chars_of(parts[from].1.as_str());
    extend(acc, &mv);
    acc.push('"');
    let ghost kw: Seq<char> = if first {
        "if "@
    } else {
        "elif "@
    };
    let ghost blk = kw + parts@[from as int].0@ + ":\n    neuro \""@ + parts@[from as int].1@
        + "\""@;
    proof {
        assert(whole[0] == (parts@[from as int].0@, parts@[from as int].1@));
        assert(acc@ =~= a0 + blk);
    }
    if from + 1 >= parts.len() {
        proof {
            assert(whole.len() == 1);
        }
        return ;
    }
    acc.push('\n');
    branch_lines(parts, from + 1, false, acc);
    proof {
        assert(whole.drop_first() =~= pairs_view(parts@).subrange(
            (from + 1) as int,
            parts@.len() as int,
        ));
        assert(acc@ =~= a0 + (blk + seq!['\n'] + spec_branch_lines(whole.drop_first(), false)));
    }
}

/// The `else` message, where the instruction carries one: the text after
/// the first `else` word, an optional output verb skipped.
pub open spec fn spec_split_else(p: Seq<char>) -> (Seq<char>, Option<Seq<char>>) {
    match spec_find_word_from(p, "else"@, 0) {
        Some(ei) => if 0 <= ei <= p.len() && ei + 4 <= p.len() {
            let head = spec_trim(spec_trim_commas(spec_trim(p.subrange(0, ei))));
            let tail0 = spec_trim(p.subrange(ei + 4, p.len() as int));
            let tail1 = spec_strip_lead(tail0, "say"@);
            let tail2 = if tail1 == tail0 {
                let t = spec_strip_lead(tail0, "print"@);
                if t == tail0 {
                    spec_strip_lead(tail0, "output"@)
                } else {
                    t
                }
            } else {
                tail1
            };
            let msg = spec_sanitize(tail2);
            if msg.len() > 0 {
                (head, Some(msg))
            } else {
                (spec_trim(p), None)
            }
        } else {
            (spec_trim(p), None)
        },
        None => (spec_trim(p), None),
    }
}

fn split_else(p: &Vec<char>) -> (r: (Vec<char>, Option<String>))
    ensures
        ({
            let (h, m) = spec_split_else(p@);
            r.0@ == h && (match (r.1, m) {
                (Some(a), Some(b)) => a@ == b,
                (None, None) => true,
                _ => false,
            })
        }),
{
    proof {
        reveal_strlit("else");
    }
    let pl = p.len();
    let elsew = chars_of("else");
    match find_word_from(p, &elsew, 0) {
        Some(ei) => {
            let h0 = subvec(p, 0, ei);
            let h1 = trim(&h0);
            let h2 = trim_commas(&h1);
            let head = trim(&h2);
            let t0v = subvec(p, ei + 4, p.len());
            let tail0 = trim(&t0v);
            let tail1 = strip_lead(&tail0, "say");
            let tail2 = if chars_eq_vec(&tail1, &tail0) {
                let t = strip_lead(&tail0, "print");
                if chars_eq_vec(&t, &tail0) {
                    strip_lead(&tail0, "output")
                } else {
                    t
                }
            } else {
                tail1
            };
            let t2s = string_of(&tail2);
            let msg = sanitize_text(t2s.as_str());
            if msg.as_str().unicode_len() > 0 {
                (head, Some(msg))
            } else {
                (trim(p), None)
            }
        },
        None => (trim(p), None),
    }
}

/// The first break after a condition word: spaces, an optional comma or
/// colon taken only when spaces follow it, and where the break ends.
pub open spec fn spec_gap_at(p: Seq<char>, k: int) -> Option<int> {
    let a = spec_skip_ws(p, k);
    if 0 <= a < p.len() && (p[a] == ',' || p[a] == ':') && a + 1 < p.len() && spec_is_ws(
        p[a + 1],
    ) {
        Some(spec_skip_ws(p, a + 1))
    } else if a > k {
        Some(a)
    } else {
        None
    }
}

/// The earliest break position from `k` on that still leaves a message.
pub open spec fn spec_gap_scan(p: Seq<char>, k: nat) -> Option<(int, int)>
    decreases p.len() - k,
{
    if k >= p.len() {
        None
    } else {
        match spec_gap_at(p, k as int) {
            Some(g) => if g < p.len() {
                Some((k as int, g))
            } else {
                None
            },
            None => spec_gap_scan(p, k + 1),
        }
    }
}

/// The earliest `else` in the message, followed by a space and more text.
pub open spec fn spec_else_scan(m: Seq<char>, q: nat) -> Option<int>
    decreases m.len() - q,
{
    if q + 6 > m.len() {
        None
    } else if q >= 1 && spec_match_ci_at(m, "else"@, q as int) && spec_is_ws(m[(q + 4) as int]) {
        Some(q as int)
    } else {
        spec_else_scan(m, q + 1)
    }
}

/// The verb-less branch shape: `if`, a first condition word up to the
/// earliest break, then everything else as the message, split at an
/// `else` where one follows.
pub open spec fn spec_branch_simple(p: Seq<char>) -> Option<Seq<char>> {
    if spec_match_ci_at(p, "if"@, 0) && 2 < p.len() && spec_is_ws(p[2]) {
        let i0 = spec_skip_ws(p, 2);
        match spec_gap_scan(p, (i0 + 1) as nat) {
            Some((ce, ms)) => {
                let c1 = spec_normalize_condition(p.subrange(i0, ce));
                let m = p.subrange(ms, p.len() as int);
                match spec_else_scan(m, 1) {
                    Some(q) => {
                        let m1 = spec_sanitize(m.subrange(0, q));
                        let em = spec_sanitize(m.subrange(q + 4, m.len() as int));
                        Some(
                            "if "@ + c1 + ":\n    neuro \""@ + m1 + "\"\nelse:\n    neuro \""@ + em
                                + "\""@,
                        )
                    },
                    None => {
                        let m1 = spec_sanitize(m);
                        Some("if "@ + c1 + ":\n    neuro \""@ + m1 + "\""@)
                    },
                }
            },
            None => None,
        }
    } else {
        None
    }
}

fn gap_at(p: &Vec<char>, k: usize) -> (r: Option<usize>)
    requires
        k <= p@.len(),
    ensures
        match r {
            Some(g) => spec_gap_at(p@, k as int) == Some(g as int) && k <= g <= p@.len(),
            None => spec_gap_at(p@, k as int) is None,
        },
{
    let a = skip_ws(p, k);
    if a < p.len() && (p[a] == ',' || p[a] == ':') && p.len() - a > 1 && is_ws(p[a + 1]) {
        Some(skip_ws(p, a + 1))
    } else if a > k {
        Some(a)
    } else {
        None
    }
}

fn gap_scan(p: &Vec<char>, k0: usize) -> (r: Option<(usize, usize)>)
    requires
        k0 <= p@.len(),
    ensures
        match r {
            Some((c, g)) => spec_gap_scan(p@, k0 as nat) == Some((c as int, g as int)) && k0 <= c
                <= g <= p@.len(),
            None => spec_gap_scan(p@, k0 as nat) is None,
        },
{
    let mut k: usize = k0;
    while k < p.len()
        invariant
            k0 <= k <= p@.len(),
            spec_gap_scan(p@, k0 as nat) == spec_gap_scan(p@, k as nat),
        decreases p@.len() - k,
    {
        match gap_at(p, k) {
            Some(g) => {
                if g < p.len() {
                    return Some((k, g));
                } else {
                    return None;
                }
            },
            None => {},
        }
        k = k + 1;
    }
    None
}

fn else_scan(m: &Vec<char>, q0: usize) -> (r: Option<usize>)
    requires
        q0 >= 1,
    ensures
        match r {
            Some(q) => spec_else_scan(m@, q0 as nat) == Some(q as int) && q + 4 <= m@.len(),
            None => spec_else_scan(m@, q0 as nat) is None,
        },
{
    proof {
        reveal_strlit("else");
    }
    let elsew = chars_of("else");
    let mut q: usize = q0;
    while m.len() >= 6 && q <= m.len() - 6
        invariant
            1 <= q0 <= q,
            elsew@ == "else"@,
            spec_else_scan(m@, q0 as nat) == spec_else_scan(m@, q as nat),
        decreases m@.len() - q,
    {
        if match_ci_at(m, &elsew, q) && is_ws(m[q + 4]) {
            return Some(q);
        }
        q = q + 1;
    }
    None
}

fn branch_simple(p: &Vec<char>) -> (r: Option<String>)
    ensures
        match r {
            Some(s) => spec_branch_simple(p@) == Some(s@),
            None => spec_branch_simple(p@) is None,
        },
{
    proof {
        reveal_strlit("if");
        reveal_strlit("\"");
    }
    let ifw = chars_of("if");
    if !(match_ci_at(p, &ifw, 0) && 2 < p.len() && is_ws(p[2])) {
        return None;
    }
    let i0 = skip_ws(p, 2);
    if i0 >= p.len() {
        proof {
            assert(spec_gap_scan(p@, (i0 + 1) as nat) is None);
        }
        return None;
    }
    match gap_scan(p, i0 + 1) {
        Some((ce, ms)) => {
            let condv = subvec(p, i0, ce);
            let conds = string_of(&condv);
            let c1 = normalize_condition(conds.as_str());
            let m = subvec(p, ms, p.len());
            let c1v = chars_of(c1.as_str());
            match else_scan(&m, 1) {
                Some(q) => {
                    let m1v = subvec(&m, 0, q);
                    let m1s = string_of(&m1v);
                    let m1 = sanitize_text(m1s.as_str());
                    let emv = subvec(&m, q + 4, m.len());
                    let ems = string_of(&emv);
                    let em = sanitize_text(ems.as_str());
                    let mut out = chars_of("if ");
                    extend(&mut out, &c1v);
                    extend_str(&mut out, ":\n    neuro \"");
                    let m1c = chars_of(m1.as_str());
                    extend(&mut out, &m1c);
                    extend_str(&mut out, "\"\nelse:\n    neuro \"");
                    let emc = chars_of(em.as_str());
                    extend(&mut out, &emc);
                    out.push('"');
                    proof {
                        assert(out@ =~= "if "@ + c1@ + ":\n    neuro \""@ + m1@
                            + "\"\nelse:\n    neuro \""@ + em@ + "\""@);
                    }
                    Some(string_of(&out))
                },
                None => {
                    let ms2 = string_of(&m);
                    let m1 = sanitize_text(ms2.as_str());
                    let mut out = chars_of("if ");
                    extend(&mut out, &c1v);
                    extend_str(&mut out, ":\n    neuro \"");
                    let m1c = chars_of(m1.as_str());
                    extend(&mut out, &m1c);
                    out.push('"');
                    proof {
                        assert(out@ =~= "if "@ + c1@ + ":\n    neuro \""@ + m1@ + "\""@);
                    }
                    Some(string_of(&out))
                },
            }
        },
        None => None,
    }
}

/// The branch template: `if cond: output`, any number of `elif` branches,
/// an optional `else`; a head that does not read as a branch falls back to
/// the verb-less shape, else echoes the instruction.
pub open spec fn spec_build_branch_dsl(prompt: Seq<char>) -> Seq<char> {
    let p = spec_replace_word(spec_strip_wrapping(prompt), "otherwise"@, "else"@, 0);
    let (head, els) = spec_split_else(p);
    let parsed: Option<Seq<(Seq<char>, Seq<char>)>> = if spec_word_at(head, "if"@, 0) && 2
        < head.len() && spec_is_ws(head[2]) {
        let rest = spec_trim(head.subrange(2, head.len() as int));
        spec_branch_parts(rest)
    } else {
        None
    };
    match parsed {
        Some(parts) => {
            let body = spec_branch_lines(parts, true);
            match els {
                Some(m) => body + "\nelse:\n    neuro \""@ + m + "\""@,
                None => body,
            }
        },
        None => match spec_branch_simple(p) {
            Some(d) => d,
            None => "neuro \""@ + spec_trim(p) + "\""@,
        },
    }
}

pub fn build_branch_dsl(prompt: &str) -> (r: String)
    ensures
        r@ == spec_build_branch_dsl(prompt@),
{
    proof {
        reveal_strlit("if");
        reveal_strlit("\"");
    }
    let v = chars_of(prompt);
    let p0 = strip_wrapping_chars(v);
    let p = replace_word(&p0, "otherwise", "else");
    let (head, els) = split_else(&p);
    let ifw = chars_of("if");
    let parsed: Option<Vec<(String, String)>> = if word_at(&head, &ifw, 0) && 2 < head.len()
        && is_ws(head[2]) {
        let restr = subvec(&head, 2, head.len());
        let rest = trim(&restr);
        branch_parts(&rest)
    } else {
        None
    };
    match parsed {
        Some(parts) => {
            let mut out: Vec<char> = Vec::new();
            branch_lines(&parts, 0, true, &mut out);
            proof {
                assert(pairs_view(parts@).subrange(0, parts@.len() as int) =~= pairs_view(
                    parts@,
                ));
            }
            match els {
                Some(m) => {
                    extend_str(&mut out, "\nelse:\n    neuro \"");
                    let mv = chars_of(m.as_str());
                    extend(&mut out, &mv);
                    out.push('"');
                    proof {
                        assert(out@ =~= spec_branch_lines(pairs_view(parts@), true)
                            + "\nelse:\n    neuro \""@ + m@ + "\""@);
                    }
                    string_of(&out)
                },
                None => string_of(&out),
            }
        },
        None => match branch_simple(&p) {
            Some(d) => d,
            None => {
                let mut out = chars_of("neuro \"");
                let tp = trim(&p);
                extend(&mut out, &tp);
                out.push('"');
                proof {
                    assert(out@ =~= "neuro \""@ + spec_trim(p@) + "\""@);
                }
                string_of(&out)
            },
        },
    }
}


// ---------------------------------------------------------------------------
// assignment, arithmetic and concatenation templates
// ---------------------------------------------------------------------------

/// Comment-writing vocabulary.
pub open spec fn spec_is_comment_instr(p: Seq<char>) -> bool {
    spec_contains_ci(p, "write a comment"@) || spec_contains_ci(p, "add comment"@)
        || spec_contains_ci(p, "insert comment"@) || spec_contains_ci(p, "comment that says"@)
        || spec_contains_ci(p, "comment says"@) || spec_contains_ci(p, "using //"@)
        || spec_contains_ci(p, "using #"@)
}

fn is_comment_instr(p: &Vec<char>) -> (r: bool)
    ensures
        r == spec_is_comment_instr(p@),
{
    crate::text::contains_lit(p, "write a comment") || crate::text::contains_lit(p, "add comment")
        || crate::text::contains_lit(p, "insert comment") || crate::text::contains_lit(
        p,
        "comment that says",
    ) || crate::text::contains_lit(p, "comment says") || crate::text::contains_lit(p, "using //")
        || crate::text::contains_lit(p, "using #")
}

/// Assignment vocabulary anywhere in the instruction.
pub open spec fn spec_has_assignment(p: Seq<char>) -> bool {
    spec_contains_ci(p, "set "@) || spec_contains_ci(p, "create "@) || spec_contains_ci(
        p,
        "store "@,
    )
}

fn has_assignment(p: &Vec<char>) -> (r: bool)
    ensures
        r == spec_has_assignment(p@),
{
    crate::text::contains_lit(p, "set ") || crate::text::contains_lit(p, "create ")
        || crate::text::contains_lit(p, "store ")
}

/// The assignment template: `set NAME = RHS`, an optional print of the
/// requested tail through a scratch variable.
pub open spec fn spec_setvar_lines(p: Seq<char>, var: Seq<char>, ex: Seq<char>, dp: bool) -> Seq<
    char,
> {
    let rhs = spec_normalize_expr(ex);
    let first = "set "@ + var + " = "@ + rhs;
    if dp {
        let pe = match spec_find_print_tail(p, var) {
            Some(t) => t,
            None => var,
        };
        first + "\nset tmpPrint = "@ + pe + "\nneuro tmpPrint"@
    } else {
        first
    }
}

fn setvar_lines(p: &Vec<char>, var: &String, ex: &String, dp: bool) -> (r: Vec<char>)
    ensures
        r@ == spec_setvar_lines(p@, var@, ex@, dp),
{
    let rhs = normalize_expr(ex.as_str());
    let mut out = chars_of("set ");
    let vv = chars_of(var.as_str());
    extend(&mut out, &vv);
    extend_str(&mut out, " = ");
    let rv = chars_of(rhs.as_str());
    extend(&mut out, &rv);
    proof {
        assert(out@ =~= "set "@ + var@ + " = "@ + spec_normalize_expr(ex@));
    }
    if dp {
        let ps = string_of(p);
        let pe = match find_print_tail(ps.as_str(), var.as_str()) {
            Some(t) => t,
            None => var.clone(),
        };
        extend_str(&mut out, "\nset tmpPrint = ");
        let pv = chars_of(pe.as_str());
        extend(&mut out, &pv);
        extend_str(&mut out, "\nneuro tmpPrint");
        proof {
            assert(out@ =~= spec_setvar_lines(p@, var@, ex@, dp));
        }
    }
    out
}

/// The `set` template.
pub open spec fn spec_build_setvar_dsl(prompt: Seq<char>) -> Seq<char> {
    let p = spec_strip_wrapping(prompt);
    if spec_contains_ci(p, "main starts here using //"@) {
        "neuro \"// main starts here\""@
    } else if spec_is_comment_instr(p) && !spec_has_assignment(p) {
        if spec_contains_ci(p, "main starts here"@) {
            "// main starts here"@
        } else {
            spec_build_doc_print_dsl(p)
        }
    } else {
        match spec_parse_var_expr(p) {
            Some((var, ex, dp)) => spec_swap_quotes(spec_setvar_lines(p, var, ex, dp), 0),
            None => spec_neuro_line(spec_trim(p)),
        }
    }
}

pub fn build_setvar_dsl(prompt: &str) -> (r: String)
    ensures
        r@ == spec_build_setvar_dsl(prompt@),
{
    let v = chars_of(prompt);
    let p = strip_wrapping_chars(v);
    if crate::text::contains_lit(&p, "main starts here using //") {
        let out = chars_of("neuro \"// main starts here\"");
        return string_of(&out);
    }
    if is_comment_instr(&p) && !has_assignment(&p) {
        if crate::text::contains_lit(&p, "main starts here") {
            let out = chars_of("// main starts here");
            return string_of(&out);
        }
        let ps = string_of(&p);
        return build_doc_print_dsl(ps.as_str());
    }
    let ps = string_of(&p);
    match parse_var_expr(ps.as_str()) {
        Some((var, ex, dp)) => {
            let lines = setvar_lines(&p, &var, &ex, dp);
            let sw = swap_quotes(&lines);
            string_of(&sw)
        },
        None => {
            let t = trim(&p);
            let ts = string_of(&t);
            neuro_line(ts.as_str())
        },
    }
}

/// `subtract A from B`, an optional `divide by N`, `store in R`.
pub open spec fn spec_subtract_shape(p: Seq<char>) -> Option<(Seq<char>, Seq<char>, Seq<char>, Seq<char>)> {
    match spec_find_word_from(p, "subtract"@, 0) {
        Some(si) => if si + 8 < p.len() && spec_is_ws(p[si + 8]) {
            let k = spec_skip_ws(p, si + 8);
            if 0 <= k < p.len() && spec_ident_start(p[k]) {
                let e = spec_word_end_at(p, k as nat);
                let a = p.subrange(k, e as int);
                let k2 = spec_skip_ws(p, e as int);
                if 0 <= k2 < p.len() && spec_word_at(p, "from"@, k2) && k2 + 4 < p.len()
                    && spec_is_ws(p[k2 + 4]) {
                    let k3 = spec_skip_ws(p, k2 + 4);
                    if 0 <= k3 < p.len() && spec_ident_start(p[k3]) {
                        let e2 = spec_word_end_at(p, k3 as nat);
                        let b = p.subrange(k3, e2 as int);
                        let d = spec_divide_by(p);
                        let t = spec_store_target(p);
                        Some((a, b, d, t))
                    } else {
                        None
                    }
                } else {
                    None
                }
            } else {
                None
            }
        } else {
            None
        },
        None => None,
    }
}

/// The digits after `divide by`, else the digit one.
pub open spec fn spec_divide_by(p: Seq<char>) -> Seq<char> {
    match spec_find_ci_from(p, "divide by"@, 0) {
        Some(di) => {
            let k = spec_skip_ws(p, di + 9);
            if 0 <= k < p.len() && spec_is_digit(p[k]) {
                let e = spec_digits_end_at(p, k as nat);
                p.subrange(k, e as int)
            } else {
                "1"@
            }
        },
        None => "1"@,
    }
}

/// The name after `store in`, else the word `result`.
pub open spec fn spec_store_target(p: Seq<char>) -> Seq<char> {
    match spec_find_ci_from(p, "store in"@, 0) {
        Some(ti) => {
            let k = spec_skip_ws(p, ti + 8);
            if 0 <= k < p.len() && spec_ident_start(p[k]) {
                let e = spec_word_end_at(p, k as nat);
                p.subrange(k, e as int)
            } else {
                "result"@
            }
        },
        None => "result"@,
    }
}

fn divide_by(p: &Vec<char>) -> (r: String)
    ensures
        r@ == spec_divide_by(p@),
{
    proof {
        reveal_strlit("divide by");
        reveal_strlit("1");
    }
    let pl = p.len();
    let n = chars_of("divide by");
    match find_ci_from(p, &n, 0) {
        Some(di) => {
            let k = skip_ws(p, di + 9);
            if k < pl && is_digit(p[k]) {
                let e = digits_end_at(p, k);
                string_of(&subvec(p, k, e))
            } else {
                let one = chars_of("1");
                string_of(&one)
            }
        },
        None => {
            let one = chars_of("1");
            string_of(&one)
        },
    }
}

fn store_target(p: &Vec<char>) -> (r: String)
    ensures
        r@ == spec_store_target(p@),
{
    proof {
        reveal_strlit("store in");
        reveal_strlit("result");
    }
    let pl = p.len();
    let n = chars_of("store in");
    match find_ci_from(p, &n, 0) {
        Some(ti) => {
            let k = skip_ws(p, ti + 8);
            if k < pl && (is_alpha(p[k]) || p[k] == '_') {
                let e = word_end_at(p, k);
                string_of(&subvec(p, k, e))
            } else {
                let d = chars_of("result");
                string_of(&d)
            }
        },
        None => {
            let d = chars_of("result");
            string_of(&d)
        },
    }
}

fn subtract_shape(p: &Vec<char>) -> (r: Option<(String, String, String, String)>)
    ensures
        match r {
            Some((a, b, d, t)) => spec_subtract_shape(p@) == Some((a@, b@, d@, t@)),
            None => spec_subtract_shape(p@) is None,
        },
{
    proof {
        reveal_strlit("subtract");
        reveal_strlit("from");
    }
    let pl = p.len();
    let sub = chars_of("subtract");
    match find_word_from(p, &sub, 0) {
        Some(si) => {
            if pl - si > 8 && is_ws(p[si + 8]) {
                let k = skip_ws(p, si + 8);
                if k < pl && (is_alpha(p[k]) || p[k] == '_') {
                    let e = word_end_at(p, k);
                    let a = string_of(&subvec(p, k, e));
                    let k2 = skip_ws(p, e);
                    let fromw = chars_of("from");
                    if k2 < pl && word_at(p, &fromw, k2) && pl - k2 > 4 && is_ws(p[k2 + 4]) {
                        let k3 = skip_ws(p, k2 + 4);
                        if k3 < pl && (is_alpha(p[k3]) || p[k3] == '_') {
                            let e2 = word_end_at(p, k3);
                            let b = string_of(&subvec(p, k3, e2));
                            let d = divide_by(p);
                            let t = store_target(p);
                            return Some((a, b, d, t));
                        }
                    }
                }
            }
            None
        },
        None => None,
    }
}

/// The arithmetic template: the subtract-and-divide shape, else an
/// assignment with a printed result, else the assignment template.
pub open spec fn spec_build_arith_dsl(prompt: Seq<char>) -> Seq<char> {
    let p = spec_strip_wrapping(prompt);
    if spec_contains_word(p, "subtract"@) && spec_contains_ci(p, "store in"@) {
        match spec_subtract_shape(p) {
            Some((a, b, d, t)) => if d == "1"@ {
                "set "@ + t + " = "@ + b + " - "@ + a
            } else {
                "set "@ + t + " = ("@ + b + " - "@ + a + ") / "@ + d
            },
            None => spec_arith_var(p),
        }
    } else {
        spec_arith_var(p)
    }
}

pub open spec fn spec_arith_var(p: Seq<char>) -> Seq<char> {
    match spec_parse_var_expr(p) {
        Some((var, ex, dp)) => spec_setvar_lines(p, var, ex, dp),
        None => spec_build_setvar_dsl(p),
    }
}

pub fn build_arith_dsl(prompt: &str) -> (r: String)
    ensures
        r@ == spec_build_arith_dsl(prompt@),
{
    proof {
        reveal_strlit("1");
    }
    let v = chars_of(prompt);
    let p = strip_wrapping_chars(v);
    if contains_word(&p, "subtract") && crate::text::contains_lit(&p, "store in") {
        match subtract_shape(&p) {
            Some((a, b, d, t)) => {
                let one = chars_of("1");
                let dv = chars_of(d.as_str());
                let av = chars_of(a.as_str());
                let bv = chars_of(b.as_str());
                let tv = chars_of(t.as_str());
                if crate::text::chars_eq(&dv, &one) {
                    let mut out = chars_of("set ");
                    extend(&mut out, &tv);
                    extend_str(&mut out, " = ");
                    extend(&mut out, &bv);
                    extend_str(&mut out, " - ");
                    extend(&mut out, &av);
                    proof {
                        assert(out@ =~= "set "@ + t@ + " = "@ + b@ + " - "@ + a@);
                    }
                    return string_of(&out);
                }
                let mut out = chars_of("set ");
                extend(&mut out, &tv);
                extend_str(&mut out, " = (");
                extend(&mut out, &bv);
                extend_str(&mut out, " - ");
                extend(&mut out, &av);
                extend_str(&mut out, ") / ");
                extend(&mut out, &dv);
                proof {
                    assert(out@ =~= "set "@ + t@ + " = ("@ + b@ + " - "@ + a@ + ") / "@ + d@);
                }
                return string_of(&out);
            },
            None => {
                return arith_var(&p);
            },
        }
    }
    arith_var(&p)
}

fn arith_var(p: &Vec<char>) -> (r: String)
    ensures
        r@ == spec_arith_var(p@),
{
    let ps = string_of(p);
    match parse_var_expr(ps.as_str()) {
        Some((var, ex, dp)) => {
            let lines = setvar_lines(p, &var, &ex, dp);
            string_of(&lines)
        },
        None => build_setvar_dsl(ps.as_str()),
    }
}


// ---------------------------------------------------------------------------
// printing and comment templates
// ---------------------------------------------------------------------------

/// `say the number N` gives the number itself.
pub open spec fn spec_say_number(p: Seq<char>) -> Option<Seq<char>> {
    if spec_word_at(p, "say"@, 0) && 3 < p.len() && spec_is_ws(p[3]) {
        let k = spec_skip_ws(p, 3);
        if 0 <= k < p.len() && spec_word_at(p, "the"@, k) && k + 3 < p.len() && spec_is_ws(
            p[k + 3],
        ) {
            let k2 = spec_skip_ws(p, k + 3);
            if 0 <= k2 < p.len() && spec_word_at(p, "number"@, k2) && k2 + 6 < p.len()
                && spec_is_ws(p[k2 + 6]) {
                let k3 = spec_skip_ws(p, k2 + 6);
                if 0 <= k3 < p.len() && spec_is_digit(p[k3]) {
                    let e = spec_digits_end_at(p, k3 as nat);
                    Some(p.subrange(k3, e as int))
                } else {
                    None
                }
            } else {
                None
            }
        } else {
            None
        }
    } else {
        None
    }
}

fn say_number(p: &Vec<char>) -> (r: Option<String>)
    ensures
        match r {
            Some(n) => spec_say_number(p@) == Some(n@),
            None => spec_say_number(p@) is None,
        },
{
    proof {
        reveal_strlit("say");
        reveal_strlit("the");
        reveal_strlit("number");
    }
    let pl = p.len();
    let say = chars_of("say");
    if !(word_at(p, &say, 0) && 3 < pl && is_ws(p[3])) {
        return None;
    }
    let k = skip_ws(p, 3);
    let the = chars_of("the");
    if !(k < pl && word_at(p, &the, k) && pl - k > 3 && is_ws(p[k + 3])) {
        return None;
    }
    let k2 = skip_ws(p, k + 3);
    let num = chars_of("number");
    if !(k2 < pl && word_at(p, &num, k2) && pl - k2 > 6 && is_ws(p[k2 + 6])) {
        return None;
    }
    let k3 = skip_ws(p, k2 + 6);
    if !(k3 < pl && is_digit(p[k3])) {
        return None;
    }
    let e = digits_end_at(p, k3);
    Some(string_of(&subvec(p, k3, e)))
}

/// `value of NAME` gives the variable itself.
pub open spec fn spec_value_of(p: Seq<char>) -> Option<Seq<char>> {
    match spec_find_word_from(p, "value"@, 0) {
        Some(vi) => if vi + 5 < p.len() && spec_is_ws(p[vi + 5]) {
            let k = spec_skip_ws(p, vi + 5);
            if 0 <= k < p.len() && spec_word_at(p, "of"@, k) && k + 2 < p.len() && spec_is_ws(
                p[k + 2],
            ) {
                let k2 = spec_skip_ws(p, k + 2);
                if 0 <= k2 < p.len() && spec_ident_start(p[k2]) {
                    let e = spec_word_end_at(p, k2 as nat);
                    Some(p.subrange(k2, e as int))
                } else {
                    None
                }
            } else {
                None
            }
        } else {
            None
        },
        None => None,
    }
}

fn value_of(p: &Vec<char>) -> (r: Option<String>)
    ensures
        match r {
            Some(n) => spec_value_of(p@) == Some(n@),
            None => spec_value_of(p@) is None,
        },
{
    proof {
        reveal_strlit("value");
        reveal_strlit("of");
    }
    let pl = p.len();
    let value = chars_of("value");
    match find_word_from(p, &value, 0) {
        Some(vi) => {
            if pl - vi > 5 && is_ws(p[vi + 5]) {
                let k = skip_ws(p, vi + 5);
                let of = chars_of("of");
                if k < pl && word_at(p, &of, k) && pl - k > 2 && is_ws(p[k + 2]) {
                    let k2 = skip_ws(p, k + 2);
                    if k2 < pl && (is_alpha(p[k2]) || p[k2] == '_') {
                        let e = word_end_at(p, k2);
                        return Some(string_of(&subvec(p, k2, e)));
                    }
                }
            }
            None
        },
        None => None,
    }
}

/// The comment text an instruction dictates: its first quoted span, else
/// everything after the word `comment` (a `that says` marker skipped), a
/// `using` tail cut, leading comment markers dropped.
pub open spec fn spec_comment_text(p: Seq<char>) -> Option<Seq<char>> {
    let raw = match spec_first_quoted(p) {
        Some(q) => Some(q),
        None => match spec_find_word_from(p, "comment"@, 0) {
            Some(ci) => if ci + 7 < p.len() && spec_is_ws(p[ci + 7]) {
                let k = spec_skip_ws(p, ci + 7);
                if 0 <= k <= p.len() {
                    Some(p.subrange(k, p.len() as int))
                } else {
                    None
                }
            } else {
                None
            },
            None => None,
        },
    };
    match raw {
        Some(r0) => {
            let r1 = spec_strip_lead(spec_strip_lead(spec_strip_wrapping(r0), "that"@), "says"@);
            let r2 = match spec_find_ci_from(r1, "using //"@, 0) {
                Some(ui) => if 0 <= ui <= r1.len() {
                    r1.subrange(0, ui)
                } else {
                    r1
                },
                None => r1,
            };
            let r3 = match spec_find_ci_from(r2, "using #"@, 0) {
                Some(ui) => if 0 <= ui <= r2.len() {
                    r2.subrange(0, ui)
                } else {
                    r2
                },
                None => r2,
            };
            let r4 = spec_trim(r3);
            let r5 = if r4.len() >= 2 && r4[0] == '/' && r4[1] == '/' {
                spec_trim(r4.subrange(2, r4.len() as int))
            } else if r4.len() >= 1 && r4[0] == '#' {
                spec_trim(r4.subrange(1, r4.len() as int))
            } else {
                r4
            };
            if r5.len() > 0 {
                Some(r5)
            } else {
                None
            }
        },
        None => None,
    }
}

fn comment_text(p: &Vec<char>) -> (r: Option<String>)
    ensures
        match r {
            Some(t) => spec_comment_text(p@) == Some(t@),
            None => spec_comment_text(p@) is None,
        },
{
    proof {
        reveal_strlit("comment");
        reveal_strlit("using //");
        reveal_strlit("using #");
    }
    let pl = p.len();
    let raw: Option<Vec<char>> = match first_quoted_at(p, 0) {
        Some((a, b)) => Some(subvec(p, a, b)),
        None => {
            let cw = chars_of("comment");
            match find_word_from(p, &cw, 0) {
                Some(ci) => {
                    if pl - ci > 7 && is_ws(p[ci + 7]) {
                        let k = skip_ws(p, ci + 7);
                        Some(subvec(p, k, pl))
                    } else {
                        None
                    }
                },
                None => None,
            }
        },
    };
    match raw {
        Some(r0) => {
            let s0 = strip_wrapping_chars(r0);
            let s1 = strip_lead(&s0, "that");
            let r1 = strip_lead(&s1, "says");
            let u1 = chars_of("using //");
            let r2 = match find_ci_from(&r1, &u1, 0) {
                Some(ui) => subvec(&r1, 0, ui),
                None => {
                    let c = subvec(&r1, 0, r1.len());
                    proof {
                        assert(c@ =~= r1@);
                    }
                    c
                },
            };
            let u2 = chars_of("using #");
            let r3 = match find_ci_from(&r2, &u2, 0) {
                Some(ui) => subvec(&r2, 0, ui),
                None => {
                    let c = subvec(&r2, 0, r2.len());
                    proof {
                        assert(c@ =~= r2@);
                    }
                    c
                },
            };
            let r4 = trim(&r3);
            let r5 = if r4.len() >= 2 && r4[0] == '/' && r4[1] == '/' {
                let t = subvec(&r4, 2, r4.len());
                trim(&t)
            } else if r4.len() >= 1 && r4[0] == '#' {
                let t = subvec(&r4, 1, r4.len());
                trim(&t)
            } else {
                r4
            };
            if r5.len() > 0 {
                Some(string_of(&r5))
            } else {
                None
            }
        },
        None => None,
    }
}

/// The first trailing print request and its message.
pub open spec fn spec_doc_print_msg(p: Seq<char>) -> Option<Seq<char>> {
    match spec_doc_print_verb(p, 0) {
        Some((vi, l)) => if 0 <= vi && vi + l <= p.len() {
            let m = spec_sanitize(p.subrange(vi + l, p.len() as int));
            if m.len() > 0 {
                Some(m)
            } else {
                None
            }
        } else {
            None
        },
        None => None,
    }
}

pub open spec fn spec_doc_print_verb(p: Seq<char>, i: nat) -> Option<(int, int)>
    decreases p.len() - i,
{
    if i >= p.len() {
        None
    } else if spec_word_at(p, "print"@, i as int) {
        Some((i as int, 5))
    } else if spec_word_at(p, "say"@, i as int) {
        Some((i as int, 3))
    } else if spec_word_at(p, "output"@, i as int) {
        Some((i as int, 6))
    } else if spec_word_at(p, "echo"@, i as int) {
        Some((i as int, 4))
    } else {
        spec_doc_print_verb(p, i + 1)
    }
}

fn doc_print_verb(p: &Vec<char>, i: usize) -> (r: Option<(usize, usize)>)
    requires
        i <= p@.len(),
    ensures
        match r {
            Some((v, l)) => spec_doc_print_verb(p@, i as nat) == Some((v as int, l as int)) && v
                + l <= p@.len(),
            None => spec_doc_print_verb(p@, i as nat) is None,
        },
    decreases p@.len() - i,
{
    proof {
        reveal_strlit("print");
        reveal_strlit("say");
        reveal_strlit("output");
        reveal_strlit("echo");
    }
    if i >= p.len() {
        return None;
    }
    let pr = chars_of("print");
    let say = chars_of("say");
    let out = chars_of("output");
    let ec = chars_of("echo");
    if word_at(p, &pr, i) {
        Some((i, 5))
    } else if word_at(p, &say, i) {
        Some((i, 3))
    } else if word_at(p, &out, i) {
        Some((i, 6))
    } else if word_at(p, &ec, i) {
        Some((i, 4))
    } else {
        doc_print_verb(p, i + 1)
    }
}

fn doc_print_msg(p: &Vec<char>) -> (r: Option<String>)
    ensures
        match r {
            Some(m) => spec_doc_print_msg(p@) == Some(m@),
            None => spec_doc_print_msg(p@) is None,
        },
{
    let pl = p.len();
    match doc_print_verb(p, 0) {
        Some((vi, l)) => {
            let rest = subvec(p, vi + l, pl);
            let rs = string_of(&rest);
            let m = sanitize_text(rs.as_str());
            if m.as_str().unicode_len() > 0 {
                Some(m)
            } else {
                None
            }
        },
        None => None,
    }
}

/// Sentence-ending punctuation a formatting instruction may trail with.
pub open spec fn spec_skip_punct(p: Seq<char>, i: int) -> int
    decreases p.len() - i,
{
    if 0 <= i < p.len() && (p[i] == '.' || p[i] == '!' || p[i] == '?' || p[i] == '\u{2026}') {
        spec_skip_punct(p, i + 1)
    } else {
        i
    }
}

fn skip_punct(p: &Vec<char>, i: usize) -> (r: usize)
    requires
        i <= p@.len(),
    ensures
        r == spec_skip_punct(p@, i as int),
        i <= r <= p@.len(),
    decreases p@.len() - i,
{
    if i < p.len() && (p[i] == '.' || p[i] == '!' || p[i] == '?' || p[i] == '\u{2026}') {
        skip_punct(p, i + 1)
    } else {
        i
    }
}

/// Whether `with a comma` stands at `i`, spaces between its words, with
/// only spaces and sentence punctuation after it.
pub open spec fn spec_fmt_with_ok(p: Seq<char>, i: int) -> bool {
    0 < i && i + 4 < p.len() && spec_is_ws(p[i - 1]) && spec_match_ci_at(p, "with"@, i)
        && spec_is_ws(p[i + 4]) && {
        let k = spec_skip_ws(p, i + 4);
        k < p.len() && spec_match_ci_at(p, "a"@, k) && k + 1 < p.len() && spec_is_ws(p[k + 1])
            && {
            let k2 = spec_skip_ws(p, k + 1);
            k2 + 5 <= p.len() && spec_match_ci_at(p, "comma"@, k2) && {
                let a = spec_skip_ws(p, k2 + 5);
                let b = spec_skip_punct(p, a);
                spec_skip_ws(p, b) == p.len()
            }
        }
    }
}

/// Everything the whitespace skip passed over is whitespace.
proof fn lemma_skipped_is_ws(s: Seq<char>, i: int, j: int)
    requires
        0 <= i <= j < spec_skip_ws(s, i),
    ensures
        spec_is_ws(s[j]),
    decreases j - i,
{
    if i < j {
        lemma_skipped_is_ws(s, i + 1, j);
    }
}

/// The earliest complete `with a comma` tail from `i` on.
pub open spec fn spec_fmt_with_at(p: Seq<char>, i: nat) -> Option<int>
    decreases p.len() - i,
{
    if i >= p.len() {
        None
    } else if spec_fmt_with_ok(p, i as int) {
        Some(i as int)
    } else {
        spec_fmt_with_at(p, i + 1)
    }
}

/// The earliest space-bounded `and` from `i` on that a complete
/// `with a comma` tail follows.
pub open spec fn spec_fmt_and_at(p: Seq<char>, i: nat) -> Option<(int, int)>
    decreases p.len() - i,
{
    if i >= p.len() {
        None
    } else if i >= 1 && i + 3 < p.len() && spec_is_ws(p[i - 1]) && spec_match_ci_at(
        p,
        "and"@,
        i as int,
    ) && spec_is_ws(p[i as int + 3]) && spec_fmt_with_at(p, (i + 4) as nat) is Some {
        match spec_fmt_with_at(p, (i + 4) as nat) {
            Some(w) => Some((i as int, w)),
            None => None,
        }
    } else {
        spec_fmt_and_at(p, i + 1)
    }
}

/// The formatting shape: `format A and B with a comma`, both parts
/// sanitized and non-empty.
pub open spec fn spec_format_comma(p: Seq<char>) -> Option<(Seq<char>, Seq<char>)> {
    if spec_match_ci_at(p, "format"@, 0) && 6 < p.len() && p[6] == ' ' {
        let s0 = spec_skip_ws(p, 6);
        match spec_fmt_and_at(p, (s0 + 1) as nat) {
            Some((ai, wi)) => {
                let a = spec_sanitize(p.subrange(s0, ai));
                let b = spec_sanitize(p.subrange(spec_skip_ws(p, ai + 3), wi));
                if a.len() > 0 && b.len() > 0 {
                    Some((a, b))
                } else {
                    None
                }
            },
            None => None,
        }
    } else {
        None
    }
}

fn fmt_with_ok(p: &Vec<char>, i: usize) -> (r: bool)
    requires
        i <= p@.len(),
    ensures
        r == spec_fmt_with_ok(p@, i as int),
{
    proof {
        reveal_strlit("with");
        reveal_strlit("a");
        reveal_strlit("comma");
    }
    let pl = p.len();
    let withw = chars_of("with");
    if !(0 < i && pl - i > 4 && is_ws(p[i - 1]) && match_ci_at(p, &withw, i) && is_ws(
        p[i + 4],
    )) {
        return false;
    }
    let k = skip_ws(p, i + 4);
    let aw = chars_of("a");
    if !(k < pl && match_ci_at(p, &aw, k) && pl - k > 1 && is_ws(p[k + 1])) {
        return false;
    }
    let k2 = skip_ws(p, k + 1);
    let commaw = chars_of("comma");
    if !(pl - k2 >= 5 && match_ci_at(p, &commaw, k2)) {
        return false;
    }
    let a = skip_ws(p, k2 + 5);
    let b = skip_punct(p, a);
    skip_ws(p, b) == pl
}

fn fmt_with_at(p: &Vec<char>, i0: usize) -> (r: Option<usize>)
    requires
        i0 <= p@.len(),
    ensures
        match r {
            Some(w) => spec_fmt_with_at(p@, i0 as nat) == Some(w as int) && i0 <= w <= p@.len()
                && spec_fmt_with_ok(p@, w as int),
            None => spec_fmt_with_at(p@, i0 as nat) is None,
        },
{
    let mut i: usize = i0;
    while i < p.len()
        invariant
            i0 <= i <= p@.len(),
            spec_fmt_with_at(p@, i0 as nat) == spec_fmt_with_at(p@, i as nat),
        decreases p@.len() - i,
    {
        if fmt_with_ok(p, i) {
            return Some(i);
        }
        i = i + 1;
    }
    None
}

fn fmt_and_at(p: &Vec<char>, i0: usize) -> (r: Option<(usize, usize)>)
    requires
        i0 <= p@.len(),
    ensures
        match r {
            Some((a, w)) => spec_fmt_and_at(p@, i0 as nat) == Some((a as int, w as int)) && i0
                <= a && a + 4 <= w <= p@.len() && spec_fmt_with_ok(p@, w as int),
            None => spec_fmt_and_at(p@, i0 as nat) is None,
        },
{
    proof {
        reveal_strlit("and");
    }
    let andw = chars_of("and");
    let mut i: usize = i0;
    while i < p.len()
        invariant
            i0 <= i <= p@.len(),
            andw@ == "and"@,
            spec_fmt_and_at(p@, i0 as nat) == spec_fmt_and_at(p@, i as nat),
        decreases p@.len() - i,
    {
        if i >= 1 && p.len() - i > 3 && is_ws(p[i - 1]) && match_ci_at(p, &andw, i) && is_ws(
            p[i + 3],
        ) {
            match fmt_with_at(p, i + 4) {
                Some(w) => {
                    return Some((i, w));
                },
                None => {},
            }
        }
        i = i + 1;
    }
    None
}

fn format_comma(p: &Vec<char>) -> (r: Option<(String, String)>)
    ensures
        match r {
            Some((a, b)) => spec_format_comma(p@) == Some((a@, b@)),
            None => spec_format_comma(p@) is None,
        },
{
    proof {
        reveal_strlit("format");
    }
    proof {
        reveal_strlit("with");
    }
    let formatw = chars_of("format");
    if !(match_ci_at(p, &formatw, 0) && 6 < p.len() && p[6] == ' ') {
        return None;
    }
    let s0 = skip_ws(p, 6);
    if s0 >= p.len() {
        proof {
            assert(spec_fmt_and_at(p@, (s0 + 1) as nat) is None);
        }
        return None;
    }
    match fmt_and_at(p, s0 + 1) {
        Some((ai, wi)) => {
            let av = subvec(p, s0, ai);
            let avs = string_of(&av);
            let a = sanitize_text(avs.as_str());
            let bs = skip_ws(p, ai + 3);
            proof {
                if bs > wi {
                    lemma_skipped_is_ws(p@, ai + 3, wi as int);
                    assert(crate::text::spec_eq_ci(p@[wi as int], "with"@[0]));
                    assert(false);
                }
            }
            let bv = subvec(p, bs, wi);
            let bvs = string_of(&bv);
            let b = sanitize_text(bvs.as_str());
            if a.as_str().unicode_len() > 0 && b.as_str().unicode_len() > 0 {
                Some((a, b))
            } else {
                None
            }
        },
        None => None,
    }
}

/// The `the NAME value` shape, anywhere in the instruction.
pub open spec fn spec_var_value_at(p: Seq<char>, i: nat) -> Option<Seq<char>>
    decreases p.len() - i,
{
    if i >= p.len() {
        None
    } else if spec_word_at(p, "the"@, i as int) && i + 3 < p.len() && spec_is_ws(
        p[i as int + 3],
    ) && ({
        let k = spec_skip_ws(p, (i + 3) as int);
        0 <= k < p.len() && spec_ident_start(p[k]) && ({
            let e = spec_word_end_at(p, k as nat);
            e < p.len() && spec_is_ws(p[e as int]) && spec_word_at(
                p,
                "value"@,
                spec_skip_ws(p, e as int),
            )
        })
    }) {
        let k = spec_skip_ws(p, (i + 3) as int);
        Some(p.subrange(k, spec_word_end_at(p, k as nat) as int))
    } else {
        spec_var_value_at(p, i + 1)
    }
}

fn var_value_at(p: &Vec<char>, i0: usize) -> (r: Option<String>)
    requires
        i0 <= p@.len(),
    ensures
        match r {
            Some(v) => spec_var_value_at(p@, i0 as nat) == Some(v@),
            None => spec_var_value_at(p@, i0 as nat) is None,
        },
{
    proof {
        reveal_strlit("the");
        reveal_strlit("value");
    }
    let thew = chars_of("the");
    let valuew = chars_of("value");
    let mut i: usize = i0;
    while i < p.len()
        invariant
            i0 <= i <= p@.len(),
            thew@ == "the"@,
            valuew@ == "value"@,
            spec_var_value_at(p@, i0 as nat) == spec_var_value_at(p@, i as nat),
        decreases p@.len() - i,
    {
        if word_at(p, &thew, i) && p.len() - i > 3 && is_ws(p[i + 3]) {
            let k = skip_ws(p, i + 3);
            if k < p.len() && (is_alpha(p[k]) || p[k] == '_') {
                let e = word_end_at(p, k);
                if e < p.len() && is_ws(p[e]) {
                    let k2 = skip_ws(p, e);
                    if word_at(p, &valuew, k2) {
                        return Some(string_of(&subvec(p, k, e)));
                    }
                }
            }
        }
        i = i + 1;
    }
    None
}

/// The `display NAME` / `show NAME` shape, the whole instruction.
pub open spec fn spec_display_var(p: Seq<char>) -> Option<Seq<char>> {
    let vl: int = if spec_match_ci_at(p, "display"@, 0) {
        7
    } else if spec_match_ci_at(p, "show"@, 0) {
        4
    } else {
        0
    };
    if vl > 0 && vl < p.len() && spec_is_ws(p[vl]) {
        let k = spec_skip_ws(p, vl);
        if 0 <= k < p.len() && spec_ident_start(p[k]) {
            let e = spec_word_end_at(p, k as nat);
            if spec_skip_ws(p, e as int) == p.len() {
                Some(p.subrange(k, e as int))
            } else {
                None
            }
        } else {
            None
        }
    } else {
        None
    }
}

fn display_var(p: &Vec<char>) -> (r: Option<String>)
    ensures
        match r {
            Some(v) => spec_display_var(p@) == Some(v@),
            None => spec_display_var(p@) is None,
        },
{
    proof {
        reveal_strlit("display");
        reveal_strlit("show");
    }
    let pl = p.len();
    let displayw = chars_of("display");
    let showw = chars_of("show");
    let vl: usize = if match_ci_at(p, &displayw, 0) {
        7
    } else if match_ci_at(p, &showw, 0) {
        4
    } else {
        0
    };
    if !(vl > 0 && vl < pl && is_ws(p[vl])) {
        return None;
    }
    let k = skip_ws(p, vl);
    if !(k < pl && (is_alpha(p[k]) || p[k] == '_')) {
        return None;
    }
    let e = word_end_at(p, k);
    if skip_ws(p, e) != pl {
        return None;
    }
    Some(string_of(&subvec(p, k, e)))
}

/// The printing and comment template.
pub open spec fn spec_build_doc_print_dsl(prompt: Seq<char>) -> Seq<char> {
    let p = spec_strip_wrapping(prompt);
    match spec_format_comma(p) {
        Some((fa, fb)) => "neuro \""@ + fa + ", "@ + fb + "\""@,
        None => spec_doc_print_rest(p),
    }
}

pub open spec fn spec_doc_print_rest(p: Seq<char>) -> Seq<char> {
    match spec_say_number(p) {
        Some(n) => "neuro \""@ + n + "\""@,
        None => match spec_value_of(p) {
            Some(v) => "neuro "@ + v,
            None => match spec_var_value_at(p, 0) {
                Some(v) => "neuro "@ + v,
                None => match spec_display_var(p) {
                    Some(v) => "neuro "@ + v,
                    None => spec_doc_print_comment(p),
                },
            },
        },
    }
}

pub open spec fn spec_doc_print_comment(p: Seq<char>) -> Seq<char> {
    let cline: Option<Seq<char>> = if spec_is_comment_instr(p) {
        match spec_comment_text(p) {
            Some(t) => Some("// "@ + t),
            None => None,
        }
    } else if spec_contains_ci(p, "main starts here"@) {
        Some("// main starts here"@)
    } else {
        None
    };
    let pline: Option<Seq<char>> = match spec_doc_print_msg(p) {
        Some(m) => if spec_all_alnum_us(m) {
            Some("neuro "@ + m)
        } else {
            Some(spec_neuro_line(m))
        },
        None => None,
    };
    match (cline, pline) {
        (Some(c), Some(q)) => c + seq!['\n'] + q,
        (Some(c), None) => c,
        (None, Some(q)) => q,
        (None, None) => spec_neuro_line(p),
    }
}

pub fn build_doc_print_dsl(prompt: &str) -> (r: String)
    ensures
        r@ == spec_build_doc_print_dsl(prompt@),
{
    proof {
        reveal_strlit("\"");
    }
    let v = chars_of(prompt);
    let p = strip_wrapping_chars(v);
    match format_comma(&p) {
        Some((fa, fb)) => {
            let mut out = chars_of("neuro \"");
            let fav = chars_of(fa.as_str());
            extend(&mut out, &fav);
            extend_str(&mut out, ", ");
            let fbv = chars_of(fb.as_str());
            extend(&mut out, &fbv);
            out.push('"');
            proof {
                reveal_strlit(", ");
                assert(out@ =~= "neuro \""@ + fa@ + ", "@ + fb@ + "\""@);
            }
            return string_of(&out);
        },
        None => {},
    }
    match say_number(&p) {
        Some(n) => {
            let mut out = chars_of("neuro \"");
            let nv = chars_of(n.as_str());
            extend(&mut out, &nv);
            out.push('"');
            proof {
                assert(out@ =~= "neuro \""@ + n@ + "\""@);
            }
            return string_of(&out);
        },
        None => {},
    }
    match value_of(&p) {
        Some(vn) => {
            let mut out = chars_of("neuro ");
            let vv = chars_of(vn.as_str());
            extend(&mut out, &vv);
            proof {
                assert(out@ =~= "neuro "@ + vn@);
            }
            return string_of(&out);
        },
        None => {},
    }
    match var_value_at(&p, 0) {
        Some(vn) => {
            let mut out = chars_of("neuro ");
            let vv = chars_of(vn.as_str());
            extend(&mut out, &vv);
            proof {
                assert(out@ =~= "neuro "@ + vn@);
            }
            return string_of(&out);
        },
        None => {},
    }
    match display_var(&p) {
        Some(vn) => {
            let mut out = chars_of("neuro ");
            let vv = chars_of(vn.as_str());
            extend(&mut out, &vv);
            proof {
                assert(out@ =~= "neuro "@ + vn@);
            }
            return string_of(&out);
        },
        None => {},
    }
    let cline: Option<Vec<char>> = if is_comment_instr(&p) {
        match comment_text(&p) {
            Some(t) => {
                let mut c = chars_of("// ");
                let tv = chars_of(t.as_str());
                extend(&mut c, &tv);
                proof {
                    assert(c@ =~= "// "@ + t@);
                }
                Some(c)
            },
            None => None,
        }
    } else if crate::text::contains_lit(&p, "main starts here") {
        Some(chars_of("// main starts here"))
    } else {
        None
    };
    let pline: Option<Vec<char>> = match doc_print_msg(&p) {
        Some(m) => {
            let mv = chars_of(m.as_str());
            if all_alnum_us(&mv) {
                let mut q = chars_of("neuro ");
                extend(&mut q, &mv);
                proof {
                    assert(q@ =~= "neuro "@ + m@);
                }
                Some(q)
            } else {
                let nl = neuro_line(m.as_str());
                Some(chars_of(nl.as_str()))
            }
        },
        None => None,
    };
    match (cline, pline) {
        (Some(c), Some(q)) => {
            let mut out = subvec(&c, 0, c.len());
            out.push('\n');
            let qs = subvec(&q, 0, q.len());
            extend(&mut out, &qs);
            proof {
                assert(out@ =~= c@ + seq!['\n'] + q@);
            }
            string_of(&out)
        },
        (Some(c), None) => string_of(&c),
        (None, Some(q)) => string_of(&q),
        (None, None) => {
            let ps = string_of(&p);
            neuro_line(ps.as_str())
        },
    }
}


// ---------------------------------------------------------------------------
// concatenation, role and bridge templates
// ---------------------------------------------------------------------------

/// The target name after `into` or `to`, else `result`.
pub open spec fn spec_concat_var(p: Seq<char>) -> Seq<char> {
    let c1 = spec_ident_after(p, "into"@, 4);
    match c1 {
        Some(v) => v,
        None => match spec_ident_after(p, "to"@, 2) {
            Some(v) => v,
            None => "result"@,
        },
    }
}

pub open spec fn spec_ident_after(p: Seq<char>, w: Seq<char>, l: int) -> Option<Seq<char>> {
    match spec_find_word_from(p, w, 0) {
        Some(wi) => if wi + l < p.len() && spec_is_ws(p[wi + l]) {
            let k = spec_skip_ws(p, wi + l);
            if 0 <= k < p.len() && spec_ident_start(p[k]) {
                let e = spec_word_end_at(p, k as nat);
                Some(p.subrange(k, e as int))
            } else {
                None
            }
        } else {
            None
        },
        None => None,
    }
}

fn ident_after(p: &Vec<char>, lit: &str, l: usize) -> (r: Option<String>)
    requires
        lit@.len() == l,
    ensures
        match r {
            Some(v) => spec_ident_after(p@, lit@, l as int) == Some(v@),
            None => spec_ident_after(p@, lit@, l as int) is None,
        },
{
    let w = chars_of(lit);
    let pl = p.len();
    match find_word_from(p, &w, 0) {
        Some(wi) => {
            if pl - wi > l && is_ws(p[wi + l]) {
                let k = skip_ws(p, wi + l);
                if k < pl && (is_alpha(p[k]) || p[k] == '_') {
                    let e = word_end_at(p, k);
                    return Some(string_of(&subvec(p, k, e)));
                }
            }
            None
        },
        None => None,
    }
}

/// The concatenation template: the first two quoted spans joined, with an
/// optional print; a single span assigned alone; no span falls back to the
/// assignment template.
pub open spec fn spec_build_concat_dsl(prompt: Seq<char>) -> Seq<char> {
    let p = spec_strip_wrapping(prompt);
    let var = spec_concat_var(p);
    let q = spec_all_quoted(p, 0);
    if q.len() >= 2 {
        let first = "set "@ + var + " = \""@ + q[0] + "\" + \""@ + q[1] + "\""@;
        if spec_mentions_print(p) {
            first + "\nneuro "@ + var
        } else {
            first
        }
    } else if q.len() == 1 {
        let first = "set "@ + var + " = \""@ + q[0] + "\""@;
        if spec_mentions_print(p) {
            first + "\nneuro "@ + var
        } else {
            first
        }
    } else {
        spec_build_setvar_dsl(p)
    }
}

pub fn build_concat_dsl(prompt: &str) -> (r: String)
    ensures
        r@ == spec_build_concat_dsl(prompt@),
{
    proof {
        reveal_strlit("into");
        reveal_strlit("to");
        reveal_strlit("result");
        reveal_strlit("\"");
    }
    let v = chars_of(prompt);
    let p = strip_wrapping_chars(v);
    let var: String = match ident_after(&p, "into", 4) {
        Some(x) => x,
        None => match ident_after(&p, "to", 2) {
            Some(x) => x,
            None => {
                let d = chars_of("result");
                string_of(&d)
            },
        },
    };
    let ps = string_of(&p);
    let q = all_quoted(ps.as_str());
    proof {
        assert(crate::parser::strs_view(q@) == spec_all_quoted(p@, 0));
    }
    let vv = chars_of(var.as_str());
    if q.len() >= 2 {
        let mut out = chars_of("set ");
        extend(&mut out, &vv);
        extend_str(&mut out, " = \"");
        let q0 = chars_of(q[0].as_str());
        extend(&mut out, &q0);
        extend_str(&mut out, "\" + \"");
        let q1 = chars_of(q[1].as_str());
        extend(&mut out, &q1);
        out.push('"');
        proof {
            assert(q@[0]@ == spec_all_quoted(p@, 0)[0]);
            assert(q@[1]@ == spec_all_quoted(p@, 0)[1]);
            assert(out@ =~= "set "@ + var@ + " = \""@ + spec_all_quoted(p@, 0)[0] + "\" + \""@
                + spec_all_quoted(p@, 0)[1] + "\""@);
        }
        if mentions_print(ps.as_str()) {
            extend_str(&mut out, "\nneuro ");
            extend(&mut out, &vv);
            proof {
                assert(out@ =~= spec_build_concat_dsl(prompt@));
            }
        }
        string_of(&out)
    } else if q.len() == 1 {
        let mut out = chars_of("set ");
        extend(&mut out, &vv);
        extend_str(&mut out, " = \"");
        let q0 = chars_of(q[0].as_str());
        extend(&mut out, &q0);
        out.push('"');
        proof {
            assert(q@[0]@ == spec_all_quoted(p@, 0)[0]);
            assert(out@ =~= "set "@ + var@ + " = \""@ + spec_all_quoted(p@, 0)[0] + "\""@);
        }
        if mentions_print(ps.as_str()) {
            extend_str(&mut out, "\nneuro ");
            extend(&mut out, &vv);
            proof {
                assert(out@ =~= spec_build_concat_dsl(prompt@));
            }
        }
        string_of(&out)
    } else {
        build_setvar_dsl(ps.as_str())
    }
}

/// The role-or-flag template.
pub open spec fn spec_build_roleflag_dsl(prompt: Seq<char>) -> Seq<char> {
    let p = spec_strip_wrapping(prompt);
    let var: Seq<char> = if spec_contains_ci(p, "role"@) {
        "role"@
    } else {
        "flag"@
    };
    let val: Seq<char> = match spec_first_quoted(p) {
        Some(q) => q,
        None => match spec_ident_after(p, "is"@, 2) {
            Some(w) => w,
            None => "true"@,
        },
    };
    let first = "set "@ + var + " = "@ + spec_parse_rhs(val);
    if spec_mentions_print(p) {
        first + "\nneuro "@ + var
    } else {
        first
    }
}

pub fn build_roleflag_dsl(prompt: &str) -> (r: String)
    ensures
        r@ == spec_build_roleflag_dsl(prompt@),
{
    proof {
        reveal_strlit("role");
        reveal_strlit("flag");
        reveal_strlit("is");
        reveal_strlit("true");
    }
    let v = chars_of(prompt);
    let p = strip_wrapping_chars(v);
    let var: Vec<char> = if crate::text::contains_lit(&p, "role") {
        chars_of("role")
    } else {
        chars_of("flag")
    };
    let val: String = match first_quoted_at(&p, 0) {
        Some((a, b)) => string_of(&subvec(&p, a, b)),
        None => match ident_after(&p, "is", 2) {
            Some(w) => w,
            None => {
                let t = chars_of("true");
                string_of(&t)
            },
        },
    };
    let rhs = parse_rhs(val.as_str());
    let mut out = chars_of("set ");
    extend(&mut out, &var);
    extend_str(&mut out, " = ");
    let rv = chars_of(rhs.as_str());
    extend(&mut out, &rv);
    let ps = string_of(&p);
    proof {
        assert(out@ =~= "set "@ + var@ + " = "@ + spec_parse_rhs(val@));
    }
    if mentions_print(ps.as_str()) {
        extend_str(&mut out, "\nneuro ");
        extend(&mut out, &var);
        proof {
            assert(out@ =~= spec_build_roleflag_dsl(prompt@));
        }
    }
    string_of(&out)
}

/// The bridge template: the instruction echoed.
pub open spec fn spec_build_ai_bridge_dsl(prompt: Seq<char>) -> Seq<char> {
    spec_neuro_line(prompt)
}

pub fn build_ai_bridge_dsl(prompt: &str) -> (r: String)
    ensures
        r@ == spec_build_ai_bridge_dsl(prompt@),
{
    neuro_line(prompt)
}

/// The two print-concatenation shapes: a quoted literal plus a variable,
/// and a variable plus a blank literal plus a variable.
pub open spec fn spec_build_print_concat(prompt: Seq<char>) -> Option<Seq<char>> {
    let p = spec_strip_wrapping(prompt);
    if spec_word_at(p, "print"@, 0) && 5 < p.len() && spec_is_ws(p[5]) {
        let k = spec_skip_ws(p, 5);
        if 0 <= k <= p.len() {
            let rest = p.subrange(k, p.len() as int);
            match spec_lit_plus_var(rest) {
                Some((lit, v)) => Some(
                    "set tmpPrint = \""@ + spec_swap_quotes(lit, 0) + "\" + "@ + v
                        + "\nneuro tmpPrint"@,
                ),
                None => spec_var_blank_var(rest),
            }
        } else {
            None
        }
    } else {
        None
    }
}

/// `NAME + 'blank' + NAME`, the middle literal whitespace only.
pub open spec fn spec_var_blank_var(rest: Seq<char>) -> Option<Seq<char>> {
    if rest.len() > 0 && spec_ident_start(rest[0]) {
        let e = spec_word_end_at(rest, 0);
        let v1 = rest.subrange(0, e as int);
        let k = spec_skip_ws(rest, e as int);
        if 0 <= k < rest.len() && rest[k] == '+' {
            let k2 = spec_skip_ws(rest, k + 1);
            if 0 <= k2 < rest.len() && (rest[k2] == '\'' || rest[k2] == '"') {
                let q = rest[k2];
                let e2 = spec_find_char_at(rest, q, (k2 + 1) as nat);
                if k2 < e2 < rest.len() && spec_all_blank(rest.subrange(k2 + 1, e2 as int)) {
                    let k3 = spec_skip_ws(rest, (e2 + 1) as int);
                    if 0 <= k3 < rest.len() && rest[k3] == '+' {
                        let k4 = spec_skip_ws(rest, k3 + 1);
                        if 0 <= k4 < rest.len() && spec_ident_start(rest[k4]) {
                            let e3 = spec_word_end_at(rest, k4 as nat);
                            let v2 = rest.subrange(k4, e3 as int);
                            Some(
                                "set tmpPrint = "@ + v1 + " + \" \" + "@ + v2
                                    + "\nneuro tmpPrint"@,
                            )
                        } else {
                            None
                        }
                    } else {
                        None
                    }
                } else {
                    None
                }
            } else {
                None
            }
        } else {
            None
        }
    } else {
        None
    }
}

pub open spec fn spec_all_blank(s: Seq<char>) -> bool {
    forall|k: int| 0 <= k < s.len() ==> spec_is_ws(s[k])
}

fn all_blank(s: &Vec<char>) -> (r: bool)
    ensures
        r == spec_all_blank(s@),
{
    let mut i: usize = 0;
    while i < s.len()
        invariant
            i <= s@.len(),
            forall|k: int| 0 <= k < i ==> spec_is_ws(s@[k]),
        decreases s@.len() - i,
    {
        if !is_ws(s[i]) {
            return false;
        }
        i = i + 1;
    }
    true
}

fn var_blank_var(rest: &Vec<char>) -> (r: Option<String>)
    ensures
        match r {
            Some(t) => spec_var_blank_var(rest@) == Some(t@),
            None => spec_var_blank_var(rest@) is None,
        },
{
    let rl = rest.len();
    if !(rl > 0 && (is_alpha(rest[0]) || rest[0] == '_')) {
        return None;
    }
    let e = word_end_at(rest, 0);
    let v1 = subvec(rest, 0, e);
    let k = skip_ws(rest, e);
    if !(k < rl && rest[k] == '+') {
        return None;
    }
    let k2 = skip_ws(rest, k + 1);
    if !(k2 < rl && (rest[k2] == '\'' || rest[k2] == '"')) {
        return None;
    }
    let q = rest[k2];
    let e2 = find_char_at(rest, q, k2 + 1);
    if !(k2 < e2 && e2 < rl) {
        return None;
    }
    let mid = subvec(rest, k2 + 1, e2);
    if !all_blank(&mid) {
        return None;
    }
    let k3 = skip_ws(rest, e2 + 1);
    if !(k3 < rl && rest[k3] == '+') {
        return None;
    }
    let k4 = skip_ws(rest, k3 + 1);
    if !(k4 < rl && (is_alpha(rest[k4]) || rest[k4] == '_')) {
        return None;
    }
    let e3 = word_end_at(rest, k4);
    let v2 = subvec(rest, k4, e3);
    let mut out = chars_of("set tmpPrint = ");
    extend(&mut out, &v1);
    extend_str(&mut out, " + \" \" + ");
    extend(&mut out, &v2);
    extend_str(&mut out, "\nneuro tmpPrint");
    proof {
        assert(out@ =~= "set tmpPrint = "@ + rest@.subrange(0, e as int) + " + \" \" + "@
            + rest@.subrange(k4 as int, e3 as int) + "\nneuro tmpPrint"@);
    }
    Some(string_of(&out))
}

pub fn build_print_concat_dsl(prompt: &str) -> (r: Option<String>)
    ensures
        match r {
            Some(t) => spec_build_print_concat(prompt@) == Some(t@),
            None => spec_build_print_concat(prompt@) is None,
        },
{
    proof {
        reveal_strlit("print");
    }
    let v = chars_of(prompt);
    let p = strip_wrapping_chars(v);
    let pl = p.len();
    let pr = chars_of("print");
    if !(word_at(&p, &pr, 0) && 5 < pl && is_ws(p[5])) {
        return None;
    }
    let k = skip_ws(&p, 5);
    let rest = subvec(&p, k, pl);
    match lit_plus_var(&rest) {
        Some((lit, vx)) => {
            let lv = chars_of(lit.as_str());
            let sw = swap_quotes(&lv);
            let mut out = chars_of("set tmpPrint = \"");
            extend(&mut out, &sw);
            extend_str(&mut out, "\" + ");
            let vv = chars_of(vx.as_str());
            extend(&mut out, &vv);
            extend_str(&mut out, "\nneuro tmpPrint");
            proof {
                assert(out@ =~= "set tmpPrint = \""@ + spec_swap_quotes(lit@, 0) + "\" + "@ + vx@
                    + "\nneuro tmpPrint"@);
            }
            Some(string_of(&out))
        },
        None => var_blank_var(&rest),
    }
}


// ---------------------------------------------------------------------------
// label inference and dispatch
// ---------------------------------------------------------------------------

/// The instruction with leading whitespace dropped.
pub open spec fn spec_trim_start(p: Seq<char>) -> Seq<char> {
    let k = spec_skip_ws(p, 0);
    if 0 <= k <= p.len() {
        p.subrange(k, p.len() as int)
    } else {
        p
    }
}

pub(crate) fn trim_start_chars(p: &Vec<char>) -> (r: Vec<char>)
    ensures
        r@ == spec_trim_start(p@),
{
    let k = skip_ws(p, 0);
    subvec(p, k, p.len())
}

pub open spec fn spec_starts_docprint(p: Seq<char>) -> bool {
    let t = spec_trim_start(p);
    spec_starts_with_ci_word(t, "print "@) || spec_starts_with_ci_word(t, "output "@)
        || spec_starts_with_ci_word(t, "echo "@) || spec_starts_with_ci_word(t, "say "@)
        || spec_starts_with_ci_word(t, "display "@) || spec_starts_with_ci_word(t, "format "@)
}

pub open spec fn spec_starts_with_ci_word(t: Seq<char>, w: Seq<char>) -> bool {
    spec_match_ci_at(t, w, 0)
}

fn starts_docprint(p: &Vec<char>) -> (r: bool)
    ensures
        r == spec_starts_docprint(p@),
{
    let t = trim_start_chars(p);
    crate::text::starts_with_lit(&t, "print ") || crate::text::starts_with_lit(&t, "output ")
        || crate::text::starts_with_lit(&t, "echo ") || crate::text::starts_with_lit(&t, "say ")
        || crate::text::starts_with_lit(&t, "display ") || crate::text::starts_with_lit(
        &t,
        "format ",
    )
}

pub open spec fn spec_starts_if(p: Seq<char>) -> bool {
    spec_match_ci_at(spec_trim_start(p), "if "@, 0)
}

fn starts_if(p: &Vec<char>) -> (r: bool)
    ensures
        r == spec_starts_if(p@),
{
    let t = trim_start_chars(p);
    crate::text::starts_with_lit(&t, "if ")
}

pub open spec fn spec_starts_assign(p: Seq<char>) -> bool {
    let t = spec_trim_start(p);
    spec_match_ci_at(t, "set "@, 0) || spec_match_ci_at(t, "create "@, 0) || spec_match_ci_at(
        t,
        "store "@,
        0,
    )
}

fn starts_assign(p: &Vec<char>) -> (r: bool)
    ensures
        r == spec_starts_assign(p@),
{
    let t = trim_start_chars(p);
    crate::text::starts_with_lit(&t, "set ") || crate::text::starts_with_lit(&t, "create ")
        || crate::text::starts_with_lit(&t, "store ")
}

pub open spec fn spec_concat_word(p: Seq<char>) -> bool {
    spec_contains_ci(p, "combine"@) || spec_contains_ci(p, "join"@) || spec_contains_ci(
        p,
        "concat"@,
    ) || spec_contains_ci(p, "concatenate"@)
}

fn concat_word(p: &Vec<char>) -> (r: bool)
    ensures
        r == spec_concat_word(p@),
{
    crate::text::contains_lit(p, "combine") || crate::text::contains_lit(p, "join")
        || crate::text::contains_lit(p, "concat") || crate::text::contains_lit(p, "concatenate")
}

pub open spec fn spec_mathish(p: Seq<char>) -> bool {
    spec_has_char(p, '+') || spec_has_char(p, '-') || spec_has_char(p, '*') || spec_has_char(
        p,
        '%',
    ) || spec_has_char(p, '/')
}

fn mathish(p: &Vec<char>) -> (r: bool)
    ensures
        r == spec_mathish(p@),
{
    has_char(p, '+') || has_char(p, '-') || has_char(p, '*') || has_char(p, '%') || has_char(
        p,
        '/',
    )
}

/// The label lexical cues alone would give the instruction.
pub open spec fn spec_infer_label(p: Seq<char>) -> Seq<char> {
    if spec_looks_like_loop(p) {
        "Loop"@
    } else if spec_starts_if(p) {
        "Branch"@
    } else if spec_concat_word(p) && spec_all_quoted(p, 0).len() >= 2 {
        "Concat"@
    } else if spec_is_comment_instr(p) {
        "DocPrint"@
    } else if spec_has_assignment(p) {
        if spec_mathish(p) {
            "Arith"@
        } else {
            "SetVar"@
        }
    } else if spec_starts_docprint(p) {
        "DocPrint"@
    } else {
        "Unknown"@
    }
}

pub fn infer_label_from_prompt(prompt: &str) -> (r: String)
    ensures
        r@ == spec_infer_label(prompt@),
{
    let p = chars_of(prompt);
    if looks_like_loop_prompt(prompt) {
        return string_of(&chars_of("Loop"));
    }
    if starts_if(&p) {
        return string_of(&chars_of("Branch"));
    }
    if concat_word(&p) && all_quoted(prompt).len() >= 2 {
        return string_of(&chars_of("Concat"));
    }
    if is_comment_instr(&p) {
        return string_of(&chars_of("DocPrint"));
    }
    if has_assignment(&p) {
        if mathish(&p) {
            return string_of(&chars_of("Arith"));
        }
        return string_of(&chars_of("SetVar"));
    }
    if starts_docprint(&p) {
        return string_of(&chars_of("DocPrint"));
    }
    string_of(&chars_of("Unknown"))
}

/// An embedded `then set NAME =` or `and set NAME to` request.
pub open spec fn spec_embedded_set(p: Seq<char>, i: nat) -> bool
    decreases p.len() - i,
{
    if i >= p.len() {
        false
    } else if spec_embedded_set_at(p, i) {
        true
    } else {
        spec_embedded_set(p, i + 1)
    }
}

pub open spec fn spec_embedded_set_at(p: Seq<char>, i: nat) -> bool {
    (spec_word_at(p, "then"@, i as int) || spec_word_at(p, "and"@, i as int)) && {
        let l: int = if spec_word_at(p, "then"@, i as int) {
            4
        } else {
            3
        };
        i + l < p.len() && spec_is_ws(p[i + l]) && {
            let k = spec_skip_ws(p, i + l);
            0 <= k < p.len() && spec_word_at(p, "set"@, k) && k + 3 < p.len() && spec_is_ws(
                p[k + 3],
            ) && {
                let k2 = spec_skip_ws(p, k + 3);
                0 <= k2 < p.len() && spec_ident_start(p[k2]) && {
                    let e = spec_word_end_at(p, k2 as nat);
                    let k3 = spec_skip_ws(p, e as int);
                    0 <= k3 < p.len() && (p[k3] == '=' || spec_word_at(p, "to"@, k3))
                }
            }
        }
    }
}

fn embedded_set_at(p: &Vec<char>, i: usize) -> (r: bool)
    requires
        i < p@.len(),
    ensures
        r == spec_embedded_set_at(p@, i as nat),
{
    proof {
        reveal_strlit("then");
        reveal_strlit("and");
        reveal_strlit("set");
        reveal_strlit("to");
    }
    let pl = p.len();
    let thenw = chars_of("then");
    let andw = chars_of("and");
    let is_then = word_at(p, &thenw, i);
    if !(is_then || word_at(p, &andw, i)) {
        return false;
    }
    let l: usize = if is_then {
        4
    } else {
        3
    };
    if !(pl - i > l && is_ws(p[i + l])) {
        return false;
    }
    let k = skip_ws(p, i + l);
    let setw = chars_of("set");
    if !(k < pl && word_at(p, &setw, k) && pl - k > 3 && is_ws(p[k + 3])) {
        return false;
    }
    let k2 = skip_ws(p, k + 3);
    if !(k2 < pl && (is_alpha(p[k2]) || p[k2] == '_')) {
        return false;
    }
    let e = word_end_at(p, k2);
    let k3 = skip_ws(p, e);
    let tow = chars_of("to");
    k3 < pl && (p[k3] == '=' || word_at(p, &tow, k3))
}

fn embedded_set(p: &Vec<char>, i: usize) -> (r: bool)
    requires
        i <= p@.len(),
    ensures
        r == spec_embedded_set(p@, i as nat),
    decreases p@.len() - i,
{
    if i >= p.len() {
        return false;
    }
    if embedded_set_at(p, i) {
        return true;
    }
    embedded_set(p, i + 1)
}

/// The label after the override battery, in its fixed order: a spurious
/// loop downgraded; assignment vocabulary forcing an assignment or
/// arithmetic template; joined quoted spans forcing concatenation; comment
/// vocabulary and bare print openers forcing the printing template.
pub open spec fn spec_resolve_label(label0: Seq<char>, confident: bool, p: Seq<char>) -> Seq<char> {
    let l0: Seq<char> = if confident {
        label0
    } else {
        spec_infer_label(p)
    };
    let l1: Seq<char> = if l0 == "Loop"@ && spec_starts_if(p) {
        "Branch"@
    } else if l0 == "Loop"@ && !spec_looks_like_loop(p) {
        spec_infer_label(p)
    } else {
        l0
    };
    let l2: Seq<char> = if spec_starts_assign(p) || spec_embedded_set(p, 0) {
        if spec_assign_mathish(p) {
            "Arith"@
        } else {
            "SetVar"@
        }
    } else {
        l1
    };
    let l3: Seq<char> = if spec_concat_word(p) && spec_all_quoted(p, 0).len() >= 2 {
        "Concat"@
    } else {
        l2
    };
    let l4: Seq<char> = if spec_is_comment_instr(p) && !spec_has_assignment(p) {
        "DocPrint"@
    } else {
        l3
    };
    if spec_starts_docprint(p) && !spec_has_assignment(p) && !spec_looks_like_loop(p) {
        "DocPrint"@
    } else {
        l4
    }
}

/// Arithmetic is judged from the extracted right-hand side where one
/// exists, else from the whole instruction.
pub open spec fn spec_assign_mathish(p: Seq<char>) -> bool {
    match spec_parse_var_expr(p) {
        Some((v, ex, d)) => spec_has_char(ex, '+') || spec_has_char(ex, '-') || spec_has_char(
            ex,
            '*',
        ) || spec_has_char(ex, '/') || spec_has_char(ex, '%') || spec_contains_ci(ex, " plus "@)
            || spec_contains_ci(ex, " minus "@),
        None => spec_has_char(p, '+') || spec_has_char(p, '-') || spec_has_char(p, '*') || (
        spec_has_char(p, '/') && !spec_contains_ci(p, "//"@)) || spec_has_char(p, '%')
            || spec_contains_ci(p, " plus "@) || spec_contains_ci(p, " minus "@),
    }
}

fn assign_mathish(p: &Vec<char>) -> (r: bool)
    ensures
        r == spec_assign_mathish(p@),
{
    let ps = string_of(p);
    match parse_var_expr(ps.as_str()) {
        Some((v, ex, d)) => {
            let exv = chars_of(ex.as_str());
            has_char(&exv, '+') || has_char(&exv, '-') || has_char(&exv, '*') || has_char(
                &exv,
                '/',
            ) || has_char(&exv, '%') || crate::text::contains_lit(&exv, " plus ")
                || crate::text::contains_lit(&exv, " minus ")
        },
        None => {
            has_char(p, '+') || has_char(p, '-') || has_char(p, '*') || (has_char(p, '/')
                && !crate::text::contains_lit(p, "//")) || has_char(p, '%')
                || crate::text::contains_lit(p, " plus ") || crate::text::contains_lit(
                p,
                " minus ",
            )
        },
    }
}

pub fn resolve_macro_label(label0: &str, confident: bool, prompt: &str) -> (r: String)
    ensures
        r@ == spec_resolve_label(label0@, confident, prompt@),
{
    let p = chars_of(prompt);
    let l0: String = if confident {
        let lv = chars_of(label0);
        string_of(&lv)
    } else {
        infer_label_from_prompt(prompt)
    };
    let l0v = chars_of(l0.as_str());
    let loopl = chars_of("Loop");
    let l1: String = if crate::text::chars_eq(&l0v, &loopl) && starts_if(&p) {
        string_of(&chars_of("Branch"))
    } else if crate::text::chars_eq(&l0v, &loopl) && !looks_like_loop_prompt(prompt) {
        infer_label_from_prompt(prompt)
    } else {
        l0
    };
    let l2: String = if starts_assign(&p) || embedded_set(&p, 0) {
        if assign_mathish(&p) {
            string_of(&chars_of("Arith"))
        } else {
            string_of(&chars_of("SetVar"))
        }
    } else {
        l1
    };
    let l3: String = if concat_word(&p) && all_quoted(prompt).len() >= 2 {
        string_of(&chars_of("Concat"))
    } else {
        l2
    };
    let l4: String = if is_comment_instr(&p) && !has_assignment(&p) {
        string_of(&chars_of("DocPrint"))
    } else {
        l3
    };
    if starts_docprint(&p) && !has_assignment(&p) && !looks_like_loop_prompt(prompt) {
        string_of(&chars_of("DocPrint"))
    } else {
        l4
    }
}

/// The template chosen by the resolved label, after the fast paths: the
/// print-concatenation shapes, a leading `if`, and a mixed `if ... else`.
/// The single-branch conditional shape: an output verb, a variable to
/// show, `when`, a condition variable, `is`, and a bare condition word,
/// with nothing else after it.
pub open spec fn spec_show_when(p0: Seq<char>) -> Option<(Seq<char>, Seq<char>, Seq<char>)> {
    let p = spec_trim(p0);
    let vl: int = if spec_match_ci_at(p, "show"@, 0) {
        4
    } else if spec_match_ci_at(p, "print"@, 0) {
        5
    } else if spec_match_ci_at(p, "output"@, 0) {
        6
    } else if spec_match_ci_at(p, "echo"@, 0) {
        4
    } else {
        0
    };
    if vl > 0 && vl < p.len() && spec_is_ws(p[vl]) {
        let k1 = spec_skip_ws(p, vl);
        if 0 <= k1 < p.len() && spec_ident_start(p[k1]) {
            let e1 = spec_word_end_at(p, k1 as nat);
            if e1 < p.len() && spec_is_ws(p[e1 as int]) {
                let k2 = spec_skip_ws(p, e1 as int);
                if spec_match_ci_at(p, "when"@, k2) && k2 + 4 < p.len() && spec_is_ws(
                    p[k2 + 4],
                ) {
                    let k3 = spec_skip_ws(p, k2 + 4);
                    if 0 <= k3 < p.len() && spec_ident_start(p[k3]) {
                        let e2 = spec_word_end_at(p, k3 as nat);
                        if e2 < p.len() && spec_is_ws(p[e2 as int]) {
                            let k4 = spec_skip_ws(p, e2 as int);
                            if spec_match_ci_at(p, "is"@, k4) && k4 + 2 < p.len() && spec_is_ws(
                                p[k4 + 2],
                            ) {
                                let k5 = spec_skip_ws(p, k4 + 2);
                                if 0 <= k5 < p.len() && spec_ident_start(p[k5]) {
                                    let e3 = spec_word_end_at(p, k5 as nat);
                                    if spec_skip_ws(p, e3 as int) == p.len() {
                                        Some(
                                            (
                                                p.subrange(k1, e1 as int),
                                                p.subrange(k3, e2 as int),
                                                p.subrange(k5, e3 as int),
                                            ),
                                        )
                                    } else {
                                        None
                                    }
                                } else {
                                    None
                                }
                            } else {
                                None
                            }
                        } else {
                            None
                        }
                    } else {
                        None
                    }
                } else {
                    None
                }
            } else {
                None
            }
        } else {
            None
        }
    } else {
        None
    }
}

/// A condition word stands bare where it reads as a number or a reserved
/// literal (the numeric spellings a word can take are the infinities and
/// the not-a-number word); anything else is quoted.
pub open spec fn spec_when_rhs(w: Seq<char>) -> Seq<char> {
    if spec_seq_eq_ci(w, "inf"@) || spec_seq_eq_ci(w, "infinity"@) || spec_seq_eq_ci(w, "nan"@)
        || spec_seq_eq_ci(w, "true"@) || spec_seq_eq_ci(w, "false"@) || spec_seq_eq_ci(
        w,
        "none"@,
    ) {
        w
    } else {
        seq!['"'] + w + seq!['"']
    }
}

fn show_when(p0: &Vec<char>) -> (r: Option<(String, String, String)>)
    ensures
        match r {
            Some((v, cv, cr)) => spec_show_when(p0@) == Some((v@, cv@, cr@)),
            None => spec_show_when(p0@) is None,
        },
{
    proof {
        reveal_strlit("show");
        reveal_strlit("print");
        reveal_strlit("output");
        reveal_strlit("echo");
        reveal_strlit("when");
        reveal_strlit("is");
    }
    let p = trim(p0);
    let pl = p.len();
    let showw = chars_of("show");
    let printw = chars_of("print");
    let outputw = chars_of("output");
    let echow = chars_of("echo");
    let vl: usize = if match_ci_at(&p, &showw, 0) {
        4
    } else if match_ci_at(&p, &printw, 0) {
        5
    } else if match_ci_at(&p, &outputw, 0) {
        6
    } else if match_ci_at(&p, &echow, 0) {
        4
    } else {
        0
    };
    if !(vl > 0 && vl < pl && is_ws(p[vl])) {
        return None;
    }
    let k1 = skip_ws(&p, vl);
    if !(k1 < pl && (is_alpha(p[k1]) || p[k1] == '_')) {
        return None;
    }
    let e1 = word_end_at(&p, k1);
    if !(e1 < pl && is_ws(p[e1])) {
        return None;
    }
    let k2 = skip_ws(&p, e1);
    let whenw = chars_of("when");
    if !(match_ci_at(&p, &whenw, k2) && pl - k2 > 4 && is_ws(p[k2 + 4])) {
        return None;
    }
    let k3 = skip_ws(&p, k2 + 4);
    if !(k3 < pl && (is_alpha(p[k3]) || p[k3] == '_')) {
        return None;
    }
    let e2 = word_end_at(&p, k3);
    if !(e2 < pl && is_ws(p[e2])) {
        return None;
    }
    let k4 = skip_ws(&p, e2);
    let isw = chars_of("is");
    if !(match_ci_at(&p, &isw, k4) && pl - k4 > 2 && is_ws(p[k4 + 2])) {
        return None;
    }
    let k5 = skip_ws(&p, k4 + 2);
    if !(k5 < pl && (is_alpha(p[k5]) || p[k5] == '_')) {
        return None;
    }
    let e3 = word_end_at(&p, k5);
    if skip_ws(&p, e3) != pl {
        return None;
    }
    Some(
        (
            string_of(&subvec(&p, k1, e1)),
            string_of(&subvec(&p, k3, e2)),
            string_of(&subvec(&p, k5, e3)),
        ),
    )
}

fn when_rhs(w: &Vec<char>) -> (r: Vec<char>)
    ensures
        r@ == spec_when_rhs(w@),
{
    proof {
        reveal_strlit("inf");
        reveal_strlit("infinity");
        reveal_strlit("nan");
        reveal_strlit("true");
        reveal_strlit("false");
        reveal_strlit("none");
    }
    if chars_eq_ci_lit(w, "inf") || chars_eq_ci_lit(w, "infinity") || chars_eq_ci_lit(w, "nan")
        || chars_eq_ci_lit(w, "true") || chars_eq_ci_lit(w, "false") || chars_eq_ci_lit(
        w,
        "none",
    ) {
        let c = subvec(w, 0, w.len());
        proof {
            assert(c@ =~= w@);
        }
        c
    } else {
        let mut out: Vec<char> = Vec::new();
        out.push('"');
        extend(&mut out, w);
        out.push('"');
        proof {
            assert(out@ =~= seq!['"'] + w@ + seq!['"']);
        }
        out
    }
}

pub open spec fn spec_build_macro_dsl(label: Seq<char>, prompt: Seq<char>) -> Seq<char> {
    let allow = !(label == "SetVar"@ || label == "Arith"@);
    let pc: Option<Seq<char>> = if allow && spec_has_char(prompt, '+') {
        spec_build_print_concat(prompt)
    } else {
        None
    };
    match pc {
        Some(d) => d,
        None => if spec_starts_if(prompt) {
            spec_build_branch_dsl(prompt)
        } else if spec_show_when(prompt) is Some {
            let (v, cv, cr) = spec_show_when(prompt)->Some_0;
            "if "@ + cv + " == "@ + spec_when_rhs(cr) + ":\n    neuro "@ + v
        } else if spec_contains_ci(prompt, " else "@) && spec_contains_ci(prompt, "if "@) {
            spec_build_branch_dsl(prompt)
        } else if label == "Loop"@ {
            spec_build_loop_dsl(prompt)
        } else if label == "Branch"@ {
            spec_build_branch_dsl(prompt)
        } else if label == "Arith"@ {
            spec_build_arith_dsl(prompt)
        } else if label == "Concat"@ {
            spec_build_concat_dsl(prompt)
        } else if label == "RoleFlag"@ {
            spec_build_roleflag_dsl(prompt)
        } else if label == "AIBridge"@ {
            spec_build_ai_bridge_dsl(prompt)
        } else if label == "DocPrint"@ {
            spec_build_doc_print_dsl(prompt)
        } else if label == "SetVar"@ {
            spec_build_setvar_dsl(prompt)
        } else {
            spec_neuro_line(prompt)
        },
    }
}

pub fn build_macro_dsl(label: &str, prompt: &str) -> (r: String)
    ensures
        r@ == spec_build_macro_dsl(label@, prompt@),
{
    let lv = chars_of(label);
    let pv = chars_of(prompt);
    let setvarl = chars_of("SetVar");
    let arithl = chars_of("Arith");
    let allow = !(crate::text::chars_eq(&lv, &setvarl) || crate::text::chars_eq(&lv, &arithl));
    if allow && has_char(&pv, '+') {
        match build_print_concat_dsl(prompt) {
            Some(d) => {
                return d;
            },
            None => {},
        }
    }
    if starts_if(&pv) {
        return build_branch_dsl(prompt);
    }
    match show_when(&pv) {
        Some((v, cv, cr)) => {
            let crv = chars_of(cr.as_str());
            let rhs = when_rhs(&crv);
            let mut out = chars_of("if ");
            let cvv = chars_of(cv.as_str());
            extend(&mut out, &cvv);
            extend_str(&mut out, " == ");
            extend(&mut out, &rhs);
            extend_str(&mut out, ":\n    neuro ");
            let vv = chars_of(v.as_str());
            extend(&mut out, &vv);
            proof {
                assert(out@ =~= "if "@ + cv@ + " == "@ + spec_when_rhs(cr@) + ":\n    neuro "@
                    + v@);
            }
            return string_of(&out);
        },
        None => {},
    }
    if crate::text::contains_lit(&pv, " else ") && crate::text::contains_lit(&pv, "if ") {
        return build_branch_dsl(prompt);
    }
    if crate::text::chars_eq(&lv, &chars_of("Loop")) {
        return build_loop_dsl(prompt);
    }
    if crate::text::chars_eq(&lv, &chars_of("Branch")) {
        return build_branch_dsl(prompt);
    }
    if crate::text::chars_eq(&lv, &arithl) {
        return build_arith_dsl(prompt);
    }
    if crate::text::chars_eq(&lv, &chars_of("Concat")) {
        return build_concat_dsl(prompt);
    }
    if crate::text::chars_eq(&lv, &chars_of("RoleFlag")) {
        return build_roleflag_dsl(prompt);
    }
    if crate::text::chars_eq(&lv, &chars_of("AIBridge")) {
        return build_ai_bridge_dsl(prompt);
    }
    if crate::text::chars_eq(&lv, &chars_of("DocPrint")) {
        return build_doc_print_dsl(prompt);
    }
    if crate::text::chars_eq(&lv, &setvarl) {
        return build_setvar_dsl(prompt);
    }
    neuro_line(prompt)
}

/// The entry-marker text that short-circuits macro synthesis, checked
/// before anything else, the classifier included.
pub open spec fn spec_trigger(instr: Seq<char>) -> bool {
    spec_contains_ci(instr, "main starts here"@)
}

/// The whole synthesis step for one instruction: the entry-marker trigger,
/// label resolution with the overrides, the chosen template, single quotes
/// normalized, and the echo fallback where nothing was produced.
pub open spec fn spec_synthesize(label0: Seq<char>, confident: bool, instr: Seq<char>) -> Seq<char> {
    if spec_trigger(instr) {
        "neuro \"// main starts here\""@
    } else {
        let p = spec_strip_wrapping(spec_trim(instr));
        let label = spec_resolve_label(label0, confident, p);
        let dsl = spec_swap_quotes(spec_build_macro_dsl(label, p), 0);
        if spec_trim(dsl).len() == 0 {
            spec_neuro_line(p)
        } else {
            dsl
        }
    }
}

/// Synthesizes the source text for one instruction, under the label the
/// classifier chose and whether its confidence reached the threshold.
pub fn synthesize_macro(label0: &str, confident: bool, instr: &str) -> (r: String)
    ensures
        r@ == spec_synthesize(label0@, confident, instr@),
{
    let iv = chars_of(instr);
    if crate::text::contains_lit(&iv, "main starts here") {
        return string_of(&chars_of("neuro \"// main starts here\""));
    }
    let t = trim(&iv);
    let p = strip_wrapping_chars(t);
    let ps = string_of(&p);
    let label = resolve_macro_label(label0, confident, ps.as_str());
    let dsl0 = build_macro_dsl(label.as_str(), ps.as_str());
    let dv = chars_of(dsl0.as_str());
    let dsl = swap_quotes(&dv);
    let dt = trim(&dsl);
    if dt.len() == 0 {
        neuro_line(ps.as_str())
    } else {
        string_of(&dsl)
    }
}

// ---------------------------------------------------------------------------
// generated-text cleanup
// ---------------------------------------------------------------------------

/// The text after a response marker, leading line breaks dropped.
pub open spec fn spec_extract_dsl(src: Seq<char>) -> Seq<char> {
    match spec_find_ci_from(src, "### response:"@, 0) {
        Some(i) => if 0 <= i && i + 13 <= src.len() {
            spec_skip_crlf(src, (i + 13) as nat)
        } else {
            spec_trim(src)
        },
        None => spec_trim(src),
    }
}

pub open spec fn spec_skip_crlf(s: Seq<char>, i: nat) -> Seq<char>
    decreases s.len() - i,
{
    if i < s.len() && (s[i as int] == '\r' || s[i as int] == '\n') {
        spec_skip_crlf(s, i + 1)
    } else if i <= s.len() {
        s.subrange(i as int, s.len() as int)
    } else {
        s
    }
}

pub fn extract_dsl(src: &str) -> (r: String)
    ensures
        r@ == spec_extract_dsl(src@),
{
    proof {
        reveal_strlit("### response:");
    }
    let v = chars_of(src);
    let n = chars_of("### response:");
    match find_ci_from(&v, &n, 0) {
        Some(i) => {
            let mut k = i + 13;
            while k < v.len() && (v[k] == '\r' || v[k] == '\n')
                invariant
                    k <= v@.len(),
                    spec_skip_crlf(v@, (i + 13) as nat) == spec_skip_crlf(v@, k as nat),
                decreases v@.len() - k,
            {
                k = k + 1;
            }
            string_of(&subvec(&v, k, v.len()))
        },
        None => {
            let t = trim(&v);
            string_of(&t)
        },
    }
}

/// Keeps only the lines that start like statements of the language, each
/// trimmed, with stray status symbols removed.
pub open spec fn spec_sanitize_lines(src: Seq<char>) -> Seq<char> {
    spec_join_nl(spec_keep_lines(crate::lexer::spec_lines(src)))
}

pub open spec fn spec_keep_lines(lines: Seq<Seq<char>>) -> Seq<Seq<char>>
    decreases lines.len(),
{
    if lines.len() == 0 {
        Seq::empty()
    } else {
        let kept = spec_keep_line(lines[0]);
        let rest = spec_keep_lines(lines.drop_first());
        match kept {
            Some(l) => seq![l] + rest,
            None => rest,
        }
    }
}

pub open spec fn spec_keep_line(line: Seq<char>) -> Option<Seq<char>> {
    let cleaned = spec_trim_start(spec_drop_marks(line, 0));
    if spec_match_ci_at(cleaned, "neuro "@, 0) || spec_match_ci_at(cleaned, "set "@, 0)
        || spec_match_ci_at(cleaned, "if "@, 0) || spec_match_ci_at(cleaned, "elif "@, 0)
        || spec_match_ci_at(cleaned, "else"@, 0) || spec_match_ci_at(cleaned, "ai:"@, 0)
        || spec_match_ci_at(cleaned, "//"@, 0) || spec_match_ci_at(cleaned, "#"@, 0) {
        Some(cleaned)
    } else {
        None
    }
}

pub open spec fn spec_is_mark(c: char) -> bool {
    c == '\u{2705}' || c == '\u{274c}' || c == '\u{1f680}' || c == '\u{1f449}'
}

pub open spec fn spec_drop_marks(s: Seq<char>, i: nat) -> Seq<char>
    decreases s.len() - i,
{
    if i >= s.len() {
        Seq::empty()
    } else if spec_is_mark(s[i as int]) {
        spec_drop_marks(s, i + 1)
    } else {
        seq![s[i as int]] + spec_drop_marks(s, i + 1)
    }
}

fn drop_marks(s: &Vec<char>) -> (r: Vec<char>)
    ensures
        r@ == spec_drop_marks(s@, 0),
{
    let mut out: Vec<char> = Vec::new();
    let mut i: usize = 0;
    while i < s.len()
        invariant
            i <= s@.len(),
            out@ + spec_drop_marks(s@, i as nat) == spec_drop_marks(s@, 0),
        decreases s@.len() - i,
    {
        let ghost o0 = out@;
        let c = s[i];
        if !(c == '\u{2705}' || c == '\u{274c}' || c == '\u{1f680}' || c == '\u{1f449}') {
            out.push(c);
            proof {
                assert(o0.push(s@[i as int]) =~= o0 + seq![s@[i as int]]);
                assert((o0 + seq![s@[i as int]]) + spec_drop_marks(s@, (i + 1) as nat) =~= o0 + (
                seq![s@[i as int]] + spec_drop_marks(s@, (i + 1) as nat)));
            }
        }
        i = i + 1;
    }
    proof {
        assert(out@ =~= out@ + spec_drop_marks(s@, i as nat));
    }
    out
}

fn keep_line(line: &Vec<char>) -> (r: Option<Vec<char>>)
    ensures
        match r {
            Some(l) => spec_keep_line(line@) == Some(l@),
            None => spec_keep_line(line@) is None,
        },
{
    let d = drop_marks(line);
    let cleaned = trim_start_chars(&d);
    if crate::text::starts_with_lit(&cleaned, "neuro ") || crate::text::starts_with_lit(
        &cleaned,
        "set ",
    ) || crate::text::starts_with_lit(&cleaned, "if ") || crate::text::starts_with_lit(
        &cleaned,
        "elif ",
    ) || crate::text::starts_with_lit(&cleaned, "else") || crate::text::starts_with_lit(
        &cleaned,
        "ai:",
    ) || crate::text::starts_with_lit(&cleaned, "//") || crate::text::starts_with_lit(
        &cleaned,
        "#",
    ) {
        Some(cleaned)
    } else {
        None
    }
}

pub fn sanitize_lines(src: &str) -> (r: String)
    ensures
        r@ == spec_sanitize_lines(src@),
{
    let v = chars_of(src);
    let kept = keep_lines_chars(&v);
    proof {
        let kv = crate::lexer::lines_view(kept@);
        assert(kv.subrange(0, kv.len() as int) =~= kv);
    }
    let joined = join_nl_chars(&kept, 0);
    string_of(&joined)
}

fn keep_lines_chars(v: &Vec<char>) -> (r: Vec<Vec<char>>)
    ensures
        crate::lexer::lines_view(r@) == spec_keep_lines(crate::lexer::spec_lines(v@)),
{
    let lines = split_lines_pub(v);
    let mut out: Vec<Vec<char>> = Vec::new();
    let mut i: usize = 0;
    proof {
        let lv0 = crate::lexer::lines_view(lines@);
        assert(lv0.subrange(0, lv0.len() as int) =~= lv0);
        assert(crate::lexer::lines_view(out@) =~= Seq::<Seq<char>>::empty());
        assert(Seq::<Seq<char>>::empty() + spec_keep_lines(lv0) =~= spec_keep_lines(lv0));
    }
    while i < lines.len()
        invariant
            i <= lines@.len(),
            crate::lexer::lines_view(lines@) == crate::lexer::spec_lines(v@),
            crate::lexer::lines_view(out@) + spec_keep_lines(
                crate::lexer::lines_view(lines@).subrange(
                    i as int,
                    crate::lexer::lines_view(lines@).len() as int,
                ),
            ) == spec_keep_lines(crate::lexer::spec_lines(v@)),
        decreases lines@.len() - i,
    {
        let ghost lv = crate::lexer::lines_view(lines@);
        let ghost o0 = crate::lexer::lines_view(out@);
        let ghost restpre = lv.subrange(i as int, lv.len() as int);
        proof {
            assert(restpre[0] == lv[i as int]);
            assert(restpre.drop_first() =~= lv.subrange((i + 1) as int, lv.len() as int));
        }
        match keep_line(&lines[i]) {
            Some(l) => {
                out.push(l);
                proof {
                    assert(crate::lexer::lines_view(out@) =~= o0 + seq![
                        spec_keep_line(lv[i as int])->0,
                    ]);
                    assert((o0 + seq![spec_keep_line(lv[i as int])->0]) + spec_keep_lines(
                        restpre.drop_first(),
                    ) =~= o0 + (seq![spec_keep_line(lv[i as int])->0] + spec_keep_lines(
                        restpre.drop_first(),
                    )));
                }
            },
            None => {},
        }
        i = i + 1;
    }
    proof {
        let lv = crate::lexer::lines_view(lines@);
        assert(lv.subrange(i as int, lv.len() as int) =~= Seq::<Seq<char>>::empty());
        assert(crate::lexer::lines_view(out@) + Seq::<Seq<char>>::empty() =~= crate::lexer::lines_view(
            out@,
        ));
    }
    out
}

fn split_lines_pub(s: &Vec<char>) -> (r: Vec<Vec<char>>)
    ensures
        crate::lexer::lines_view(r@) == crate::lexer::spec_lines(s@),
{
    crate::lexer::split_lines_for(s)
}

fn join_nl_chars(lines: &Vec<Vec<char>>, from: usize) -> (r: Vec<char>)
    requires
        from <= lines@.len(),
    ensures
        r@ == spec_join_nl(crate::lexer::lines_view(lines@).subrange(
            from as int,
            lines@.len() as int,
        )),
    decreases lines@.len() - from,
{
    let ghost whole = crate::lexer::lines_view(lines@).subrange(from as int, lines@.len() as int);
    if from >= lines.len() {
        let out: Vec<char> = Vec::new();
        proof {
            assert(whole =~= Seq::<Seq<char>>::empty());
            assert(out@ =~= Seq::<char>::empty());
        }
        return out;
    }
    let mut out = subvec(&lines[from], 0, lines[from].len());
    proof {
        assert(out@ =~= whole[0]);
    }
    if from + 1 >= lines.len() {
        proof {
            assert(whole.len() == 1);
        }
        return out;
    }
    out.push('\n');
    let rest = join_nl_chars(lines, from + 1);
    extend(&mut out, &rest);
    proof {
        assert(whole.drop_first() =~= crate::lexer::lines_view(lines@).subrange(
            (from + 1) as int,
            lines@.len() as int,
        ));
        assert(out@ =~= whole[0] + seq!['\n'] + spec_join_nl(whole.drop_first()));
    }
    out
}

} // verus!








