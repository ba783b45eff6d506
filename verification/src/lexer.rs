//! Lexer.
//!
//! Turns source text into a flat token stream:
//! - strips inline comments (`#` and `//`) outside double quotes,
//! - tracks indentation with explicit `Indent` / `Dedent` tokens,
//! - keeps quoted literals distinguishable from bare words by re-wrapping
//!   their content in quote characters (model paths ending in `.onnx` stay
//!   unwrapped).
//!
//! The lexer's alphabet is ASCII by design: identifiers and keywords are
//! runs of ASCII letters, digits and underscores starting with an ASCII
//! letter, whitespace is the ASCII space, tab, carriage return and line
//! feed, and numbers use ASCII digits. Inside a quoted literal any
//! character is carried through; outside one, a character from no class
//! above raises the unexpected-character error with its line number.
//!
//! The whole behaviour is pinned by [`spec_tokenize`]: `tokenize` returns
//! exactly the token stream (or exactly the error message) that the
//! specification prescribes.

use vstd::prelude::*;
use crate::text::{
    chars_of, string_of, subvec, extend, extend_str, chars_eq, chars_eq_ci, trim, is_digit,
    is_alpha, is_alnum_us, is_ws, digit_char, spec_seq_eq_ci, spec_is_digit, spec_is_alpha,
    spec_is_alnum_us, spec_is_ws, spec_trim, spec_digit_char,
};

verus! {

#[derive(Debug, PartialEq, Clone)]
pub enum Token {
    AI,
    Neuro,
    SetKw,
    From,
    Macro,
    If,
    Elif,
    Else,
    Colon,
    Equals,
    NotEquals,
    EqualsAssign,
    String(String),
    Number(String),
    Newline,
    Indent,
    Dedent,
    And,
    Or,
    Comment,
    Plus,
    Minus,
    Star,
    Slash,
    Percent,
    GreaterThan,
    LessThan,
    GreaterEqual,
    LessEqual,
    LParen,
    RParen,
}

/// Mathematical image of a token: payloads are character sequences.
pub enum Tok {
    AI,
    Neuro,
    SetKw,
    From,
    Macro,
    If,
    Elif,
    Else,
    Colon,
    Equals,
    NotEquals,
    EqualsAssign,
    StrT(Seq<char>),
    NumT(Seq<char>),
    Newline,
    Indent,
    Dedent,
    And,
    Or,
    Comment,
    Plus,
    Minus,
    Star,
    Slash,
    Percent,
    GreaterThan,
    LessThan,
    GreaterEqual,
    LessEqual,
    LParen,
    RParen,
}

impl View for Token {
    type V = Tok;

    open spec fn view(&self) -> Tok {
        match self {
            Token::AI => Tok::AI,
            Token::Neuro => Tok::Neuro,
            Token::SetKw => Tok::SetKw,
            Token::From => Tok::From,
            Token::Macro => Tok::Macro,
            Token::If => Tok::If,
            Token::Elif => Tok::Elif,
            Token::Else => Tok::Else,
            Token::Colon => Tok::Colon,
            Token::Equals => Tok::Equals,
            Token::NotEquals => Tok::NotEquals,
            Token::EqualsAssign => Tok::EqualsAssign,
            Token::String(s) => Tok::StrT(s@),
            Token::Number(s) => Tok::NumT(s@),
            Token::Newline => Tok::Newline,
            Token::Indent => Tok::Indent,
            Token::Dedent => Tok::Dedent,
            Token::And => Tok::And,
            Token::Or => Tok::Or,
            Token::Comment => Tok::Comment,
            Token::Plus => Tok::Plus,
            Token::Minus => Tok::Minus,
            Token::Star => Tok::Star,
            Token::Slash => Tok::Slash,
            Token::Percent => Tok::Percent,
            Token::GreaterThan => Tok::GreaterThan,
            Token::LessThan => Tok::LessThan,
            Token::GreaterEqual => Tok::GreaterEqual,
            Token::LessEqual => Tok::LessEqual,
            Token::LParen => Tok::LParen,
            Token::RParen => Tok::RParen,
        }
    }
}

pub open spec fn toks_view(s: Seq<Token>) -> Seq<Tok> {
    s.map_values(|t: Token| t@)
}

pub proof fn lemma_view_push(s: Seq<Token>, t: Token)
    ensures
        toks_view(s.push(t)) == toks_view(s) + seq![t@],
{
    assert(toks_view(s.push(t)) =~= toks_view(s) + seq![t@]);
}

// ---------------------------------------------------------------------------
// splitting the source into lines
// ---------------------------------------------------------------------------

pub open spec fn spec_find_nl(s: Seq<char>, i: nat) -> nat
    decreases s.len() - i,
{
    if i >= s.len() {
        s.len()
    } else if s[i as int] == '\n' {
        i
    } else {
        spec_find_nl(s, i + 1)
    }
}

pub open spec fn spec_strip_cr(l: Seq<char>) -> Seq<char> {
    if l.len() > 0 && l[l.len() - 1] == '\r' {
        l.drop_last()
    } else {
        l
    }
}

/// The lines of the input, split at `'\n'`, a final line ending optional,
/// a carriage return before the newline dropped.
pub open spec fn spec_lines(s: Seq<char>) -> Seq<Seq<char>>
    decreases s.len(),
{
    if s.len() == 0 {
        Seq::empty()
    } else {
        let i = spec_find_nl(s, 0);
        if i >= s.len() {
            seq![spec_strip_cr(s)]
        } else {
            seq![spec_strip_cr(s.subrange(0, i as int))] + spec_lines(
                s.subrange((i + 1) as int, s.len() as int),
            )
        }
    }
}

fn find_nl(s: &Vec<char>, i: usize) -> (r: usize)
    requires
        i <= s@.len(),
    ensures
        r == spec_find_nl(s@, i as nat),
        i <= r <= s@.len(),
    decreases s@.len() - i,
{
    if i >= s.len() {
        s.len()
    } else if s[i] == '\n' {
        i
    } else {
        find_nl(s, i + 1)
    }
}

fn strip_cr(l: Vec<char>) -> (r: Vec<char>)
    ensures
        r@ == spec_strip_cr(l@),
{
    let mut l = l;
    if l.len() > 0 && l[l.len() - 1] == '\r' {
        l.pop();
    }
    l
}

pub open spec fn lines_view(v: Seq<Vec<char>>) -> Seq<Seq<char>> {
    v.map_values(|l: Vec<char>| l@)
}

pub(crate) fn split_lines_for(s: &Vec<char>) -> (r: Vec<Vec<char>>)
    ensures
        lines_view(r@) == spec_lines(s@),
{
    split_lines(s)
}

fn split_lines(s: &Vec<char>) -> (r: Vec<Vec<char>>)
    ensures
        lines_view(r@) == spec_lines(s@),
    decreases s@.len(),
{
    let mut out: Vec<Vec<char>> = Vec::new();
    if s.len() == 0 {
        proof {
            assert(lines_view(out@) =~= spec_lines(s@));
        }
        return out;
    }
    let i = find_nl(s, 0);
    if i >= s.len() {
        out.push(strip_cr(subvec(s, 0, s.len())));
        proof {
            assert(s@.subrange(0, s@.len() as int) =~= s@);
            assert(lines_view(out@) =~= spec_lines(s@));
        }
        out
    } else {
        let head = strip_cr(subvec(s, 0, i));
        let rest = subvec(s, i + 1, s.len());
        let mut tail = split_lines(&rest);
        let ghost tail0 = tail@;
        out.push(head);
        out.append(&mut tail);
        proof {
            assert(lines_view(out@) =~= seq![spec_strip_cr(s@.subrange(0, i as int))]
                + lines_view(tail0));
            assert(lines_view(out@) =~= spec_lines(s@));
        }
        out
    }
}

// ---------------------------------------------------------------------------
// per-line helpers
// ---------------------------------------------------------------------------

/// Position where the line is cut for an inline comment: the first `#` or
/// `//` outside a double-quoted span, else the line length.
pub open spec fn spec_cut(raw: Seq<char>, i: nat, inq: bool) -> nat
    decreases raw.len() - i,
{
    if i >= raw.len() {
        raw.len()
    } else if raw[i as int] == '"' {
        spec_cut(raw, i + 1, !inq)
    } else if !inq && raw[i as int] == '#' {
        i
    } else if !inq && raw[i as int] == '/' && i + 1 < raw.len() && raw[(i + 1) as int] == '/' {
        i
    } else {
        spec_cut(raw, i + 1, inq)
    }
}

fn cut_pos(raw: &Vec<char>, i: usize, inq: bool) -> (r: usize)
    requires
        i <= raw@.len(),
    ensures
        r == spec_cut(raw@, i as nat, inq),
        i <= r <= raw@.len(),
    decreases raw@.len() - i,
{
    if i >= raw.len() {
        raw.len()
    } else if raw[i] == '"' {
        cut_pos(raw, i + 1, !inq)
    } else if !inq && raw[i] == '#' {
        i
    } else if !inq && raw[i] == '/' && i + 1 < raw.len() && raw[i + 1] == '/' {
        i
    } else {
        cut_pos(raw, i + 1, inq)
    }
}

/// Width of the leading run of space characters.
pub open spec fn spec_indent_end(raw: Seq<char>, i: nat) -> nat
    decreases raw.len() - i,
{
    if i < raw.len() && raw[i as int] == ' ' {
        spec_indent_end(raw, i + 1)
    } else {
        i
    }
}

fn indent_end(raw: &Vec<char>, i: usize) -> (r: usize)
    requires
        i <= raw@.len(),
    ensures
        r == spec_indent_end(raw@, i as nat),
        i <= r <= raw@.len(),
    decreases raw@.len() - i,
{
    if i < raw.len() && raw[i] == ' ' {
        indent_end(raw, i + 1)
    } else {
        i
    }
}

pub open spec fn spec_find_quote(s: Seq<char>, i: nat) -> nat
    decreases s.len() - i,
{
    if i >= s.len() {
        s.len()
    } else if s[i as int] == '"' {
        i
    } else {
        spec_find_quote(s, i + 1)
    }
}

fn find_quote(s: &Vec<char>, i: usize) -> (r: usize)
    requires
        i <= s@.len(),
    ensures
        r == spec_find_quote(s@, i as nat),
        i <= r <= s@.len(),
    decreases s@.len() - i,
{
    if i >= s.len() {
        s.len()
    } else if s[i] == '"' {
        i
    } else {
        find_quote(s, i + 1)
    }
}

pub open spec fn spec_digits_end(s: Seq<char>, i: nat) -> nat
    decreases s.len() - i,
{
    if i < s.len() && spec_is_digit(s[i as int]) {
        spec_digits_end(s, i + 1)
    } else {
        i
    }
}

fn digits_end(s: &Vec<char>, i: usize) -> (r: usize)
    requires
        i <= s@.len(),
    ensures
        r == spec_digits_end(s@, i as nat),
        i <= r <= s@.len(),
    decreases s@.len() - i,
{
    if i < s.len() && is_digit(s[i]) {
        digits_end(s, i + 1)
    } else {
        i
    }
}

pub open spec fn spec_word_end(s: Seq<char>, i: nat) -> nat
    decreases s.len() - i,
{
    if i < s.len() && spec_is_alnum_us(s[i as int]) {
        spec_word_end(s, i + 1)
    } else {
        i
    }
}

fn word_end(s: &Vec<char>, i: usize) -> (r: usize)
    requires
        i <= s@.len(),
    ensures
        r == spec_word_end(s@, i as nat),
        i <= r <= s@.len(),
    decreases s@.len() - i,
{
    if i < s.len() && is_alnum_us(s[i]) {
        word_end(s, i + 1)
    } else {
        i
    }
}

pub open spec fn spec_ends_with(h: Seq<char>, n: Seq<char>) -> bool {
    h.len() >= n.len() && h.subrange(h.len() - n.len(), h.len() as int) == n
}

fn ends_with_lit(h: &Vec<char>, lit: &str) -> (r: bool)
    ensures
        r == spec_ends_with(h@, lit@),
{
    let n = chars_of(lit);
    if h.len() < n.len() {
        return false;
    }
    let tail = subvec(h, h.len() - n.len(), h.len());
    chars_eq(&tail, &n)
}

/// The token a bare word stands for: a keyword, matched without regard to
/// case, or a string token holding the word itself.
pub open spec fn spec_keyword_tok(w: Seq<char>) -> Tok {
    if spec_seq_eq_ci(w, "if"@) {
        Tok::If
    } else if spec_seq_eq_ci(w, "elif"@) {
        Tok::Elif
    } else if spec_seq_eq_ci(w, "else"@) {
        Tok::Else
    } else if spec_seq_eq_ci(w, "neuro"@) {
        Tok::Neuro
    } else if spec_seq_eq_ci(w, "set"@) {
        Tok::SetKw
    } else if spec_seq_eq_ci(w, "from"@) {
        Tok::From
    } else if spec_seq_eq_ci(w, "macro"@) {
        Tok::Macro
    } else if spec_seq_eq_ci(w, "ai"@) {
        Tok::AI
    } else if spec_seq_eq_ci(w, "and"@) {
        Tok::And
    } else if spec_seq_eq_ci(w, "or"@) {
        Tok::Or
    } else {
        Tok::StrT(w)
    }
}

fn keyword_tok(w: Vec<char>) -> (r: Token)
    ensures
        r@ == spec_keyword_tok(w@),
{
    if chars_eq_ci_lit(&w, "if") {
        Token::If
    } else if chars_eq_ci_lit(&w, "elif") {
        Token::Elif
    } else if chars_eq_ci_lit(&w, "else") {
        Token::Else
    } else if chars_eq_ci_lit(&w, "neuro") {
        Token::Neuro
    } else if chars_eq_ci_lit(&w, "set") {
        Token::SetKw
    } else if chars_eq_ci_lit(&w, "from") {
        Token::From
    } else if chars_eq_ci_lit(&w, "macro") {
        Token::Macro
    } else if chars_eq_ci_lit(&w, "ai") {
        Token::AI
    } else if chars_eq_ci_lit(&w, "and") {
        Token::And
    } else if chars_eq_ci_lit(&w, "or") {
        Token::Or
    } else {
        Token::String(string_of(&w))
    }
}

fn chars_eq_ci_lit(a: &Vec<char>, lit: &str) -> (r: bool)
    ensures
        r == spec_seq_eq_ci(a@, lit@),
{
    let n = chars_of(lit);
    chars_eq_ci(a, &n)
}

// ---------------------------------------------------------------------------
// error messages
// ---------------------------------------------------------------------------

pub open spec fn spec_usize_dec(n: nat) -> Seq<char>
    decreases n,
{
    if n < 10 {
        seq![spec_digit_char(n as int)]
    } else {
        spec_usize_dec(n / 10).push(spec_digit_char((n % 10) as int))
    }
}

fn fmt_usize(n: usize) -> (r: Vec<char>)
    ensures
        r@ == spec_usize_dec(n as nat),
    decreases n,
{
    if n < 10 {
        let mut v: Vec<char> = Vec::new();
        v.push(digit_char(n as u8));
        proof {
            assert(v@ =~= seq![spec_digit_char(n as int)]);
        }
        v
    } else {
        let mut v = fmt_usize(n / 10);
        v.push(digit_char((n % 10) as u8));
        v
    }
}

pub open spec fn spec_missing_quote_msg(lineno: nat, raw: Seq<char>) -> Seq<char> {
    "\u{274c} Missing quote on line "@ + spec_usize_dec(lineno + 1) + ": "@ + raw
}

pub open spec fn spec_unexpected_msg(c: char, lineno: nat, raw: Seq<char>) -> Seq<char> {
    "\u{274c} Unexpected character '"@ + seq![c] + "' on line "@ + spec_usize_dec(lineno + 1)
        + ": "@ + raw
}

fn missing_quote_msg(lineno: usize, raw: &Vec<char>) -> (r: String)
    requires
        lineno < usize::MAX,
    ensures
        r@ == spec_missing_quote_msg(lineno as nat, raw@),
{
    let mut m = chars_of("\u{274c} Missing quote on line ");
    let num = fmt_usize(lineno + 1);
    extend(&mut m, &num);
    extend_str(&mut m, ": ");
    extend(&mut m, raw);
    string_of(&m)
}

fn unexpected_msg(c: char, lineno: usize, raw: &Vec<char>) -> (r: String)
    requires
        lineno < usize::MAX,
    ensures
        r@ == spec_unexpected_msg(c, lineno as nat, raw@),
{
    let mut m = chars_of("\u{274c} Unexpected character '");
    m.push(c);
    extend_str(&mut m, "' on line ");
    let num = fmt_usize(lineno + 1);
    extend(&mut m, &num);
    extend_str(&mut m, ": ");
    extend(&mut m, raw);
    proof {
        assert(m@ =~= spec_unexpected_msg(c, lineno as nat, raw@));
    }
    string_of(&m)
}

// ---------------------------------------------------------------------------
// scanning one line
// ---------------------------------------------------------------------------

/// Tokens produced from position `i` of the trimmed line onward, or the
/// lexer's error message.
pub open spec fn spec_scan(t: Seq<char>, raw: Seq<char>, lineno: nat, i: nat) -> Result<
    Seq<Tok>,
    Seq<char>,
>
    decreases t.len() - i,
{
    if i >= t.len() {
        Ok(Seq::empty())
    } else {
        let c = t[i as int];
        if c == ':' {
            spec_scan_cons(Tok::Colon, spec_scan(t, raw, lineno, i + 1))
        } else if c == '=' && i + 1 < t.len() && t[(i + 1) as int] == '=' {
            spec_scan_cons(Tok::Equals, spec_scan(t, raw, lineno, i + 2))
        } else if c == '=' {
            spec_scan_cons(Tok::EqualsAssign, spec_scan(t, raw, lineno, i + 1))
        } else if c == '!' && i + 1 < t.len() && t[(i + 1) as int] == '=' {
            spec_scan_cons(Tok::NotEquals, spec_scan(t, raw, lineno, i + 2))
        } else if c == '>' && i + 1 < t.len() && t[(i + 1) as int] == '=' {
            spec_scan_cons(Tok::GreaterEqual, spec_scan(t, raw, lineno, i + 2))
        } else if c == '>' {
            spec_scan_cons(Tok::GreaterThan, spec_scan(t, raw, lineno, i + 1))
        } else if c == '<' && i + 1 < t.len() && t[(i + 1) as int] == '=' {
            spec_scan_cons(Tok::LessEqual, spec_scan(t, raw, lineno, i + 2))
        } else if c == '<' {
            spec_scan_cons(Tok::LessThan, spec_scan(t, raw, lineno, i + 1))
        } else if c == '+' {
            spec_scan_cons(Tok::Plus, spec_scan(t, raw, lineno, i + 1))
        } else if c == '-' {
            spec_scan_cons(Tok::Minus, spec_scan(t, raw, lineno, i + 1))
        } else if c == '*' {
            spec_scan_cons(Tok::Star, spec_scan(t, raw, lineno, i + 1))
        } else if c == '/' {
            spec_scan_cons(Tok::Slash, spec_scan(t, raw, lineno, i + 1))
        } else if c == '%' {
            spec_scan_cons(Tok::Percent, spec_scan(t, raw, lineno, i + 1))
        } else if c == '(' {
            spec_scan_cons(Tok::LParen, spec_scan(t, raw, lineno, i + 1))
        } else if c == ')' {
            spec_scan_cons(Tok::RParen, spec_scan(t, raw, lineno, i + 1))
        } else if c == '"' {
            let e = spec_find_quote(t, i + 1);
            let e1 = if e < i + 1 {
                i + 1
            } else if e > t.len() {
                t.len()
            } else {
                e
            };
            if e1 < t.len() {
                let content = t.subrange((i + 1) as int, e1 as int);
                let tok = if spec_ends_with(content, ".onnx"@) {
                    Tok::StrT(content)
                } else {
                    Tok::StrT(seq!['"'] + content + seq!['"'])
                };
                spec_scan_cons(tok, spec_scan(t, raw, lineno, e1 + 1))
            } else {
                Err(spec_missing_quote_msg(lineno, raw))
            }
        } else if spec_is_digit(c) {
            let j = spec_digits_end(t, i);
            let j2 = if j + 1 < t.len() && t[j as int] == '.' && spec_is_digit(t[(j + 1) as int]) {
                spec_digits_end(t, j + 1)
            } else {
                j
            };
            let j3 = if j2 < i + 1 {
                i + 1
            } else if j2 > t.len() {
                t.len()
            } else {
                j2
            };
            spec_scan_cons(Tok::NumT(t.subrange(i as int, j3 as int)), spec_scan(t, raw, lineno, j3))
        } else if spec_is_alpha(c) {
            let j = spec_word_end(t, i);
            let j1 = if j < i + 1 {
                i + 1
            } else if j > t.len() {
                t.len()
            } else {
                j
            };
            spec_scan_cons(spec_keyword_tok(t.subrange(i as int, j1 as int)), spec_scan(t, raw, lineno, j1))
        } else if spec_is_ws(c) {
            spec_scan(t, raw, lineno, i + 1)
        } else {
            Err(spec_unexpected_msg(c, lineno, raw))
        }
    }
}

pub open spec fn spec_scan_cons(tok: Tok, rest: Result<Seq<Tok>, Seq<char>>) -> Result<
    Seq<Tok>,
    Seq<char>,
> {
    match rest {
        Ok(ts) => Ok(seq![tok] + ts),
        Err(e) => Err(e),
    }
}

/// Appends the tokens of `spec_scan` to `acc`, or returns the error.
fn scan(t: &Vec<char>, raw: &Vec<char>, lineno: usize, i: usize, acc: &mut Vec<Token>) -> (r:
    Result<(), String>)
    requires
        i <= t@.len(),
        lineno < usize::MAX,
    ensures
        match spec_scan(t@, raw@, lineno as nat, i as nat) {
            Ok(ts) => r is Ok && toks_view(final(acc)@) == toks_view(old(acc)@) + ts,
            Err(e) => r matches Err(m) && m@ == e,
        },
    decreases t@.len() - i, 0nat,
{
    proof {
        assert(toks_view(acc@) =~= toks_view(acc@) + Seq::<Tok>::empty());
    }
    if i >= t.len() {
        return Ok(());
    }
    let c = t[i];
    let ghost acc0 = acc@;
    if c == ':' {
        push_and_scan(t, raw, lineno, i + 1, acc, Token::Colon)
    } else if c == '=' && i + 1 < t.len() && t[i + 1] == '=' {
        push_and_scan(t, raw, lineno, i + 2, acc, Token::Equals)
    } else if c == '=' {
        push_and_scan(t, raw, lineno, i + 1, acc, Token::EqualsAssign)
    } else if c == '!' && i + 1 < t.len() && t[i + 1] == '=' {
        push_and_scan(t, raw, lineno, i + 2, acc, Token::NotEquals)
    } else if c == '>' && i + 1 < t.len() && t[i + 1] == '=' {
        push_and_scan(t, raw, lineno, i + 2, acc, Token::GreaterEqual)
    } else if c == '>' {
        push_and_scan(t, raw, lineno, i + 1, acc, Token::GreaterThan)
    } else if c == '<' && i + 1 < t.len() && t[i + 1] == '=' {
        push_and_scan(t, raw, lineno, i + 2, acc, Token::LessEqual)
    } else if c == '<' {
        push_and_scan(t, raw, lineno, i + 1, acc, Token::LessThan)
    } else if c == '+' {
        push_and_scan(t, raw, lineno, i + 1, acc, Token::Plus)
    } else if c == '-' {
        push_and_scan(t, raw, lineno, i + 1, acc, Token::Minus)
    } else if c == '*' {
        push_and_scan(t, raw, lineno, i + 1, acc, Token::Star)
    } else if c == '/' {
        push_and_scan(t, raw, lineno, i + 1, acc, Token::Slash)
    } else if c == '%' {
        push_and_scan(t, raw, lineno, i + 1, acc, Token::Percent)
    } else if c == '(' {
        push_and_scan(t, raw, lineno, i + 1, acc, Token::LParen)
    } else if c == ')' {
        push_and_scan(t, raw, lineno, i + 1, acc, Token::RParen)
    } else if c == '"' {
        let e = find_quote(t, i + 1);
        if e < t.len() {
            let content = subvec(t, i + 1, e);
            let tok = if ends_with_lit(&content, ".onnx") {
                Token::String(string_of(&content))
            } else {
                let mut wrapped: Vec<char> = Vec::new();
                wrapped.push('"');
                extend(&mut wrapped, &content);
                wrapped.push('"');
                proof {
                    assert(wrapped@ =~= seq!['"'] + content@ + seq!['"']);
                }
                Token::String(string_of(&wrapped))
            };
            push_and_scan(t, raw, lineno, e + 1, acc, tok)
        } else {
            Err(missing_quote_msg(lineno, raw))
        }
    } else if is_digit(c) {
        let j = digits_end(t, i + 1);
        proof {
            assert(spec_digits_end(t@, i as nat) == spec_digits_end(t@, (i + 1) as nat));
        }
        let j2 = if j < t.len() && t.len() - j > 1 && t[j] == '.' && is_digit(t[j + 1]) {
            digits_end(t, j + 1)
        } else {
            j
        };
        let tok = Token::Number(string_of(&subvec(t, i, j2)));
        push_and_scan(t, raw, lineno, j2, acc, tok)
    } else if is_alpha(c) {
        let j = word_end(t, i + 1);
        proof {
            assert(spec_word_end(t@, i as nat) == spec_word_end(t@, (i + 1) as nat));
        }
        let tok = keyword_tok(subvec(t, i, j));
        push_and_scan(t, raw, lineno, j, acc, tok)
    } else if is_ws(c) {
        scan(t, raw, lineno, i + 1, acc)
    } else {
        Err(unexpected_msg(c, lineno, raw))
    }
}

/// Pushes one token and continues the scan at `next`.
fn push_and_scan(
    t: &Vec<char>,
    raw: &Vec<char>,
    lineno: usize,
    next: usize,
    acc: &mut Vec<Token>,
    tok: Token,
) -> (r: Result<(), String>)
    requires
        next <= t@.len(),
        lineno < usize::MAX,
    ensures
        match spec_scan_cons(tok@, spec_scan(t@, raw@, lineno as nat, next as nat)) {
            Ok(ts) => r is Ok && toks_view(final(acc)@) == toks_view(old(acc)@) + ts,
            Err(e) => r matches Err(m) && m@ == e,
        },
    decreases t@.len() - next, 1nat,
{
    let ghost acc0 = acc@;
    acc.push(tok);
    proof {
        lemma_view_push(acc0, tok);
    }
    let r = scan(t, raw, lineno, next, acc);
    proof {
        match spec_scan(t@, raw@, lineno as nat, next as nat) {
            Ok(ts) => {
                assert(toks_view(acc@) =~= toks_view(acc0) + (seq![tok@] + ts));
            },
            Err(e) => {},
        }
    }
    r
}

// ---------------------------------------------------------------------------
// lines and indentation
// ---------------------------------------------------------------------------

pub open spec fn stack_view(s: Seq<usize>) -> Seq<int> {
    s.map_values(|x: usize| x as int)
}

/// Dedent tokens and the remaining stack after popping every level above
/// `ind`.
pub open spec fn spec_dedents(st: Seq<int>, ind: int) -> (Seq<Tok>, Seq<int>)
    decreases st.len(),
{
    if st.len() > 0 && ind < st.last() {
        let (ts, s2) = spec_dedents(st.drop_last(), ind);
        (seq![Tok::Dedent] + ts, s2)
    } else {
        (Seq::empty(), st)
    }
}

/// One line's tokens and the stack it leaves behind, or the lexer error.
pub open spec fn spec_tok_line(raw: Seq<char>, lineno: nat, st: Seq<int>) -> Result<
    (Seq<Tok>, Seq<int>),
    Seq<char>,
> {
    let cut = spec_cut(raw, 0, false);
    let line = raw.subrange(0, if cut <= raw.len() {
        cut as int
    } else {
        raw.len() as int
    });
    let trimmed = spec_trim(line);
    if trimmed.len() == 0 {
        Ok((Seq::empty(), st))
    } else if trimmed[0] == '#' || (trimmed.len() >= 2 && trimmed[0] == '/' && trimmed[1] == '/') {
        Ok((seq![Tok::Comment, Tok::Newline], st))
    } else {
        let ind = spec_indent_end(raw, 0) as int;
        let (itoks, st2) = if st.len() > 0 && ind > st.last() {
            (seq![Tok::Indent], st.push(ind))
        } else if st.len() > 0 && ind < st.last() {
            spec_dedents(st, ind)
        } else {
            (Seq::<Tok>::empty(), st)
        };
        match spec_scan(trimmed, raw, lineno, 0) {
            Ok(ts) => Ok((itoks + ts + seq![Tok::Newline], st2)),
            Err(e) => Err(e),
        }
    }
}

fn tok_line(raw: &Vec<char>, lineno: usize, stack: &mut Vec<usize>, acc: &mut Vec<Token>) -> (r:
    Result<(), String>)
    requires
        lineno < usize::MAX,
        old(stack)@.len() > 0,
        old(stack)@[0] == 0,
    ensures
        match spec_tok_line(raw@, lineno as nat, stack_view(old(stack)@)) {
            Ok((ts, st2)) => r is Ok && toks_view(final(acc)@) == toks_view(old(acc)@) + ts
                && stack_view(final(stack)@) == st2 && final(stack)@.len() > 0
                && final(stack)@[0] == 0,
            Err(e) => r matches Err(m) && m@ == e,
        },
{
    let cut = cut_pos(raw, 0, false);
    let line = subvec(raw, 0, cut);
    let trimmed = trim(&line);
    if trimmed.len() == 0 {
        proof {
            assert(toks_view(acc@) =~= toks_view(acc@) + Seq::<Tok>::empty());
        }
        return Ok(());
    }
    if trimmed[0] == '#' || (trimmed.len() >= 2 && trimmed[0] == '/' && trimmed[1] == '/') {
        let ghost acc0 = acc@;
        acc.push(Token::Comment);
        proof {
            lemma_view_push(acc0, Token::Comment);
        }
        let ghost acc1 = acc@;
        acc.push(Token::Newline);
        proof {
            lemma_view_push(acc1, Token::Newline);
            assert(toks_view(acc@) =~= toks_view(acc0) + seq![Tok::Comment, Tok::Newline]);
        }
        return Ok(());
    }
    let ind = indent_end(raw, 0);
    let ghost st0 = stack_view(stack@);
    let ghost acc0 = acc@;
    let top = stack[stack.len() - 1];
    if ind > top {
        stack.push(ind);
        let ghost accp = acc@;
        acc.push(Token::Indent);
        proof {
            lemma_view_push(accp, Token::Indent);
            assert(stack_view(stack@) =~= st0.push(ind as int));
        }
    } else if ind < top {
        while stack.len() > 0 && ind < stack[stack.len() - 1]
            invariant
                stack@.len() > 0,
                stack@[0] == 0,
                toks_view(acc@) + spec_dedents(stack_view(stack@), ind as int).0 == toks_view(acc0)
                    + spec_dedents(st0, ind as int).0,
                spec_dedents(stack_view(stack@), ind as int).1 == spec_dedents(
                    st0,
                    ind as int,
                ).1,
            decreases stack@.len(),
        {
            let ghost stc = stack_view(stack@);
            let ghost accc = acc@;
            proof {
                if stack@.len() == 1 {
                    assert(stack@[stack@.len() - 1] == 0);
                    assert(false);
                }
            }
            stack.pop();
            acc.push(Token::Dedent);
            proof {
                lemma_view_push(accc, Token::Dedent);
                assert(stack_view(stack@) =~= stc.drop_last());
                let (rts, rs2) = spec_dedents(stc.drop_last(), ind as int);
                assert(spec_dedents(stc, ind as int).0 == seq![Tok::Dedent] + rts);
                assert(toks_view(acc@) + rts =~= (toks_view(accc) + seq![Tok::Dedent]) + rts);
                assert((toks_view(accc) + seq![Tok::Dedent]) + rts =~= toks_view(accc) + (seq![
                    Tok::Dedent,
                ] + rts));
            }
        }
    }
    let ghost itoks = spec_tok_line_itoks(raw@, st0);
    let ghost st2 = spec_tok_line_stack(raw@, st0);
    proof {
        assert(toks_view(acc@) == toks_view(acc0) + itoks);
        assert(stack_view(stack@) == st2);
    }
    let ghost acc1 = acc@;
    let r = scan(&trimmed, raw, lineno, 0, acc);
    match r {
        Ok(()) => {
            let ghost acc2 = acc@;
            acc.push(Token::Newline);
            proof {
                lemma_view_push(acc2, Token::Newline);
                match spec_scan(trimmed@, raw@, lineno as nat, 0) {
                    Ok(ts) => {
                        assert(toks_view(acc@) =~= toks_view(acc0) + (itoks + ts + seq![
                            Tok::Newline,
                        ]));
                    },
                    Err(e) => {},
                }
            }
            Ok(())
        },
        Err(m) => Err(m),
    }
}

/// The indent/dedent tokens a content line emits, before its own tokens.
pub open spec fn spec_tok_line_itoks(raw: Seq<char>, st: Seq<int>) -> Seq<Tok> {
    let ind = spec_indent_end(raw, 0) as int;
    if st.len() > 0 && ind > st.last() {
        seq![Tok::Indent]
    } else if st.len() > 0 && ind < st.last() {
        spec_dedents(st, ind).0
    } else {
        Seq::empty()
    }
}

/// The stack a content line leaves behind.
pub open spec fn spec_tok_line_stack(raw: Seq<char>, st: Seq<int>) -> Seq<int> {
    let ind = spec_indent_end(raw, 0) as int;
    if st.len() > 0 && ind > st.last() {
        st.push(ind)
    } else if st.len() > 0 && ind < st.last() {
        spec_dedents(st, ind).1
    } else {
        st
    }
}

// ---------------------------------------------------------------------------
// whole-input tokenization
// ---------------------------------------------------------------------------

/// Tokens of the lines from `idx` on, with the stack they leave behind.
pub open spec fn spec_tok_lines(lines: Seq<Seq<char>>, idx: nat, st: Seq<int>) -> Result<
    (Seq<Tok>, Seq<int>),
    Seq<char>,
>
    decreases lines.len() - idx,
{
    if idx >= lines.len() {
        Ok((Seq::empty(), st))
    } else {
        match spec_tok_line(lines[idx as int], idx, st) {
            Ok((ts, st2)) => match spec_tok_lines(lines, idx + 1, st2) {
                Ok((rest, fs)) => Ok((ts + rest, fs)),
                Err(e) => Err(e),
            },
            Err(e) => Err(e),
        }
    }
}

/// One closing dedent for every indentation level still open.
pub open spec fn spec_close(st: Seq<int>) -> Seq<Tok>
    decreases st.len(),
{
    if st.len() > 1 {
        seq![Tok::Dedent] + spec_close(st.drop_last())
    } else {
        Seq::empty()
    }
}

/// The full token stream of a source text, or the lexer's error message.
pub open spec fn spec_tokenize(s: Seq<char>) -> Result<Seq<Tok>, Seq<char>> {
    match spec_tok_lines(spec_lines(s), 0, seq![0]) {
        Ok((ts, st)) => Ok(ts + spec_close(st)),
        Err(e) => Err(e),
    }
}

pub fn tokenize(input: &str) -> (r: Result<Vec<Token>, String>)
    ensures
        match spec_tokenize(input@) {
            Ok(ts) => r matches Ok(v) && toks_view(v@) == ts,
            Err(e) => r matches Err(m) && m@ == e,
        },
{
    let cs = chars_of(input);
    let lines = split_lines(&cs);
    let ghost lv = lines_view(lines@);
    let mut toks: Vec<Token> = Vec::new();
    let mut stack: Vec<usize> = Vec::new();
    stack.push(0);
    proof {
        assert(stack_view(stack@) =~= seq![0int]);
    }
    let mut idx: usize = 0;
    while idx < lines.len()
        invariant
            idx <= lines@.len(),
            lv == lines_view(lines@),
            lv == spec_lines(input@),
            stack@.len() > 0,
            stack@[0] == 0,
            match spec_tok_lines(lv, idx as nat, stack_view(stack@)) {
                Ok((rest, fs)) => spec_tok_lines(lv, 0, seq![0int]) == Ok::<_, Seq<char>>((
                    toks_view(toks@) + rest,
                    fs,
                )),
                Err(e) => spec_tok_lines(lv, 0, seq![0int]) == Err::<(Seq<Tok>, Seq<int>), _>(e),
            },
        decreases lines@.len() - idx,
    {
        let ghost st_before = stack_view(stack@);
        let ghost toks_before = toks_view(toks@);
        let line = &lines[idx];
        proof {
            assert(line@ == lv[idx as int]);
        }
        let r = tok_line(line, idx, &mut stack, &mut toks);
        match r {
            Ok(()) => {
                proof {
                    match spec_tok_line(lv[idx as int], idx as nat, st_before) {
                        Ok((ts, st2)) => {
                            match spec_tok_lines(lv, idx as nat + 1, st2) {
                                Ok((rest, fs)) => {
                                    assert((toks_before + ts) + rest =~= toks_before + (ts
                                        + rest));
                                },
                                Err(e) => {},
                            }
                        },
                        Err(e) => {
                            assert(false);
                        },
                    }
                }
                idx = idx + 1;
            },
            Err(m) => {
                proof {
                    match spec_tok_line(lv[idx as int], idx as nat, st_before) {
                        Ok(p) => {
                            assert(false);
                        },
                        Err(e) => {
                            assert(spec_tok_lines(lv, idx as nat, st_before) == Err::<
                                (Seq<Tok>, Seq<int>),
                                Seq<char>,
                            >(e));
                            assert(lv == spec_lines(input@));
                            assert(spec_tokenize(input@) == Err::<Seq<Tok>, Seq<char>>(e));
                        },
                    }
                }
                return Err(m);
            },
        }
    }
    proof {
        assert(spec_tok_lines(lv, idx as nat, stack_view(stack@)) == Ok::<_, Seq<char>>((
            Seq::<Tok>::empty(),
            stack_view(stack@),
        )));
        match spec_tok_lines(lv, 0, seq![0int]) {
            Ok((all, fs)) => {
                assert(toks_view(toks@) + Seq::<Tok>::empty() =~= toks_view(toks@));
            },
            Err(e) => {
                assert(false);
            },
        }
    }
    // close any indentation levels still open
    while stack.len() > 1
        invariant
            stack@.len() > 0,
            stack@[0] == 0,
            lv == spec_lines(input@),
            match spec_tok_lines(lv, 0, seq![0int]) {
                Ok((all, fs)) => toks_view(toks@) + spec_close(stack_view(stack@)) == all
                    + spec_close(fs),
                Err(e) => false,
            },
        decreases stack@.len(),
    {
        let ghost stc = stack_view(stack@);
        let ghost tv0 = toks@;
        stack.pop();
        toks.push(Token::Dedent);
        proof {
            lemma_view_push(tv0, Token::Dedent);
            assert(stack_view(stack@) =~= stc.drop_last());
            let rts = spec_close(stc.drop_last());
            assert(spec_close(stc) == seq![Tok::Dedent] + rts);
            assert((toks_view(tv0) + seq![Tok::Dedent]) + rts =~= toks_view(tv0) + (seq![
                Tok::Dedent,
            ] + rts));
        }
    }
    proof {
        match spec_tok_lines(lv, 0, seq![0int]) {
            Ok((all, fs)) => {
                assert(spec_close(stack_view(stack@)) =~= Seq::<Tok>::empty());
                assert(toks_view(toks@) + Seq::<Tok>::empty() =~= toks_view(toks@));
            },
            Err(e) => {
                assert(false);
            },
        }
    }
    Ok(toks)
}

} // verus!
