//! Character and string utilities shared by the lexer, the evaluator and the
//! macro synthesizer.
//!
//! All text is handled as `Vec<char>` internally; `String` appears only at
//! the public boundaries. Keywords and operators of the language are ASCII,
//! so case folding is ASCII case folding throughout.

use vstd::prelude::*;

verus! {

/// Relies on `String::push`: appends the given character to the end of the string.
pub assume_specification[ std::string::String::push ](s: &mut std::string::String, c: char)
    ensures
        final(s)@ == old(s)@.push(c),
;

// ---------------------------------------------------------------------------
// character classes
// ---------------------------------------------------------------------------

pub open spec fn spec_is_digit(c: char) -> bool {
    '0' <= c && c <= '9'
}

pub open spec fn spec_is_upper(c: char) -> bool {
    'A' <= c && c <= 'Z'
}

pub open spec fn spec_is_lower_letter(c: char) -> bool {
    'a' <= c && c <= 'z'
}

pub open spec fn spec_is_alpha(c: char) -> bool {
    spec_is_upper(c) || spec_is_lower_letter(c)
}

pub open spec fn spec_is_alnum_us(c: char) -> bool {
    spec_is_alpha(c) || spec_is_digit(c) || c == '_'
}

pub open spec fn spec_is_ws(c: char) -> bool {
    c == ' ' || c == '\t' || c == '\r' || c == '\n'
}

/// ASCII case folding, as a code point.
pub open spec fn spec_lower_u(c: char) -> int {
    if spec_is_upper(c) {
        (c as u32) + 32
    } else {
        (c as u32) as int
    }
}

pub open spec fn spec_eq_ci(a: char, b: char) -> bool {
    spec_lower_u(a) == spec_lower_u(b)
}

pub fn is_digit(c: char) -> (r: bool)
    ensures
        r == spec_is_digit(c),
{
    '0' <= c && c <= '9'
}

pub fn is_upper(c: char) -> (r: bool)
    ensures
        r == spec_is_upper(c),
{
    'A' <= c && c <= 'Z'
}

pub fn is_alpha(c: char) -> (r: bool)
    ensures
        r == spec_is_alpha(c),
{
    ('A' <= c && c <= 'Z') || ('a' <= c && c <= 'z')
}

pub fn is_alnum_us(c: char) -> (r: bool)
    ensures
        r == spec_is_alnum_us(c),
{
    is_alpha(c) || is_digit(c) || c == '_'
}

pub fn is_ws(c: char) -> (r: bool)
    ensures
        r == spec_is_ws(c),
{
    c == ' ' || c == '\t' || c == '\r' || c == '\n'
}

pub fn lower_u(c: char) -> (r: u32)
    ensures
        r == spec_lower_u(c),
{
    if is_upper(c) {
        (c as u32) + 32
    } else {
        c as u32
    }
}

pub fn eq_ci(a: char, b: char) -> (r: bool)
    ensures
        r == spec_eq_ci(a, b),
{
    lower_u(a) == lower_u(b)
}

// ---------------------------------------------------------------------------
// String <-> Vec<char>
// ---------------------------------------------------------------------------

/// Collects the characters of a string slice.
pub fn chars_of(s: &str) -> (r: Vec<char>)
    ensures
        r@ == s@,
{
    broadcast use vstd::string::next_postcondition, vstd::string::axiom_spec_iter;

    let mut it = s.chars();
    let mut v: Vec<char> = Vec::new();
    loop
        invariant
            vstd::std_specs::iter::IteratorSpec::obeys_prophetic_iter_laws(&it),
            v@ + vstd::std_specs::iter::IteratorSpec::remaining(&it) == s@,
            v@.len() <= s@.len(),
        ensures
            v@ == s@,
        decreases s@.len() - v@.len(),
    {
        match it.next() {
            Some(c) => {
                v.push(c);
            },
            None => {
                proof {
                    assert(v@ =~= s@);
                }
                break ;
            },
        }
    }
    v
}

/// Builds a `String` from a character vector.
pub fn string_of(v: &Vec<char>) -> (r: String)
    ensures
        r@ == v@,
{
    let mut s = String::new();
    let mut i: usize = 0;
    while i < v.len()
        invariant
            i <= v.len(),
            s@ == v@.subrange(0, i as int),
        decreases v.len() - i,
    {
        s.push(v[i]);
        i = i + 1;
        proof {
            assert(s@ =~= v@.subrange(0, i as int));
        }
    }
    proof {
        assert(s@ =~= v@);
    }
    s
}

// ---------------------------------------------------------------------------
// basic vector operations
// ---------------------------------------------------------------------------

/// Copy of `v[a..b]`.
pub fn subvec(v: &Vec<char>, a: usize, b: usize) -> (r: Vec<char>)
    requires
        a <= b,
        b <= v@.len(),
    ensures
        r@ == v@.subrange(a as int, b as int),
{
    let mut out: Vec<char> = Vec::new();
    let mut i: usize = a;
    while i < b
        invariant
            a <= i <= b,
            b <= v@.len(),
            out@ == v@.subrange(a as int, i as int),
        decreases b - i,
    {
        out.push(v[i]);
        i = i + 1;
        proof {
            assert(out@ =~= v@.subrange(a as int, i as int));
        }
    }
    out
}

/// Appends all of `src` to `dst`.
pub fn extend(dst: &mut Vec<char>, src: &Vec<char>)
    ensures
        final(dst)@ == old(dst)@ + src@,
{
    let mut i: usize = 0;
    while i < src.len()
        invariant
            i <= src.len(),
            dst@ == old(dst)@ + src@.subrange(0, i as int),
        decreases src.len() - i,
    {
        dst.push(src[i]);
        i = i + 1;
        proof {
            assert(dst@ =~= old(dst)@ + src@.subrange(0, i as int));
        }
    }
    proof {
        assert(dst@ =~= old(dst)@ + src@);
    }
}

/// Appends the characters of a (keyword) string slice to `dst`.
pub fn extend_str(dst: &mut Vec<char>, src: &str)
    ensures
        final(dst)@ == old(dst)@ + src@,
{
    let v = chars_of(src);
    extend(dst, &v);
}

pub fn chars_eq(a: &Vec<char>, b: &Vec<char>) -> (r: bool)
    ensures
        r == (a@ == b@),
{
    if a.len() != b.len() {
        return false;
    }
    let mut i: usize = 0;
    while i < a.len()
        invariant
            a@.len() == b@.len(),
            i <= a@.len(),
            forall|k: int| 0 <= k < i ==> a@[k] == b@[k],
        decreases a.len() - i,
    {
        if a[i] != b[i] {
            return false;
        }
        i = i + 1;
    }
    proof {
        assert(a@ =~= b@);
    }
    true
}

/// Case-insensitive (ASCII) equality of two character sequences.
pub open spec fn spec_seq_eq_ci(a: Seq<char>, b: Seq<char>) -> bool {
    a.len() == b.len() && forall|k: int| 0 <= k < a.len() ==> spec_eq_ci(a[k], b[k])
}

pub fn chars_eq_ci(a: &Vec<char>, b: &Vec<char>) -> (r: bool)
    ensures
        r == spec_seq_eq_ci(a@, b@),
{
    if a.len() != b.len() {
        return false;
    }
    let mut i: usize = 0;
    while i < a.len()
        invariant
            a@.len() == b@.len(),
            i <= a@.len(),
            forall|k: int| 0 <= k < i ==> spec_eq_ci(a@[k], b@[k]),
        decreases a.len() - i,
    {
        if !eq_ci(a[i], b[i]) {
            return false;
        }
        i = i + 1;
    }
    true
}

// ---------------------------------------------------------------------------
// searching
// ---------------------------------------------------------------------------

/// The needle matches (case-insensitively) at position `i` of the haystack.
pub open spec fn spec_match_ci_at(h: Seq<char>, n: Seq<char>, i: int) -> bool {
    0 <= i && i + n.len() <= h.len() && forall|k: int| 0 <= k < n.len() ==> spec_eq_ci(h[i + k], n[k])
}

pub fn match_ci_at(h: &Vec<char>, n: &Vec<char>, i: usize) -> (r: bool)
    ensures
        r == spec_match_ci_at(h@, n@, i as int),
{
    let hl = h.len();
    if i > hl || n.len() > hl - i {
        return false;
    }
    let mut k: usize = 0;
    while k < n.len()
        invariant
            hl == h@.len(),
            i + n@.len() <= hl,
            k <= n@.len(),
            forall|j: int| 0 <= j < k ==> spec_eq_ci(h@[i + j], n@[j]),
        decreases n.len() - k,
    {
        if !eq_ci(h[i + k], n[k]) {
            return false;
        }
        k = k + 1;
    }
    true
}

/// Index of the first case-insensitive occurrence of `n` at or after `from`.
pub open spec fn spec_find_ci_from(h: Seq<char>, n: Seq<char>, from: int) -> Option<int>
    decreases h.len() + 1 - from,
{
    if from < 0 || from + n.len() > h.len() {
        None
    } else if spec_match_ci_at(h, n, from) {
        Some(from)
    } else {
        spec_find_ci_from(h, n, from + 1)
    }
}

pub fn find_ci_from(h: &Vec<char>, n: &Vec<char>, from: usize) -> (r: Option<usize>)
    ensures
        match r {
            Some(i) => from <= i && spec_find_ci_from(h@, n@, from as int) == Some(i as int) && i
                + n@.len() <= h@.len() && spec_match_ci_at(h@, n@, i as int),
            None => spec_find_ci_from(h@, n@, from as int) is None,
        },
    decreases h@.len() + 1 - from,
{
    if from > h.len() || n.len() > h.len() - from {
        return None;
    }
    if match_ci_at(h, n, from) {
        return Some(from);
    }
    find_ci_from(h, n, from + 1)
}

/// Index of the last case-insensitive occurrence of `n` in `h`.
pub open spec fn spec_rfind_ci(h: Seq<char>, n: Seq<char>, upto: int) -> Option<int>
    decreases upto + 1,
{
    if upto < 0 {
        None
    } else if spec_match_ci_at(h, n, upto) {
        Some(upto)
    } else {
        spec_rfind_ci(h, n, upto - 1)
    }
}

pub fn rfind_ci(h: &Vec<char>, n: &Vec<char>, upto: usize) -> (r: Option<usize>)
    ensures
        match r {
            Some(i) => i <= upto && spec_rfind_ci(h@, n@, upto as int) == Some(i as int) && i
                + n@.len() <= h@.len() && spec_match_ci_at(h@, n@, i as int),
            None => spec_rfind_ci(h@, n@, upto as int) is None,
        },
    decreases upto + 1,
{
    if match_ci_at(h, n, upto) {
        return Some(upto);
    }
    if upto == 0 {
        proof {
            reveal_with_fuel(spec_rfind_ci, 2);
        }
        return None;
    }
    rfind_ci(h, n, upto - 1)
}

pub open spec fn spec_contains_ci(h: Seq<char>, n: Seq<char>) -> bool {
    spec_find_ci_from(h, n, 0) is Some
}

pub fn contains_ci(h: &Vec<char>, n: &Vec<char>) -> (r: bool)
    ensures
        r == spec_contains_ci(h@, n@),
{
    find_ci_from(h, n, 0).is_some()
}

/// `h` contains the literal `lit`, case-insensitively.
pub fn contains_lit(h: &Vec<char>, lit: &str) -> (r: bool)
    ensures
        r == spec_contains_ci(h@, lit@),
{
    let n = chars_of(lit);
    contains_ci(h, &n)
}

pub open spec fn spec_starts_with_ci(h: Seq<char>, n: Seq<char>) -> bool {
    spec_match_ci_at(h, n, 0)
}

pub fn starts_with_lit(h: &Vec<char>, lit: &str) -> (r: bool)
    ensures
        r == spec_starts_with_ci(h@, lit@),
{
    let n = chars_of(lit);
    match_ci_at(h, &n, 0)
}

// ---------------------------------------------------------------------------
// trimming
// ---------------------------------------------------------------------------

/// First index at or after `i` that does not hold whitespace.
pub open spec fn spec_skip_ws(s: Seq<char>, i: int) -> int
    decreases s.len() - i,
{
    if 0 <= i < s.len() && spec_is_ws(s[i]) {
        spec_skip_ws(s, i + 1)
    } else {
        i
    }
}

pub fn skip_ws(s: &Vec<char>, i: usize) -> (r: usize)
    requires
        i <= s@.len(),
    ensures
        r == spec_skip_ws(s@, i as int),
        i <= r <= s@.len(),
    decreases s@.len() - i,
{
    if i < s.len() && is_ws(s[i]) {
        skip_ws(s, i + 1)
    } else {
        i
    }
}

/// Last whitespace-free prefix end: index such that everything from it to `j`
/// (exclusive) is whitespace.
pub open spec fn spec_rskip_ws(s: Seq<char>, j: int) -> int
    decreases j,
{
    if 0 < j <= s.len() && spec_is_ws(s[j - 1]) {
        spec_rskip_ws(s, j - 1)
    } else {
        j
    }
}

pub fn rskip_ws(s: &Vec<char>, j: usize) -> (r: usize)
    requires
        j <= s@.len(),
    ensures
        r == spec_rskip_ws(s@, j as int),
        r <= j,
    decreases j,
{
    if 0 < j && j <= s.len() && is_ws(s[j - 1]) {
        rskip_ws(s, j - 1)
    } else {
        j
    }
}

/// Whitespace trimmed from both ends.
pub open spec fn spec_trim(s: Seq<char>) -> Seq<char> {
    let a = spec_skip_ws(s, 0);
    let b = spec_rskip_ws(s, s.len() as int);
    if a <= b {
        s.subrange(a, b)
    } else {
        Seq::empty()
    }
}

pub fn trim(s: &Vec<char>) -> (r: Vec<char>)
    ensures
        r@ == spec_trim(s@),
{
    let a = skip_ws(s, 0);
    let b = rskip_ws(s, s.len());
    if a <= b {
        subvec(s, a, b)
    } else {
        let out: Vec<char> = Vec::new();
        proof {
            assert(out@ =~= Seq::<char>::empty());
        }
        out
    }
}

// ---------------------------------------------------------------------------
// number rendering helpers
// ---------------------------------------------------------------------------

pub open spec fn spec_digit_char(d: int) -> char {
    if d == 0 {
        '0'
    } else if d == 1 {
        '1'
    } else if d == 2 {
        '2'
    } else if d == 3 {
        '3'
    } else if d == 4 {
        '4'
    } else if d == 5 {
        '5'
    } else if d == 6 {
        '6'
    } else if d == 7 {
        '7'
    } else if d == 8 {
        '8'
    } else {
        '9'
    }
}

pub fn digit_char(d: u8) -> (r: char)
    requires
        d < 10,
    ensures
        r == spec_digit_char(d as int),
{
    if d == 0 {
        '0'
    } else if d == 1 {
        '1'
    } else if d == 2 {
        '2'
    } else if d == 3 {
        '3'
    } else if d == 4 {
        '4'
    } else if d == 5 {
        '5'
    } else if d == 6 {
        '6'
    } else if d == 7 {
        '7'
    } else if d == 8 {
        '8'
    } else {
        '9'
    }
}

pub open spec fn spec_digit_val(c: char) -> int {
    (c as u32) - ('0' as u32)
}

pub fn digit_val(c: char) -> (r: u32)
    requires
        spec_is_digit(c),
    ensures
        r == spec_digit_val(c),
        r < 10,
{
    (c as u32) - ('0' as u32)
}

} // verus!
