//! Character classes and the lexical layer of the parser: runs of characters,
//! comments, padding and separators over a character buffer.

use vstd::prelude::*;

verus! {

// ── Character classes (Unicode properties, as `char` defines them) ────────────

/// An ASCII letter.
pub open spec fn ascii_letter(c: char) -> bool {
    (65 <= (c as u32) && (c as u32) <= 90) || (97 <= (c as u32) && (c as u32) <= 122)
}

/// An ASCII digit.
pub open spec fn ascii_digit(c: char) -> bool {
    48 <= (c as u32) && (c as u32) <= 57
}

/// Names the result of `char::is_alphabetic` on a character outside ASCII.
pub uninterp spec fn alphabetic_beyond_ascii(c: char) -> bool;

/// Names the result of `char::is_alphanumeric` on a character outside ASCII.
pub uninterp spec fn alphanumeric_beyond_ascii(c: char) -> bool;

/// Names the result of `char::is_uppercase` on a character outside ASCII.
pub uninterp spec fn uppercase_beyond_ascii(c: char) -> bool;

/// Names the result of `char::is_lowercase` on a character outside ASCII.
pub uninterp spec fn lowercase_beyond_ascii(c: char) -> bool;

/// The Unicode `Alphabetic` property: within ASCII, exactly the letters.
pub open spec fn alphabetic(c: char) -> bool {
    if (c as u32) < 128 { ascii_letter(c) } else { alphabetic_beyond_ascii(c) }
}

/// `Alphabetic` or `Numeric`: within ASCII, exactly the letters and digits.
pub open spec fn alphanumeric(c: char) -> bool {
    if (c as u32) < 128 { ascii_letter(c) || ascii_digit(c) } else { alphanumeric_beyond_ascii(c) }
}

/// The Unicode `Uppercase` property: within ASCII, exactly `A` to `Z`.
pub open spec fn uppercase(c: char) -> bool {
    if (c as u32) < 128 { 65 <= (c as u32) && (c as u32) <= 90 } else { uppercase_beyond_ascii(c) }
}

/// The Unicode `Lowercase` property: within ASCII, exactly `a` to `z`.
pub open spec fn lowercase(c: char) -> bool {
    if (c as u32) < 128 { 97 <= (c as u32) && (c as u32) <= 122 } else { lowercase_beyond_ascii(c) }
}

/// The Unicode `White_Space` property: U+0009 to U+000D, U+0020, U+0085,
/// U+00A0, U+1680, U+2000 to U+200A, U+2028, U+2029, U+202F, U+205F and U+3000.
pub open spec fn whitespace(c: char) -> bool {
    let u = c as u32;
    (9 <= u && u <= 13) || u == 0x20 || u == 0x85 || u == 0xa0 || u == 0x1680
        || (0x2000 <= u && u <= 0x200a) || u == 0x2028 || u == 0x2029 || u == 0x202f
        || u == 0x205f || u == 0x3000
}

/// Trusted: `char::is_alphabetic`, a fixed Unicode table lookup on `c` alone
/// (for ASCII, `is_ascii_alphabetic`).
#[verifier::external_body]
fn is_alphabetic_std(c: char) -> (r: bool)
    ensures
        r == alphabetic(c),
        (c as u32) >= 128 ==> r == alphabetic_beyond_ascii(c),
{
    c.is_alphabetic()
}

/// Trusted: `char::is_alphanumeric`, a fixed Unicode table lookup on `c` alone
/// (for ASCII, `is_ascii_alphanumeric`).
#[verifier::external_body]
fn is_alphanumeric_std(c: char) -> (r: bool)
    ensures
        r == alphanumeric(c),
        (c as u32) >= 128 ==> r == alphanumeric_beyond_ascii(c),
{
    c.is_alphanumeric()
}

/// Trusted: `char::is_uppercase`, a fixed Unicode table lookup on `c` alone
/// (for ASCII, `is_ascii_uppercase`).
#[verifier::external_body]
fn is_uppercase_std(c: char) -> (r: bool)
    ensures
        r == uppercase(c),
        (c as u32) >= 128 ==> r == uppercase_beyond_ascii(c),
{
    c.is_uppercase()
}

/// Trusted: `char::is_lowercase`, a fixed Unicode table lookup on `c` alone
/// (for ASCII, `is_ascii_lowercase`).
#[verifier::external_body]
fn is_lowercase_std(c: char) -> (r: bool)
    ensures
        r == lowercase(c),
        (c as u32) >= 128 ==> r == lowercase_beyond_ascii(c),
{
    c.is_lowercase()
}

/// Trusted: `char::is_whitespace`, true exactly for the `White_Space` characters.
#[verifier::external_body]
fn is_whitespace_std(c: char) -> (r: bool)
    ensures
        r == whitespace(c),
{
    c.is_whitespace()
}

/// Characters that make up symbolic names: `!@$%^&*-+=|<>?/~.:`.
pub open spec fn sym_char(c: char) -> bool {
    c == '!' || c == '@' || c == '$' || c == '%' || c == '^' || c == '&' || c == '*' || c == '-'
        || c == '+' || c == '=' || c == '|' || c == '<' || c == '>' || c == '?' || c == '/'
        || c == '~' || c == '.' || c == ':'
}

pub open spec fn ident_start(c: char) -> bool {
    alphabetic(c) || c == '_'
}

pub open spec fn ident_char(c: char) -> bool {
    alphanumeric(c) || c == '_'
}

pub open spec fn digit(c: char) -> bool {
    '0' <= c && c <= '9'
}

pub open spec fn hspace(c: char) -> bool {
    c == ' ' || c == '\t'
}

pub fn is_sym_char(c: char) -> (r: bool)
    ensures
        r == sym_char(c),
{
    c == '!' || c == '@' || c == '$' || c == '%' || c == '^' || c == '&' || c == '*' || c == '-'
        || c == '+' || c == '=' || c == '|' || c == '<' || c == '>' || c == '?' || c == '/'
        || c == '~' || c == '.' || c == ':'
}

pub fn is_ident_start(c: char) -> (r: bool)
    ensures
        r == ident_start(c),
{
    c == '_' || is_alphabetic_std(c)
}

pub fn is_ident_char(c: char) -> (r: bool)
    ensures
        r == ident_char(c),
{
    c == '_' || is_alphanumeric_std(c)
}

pub fn is_upper(c: char) -> (r: bool)
    ensures
        r == uppercase(c),
        (c as u32) >= 128 ==> r == uppercase_beyond_ascii(c),
{
    is_uppercase_std(c)
}

pub fn is_lower(c: char) -> (r: bool)
    ensures
        r == lowercase(c),
        (c as u32) >= 128 ==> r == lowercase_beyond_ascii(c),
{
    is_lowercase_std(c)
}

pub fn is_alpha(c: char) -> (r: bool)
    ensures
        r == alphabetic(c),
        (c as u32) >= 128 ==> r == alphabetic_beyond_ascii(c),
{
    is_alphabetic_std(c)
}

pub fn is_alnum(c: char) -> (r: bool)
    ensures
        r == alphanumeric(c),
        (c as u32) >= 128 ==> r == alphanumeric_beyond_ascii(c),
{
    is_alphanumeric_std(c)
}

pub fn is_ws(c: char) -> (r: bool)
    ensures
        r == whitespace(c),
{
    is_whitespace_std(c)
}

pub fn is_digit(c: char) -> (r: bool)
    ensures
        r == digit(c),
{
    '0' <= c && c <= '9'
}

// ── Runs ──────────────────────────────────────────────────────────────────────

/// The end of the longest run of characters from `p` on that satisfy `f`.
pub open spec fn run_end(s: Seq<char>, p: int, f: spec_fn(char) -> bool) -> int
    decreases s.len() - p,
{
    if 0 <= p < s.len() && f(s[p]) { run_end(s, p + 1, f) } else { p }
}

/// The end of the run of identifier characters from `p`.
pub open spec fn ident_end(s: Seq<char>, p: int) -> int {
    run_end(s, p, |c: char| ident_char(c))
}

/// The end of the run of symbolic characters from `p`.
pub open spec fn sym_end(s: Seq<char>, p: int) -> int {
    run_end(s, p, |c: char| sym_char(c))
}

/// The end of the run of decimal digits from `p`.
pub open spec fn digits_end(s: Seq<char>, p: int) -> int {
    run_end(s, p, |c: char| digit(c))
}

/// The end of the run of letters and digits from `p`.
pub open spec fn alnum_end(s: Seq<char>, p: int) -> int {
    run_end(s, p, |c: char| alphanumeric(c))
}

/// The end of the run of spaces and tabs from `p`.
pub open spec fn hws_end(s: Seq<char>, p: int) -> int {
    run_end(s, p, |c: char| hspace(c))
}

/// The end of the run of whitespace from `p`.
pub open spec fn ws_end(s: Seq<char>, p: int) -> int {
    run_end(s, p, |c: char| whitespace(c))
}

/// The end of the line that `p` is on: the next `\n`, or the end of the text.
pub open spec fn line_end(s: Seq<char>, p: int) -> int {
    run_end(s, p, |c: char| c != '\n')
}

pub fn scan_ident_chars(s: &Vec<char>, p: usize) -> (q: usize)
    requires
        p <= s.len(),
    ensures
        q == ident_end(s@, p as int),
        p <= q <= s.len(),
{
    let mut q = p;
    while q < s.len() && is_ident_char(s[q])
        invariant
            p <= q <= s.len(),
            ident_end(s@, p as int) == ident_end(s@, q as int),
        decreases s.len() - q,
    {
        q += 1;
    }
    q
}

pub fn scan_sym_chars(s: &Vec<char>, p: usize) -> (q: usize)
    requires
        p <= s.len(),
    ensures
        q == sym_end(s@, p as int),
        p <= q <= s.len(),
{
    let mut q = p;
    while q < s.len() && is_sym_char(s[q])
        invariant
            p <= q <= s.len(),
            sym_end(s@, p as int) == sym_end(s@, q as int),
        decreases s.len() - q,
    {
        q += 1;
    }
    q
}

pub fn scan_digits(s: &Vec<char>, p: usize) -> (q: usize)
    requires
        p <= s.len(),
    ensures
        q == digits_end(s@, p as int),
        p <= q <= s.len(),
        forall|j: int| p <= j < q ==> digit(#[trigger] s@[j]),
{
    let mut q = p;
    while q < s.len() && is_digit(s[q])
        invariant
            p <= q <= s.len(),
            digits_end(s@, p as int) == digits_end(s@, q as int),
            forall|j: int| p <= j < q ==> digit(#[trigger] s@[j]),
        decreases s.len() - q,
    {
        q += 1;
    }
    q
}

pub fn scan_alnum(s: &Vec<char>, p: usize) -> (q: usize)
    requires
        p <= s.len(),
    ensures
        q == alnum_end(s@, p as int),
        p <= q <= s.len(),
{
    let mut q = p;
    while q < s.len() && is_alnum(s[q])
        invariant
            p <= q <= s.len(),
            alnum_end(s@, p as int) == alnum_end(s@, q as int),
        decreases s.len() - q,
    {
        q += 1;
    }
    q
}

pub fn hws(s: &Vec<char>, p: usize) -> (q: usize)
    requires
        p <= s.len(),
    ensures
        q == hws_end(s@, p as int),
        p <= q <= s.len(),
{
    let mut q = p;
    while q < s.len() && (s[q] == ' ' || s[q] == '\t')
        invariant
            p <= q <= s.len(),
            hws_end(s@, p as int) == hws_end(s@, q as int),
        decreases s.len() - q,
    {
        q += 1;
    }
    q
}

pub fn ws(s: &Vec<char>, p: usize) -> (q: usize)
    requires
        p <= s.len(),
    ensures
        q == ws_end(s@, p as int),
        p <= q <= s.len(),
{
    let mut q = p;
    while q < s.len() && is_ws(s[q])
        invariant
            p <= q <= s.len(),
            ws_end(s@, p as int) == ws_end(s@, q as int),
        decreases s.len() - q,
    {
        q += 1;
    }
    q
}

/// Whether `s` holds `lit` at `p`.
pub open spec fn at(s: Seq<char>, p: int, lit: Seq<char>) -> bool {
    0 <= p && p + lit.len() <= s.len() && s.subrange(p, p + lit.len()) == lit
}

pub fn looking_at(s: &Vec<char>, p: usize, lit: &str) -> (r: bool)
    requires
        p <= s.len(),
    ensures
        r == at(s@, p as int, lit@),
{
    let n = lit.unicode_len();
    if n > s.len() - p {
        return false;
    }
    let mut i: usize = 0;
    while i < n
        invariant
            i <= n,
            n == lit@.len(),
            p + n <= s.len(),
            forall|j: int| 0 <= j < i ==> s@[p + j] == lit@[j],
        decreases n - i,
    {
        if s[p + i] != lit.get_char(i) {
            assert(s@.subrange(p as int, p + n)[i as int] != lit@[i as int]);
            return false;
        }
        i += 1;
    }
    assert(s@.subrange(p as int, p + n) =~= lit@);
    true
}

// ── Comments and padding ──────────────────────────────────────────────────────

/// A position found or not, as an integer.
pub open spec fn opt_int(r: Option<usize>) -> Option<int> {
    match r {
        Some(q) => Some(q as int),
        None => None,
    }
}

/// The first position from `q` on where `lit` starts, or the end of the text.
pub open spec fn find_from(s: Seq<char>, q: int, lit: Seq<char>) -> int
    decreases s.len() - q,
{
    if q < 0 || q >= s.len() || at(s, q, lit) {
        q
    } else {
        find_from(s, q + 1, lit)
    }
}

/// The end of the comment at `p`, if one starts there: a block comment
/// `--- … ---` that is closed, or else `--` up to the end of the line.
pub open spec fn comment_s(s: Seq<char>, p: int) -> Option<int> {
    if at(s, p, "---"@) && find_from(s, p + 3, "---"@) < s.len() {
        Some(find_from(s, p + 3, "---"@) + 3)
    } else if at(s, p, "--"@) {
        Some(line_end(s, p + 2))
    } else {
        None
    }
}

/// The end of the whitespace and comments from `p`.
pub open spec fn padding_s(s: Seq<char>, p: int) -> int
    decreases s.len() - p,
{
    if 0 <= p < s.len() && whitespace(s[p]) {
        padding_s(s, p + 1)
    } else {
        match comment_s(s, p) {
            Some(r) => if p < r <= s.len() { padding_s(s, r) } else { p },
            None => p,
        }
    }
}

/// At least one whitespace character or comment from `p`: the end of them all.
pub open spec fn ws1_s(s: Seq<char>, p: int) -> Option<int> {
    if padding_s(s, p) > p { Some(padding_s(s, p)) } else { None }
}

/// An item separator from `p`: spaces, an optional comment, then `;` or a
/// newline, then any whitespace.
pub open spec fn sep_s(s: Seq<char>, p: int) -> Option<int> {
    let q = hws_end(s, p);
    let q1 = match comment_s(s, q) {
        Some(r) => r,
        None => q,
    };
    if 0 <= q1 < s.len() && (s[q1] == ';' || s[q1] == '\n') {
        Some(ws_end(s, q1 + 1))
    } else {
        None
    }
}

pub fn comment(s: &Vec<char>, p: usize) -> (r: Option<usize>)
    requires
        p <= s.len(),
    ensures
        opt_int(r) == comment_s(s@, p as int),
        match r {
            Some(q) => p + 2 <= q <= s.len(),
            None => !at(s@, p as int, "--"@),
        },
{
    proof {
        reveal_strlit("---");
        reveal_strlit("--");
    }
    if looking_at(s, p, "---") {
        // Block comment: look for the closing `---`.
        let mut q = p + 3;
        while q < s.len() && !looking_at(s, q, "---")
            invariant
                p + 3 <= q <= s.len(),
                find_from(s@, p + 3, "---"@) == find_from(s@, q as int, "---"@),
            decreases s.len() - q,
        {
            q += 1;
        }
        if q < s.len() {
            return Some(q + 3);
        }
    }
    if looking_at(s, p, "--") {
        let mut q = p + 2;
        while q < s.len() && s[q] != '\n'
            invariant
                p + 2 <= q <= s.len(),
                line_end(s@, p + 2) == line_end(s@, q as int),
            decreases s.len() - q,
        {
            q += 1;
        }
        Some(q)
    } else {
        None
    }
}

/// Skips any mix of whitespace and comments.
pub fn padding(s: &Vec<char>, p: usize) -> (q: usize)
    requires
        p <= s.len(),
    ensures
        q == padding_s(s@, p as int),
        p <= q <= s.len(),
{
    let mut q = p;
    loop
        invariant
            p <= q <= s.len(),
            padding_s(s@, p as int) == padding_s(s@, q as int),
        ensures
            p <= q <= s.len(),
            padding_s(s@, p as int) == q,
        decreases s.len() - q,
    {
        if q < s.len() && is_ws(s[q]) {
            q += 1;
        } else {
            match comment(s, q) {
                Some(r) => {
                    q = r;
                },
                None => {
                    break;
                },
            }
        }
    }
    q
}

/// At least one whitespace character or comment, then any more.
pub fn ws1(s: &Vec<char>, p: usize) -> (r: Option<usize>)
    requires
        p <= s.len(),
    ensures
        opt_int(r) == ws1_s(s@, p as int),
        match r {
            Some(q) => p < q <= s.len(),
            None => true,
        },
{
    let q = padding(s, p);
    if q > p { Some(q) } else { None }
}

/// An item separator: spaces, an optional comment, `;` or a newline, then any
/// whitespace.
pub fn sep(s: &Vec<char>, p: usize) -> (r: Option<usize>)
    requires
        p <= s.len(),
    ensures
        opt_int(r) == sep_s(s@, p as int),
        match r {
            Some(q) => p < q <= s.len(),
            None => true,
        },
{
    let mut q = hws(s, p);
    if let Some(r) = comment(s, q) {
        q = r;
    }
    if q < s.len() && (s[q] == ';' || s[q] == '\n') {
        Some(ws(s, q + 1))
    } else {
        None
    }
}

} // verus!
