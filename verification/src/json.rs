//! The reply format: a JSON object `{"issues": [...]}` holding an ordered
//! list of issues, each `{"line": L, "column": C, "message": M}`.
//!
//! The model's reply is untrusted text, so the grammar is pinned down here
//! as specification functions over character sequences, and the executable
//! parser is proved to return exactly what the grammar denotes.  Unknown
//! extra fields are skipped (up to a fixed nesting depth, as a JSON reader
//! with a recursion limit would); a missing field, a duplicated field, a
//! malformed number or string, or trailing text is a parse failure.
//!
//! The same module states how the format is written: a canonical
//! rendering of an envelope for any issue list, with a proof that
//! parsing a rendered envelope returns exactly the issues it holds.

use vstd::prelude::*;
use vstd::string::StrSliceExecFns;
use vstd::string::StringExecFns;
use crate::ollama::GrammarIssue;
use crate::ollama::IssueView;

verus! {

/// Relies on String::push: appends the given character to the end.
#[verifier::external_body]
fn push_char(s: &mut String, c: char)
    ensures
        final(s)@ == old(s)@.push(c),
{
    s.push(c)
}

/// Relies on char::from_u32: yields the character with the given code
/// point, or `None` for a surrogate or a value past the largest code
/// point.
#[verifier::external_body]
fn char_of_u32(v: u32) -> (r: Option<char>)
    ensures
        (r is Some) == (v < 0xD800 || (0xE000 <= v && v <= 0x10FFFF)),
        r matches Some(c) ==> c as u32 == v,
{
    char::from_u32(v)
}

/// Nesting depth allowed when skipping an unknown field's value.
pub const SKIP_DEPTH: u32 = 126;

/// JSON whitespace.
pub open spec fn is_ws(c: char) -> bool {
    c == ' ' || c == '\t' || c == '\n' || c == '\r'
}

/// A decimal digit.
pub open spec fn is_digit(c: char) -> bool {
    '0' <= c && c <= '9'
}

/// The value of a decimal digit.
pub open spec fn digit_val(c: char) -> int {
    c as u32 - '0' as u32
}

/// The first index at or after `i` holding a non-whitespace character.
pub open spec fn skip_ws(s: Seq<char>, i: int) -> int
    decreases s.len() - i,
{
    if 0 <= i < s.len() && is_ws(s[i]) {
        skip_ws(s, i + 1)
    } else {
        i
    }
}

/// The first index at or after `i` holding a non-digit character.
pub open spec fn digit_run_end(s: Seq<char>, i: int) -> int
    decreases s.len() - i,
{
    if 0 <= i < s.len() && is_digit(s[i]) {
        digit_run_end(s, i + 1)
    } else {
        i
    }
}

/// The value of the decimal digits `s[i..j)`.
pub open spec fn digits_val(s: Seq<char>, i: int, j: int) -> int
    decreases j - i,
{
    if j <= i {
        0
    } else {
        digits_val(s, i, j - 1) * 10 + digit_val(s[j - 1])
    }
}

/// Powers of ten.
pub open spec fn pow10(n: nat) -> int
    decreases n,
{
    if n == 0 {
        1
    } else {
        10 * pow10((n - 1) as nat)
    }
}


/// A number as the reply format accepts it for a line or column: a plain
/// unsigned decimal integer that fits in `u32`, without a leading zero,
/// not continued by a fraction or exponent.
pub open spec fn parse_number(s: Seq<char>, i: int) -> Option<(u32, int)> {
    let j = digit_run_end(s, i);
    if j == i {
        None
    } else if s[i] == '0' && j > i + 1 {
        None
    } else if j - i > 10 {
        None
    } else if digits_val(s, i, j) > u32::MAX {
        None
    } else if j < s.len() && (s[j] == '.' || s[j] == 'e' || s[j] == 'E') {
        None
    } else {
        Some((digits_val(s, i, j) as u32, j))
    }
}

/// What a single-character escape denotes, if it is one.
pub open spec fn unescape(c: char) -> Option<char> {
    if c == '"' {
        Some('"')
    } else if c == '\\' {
        Some('\\')
    } else if c == '/' {
        Some('/')
    } else if c == 'b' {
        Some('\u{8}')
    } else if c == 'f' {
        Some('\u{c}')
    } else if c == 'n' {
        Some('\n')
    } else if c == 'r' {
        Some('\r')
    } else if c == 't' {
        Some('\t')
    } else {
        None
    }
}

/// A hexadecimal digit's value, if the character is one.
pub open spec fn hex_val(c: char) -> Option<u32> {
    if '0' <= c && c <= '9' {
        Some((c as u32 - '0' as u32) as u32)
    } else if 'a' <= c && c <= 'f' {
        Some((c as u32 - 'a' as u32 + 10) as u32)
    } else if 'A' <= c && c <= 'F' {
        Some((c as u32 - 'A' as u32 + 10) as u32)
    } else {
        None
    }
}

/// The code point of a `\uXXXX` escape whose four digits start at `i`,
/// if all four are hexadecimal.
pub open spec fn hex4_val(s: Seq<char>, i: int) -> Option<u32> {
    match (hex_val(s[i]), hex_val(s[i + 1]), hex_val(s[i + 2]), hex_val(s[i + 3])) {
        (Some(a), Some(b), Some(c), Some(d)) => Some((a * 4096 + b * 256 + c * 16 + d) as u32),
        _ => None,
    }
}

/// A high surrogate, usable only as the first half of a pair.
pub open spec fn is_high_surrogate(v: u32) -> bool {
    0xD800 <= v && v <= 0xDBFF
}

/// A low surrogate, usable only as the second half of a pair.
pub open spec fn is_low_surrogate(v: u32) -> bool {
    0xDC00 <= v && v <= 0xDFFF
}

/// The code point a surrogate pair stands for.
pub open spec fn surrogate_pair_val(v: u32, w: u32) -> u32 {
    (0x10000 + (v - 0xD800) * 0x400 + (w - 0xDC00)) as u32
}

/// The body of a JSON string from `i` (just after the opening quote) to
/// its closing quote: the characters it denotes and the index after the
/// closing quote.  Unescaped control characters, bad escapes, surrogate
/// code points and an unterminated string are failures.
pub open spec fn parse_string_body(s: Seq<char>, i: int) -> Option<(Seq<char>, int)>
    decreases s.len() - i,
{
    if i < 0 || i >= s.len() {
        None
    } else if s[i] == '"' {
        Some((Seq::empty(), i + 1))
    } else if s[i] == '\\' {
        if s.len() - i < 2 {
            None
        } else if s[i + 1] == 'u' {
            if s.len() - i < 6 {
                None
            } else {
                match hex4_val(s, i + 2) {
                    Some(v) => if is_low_surrogate(v) {
                        None
                    } else if is_high_surrogate(v) {
                        if s.len() - i < 12 {
                            None
                        } else if s[i + 6] == '\\' && s[i + 7] == 'u' {
                            match hex4_val(s, i + 8) {
                                Some(w) => if is_low_surrogate(w) {
                                    match parse_string_body(s, i + 12) {
                                        Some(p) => Some(
                                            (seq![surrogate_pair_val(v, w) as char] + p.0, p.1),
                                        ),
                                        None => None,
                                    }
                                } else {
                                    None
                                },
                                None => None,
                            }
                        } else {
                            None
                        }
                    } else {
                        match parse_string_body(s, i + 6) {
                            Some(p) => Some((seq![v as char] + p.0, p.1)),
                            None => None,
                        }
                    },
                    None => None,
                }
            }
        } else {
            match unescape(s[i + 1]) {
                Some(c) => match parse_string_body(s, i + 2) {
                    Some(p) => Some((seq![c] + p.0, p.1)),
                    None => None,
                },
                None => None,
            }
        }
    } else if (s[i] as u32) < 0x20 {
        None
    } else {
        match parse_string_body(s, i + 1) {
            Some(p) => Some((seq![s[i]] + p.0, p.1)),
            None => None,
        }
    }
}

/// A complete JSON string starting at `i` with its opening quote.
pub open spec fn parse_string(s: Seq<char>, i: int) -> Option<(Seq<char>, int)> {
    if 0 <= i < s.len() && s[i] == '"' {
        parse_string_body(s, i + 1)
    } else {
        None
    }
}

/// The first index at or after `i` past any characters that can make up a
/// JSON number token.
pub open spec fn number_token_end(s: Seq<char>, i: int) -> int
    decreases s.len() - i,
{
    if 0 <= i < s.len() && (is_digit(s[i]) || s[i] == '-' || s[i] == '+' || s[i] == '.'
        || s[i] == 'e' || s[i] == 'E') {
        number_token_end(s, i + 1)
    } else {
        i
    }
}

/// Skips one JSON value of an unknown field, returning the index after
/// it.  `depth` bounds the nesting of arrays and objects, like a JSON
/// reader's recursion limit; a deeper value is a failure.
pub open spec fn skip_value(s: Seq<char>, i: int, depth: nat) -> Option<int>
    decreases depth, s.len() - i, 2int,
{
    if i < 0 || i >= s.len() {
        None
    } else if s[i] == '"' {
        match parse_string(s, i) {
            Some(p) => Some(p.1),
            None => None,
        }
    } else if s[i] == 't' {
        if s.len() - i >= 4 && s[i + 1] == 'r' && s[i + 2] == 'u' && s[i + 3] == 'e' {
            Some(i + 4)
        } else {
            None
        }
    } else if s[i] == 'f' {
        if s.len() - i >= 5 && s[i + 1] == 'a' && s[i + 2] == 'l' && s[i + 3] == 's'
            && s[i + 4] == 'e' {
            Some(i + 5)
        } else {
            None
        }
    } else if s[i] == 'n' {
        if s.len() - i >= 4 && s[i + 1] == 'u' && s[i + 2] == 'l' && s[i + 3] == 'l' {
            Some(i + 4)
        } else {
            None
        }
    } else if is_digit(s[i]) || s[i] == '-' {
        Some(number_token_end(s, i + 1))
    } else if s[i] == '[' {
        if depth == 0 {
            None
        } else {
            let k = skip_ws(s, i + 1);
            if i < k && k < s.len() {
                if s[k] == ']' {
                    Some(k + 1)
                } else {
                    skip_array_items(s, k, depth)
                }
            } else {
                None
            }
        }
    } else if s[i] == '{' {
        if depth == 0 {
            None
        } else {
            let k = skip_ws(s, i + 1);
            if i < k && k < s.len() {
                if s[k] == '}' {
                    Some(k + 1)
                } else {
                    skip_object_items(s, k, depth)
                }
            } else {
                None
            }
        }
    } else {
        None
    }
}

/// Skips the elements of an array from the first element at `i` up to and
/// past the closing bracket.
pub open spec fn skip_array_items(s: Seq<char>, i: int, depth: nat) -> Option<int>
    decreases depth, s.len() - i, 1int,
{
    if depth == 0 {
        None
    } else {
        match skip_value(s, i, (depth - 1) as nat) {
            Some(j) => {
                let k = skip_ws(s, j);
                if i < k && k < s.len() {
                    if s[k] == ']' {
                        Some(k + 1)
                    } else if s[k] == ',' {
                        let m = skip_ws(s, k + 1);
                        if k < m && m <= s.len() {
                            skip_array_items(s, m, depth)
                        } else {
                            None
                        }
                    } else {
                        None
                    }
                } else {
                    None
                }
            },
            None => None,
        }
    }
}

/// Skips the members of an object from the first key at `i` up to and
/// past the closing brace.
pub open spec fn skip_object_items(s: Seq<char>, i: int, depth: nat) -> Option<int>
    decreases depth, s.len() - i, 1int,
{
    if depth == 0 {
        None
    } else {
        match parse_string(s, i) {
            Some(p) => {
                let c = skip_ws(s, p.1);
                if i < c && c < s.len() && s[c] == ':' {
                    let v = skip_ws(s, c + 1);
                    if c < v {
                        match skip_value(s, v, (depth - 1) as nat) {
                            Some(j) => {
                                let k = skip_ws(s, j);
                                if v < k && k < s.len() {
                                    if s[k] == '}' {
                                        Some(k + 1)
                                    } else if s[k] == ',' {
                                        let m = skip_ws(s, k + 1);
                                        if k < m && m <= s.len() {
                                            skip_object_items(s, m, depth)
                                        } else {
                                            None
                                        }
                                    } else {
                                        None
                                    }
                                } else {
                                    None
                                }
                            },
                            None => None,
                        }
                    } else {
                        None
                    }
                } else {
                    None
                }
            },
            None => None,
        }
    }
}

/// The members of an issue object from the first key at `i`, carrying
/// which fields have been seen.  A duplicated field, or a closing brace
/// with a field still missing, is a failure; an unknown field is skipped.
pub open spec fn parse_issue_fields(
    s: Seq<char>,
    i: int,
    line: Option<u32>,
    column: Option<u32>,
    message: Option<Seq<char>>,
) -> Option<(IssueView, int)>
    decreases s.len() - i, 1int,
{
    match parse_string(s, i) {
        Some(p) => {
            let key = p.0;
            let c = skip_ws(s, p.1);
            if i < c && c < s.len() && s[c] == ':' {
                let v = skip_ws(s, c + 1);
                if c < v {
                    if key == "line"@ {
                        if line is Some {
                            None
                        } else {
                            match parse_number(s, v) {
                                Some(q) => if v < q.1 && q.1 <= s.len() {
                                    parse_issue_after(s, v, q.1, Some(q.0), column, message)
                                } else {
                                    None
                                },
                                None => None,
                            }
                        }
                    } else if key == "column"@ {
                        if column is Some {
                            None
                        } else {
                            match parse_number(s, v) {
                                Some(q) => if v < q.1 && q.1 <= s.len() {
                                    parse_issue_after(s, v, q.1, line, Some(q.0), message)
                                } else {
                                    None
                                },
                                None => None,
                            }
                        }
                    } else if key == "message"@ {
                        if message is Some {
                            None
                        } else {
                            match parse_string(s, v) {
                                Some(q) => if v < q.1 && q.1 <= s.len() {
                                    parse_issue_after(s, v, q.1, line, column, Some(q.0))
                                } else {
                                    None
                                },
                                None => None,
                            }
                        }
                    } else {
                        match skip_value(s, v, SKIP_DEPTH as nat) {
                            Some(j) => if v < j && j <= s.len() {
                                parse_issue_after(s, v, j, line, column, message)
                            } else {
                                None
                            },
                            None => None,
                        }
                    }
                } else {
                    None
                }
            } else {
                None
            }
        },
        None => None,
    }
}

/// After an issue member's value, ending at `j`: either the closing brace
/// or a comma and the next member.
pub open spec fn parse_issue_after(
    s: Seq<char>,
    v: int,
    j: int,
    line: Option<u32>,
    column: Option<u32>,
    message: Option<Seq<char>>,
) -> Option<(IssueView, int)>
    decreases s.len() - j, 2int,
{
    if v < j {
        let k = skip_ws(s, j);
        if j <= k && k < s.len() {
            if s[k] == '}' {
                match (line, column, message) {
                    (Some(l), Some(c), Some(m)) => Some(
                        (IssueView { line: l, column: c, message: m }, k + 1),
                    ),
                    _ => None,
                }
            } else if s[k] == ',' {
                let m = skip_ws(s, k + 1);
                if k < m && m <= s.len() {
                    parse_issue_fields(s, m, line, column, message)
                } else {
                    None
                }
            } else {
                None
            }
        } else {
            None
        }
    } else {
        None
    }
}

/// One issue object starting at its opening brace.  An empty object is a
/// failure: all three fields are required.
pub open spec fn parse_issue(s: Seq<char>, i: int) -> Option<(IssueView, int)> {
    if 0 <= i < s.len() && s[i] == '{' {
        let k = skip_ws(s, i + 1);
        if i < k && k < s.len() && s[k] != '}' {
            parse_issue_fields(s, k, None, None, None)
        } else {
            None
        }
    } else {
        None
    }
}

/// The elements of a non-empty issue array from the first element at `i`
/// up to and past the closing bracket, in order.
pub open spec fn parse_issue_elems(s: Seq<char>, i: int) -> Option<(Seq<IssueView>, int)>
    decreases s.len() - i,
{
    match parse_issue(s, i) {
        Some(p) => {
            if i < p.1 {
                let k = skip_ws(s, p.1);
                if i < k && k < s.len() {
                    if s[k] == ']' {
                        Some((seq![p.0], k + 1))
                    } else if s[k] == ',' {
                        let m = skip_ws(s, k + 1);
                        if k < m && m <= s.len() {
                            match parse_issue_elems(s, m) {
                                Some(q) => Some((seq![p.0] + q.0, q.1)),
                                None => None,
                            }
                        } else {
                            None
                        }
                    } else {
                        None
                    }
                } else {
                    None
                }
            } else {
                None
            }
        },
        None => None,
    }
}

/// The issue array starting at its opening bracket: possibly empty.
pub open spec fn parse_issue_list(s: Seq<char>, i: int) -> Option<(Seq<IssueView>, int)> {
    if 0 <= i < s.len() && s[i] == '[' {
        let k = skip_ws(s, i + 1);
        if i < k && k < s.len() {
            if s[k] == ']' {
                Some((Seq::empty(), k + 1))
            } else {
                parse_issue_elems(s, k)
            }
        } else {
            None
        }
    } else {
        None
    }
}

/// The members of the envelope object from the first key at `i`.  The
/// `issues` field must appear exactly once; unknown fields are skipped.
pub open spec fn parse_envelope_fields(
    s: Seq<char>,
    i: int,
    issues: Option<Seq<IssueView>>,
) -> Option<(Seq<IssueView>, int)>
    decreases s.len() - i, 1int,
{
    match parse_string(s, i) {
        Some(p) => {
            let key = p.0;
            let c = skip_ws(s, p.1);
            if i < c && c < s.len() && s[c] == ':' {
                let v = skip_ws(s, c + 1);
                if c < v {
                    if key == "issues"@ {
                        if issues is Some {
                            None
                        } else {
                            match parse_issue_list(s, v) {
                                Some(q) => if v < q.1 && q.1 <= s.len() {
                                    parse_envelope_after(s, v, q.1, Some(q.0))
                                } else {
                                    None
                                },
                                None => None,
                            }
                        }
                    } else {
                        match skip_value(s, v, SKIP_DEPTH as nat) {
                            Some(j) => if v < j && j <= s.len() {
                                parse_envelope_after(s, v, j, issues)
                            } else {
                                None
                            },
                            None => None,
                        }
                    }
                } else {
                    None
                }
            } else {
                None
            }
        },
        None => None,
    }
}

/// After an envelope member's value, ending at `j`: either the closing
/// brace or a comma and the next member.
pub open spec fn parse_envelope_after(
    s: Seq<char>,
    v: int,
    j: int,
    issues: Option<Seq<IssueView>>,
) -> Option<(Seq<IssueView>, int)>
    decreases s.len() - j, 2int,
{
    if v < j {
        let k = skip_ws(s, j);
        if j <= k && k < s.len() {
            if s[k] == '}' {
                match issues {
                    Some(iss) => Some((iss, k + 1)),
                    None => None,
                }
            } else if s[k] == ',' {
                let m = skip_ws(s, k + 1);
                if k < m && m <= s.len() {
                    parse_envelope_fields(s, m, issues)
                } else {
                    None
                }
            } else {
                None
            }
        } else {
            None
        }
    } else {
        None
    }
}

/// The whole reply: optional whitespace, the envelope object, optional
/// whitespace, end of input.  `None` is a parse failure; anything the
/// grammar above rejects — including a reply that is not JSON at all —
/// lands here.
pub open spec fn parse_envelope(s: Seq<char>) -> Option<Seq<IssueView>> {
    let i = skip_ws(s, 0);
    if 0 <= i && i < s.len() && s[i] == '{' {
        let k = skip_ws(s, i + 1);
        if i < k && k < s.len() && s[k] != '}' {
            match parse_envelope_fields(s, k, None) {
                Some(p) => {
                    let e = skip_ws(s, p.1);
                    if e == s.len() {
                        Some(p.0)
                    } else {
                        None
                    }
                },
                None => None,
            }
        } else {
            None
        }
    } else {
        None
    }
}

proof fn lemma_pow10_pos(n: nat)
    ensures
        pow10(n) >= 1,
    decreases n,
{
    if n > 0 {
        lemma_pow10_pos((n - 1) as nat);
    }
}

proof fn lemma_pow10_mono(a: nat, b: nat)
    requires
        a <= b,
    ensures
        pow10(a) <= pow10(b),
    decreases b,
{
    if a < b {
        lemma_pow10_mono(a, (b - 1) as nat);
        lemma_pow10_pos((b - 1) as nat);
    }
}

fn is_ws_exec(c: char) -> (r: bool)
    ensures
        r == is_ws(c),
{
    c == ' ' || c == '\t' || c == '\n' || c == '\r'
}

fn is_digit_exec(c: char) -> (r: bool)
    ensures
        r == is_digit(c),
{
    '0' <= c && c <= '9'
}

fn skip_ws_exec(s: &Vec<char>, i: usize) -> (r: usize)
    requires
        i <= s@.len(),
    ensures
        r == skip_ws(s@, i as int),
        i <= r <= s@.len(),
{
    let mut k = i;
    while k < s.len() && is_ws_exec(s[k])
        invariant
            i <= k <= s@.len(),
            skip_ws(s@, i as int) == skip_ws(s@, k as int),
        decreases s@.len() - k,
    {
        k = k + 1;
    }
    k
}

fn digit_run_end_exec(s: &Vec<char>, i: usize) -> (r: usize)
    requires
        i <= s@.len(),
    ensures
        r == digit_run_end(s@, i as int),
        i <= r <= s@.len(),
        forall|t: int| i <= t < r ==> is_digit(s@[t]),
{
    let mut k = i;
    while k < s.len() && is_digit_exec(s[k])
        invariant
            i <= k <= s@.len(),
            digit_run_end(s@, i as int) == digit_run_end(s@, k as int),
            forall|t: int| i <= t < k ==> is_digit(s@[t]),
        decreases s@.len() - k,
    {
        k = k + 1;
    }
    k
}

fn number_token_end_exec(s: &Vec<char>, i: usize) -> (r: usize)
    requires
        i <= s@.len(),
    ensures
        r == number_token_end(s@, i as int),
        i <= r <= s@.len(),
{
    let mut k = i;
    while k < s.len() && (is_digit_exec(s[k]) || s[k] == '-' || s[k] == '+' || s[k] == '.'
        || s[k] == 'e' || s[k] == 'E')
        invariant
            i <= k <= s@.len(),
            number_token_end(s@, i as int) == number_token_end(s@, k as int),
        decreases s@.len() - k,
    {
        k = k + 1;
    }
    k
}

fn parse_number_exec(s: &Vec<char>, i: usize) -> (r: Option<(u32, usize)>)
    requires
        i <= s@.len(),
    ensures
        match r {
            Some(p) => parse_number(s@, i as int) == Some((p.0, p.1 as int)) && i < p.1 <= s@.len(),
            None => parse_number(s@, i as int) is None,
        },
{
    let j = digit_run_end_exec(s, i);
    if j == i {
        return None;
    }
    if s[i] == '0' && j > i + 1 {
        return None;
    }
    if j - i > 10 {
        return None;
    }
    let mut acc: u64 = 0;
    let mut k = i;
    proof {
        lemma_pow10_pos(0);
    }
    while k < j
        invariant
            i <= k <= j <= s@.len(),
            j - i <= 10,
            forall|t: int| i <= t < j ==> is_digit(s@[t]),
            acc == digits_val(s@, i as int, k as int),
            acc < pow10((k - i) as nat),
        decreases j - k,
    {
        let d = s[k];
        assert(is_digit(s@[k as int]));
        let dv: u32 = d as u32 - '0' as u32;
        proof {
            assert(pow10(((k - i) + 1) as nat) == 10 * pow10((k - i) as nat));
            lemma_pow10_mono(((k - i) + 1) as nat, 10);
            assert(pow10(10) == 10_000_000_000) by {
                reveal_with_fuel(pow10, 11);
            }
        }
        acc = acc * 10 + dv as u64;
        k = k + 1;
    }
    if acc > 0xFFFF_FFFFu64 {
        return None;
    }
    if j < s.len() {
        let c = s[j];
        if c == '.' || c == 'e' || c == 'E' {
            return None;
        }
    }
    Some((acc as u32, j))
}

fn unescape_exec(c: char) -> (r: Option<char>)
    ensures
        r == unescape(c),
{
    if c == '"' {
        Some('"')
    } else if c == '\\' {
        Some('\\')
    } else if c == '/' {
        Some('/')
    } else if c == 'b' {
        Some('\u{8}')
    } else if c == 'f' {
        Some('\u{c}')
    } else if c == 'n' {
        Some('\n')
    } else if c == 'r' {
        Some('\r')
    } else if c == 't' {
        Some('\t')
    } else {
        None
    }
}

fn hex_val_exec(c: char) -> (r: Option<u32>)
    ensures
        r == hex_val(c),
        r matches Some(v) ==> v <= 15,
{
    if '0' <= c && c <= '9' {
        Some(c as u32 - '0' as u32)
    } else if 'a' <= c && c <= 'f' {
        Some(c as u32 - 'a' as u32 + 10)
    } else if 'A' <= c && c <= 'F' {
        Some(c as u32 - 'A' as u32 + 10)
    } else {
        None
    }
}

/// A new string holding `c` and then `t`.
fn prepend(c: char, t: &str) -> (r: String)
    ensures
        r@ == seq![c] + t@,
{
    let mut out = String::new();
    push_char(&mut out, c);
    out.append(t);
    proof {
        assert(Seq::<char>::empty().push(c) =~= seq![c]);
    }
    out
}

fn parse_string_body_exec(s: &Vec<char>, i: usize) -> (r: Option<(String, usize)>)
    requires
        i <= s@.len(),
    ensures
        match r {
            Some(p) => parse_string_body(s@, i as int) == Some((p.0@, p.1 as int)) && i < p.1
                <= s@.len(),
            None => parse_string_body(s@, i as int) is None,
        },
    decreases s@.len() - i,
{
    if i >= s.len() {
        return None;
    }
    let c = s[i];
    if c == '"' {
        return Some((String::new(), i + 1));
    }
    if c == '\\' {
        if s.len() - i < 2 {
            return None;
        }
        let e = s[i + 1];
        if e == 'u' {
            if s.len() - i < 6 {
                return None;
            }
            let h0 = hex_val_exec(s[i + 2]);
            let h1 = hex_val_exec(s[i + 3]);
            let h2 = hex_val_exec(s[i + 4]);
            let h3 = hex_val_exec(s[i + 5]);
            match (h0, h1, h2, h3) {
                (Some(a), Some(b), Some(c2), Some(d)) => {
                    let v: u32 = a * 4096 + b * 256 + c2 * 16 + d;
                    if 0xDC00 <= v && v <= 0xDFFF {
                        return None;
                    }
                    if 0xD800 <= v && v <= 0xDBFF {
                        if s.len() - i < 12 {
                            return None;
                        }
                        if s[i + 6] == '\\' && s[i + 7] == 'u' {
                            let g0 = hex_val_exec(s[i + 8]);
                            let g1 = hex_val_exec(s[i + 9]);
                            let g2 = hex_val_exec(s[i + 10]);
                            let g3 = hex_val_exec(s[i + 11]);
                            match (g0, g1, g2, g3) {
                                (Some(e), Some(f), Some(g), Some(h)) => {
                                    let w: u32 = e * 4096 + f * 256 + g * 16 + h;
                                    if 0xDC00 <= w && w <= 0xDFFF {
                                        let cp: u32 = 0x10000 + (v - 0xD800) * 0x400 + (w
                                            - 0xDC00);
                                        match char_of_u32(cp) {
                                            Some(ch) => {
                                                proof {
                                                    vstd::utf8::char_u32_cast(ch, cp);
                                                }
                                                match parse_string_body_exec(s, i + 12) {
                                                    Some(p) => Some(
                                                        (prepend(ch, p.0.as_str()), p.1),
                                                    ),
                                                    None => None,
                                                }
                                            },
                                            None => {
                                                proof {
                                                    assert(false);
                                                }
                                                None
                                            },
                                        }
                                    } else {
                                        None
                                    }
                                },
                                _ => None,
                            }
                        } else {
                            None
                        }
                    } else {
                        match char_of_u32(v) {
                            Some(ch) => {
                                proof {
                                    vstd::utf8::char_u32_cast(ch, v);
                                }
                                match parse_string_body_exec(s, i + 6) {
                                    Some(p) => Some((prepend(ch, p.0.as_str()), p.1)),
                                    None => None,
                                }
                            },
                            None => {
                                proof {
                                    assert(false);
                                }
                                None
                            },
                        }
                    }
                },
                _ => None,
            }
        } else {
            match unescape_exec(e) {
                Some(u) => match parse_string_body_exec(s, i + 2) {
                    Some(p) => Some((prepend(u, p.0.as_str()), p.1)),
                    None => None,
                },
                None => None,
            }
        }
    } else if (c as u32) < 0x20 {
        None
    } else {
        match parse_string_body_exec(s, i + 1) {
            Some(p) => Some((prepend(c, p.0.as_str()), p.1)),
            None => None,
        }
    }
}

fn parse_string_exec(s: &Vec<char>, i: usize) -> (r: Option<(String, usize)>)
    requires
        i <= s@.len(),
    ensures
        match r {
            Some(p) => parse_string(s@, i as int) == Some((p.0@, p.1 as int)) && i < p.1
                <= s@.len(),
            None => parse_string(s@, i as int) is None,
        },
{
    if i < s.len() && s[i] == '"' {
        parse_string_body_exec(s, i + 1)
    } else {
        None
    }
}

fn skip_value_exec(s: &Vec<char>, i: usize, depth: u32) -> (r: Option<usize>)
    requires
        i <= s@.len(),
    ensures
        match r {
            Some(j) => skip_value(s@, i as int, depth as nat) == Some(j as int) && j <= s@.len(),
            None => skip_value(s@, i as int, depth as nat) is None,
        },
    decreases depth, s@.len() - i,
{
    if i >= s.len() {
        return None;
    }
    let c = s[i];
    if c == '"' {
        match parse_string_exec(s, i) {
            Some(p) => Some(p.1),
            None => None,
        }
    } else if c == 't' {
        if s.len() - i >= 4 && s[i + 1] == 'r' && s[i + 2] == 'u' && s[i + 3] == 'e' {
            Some(i + 4)
        } else {
            None
        }
    } else if c == 'f' {
        if s.len() - i >= 5 && s[i + 1] == 'a' && s[i + 2] == 'l' && s[i + 3] == 's'
            && s[i + 4] == 'e' {
            Some(i + 5)
        } else {
            None
        }
    } else if c == 'n' {
        if s.len() - i >= 4 && s[i + 1] == 'u' && s[i + 2] == 'l' && s[i + 3] == 'l' {
            Some(i + 4)
        } else {
            None
        }
    } else if is_digit_exec(c) || c == '-' {
        Some(number_token_end_exec(s, i + 1))
    } else if c == '[' {
        if depth == 0 {
            return None;
        }
        let k = skip_ws_exec(s, i + 1);
        if i < k && k < s.len() {
            if s[k] == ']' {
                Some(k + 1)
            } else {
                skip_array_items_exec(s, k, depth)
            }
        } else {
            None
        }
    } else if c == '{' {
        if depth == 0 {
            return None;
        }
        let k = skip_ws_exec(s, i + 1);
        if i < k && k < s.len() {
            if s[k] == '}' {
                Some(k + 1)
            } else {
                skip_object_items_exec(s, k, depth)
            }
        } else {
            None
        }
    } else {
        None
    }
}

fn skip_array_items_exec(s: &Vec<char>, i: usize, depth: u32) -> (r: Option<usize>)
    requires
        i <= s@.len(),
    ensures
        match r {
            Some(j) => skip_array_items(s@, i as int, depth as nat) == Some(j as int) && j
                <= s@.len(),
            None => skip_array_items(s@, i as int, depth as nat) is None,
        },
    decreases depth, s@.len() - i,
{
    if depth == 0 {
        return None;
    }
    match skip_value_exec(s, i, depth - 1) {
        Some(j) => {
            let k = skip_ws_exec(s, j);
            if i < k && k < s.len() {
                if s[k] == ']' {
                    Some(k + 1)
                } else if s[k] == ',' {
                    let m = skip_ws_exec(s, k + 1);
                    if k < m && m <= s.len() {
                        skip_array_items_exec(s, m, depth)
                    } else {
                        None
                    }
                } else {
                    None
                }
            } else {
                None
            }
        },
        None => None,
    }
}

fn skip_object_items_exec(s: &Vec<char>, i: usize, depth: u32) -> (r: Option<usize>)
    requires
        i <= s@.len(),
    ensures
        match r {
            Some(j) => skip_object_items(s@, i as int, depth as nat) == Some(j as int) && j
                <= s@.len(),
            None => skip_object_items(s@, i as int, depth as nat) is None,
        },
    decreases depth, s@.len() - i,
{
    if depth == 0 {
        return None;
    }
    match parse_string_exec(s, i) {
        Some(p) => {
            let c = skip_ws_exec(s, p.1);
            if i < c && c < s.len() && s[c] == ':' {
                let v = skip_ws_exec(s, c + 1);
                if c < v {
                    match skip_value_exec(s, v, depth - 1) {
                        Some(j) => {
                            let k = skip_ws_exec(s, j);
                            if v < k && k < s.len() {
                                if s[k] == '}' {
                                    Some(k + 1)
                                } else if s[k] == ',' {
                                    let m = skip_ws_exec(s, k + 1);
                                    if k < m && m <= s.len() {
                                        skip_object_items_exec(s, m, depth)
                                    } else {
                                        None
                                    }
                                } else {
                                    None
                                }
                            } else {
                                None
                            }
                        },
                        None => None,
                    }
                } else {
                    None
                }
            } else {
                None
            }
        },
        None => None,
    }
}

/// The issue views denoted by a sequence of issues.
pub open spec fn views_of(s: Seq<GrammarIssue>) -> Seq<IssueView> {
    s.map_values(|g: GrammarIssue| g@)
}

/// The message view carried while an issue's members are parsed.
pub open spec fn opt_str_view(m: Option<String>) -> Option<Seq<char>> {
    match m {
        Some(x) => Some(x@),
        None => None,
    }
}

/// The issue-list view carried while the envelope's members are parsed.
pub open spec fn opt_issues_view(m: Option<Vec<GrammarIssue>>) -> Option<Seq<IssueView>> {
    match m {
        Some(x) => Some(views_of(x@)),
        None => None,
    }
}

/// Whether the string holds exactly the literal's characters.
fn str_eq(a: &String, b: &str) -> (r: bool)
    ensures
        r == (a@ == b@),
{
    let bs: String = b.to_owned();
    *a == bs
}

fn parse_issue_fields_exec(
    s: &Vec<char>,
    i: usize,
    line: Option<u32>,
    column: Option<u32>,
    message: Option<String>,
) -> (r: Option<(GrammarIssue, usize)>)
    requires
        i <= s@.len(),
    ensures
        match r {
            Some(p) => parse_issue_fields(s@, i as int, line, column, opt_str_view(message))
                == Some((p.0@, p.1 as int)) && i < p.1 <= s@.len(),
            None => parse_issue_fields(s@, i as int, line, column, opt_str_view(message)) is None,
        },
    decreases s@.len() - i, 1int,
{
    match parse_string_exec(s, i) {
        Some(p) => {
            let key = p.0;
            let c = skip_ws_exec(s, p.1);
            if i < c && c < s.len() && s[c] == ':' {
                let v = skip_ws_exec(s, c + 1);
                if c < v {
                    if str_eq(&key, "line") {
                        if line.is_some() {
                            None
                        } else {
                            match parse_number_exec(s, v) {
                                Some(q) => parse_issue_after_exec(
                                    s, v, q.1, Some(q.0), column, message,
                                ),
                                None => None,
                            }
                        }
                    } else if str_eq(&key, "column") {
                        if column.is_some() {
                            None
                        } else {
                            match parse_number_exec(s, v) {
                                Some(q) => parse_issue_after_exec(
                                    s, v, q.1, line, Some(q.0), message,
                                ),
                                None => None,
                            }
                        }
                    } else if str_eq(&key, "message") {
                        if message.is_some() {
                            None
                        } else {
                            match parse_string_exec(s, v) {
                                Some(q) => parse_issue_after_exec(
                                    s, v, q.1, line, column, Some(q.0),
                                ),
                                None => None,
                            }
                        }
                    } else {
                        match skip_value_exec(s, v, SKIP_DEPTH) {
                            Some(j) => {
                                if v < j {
                                    parse_issue_after_exec(s, v, j, line, column, message)
                                } else {
                                    None
                                }
                            },
                            None => None,
                        }
                    }
                } else {
                    None
                }
            } else {
                None
            }
        },
        None => None,
    }
}

fn parse_issue_after_exec(
    s: &Vec<char>,
    v: usize,
    j: usize,
    line: Option<u32>,
    column: Option<u32>,
    message: Option<String>,
) -> (r: Option<(GrammarIssue, usize)>)
    requires
        v < j <= s@.len(),
    ensures
        match r {
            Some(p) => parse_issue_after(
                s@, v as int, j as int, line, column, opt_str_view(message),
            ) == Some((p.0@, p.1 as int)) && v < p.1 <= s@.len(),
            None => parse_issue_after(
                s@, v as int, j as int, line, column, opt_str_view(message),
            ) is None,
        },
    decreases s@.len() - j, 2int,
{
    let k = skip_ws_exec(s, j);
    if k < s.len() {
        if s[k] == '}' {
            match (line, column, message) {
                (Some(l), Some(c), Some(m)) => Some(
                    (GrammarIssue { line: l, column: c, message: m }, k + 1),
                ),
                _ => None,
            }
        } else if s[k] == ',' {
            let m = skip_ws_exec(s, k + 1);
            if k < m {
                parse_issue_fields_exec(s, m, line, column, message)
            } else {
                None
            }
        } else {
            None
        }
    } else {
        None
    }
}

fn parse_issue_exec(s: &Vec<char>, i: usize) -> (r: Option<(GrammarIssue, usize)>)
    requires
        i <= s@.len(),
    ensures
        match r {
            Some(p) => parse_issue(s@, i as int) == Some((p.0@, p.1 as int)) && i < p.1
                <= s@.len(),
            None => parse_issue(s@, i as int) is None,
        },
{
    if i < s.len() && s[i] == '{' {
        let k = skip_ws_exec(s, i + 1);
        if i < k && k < s.len() && s[k] != '}' {
            parse_issue_fields_exec(s, k, None, None, None)
        } else {
            None
        }
    } else {
        None
    }
}

proof fn lemma_views_prepend(g: GrammarIssue, s: Seq<GrammarIssue>)
    ensures
        views_of(s.insert(0, g)) =~= seq![g@] + views_of(s),
{
    let l = s.insert(0, g);
    assert forall|t: int| 0 <= t < l.len() implies views_of(l)[t] == (seq![g@] + views_of(s))[t]
    by {
        if t > 0 {
            assert(l[t] == s[t - 1]);
        }
    }
}

fn parse_issue_elems_exec(s: &Vec<char>, i: usize) -> (r: Option<(Vec<GrammarIssue>, usize)>)
    requires
        i <= s@.len(),
    ensures
        match r {
            Some(p) => parse_issue_elems(s@, i as int) == Some((views_of(p.0@), p.1 as int))
                && p.1 <= s@.len(),
            None => parse_issue_elems(s@, i as int) is None,
        },
    decreases s@.len() - i,
{
    match parse_issue_exec(s, i) {
        Some(p) => {
            let k = skip_ws_exec(s, p.1);
            if i < k && k < s.len() {
                if s[k] == ']' {
                    let mut out: Vec<GrammarIssue> = Vec::new();
                    out.push(p.0);
                    proof {
                        assert(views_of(out@) =~= seq![p.0@]);
                    }
                    Some((out, k + 1))
                } else if s[k] == ',' {
                    let m = skip_ws_exec(s, k + 1);
                    if k < m {
                        match parse_issue_elems_exec(s, m) {
                            Some(q) => {
                                let mut out = q.0;
                                proof {
                                    lemma_views_prepend(p.0, out@);
                                }
                                out.insert(0, p.0);
                                Some((out, q.1))
                            },
                            None => None,
                        }
                    } else {
                        None
                    }
                } else {
                    None
                }
            } else {
                None
            }
        },
        None => None,
    }
}

fn parse_issue_list_exec(s: &Vec<char>, i: usize) -> (r: Option<(Vec<GrammarIssue>, usize)>)
    requires
        i <= s@.len(),
    ensures
        match r {
            Some(p) => parse_issue_list(s@, i as int) == Some((views_of(p.0@), p.1 as int))
                && i < p.1 <= s@.len(),
            None => parse_issue_list(s@, i as int) is None,
        },
{
    if i < s.len() && s[i] == '[' {
        let k = skip_ws_exec(s, i + 1);
        if i < k && k < s.len() {
            if s[k] == ']' {
                let out: Vec<GrammarIssue> = Vec::new();
                proof {
                    assert(views_of(out@) =~= Seq::<IssueView>::empty());
                }
                Some((out, k + 1))
            } else {
                match parse_issue_elems_exec(s, k) {
                    Some(p) => {
                        proof {
                            lemma_issue_elems_advance(s@, k as int);
                        }
                        Some(p)
                    },
                    None => None,
                }
            }
        } else {
            None
        }
    } else {
        None
    }
}

/// A parsed element list ends past where it began.
proof fn lemma_issue_elems_advance(s: Seq<char>, i: int)
    ensures
        match parse_issue_elems(s, i) {
            Some(p) => i < p.1,
            None => true,
        },
    decreases s.len() - i,
{
    match parse_issue(s, i) {
        Some(p) => {
            if i < p.1 {
                let k = skip_ws(s, p.1);
                if i < k && k < s.len() && s[k] == ',' {
                    let m = skip_ws(s, k + 1);
                    if k < m && m <= s.len() {
                        lemma_issue_elems_advance(s, m);
                    }
                }
            }
        },
        None => {},
    }
}

fn parse_envelope_fields_exec(
    s: &Vec<char>,
    i: usize,
    issues: Option<Vec<GrammarIssue>>,
) -> (r: Option<(Vec<GrammarIssue>, usize)>)
    requires
        i <= s@.len(),
    ensures
        match r {
            Some(p) => parse_envelope_fields(s@, i as int, opt_issues_view(issues))
                == Some((views_of(p.0@), p.1 as int)) && p.1 <= s@.len(),
            None => parse_envelope_fields(s@, i as int, opt_issues_view(issues)) is None,
        },
    decreases s@.len() - i, 1int,
{
    match parse_string_exec(s, i) {
        Some(p) => {
            let key = p.0;
            let c = skip_ws_exec(s, p.1);
            if i < c && c < s.len() && s[c] == ':' {
                let v = skip_ws_exec(s, c + 1);
                if c < v {
                    if str_eq(&key, "issues") {
                        if issues.is_some() {
                            None
                        } else {
                            match parse_issue_list_exec(s, v) {
                                Some(q) => parse_envelope_after_exec(s, v, q.1, Some(q.0)),
                                None => None,
                            }
                        }
                    } else {
                        match skip_value_exec(s, v, SKIP_DEPTH) {
                            Some(j) => {
                                if v < j {
                                    parse_envelope_after_exec(s, v, j, issues)
                                } else {
                                    None
                                }
                            },
                            None => None,
                        }
                    }
                } else {
                    None
                }
            } else {
                None
            }
        },
        None => None,
    }
}

fn parse_envelope_after_exec(
    s: &Vec<char>,
    v: usize,
    j: usize,
    issues: Option<Vec<GrammarIssue>>,
) -> (r: Option<(Vec<GrammarIssue>, usize)>)
    requires
        v < j <= s@.len(),
    ensures
        match r {
            Some(p) => parse_envelope_after(s@, v as int, j as int, opt_issues_view(issues))
                == Some((views_of(p.0@), p.1 as int)) && p.1 <= s@.len(),
            None => parse_envelope_after(s@, v as int, j as int, opt_issues_view(issues)) is None,
        },
    decreases s@.len() - j, 2int,
{
    let k = skip_ws_exec(s, j);
    if k < s.len() {
        if s[k] == '}' {
            match issues {
                Some(iss) => Some((iss, k + 1)),
                None => None,
            }
        } else if s[k] == ',' {
            let m = skip_ws_exec(s, k + 1);
            if k < m {
                parse_envelope_fields_exec(s, m, issues)
            } else {
                None
            }
        } else {
            None
        }
    } else {
        None
    }
}

/// Parses a whole reply.  Returns the issue list the reply denotes under
/// the grammar, or `None` if the text does not conform to it.
pub fn parse_envelope_exec(s: &Vec<char>) -> (r: Option<Vec<GrammarIssue>>)
    ensures
        match r {
            Some(v) => parse_envelope(s@) == Some(views_of(v@)),
            None => parse_envelope(s@) is None,
        },
{
    let i = skip_ws_exec(s, 0);
    if i < s.len() && s[i] == '{' {
        let k = skip_ws_exec(s, i + 1);
        if i < k && k < s.len() && s[k] != '}' {
            match parse_envelope_fields_exec(s, k, None) {
                Some(p) => {
                    let e = skip_ws_exec(s, p.1);
                    if e == s.len() {
                        Some(p.0)
                    } else {
                        None
                    }
                },
                None => None,
            }
        } else {
            None
        }
    } else {
        None
    }
}

/// The characters of a string slice, in order.
pub fn chars_of(s: &str) -> (r: Vec<char>)
    ensures
        r@ == s@,
{
    let n = s.unicode_len();
    let mut out: Vec<char> = Vec::new();
    let mut k: usize = 0;
    while k < n
        invariant
            k <= n,
            n == s@.len(),
            out@ =~= s@.take(k as int),
        decreases n - k,
    {
        out.push(s.get_char(k));
        proof {
            assert(out@ =~= s@.take(k + 1));
        }
        k = k + 1;
    }
    proof {
        assert(s@.take(n as int) =~= s@);
    }
    out
}

/// The character of a decimal digit.
pub open spec fn digit_char(d: nat) -> char {
    if d == 0 { '0' } else if d == 1 { '1' } else if d == 2 { '2' } else if d == 3 { '3' }
    else if d == 4 { '4' } else if d == 5 { '5' } else if d == 6 { '6' } else if d == 7 { '7' }
    else if d == 8 { '8' } else { '9' }
}

/// The lower-case character of a hexadecimal digit.
pub open spec fn hex_char(d: nat) -> char {
    if d < 10 { digit_char(d) }
    else if d == 10 { 'a' } else if d == 11 { 'b' } else if d == 12 { 'c' }
    else if d == 13 { 'd' } else if d == 14 { 'e' } else { 'f' }
}

/// The canonical decimal digits of a number, most significant first.
pub open spec fn dec_rep(n: nat) -> Seq<char>
    decreases n,
{
    if n < 10 {
        seq![digit_char(n)]
    } else {
        dec_rep(n / 10).push(digit_char(n % 10))
    }
}

/// The canonical rendering of one character inside a JSON string: a
/// quote or backslash is escaped, a control character becomes a
/// `\u00XX` escape, anything else stands for itself.
pub open spec fn render_char(c: char) -> Seq<char> {
    if c == '"' {
        seq!['\\', '"']
    } else if c == '\\' {
        seq!['\\', '\\']
    } else if (c as u32) < 0x20 {
        seq!['\\', 'u', '0', '0', hex_char((c as u32 / 16) as nat), hex_char((c as u32 % 16) as nat)]
    } else {
        seq![c]
    }
}

/// The canonical rendering of a JSON string's content.
pub open spec fn render_string_chars(m: Seq<char>) -> Seq<char>
    decreases m.len(),
{
    if m.len() == 0 {
        Seq::empty()
    } else {
        render_char(m[0]) + render_string_chars(m.drop_first())
    }
}

/// The canonical rendering of one issue object.
pub open spec fn render_issue(iv: IssueView) -> Seq<char> {
    "{\"line\":"@ + dec_rep(iv.line as nat) + ",\"column\":"@ + dec_rep(iv.column as nat)
        + ",\"message\":\""@ + render_string_chars(iv.message) + "\"}"@
}

/// The canonical rendering of the elements of an issue array.
pub open spec fn render_issue_seq(ivs: Seq<IssueView>) -> Seq<char>
    decreases ivs.len(),
{
    if ivs.len() == 0 {
        Seq::empty()
    } else if ivs.len() == 1 {
        render_issue(ivs[0])
    } else {
        render_issue(ivs[0]) + seq![','] + render_issue_seq(ivs.drop_first())
    }
}

/// The canonical rendering of a whole reply envelope.
pub open spec fn render_envelope(ivs: Seq<IssueView>) -> Seq<char> {
    "{\"issues\":["@ + render_issue_seq(ivs) + "]}"@
}

proof fn lemma_digit_char_val(d: nat)
    requires
        d < 10,
    ensures
        is_digit(digit_char(d)),
        digit_val(digit_char(d)) == d,
        digit_char(d) == '0' <==> d == 0,
        !(digit_char(d) == '.' || digit_char(d) == 'e' || digit_char(d) == 'E'),
{
}

proof fn lemma_hex_round(d: nat)
    requires
        d < 16,
    ensures
        hex_val(hex_char(d)) == Some(d as u32),
{
}

/// Every character of a decimal rendering is a digit, the rendering is
/// non-empty, it starts with '0' only for zero, and its length is small
/// enough for any `u32` value.
proof fn lemma_dec_rep_shape(n: nat)
    ensures
        1 <= dec_rep(n).len(),
        forall|k: int| 0 <= k < dec_rep(n).len() ==> is_digit(#[trigger] dec_rep(n)[k]),
        dec_rep(n)[0] == '0' <==> n == 0,
        n < pow10(dec_rep(n).len() as nat),
        dec_rep(n).len() > 1 ==> pow10((dec_rep(n).len() - 1) as nat) <= n,
    decreases n,
{
    if n < 10 {
        lemma_digit_char_val(n);
        assert(pow10(1nat) == 10 * pow10(0nat));
    } else {
        lemma_dec_rep_shape(n / 10);
        lemma_digit_char_val(n % 10);
        let l = dec_rep(n / 10).len() as nat;
        assert(dec_rep(n).len() == l + 1);
        assert(pow10((l + 1) as nat) == 10 * pow10(l));
        if l > 1 {
            assert(pow10((l - 1) as nat) <= n / 10);
            assert(pow10(l) == 10 * pow10((l - 1) as nat));
        } else {
            assert(pow10(1nat) == 10 * pow10(0nat));
        }
        assert(dec_rep(n)[0] == dec_rep(n / 10)[0]);
    }
}

/// For a `u32` value the decimal rendering has at most ten digits.
proof fn lemma_dec_rep_len_u32(n: u32)
    ensures
        dec_rep(n as nat).len() <= 10,
{
    lemma_dec_rep_shape(n as nat);
    let l = dec_rep(n as nat).len();
    if l > 10 {
        lemma_pow10_mono(10, (l - 1) as nat);
        assert(pow10(10nat) == 10_000_000_000) by {
            reveal_with_fuel(pow10, 11);
        }
    }
}

/// The digit run starting at `i` ends exactly at `j` when everything
/// before `j` is a digit and `j` sits at the end or a non-digit.
proof fn lemma_digit_run_end_at(s: Seq<char>, i: int, j: int)
    requires
        0 <= i <= j <= s.len(),
        forall|k: int| i <= k < j ==> is_digit(s[k]),
        j == s.len() || !is_digit(s[j]),
    ensures
        digit_run_end(s, i) == j,
    decreases j - i,
{
    if i < j {
        lemma_digit_run_end_at(s, i + 1, j);
    }
}

/// The value of the digits of a rendered number is the number.
proof fn lemma_digits_val_render(s: Seq<char>, i: int, n: nat)
    requires
        0 <= i,
        i + dec_rep(n).len() <= s.len(),
        s.subrange(i, i + dec_rep(n).len()) == dec_rep(n),
    ensures
        digits_val(s, i, i + dec_rep(n).len()) == n,
    decreases n,
{
    let l = dec_rep(n).len();
    assert(digits_val(s, i, i) == 0);
    if n < 10 {
        lemma_digit_char_val(n);
        assert(s.subrange(i, i + l)[0] == dec_rep(n)[0]);
        assert(s[i] == digit_char(n));
    } else {
        let lp = dec_rep(n / 10).len();
        assert(dec_rep(n) == dec_rep(n / 10).push(digit_char(n % 10)));
        assert(s.subrange(i, i + lp) =~= dec_rep(n / 10)) by {
            assert forall|k: int| 0 <= k < lp implies #[trigger] s.subrange(i, i + lp)[k]
                == dec_rep(n / 10)[k] by {
                assert(s.subrange(i, i + l)[k] == dec_rep(n)[k]);
            }
        }
        lemma_digits_val_render(s, i, n / 10);
        lemma_digit_char_val(n % 10);
        assert(s.subrange(i, i + l)[l - 1] == dec_rep(n)[l - 1]);
        assert(s[i + l - 1] == digit_char(n % 10));
    }
}

/// A rendered number parses back to itself when followed by the end of
/// input or a character that cannot continue a number token.
proof fn lemma_parse_number_render(s: Seq<char>, i: int, n: u32)
    requires
        0 <= i,
        i + dec_rep(n as nat).len() <= s.len(),
        s.subrange(i, i + dec_rep(n as nat).len()) == dec_rep(n as nat),
        i + dec_rep(n as nat).len() == s.len() || {
            let t = s[i + dec_rep(n as nat).len()];
            !is_digit(t) && t != '.' && t != 'e' && t != 'E'
        },
    ensures
        parse_number(s, i) == Some((n, i + dec_rep(n as nat).len() as int)),
{
    let l = dec_rep(n as nat).len() as int;
    lemma_dec_rep_shape(n as nat);
    assert(forall|k: int| i <= k < i + l ==> is_digit(#[trigger] s[k])) by {
        assert(forall|k: int| i <= k < i + l ==> s[k] == dec_rep(n as nat)[k - i]);
    }
    lemma_digit_run_end_at(s, i, i + l);
    lemma_dec_rep_len_u32(n);
    lemma_digits_val_render(s, i, n as nat);
    assert(s[i] == dec_rep(n as nat)[0]);
}

/// A rendered string body followed by its closing quote parses back to
/// the content it was rendered from.
proof fn lemma_parse_string_render(s: Seq<char>, i: int, m: Seq<char>)
    requires
        0 <= i,
        i + render_string_chars(m).len() + 1 <= s.len(),
        s.subrange(i, i + render_string_chars(m).len()) == render_string_chars(m),
        s[i + render_string_chars(m).len()] == '"',
    ensures
        parse_string_body(s, i) == Some((m, i + render_string_chars(m).len() + 1)),
    decreases m.len(),
{
    let r = render_string_chars(m);
    if m.len() == 0 {
        assert(m =~= Seq::<char>::empty());
    } else {
        let c = m[0];
        let rc = render_char(c);
        let rt = render_string_chars(m.drop_first());
        assert(r == rc + rt);
        assert forall|k: int| 0 <= k < rc.len() implies s[i + k] == rc[k] by {
            assert(s.subrange(i, i + r.len())[k] == r[k]);
        }
        let i2 = i + rc.len();
        assert(s.subrange(i2, i2 + rt.len()) =~= rt) by {
            assert forall|k: int| 0 <= k < rt.len() implies #[trigger] s.subrange(
                i2, i2 + rt.len(),
            )[k] == rt[k] by {
                assert(s.subrange(i, i + r.len())[rc.len() + k] == r[rc.len() + k]);
            }
        }
        assert(s[i2 + rt.len()] == '"');
        lemma_parse_string_render(s, i2, m.drop_first());
        assert(seq![c] + m.drop_first() =~= m);
        if c == '"' {
            assert(s[i] == '\\' && s[i + 1] == '"');
            assert(unescape(s[i + 1]) == Some('"'));
        } else if c == '\\' {
            assert(s[i] == '\\' && s[i + 1] == '\\');
            assert(unescape(s[i + 1]) == Some('\\'));
        } else if (c as u32) < 0x20 {
            let hi = (c as u32 / 16) as nat;
            let lo = (c as u32 % 16) as nat;
            assert(s[i] == '\\' && s[i + 1] == 'u');
            assert(s[i + 2] == '0' && s[i + 3] == '0');
            assert(s[i + 4] == hex_char(hi) && s[i + 5] == hex_char(lo));
            lemma_hex_round(hi);
            lemma_hex_round(lo);
            assert(hex_val('0') == Some(0u32));
            assert(hex4_val(s, i + 2) == Some(c as u32));
            vstd::utf8::char_u32_cast(c, c as u32);
        } else {
            assert(s[i] == c);
        }
    }
}

/// Splits knowledge of a rendered region into its two parts.
proof fn lemma_subrange_cat(s: Seq<char>, i: int, a: Seq<char>, b: Seq<char>)
    requires
        0 <= i,
        i + a.len() + b.len() <= s.len(),
        s.subrange(i, i + a.len() + b.len()) == a + b,
    ensures
        s.subrange(i, i + a.len()) == a,
        s.subrange(i + a.len(), i + a.len() + b.len()) == b,
        forall|k: int| 0 <= k < a.len() ==> s[i + k] == a[k],
        forall|k: int| 0 <= k < b.len() ==> s[i + a.len() + k] == b[k],
{
    let w = s.subrange(i, i + a.len() + b.len());
    assert forall|k: int| 0 <= k < a.len() implies s[i + k] == a[k] by {
        assert(w[k] == (a + b)[k]);
    }
    assert forall|k: int| 0 <= k < b.len() implies s[i + a.len() + k] == b[k] by {
        assert(w[a.len() + k] == (a + b)[a.len() + k]);
    }
    assert(s.subrange(i, i + a.len()) =~= a);
    assert(s.subrange(i + a.len(), i + a.len() + b.len()) =~= b);
}

/// A string without quotes, backslashes or control characters renders as
/// itself.
proof fn lemma_rsc_plain(m: Seq<char>)
    requires
        forall|k: int| 0 <= k < m.len() ==> m[k] != '"' && m[k] != '\\' && (#[trigger] m[k]) as u32
            >= 0x20,
    ensures
        render_string_chars(m) == m,
    decreases m.len(),
{
    if m.len() > 0 {
        assert(render_char(m[0]) == seq![m[0]]);
        lemma_rsc_plain(m.drop_first());
        assert(seq![m[0]] + m.drop_first() =~= m);
    }
}

/// After the column value of a rendered issue, the remaining text — the
/// message member and the closing brace — parses to the whole issue.
#[verifier::rlimit(100)]
#[verifier::spinoff_prover]
proof fn lemma_issue_tail3(s: Seq<char>, v: int, e2: int, iv: IssueView)
    requires
        0 <= v < e2,
        e2 + 14 + render_string_chars(iv.message).len() <= s.len(),
        s.subrange(e2, e2 + 14 + render_string_chars(iv.message).len())
            == ",\"message\":\""@ + (render_string_chars(iv.message) + "\"}"@),
    ensures
        parse_issue_after(s, v, e2, Some(iv.line), Some(iv.column), None)
            == Some((iv, e2 + 14 + render_string_chars(iv.message).len())),
{
    reveal_strlit(",\"message\":\"");
    reveal_strlit("\"}");
    reveal_strlit("message");
    reveal_strlit("line");
    reveal_strlit("column");
    let fc = ",\"message\":\""@;
    let fd = "\"}"@;
    let rm = render_string_chars(iv.message);
    assert(fc.len() == 12 && fd.len() == 2);
    let p3 = e2 + 12;
    let e3 = p3 + rm.len();
    lemma_subrange_cat(s, e2, fc, rm + fd);
    lemma_subrange_cat(s, p3, rm, fd);
    assert forall|k: int| 0 <= k < 12 implies #[trigger] s[e2 + k] == fc[k] by {
        assert(s.subrange(e2, e2 + fc.len())[k] == fc[k]);
    }
    assert forall|k: int| 0 <= k < 2 implies #[trigger] s[e3 + k] == fd[k] by {
        assert(s.subrange(e3, e3 + fd.len())[k] == fd[k]);
    }
    assert(s[e2 + 0] == fc[0] && s[e3 + 0] == fd[0]);
    assert(skip_ws(s, e2) == e2);
    assert(skip_ws(s, e2 + 1) == e2 + 1);
    assert(s.subrange(e2 + 2, e2 + 9) =~= "message"@) by {
        assert(s[e2 + 2] == 'm' && s[e2 + 3] == 'e' && s[e2 + 4] == 's' && s[e2 + 5] == 's'
            && s[e2 + 6] == 'a' && s[e2 + 7] == 'g' && s[e2 + 8] == 'e');
    }
    assert(render_string_chars("message"@) == "message"@) by {
        lemma_rsc_plain("message"@);
    }
    assert(s[e2 + 9] == '"');
    lemma_parse_string_render(s, e2 + 2, "message"@);
    assert(parse_string(s, e2 + 1) == Some(("message"@, e2 + 10)));
    assert(skip_ws(s, e2 + 10) == e2 + 10);
    assert(s[e2 + 10] == ':');
    assert(skip_ws(s, e2 + 11) == e2 + 11);
    assert(s[e2 + 11] == '"');
    assert("message"@ != "line"@ && "message"@ != "column"@);
    assert(s[e3 + 0] == '"' && s[e3 + 1] == '}');
    lemma_parse_string_render(s, p3, iv.message);
    assert(parse_string(s, e2 + 11) == Some((iv.message, e3 + 1)));
    assert(skip_ws(s, e3 + 1) == e3 + 1);
    assert(parse_issue_after(s, e2 + 11, e3 + 1, Some(iv.line), Some(iv.column), Some(iv.message))
        == Some((iv, e3 + 2)));
    assert(parse_issue_fields(s, e2 + 1, Some(iv.line), Some(iv.column), None)
        == Some((iv, e3 + 2)));
}

/// After the line value of a rendered issue, the remaining text — the
/// column and message members and the closing brace — parses to the
/// whole issue.
#[verifier::rlimit(100)]
#[verifier::spinoff_prover]
proof fn lemma_issue_tail2(s: Seq<char>, v: int, e1: int, iv: IssueView)
    requires
        0 <= v < e1,
        e1 + 10 + dec_rep(iv.column as nat).len() + 14 + render_string_chars(
            iv.message,
        ).len() <= s.len(),
        s.subrange(
            e1,
            e1 + 10 + dec_rep(iv.column as nat).len() + 14 + render_string_chars(
                iv.message,
            ).len(),
        ) == ",\"column\":"@ + (dec_rep(iv.column as nat) + (",\"message\":\""@
            + (render_string_chars(iv.message) + "\"}"@))),
    ensures
        parse_issue_after(s, v, e1, Some(iv.line), None, None) == Some(
            (iv, e1 + 10 + dec_rep(iv.column as nat).len() + 14 + render_string_chars(
                iv.message,
            ).len()),
        ),
{
    reveal_strlit(",\"column\":");
    reveal_strlit(",\"message\":\"");
    reveal_strlit("\"}");
    reveal_strlit("column");
    reveal_strlit("line");
    let fb = ",\"column\":"@;
    let r2 = dec_rep(iv.column as nat);
    let rm = render_string_chars(iv.message);
    assert(fb.len() == 10);
    let p2 = e1 + 10;
    let e2 = p2 + r2.len();
    lemma_subrange_cat(s, e1, fb, r2 + (",\"message\":\""@ + (rm + "\"}"@)));
    lemma_subrange_cat(s, p2, r2, ",\"message\":\""@ + (rm + "\"}"@));
    lemma_dec_rep_shape(iv.column as nat);
    assert forall|k: int| 0 <= k < 10 implies #[trigger] s[e1 + k] == fb[k] by {
        assert(s.subrange(e1, e1 + fb.len())[k] == fb[k]);
    }
    assert(s[p2 + 0] == r2[0]) by {
        assert(s.subrange(p2, p2 + r2.len())[0] == r2[0]);
    }
    assert(s[e1 + 0] == fb[0]);
    assert(skip_ws(s, e1) == e1);
    assert(skip_ws(s, e1 + 1) == e1 + 1);
    assert(s[e1 + 1] == '"');
    assert(s.subrange(e1 + 2, e1 + 8) =~= "column"@) by {
        assert(s[e1 + 2] == 'c' && s[e1 + 3] == 'o' && s[e1 + 4] == 'l' && s[e1 + 5] == 'u'
            && s[e1 + 6] == 'm' && s[e1 + 7] == 'n');
    }
    assert(render_string_chars("column"@) == "column"@) by {
        lemma_rsc_plain("column"@);
    }
    assert(s[e1 + 8] == '"');
    lemma_parse_string_render(s, e1 + 2, "column"@);
    assert(parse_string(s, e1 + 1) == Some(("column"@, e1 + 9)));
    assert(s[e1 + 9] == ':');
    assert(skip_ws(s, e1 + 9) == e1 + 9);
    assert(is_digit(r2[0]) && skip_ws(s, p2) == p2);
    assert("column"@ != "line"@);
    let tail = s.subrange(e2, e2 + 14 + rm.len());
    assert(s[e2 + 0] == ',') by {
        assert(tail[0] == (",\"message\":\""@ + (rm + "\"}"@))[0]);
        reveal_strlit(",\"message\":\"");
    }
    lemma_parse_number_render(s, p2, iv.column);
    assert(parse_number(s, p2) == Some((iv.column, e2)));
    lemma_issue_tail3(s, p2, e2, iv);
    assert(parse_issue_fields(s, e1 + 1, Some(iv.line), None, None) == Some((iv, e2 + 14
        + rm.len())));
}

/// A rendered issue object parses back to the issue itself.
#[verifier::rlimit(100)]
#[verifier::spinoff_prover]
proof fn lemma_parse_issue_render(s: Seq<char>, i: int, iv: IssueView)
    requires
        0 <= i,
        i + render_issue(iv).len() <= s.len(),
        s.subrange(i, i + render_issue(iv).len()) == render_issue(iv),
    ensures
        parse_issue(s, i) == Some((iv, i + render_issue(iv).len())),
{
    reveal_strlit("{\"line\":");
    reveal_strlit(",\"column\":");
    reveal_strlit(",\"message\":\"");
    reveal_strlit("\"}");
    reveal_strlit("line");
    let fa = "{\"line\":"@;
    let r1 = dec_rep(iv.line as nat);
    let r2 = dec_rep(iv.column as nat);
    let rm = render_string_chars(iv.message);
    let rr = render_issue(iv);
    assert(fa.len() == 8);
    let p1 = i + 8;
    let e1 = p1 + r1.len();
    assert(rr =~= fa + (r1 + (",\"column\":"@ + (r2 + (",\"message\":\""@ + (rm
        + "\"}"@))))));
    lemma_subrange_cat(s, i, fa, r1 + (",\"column\":"@ + (r2 + (",\"message\":\""@ + (rm
        + "\"}"@)))));
    lemma_subrange_cat(s, p1, r1, ",\"column\":"@ + (r2 + (",\"message\":\""@ + (rm
        + "\"}"@))));
    lemma_dec_rep_shape(iv.line as nat);
    assert forall|k: int| 0 <= k < 8 implies #[trigger] s[i + k] == fa[k] by {
        assert(s.subrange(i, i + fa.len())[k] == fa[k]);
    }
    assert(s[p1 + 0] == r1[0]) by {
        assert(s.subrange(p1, p1 + r1.len())[0] == r1[0]);
    }
    assert(s[i + 0] == fa[0]);
    assert(s[i] == '{' && s[i + 1] == '"');
    assert(skip_ws(s, i + 1) == i + 1);
    assert(s.subrange(i + 2, i + 6) =~= "line"@) by {
        assert(s[i + 2] == 'l' && s[i + 3] == 'i' && s[i + 4] == 'n' && s[i + 5] == 'e');
    }
    assert(render_string_chars("line"@) == "line"@) by {
        lemma_rsc_plain("line"@);
    }
    assert(s[i + 6] == '"');
    lemma_parse_string_render(s, i + 2, "line"@);
    assert(parse_string(s, i + 1) == Some(("line"@, i + 7)));
    assert(s[i + 7] == ':');
    assert(skip_ws(s, i + 7) == i + 7);
    assert(is_digit(r1[0]) && skip_ws(s, p1) == p1);
    let tail = s.subrange(e1, e1 + 10 + r2.len() + 14 + rm.len());
    assert(s[e1 + 0] == ',') by {
        assert(tail[0] == (",\"column\":"@ + (r2 + (",\"message\":\""@ + (rm + "\"}"@))))[0]);
        reveal_strlit(",\"column\":");
    }
    lemma_parse_number_render(s, p1, iv.line);
    assert(parse_number(s, p1) == Some((iv.line, e1)));
    lemma_issue_tail2(s, p1, e1, iv);
    assert(parse_issue_fields(s, i + 1, None, None, None) == Some((iv, i + rr.len())));
    assert(parse_issue(s, i) == Some((iv, i + rr.len())));
}

/// A rendered issue starts with its opening brace.
proof fn lemma_render_issue_first(iv: IssueView)
    ensures
        render_issue(iv).len() >= 8,
        render_issue(iv)[0] == '{',
{
    reveal_strlit("{\"line\":");
    assert(render_issue(iv)[0] == ("{\"line\":"@)[0]);
}

/// A rendered non-empty issue list followed by its closing bracket
/// parses back to the issues, in order.
proof fn lemma_parse_elems_render(s: Seq<char>, i: int, ivs: Seq<IssueView>)
    requires
        0 <= i,
        ivs.len() > 0,
        i + render_issue_seq(ivs).len() + 1 <= s.len(),
        s.subrange(i, i + render_issue_seq(ivs).len()) == render_issue_seq(ivs),
        s[i + render_issue_seq(ivs).len()] == ']',
    ensures
        parse_issue_elems(s, i) == Some((ivs, i + render_issue_seq(ivs).len() + 1)),
    decreases ivs.len(),
{
    let rs = render_issue_seq(ivs);
    let r0 = render_issue(ivs[0]);
    lemma_render_issue_first(ivs[0]);
    if ivs.len() == 1 {
        assert(rs == r0);
        lemma_parse_issue_render(s, i, ivs[0]);
        let p1 = i + r0.len();
        assert(skip_ws(s, p1) == p1);
        assert(seq![ivs[0]] =~= ivs);
    } else {
        let tail = ivs.drop_first();
        let rt = render_issue_seq(tail);
        assert(rs == r0 + seq![','] + rt);
        assert(rs =~= r0 + (seq![','] + rt));
        lemma_subrange_cat(s, i, r0, seq![','] + rt);
        let p1 = i + r0.len();
        lemma_subrange_cat(s, p1, seq![','], rt);
        lemma_parse_issue_render(s, i, ivs[0]);
        assert(s[p1 + 0] == ',') by {
            assert(s.subrange(p1, p1 + 1)[0] == seq![','][0]);
        }
        assert(s[p1] == ',');
        assert(skip_ws(s, p1) == p1);
        let m = p1 + 1;
        assert(s.subrange(m, m + rt.len()) == rt);
        assert(s[m + 0] == rt[0]) by {
            assert(s.subrange(m, m + rt.len())[0] == rt[0]);
        }
        assert(rt[0] == '{') by {
            lemma_render_issue_first(tail[0]);
            if tail.len() == 1 {
                assert(rt == render_issue(tail[0]));
            } else {
                assert(rt == render_issue(tail[0]) + seq![','] + render_issue_seq(
                    tail.drop_first(),
                ));
            }
        }
        assert(skip_ws(s, m) == m);
        assert(s[m + rt.len()] == ']');
        lemma_parse_elems_render(s, m, tail);
        assert(seq![ivs[0]] + tail =~= ivs);
    }
}

/// The issue array of a rendered envelope parses back to the issues.
#[verifier::rlimit(100)]
#[verifier::spinoff_prover]
proof fn lemma_envelope_list_render(s: Seq<char>, ivs: Seq<IssueView>)
    requires
        s.len() >= 12 + render_issue_seq(ivs).len(),
        s[10int] == '[',
        s.subrange(11int, 11int + render_issue_seq(ivs).len()) == render_issue_seq(ivs),
        s[11int + render_issue_seq(ivs).len()] == ']',
    ensures
        parse_issue_list(s, 10) == Some((ivs, 12int + render_issue_seq(ivs).len())),
{
    let rs = render_issue_seq(ivs);
    let e1: int = 11int + rs.len();
    if ivs.len() == 0 {
        assert(rs.len() == 0);
        assert(s[11int] == ']');
        assert(skip_ws(s, 11) == 11);
        assert(ivs =~= Seq::<IssueView>::empty());
    } else {
        assert(s[11int + 0] == rs[0]) by {
            assert(s.subrange(11int, 11int + rs.len())[0] == rs[0]);
        }
        assert(rs[0] == '{') by {
            lemma_render_issue_first(ivs[0]);
            if ivs.len() == 1 {
                assert(rs == render_issue(ivs[0]));
            } else {
                assert(rs == render_issue(ivs[0]) + seq![','] + render_issue_seq(
                    ivs.drop_first(),
                ));
            }
        }
        assert(s[11int] == '{');
        assert(skip_ws(s, 11) == 11);
        lemma_parse_elems_render(s, 11, ivs);
    }
}

/// The canonical rendering of an envelope parses back to exactly the
/// issues it was rendered from, in order, with fields unchanged.
#[verifier::rlimit(100)]
#[verifier::spinoff_prover]
pub proof fn lemma_render_round_trip(ivs: Seq<IssueView>)
    ensures
        parse_envelope(render_envelope(ivs)) == Some(ivs),
{
    reveal_strlit("{\"issues\":[");
    reveal_strlit("]}");
    reveal_strlit("issues");
    let fa = "{\"issues\":["@;
    let fd = "]}"@;
    let rs = render_issue_seq(ivs);
    let s = render_envelope(ivs);
    assert(fa.len() == 11 && fd.len() == 2);
    assert(s =~= fa + (rs + fd));
    let p1 = 11int;
    let e1 = p1 + rs.len();
    assert(s.subrange(0int, 0int + fa.len() + (rs + fd).len()) =~= fa + (rs + fd));
    lemma_subrange_cat(s, 0, fa, rs + fd);
    lemma_subrange_cat(s, p1, rs, fd);
    assert forall|k: int| 0 <= k < 11 implies #[trigger] s[0int + k] == fa[k] by {
        assert(s.subrange(0int, 0int + fa.len())[k] == fa[k]);
    }
    assert forall|k: int| 0 <= k < 2 implies #[trigger] s[e1 + k] == fd[k] by {
        assert(s.subrange(e1, e1 + fd.len())[k] == fd[k]);
    }
    assert(s[0int + 0] == fa[0] && s[e1 + 0] == fd[0]);
    assert(s[0int] == '{');
    assert(skip_ws(s, 0) == 0);
    assert(s[0int + 1] == '"');
    assert(skip_ws(s, 1) == 1);
    assert(s.subrange(2, 8) =~= "issues"@) by {
        assert(s[0int + 2] == 'i' && s[0int + 3] == 's' && s[0int + 4] == 's' && s[0int + 5] == 'u'
            && s[0int + 6] == 'e' && s[0int + 7] == 's');
    }
    assert(render_string_chars("issues"@) == "issues"@) by {
        lemma_rsc_plain("issues"@);
    }
    assert(s[0int + 8] == '"');
    lemma_parse_string_render(s, 2, "issues"@);
    assert(parse_string(s, 1) == Some(("issues"@, 9int)));
    assert(s[0int + 9] == ':');
    assert(skip_ws(s, 9) == 9);
    assert(s[0int + 10] == '[');
    assert(skip_ws(s, 10) == 10);
    assert(s[e1] == ']' && s[e1 + 1] == '}');
    lemma_envelope_list_render(s, ivs);
    assert(parse_issue_list(s, 10) == Some((ivs, e1 + 1)));
    assert(skip_ws(s, e1 + 1) == e1 + 1);
    assert(parse_envelope_after(s, 10, e1 + 1, Some(ivs)) == Some((ivs, e1 + 2)));
    assert(parse_envelope_fields(s, 1, None) == Some((ivs, e1 + 2)));
    assert(e1 + 2 == s.len());
    assert(skip_ws(s, s.len() as int) == s.len());
}

} // verus!
