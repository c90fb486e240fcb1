//! The on-disk format of the store, as mathematics.
//!
//! The store is persisted as a JSON array of records, each with an unsigned
//! `id`, a string `text` and a boolean `done`, pretty-printed with
//! two-space indentation. `spec_encode_tasks` gives the exact character
//! sequence written for a store; the `spec_parse_*` functions give the
//! grammar accepted when reading one back: arbitrary blank space between
//! tokens, the three fields in their fixed order, decimal ids without
//! leading zeros, and string escapes (`\"`, `\\`, `\/`, `\b`, `\f`, `\n`,
//! `\r`, `\t`, and `\uXXXX` for scalar values outside the surrogate range).

use vstd::prelude::*;

use crate::task::TaskView;

verus! {

/// Blank space between tokens.
pub open spec fn is_ws(c: char) -> bool {
    c == ' ' || c == '\n' || c == '\t' || c == '\r'
}

pub open spec fn is_digit(c: char) -> bool {
    '0' <= c && c <= '9'
}

pub open spec fn digit_val(c: char) -> int {
    c as int - '0' as int
}

pub open spec fn is_hex_digit(c: char) -> bool {
    is_digit(c) || ('a' <= c && c <= 'f') || ('A' <= c && c <= 'F')
}

pub open spec fn hex_val(c: char) -> int {
    if is_digit(c) {
        digit_val(c)
    } else if 'a' <= c && c <= 'f' {
        c as int - 'a' as int + 10
    } else {
        c as int - 'A' as int + 10
    }
}

/// Code points that are Unicode scalar values, hence valid `char`s.
pub open spec fn is_scalar_code(v: int) -> bool {
    (0 <= v && v < 0xD800) || (0xE000 <= v && v <= 0x10FFFF)
}

/// The decimal digit character for a value below ten.
pub open spec fn spec_digit_char(d: int) -> char {
    if d == 0 { '0' }
    else if d == 1 { '1' }
    else if d == 2 { '2' }
    else if d == 3 { '3' }
    else if d == 4 { '4' }
    else if d == 5 { '5' }
    else if d == 6 { '6' }
    else if d == 7 { '7' }
    else if d == 8 { '8' }
    else { '9' }
}

/// The lowercase hexadecimal digit character for a value below sixteen.
pub open spec fn spec_hex_char(d: int) -> char {
    if d < 10 { spec_digit_char(d) }
    else if d == 10 { 'a' }
    else if d == 11 { 'b' }
    else if d == 12 { 'c' }
    else if d == 13 { 'd' }
    else if d == 14 { 'e' }
    else { 'f' }
}

/// The decimal digits of a number, most significant first, no sign, no
/// leading zeros (a lone `0` for zero).
pub open spec fn spec_encode_u32(n: u32) -> Seq<char>
    decreases n,
{
    if n < 10 {
        seq![spec_digit_char(n as int)]
    } else {
        spec_encode_u32((n / 10) as u32).push(spec_digit_char((n % 10) as int))
    }
}

/// How one character of a task text appears inside a string literal.
pub open spec fn spec_escape_char(c: char) -> Seq<char> {
    if c == '"' { seq!['\\', '"'] }
    else if c == '\\' { seq!['\\', '\\'] }
    else if c == '\u{8}' { seq!['\\', 'b'] }
    else if c == '\u{9}' { seq!['\\', 't'] }
    else if c == '\u{a}' { seq!['\\', 'n'] }
    else if c == '\u{c}' { seq!['\\', 'f'] }
    else if c == '\u{d}' { seq!['\\', 'r'] }
    else if (c as int) < 0x20 {
        seq!['\\', 'u', '0', '0', spec_hex_char(c as int / 16), spec_hex_char(c as int % 16)]
    } else {
        seq![c]
    }
}

/// The body of a string literal: each character escaped as needed.
pub open spec fn spec_encode_text(s: Seq<char>) -> Seq<char>
    decreases s.len(),
{
    if s.len() == 0 {
        Seq::empty()
    } else {
        spec_escape_char(s.first()) + spec_encode_text(s.drop_first())
    }
}

/// A quoted string literal.
pub open spec fn spec_encode_string(s: Seq<char>) -> Seq<char> {
    seq!['"'] + spec_encode_text(s) + seq!['"']
}

pub open spec fn spec_encode_bool(b: bool) -> Seq<char> {
    if b { "true"@ } else { "false"@ }
}

/// One record, indented for its place inside the array.
pub open spec fn spec_encode_task(t: TaskView) -> Seq<char> {
    "{\n    \"id\": "@ + spec_encode_u32(t.id) + ",\n    \"text\": "@ + spec_encode_string(t.text)
        + ",\n    \"done\": "@ + spec_encode_bool(t.done) + "\n  }"@
}

/// The records joined by the separator the pretty printer puts between
/// array elements.
pub open spec fn spec_encode_items(ts: Seq<TaskView>) -> Seq<char>
    decreases ts.len(),
{
    if ts.len() == 0 {
        Seq::empty()
    } else if ts.len() == 1 {
        spec_encode_task(ts[0])
    } else {
        spec_encode_task(ts.first()) + ",\n  "@ + spec_encode_items(ts.drop_first())
    }
}

/// The full file contents for a store.
pub open spec fn spec_encode_tasks(ts: Seq<TaskView>) -> Seq<char> {
    if ts.len() == 0 {
        "[]"@
    } else {
        "[\n  "@ + spec_encode_items(ts) + "\n]"@
    }
}

/// The position of the first non-blank character at or after `i`.
pub open spec fn spec_skip_ws(s: Seq<char>, i: int) -> int
    decreases s.len() - i,
{
    if 0 <= i && i < s.len() && is_ws(s[i]) {
        spec_skip_ws(s, i + 1)
    } else {
        i
    }
}

/// One expected character.
pub open spec fn spec_expect(s: Seq<char>, i: int, c: char) -> Option<int> {
    if 0 <= i && i < s.len() && s[i] == c {
        Some(i + 1)
    } else {
        None
    }
}

/// An expected run of characters.
pub open spec fn spec_match_lit(s: Seq<char>, i: int, lit: Seq<char>) -> Option<int> {
    if 0 <= i && i + lit.len() <= s.len() && s.subrange(i, i + lit.len()) == lit {
        Some(i + lit.len())
    } else {
        None
    }
}

/// A run of decimal digits folded onto `acc`, rejecting values beyond
/// `u32::MAX`; stops at the first non-digit.
pub open spec fn spec_parse_digits(s: Seq<char>, i: int, acc: u32) -> Option<(u32, int)>
    decreases s.len() - i,
{
    if 0 <= i && i < s.len() && is_digit(s[i]) {
        let v = acc as int * 10 + digit_val(s[i]);
        if v > u32::MAX as int {
            None
        } else {
            spec_parse_digits(s, i + 1, v as u32)
        }
    } else {
        Some((acc, i))
    }
}

/// A decimal number: at least one digit, no leading zero, value within
/// `u32`.
pub open spec fn spec_parse_u32(s: Seq<char>, i: int) -> Option<(u32, int)> {
    if 0 <= i && i < s.len() && is_digit(s[i]) {
        if s[i] == '0' {
            if i + 1 < s.len() && is_digit(s[i + 1]) {
                None
            } else {
                Some((0, i + 1))
            }
        } else {
            spec_parse_digits(s, i, 0)
        }
    } else {
        None
    }
}

/// The character a single-letter escape stands for.
pub open spec fn spec_unescape(e: char) -> Option<char> {
    if e == '"' { Some('"') }
    else if e == '\\' { Some('\\') }
    else if e == '/' { Some('/') }
    else if e == 'b' { Some('\u{8}') }
    else if e == 'f' { Some('\u{c}') }
    else if e == 'n' { Some('\u{a}') }
    else if e == 'r' { Some('\u{d}') }
    else if e == 't' { Some('\u{9}') }
    else { None }
}

/// The body of a string literal up to its closing quote: plain characters
/// above the control range, single-letter escapes, and `\uXXXX` escapes
/// naming a scalar value.
pub open spec fn spec_parse_text(s: Seq<char>, i: int) -> Option<(Seq<char>, int)>
    decreases s.len() - i,
{
    if !(0 <= i && i < s.len()) {
        None
    } else if s[i] == '"' {
        Some((Seq::empty(), i + 1))
    } else if s[i] == '\\' {
        if i + 1 < s.len() {
            let e = s[i + 1];
            if e == 'u' {
                if i + 6 <= s.len() && is_hex_digit(s[i + 2]) && is_hex_digit(s[i + 3])
                    && is_hex_digit(s[i + 4]) && is_hex_digit(s[i + 5]) {
                    let code = ((hex_val(s[i + 2]) * 16 + hex_val(s[i + 3])) * 16 + hex_val(
                        s[i + 4],
                    )) * 16 + hex_val(s[i + 5]);
                    if is_scalar_code(code) {
                        match spec_parse_text(s, i + 6) {
                            None => None,
                            Some((t, j)) => Some((seq![code as char] + t, j)),
                        }
                    } else {
                        None
                    }
                } else {
                    None
                }
            } else {
                match spec_unescape(e) {
                    None => None,
                    Some(c) => match spec_parse_text(s, i + 2) {
                        None => None,
                        Some((t, j)) => Some((seq![c] + t, j)),
                    },
                }
            }
        } else {
            None
        }
    } else if (s[i] as int) < 0x20 {
        None
    } else {
        match spec_parse_text(s, i + 1) {
            None => None,
            Some((t, j)) => Some((seq![s[i]] + t, j)),
        }
    }
}

/// A quoted string literal.
pub open spec fn spec_parse_string(s: Seq<char>, i: int) -> Option<(Seq<char>, int)> {
    if 0 <= i && i < s.len() && s[i] == '"' {
        spec_parse_text(s, i + 1)
    } else {
        None
    }
}

pub open spec fn spec_parse_bool(s: Seq<char>, i: int) -> Option<(bool, int)> {
    match spec_match_lit(s, i, "true"@) {
        Some(j) => Some((true, j)),
        None => match spec_match_lit(s, i, "false"@) {
            Some(j) => Some((false, j)),
            None => None,
        },
    }
}

/// One record: `{ "id": <number>, "text": <string>, "done": <bool> }`,
/// with any blank space between tokens.
pub open spec fn spec_parse_task(s: Seq<char>, i: int) -> Option<(TaskView, int)> {
    match spec_expect(s, i, '{') {
        None => None,
        Some(a) => {
            let b = spec_skip_ws(s, a);
            match spec_match_lit(s, b, "\"id\""@) {
                None => None,
                Some(c0) => {
                    let d = spec_skip_ws(s, c0);
                    match spec_expect(s, d, ':') {
                        None => None,
                        Some(e0) => {
                            let f = spec_skip_ws(s, e0);
                            match spec_parse_u32(s, f) {
                                None => None,
                                Some((id, g)) => {
                                    let h = spec_skip_ws(s, g);
                                    match spec_expect(s, h, ',') {
                                        None => None,
                                        Some(k0) => spec_parse_task_text(s, k0, id),
                                    }
                                },
                            }
                        },
                    }
                },
            }
        },
    }
}

/// The rest of a record after `"id": <number>,`.
pub open spec fn spec_parse_task_text(s: Seq<char>, i: int, id: u32) -> Option<(TaskView, int)> {
    let l = spec_skip_ws(s, i);
    match spec_match_lit(s, l, "\"text\""@) {
        None => None,
        Some(m0) => {
            let n0 = spec_skip_ws(s, m0);
            match spec_expect(s, n0, ':') {
                None => None,
                Some(p0) => {
                    let q0 = spec_skip_ws(s, p0);
                    match spec_parse_string(s, q0) {
                        None => None,
                        Some((text, r0)) => {
                            let s0 = spec_skip_ws(s, r0);
                            match spec_expect(s, s0, ',') {
                                None => None,
                                Some(t0) => spec_parse_task_done(s, t0, id, text),
                            }
                        },
                    }
                },
            }
        },
    }
}

/// The rest of a record after its `"text"` field.
pub open spec fn spec_parse_task_done(s: Seq<char>, i: int, id: u32, text: Seq<char>) -> Option<
    (TaskView, int),
> {
    let u0 = spec_skip_ws(s, i);
    match spec_match_lit(s, u0, "\"done\""@) {
        None => None,
        Some(v0) => {
            let w0 = spec_skip_ws(s, v0);
            match spec_expect(s, w0, ':') {
                None => None,
                Some(x0) => {
                    let y0 = spec_skip_ws(s, x0);
                    match spec_parse_bool(s, y0) {
                        None => None,
                        Some((done, z0)) => {
                            let a1 = spec_skip_ws(s, z0);
                            match spec_expect(s, a1, '}') {
                                None => None,
                                Some(b1) => Some((TaskView { id, text, done }, b1)),
                            }
                        },
                    }
                },
            }
        },
    }
}

/// One or more records separated by commas, ending at the closing bracket;
/// `i` stands at the first record's brace.
pub open spec fn spec_parse_items(s: Seq<char>, i: int) -> Option<(Seq<TaskView>, int)>
    decreases s.len() - i,
    when 0 <= i
    via spec_parse_items_decreases
{
    match spec_parse_task(s, i) {
        None => None,
        Some((t, j)) => {
            let k = spec_skip_ws(s, j);
            if k < s.len() && s[k] == ',' {
                let m = spec_skip_ws(s, k + 1);
                match spec_parse_items(s, m) {
                    None => None,
                    Some((ts, e)) => Some((seq![t] + ts, e)),
                }
            } else if k < s.len() && s[k] == ']' {
                Some((seq![t], k + 1))
            } else {
                None
            }
        },
    }
}

#[via_fn]
proof fn spec_parse_items_decreases(s: Seq<char>, i: int) {
    lemma_parse_task_advances(s, i);
    match spec_parse_task(s, i) {
        None => {},
        Some((t, j)) => {
            lemma_skip_ws_bounds(s, j);
            let k = spec_skip_ws(s, j);
            if k < s.len() && s[k] == ',' {
                lemma_skip_ws_bounds(s, k + 1);
            }
        },
    }
}

/// A whole file: one array of records, nothing but blank space around it.
pub open spec fn spec_parse_tasks(s: Seq<char>) -> Option<Seq<TaskView>> {
    let i = spec_skip_ws(s, 0);
    match spec_expect(s, i, '[') {
        None => None,
        Some(j) => {
            let k = spec_skip_ws(s, j);
            if k < s.len() && s[k] == ']' {
                if spec_skip_ws(s, k + 1) == s.len() {
                    Some(Seq::empty())
                } else {
                    None
                }
            } else {
                match spec_parse_items(s, k) {
                    None => None,
                    Some((ts, e)) => {
                        if spec_skip_ws(s, e) == s.len() {
                            Some(ts)
                        } else {
                            None
                        }
                    },
                }
            }
        },
    }
}

/// Skipping blank space never moves backwards nor past the end.
pub proof fn lemma_skip_ws_bounds(s: Seq<char>, i: int)
    requires
        0 <= i <= s.len(),
    ensures
        i <= spec_skip_ws(s, i) <= s.len(),
        spec_skip_ws(s, i) < s.len() ==> !is_ws(s[spec_skip_ws(s, i)]),
    decreases s.len() - i,
{
    if i < s.len() && is_ws(s[i]) {
        lemma_skip_ws_bounds(s, i + 1);
    }
}

/// A digit run ends within the input and after its start.
pub proof fn lemma_parse_digits_bounds(s: Seq<char>, i: int, acc: u32)
    requires
        0 <= i <= s.len(),
    ensures
        match spec_parse_digits(s, i, acc) {
            Some((v, j)) => i <= j <= s.len(),
            None => true,
        },
    decreases s.len() - i,
{
    if 0 <= i && i < s.len() && is_digit(s[i]) {
        let v = acc as int * 10 + digit_val(s[i]);
        if v <= u32::MAX as int {
            lemma_parse_digits_bounds(s, i + 1, v as u32);
        }
    }
}

/// A parsed number consumes at least one character and stays in bounds.
pub proof fn lemma_parse_u32_advances(s: Seq<char>, i: int)
    ensures
        match spec_parse_u32(s, i) {
            Some((v, j)) => i < j <= s.len(),
            None => true,
        },
{
    if 0 <= i && i < s.len() && is_digit(s[i]) && s[i] != '0' {
        let v = digit_val(s[i]);
        if v <= u32::MAX as int {
            lemma_parse_digits_bounds(s, i + 1, v as u32);
        }
    }
}

/// A parsed string body consumes at least its closing quote.
pub proof fn lemma_parse_text_advances(s: Seq<char>, i: int)
    ensures
        match spec_parse_text(s, i) {
            Some((t, j)) => i < j <= s.len(),
            None => true,
        },
    decreases s.len() - i,
{
    if 0 <= i && i < s.len() {
        if s[i] == '"' {
        } else if s[i] == '\\' {
            if i + 1 < s.len() {
                let e = s[i + 1];
                if e == 'u' {
                    if i + 6 <= s.len() {
                        lemma_parse_text_advances(s, i + 6);
                    }
                } else {
                    lemma_parse_text_advances(s, i + 2);
                }
            }
        } else {
            lemma_parse_text_advances(s, i + 1);
        }
    }
}

/// A parsed record consumes at least one character and stays in bounds.
pub proof fn lemma_parse_task_advances(s: Seq<char>, i: int)
    ensures
        match spec_parse_task(s, i) {
            Some((t, j)) => i < j <= s.len(),
            None => true,
        },
{
    match spec_expect(s, i, '{') {
        None => {},
        Some(a) => {
            lemma_skip_ws_bounds(s, a);
            let b = spec_skip_ws(s, a);
            match spec_match_lit(s, b, "\"id\""@) {
                None => {},
                Some(c0) => {
                    lemma_skip_ws_bounds(s, c0);
                    let d = spec_skip_ws(s, c0);
                    match spec_expect(s, d, ':') {
                        None => {},
                        Some(e0) => {
                            lemma_skip_ws_bounds(s, e0);
                            let f = spec_skip_ws(s, e0);
                            lemma_parse_u32_advances(s, f);
                            match spec_parse_u32(s, f) {
                                None => {},
                                Some((id, g)) => {
                                    lemma_skip_ws_bounds(s, g);
                                    let h = spec_skip_ws(s, g);
                                    match spec_expect(s, h, ',') {
                                        None => {},
                                        Some(k0) => {
                                            lemma_parse_task_text_advances(s, k0, id);
                                        },
                                    }
                                },
                            }
                        },
                    }
                },
            }
        },
    }
}

proof fn lemma_parse_task_text_advances(s: Seq<char>, i: int, id: u32)
    requires
        0 <= i <= s.len(),
    ensures
        match spec_parse_task_text(s, i, id) {
            Some((t, j)) => i <= j <= s.len(),
            None => true,
        },
{
    lemma_skip_ws_bounds(s, i);
    let l = spec_skip_ws(s, i);
    match spec_match_lit(s, l, "\"text\""@) {
        None => {},
        Some(m0) => {
            lemma_skip_ws_bounds(s, m0);
            let n0 = spec_skip_ws(s, m0);
            match spec_expect(s, n0, ':') {
                None => {},
                Some(p0) => {
                    lemma_skip_ws_bounds(s, p0);
                    let q0 = spec_skip_ws(s, p0);
                    lemma_parse_text_advances(s, q0 + 1);
                    match spec_parse_string(s, q0) {
                        None => {},
                        Some((text, r0)) => {
                            lemma_skip_ws_bounds(s, r0);
                            let s0 = spec_skip_ws(s, r0);
                            match spec_expect(s, s0, ',') {
                                None => {},
                                Some(t0) => {
                                    lemma_parse_task_done_advances(s, t0, id, text);
                                },
                            }
                        },
                    }
                },
            }
        },
    }
}

proof fn lemma_parse_task_done_advances(s: Seq<char>, i: int, id: u32, text: Seq<char>)
    requires
        0 <= i <= s.len(),
    ensures
        match spec_parse_task_done(s, i, id, text) {
            Some((t, j)) => i <= j <= s.len(),
            None => true,
        },
{
    lemma_skip_ws_bounds(s, i);
    let u0 = spec_skip_ws(s, i);
    match spec_match_lit(s, u0, "\"done\""@) {
        None => {},
        Some(v0) => {
            lemma_skip_ws_bounds(s, v0);
            let w0 = spec_skip_ws(s, v0);
            match spec_expect(s, w0, ':') {
                None => {},
                Some(x0) => {
                    lemma_skip_ws_bounds(s, x0);
                    let y0 = spec_skip_ws(s, x0);
                    match spec_parse_bool(s, y0) {
                        None => {},
                        Some((done, z0)) => {
                            assert(z0 <= s.len());
                            lemma_skip_ws_bounds(s, z0);
                        },
                    }
                },
            }
        },
    }
}

} // verus!
