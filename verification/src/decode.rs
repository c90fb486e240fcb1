//! Reading a store back in: a recursive-descent parser proved equal to the
//! `spec_parse_*` grammar.

use vstd::prelude::*;
use vstd::string::StrSliceExecFns;

use crate::codec::digit_val;
use crate::codec::hex_val;
use crate::codec::is_digit;
use crate::codec::is_hex_digit;
use crate::codec::is_scalar_code;
use crate::codec::is_ws;
use crate::codec::lemma_parse_task_advances;
use crate::codec::spec_match_lit;
use crate::codec::spec_parse_digits;
use crate::codec::spec_parse_items;
use crate::codec::spec_parse_task;
use crate::codec::spec_parse_tasks;
use crate::codec::spec_parse_text;
use crate::codec::spec_parse_u32;
use crate::codec::spec_skip_ws;
use crate::codec::spec_unescape;
use crate::encode::push_char;
use crate::task::Task;
use crate::task::views_of;

verus! {

/// Relies on char::from_u32: `Some` exactly for Unicode scalar values,
/// holding the character with that value.
#[verifier::external_body]
fn char_from_u32(v: u32) -> (r: Option<char>)
    ensures
        r == (if is_scalar_code(v as int) {
            Some(v as char)
        } else {
            None::<char>
        }),
{
    char::from_u32(v)
}

fn is_ws_exec(c: char) -> (r: bool)
    ensures
        r == is_ws(c),
{
    c == ' ' || c == '\n' || c == '\t' || c == '\r'
}

fn is_digit_exec(c: char) -> (r: bool)
    ensures
        r == is_digit(c),
{
    proof {
        vstd::utf8::char_is_scalar(c);
        vstd::utf8::char_u32_cast(c, c as u32);
    }
    let v = c as u32;
    48 <= v && v <= 57
}

fn is_hex_digit_exec(c: char) -> (r: bool)
    ensures
        r == is_hex_digit(c),
{
    proof {
        vstd::utf8::char_is_scalar(c);
        vstd::utf8::char_u32_cast(c, c as u32);
    }
    let v = c as u32;
    (48 <= v && v <= 57) || (97 <= v && v <= 102) || (65 <= v && v <= 70)
}

fn hex_val_exec(c: char) -> (v: u32)
    requires
        is_hex_digit(c),
    ensures
        v as int == hex_val(c),
        v < 16,
{
    proof {
        vstd::utf8::char_is_scalar(c);
        vstd::utf8::char_u32_cast(c, c as u32);
    }
    let u = c as u32;
    if 48 <= u && u <= 57 {
        u - 48
    } else if 97 <= u && u <= 102 {
        u - 97 + 10
    } else {
        u - 65 + 10
    }
}

fn skip_ws(s: &Vec<char>, start: usize) -> (r: usize)
    requires
        start <= s@.len(),
    ensures
        r as int == spec_skip_ws(s@, start as int),
        start <= r <= s@.len(),
{
    let mut i: usize = start;
    while i < s.len() && is_ws_exec(s[i])
        invariant
            start <= i <= s@.len(),
            spec_skip_ws(s@, start as int) == spec_skip_ws(s@, i as int),
        decreases s@.len() - i,
    {
        i = i + 1;
    }
    i
}

fn match_lit(s: &Vec<char>, start: usize, lit: &str) -> (r: Option<usize>)
    requires
        start <= s@.len(),
    ensures
        match r {
            Some(j) => spec_match_lit(s@, start as int, lit@) == Some(j as int) && start <= j
                <= s@.len(),
            None => spec_match_lit(s@, start as int, lit@) is None,
        },
{
    let n = lit.unicode_len();
    let slen = s.len();
    if n > slen - start {
        return None;
    }
    let mut k: usize = 0;
    while k < n
        invariant
            0 <= k <= n,
            n == lit@.len(),
            slen == s@.len(),
            start + n <= slen,
            forall|m: int| 0 <= m < k ==> s@[start + m] == lit@[m],
        decreases n - k,
    {
        if s[start + k] != lit.get_char(k) {
            proof {
                if s@.subrange(start as int, start + lit@.len()) == lit@ {
                    let kk = k as int;
                    assert(s@.subrange(start as int, start + lit@.len())[kk] == lit@[kk]);
                }
            }
            return None;
        }
        k = k + 1;
    }
    proof {
        assert(s@.subrange(start as int, start + lit@.len()) =~= lit@);
    }
    Some(start + n)
}

fn parse_u32_exec(s: &Vec<char>, start: usize) -> (r: Option<(u32, usize)>)
    requires
        start <= s@.len(),
    ensures
        match r {
            Some((v, j)) => spec_parse_u32(s@, start as int) == Some((v, j as int)) && start < j
                <= s@.len(),
            None => spec_parse_u32(s@, start as int) is None,
        },
{
    if start >= s.len() || !is_digit_exec(s[start]) {
        return None;
    }
    if s[start] == '0' {
        if start + 1 < s.len() && is_digit_exec(s[start + 1]) {
            return None;
        }
        return Some((0, start + 1));
    }
    let mut acc: u32 = 0;
    let mut i: usize = start;
    loop
        invariant
            start <= i <= s@.len(),
            start < s@.len(),
            is_digit(s@[start as int]),
            s@[start as int] != '0',
            spec_parse_u32(s@, start as int) == spec_parse_digits(s@, i as int, acc),
        decreases s@.len() - i,
    {
        if i >= s.len() || !is_digit_exec(s[i]) {
            return Some((acc, i));
        }
        let d = (s[i] as u32) - 48;
        proof {
            assert(d as int == digit_val(s@[i as int]));
        }
        let wide: u64 = acc as u64 * 10 + d as u64;
        if wide > u32::MAX as u64 {
            return None;
        }
        acc = wide as u32;
        i = i + 1;
    }
}

fn unescape_exec(e: char) -> (r: Option<char>)
    ensures
        r == spec_unescape(e),
{
    if e == '"' { Some('"') }
    else if e == '\\' { Some('\\') }
    else if e == '/' { Some('/') }
    else if e == 'b' { Some('\u{8}') }
    else if e == 'f' { Some('\u{c}') }
    else if e == 'n' { Some('\u{a}') }
    else if e == 'r' { Some('\u{d}') }
    else if e == 't' { Some('\u{9}') }
    else { None }
}

fn parse_text_exec(s: &Vec<char>, start: usize) -> (r: Option<(Vec<char>, usize)>)
    requires
        start <= s@.len(),
    ensures
        match r {
            Some((t, j)) => spec_parse_text(s@, start as int) == Some((t@, j as int)) && start < j
                <= s@.len(),
            None => spec_parse_text(s@, start as int) is None,
        },
{
    let mut acc: Vec<char> = Vec::new();
    let mut i: usize = start;
    loop
        invariant
            start <= i <= s@.len(),
            spec_parse_text(s@, start as int) == (match spec_parse_text(s@, i as int) {
                Some((t, j)) => Some((acc@ + t, j)),
                None => None::<(Seq<char>, int)>,
            }),
        decreases s@.len() - i,
    {
        if i >= s.len() {
            return None;
        }
        let c = s[i];
        if c == '"' {
            proof {
                assert(acc@ + Seq::<char>::empty() =~= acc@);
            }
            return Some((acc, i + 1));
        } else if c == '\\' {
            if i + 1 >= s.len() {
                return None;
            }
            let e = s[i + 1];
            if e == 'u' {
                if s.len() - i < 6 {
                    return None;
                }
                if !(is_hex_digit_exec(s[i + 2]) && is_hex_digit_exec(s[i + 3])
                    && is_hex_digit_exec(s[i + 4]) && is_hex_digit_exec(s[i + 5])) {
                    return None;
                }
                let code = ((hex_val_exec(s[i + 2]) * 16 + hex_val_exec(s[i + 3])) * 16
                    + hex_val_exec(s[i + 4])) * 16 + hex_val_exec(s[i + 5]);
                if 0xD800 <= code && code < 0xE000 {
                    return None;
                }
                let ghost pre = acc@;
                match char_from_u32(code) {
                    Some(ch) => {
                        acc.push(ch);
                        proof {
                            match spec_parse_text(s@, i + 6) {
                                Some((t, j)) => {
                                    assert(pre + (seq![ch] + t) =~= acc@ + t);
                                },
                                None => {},
                            }
                        }
                        i = i + 6;
                    },
                    None => {
                        proof {
                            assert(false);
                        }
                        return None;
                    },
                }
            } else {
                match unescape_exec(e) {
                    None => {
                        return None;
                    },
                    Some(ch) => {
                        let ghost pre = acc@;
                        acc.push(ch);
                        proof {
                            match spec_parse_text(s@, i + 2) {
                                Some((t, j)) => {
                                    assert(pre + (seq![ch] + t) =~= acc@ + t);
                                },
                                None => {},
                            }
                        }
                        i = i + 2;
                    },
                }
            }
        } else if (c as u32) < 0x20 {
            proof {
                vstd::utf8::char_is_scalar(c);
                vstd::utf8::char_u32_cast(c, c as u32);
                assert((c as int) < 0x20);
                assert(spec_parse_text(s@, i as int) is None);
            }
            return None;
        } else {
            let ghost pre = acc@;
            acc.push(c);
            proof {
                vstd::utf8::char_is_scalar(c);
                vstd::utf8::char_u32_cast(c, c as u32);
                match spec_parse_text(s@, i + 1) {
                    Some((t, j)) => {
                        assert(pre + (seq![c] + t) =~= acc@ + t);
                    },
                    None => {},
                }
            }
            i = i + 1;
        }
    }
}

/// Builds a `String` from parsed characters.
fn chars_to_string(v: &Vec<char>) -> (r: String)
    ensures
        r@ == v@,
{
    let mut out = String::new();
    let mut i: usize = 0;
    while i < v.len()
        invariant
            0 <= i <= v@.len(),
            out@ == v@.take(i as int),
        decreases v@.len() - i,
    {
        push_char(&mut out, v[i]);
        proof {
            assert(v@.take(i + 1) =~= v@.take(i as int).push(v@[i as int]));
        }
        i = i + 1;
    }
    proof {
        assert(v@.take(v@.len() as int) =~= v@);
    }
    out
}

fn parse_bool_exec(s: &Vec<char>, start: usize) -> (r: Option<(bool, usize)>)
    requires
        start <= s@.len(),
    ensures
        match r {
            Some((b, j)) => crate::codec::spec_parse_bool(s@, start as int) == Some((
                b,
                j as int,
            )) && start <= j <= s@.len(),
            None => crate::codec::spec_parse_bool(s@, start as int) is None,
        },
{
    match match_lit(s, start, "true") {
        Some(j) => Some((true, j)),
        None => match match_lit(s, start, "false") {
            Some(j) => Some((false, j)),
            None => None,
        },
    }
}

fn parse_task_exec(s: &Vec<char>, start: usize) -> (r: Option<(Task, usize)>)
    requires
        start <= s@.len(),
    ensures
        match r {
            Some((t, j)) => spec_parse_task(s@, start as int) == Some((t@, j as int)) && start < j
                <= s@.len(),
            None => spec_parse_task(s@, start as int) is None,
        },
{
    proof {
        lemma_parse_task_advances(s@, start as int);
    }
    if start >= s.len() || s[start] != '{' {
        return None;
    }
    let b = skip_ws(s, start + 1);
    let c0 = match match_lit(s, b, "\"id\"") {
        Some(j) => j,
        None => {
            return None;
        },
    };
    let d = skip_ws(s, c0);
    if d >= s.len() || s[d] != ':' {
        return None;
    }
    let f = skip_ws(s, d + 1);
    let (id, g) = match parse_u32_exec(s, f) {
        Some(p) => p,
        None => {
            return None;
        },
    };
    let h = skip_ws(s, g);
    if h >= s.len() || s[h] != ',' {
        return None;
    }
    let l = skip_ws(s, h + 1);
    let m0 = match match_lit(s, l, "\"text\"") {
        Some(j) => j,
        None => {
            return None;
        },
    };
    let n0 = skip_ws(s, m0);
    if n0 >= s.len() || s[n0] != ':' {
        return None;
    }
    let q0 = skip_ws(s, n0 + 1);
    if q0 >= s.len() || s[q0] != '"' {
        return None;
    }
    let (text_chars, r0) = match parse_text_exec(s, q0 + 1) {
        Some(p) => p,
        None => {
            return None;
        },
    };
    let s0 = skip_ws(s, r0);
    if s0 >= s.len() || s[s0] != ',' {
        return None;
    }
    let u0 = skip_ws(s, s0 + 1);
    let v0 = match match_lit(s, u0, "\"done\"") {
        Some(j) => j,
        None => {
            return None;
        },
    };
    let w0 = skip_ws(s, v0);
    if w0 >= s.len() || s[w0] != ':' {
        return None;
    }
    let y0 = skip_ws(s, w0 + 1);
    let (done, z0) = match parse_bool_exec(s, y0) {
        Some(p) => p,
        None => {
            return None;
        },
    };
    let a1 = skip_ws(s, z0);
    if a1 >= s.len() || s[a1] != '}' {
        return None;
    }
    let text = chars_to_string(&text_chars);
    let task = Task { id, text, done };
    proof {
        assert(task@.text == text_chars@);
    }
    Some((task, a1 + 1))
}

fn parse_items_exec(s: &Vec<char>, start: usize) -> (r: Option<(Vec<Task>, usize)>)
    requires
        start <= s@.len(),
    ensures
        match r {
            Some((v, e)) => spec_parse_items(s@, start as int) == Some((
                views_of(v@),
                e as int,
            )) && start < e <= s@.len(),
            None => spec_parse_items(s@, start as int) is None,
        },
{
    let mut acc: Vec<Task> = Vec::new();
    let mut i: usize = start;
    loop
        invariant
            start <= i <= s@.len(),
            spec_parse_items(s@, start as int) == (match spec_parse_items(s@, i as int) {
                Some((ts, e)) => Some((views_of(acc@) + ts, e)),
                None => None::<(Seq<crate::task::TaskView>, int)>,
            }),
        decreases s@.len() - i,
    {
        let (task, j) = match parse_task_exec(s, i) {
            Some(p) => p,
            None => {
                return None;
            },
        };
        let k = skip_ws(s, j);
        let ghost pre = acc@;
        if k < s.len() && s[k] == ',' {
            let m = skip_ws(s, k + 1);
            acc.push(task);
            proof {
                assert(views_of(acc@) =~= views_of(pre).push(acc@.last()@));
                match spec_parse_items(s@, m as int) {
                    Some((ts, e)) => {
                        assert(views_of(pre) + (seq![acc@.last()@] + ts) =~= views_of(acc@) + ts);
                    },
                    None => {},
                }
            }
            i = m;
        } else if k < s.len() && s[k] == ']' {
            acc.push(task);
            proof {
                assert(views_of(acc@) =~= views_of(pre).push(acc@.last()@));
                assert(views_of(pre) + seq![acc@.last()@] =~= views_of(acc@));
            }
            return Some((acc, k + 1));
        } else {
            return None;
        }
    }
}

/// Parses a whole file's characters as a store.
pub fn parse_tasks(s: &Vec<char>) -> (r: Option<Vec<Task>>)
    ensures
        match r {
            Some(v) => spec_parse_tasks(s@) == Some(views_of(v@)),
            None => spec_parse_tasks(s@) is None,
        },
{
    let i = skip_ws(s, 0);
    if i >= s.len() || s[i] != '[' {
        return None;
    }
    let k = skip_ws(s, i + 1);
    if k < s.len() && s[k] == ']' {
        if skip_ws(s, k + 1) == s.len() {
            let empty: Vec<Task> = Vec::new();
            proof {
                assert(views_of(empty@) =~= Seq::<crate::task::TaskView>::empty());
            }
            return Some(empty);
        }
        return None;
    }
    let (v, e) = match parse_items_exec(s, k) {
        Some(p) => p,
        None => {
            return None;
        },
    };
    if skip_ws(s, e) == s.len() {
        Some(v)
    } else {
        None
    }
}

/// The characters of a string slice.
pub fn str_to_chars(s: &str) -> (v: Vec<char>)
    ensures
        v@ == s@,
{
    let n = s.unicode_len();
    let mut v: Vec<char> = Vec::new();
    let mut i: usize = 0;
    while i < n
        invariant
            0 <= i <= n,
            n == s@.len(),
            v@ == s@.take(i as int),
        decreases n - i,
    {
        v.push(s.get_char(i));
        proof {
            assert(s@.take(i + 1) =~= s@.take(i as int).push(s@[i as int]));
        }
        i = i + 1;
    }
    proof {
        assert(s@.take(n as int) =~= s@);
    }
    v
}

} // verus!
