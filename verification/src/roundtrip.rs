//! The store survives a save and a load: parsing what the encoder writes
//! yields the same sequence of tasks, ids, texts and done flags alike.

use vstd::prelude::*;

use crate::codec::digit_val;
use crate::codec::hex_val;
use crate::codec::is_digit;
use crate::codec::is_hex_digit;
use crate::codec::is_scalar_code;
use crate::codec::is_ws;
use crate::codec::spec_digit_char;
use crate::codec::spec_encode_bool;
use crate::codec::spec_encode_items;
use crate::codec::spec_encode_string;
use crate::codec::spec_encode_task;
use crate::codec::spec_encode_tasks;
use crate::codec::spec_encode_text;
use crate::codec::spec_encode_u32;
use crate::codec::spec_escape_char;
use crate::codec::spec_expect;
use crate::codec::spec_hex_char;
use crate::codec::spec_match_lit;
use crate::codec::spec_parse_bool;
use crate::codec::spec_parse_digits;
use crate::codec::spec_parse_items;
use crate::codec::spec_parse_string;
use crate::codec::spec_parse_task;
use crate::codec::spec_parse_task_done;
use crate::codec::spec_parse_task_text;
use crate::codec::spec_parse_tasks;
use crate::codec::spec_parse_text;
use crate::codec::spec_parse_u32;
use crate::codec::spec_skip_ws;
use crate::codec::spec_unescape;
use crate::task::TaskView;

verus! {

/// The characters of `p` stand in `s` beginning at `i`.
spec fn piece_at(s: Seq<char>, i: int, p: Seq<char>) -> bool {
    0 <= i && i + p.len() <= s.len() && s.subrange(i, i + p.len()) == p
}

proof fn lemma_piece_index(s: Seq<char>, i: int, p: Seq<char>)
    requires
        piece_at(s, i, p),
    ensures
        forall|m: int| 0 <= m < p.len() ==> s[i + m] == #[trigger] p[m],
{
    assert forall|m: int| 0 <= m < p.len() implies s[i + m] == #[trigger] p[m] by {
        assert(s.subrange(i, i + p.len())[m] == s[i + m]);
    }
}

proof fn lemma_piece_split(s: Seq<char>, i: int, a: Seq<char>, b: Seq<char>)
    requires
        piece_at(s, i, a + b),
    ensures
        piece_at(s, i, a),
        piece_at(s, i + a.len(), b),
{
    lemma_piece_index(s, i, a + b);
    assert forall|m: int| 0 <= m < a.len() implies s.subrange(i, i + a.len())[m] == #[trigger] a[m]
        by {
        assert((a + b)[m] == a[m]);
        assert(s[i + m] == (a + b)[m]);
    }
    assert(s.subrange(i, i + a.len()) =~= a);
    assert forall|m: int| 0 <= m < b.len() implies s.subrange(
        i + a.len(),
        i + a.len() + b.len(),
    )[m] == #[trigger] b[m] by {
        assert((a + b)[a.len() + m] == b[m]);
        assert(s[i + a.len() + m] == (a + b)[a.len() + m]);
    }
    assert(s.subrange(i + a.len(), i + a.len() + b.len()) =~= b);
}

proof fn lemma_skip_one(s: Seq<char>, i: int)
    requires
        0 <= i < s.len(),
        is_ws(s[i]),
    ensures
        spec_skip_ws(s, i) == spec_skip_ws(s, i + 1),
{
}

proof fn lemma_skip_stop(s: Seq<char>, i: int)
    requires
        0 <= i,
        i >= s.len() || !is_ws(s[i]),
    ensures
        spec_skip_ws(s, i) == i,
{
}

spec fn pow10(k: nat) -> int
    decreases k,
{
    if k == 0 {
        1
    } else {
        10 * pow10((k - 1) as nat)
    }
}

proof fn lemma_pow10_pos(k: nat)
    ensures
        pow10(k) >= 1,
    decreases k,
{
    if k > 0 {
        lemma_pow10_pos((k - 1) as nat);
    }
}

proof fn lemma_digit_char_props(d: int)
    requires
        0 <= d <= 9,
    ensures
        is_digit(spec_digit_char(d)),
        digit_val(spec_digit_char(d)) == d,
        (spec_digit_char(d) == '0') == (d == 0),
        !is_ws(spec_digit_char(d)),
{
}

proof fn lemma_hex_char_props(d: int)
    requires
        0 <= d < 16,
    ensures
        is_hex_digit(spec_hex_char(d)),
        hex_val(spec_hex_char(d)) == d,
    decreases d,
{
}

proof fn lemma_encode_u32_props(n: u32)
    ensures
        spec_encode_u32(n).len() >= 1,
        forall|m: int|
            0 <= m < spec_encode_u32(n).len() ==> is_digit(#[trigger] spec_encode_u32(n)[m]),
        n >= 1 ==> spec_encode_u32(n)[0] != '0',
        n < 10 ==> spec_encode_u32(n) == seq![spec_digit_char(n as int)],
    decreases n,
{
    if n < 10 {
        lemma_digit_char_props(n as int);
    } else {
        lemma_encode_u32_props(n / 10);
        lemma_digit_char_props((n % 10) as int);
        let e = spec_encode_u32(n);
        let q = spec_encode_u32(n / 10);
        assert(e == q.push(spec_digit_char((n % 10) as int)));
        assert(e[0] == q[0]);
        assert forall|m: int| 0 <= m < e.len() implies is_digit(#[trigger] e[m]) by {
            if m < q.len() {
                assert(e[m] == q[m]);
            }
        }
    }
}

proof fn lemma_parse_digits_chain(s: Seq<char>, i: int, acc: u32, n: u32)
    requires
        piece_at(s, i, spec_encode_u32(n)),
        acc * pow10(spec_encode_u32(n).len() as nat) + n <= u32::MAX,
    ensures
        spec_parse_digits(s, i, acc) == spec_parse_digits(
            s,
            i + spec_encode_u32(n).len(),
            (acc * pow10(spec_encode_u32(n).len() as nat) + n) as u32,
        ),
    decreases n,
{
    let e = spec_encode_u32(n);
    lemma_encode_u32_props(n);
    lemma_piece_index(s, i, e);
    if n < 10 {
        lemma_digit_char_props(n as int);
        assert(s[i] == e[0]);
        assert(pow10(1) == 10) by {
            assert(pow10(0) == 1);
        }
        let v = acc as int * 10 + digit_val(s[i]);
        assert(v == acc * pow10(e.len() as nat) + n);
        assert(spec_parse_digits(s, i, acc) == spec_parse_digits(s, i + 1, v as u32));
    } else {
        let q = spec_encode_u32(n / 10);
        let ql = q.len() as int;
        let r = (n % 10) as int;
        lemma_digit_char_props(r);
        assert(e == q.push(spec_digit_char(r)));
        assert(e =~= q + seq![spec_digit_char(r)]);
        lemma_piece_split(s, i, q, seq![spec_digit_char(r)]);
        lemma_piece_index(s, i + ql, seq![spec_digit_char(r)]);
        assert(seq![spec_digit_char(r)][0] == spec_digit_char(r));
        assert(s[i + ql + 0] == seq![spec_digit_char(r)][0]);
        assert(s[i + ql] == spec_digit_char(r));
        lemma_pow10_pos(q.len() as nat);
        lemma_pow10_pos(e.len() as nat);
        assert(pow10(e.len() as nat) == 10 * pow10(q.len() as nat));
        let x = acc * pow10(q.len() as nat);
        assert(acc * pow10(e.len() as nat) == 10 * x) by (nonlinear_arith)
            requires
                pow10(e.len() as nat) == 10 * pow10(q.len() as nat),
                x == acc * pow10(q.len() as nat),
        ;
        assert(x >= 0) by (nonlinear_arith)
            requires
                x == acc * pow10(q.len() as nat),
                acc >= 0,
                pow10(q.len() as nat) >= 1,
        ;
        assert(n == 10 * (n / 10) + r);
        assert(10 * x + 10 * (n / 10) + r <= u32::MAX);
        assert(x + n / 10 <= u32::MAX);
        lemma_parse_digits_chain(s, i, acc, n / 10);
        let m = (x + n / 10) as u32;
        assert(spec_parse_digits(s, i, acc) == spec_parse_digits(s, i + ql, m));
        let v = m as int * 10 + digit_val(s[i + ql]);
        assert(v == 10 * x + 10 * (n / 10) + r);
        assert(v == acc * pow10(e.len() as nat) + n);
        assert(spec_parse_digits(s, i + ql, m) == spec_parse_digits(s, i + ql + 1, v as u32));
    }
}

proof fn lemma_parse_u32_encoded(s: Seq<char>, i: int, n: u32)
    requires
        piece_at(s, i, spec_encode_u32(n)),
        i + spec_encode_u32(n).len() == s.len() || !is_digit(s[i + spec_encode_u32(n).len()]),
    ensures
        spec_parse_u32(s, i) == Some((n, i + spec_encode_u32(n).len())),
{
    let e = spec_encode_u32(n);
    let el = e.len() as int;
    lemma_encode_u32_props(n);
    lemma_piece_index(s, i, e);
    assert(s[i] == e[0]);
    if n == 0 {
        lemma_digit_char_props(0);
        assert(e == seq![spec_digit_char(0)]);
        assert(s[i] == '0');
        assert(spec_parse_u32(s, i) == Some((0u32, i + 1)));
    } else {
        assert(s[i] != '0');
        assert(is_digit(s[i]));
        lemma_pow10_pos(e.len() as nat);
        assert(0 * pow10(e.len() as nat) + n <= u32::MAX) by (nonlinear_arith)
            requires
                n <= u32::MAX,
        ;
        lemma_parse_digits_chain(s, i, 0, n);
        assert(0 * pow10(e.len() as nat) + n == n) by (nonlinear_arith);
        assert(spec_parse_digits(s, i, 0) == spec_parse_digits(s, i + el, n));
        assert(spec_parse_digits(s, i + el, n) == Some((n, i + el)));
    }
}

proof fn lemma_parse_text_encoded(s: Seq<char>, i: int, text: Seq<char>)
    requires
        piece_at(s, i, spec_encode_text(text)),
        i + spec_encode_text(text).len() < s.len(),
        s[i + spec_encode_text(text).len()] == '"',
    ensures
        spec_parse_text(s, i) == Some((text, i + spec_encode_text(text).len() + 1)),
    decreases text.len(),
{
    let body = spec_encode_text(text);
    if text.len() == 0 {
        assert(body =~= Seq::<char>::empty());
        assert(s[i + 0] == '"');
        assert(spec_parse_text(s, i) == Some((Seq::<char>::empty(), i + 1)));
        assert(text =~= Seq::<char>::empty());
    } else {
        let c = text.first();
        let rest = text.drop_first();
        let esc = spec_escape_char(c);
        let tail = spec_encode_text(rest);
        assert(body == esc + tail);
        lemma_piece_split(s, i, esc, tail);
        lemma_piece_index(s, i, esc);
        let el = esc.len() as int;
        assert(i + el + tail.len() == i + body.len());
        lemma_parse_text_encoded(s, i + el, rest);
        let end = i + body.len() + 1;
        assert(spec_parse_text(s, i + el) == Some((rest, end)));
        if c == '"' {
            assert(esc[0] == '\\' && esc[1] == '"');
            assert(s[i + 0] == '\\' && s[i + 1] == '"');
            assert(spec_unescape('"') == Some('"'));
            assert(spec_parse_text(s, i) == Some((seq![c] + rest, end)));
        } else if c == '\\' {
            assert(esc[0] == '\\' && esc[1] == '\\');
            assert(s[i + 0] == '\\' && s[i + 1] == '\\');
            assert(spec_unescape('\\') == Some('\\'));
            assert(spec_parse_text(s, i) == Some((seq![c] + rest, end)));
        } else if c == '\u{8}' {
            assert(esc[0] == '\\' && esc[1] == 'b');
            assert(s[i + 0] == '\\' && s[i + 1] == 'b');
            assert(spec_unescape('b') == Some(c));
            assert(spec_parse_text(s, i) == Some((seq![c] + rest, end)));
        } else if c == '\u{9}' {
            assert(esc[0] == '\\' && esc[1] == 't');
            assert(s[i + 0] == '\\' && s[i + 1] == 't');
            assert(spec_unescape('t') == Some(c));
            assert(spec_parse_text(s, i) == Some((seq![c] + rest, end)));
        } else if c == '\u{a}' {
            assert(esc[0] == '\\' && esc[1] == 'n');
            assert(s[i + 0] == '\\' && s[i + 1] == 'n');
            assert(spec_unescape('n') == Some(c));
            assert(spec_parse_text(s, i) == Some((seq![c] + rest, end)));
        } else if c == '\u{c}' {
            assert(esc[0] == '\\' && esc[1] == 'f');
            assert(s[i + 0] == '\\' && s[i + 1] == 'f');
            assert(spec_unescape('f') == Some(c));
            assert(spec_parse_text(s, i) == Some((seq![c] + rest, end)));
        } else if c == '\u{d}' {
            assert(esc[0] == '\\' && esc[1] == 'r');
            assert(s[i + 0] == '\\' && s[i + 1] == 'r');
            assert(spec_unescape('r') == Some(c));
            assert(spec_parse_text(s, i) == Some((seq![c] + rest, end)));
        } else if (c as int) < 0x20 {
            let cv = c as int;
            assert(esc[0] == '\\' && esc[1] == 'u' && esc[2] == '0' && esc[3] == '0' && esc[4]
                == spec_hex_char(cv / 16) && esc[5] == spec_hex_char(cv % 16));
            assert(s[i + 0] == '\\' && s[i + 1] == 'u' && s[i + 2] == '0' && s[i + 3] == '0' && s[i
                + 4] == spec_hex_char(cv / 16) && s[i + 5] == spec_hex_char(cv % 16));
            vstd::utf8::char_is_scalar(c);
            vstd::utf8::char_u32_cast(c, c as u32);
            assert(0 <= cv < 0x20);
            lemma_hex_char_props(0);
            assert(spec_hex_char(0) == '0');
            lemma_hex_char_props(cv / 16);
            lemma_hex_char_props(cv % 16);
            let code = ((hex_val(s[i + 2]) * 16 + hex_val(s[i + 3])) * 16 + hex_val(s[i + 4])) * 16
                + hex_val(s[i + 5]);
            assert(code == (cv / 16) * 16 + cv % 16);
            assert(code == cv);
            assert(is_scalar_code(code));
            assert((code as char) == c);
            assert(spec_parse_text(s, i) == Some((seq![c] + rest, end)));
        } else {
            assert(esc[0] == c);
            assert(s[i + 0] == c);
            assert(spec_parse_text(s, i) == Some((seq![c] + rest, end)));
        }
        assert(seq![c] + rest =~= text);
    }
}

proof fn lemma_parse_string_encoded(s: Seq<char>, i: int, text: Seq<char>)
    requires
        piece_at(s, i, spec_encode_string(text)),
    ensures
        spec_parse_string(s, i) == Some((text, i + spec_encode_string(text).len())),
{
    let body = spec_encode_text(text);
    assert(spec_encode_string(text) == (seq!['"'] + body) + seq!['"']);
    lemma_piece_split(s, i, seq!['"'] + body, seq!['"']);
    lemma_piece_split(s, i, seq!['"'], body);
    lemma_piece_index(s, i, seq!['"']);
    assert(seq!['"'][0] == '"');
    assert(s[i + 0] == '"');
    lemma_piece_index(s, i + 1 + body.len(), seq!['"']);
    assert(s[i + 1 + body.len() + 0] == '"');
    lemma_parse_text_encoded(s, i + 1, text);
}

proof fn lemma_match_lit_4(s: Seq<char>, i: int, lit: Seq<char>)
    requires
        0 <= i,
        i + 4 <= s.len(),
        lit.len() == 4,
        s[i] == lit[0],
        s[i + 1] == lit[1],
        s[i + 2] == lit[2],
        s[i + 3] == lit[3],
    ensures
        spec_match_lit(s, i, lit) == Some(i + 4),
{
    assert forall|m: int| 0 <= m < 4 implies s.subrange(i, i + 4)[m] == #[trigger] lit[m] by {
        if m == 0 {
            assert(s[i + 0] == lit[0]);
        } else if m == 1 {
            assert(s[i + 1] == lit[1]);
        } else if m == 2 {
            assert(s[i + 2] == lit[2]);
        } else {
            assert(s[i + 3] == lit[3]);
        }
    }
    assert(s.subrange(i, i + 4) =~= lit);
}

proof fn lemma_match_lit_6(s: Seq<char>, i: int, lit: Seq<char>)
    requires
        0 <= i,
        i + 6 <= s.len(),
        lit.len() == 6,
        s[i] == lit[0],
        s[i + 1] == lit[1],
        s[i + 2] == lit[2],
        s[i + 3] == lit[3],
        s[i + 4] == lit[4],
        s[i + 5] == lit[5],
    ensures
        spec_match_lit(s, i, lit) == Some(i + 6),
{
    assert forall|m: int| 0 <= m < 6 implies s.subrange(i, i + 6)[m] == #[trigger] lit[m] by {
        if m == 0 {
            assert(s[i + 0] == lit[0]);
        } else if m == 1 {
            assert(s[i + 1] == lit[1]);
        } else if m == 2 {
            assert(s[i + 2] == lit[2]);
        } else if m == 3 {
            assert(s[i + 3] == lit[3]);
        } else if m == 4 {
            assert(s[i + 4] == lit[4]);
        } else {
            assert(s[i + 5] == lit[5]);
        }
    }
    assert(s.subrange(i, i + 6) =~= lit);
}

proof fn lemma_match_lit_5(s: Seq<char>, i: int, lit: Seq<char>)
    requires
        0 <= i,
        i + 5 <= s.len(),
        lit.len() == 5,
        s[i] == lit[0],
        s[i + 1] == lit[1],
        s[i + 2] == lit[2],
        s[i + 3] == lit[3],
        s[i + 4] == lit[4],
    ensures
        spec_match_lit(s, i, lit) == Some(i + 5),
{
    assert forall|m: int| 0 <= m < 5 implies s.subrange(i, i + 5)[m] == #[trigger] lit[m] by {
        if m == 0 {
            assert(s[i + 0] == lit[0]);
        } else if m == 1 {
            assert(s[i + 1] == lit[1]);
        } else if m == 2 {
            assert(s[i + 2] == lit[2]);
        } else if m == 3 {
            assert(s[i + 3] == lit[3]);
        } else {
            assert(s[i + 4] == lit[4]);
        }
    }
    assert(s.subrange(i, i + 5) =~= lit);
}

proof fn lemma_parse_bool_encoded(s: Seq<char>, i: int, b: bool)
    requires
        piece_at(s, i, spec_encode_bool(b)),
    ensures
        spec_parse_bool(s, i) == Some((b, i + spec_encode_bool(b).len())),
{
    reveal_strlit("true");
    reveal_strlit("false");
    lemma_piece_index(s, i, spec_encode_bool(b));
    if b {
        assert(s[i + 0] == "true"@[0] && "true"@[0] == 't' && s[i + 1] == "true"@[1] && "true"@[1] == 'r' && s[i + 2] == "true"@[2] && "true"@[2] == 'u' && s[i + 3] == "true"@[3] && "true"@[3] == 'e');
        lemma_match_lit_4(s, i, "true"@);
    } else {
        assert(s[i + 0] == "false"@[0] && "false"@[0] == 'f' && s[i + 1] == "false"@[1] && "false"@[1] == 'a' && s[i + 2] == "false"@[2] && "false"@[2] == 'l' && s[i + 3] == "false"@[3] && "false"@[3] == 's' && s[i + 4] == "false"@[4] && "false"@[4] == 'e');
        if s.subrange(i, i + 4) == "true"@ {
            assert(s.subrange(i, i + 4)[0] == 't');
        }
        assert(spec_match_lit(s, i, "true"@) is None);
        lemma_match_lit_5(s, i, "false"@);
    }
}

proof fn lemma_parse_task_encoded(s: Seq<char>, i: int, t: TaskView)
    requires
        piece_at(s, i, spec_encode_task(t)),
    ensures
        spec_parse_task(s, i) == Some((t, i + spec_encode_task(t).len())),
{
    reveal_strlit("{\n    \"id\": ");
    reveal_strlit(",\n    \"text\": ");
    reveal_strlit(",\n    \"done\": ");
    reveal_strlit("\n  }");
    reveal_strlit("\"id\"");
    reveal_strlit("\"text\"");
    reveal_strlit("\"done\"");
    reveal_strlit("true");
    reveal_strlit("false");
    let p1 = "{\n    \"id\": "@;
    let e2 = spec_encode_u32(t.id);
    let p3 = ",\n    \"text\": "@;
    let e4 = spec_encode_string(t.text);
    let p5 = ",\n    \"done\": "@;
    let e6 = spec_encode_bool(t.done);
    let p7 = "\n  }"@;
    let o2 = i + 12;
    let o3 = o2 + e2.len();
    let o4 = o3 + 14;
    let o5 = o4 + e4.len();
    let o6 = o5 + 14;
    let o7 = o6 + e6.len();
    let end = o7 + 4;
    assert(p1.len() == 12 && p3.len() == 14 && p5.len() == 14 && p7.len() == 4);
    assert(spec_encode_task(t) == p1 + e2 + p3 + e4 + p5 + e6 + p7);
    lemma_piece_split(s, i, p1 + e2 + p3 + e4 + p5 + e6, p7);
    lemma_piece_split(s, i, p1 + e2 + p3 + e4 + p5, e6);
    lemma_piece_split(s, i, p1 + e2 + p3 + e4, p5);
    lemma_piece_split(s, i, p1 + e2 + p3, e4);
    lemma_piece_split(s, i, p1 + e2, p3);
    lemma_piece_split(s, i, p1, e2);
    lemma_piece_index(s, i, p1);
    lemma_piece_index(s, o3, p3);
    lemma_piece_index(s, o5, p5);
    lemma_piece_index(s, o7, p7);
    lemma_encode_u32_props(t.id);
    lemma_piece_index(s, o2, e2);
    assert(s[i + 0] == p1[0] && p1[0] == '{' && s[i + 1] == p1[1] && p1[1] == '\n' && s[i + 2] == p1[2] && p1[2] == ' ' && s[i + 3] == p1[3] && p1[3] == ' ' && s[i + 4] == p1[4] && p1[4] == ' ' && s[i + 5] == p1[5] && p1[5] == ' ' && s[i + 6] == p1[6] && p1[6] == '"' && s[i + 7] == p1[7] && p1[7] == 'i' && s[i + 8] == p1[8] && p1[8] == 'd' && s[i + 9] == p1[9] && p1[9] == '"' && s[i + 10] == p1[10] && p1[10] == ':' && s[i + 11] == p1[11] && p1[11] == ' ');
    assert(s[o3 + 0] == p3[0] && p3[0] == ',' && s[o3 + 1] == p3[1] && p3[1] == '\n' && s[o3 + 2] == p3[2] && p3[2] == ' ' && s[o3 + 3] == p3[3] && p3[3] == ' ' && s[o3 + 4] == p3[4] && p3[4] == ' ' && s[o3 + 5] == p3[5] && p3[5] == ' ' && s[o3 + 6] == p3[6] && p3[6] == '"' && s[o3 + 7] == p3[7] && p3[7] == 't' && s[o3 + 8] == p3[8] && p3[8] == 'e' && s[o3 + 9] == p3[9] && p3[9] == 'x' && s[o3 + 10] == p3[10] && p3[10] == 't' && s[o3 + 11] == p3[11] && p3[11] == '"' && s[o3 + 12] == p3[12] && p3[12] == ':' && s[o3 + 13] == p3[13] && p3[13] == ' ');
    assert(s[o5 + 0] == p5[0] && p5[0] == ',' && s[o5 + 1] == p5[1] && p5[1] == '\n' && s[o5 + 2] == p5[2] && p5[2] == ' ' && s[o5 + 3] == p5[3] && p5[3] == ' ' && s[o5 + 4] == p5[4] && p5[4] == ' ' && s[o5 + 5] == p5[5] && p5[5] == ' ' && s[o5 + 6] == p5[6] && p5[6] == '"' && s[o5 + 7] == p5[7] && p5[7] == 'd' && s[o5 + 8] == p5[8] && p5[8] == 'o' && s[o5 + 9] == p5[9] && p5[9] == 'n' && s[o5 + 10] == p5[10] && p5[10] == 'e' && s[o5 + 11] == p5[11] && p5[11] == '"' && s[o5 + 12] == p5[12] && p5[12] == ':' && s[o5 + 13] == p5[13] && p5[13] == ' ');
    assert(s[o7 + 0] == p7[0] && p7[0] == '\n' && s[o7 + 1] == p7[1] && p7[1] == ' ' && s[o7 + 2] == p7[2] && p7[2] == ' ' && s[o7 + 3] == p7[3] && p7[3] == '}');
    // the id's first digit ends the blank run after the colon
    assert(s[o2 + 0] == e2[0] && is_digit(e2[0]));
    assert(!is_ws(s[o2]));
    // the string's opening quote ends the run after its colon
    assert(e4 == (seq!['"'] + spec_encode_text(t.text)) + seq!['"']);
    assert(e4[0] == '"');
    assert(s[o4 + 0] == e4[0]);
    // the boolean's first letter ends the run after its colon
    lemma_piece_index(s, o6, e6);
    assert(e6[0] == (if t.done { 't' } else { 'f' }));
    assert(s[o6 + 0] == e6[0]);
    // `{`
    assert(spec_expect(s, i, '{') == Some(i + 1));
    lemma_skip_one(s, i + 1);
    lemma_skip_one(s, i + 2);
    lemma_skip_one(s, i + 3);
    lemma_skip_one(s, i + 4);
    lemma_skip_one(s, i + 5);
    lemma_skip_stop(s, i + 6);
    assert(spec_skip_ws(s, i + 1) == i + 6);
    lemma_match_lit_4(s, i + 6, "\"id\""@);
    lemma_skip_stop(s, i + 10);
    assert(spec_expect(s, i + 10, ':') == Some(i + 11));
    lemma_skip_one(s, i + 11);
    lemma_skip_stop(s, i + 12);
    assert(spec_skip_ws(s, i + 11) == o2);
    assert(!is_digit(',')) by {
        assert((',' as int) < ('0' as int));
    }
    lemma_parse_u32_encoded(s, o2, t.id);
    assert(spec_parse_u32(s, o2) == Some((t.id, o3)));
    lemma_skip_stop(s, o3);
    assert(spec_expect(s, o3, ',') == Some(o3 + 1));
    // the `"text"` field
    lemma_skip_one(s, o3 + 1);
    lemma_skip_one(s, o3 + 2);
    lemma_skip_one(s, o3 + 3);
    lemma_skip_one(s, o3 + 4);
    lemma_skip_one(s, o3 + 5);
    lemma_skip_stop(s, o3 + 6);
    assert(spec_skip_ws(s, o3 + 1) == o3 + 6);
    lemma_match_lit_6(s, o3 + 6, "\"text\""@);
    lemma_skip_stop(s, o3 + 12);
    assert(spec_expect(s, o3 + 12, ':') == Some(o3 + 13));
    lemma_skip_one(s, o3 + 13);
    lemma_skip_stop(s, o4);
    assert(spec_skip_ws(s, o3 + 13) == o4);
    lemma_parse_string_encoded(s, o4, t.text);
    assert(spec_parse_string(s, o4) == Some((t.text, o5)));
    lemma_skip_stop(s, o5);
    assert(spec_expect(s, o5, ',') == Some(o5 + 1));
    // the `"done"` field
    lemma_skip_one(s, o5 + 1);
    lemma_skip_one(s, o5 + 2);
    lemma_skip_one(s, o5 + 3);
    lemma_skip_one(s, o5 + 4);
    lemma_skip_one(s, o5 + 5);
    lemma_skip_stop(s, o5 + 6);
    assert(spec_skip_ws(s, o5 + 1) == o5 + 6);
    lemma_match_lit_6(s, o5 + 6, "\"done\""@);
    lemma_skip_stop(s, o5 + 12);
    assert(spec_expect(s, o5 + 12, ':') == Some(o5 + 13));
    lemma_skip_one(s, o5 + 13);
    lemma_skip_stop(s, o6);
    assert(spec_skip_ws(s, o5 + 13) == o6);
    lemma_parse_bool_encoded(s, o6, t.done);
    assert(spec_parse_bool(s, o6) == Some((t.done, o7)));
    // the closing brace
    lemma_skip_one(s, o7);
    lemma_skip_one(s, o7 + 1);
    lemma_skip_one(s, o7 + 2);
    lemma_skip_stop(s, o7 + 3);
    assert(spec_skip_ws(s, o7) == o7 + 3);
    assert(spec_expect(s, o7 + 3, '}') == Some(o7 + 4));
    assert(spec_parse_task_done(s, o5 + 1, t.id, t.text) == Some((t, end)));
    assert(spec_parse_task_text(s, o3 + 1, t.id) == Some((t, end)));
    assert(spec_parse_task(s, i) == Some((t, end)));
}

proof fn lemma_encode_task_first(t: TaskView)
    ensures
        spec_encode_task(t).len() >= 1,
        spec_encode_task(t)[0] == '{',
{
    reveal_strlit("{\n    \"id\": ");
    let p1 = "{\n    \"id\": "@;
    assert(p1[0] == '{');
    assert((p1 + spec_encode_u32(t.id))[0] == p1[0]);
    assert((p1 + spec_encode_u32(t.id) + ",\n    \"text\": "@)[0] == (p1 + spec_encode_u32(
        t.id,
    ))[0]);
    assert(spec_encode_task(t)[0] == '{');
}

proof fn lemma_encode_items_first(ts: Seq<TaskView>)
    requires
        ts.len() >= 1,
    ensures
        spec_encode_items(ts).len() >= 1,
        spec_encode_items(ts)[0] == '{',
{
    lemma_encode_task_first(ts[0]);
    if ts.len() > 1 {
        assert((spec_encode_task(ts.first()) + ",\n  "@)[0] == spec_encode_task(ts.first())[0]);
        assert(spec_encode_items(ts)[0] == (spec_encode_task(ts.first()) + ",\n  "@)[0]);
    }
}

proof fn lemma_parse_items_encoded(s: Seq<char>, i: int, ts: Seq<TaskView>)
    requires
        ts.len() >= 1,
        piece_at(s, i, spec_encode_items(ts)),
        i + spec_encode_items(ts).len() + 2 <= s.len(),
        s[i + spec_encode_items(ts).len()] == '\n',
        s[i + spec_encode_items(ts).len() + 1] == ']',
    ensures
        spec_parse_items(s, i) == Some((ts, i + spec_encode_items(ts).len() + 2)),
    decreases ts.len(),
{
    let items = spec_encode_items(ts);
    let first = ts.first();
    if ts.len() == 1 {
        assert(items == spec_encode_task(ts[0]));
        lemma_parse_task_encoded(s, i, ts[0]);
        let j = i + items.len();
        lemma_skip_one(s, j);
        lemma_skip_stop(s, j + 1);
        assert(spec_skip_ws(s, j) == j + 1);
        assert(seq![ts[0]] =~= ts);
        assert(spec_parse_items(s, i) == Some((ts, j + 2)));
    } else {
        reveal_strlit(",\n  ");
        let sep = ",\n  "@;
        let rest = ts.drop_first();
        assert(items == spec_encode_task(first) + sep + spec_encode_items(rest));
        lemma_piece_split(s, i, spec_encode_task(first) + sep, spec_encode_items(rest));
        lemma_piece_split(s, i, spec_encode_task(first), sep);
        let lt = spec_encode_task(first).len() as int;
        let j = i + lt;
        lemma_piece_index(s, j, sep);
        assert(s[j + 0] == sep[0] && sep[0] == ',' && s[j + 1] == sep[1] && sep[1] == '\n' && s[j
            + 2] == sep[2] && sep[2] == ' ' && s[j + 3] == sep[3] && sep[3] == ' ');
        lemma_parse_task_encoded(s, i, first);
        lemma_skip_stop(s, j);
        let m = j + 4;
        lemma_encode_items_first(rest);
        lemma_piece_index(s, m, spec_encode_items(rest));
        assert(s[m + 0] == spec_encode_items(rest)[0]);
        assert(!is_ws('{'));
        lemma_skip_one(s, j + 1);
        lemma_skip_one(s, j + 2);
        lemma_skip_one(s, j + 3);
        lemma_skip_stop(s, m);
        assert(spec_skip_ws(s, j + 1) == m);
        assert(i + items.len() == m + spec_encode_items(rest).len());
        lemma_parse_items_encoded(s, m, rest);
        assert(spec_parse_items(s, m) == Some((rest, i + items.len() + 2)));
        assert(seq![first] + rest =~= ts);
        assert(spec_parse_items(s, i) == Some((ts, i + items.len() + 2)));
    }
}

proof fn lemma_round_trip_nonempty(ts: Seq<TaskView>)
    requires
        ts.len() >= 1,
    ensures
        spec_parse_tasks(spec_encode_tasks(ts)) == Some(ts),
{
    let s = spec_encode_tasks(ts);
    reveal_strlit("[\n  ");
    reveal_strlit("\n]");
    let p0 = "[\n  "@;
    let items = spec_encode_items(ts);
    let p9 = "\n]"@;
    assert(s == (p0 + items) + p9);
    assert(piece_at(s, 0, (p0 + items) + p9)) by {
        assert(s.subrange(0, s.len() as int) =~= s);
    }
    let e9 = 4 + items.len() as int;
    lemma_piece_split(s, 0, p0 + items, p9);
    lemma_piece_split(s, 0, p0, items);
    lemma_piece_index(s, 0, p0);
    lemma_piece_index(s, e9, p9);
    assert(s[0] == p0[0] && p0[0] == '[' && s[1] == p0[1] && p0[1] == '\n' && s[2] == p0[2]
        && p0[2] == ' ' && s[3] == p0[3] && p0[3] == ' ');
    assert(s[e9 + 0] == p9[0] && p9[0] == '\n' && s[e9 + 1] == p9[1] && p9[1] == ']');
    lemma_encode_items_first(ts);
    lemma_piece_index(s, 4, items);
    assert(s[4int + 0] == items[0]);
    lemma_skip_stop(s, 0);
    assert(spec_expect(s, 0, '[') == Some(1int));
    lemma_skip_one(s, 1);
    lemma_skip_one(s, 2);
    lemma_skip_one(s, 3);
    lemma_skip_stop(s, 4);
    assert(spec_skip_ws(s, 1) == 4);
    assert(s[4] == '{');
    lemma_parse_items_encoded(s, 4, ts);
    assert(spec_parse_items(s, 4) == Some((ts, s.len() as int)));
    lemma_skip_stop(s, s.len() as int);
    assert(spec_parse_tasks(s) == Some(ts));
}

/// Saving and loading is the identity on stores: parsing the text the
/// encoder writes for any sequence of tasks gives back exactly that
/// sequence, with the same ids, texts, done flags and order.
pub proof fn lemma_encode_parse_round_trip(ts: Seq<TaskView>)
    ensures
        spec_parse_tasks(spec_encode_tasks(ts)) == Some(ts),
{
    let s = spec_encode_tasks(ts);
    if ts.len() == 0 {
        reveal_strlit("[]");
        assert(s == "[]"@);
        assert(s.len() == 2 && s[0] == '[' && s[1] == ']');
        lemma_skip_stop(s, 0);
        assert(spec_expect(s, 0, '[') == Some(1int));
        lemma_skip_stop(s, 1);
        lemma_skip_stop(s, 2);
        assert(ts =~= Seq::<TaskView>::empty());
        assert(spec_parse_tasks(s) == Some(ts));
    } else {
        lemma_round_trip_nonempty(ts);
    }
}

} // verus!
