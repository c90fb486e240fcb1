//! Writing a store out: builds exactly the character sequence that
//! `spec_encode_tasks` describes.

use vstd::prelude::*;
use vstd::string::StrSliceExecFns;
use vstd::string::StringExecFns;

use crate::codec::spec_digit_char;
use crate::codec::spec_encode_items;
use crate::codec::spec_encode_string;
use crate::codec::spec_encode_task;
use crate::codec::spec_encode_tasks;
use crate::codec::spec_encode_text;
use crate::codec::spec_encode_u32;
use crate::codec::spec_escape_char;
use crate::codec::spec_hex_char;
use crate::task::Task;
use crate::task::TaskView;
use crate::task::views_of;

verus! {

/// Relies on String::push: appends the given character to the end of the
/// string.
#[verifier::external_body]
pub(crate) fn push_char(out: &mut String, c: char)
    ensures
        final(out)@ == old(out)@.push(c),
{
    out.push(c);
}

fn digit_char(d: u32) -> (c: char)
    requires
        d < 10,
    ensures
        c == spec_digit_char(d as int),
{
    if d == 0 { '0' }
    else if d == 1 { '1' }
    else if d == 2 { '2' }
    else if d == 3 { '3' }
    else if d == 4 { '4' }
    else if d == 5 { '5' }
    else if d == 6 { '6' }
    else if d == 7 { '7' }
    else if d == 8 { '8' }
    else { '9' }
}

fn hex_char(d: u32) -> (c: char)
    requires
        d < 16,
    ensures
        c == spec_hex_char(d as int),
{
    if d < 10 { digit_char(d) }
    else if d == 10 { 'a' }
    else if d == 11 { 'b' }
    else if d == 12 { 'c' }
    else if d == 13 { 'd' }
    else if d == 14 { 'e' }
    else { 'f' }
}

pub(crate) fn push_decimal(n: u32, out: &mut String)
    ensures
        final(out)@ == old(out)@ + spec_encode_u32(n),
    decreases n,
{
    if n < 10 {
        push_char(out, digit_char(n));
        proof {
            assert(out@ =~= old(out)@ + spec_encode_u32(n));
        }
    } else {
        push_decimal(n / 10, out);
        push_char(out, digit_char(n % 10));
        proof {
            assert(out@ =~= old(out)@ + spec_encode_u32(n));
        }
    }
}

fn push_escaped(c: char, out: &mut String)
    ensures
        final(out)@ == old(out)@ + spec_escape_char(c),
{
    if c == '"' {
        out.append("\\\"");
        proof {
            reveal_strlit("\\\"");
            assert(out@ =~= old(out)@ + spec_escape_char(c));
        }
    } else if c == '\\' {
        out.append("\\\\");
        proof {
            reveal_strlit("\\\\");
            assert(out@ =~= old(out)@ + spec_escape_char(c));
        }
    } else if c == '\u{8}' {
        out.append("\\b");
        proof {
            reveal_strlit("\\b");
            assert(out@ =~= old(out)@ + spec_escape_char(c));
        }
    } else if c == '\u{9}' {
        out.append("\\t");
        proof {
            reveal_strlit("\\t");
            assert(out@ =~= old(out)@ + spec_escape_char(c));
        }
    } else if c == '\u{a}' {
        out.append("\\n");
        proof {
            reveal_strlit("\\n");
            assert(out@ =~= old(out)@ + spec_escape_char(c));
        }
    } else if c == '\u{c}' {
        out.append("\\f");
        proof {
            reveal_strlit("\\f");
            assert(out@ =~= old(out)@ + spec_escape_char(c));
        }
    } else if c == '\u{d}' {
        out.append("\\r");
        proof {
            reveal_strlit("\\r");
            assert(out@ =~= old(out)@ + spec_escape_char(c));
        }
    } else {
        let v = c as u32;
        if v < 0x20 {
            out.append("\\u00");
            push_char(out, hex_char(v / 16));
            push_char(out, hex_char(v % 16));
            proof {
                reveal_strlit("\\u00");
                assert(out@ =~= old(out)@ + spec_escape_char(c));
            }
        } else {
            push_char(out, c);
            proof {
                assert(out@ =~= old(out)@ + spec_escape_char(c));
            }
        }
    }
}

/// Escaping a text works piece by piece.
proof fn lemma_encode_text_append(a: Seq<char>, b: Seq<char>)
    ensures
        spec_encode_text(a + b) == spec_encode_text(a) + spec_encode_text(b),
    decreases a.len(),
{
    if a.len() == 0 {
        assert(a + b =~= b);
        assert(spec_encode_text(a) + spec_encode_text(b) =~= spec_encode_text(b));
    } else {
        assert((a + b).first() == a.first());
        assert((a + b).drop_first() =~= a.drop_first() + b);
        lemma_encode_text_append(a.drop_first(), b);
        assert(spec_encode_text(a + b) =~= spec_encode_text(a) + spec_encode_text(b));
    }
}

fn push_string(s: &String, out: &mut String)
    ensures
        final(out)@ == old(out)@ + spec_encode_string(s@),
{
    push_char(out, '"');
    let ghost base = out@;
    let sl = s.as_str();
    let n = sl.unicode_len();
    let mut i: usize = 0;
    while i < n
        invariant
            0 <= i <= n,
            n == s@.len(),
            sl@ == s@,
            out@ == base + spec_encode_text(s@.take(i as int)),
        decreases n - i,
    {
        let c = sl.get_char(i);
        push_escaped(c, out);
        proof {
            assert(s@.take(i + 1) =~= s@.take(i as int) + seq![s@[i as int]]);
            lemma_encode_text_append(s@.take(i as int), seq![s@[i as int]]);
            assert(seq![c].drop_first() =~= Seq::<char>::empty());
            assert(spec_encode_text(Seq::<char>::empty()) == Seq::<char>::empty());
            assert(spec_encode_text(seq![c]) =~= spec_escape_char(c));
            assert(out@ =~= base + spec_encode_text(s@.take(i + 1)));
        }
        i = i + 1;
    }
    proof {
        assert(s@.take(n as int) =~= s@);
    }
    push_char(out, '"');
    proof {
        assert(out@ =~= old(out)@ + spec_encode_string(s@));
    }
}

fn push_task(t: &Task, out: &mut String)
    ensures
        final(out)@ == old(out)@ + spec_encode_task(t@),
{
    out.append("{\n    \"id\": ");
    push_decimal(t.id, out);
    out.append(",\n    \"text\": ");
    push_string(&t.text, out);
    out.append(",\n    \"done\": ");
    if t.done {
        out.append("true");
    } else {
        out.append("false");
    }
    out.append("\n  }");
    proof {
        assert(out@ =~= old(out)@ + spec_encode_task(t@));
    }
}

/// Joining records works piece by piece.
proof fn lemma_encode_items_append(a: Seq<TaskView>, b: Seq<TaskView>)
    requires
        a.len() >= 1,
        b.len() >= 1,
    ensures
        spec_encode_items(a + b) == spec_encode_items(a) + ",\n  "@ + spec_encode_items(b),
    decreases a.len(),
{
    if a.len() == 1 {
        assert((a + b).first() == a[0]);
        assert((a + b).drop_first() =~= b);
        assert(spec_encode_items(a + b) =~= spec_encode_items(a) + ",\n  "@ + spec_encode_items(
            b,
        ));
    } else {
        assert((a + b).first() == a.first());
        assert((a + b).drop_first() =~= a.drop_first() + b);
        lemma_encode_items_append(a.drop_first(), b);
        assert(spec_encode_items(a + b) =~= spec_encode_items(a) + ",\n  "@ + spec_encode_items(
            b,
        ));
    }
}

/// Serializes the store to the exact text `spec_encode_tasks` describes.
pub fn encode_tasks(tasks: &Vec<Task>) -> (r: String)
    ensures
        r@ == spec_encode_tasks(views_of(tasks@)),
{
    let ghost vs = views_of(tasks@);
    if tasks.len() == 0 {
        let mut out = String::new();
        out.append("[]");
        proof {
            assert(out@ =~= spec_encode_tasks(vs));
        }
        return out;
    }
    let mut out = String::new();
    out.append("[\n  ");
    let ghost base = out@;
    let mut i: usize = 0;
    while i < tasks.len()
        invariant
            0 <= i <= tasks@.len(),
            tasks@.len() >= 1,
            vs == views_of(tasks@),
            base == "[\n  "@,
            i == 0 ==> out@ == base,
            i >= 1 ==> out@ == base + spec_encode_items(vs.take(i as int)),
        decreases tasks@.len() - i,
    {
        if i > 0 {
            out.append(",\n  ");
        }
        push_task(&tasks[i], &mut out);
        proof {
            assert(vs[i as int] == tasks@[i as int]@);
            if i == 0 {
                assert(vs.take(1) =~= seq![vs[0]]);
                assert(spec_encode_items(vs.take(1)) == spec_encode_task(vs[0]));
                assert(out@ =~= base + spec_encode_items(vs.take(1)));
            } else {
                assert(vs.take(i + 1) =~= vs.take(i as int) + seq![vs[i as int]]);
                lemma_encode_items_append(vs.take(i as int), seq![vs[i as int]]);
                assert(spec_encode_items(seq![vs[i as int]]) == spec_encode_task(vs[i as int]));
                assert(out@ =~= base + spec_encode_items(vs.take(i + 1)));
            }
        }
        i = i + 1;
    }
    proof {
        assert(vs.take(vs.len() as int) =~= vs);
    }
    out.append("\n]");
    proof {
        assert(out@ =~= spec_encode_tasks(vs));
    }
    out
}

} // verus!
