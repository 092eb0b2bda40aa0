//! The task record format: `{"id": integer, "plugin_name": string,
//! "argument": string}` as one line of JSON text, written and read by the
//! library itself so that the round trip is a proved fact rather than a
//! promise.

use vstd::prelude::*;
use crate::scheduler::{Task, TaskView};
use crate::text::{spec_digit_char, spec_u64_string, u32_string};

verus! {

/// The hexadecimal digit for a value below sixteen.
pub open spec fn spec_hex_char(d: int) -> char {
    if d == 10 {
        'a'
    } else if d == 11 {
        'b'
    } else if d == 12 {
        'c'
    } else if d == 13 {
        'd'
    } else if d == 14 {
        'e'
    } else if d == 15 {
        'f'
    } else {
        spec_digit_char(d)
    }
}

/// How one character is written inside a JSON string: itself, a two-character
/// escape, or a `\u00XX` escape for the remaining control characters.
pub open spec fn spec_escape_char(c: char) -> Seq<char> {
    if c == '"' {
        seq!['\\', '"']
    } else if c == '\\' {
        seq!['\\', '\\']
    } else if c == '\n' {
        seq!['\\', 'n']
    } else if c == '\r' {
        seq!['\\', 'r']
    } else if c == '\t' {
        seq!['\\', 't']
    } else if (c as u32) < 32 {
        seq!['\\', 'u', '0', '0', spec_hex_char(c as u32 as int / 16), spec_hex_char(c as u32 as int % 16)]
    } else {
        seq![c]
    }
}

/// A whole text, written inside a JSON string.
pub open spec fn spec_escape(s: Seq<char>) -> Seq<char>
    decreases s.len(),
{
    if s.len() == 0 {
        Seq::empty()
    } else {
        spec_escape_char(s[0]) + spec_escape(s.drop_first())
    }
}

/// The record format of a task: its id, plugin name and argument as one JSON
/// object with fixed field order.
pub open spec fn spec_record(t: TaskView) -> Seq<char> {
    "{\"id\":"@ + spec_u64_string(t.id as int) + ",\"plugin_name\":\""@ + spec_escape(
        t.plugin_name,
    ) + "\",\"argument\":\""@ + spec_escape(t.argument) + "\"}"@
}

/// Escaping appended text appends its escape.
proof fn lemma_escape_snoc(s: Seq<char>, c: char)
    ensures
        spec_escape(s.push(c)) == spec_escape(s) + spec_escape_char(c),
    decreases s.len(),
{
    if s.len() == 0 {
        assert(s.push(c)[0] == c);
        assert(s.push(c).drop_first() =~= Seq::<char>::empty());
        assert(spec_escape(s.push(c)) == spec_escape_char(c) + spec_escape(
            s.push(c).drop_first(),
        ));
        assert(spec_escape(Seq::<char>::empty()) =~= Seq::<char>::empty());
        assert(spec_escape(s.push(c)) =~= spec_escape(s) + spec_escape_char(c));
    } else {
        assert(s.push(c)[0] == s[0]);
        assert(s.push(c).drop_first() =~= s.drop_first().push(c));
        lemma_escape_snoc(s.drop_first(), c);
        assert(spec_escape(s.push(c)) =~= spec_escape(s) + spec_escape_char(c));
    }
}

fn hex_char(d: u32) -> (c: char)
    requires
        d < 16,
    ensures
        c == spec_hex_char(d as int),
{
    if d == 0 {
        '0'
    } else if d == 1 {
        '1'
    } else if d == 2 {
        '2'
    } else if d == 3 {
        '3'
    } else if d == 4 {
        '4'
    } else if d == 5 {
        '5'
    } else if d == 6 {
        '6'
    } else if d == 7 {
        '7'
    } else if d == 8 {
        '8'
    } else if d == 9 {
        '9'
    } else if d == 10 {
        'a'
    } else if d == 11 {
        'b'
    } else if d == 12 {
        'c'
    } else if d == 13 {
        'd'
    } else if d == 14 {
        'e'
    } else {
        'f'
    }
}

/// Append the escaped form of a text to the output.
fn append_escaped(out: &mut String, s: &str)
    ensures
        final(out)@ == old(out)@ + spec_escape(s@),
{
    let n = s.unicode_len();
    let mut i: usize = 0;
    while i < n
        invariant
            i <= n,
            n == s@.len(),
            out@ == old(out)@ + spec_escape(s@.take(i as int)),
        decreases n - i,
    {
        let c = s.get_char(i);
        let ghost prefix = s@.take(i as int);
        if c == '"' {
            out.push('\\');
            out.push('"');
        } else if c == '\\' {
            out.push('\\');
            out.push('\\');
        } else if c == '\n' {
            out.push('\\');
            out.push('n');
        } else if c == '\r' {
            out.push('\\');
            out.push('r');
        } else if c == '\t' {
            out.push('\\');
            out.push('t');
        } else if (c as u32) < 32 {
            out.push('\\');
            out.push('u');
            out.push('0');
            out.push('0');
            out.push(hex_char((c as u32) / 16));
            out.push(hex_char((c as u32) % 16));
        } else {
            out.push(c);
        }
        i = i + 1;
        proof {
            assert(s@.take(i as int) =~= prefix.push(c));
            lemma_escape_snoc(prefix, c);
            assert(out@ =~= old(out)@ + spec_escape(s@.take(i as int)));
        }
    }
    proof {
        assert(s@.take(n as int) =~= s@);
    }
}

/// Write a task to its record format.
pub fn encode_task(t: &Task) -> (r: String)
    ensures
        r@ == spec_record(t@),
{
    let mut out = String::new();
    out.append("{\"id\":");
    let id_text = u32_string(t.id);
    out.append(id_text.as_str());
    out.append(",\"plugin_name\":\"");
    append_escaped(&mut out, t.plugin_name.as_str());
    out.append("\",\"argument\":\"");
    append_escaped(&mut out, t.argument.as_str());
    out.append("\"}");
    proof {
        assert(out@ =~= spec_record(t@));
    }
    out
}


/// Whether a decimal digit stands at a position.
pub open spec fn spec_is_digit(c: char) -> bool {
    '0' as u32 <= c as u32 <= '9' as u32
}

/// The value of a decimal digit.
pub open spec fn spec_digit_val(c: char) -> int {
    c as u32 - '0' as u32
}

/// The value of a run of decimal digits, most significant first.
pub open spec fn spec_parse_u64(ds: Seq<char>) -> int
    decreases ds.len(),
{
    if ds.len() == 0 {
        0
    } else {
        spec_parse_u64(ds.drop_last()) * 10 + spec_digit_val(ds.last())
    }
}

/// Reading back the decimal rendering of a number yields the number.
pub proof fn lemma_parse_of_u64_string(n: int)
    requires
        n >= 0,
    ensures
        spec_parse_u64(spec_u64_string(n)) == n,
        spec_u64_string(n).len() >= 1,
        forall|k: int|
            0 <= k < spec_u64_string(n).len() ==> spec_is_digit(#[trigger] spec_u64_string(n)[k]),
    decreases n,
{
    if n < 10 {
        assert(spec_u64_string(n) =~= seq![spec_digit_char(n)]);
        assert(spec_u64_string(n).drop_last() =~= Seq::<char>::empty());
        assert(spec_parse_u64(Seq::<char>::empty()) == 0);
        assert(spec_u64_string(n).last() == spec_digit_char(n));
        assert(spec_digit_val(spec_digit_char(n)) == n);
    } else {
        lemma_parse_of_u64_string(n / 10);
        let ds = spec_u64_string(n);
        assert(ds == spec_u64_string(n / 10).push(spec_digit_char(n % 10)));
        assert(ds.drop_last() =~= spec_u64_string(n / 10));
        assert(ds.last() == spec_digit_char(n % 10));
        assert(spec_digit_val(spec_digit_char(n % 10)) == n % 10);
        assert forall|k: int| 0 <= k < ds.len() implies spec_is_digit(#[trigger] ds[k]) by {
            if k < ds.len() - 1 {
                assert(ds[k] == spec_u64_string(n / 10)[k]);
            }
        }
    }
}

/// Whether the text starting at `i` is exactly `lit`.
pub open spec fn spec_starts_with(s: Seq<char>, i: int, lit: Seq<char>) -> bool {
    &&& 0 <= i
    &&& i + lit.len() <= s.len()
    &&& s.subrange(i, i + lit.len()) == lit
}

/// The length of the run of decimal digits starting at `i`.
pub open spec fn spec_digit_run(s: Seq<char>, i: int) -> int
    decreases s.len() - i,
{
    if 0 <= i < s.len() && spec_is_digit(s[i]) {
        1 + spec_digit_run(s, i + 1)
    } else {
        0
    }
}

/// A run of digits followed by a non-digit measures exactly the run.
proof fn lemma_digit_run_exact(s: Seq<char>, i: int, len: int)
    requires
        0 <= i,
        0 <= len,
        i + len <= s.len(),
        forall|k: int| i <= k < i + len ==> spec_is_digit(#[trigger] s[k]),
        i + len == s.len() || !spec_is_digit(s[i + len]),
    ensures
        spec_digit_run(s, i) == len,
    decreases len,
{
    if len > 0 {
        assert(spec_is_digit(s[i]));
        lemma_digit_run_exact(s, i + 1, len - 1);
    }
}

/// Whether a hexadecimal digit stands at a position.
pub open spec fn spec_is_hex(c: char) -> bool {
    spec_is_digit(c) || ('a' as u32 <= c as u32 <= 'f' as u32)
}

/// The value of a hexadecimal digit.
pub open spec fn spec_hex_val(c: char) -> int {
    if spec_is_digit(c) {
        spec_digit_val(c)
    } else {
        c as u32 - 'a' as u32 + 10
    }
}

/// Read a JSON string body starting at `i`, up to its unescaped closing
/// quote: the text it denotes and the position of that quote.
pub open spec fn spec_unescape_from(s: Seq<char>, i: int) -> Option<(Seq<char>, int)>
    decreases s.len() - i, 0int,
{
    if i < 0 || i >= s.len() {
        None
    } else if s[i] == '"' {
        Some((Seq::empty(), i))
    } else if s[i] == '\\' {
        if i + 1 >= s.len() {
            None
        } else {
            let e = s[i + 1];
            if e == '"' || e == '\\' {
                spec_unescape_cont(s, i + 2, e)
            } else if e == 'n' {
                spec_unescape_cont(s, i + 2, '\n')
            } else if e == 'r' {
                spec_unescape_cont(s, i + 2, '\r')
            } else if e == 't' {
                spec_unescape_cont(s, i + 2, '\t')
            } else if e == 'u' {
                if i + 6 > s.len() {
                    None
                } else if s[i + 2] == '0' && s[i + 3] == '0' && spec_is_hex(s[i + 4]) && spec_is_hex(
                    s[i + 5],
                ) {
                    let code = spec_hex_val(s[i + 4]) * 16 + spec_hex_val(s[i + 5]);
                    spec_unescape_cont(s, i + 6, ((code as u32) as char))
                } else {
                    None
                }
            } else {
                None
            }
        }
    } else {
        spec_unescape_cont(s, i + 1, s[i])
    }
}

/// Prepend one decoded character to the rest of a JSON string body.
pub open spec fn spec_unescape_cont(s: Seq<char>, j: int, c: char) -> Option<(Seq<char>, int)>
    decreases s.len() - j, 1int,
{
    if j < 0 || j > s.len() {
        None
    } else {
        match spec_unescape_from(s, j) {
            Some((rest, end)) => Some((seq![c] + rest, end)),
            None => None,
        }
    }
}

/// What `decode_task` reads out of a line of text: the parser for exactly
/// the record format.
pub open spec fn spec_parse_record(s: Seq<char>) -> Option<TaskView> {
    let p1 = "{\"id\":"@;
    if !spec_starts_with(s, 0, p1) {
        None
    } else {
        let i1 = p1.len() as int;
        let dl = spec_digit_run(s, i1);
        if dl < 1 {
            None
        } else {
            let idv = spec_parse_u64(s.subrange(i1, i1 + dl));
            if idv > u32::MAX {
                None
            } else {
                let i2 = i1 + dl;
                let m1 = ",\"plugin_name\":\""@;
                if !spec_starts_with(s, i2, m1) {
                    None
                } else {
                    match spec_unescape_from(s, i2 + m1.len()) {
                        None => None,
                        Some((name, q1)) => {
                            let m2 = "\",\"argument\":\""@;
                            if !spec_starts_with(s, q1, m2) {
                                None
                            } else {
                                match spec_unescape_from(s, q1 + m2.len()) {
                                    None => None,
                                    Some((arg, q2)) => {
                                        let tail = "\"}"@;
                                        if spec_starts_with(s, q2, tail) && q2 + tail.len()
                                            == s.len() {
                                            Some(
                                                TaskView {
                                                    id: idv as u32,
                                                    plugin_name: name,
                                                    argument: arg,
                                                },
                                            )
                                        } else {
                                            None
                                        }
                                    },
                                }
                            }
                        },
                    }
                }
            }
        }
    }
}


/// The escape of a character, laid down in a larger text and followed by the
/// rest of an escaped string and its closing quote, reads back as that
/// character.
#[verifier::rlimit(100)]
proof fn lemma_unescape_of_escaped(s: Seq<char>, i: int, x: Seq<char>)
    requires
        0 <= i,
        spec_starts_with(s, i, spec_escape(x) + seq!['"']),
    ensures
        spec_unescape_from(s, i) == Some::<(Seq<char>, int)>((x, i + spec_escape(x).len())),
    decreases x.len(),
{
    broadcast use vstd::utf8::char_u32_cast;

    let esc = spec_escape(x);
    let whole = esc + seq!['"'];
    assert forall|k: int| 0 <= k < whole.len() implies s[i + k] == #[trigger] whole[k] by {
        assert(s.subrange(i, i + whole.len())[k] == s[i + k]);
    }
    if x.len() == 0 {
        assert(esc =~= Seq::<char>::empty());
        assert(whole[0] == '"');
        assert(s[i + 0] == whole[0]);
        assert(s[i] == '"');
        assert(x =~= Seq::<char>::empty());
    } else {
        let c = x[0];
        let rest = x.drop_first();
        let ec = spec_escape_char(c);
        assert(esc == ec + spec_escape(rest));
        let i2 = i + ec.len();
        assert(spec_starts_with(s, i2, spec_escape(rest) + seq!['"'])) by {
            let tail = spec_escape(rest) + seq!['"'];
            assert forall|k: int| 0 <= k < tail.len() implies s.subrange(i2, i2 + tail.len())[k]
                == tail[k] by {
                assert(s.subrange(i2, i2 + tail.len())[k] == s[i2 + k]);
                assert(whole[ec.len() + k] == tail[k]);
                assert(s[i + (ec.len() + k)] == whole[ec.len() + k]);
            }
            assert(s.subrange(i2, i2 + tail.len()) =~= tail);
        }
        lemma_unescape_of_escaped(s, i2, rest);
        assert(seq![c] + rest =~= x);
        if c == '"' || c == '\\' {
            let e: char = c;
            assert(ec == seq!['\\', e]);
            assert(whole[0] == '\\' && whole[1] == e) by {
                assert(esc[0] == ec[0] && esc[1] == ec[1]);
            }
            assert(s[i + 0] == whole[0] && s[i + 1] == whole[1]);
            assert(s[i] == '\\');
            assert(spec_unescape_from(s, i) == spec_unescape_cont(s, i + 2, c));
        } else if c == '\n' || c == '\r' || c == '\t' {
            let e: char = if c == '\n' {
                'n'
            } else if c == '\r' {
                'r'
            } else {
                't'
            };
            assert(ec == seq!['\\', e]);
            assert(whole[0] == '\\' && whole[1] == e) by {
                assert(esc[0] == ec[0] && esc[1] == ec[1]);
            }
            assert(s[i + 0] == whole[0] && s[i + 1] == whole[1]);
            assert(s[i] == '\\');
            assert(spec_unescape_from(s, i) == spec_unescape_cont(s, i + 2, c));
        } else if (c as u32) < 32 {
            let hi = c as u32 as int / 16;
            let lo = c as u32 as int % 16;
            assert(ec == seq!['\\', 'u', '0', '0', spec_hex_char(hi), spec_hex_char(lo)]);
            assert(whole[0] == '\\' && whole[1] == 'u' && whole[2] == '0' && whole[3] == '0'
                && whole[4] == spec_hex_char(hi) && whole[5] == spec_hex_char(lo)) by {
                assert(esc[0] == ec[0] && esc[1] == ec[1] && esc[2] == ec[2] && esc[3] == ec[3]
                    && esc[4] == ec[4] && esc[5] == ec[5]);
            }
            assert(s[i + 0] == whole[0] && s[i + 1] == whole[1] && s[i + 2] == whole[2] && s[i + 3]
                == whole[3] && s[i + 4] == whole[4] && s[i + 5] == whole[5]);
            assert(s[i] == '\\');
            assert(spec_is_hex(spec_hex_char(hi)) && spec_hex_val(spec_hex_char(hi)) == hi);
            assert(spec_is_hex(spec_hex_char(lo)) && spec_hex_val(spec_hex_char(lo)) == lo);
            assert(hi * 16 + lo == c as u32);
            vstd::utf8::char_u32_cast(c, (hi * 16 + lo) as u32);
            assert((((hi * 16 + lo) as u32) as char) == c);
            assert(spec_unescape_from(s, i) == spec_unescape_cont(s, i + 6, c));
        } else {
            assert(ec == seq![c]);
            assert(whole[0] == c) by {
                assert(esc[0] == ec[0]);
            }
            assert(s[i + 0] == whole[0]);
            assert(s[i] == c);
            assert(spec_unescape_from(s, i) == spec_unescape_cont(s, i + 1, c));
        }
    }
}

/// Reading back the record of a task yields the task: the record format
/// preserves id, plugin name and argument exactly.
pub proof fn lemma_record_round_trip(t: TaskView)
    ensures
        spec_parse_record(spec_record(t)) == Some(t),
{
    reveal_strlit("{\"id\":");
    reveal_strlit(",\"plugin_name\":\"");
    reveal_strlit("\",\"argument\":\"");
    reveal_strlit("\"}");
    let s = spec_record(t);
    let p1 = "{\"id\":"@;
    let m1 = ",\"plugin_name\":\""@;
    let m2 = "\",\"argument\":\""@;
    let tail = "\"}"@;
    let digits = spec_u64_string(t.id as int);
    let en = spec_escape(t.plugin_name);
    let ea = spec_escape(t.argument);
    lemma_parse_of_u64_string(t.id as int);
    assert(s == p1 + digits + m1 + en + m2 + ea + tail);
    let i1 = p1.len() as int;
    let i2 = i1 + digits.len();
    let i3 = i2 + m1.len();
    let q1 = i3 + en.len();
    let i4 = q1 + m2.len();
    let q2 = i4 + ea.len();
    assert(spec_starts_with(s, 0, p1)) by {
        assert(s.subrange(0, i1) =~= p1);
    }
    assert(spec_digit_run(s, i1) == digits.len()) by {
        assert forall|k: int| i1 <= k < i1 + digits.len() implies spec_is_digit(
            #[trigger] s[k],
        ) by {
            assert(s[k] == digits[k - i1]);
        }
        assert(s[i1 + digits.len()] == m1[0]);
        assert(!spec_is_digit(','));
        lemma_digit_run_exact(s, i1, digits.len() as int);
    }
    assert(s.subrange(i1, i2) =~= digits);
    assert(spec_parse_u64(s.subrange(i1, i2)) == t.id);
    assert(spec_starts_with(s, i2, m1)) by {
        assert(s.subrange(i2, i3) =~= m1);
    }
    assert(spec_unescape_from(s, i3) == Some::<(Seq<char>, int)>((t.plugin_name, q1))) by {
        assert(spec_starts_with(s, i3, en + seq!['"'])) by {
            assert(m2[0] == '"');
            assert(s.subrange(i3, q1 + 1) =~= en + seq!['"']);
        }
        lemma_unescape_of_escaped(s, i3, t.plugin_name);
    }
    assert(spec_starts_with(s, q1, m2)) by {
        assert(s.subrange(q1, i4) =~= m2);
    }
    assert(spec_unescape_from(s, i4) == Some::<(Seq<char>, int)>((t.argument, q2))) by {
        assert(spec_starts_with(s, i4, ea + seq!['"'])) by {
            assert(tail[0] == '"');
            assert(s.subrange(i4, q2 + 1) =~= ea + seq!['"']);
        }
        lemma_unescape_of_escaped(s, i4, t.argument);
    }
    assert(spec_starts_with(s, q2, tail)) by {
        assert(s.subrange(q2, q2 + 2) =~= tail);
    }
    assert(q2 + tail.len() == s.len());
    assert(spec_parse_record(s) == Some(TaskView { id: t.id, plugin_name: t.plugin_name, argument: t.argument }));
    assert(TaskView { id: t.id, plugin_name: t.plugin_name, argument: t.argument } == t);
}

/// Two different tasks never share a record: the record format is injective.
pub proof fn lemma_record_injective(t1: TaskView, t2: TaskView)
    requires
        spec_record(t1) == spec_record(t2),
    ensures
        t1 == t2,
{
    lemma_record_round_trip(t1);
    lemma_record_round_trip(t2);
}


fn lit_at(s: &str, i: usize, lit: &str) -> (r: bool)
    ensures
        r == spec_starts_with(s@, i as int, lit@),
{
    let n = s.unicode_len();
    let m = lit.unicode_len();
    if i > n || m > n - i {
        return false;
    }
    let mut k: usize = 0;
    while k < m
        invariant
            k <= m,
            i + m <= n,
            n == s@.len(),
            m == lit@.len(),
            forall|j: int| 0 <= j < k ==> s@[i + j] == #[trigger] lit@[j],
        decreases m - k,
    {
        if s.get_char(i + k) != lit.get_char(k) {
            proof {
                if spec_starts_with(s@, i as int, lit@) {
                    assert(s@.subrange(i as int, i + m) == lit@);
                    assert(s@.subrange(i as int, i + m)[k as int] == s@[i + k]);
                }
            }
            return false;
        }
        k = k + 1;
    }
    proof {
        assert forall|j: int| 0 <= j < m implies s@.subrange(i as int, i + m)[j] == lit@[j] by {
            assert(s@.subrange(i as int, i + m)[j] == s@[i + j]);
        }
        assert(s@.subrange(i as int, i + m) =~= lit@);
    }
    true
}

fn is_digit(c: char) -> (r: bool)
    ensures
        r == spec_is_digit(c),
{
    let v = c as u32;
    48 <= v && v <= 57
}

fn hex_val(c: char) -> (r: Option<u32>)
    ensures
        match r {
            Some(v) => spec_is_hex(c) && v == spec_hex_val(c) && v < 16,
            None => !spec_is_hex(c),
        },
{
    let v = c as u32;
    if 48 <= v && v <= 57 {
        Some(v - 48)
    } else if 97 <= v && v <= 102 {
        Some(v - 97 + 10)
    } else {
        None
    }
}

/// Read a JSON string body from `start` to its unescaped closing quote.
fn unescape_from(s: &str, start: usize) -> (r: Option<(String, usize)>)
    ensures
        match (r, spec_unescape_from(s@, start as int)) {
            (Some((text, end)), Some(spec_pair)) => text@ == spec_pair.0 && end == spec_pair.1
                && end < s@.len(),
            (None, None) => true,
            _ => false,
        },
{
    let n = s.unicode_len();
    let mut acc = String::new();
    let mut i: usize = start;
    loop
        invariant
            n == s@.len(),
            start <= i,
            (match spec_unescape_from(s@, i as int) {
                Some(spec_pair) => spec_unescape_from(s@, start as int) == Some(
                    (acc@ + spec_pair.0, spec_pair.1),
                ),
                None => spec_unescape_from(s@, start as int) is None,
            }),
        decreases n - i,
    {
        if i >= n {
            return None;
        }
        let c = s.get_char(i);
        let ghost i0 = i as int;
        let ghost acc0 = acc@;
        if c == '"' {
            proof {
                assert(spec_unescape_from(s@, i0) == Some::<(Seq<char>, int)>((Seq::empty(), i0)));
                assert(acc@ + Seq::<char>::empty() =~= acc@);
            }
            return Some((acc, i));
        } else if c == '\\' {
            if n - i < 2 {
                return None;
            }
            let e = s.get_char(i + 1);
            let decoded: char;
            let step: usize;
            if e == '"' || e == '\\' {
                decoded = e;
                step = 2;
            } else if e == 'n' {
                decoded = '\n';
                step = 2;
            } else if e == 'r' {
                decoded = '\r';
                step = 2;
            } else if e == 't' {
                decoded = '\t';
                step = 2;
            } else if e == 'u' {
                if n - i < 6 {
                    return None;
                }
                if s.get_char(i + 2) != '0' || s.get_char(i + 3) != '0' {
                    return None;
                }
                let h1 = match hex_val(s.get_char(i + 4)) {
                    Some(v) => v,
                    None => {
                        return None;
                    },
                };
                let h2 = match hex_val(s.get_char(i + 5)) {
                    Some(v) => v,
                    None => {
                        return None;
                    },
                };
                let code = h1 * 16 + h2;
                decoded = match char::from_u32(code) {
                    Some(ch) => ch,
                    None => vstd::pervasive::unreached(),
                };
                step = 6;
            } else {
                return None;
            }
            proof {
                assert(spec_unescape_from(s@, i0) == spec_unescape_cont(
                    s@,
                    i0 + step as int,
                    decoded,
                ));
            }
            acc.push(decoded);
            i = i + step;
            proof {
                match spec_unescape_from(s@, i as int) {
                    Some(spec_pair) => {
                        assert(spec_unescape_cont(s@, i as int, decoded) == Some::<
                            (Seq<char>, int),
                        >((seq![decoded] + spec_pair.0, spec_pair.1)));
                        assert(acc0 + (seq![decoded] + spec_pair.0) =~= acc@ + spec_pair.0);
                    },
                    None => {},
                }
            }
        } else {
            proof {
                assert(spec_unescape_from(s@, i0) == spec_unescape_cont(s@, i0 + 1, c));
            }
            acc.push(c);
            i = i + 1;
            proof {
                match spec_unescape_from(s@, i as int) {
                    Some(spec_pair) => {
                        assert(spec_unescape_cont(s@, i as int, c) == Some::<(Seq<char>, int)>(
                            (seq![c] + spec_pair.0, spec_pair.1),
                        ));
                        assert(acc0 + (seq![c] + spec_pair.0) =~= acc@ + spec_pair.0);
                    },
                    None => {},
                }
            }
        }
    }
}

/// Read a task back from its record format; nothing unless the text is
/// exactly a record.
pub fn decode_task(s: &str) -> (r: Option<Task>)
    ensures
        match (r, spec_parse_record(s@)) {
            (Some(t), Some(tv)) => t@ == tv,
            (None, None) => true,
            _ => false,
        },
{
    let n = s.unicode_len();
    if !lit_at(s, 0, "{\"id\":") {
        return None;
    }
    let i1 = "{\"id\":".unicode_len();
    proof {
        assert(i1 + 0 <= n);
    }
    let mut dl: usize = 0;
    while i1 + dl < n && is_digit(s.get_char(i1 + dl))
        invariant
            n == s@.len(),
            i1 == "{\"id\":"@.len(),
            i1 + dl <= n,
            forall|k: int| i1 <= k < i1 + dl ==> spec_is_digit(#[trigger] s@[k]),
        decreases n - i1 - dl,
    {
        dl = dl + 1;
    }
    proof {
        lemma_digit_run_exact(s@, i1 as int, dl as int);
    }
    if dl < 1 {
        return None;
    }
    let mut value: u64 = 0;
    let mut too_big = false;
    let mut k: usize = 0;
    while k < dl
        invariant
            n == s@.len(),
            i1 == "{\"id\":"@.len(),
            i1 + dl <= n,
            k <= dl,
            forall|j: int| i1 <= j < i1 + dl ==> spec_is_digit(#[trigger] s@[j]),
            !too_big ==> value == spec_parse_u64(s@.subrange(i1 as int, i1 + k)) && value
                <= u32::MAX,
            too_big ==> spec_parse_u64(s@.subrange(i1 as int, i1 + k)) > u32::MAX,
        decreases dl - k,
    {
        let c = s.get_char(i1 + k);
        let d = (c as u32) - 48;
        let ghost prefix = s@.subrange(i1 as int, i1 + k as int);
        proof {
            assert(spec_is_digit(s@[i1 + k as int]));
            assert(s@.subrange(i1 as int, i1 + k as int + 1).drop_last() =~= prefix);
            assert(s@.subrange(i1 as int, i1 + k as int + 1).last() == s@[i1 + k as int]);
        }
        if too_big {
            proof {
                assert(spec_digit_val(s@[i1 + k as int]) >= 0);
            }
        } else {
            let next = value * 10 + (d as u64);
            if next > (u32::MAX as u64) {
                too_big = true;
                proof {
                    assert(spec_parse_u64(s@.subrange(i1 as int, i1 + k as int + 1)) == next);
                }
            } else {
                value = next;
            }
        }
        k = k + 1;
    }
    proof {
        assert(s@.subrange(i1 as int, i1 + dl as int) == s@.subrange(i1 as int, i1 + dl));
    }
    if too_big {
        return None;
    }
    let i2 = i1 + dl;
    if !lit_at(s, i2, ",\"plugin_name\":\"") {
        return None;
    }
    let i3 = i2 + ",\"plugin_name\":\"".unicode_len();
    let (name, q1) = match unescape_from(s, i3) {
        Some(pair) => pair,
        None => {
            return None;
        },
    };
    if !lit_at(s, q1, "\",\"argument\":\"") {
        return None;
    }
    let i4 = q1 + "\",\"argument\":\"".unicode_len();
    let (arg, q2) = match unescape_from(s, i4) {
        Some(pair) => pair,
        None => {
            return None;
        },
    };
    if !lit_at(s, q2, "\"}") {
        return None;
    }
    if q2 + "\"}".unicode_len() != n {
        return None;
    }
    Some(Task { id: value as u32, plugin_name: name, argument: arg })
}

} // verus!
