//! Decimal rendering and parsing of unsigned numbers, shared by the error
//! messages, the value renderer and the task-record codec.

use vstd::prelude::*;

verus! {

/// Relies on String::push: appends the given character to the string.
pub assume_specification[ std::string::String::push ](s: &mut String, ch: char)
    ensures
        final(s)@ == old(s)@.push(ch),
;

/// Relies on char::from_u32: yields the character of a Unicode scalar value,
/// and nothing for a surrogate or an out-of-range number.
pub assume_specification[ char::from_u32 ](v: u32) -> (r: Option<char>)
    ensures
        r is Some <==> (v < 0xD800 || (0xE000 <= v && v <= 0x10FFFF)),
        r matches Some(c) ==> c == v as char,
;

/// The character for one decimal digit.
pub open spec fn spec_digit_char(d: int) -> char {
    if d == 0 {
        '0'
    } else if d == 1 {
        '1'
    } else if d == 2 {
        '2'
    } else if d == 3 {
        '3'
    } else if d == 4 {
        '4'
    } else if d == 5 {
        '5'
    } else if d == 6 {
        '6'
    } else if d == 7 {
        '7'
    } else if d == 8 {
        '8'
    } else {
        '9'
    }
}

/// The decimal rendering of a number, most significant digit first.
pub open spec fn spec_u64_string(n: int) -> Seq<char>
    decreases n,
{
    if n < 10 {
        seq![spec_digit_char(n)]
    } else {
        spec_u64_string(n / 10).push(spec_digit_char(n % 10))
    }
}

fn digit_char(d: u64) -> (c: char)
    requires
        d < 10,
    ensures
        c == spec_digit_char(d as int),
{
    if d == 0 {
        '0'
    } else if d == 1 {
        '1'
    } else if d == 2 {
        '2'
    } else if d == 3 {
        '3'
    } else if d == 4 {
        '4'
    } else if d == 5 {
        '5'
    } else if d == 6 {
        '6'
    } else if d == 7 {
        '7'
    } else if d == 8 {
        '8'
    } else {
        '9'
    }
}

/// Render a number in decimal, without sign or padding.
pub fn u64_string(n: u64) -> (r: String)
    ensures
        r@ == spec_u64_string(n as int),
{
    let mut rev: Vec<char> = Vec::new();
    let mut rest: u64 = n;
    loop
        invariant_except_break
            rev@.len() == 0 ==> rest == n,
            rev@.len() > 0 ==> rest > 0 && spec_u64_string(n as int) == spec_u64_string(
                rest as int,
            ).add(rev@.reverse()),
        ensures
            rev@.len() > 0,
            spec_u64_string(n as int) == rev@.reverse(),
        decreases rest,
    {
        let d = rest % 10;
        let ghost r0 = rest as int;
        let ghost old_rev = rev@;
        rev.push(digit_char(d));
        rest = rest / 10;
        proof {
            assert(rev@.reverse() =~= seq![spec_digit_char(r0 % 10)].add(old_rev.reverse()));
            if r0 >= 10 {
                assert(spec_u64_string(r0) == spec_u64_string(r0 / 10).push(
                    spec_digit_char(r0 % 10),
                ));
                assert(spec_u64_string(r0 / 10).add(rev@.reverse()) =~= spec_u64_string(r0).add(
                    old_rev.reverse(),
                ));
                if old_rev.len() == 0 {
                    assert(spec_u64_string(r0).add(old_rev.reverse()) =~= spec_u64_string(n as int));
                }
            } else {
                assert(spec_u64_string(r0) =~= seq![spec_digit_char(r0)]);
                if old_rev.len() == 0 {
                    assert(rev@.reverse() =~= spec_u64_string(n as int));
                } else {
                    assert(rev@.reverse() =~= spec_u64_string(r0).add(old_rev.reverse()));
                }
            }
        }
        if rest == 0 {
            break;
        }
    }
    let mut r = String::new();
    let mut i: usize = rev.len();
    while i > 0
        invariant
            i <= rev@.len(),
            r@ =~= rev@.subrange(i as int, rev@.len() as int).reverse(),
        decreases i,
    {
        i = i - 1;
        let ghost prev = r@;
        let c = rev[i];
        r.push(c);
        proof {
            assert(rev@.subrange(i as int, rev@.len() as int).reverse() =~= prev.push(
                rev@[i as int],
            ));
        }
    }
    proof {
        assert(rev@.subrange(0, rev@.len() as int) =~= rev@);
        assert(r@ =~= rev@.reverse());
    }
    r
}

/// Render a 32-bit number in decimal.
pub fn u32_string(n: u32) -> (r: String)
    ensures
        r@ == spec_u64_string(n as int),
{
    u64_string(n as u64)
}


/// Compare two string slices by their characters.
pub fn str_eq(a: &str, b: &str) -> (r: bool)
    ensures
        r <==> a@ == b@,
{
    let a_owned = a.to_owned();
    let b_owned = b.to_owned();
    a_owned == b_owned
}


/// The segments of `s` split on the separator `sep`: one segment more than
/// there are separators, empty segments kept.
pub open spec fn spec_split_char(s: Seq<char>, sep: char) -> Seq<Seq<char>>
    decreases s.len(),
{
    if s.len() == 0 {
        seq![Seq::<char>::empty()]
    } else {
        let rest = spec_split_char(s.drop_last(), sep);
        if s.last() == sep {
            rest.push(Seq::<char>::empty())
        } else {
            rest.update(rest.len() - 1, rest.last().push(s.last()))
        }
    }
}

/// Splitting yields at least one segment.
pub proof fn lemma_split_char_len(s: Seq<char>, sep: char)
    ensures
        spec_split_char(s, sep).len() >= 1,
    decreases s.len(),
{
    if s.len() > 0 {
        lemma_split_char_len(s.drop_last(), sep);
    }
}

/// Split a string on a separator character, keeping empty segments.
pub fn split_on_char(s: &str, sep: char) -> (r: Vec<String>)
    ensures
        r@.len() == spec_split_char(s@, sep).len(),
        forall|k: int| 0 <= k < r@.len() ==> r@[k]@ == spec_split_char(s@, sep)[k],
{
    let n = s.unicode_len();
    let mut done: Vec<String> = Vec::new();
    let mut cur = String::new();
    let mut i: usize = 0;
    while i < n
        invariant
            i <= n,
            n == s@.len(),
            spec_split_char(s@.take(i as int), sep) == seq_views(done@).push(cur@),
        decreases n - i,
    {
        let c = s.get_char(i);
        let ghost prefix = s@.take(i as int);
        let ghost done0 = done@;
        let ghost cur0 = cur@;
        if c == sep {
            done.push(cur);
            cur = String::new();
        } else {
            cur.push(c);
        }
        i = i + 1;
        proof {
            assert(s@.take(i as int).drop_last() =~= prefix);
            assert(s@.take(i as int).last() == c);
            lemma_split_char_len(prefix, sep);
            if c == sep {
                assert(seq_views(done@) =~= seq_views(done0).push(cur0));
                assert(spec_split_char(s@.take(i as int), sep) =~= seq_views(done@).push(cur@));
            } else {
                assert(spec_split_char(s@.take(i as int), sep) =~= seq_views(done0).push(
                    cur0,
                ).update(seq_views(done0).push(cur0).len() - 1, cur0.push(c)));
                assert(spec_split_char(s@.take(i as int), sep) =~= seq_views(done@).push(cur@));
            }
        }
    }
    proof {
        assert(s@.take(n as int) =~= s@);
    }
    done.push(cur);
    proof {
        assert(seq_views(done@) =~= seq_views(done@.drop_last()).push(done@.last()@));
        assert forall|k: int| 0 <= k < done@.len() implies done@[k]@ == spec_split_char(
            s@,
            sep,
        )[k] by {
            assert(seq_views(done@)[k] == done@[k]@);
        }
    }
    done
}

/// The views of a sequence of strings.
pub open spec fn seq_views(v: Seq<String>) -> Seq<Seq<char>> {
    v.map_values(|x: String| x@)
}


/// The decimal rendering of a signed number: a minus sign for a negative
/// value, then the digits.
pub open spec fn spec_i64_string(n: int) -> Seq<char> {
    if n < 0 {
        seq!['-'] + spec_u64_string(-n)
    } else {
        spec_u64_string(n)
    }
}

/// Render a signed number in decimal.
pub fn i64_string(n: i64) -> (r: String)
    ensures
        r@ == spec_i64_string(n as int),
{
    if n >= 0 {
        u64_string(n as u64)
    } else {
        let mag: u64 = if n == i64::MIN {
            9223372036854775808u64
        } else {
            (-n) as u64
        };
        let mut out = String::new();
        out.push('-');
        let digits = u64_string(mag);
        out.append(digits.as_str());
        proof {
            assert(out@ =~= seq!['-'] + spec_u64_string(mag as int));
        }
        out
    }
}


/// The ASCII-lowercased form of a character.
pub open spec fn spec_ascii_lower(c: char) -> char {
    if 'A' as u32 <= c as u32 <= 'Z' as u32 {
        ((c as u32 + 32) as char)
    } else {
        c
    }
}

/// The ASCII-lowercased form of a text.
pub open spec fn spec_lower(s: Seq<char>) -> Seq<char> {
    s.map_values(|c: char| spec_ascii_lower(c))
}

/// Lexicographic order on texts, by code point.
pub open spec fn spec_lex_le(x: Seq<char>, y: Seq<char>) -> bool
    decreases x.len(),
{
    if x.len() == 0 {
        true
    } else if y.len() == 0 {
        false
    } else if (x[0] as u32) < (y[0] as u32) {
        true
    } else if (x[0] as u32) > (y[0] as u32) {
        false
    } else {
        spec_lex_le(x.drop_first(), y.drop_first())
    }
}

/// The order is total: of two texts, one is less than or equal to the other.
pub proof fn lemma_lex_le_total(x: Seq<char>, y: Seq<char>)
    ensures
        spec_lex_le(x, y) || spec_lex_le(y, x),
    decreases x.len(),
{
    if x.len() > 0 && y.len() > 0 && (x[0] as u32) == (y[0] as u32) {
        lemma_lex_le_total(x.drop_first(), y.drop_first());
    }
}

/// The order is transitive.
pub proof fn lemma_lex_le_trans(x: Seq<char>, y: Seq<char>, z: Seq<char>)
    requires
        spec_lex_le(x, y),
        spec_lex_le(y, z),
    ensures
        spec_lex_le(x, z),
    decreases x.len(),
{
    if x.len() > 0 && y.len() > 0 && z.len() > 0 && (x[0] as u32) == (y[0] as u32) && (y[0] as u32)
        == (z[0] as u32) {
        lemma_lex_le_trans(x.drop_first(), y.drop_first(), z.drop_first());
    }
}

fn ascii_lower(c: char) -> (r: char)
    ensures
        r == spec_ascii_lower(c),
{
    let v = c as u32;
    if 65 <= v && v <= 90 {
        match char::from_u32(v + 32) {
            Some(lower) => lower,
            None => vstd::pervasive::unreached(),
        }
    } else {
        c
    }
}

/// Compare two texts case-insensitively: whether the ASCII-lowercased first
/// sorts at or before the ASCII-lowercased second.
pub fn lower_lex_le(a: &str, b: &str) -> (r: bool)
    ensures
        r == spec_lex_le(spec_lower(a@), spec_lower(b@)),
{
    let ghost lx = spec_lower(a@);
    let ghost ly = spec_lower(b@);
    let alen = a.unicode_len();
    let blen = b.unicode_len();
    let mut i: usize = 0;
    proof {
        assert(lx.skip(0) =~= lx);
        assert(ly.skip(0) =~= ly);
    }
    while i < alen && i < blen
        invariant
            i <= alen,
            i <= blen,
            alen == a@.len(),
            blen == b@.len(),
            lx == spec_lower(a@),
            ly == spec_lower(b@),
            spec_lex_le(lx, ly) == spec_lex_le(lx.skip(i as int), ly.skip(i as int)),
        decreases alen - i,
    {
        let la = ascii_lower(a.get_char(i));
        let lb = ascii_lower(b.get_char(i));
        proof {
            assert(lx.skip(i as int)[0] == lx[i as int]);
            assert(ly.skip(i as int)[0] == ly[i as int]);
            assert(lx[i as int] == la);
            assert(ly[i as int] == lb);
        }
        if (la as u32) < (lb as u32) {
            return true;
        }
        if (la as u32) > (lb as u32) {
            return false;
        }
        proof {
            assert(lx.skip(i as int).drop_first() =~= lx.skip(i as int + 1));
            assert(ly.skip(i as int).drop_first() =~= ly.skip(i as int + 1));
        }
        i = i + 1;
    }
    proof {
        if alen <= blen {
            if i == alen {
                assert(lx.skip(i as int).len() == 0);
            }
        } else {
            assert(i == blen);
            assert(ly.skip(i as int).len() == 0);
            assert(lx.skip(i as int).len() > 0);
        }
    }
    alen <= blen
}

} // verus!
