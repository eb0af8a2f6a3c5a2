use vstd::prelude::*;
use vstd::utf8::*;
use vstd::string::*;

use crate::statistics::bytes_lt;

verus! {

broadcast use vstd::utf8::char_is_scalar;

/// The largest number of bytes kept of a min/max statistic.
pub const MAX_STAT_LENGTH: usize = 256;

/// The number of leading characters of `s` whose UTF-8 encoding fits in
/// `cap` bytes.
pub open spec fn fitting_prefix_len(s: Seq<char>, cap: nat) -> nat
    decreases s.len(),
{
    if s.len() == 0 {
        0
    } else if encode_scalar(s[0] as u32).len() > cap {
        0
    } else {
        1 + fitting_prefix_len(s.drop_first(), (cap - encode_scalar(s[0] as u32).len()) as nat)
    }
}

/// The code point after `u`, skipping the surrogate range and staying at the
/// largest code point.
pub open spec fn next_code_point(u: u32) -> u32 {
    if u == 0xD7FF {
        0xE000
    } else if u >= 0x10FFFF {
        0x10FFFF
    } else {
        (u + 1) as u32
    }
}

/// The longest prefix of `s` whose encoding fits in the statistics cap.
pub open spec fn truncated_down(s: Seq<char>) -> Seq<char> {
    if encode_utf8(s).len() <= MAX_STAT_LENGTH {
        s
    } else {
        s.subrange(0, fitting_prefix_len(s, MAX_STAT_LENGTH as nat) as int)
    }
}

/// The same prefix with its last character raised to the next code point.
pub open spec fn truncated_up(s: Seq<char>) -> Seq<char> {
    if encode_utf8(s).len() <= MAX_STAT_LENGTH {
        s
    } else {
        let k = fitting_prefix_len(s, MAX_STAT_LENGTH as nat) as int;
        s.subrange(0, k - 1).push(next_code_point(s[k - 1] as u32) as char)
    }
}

/// The number of bytes that `c` takes in UTF-8.
fn char_width(c: char) -> (r: usize)
    ensures
        r == encode_scalar(c as u32).len(),
        1 <= r <= 4,
{
    let u = c as u32;
    if u <= 0x7F {
        1
    } else if u <= 0x7FF {
        2
    } else if u <= 0xFFFF {
        3
    } else {
        4
    }
}

/// Relies on char::from_u32: `Some` exactly for Unicode scalar values.
#[verifier::external_body]
fn char_from_u32(u: u32) -> (r: Option<char>)
    ensures
        r is Some <==> is_scalar(u),
        r matches Some(c) ==> c as u32 == u,
{
    char::from_u32(u)
}

/// Relies on String::push: appends one character.
#[verifier::external_body]
fn push_char(s: &mut String, c: char)
    ensures
        final(s)@ == old(s)@.push(c),
{
    s.push(c)
}

/// The character after `c` in code point order, see `next_code_point`.
fn next_char(c: char) -> (r: char)
    ensures
        r as u32 == next_code_point(c as u32),
{
    let u = c as u32;
    let target: u32 = if u == 0xD7FF {
        0xE000
    } else if u >= 0x10FFFF {
        0x10FFFF
    } else {
        u + 1
    };
    match char_from_u32(target) {
        Some(ch) => ch,
        None => c,
    }
}

proof fn lemma_encode_push(a: Seq<char>, c: char)
    ensures
        encode_utf8(a.push(c)) == encode_utf8(a) + encode_scalar(c as u32),
    decreases a.len(),
{
    if a.len() == 0 {
        assert(a.push(c).drop_first() =~= Seq::<char>::empty());
        assert(encode_utf8(a.push(c)) =~= encode_scalar(c as u32) + encode_utf8(Seq::<char>::empty()));
    } else {
        lemma_encode_push(a.drop_first(), c);
        assert(a.push(c).drop_first() =~= a.drop_first().push(c));
        assert(encode_utf8(a.push(c)) =~= encode_utf8(a) + encode_scalar(c as u32));
    }
}

/// Encoding a concatenation concatenates the encodings.
pub proof fn lemma_encode_concat(a: Seq<char>, b: Seq<char>)
    ensures
        encode_utf8(a + b) == encode_utf8(a) + encode_utf8(b),
    decreases a.len(),
{
    if a.len() == 0 {
        assert(a + b =~= b);
        assert(encode_utf8(a) + encode_utf8(b) =~= encode_utf8(b));
    } else {
        lemma_encode_concat(a.drop_first(), b);
        assert((a + b).drop_first() =~= a.drop_first() + b);
        assert(encode_utf8(a + b) =~= encode_utf8(a) + encode_utf8(b));
    }
}

proof fn lemma_fitting_step(s: Seq<char>, k: int, cap: nat)
    requires
        0 <= k < s.len(),
    ensures
        s.subrange(k, s.len() as int)[0] == s[k],
        s.subrange(k, s.len() as int).drop_first() == s.subrange(k + 1, s.len() as int),
{
    assert(s.subrange(k, s.len() as int).drop_first() =~= s.subrange(k + 1, s.len() as int));
}

/// Finds how many leading characters of `s` fit in the statistics cap, for
/// a string whose encoding is longer than the cap.
fn fitting_chars(s: &str) -> (r: usize)
    requires
        s.spec_bytes().len() > MAX_STAT_LENGTH,
    ensures
        r == fitting_prefix_len(s@, MAX_STAT_LENGTH as nat),
        1 <= r < s@.len(),
        encode_utf8(s@.subrange(0, r as int)).len() <= MAX_STAT_LENGTH,
{
    let ghost n = s@.len() as int;
    let mut k: usize = 0;
    let mut used: usize = 0;
    proof {
        assert(s@.subrange(0, 0) =~= Seq::<char>::empty());
        assert(s@.subrange(0, n) =~= s@);
    }
    loop
        invariant
            n == s@.len(),
            used <= MAX_STAT_LENGTH,
            k <= used,
            k <= n,
            encode_utf8(s@.subrange(0, k as int)).len() == used,
            encode_utf8(s@).len() > MAX_STAT_LENGTH,
            fitting_prefix_len(s@, MAX_STAT_LENGTH as nat) == k + fitting_prefix_len(
                s@.subrange(k as int, n),
                (MAX_STAT_LENGTH - used) as nat,
            ),
        decreases MAX_STAT_LENGTH - used,
    {
        proof {
            if k == n {
                assert(s@.subrange(0, n) =~= s@);
            }
        }
        let c = s.get_char(k);
        let w = char_width(c);
        proof {
            lemma_fitting_step(s@, k as int, (MAX_STAT_LENGTH - used) as nat);
        }
        if w > MAX_STAT_LENGTH - used {
            return k;
        }
        proof {
            lemma_encode_push(s@.subrange(0, k as int), c);
            assert(s@.subrange(0, k as int).push(c) =~= s@.subrange(0, k + 1));
        }
        used = used + w;
        k = k + 1;
    }
}

/// Truncates `s` to at most the statistics cap of bytes, at a character
/// boundary. The result is a prefix of `s`.
pub fn truncate_down(s: &str) -> (r: String)
    ensures
        r@ == truncated_down(s@),
{
    if s.as_bytes().len() <= MAX_STAT_LENGTH {
        return s.to_owned();
    }
    let k = fitting_chars(s);
    s.substring_char(0, k).to_owned()
}

/// Truncates `s` as `truncate_down` does, then raises the last kept
/// character to the next code point, so that the result stays an upper
/// bound of `s` in byte-wise order.
pub fn truncate_up(s: &str) -> (r: String)
    ensures
        r@ == truncated_up(s@),
{
    if s.as_bytes().len() <= MAX_STAT_LENGTH {
        return s.to_owned();
    }
    let k = fitting_chars(s);
    let mut trunc = s.substring_char(0, k - 1).to_owned();
    let last = s.get_char(k - 1);
    push_char(&mut trunc, next_char(last));
    trunc
}

proof fn lemma_fitting_bound(s: Seq<char>, cap: nat)
    ensures
        fitting_prefix_len(s, cap) <= s.len(),
        encode_utf8(s.subrange(0, fitting_prefix_len(s, cap) as int)).len() <= cap,
    decreases s.len(),
{
    let k = fitting_prefix_len(s, cap) as int;
    if s.len() == 0 || encode_scalar(s[0] as u32).len() > cap {
        assert(s.subrange(0, k) =~= Seq::<char>::empty());
    } else {
        let w = encode_scalar(s[0] as u32).len();
        lemma_fitting_bound(s.drop_first(), (cap - w) as nat);
        assert(s.subrange(0, k).drop_first() =~= s.drop_first().subrange(0, k - 1));
        assert(s.subrange(0, k)[0] == s[0]);
    }
}

proof fn lemma_prefix_not_greater(a: Seq<u8>, b: Seq<u8>)
    requires
        a.len() <= b.len(),
        b.subrange(0, a.len() as int) == a,
    ensures
        !bytes_lt(b, a),
    decreases a.len(),
{
    if a.len() > 0 {
        assert(b[0] == b.subrange(0, a.len() as int)[0]);
        assert(b.drop_first().subrange(0, a.drop_first().len() as int) =~= a.drop_first());
        lemma_prefix_not_greater(a.drop_first(), b.drop_first());
    }
}

/// The result of `truncate_down` is a prefix of the string, both as
/// characters (so it ends on a character boundary) and as bytes; it takes at
/// most the statistics cap of bytes, and it is not greater than the string in
/// byte-wise order.
pub proof fn lemma_truncate_down_is_lower_bound(s: Seq<char>)
    ensures
        truncated_down(s) == s.subrange(0, truncated_down(s).len() as int),
        encode_utf8(truncated_down(s)) == encode_utf8(s).subrange(0, encode_utf8(truncated_down(s)).len() as int),
        encode_utf8(truncated_down(s)).len() <= MAX_STAT_LENGTH,
        !bytes_lt(encode_utf8(s), encode_utf8(truncated_down(s))),
{
    let t = truncated_down(s);
    lemma_fitting_bound(s, MAX_STAT_LENGTH as nat);
    assert(t =~= s.subrange(0, t.len() as int));
    lemma_encode_concat(t, s.subrange(t.len() as int, s.len() as int));
    assert(t + s.subrange(t.len() as int, s.len() as int) =~= s);
    assert(encode_utf8(t) =~= encode_utf8(s).subrange(0, encode_utf8(t).len() as int));
    lemma_prefix_not_greater(encode_utf8(t), encode_utf8(s));
}

proof fn lemma_lt_common_prefix(a: Seq<u8>, x: Seq<u8>, y: Seq<u8>)
    requires
        bytes_lt(x, y),
    ensures
        bytes_lt(a + x, a + y),
    decreases a.len(),
{
    if a.len() == 0 {
        assert(a + x =~= x);
        assert(a + y =~= y);
    } else {
        lemma_lt_common_prefix(a.drop_first(), x, y);
        assert((a + x).drop_first() =~= a.drop_first() + x);
        assert((a + y).drop_first() =~= a.drop_first() + y);
    }
}

proof fn lemma_lt_at(a: Seq<u8>, b: Seq<u8>, i: int)
    requires
        0 <= i < a.len(),
        i < b.len(),
        a.subrange(0, i) == b.subrange(0, i),
        a[i] < b[i],
    ensures
        bytes_lt(a, b),
    decreases i,
{
    if i > 0 {
        assert(a[0] == a.subrange(0, i)[0]);
        assert(b[0] == b.subrange(0, i)[0]);
        assert(a.drop_first().subrange(0, i - 1) =~= a.subrange(0, i).drop_first());
        assert(b.drop_first().subrange(0, i - 1) =~= b.subrange(0, i).drop_first());
        lemma_lt_at(a.drop_first(), b.drop_first(), i - 1);
    }
}

/// UTF-8 keeps the order of code points: the encodings of two scalars
/// first differ at a byte present in both, where the smaller scalar has
/// the smaller byte.
proof fn lemma_scalar_order(u: u32, v: u32) -> (i: int)
    requires
        is_scalar(u),
        is_scalar(v),
        u < v,
    ensures
        0 <= i < encode_scalar(u).len(),
        i < encode_scalar(v).len(),
        encode_scalar(u).subrange(0, i) == encode_scalar(v).subrange(0, i),
        encode_scalar(u)[i] < encode_scalar(v)[i],
{
    let eu = encode_scalar(u);
    let ev = encode_scalar(v);
    assert(eu.subrange(0, 0) =~= ev.subrange(0, 0));
    if has_width_1_encoding(u) {
        assert(((u & 0x7F) as u8) <= 0x7Fu8) by (bit_vector);
        if has_width_1_encoding(v) {
            assert(((u & 0x7F) as u8) < ((v & 0x7F) as u8)) by (bit_vector)
                requires u < v, v <= 0x7F;
        } else if has_width_2_encoding(v) {
            assert(0xC0u8 <= (0xC0u8 | (((v >> 6u32) & 0x1Fu32) as u8))) by (bit_vector);
        } else if has_width_3_encoding(v) {
            assert(0xE0u8 <= (0xE0u8 | (((v >> 12u32) & 0x0Fu32) as u8))) by (bit_vector);
        } else {
            assert(0xF0u8 <= (0xF0u8 | (((v >> 18u32) & 0x7u32) as u8))) by (bit_vector);
        }
        0
    } else if has_width_2_encoding(u) {
        assert((0xC0u8 | (((u >> 6u32) & 0x1Fu32) as u8)) <= 0xDFu8) by (bit_vector);
        if has_width_2_encoding(v) {
            let a0 = 0xC0u8 | (((u >> 6u32) & 0x1Fu32) as u8);
            let b0 = 0xC0u8 | (((v >> 6u32) & 0x1Fu32) as u8);
            let a1 = 0x80u8 | ((u & 0x3Fu32) as u8);
            let b1 = 0x80u8 | ((v & 0x3Fu32) as u8);
            assert(a0 < b0 || (a0 == b0 && a1 < b1)) by (bit_vector)
                requires
                    0x80u32 <= u, u < v, v <= 0x7FFu32,
                    a0 == 0xC0u8 | (((u >> 6u32) & 0x1Fu32) as u8),
                    b0 == 0xC0u8 | (((v >> 6u32) & 0x1Fu32) as u8),
                    a1 == 0x80u8 | ((u & 0x3Fu32) as u8),
                    b1 == 0x80u8 | ((v & 0x3Fu32) as u8);
            if a0 < b0 {
                0
            } else {
                assert(eu.subrange(0, 1) =~= ev.subrange(0, 1));
                1
            }
        } else if has_width_3_encoding(v) {
            assert(0xE0u8 <= (0xE0u8 | (((v >> 12u32) & 0x0Fu32) as u8))) by (bit_vector);
            0
        } else {
            assert(0xF0u8 <= (0xF0u8 | (((v >> 18u32) & 0x7u32) as u8))) by (bit_vector);
            0
        }
    } else if has_width_3_encoding(u) {
        assert((0xE0u8 | (((u >> 12u32) & 0x0Fu32) as u8)) <= 0xEFu8) by (bit_vector);
        if has_width_3_encoding(v) {
            let a0 = 0xE0u8 | (((u >> 12u32) & 0x0Fu32) as u8);
            let b0 = 0xE0u8 | (((v >> 12u32) & 0x0Fu32) as u8);
            let a1 = 0x80u8 | (((u >> 6u32) & 0x3Fu32) as u8);
            let b1 = 0x80u8 | (((v >> 6u32) & 0x3Fu32) as u8);
            let a2 = 0x80u8 | ((u & 0x3Fu32) as u8);
            let b2 = 0x80u8 | ((v & 0x3Fu32) as u8);
            assert(a0 < b0 || (a0 == b0 && a1 < b1) || (a0 == b0 && a1 == b1 && a2 < b2)) by (bit_vector)
                requires
                    0x800u32 <= u, u < v, v <= 0xFFFFu32,
                    a0 == 0xE0u8 | (((u >> 12u32) & 0x0Fu32) as u8),
                    b0 == 0xE0u8 | (((v >> 12u32) & 0x0Fu32) as u8),
                    a1 == 0x80u8 | (((u >> 6u32) & 0x3Fu32) as u8),
                    b1 == 0x80u8 | (((v >> 6u32) & 0x3Fu32) as u8),
                    a2 == 0x80u8 | ((u & 0x3Fu32) as u8),
                    b2 == 0x80u8 | ((v & 0x3Fu32) as u8);
            if a0 < b0 {
                0
            } else if a1 < b1 {
                assert(eu.subrange(0, 1) =~= ev.subrange(0, 1));
                1
            } else {
                assert(eu.subrange(0, 2) =~= ev.subrange(0, 2));
                2
            }
        } else {
            assert(0xF0u8 <= (0xF0u8 | (((v >> 18u32) & 0x7u32) as u8))) by (bit_vector);
            0
        }
    } else {
        let a0 = 0xF0u8 | (((u >> 18u32) & 0x7u32) as u8);
        let b0 = 0xF0u8 | (((v >> 18u32) & 0x7u32) as u8);
        let a1 = 0x80u8 | (((u >> 12u32) & 0x3Fu32) as u8);
        let b1 = 0x80u8 | (((v >> 12u32) & 0x3Fu32) as u8);
        let a2 = 0x80u8 | (((u >> 6u32) & 0x3Fu32) as u8);
        let b2 = 0x80u8 | (((v >> 6u32) & 0x3Fu32) as u8);
        let a3 = 0x80u8 | ((u & 0x3Fu32) as u8);
        let b3 = 0x80u8 | ((v & 0x3Fu32) as u8);
        assert(a0 < b0 || (a0 == b0 && a1 < b1) || (a0 == b0 && a1 == b1 && a2 < b2)
            || (a0 == b0 && a1 == b1 && a2 == b2 && a3 < b3)) by (bit_vector)
            requires
                0x10000u32 <= u, u < v, v <= 0x10FFFFu32,
                a0 == 0xF0u8 | (((u >> 18u32) & 0x7u32) as u8),
                b0 == 0xF0u8 | (((v >> 18u32) & 0x7u32) as u8),
                a1 == 0x80u8 | (((u >> 12u32) & 0x3Fu32) as u8),
                b1 == 0x80u8 | (((v >> 12u32) & 0x3Fu32) as u8),
                a2 == 0x80u8 | (((u >> 6u32) & 0x3Fu32) as u8),
                b2 == 0x80u8 | (((v >> 6u32) & 0x3Fu32) as u8),
                a3 == 0x80u8 | ((u & 0x3Fu32) as u8),
                b3 == 0x80u8 | ((v & 0x3Fu32) as u8);
        if a0 < b0 {
            0
        } else if a1 < b1 {
            assert(eu.subrange(0, 1) =~= ev.subrange(0, 1));
            1
        } else if a2 < b2 {
            assert(eu.subrange(0, 2) =~= ev.subrange(0, 2));
            2
        } else {
            assert(eu.subrange(0, 3) =~= ev.subrange(0, 3));
            3
        }
    }
}

/// For a string longer than the statistics cap, the result of
/// `truncate_up` is strictly greater than the string in byte-wise order,
/// unless the last character kept is already the largest code point (there
/// it cannot be raised).
pub proof fn lemma_truncate_up_is_upper_bound(s: Seq<char>)
    requires
        encode_utf8(s).len() > MAX_STAT_LENGTH,
        fitting_prefix_len(s, MAX_STAT_LENGTH as nat) >= 1 ==> s[fitting_prefix_len(s, MAX_STAT_LENGTH as nat) - 1] as u32 != 0x10FFFF,
    ensures
        bytes_lt(encode_utf8(s), encode_utf8(truncated_up(s))),
{
    let k = fitting_prefix_len(s, MAX_STAT_LENGTH as nat) as int;
    lemma_fitting_bound(s, MAX_STAT_LENGTH as nat);
    if s.len() == 0 {
        assert(encode_utf8(s).len() == 0);
    }
    assert(k >= 1);
    let p = s.subrange(0, k - 1);
    let c = s[k - 1];
    let rest = s.subrange(k, s.len() as int);
    let v = next_code_point(c as u32);
    let nc = v as char;
    char_is_scalar(c);
    assert(is_scalar(v));
    assert(nc as u32 == v);
    assert(truncated_up(s) == p.push(nc));
    lemma_encode_push(p, nc);
    lemma_encode_push(p, c);
    lemma_encode_concat(p.push(c), rest);
    assert(p.push(c) + rest =~= s);
    let x = encode_scalar(c as u32) + encode_utf8(rest);
    let y = encode_scalar(v);
    assert(encode_utf8(s) =~= encode_utf8(p) + x);
    let i = lemma_scalar_order(c as u32, v);
    assert(x.subrange(0, i) =~= encode_scalar(c as u32).subrange(0, i));
    lemma_lt_at(x, y, i);
    lemma_lt_common_prefix(encode_utf8(p), x, y);
}

} // verus!
