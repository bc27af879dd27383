//! Strict text codec primitives: decimal numbers, literal matching, and
//! the UTF-8 boundary.
//!
//! The printers state exactly which character sequence they produce; the
//! parsers state that an accepted slice is exactly the printed form of
//! the value returned, and that a canonical token present in the input
//! is always accepted, with exactly its value.

use vstd::prelude::*;
use vstd::string::StrSliceExecFns;
use vstd::string::StringExecFns;

verus! {

/// The UTF-8 encoding of a character sequence, as the standard library
/// computes it.
pub uninterp spec fn utf8_of(text: Seq<char>) -> Seq<u8>;

/// Relies on String::into_bytes: the UTF-8 encoding of the text.
#[verifier::external_body]
pub(crate) fn string_to_utf8(s: String) -> (r: Vec<u8>)
    ensures
        r@ == utf8_of(s@),
{
    s.into_bytes()
}

/// Relies on String::from_utf8: decoding inverts encoding, so bytes that
/// are the encoding of some text decode to exactly that text.
#[verifier::external_body]
pub(crate) fn utf8_to_string(bytes: &Vec<u8>) -> (r: Option<String>)
    ensures
        r matches Some(s) ==> bytes@ == utf8_of(s@),
        r matches Some(s) ==> (forall|t: Seq<char>| bytes@ == #[trigger] utf8_of(t) ==> t == s@),
        (exists|t: Seq<char>| bytes@ == #[trigger] utf8_of(t)) ==> r is Some,
{
    String::from_utf8(bytes.clone()).ok()
}

/// The decimal digits of `n`, most significant first, no leading zero.
pub open spec fn dec_u64(n: u64) -> Seq<char>
    decreases n,
{
    if n < 10 {
        seq![((48 + n) as u8) as char]
    } else {
        dec_u64(n / 10) + seq![((48 + (n % 10)) as u8) as char]
    }
}

/// The decimal text of a signed 64-bit value: a minus sign for negative
/// values, then the digits of the magnitude.
pub open spec fn dec_i64(n: i64) -> Seq<char> {
    if n < 0 {
        seq!['-'] + dec_u64((-(n as int)) as u64)
    } else {
        dec_u64(n as u64)
    }
}

/// Every character of a decimal rendering is a digit.
pub proof fn lemma_dec_u64_digits(n: u64)
    ensures
        dec_u64(n).len() >= 1,
        forall|i: int| 0 <= i < dec_u64(n).len() ==> '0' <= #[trigger] dec_u64(n)[i] <= '9',
    decreases n,
{
    if n >= 10 {
        lemma_dec_u64_digits(n / 10);
    }
}

/// The numeric value of a decimal digit text, most significant first.
pub open spec fn dec_val(t: Seq<char>) -> int
    decreases t.len(),
{
    if t.len() == 0 {
        0
    } else {
        dec_val(t.drop_last()) * 10 + ((t.last() as u32) - 48)
    }
}

/// The decimal rendering of a value evaluates back to it.
pub proof fn lemma_dec_u64_val(n: u64)
    ensures
        dec_val(dec_u64(n)) == n,
    decreases n,
{
    if n < 10 {
        let t = dec_u64(n);
        assert(t.drop_last() =~= Seq::<char>::empty());
        assert(dec_val(Seq::<char>::empty()) == 0);
        assert((t.last() as u32) == 48 + n) by {
            assert(((48 + n) as u8) as char as u32 == ((48 + n) as u8) as u32);
            assert(((48 + n) as u8) as u32 == 48 + n);
        };
        assert(dec_val(t) == dec_val(t.drop_last()) * 10 + ((t.last() as u32) - 48));
    } else {
        lemma_dec_u64_val(n / 10);
        let t = dec_u64(n);
        assert(t.drop_last() =~= dec_u64(n / 10));
        assert((t.last() as u32) == 48 + (n % 10)) by {
            assert(((48 + (n % 10)) as u8) as char as u32 == ((48 + (n % 10)) as u8) as u32);
            assert(((48 + (n % 10)) as u8) as u32 == 48 + (n % 10));
        };
        assert(dec_val(t) == dec_val(t.drop_last()) * 10 + ((t.last() as u32) - 48));
        assert(dec_val(t.drop_last()) == n / 10);
        assert((n / 10) * 10 + (n % 10) == n);
    }
}

/// The leading digit of a positive value is never zero.
pub proof fn lemma_dec_u64_leading(n: u64)
    ensures
        n > 0 ==> dec_u64(n)[0] != '0',
    decreases n,
{
    if n >= 10 {
        lemma_dec_u64_leading(n / 10);
        assert(dec_u64(n)[0] == dec_u64(n / 10)[0]);
    } else if n > 0 {
        assert((dec_u64(n)[0] as u32) == 48 + n) by {
            assert(((48 + n) as u8) as char as u32 == ((48 + n) as u8) as u32);
        };
        assert(('0' as u32) == 48);
    }
}

/// Decimal renderings are injective.
pub proof fn lemma_dec_u64_injective(a: u64, b: u64)
    ensures
        dec_u64(a) == dec_u64(b) ==> a == b,
{
    if dec_u64(a) == dec_u64(b) {
        lemma_dec_u64_val(a);
        lemma_dec_u64_val(b);
    }
}

/// A digit text's value is nonnegative.
pub proof fn lemma_dec_val_nonneg(t: Seq<char>)
    requires
        forall|k: int| 0 <= k < t.len() ==> '0' <= #[trigger] t[k] <= '9',
    ensures
        dec_val(t) >= 0,
    decreases t.len(),
{
    if t.len() > 0 {
        assert(forall|k: int|
            0 <= k < t.drop_last().len() ==> '0' <= #[trigger] t.drop_last()[k] <= '9');
        lemma_dec_val_nonneg(t.drop_last());
        assert(dec_val(t.drop_last()) * 10 >= 0) by (nonlinear_arith)
            requires
                dec_val(t.drop_last()) >= 0,
        ;
        assert(('0' as u32) == 48 && ('9' as u32) == 57);
        assert((t.last() as u32) >= 48);
    }
}

/// Extending a digit prefix by one digit multiplies its value by ten and
/// adds the digit.
pub proof fn lemma_dec_val_step(t: Seq<char>, i: int)
    requires
        0 <= i < t.len(),
    ensures
        dec_val(t.take(i + 1)) == dec_val(t.take(i)) * 10 + ((t[i] as u32) - 48),
{
    assert(t.take(i + 1).drop_last() =~= t.take(i));
    assert(t.take(i + 1).last() == t[i]);
}

/// A digit prefix's value never exceeds the whole text's value.
pub proof fn lemma_dec_val_prefix(t: Seq<char>, i: int)
    requires
        0 <= i <= t.len(),
        forall|k: int| 0 <= k < t.len() ==> '0' <= #[trigger] t[k] <= '9',
    ensures
        dec_val(t.take(i)) <= dec_val(t),
    decreases t.len() - i,
{
    if i == t.len() {
        assert(t.take(i) =~= t);
    } else {
        lemma_dec_val_prefix(t, i + 1);
        lemma_dec_val_step(t, i);
        assert(forall|k: int|
            0 <= k < t.take(i).len() ==> '0' <= #[trigger] t.take(i)[k] <= '9');
        lemma_dec_val_nonneg(t.take(i));
        assert(('0' as u32) == 48);
        assert((t[i] as u32) >= 48);
        assert(dec_val(t.take(i)) * 10 >= dec_val(t.take(i))) by (nonlinear_arith)
            requires
                dec_val(t.take(i)) >= 0,
        ;
    }
}

/// A canonical decimal token sits at `pos`: the rendering of `n`,
/// followed by the input's end or a non-digit.
pub open spec fn decimal_token_at(s: Seq<char>, pos: int, n: u64) -> bool {
    &&& 0 <= pos
    &&& pos + dec_u64(n).len() <= s.len()
    &&& s.subrange(pos, pos + dec_u64(n).len()) == dec_u64(n)
    &&& (pos + dec_u64(n).len() == s.len() || !('0' <= s[pos + dec_u64(n).len()] && s[pos
        + dec_u64(n).len()] <= '9'))
}

/// Append the decimal text of `n`.
pub fn emit_u64(out: &mut String, n: u64)
    ensures
        final(out)@ == old(out)@ + dec_u64(n),
{
    let mut digits: Vec<u8> = Vec::new();
    let mut m = n;
    while m >= 10
        invariant
            dec_u64(n) == dec_u64(m) + digits@.map_values(|b: u8| b as char).reverse(),
            forall|i: int| 0 <= i < digits@.len() ==> 48 <= #[trigger] digits@[i] <= 57,
        decreases m,
    {
        let d = (m % 10) as u8;
        proof {
            let rev0 = digits@.map_values(|b: u8| b as char).reverse();
            let rev1 = digits@.push((48 + d) as u8).map_values(|b: u8| b as char).reverse();
            assert(rev1 =~= seq![(((48 + d) as u8) as char)] + rev0);
            assert(dec_u64(m) == dec_u64(m / 10) + seq![(((48 + (m % 10)) as u8) as char)]);
        }
        digits.push(48 + d);
        m = m / 10;
    }
    let last = (48 + m) as u8;
    push_ascii(out, last);
    proof {
        assert(dec_u64(m) == seq![(last as char)]);
    }
    let k = digits.len();
    let mut i: usize = k;
    while i > 0
        invariant
            i <= k,
            k == digits@.len(),
            forall|j: int| 0 <= j < digits@.len() ==> 48 <= #[trigger] digits@[j] <= 57,
            out@ == old(out)@ + dec_u64(n).take(dec_u64(n).len() - i),
            dec_u64(n) == dec_u64(n).take(dec_u64(n).len() - k) + digits@.map_values(
                |b: u8| b as char,
            ).reverse(),
            k <= dec_u64(n).len(),
        decreases i,
    {
        i = i - 1;
        push_ascii(out, digits[i]);
        proof {
            let full = dec_u64(n);
            let rev = digits@.map_values(|b: u8| b as char).reverse();
            assert(rev[k - 1 - i as int] == (digits@[i as int] as char));
            assert(full[full.len() - i - 1] == rev[k - 1 - i as int]);
            assert(full.take(full.len() - i) =~= full.take(full.len() - i - 1).push(
                full[full.len() - i - 1],
            ));
        }
    }
    proof {
        assert(dec_u64(n).take(dec_u64(n).len() as int) =~= dec_u64(n));
    }
}

/// Append one ASCII character given as its byte.
fn push_ascii(out: &mut String, b: u8)
    requires
        b < 128,
    ensures
        final(out)@ == old(out)@ + seq![b as char],
{
    let s = ascii_byte_str(b);
    out.append(s.as_str());
}

/// Relies on String::from_utf8: one byte below 128 is the character with
/// the same code point.
#[verifier::external_body]
fn ascii_byte_str(b: u8) -> (r: String)
    requires
        b < 128,
    ensures
        r@ == seq![b as char],
{
    String::from_utf8(vec![b]).unwrap_or_default()
}

/// Append the decimal text of a signed value.
pub fn emit_i64(out: &mut String, n: i64)
    ensures
        final(out)@ == old(out)@ + dec_i64(n),
{
    if n < 0 {
        push_ascii(out, 45);
        proof {
            assert(seq![(45u8 as char)] =~= seq!['-']);
        }
        let mag = if n == i64::MIN {
            9223372036854775808u64
        } else {
            (-n) as u64
        };
        emit_u64(out, mag);
        proof {
            assert(old(out)@ + seq!['-'] + dec_u64(mag) =~= old(out)@ + (seq!['-'] + dec_u64(
                mag,
            )));
        }
    } else {
        emit_u64(out, n as u64);
    }
}

/// Match an exact literal at `pos`; on success the consumed slice is the
/// literal itself.
pub fn expect_lit(s: &str, pos: usize, lit: &str) -> (r: Option<usize>)
    ensures
        r matches Some(np) ==> {
            &&& pos <= np <= s@.len()
            &&& np == pos + lit@.len()
            &&& s@.subrange(pos as int, np as int) == lit@
        },
        (pos + lit@.len() <= s@.len() && s@.subrange(pos as int, pos + lit@.len()) == lit@)
            ==> r is Some,
{
    let n = lit.unicode_len();
    let total = s.unicode_len();
    if pos > total || n > total - pos {
        proof {
            assert(!(pos + lit@.len() <= s@.len()));
        }
        return None;
    }
    let mut i: usize = 0;
    while i < n
        invariant
            i <= n,
            n == lit@.len(),
            pos + n <= total,
            total == s@.len(),
            forall|j: int| 0 <= j < i ==> s@[pos + j] == lit@[j],
        decreases n - i,
    {
        if s.get_char(pos + i) != lit.get_char(i) {
            proof {
                assert(!(s@.subrange(pos as int, pos + lit@.len()) == lit@)) by {
                    if s@.subrange(pos as int, pos + lit@.len()) == lit@ {
                        assert(s@.subrange(pos as int, pos + lit@.len())[i as int] == lit@[
                            i as int
                        ]);
                        assert(s@[pos + i] == lit@[i as int]);
                    }
                };
            }
            return None;
        }
        i = i + 1;
    }
    proof {
        assert(s@.subrange(pos as int, (pos + n) as int) =~= lit@);
    }
    Some(pos + n)
}


/// While a scan sits inside a decimal token, the consumed text is a
/// prefix of the token and its value is the prefix's value.
proof fn lemma_decimal_token_progress(s: Seq<char>, pos: int, p: int, value: u64, n: u64)
    requires
        decimal_token_at(s, pos, n),
        0 <= pos < p <= s.len(),
        s.subrange(pos, p) == dec_u64(value),
    ensures
        p - pos <= dec_u64(n).len(),
        dec_u64(value) == dec_u64(n).take(p - pos),
        value == dec_val(dec_u64(n).take(p - pos)),
{
    let t = dec_u64(n);
    let l = t.len() as int;
    lemma_dec_u64_digits(n);
    lemma_dec_u64_digits(value);
    if p - pos > l {
        assert(s.subrange(pos, p)[l] == s[pos + l]);
        assert('0' <= dec_u64(value)[l] <= '9');
        assert(false);
    }
    assert(dec_u64(value) =~= t.take(p - pos)) by {
        assert(dec_u64(value).len() == p - pos);
        assert forall|k: int| 0 <= k < p - pos implies dec_u64(value)[k] == t[k] by {
            assert(s.subrange(pos, p)[k] == s[pos + k]);
            assert(s.subrange(pos, pos + l)[k] == s[pos + k]);
        }
    };
    lemma_dec_u64_val(value);
}

/// Parse an unsigned decimal number; the consumed slice is exactly the
/// canonical decimal rendering of the value returned.
pub fn parse_u64(s: &str, pos: usize) -> (r: Option<(u64, usize)>)
    ensures
        r matches Some(p) ==> {
            &&& pos < p.1 <= s@.len()
            &&& s@.subrange(pos as int, p.1 as int) == dec_u64(p.0)
        },
        forall|n: u64|
            decimal_token_at(s@, pos as int, n) ==> (r matches Some(p) && p.0 == n && p.1 == pos
                + dec_u64(n).len()),
{
    let total = s.unicode_len();
    if pos >= total {
        proof {
            assert forall|n: u64| !decimal_token_at(s@, pos as int, n) by {
                if decimal_token_at(s@, pos as int, n) {
                    lemma_dec_u64_digits(n);
                }
            }
        }
        return None;
    }
    let c0 = s.get_char(pos);
    if !('0' <= c0 && c0 <= '9') {
        proof {
            assert forall|n: u64| !decimal_token_at(s@, pos as int, n) by {
                if decimal_token_at(s@, pos as int, n) {
                    lemma_dec_u64_digits(n);
                    assert(s@.subrange(pos as int, pos + dec_u64(n).len())[0] == s@[pos as int]);
                    assert('0' <= s@[pos as int] <= '9');
                }
            }
        }
        return None;
    }
    if c0 == '0' {
        proof {
            lemma_dec_u64_digits(0);
            assert(dec_u64(0) =~= seq!['0']);
            assert(s@.subrange(pos as int, (pos + 1) as int) =~= seq![c0]);
            assert forall|n: u64| decimal_token_at(s@, pos as int, n) implies n == 0 by {
                lemma_dec_u64_leading(n);
                assert(s@.subrange(pos as int, pos + dec_u64(n).len())[0] == s@[pos as int]);
                assert(dec_u64(n)[0] == '0');
            }
        }
        return Some((0, pos + 1));
    }
    let mut value: u64 = char_digit(c0);
    let mut p = pos + 1;
    proof {
        assert(s@.subrange(pos as int, p as int) =~= seq![c0]);
        assert(dec_u64(value) == seq![c0]);
    }
    while p < total
        invariant
            pos < p <= total,
            total == s@.len(),
            value >= 1,
            s@.subrange(pos as int, p as int) == dec_u64(value),
        decreases total - p,
    {
        let c = s.get_char(p);
        if !('0' <= c && c <= '9') {
            proof {
                assert forall|n: u64| decimal_token_at(s@, pos as int, n) implies (value == n && p
                    == pos + dec_u64(n).len()) by {
                    lemma_decimal_token_progress(s@, pos as int, p as int, value, n);
                    let t = dec_u64(n);
                    lemma_dec_u64_digits(n);
                    if p - pos < t.len() {
                        assert(s@.subrange(pos as int, pos + t.len() as int)[p - pos] == s@[
                            p as int
                        ]);
                        assert('0' <= t[p - pos] <= '9');
                        assert(false);
                    }
                    assert(dec_u64(value) =~= t);
                    lemma_dec_u64_injective(value, n);
                }
            }
            return Some((value, p));
        }
        let d = char_digit(c);
        if value > 1844674407370955161u64 || (value == 1844674407370955161u64 && d > 5) {
            proof {
                assert(!(exists|n: u64| decimal_token_at(s@, pos as int, n))) by {
                    if exists|n: u64| decimal_token_at(s@, pos as int, n) {
                        let n0 = choose|n: u64| decimal_token_at(s@, pos as int, n);
                        lemma_decimal_token_progress(s@, pos as int, p as int, value, n0);
                        let t = dec_u64(n0);
                        lemma_dec_u64_digits(n0);
                        if p - pos == t.len() {
                            assert(s@.subrange(pos as int, pos + t.len() as int).len() == t.len());
                            assert('0' <= s@[pos + t.len()] <= '9');
                            assert(false);
                        }
                        lemma_dec_val_step(t, p - pos);
                        lemma_dec_val_prefix(t, p - pos + 1);
                        lemma_dec_u64_val(n0);
                        assert(t[p - pos] == s@[p as int]) by {
                            assert(s@.subrange(pos as int, pos + t.len() as int)[p - pos] == s@[
                                p as int
                            ]);
                        };
                        assert((c as u32) - 48 == d);
                        assert(dec_val(t.take(p - pos + 1)) == value * 10 + d);
                        assert(dec_val(t.take(p - pos + 1)) <= n0);
                        assert(value * 10 + d > u64::MAX) by (nonlinear_arith)
                            requires
                                value > 1844674407370955161u64 || (value
                                    == 1844674407370955161u64 && d > 5),
                                d <= 9,
                        ;
                        assert(false);
                    }
                };
            }
            return None;
        }
        proof {
            assert(value * 10 + d <= u64::MAX) by (nonlinear_arith)
                requires
                    value <= 1844674407370955161u64,
                    d <= 9,
                    !(value == 1844674407370955161u64 && d > 5),
                    value >= 1,
            ;
        }
        let newv = value * 10 + d;
        proof {
            assert(newv / 10 == value && newv % 10 == d) by (nonlinear_arith)
                requires
                    newv == value * 10 + d,
                    0 <= d <= 9,
                    value >= 1,
            ;
            assert(newv >= 10) by (nonlinear_arith)
                requires
                    newv == value * 10 + d,
                    value >= 1,
                    d >= 0,
            ;
            assert(dec_u64(newv) == dec_u64(value) + seq![c]);
            assert(s@.subrange(pos as int, (p + 1) as int) =~= s@.subrange(pos as int, p as int)
                + seq![c]);
        }
        value = newv;
        p = p + 1;
    }
    proof {
        assert forall|n: u64| decimal_token_at(s@, pos as int, n) implies (value == n && p == pos
            + dec_u64(n).len()) by {
            lemma_decimal_token_progress(s@, pos as int, p as int, value, n);
            let t = dec_u64(n);
            assert(dec_u64(value) =~= t);
            lemma_dec_u64_injective(value, n);
        }
    }
    Some((value, p))
}

/// Parse an optionally negative decimal number; the consumed slice is
/// exactly the signed rendering of the value returned.
pub fn parse_i64(s: &str, pos: usize) -> (r: Option<(i64, usize)>)
    ensures
        r matches Some(p) ==> {
            &&& pos < p.1 <= s@.len()
            &&& s@.subrange(pos as int, p.1 as int) == dec_i64(p.0)
        },
{
    let total = s.unicode_len();
    if pos >= total {
        return None;
    }
    if s.get_char(pos) == '-' {
        let (mag, np) = match parse_u64(s, pos + 1) {
            Some(x) => x,
            None => {
                return None;
            },
        };
        if mag == 0 || mag > 9223372036854775808u64 {
            return None;
        }
        let v: i64 = if mag == 9223372036854775808u64 {
            i64::MIN
        } else {
            -((mag) as i64)
        };
        proof {
            assert(-(v as int) == mag);
            assert(s@.subrange(pos as int, np as int) =~= seq!['-'] + dec_u64(mag));
        }
        Some((v, np))
    } else {
        let (mag, np) = match parse_u64(s, pos) {
            Some(x) => x,
            None => {
                return None;
            },
        };
        if mag > 9223372036854775807u64 {
            return None;
        }
        Some((mag as i64, np))
    }
}

/// The numeric value of a decimal digit character.
fn char_digit(c: char) -> (d: u64)
    requires
        '0' <= c && c <= '9',
    ensures
        d == c as u8 - 48,
        d <= 9,
        ((48 + d) as u8) as char == c,
{
    (c as u8 - 48) as u64
}

/// Concatenation is associative.
pub proof fn lemma_add_assoc<T>(a: Seq<T>, b: Seq<T>, c: Seq<T>)
    ensures
        (a + b) + c == a + (b + c),
{
    assert((a + b) + c =~= a + (b + c));
}

/// A slice splits at any interior point.
pub proof fn lemma_subrange_split<T>(s: Seq<T>, a: int, b: int, c: int)
    requires
        0 <= a <= b <= c <= s.len(),
    ensures
        s.subrange(a, c) == s.subrange(a, b) + s.subrange(b, c),
{
    assert(s.subrange(a, c) =~= s.subrange(a, b) + s.subrange(b, c));
}

} // verus!
