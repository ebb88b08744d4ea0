//! Numerals and string building for the byte-exact file formats.
//!
//! Every sink writes integers in a pinned spelling: plain decimal for the
//! PPM header and the SVG raster hint, zero-padded decimal for frame file
//! names, two lowercase hex digits per colour channel, and upper-case hex
//! for code points in error messages.
use vstd::prelude::*;

verus! {

/// The ASCII digit byte for a value below ten.
pub open spec fn digit_byte(d: nat) -> u8 {
    (48 + d) as u8
}

/// The decimal numeral of `n` as ASCII bytes, most significant digit first,
/// without leading zeros (`0` is the single digit `"0"`).
pub open spec fn decimal_bytes(n: nat) -> Seq<u8>
    decreases n,
{
    if n < 10 {
        seq![digit_byte(n)]
    } else {
        decimal_bytes(n / 10).push(digit_byte(n % 10))
    }
}

/// The decimal numeral of `n` as characters.
pub open spec fn decimal(n: nat) -> Seq<char>
    decreases n,
{
    if n < 10 {
        seq![digit_byte(n) as char]
    } else {
        decimal(n / 10).push(digit_byte(n % 10) as char)
    }
}

/// `n` in decimal, left-padded with `'0'` to at least `width` characters.
pub open spec fn zero_padded(n: nat, width: nat) -> Seq<char> {
    let d = decimal(n);
    if d.len() < width {
        Seq::new((width - d.len()) as nat, |i: int| '0') + d
    } else {
        d
    }
}

/// A lowercase hexadecimal digit for a value below sixteen.
pub open spec fn hex_lower_digit(d: nat) -> char {
    if d < 10 {
        (48 + d) as char
    } else {
        (87 + d) as char
    }
}

/// An upper-case hexadecimal digit for a value below sixteen.
pub open spec fn hex_upper_digit(d: nat) -> char {
    if d < 10 {
        (48 + d) as char
    } else {
        (55 + d) as char
    }
}

/// A byte as exactly two lowercase hex digits.
pub open spec fn hex_byte(b: u8) -> Seq<char> {
    seq![hex_lower_digit((b / 16) as nat), hex_lower_digit((b % 16) as nat)]
}

/// The upper-case hexadecimal numeral of `n`, without leading zeros.
pub open spec fn hex_upper(n: nat) -> Seq<char>
    decreases n,
{
    if n < 16 {
        seq![hex_upper_digit(n)]
    } else {
        hex_upper(n / 16).push(hex_upper_digit(n % 16))
    }
}

/// `n` in upper-case hex, left-padded with `'0'` to at least `width` digits.
pub open spec fn hex_upper_padded(n: nat, width: nat) -> Seq<char> {
    let d = hex_upper(n);
    if d.len() < width {
        Seq::new((width - d.len()) as nat, |i: int| '0') + d
    } else {
        d
    }
}

/// The value of a run of decimal digit characters.
pub open spec fn digits_value(s: Seq<char>) -> int
    decreases s.len(),
{
    if s.len() == 0 {
        0
    } else {
        digits_value(s.drop_last()) * 10 + (s.last() as int - 48)
    }
}

/// Whether every character is an ASCII decimal digit.
pub open spec fn all_digits(s: Seq<char>) -> bool {
    forall|i: int| 0 <= i < s.len() ==> '0' <= #[trigger] s[i] <= '9'
}

/// A digit byte, read as a character, has the digit's code point.
proof fn lemma_digit_char(d: nat)
    requires
        d < 10,
    ensures
        (digit_byte(d) as char) as int == 48 + d,
{
}

/// The decimal numeral reads back as the number it was written from, is
/// all digits, and has no leading zero unless the number is zero.
pub proof fn law_decimal_round_trip(n: nat)
    ensures
        digits_value(decimal(n)) == n,
        all_digits(decimal(n)),
        decimal(n).len() >= 1,
        n > 0 ==> decimal(n)[0] != '0',
    decreases n,
{
    lemma_digit_char(n % 10);
    if n >= 10 {
        law_decimal_round_trip(n / 10);
        assert(decimal(n).drop_last() =~= decimal(n / 10));
        assert(decimal(n)[0] == decimal(n / 10)[0]);
        assert(decimal(n).last() == digit_byte(n % 10) as char);
        assert(digits_value(decimal(n)) == digits_value(decimal(n / 10)) * 10 + (n % 10));
    } else {
        assert(decimal(n).drop_last() =~= Seq::<char>::empty());
        assert(decimal(n).last() == digit_byte(n) as char);
        assert(digits_value(decimal(n)) == digits_value(Seq::<char>::empty()) * 10 + n);
    }
}

/// The value of a run of ASCII decimal digit bytes, most significant
/// first.
pub open spec fn digit_bytes_value(s: Seq<u8>) -> int
    decreases s.len(),
{
    if s.len() == 0 {
        0
    } else {
        digit_bytes_value(s.drop_last()) * 10 + (s.last() as int - 48)
    }
}

/// The decimal numeral in bytes is the one a file format writes for `n`:
/// ASCII digits only, no leading zero unless `n` is zero, reading back as
/// exactly `n`, and byte for byte the characters of [`decimal`].
pub proof fn law_decimal_bytes_round_trip(n: nat)
    ensures
        digit_bytes_value(decimal_bytes(n)) == n,
        forall|i: int|
            0 <= i < decimal_bytes(n).len() ==> 0x30 <= #[trigger] decimal_bytes(n)[i] <= 0x39,
        decimal_bytes(n).len() >= 1,
        n > 0 ==> decimal_bytes(n)[0] != 0x30,
        decimal_bytes(n).len() == decimal(n).len(),
        forall|i: int|
            0 <= i < decimal_bytes(n).len() ==> #[trigger] decimal_bytes(n)[i] as char == decimal(
                n,
            )[i],
    decreases n,
{
    lemma_digit_char(n % 10);
    if n >= 10 {
        law_decimal_bytes_round_trip(n / 10);
        assert(decimal_bytes(n).drop_last() =~= decimal_bytes(n / 10));
        assert(decimal(n).drop_last() =~= decimal(n / 10));
        assert(decimal_bytes(n)[0] == decimal_bytes(n / 10)[0]);
        assert(digit_bytes_value(decimal_bytes(n)) == digit_bytes_value(decimal_bytes(n / 10)) * 10
            + (n % 10));
        assert forall|i: int| 0 <= i < decimal_bytes(n).len() implies #[trigger] decimal_bytes(
            n,
        )[i] as char == decimal(n)[i] by {
            if i < decimal_bytes(n).len() - 1 {
                assert(decimal_bytes(n)[i] == decimal_bytes(n / 10)[i]);
                assert(decimal(n)[i] == decimal(n / 10)[i]);
            }
        }
    } else {
        assert(decimal_bytes(n).drop_last() =~= Seq::<u8>::empty());
        assert(digit_bytes_value(decimal_bytes(n)) == digit_bytes_value(Seq::<u8>::empty()) * 10 + n);
    }
}

/// The value of a lowercase hexadecimal digit character; `-1` for any
/// other character.
pub open spec fn hex_digit_value(c: char) -> int {
    if '0' <= c <= '9' {
        c as int - 48
    } else if 'a' <= c <= 'f' {
        c as int - 87
    } else {
        -1
    }
}

/// Each channel's two lowercase hex digits read back as the channel: the
/// first is worth sixteen times its digit value, the second its digit
/// value, and both are `0`–`9` or `a`–`f`.
pub proof fn law_hex_byte_reads_back(b: u8)
    ensures
        hex_byte(b).len() == 2,
        0 <= hex_digit_value(hex_byte(b)[0]) < 16,
        0 <= hex_digit_value(hex_byte(b)[1]) < 16,
        hex_digit_value(hex_byte(b)[0]) * 16 + hex_digit_value(hex_byte(b)[1]) == b,
{
    lemma_hex_lower_digit_value((b / 16) as nat);
    lemma_hex_lower_digit_value((b % 16) as nat);
}

/// A lowercase hex digit has the digit value it was written for.
proof fn lemma_hex_lower_digit_value(d: nat)
    requires
        d < 16,
    ensures
        hex_digit_value(hex_lower_digit(d)) == d,
{
}

/// The value of an upper-case hexadecimal digit character; `-1` for any
/// other character.
pub open spec fn upper_hex_digit_value(c: char) -> int {
    if '0' <= c <= '9' {
        c as int - 48
    } else if 'A' <= c <= 'F' {
        c as int - 55
    } else {
        -1
    }
}

/// The value of a run of upper-case hexadecimal digits, most significant
/// first.
pub open spec fn upper_hex_value(s: Seq<char>) -> int
    decreases s.len(),
{
    if s.len() == 0 {
        0
    } else {
        upper_hex_value(s.drop_last()) * 16 + upper_hex_digit_value(s.last())
    }
}

/// The upper-case hex numeral a code point is named by reads back as the
/// code point, uses only `0`–`9` and `A`–`F`, and has no leading zero
/// unless the number is zero; zero padding keeps its value.
pub proof fn law_hex_upper_reads_back(n: nat, width: nat)
    ensures
        upper_hex_value(hex_upper(n)) == n,
        forall|i: int|
            0 <= i < hex_upper(n).len() ==> 0 <= upper_hex_digit_value(#[trigger] hex_upper(n)[i]) < 16,
        hex_upper(n).len() >= 1,
        n > 0 ==> hex_upper(n)[0] != '0',
        upper_hex_value(hex_upper_padded(n, width)) == n,
        hex_upper_padded(n, width).len() >= width,
    decreases n,
{
    lemma_hex_upper_digit_value(n % 16);
    if n >= 16 {
        law_hex_upper_reads_back(n / 16, 0);
        assert(hex_upper(n).drop_last() =~= hex_upper(n / 16));
        assert(hex_upper(n).last() == hex_upper_digit(n % 16));
        assert(upper_hex_value(hex_upper(n)) == upper_hex_value(hex_upper(n / 16)) * 16 + (n % 16));
        assert(hex_upper(n)[0] == hex_upper(n / 16)[0]);
        assert forall|i: int| 0 <= i < hex_upper(n).len() implies 0 <= upper_hex_digit_value(
            #[trigger] hex_upper(n)[i],
        ) < 16 by {
            if i < hex_upper(n).len() - 1 {
                assert(hex_upper(n)[i] == hex_upper(n / 16)[i]);
            }
        }
    } else {
        assert(hex_upper(n).drop_last() =~= Seq::<char>::empty());
        assert(hex_upper(n).last() == hex_upper_digit(n));
        assert(upper_hex_value(hex_upper(n)) == upper_hex_value(Seq::<char>::empty()) * 16 + n);
    }
    let d = hex_upper(n);
    if d.len() < width {
        lemma_zeros_keep_value((width - d.len()) as nat, d);
    }
}

/// An upper-case hex digit has the digit value it was written for.
proof fn lemma_hex_upper_digit_value(d: nat)
    requires
        d < 16,
    ensures
        upper_hex_digit_value(hex_upper_digit(d)) == d,
{
}

/// Leading zeros do not change a hex numeral's value.
proof fn lemma_zeros_keep_value(k: nat, d: Seq<char>)
    ensures
        upper_hex_value(Seq::new(k, |i: int| '0') + d) == upper_hex_value(d),
    decreases d.len(),
{
    let z = Seq::new(k, |i: int| '0');
    if d.len() == 0 {
        assert(z + d =~= z);
        lemma_zero_run_value(k);
    } else {
        lemma_zeros_keep_value(k, d.drop_last());
        assert((z + d).drop_last() =~= z + d.drop_last());
        assert((z + d).last() == d.last());
    }
}

/// A run of `'0'` is worth zero.
proof fn lemma_zero_run_value(k: nat)
    ensures
        upper_hex_value(Seq::new(k, |i: int| '0')) == 0,
    decreases k,
{
    if k > 0 {
        lemma_zero_run_value((k - 1) as nat);
        assert(Seq::new(k, |i: int| '0').drop_last() =~= Seq::new((k - 1) as nat, |i: int| '0'));
    }
}

/// Strict lexicographic order on character sequences: the order `str`
/// comparison gives on ASCII text.
pub open spec fn lex_less(s: Seq<char>, t: Seq<char>) -> bool
    decreases s.len(),
{
    if s.len() == 0 {
        t.len() > 0
    } else if t.len() == 0 {
        false
    } else if s[0] != t[0] {
        s[0] < t[0]
    } else {
        lex_less(s.drop_first(), t.drop_first())
    }
}

/// A shared prefix does not change the order.
proof fn lemma_lex_prefix(p: Seq<char>, s: Seq<char>, t: Seq<char>)
    ensures
        lex_less(p + s, p + t) == lex_less(s, t),
    decreases p.len(),
{
    if p.len() > 0 {
        assert((p + s).drop_first() =~= p.drop_first() + s);
        assert((p + t).drop_first() =~= p.drop_first() + t);
        lemma_lex_prefix(p.drop_first(), s, t);
    } else {
        assert(p + s =~= s);
        assert(p + t =~= t);
    }
}

/// Between equal-length sequences, a shared suffix does not change the
/// order.
proof fn lemma_lex_suffix(s: Seq<char>, t: Seq<char>, q: Seq<char>)
    requires
        s.len() == t.len(),
    ensures
        lex_less(s + q, t + q) == lex_less(s, t),
    decreases s.len(),
{
    if s.len() > 0 {
        assert((s + q).drop_first() =~= s.drop_first() + q);
        assert((t + q).drop_first() =~= t.drop_first() + q);
        assert((s + q)[0] == s[0]);
        assert((t + q)[0] == t[0]);
        lemma_lex_suffix(s.drop_first(), t.drop_first(), q);
    } else {
        assert(s + q =~= q);
        assert(t + q =~= q);
        lemma_lex_irreflexive(q);
    }
}

/// Nothing is below itself.
proof fn lemma_lex_irreflexive(s: Seq<char>)
    ensures
        !lex_less(s, s),
    decreases s.len(),
{
    if s.len() > 0 {
        lemma_lex_irreflexive(s.drop_first());
    }
}

/// Between equal-length sequences, appending one character orders by the
/// prefixes first and by the appended characters on a tie.
proof fn lemma_lex_push(s: Seq<char>, t: Seq<char>, x: char, y: char)
    requires
        s.len() == t.len(),
    ensures
        lex_less(s.push(x), t.push(y)) == (lex_less(s, t) || (s == t && x < y)),
    decreases s.len(),
{
    let sx = s.push(x);
    let ty = t.push(y);
    if s.len() > 0 {
        assert(sx.drop_first() =~= s.drop_first().push(x));
        assert(ty.drop_first() =~= t.drop_first().push(y));
        assert(sx[0] == s[0]);
        assert(ty[0] == t[0]);
        lemma_lex_push(s.drop_first(), t.drop_first(), x, y);
        if s[0] != t[0] {
            assert(s != t);
            assert(lex_less(sx, ty) == (s[0] < t[0]));
            assert(lex_less(s, t) == (s[0] < t[0]));
        } else {
            assert(lex_less(sx, ty) == lex_less(s.drop_first().push(x), t.drop_first().push(y)));
            assert(lex_less(s, t) == lex_less(s.drop_first(), t.drop_first()));
            if s.drop_first() == t.drop_first() {
                assert forall|i: int| 0 <= i < s.len() implies s[i] == t[i] by {
                    if i > 0 {
                        assert(s[i] == s.drop_first()[i - 1]);
                        assert(t[i] == t.drop_first()[i - 1]);
                    }
                }
                assert(s =~= t);
            }
            if s == t {
                assert(s.drop_first() == t.drop_first());
            }
        }
    } else {
        assert(s =~= t);
        assert(sx.drop_first() =~= Seq::<char>::empty());
        assert(ty.drop_first() =~= Seq::<char>::empty());
        assert(sx[0] == x);
        assert(ty[0] == y);
        assert(!lex_less(Seq::<char>::empty(), Seq::<char>::empty()));
        if x == y {
            assert(lex_less(sx, ty) == lex_less(sx.drop_first(), ty.drop_first()));
        }
    }
}

/// `n` written in exactly `k` decimal digits, most significant first.
pub open spec fn fixed_digits(n: nat, k: nat) -> Seq<char>
    decreases k,
{
    if k == 0 {
        seq![]
    } else {
        fixed_digits(n / 10, (k - 1) as nat).push(digit_byte(n % 10) as char)
    }
}

/// `k` zero characters.
pub open spec fn zeros(k: nat) -> Seq<char> {
    Seq::new(k, |i: int| '0')
}

proof fn lemma_fixed_zero(k: nat)
    ensures
        fixed_digits(0, k) == zeros(k),
    decreases k,
{
    if k > 0 {
        lemma_fixed_zero((k - 1) as nat);
        assert(zeros((k - 1) as nat).push('0') =~= zeros(k));
    }
}

/// Below `10^k`, zero padding to `k` digits is the fixed-width numeral.
proof fn lemma_padded_is_fixed(n: nat, k: nat)
    requires
        n < power(10, k),
        k >= 1,
    ensures
        zero_padded(n, k) == fixed_digits(n, k),
    decreases n,
{
    lemma_decimal_len_bound(n, k);
    if n >= 10 {
        assert(n / 10 < power(10, (k - 1) as nat)) by (nonlinear_arith)
            requires
                n < 10 * power(10, (k - 1) as nat),
        ;
        assert(k >= 2) by {
            if k == 1 {
                assert(power(10, 0) == 1);
            }
        }
        lemma_padded_is_fixed(n / 10, (k - 1) as nat);
        let d = decimal(n / 10);
        lemma_decimal_len_bound(n / 10, (k - 1) as nat);
        assert(zero_padded(n, k) =~= zero_padded(n / 10, (k - 1) as nat).push(
            digit_byte(n % 10) as char,
        ));
    } else {
        lemma_fixed_zero((k - 1) as nat);
        assert(zero_padded(n, k) =~= zeros((k - 1) as nat).push(digit_byte(n) as char));
        assert(n / 10 == 0);
        assert(n % 10 == n);
    }
}

/// Fixed-width numerals order lexicographically exactly as the numbers do.
proof fn lemma_fixed_order(a: nat, b: nat, k: nat)
    requires
        a < power(10, k),
        b < power(10, k),
    ensures
        lex_less(fixed_digits(a, k), fixed_digits(b, k)) == (a < b),
        fixed_digits(a, k) == fixed_digits(b, k) <==> a == b,
    decreases k,
{
    if k == 0 {
        assert(power(10, 0) == 1);
    } else {
        let m = (k - 1) as nat;
        assert(a / 10 < power(10, m) && b / 10 < power(10, m)) by (nonlinear_arith)
            requires
                a < 10 * power(10, m),
                b < 10 * power(10, m),
        ;
        lemma_fixed_order(a / 10, b / 10, m);
        lemma_fixed_len(a / 10, m);
        lemma_fixed_len(b / 10, m);
        lemma_lex_push(
            fixed_digits(a / 10, m),
            fixed_digits(b / 10, m),
            digit_byte(a % 10) as char,
            digit_byte(b % 10) as char,
        );
        if fixed_digits(a, k) == fixed_digits(b, k) {
            assert(fixed_digits(a, k).drop_last() =~= fixed_digits(a / 10, m));
            assert(fixed_digits(b, k).drop_last() =~= fixed_digits(b / 10, m));
            assert(fixed_digits(a, k).last() == fixed_digits(b, k).last());
        }
    }
}

proof fn lemma_fixed_len(n: nat, k: nat)
    ensures
        fixed_digits(n, k).len() == k,
    decreases k,
{
    if k > 0 {
        lemma_fixed_len(n / 10, (k - 1) as nat);
    }
}

/// Below `10^width`, numerals zero-padded to `width` order
/// lexicographically exactly as the numbers they spell.
pub proof fn law_zero_padded_order(a: nat, b: nat, width: nat)
    requires
        width >= 1,
        a < power(10, width),
        b < power(10, width),
    ensures
        lex_less(zero_padded(a, width), zero_padded(b, width)) == (a < b),
        zero_padded(a, width).len() == width,
{
    lemma_padded_is_fixed(a, width);
    lemma_padded_is_fixed(b, width);
    lemma_fixed_order(a, b, width);
    lemma_fixed_len(a, width);
}

/// A zero-padded numeral still reads back as its number, is all digits,
/// and is exactly `width` long unless the number needs more digits.
pub proof fn law_zero_padded_reads_back(n: nat, width: nat)
    ensures
        digits_value(zero_padded(n, width)) == n,
        all_digits(zero_padded(n, width)),
        zero_padded(n, width).len() == (if decimal(n).len() < width {
            width as int
        } else {
            decimal(n).len() as int
        }),
{
    law_decimal_round_trip(n);
    let d = decimal(n);
    if d.len() < width {
        let k = (width - d.len()) as nat;
        lemma_decimal_zeros_keep_value(k, d);
        let p = zeros(k) + d;
        assert(zero_padded(n, width) =~= p);
        assert forall|i: int| 0 <= i < p.len() implies '0' <= #[trigger] p[i] <= '9' by {
            if i >= k {
                assert(p[i] == d[i - k]);
            }
        }
    }
}

/// Leading zeros do not change a decimal numeral's value.
proof fn lemma_decimal_zeros_keep_value(k: nat, d: Seq<char>)
    ensures
        digits_value(zeros(k) + d) == digits_value(d),
    decreases d.len(),
{
    if d.len() == 0 {
        assert(zeros(k) + d =~= zeros(k));
        lemma_decimal_zero_run(k);
    } else {
        lemma_decimal_zeros_keep_value(k, d.drop_last());
        assert((zeros(k) + d).drop_last() =~= zeros(k) + d.drop_last());
        assert((zeros(k) + d).last() == d.last());
    }
}

/// A run of `'0'` is worth zero.
proof fn lemma_decimal_zero_run(k: nat)
    ensures
        digits_value(zeros(k)) == 0,
    decreases k,
{
    if k > 0 {
        lemma_decimal_zero_run((k - 1) as nat);
        assert(zeros(k).drop_last() =~= zeros((k - 1) as nat));
    }
}

/// Prefixing and suffixing equal-length keys preserves their order.
pub(crate) proof fn lemma_lex_frame(p: Seq<char>, s: Seq<char>, t: Seq<char>, q: Seq<char>)
    requires
        s.len() == t.len(),
    ensures
        lex_less(p + s + q, p + t + q) == lex_less(s, t),
{
    lemma_lex_suffix(s, t, q);
    assert(p + s + q =~= p + (s + q));
    assert(p + t + q =~= p + (t + q));
    lemma_lex_prefix(p, s + q, t + q);
}

/// Appends one character to a `String` (std's `String::push`).
#[verifier::external_body]
pub(crate) fn push_char(s: &mut String, c: char)
    ensures
        final(s)@ == old(s)@.push(c),
{
    s.push(c);
}

/// The ASCII digit character for `d < 10`.
fn digit_char(d: u64) -> (c: char)
    requires
        d < 10,
    ensures
        c == digit_byte(d as nat) as char,
{
    ((48 + d) as u8) as char
}

/// Appends the decimal numeral of `n` to `out`.
pub fn push_decimal_bytes(out: &mut Vec<u8>, n: u64)
    ensures
        final(out)@ == old(out)@ + decimal_bytes(n as nat),
    decreases n,
{
    if n >= 10 {
        push_decimal_bytes(out, n / 10);
    }
    out.push((48 + n % 10) as u8);
    assert(out@ =~= old(out)@ + decimal_bytes(n as nat));
}

/// Appends the decimal numeral of `n` to `s`.
pub fn push_decimal(s: &mut String, n: u64)
    ensures
        final(s)@ == old(s)@ + decimal(n as nat),
    decreases n,
{
    if n >= 10 {
        push_decimal(s, n / 10);
    }
    push_char(s, digit_char(n % 10));
    assert(s@ =~= old(s)@ + decimal(n as nat));
}

/// `base` raised to `k`.
pub open spec fn power(base: nat, k: nat) -> nat
    decreases k,
{
    if k == 0 {
        1
    } else {
        base * power(base, (k - 1) as nat)
    }
}

/// A numeral below `10^k` has at most `k` digits.
pub(crate) proof fn lemma_decimal_len_bound(n: nat, k: nat)
    requires
        n < power(10, k),
        k >= 1,
    ensures
        decimal(n).len() <= k,
        1 <= decimal(n).len(),
    decreases n,
{
    if n >= 10 {
        assert(k >= 1);
        assert(n / 10 < power(10, (k - 1) as nat)) by (nonlinear_arith)
            requires
                n < 10 * power(10, (k - 1) as nat),
        ;
        lemma_decimal_len_bound(n / 10, (k - 1) as nat);
    }
}

/// A numeral below `16^k` has at most `k` hex digits.
proof fn lemma_hex_len_bound(n: nat, k: nat)
    requires
        n < power(16, k),
        k >= 1,
    ensures
        hex_upper(n).len() <= k,
        1 <= hex_upper(n).len(),
    decreases n,
{
    if n >= 16 {
        assert(k >= 1);
        assert(n / 16 < power(16, (k - 1) as nat)) by (nonlinear_arith)
            requires
                n < 16 * power(16, (k - 1) as nat),
        ;
        lemma_hex_len_bound(n / 16, (k - 1) as nat);
    }
}

/// The number of decimal digits of `n`.
pub fn decimal_len(n: u64) -> (len: usize)
    ensures
        len == decimal(n as nat).len(),
        1 <= len <= 20,
    decreases n,
{
    proof {
        reveal_with_fuel(power, 21);
        assert(power(10, 20) == 100000000000000000000);
        lemma_decimal_len_bound(n as nat, 20);
    }
    if n >= 10 {
        decimal_len(n / 10) + 1
    } else {
        1
    }
}

/// Appends `n` in decimal, left-padded with zeros to `width` characters.
pub fn push_zero_padded(s: &mut String, n: u64, width: usize)
    ensures
        final(s)@ == old(s)@ + zero_padded(n as nat, width as nat),
{
    let len = decimal_len(n);
    let mut k: usize = len;
    while k < width
        invariant
            len == decimal(n as nat).len(),
            len <= k <= width || (k == len && width < len),
            s@ == old(s)@ + Seq::new((k - len) as nat, |i: int| '0'),
        decreases width - k,
    {
        push_char(s, '0');
        k = k + 1;
        assert(s@ =~= old(s)@ + Seq::new((k - len) as nat, |i: int| '0'));
    }
    let ghost pad = s@;
    push_decimal(s, n);
    assert(s@ =~= old(s)@ + zero_padded(n as nat, width as nat));
}

/// Lowercase hex digit for `d < 16`.
fn hex_lower_char(d: u8) -> (c: char)
    requires
        d < 16,
    ensures
        c == hex_lower_digit(d as nat),
{
    if d < 10 {
        ((48 + d) as u8) as char
    } else {
        ((87 + d) as u8) as char
    }
}

/// Upper-case hex digit for `d < 16`.
fn hex_upper_char(d: u32) -> (c: char)
    requires
        d < 16,
    ensures
        c == hex_upper_digit(d as nat),
{
    if d < 10 {
        ((48 + d) as u8) as char
    } else {
        ((55 + d) as u8) as char
    }
}

/// Appends a byte as two lowercase hex digits.
pub fn push_hex_byte(s: &mut String, b: u8)
    ensures
        final(s)@ == old(s)@ + hex_byte(b),
{
    push_char(s, hex_lower_char(b / 16));
    push_char(s, hex_lower_char(b % 16));
    assert(s@ =~= old(s)@ + hex_byte(b));
}

/// Appends the upper-case hex numeral of `n`.
fn push_hex_upper(s: &mut String, n: u32)
    ensures
        final(s)@ == old(s)@ + hex_upper(n as nat),
    decreases n,
{
    if n >= 16 {
        push_hex_upper(s, n / 16);
    }
    push_char(s, hex_upper_char(n % 16));
    assert(s@ =~= old(s)@ + hex_upper(n as nat));
}

/// The number of upper-case hex digits of `n`.
fn hex_upper_len(n: u32) -> (len: usize)
    ensures
        len == hex_upper(n as nat).len(),
        1 <= len <= 8,
    decreases n,
{
    proof {
        reveal_with_fuel(power, 9);
        assert(power(16, 8) == 0x1_0000_0000);
        lemma_hex_len_bound(n as nat, 8);
    }
    if n >= 16 {
        hex_upper_len(n / 16) + 1
    } else {
        1
    }
}

/// Appends `n` in upper-case hex, left-padded with zeros to `width` digits.
pub fn push_hex_upper_padded(s: &mut String, n: u32, width: usize)
    ensures
        final(s)@ == old(s)@ + hex_upper_padded(n as nat, width as nat),
{
    let len = hex_upper_len(n);
    let mut k: usize = len;
    while k < width
        invariant
            len == hex_upper(n as nat).len(),
            len <= k <= width || (k == len && width < len),
            s@ == old(s)@ + Seq::new((k - len) as nat, |i: int| '0'),
        decreases width - k,
    {
        push_char(s, '0');
        k = k + 1;
        assert(s@ =~= old(s)@ + Seq::new((k - len) as nat, |i: int| '0'));
    }
    push_hex_upper(s, n);
    assert(s@ =~= old(s)@ + hex_upper_padded(n as nat, width as nat));
}

} // verus!
