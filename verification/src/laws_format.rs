use vstd::prelude::*;

use crate::format::{
    as_double, excess_bits, kibi_power, mode_text, rounded_quotient, size_text, size_unit,
    two_to,
};
use crate::order::{chars_less, chars_less_from, parts_less, parts_less_from};
use crate::path::path_text;
use crate::text::{decimal, digit_char, padded};

verus! {

/// The number that a string of decimal digits spells.
pub open spec fn digits_value(s: Seq<char>) -> int
    decreases s.len(),
{
    if s.len() == 0 {
        0
    } else {
        digits_value(s.drop_last()) * 10 + (s.last() as int - 48)
    }
}

/// A decimal digit character.
pub open spec fn is_digit(c: char) -> bool {
    48 <= c as int <= 57
}

/// The decimal notation of `n` is made of digits, spells `n`, and has no
/// leading zero (zero itself is `"0"`).
pub proof fn lemma_decimal_spells(n: nat)
    ensures
        forall|i: int| 0 <= i < decimal(n).len() ==> is_digit(#[trigger] decimal(n)[i]),
        digits_value(decimal(n)) == n,
        decimal(n).len() >= 1,
        n == 0 ==> decimal(n) == seq!['0'],
        n > 0 ==> decimal(n)[0] != '0',
    decreases n,
{
    if n >= 10 {
        lemma_decimal_spells(n / 10);
        let s = decimal(n);
        assert(s.drop_last() =~= decimal(n / 10));
        assert(s.last() == digit_char(n % 10));
        assert(digit_char(n % 10) as int == 48 + n % 10);
        assert(digits_value(s) == digits_value(decimal(n / 10)) * 10 + (n % 10));
        assert forall|i: int| 0 <= i < s.len() implies is_digit(#[trigger] s[i]) by {
            if i < s.len() - 1 {
                assert(s[i] == decimal(n / 10)[i]);
            }
        }
    } else {
        let s = decimal(n);
        assert(s.drop_last() =~= Seq::<char>::empty());
        assert(digit_char(n) as int == 48 + n);
        assert(digits_value(s) == digits_value(s.drop_last()) * 10 + (s.last() as int - 48));
    }
}

/// Padding puts zeros in front of the decimal notation until it is `width`
/// long; a longer notation is left as it is.
pub proof fn lemma_padded_shape(n: nat, width: nat)
    ensures
        padded(n, width).len() == if decimal(n).len() < width {
            width
        } else {
            decimal(n).len()
        },
        padded(n, width).subrange(
            padded(n, width).len() - decimal(n).len(),
            padded(n, width).len() as int,
        ) == decimal(n),
        forall|i: int|
            0 <= i < padded(n, width).len() - decimal(n).len() ==> #[trigger] padded(n, width)[i]
                == '0',
{
    let p = padded(n, width);
    let l = decimal(n).len();
    assert(p.subrange(p.len() - l, p.len() as int) =~= decimal(n));
}

/// The permission column: `d` or `-`, then `r`, `w`, `x` for the owner,
/// the group and the others, each shown only when its bit is set.
pub proof fn lemma_mode_text(mode: u32, is_dir: bool)
    ensures
        mode_text(mode, is_dir).len() == 10,
        mode_text(mode, is_dir)[0] == (if is_dir { 'd' } else { '-' }),
        mode_text(mode, is_dir)[1] == (if mode & 0o400 != 0 { 'r' } else { '-' }),
        mode_text(mode, is_dir)[2] == (if mode & 0o200 != 0 { 'w' } else { '-' }),
        mode_text(mode, is_dir)[3] == (if mode & 0o100 != 0 { 'x' } else { '-' }),
        mode_text(mode, is_dir)[4] == (if mode & 0o040 != 0 { 'r' } else { '-' }),
        mode_text(mode, is_dir)[5] == (if mode & 0o020 != 0 { 'w' } else { '-' }),
        mode_text(mode, is_dir)[6] == (if mode & 0o010 != 0 { 'x' } else { '-' }),
        mode_text(mode, is_dir)[7] == (if mode & 0o004 != 0 { 'r' } else { '-' }),
        mode_text(mode, is_dir)[8] == (if mode & 0o002 != 0 { 'w' } else { '-' }),
        mode_text(mode, is_dir)[9] == (if mode & 0o001 != 0 { 'x' } else { '-' }),
{
}

/// Counts below 2^53 are held exactly by a double.
pub proof fn lemma_as_double_exact(n: nat)
    requires
        n < 0x20_0000_0000_0000,
    ensures
        as_double(n) == n,
{
    assert(excess_bits(n) == 0);
    assert(two_to(0) == 1);
}

/// Rounding a quotient: the result is a nearest integer to `n / d`, the
/// even one on a tie.
pub proof fn lemma_rounded_quotient(n: nat, d: nat)
    requires
        d > 0,
    ensures
        ({
            let q = rounded_quotient(n, d);
            &&& 2 * (q * d - n) <= d
            &&& 2 * (n - q * d) <= d
            &&& (2 * (q * d - n) == d || 2 * (n - q * d) == d) ==> q % 2 == 0
        }),
{
    let q0 = n / d;
    let r = n % d;
    assert(q0 * d + r == n) by (nonlinear_arith)
        requires
            q0 == n / d,
            r == n % d,
            d > 0,
    ;
    assert((q0 + 1) * d == q0 * d + d) by (nonlinear_arith);
}

/// The unit chosen for a value is the largest power of 1024 it reaches, up
/// to 1024^4.
pub proof fn lemma_size_unit(v: nat)
    ensures
        size_unit(v) <= 4,
        kibi_power(size_unit(v)) <= v || (size_unit(v) == 0),
        size_unit(v) < 4 ==> v < kibi_power(size_unit(v) + 1),
        kibi_power(1) == 1024,
{
    reveal_with_fuel(kibi_power, 6);
}

/// Below 1024 bytes the size is shown as the exact count followed by `B`.
pub proof fn lemma_size_text_bytes(size: u64)
    requires
        size < 1024,
    ensures
        size_text(size) == decimal(size as nat).push('B'),
{
    lemma_as_double_exact(size as nat);
    reveal_with_fuel(kibi_power, 2);
}

/// From 1024 bytes on the size is shown as a number with one decimal and a
/// unit letter among `K`, `M`, `G`, `T`.
pub proof fn lemma_size_text_units(size: u64)
    requires
        size >= 1024,
    ensures
        ({
            let t = size_text(size);
            &&& t.len() >= 4
            &&& t[t.len() - 2] as int >= 48 && t[t.len() - 2] as int <= 57
            &&& t[t.len() - 3] == '.'
            &&& t.last() == 'K' || t.last() == 'M' || t.last() == 'G' || t.last() == 'T'
        }),
{
    reveal_with_fuel(kibi_power, 2);
    let v = as_double(size as nat);
    let k = excess_bits(size as nat);
    assert(two_to(k) >= 1) by {
        lemma_two_to_positive(k);
    }
    lemma_excess_unit(size as nat);
    lemma_round_to_multiple_large(size as nat, two_to(k));
    let u = size_unit(v);
    assert(u >= 1);
    let tenths = rounded_quotient(10 * v, kibi_power(u));
    crate::laws_format::lemma_decimal_spells(tenths / 10);
    let t = size_text(size);
    assert(t == decimal(tenths / 10) + seq!['.', digit_char(tenths % 10), crate::format::unit_letter(u)]);
}

proof fn lemma_two_to_positive(k: nat)
    ensures
        two_to(k) >= 1,
    decreases k,
{
    if k > 0 {
        lemma_two_to_positive((k - 1) as nat);
    }
}

proof fn lemma_round_to_multiple_large(n: nat, unit: nat)
    requires
        unit >= 1,
        n >= 1024,
        n < 0x20_0000_0000_0000 ==> unit == 1,
        n >= 0x20_0000_0000_0000 ==> unit * 0x10_0000_0000_0000 <= n,
    ensures
        crate::format::round_to_multiple(n, unit) >= 1024,
{
    let r = n % unit;
    assert(r < unit);
    if n >= 0x20_0000_0000_0000 {
        assert(unit <= n / 0x10_0000_0000_0000);
    }
}

/// The rounding unit of a count that a double cannot hold exactly is at
/// most a 2^52nd of the count.
proof fn lemma_excess_unit(n: nat)
    ensures
        n < 0x20_0000_0000_0000 ==> two_to(excess_bits(n)) == 1,
        n >= 0x20_0000_0000_0000 ==> two_to(excess_bits(n)) * 0x10_0000_0000_0000 <= n,
    decreases n,
{
    if n >= 0x20_0000_0000_0000 {
        lemma_excess_unit(n / 2);
        assert(excess_bits(n) == 1 + excess_bits(n / 2));
        assert(two_to(excess_bits(n)) == 2 * two_to(excess_bits(n / 2)));
        if n / 2 < 0x20_0000_0000_0000 {
            assert(two_to(excess_bits(n)) == 2);
        } else {
            assert(two_to(excess_bits(n / 2)) * 0x10_0000_0000_0000 <= n / 2);
            let a = two_to(excess_bits(n / 2));
            let b = two_to(excess_bits(n));
            assert(b * 0x10_0000_0000_0000 == 2 * (a * 0x10_0000_0000_0000)) by (nonlinear_arith)
                requires
                    b == 2 * a,
            ;
        }
    }
}

/// Strings compare by their first characters, by code point.
pub proof fn lemma_chars_less_first(a: char, b: char, r1: Seq<char>, r2: Seq<char>)
    requires
        a != b,
    ensures
        chars_less(seq![a] + r1, seq![b] + r2) == ((a as int) < (b as int)),
{
    assert((seq![a] + r1)[0] == a);
    assert((seq![b] + r2)[0] == b);
}

/// A proper prefix comes first; the empty string comes before every other.
pub proof fn lemma_chars_less_prefix(a: Seq<char>, b: Seq<char>)
    requires
        b.len() > 0,
    ensures
        chars_less(a, a + b),
        !chars_less(a + b, a),
{
    lemma_prefix_from(a, b, 0);
}

proof fn lemma_prefix_from(a: Seq<char>, b: Seq<char>, i: int)
    requires
        b.len() > 0,
        0 <= i <= a.len(),
    ensures
        chars_less_from(a, a + b, i),
        !chars_less_from(a + b, a, i),
    decreases a.len() - i,
{
    if i < a.len() {
        assert((a + b)[i] == a[i]);
        lemma_prefix_from(a, b, i + 1);
    }
}

/// Paths compare by their first components, then a proper prefix (a parent
/// directory) comes before the paths below it.
pub proof fn lemma_parts_less_first(x: Seq<char>, y: Seq<char>, r1: Seq<Seq<char>>, r2: Seq<Seq<char>>)
    requires
        x != y,
    ensures
        parts_less(seq![x] + r1, seq![y] + r2) == chars_less(x, y),
{
    assert((seq![x] + r1)[0] == x);
    assert((seq![y] + r2)[0] == y);
}

/// A directory comes before every path below it.
pub proof fn lemma_parts_less_prefix(a: Seq<Seq<char>>, b: Seq<Seq<char>>)
    requires
        b.len() > 0,
    ensures
        parts_less(a, a + b),
        !parts_less(a + b, a),
{
    lemma_parts_prefix_from(a, b, 0);
}

proof fn lemma_parts_prefix_from(a: Seq<Seq<char>>, b: Seq<Seq<char>>, i: int)
    requires
        b.len() > 0,
        0 <= i <= a.len(),
    ensures
        parts_less_from(a, a + b, i),
        !parts_less_from(a + b, a, i),
    decreases a.len() - i,
{
    if i < a.len() {
        assert((a + b)[i] == a[i]);
        lemma_parts_prefix_from(a, b, i + 1);
    }
}

/// The text of a path is `/` for the root and otherwise `/` before each
/// component: adding a component adds `/` and the component (after the
/// root's `/`, only the component).
pub proof fn lemma_path_text(p: Seq<Seq<char>>, name: Seq<char>)
    ensures
        path_text(Seq::empty()) == seq!['/'],
        path_text(p.push(name)) == (if p.len() == 0 {
            Seq::<char>::empty()
        } else {
            path_text(p)
        }) + seq!['/'] + name,
{
    assert(p.push(name).drop_last() =~= p);
    if p.len() == 0 {
        assert(seq!['/'] + name =~= Seq::<char>::empty() + seq!['/'] + name);
    }
}

} // verus!
