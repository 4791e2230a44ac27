use vstd::prelude::*;

use crate::calendar::{civil_parts, date_of, lemma_date_of};
use crate::calendar::{date_before, lemma_date_of_four_digit_year, lemma_date_of_increasing};
use crate::order::{
    chars_le, chars_less, lemma_chars_le_concat, lemma_chars_less_concat, lemma_single_char_less,
};
use crate::text::{
    decimal, digit, digit_char, lemma_padded_four, lemma_padded_two, padded, push_char,
    push_decimal, push_padded,
};

verus! {

/// The letter shown for one permission bit: `c` when `bit` is set in `mode`,
/// `-` otherwise.
pub open spec fn perm_char(mode: u32, bit: u32, c: char) -> char {
    if mode & bit != 0 { c } else { '-' }
}

/// The ten-character `ls -l` permission column: the file type (`d` for a
/// directory, `-` otherwise), then read/write/execute for owner, group and
/// others.
pub open spec fn mode_text(mode: u32, is_dir: bool) -> Seq<char> {
    seq![
        if is_dir { 'd' } else { '-' },
        perm_char(mode, 0o400, 'r'),
        perm_char(mode, 0o200, 'w'),
        perm_char(mode, 0o100, 'x'),
        perm_char(mode, 0o040, 'r'),
        perm_char(mode, 0o020, 'w'),
        perm_char(mode, 0o010, 'x'),
        perm_char(mode, 0o004, 'r'),
        perm_char(mode, 0o002, 'w'),
        perm_char(mode, 0o001, 'x'),
    ]
}

fn push_perm(s: &mut String, mode: u32, bit: u32, c: char)
    ensures
        final(s)@ == old(s)@.push(perm_char(mode, bit, c)),
{
    push_char(s, if mode & bit != 0 { c } else { '-' });
}

/// Renders permission bits in the `drwxr-xr-x` form.
pub fn format_mode(mode: u32, is_dir: bool) -> (s: String)
    ensures
        s@ == mode_text(mode, is_dir),
{
    let mut s = String::new();
    push_char(&mut s, if is_dir { 'd' } else { '-' });
    push_perm(&mut s, mode, 0o400, 'r');
    push_perm(&mut s, mode, 0o200, 'w');
    push_perm(&mut s, mode, 0o100, 'x');
    push_perm(&mut s, mode, 0o040, 'r');
    push_perm(&mut s, mode, 0o020, 'w');
    push_perm(&mut s, mode, 0o010, 'x');
    push_perm(&mut s, mode, 0o004, 'r');
    push_perm(&mut s, mode, 0o002, 'w');
    push_perm(&mut s, mode, 0o001, 'x');
    assert(s@ =~= mode_text(mode, is_dir));
    s
}

/// Seconds since the epoch, negative timestamps counting as the epoch itself.
pub open spec fn clamped_secs(secs: i64) -> nat {
    if secs > 0 { secs as nat } else { 0 }
}

/// `YYYY-MM-DD HH:MM` (UTC) for a timestamp in seconds since 1970-01-01,
/// negative timestamps shown as the epoch.
pub open spec fn time_text(secs: i64) -> Seq<char> {
    let total = clamped_secs(secs);
    let date = date_of(total as int / 86400);
    let secs_of_day = total % 86400;
    padded(date.0 as nat, 4) + seq!['-'] + padded(date.1 as nat, 2) + seq!['-'] + padded(
        date.2 as nat,
        2,
    ) + seq![' '] + padded(secs_of_day / 3600, 2) + seq![':'] + padded((secs_of_day % 3600) / 60, 2)
}

/// Renders a modification time as `YYYY-MM-DD HH:MM` in UTC.
pub fn format_time(secs: i64) -> (s: String)
    ensures
        s@ == time_text(secs),
{
    let total_secs: u64 = if secs > 0 { secs as u64 } else { 0 };
    let days = total_secs / 86400;
    let secs_of_day = total_secs % 86400;
    let h = secs_of_day / 3600;
    let m = (secs_of_day % 3600) / 60;

    // Civil-from-days (proleptic Gregorian), counting from 0000-03-01.
    let z: u64 = days + 719468;
    let era: u64 = z / 146097;
    let doe: u64 = z - era * 146097;
    let yoe: u64 = (doe - doe / 1460 + doe / 36524 - doe / 146096) / 365;
    let y: u64 = yoe + era * 400;
    let doy: u64 = doe - (365 * yoe + yoe / 4 - yoe / 100);
    let mp: u64 = (5 * doy + 2) / 153;
    let d: u64 = doy - (153 * mp + 2) / 5 + 1;
    let mth: u64 = if mp < 10 { mp + 3 } else { mp - 9 };
    let year: u64 = if mth <= 2 { y + 1 } else { y };
    proof {
        lemma_date_of(days as int);
        assert(civil_parts(days as int) == (year as int, mth as int, d as int));
    }

    let mut s = String::new();
    push_padded(&mut s, year, 4);
    push_char(&mut s, '-');
    push_padded(&mut s, mth, 2);
    push_char(&mut s, '-');
    push_padded(&mut s, d, 2);
    push_char(&mut s, ' ');
    push_padded(&mut s, h, 2);
    push_char(&mut s, ':');
    push_padded(&mut s, m, 2);
    assert(s@ =~= time_text(secs));
    s
}

/// `2` to the power `k`.
pub open spec fn two_to(k: nat) -> nat
    decreases k,
{
    if k == 0 { 1 } else { 2 * two_to((k - 1) as nat) }
}

/// Bits of `n` beyond the 53 that a double-precision significand holds.
pub open spec fn excess_bits(n: nat) -> nat
    decreases n,
{
    if n < 0x20_0000_0000_0000 { 0 } else { 1 + excess_bits(n / 2) }
}

/// `n` rounded to a multiple of `unit` (`unit > 0`), ties to the even
/// multiple.
pub open spec fn round_to_multiple(n: nat, unit: nat) -> nat {
    let r = n % unit;
    if 2 * r < unit {
        (n - r) as nat
    } else if 2 * r > unit {
        (n - r + unit) as nat
    } else if (n / unit) % 2 == 0 {
        (n - r) as nat
    } else {
        (n - r + unit) as nat
    }
}

/// The value of `n as f64`: `n` rounded to 53 significant bits, ties to even.
pub open spec fn as_double(n: nat) -> nat {
    round_to_multiple(n, two_to(excess_bits(n)))
}

/// `n / d` rounded to the nearest integer (`d > 0`), ties to even.
pub open spec fn rounded_quotient(n: nat, d: nat) -> nat {
    let q = n / d;
    let r = n % d;
    if 2 * r < d {
        q
    } else if 2 * r > d {
        q + 1
    } else if q % 2 == 0 {
        q
    } else {
        q + 1
    }
}

/// `1024` to the power `u`.
pub open spec fn kibi_power(u: nat) -> nat
    decreases u,
{
    if u == 0 { 1 } else { 1024 * kibi_power((u - 1) as nat) }
}

/// The unit index (0 = bytes, 4 = tebibytes) chosen for a value `v`: the
/// largest `u <= 4` with `v >= 1024^u`.
pub open spec fn size_unit(v: nat) -> nat {
    if v < kibi_power(1) {
        0
    } else if v < kibi_power(2) {
        1
    } else if v < kibi_power(3) {
        2
    } else if v < kibi_power(4) {
        3
    } else {
        4
    }
}

/// The letter of unit index `u`.
pub open spec fn unit_letter(u: nat) -> char {
    if u == 0 {
        'B'
    } else if u == 1 {
        'K'
    } else if u == 2 {
        'M'
    } else if u == 3 {
        'G'
    } else {
        'T'
    }
}

/// Human-readable size: whole bytes below 1 KiB (`512B`), otherwise the
/// double-precision value divided by the largest power of 1024 up to 1024^4
/// that it reaches, with one decimal rounded half to even (`1.5K`, `3.0G`).
pub open spec fn size_text(size: u64) -> Seq<char> {
    let v = as_double(size as nat);
    let u = size_unit(v);
    if u == 0 {
        decimal(size as nat).push('B')
    } else {
        let tenths = rounded_quotient(10 * v, kibi_power(u));
        decimal(tenths / 10) + seq!['.', digit_char(tenths % 10), unit_letter(u)]
    }
}

/// `n as f64`, as an exact integer.
fn double_value(n: u64) -> (v: u128)
    ensures
        v == as_double(n as nat),
        v <= 0x1_0000_0000_0000_0000 + 4096,
{
    let mut m: u64 = n;
    let mut unit: u128 = 1;
    let ghost mut k: nat = 0;
    while m >= 0x20_0000_0000_0000
        invariant
            unit == two_to(k),
            m as nat * unit <= n,
            n < (m as nat + 1) * unit,
            excess_bits(n as nat) == k + excess_bits(m as nat),
            1 <= unit <= 4096,
        decreases m,
    {
        assert(excess_bits(m as nat) == 1 + excess_bits((m / 2) as nat));
        proof {
            assert((m / 2) as nat * (2 * unit) <= m as nat * unit) by (nonlinear_arith)
                requires
                    unit >= 1,
            ;
            assert((m as nat + 1) * unit <= ((m / 2) as nat + 1) * (2 * unit)) by (nonlinear_arith)
                requires
                    unit >= 1,
            ;
            assert(unit < 2048) by (nonlinear_arith)
                requires
                    m >= 0x20_0000_0000_0000,
                    m * unit <= n,
                    n < 0x1_0000_0000_0000_0000,
            ;
        }
        m = m / 2;
        unit = unit * 2;
        proof {
            k = k + 1;
        }
    }
    let n128 = n as u128;
    let r = n128 % unit;
    let q = n128 / unit;
    if 2 * r < unit {
        n128 - r
    } else if 2 * r > unit {
        n128 - r + unit
    } else if q % 2 == 0 {
        n128 - r
    } else {
        n128 - r + unit
    }
}

/// Renders a byte count with a binary unit: `512B`, `1.5K`, `3.0G`.
pub fn format_size(size: u64) -> (s: String)
    ensures
        s@ == size_text(size),
{
    let v = double_value(size);
    let mut unit: u64 = 0;
    let mut scale: u128 = 1;
    while unit < 4 && v >= scale * 1024
        invariant
            unit <= 4,
            scale == kibi_power(unit as nat),
            1 <= scale,
            unit > 0 ==> v >= scale,
            v <= 0x1_0000_0000_0000_0000 + 4096,
            unit <= size_unit(v as nat),
        decreases 4 - unit,
    {
        scale = scale * 1024;
        unit = unit + 1;
    }
    assert(unit == size_unit(v as nat));
    let mut s = String::new();
    if unit == 0 {
        push_decimal(&mut s, size);
        push_char(&mut s, 'B');
    } else {
        let num = v * 10;
        let q = num / scale;
        let r = num % scale;
        assert(q * 1024 <= q * scale) by (nonlinear_arith)
            requires
                scale >= 1024,
        ;
        assert(q * scale <= num) by (nonlinear_arith)
            requires
                q == num / scale,
                scale > 0,
        ;
        let tenths: u128 = if 2 * r < scale {
            q
        } else if 2 * r > scale {
            q + 1
        } else if q % 2 == 0 {
            q
        } else {
            q + 1
        };
        let whole = (tenths / 10) as u64;
        let frac = (tenths % 10) as u64;
        push_decimal(&mut s, whole);
        push_char(&mut s, '.');
        push_char(&mut s, digit(frac));
        push_char(&mut s, if unit == 1 { 'K' } else if unit == 2 { 'M' } else if unit == 3 { 'G' } else { 'T' });
    }
    assert(s@ =~= size_text(size));
    s
}

proof fn lemma_decimal_len(n: nat)
    ensures
        decimal(n).len() >= 1,
        (decimal(n).len() == 1) == (n < 10),
    decreases n,
{
    if n >= 10 {
        lemma_decimal_len(n / 10);
    }
}

/// Numbers with equally long decimal notations compare as their notations.
proof fn lemma_decimal_less(n1: nat, n2: nat)
    requires
        n1 < n2,
        decimal(n1).len() == decimal(n2).len(),
    ensures
        chars_less(decimal(n1), decimal(n2)),
    decreases n2,
{
    lemma_decimal_len(n1);
    lemma_decimal_len(n2);
    if n2 < 10 {
        lemma_single_char_less(digit_char(n1), digit_char(n2));
    } else {
        let q1 = n1 / 10;
        let q2 = n2 / 10;
        let c1 = seq![digit_char(n1 % 10)];
        let c2 = seq![digit_char(n2 % 10)];
        assert(decimal(n1) =~= decimal(q1) + c1);
        assert(decimal(n2) =~= decimal(q2) + c2);
        if q1 < q2 {
            lemma_decimal_less(q1, q2);
        } else {
            lemma_single_char_less(digit_char(n1 % 10), digit_char(n2 % 10));
        }
        lemma_chars_less_concat(decimal(q1), c1, decimal(q2), c2);
    }
}

proof fn lemma_padded_less(n1: nat, n2: nat, width: nat)
    requires
        n1 < n2,
        (width == 2 && n2 < 100) || (width == 4 && 1000 <= n1 && n2 < 10000),
    ensures
        chars_less(padded(n1, width), padded(n2, width)),
        padded(n1, width).len() == width,
        padded(n2, width).len() == width,
{
    if width == 2 {
        lemma_padded_two(n1);
        lemma_padded_two(n2);
        if n1 < 10 && n2 >= 10 {
            lemma_digits_less(n1 / 10, n2 / 10, seq![digit_char(n1 % 10)], seq![digit_char(n2 % 10)]);
            assert(padded(n1, 2) =~= seq![digit_char(n1 / 10)] + seq![digit_char(n1 % 10)]);
            assert(padded(n2, 2) =~= seq![digit_char(n2 / 10)] + seq![digit_char(n2 % 10)]);
        } else {
            lemma_decimal_len(n1);
            lemma_decimal_len(n2);
            if n1 < 10 {
                lemma_single_char_less(digit_char(n1), digit_char(n2));
                lemma_chars_less_concat(seq!['0'], seq![digit_char(n1)], seq!['0'], seq![digit_char(n2)]);
                assert(padded(n1, 2) =~= seq!['0'] + seq![digit_char(n1)]);
                assert(padded(n2, 2) =~= seq!['0'] + seq![digit_char(n2)]);
            } else {
                assert(decimal(n1 / 10).len() == 1);
                assert(decimal(n2 / 10).len() == 1);
                lemma_decimal_less(n1, n2);
            }
        }
    } else {
        lemma_padded_four(n1);
        lemma_padded_four(n2);
        lemma_decimal_len(n1);
        lemma_decimal_len(n2);
        lemma_decimal_less(n1, n2);
    }
}

/// A digit followed by a rest: a smaller digit, or the same digit and an
/// earlier rest, gives an earlier string.
proof fn lemma_digits_less(a: nat, b: nat, r1: Seq<char>, r2: Seq<char>)
    requires
        a < 10,
        b < 10,
        a < b || (a == b && chars_less(r1, r2)),
    ensures
        chars_less(seq![digit_char(a)] + r1, seq![digit_char(b)] + r2),
{
    if a < b {
        lemma_single_char_less(digit_char(a), digit_char(b));
    }
    lemma_chars_less_concat(seq![digit_char(a)], r1, seq![digit_char(b)], r2);
}

/// A zero-padded number followed by a rest: a smaller number, or the same
/// number and an earlier-or-equal rest, gives an earlier-or-equal string.
proof fn lemma_padded_then(n1: nat, n2: nat, width: nat, r1: Seq<char>, r2: Seq<char>)
    requires
        (width == 2 && n1 < 100 && n2 < 100) || (width == 4 && 1000 <= n1 < 10000 && 1000 <= n2
            < 10000),
        n1 < n2 || (n1 == n2 && chars_le(r1, r2)),
    ensures
        chars_le(padded(n1, width) + r1, padded(n2, width) + r2),
{
    if n1 < n2 {
        lemma_padded_less(n1, n2, width);
    }
    lemma_chars_le_concat(padded(n1, width), r1, padded(n2, width), r2);
}

proof fn lemma_separator_then(c: char, r1: Seq<char>, r2: Seq<char>)
    requires
        chars_le(r1, r2),
    ensures
        chars_le(seq![c] + r1, seq![c] + r2),
{
    lemma_chars_le_concat(seq![c], r1, seq![c], r2);
}

/// The stamp `y-m-d h:i` from its fields.
spec fn stamp(y: nat, m: nat, d: nat, h: nat, i: nat) -> Seq<char> {
    padded(y, 4) + (seq!['-'] + (padded(m, 2) + (seq!['-'] + (padded(d, 2) + (seq![' '] + (
    padded(h, 2) + (seq![':'] + (padded(i, 2) + Seq::empty()))))))))
}

proof fn lemma_stamp_order(
    y1: nat, m1: nat, d1: nat, h1: nat, i1: nat,
    y2: nat, m2: nat, d2: nat, h2: nat, i2: nat,
)
    requires
        1000 <= y1 < 10000,
        1000 <= y2 < 10000,
        m1 < 100 && d1 < 100 && h1 < 100 && i1 < 100,
        m2 < 100 && d2 < 100 && h2 < 100 && i2 < 100,
        y1 < y2 || (y1 == y2 && (m1 < m2 || (m1 == m2 && (d1 < d2 || (d1 == d2 && (h1 < h2 || (
        h1 == h2 && i1 <= i2))))))),
    ensures
        chars_le(stamp(y1, m1, d1, h1, i1), stamp(y2, m2, d2, h2, i2)),
{
    let e = Seq::<char>::empty();
    let t1a = padded(i1, 2) + e;
    let t1b = padded(i2, 2) + e;
    if y1 == y2 && m1 == m2 && d1 == d2 && h1 == h2 {
        lemma_padded_then(i1, i2, 2, e, e);
    }
    let t2a = seq![':'] + t1a;
    let t2b = seq![':'] + t1b;
    if y1 == y2 && m1 == m2 && d1 == d2 && h1 == h2 {
        lemma_separator_then(':', t1a, t1b);
    }
    let t3a = padded(h1, 2) + t2a;
    let t3b = padded(h2, 2) + t2b;
    if y1 == y2 && m1 == m2 && d1 == d2 {
        lemma_padded_then(h1, h2, 2, t2a, t2b);
        lemma_separator_then(' ', t3a, t3b);
    }
    let t4a = seq![' '] + t3a;
    let t4b = seq![' '] + t3b;
    let t5a = padded(d1, 2) + t4a;
    let t5b = padded(d2, 2) + t4b;
    if y1 == y2 && m1 == m2 {
        lemma_padded_then(d1, d2, 2, t4a, t4b);
        lemma_separator_then('-', t5a, t5b);
    }
    let t6a = seq!['-'] + t5a;
    let t6b = seq!['-'] + t5b;
    let t7a = padded(m1, 2) + t6a;
    let t7b = padded(m2, 2) + t6b;
    if y1 == y2 {
        lemma_padded_then(m1, m2, 2, t6a, t6b);
        lemma_separator_then('-', t7a, t7b);
    }
    let t8a = seq!['-'] + t7a;
    let t8b = seq!['-'] + t7b;
    lemma_padded_then(y1, y2, 4, t8a, t8b);
}

/// The time text is the stamp of the date and time of day.
proof fn lemma_time_text_stamp(secs: i64)
    requires
        secs < 253402300800,
    ensures
        ({
            let t = clamped_secs(secs);
            let d = date_of(t as int / 86400);
            let s = t % 86400;
            &&& 1000 <= d.0 < 10000
            &&& 1 <= d.1 <= 12
            &&& 1 <= d.2 <= 31
            &&& s / 3600 < 24
            &&& (s % 3600) / 60 < 60
            &&& time_text(secs) == stamp(d.0 as nat, d.1 as nat, d.2 as nat, s / 3600, (s % 3600) / 60)
        }),
{
    let t = clamped_secs(secs);
    let days = t as int / 86400;
    lemma_date_of_four_digit_year(days);
    crate::calendar::lemma_date_of(days);
    let d = date_of(days);
    let s = t % 86400;
    assert(time_text(secs) =~= stamp(d.0 as nat, d.1 as nat, d.2 as nat, s / 3600, (s % 3600) / 60));
}

/// Below the year 10000, a later timestamp gives an equal or later text in
/// string order: sorting the time column by text sorts it by time.
pub proof fn lemma_time_text_monotone(a: i64, b: i64)
    requires
        a <= b < 253402300800,
    ensures
        chars_le(time_text(a), time_text(b)),
{
    lemma_time_text_stamp(a);
    lemma_time_text_stamp(b);
    let ta = clamped_secs(a);
    let tb = clamped_secs(b);
    let da = ta as int / 86400;
    let db = tb as int / 86400;
    let pa = date_of(da);
    let pb = date_of(db);
    if da < db {
        lemma_date_of_increasing(da, db);
    }
    let sa = ta % 86400;
    let sb = tb % 86400;
    assert(da == db ==> sa <= sb);
    lemma_stamp_order(
        pa.0 as nat, pa.1 as nat, pa.2 as nat, sa / 3600, (sa % 3600) / 60,
        pb.0 as nat, pb.1 as nat, pb.2 as nat, sb / 3600, (sb % 3600) / 60,
    );
}

} // verus!
