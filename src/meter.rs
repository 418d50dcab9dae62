//! The text of one progress frame, computed with exact integer arithmetic.
use vstd::arithmetic::div_mod::{
    lemma_div_is_ordered, lemma_div_is_ordered_by_denominator, lemma_fundamental_div_mod,
    lemma_fundamental_div_mod_converse,
};
use vstd::prelude::*;
use vstd::string::StringSliceAdditionalSpecFns;

verus! {

/// Nanoseconds in one second.
pub const NANOS_PER_SEC: u64 = 1_000_000_000;

/// `10` raised to `places`.
pub open spec fn pow10(places: nat) -> nat
    decreases places,
{
    if places == 0 {
        1
    } else {
        10 * pow10((places - 1) as nat)
    }
}

proof fn lemma_pow10_positive(places: nat)
    ensures
        pow10(places) > 0,
    decreases places,
{
    if places > 0 {
        lemma_pow10_positive((places - 1) as nat);
    }
}

/// The ASCII digit for `d % 10`.
pub open spec fn digit(d: nat) -> u8 {
    (48 + d % 10) as u8
}

/// `n` written in decimal, without leading zeros.
pub open spec fn decimal(n: nat) -> Seq<u8>
    decreases n,
{
    if n < 10 {
        seq![digit(n)]
    } else {
        decimal(n / 10).push(digit(n % 10))
    }
}

/// The lowest `width` decimal digits of `n`, zeros included.
pub open spec fn low_digits(n: nat, width: nat) -> Seq<u8>
    decreases width,
{
    if width == 0 {
        Seq::empty()
    } else {
        low_digits(n / 10, (width - 1) as nat).push(digit(n % 10))
    }
}

/// `v / 10^places` written with `places` digits after the point.
pub open spec fn fixed(v: nat, places: nat) -> Seq<u8> {
    decimal(v / pow10(places)) + seq![46u8] + low_digits(v, places)
}

/// `num * unit / den` rounded to the nearest integer, halves rounded up.
pub open spec fn rounded(num: nat, den: nat, unit: nat) -> nat
    recommends
        den > 0,
{
    ((2 * num * unit + den) / (2 * den)) as nat
}

/// The text of the quotient `num / den` with `places` digits after the point;
/// a zero divisor gives `inf`, or `NaN` when the dividend is zero too.
pub open spec fn quotient_text(num: nat, den: nat, places: nat) -> Seq<u8> {
    if den == 0 {
        if num == 0 {
            text("NaN")
        } else {
            text("inf")
        }
    } else {
        fixed(rounded(num, den, pow10(places)), places)
    }
}

proof fn lemma_rounded_parts(num: int, den: int, unit: int, q: int, r: int, q2: int, r2: int)
    requires
        den > 0,
        unit >= 0,
        num >= 0,
        num == q * den + r,
        0 <= r < den,
        r * unit == q2 * den + r2,
        0 <= r2 < den,
    ensures
        rounded(num as nat, den as nat, unit as nat) == q * unit + q2 + (if r2 >= den - r2 { 1int } else { 0 }),
{
    let x = 2 * num * unit + den;
    assert(x == (q * unit + q2) * (2 * den) + (2 * r2 + den)) by (nonlinear_arith)
        requires
            num == q * den + r,
            r * unit == q2 * den + r2,
            x == 2 * num * unit + den,
    ;
    if r2 >= den - r2 {
        assert(x == (q * unit + q2 + 1) * (2 * den) + (2 * r2 - den)) by (nonlinear_arith)
            requires
                x == (q * unit + q2) * (2 * den) + (2 * r2 + den),
        ;
        lemma_fundamental_div_mod_converse(x, 2 * den, q * unit + q2 + 1, 2 * r2 - den);
    } else {
        lemma_fundamental_div_mod_converse(x, 2 * den, q * unit + q2, 2 * r2 + den);
    }
}

/// Computes `rounded(num, den, unit)` without overflowing.
pub fn rounded_quotient(num: u128, den: u128, unit: u128) -> (r: u128)
    requires
        den > 0,
        den * unit <= u128::MAX,
        (num / den) * unit + unit <= u128::MAX,
    ensures
        r == rounded(num as nat, den as nat, unit as nat),
{
    let q = num / den;
    let rem = num % den;
    proof {
        lemma_fundamental_div_mod(num as int, den as int);
        assert(rem * unit <= den * unit) by (nonlinear_arith)
            requires
                rem < den,
        ;
    }
    let scaled = rem * unit;
    let q2 = scaled / den;
    let r2 = scaled % den;
    proof {
        lemma_fundamental_div_mod(scaled as int, den as int);
        assert(q2 <= unit) by (nonlinear_arith)
            requires
                scaled == den * q2 + r2,
                scaled <= den * unit,
                r2 >= 0,
                den > 0,
        ;
        lemma_rounded_parts(num as int, den as int, unit as int, q as int, rem as int, q2 as int, r2 as int);
    }
    let up: u128 = if r2 >= den - r2 {
        1
    } else {
        0
    };
    q * unit + q2 + up
}

/// The bytes of `s`.
pub open spec fn text(s: &str) -> Seq<u8> {
    s.spec_bytes()
}

/// `s` with spaces in front, to at least `width` bytes.
pub open spec fn pad_left(s: Seq<u8>, width: nat) -> Seq<u8> {
    let pad: int = if s.len() < width { width - s.len() } else { 0 };
    Seq::new(pad as nat, |i: int| 32u8) + s
}

/// The number of items still expected; none once `count` has passed `total`.
pub open spec fn items_left(count: nat, total: nat) -> nat {
    if count <= total {
        (total - count) as nat
    } else {
        0
    }
}

/// How many of the bar's `length` cells are filled: the share `count / total`
/// of `length`, rounded, and at most `length`. With a zero `total` the bar is
/// full as soon as `count` is positive, and empty before.
pub open spec fn filled_cells(length: nat, count: nat, total: nat) -> nat {
    if total == 0 {
        if count == 0 {
            0
        } else {
            length
        }
    } else if rounded(count, total, length) <= length {
        rounded(count, total, length)
    } else {
        length
    }
}

/// A bar of `length` cells, the first `filled` of them `#`, the others `-`.
pub open spec fn bar(length: nat, filled: nat) -> Seq<u8> {
    Seq::new(length, |i: int| if i < filled { 35u8 } else { 45u8 })
}

/// The percentage `100 * count / total` with one digit after the point,
/// right-aligned in five places.
pub open spec fn percent_field(count: nat, total: nat) -> Seq<u8> {
    pad_left(quotient_text(count * 100, total, 1), 5)
}

/// Elapsed seconds, the estimate of seconds left, and the rate in items per
/// second: `count / secs`, and `items_left / rate` for the time left.
pub open spec fn timing_text(count: nat, total: nat, nanos: nat) -> Seq<u8> {
    quotient_text(nanos, NANOS_PER_SEC as nat, 1) + text("s, left: ") + quotient_text(
        items_left(count, total) * nanos,
        count * (NANOS_PER_SEC as nat),
        1,
    ) + text("s, ") + quotient_text(count * (NANOS_PER_SEC as nat), nanos, 2)
}

/// The frame for `count` of `total` items after `nanos` nanoseconds, with a
/// bar of `length` cells: it starts with a carriage return, so that it
/// overwrites the frame before it, and ends with no line feed.
pub open spec fn meter_text(length: nat, count: nat, total: nat, nanos: nat) -> Seq<u8> {
    text("\r[") + bar(length, filled_cells(length, count, total)) + text("]  ")
        + percent_field(count, total) + text("%  ") + decimal(count) + text("/") + decimal(
        total,
    ) + text("  [elapsed: ") + timing_text(count, total, nanos) + text(" iter/s]")
}

fn push_bytes(out: &mut Vec<u8>, b: &[u8])
    ensures
        final(out)@ == old(out)@ + b@,
{
    let mut i: usize = 0;
    while i < b.len()
        invariant
            i <= b@.len(),
            out@ == old(out)@ + b@.subrange(0, i as int),
        decreases b@.len() - i,
    {
        out.push(b[i]);
        i = i + 1;
        proof {
            assert(out@ =~= old(out)@ + b@.subrange(0, i as int));
        }
    }
    proof {
        assert(b@.subrange(0, b@.len() as int) =~= b@);
    }
}

fn push_text(out: &mut Vec<u8>, s: &str)
    ensures
        final(out)@ == old(out)@ + text(s),
{
    push_bytes(out, s.as_bytes());
}

fn push_decimal(out: &mut Vec<u8>, n: u128)
    ensures
        final(out)@ == old(out)@ + decimal(n as nat),
    decreases n,
{
    if n >= 10 {
        push_decimal(out, n / 10);
    }
    out.push((48 + n % 10) as u8);
    proof {
        assert(out@ =~= old(out)@ + decimal(n as nat));
    }
}

fn push_low_digits(out: &mut Vec<u8>, n: u128, width: u32)
    ensures
        final(out)@ == old(out)@ + low_digits(n as nat, width as nat),
    decreases width,
{
    if width > 0 {
        push_low_digits(out, n / 10, width - 1);
        out.push((48 + n % 10) as u8);
    }
    proof {
        assert(out@ =~= old(out)@ + low_digits(n as nat, width as nat));
    }
}

/// Appends the text of the quotient `num / den` with `places` digits after
/// the point, `unit` being `10^places`.
fn push_quotient(out: &mut Vec<u8>, num: u128, den: u128, places: u32, unit: u128)
    requires
        unit == pow10(places as nat),
        den > 0 ==> den * unit <= u128::MAX,
        den > 0 ==> (num / den) * unit + unit <= u128::MAX,
    ensures
        final(out)@ == old(out)@ + quotient_text(num as nat, den as nat, places as nat),
{
    if den == 0 {
        if num == 0 {
            push_text(out, "NaN");
        } else {
            push_text(out, "inf");
        }
    } else {
        proof {
            lemma_pow10_positive(places as nat);
        }
        let v = rounded_quotient(num, den, unit);
        push_decimal(out, v / unit);
        out.push(46u8);
        push_low_digits(out, v, places);
        proof {
            assert(out@ =~= old(out)@ + quotient_text(num as nat, den as nat, places as nat));
        }
    }
}

proof fn lemma_quotient_fits(num: u128, den: u128, unit: u128, limit: int, bound: int)
    requires
        den >= bound > 0,
        num <= limit,
        (limit / bound) * unit + unit <= u128::MAX,
        den * unit <= u128::MAX,
    ensures
        (num / den) * unit + unit <= u128::MAX,
        den * unit <= u128::MAX,
{
    lemma_div_is_ordered_by_denominator(num as int, bound, den as int);
    lemma_div_is_ordered(num as int, limit, bound);
    assert((num / den) * unit <= (limit / bound) * unit) by (nonlinear_arith)
        requires
            num / den <= limit / bound,
    ;
}

fn push_bar(out: &mut Vec<u8>, length: u8, count: usize, total: usize)
    ensures
        final(out)@ == old(out)@ + bar(length as nat, filled_cells(length as nat, count as nat, total as nat)),
{
    let count_w = count as u128;
    let total_w = total as u128;
    let length_w = length as u128;
    let filled: u128 = if total == 0 {
        if count == 0 {
            0
        } else {
            length_w
        }
    } else {
        proof {
            assert(total_w * length_w <= u128::MAX) by (nonlinear_arith)
                requires
                    total_w < 0x1_0000_0000_0000_0000,
                    length_w < 256,
            ;
            lemma_quotient_fits(count_w, total_w, length_w, 0x1_0000_0000_0000_0000, 1);
        }
        let f = rounded_quotient(count_w, total_w, length_w);
        if f <= length_w {
            f
        } else {
            length_w
        }
    };
    let ghost cells = bar(length as nat, filled as nat);
    let mut i: u128 = 0;
    while i < length_w
        invariant
            i <= length_w,
            length_w == length,
            cells == bar(length as nat, filled as nat),
            out@ == old(out)@ + cells.subrange(0, i as int),
        decreases length_w - i,
    {
        if i < filled {
            out.push(35u8);
        } else {
            out.push(45u8);
        }
        i = i + 1;
        proof {
            assert(out@ =~= old(out)@ + cells.subrange(0, i as int));
        }
    }
    proof {
        assert(cells.subrange(0, length as int) =~= cells);
    }
}

fn push_percent(out: &mut Vec<u8>, count: usize, total: usize)
    ensures
        final(out)@ == old(out)@ + percent_field(count as nat, total as nat),
{
    proof {
        reveal_with_fuel(pow10, 2);
    }
    let total_w = total as u128;
    let mut digits: Vec<u8> = Vec::new();
    let percent_num = count as u128 * 100;
    proof {
        if total_w > 0 {
            lemma_quotient_fits(percent_num, total_w, 10, 0x64_0000_0000_0000_0000int, 1);
        }
    }
    push_quotient(&mut digits, percent_num, total_w, 1, 10);
    let ghost shown = quotient_text(count as nat * 100, total as nat, 1);
    assert(digits@ =~= shown);
    let mut pad: usize = 0;
    while pad < 5 && digits.len() < 5 - pad
        invariant
            pad <= 5,
            pad == 0 || digits@.len() + pad <= 5,
            out@ == old(out)@ + Seq::new(pad as nat, |j: int| 32u8),
        decreases 5 - pad,
    {
        out.push(32u8);
        pad = pad + 1;
        proof {
            assert(out@ =~= old(out)@ + Seq::new(pad as nat, |j: int| 32u8));
        }
    }
    push_bytes(out, digits.as_slice());
    proof {
        assert(out@ =~= old(out)@ + percent_field(count as nat, total as nat));
    }
}

fn push_timing(out: &mut Vec<u8>, count: usize, total: usize, elapsed_nanos: u64)
    ensures
        final(out)@ == old(out)@ + timing_text(count as nat, total as nat, elapsed_nanos as nat),
{
    proof {
        reveal_with_fuel(pow10, 3);
    }
    let count_w = count as u128;
    let total_w = total as u128;
    let nanos_w = elapsed_nanos as u128;
    let second = NANOS_PER_SEC as u128;
    proof {
        lemma_quotient_fits(nanos_w, second, 10, 0x1_0000_0000_0000_0000, 1);
    }
    push_quotient(out, nanos_w, second, 1, 10);
    push_text(out, "s, left: ");
    let left_items: u128 = if count_w <= total_w {
        total_w - count_w
    } else {
        0
    };
    proof {
        assert(left_items * nanos_w <= u128::MAX) by (nonlinear_arith)
            requires
                left_items < 0x1_0000_0000_0000_0000,
                nanos_w < 0x1_0000_0000_0000_0000,
        ;
    }
    let left_num = left_items * nanos_w;
    let count_nanos = count_w * second;
    proof {
        if count_w > 0 {
            lemma_quotient_fits(left_num, count_nanos, 10, u128::MAX as int, second as int);
        }
    }
    push_quotient(out, left_num, count_nanos, 1, 10);
    push_text(out, "s, ");
    proof {
        if nanos_w > 0 {
            lemma_quotient_fits(count_nanos, nanos_w, 100, 1_000_000_000 * 0x1_0000_0000_0000_0000int, 1);
        }
    }
    push_quotient(out, count_nanos, nanos_w, 2, 100);
    proof {
        assert(out@ =~= old(out)@ + timing_text(count as nat, total as nat, elapsed_nanos as nat));
    }
}

/// Appends to `out` the frame for `count` of `total` items after
/// `elapsed_nanos` nanoseconds, with a bar of `length` cells.
pub fn render_meter(length: u8, count: usize, total: usize, elapsed_nanos: u64, out: &mut Vec<u8>)
    ensures
        final(out)@ == old(out)@ + meter_text(length as nat, count as nat, total as nat, elapsed_nanos as nat),
{
    push_text(out, "\r[");
    push_bar(out, length, count, total);
    push_text(out, "]  ");
    push_percent(out, count, total);
    push_text(out, "%  ");
    push_decimal(out, count as u128);
    push_text(out, "/");
    push_decimal(out, total as u128);
    push_text(out, "  [elapsed: ");
    push_timing(out, count, total, elapsed_nanos);
    push_text(out, " iter/s]");
    proof {
        assert(out@ =~= old(out)@ + meter_text(length as nat, count as nat, total as nat, elapsed_nanos as nat));
    }
}

} // verus!
