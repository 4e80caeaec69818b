use vstd::prelude::*;
use crate::text::{decimal, digit, digit_char, push_char, push_decimal};

verus! {

/// `1024` raised to `i`.
pub open spec fn pow1024(i: nat) -> nat
    decreases i,
{
    if i == 0 {
        1
    } else {
        1024 * pow1024((i - 1) as nat)
    }
}

/// How many times `size` can be divided by 1024 while it stays at least 1024.
pub open spec fn unit_index(size: nat) -> nat
    decreases size,
{
    if size < 1024 {
        0
    } else {
        1 + unit_index(size / 1024)
    }
}

/// The name of the binary unit of scale `i`.
pub open spec fn unit_name(i: nat) -> Seq<char> {
    if i == 0 {
        seq!['B']
    } else {
        let p = if i == 1 { 'K' } else if i == 2 { 'M' } else if i == 3 { 'G' } else if i == 4 {
            'T'
        } else if i == 5 { 'P' } else if i == 6 { 'E' } else if i == 7 { 'Z' } else { 'Y' };
        seq![p, 'i', 'B']
    }
}

/// `n / d` rounded to the nearest integer, ties to the even one.
pub open spec fn round_div(n: nat, d: nat) -> nat
    recommends
        d > 0,
{
    let q = n / d;
    let r = n % d;
    if 2 * r > d || (2 * r == d && q % 2 == 1) {
        q + 1
    } else {
        q
    }
}

/// `size / 1024^unit_index(size)` in hundredths, rounded half to even.
pub open spec fn hundredths(size: nat) -> nat {
    round_div(size * 100, pow1024(unit_index(size)))
}

/// The human-readable rendering of a byte count: the scaled value with two
/// decimals, a space, and the unit (`"2.00 MiB"`).
pub open spec fn human_size(size: nat) -> Seq<char> {
    let h = hundredths(size);
    decimal(h / 100) + seq!['.', digit_char((h % 100) / 10), digit_char(h % 10), ' '] + unit_name(
        unit_index(size),
    )
}

proof fn lemma_pow_pos(i: nat)
    ensures
        pow1024(i) > 0,
    decreases i,
{
    if i > 0 {
        lemma_pow_pos((i - 1) as nat);
    }
}

fn push_unit(s: &mut String, i: usize)
    requires
        i <= 8,
    ensures
        final(s)@ == old(s)@ + unit_name(i as nat),
{
    if i > 0 {
        let p = if i == 1 { 'K' } else if i == 2 { 'M' } else if i == 3 { 'G' } else if i == 4 {
            'T'
        } else if i == 5 { 'P' } else if i == 6 { 'E' } else if i == 7 { 'Z' } else { 'Y' };
        push_char(s, p);
        push_char(s, 'i');
    }
    push_char(s, 'B');
    assert(final(s)@ =~= old(s)@ + unit_name(i as nat));
}

/// Renders a byte count in binary units with two decimals: the count is divided
/// by 1024 while it is at least 1024, and the quotient is rounded half to even
/// (`1048576` gives `"1.00 MiB"`, `1023` gives `"1023.00 B"`).
pub fn get_human_readable_size(size: u64) -> (r: String)
    ensures
        r@ == human_size(size as nat),
{
    let mut d: u64 = 1;
    let mut i: usize = 0;
    proof {
        lemma_pow_pos(0);
        lemma_unit_index_bound(size as nat);
    }
    while size / d >= 1024
        invariant
            d as nat == pow1024(i as nat),
            d > 0,
            d <= size || i == 0,
            unit_index(size as nat) == i + unit_index((size / d) as nat),
            unit_index(size as nat) <= 6,
        decreases size / d,
    {
        proof {
            vstd::arithmetic::div_mod::lemma_div_denominator(size as int, d as int, 1024);
            assert(d * 1024 <= size) by {
                vstd::arithmetic::div_mod::lemma_fundamental_div_mod(size as int, d as int);
                assert(d * (size / d) >= d * 1024) by (nonlinear_arith)
                    requires size / d >= 1024, d > 0;
            }
            assert(size as nat / d as nat / 1024 == size as nat / (d as nat * 1024));
            vstd::arithmetic::div_mod::lemma_div_is_ordered_by_denominator(size as int, d as int, (d * 1024) as int);
        }
        d = d * 1024;
        i = i + 1;
    }
    assert(unit_index(size as nat) == i);
    let n: u128 = (size as u128) * 100;
    let dd: u128 = d as u128;
    let q: u128 = n / dd;
    let rem: u128 = n % dd;
    let h: u128 = if 2 * rem > dd || (2 * rem == dd && q % 2 == 1) { q + 1 } else { q };
    assert(h == hundredths(size as nat));
    assert(q <= n) by {
        vstd::arithmetic::div_mod::lemma_div_is_ordered_by_denominator(n as int, 1, dd as int);
    }
    assert(h / 100 <= size) by {
        assert(h <= n + 1);
        assert(h / 100 <= size) by (nonlinear_arith)
            requires h <= 100 * size + 1;
    }
    let mut s = String::new();
    push_decimal(&mut s, (h / 100) as u64);
    push_char(&mut s, '.');
    push_char(&mut s, digit(((h % 100) / 10) as u64));
    push_char(&mut s, digit((h % 10) as u64));
    push_char(&mut s, ' ');
    push_unit(&mut s, i);
    assert(s@ =~= human_size(size as nat));
    s
}

proof fn lemma_unit_index_bound(size: nat)
    requires
        size < 0x1_0000_0000_0000_0000,
    ensures
        unit_index(size) <= 6,
{
    reveal_with_fuel(unit_index, 8);
}

} // verus!
