//! Decimal widths and decimal text of natural numbers.

use vstd::prelude::*;

verus! {

/// Ten to the power `e`.
pub open spec fn pow10(e: nat) -> nat
    decreases e,
{
    if e == 0 {
        1
    } else {
        10 * pow10((e - 1) as nat)
    }
}

/// Number of decimal digits of `n`, where zero has no digits at all.
pub open spec fn digit_width(n: nat) -> nat
    decreases n,
{
    if n == 0 {
        0
    } else {
        1 + digit_width(n / 10)
    }
}

/// Powers of ten are never zero.
pub proof fn lemma_pow10_positive(e: nat)
    ensures
        pow10(e) >= 1,
    decreases e,
{
    if e > 0 {
        lemma_pow10_positive((e - 1) as nat);
    }
}

/// Exponents add when powers of ten are multiplied.
pub proof fn lemma_pow10_adds(a: nat, b: nat)
    ensures
        pow10(a + b) == pow10(a) * pow10(b),
    decreases a,
{
    if a == 0 {
        assert(pow10(a) * pow10(b) == pow10(b)) by (nonlinear_arith)
            requires
                pow10(a) == 1,
        ;
    } else {
        lemma_pow10_adds((a - 1) as nat, b);
        let p = pow10((a - 1) as nat);
        let q = pow10(b);
        assert(pow10(a + b) == 10 * pow10((a - 1 + b) as nat));
        assert((10 * p) * q == 10 * (p * q)) by (nonlinear_arith);
    }
}

/// A larger exponent never gives a smaller power of ten.
pub proof fn lemma_pow10_increases(a: nat, b: nat)
    requires
        a <= b,
    ensures
        pow10(a) <= pow10(b),
    decreases b,
{
    if a < b {
        lemma_pow10_increases(a, (b - 1) as nat);
    }
}

/// A positive number lies between the two powers of ten that its width
/// names, and every number lies below the upper one.
pub proof fn lemma_digit_width_bounds(n: nat)
    ensures
        n < pow10(digit_width(n)),
        n > 0 ==> pow10((digit_width(n) - 1) as nat) <= n,
    decreases n,
{
    if n > 0 {
        lemma_digit_width_bounds(n / 10);
    }
}

/// The width is the only exponent whose two neighbouring powers of ten
/// enclose a positive number.
pub proof fn lemma_digit_width_unique(n: nat, w: nat)
    requires
        w > 0,
        pow10((w - 1) as nat) <= n < pow10(w),
    ensures
        digit_width(n) == w,
{
    lemma_pow10_positive((w - 1) as nat);
    lemma_digit_width_bounds(n);
    let d = digit_width(n);
    if d < w {
        lemma_pow10_increases(d, (w - 1) as nat);
    } else if d > w {
        lemma_pow10_increases(w, (d - 1) as nat);
    }
}

/// A number has at most as many digits as its value.
pub proof fn lemma_digit_width_small(n: nat)
    ensures
        digit_width(n) <= n,
    decreases n,
{
    if n > 0 {
        lemma_digit_width_small(n / 10);
    }
}

/// Counts the decimal digits of `target`; zero has none.
pub fn count_digits(target: usize) -> (digits: usize)
    ensures
        digits == digit_width(target as nat),
        target == 0 ==> digits == 0,
        target > 0 ==> pow10((digits - 1) as nat) <= target < pow10(digits as nat),
{
    let mut rest: usize = target;
    let mut digits: usize = 0;
    proof {
        lemma_digit_width_small(target as nat);
    }
    while rest > 0
        invariant
            digits + digit_width(rest as nat) == digit_width(target as nat),
            digit_width(target as nat) <= usize::MAX,
        decreases rest,
    {
        rest = rest / 10;
        digits = digits + 1;
    }
    proof {
        lemma_digit_width_bounds(target as nat);
    }
    digits
}

/// The character that stands for a single decimal digit.
pub open spec fn digit_char(d: nat) -> char {
    if d == 0 {
        '0'
    } else if d == 1 {
        '1'
    } else if d == 2 {
        '2'
    } else if d == 3 {
        '3'
    } else if d == 4 {
        '4'
    } else if d == 5 {
        '5'
    } else if d == 6 {
        '6'
    } else if d == 7 {
        '7'
    } else if d == 8 {
        '8'
    } else {
        '9'
    }
}

/// The decimal text of `n`, without leading zeros; zero is written `0`.
pub open spec fn decimal_text(n: nat) -> Seq<char>
    decreases n,
{
    if n < 10 {
        seq![digit_char(n)]
    } else {
        decimal_text(n / 10).push(digit_char(n % 10))
    }
}

/// The text of a single decimal digit.
fn digit_text(d: usize) -> (text: &'static str)
    requires
        d < 10,
    ensures
        text@ == seq![digit_char(d as nat)],
{
    proof {
        reveal_strlit("0");
        reveal_strlit("1");
        reveal_strlit("2");
        reveal_strlit("3");
        reveal_strlit("4");
        reveal_strlit("5");
        reveal_strlit("6");
        reveal_strlit("7");
        reveal_strlit("8");
        reveal_strlit("9");
    }
    let text = if d == 0 {
        "0"
    } else if d == 1 {
        "1"
    } else if d == 2 {
        "2"
    } else if d == 3 {
        "3"
    } else if d == 4 {
        "4"
    } else if d == 5 {
        "5"
    } else if d == 6 {
        "6"
    } else if d == 7 {
        "7"
    } else if d == 8 {
        "8"
    } else {
        "9"
    };
    assert(text@ =~= seq![digit_char(d as nat)]);
    text
}

/// Appends the decimal text of `n` to `out`.
pub fn push_decimal(out: &mut String, n: usize)
    ensures
        final(out)@ == old(out)@ + decimal_text(n as nat),
    decreases n,
{
    if n >= 10 {
        push_decimal(out, n / 10);
    }
    out.append(digit_text(n % 10));
    proof {
        let before = old(out)@;
        if n >= 10 {
            assert(before + decimal_text(n as nat / 10).push(digit_char(n as nat % 10)) =~= (before
                + decimal_text(n as nat / 10)) + seq![digit_char(n as nat % 10)]);
        }
    }
}

/// The decimal text of `n` as a string.
pub fn decimal_string(n: usize) -> (text: String)
    ensures
        text@ == decimal_text(n as nat),
{
    let mut text = String::new();
    push_decimal(&mut text, n);
    assert(Seq::<char>::empty() + decimal_text(n as nat) =~= decimal_text(n as nat));
    text
}

} // verus!
