//! The number of a selection vector: its pose numbers written one after the
//! other, each in the decimal field of its group.

use vstd::prelude::*;
use vstd::arithmetic::div_mod::{lemma_div_denominator, lemma_fundamental_div_mod_converse};
use crate::digits::{
    digit_width, lemma_digit_width_bounds, lemma_pow10_adds, lemma_pow10_increases,
    lemma_pow10_positive, pow10,
};
use crate::selection::{is_selection, selection_vector, Selection, SurfacePart};

verus! {

/// The sum of the field widths of a selection vector.
pub open spec fn total_width(v: Seq<Selection>) -> nat
    decreases v.len(),
{
    if v.len() == 0 {
        0
    } else {
        v[0].digits + total_width(v.drop_first())
    }
}

/// The number of a selection vector: every pose number, shifted left by the
/// fields of all later groups, summed up.
pub open spec fn combine_value(v: Seq<Selection>) -> nat
    decreases v.len(),
{
    if v.len() == 0 {
        0
    } else {
        v[0].number * pow10(total_width(v.drop_first())) + combine_value(v.drop_first())
    }
}

/// The field width of each group, in group order.
pub open spec fn group_widths(counts: Seq<nat>) -> Seq<nat> {
    Seq::new(counts.len(), |j: int| digit_width(counts[j]))
}

/// The sum of a list of widths.
pub open spec fn width_sum(widths: Seq<nat>) -> nat
    decreases widths.len(),
{
    if widths.len() == 0 {
        0
    } else {
        width_sum(widths.drop_last()) + widths.last()
    }
}

/// The decimal field of group `j` in `code`: what is left of `code` after
/// the fields of all later groups are cut off at the right and everything
/// before the field of group `j` is cut off at the left.
pub open spec fn field_at(code: nat, widths: Seq<nat>, j: int) -> nat {
    ((code as int / pow10(width_sum(widths.subrange(j + 1, widths.len() as int))) as int) % (pow10(
        widths[j],
    ) as int)) as nat
}

/// The total width grows by the last field when a group is appended.
pub proof fn lemma_total_width_last(v: Seq<Selection>)
    requires
        v.len() > 0,
    ensures
        total_width(v) == total_width(v.drop_last()) + v.last().digits,
    decreases v.len(),
{
    if v.len() == 1 {
        assert(v.drop_first() =~= v.drop_last());
    } else {
        lemma_total_width_last(v.drop_first());
        assert(v.drop_first().drop_last() =~= v.drop_last().drop_first());
    }
}

/// Appending a group shifts the number left by the new field and puts the
/// new pose number into it.
pub proof fn lemma_combine_last(v: Seq<Selection>)
    requires
        v.len() > 0,
    ensures
        combine_value(v) == combine_value(v.drop_last()) * pow10(v.last().digits) + v.last().number,
    decreases v.len(),
{
    let rest = v.drop_first();
    let shift = pow10(v.last().digits) as int;
    if v.len() == 1 {
        assert(rest =~= v.drop_last());
        assert(v[0].number * 1 == v[0].number) by (nonlinear_arith);
        assert(0 * shift == 0) by (nonlinear_arith);
    } else {
        lemma_combine_last(rest);
        lemma_total_width_last(rest);
        assert(rest.drop_last() =~= v.drop_last().drop_first());
        let inner = rest.drop_last();
        let head = v[0].number as int;
        let inner_pow = pow10(total_width(inner)) as int;
        let inner_code = combine_value(inner) as int;
        lemma_pow10_adds(total_width(inner), v.last().digits);
        assert(pow10(total_width(rest)) == inner_pow * shift);
        assert(head * (inner_pow * shift) + (inner_code * shift + v.last().number) == (head
            * inner_pow + inner_code) * shift + v.last().number) by (nonlinear_arith);
    }
}

/// The number of a selection vector holds, in the field of every group, the
/// pose number chosen there.
pub proof fn lemma_field_recovers_selection(counts: Seq<nat>, v: Seq<Selection>, j: int)
    requires
        is_selection(counts, v),
        0 <= j < v.len(),
    ensures
        field_at(combine_value(v), group_widths(counts), j) == v[j].number,
    decreases v.len(),
{
    let n = v.len() as int;
    let widths = group_widths(counts);
    let front = counts.drop_last();
    let code = combine_value(v) as int;
    let rest_code = combine_value(v.drop_last()) as int;
    let last = v[n - 1];
    let shift = pow10(last.digits) as int;
    assert(v.last() == last);
    assert(last.digits == digit_width(counts[n - 1]));
    lemma_combine_last(v);
    lemma_digit_width_bounds(counts[n - 1]);
    lemma_fundamental_div_mod_converse(code, shift, rest_code, last.number as int);
    if j == n - 1 {
        assert(widths.subrange(j + 1, n) =~= Seq::<nat>::empty());
        assert(code / 1 == code);
    } else {
        assert(is_selection(front, v.drop_last()));
        lemma_field_recovers_selection(front, v.drop_last(), j);
        let tail = group_widths(front).subrange(j + 1, n - 1);
        assert(widths.subrange(j + 1, n).drop_last() =~= tail);
        assert(widths.subrange(j + 1, n).last() == last.digits);
        let tail_pow = pow10(width_sum(tail)) as int;
        lemma_pow10_adds(width_sum(tail), last.digits);
        lemma_pow10_positive(width_sum(tail));
        lemma_pow10_positive(last.digits);
        assert(pow10(width_sum(widths.subrange(j + 1, n))) == tail_pow * shift);
        lemma_div_denominator(code, shift, tail_pow);
        assert(shift * tail_pow == tail_pow * shift) by (nonlinear_arith);
        assert(code / (tail_pow * shift) == rest_code / tail_pow);
        assert(v.drop_last()[j] == v[j]);
        assert(group_widths(front)[j] == widths[j]);
    }
}

/// Two selection vectors of one character with the same number are the same
/// vector.
pub proof fn lemma_combine_injective(counts: Seq<nat>, a: Seq<Selection>, b: Seq<Selection>)
    requires
        is_selection(counts, a),
        is_selection(counts, b),
        combine_value(a) == combine_value(b),
    ensures
        a == b,
{
    assert forall|j: int| 0 <= j < a.len() implies a[j] == b[j] by {
        lemma_field_recovers_selection(counts, a, j);
        lemma_field_recovers_selection(counts, b, j);
    }
    assert(a =~= b);
}

/// The number of the groups from `from` on never exceeds the number of the
/// whole vector.
pub proof fn lemma_combine_suffix(v: Seq<Selection>, from: int)
    requires
        0 <= from <= v.len(),
    ensures
        combine_value(v.subrange(from, v.len() as int)) <= combine_value(v),
    decreases from,
{
    if from == 0 {
        assert(v.subrange(0, v.len() as int) =~= v);
    } else {
        lemma_combine_suffix(v, from - 1);
        let longer = v.subrange(from - 1, v.len() as int);
        assert(longer.drop_first() =~= v.subrange(from, v.len() as int));
    }
}

/// Multiplies `multiplier` by ten to the power `digits`, unless the result
/// leaves the machine's range.
pub(crate) fn shift_multiplier(multiplier: usize, digits: usize) -> (shifted: Option<usize>)
    requires
        multiplier >= 1,
    ensures
        match shifted {
            Some(m) => m == multiplier * pow10(digits as nat),
            None => multiplier * pow10(digits as nat) > usize::MAX,
        },
{
    let mut current: usize = multiplier;
    let mut done: usize = 0;
    proof {
        assert(multiplier * 1 == multiplier) by (nonlinear_arith);
    }
    while done < digits
        invariant
            done <= digits,
            multiplier >= 1,
            current == multiplier * pow10(done as nat),
        decreases digits - done,
    {
        match current.checked_mul(10) {
            Some(next) => {
                proof {
                    let p = pow10(done as nat) as int;
                    assert((multiplier * p) * 10 == multiplier * (10 * p)) by (nonlinear_arith);
                }
                current = next;
                done = done + 1;
            },
            None => {
                proof {
                    let p = pow10(done as nat) as int;
                    let q = pow10(digits as nat) as int;
                    lemma_pow10_increases((done + 1) as nat, digits as nat);
                    assert(multiplier * q >= (multiplier * p) * 10) by (nonlinear_arith)
                        requires
                            q >= 10 * p,
                            multiplier >= 1,
                            p >= 0,
                    ;
                }
                return None;
            },
        }
    }
    Some(current)
}

/// Computes the number of a selection vector, or reports that it leaves the
/// machine's range.
pub fn checked_combine_number(surface_number: &Vec<SurfacePart>) -> (combined: Option<usize>)
    ensures
        match combined {
            Some(c) => c == combine_value(selection_vector(surface_number@)),
            None => combine_value(selection_vector(surface_number@)) > usize::MAX,
        },
{
    let ghost v = selection_vector(surface_number@);
    let mut combined: usize = 0;
    let mut multiplier: Option<usize> = Some(1);
    let mut index: usize = surface_number.len();
    proof {
        assert(v.subrange(index as int, v.len() as int) =~= Seq::<Selection>::empty());
    }
    while index > 0
        invariant
            v == selection_vector(surface_number@),
            index <= surface_number.len(),
            combined == combine_value(v.subrange(index as int, v.len() as int)),
            match multiplier {
                Some(m) => m == pow10(total_width(v.subrange(index as int, v.len() as int))),
                None => pow10(total_width(v.subrange(index as int, v.len() as int))) > usize::MAX,
            },
        decreases index,
    {
        index = index - 1;
        let part = surface_number[index];
        let ghost longer = v.subrange(index as int, v.len() as int);
        let ghost shorter = v.subrange(index + 1, v.len() as int);
        proof {
            assert(longer.drop_first() =~= shorter);
            assert(longer[0] == part@);
            lemma_combine_suffix(v, index as int);
            lemma_pow10_positive(total_width(shorter));
        }
        if part.number != 0 {
            let ghost power = pow10(total_width(shorter)) as int;
            match multiplier {
                Some(m) => {
                    match part.number.checked_mul(m) {
                        Some(term) => {
                            match combined.checked_add(term) {
                                Some(sum) => {
                                    combined = sum;
                                },
                                None => {
                                    return None;
                                },
                            }
                        },
                        None => {
                            return None;
                        },
                    }
                },
                None => {
                    proof {
                        assert(part.number * power >= power) by (nonlinear_arith)
                            requires
                                part.number >= 1,
                                power >= 0,
                        ;
                    }
                    return None;
                },
            }
        } else {
            proof {
                let power = pow10(total_width(shorter)) as int;
                assert(0 * power == 0) by (nonlinear_arith);
            }
        }
        proof {
            lemma_pow10_adds(part.digits as nat, total_width(shorter));
        }
        multiplier =
        match multiplier {
            Some(m) => {
                proof {
                    let p = pow10(part.digits as nat) as int;
                    assert(m * p == p * m) by (nonlinear_arith);
                }
                shift_multiplier(m, part.digits)
            },
            None => {
                proof {
                    let p = pow10(part.digits as nat) as int;
                    let q = pow10(total_width(shorter)) as int;
                    lemma_pow10_positive(part.digits as nat);
                    assert(p * q >= q) by (nonlinear_arith)
                        requires
                            p >= 1,
                            q >= 0,
                    ;
                }
                None
            },
        };
    }
    proof {
        assert(v.subrange(0, v.len() as int) =~= v);
    }
    Some(combined)
}

/// Computes the number of a selection vector.
pub fn combine_number(surface_number: &Vec<SurfacePart>) -> (combined: usize)
    requires
        combine_value(selection_vector(surface_number@)) <= usize::MAX,
    ensures
        combined == combine_value(selection_vector(surface_number@)),
{
    checked_combine_number(surface_number).unwrap()
}

} // verus!
