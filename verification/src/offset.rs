//! The offset that keeps the surface numbers of different characters apart.

use vstd::prelude::*;
use crate::ast::{character_views, Character, CharacterView};
use crate::digits::{count_digits, digit_width, lemma_digit_width_bounds, lemma_pow10_increases, pow10};
use crate::encoding::{combine_number, combine_value, lemma_combine_last};
use crate::selection::{
    combination_count, enumeration, generate_surfaces, is_selection, lemma_rank_of_last,
    lemma_product_positive, lemma_product_zero, lemma_selection_is_nth, nth_selection, pose_counts,
    selection_vector, selection_vectors, Selection,
};

verus! {

/// The selection vector that picks the last pose of every group.
pub open spec fn full_selection(counts: Seq<nat>) -> Seq<Selection> {
    Seq::new(counts.len(), |j: int| Selection { number: counts[j], digits: digit_width(counts[j]) })
}

/// The largest number among the selection vectors of a character with these
/// pose counts; zero where it has none.
pub open spec fn max_code(counts: Seq<nat>) -> nat {
    if combination_count(counts) == 0 {
        0
    } else {
        combine_value(full_selection(counts))
    }
}

/// The largest number among the selection vectors of all characters; zero
/// where there is none.
pub open spec fn largest_code(characters: Seq<CharacterView>) -> nat
    decreases characters.len(),
{
    if characters.len() == 0 {
        0
    } else {
        let before = largest_code(characters.drop_last());
        let here = max_code(pose_counts(characters.last().parts));
        if here > before {
            here
        } else {
            before
        }
    }
}

/// The distance between the number blocks of two neighbouring characters:
/// the smallest power of ten above every number of every character.
pub open spec fn surface_offset(characters: Seq<CharacterView>) -> nat {
    pow10(digit_width(largest_code(characters)))
}

/// The surface number of a selection vector with number `code` in the
/// character at position `index`.
pub open spec fn final_id(index: nat, offset: nat, code: nat) -> nat {
    index * offset + code
}

/// No selection vector has a larger number than the one that picks the last
/// pose everywhere.
pub proof fn lemma_full_selection_is_largest(counts: Seq<nat>, v: Seq<Selection>)
    requires
        is_selection(counts, v),
    ensures
        combine_value(v) <= combine_value(full_selection(counts)),
        combine_value(v) <= max_code(counts),
    decreases v.len(),
{
    if v.len() > 0 {
        let full = full_selection(counts);
        assert(is_selection(counts.drop_last(), v.drop_last()));
        lemma_full_selection_is_largest(counts.drop_last(), v.drop_last());
        assert(full.drop_last() =~= full_selection(counts.drop_last()));
        lemma_combine_last(v);
        lemma_combine_last(full);
        let shift = pow10(v.last().digits) as int;
        let a = combine_value(v.drop_last()) as int;
        let b = combine_value(full.drop_last()) as int;
        assert(v.last() == v[v.len() - 1]);
        assert(full.last().digits == v.last().digits);
        assert(a * shift <= b * shift) by (nonlinear_arith)
            requires
                a <= b,
                shift >= 0,
        ;
        assert forall|j: int| 0 <= j < counts.len() implies counts[j] > 0 by {
            assert(v[j].number >= 1);
        }
        lemma_product_positive(counts);
    }
}

/// The selection vector that picks the last pose everywhere is the last one
/// of the enumeration.
pub proof fn lemma_full_selection_is_last(counts: Seq<nat>)
    requires
        combination_count(counts) > 0,
    ensures
        is_selection(counts, full_selection(counts)),
        nth_selection(counts, (combination_count(counts) - 1) as nat) == full_selection(counts),
{
    let full = full_selection(counts);
    assert forall|j: int| 0 <= j < counts.len() implies counts[j] > 0 by {
        if counts[j] == 0 {
            lemma_product_zero(counts, j);
        }
    }
    assert(is_selection(counts, full));
    lemma_rank_of_last(counts, full);
    lemma_selection_is_nth(counts, full);
}

/// The largest number of all characters is at least the largest number of
/// each of them.
pub proof fn lemma_largest_code_bounds(characters: Seq<CharacterView>, index: int)
    requires
        0 <= index < characters.len(),
    ensures
        max_code(pose_counts(characters[index].parts)) <= largest_code(characters),
    decreases characters.len(),
{
    if index < characters.len() - 1 {
        lemma_largest_code_bounds(characters.drop_last(), index);
    }
}

/// Every number of every character lies below the offset.
pub proof fn lemma_code_below_offset(
    characters: Seq<CharacterView>,
    index: int,
    v: Seq<Selection>,
)
    requires
        0 <= index < characters.len(),
        is_selection(pose_counts(characters[index].parts), v),
    ensures
        combine_value(v) < surface_offset(characters),
{
    lemma_full_selection_is_largest(pose_counts(characters[index].parts), v);
    lemma_largest_code_bounds(characters, index);
    lemma_digit_width_bounds(largest_code(characters));
}

/// Surface numbers of two different characters never meet: whatever is
/// selected in the one and in the other, the two numbers differ.
pub proof fn lemma_final_ids_disjoint(
    characters: Seq<CharacterView>,
    first: int,
    second: int,
    a: Seq<Selection>,
    b: Seq<Selection>,
)
    requires
        0 <= first < characters.len(),
        0 <= second < characters.len(),
        first != second,
        is_selection(pose_counts(characters[first].parts), a),
        is_selection(pose_counts(characters[second].parts), b),
    ensures
        final_id(first as nat, surface_offset(characters), combine_value(a)) != final_id(
            second as nat,
            surface_offset(characters),
            combine_value(b),
        ),
{
    let offset = surface_offset(characters) as int;
    let x = combine_value(a) as int;
    let y = combine_value(b) as int;
    lemma_code_below_offset(characters, first, a);
    lemma_code_below_offset(characters, second, b);
    assert(first * offset + x != second * offset + y) by (nonlinear_arith)
        requires
            first != second,
            0 <= x < offset,
            0 <= y < offset,
    ;
}

/// Computes the offset shared by all characters of a run: ten to the power
/// of the number of digits of the largest number that any selection vector
/// of any character has.
pub fn generate_surface_offset(characters: &[Character]) -> (offset: usize)
    requires
        surface_offset(character_views(characters@)) <= usize::MAX,
    ensures
        offset == surface_offset(character_views(characters@)),
{
    let ghost views = character_views(characters@);
    let mut max_in_all: usize = 0;
    let mut index: usize = 0;
    proof {
        assert(views.subrange(0, 0) =~= Seq::<CharacterView>::empty());
        lemma_digit_width_bounds(largest_code(views));
    }
    while index < characters.len()
        invariant
            views == character_views(characters@),
            index <= characters.len(),
            max_in_all == largest_code(views.subrange(0, index as int)),
            largest_code(views) <= usize::MAX,
        decreases characters.len() - index,
    {
        let parts = characters[index].parts();
        let ghost counts = pose_counts(views[index as int].parts);
        proof {
            assert(views.subrange(0, index + 1).drop_last() =~= views.subrange(0, index as int));
            assert(views.subrange(0, index + 1).last() == views[index as int]);
            lemma_largest_code_bounds(views, index as int);
        }
        let surfaces = generate_surfaces(parts.as_slice());
        if surfaces.len() > 0 {
            let last = &surfaces[surfaces.len() - 1];
            proof {
                lemma_full_selection_is_last(counts);
                assert(selection_vectors(surfaces@)[surfaces.len() - 1] == enumeration(
                    counts,
                )[surfaces.len() - 1]);
                assert(selection_vector(last@) == full_selection(counts));
            }
            let max = combine_number(last);
            if max > max_in_all {
                max_in_all = max;
            }
        }
        index = index + 1;
    }
    proof {
        assert(views.subrange(0, index as int) =~= views);
    }
    let digits = count_digits(max_in_all);
    let mut offset: usize = 1;
    let mut done: usize = 0;
    while done < digits
        invariant
            done <= digits,
            offset == pow10(done as nat),
            pow10(digits as nat) <= usize::MAX,
        decreases digits - done,
    {
        proof {
            lemma_pow10_increases((done + 1) as nat, digits as nat);
        }
        offset = offset * 10;
        done = done + 1;
    }
    offset
}

} // verus!
