//! Tests of whether a table stays within the machine's range of numbers.

use vstd::prelude::*;
use crate::ast::{character_views, group_views, Character, CharacterView, Root};
use crate::digits::{count_digits, digit_width, lemma_digit_width_bounds, pow10};
use crate::encoding::{checked_combine_number, lemma_combine_last, shift_multiplier};
use crate::offset::{
    full_selection, largest_code, lemma_largest_code_bounds, max_code, surface_offset,
};
use crate::selection::{
    combination_count, lemma_product_positive, lemma_product_zero, pose_counts, selection_vector,
    SurfacePart,
};
use crate::table::{block_fits, build_surfacetable, table_fits, table_text, whitelist_view};

verus! {

/// The largest number of a character with selection vectors is not zero.
pub proof fn lemma_max_code_positive(counts: Seq<nat>)
    requires
        combination_count(counts) > 0,
    ensures
        max_code(counts) > 0,
{
    let full = full_selection(counts);
    let last = counts.len() - 1;
    if counts[last] == 0 {
        lemma_product_zero(counts, last);
    }
    lemma_combine_last(full);
}

/// Computes the largest number among the selection vectors of a character,
/// zero where it has none, or reports that the number leaves the machine's
/// range.
pub fn checked_max_code(character: &Character) -> (code: Option<usize>)
    ensures
        match code {
            Some(c) => c == max_code(pose_counts(character@.parts)),
            None => max_code(pose_counts(character@.parts)) > usize::MAX,
        },
{
    let ghost counts = pose_counts(character@.parts);
    let parts = character.parts();
    if parts.len() == 0 {
        return Some(0);
    }
    let mut full: Vec<SurfacePart> = Vec::new();
    let mut index: usize = 0;
    while index < parts.len()
        invariant
            counts == pose_counts(character@.parts),
            group_views(parts@) == character@.parts,
            index <= parts.len(),
            full.len() == index,
            forall|j: int| 0 <= j < index ==> (#[trigger] full@[j])@ == full_selection(counts)[j],
            forall|j: int| 0 <= j < index ==> #[trigger] counts[j] > 0,
        decreases parts.len() - index,
    {
        let len = parts[index].details().len();
        proof {
            assert(group_views(parts@)[index as int] == parts@[index as int]@);
            assert(len == counts[index as int]);
        }
        if len == 0 {
            proof {
                lemma_product_zero(counts, index as int);
            }
            return Some(0);
        }
        full.push(SurfacePart { number: len, digits: count_digits(len) });
        index = index + 1;
    }
    proof {
        assert(selection_vector(full@) =~= full_selection(counts));
        lemma_product_positive(counts);
    }
    checked_combine_number(&full)
}

/// Computes the offset shared by all characters, or reports that it leaves
/// the machine's range.
pub fn checked_surface_offset(characters: &[Character]) -> (offset: Option<usize>)
    ensures
        match offset {
            Some(o) => o == surface_offset(character_views(characters@)),
            None => surface_offset(character_views(characters@)) > usize::MAX,
        },
{
    let ghost views = character_views(characters@);
    let mut max_in_all: usize = 0;
    let mut index: usize = 0;
    proof {
        assert(views.subrange(0, 0) =~= Seq::<CharacterView>::empty());
        lemma_digit_width_bounds(largest_code(views));
    }
    while index < characters.len()
        invariant
            views == character_views(characters@),
            index <= characters.len(),
            max_in_all == largest_code(views.subrange(0, index as int)),
            largest_code(views) < surface_offset(views),
        decreases characters.len() - index,
    {
        proof {
            assert(views.subrange(0, index + 1).drop_last() =~= views.subrange(0, index as int));
            assert(views.subrange(0, index + 1).last() == views[index as int]);
            lemma_largest_code_bounds(views, index as int);
        }
        match checked_max_code(&characters[index]) {
            Some(max) => {
                if max > max_in_all {
                    max_in_all = max;
                }
            },
            None => {
                return None;
            },
        }
        index = index + 1;
    }
    proof {
        assert(views.subrange(0, index as int) =~= views);
        assert(1 * pow10(digit_width(max_in_all as nat)) == pow10(
            digit_width(max_in_all as nat),
        )) by (nonlinear_arith);
    }
    shift_multiplier(1, count_digits(max_in_all))
}

/// Tells whether every surface number of the character at position `index`
/// stays within the machine's range when the blocks lie `offset` apart.
pub fn surface_block_fits(character: &Character, index: usize, offset: usize) -> (fits: bool)
    ensures
        fits == block_fits(character@, index as nat, offset as nat),
{
    let ghost counts = pose_counts(character@.parts);
    proof {
        if combination_count(counts) > 0 {
            lemma_max_code_positive(counts);
        }
    }
    match checked_max_code(character) {
        Some(code) => {
            if code == 0 {
                true
            } else {
                match index.checked_mul(offset) {
                    Some(base) => base.checked_add(code).is_some(),
                    None => {
                        proof {
                            assert(0 <= index * offset) by (nonlinear_arith);
                        }
                        false
                    },
                }
            }
        },
        None => false,
    }
}

/// Tells whether the offset and every surface number of the table stay
/// within the machine's range, which is what rendering the table asks for.
pub fn surfacetable_fits(root: &Root) -> (fits: bool)
    ensures
        fits == table_fits(root@),
{
    let characters = root.characters();
    let ghost views = root@.characters;
    let offset = match checked_surface_offset(characters.as_slice()) {
        Some(offset) => offset,
        None => {
            return false;
        },
    };
    let mut index: usize = 0;
    while index < characters.len()
        invariant
            views == root@.characters,
            views == character_views(characters@),
            index <= characters.len(),
            offset == surface_offset(views),
            forall|i: int|
                0 <= i < index ==> block_fits(#[trigger] views[i], i as nat, offset as nat),
        decreases characters.len() - index,
    {
        proof {
            assert(views[index as int] == characters@[index as int]@);
        }
        if !surface_block_fits(&characters[index], index, offset) {
            return false;
        }
        index = index + 1;
    }
    true
}

/// Renders the whole table where it stays within the machine's range of
/// numbers, and says so where it does not.
pub fn checked_build_surfacetable(
    root: &Root,
    whitelist: Option<&Vec<usize>>,
    separator: &str,
) -> (contents: Option<String>)
    ensures
        match contents {
            Some(text) => table_fits(root@) && text@ == table_text(
                root@,
                whitelist_view(whitelist),
                separator@,
            ),
            None => !table_fits(root@),
        },
{
    if surfacetable_fits(root) {
        Some(build_surfacetable(root, whitelist, separator))
    } else {
        None
    }
}

} // verus!
