//! The surface table: one row per surface, one block per character.

use vstd::prelude::*;
use crate::ast::{character_views, group_views, pose_views, Character, CharacterView, Root, RootView};
use crate::digits::{decimal_text, push_decimal};
use crate::encoding::{combine_number, combine_value, lemma_combine_injective};
use crate::offset::{
    final_id, generate_surface_offset, lemma_final_ids_disjoint, lemma_full_selection_is_largest,
    max_code, surface_offset,
};
use crate::selection::{
    combination_count, enumeration, generate_surfaces, lemma_nth_is_selection, lemma_rank_of_nth,
    nth_selection, pose_counts, selection_vector, selection_vectors, Selection, SurfacePart,
};

verus! {

/// One row of the table: a surface number and the label of the surface.
pub struct SurfaceEntry {
    pub id: nat,
    pub label: Seq<char>,
}

/// The name of pose `number`, counted from one, in the group at `position`;
/// nothing where the character has no such group or the group no such pose.
pub open spec fn lookup_pose(character: CharacterView, position: int, number: nat) -> Option<
    Seq<char>,
> {
    if 0 <= position < character.parts.len() && 1 <= number
        <= character.parts[position].details.len() {
        Some(character.parts[position].details[number - 1].name)
    } else {
        None
    }
}

/// The names of the selected poses in group order, each followed by the
/// separator. A selection without a pose behind it adds nothing.
pub open spec fn label_trail(character: CharacterView, v: Seq<Selection>, separator: Seq<char>) -> Seq<
    char,
>
    decreases v.len(),
{
    if v.len() == 0 {
        Seq::empty()
    } else {
        let before = label_trail(character, v.drop_last(), separator);
        match lookup_pose(character, v.len() - 1, v.last().number) {
            Some(name) => before + name + separator,
            None => before,
        }
    }
}

/// Whether `text` ends with `suffix`.
pub open spec fn ends_with(text: Seq<char>, suffix: Seq<char>) -> bool {
    suffix.len() <= text.len() && text.subrange(text.len() - suffix.len(), text.len() as int)
        == suffix
}

/// `text` without one occurrence of `suffix` at its end, or `text` itself
/// where it does not end with `suffix`.
pub open spec fn strip_suffix_once(text: Seq<char>, suffix: Seq<char>) -> Seq<char> {
    if ends_with(text, suffix) {
        text.subrange(0, text.len() - suffix.len())
    } else {
        text
    }
}

/// The label of a selection vector: the names of the selected poses, each
/// followed by the separator, without the separator at the very end.
pub open spec fn label_text(character: CharacterView, v: Seq<Selection>, separator: Seq<char>) -> Seq<
    char,
> {
    strip_suffix_once(label_trail(character, v, separator), separator)
}

/// Whether `list` holds `id`.
pub open spec fn names(list: Seq<usize>, id: nat) -> bool {
    exists|k: int| 0 <= k < list.len() && (#[trigger] list[k]) == id
}

/// Whether a surface number may appear in the table: always where no
/// whitelist is given, else only where the whitelist names it.
pub open spec fn admitted(whitelist: Option<Seq<usize>>, id: nat) -> bool {
    match whitelist {
        Some(list) => names(list, id),
        None => true,
    }
}

/// What a borrowed whitelist is to the contracts.
pub open spec fn whitelist_view(whitelist: Option<&Vec<usize>>) -> Option<Seq<usize>> {
    match whitelist {
        Some(list) => Some(list@),
        None => None,
    }
}

/// The row that the selection vector at position `rank` would give.
pub open spec fn entry_at(
    character: CharacterView,
    index: nat,
    offset: nat,
    separator: Seq<char>,
    rank: nat,
) -> SurfaceEntry {
    let v = nth_selection(pose_counts(character.parts), rank);
    SurfaceEntry {
        id: final_id(index, offset, combine_value(v)),
        label: label_text(character, v, separator),
    }
}

/// The rows of the first `upto` selection vectors: in enumeration order,
/// without those that the whitelist keeps out.
pub open spec fn entries_upto(
    character: CharacterView,
    index: nat,
    offset: nat,
    whitelist: Option<Seq<usize>>,
    separator: Seq<char>,
    upto: nat,
) -> Seq<SurfaceEntry>
    decreases upto,
{
    if upto == 0 {
        Seq::empty()
    } else {
        let before = entries_upto(character, index, offset, whitelist, separator, (upto - 1) as nat);
        let entry = entry_at(character, index, offset, separator, (upto - 1) as nat);
        if admitted(whitelist, entry.id) {
            before.push(entry)
        } else {
            before
        }
    }
}

/// The rows of a character.
pub open spec fn surface_entries(
    character: CharacterView,
    index: nat,
    offset: nat,
    whitelist: Option<Seq<usize>>,
    separator: Seq<char>,
) -> Seq<SurfaceEntry> {
    entries_upto(
        character,
        index,
        offset,
        whitelist,
        separator,
        combination_count(pose_counts(character.parts)),
    )
}

/// The text of one row.
pub open spec fn row_text(entry: SurfaceEntry) -> Seq<char> {
    decimal_text(entry.id) + ","@ + entry.label + "\n"@
}

/// The text of a list of rows.
pub open spec fn rows_text(entries: Seq<SurfaceEntry>) -> Seq<char>
    decreases entries.len(),
{
    if entries.len() == 0 {
        Seq::empty()
    } else {
        rows_text(entries.drop_last()) + row_text(entries.last())
    }
}

/// The block of a character: nothing where it has no row, else its rows
/// between the lines that open and close a block.
pub open spec fn block_text(
    character: CharacterView,
    index: nat,
    offset: nat,
    whitelist: Option<Seq<usize>>,
    separator: Seq<char>,
) -> Seq<char> {
    let entries = surface_entries(character, index, offset, whitelist, separator);
    if entries.len() == 0 {
        Seq::empty()
    } else {
        "\ngroup,\\"@ + decimal_text(index) + "\n{\nscope,"@ + decimal_text(index) + "\n"@
            + rows_text(entries) + "}\n"@
    }
}

/// The blocks of the first `upto` characters, one after the other.
pub open spec fn blocks_text(
    characters: Seq<CharacterView>,
    offset: nat,
    whitelist: Option<Seq<usize>>,
    separator: Seq<char>,
    upto: nat,
) -> Seq<char>
    decreases upto,
{
    if upto == 0 {
        Seq::empty()
    } else {
        blocks_text(characters, offset, whitelist, separator, (upto - 1) as nat) + block_text(
            characters[upto - 1],
            (upto - 1) as nat,
            offset,
            whitelist,
            separator,
        )
    }
}

/// The whole table: the two header lines, then the block of every character
/// in input order, all numbered with the offset that the characters share.
pub open spec fn table_text(root: RootView, whitelist: Option<Seq<usize>>, separator: Seq<char>) -> Seq<
    char,
> {
    "charset,UTF-8\nversion,1\n"@ + blocks_text(
        root.characters,
        surface_offset(root.characters),
        whitelist,
        separator,
        root.characters.len(),
    )
}

/// Whether every surface number of the character at position `index` stays
/// within the machine's range.
pub open spec fn block_fits(character: CharacterView, index: nat, offset: nat) -> bool {
    combination_count(pose_counts(character.parts)) > 0 ==> index * offset + max_code(
        pose_counts(character.parts),
    ) <= usize::MAX
}

/// Whether the offset and every surface number of the table stay within the
/// machine's range.
pub open spec fn table_fits(root: RootView) -> bool {
    &&& surface_offset(root.characters) <= usize::MAX
    &&& forall|i: int|
        0 <= i < root.characters.len() ==> block_fits(
            #[trigger] root.characters[i],
            i as nat,
            surface_offset(root.characters),
        )
}

/// Whether a list of rows holds a row with surface number `id`.
pub open spec fn has_row(entries: Seq<SurfaceEntry>, id: nat) -> bool {
    exists|k: int| 0 <= k < entries.len() && (#[trigger] entries[k]).id == id
}

/// The surface number of the selection vector at position `rank`.
pub open spec fn id_at(character: CharacterView, index: nat, offset: nat, rank: nat) -> nat {
    final_id(index, offset, combine_value(nth_selection(pose_counts(character.parts), rank)))
}

/// Whether one of the first `upto` selection vectors has surface number
/// `id`.
pub open spec fn produced_before(
    character: CharacterView,
    index: nat,
    offset: nat,
    upto: nat,
    id: nat,
) -> bool {
    exists|rank: nat| rank < upto && #[trigger] id_at(character, index, offset, rank) == id
}

/// Whether the enumeration of the character gives surface number `id`.
pub open spec fn produced(character: CharacterView, index: nat, offset: nat, id: nat) -> bool {
    produced_before(character, index, offset, combination_count(pose_counts(character.parts)), id)
}

/// The rows of the first `upto` selection vectors hold a surface number
/// exactly when one of these vectors gives it and the whitelist admits it.
pub proof fn lemma_entries_upto_exact(
    character: CharacterView,
    index: nat,
    offset: nat,
    whitelist: Option<Seq<usize>>,
    separator: Seq<char>,
    upto: nat,
    id: nat,
)
    ensures
        has_row(entries_upto(character, index, offset, whitelist, separator, upto), id) <==> (
        produced_before(character, index, offset, upto, id) && admitted(whitelist, id)),
    decreases upto,
{
    let entries = entries_upto(character, index, offset, whitelist, separator, upto);
    if upto > 0 {
        let fewer = (upto - 1) as nat;
        let before = entries_upto(character, index, offset, whitelist, separator, fewer);
        let entry = entry_at(character, index, offset, separator, fewer);
        lemma_entries_upto_exact(character, index, offset, whitelist, separator, fewer, id);
        assert(entry.id == id_at(character, index, offset, fewer));
        if has_row(entries, id) {
            let k = choose|k: int| 0 <= k < entries.len() && (#[trigger] entries[k]).id == id;
            if k < before.len() {
                assert(before[k].id == id);
                let rank = choose|rank: nat|
                    rank < fewer && #[trigger] id_at(character, index, offset, rank) == id;
                assert(rank < upto && id_at(character, index, offset, rank) == id);
            } else {
                assert(id_at(character, index, offset, fewer) == id);
            }
        }
        if produced_before(character, index, offset, upto, id) && admitted(whitelist, id) {
            let rank = choose|rank: nat|
                rank < upto && #[trigger] id_at(character, index, offset, rank) == id;
            if rank < fewer {
                assert(produced_before(character, index, offset, fewer, id));
                let k = choose|k: int| 0 <= k < before.len() && (#[trigger] before[k]).id == id;
                assert(entries[k].id == id);
            } else {
                assert(entries[before.len() as int].id == id);
            }
        }
    }
}

/// The whitelist filters exactly: the rows of a character hold a surface
/// number if and only if the enumeration of the character gives it and
/// either no whitelist was given or the whitelist names it.
pub proof fn lemma_rows_are_exact(
    character: CharacterView,
    index: nat,
    offset: nat,
    whitelist: Option<Seq<usize>>,
    separator: Seq<char>,
    id: nat,
)
    ensures
        has_row(surface_entries(character, index, offset, whitelist, separator), id) <==> (produced(
            character,
            index,
            offset,
            id,
        ) && (whitelist is None || names(whitelist->0, id))),
{
    lemma_entries_upto_exact(
        character,
        index,
        offset,
        whitelist,
        separator,
        combination_count(pose_counts(character.parts)),
        id,
    );
}

/// No surface number is given twice in a run: two selection vectors get
/// different numbers, be they of two characters or two vectors of one.
pub proof fn lemma_surface_numbers_distinct(
    characters: Seq<CharacterView>,
    first: int,
    first_rank: nat,
    second: int,
    second_rank: nat,
)
    requires
        0 <= first < characters.len(),
        0 <= second < characters.len(),
        first_rank < combination_count(pose_counts(characters[first].parts)),
        second_rank < combination_count(pose_counts(characters[second].parts)),
        first != second || first_rank != second_rank,
    ensures
        id_at(characters[first], first as nat, surface_offset(characters), first_rank) != id_at(
            characters[second],
            second as nat,
            surface_offset(characters),
            second_rank,
        ),
{
    let a = nth_selection(pose_counts(characters[first].parts), first_rank);
    let b = nth_selection(pose_counts(characters[second].parts), second_rank);
    lemma_nth_is_selection(pose_counts(characters[first].parts), first_rank);
    lemma_nth_is_selection(pose_counts(characters[second].parts), second_rank);
    if first != second {
        lemma_final_ids_disjoint(characters, first, second, a, b);
    } else {
        let counts = pose_counts(characters[first].parts);
        lemma_rank_of_nth(counts, first_rank);
        lemma_rank_of_nth(counts, second_rank);
        if combine_value(a) == combine_value(b) {
            lemma_combine_injective(counts, a, b);
        }
    }
}

/// Rendering is repeatable: two tables rendered from the same tree, the same
/// whitelist and the same separator are the same text.
pub proof fn lemma_table_is_repeatable(
    root: Root,
    whitelist: Option<&Vec<usize>>,
    separator: &str,
    first: String,
    second: String,
)
    requires
        first@ == table_text(root@, whitelist_view(whitelist), separator@),
        second@ == table_text(root@, whitelist_view(whitelist), separator@),
    ensures
        first@ == second@,
{
}

/// Resolves the label of a selection vector: the names of the selected
/// poses in group order, joined by the separator. A selection without a pose
/// behind it is left out.
pub fn surface_label(character: &Character, surface_number: &Vec<SurfacePart>, separator: &str) -> (label:
    String)
    ensures
        label@ == label_text(character@, selection_vector(surface_number@), separator@),
{
    let ghost v = selection_vector(surface_number@);
    let parts = character.parts();
    let mut label = String::new();
    let mut found = false;
    let mut position: usize = 0;
    proof {
        assert(v.subrange(0, 0) =~= Seq::<Selection>::empty());
    }
    while position < surface_number.len()
        invariant
            v == selection_vector(surface_number@),
            position <= surface_number.len(),
            group_views(parts@) == character@.parts,
            found ==> label_trail(character@, v.subrange(0, position as int), separator@) == label@
                + separator@,
            !found ==> label_trail(character@, v.subrange(0, position as int), separator@)
                == Seq::<char>::empty() && label@ == Seq::<char>::empty(),
        decreases surface_number.len() - position,
    {
        let part = surface_number[position];
        let ghost before = label@;
        let ghost trail = label_trail(character@, v.subrange(0, position as int), separator@);
        proof {
            assert(v.subrange(0, position + 1).drop_last() =~= v.subrange(0, position as int));
            assert(v.subrange(0, position + 1).last() == part@);
            if position < parts.len() {
                assert(group_views(parts@)[position as int] == parts@[position as int]@);
            }
        }
        if position < parts.len() && part.number >= 1 {
            let details = parts[position].details();
            if part.number <= details.len() {
                let name = details[part.number - 1].name();
                proof {
                    assert(pose_views(details@)[part.number - 1] == details@[part.number - 1]@);
                }
                if found {
                    label.append(separator);
                }
                label.append(name.as_str());
                proof {
                    if found {
                        assert((before + separator@) + name@ + separator@ =~= (before + separator@
                            + name@) + separator@);
                    } else {
                        assert(trail + name@ + separator@ =~= (before + name@) + separator@);
                        assert(before + name@ =~= name@);
                    }
                }
                found = true;
            }
        }
        position = position + 1;
    }
    proof {
        assert(v.subrange(0, position as int) =~= v);
        let whole = label_trail(character@, v, separator@);
        if found {
            assert(whole.subrange(whole.len() - separator@.len(), whole.len() as int)
                =~= separator@);
            assert(whole.subrange(0, whole.len() - separator@.len()) =~= label@);
        } else {
            assert(whole.subrange(0, 0) =~= whole);
        }
    }
    label
}

/// Whether `list` names `id`.
fn is_listed(list: &Vec<usize>, id: usize) -> (listed: bool)
    ensures
        listed == admitted(Some(list@), id as nat),
{
    let mut index: usize = 0;
    while index < list.len()
        invariant
            index <= list.len(),
            forall|k: int| 0 <= k < index ==> #[trigger] list@[k] != id,
        decreases list.len() - index,
    {
        if list[index] == id {
            assert(list@[index as int] == id as nat);
            return true;
        }
        index = index + 1;
    }
    false
}

/// Renders the block of one character: a row for every selection vector in
/// enumeration order whose surface number the whitelist admits, between the
/// lines that open and close the block. A character without such a row
/// gives the empty string.
pub fn build_surfacetable_by_character(
    character: &Character,
    character_index: usize,
    offset: usize,
    whitelist: Option<&Vec<usize>>,
    separator: &str,
) -> (contents: String)
    requires
        block_fits(character@, character_index as nat, offset as nat),
    ensures
        contents@ == block_text(
            character@,
            character_index as nat,
            offset as nat,
            whitelist_view(whitelist),
            separator@,
        ),
{
    let ghost counts = pose_counts(character@.parts);
    let ghost listing = whitelist_view(whitelist);
    let surfaces = generate_surfaces(character.parts().as_slice());
    let mut rows = String::new();
    let mut any_row = false;
    let mut rank: usize = 0;
    while rank < surfaces.len()
        invariant
            counts == pose_counts(character@.parts),
            listing == whitelist_view(whitelist),
            rank <= surfaces.len(),
            surfaces@.len() == combination_count(counts),
            selection_vectors(surfaces@) == enumeration(counts),
            block_fits(character@, character_index as nat, offset as nat),
            rows@ == rows_text(
                entries_upto(
                    character@,
                    character_index as nat,
                    offset as nat,
                    listing,
                    separator@,
                    rank as nat,
                ),
            ),
            any_row == (entries_upto(
                character@,
                character_index as nat,
                offset as nat,
                listing,
                separator@,
                rank as nat,
            ).len() > 0),
        decreases surfaces.len() - rank,
    {
        let surface_number = &surfaces[rank];
        let ghost v = nth_selection(counts, rank as nat);
        let ghost entry = entry_at(
            character@,
            character_index as nat,
            offset as nat,
            separator@,
            rank as nat,
        );
        let ghost before = entries_upto(
            character@,
            character_index as nat,
            offset as nat,
            listing,
            separator@,
            rank as nat,
        );
        proof {
            assert(selection_vectors(surfaces@)[rank as int] == enumeration(counts)[rank as int]);
            assert(selection_vector(surface_number@) == v);
            lemma_nth_is_selection(counts, rank as nat);
            lemma_full_selection_is_largest(counts, v);
            assert(0 <= character_index * offset) by (nonlinear_arith);
        }
        let surface_number_base = combine_number(surface_number);
        let surface_number_result = (character_index * offset) + surface_number_base;
        let listed = match whitelist {
            Some(list) => is_listed(list, surface_number_result),
            None => true,
        };
        if listed {
            let label = surface_label(character, surface_number, separator);
            let ghost earlier = rows@;
            push_decimal(&mut rows, surface_number_result);
            rows.append(",");
            rows.append(label.as_str());
            rows.append("\n");
            proof {
                assert(before.push(entry).drop_last() =~= before);
                assert(rows@ =~= earlier + row_text(entry));
            }
            any_row = true;
        }
        rank = rank + 1;
    }
    if !any_row {
        String::new()
    } else {
        let mut contents = String::new();
        contents.append("\ngroup,\\");
        push_decimal(&mut contents, character_index);
        contents.append("\n{\nscope,");
        push_decimal(&mut contents, character_index);
        contents.append("\n");
        contents.append(rows.as_str());
        contents.append("}\n");
        proof {
            assert(contents@ =~= block_text(
                character@,
                character_index as nat,
                offset as nat,
                listing,
                separator@,
            ));
        }
        contents
    }
}

/// Renders the whole table: the two header lines, then the block of every
/// character in input order. All characters share one offset, taken from
/// the largest number that any selection vector of any of them has.
pub fn build_surfacetable(root: &Root, whitelist: Option<&Vec<usize>>, separator: &str) -> (contents:
    String)
    requires
        table_fits(root@),
    ensures
        contents@ == table_text(root@, whitelist_view(whitelist), separator@),
{
    let characters = root.characters();
    let ghost views = root@.characters;
    let ghost listing = whitelist_view(whitelist);
    let offset_origin = generate_surface_offset(characters.as_slice());
    let mut contents = String::new();
    contents.append("charset,UTF-8\nversion,1\n");
    let mut index: usize = 0;
    while index < characters.len()
        invariant
            views == root@.characters,
            views == character_views(characters@),
            listing == whitelist_view(whitelist),
            index <= characters.len(),
            offset_origin == surface_offset(views),
            table_fits(root@),
            contents@ == "charset,UTF-8\nversion,1\n"@ + blocks_text(
                views,
                offset_origin as nat,
                listing,
                separator@,
                index as nat,
            ),
        decreases characters.len() - index,
    {
        proof {
            assert(views[index as int] == characters@[index as int]@);
        }
        let tables = build_surfacetable_by_character(
            &characters[index],
            index,
            offset_origin,
            whitelist,
            separator,
        );
        contents.append(tables.as_str());
        index = index + 1;
    }
    contents
}

} // verus!
