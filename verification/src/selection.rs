//! Selection vectors: one pose number per group, enumerated in odometer order.

use vstd::prelude::*;
use vstd::arithmetic::div_mod::{lemma_div_denominator, lemma_fundamental_div_mod_converse};
use crate::ast::{group_views, GroupData, GroupView};
use crate::digits::{count_digits, digit_width};

verus! {

/// The choice made in one group: the number of the chosen pose, counted from
/// one, and the width of the decimal field that the group occupies.
pub struct Selection {
    pub number: nat,
    pub digits: nat,
}

/// The choice made in one group, as the machine holds it.
#[derive(Debug, PartialEq, Eq, Structural, Clone, Copy)]
pub struct SurfacePart {
    pub number: usize,
    pub digits: usize,
}

impl View for SurfacePart {
    type V = Selection;

    open spec fn view(&self) -> Selection {
        Selection { number: self.number as nat, digits: self.digits as nat }
    }
}

/// The selection vector that a list of parts stands for.
pub open spec fn selection_vector(parts: Seq<SurfacePart>) -> Seq<Selection> {
    Seq::new(parts.len(), |j: int| parts[j]@)
}

/// The selection vectors that a list of part lists stands for.
pub open spec fn selection_vectors(all: Seq<Vec<SurfacePart>>) -> Seq<Seq<Selection>> {
    Seq::new(all.len(), |i: int| selection_vector(all[i]@))
}

/// The number of poses of each group, in group order.
pub open spec fn pose_counts(groups: Seq<GroupView>) -> Seq<nat> {
    Seq::new(groups.len(), |j: int| groups[j].details.len())
}

/// The product of all counts; one for no counts.
pub open spec fn product(counts: Seq<nat>) -> nat
    decreases counts.len(),
{
    if counts.len() == 0 {
        1
    } else {
        product(counts.drop_last()) * counts.last()
    }
}

/// How many selection vectors a character with these pose counts has: the
/// product of the counts, and none at all for a character without groups.
pub open spec fn combination_count(counts: Seq<nat>) -> nat {
    if counts.len() == 0 {
        0
    } else {
        product(counts)
    }
}

/// How many steps of the enumeration pass before group `j` moves on: the
/// product of the counts of all later groups.
pub open spec fn weight(counts: Seq<nat>, j: int) -> nat {
    product(counts.subrange(j + 1, counts.len() as int))
}

/// The pose number that group `j` shows at position `rank` of the
/// enumeration. The last group changes at every step, an earlier group only
/// when all later ones have run through their poses.
pub open spec fn selection_at(counts: Seq<nat>, rank: nat, j: int) -> nat {
    (1 + (rank as int / weight(counts, j) as int) % (counts[j] as int)) as nat
}

/// The selection vector at position `rank` of the enumeration.
pub open spec fn nth_selection(counts: Seq<nat>, rank: nat) -> Seq<Selection> {
    Seq::new(
        counts.len(),
        |j: int| Selection { number: selection_at(counts, rank, j), digits: digit_width(counts[j]) },
    )
}

/// All selection vectors of a character with these pose counts, in
/// enumeration order.
pub open spec fn enumeration(counts: Seq<nat>) -> Seq<Seq<Selection>> {
    Seq::new(combination_count(counts), |i: int| nth_selection(counts, i as nat))
}

/// Whether `v` picks one existing pose in every group and carries each
/// group's width.
pub open spec fn is_selection(counts: Seq<nat>, v: Seq<Selection>) -> bool {
    &&& v.len() == counts.len()
    &&& forall|j: int|
        0 <= j < v.len() ==> 1 <= (#[trigger] v[j]).number <= counts[j] && v[j].digits
            == digit_width(counts[j])
}

/// The position of a selection vector in the enumeration.
pub open spec fn rank_of(counts: Seq<nat>, v: Seq<Selection>) -> int
    decreases v.len(),
{
    if v.len() == 0 {
        0
    } else {
        rank_of(counts.drop_last(), v.drop_last()) * counts.last() + (v.last().number - 1)
    }
}

/// A product with a zero factor is zero.
pub proof fn lemma_product_zero(counts: Seq<nat>, j: int)
    requires
        0 <= j < counts.len(),
        counts[j] == 0,
    ensures
        product(counts) == 0,
    decreases counts.len(),
{
    if j < counts.len() - 1 {
        lemma_product_zero(counts.drop_last(), j);
    }
    assert(product(counts.drop_last()) * counts.last() == 0) by (nonlinear_arith)
        requires
            product(counts.drop_last()) == 0 || counts.last() == 0,
    ;
}

/// A product of positive factors is positive.
pub proof fn lemma_product_positive(counts: Seq<nat>)
    requires
        forall|j: int| 0 <= j < counts.len() ==> counts[j] > 0,
    ensures
        product(counts) > 0,
    decreases counts.len(),
{
    if counts.len() > 0 {
        lemma_product_positive(counts.drop_last());
        assert(product(counts.drop_last()) * counts.last() > 0) by (nonlinear_arith)
            requires
                product(counts.drop_last()) > 0,
                counts.last() > 0,
        ;
    }
}

/// The rank of a selection vector lies below the product of the counts.
pub proof fn lemma_rank_bounds(counts: Seq<nat>, v: Seq<Selection>)
    requires
        is_selection(counts, v),
    ensures
        0 <= rank_of(counts, v) < product(counts),
    decreases v.len(),
{
    if v.len() > 0 {
        let c = counts.last() as int;
        let r = rank_of(counts.drop_last(), v.drop_last());
        let p = product(counts.drop_last()) as int;
        assert(is_selection(counts.drop_last(), v.drop_last()));
        lemma_rank_bounds(counts.drop_last(), v.drop_last());
        assert(v[v.len() - 1].number >= 1);
        assert(0 <= r * c && r * c + c <= p * c) by (nonlinear_arith)
            requires
                0 <= r < p,
                c >= 1,
        ;
    }
}

/// The vector that picks the first pose everywhere opens the enumeration.
pub proof fn lemma_rank_of_first(counts: Seq<nat>, v: Seq<Selection>)
    requires
        v.len() == counts.len(),
        forall|j: int| 0 <= j < v.len() ==> (#[trigger] v[j]).number == 1,
    ensures
        rank_of(counts, v) == 0,
    decreases v.len(),
{
    if v.len() > 0 {
        lemma_rank_of_first(counts.drop_last(), v.drop_last());
        let c = counts.last() as int;
        assert(0 * c == 0) by (nonlinear_arith);
    }
}

/// The vector that picks the last pose everywhere closes the enumeration.
pub proof fn lemma_rank_of_last(counts: Seq<nat>, v: Seq<Selection>)
    requires
        v.len() == counts.len(),
        forall|j: int| 0 <= j < v.len() ==> (#[trigger] v[j]).number == counts[j],
        forall|j: int| 0 <= j < counts.len() ==> counts[j] > 0,
    ensures
        rank_of(counts, v) == product(counts) - 1,
    decreases v.len(),
{
    if v.len() > 0 {
        lemma_rank_of_last(counts.drop_last(), v.drop_last());
        let c = counts.last() as int;
        let p = product(counts.drop_last()) as int;
        assert((p - 1) * c + (c - 1) == p * c - 1) by (nonlinear_arith);
    }
}

/// One step of the odometer: group `j` moves to its next pose, every later
/// group falls back from its last pose to its first, and the earlier groups
/// stay. The rank grows by one.
pub proof fn lemma_rank_step(counts: Seq<nat>, v: Seq<Selection>, next: Seq<Selection>, j: int)
    requires
        v.len() == counts.len(),
        next.len() == counts.len(),
        0 <= j < counts.len(),
        forall|l: int| 0 <= l < j ==> v[l].number == next[l].number,
        next[j].number == v[j].number + 1,
        forall|l: int| j < l < counts.len() ==> v[l].number == counts[l] && next[l].number == 1,
    ensures
        rank_of(counts, next) == rank_of(counts, v) + 1,
    decreases v.len(),
{
    let c = counts.last() as int;
    if j == counts.len() - 1 {
        lemma_rank_same(counts.drop_last(), v.drop_last(), next.drop_last());
    } else {
        lemma_rank_step(counts.drop_last(), v.drop_last(), next.drop_last(), j);
        let r = rank_of(counts.drop_last(), v.drop_last());
        assert((r + 1) * c == r * c + c) by (nonlinear_arith);
    }
}

/// The rank depends on the pose numbers alone.
pub proof fn lemma_rank_same(counts: Seq<nat>, a: Seq<Selection>, b: Seq<Selection>)
    requires
        a.len() == b.len(),
        forall|l: int| 0 <= l < a.len() ==> a[l].number == b[l].number,
    ensures
        rank_of(counts, a) == rank_of(counts, b),
    decreases a.len(),
{
    if a.len() > 0 {
        lemma_rank_same(counts.drop_last(), a.drop_last(), b.drop_last());
    }
}

/// A selection vector shows in every group the pose number that the
/// enumeration assigns to its rank.
pub proof fn lemma_selection_at_rank(counts: Seq<nat>, v: Seq<Selection>, j: int)
    requires
        is_selection(counts, v),
        0 <= j < counts.len(),
    ensures
        v[j].number == selection_at(counts, rank_of(counts, v) as nat, j),
    decreases v.len(),
{
    let n = counts.len() as int;
    let c = counts.last() as int;
    let front = counts.drop_last();
    let r = rank_of(front, v.drop_last());
    let s = v.last().number - 1;
    let i = rank_of(counts, v);
    assert(is_selection(front, v.drop_last()));
    lemma_rank_bounds(front, v.drop_last());
    lemma_rank_bounds(counts, v);
    assert(i == r * c + s);
    lemma_fundamental_div_mod_converse(i, c, r, s);
    if j == n - 1 {
        assert(counts.subrange(j + 1, n) =~= Seq::<nat>::empty());
        assert(weight(counts, j) == 1);
        assert(i / 1 == i);
        assert(v[j] == v.last());
        assert(selection_at(counts, i as nat, j) == 1 + i % c);
    } else {
        lemma_selection_at_rank(front, v.drop_last(), j);
        assert(counts.subrange(j + 1, n).drop_last() =~= front.subrange(j + 1, n - 1));
        let tail = front.subrange(j + 1, n - 1);
        let w = weight(front, j) as int;
        assert(w == product(tail));
        assert(weight(counts, j) == w * c);
        assert forall|l: int| 0 <= l < tail.len() implies #[trigger] tail[l] > 0 by {
            assert(v[l + j + 1].number >= 1);
        }
        lemma_product_positive(tail);
        lemma_div_denominator(i, c, w);
        assert(c * w == w * c) by (nonlinear_arith);
        assert(i / (w * c) == r / w);
        assert(v.drop_last()[j] == v[j]);
        assert(front[j] == counts[j]);
        assert(selection_at(front, r as nat, j) == 1 + (r / w) % (counts[j] as int));
        assert(selection_at(counts, i as nat, j) == 1 + (i / (w * c)) % (counts[j] as int));
    }
}

/// A selection vector is the vector that the enumeration holds at its rank.
pub proof fn lemma_selection_is_nth(counts: Seq<nat>, v: Seq<Selection>)
    requires
        is_selection(counts, v),
    ensures
        v == nth_selection(counts, rank_of(counts, v) as nat),
{
    let r = rank_of(counts, v) as nat;
    assert forall|j: int| 0 <= j < v.len() implies v[j] == nth_selection(counts, r)[j] by {
        lemma_selection_at_rank(counts, v, j);
    }
    assert(v =~= nth_selection(counts, r));
}

/// Where a character has selection vectors at all, the enumeration holds
/// one at every position.
pub proof fn lemma_nth_is_selection(counts: Seq<nat>, rank: nat)
    requires
        combination_count(counts) > 0,
    ensures
        is_selection(counts, nth_selection(counts, rank)),
{
    let v = nth_selection(counts, rank);
    assert forall|j: int| 0 <= j < v.len() implies 1 <= (#[trigger] v[j]).number <= counts[j]
        && v[j].digits == digit_width(counts[j]) by {
        if counts[j] == 0 {
            lemma_product_zero(counts, j);
        }
        let q = rank as int / weight(counts, j) as int;
        let c = counts[j] as int;
        assert(0 <= q % c < c) by (nonlinear_arith)
            requires
                c > 0,
        ;
    }
}

/// The rank of the selection vector at a position of the enumeration is
/// that position.
pub proof fn lemma_rank_of_nth(counts: Seq<nat>, rank: nat)
    requires
        counts.len() > 0,
        rank < product(counts),
    ensures
        rank_of(counts, nth_selection(counts, rank)) == rank,
    decreases counts.len(),
{
    let n = counts.len() as int;
    let c = counts.last() as int;
    let front = counts.drop_last();
    let v = nth_selection(counts, rank);
    let r = rank as int;
    if c == 0 {
        lemma_product_zero(counts, n - 1);
    }
    assert(counts.subrange(n, n) =~= Seq::<nat>::empty());
    assert(weight(counts, n - 1) == 1);
    assert(r / 1 == r);
    assert(v.last().number == 1 + r % c);
    assert(r == c * (r / c) + r % c && 0 <= r % c < c) by (nonlinear_arith)
        requires
            c > 0,
    ;
    assert(c * (r / c) == (r / c) * c) by (nonlinear_arith);
    if n == 1 {
        assert(front =~= Seq::<nat>::empty());
        assert(product(front) == 1);
        assert(r / c == 0) by (nonlinear_arith)
            requires
                0 <= r < 1 * c,
                c > 0,
        ;
        assert(rank_of(front, v.drop_last()) == 0);
        assert(0 * c == 0) by (nonlinear_arith);
    } else {
        let p = product(front) as int;
        assert(0 <= r / c < p) by (nonlinear_arith)
            requires
                0 <= r < p * c,
                c > 0,
        ;
        lemma_rank_of_nth(front, (r / c) as nat);
        let shorter = nth_selection(front, (r / c) as nat);
        assert forall|j: int| 0 <= j < n - 1 implies v.drop_last()[j].number
            == shorter[j].number by {
            assert(counts.subrange(j + 1, n).drop_last() =~= front.subrange(j + 1, n - 1));
            let w = weight(front, j) as int;
            assert(weight(counts, j) == w * c);
            let tail = front.subrange(j + 1, n - 1);
            assert forall|l: int| 0 <= l < tail.len() implies #[trigger] tail[l] > 0 by {
                if counts[l + j + 1] == 0 {
                    lemma_product_zero(counts, l + j + 1);
                }
            }
            lemma_product_positive(tail);
            lemma_div_denominator(r, c, w);
            assert(c * w == w * c) by (nonlinear_arith);
            assert(front[j] == counts[j]);
        }
        lemma_rank_same(front, v.drop_last(), shorter);
    }
}

/// Whether `next` is `v` after one step of the odometer that moves group
/// `j`: the groups before `j` stay, group `j` takes its next pose, and every
/// group after `j` falls back from its last pose to its first.
pub open spec fn is_odometer_step(
    counts: Seq<nat>,
    v: Seq<Selection>,
    next: Seq<Selection>,
    j: int,
) -> bool {
    &&& v.len() == counts.len()
    &&& next.len() == counts.len()
    &&& 0 <= j < counts.len()
    &&& forall|l: int| 0 <= l < j ==> (#[trigger] next[l]).number == v[l].number
    &&& next[j].number == v[j].number + 1
    &&& forall|l: int| j < l < counts.len() ==> (#[trigger] next[l]).number == 1
    &&& forall|l: int| j < l < counts.len() ==> (#[trigger] v[l]).number == counts[l]
}

/// The enumeration runs like an odometer whose last wheel is the fastest: a
/// selection vector that is one odometer step after the vector at some
/// position is the vector at the next position.
pub proof fn lemma_enumeration_follows_odometer(
    counts: Seq<nat>,
    rank: nat,
    next: Seq<Selection>,
    j: int,
)
    requires
        rank < combination_count(counts),
        is_selection(counts, next),
        is_odometer_step(counts, nth_selection(counts, rank), next, j),
    ensures
        rank + 1 < combination_count(counts),
        nth_selection(counts, rank + 1) == next,
{
    let v = nth_selection(counts, rank);
    lemma_rank_of_nth(counts, rank);
    assert forall|l: int| 0 <= l < j implies v[l].number == next[l].number by {
        assert(next[l].number == v[l].number);
    }
    assert forall|l: int| j < l < counts.len() implies v[l].number == counts[l] && next[l].number
        == 1 by {
        assert(next[l].number == 1);
        assert(v[l].number == counts[l]);
    }
    lemma_rank_step(counts, v, next, j);
    lemma_rank_bounds(counts, next);
    lemma_selection_is_nth(counts, next);
}

/// The enumeration holds every selection vector of the character, and holds
/// it once: different positions hold different vectors.
pub proof fn lemma_enumeration_is_exact(counts: Seq<nat>, v: Seq<Selection>, first: nat, second: nat)
    requires
        first < combination_count(counts),
        second < combination_count(counts),
    ensures
        is_selection(counts, v) ==> rank_of(counts, v) < combination_count(counts) && enumeration(
            counts,
        )[rank_of(counts, v)] == v,
        first != second ==> enumeration(counts)[first as int] != enumeration(counts)[second as int],
{
    if is_selection(counts, v) {
        lemma_rank_bounds(counts, v);
        lemma_selection_is_nth(counts, v);
    }
    lemma_rank_of_nth(counts, first);
    lemma_rank_of_nth(counts, second);
}

/// The pose counts that a list of machine counts stands for.
pub open spec fn count_values(counts: Seq<usize>) -> Seq<nat> {
    Seq::new(counts.len(), |j: int| counts[j] as nat)
}

/// Moves the odometer one step: the last group takes its next pose; a group
/// that has run through its poses starts over and the group before it moves
/// instead. Returns the vector after the step and whether the odometer ran
/// over, which happens exactly on the last selection vector.
fn advance(current: Vec<SurfacePart>, parts_counts: &Vec<usize>) -> (next: (Vec<SurfacePart>, bool))
    requires
        is_selection(count_values(parts_counts@), selection_vector(current@)),
    ensures
        next.1 ==> rank_of(count_values(parts_counts@), selection_vector(current@)) == product(
            count_values(parts_counts@),
        ) - 1,
        !next.1 ==> is_selection(count_values(parts_counts@), selection_vector(next.0@)),
        !next.1 ==> rank_of(count_values(parts_counts@), selection_vector(next.0@)) == rank_of(
            count_values(parts_counts@),
            selection_vector(current@),
        ) + 1,
{
    let ghost counts = count_values(parts_counts@);
    let ghost before = selection_vector(current@);
    let mut temp = current;
    let mut j: usize = temp.len();
    let mut carry = true;
    while carry && j > 0
        invariant
            counts == count_values(parts_counts@),
            is_selection(counts, before),
            temp.len() == before.len(),
            j <= temp.len(),
            forall|l: int| 0 <= l < j ==> (#[trigger] temp@[l])@ == before[l],
            forall|l: int| j < l < temp.len() ==> (#[trigger] before[l]).number == counts[l],
            forall|l: int|
                j < l < temp.len() ==> (#[trigger] temp@[l])@.number == 1 && temp@[l]@.digits
                    == before[l].digits,
            carry && j < temp.len() ==> before[j as int].number == counts[j as int]
                && temp@[j as int]@.number == 1 && temp@[j as int]@.digits == before[j as int].digits,
            !carry ==> j < temp.len() && temp@[j as int]@.number == before[j as int].number + 1
                && temp@[j as int]@.number <= counts[j as int] && temp@[j as int]@.digits
                == before[j as int].digits,
        decreases j,
    {
        j = j - 1;
        let part = temp[j];
        assert(part@ == before[j as int]);
        if part.number < parts_counts[j] {
            temp.set(j, SurfacePart { number: part.number + 1, digits: part.digits });
            carry = false;
        } else {
            assert(parts_counts@[j as int] as nat == counts[j as int]);
            temp.set(j, SurfacePart { number: 1, digits: part.digits });
        }
    }
    proof {
        let after = selection_vector(temp@);
        if carry {
            assert forall|l: int| 0 <= l < before.len() implies (#[trigger] before[l]).number
                == counts[l] by {
                assert(temp@[l]@.number == 1);
            }
            assert forall|l: int| 0 <= l < counts.len() implies counts[l] > 0 by {
                assert(before[l].number >= 1);
            }
            lemma_rank_of_last(counts, before);
        } else {
            assert forall|l: int| 0 <= l < after.len() implies 1 <= (#[trigger] after[l]).number
                <= counts[l] && after[l].digits == digit_width(counts[l]) by {
                assert(after[l] == temp@[l]@);
                assert(before[l].number >= 1);
            }
            assert forall|l: int| 0 <= l < j implies before[l].number == after[l].number by {
                assert(after[l] == temp@[l]@);
            }
            assert forall|l: int| j < l < counts.len() implies before[l].number == counts[l]
                && after[l].number == 1 by {
                assert(after[l] == temp@[l]@);
            }
            assert(after[j as int] == temp@[j as int]@);
            lemma_rank_step(counts, before, after, j as int);
        }
    }
    (temp, carry)
}

/// Enumerates every selection vector of a character with the given groups,
/// in odometer order: the last group changes at every step, an earlier group
/// only after all later ones have run through their poses. A character
/// without groups, or with a group without poses, has no selection vector.
pub fn generate_surfaces(parts: &[GroupData]) -> (surfaces: Vec<Vec<SurfacePart>>)
    ensures
        selection_vectors(surfaces@) == enumeration(pose_counts(group_views(parts@))),
        surfaces@.len() == combination_count(pose_counts(group_views(parts@))),
        parts@.len() > 0 ==> surfaces@.len() == product(pose_counts(group_views(parts@))),
        forall|j: int|
            0 <= j < parts@.len() && (#[trigger] parts@[j])@.details.len() == 0 ==> surfaces@.len()
                == 0,
{
    let ghost counts = pose_counts(group_views(parts@));
    proof {
        assert forall|j: int| 0 <= j < parts@.len() && (#[trigger] parts@[j])@.details.len()
            == 0 implies combination_count(counts) == 0 by {
            lemma_product_zero(counts, j);
        }
    }
    let mut parts_counts: Vec<usize> = Vec::new();
    let mut temp: Vec<SurfacePart> = Vec::new();
    let mut barren = parts.len() == 0;
    let mut index: usize = 0;
    while index < parts.len()
        invariant
            counts == pose_counts(group_views(parts@)),
            index <= parts.len(),
            parts_counts.len() == index,
            temp.len() == index,
            forall|j: int| 0 <= j < index ==> #[trigger] parts_counts@[j] == counts[j],
            forall|j: int|
                0 <= j < index ==> (#[trigger] temp@[j])@ == (Selection {
                    number: 1,
                    digits: digit_width(counts[j]),
                }),
            barren <==> parts@.len() == 0 || exists|j: int| 0 <= j < index && counts[j] == 0,
        decreases parts.len() - index,
    {
        let len = parts[index].details().len();
        assert(len == counts[index as int]);
        parts_counts.push(len);
        temp.push(SurfacePart { number: 1, digits: count_digits(len) });
        if len == 0 {
            barren = true;
        }
        index = index + 1;
    }
    let mut surface_numbers: Vec<Vec<SurfacePart>> = Vec::new();
    if barren {
        proof {
            if parts@.len() > 0 {
                let j = choose|j: int| 0 <= j < counts.len() && counts[j] == 0;
                lemma_product_zero(counts, j);
            }
            assert(selection_vectors(surface_numbers@) =~= enumeration(counts));
        }
        return surface_numbers;
    }
    proof {
        assert(count_values(parts_counts@) =~= counts);
        assert forall|j: int| 0 <= j < counts.len() implies counts[j] > 0 by {}
        lemma_product_positive(counts);
        lemma_rank_of_first(counts, selection_vector(temp@));
    }
    loop
        invariant_except_break
            is_selection(counts, selection_vector(temp@)),
            rank_of(counts, selection_vector(temp@)) == surface_numbers@.len(),
        invariant
            counts == pose_counts(group_views(parts@)),
            counts == count_values(parts_counts@),
            counts.len() > 0,
            surface_numbers@.len() <= product(counts),
            forall|i: int|
                0 <= i < surface_numbers@.len() ==> selection_vector(
                    (#[trigger] surface_numbers@[i])@,
                ) == nth_selection(counts, i as nat),
        ensures
            surface_numbers@.len() == product(counts),
        decreases product(counts) - surface_numbers@.len(),
    {
        proof {
            lemma_rank_bounds(counts, selection_vector(temp@));
            lemma_selection_is_nth(counts, selection_vector(temp@));
        }
        let snapshot = temp.clone();
        assert(snapshot@ =~= temp@);
        surface_numbers.push(snapshot);
        let (next, wrapped) = advance(temp, &parts_counts);
        temp = next;
        if wrapped {
            break;
        }
        proof {
            lemma_rank_bounds(counts, selection_vector(temp@));
        }
    }
    proof {
        assert(selection_vectors(surface_numbers@) =~= enumeration(counts));
    }
    surface_numbers
}

} // verus!
