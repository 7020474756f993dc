//! The total orders that sorted policy lists are kept in.

use vstd::prelude::*;

verus! {

/// How two values compare.
#[derive(Clone, Copy, Debug, PartialEq, Eq, Structural)]
pub enum Relation {
    Before,
    Same,
    After,
}

/// The relation read from the other side.
pub open spec fn opposite(relation: Relation) -> Relation {
    match relation {
        Relation::Before => Relation::After,
        Relation::Same => Relation::Same,
        Relation::After => Relation::Before,
    }
}

/// Byte strings in lexicographic order.
pub open spec fn text_order(left: Seq<u8>, right: Seq<u8>) -> Relation
    decreases left.len(),
{
    if left.len() == 0 {
        if right.len() == 0 {
            Relation::Same
        } else {
            Relation::Before
        }
    } else if right.len() == 0 {
        Relation::After
    } else if left[0] < right[0] {
        Relation::Before
    } else if left[0] > right[0] {
        Relation::After
    } else {
        text_order(left.drop_first(), right.drop_first())
    }
}

/// Path components sort by kind first: the root directory, then `.`, then
/// `..`, then names.
pub open spec fn component_rank(component: Seq<u8>) -> int {
    if component == seq![0x2fu8] {
        0
    } else if component == seq![0x2eu8] {
        1
    } else if component == seq![0x2eu8, 0x2eu8] {
        2
    } else {
        3
    }
}

/// How two path components compare.
pub open spec fn component_order(left: Seq<u8>, right: Seq<u8>) -> Relation {
    if component_rank(left) < component_rank(right) {
        Relation::Before
    } else if component_rank(left) > component_rank(right) {
        Relation::After
    } else {
        text_order(left, right)
    }
}

/// Component lists in lexicographic order.
pub open spec fn list_order(left: Seq<Seq<u8>>, right: Seq<Seq<u8>>) -> Relation
    decreases left.len(),
{
    if left.len() == 0 {
        if right.len() == 0 {
            Relation::Same
        } else {
            Relation::Before
        }
    } else if right.len() == 0 {
        Relation::After
    } else if component_order(left[0], right[0]) != Relation::Same {
        component_order(left[0], right[0])
    } else {
        list_order(left.drop_first(), right.drop_first())
    }
}

/// A list comes before what it is the start of.
pub proof fn lemma_start_is_not_after(start: Seq<Seq<u8>>, whole: Seq<Seq<u8>>)
    requires
        start.is_prefix_of(whole),
    ensures
        list_order(start, whole) != Relation::After,
    decreases start.len(),
{
    if start.len() > 0 {
        assert(start[0] == whole[0]);
        lemma_text_same(start[0], whole[0]);
        assert(start.drop_first() =~= whole.drop_first().take(start.len() - 1));
        lemma_start_is_not_after(start.drop_first(), whole.drop_first());
    }
}

/// Only equal byte strings compare as the same.
pub proof fn lemma_text_same(left: Seq<u8>, right: Seq<u8>)
    ensures
        text_order(left, right) == Relation::Same <==> left == right,
    decreases left.len(),
{
    if left.len() > 0 && right.len() > 0 && left[0] == right[0] {
        lemma_text_same(left.drop_first(), right.drop_first());
        assert(left == seq![left[0]] + left.drop_first());
        assert(right == seq![right[0]] + right.drop_first());
    }
    if left.len() == 0 && right.len() == 0 {
        assert(left =~= right);
    }
}

/// Comparing from the other side gives the opposite relation.
pub proof fn lemma_text_opposite(left: Seq<u8>, right: Seq<u8>)
    ensures
        text_order(right, left) == opposite(text_order(left, right)),
    decreases left.len(),
{
    if left.len() > 0 && right.len() > 0 && left[0] == right[0] {
        lemma_text_opposite(left.drop_first(), right.drop_first());
    }
}

/// The order of byte strings is transitive.
pub proof fn lemma_text_transitive(first: Seq<u8>, second: Seq<u8>, third: Seq<u8>)
    requires
        text_order(first, second) == Relation::Before,
        text_order(second, third) == Relation::Before,
    ensures
        text_order(first, third) == Relation::Before,
    decreases first.len(),
{
    if first.len() > 0 && second.len() > 0 && third.len() > 0 && first[0] == second[0] && second[0]
        == third[0] {
        lemma_text_transitive(first.drop_first(), second.drop_first(), third.drop_first());
    }
}

proof fn lemma_component_same(left: Seq<u8>, right: Seq<u8>)
    ensures
        component_order(left, right) == Relation::Same <==> left == right,
{
    lemma_text_same(left, right);
}

proof fn lemma_component_transitive(first: Seq<u8>, second: Seq<u8>, third: Seq<u8>)
    requires
        component_order(first, second) == Relation::Before,
        component_order(second, third) == Relation::Before,
    ensures
        component_order(first, third) == Relation::Before,
{
    if component_rank(first) == component_rank(second) && component_rank(second) == component_rank(
        third,
    ) {
        lemma_text_transitive(first, second, third);
    }
}

/// Only equal component lists compare as the same.
pub proof fn lemma_list_same(left: Seq<Seq<u8>>, right: Seq<Seq<u8>>)
    ensures
        list_order(left, right) == Relation::Same <==> left == right,
    decreases left.len(),
{
    if left.len() > 0 && right.len() > 0 {
        lemma_component_same(left[0], right[0]);
        if left[0] == right[0] {
            lemma_list_same(left.drop_first(), right.drop_first());
            assert(left == seq![left[0]] + left.drop_first());
            assert(right == seq![right[0]] + right.drop_first());
        }
    }
    if left.len() == 0 && right.len() == 0 {
        assert(left =~= right);
    }
}

/// Comparing component lists from the other side gives the opposite relation.
pub proof fn lemma_list_opposite(left: Seq<Seq<u8>>, right: Seq<Seq<u8>>)
    ensures
        list_order(right, left) == opposite(list_order(left, right)),
    decreases left.len(),
{
    if left.len() > 0 && right.len() > 0 {
        lemma_text_opposite(left[0], right[0]);
        lemma_component_same(left[0], right[0]);
        if left[0] == right[0] {
            lemma_list_opposite(left.drop_first(), right.drop_first());
        }
    }
}

/// The order of component lists is transitive.
pub proof fn lemma_list_transitive(
    first: Seq<Seq<u8>>,
    second: Seq<Seq<u8>>,
    third: Seq<Seq<u8>>,
)
    requires
        list_order(first, second) == Relation::Before,
        list_order(second, third) == Relation::Before,
    ensures
        list_order(first, third) == Relation::Before,
    decreases first.len(),
{
    if first.len() > 0 && second.len() > 0 && third.len() > 0 {
        lemma_component_same(first[0], second[0]);
        lemma_component_same(second[0], third[0]);
        lemma_component_same(first[0], third[0]);
        if first[0] == second[0] && second[0] == third[0] {
            lemma_list_transitive(first.drop_first(), second.drop_first(), third.drop_first());
        } else if first[0] != second[0] && second[0] != third[0] {
            lemma_component_transitive(first[0], second[0], third[0]);
        }
    }
}

/// Compares two byte strings.
pub fn text_relation(left: &[u8], right: &[u8]) -> (relation: Relation)
    ensures
        relation == text_order(left@, right@),
{
    let mut at: usize = 0;
    assert(left@.skip(0) =~= left@);
    assert(right@.skip(0) =~= right@);
    while at < left.len() && at < right.len()
        invariant
            at <= left.len(),
            at <= right.len(),
            text_order(left@, right@) == text_order(
                left@.skip(at as int),
                right@.skip(at as int),
            ),
        decreases left.len() - at,
    {
        if left[at] < right[at] {
            return Relation::Before;
        }
        if left[at] > right[at] {
            return Relation::After;
        }
        assert(left@.skip(at as int).drop_first() =~= left@.skip(at + 1));
        assert(right@.skip(at as int).drop_first() =~= right@.skip(at + 1));
        at += 1;
    }
    if at < left.len() {
        Relation::After
    } else if at < right.len() {
        Relation::Before
    } else {
        Relation::Same
    }
}

fn rank(component: &[u8]) -> (rank: u8)
    ensures
        rank == component_rank(component@),
{
    if component.len() == 1 && component[0] == 0x2f {
        assert(component@ =~= seq![0x2fu8]);
        0
    } else if component.len() == 1 && component[0] == 0x2e {
        assert(component@ =~= seq![0x2eu8]);
        assert(seq![0x2eu8][0] != seq![0x2fu8][0]);
        1
    } else if component.len() == 2 && component[0] == 0x2e && component[1] == 0x2e {
        assert(component@ =~= seq![0x2eu8, 0x2eu8]);
        2
    } else {
        assert(component@ != seq![0x2fu8]) by {
            assert(seq![0x2fu8][0] == 0x2f);
        }
        assert(component@ != seq![0x2eu8]) by {
            assert(seq![0x2eu8][0] == 0x2e);
        }
        assert(component@ != seq![0x2eu8, 0x2eu8]) by {
            assert(seq![0x2eu8, 0x2eu8][0] == 0x2e);
            assert(seq![0x2eu8, 0x2eu8][1] == 0x2e);
        }
        3
    }
}

/// Compares two component lists.
pub fn list_relation(left: &Vec<Vec<u8>>, right: &Vec<Vec<u8>>) -> (relation: Relation)
    ensures
        relation == list_order(crate::bytes::texts(left@), crate::bytes::texts(right@)),
{
    let mut at: usize = 0;
    let ghost all_left = crate::bytes::texts(left@);
    let ghost all_right = crate::bytes::texts(right@);
    assert(all_left.skip(0) =~= all_left);
    assert(all_right.skip(0) =~= all_right);
    while at < left.len() && at < right.len()
        invariant
            at <= left.len(),
            at <= right.len(),
            all_left == crate::bytes::texts(left@),
            all_right == crate::bytes::texts(right@),
            list_order(all_left, all_right) == list_order(
                all_left.skip(at as int),
                all_right.skip(at as int),
            ),
        decreases left.len() - at,
    {
        let left_rank = rank(left[at].as_slice());
        let right_rank = rank(right[at].as_slice());
        if left_rank < right_rank {
            return Relation::Before;
        }
        if left_rank > right_rank {
            return Relation::After;
        }
        match text_relation(left[at].as_slice(), right[at].as_slice()) {
            Relation::Before => {
                return Relation::Before;
            },
            Relation::After => {
                return Relation::After;
            },
            Relation::Same => {},
        }
        assert(all_left.skip(at as int).drop_first() =~= all_left.skip(at + 1));
        assert(all_right.skip(at as int).drop_first() =~= all_right.skip(at + 1));
        at += 1;
    }
    if at < left.len() {
        Relation::After
    } else if at < right.len() {
        Relation::Before
    } else {
        Relation::Same
    }
}

/// Texts compare by the first byte in which they differ, and a text comes before
/// what it is the start of.
pub proof fn law_texts_compare_by_their_first_difference(
    front: Seq<u8>,
    low: u8,
    high: u8,
    left: Seq<u8>,
    right: Seq<u8>,
)
    requires
        low < high,
    ensures
        text_order(front + seq![low] + left, front + seq![high] + right) == Relation::Before,
        text_order(front + seq![high] + right, front + seq![low] + left) == Relation::After,
        text_order(front, front + seq![high] + right) == Relation::Before,
        text_order(front + seq![high] + right, front) == Relation::After,
        text_order(front, front) == Relation::Same,
    decreases front.len(),
{
    let first = front + seq![low] + left;
    let second = front + seq![high] + right;
    if front.len() > 0 {
        let rest = front.drop_first();
        law_texts_compare_by_their_first_difference(rest, low, high, left, right);
        assert(first.drop_first() =~= rest + seq![low] + left);
        assert(second.drop_first() =~= rest + seq![high] + right);
        assert(first[0] == front[0] && second[0] == front[0]);
    } else {
        assert(first[0] == low && second[0] == high);
    }
}

/// Lists of components compare by the first component in which they differ, and
/// a list comes before what it is the start of. The root comes before `.`, that
/// before `..`, and that before every name.
pub proof fn law_lists_compare_by_their_first_difference(
    front: Seq<Seq<u8>>,
    low: Seq<u8>,
    high: Seq<u8>,
    left: Seq<Seq<u8>>,
    right: Seq<Seq<u8>>,
)
    ensures
        component_order(low, high) != Relation::Same ==> list_order(
            front + seq![low] + left,
            front + seq![high] + right,
        ) == component_order(low, high),
        list_order(front, front + seq![high] + right) == Relation::Before,
        list_order(front, front) == Relation::Same,
        component_order(seq![0x2fu8], seq![0x2eu8]) == Relation::Before,
        component_order(seq![0x2eu8], seq![0x2eu8, 0x2eu8]) == Relation::Before,
        low != seq![0x2fu8] && low != seq![0x2eu8] && low != seq![0x2eu8, 0x2eu8]
            ==> component_order(seq![0x2fu8], low) == Relation::Before && component_order(
            seq![0x2eu8, 0x2eu8],
            low,
        ) == Relation::Before && component_order(seq![0x2eu8], low) == Relation::Before,
        low != seq![0x2fu8] && low != seq![0x2eu8] && low != seq![0x2eu8, 0x2eu8] && high
            != seq![0x2fu8] && high != seq![0x2eu8] && high != seq![0x2eu8, 0x2eu8]
            ==> component_order(low, high) == text_order(low, high),
    decreases front.len(),
{
    let first = front + seq![low] + left;
    let second = front + seq![high] + right;
    assert(seq![0x2fu8][0] == 0x2fu8 && seq![0x2eu8][0] == 0x2eu8);
    assert(seq![0x2fu8].len() == 1 && seq![0x2eu8].len() == 1 && seq![0x2eu8, 0x2eu8].len() == 2);
    if front.len() > 0 {
        let rest = front.drop_first();
        law_lists_compare_by_their_first_difference(rest, low, high, left, right);
        assert(first.drop_first() =~= rest + seq![low] + left);
        assert(second.drop_first() =~= rest + seq![high] + right);
        assert(first[0] == front[0] && second[0] == front[0]);
        lemma_text_same(front[0], front[0]);
    } else {
        assert(first[0] == low && second[0] == high);
    }
}

} // verus!
