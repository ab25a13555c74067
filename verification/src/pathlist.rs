//! Colon-separated lists as sequences of elements: removing, dropping a
//! leading run, and the difference of two lists in terms of additions and
//! deletions.

use crate::text::{contains, copy_chars, lemma_texts_push, occurs_in, same_chars, texts};
use vstd::prelude::*;
use vstd::seq_lib::lemma_multiset_commutative;

verus! {

/// `items` without the first element equal to `elem`; `items` itself where
/// no element equals it.
pub open spec fn remove_first(items: Seq<Seq<char>>, elem: Seq<char>) -> Seq<Seq<char>>
    decreases items.len(),
{
    if items.len() == 0 {
        items
    } else if items[0] == elem {
        items.drop_first()
    } else {
        seq![items[0]] + remove_first(items.drop_first(), elem)
    }
}

/// `items` without its leading run of elements in which `part` occurs.
pub open spec fn drop_leading(items: Seq<Seq<char>>, part: Seq<char>) -> Seq<Seq<char>>
    decreases items.len(),
{
    if items.len() > 0 && occurs_in(part, items[0]) {
        drop_leading(items.drop_first(), part)
    } else {
        items
    }
}

/// The elements of `items` that do not occur in `other`, in their order and
/// as often as they occur.
pub open spec fn without(items: Seq<Seq<char>>, other: Seq<Seq<char>>) -> Seq<Seq<char>>
    decreases items.len(),
{
    if items.len() == 0 {
        items
    } else if other.contains(items[0]) {
        without(items.drop_first(), other)
    } else {
        seq![items[0]] + without(items.drop_first(), other)
    }
}

/// The elements of `items` that occur in `other`, in their order and as
/// often as they occur.
pub open spec fn common(items: Seq<Seq<char>>, other: Seq<Seq<char>>) -> Seq<Seq<char>>
    decreases items.len(),
{
    if items.len() == 0 {
        items
    } else if other.contains(items[0]) {
        seq![items[0]] + common(items.drop_first(), other)
    } else {
        common(items.drop_first(), other)
    }
}

/// What a change from `old` to `new` added: the elements of `new` that
/// `old` lacks.
pub open spec fn additions(old: Seq<Seq<char>>, new: Seq<Seq<char>>) -> Seq<Seq<char>> {
    without(new, old)
}

/// What a change from `old` to `new` deleted: the elements of `old` that
/// `new` lacks.
pub open spec fn deletions(old: Seq<Seq<char>>, new: Seq<Seq<char>>) -> Seq<Seq<char>> {
    without(old, new)
}

/// `items` after each of `gone` was removed from it in turn, at its first
/// occurrence.
pub open spec fn remove_each(items: Seq<Seq<char>>, gone: Seq<Seq<char>>) -> Seq<Seq<char>>
    decreases gone.len(),
{
    if gone.len() == 0 {
        items
    } else {
        remove_each(remove_first(items, gone[0]), gone.drop_first())
    }
}

/// `items` after each of `back` was put in front of it in turn.
pub open spec fn prepend_each(items: Seq<Seq<char>>, back: Seq<Seq<char>>) -> Seq<Seq<char>>
    decreases back.len(),
{
    if back.len() == 0 {
        items
    } else {
        prepend_each(seq![back[0]] + items, back.drop_first())
    }
}

/// Removing the first occurrence, by its position.
pub proof fn lemma_remove_first_at(items: Seq<Seq<char>>, elem: Seq<char>, k: int)
    requires
        0 <= k <= items.len(),
        forall|j: int| 0 <= j < k ==> items[j] != elem,
        k < items.len() ==> items[k] == elem,
    ensures
        remove_first(items, elem) == if k < items.len() {
            items.remove(k)
        } else {
            items
        },
    decreases items.len(),
{
    if items.len() == 0 {
    } else if k == 0 {
        assert(items.remove(0) =~= items.drop_first());
    } else {
        let rest = items.drop_first();
        assert forall|j: int| 0 <= j < k - 1 implies rest[j] != elem by {
            assert(rest[j] == items[j + 1]);
        }
        lemma_remove_first_at(rest, elem, k - 1);
        if k < items.len() {
            assert(seq![items[0]] + rest.remove(k - 1) =~= items.remove(k));
        } else {
            assert(seq![items[0]] + rest =~= items);
        }
    }
}

/// Dropping the leading run, by its length.
pub proof fn lemma_drop_leading_at(items: Seq<Seq<char>>, part: Seq<char>, k: int)
    requires
        0 <= k <= items.len(),
        forall|j: int| 0 <= j < k ==> occurs_in(part, #[trigger] items[j]),
        k < items.len() ==> !occurs_in(part, items[k]),
    ensures
        drop_leading(items, part) == items.skip(k),
    decreases items.len(),
{
    if k == 0 {
        assert(items.skip(0) =~= items);
    } else {
        let rest = items.drop_first();
        assert(occurs_in(part, items[0]));
        assert forall|j: int| 0 <= j < k - 1 implies occurs_in(part, #[trigger] rest[j]) by {
            assert(rest[j] == items[j + 1]);
        }
        lemma_drop_leading_at(rest, part, k - 1);
        assert(rest.skip(k - 1) =~= items.skip(k));
    }
}

/// No element of `without(items, other)` occurs in `other`.
pub proof fn lemma_without_avoids(items: Seq<Seq<char>>, other: Seq<Seq<char>>)
    ensures
        forall|i: int|
            0 <= i < without(items, other).len() ==> !other.contains(
                #[trigger] without(items, other)[i],
            ),
    decreases items.len(),
{
    if items.len() > 0 {
        lemma_without_avoids(items.drop_first(), other);
        let rest = without(items.drop_first(), other);
        assert forall|i: int| 0 <= i < without(items, other).len() implies !other.contains(
            #[trigger] without(items, other)[i],
        ) by {
            if other.contains(items[0]) {
            } else if i > 0 {
                assert(without(items, other)[i] == rest[i - 1]);
            }
        }
    }
}

/// An element that is not among those to remove stays in front.
pub proof fn lemma_remove_each_keeps_head(x: Seq<char>, rest: Seq<Seq<char>>, gone: Seq<Seq<char>>)
    requires
        forall|i: int| 0 <= i < gone.len() ==> #[trigger] gone[i] != x,
    ensures
        remove_each(seq![x] + rest, gone) == seq![x] + remove_each(rest, gone),
    decreases gone.len(),
{
    if gone.len() > 0 {
        let items = seq![x] + rest;
        assert(items[0] == x);
        assert(gone[0] != x);
        assert(items.drop_first() =~= rest);
        assert(remove_first(items, gone[0]) == seq![x] + remove_first(rest, gone[0]));
        assert forall|i: int| 0 <= i < gone.drop_first().len() implies #[trigger] gone.drop_first()[i]
            != x by {
            assert(gone.drop_first()[i] == gone[i + 1]);
        }
        lemma_remove_each_keeps_head(x, remove_first(rest, gone[0]), gone.drop_first());
    }
}

/// Undoing the additions: where each element that a change from `old` to
/// `new` added is removed from `new`, what is left are the elements of
/// `new` that `old` has, in their order.
pub proof fn law_additions_undone(old: Seq<Seq<char>>, new: Seq<Seq<char>>)
    ensures
        remove_each(new, additions(old, new)) == common(new, old),
    decreases new.len(),
{
    if new.len() > 0 {
        let rest = new.drop_first();
        law_additions_undone(old, rest);
        assert(new =~= seq![new[0]] + rest);
        if old.contains(new[0]) {
            lemma_without_avoids(rest, old);
            assert forall|i: int| 0 <= i < without(rest, old).len() implies #[trigger] without(
                rest,
                old,
            )[i] != new[0] by {}
            lemma_remove_each_keeps_head(new[0], rest, without(rest, old));
        } else {
            let added = without(new, old);
            assert(added[0] == new[0]);
            assert(added.drop_first() =~= without(rest, old));
            assert(remove_first(new, new[0]) == rest);
        }
    }
}

/// A list to which elements were added and from which none was taken
/// comes back as it was where the additions are undone.
pub proof fn law_additions_round_trip(old: Seq<Seq<char>>, new: Seq<Seq<char>>)
    requires
        common(new, old) == old,
    ensures
        remove_each(new, additions(old, new)) == old,
{
    law_additions_undone(old, new);
}

/// What a list holds after elements were put in front of it.
pub proof fn lemma_prepend_each_multiset(items: Seq<Seq<char>>, back: Seq<Seq<char>>)
    ensures
        prepend_each(items, back).to_multiset() == items.to_multiset().add(back.to_multiset()),
    decreases back.len(),
{
    if back.len() == 0 {
        assert(back.to_multiset() =~= vstd::multiset::Multiset::<Seq<char>>::empty()) by {
            back.to_multiset_ensures();
        }
        assert(items.to_multiset().add(back.to_multiset()) =~= items.to_multiset());
    } else {
        let next = seq![back[0]] + items;
        lemma_prepend_each_multiset(next, back.drop_first());
        lemma_multiset_commutative(seq![back[0]], items);
        lemma_multiset_commutative(seq![back[0]], back.drop_first());
        assert(back =~= seq![back[0]] + back.drop_first());
        assert(next.to_multiset().add(back.drop_first().to_multiset()) =~= items.to_multiset().add(
            back.to_multiset(),
        ));
    }
}

/// A list is made of the elements that another list has and of those that
/// it lacks.
pub proof fn lemma_common_and_without(items: Seq<Seq<char>>, other: Seq<Seq<char>>)
    ensures
        items.to_multiset() == common(items, other).to_multiset().add(
            without(items, other).to_multiset(),
        ),
    decreases items.len(),
{
    if items.len() == 0 {
        items.to_multiset_ensures();
        assert(items.to_multiset() =~= vstd::multiset::Multiset::<Seq<char>>::empty());
        assert(items.to_multiset() =~= items.to_multiset().add(items.to_multiset()));
    } else {
        let rest = items.drop_first();
        lemma_common_and_without(rest, other);
        assert(items =~= seq![items[0]] + rest);
        lemma_multiset_commutative(seq![items[0]], rest);
        if other.contains(items[0]) {
            lemma_multiset_commutative(seq![items[0]], common(rest, other));
            assert(items.to_multiset() =~= common(items, other).to_multiset().add(
                without(items, other).to_multiset(),
            ));
        } else {
            lemma_multiset_commutative(seq![items[0]], without(rest, other));
            assert(items.to_multiset() =~= common(items, other).to_multiset().add(
                without(items, other).to_multiset(),
            ));
        }
    }
}

/// Undoing a change of a list: where the additions are removed and the
/// deletions are put back in front, the list holds the elements that it
/// held before the change, each as often as before, though not in their
/// old order. This needs the elements that the old list and the new one
/// share to be as many in the one as in the other.
pub proof fn law_deletions_restored(old: Seq<Seq<char>>, new: Seq<Seq<char>>)
    requires
        common(new, old).to_multiset() == common(old, new).to_multiset(),
    ensures
        prepend_each(remove_each(new, additions(old, new)), deletions(old, new)).to_multiset()
            == old.to_multiset(),
{
    law_additions_undone(old, new);
    lemma_prepend_each_multiset(common(new, old), deletions(old, new));
    lemma_common_and_without(old, new);
}

/// Whether some element of `items` is `elem`.
pub fn has_element(items: &Vec<Vec<char>>, elem: &Vec<char>) -> (r: bool)
    ensures
        r == texts(items@).contains(elem@),
{
    let mut i: usize = 0;
    while i < items.len()
        invariant
            i <= items.len(),
            forall|j: int| 0 <= j < i ==> texts(items@)[j] != elem@,
        decreases items.len() - i,
    {
        if same_chars(&items[i], elem) {
            assert(texts(items@)[i as int] == elem@);
            return true;
        }
        i = i + 1;
    }
    false
}

/// Removes the first element equal to `elem`, and says whether there was one.
pub fn remove_element(items: &mut Vec<Vec<char>>, elem: &Vec<char>) -> (found: bool)
    ensures
        found == texts(old(items)@).contains(elem@),
        texts(final(items)@) == remove_first(texts(old(items)@), elem@),
{
    let ghost before = texts(items@);
    let mut i: usize = 0;
    while i < items.len()
        invariant
            i <= items.len(),
            items@ == old(items)@,
            before == texts(items@),
            forall|j: int| 0 <= j < i ==> before[j] != elem@,
        decreases items.len() - i,
    {
        if same_chars(&items[i], elem) {
            proof {
                assert(before[i as int] == elem@);
                lemma_remove_first_at(before, elem@, i as int);
            }
            items.remove(i);
            assert(texts(items@) =~= before.remove(i as int));
            return true;
        }
        i = i + 1;
    }
    proof {
        lemma_remove_first_at(before, elem@, i as int);
    }
    false
}

/// The list without its leading run of elements in which `part` occurs.
pub fn skip_leading(items: &Vec<Vec<char>>, part: &Vec<char>) -> (rest: Vec<Vec<char>>)
    ensures
        texts(rest@) == drop_leading(texts(items@), part@),
{
    let mut k: usize = 0;
    while k < items.len() && contains(&items[k], part)
        invariant
            k <= items.len(),
            forall|j: int| 0 <= j < k ==> occurs_in(part@, #[trigger] texts(items@)[j]),
        decreases items.len() - k,
    {
        k = k + 1;
    }
    proof {
        if k < items.len() {
            assert(texts(items@)[k as int] == items@[k as int]@);
        }
        lemma_drop_leading_at(texts(items@), part@, k as int);
    }
    let mut rest: Vec<Vec<char>> = Vec::new();
    let mut i: usize = k;
    while i < items.len()
        invariant
            k <= i <= items.len(),
            texts(rest@) == texts(items@).subrange(k as int, i as int),
        decreases items.len() - i,
    {
        let ghost done = rest@;
        let piece = copy_chars(&items[i]);
        rest.push(piece);
        proof {
            lemma_texts_push(done, piece);
            assert(texts(items@).subrange(k as int, i + 1) =~= texts(items@).subrange(
                k as int,
                i as int,
            ).push(items@[i as int]@));
        }
        i = i + 1;
    }
    assert(texts(items@).subrange(k as int, items.len() as int) =~= texts(items@).skip(k as int));
    rest
}

/// The elements of `items` that do not occur in `other`.
pub fn elements_without(items: &Vec<Vec<char>>, other: &Vec<Vec<char>>) -> (out: Vec<Vec<char>>)
    ensures
        texts(out@) == without(texts(items@), texts(other@)),
{
    let mut out: Vec<Vec<char>> = Vec::new();
    let mut i: usize = 0;
    let ghost all = texts(items@);
    let ghost avoid = texts(other@);
    assert(all.skip(0) =~= all);
    assert(texts(out@) + without(all, avoid) =~= without(all, avoid));
    while i < items.len()
        invariant
            i <= items.len(),
            all == texts(items@),
            avoid == texts(other@),
            without(all, avoid) == texts(out@) + without(all.skip(i as int), avoid),
        decreases items.len() - i,
    {
        let ghost tail = all.skip(i as int);
        let ghost done = texts(out@);
        assert(tail[0] == items@[i as int]@);
        assert(tail.drop_first() =~= all.skip(i + 1));
        if !has_element(other, &items[i]) {
            let piece = copy_chars(&items[i]);
            let ghost pieces = out@;
            out.push(piece);
            proof {
                lemma_texts_push(pieces, piece);
                assert(texts(out@) =~= done.push(tail[0]));
                assert(done.push(tail[0]) + without(all.skip(i + 1), avoid) =~= done + (seq![tail[0]]
                    + without(all.skip(i + 1), avoid)));
            }
        }
        i = i + 1;
    }
    assert(all.skip(items.len() as int) =~= Seq::<Seq<char>>::empty());
    assert(texts(out@) + Seq::<Seq<char>>::empty() =~= texts(out@));
    out
}

/// What a change from `oldvec` to `newvec` added and what it deleted.
pub fn diff_vecs(oldvec: &Vec<Vec<char>>, newvec: &Vec<Vec<char>>) -> (r: (
    Vec<Vec<char>>,
    Vec<Vec<char>>,
))
    ensures
        texts(r.0@) == additions(texts(oldvec@), texts(newvec@)),
        texts(r.1@) == deletions(texts(oldvec@), texts(newvec@)),
{
    let deleted = elements_without(oldvec, newvec);
    let added = elements_without(newvec, oldvec);
    (added, deleted)
}

} // verus!
