//! Lists of strings taken as sets: what two of them share, and what one has alone.
use vstd::prelude::*;
use crate::table::{contains_text, occurs};
use crate::text::texts;

verus! {

/// The items of `left` that occur in `right`, in the order of `left`.
pub open spec fn common(left: Seq<Seq<char>>, right: Seq<Seq<char>>) -> Seq<Seq<char>>
    decreases left.len(),
{
    if left.len() == 0 {
        Seq::empty()
    } else {
        let before = common(left.drop_last(), right);
        if occurs(right, left.last()) {
            before.push(left.last())
        } else {
            before
        }
    }
}

/// The items of `left` that do not occur in `right`, in the order of `left`.
pub open spec fn apart(left: Seq<Seq<char>>, right: Seq<Seq<char>>) -> Seq<Seq<char>>
    decreases left.len(),
{
    if left.len() == 0 {
        Seq::empty()
    } else {
        let before = apart(left.drop_last(), right);
        if occurs(right, left.last()) {
            before
        } else {
            before.push(left.last())
        }
    }
}

/// Whether no item stands at two places.
pub open spec fn distinct(items: Seq<Seq<char>>) -> bool {
    forall|i: int, j: int| 0 <= i < j < items.len() ==> items[i] != items[j]
}

/// An item is in `common(left, right)` exactly when it is in both lists.
pub proof fn law_common_members(left: Seq<Seq<char>>, right: Seq<Seq<char>>, item: Seq<char>)
    ensures
        common(left, right).contains(item) <==> left.contains(item) && occurs(right, item),
    decreases left.len(),
{
    if left.len() > 0 {
        let shorter = left.drop_last();
        law_common_members(shorter, right, item);
        let before = common(shorter, right);
        if left.contains(item) {
            let i = choose|i: int| 0 <= i < left.len() && left[i] == item;
            if i < left.len() - 1 {
                assert(shorter[i] == item);
            }
        }
        if shorter.contains(item) {
            let i = choose|i: int| 0 <= i < shorter.len() && shorter[i] == item;
            assert(left[i] == item);
        }
        assert(left[left.len() - 1] == left.last());
        if occurs(right, left.last()) {
            let after = before.push(left.last());
            assert(after[after.len() - 1] == left.last());
            if before.contains(item) {
                let i = choose|i: int| 0 <= i < before.len() && before[i] == item;
                assert(after[i] == item);
            }
            if after.contains(item) {
                let i = choose|i: int| 0 <= i < after.len() && after[i] == item;
                if i < before.len() {
                    assert(before[i] == item);
                }
            }
        }
    }
}

/// An item is in `apart(left, right)` exactly when it is in `left` and not in `right`.
pub proof fn law_apart_members(left: Seq<Seq<char>>, right: Seq<Seq<char>>, item: Seq<char>)
    ensures
        apart(left, right).contains(item) <==> left.contains(item) && !occurs(right, item),
    decreases left.len(),
{
    if left.len() > 0 {
        let shorter = left.drop_last();
        law_apart_members(shorter, right, item);
        let before = apart(shorter, right);
        if left.contains(item) {
            let i = choose|i: int| 0 <= i < left.len() && left[i] == item;
            if i < left.len() - 1 {
                assert(shorter[i] == item);
            }
        }
        if shorter.contains(item) {
            let i = choose|i: int| 0 <= i < shorter.len() && shorter[i] == item;
            assert(left[i] == item);
        }
        assert(left[left.len() - 1] == left.last());
        if !occurs(right, left.last()) {
            let after = before.push(left.last());
            assert(after[after.len() - 1] == left.last());
            if before.contains(item) {
                let i = choose|i: int| 0 <= i < before.len() && before[i] == item;
                assert(after[i] == item);
            }
            if after.contains(item) {
                let i = choose|i: int| 0 <= i < after.len() && after[i] == item;
                if i < before.len() {
                    assert(before[i] == item);
                }
            }
        }
    }
}

/// Where no item stands twice in `left`, none stands twice in `common(left, right)`.
pub proof fn law_common_distinct(left: Seq<Seq<char>>, right: Seq<Seq<char>>)
    requires
        distinct(left),
    ensures
        distinct(common(left, right)),
    decreases left.len(),
{
    if left.len() > 0 {
        let shorter = left.drop_last();
        let before = common(shorter, right);
        assert(distinct(shorter)) by {
            assert forall|i: int, j: int| 0 <= i < j < shorter.len() implies shorter[i]
                != shorter[j] by {
                assert(left[i] != left[j]);
            }
        }
        law_common_distinct(shorter, right);
        law_common_members(shorter, right, left.last());
        if before.contains(left.last()) {
            let i = choose|i: int| 0 <= i < shorter.len() && shorter[i] == left.last();
            assert(left[i] != left[left.len() - 1]);
        }
    }
}

/// Where no item stands twice in `left`, none stands twice in `apart(left, right)`.
pub proof fn law_apart_distinct(left: Seq<Seq<char>>, right: Seq<Seq<char>>)
    requires
        distinct(left),
    ensures
        distinct(apart(left, right)),
    decreases left.len(),
{
    if left.len() > 0 {
        let shorter = left.drop_last();
        let before = apart(shorter, right);
        assert(distinct(shorter)) by {
            assert forall|i: int, j: int| 0 <= i < j < shorter.len() implies shorter[i]
                != shorter[j] by {
                assert(left[i] != left[j]);
            }
        }
        law_apart_distinct(shorter, right);
        law_apart_members(shorter, right, left.last());
        if before.contains(left.last()) {
            let i = choose|i: int| 0 <= i < shorter.len() && shorter[i] == left.last();
            assert(left[i] != left[left.len() - 1]);
        }
    }
}

/// The strings of `hs1` that `hs2` holds too.
pub fn get_intersection(hs1: &Vec<String>, hs2: &Vec<String>) -> (intersection: Vec<String>)
    ensures
        texts(intersection@) == common(texts(hs1@), texts(hs2@)),
        distinct(texts(hs1@)) ==> distinct(texts(intersection@)),
{
    proof {
        if distinct(texts(hs1@)) {
            law_common_distinct(texts(hs1@), texts(hs2@));
        }
    }
    let mut intersection: Vec<String> = Vec::new();
    let mut i: usize = 0;
    proof {
        assert(texts(hs1@).take(0) =~= Seq::<Seq<char>>::empty());
        assert(texts(intersection@) =~= Seq::<Seq<char>>::empty());
    }
    while i < hs1.len()
        invariant
            i <= hs1.len(),
            texts(intersection@) == common(texts(hs1@).take(i as int), texts(hs2@)),
        decreases hs1.len() - i,
    {
        let ghost before = texts(intersection@);
        proof {
            assert(texts(hs1@).take(i + 1).drop_last() =~= texts(hs1@).take(i as int));
            assert(texts(hs1@).take(i + 1).last() == hs1@[i as int]@);
        }
        if contains_text(hs2, &hs1[i]) {
            intersection.push(hs1[i].clone());
            proof {
                assert(texts(intersection@) =~= before.push(hs1@[i as int]@));
            }
        }
        i += 1;
    }
    proof {
        assert(texts(hs1@).take(hs1.len() as int) =~= texts(hs1@));
    }
    intersection
}

/// The strings of `hs1` that `hs2` does not hold.
pub fn get_difference(hs1: &Vec<String>, hs2: &Vec<String>) -> (difference: Vec<String>)
    ensures
        texts(difference@) == apart(texts(hs1@), texts(hs2@)),
        distinct(texts(hs1@)) ==> distinct(texts(difference@)),
{
    proof {
        if distinct(texts(hs1@)) {
            law_apart_distinct(texts(hs1@), texts(hs2@));
        }
    }
    let mut difference: Vec<String> = Vec::new();
    let mut i: usize = 0;
    proof {
        assert(texts(hs1@).take(0) =~= Seq::<Seq<char>>::empty());
        assert(texts(difference@) =~= Seq::<Seq<char>>::empty());
    }
    while i < hs1.len()
        invariant
            i <= hs1.len(),
            texts(difference@) == apart(texts(hs1@).take(i as int), texts(hs2@)),
        decreases hs1.len() - i,
    {
        let ghost before = texts(difference@);
        proof {
            assert(texts(hs1@).take(i + 1).drop_last() =~= texts(hs1@).take(i as int));
            assert(texts(hs1@).take(i + 1).last() == hs1@[i as int]@);
        }
        if !contains_text(hs2, &hs1[i]) {
            difference.push(hs1[i].clone());
            proof {
                assert(texts(difference@) =~= before.push(hs1@[i as int]@));
            }
        }
        i += 1;
    }
    proof {
        assert(texts(hs1@).take(hs1.len() as int) =~= texts(hs1@));
    }
    difference
}

} // verus!
