//! Lists that are kept in the order of a key, with one item for each key.
use vstd::prelude::*;

use crate::order::{
    key_before, lemma_key_before_one_way, lemma_key_before_transitive, lemma_key_not_before_itself,
    Order,
};
use crate::text::Text;

verus! {

/// An item that has a key made of texts.
pub trait Keyed: Sized {
    /// The key of the item.
    spec fn key(&self) -> Seq<Text>;

    /// How the key of the item stands to that of another.
    fn key_order(&self, other: &Self) -> (r: Order)
        ensures
            match r {
                Order::Before => key_before(self.key(), other.key()),
                Order::Same => self.key() == other.key(),
                Order::After => key_before(other.key(), self.key()),
            },
    ;
}

/// The items are in the order of their keys, and no key occurs twice.
pub open spec fn ordered<T: Keyed>(items: Seq<T>) -> bool {
    forall|i: int, j: int|
        0 <= i < j < items.len() ==> key_before(
            (#[trigger] items[i]).key(),
            (#[trigger] items[j]).key(),
        )
}

/// The item in the given place is the last one that has its key.
pub open spec fn last_of_key<T: Keyed>(items: Seq<T>, i: int) -> bool {
    forall|j: int| i < j < items.len() ==> (#[trigger] items[j]).key() != items[i].key()
}

/// The list holds, in the order of their keys, the items that are the last of their key in the
/// given sequence.
pub open spec fn collected<T: Keyed>(list: Seq<T>, given: Seq<T>) -> bool {
    &&& ordered(list)
    &&& forall|x: T| #[trigger]
        list.contains(x) <==> exists|i: int|
            0 <= i < given.len() && #[trigger] given[i] == x && last_of_key(given, i)
}

/// Puts an item in its place; one with the same key makes way for it.
pub fn put<T: Keyed>(items: &mut Vec<T>, item: T)
    requires
        ordered(old(items)@),
    ensures
        ordered(final(items)@),
        forall|x: T| #[trigger]
            final(items)@.contains(x) <==> x == item || (old(items)@.contains(x) && x.key()
                != item.key()),
{
    let mut i: usize = 0;
    while i < items.len()
        invariant
            0 <= i <= items@.len(),
            items@ == old(items)@,
            forall|j: int| 0 <= j < i ==> key_before((#[trigger] items@[j]).key(), item.key()),
        ensures
            0 <= i <= items@.len(),
            items@ == old(items)@,
            forall|j: int| 0 <= j < i ==> key_before((#[trigger] items@[j]).key(), item.key()),
            i < items@.len() ==> items@[i as int].key() == item.key() || key_before(
                item.key(),
                items@[i as int].key(),
            ),
        decreases items@.len() - i,
    {
        match items[i].key_order(&item) {
            Order::Before => {},
            _ => {
                break ;
            },
        }
        i += 1;
    }
    let ghost before = items@;
    let taken = if i < items.len() {
        match items[i].key_order(&item) {
            Order::Same => true,
            _ => false,
        }
    } else {
        false
    };
    proof {
        if i < before.len() && taken {
            lemma_key_not_before_itself(item.key());
        }
        assert forall|j: int| 0 <= j < i implies (#[trigger] before[j]).key() != item.key() by {
            lemma_key_before_one_way(before[j].key(), item.key());
        }
        if i < before.len() && !taken {
            if before[i as int].key() == item.key() {
                lemma_key_not_before_itself(item.key());
            }
            assert(key_before(item.key(), before[i as int].key()));
        }
        assert forall|j: int| i < j < before.len() implies key_before(
            item.key(),
            (#[trigger] before[j]).key(),
        ) by {
            assert(key_before(before[i as int].key(), before[j].key()));
            if !taken {
                lemma_key_before_transitive(
                    item.key(),
                    before[i as int].key(),
                    before[j].key(),
                );
            }
        }
        assert forall|j: int| i < j < before.len() implies (#[trigger] before[j]).key()
            != item.key() by {
            lemma_key_before_one_way(item.key(), before[j].key());
        }
    }
    if taken {
        items.set(i, item);
        proof {
            let after = items@;
            assert(after == before.update(i as int, item));
            assert forall|x: T| #[trigger] after.contains(x) <==> x == item || (before.contains(x) && x.key()
                != item.key()) by {
                if after.contains(x) {
                    let k = choose|k: int| 0 <= k < after.len() && after[k] == x;
                    if k != i {
                        assert(before[k] == x);
                    }
                }
                if x == item {
                    assert(after[i as int] == x);
                }
                if before.contains(x) && x.key() != item.key() {
                    let k = choose|k: int| 0 <= k < before.len() && before[k] == x;
                    assert(after[k] == x);
                }
            }
        }
    } else {
        proof {
            if i < before.len() {
                lemma_key_before_one_way(item.key(), before[i as int].key());
            }
        }
        items.insert(i, item);
        proof {
            let after = items@;
            assert(after == before.insert(i as int, item));
            assert forall|x: T| #[trigger] after.contains(x) <==> x == item || (before.contains(x) && x.key()
                != item.key()) by {
                if after.contains(x) {
                    let k = choose|k: int| 0 <= k < after.len() && after[k] == x;
                    if k < i {
                        assert(before[k] == x);
                    } else if k > i {
                        assert(before[k - 1] == x);
                    }
                }
                if x == item {
                    assert(after[i as int] == x);
                }
                if before.contains(x) && x.key() != item.key() {
                    let k = choose|k: int| 0 <= k < before.len() && before[k] == x;
                    if k < i {
                        assert(after[k] == x);
                    } else {
                        assert(after[k + 1] == x);
                    }
                }
            }
            assert forall|a: int, b: int| 0 <= a < b < after.len() implies key_before(
                (#[trigger] after[a]).key(),
                (#[trigger] after[b]).key(),
            ) by {
                if a < i {
                    assert(after[a] == before[a]);
                } else if a > i {
                    assert(after[a] == before[a - 1]);
                }
                if b < i {
                    assert(after[b] == before[b]);
                } else if b > i {
                    assert(after[b] == before[b - 1]);
                }
            }
        }
    }
}

/// The items that are the last of their key, in the order of their keys.
pub fn collect<T: Keyed>(given: Vec<T>) -> (r: Vec<T>)
    ensures
        collected(r@, given@),
{
    let ghost all = given@;
    let mut out: Vec<T> = Vec::new();
    for item in it: given
        invariant
            it.seq() == all,
            collected(out@, all.take(it.index())),
    {
        let ghost k = it.index();
        let ghost before = out@;
        put(&mut out, item);
        proof {
            let old_part = all.take(k);
            let new_part = all.take(k + 1);
            assert forall|x: T| #[trigger] out@.contains(x) <==> exists|i: int|
                0 <= i < new_part.len() && #[trigger] new_part[i] == x && last_of_key(
                    new_part,
                    i,
                ) by {
                if x == item {
                    assert(new_part[k] == x && last_of_key(new_part, k));
                }
                if before.contains(x) && x.key() != item.key() {
                    let i = choose|i: int|
                        0 <= i < old_part.len() && #[trigger] old_part[i] == x && last_of_key(
                            old_part,
                            i,
                        );
                    assert(new_part[i] == x);
                    assert forall|j: int| i < j < new_part.len() implies (
                    #[trigger] new_part[j]).key() != new_part[i].key() by {
                        if j < k {
                            assert(new_part[j] == old_part[j]);
                        }
                    }
                    assert(last_of_key(new_part, i));
                }
                if exists|i: int|
                    0 <= i < new_part.len() && #[trigger] new_part[i] == x && last_of_key(
                        new_part,
                        i,
                    ) {
                    let i = choose|i: int|
                        0 <= i < new_part.len() && #[trigger] new_part[i] == x && last_of_key(
                            new_part,
                            i,
                        );
                    if i < k {
                        assert(new_part[k].key() != new_part[i].key());
                        assert(old_part[i] == x);
                        assert forall|j: int| i < j < old_part.len() implies (
                        #[trigger] old_part[j]).key() != old_part[i].key() by {
                            assert(new_part[j] == old_part[j]);
                        }
                        assert(last_of_key(old_part, i));
                        assert(before.contains(x));
                    }
                }
            }
        }
    }
    proof {
        assert(all.take(all.len() as int) =~= all);
    }
    out
}

/// An ordered list is decided by what it holds.
pub proof fn law_contents_decide_the_list<T: Keyed>(a: Seq<T>, b: Seq<T>)
    requires
        ordered(a),
        ordered(b),
        forall|x: T|
            #![trigger a.contains(x)]
            #![trigger b.contains(x)]
            a.contains(x) <==> b.contains(x),
    ensures
        a == b,
    decreases a.len(),
{
    if a.len() == 0 {
        if b.len() > 0 {
            assert(b.contains(b[0]));
        }
        assert(a =~= b);
    } else {
        assert(a.contains(a[0]));
        assert(b.contains(a[0]));
        let k = choose|k: int| 0 <= k < b.len() && b[k] == a[0];
        assert(b.contains(b[0]));
        assert(b.contains(a[0]) && a.contains(b[0]));
        let m = choose|m: int| 0 <= m < a.len() && a[m] == b[0];
        if k > 0 && m > 0 {
            lemma_key_before_one_way(a[0].key(), a[m].key());
        }
        if m == 0 {
            if k > 0 {
                lemma_key_not_before_itself(b[0].key());
            }
        } else {
            if k == 0 {
                lemma_key_not_before_itself(a[0].key());
            }
        }
        assert(a[0] == b[0]);
        let ra = a.skip(1);
        let rb = b.skip(1);
        assert forall|x: T|
            #![trigger ra.contains(x)]
            #![trigger rb.contains(x)]
            ra.contains(x) <==> rb.contains(x) by {
            if ra.contains(x) {
                let i = choose|i: int| 0 <= i < ra.len() && ra[i] == x;
                assert(a[i + 1] == x);
                assert(a.contains(x));
                assert(b.contains(x));
                let j = choose|j: int| 0 <= j < b.len() && b[j] == x;
                if j == 0 {
                    assert(key_before(a[0].key(), a[i + 1].key()));
                    lemma_key_not_before_itself(a[0].key());
                }
                assert(rb[j - 1] == x);
            }
            if rb.contains(x) {
                let i = choose|i: int| 0 <= i < rb.len() && rb[i] == x;
                assert(b[i + 1] == x);
                assert(b.contains(x));
                assert(a.contains(x));
                let j = choose|j: int| 0 <= j < a.len() && a[j] == x;
                if j == 0 {
                    assert(key_before(b[0].key(), b[i + 1].key()));
                    lemma_key_not_before_itself(b[0].key());
                }
                assert(ra[j - 1] == x);
            }
        }
        assert forall|i: int, j: int| 0 <= i < j < ra.len() implies key_before(
            (#[trigger] ra[i]).key(),
            (#[trigger] ra[j]).key(),
        ) by {
            assert(ra[i] == a[i + 1] && ra[j] == a[j + 1]);
        }
        assert forall|i: int, j: int| 0 <= i < j < rb.len() implies key_before(
            (#[trigger] rb[i]).key(),
            (#[trigger] rb[j]).key(),
        ) by {
            assert(rb[i] == b[i + 1] && rb[j] == b[j + 1]);
        }
        law_contents_decide_the_list(ra, rb);
        assert(a =~= seq![a[0]] + ra);
        assert(b =~= seq![b[0]] + rb);
    }
}

/// Collecting what was collected changes nothing.
pub proof fn law_collecting_twice<T: Keyed>(list: Seq<T>, again: Seq<T>)
    requires
        ordered(list),
        collected(again, list),
    ensures
        again == list,
{
    assert forall|x: T|
        #![trigger again.contains(x)]
        #![trigger list.contains(x)]
        again.contains(x) <==> list.contains(x) by {
        if list.contains(x) {
            let i = choose|i: int| 0 <= i < list.len() && list[i] == x;
            assert forall|j: int| i < j < list.len() implies (#[trigger] list[j]).key()
                != list[i].key() by {
                assert(key_before(list[i].key(), list[j].key()));
                lemma_key_before_one_way(list[i].key(), list[j].key());
            }
            assert(list[i] == x && last_of_key(list, i));
        }
    }
    law_contents_decide_the_list(again, list);
}

/// Every key that occurs in the sequence has its item in the list.
pub proof fn lemma_every_key_is_kept<T: Keyed>(list: Seq<T>, given: Seq<T>, i: int) -> (j: int)
    requires
        collected(list, given),
        0 <= i < given.len(),
    ensures
        0 <= j < list.len(),
        list[j].key() == given[i].key(),
    decreases given.len() - i,
{
    if last_of_key(given, i) {
        assert(given[i] == given[i] && last_of_key(given, i));
        assert(list.contains(given[i]));
        choose|j: int| 0 <= j < list.len() && list[j] == given[i]
    } else {
        let k = choose|k: int| i < k < given.len() && (#[trigger] given[k]).key() == given[i].key();
        lemma_every_key_is_kept(list, given, k)
    }
}

/// Every item of the list is one of the sequence.
pub proof fn lemma_every_item_is_given<T: Keyed>(list: Seq<T>, given: Seq<T>, j: int) -> (i: int)
    requires
        collected(list, given),
        0 <= j < list.len(),
    ensures
        0 <= i < given.len(),
        given[i] == list[j],
{
    assert(list.contains(list[j]));
    choose|i: int|
        0 <= i < given.len() && #[trigger] given[i] == list[j] && last_of_key(given, i)
}

} // verus!
