//! The order of texts: by the first character in which they differ.
use vstd::prelude::*;

use crate::text::{chars_of, Text};

verus! {

/// How one text stands to another.
#[derive(Debug, Clone, Copy, PartialEq, Eq, Structural)]
pub enum Order {
    Before,
    Same,
    After,
}

/// `a` comes before `b`: it has the smaller character where they first differ, or ends there.
pub open spec fn text_before(a: Text, b: Text) -> bool
    decreases b.len(),
{
    if b.len() == 0 {
        false
    } else if a.len() == 0 {
        true
    } else if a[0] != b[0] {
        a[0] < b[0]
    } else {
        text_before(a.skip(1), b.skip(1))
    }
}

/// The order of sequences of texts of one length: by the first text in which they differ.
pub open spec fn key_before(a: Seq<Text>, b: Seq<Text>) -> bool
    decreases b.len(),
{
    if b.len() == 0 {
        false
    } else if a.len() == 0 {
        true
    } else if a[0] != b[0] {
        text_before(a[0], b[0])
    } else {
        key_before(a.skip(1), b.skip(1))
    }
}

/// No text comes before itself.
pub proof fn lemma_text_not_before_itself(a: Text)
    ensures
        !text_before(a, a),
    decreases a.len(),
{
    if a.len() > 0 {
        lemma_text_not_before_itself(a.skip(1));
    }
}

/// What comes before something that comes before a third text comes before that one too.
pub proof fn lemma_text_before_transitive(a: Text, b: Text, c: Text)
    requires
        text_before(a, b),
        text_before(b, c),
    ensures
        text_before(a, c),
    decreases c.len(),
{
    if a.len() > 0 && a[0] == b[0] && b[0] == c[0] {
        lemma_text_before_transitive(a.skip(1), b.skip(1), c.skip(1));
    }
}

/// Of two different texts one comes before the other.
pub proof fn lemma_text_before_total(a: Text, b: Text)
    ensures
        a == b || text_before(a, b) || text_before(b, a),
    decreases a.len(),
{
    if a.len() > 0 && b.len() > 0 && a[0] == b[0] {
        lemma_text_before_total(a.skip(1), b.skip(1));
        if a.skip(1) == b.skip(1) {
            assert(a =~= seq![a[0]] + a.skip(1));
            assert(b =~= seq![b[0]] + b.skip(1));
        }
    } else if a.len() == 0 && b.len() == 0 {
        assert(a =~= b);
    }
}

/// No key comes before itself.
pub proof fn lemma_key_not_before_itself(a: Seq<Text>)
    ensures
        !key_before(a, a),
    decreases a.len(),
{
    if a.len() > 0 {
        lemma_key_not_before_itself(a.skip(1));
    }
}

/// The order of keys is transitive.
pub proof fn lemma_key_before_transitive(a: Seq<Text>, b: Seq<Text>, c: Seq<Text>)
    requires
        key_before(a, b),
        key_before(b, c),
    ensures
        key_before(a, c),
    decreases c.len(),
{
    if a.len() > 0 {
        if a[0] == b[0] {
            if b[0] == c[0] {
                lemma_key_before_transitive(a.skip(1), b.skip(1), c.skip(1));
            }
        } else if b[0] != c[0] {
            lemma_text_before_transitive(a[0], b[0], c[0]);
            if a[0] == c[0] {
                lemma_text_not_before_itself(a[0]);
            }
        }
    }
}

/// Where one key comes before another, the two differ, and the other does not come before the first.
pub proof fn lemma_key_before_one_way(a: Seq<Text>, b: Seq<Text>)
    requires
        key_before(a, b),
    ensures
        a != b,
        !key_before(b, a),
{
    lemma_key_not_before_itself(a);
    if key_before(b, a) {
        lemma_key_before_transitive(a, b, a);
    }
}

/// How `a` stands to `b`.
pub fn text_order(a: &str, b: &str) -> (r: Order)
    ensures
        match r {
            Order::Before => text_before(a@, b@) && a@ != b@,
            Order::Same => a@ == b@,
            Order::After => text_before(b@, a@) && a@ != b@,
        },
{
    let ac = chars_of(a);
    let bc = chars_of(b);
    let mut i: usize = 0;
    proof {
        assert(ac@.skip(0) =~= ac@);
        assert(bc@.skip(0) =~= bc@);
    }
    while i < ac.len() && i < bc.len()
        invariant
            ac@ == a@,
            bc@ == b@,
            0 <= i <= a@.len(),
            i <= b@.len(),
            a@.take(i as int) == b@.take(i as int),
            text_before(a@, b@) == text_before(a@.skip(i as int), b@.skip(i as int)),
            text_before(b@, a@) == text_before(b@.skip(i as int), a@.skip(i as int)),
        decreases a@.len() - i,
    {
        if ac[i] != bc[i] {
            return if ac[i] < bc[i] {
                Order::Before
            } else {
                Order::After
            };
        }
        proof {
            assert(a@.skip(i as int).skip(1) =~= a@.skip(i + 1));
            assert(b@.skip(i as int).skip(1) =~= b@.skip(i + 1));
            assert(a@.take(i + 1) =~= a@.take(i as int).push(a@[i as int]));
            assert(b@.take(i + 1) =~= b@.take(i as int).push(b@[i as int]));
        }
        i += 1;
    }
    if i < ac.len() {
        Order::After
    } else if i < bc.len() {
        Order::Before
    } else {
        proof {
            assert(a@.take(i as int) =~= a@);
            assert(b@.take(i as int) =~= b@);
        }
        Order::Same
    }
}

} // verus!
