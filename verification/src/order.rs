//! The order of texts by their bytes.

use vstd::prelude::*;
use vstd::string::*;
use vstd::utf8::*;

use crate::text::lemma_encoding_injective;

verus! {

/// `a` comes before `b`: at the first byte where they differ it has the smaller one,
/// or it ends there.
pub open spec fn precedes(a: Seq<u8>, b: Seq<u8>) -> bool
    decreases b.len(),
{
    if b.len() == 0 {
        false
    } else if a.len() == 0 {
        true
    } else if a[0] != b[0] {
        a[0] < b[0]
    } else {
        precedes(a.drop_first(), b.drop_first())
    }
}

/// The text `a` comes before the text `b`.
pub open spec fn text_precedes(a: Seq<char>, b: Seq<char>) -> bool {
    precedes(encode_utf8(a), encode_utf8(b))
}

pub proof fn lemma_precedes_asymmetric(a: Seq<u8>, b: Seq<u8>)
    requires
        precedes(a, b),
    ensures
        !precedes(b, a),
    decreases b.len(),
{
    if a.len() > 0 && a[0] == b[0] {
        lemma_precedes_asymmetric(a.drop_first(), b.drop_first());
    }
}

pub proof fn lemma_precedes_transitive(a: Seq<u8>, b: Seq<u8>, c: Seq<u8>)
    requires
        precedes(a, b),
        precedes(b, c),
    ensures
        precedes(a, c),
    decreases b.len(),
{
    if a.len() > 0 && a[0] == b[0] && b[0] == c[0] {
        lemma_precedes_transitive(a.drop_first(), b.drop_first(), c.drop_first());
    }
}

pub proof fn lemma_precedes_total(a: Seq<u8>, b: Seq<u8>)
    ensures
        a == b || precedes(a, b) || precedes(b, a),
    decreases b.len(),
{
    if a.len() > 0 && b.len() > 0 && a[0] == b[0] {
        lemma_precedes_total(a.drop_first(), b.drop_first());
        if a.drop_first() == b.drop_first() {
            assert(a =~= seq![a[0]] + a.drop_first());
            assert(b =~= seq![b[0]] + b.drop_first());
        }
    } else if a.len() == 0 && b.len() == 0 {
        assert(a =~= b);
    }
}

/// Texts are ordered in full: of two different ones, one comes first.
pub proof fn lemma_text_order_total(a: Seq<char>, b: Seq<char>)
    ensures
        a == b || text_precedes(a, b) || text_precedes(b, a),
{
    lemma_precedes_total(encode_utf8(a), encode_utf8(b));
    if encode_utf8(a) == encode_utf8(b) {
        lemma_encoding_injective(a, b);
    }
}

/// Whether the text `a` comes before the text `b`.
pub fn text_less(a: &str, b: &str) -> (r: bool)
    ensures
        r == text_precedes(a@, b@),
{
    let x = a.as_bytes();
    let y = b.as_bytes();
    let mut i: usize = 0;
    proof {
        assert(x@.skip(0) =~= x@);
        assert(y@.skip(0) =~= y@);
    }
    while i < x.len() && i < y.len()
        invariant
            i <= x@.len(),
            i <= y@.len(),
            x@ == encode_utf8(a@),
            y@ == encode_utf8(b@),
            precedes(x@, y@) == precedes(x@.skip(i as int), y@.skip(i as int)),
        decreases x@.len() - i,
    {
        proof {
            assert(x@.skip(i as int)[0] == x@[i as int]);
            assert(y@.skip(i as int)[0] == y@[i as int]);
            assert(x@.skip(i as int).drop_first() =~= x@.skip(i + 1));
            assert(y@.skip(i as int).drop_first() =~= y@.skip(i + 1));
        }
        if x[i] != y[i] {
            return x[i] < y[i];
        }
        i = i + 1;
    }
    i < y.len()
}

/// The texts stand in order, smaller ones first.
pub open spec fn is_ascending(names: Seq<String>) -> bool {
    forall|i: int, j: int|
        0 <= i < j < names.len() ==> !text_precedes((#[trigger] names[j])@, (#[trigger] names[i])@)
}

proof fn lemma_insert_keeps_order(names: Seq<String>, k: int, name: String)
    requires
        is_ascending(names),
        0 <= k <= names.len(),
        forall|i: int| 0 <= i < k ==> !text_precedes(name@, (#[trigger] names[i])@),
        k < names.len() ==> text_precedes(name@, names[k]@),
    ensures
        is_ascending(names.insert(k, name)),
{
    let r = names.insert(k, name);
    assert forall|i: int, j: int| 0 <= i < j < r.len() implies !text_precedes(
        (#[trigger] r[j])@,
        (#[trigger] r[i])@,
    ) by {
        if j == k {
            assert(r[i] == names[i]);
        } else if i == k {
            assert(r[j] == names[j - 1]);
            if text_precedes(r[j]@, name@) {
                let x = encode_utf8(names[j - 1]@);
                let y = encode_utf8(name@);
                let z = encode_utf8(names[k]@);
                lemma_precedes_transitive(x, y, z);
                if j - 1 == k {
                    lemma_precedes_asymmetric(x, x);
                }
            }
        } else {
            let a = if i < k {
                i
            } else {
                i - 1
            };
            let b = if j < k {
                j
            } else {
                j - 1
            };
            assert(r[i] == names[a] && r[j] == names[b]);
        }
    }
}

/// Inserting an item adds it to the items, wherever it goes.
pub proof fn lemma_insert_multiset<A>(s: Seq<A>, k: int, item: A)
    requires
        0 <= k <= s.len(),
    ensures
        s.insert(k, item).to_multiset() == s.to_multiset().insert(item),
{
    broadcast use vstd::seq_lib::group_to_multiset_ensures;

    let r = s.insert(k, item);
    assert(r[k] == item);
    assert(r.contains(item));
    assert(r.remove(k) =~= s);
    assert(s.to_multiset() == r.to_multiset().remove(item));
    assert(r.to_multiset() =~= s.to_multiset().insert(item));
}

/// The same names in order.
pub fn sorted_names(names: Vec<String>) -> (r: Vec<String>)
    ensures
        is_ascending(r@),
        r@.to_multiset() == names@.to_multiset(),
{
    let mut out: Vec<String> = Vec::new();
    let mut i: usize = 0;
    proof {
        assert(names@.take(0) =~= Seq::<String>::empty());
    }
    while i < names.len()
        invariant
            i <= names@.len(),
            is_ascending(out@),
            out@.to_multiset() == names@.take(i as int).to_multiset(),
        decreases names@.len() - i,
    {
        let mut k: usize = 0;
        while k < out.len() && !text_less(names[i].as_str(), out[k].as_str())
            invariant
                i < names@.len(),
                k <= out@.len(),
                forall|j: int|
                    0 <= j < k ==> !text_precedes(names@[i as int]@, (#[trigger] out@[j])@),
            decreases out@.len() - k,
        {
            k = k + 1;
        }
        proof {
            lemma_insert_keeps_order(out@, k as int, names@[i as int]);
            broadcast use vstd::seq_lib::group_to_multiset_ensures;
            assert(names@.take(i + 1) =~= names@.take(i as int).push(names@[i as int]));
            lemma_insert_multiset(out@, k as int, names@[i as int]);
        }
        out.insert(k, names[i].clone());
        i = i + 1;
    }
    proof {
        assert(names@.take(names@.len() as int) =~= names@);
    }
    out
}

/// The first byte in which two texts differ decides which comes first, and a text comes
/// before every longer one that begins with it.
pub proof fn lemma_first_difference_decides(front: Seq<u8>, a: Seq<u8>, b: Seq<u8>)
    ensures
        a.len() > 0 && b.len() > 0 && a[0] != b[0] ==> (precedes(front + a, front + b) <==> a[0]
            < b[0]),
        b.len() > 0 ==> precedes(front, front + b),
        !precedes(front + a, front),
    decreases front.len(),
{
    let (x, y) = (front + a, front + b);
    if front.len() > 0 {
        lemma_first_difference_decides(front.drop_first(), a, b);
        assert(x.drop_first() =~= front.drop_first() + a);
        assert(y.drop_first() =~= front.drop_first() + b);
        assert(x[0] == front[0] && y[0] == front[0]);
    } else {
        assert(x =~= a);
        assert(y =~= b);
    }
}

/// Sorted names are the names that were given, each no earlier than the one before it.
pub proof fn lemma_sorted_names_are_the_same(names: Vec<String>, r: Vec<String>)
    requires
        call_ensures(sorted_names, (names,), r),
    ensures
        r@.len() == names@.len(),
        forall|name: String| #[trigger] names@.contains(name) <==> r@.contains(name),
        forall|i: int, j: int|
            0 <= i < j < r@.len() ==> (#[trigger] r@[i])@ == (#[trigger] r@[j])@ || text_precedes(
                r@[i]@,
                r@[j]@,
            ),
{
    broadcast use vstd::seq_lib::group_to_multiset_ensures;

    assert(r@.to_multiset().len() == r@.len());
    assert(names@.to_multiset().len() == names@.len());
    assert forall|name: String| #[trigger] names@.contains(name) <==> r@.contains(name) by {
        assert(names@.to_multiset().count(name) == r@.to_multiset().count(name));
    }
    assert forall|i: int, j: int| 0 <= i < j < r@.len() implies (#[trigger] r@[i])@ == (
    #[trigger] r@[j])@ || text_precedes(r@[i]@, r@[j]@) by {
        lemma_text_order_total(r@[i]@, r@[j]@);
        assert(!text_precedes(r@[j]@, r@[i]@));
    }
}

} // verus!
